//! A small verified library with two independent parts: a Luhn checksum
//! validator for textual card numbers, and a 2-D integer geometry kit with
//! points, polygons, circles and a shape sum type.

pub mod algorithm;
pub mod polygon;

pub use algorithm::luhn;
pub use polygon::Circle;
pub use polygon::Point;
pub use polygon::Polygon;
pub use polygon::Shape;
