use luhn_geometry::Circle;
use luhn_geometry::Point;
use luhn_geometry::Polygon;
use luhn_geometry::Shape;

fn round_two_digits(x: f64) -> f64 {
    (x * 100.0).round() / 100.0
}

fn perimeter(shape: &Shape) -> f64 {
    match shape {
        Shape::Polygon(poly) => poly.edge_dists_sq().iter().map(|&d| (d as f64).sqrt()).sum(),
        Shape::Circle(circle) => 2.0 * std::f64::consts::PI * f64::from(circle.radius),
    }
}

#[test]
fn test_point_magnitude() {
    let p1 = Point::new(12, 13);
    assert_eq!(round_two_digits((p1.magnitude_sq() as f64).sqrt()), 17.69);
}

#[test]
fn test_point_dist() {
    let p1 = Point::new(10, 10);
    let p2 = Point::new(14, 13);
    assert_eq!(round_two_digits((p1.dist_sq(p2) as f64).sqrt()), 5.00);
}

#[test]
fn test_point_add() {
    let p1 = Point::new(16, 16);
    let p2 = p1 + Point::new(-4, 3);
    assert_eq!(p2, Point::new(12, 19));
}

#[test]
fn test_polygon_left_most_point() {
    let p1 = Point::new(12, 13);
    let p2 = Point::new(16, 16);

    let mut poly = Polygon::new();
    poly.add_point(p1);
    poly.add_point(p2);
    assert_eq!(poly.left_most_point(), Some(p1));
}

#[test]
fn test_polygon_iter() {
    let p1 = Point::new(12, 13);
    let p2 = Point::new(16, 16);

    let mut poly = Polygon::new();
    poly.add_point(p1);
    poly.add_point(p2);

    let points = poly.iter();
    assert_eq!(points, vec![Point::new(12, 13), Point::new(16, 16)]);
}

#[test]
fn test_shape_perimeters() {
    let mut poly = Polygon::new();
    poly.add_point(Point::new(12, 13));
    poly.add_point(Point::new(17, 11));
    poly.add_point(Point::new(16, 16));

    let circle = Circle::new(Point::new(10, 20), 5);

    let shapes = vec![Shape::from(poly), Shape::from(circle)];
    let perimeters = shapes
        .iter()
        .map(perimeter)
        .map(round_two_digits)
        .collect::<Vec<_>>();
    assert_eq!(perimeters, vec![15.48, 31.42]);
}

#[test]
fn test_point_add_identity_and_commutativity() {
    let p = Point::new(-7, 42);
    assert_eq!(p + Point::new(0, 0), p);
    let q = Point::new(3, -9);
    assert_eq!(p + q, q + p);
    assert_eq!((p + q) + Point::new(1, 1), p + (q + Point::new(1, 1)));
}

#[test]
fn test_point_squared_metrics_exact() {
    assert_eq!(Point::new(12, 13).magnitude_sq(), 313);
    assert_eq!(Point::new(10, 10).dist_sq(Point::new(14, 13)), 25);
    assert_eq!(Point::new(-3, 4).magnitude_sq(), 25);
}

#[test]
fn test_empty_polygon() {
    let poly = Polygon::new();
    assert_eq!(poly.left_most_point(), None);
    assert_eq!(poly.edge_dists_sq(), Vec::<u128>::new());
    assert_eq!(perimeter(&Shape::from(poly)), 0.0);
}

#[test]
fn test_single_vertex_polygon() {
    let mut poly = Polygon::new();
    poly.add_point(Point::new(4, -2));
    assert_eq!(poly.left_most_point(), Some(Point::new(4, -2)));
    assert_eq!(poly.edge_dists_sq(), vec![0]);
    assert_eq!(perimeter(&Shape::from(poly)), 0.0);
}

#[test]
fn test_left_most_tie_broken_by_insertion_order() {
    let mut poly = Polygon::new();
    poly.add_point(Point::new(5, 1));
    poly.add_point(Point::new(5, 2));
    poly.add_point(Point::new(7, 0));
    assert_eq!(poly.left_most_point(), Some(Point::new(5, 1)));
}

#[test]
fn test_edge_dists_sq_exact() {
    let mut poly = Polygon::new();
    poly.add_point(Point::new(12, 13));
    poly.add_point(Point::new(17, 11));
    poly.add_point(Point::new(16, 16));
    assert_eq!(poly.edge_dists_sq(), vec![29, 26, 25]);
}

#[test]
fn test_circle_new_keeps_center_and_radius() {
    let c = Circle::new(Point::new(10, 20), 5);
    assert_eq!(c.center, Point::new(10, 20));
    assert_eq!(c.radius, 5);
}

#[test]
fn test_negative_radius_is_accepted() {
    let c = Circle::new(Point::new(0, 0), -5);
    assert_eq!(c.radius, -5);
    let p = perimeter(&Shape::from(c));
    assert_eq!(round_two_digits(p), -31.42);
}
