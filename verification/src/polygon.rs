//! 2-D integer geometry: points with component-wise addition and squared
//! Euclidean metrics, polygons as ordered vertex sequences, circles, and a
//! closed shape sum type over the two.
//!
//! Euclidean lengths are square roots and so rarely integers; the verified
//! interface exposes the exact squared lengths instead, and a host program
//! may take square roots of them.

use vstd::prelude::*;

verus! {

/// A point in the plane with integer coordinates.
#[derive(Clone, Copy, Debug, PartialEq, Eq, Structural)]
pub struct Point {
    pub x: i32,
    pub y: i32,
}

/// The squared distance of `p` from the origin.
pub open spec fn spec_magnitude_sq(p: Point) -> int {
    p.x * p.x + p.y * p.y
}

/// The squared Euclidean distance between `p` and `q`.
pub open spec fn spec_dist_sq(p: Point, q: Point) -> int {
    (q.x - p.x) * (q.x - p.x) + (q.y - p.y) * (q.y - p.y)
}

/// Whether the component-wise sum of `p` and `q` stays within the
/// coordinate type, the one machine limit on point addition.
pub open spec fn add_fits(p: Point, q: Point) -> bool {
    i32::MIN <= p.x + q.x <= i32::MAX && i32::MIN <= p.y + q.y <= i32::MAX
}

/// The component-wise sum of `p` and `q`.
pub open spec fn spec_add(p: Point, q: Point) -> Point {
    Point { x: (p.x + q.x) as i32, y: (p.y + q.y) as i32 }
}

impl core::ops::Add for Point {
    type Output = Point;

    /// Component-wise vector addition; both operands are consumed by value
    /// and a fresh point is produced.
    fn add(self, rhs: Point) -> (r: Point) {
        Point { x: self.x + rhs.x, y: self.y + rhs.y }
    }
}

impl vstd::std_specs::ops::AddSpecImpl for Point {
    open spec fn obeys_add_spec() -> bool {
        true
    }

    open spec fn add_req(self, rhs: Point) -> bool {
        add_fits(self, rhs)
    }

    open spec fn add_spec(self, rhs: Point) -> Point {
        spec_add(self, rhs)
    }
}

/// The origin is the identity of point addition: for every point `p`,
/// `p + (0, 0)` is defined and equal to `p`.
pub proof fn lemma_add_identity(p: Point)
    ensures
        add_fits(p, (Point { x: 0, y: 0 })),
        spec_add(p, (Point { x: 0, y: 0 })) == p,
{
}

/// Point addition is commutative: the sum fits in one order exactly when it
/// fits in the other, and the two sums are equal.
pub proof fn lemma_add_commutative(p: Point, q: Point)
    ensures
        add_fits(p, q) == add_fits(q, p),
        spec_add(p, q) == spec_add(q, p),
{
}

/// Truncated 32-bit addition is associative even where a sum leaves the
/// 32-bit range, since both groupings wrap alike.
proof fn lemma_trunc_add_associative(a: i32, b: i32, c: i32)
    ensures
        ((((a + b) as i32) + c) as i32) == ((a + ((b + c) as i32)) as i32),
{
    assert(((((a + b) as i32) + c) as i32) == ((a + ((b + c) as i32)) as i32)) by (bit_vector);
}

/// Point addition is associative: either grouping of three points gives the
/// same sum. Where every component sum fits (`add_fits` both ways), this is
/// associativity of the exact vector sum.
pub proof fn lemma_add_associative(p: Point, q: Point, r: Point)
    ensures
        spec_add(spec_add(p, q), r) == spec_add(p, spec_add(q, r)),
{
    lemma_trunc_add_associative(p.x, q.x, r.x);
    lemma_trunc_add_associative(p.y, q.y, r.y);
}

/// A square is non-negative, and grows with the magnitude of its root.
proof fn lemma_square_bound(a: int, b: int)
    requires
        -b <= a <= b,
    ensures
        0 <= a * a <= b * b,
{
    assert(0 <= a * a && a * a <= b * b) by (nonlinear_arith)
        requires
            -b <= a <= b,
    ;
}

impl Point {
    /// Constructs the point (x, y); any integer pair is legal.
    pub fn new(x: i32, y: i32) -> (r: Point)
        ensures
            r == (Point { x, y }),
    {
        Point { x, y }
    }

    /// The squared distance from the origin, exactly x^2 + y^2.
    pub fn magnitude_sq(&self) -> (r: u64)
        ensures
            r == spec_magnitude_sq(*self),
    {
        let xl = self.x as i64;
        let yl = self.y as i64;
        proof {
            lemma_square_bound(xl as int, 0x8000_0000);
            lemma_square_bound(yl as int, 0x8000_0000);
        }
        ((xl * xl) as u64) + ((yl * yl) as u64)
    }

    /// The squared distance to `p`, exactly dx^2 + dy^2.
    pub fn dist_sq(&self, p: Point) -> (r: u128)
        ensures
            r == spec_dist_sq(*self, p),
    {
        let dx = (p.x as i64) - (self.x as i64);
        let dy = (p.y as i64) - (self.y as i64);
        let dxw = dx as i128;
        let dyw = dy as i128;
        proof {
            lemma_square_bound(dxw as int, 0x1_0000_0000);
            lemma_square_bound(dyw as int, 0x1_0000_0000);
        }
        ((dxw * dxw) as u128) + ((dyw * dyw) as u128)
    }
}

/// A polygon as an ordered sequence of vertices; the boundary is the cycle
/// through them in insertion order, the last vertex joining back to the
/// first. The sequence may be empty and vertices may repeat.
pub struct Polygon {
    points: Vec<Point>,
}

impl View for Polygon {
    type V = Seq<Point>;

    closed spec fn view(&self) -> Seq<Point> {
        self.points@
    }
}

/// Whether `s[j]` is the stable minimum of `s` by x-coordinate: no vertex has
/// a smaller x, and every earlier vertex has a strictly larger x.
pub open spec fn is_left_most_at(s: Seq<Point>, j: int) -> bool {
    &&& 0 <= j < s.len()
    &&& forall|i: int| 0 <= i < s.len() ==> s[j].x <= s[i].x
    &&& forall|i: int| 0 <= i < j ==> s[j].x < s[i].x
}

/// The vertex of `s` with the least x-coordinate, ties broken in favour of
/// the earliest occurrence; nothing when `s` is empty.
pub open spec fn spec_left_most(s: Seq<Point>) -> Option<Point>
    decreases s.len(),
{
    if s.len() == 0 {
        None
    } else if s.len() == 1 {
        Some(s[0])
    } else {
        match spec_left_most(s.drop_last()) {
            Some(p) => if s.last().x < p.x {
                Some(s.last())
            } else {
                Some(p)
            },
            None => Some(s.last()),
        }
    }
}

impl Polygon {
    /// Constructs a polygon with no vertices.
    pub fn new() -> (r: Polygon)
        ensures
            r@ == Seq::<Point>::empty(),
    {
        Polygon { points: Vec::new() }
    }

    /// Appends `p` to the end of the vertex sequence.
    pub fn add_point(&mut self, p: Point)
        ensures
            final(self)@ == old(self)@.push(p),
    {
        self.points.push(p);
    }

    /// The vertex with the least x-coordinate, ties broken by insertion
    /// order; nothing when the polygon is empty.
    pub fn left_most_point(&self) -> (r: Option<Point>)
        ensures
            r == spec_left_most(self@),
            r is None <==> self@.len() == 0,
            r matches Some(q) ==> exists|j: int|
                #[trigger] is_left_most_at(self@, j) && self@[j] == q,
    {
        if self.points.len() == 0 {
            return None;
        }
        let mut best: Point = self.points[0];
        let mut bi: usize = 0;
        let mut i: usize = 1;
        proof {
            assert(self@.take(1).len() == 1 && self@.take(1)[0] == self@[0]);
        }
        while i < self.points.len()
            invariant
                1 <= i <= self@.len(),
                bi < i,
                self@[bi as int] == best,
                spec_left_most(self@.take(i as int)) == Some(best),
                forall|k: int| 0 <= k < i ==> best.x <= self@[k].x,
                forall|k: int| 0 <= k < bi ==> best.x < self@[k].x,
            decreases self@.len() - i,
        {
            proof {
                let u = self@.take(i + 1);
                assert(u.drop_last() =~= self@.take(i as int));
                assert(u.last() == self@[i as int]);
            }
            if self.points[i].x < best.x {
                best = self.points[i];
                bi = i;
            }
            i += 1;
        }
        proof {
            assert(self@.take(self@.len() as int) =~= self@);
            assert(is_left_most_at(self@, bi as int));
        }
        Some(best)
    }

    /// The vertices in insertion order, as a fresh vector.
    pub fn iter(&self) -> (r: Vec<Point>)
        ensures
            r@ == self@,
    {
        let mut r: Vec<Point> = Vec::new();
        let mut i: usize = 0;
        while i < self.points.len()
            invariant
                i <= self@.len(),
                r@ == self@.take(i as int),
            decreases self@.len() - i,
        {
            let p = self.points[i];
            proof {
                assert(self@.take(i + 1) =~= self@.take(i as int).push(self@[i as int]));
            }
            r.push(p);
            i += 1;
        }
        proof {
            assert(self@.take(self@.len() as int) =~= self@);
        }
        r
    }

    /// The squared length of each boundary edge, in order: entry `i` is the
    /// squared distance from vertex `i` to the cyclically next vertex. An
    /// empty polygon has no edges.
    pub fn edge_dists_sq(&self) -> (r: Vec<u128>)
        ensures
            r@.len() == self@.len(),
            forall|k: int|
                0 <= k < self@.len() ==> r@[k] == spec_dist_sq(
                    self@[k],
                    self@[(k + 1) % (self@.len() as int)],
                ),
    {
        let n = self.points.len();
        let mut r: Vec<u128> = Vec::new();
        let mut i: usize = 0;
        while i < n
            invariant
                n == self@.len(),
                i <= n,
                r@.len() == i,
                forall|k: int|
                    0 <= k < i ==> r@[k] == spec_dist_sq(self@[k], self@[(k + 1) % (n as int)]),
            decreases n - i,
        {
            let j = (i + 1) % n;
            let d = self.points[i].dist_sq(self.points[j]);
            r.push(d);
            i += 1;
        }
        r
    }
}

/// A circle given by its center and an integer radius; the radius is taken
/// as supplied, with no sign check.
pub struct Circle {
    pub center: Point,
    pub radius: i32,
}

impl Circle {
    /// Constructs a circle from a center and a radius; no validation.
    pub fn new(center: Point, radius: i32) -> (r: Circle)
        ensures
            r == (Circle { center, radius }),
    {
        Circle { center, radius }
    }
}

/// A closed sum over exactly the two shape kinds, each variant owning its
/// value.
pub enum Shape {
    Polygon(Polygon),
    Circle(Circle),
}

impl From<Polygon> for Shape {
    /// Lifts a polygon into the shape sum.
    fn from(value: Polygon) -> (r: Shape) {
        Shape::Polygon(value)
    }
}

impl vstd::std_specs::convert::FromSpecImpl<Polygon> for Shape {
    open spec fn obeys_from_spec() -> bool {
        true
    }

    open spec fn from_spec(value: Polygon) -> Shape {
        Shape::Polygon(value)
    }
}

impl From<Circle> for Shape {
    /// Lifts a circle into the shape sum.
    fn from(value: Circle) -> (r: Shape) {
        Shape::Circle(value)
    }
}

impl vstd::std_specs::convert::FromSpecImpl<Circle> for Shape {
    open spec fn obeys_from_spec() -> bool {
        true
    }

    open spec fn from_spec(value: Circle) -> Shape {
        Shape::Circle(value)
    }
}

} // verus!
