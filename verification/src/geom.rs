use vstd::prelude::*;

verus! {

/// A coordinate on the grid.
pub type Coord = i64;

/// A position (or a direction) on the grid.
#[derive(Clone, Copy, PartialEq, Eq, Structural, Debug)]
pub struct Pos {
    pub x: Coord,
    pub y: Coord,
}

impl View for Pos {
    type V = (int, int);

    open spec fn view(&self) -> (int, int) {
        (self.x as int, self.y as int)
    }
}

/// The integer pair `a + b`.
pub open spec fn add_spec(a: (int, int), b: (int, int)) -> (int, int) {
    (a.0 + b.0, a.1 + b.1)
}

/// The integer pair `a + k * d`.
pub open spec fn ray_point(a: (int, int), d: (int, int), k: int) -> (int, int) {
    (a.0 + k * d.0, a.1 + k * d.1)
}

pub open spec fn abs_spec(v: int) -> int {
    if v < 0 { -v } else { v }
}

pub open spec fn max_spec(a: int, b: int) -> int {
    if a < b { b } else { a }
}

/// Chebyshev distance between two points.
pub open spec fn distance_spec(a: (int, int), b: (int, int)) -> int {
    max_spec(abs_spec(b.0 - a.0), abs_spec(b.1 - a.1))
}

/// Manhattan distance between two points.
pub open spec fn distance_manhattan_spec(a: (int, int), b: (int, int)) -> int {
    abs_spec(b.0 - a.0) + abs_spec(b.1 - a.1)
}

pub open spec fn fits_coord(v: int) -> bool {
    i64::MIN <= v <= i64::MAX
}

impl Pos {
    pub fn new(x: Coord, y: Coord) -> (p: Pos)
        ensures
            p.x == x,
            p.y == y,
    {
        Pos { x, y }
    }

    /// `self + d`, or `None` where a coordinate does not fit in a `Coord`.
    pub fn checked_add(self, d: Pos) -> (r: Option<Pos>)
        ensures
            (fits_coord(self.x + d.x) && fits_coord(self.y + d.y)) <==> r is Some,
            r matches Some(p) ==> p@ == add_spec(self@, d@),
    {
        let x = self.x.checked_add(d.x);
        let y = self.y.checked_add(d.y);
        match (x, y) {
            (Some(x), Some(y)) => Some(Pos { x, y }),
            _ => None,
        }
    }
}

fn abs_i128(v: i128) -> (r: i128)
    requires
        v > i128::MIN,
    ensures
        r == abs_spec(v as int),
{
    if v < 0 {
        -v
    } else {
        v
    }
}

/// Chebyshev distance (the larger of the two coordinate differences).
pub fn distance(a: Pos, b: Pos) -> (r: i128)
    ensures
        r == distance_spec(a@, b@),
{
    let dx = abs_i128(b.x as i128 - a.x as i128);
    let dy = abs_i128(b.y as i128 - a.y as i128);
    if dx < dy {
        dy
    } else {
        dx
    }
}

/// Manhattan distance (the sum of the two coordinate differences).
pub fn distance_manhattan(a: Pos, b: Pos) -> (r: i128)
    ensures
        r == distance_manhattan_spec(a@, b@),
{
    let dx = abs_i128(b.x as i128 - a.x as i128);
    let dy = abs_i128(b.y as i128 - a.y as i128);
    dx + dy
}

/// Both distances are symmetric, and the Chebyshev distance never exceeds
/// the Manhattan distance, which is at most twice as large.
pub proof fn law_distances(a: (int, int), b: (int, int))
    ensures
        distance_spec(a, b) == distance_spec(b, a),
        distance_manhattan_spec(a, b) == distance_manhattan_spec(b, a),
        0 <= distance_spec(a, b) <= distance_manhattan_spec(a, b) <= 2 * distance_spec(a, b),
{
}

} // verus!
