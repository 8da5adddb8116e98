//! Components that every kind of entity may carry.

use vstd::prelude::*;

verus! {

/// Where an entity stands.
#[derive(Debug, Copy, Clone, PartialEq, Eq, Structural)]
pub struct Position {
    pub x: i32,
    pub y: i32,
}

impl Position {
    /// The squared distance between two positions, as a number.
    pub open spec fn spec_distance_sq(a: Position, b: Position) -> int {
        (b.x - a.x) * (b.x - a.x) + (b.y - a.y) * (b.y - a.y)
    }

    /// Tells whether the displacement from `a` to `b` fits the coordinate
    /// type on both axes.
    pub open spec fn delta_fits(a: Position, b: Position) -> bool {
        &&& i32::MIN <= b.x - a.x <= i32::MAX
        &&& i32::MIN <= b.y - a.y <= i32::MAX
    }

    /// Tells whether the squared distance from `a` to `b`, and each step of
    /// its computation, fits the coordinate type.
    pub open spec fn distance_fits(a: Position, b: Position) -> bool {
        &&& Self::delta_fits(a, b)
        &&& (b.x - a.x) * (b.x - a.x) <= i32::MAX
        &&& (b.y - a.y) * (b.y - a.y) <= i32::MAX
        &&& Self::spec_distance_sq(a, b) <= i32::MAX
    }

    /// The squared distance between two positions.
    pub fn distance_sq(a: &Position, b: &Position) -> (r: i32)
        requires
            Self::distance_fits(*a, *b),
        ensures
            r == Self::spec_distance_sq(*a, *b),
    {
        let dx: i32 = b.x - a.x;
        let dy: i32 = b.y - a.y;
        assert(dx * dx >= 0 && dy * dy >= 0) by (nonlinear_arith);
        dx * dx + dy * dy
    }

    /// Tells whether [`Position::distance_sq`] may be called on `a` and `b`.
    pub fn distance_in_range(a: &Position, b: &Position) -> (r: bool)
        ensures
            r == Self::distance_fits(*a, *b),
    {
        let dx: i64 = b.x as i64 - a.x as i64;
        let dy: i64 = b.y as i64 - a.y as i64;
        if dx < -2147483648 || dx > 2147483647 || dy < -2147483648 || dy > 2147483647 {
            return false;
        }
        assert(0 <= dx * dx <= 4611686018427387904) by (nonlinear_arith)
            requires
                -2147483648 <= dx <= 2147483647,
        ;
        assert(0 <= dy * dy <= 4611686018427387904) by (nonlinear_arith)
            requires
                -2147483648 <= dy <= 2147483647,
        ;
        let sx: i64 = dx * dx;
        let sy: i64 = dy * dy;
        sx <= 2147483647 && sy <= 2147483647 && sx + sy <= 2147483647
    }

    /// The displacement from `a` to `b`.
    pub fn delta(a: &Position, b: &Position) -> (r: (i32, i32))
        requires
            Self::delta_fits(*a, *b),
        ensures
            r.0 == b.x - a.x,
            r.1 == b.y - a.y,
    {
        (b.x - a.x, b.y - a.y)
    }

    /// Tells whether the position is the cell `(x, y)`.
    pub fn equals_xy(&self, x: i32, y: i32) -> (r: bool)
        ensures
            r == (self.x == x && self.y == y),
    {
        self.x == x && self.y == y
    }
}

/// Marks an entity that blocks movement into its cell.
#[derive(Debug, Copy, Clone, PartialEq, Eq, Structural)]
pub struct ColliderComponent {}

/// A name for diagnostics.
pub struct DebugName {
    pub text: String,
}

impl View for DebugName {
    type V = Seq<char>;

    open spec fn view(&self) -> Seq<char> {
        self.text@
    }
}

} // verus!
