//! Cell coordinates.

use vstd::prelude::*;

verus! {

/// The coordinate of one cell.
///
/// Any pair of integers is a valid position; the engine brings a position
/// into the grid's canonical range only when it looks up neighbours.
#[derive(Debug, Clone, Copy, PartialEq, Eq, Hash, Structural)]
pub struct Position {
    pub x: i64,
    pub y: i64,
}

impl View for Position {
    type V = (int, int);

    /// A position stands for the point `(x, y)` of the integer plane.
    open spec fn view(&self) -> (int, int) {
        (self.x as int, self.y as int)
    }
}

impl DeepView for Position {
    type V = (int, int);

    open spec fn deep_view(&self) -> (int, int) {
        self@
    }
}

impl Position {
    /// The position `(x, y)`.
    pub fn new(x: i64, y: i64) -> (p: Position)
        ensures
            p.x == x,
            p.y == y,
            p@ == (x as int, y as int),
    {
        Position { x, y }
    }
}

/// Two positions that stand for the same point are the same position.
pub proof fn position_view_injective(p: Position, q: Position)
    requires
        p@ == q@,
    ensures
        p == q,
{
}

} // verus!
