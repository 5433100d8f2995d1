use vstd::prelude::*;

verus! {

/// A rectangle in screen pixel coordinates.
#[derive(Clone, Copy, Debug, PartialEq, Eq, Structural)]
pub struct Position {
    pub left: isize,
    pub top: isize,
    pub width: isize,
    pub height: isize,
}

/// The all-zero rectangle, which stands for "nothing recorded".
pub open spec fn zero_position() -> Position {
    Position { left: 0, top: 0, width: 0, height: 0 }
}

impl Position {
    pub fn new(left: isize, top: isize, width: isize, height: isize) -> (r: Position)
        ensures
            r == (Position { left, top, width, height }),
    {
        Position { left, top, width, height }
    }

    pub fn is_zero(&self) -> (r: bool)
        ensures
            r == (*self == zero_position()),
    {
        self.left == 0 && self.top == 0 && self.width == 0 && self.height == 0
    }
}

impl Default for Position {
    fn default() -> (r: Position)
        ensures
            r == zero_position(),
    {
        Position { left: 0, top: 0, width: 0, height: 0 }
    }
}

} // verus!
