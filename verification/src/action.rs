use vstd::prelude::*;

verus! {

/// What a ship asks for at a tick.
#[derive(Clone, Copy, Debug, PartialEq, Eq, Structural)]
pub enum ShipAction {
    /// Move by the offset `(dx, dy)`, wrapping round the edges of the board.
    Move(i8, i8),
    /// Stay put.
    Stay,
}

} // verus!
