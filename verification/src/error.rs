use vstd::prelude::*;

verus! {

/// What can go wrong when a ship is built, placed or moved.
#[derive(Clone, Copy, Debug, PartialEq, Eq, Structural)]
pub enum SimError {
    /// A ship was to be placed on a cell that already holds one.
    PositionOccupied,
    /// A ship was to be built with a tick interval of zero.
    InvalidConfiguration,
    /// A ship was to be moved onto a cell that holds another ship.
    RelocationRejected,
}

} // verus!
