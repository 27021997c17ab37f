//! Why a move is turned down.

use vstd::prelude::*;

verus! {

/// The reasons for which the input of a move is turned down. None of them
/// ends the game: the player is asked again.
#[derive(Clone, Copy, Debug, PartialEq, Eq, Structural)]
pub enum MoveError {
    /// The input is not a number.
    ParseFailure,
    /// The number names no cell of the board.
    InvalidIndex,
    /// The cell is taken already.
    CellOccupied,
}

} // verus!
