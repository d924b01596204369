//! The player's place at the table.

use vstd::prelude::*;

verus! {

/// What the table knows about the player whose hand is scored.
#[derive(Copy, Clone, Debug)]
pub struct PlayerState {
    pub seat_wind: Wind,
    pub round_wind: Wind,
    pub dealer: bool,
}

#[derive(Copy, Clone, Debug, PartialEq, Eq, Structural)]
pub enum Wind {
    East,
    South,
    West,
    North,
}

} // verus!
