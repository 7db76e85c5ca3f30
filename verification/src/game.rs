use vstd::prelude::*;

pub mod board;
pub mod controllers;
pub mod cycle;
pub mod player;

use crate::game::player::Player;

verus! {

/// A proposed placement: a target cell and the player issuing the move.
/// A move is built by a controller for a single turn and handed straight
/// to the board; it is never stored.
pub struct Move {
    pub x_pos: u8,
    pub y_pos: u8,
    pub player: Player,
}

impl Move {
    pub fn new(x_pos: u8, y_pos: u8, player: &Player) -> (r: Self)
        ensures
            r.x_pos == x_pos,
            r.y_pos == y_pos,
            r.player == *player,
    {
        Self { x_pos, y_pos, player: *player }
    }
}

} // verus!
