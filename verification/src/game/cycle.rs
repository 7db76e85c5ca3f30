use vstd::prelude::*;

use crate::game::board::{Board, Winner};
use crate::game::player::{Controller, Player, SelfController};

verus! {

/// Orchestrates one match: alternates turns between two seated players,
/// starting from a randomly chosen one, and stops on a win or on a full
/// board. A seated player is an identity paired with its controller.
pub struct GameCycle<C1: Controller, C2: Controller> {
    pub player1: (Player, C1),
    pub player2: (Player, C2),
    pub board: Board,
}

#[derive(Clone, Copy)]
enum CurrentPlayer {
    Player1,
    Player2,
}

/// Relies on rand::random::<bool>: a uniform draw; nothing is promised of
/// the value.
#[verifier::external_body]
fn coin_flip() -> bool {
    rand::random::<bool>()
}

impl<C1: Controller, C2: Controller> GameCycle<C1, C2> {
    /// Every occupied cell holds one of this cycle's two players.
    pub open spec fn occupants_ok(&self) -> bool {
        forall|x: int, y: int|
            0 <= x < 3 && 0 <= y < 3 && #[trigger] self.board.cell(x, y) is Some ==> (
            self.board.cell(x, y) == Some(self.player1.0) || self.board.cell(x, y) == Some(
                self.player2.0,
            ))
    }

    pub fn new(player1: (Player, C1), player2: (Player, C2)) -> (r: Self)
        ensures
            r.player1.0 == player1.0,
            r.player2.0 == player2.0,
            r.board.wf(),
            r.board.is_empty_grid(),
    {
        Self { player1, player2, board: Board::new() }
    }

    fn next_player(current: &mut CurrentPlayer)
        ensures
            *final(current) == (match *old(current) {
                CurrentPlayer::Player1 => CurrentPlayer::Player2,
                CurrentPlayer::Player2 => CurrentPlayer::Player1,
            }),
    {
        *current = match current {
            CurrentPlayer::Player1 => CurrentPlayer::Player2,
            CurrentPlayer::Player2 => CurrentPlayer::Player1,
        };
    }

    fn get_player(&self, current: &CurrentPlayer) -> (r: &Player)
        ensures
            *r == (match *current {
                CurrentPlayer::Player1 => self.player1.0,
                CurrentPlayer::Player2 => self.player2.0,
            }),
    {
        match current {
            CurrentPlayer::Player1 => &self.player1.0,
            CurrentPlayer::Player2 => &self.player2.0,
        }
    }

    /// One turn of the given player: asks that player for a move and applies
    /// it. The seated player's contract keeps the move on an open cell, so
    /// the board accepts it; exactly one cell fills.
    fn player_place(&mut self, current: &CurrentPlayer) -> (r: Option<Winner>)
        requires
            old(self).board.wf(),
            old(self).occupants_ok(),
            old(self).board.filled_count() < 9,
        ensures
            final(self).board.wf(),
            final(self).player1.0 == old(self).player1.0,
            final(self).player2.0 == old(self).player2.0,
            final(self).occupants_ok(),
            final(self).board.filled_count() == old(self).board.filled_count() + 1,
            r is None ==> final(self).board.winner_spec() is None,
            r matches Some(w) ==> final(self).board.winner_spec() == Some(w.0),
    {
        proof {
            self.board.lemma_filled_lt_implies_open();
        }
        let player_move = match current {
            CurrentPlayer::Player1 => self.player1.next_move(&self.board),
            CurrentPlayer::Player2 => self.player2.next_move(&self.board),
        };
        let ghost pre = self.board;
        match self.board.make_move(player_move) {
            Ok(winner) => {
                proof {
                    assert forall|x: int, y: int|
                        0 <= x < 3 && 0 <= y < 3 && #[trigger] self.board.cell(x, y)
                            is Some implies (self.board.cell(x, y) == Some(self.player1.0)
                        || self.board.cell(x, y) == Some(self.player2.0)) by {
                        if x == player_move.x_pos as int && y == player_move.y_pos as int {
                        } else {
                            assert(self.board.cell(x, y) == pre.cell(x, y));
                        }
                    }
                }
                winner
            },
            Err(_) => {
                // the seated player's contract rules a rejected move out
                proof {
                    assert(false);
                }
                None
            },
        }
    }

    /// Runs one match to its end. The first player is chosen at random; turns
    /// then alternate, and the cycle stops as soon as a move completes a line
    /// or once all nine cells are filled. A reported winner is one of the two
    /// players and holds a complete line on the final board; no winner means
    /// a draw on a full board.
    pub fn cycle(&mut self) -> (r: Option<Winner>)
        requires
            old(self).board.wf(),
            old(self).board.is_empty_grid(),
        ensures
            final(self).board.wf(),
            final(self).player1.0 == old(self).player1.0,
            final(self).player2.0 == old(self).player2.0,
            r is None ==> final(self).board.filled_count() == 9
                && final(self).board.winner_spec() is None,
            r matches Some(w) ==> final(self).board.winner_spec() == Some(w.0)
                && (w.0 == final(self).player1.0 || w.0 == final(self).player2.0),
    {
        let mut current = if coin_flip() {
            CurrentPlayer::Player1
        } else {
            CurrentPlayer::Player2
        };
        let mut places: u8 = 0;
        proof {
            self.board.lemma_filled_count_empty();
        }
        while places < 9
            invariant
                self.board.wf(),
                self.player1.0 == old(self).player1.0,
                self.player2.0 == old(self).player2.0,
                self.occupants_ok(),
                places as int == self.board.filled_count(),
                self.board.winner_spec() is None,
            decreases 9 - places,
        {
            let result = self.player_place(&current);
            if result.is_some() {
                proof {
                    self.board.lemma_winner_is_occupant();
                    let w = result.unwrap();
                    let (x, y) = choose|x: int, y: int|
                        0 <= x < 3 && 0 <= y < 3 && #[trigger] self.board.cell(x, y) == Some(w.0);
                    assert(self.board.cell(x, y) is Some);
                }
                return result;
            }
            places = places + 1;
            Self::next_player(&mut current);
        }
        proof {
            self.board.lemma_filled_count_bounds();
        }
        None
    }
}

} // verus!
