use vstd::prelude::*;

use crate::game::board::Board;
use crate::game::player::{Controller, Player};
use crate::game::Move;

verus! {

/// A cursor direction on the grid.
#[derive(PartialEq, Eq, Structural, Debug, Clone, Copy)]
pub enum Direction {
    Up,
    Right,
    Down,
    Left,
}

/// Where `pt` lies relative to `start`, one component per axis: Left or
/// Right for the horizontal axis, Up or Down for the vertical one, and
/// None on an axis where the two positions agree.
pub open spec fn axis_directions(start: (u8, u8), pt: (u8, u8)) -> (
    Option<Direction>,
    Option<Direction>,
) {
    (
        if start.0 > pt.0 {
            Some(Direction::Left)
        } else if start.0 == pt.0 {
            None
        } else {
            Some(Direction::Right)
        },
        if start.1 > pt.1 {
            Some(Direction::Up)
        } else if start.1 == pt.1 {
            None
        } else {
            Some(Direction::Down)
        },
    )
}

/// `pt` lies toward `dir` from `start` on at least one axis.
pub open spec fn matches_direction(start: (u8, u8), pt: (u8, u8), dir: Direction) -> bool {
    axis_directions(start, pt).0 == Some(dir) || axis_directions(start, pt).1 == Some(dir)
}

/// The squared distance between two positions.
pub open spec fn dist2(a: (u8, u8), b: (u8, u8)) -> int {
    (a.0 as int - b.0 as int) * (a.0 as int - b.0 as int) + (a.1 as int - b.1 as int) * (a.1 as int
        - b.1 as int)
}

/// Tells where another position lies relative to this one.
pub trait RelativeDirection {
    /// The (LEFT/RIGHT/NONE, UP/DOWN/NONE) pair leading from this position
    /// toward the other.
    fn direction_to(&self, other: &Self) -> (r: (Option<Direction>, Option<Direction>));
}

impl RelativeDirection for (u8, u8) {
    fn direction_to(&self, other: &(u8, u8)) -> (r: (Option<Direction>, Option<Direction>))
        ensures
            r == axis_directions(*self, *other),
    {
        (
            if self.0 > other.0 {
                Some(Direction::Left)
            } else if self.0 == other.0 {
                None
            } else {
                Some(Direction::Right)
            },
            if self.1 > other.1 {
                Some(Direction::Up)
            } else if self.1 == other.1 {
                None
            } else {
                Some(Direction::Down)
            },
        )
    }
}

/// Picks, among candidate positions, the one nearest to a starting point in
/// a given direction.
pub trait FindNearPosition {
    /// The candidate positions, in order.
    spec fn candidates(&self) -> Seq<(u8, u8)>;

    /// The candidate lying toward `direction` that is nearest to `start`,
    /// the earliest listed on a tie; `start` itself when no candidate lies
    /// that way.
    fn nearest_position(&self, start: &(u8, u8), direction: Direction) -> (r: (u8, u8))
        ensures
            (forall|j: int|
                0 <= j < self.candidates().len() ==> !matches_direction(
                    *start,
                    #[trigger] self.candidates()[j],
                    direction,
                )) ==> r == *start,
            (exists|j: int|
                0 <= j < self.candidates().len() && matches_direction(
                    *start,
                    #[trigger] self.candidates()[j],
                    direction,
                )) ==> (exists|i: int|
                0 <= i < self.candidates().len() && #[trigger] self.candidates()[i] == r
                    && matches_direction(*start, r, direction) && (forall|j: int|
                    0 <= j < self.candidates().len() && matches_direction(
                        *start,
                        #[trigger] self.candidates()[j],
                        direction,
                    ) ==> dist2(*start, self.candidates()[i]) <= dist2(
                        *start,
                        self.candidates()[j],
                    )) && (forall|j: int|
                    0 <= j < i && matches_direction(
                        *start,
                        #[trigger] self.candidates()[j],
                        direction,
                    ) ==> dist2(*start, self.candidates()[j]) > dist2(
                        *start,
                        self.candidates()[i],
                    ))),
    ;
}

impl FindNearPosition for Vec<(u8, u8)> {
    open spec fn candidates(&self) -> Seq<(u8, u8)> {
        self@
    }

    fn nearest_position(&self, start: &(u8, u8), direction: Direction) -> (r: (u8, u8)) {
        let mut best: Option<(u8, u8)> = None;
        let mut best_d: u32 = 0;
        let ghost mut bi: int = 0;
        let mut i: usize = 0;
        while i < self.len()
            invariant
                i <= self@.len(),
                best is None ==> forall|j: int|
                    0 <= j < i ==> !matches_direction(*start, #[trigger] self@[j], direction),
                best matches Some(b) ==> (0 <= bi < i && self@[bi] == b && matches_direction(
                    *start,
                    b,
                    direction,
                ) && best_d as int == dist2(*start, b) && (forall|j: int|
                    0 <= j < i && matches_direction(*start, #[trigger] self@[j], direction)
                        ==> dist2(*start, self@[j]) >= best_d as int) && (forall|j: int|
                    0 <= j < bi && matches_direction(*start, #[trigger] self@[j], direction)
                        ==> dist2(*start, self@[j]) > best_d as int)),
            decreases self@.len() - i,
        {
            let pt = self[i];
            let dirs = (*start).direction_to(&pt);
            let hit = match (dirs.0, dirs.1) {
                (None, None) => false,
                (Some(lr), Some(ud)) => direction == lr || direction == ud,
                (Some(lr), None) => direction == lr,
                (None, Some(ud)) => direction == ud,
            };
            if hit {
                let dx: u32 = if start.0 > pt.0 {
                    (start.0 - pt.0) as u32
                } else {
                    (pt.0 - start.0) as u32
                };
                let dy: u32 = if start.1 > pt.1 {
                    (start.1 - pt.1) as u32
                } else {
                    (pt.1 - start.1) as u32
                };
                proof {
                    assert(dx * dx <= 255 * 255) by (nonlinear_arith)
                        requires
                            dx <= 255,
                    ;
                    assert(dy * dy <= 255 * 255) by (nonlinear_arith)
                        requires
                            dy <= 255,
                    ;
                    assert(dx as int * dx as int + dy as int * dy as int == dist2(*start, pt))
                        by (nonlinear_arith)
                        requires
                            dx as int == (if start.0 > pt.0 {
                                start.0 as int - pt.0 as int
                            } else {
                                pt.0 as int - start.0 as int
                            }),
                            dy as int == (if start.1 > pt.1 {
                                start.1 as int - pt.1 as int
                            } else {
                                pt.1 as int - start.1 as int
                            }),
                            dist2(*start, pt) == (start.0 as int - pt.0 as int) * (start.0 as int
                                - pt.0 as int) + (start.1 as int - pt.1 as int) * (start.1 as int
                                - pt.1 as int),
                    ;
                }
                let d: u32 = dx * dx + dy * dy;
                let take = match best {
                    None => true,
                    Some(_) => d < best_d,
                };
                if take {
                    best = Some(pt);
                    best_d = d;
                    proof {
                        bi = i as int;
                    }
                }
            }
            i = i + 1;
        }
        proof {
            assert(self.candidates() =~= self@);
        }
        match best {
            None => *start,
            Some(b) => {
                proof {
                    assert(self.candidates()[bi] == b);
                    assert(matches_direction(*start, self.candidates()[bi], direction));
                    assert forall|j: int|
                        0 <= j < self.candidates().len() && matches_direction(
                            *start,
                            #[trigger] self.candidates()[j],
                            direction,
                        ) implies dist2(*start, self.candidates()[bi]) <= dist2(
                        *start,
                        self.candidates()[j],
                    ) by {
                        assert(self.candidates()[j] == self@[j]);
                        assert(dist2(*start, self@[j]) >= best_d as int);
                    }
                    assert forall|j: int|
                        0 <= j < bi && matches_direction(
                            *start,
                            #[trigger] self.candidates()[j],
                            direction,
                        ) implies dist2(*start, self.candidates()[j]) > dist2(
                        *start,
                        self.candidates()[bi],
                    ) by {
                        assert(self.candidates()[j] == self@[j]);
                        assert(dist2(*start, self@[j]) > best_d as int);
                    }
                }
                b
            },
        }
    }
}

/// A controller that plays from a fixed list of positions, in order. Entries
/// that are out of bounds or already occupied are passed over; once the list
/// is exhausted the first open cell is taken.
pub struct ScriptedController {
    pub script: Vec<(u8, u8)>,
    pub next: usize,
}

impl ScriptedController {
    pub fn new(script: Vec<(u8, u8)>) -> (r: Self)
        ensures
            r.script == script,
            r.next == 0,
    {
        Self { script, next: 0 }
    }
}

impl Controller for ScriptedController {
    fn get_next_move(&mut self, player: &Player, board: &Board) -> (m: Move) {
        let len = self.script.len();
        let mut i: usize = self.next;
        while i < len
            invariant
                board.wf(),
                len == self.script@.len(),
            decreases len - i,
        {
            let entry = self.script[i];
            if entry.0 < 3 && entry.1 < 3 {
                match board.get_at_pos(entry.0, entry.1) {
                    Ok(cell) => {
                        if cell.is_none() {
                            self.next = i + 1;
                            return Move::new(entry.0, entry.1, player);
                        }
                    },
                    Err(_) => {},
                }
            }
            i = i + 1;
        }
        self.next = len;
        let open = board.get_open_positions();
        if open.len() > 0 {
            let p = open[0];
            proof {
                assert(open@.contains(open@[0]));
            }
            Move::new(p.0, p.1, player)
        } else {
            proof {
                if board.has_open_cell() {
                    let (x, y) = choose|x: int, y: int|
                        0 <= x < 3 && 0 <= y < 3 && #[trigger] board.cell(x, y) is None;
                    assert(open@.contains(((x as u8), (y as u8))));
                }
            }
            Move::new(0, 0, player)
        }
    }
}

} // verus!
