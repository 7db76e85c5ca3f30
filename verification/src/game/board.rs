use vstd::prelude::*;

use crate::game::player::Player;
use crate::game::Move;

verus! {

/// The 3-by-3 grid. Cell (x, y), with x and y in [0, 3), is stored at
/// index y * 3 + x; a cell is either empty or occupied by a player, and an
/// occupied cell is never cleared or reassigned.
pub struct Board {
    cells: Vec<Option<Player>>,
}

/// Wraps the player who completed a line.
#[derive(Debug)]
pub struct Winner(pub Player);

/// Why a move was rejected. A rejected move leaves the board unchanged.
#[derive(Debug)]
pub enum MoveError {
    OutOfBounds(u8, u8),
    PositionAlreadyFilled(Player),
}

pub type MoveResult = Result<Option<Winner>, MoveError>;

/// The first of two candidate winners in scan order.
pub open spec fn first_some(a: Option<Player>, b: Option<Player>) -> Option<Player> {
    if a is Some {
        a
    } else {
        b
    }
}

/// A board-level optional winner, wrapped for the caller.
pub open spec fn wrap_winner(op: Option<Player>) -> Option<Winner> {
    match op {
        Some(p) => Some(Winner(p)),
        None => None,
    }
}

impl Board {
    /// The grid holds exactly nine cells.
    pub closed spec fn wf(&self) -> bool {
        self.cells@.len() == 9
    }

    /// The occupant of cell (x, y), if any.
    pub closed spec fn cell(&self, x: int, y: int) -> Option<Player>
        recommends
            0 <= x < 3,
            0 <= y < 3,
    {
        self.cells@[y * 3 + x]
    }

    /// The number of occupied cells among the first k in storage order.
    pub closed spec fn filled_upto(&self, k: int) -> int
        decreases k,
    {
        if k <= 0 {
            0
        } else {
            self.filled_upto(k - 1) + (if self.cells@[k - 1] is Some {
                1int
            } else {
                0int
            })
        }
    }

    /// The number of occupied cells.
    pub open spec fn filled_count(&self) -> int {
        self.filled_upto(9)
    }

    /// Some cell is still empty.
    pub open spec fn has_open_cell(&self) -> bool {
        exists|x: int, y: int|
            0 <= x < 3 && 0 <= y < 3 && #[trigger] self.cell(x, y) is None
    }

    /// Every cell is empty.
    pub open spec fn is_empty_grid(&self) -> bool {
        forall|x: int, y: int|
            0 <= x < 3 && 0 <= y < 3 ==> #[trigger] self.cell(x, y) is None
    }

    /// The open cells among the first k in storage order, as (x, y) pairs.
    pub closed spec fn open_upto(&self, k: int) -> Seq<(u8, u8)>
        decreases k,
    {
        if k <= 0 {
            Seq::empty()
        } else {
            self.open_upto(k - 1) + (if self.cells@[k - 1] is None {
                seq![((((k - 1) % 3) as u8), (((k - 1) / 3) as u8))]
            } else {
                Seq::empty()
            })
        }
    }

    /// The open cells, scanned row by row.
    pub open spec fn open_positions_spec(&self) -> Seq<(u8, u8)> {
        self.open_upto(9)
    }

    /// The winner of the line through the three given cells: the first cell's
    /// occupant, when all three cells are occupied by the same identity.
    pub open spec fn line_winner(
        &self,
        x0: int,
        y0: int,
        x1: int,
        y1: int,
        x2: int,
        y2: int,
    ) -> Option<Player> {
        match (self.cell(x0, y0), self.cell(x1, y1), self.cell(x2, y2)) {
            (Some(a), Some(b), Some(c)) => if a.id == b.id && b.id == c.id {
                Some(a)
            } else {
                None
            },
            _ => None,
        }
    }

    /// The three given cells are occupied by one identity.
    pub open spec fn line_complete(
        &self,
        x0: int,
        y0: int,
        x1: int,
        y1: int,
        x2: int,
        y2: int,
    ) -> bool {
        self.line_winner(x0, y0, x1, y1, x2, y2) is Some
    }

    /// The winner among the three rows, scanned top to bottom.
    pub open spec fn rows_winner(&self) -> Option<Player> {
        first_some(
            self.line_winner(0, 0, 1, 0, 2, 0),
            first_some(self.line_winner(0, 1, 1, 1, 2, 1), self.line_winner(0, 2, 1, 2, 2, 2)),
        )
    }

    /// The winner among the three columns, scanned left to right.
    pub open spec fn cols_winner(&self) -> Option<Player> {
        first_some(
            self.line_winner(0, 0, 0, 1, 0, 2),
            first_some(self.line_winner(1, 0, 1, 1, 1, 2), self.line_winner(2, 0, 2, 1, 2, 2)),
        )
    }

    /// The winner among the two diagonals: the main diagonal first.
    pub open spec fn diags_winner(&self) -> Option<Player> {
        first_some(self.line_winner(0, 0, 1, 1, 2, 2), self.line_winner(2, 0, 1, 1, 0, 2))
    }

    /// Win detection in the fixed scan order: rows, then columns, then the
    /// two diagonals; the first complete line decides.
    pub open spec fn winner_spec(&self) -> Option<Player> {
        first_some(self.rows_winner(), first_some(self.cols_winner(), self.diags_winner()))
    }

    pub fn new() -> (r: Self)
        ensures
            r.wf(),
            r.is_empty_grid(),
    {
        let mut cells: Vec<Option<Player>> = Vec::new();
        let mut i: usize = 0;
        while i < 9
            invariant
                i <= 9,
                cells@.len() == i as int,
                forall|j: int| 0 <= j < i ==> cells@[j] is None,
            decreases 9 - i,
        {
            cells.push(None);
            i = i + 1;
        }
        let r = Board { cells };
        proof {
            assert forall|x: int, y: int| 0 <= x < 3 && 0 <= y < 3 implies #[trigger] r.cell(
                x,
                y,
            ) is None by {
                assert(0 <= y * 3 + x < 9);
            }
        }
        r
    }

    /// The occupant of cell (x, y), read without going through a move.
    fn cell_at(&self, x_pos: u8, y_pos: u8) -> (r: Option<Player>)
        requires
            self.wf(),
            x_pos < 3,
            y_pos < 3,
        ensures
            r == self.cell(x_pos as int, y_pos as int),
    {
        self.cells[(y_pos as usize) * 3 + (x_pos as usize)]
    }

    pub fn get_at_pos(&self, x_pos: u8, y_pos: u8) -> (r: Result<Option<Player>, ()>)
        requires
            self.wf(),
        ensures
            (x_pos >= 3 || y_pos >= 3) ==> r is Err,
            (x_pos < 3 && y_pos < 3) ==> r == Ok::<Option<Player>, ()>(
                self.cell(x_pos as int, y_pos as int),
            ),
    {
        if x_pos >= 3 || y_pos >= 3 {
            return Err(());
        }
        Ok(self.cell_at(x_pos, y_pos))
    }

    pub fn filled_positions(&self) -> (r: u8)
        requires
            self.wf(),
        ensures
            r as int == self.filled_count(),
            r <= 9,
    {
        let mut count: u8 = 0;
        let mut i: usize = 0;
        while i < 9
            invariant
                self.wf(),
                i <= 9,
                count as int == self.filled_upto(i as int),
                count <= i,
            decreases 9 - i,
        {
            if self.cells[i].is_some() {
                count = count + 1;
            }
            i = i + 1;
        }
        count
    }

    pub fn get_open_positions(&self) -> (r: Vec<(u8, u8)>)
        requires
            self.wf(),
        ensures
            r@ == self.open_positions_spec(),
            forall|p: (u8, u8)|
                #[trigger] r@.contains(p) <==> (p.0 < 3 && p.1 < 3 && self.cell(
                    p.0 as int,
                    p.1 as int,
                ) is None),
    {
        let mut out: Vec<(u8, u8)> = Vec::new();
        let mut i: usize = 0;
        while i < 9
            invariant
                self.wf(),
                i <= 9,
                out@ == self.open_upto(i as int),
            decreases 9 - i,
        {
            let x = (i % 3) as u8;
            let y = (i / 3) as u8;
            if self.cells[i].is_none() {
                out.push((x, y));
                proof {
                    assert(self.open_upto(i + 1) =~= self.open_upto(i as int).push((x, y)));
                }
            } else {
                proof {
                    assert(self.open_upto(i + 1) =~= self.open_upto(i as int));
                }
            }
            i = i + 1;
        }
        proof {
            self.lemma_open_upto_contains(9);
            assert forall|p: (u8, u8)| #[trigger]
                out@.contains(p) implies (p.0 < 3 && p.1 < 3 && self.cell(
                p.0 as int,
                p.1 as int,
            ) is None) by {
                let n = choose|n: int|
                    0 <= n < 9 && self.cells@[n] is None && p.0 == n % 3 && p.1 == n / 3;
                assert(p.1 as int * 3 + p.0 as int == n);
            }
            assert forall|p: (u8, u8)|
                (p.0 < 3 && p.1 < 3 && self.cell(p.0 as int, p.1 as int) is None) implies #[trigger]
                out@.contains(p) by {
                let n = p.1 as int * 3 + p.0 as int;
                assert(0 <= n < 9 && self.cells@[n] is None && p.0 == n % 3 && p.1 == n / 3);
            }
        }
        out
    }

    /// Each open position recorded by the scan comes from an empty cell, and
    /// every empty cell among the first k is recorded.
    proof fn lemma_open_upto_contains(&self, k: int)
        requires
            self.wf(),
            0 <= k <= 9,
        ensures
            forall|p: (u8, u8)|
                #[trigger] self.open_upto(k).contains(p) <==> (exists|n: int|
                    0 <= n < k && self.cells@[n] is None && p.0 == n % 3 && p.1 == n / 3),
        decreases k,
    {
        if k > 0 {
            self.lemma_open_upto_contains(k - 1);
            assert forall|p: (u8, u8)| #[trigger]
                self.open_upto(k).contains(p) implies (exists|n: int|
                0 <= n < k && self.cells@[n] is None && p.0 == n % 3 && p.1 == n / 3) by {
                if self.open_upto(k - 1).contains(p) {
                } else {
                    assert(self.cells@[k - 1] is None);
                    assert(p.0 == (k - 1) % 3 && p.1 == (k - 1) / 3);
                }
            }
            assert forall|p: (u8, u8)|
                (exists|n: int|
                    0 <= n < k && self.cells@[n] is None && p.0 == n % 3 && p.1
                        == n / 3) implies #[trigger] self.open_upto(k).contains(p) by {
                let n = choose|n: int|
                    0 <= n < k && self.cells@[n] is None && p.0 == n % 3 && p.1 == n / 3;
                let pre = self.open_upto(k - 1);
                if n < k - 1 {
                    assert(pre.contains(p));
                    let i = choose|i: int| 0 <= i < pre.len() && pre[i] == p;
                    assert(self.open_upto(k)[i] == p);
                    assert(0 <= i < self.open_upto(k).len());
                } else {
                    let q = ((((k - 1) % 3) as u8), (((k - 1) / 3) as u8));
                    assert(self.open_upto(k) == pre + seq![q]);
                    assert(p == q);
                    assert(self.open_upto(k)[pre.len() as int] == p);
                    assert((pre.len() as int) < self.open_upto(k).len());
                }
            }
        }
    }

    pub fn make_move(&mut self, next_move: Move) -> (r: MoveResult)
        requires
            old(self).wf(),
        ensures
            final(self).wf(),
            (next_move.x_pos >= 3 || next_move.y_pos >= 3) ==> (r == Err::<
                Option<Winner>,
                MoveError,
            >(MoveError::OutOfBounds(next_move.x_pos, next_move.y_pos)) && *final(self) == *old(
                self,
            )),
            (next_move.x_pos < 3 && next_move.y_pos < 3 && old(self).cell(
                next_move.x_pos as int,
                next_move.y_pos as int,
            ) is Some) ==> (r == Err::<Option<Winner>, MoveError>(
                MoveError::PositionAlreadyFilled(
                    old(self).cell(next_move.x_pos as int, next_move.y_pos as int).unwrap(),
                ),
            ) && *final(self) == *old(self)),
            (next_move.x_pos < 3 && next_move.y_pos < 3 && old(self).cell(
                next_move.x_pos as int,
                next_move.y_pos as int,
            ) is None) ==> (final(self).cell(next_move.x_pos as int, next_move.y_pos as int)
                == Some(next_move.player) && (forall|x: int, y: int|
                0 <= x < 3 && 0 <= y < 3 && !(x == next_move.x_pos as int && y
                    == next_move.y_pos as int) ==> #[trigger] final(self).cell(x, y) == old(
                    self,
                ).cell(x, y)) && final(self).filled_count() == old(self).filled_count() + 1 && r
                == Ok::<Option<Winner>, MoveError>(wrap_winner(final(self).winner_spec()))),
    {
        let Move { x_pos, y_pos, player } = next_move;
        if x_pos >= 3 || y_pos >= 3 {
            return Err(MoveError::OutOfBounds(x_pos, y_pos));
        }
        let idx = (y_pos as usize) * 3 + (x_pos as usize);
        match self.cells[idx] {
            Some(other_player) => Err(MoveError::PositionAlreadyFilled(other_player)),
            None => {
                self.cells[idx] = Some(player);
                proof {
                    lemma_filled_upto_update(old(self), self, idx as int, 9);
                    assert forall|x: int, y: int|
                        0 <= x < 3 && 0 <= y < 3 && !(x == x_pos as int && y
                            == y_pos as int) implies self.cell(x, y) == #[trigger] old(self).cell(
                        x,
                        y,
                    ) by {
                        assert(y * 3 + x != idx as int);
                    }
                }
                Ok(self.check_winner())
            },
        }
    }

    fn check_winner(&self) -> (r: Option<Winner>)
        requires
            self.wf(),
        ensures
            r == wrap_winner(self.winner_spec()),
    {
        if let Some(winner) = self.check_winner_row() {
            Some(winner)
        } else if let Some(winner) = self.check_winner_column() {
            Some(winner)
        } else if let Some(winner) = self.check_winner_diagonal() {
            Some(winner)
        } else {
            None
        }
    }

    /// The winner of the line through the three given cells, if any.
    fn check_line(&self, x0: u8, y0: u8, x1: u8, y1: u8, x2: u8, y2: u8) -> (r: Option<Winner>)
        requires
            self.wf(),
            x0 < 3 && y0 < 3 && x1 < 3 && y1 < 3 && x2 < 3 && y2 < 3,
        ensures
            r == wrap_winner(
                self.line_winner(x0 as int, y0 as int, x1 as int, y1 as int, x2 as int, y2 as int),
            ),
    {
        let a = self.cell_at(x0, y0);
        let b = self.cell_at(x1, y1);
        let c = self.cell_at(x2, y2);
        match (a, b, c) {
            (Some(pa), Some(pb), Some(pc)) => {
                if pa.id == pb.id && pb.id == pc.id {
                    Some(Winner(pa))
                } else {
                    None
                }
            },
            _ => None,
        }
    }

    fn check_winner_row(&self) -> (r: Option<Winner>)
        requires
            self.wf(),
        ensures
            r == wrap_winner(self.rows_winner()),
    {
        if let Some(w) = self.check_line(0, 0, 1, 0, 2, 0) {
            return Some(w);
        }
        if let Some(w) = self.check_line(0, 1, 1, 1, 2, 1) {
            return Some(w);
        }
        if let Some(w) = self.check_line(0, 2, 1, 2, 2, 2) {
            return Some(w);
        }
        None
    }

    fn check_winner_column(&self) -> (r: Option<Winner>)
        requires
            self.wf(),
        ensures
            r == wrap_winner(self.cols_winner()),
    {
        if let Some(w) = self.check_line(0, 0, 0, 1, 0, 2) {
            return Some(w);
        }
        if let Some(w) = self.check_line(1, 0, 1, 1, 1, 2) {
            return Some(w);
        }
        if let Some(w) = self.check_line(2, 0, 2, 1, 2, 2) {
            return Some(w);
        }
        None
    }

    fn check_winner_diagonal(&self) -> (r: Option<Winner>)
        requires
            self.wf(),
        ensures
            r == wrap_winner(self.diags_winner()),
    {
        if let Some(w) = self.check_line(0, 0, 1, 1, 2, 2) {
            return Some(w);
        }
        if let Some(w) = self.check_line(2, 0, 1, 1, 0, 2) {
            return Some(w);
        }
        None
    }
}

/// When one empty cell of `pre` turns occupied, every prefix count grows by
/// one as soon as the prefix covers that cell.
proof fn lemma_filled_upto_update(pre: &Board, post: &Board, j: int, k: int)
    requires
        pre.wf(),
        post.wf(),
        0 <= j < 9,
        0 <= k <= 9,
        post.cells@ == pre.cells@.update(j, post.cells@[j]),
        pre.cells@[j] is None,
        post.cells@[j] is Some,
    ensures
        post.filled_upto(k) == pre.filled_upto(k) + (if j < k {
            1int
        } else {
            0int
        }),
    decreases k,
{
    if k > 0 {
        lemma_filled_upto_update(pre, post, j, k - 1);
    }
}

/// Every prefix count is bounded by the length of the prefix.
proof fn lemma_filled_upto_bounds(b: &Board, k: int)
    requires
        b.wf(),
        0 <= k <= 9,
    ensures
        0 <= b.filled_upto(k) <= k,
    decreases k,
{
    if k > 0 {
        lemma_filled_upto_bounds(b, k - 1);
    }
}

/// A fully occupied prefix counts its own length.
proof fn lemma_filled_upto_full(b: &Board, k: int)
    requires
        b.wf(),
        0 <= k <= 9,
        forall|n: int| 0 <= n < 9 ==> b.cells@[n] is Some,
    ensures
        b.filled_upto(k) == k,
    decreases k,
{
    if k > 0 {
        lemma_filled_upto_full(b, k - 1);
    }
}

impl Board {
    /// The count of occupied cells never exceeds nine.
    pub proof fn lemma_filled_count_bounds(&self)
        requires
            self.wf(),
        ensures
            0 <= self.filled_count() <= 9,
    {
        lemma_filled_upto_bounds(self, 9);
    }

    /// An empty grid has no occupied cell.
    pub proof fn lemma_filled_count_empty(&self)
        requires
            self.wf(),
            self.is_empty_grid(),
        ensures
            self.filled_count() == 0,
    {
        assert forall|n: int| 0 <= n < 9 implies self.cells@[n] is None by {
            let x = n % 3;
            let y = n / 3;
            assert(self.cell(x, y) is None);
            assert(y * 3 + x == n);
        }
        lemma_filled_upto_none(self, 9);
    }

    /// A board with fewer than nine occupied cells still has an open cell.
    pub proof fn lemma_filled_lt_implies_open(&self)
        requires
            self.wf(),
            self.filled_count() < 9,
        ensures
            self.has_open_cell(),
    {
        if !self.has_open_cell() {
            assert forall|n: int| 0 <= n < 9 implies self.cells@[n] is Some by {
                let x = n % 3;
                let y = n / 3;
                assert(y * 3 + x == n);
                assert(!(self.cell(x, y) is None));
            }
            lemma_filled_upto_full(self, 9);
        }
    }
}

impl Board {
    /// Win detection law: the scan reports a winner exactly when some row,
    /// column or diagonal is fully occupied by one identity, and the reported
    /// player is the occupant of the first cell of such a line. A board with
    /// no complete line yields no winner.
    pub proof fn lemma_win_detection(&self)
        ensures
            (self.winner_spec() is Some) <==> (self.line_complete(0, 0, 1, 0, 2, 0)
                || self.line_complete(0, 1, 1, 1, 2, 1) || self.line_complete(0, 2, 1, 2, 2, 2)
                || self.line_complete(0, 0, 0, 1, 0, 2) || self.line_complete(1, 0, 1, 1, 1, 2)
                || self.line_complete(2, 0, 2, 1, 2, 2) || self.line_complete(0, 0, 1, 1, 2, 2)
                || self.line_complete(2, 0, 1, 1, 0, 2)),
            self.winner_spec() matches Some(p) ==> ((self.line_complete(0, 0, 1, 0, 2, 0) && p
                == self.cell(0, 0).unwrap()) || (self.line_complete(0, 1, 1, 1, 2, 1) && p
                == self.cell(0, 1).unwrap()) || (self.line_complete(0, 2, 1, 2, 2, 2) && p
                == self.cell(0, 2).unwrap()) || (self.line_complete(0, 0, 0, 1, 0, 2) && p
                == self.cell(0, 0).unwrap()) || (self.line_complete(1, 0, 1, 1, 1, 2) && p
                == self.cell(1, 0).unwrap()) || (self.line_complete(2, 0, 2, 1, 2, 2) && p
                == self.cell(2, 0).unwrap()) || (self.line_complete(0, 0, 1, 1, 2, 2) && p
                == self.cell(0, 0).unwrap()) || (self.line_complete(2, 0, 1, 1, 0, 2) && p
                == self.cell(2, 0).unwrap())),
    {
    }

    /// A reported winner occupies at least one cell of the board.
    pub proof fn lemma_winner_is_occupant(&self)
        ensures
            self.winner_spec() matches Some(p) ==> exists|x: int, y: int|
                0 <= x < 3 && 0 <= y < 3 && #[trigger] self.cell(x, y) == Some(p),
    {
        if self.winner_spec() is Some {
            let p = self.winner_spec().unwrap();
            self.lemma_win_detection();
            if self.line_complete(0, 0, 1, 0, 2, 0) && p == self.cell(0, 0).unwrap() {
                assert(self.cell(0, 0) == Some(p));
            } else if self.line_complete(0, 1, 1, 1, 2, 1) && p == self.cell(0, 1).unwrap() {
                assert(self.cell(0, 1) == Some(p));
            } else if self.line_complete(0, 2, 1, 2, 2, 2) && p == self.cell(0, 2).unwrap() {
                assert(self.cell(0, 2) == Some(p));
            } else if self.line_complete(0, 0, 0, 1, 0, 2) && p == self.cell(0, 0).unwrap() {
                assert(self.cell(0, 0) == Some(p));
            } else if self.line_complete(1, 0, 1, 1, 1, 2) && p == self.cell(1, 0).unwrap() {
                assert(self.cell(1, 0) == Some(p));
            } else if self.line_complete(2, 0, 2, 1, 2, 2) && p == self.cell(2, 0).unwrap() {
                assert(self.cell(2, 0) == Some(p));
            } else if self.line_complete(0, 0, 1, 1, 2, 2) && p == self.cell(0, 0).unwrap() {
                assert(self.cell(0, 0) == Some(p));
            } else {
                assert(self.cell(2, 0) == Some(p));
            }
        }
    }
}

/// A fully empty prefix counts nothing.
proof fn lemma_filled_upto_none(b: &Board, k: int)
    requires
        b.wf(),
        0 <= k <= 9,
        forall|n: int| 0 <= n < 9 ==> b.cells@[n] is None,
    ensures
        b.filled_upto(k) == 0,
    decreases k,
{
    if k > 0 {
        lemma_filled_upto_none(b, k - 1);
    }
}

} // verus!
