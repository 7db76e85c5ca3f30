use vstd::prelude::*;

use crate::game::board::Board;
use crate::game::Move;

verus! {

/// A player identity: a unique numeric id and a display symbol.
/// Equality compares the id alone; the symbol is only for display, and two
/// distinct identities could in principle carry the same symbol.
#[derive(Clone, Copy, Debug)]
pub struct Player {
    pub id: i32,
    pub symbol: char,
}

impl Player {
    fn new(id: i32, symbol: char) -> (r: Self)
        ensures
            r.id == id,
            r.symbol == symbol,
    {
        Player { id, symbol }
    }

    pub fn get_symbol(&self) -> (r: char)
        ensures
            r == self.symbol,
    {
        self.symbol
    }
}

impl PartialEq for Player {
    fn eq(&self, other: &Player) -> (r: bool) {
        self.id == other.id
    }
}

impl vstd::std_specs::cmp::PartialEqSpecImpl for Player {
    open spec fn obeys_eq_spec() -> bool {
        true
    }

    open spec fn eq_spec(&self, other: &Player) -> bool {
        self.id == other.id
    }
}

/// The capability that decides a player's next move. The returned move always
/// names the player that was asked, and targets an open cell whenever the
/// board still has one; how long the decision takes is the controller's own
/// business.
pub trait Controller {
    fn get_next_move(&mut self, player: &Player, board: &Board) -> (m: Move)
        requires
            board.wf(),
        ensures
            m.player == *player,
            board.has_open_cell() ==> m.x_pos < 3 && m.y_pos < 3 && board.cell(
                m.x_pos as int,
                m.y_pos as int,
            ) is None,
    ;
}

/// A seated player: something that produces a move under its own identity,
/// so a caller never talks to the controller directly.
pub trait SelfController {
    /// The identity the moves are made under.
    spec fn own_player(&self) -> Player;

    fn next_move(&mut self, board: &Board) -> (m: Move)
        requires
            board.wf(),
        ensures
            m.player == old(self).own_player(),
            final(self).own_player() == old(self).own_player(),
            board.has_open_cell() ==> m.x_pos < 3 && m.y_pos < 3 && board.cell(
                m.x_pos as int,
                m.y_pos as int,
            ) is None,
    ;
}

impl<C: Controller> SelfController for (Player, C) {
    open spec fn own_player(&self) -> Player {
        self.0
    }

    fn next_move(&mut self, board: &Board) -> (m: Move) {
        let player = self.0;
        self.1.get_next_move(&player, board)
    }
}

/// Allocates unique player identities and symbols. The records of issued ids
/// and symbols only ever grow; nothing is ever removed.
pub struct PlayerBuilder {
    used_ids: Vec<i32>,
    used_symbols: Vec<char>,
}

/// The error when a symbol was already issued.
#[derive(Debug, PartialEq, Eq)]
pub struct SymbolUsed(pub char);

/// Relies on rand::random::<i32>: an arbitrary draw; nothing is promised of
/// the value.
#[verifier::external_body]
fn random_id() -> i32 {
    rand::random::<i32>()
}

fn contains_i32(v: &Vec<i32>, x: i32) -> (b: bool)
    ensures
        b == v@.contains(x),
{
    let mut i: usize = 0;
    while i < v.len()
        invariant
            i <= v@.len(),
            forall|j: int| 0 <= j < i ==> v@[j] != x,
        decreases v@.len() - i,
    {
        if v[i] == x {
            return true;
        }
        i = i + 1;
    }
    false
}

fn contains_char(v: &Vec<char>, x: char) -> (b: bool)
    ensures
        b == v@.contains(x),
{
    let mut i: usize = 0;
    while i < v.len()
        invariant
            i <= v@.len(),
            forall|j: int| 0 <= j < i ==> v@[j] != x,
        decreases v@.len() - i,
    {
        if v[i] == x {
            return true;
        }
        i = i + 1;
    }
    false
}

/// The largest entry of v, or -1 when v is empty.
fn max_or_minus_one(v: &Vec<i32>) -> (m: i32)
    requires
        forall|i: int| 0 <= i < v@.len() ==> #[trigger] v@[i] >= 0,
    ensures
        forall|i: int| 0 <= i < v@.len() ==> #[trigger] v@[i] <= m,
        m == -1 || v@.contains(m),
        m >= -1,
{
    let mut m: i32 = -1;
    let mut i: usize = 0;
    while i < v.len()
        invariant
            i <= v@.len(),
            m >= -1,
            forall|j: int| 0 <= j < i ==> #[trigger] v@[j] <= m,
            m == -1 || v@.contains(m),
            forall|j: int| 0 <= j < v@.len() ==> #[trigger] v@[j] >= 0,
        decreases v@.len() - i,
    {
        if v[i] > m {
            m = v[i];
            proof {
                assert(v@.contains(v@[i as int]));
            }
        }
        i = i + 1;
    }
    m
}

impl PlayerBuilder {
    /// The ids issued so far, oldest first.
    pub closed spec fn ids(&self) -> Seq<i32> {
        self.used_ids@
    }

    /// The symbols issued so far, oldest first.
    pub closed spec fn symbols(&self) -> Seq<char> {
        self.used_symbols@
    }

    /// Issued ids and symbols are pairwise distinct, and every id is a small
    /// nonnegative number, so that a fresh one can always be found.
    pub closed spec fn wf(&self) -> bool {
        &&& self.used_ids@.no_duplicates()
        &&& self.used_symbols@.no_duplicates()
        &&& forall|i: int|
            0 <= i < self.used_ids@.len() ==> 0 <= #[trigger] self.used_ids@[i] < 0x4000_0000
                + self.used_ids@.len()
    }

    pub fn new() -> (r: Self)
        ensures
            r.wf(),
            r.ids().len() == 0,
            r.symbols().len() == 0,
    {
        Self { used_ids: Vec::new(), used_symbols: Vec::new() }
    }

    /// An id no issued player carries. A few random draws are tried first;
    /// if every draw collides, an id larger than every issued one is taken.
    fn fresh_id(&self) -> (id: i32)
        requires
            self.wf(),
            self.ids().len() < 0x4000_0000,
        ensures
            !self.ids().contains(id),
            0 <= id <= 0x4000_0000 + self.ids().len(),
    {
        let mut attempts: u8 = 0;
        loop
            invariant
                self.wf(),
                self.ids().len() < 0x4000_0000,
                attempts <= 8,
            decreases 8 - attempts,
        {
            let candidate = random_id();
            if 0 <= candidate && candidate < 0x4000_0000 && !contains_i32(
                &self.used_ids,
                candidate,
            ) {
                return candidate;
            }
            if attempts >= 8 {
                break;
            }
            attempts = attempts + 1;
        }
        let m = max_or_minus_one(&self.used_ids);
        proof {
            if m >= 0 {
                let i = choose|i: int|
                    0 <= i < self.used_ids@.len() && self.used_ids@[i] == m;
                assert(self.used_ids@[i] < 0x4000_0000 + self.used_ids@.len());
            }
        }
        let id = m + 1;
        proof {
            if self.used_ids@.contains(id) {
                let i = choose|i: int| 0 <= i < self.used_ids@.len() && self.used_ids@[i] == id;
                assert(self.used_ids@[i] <= m);
            }
        }
        id
    }

    /// Issues a new player carrying the given symbol and a fresh id, or
    /// reports that the symbol was already taken. On success both records
    /// grow by the issued entry; on failure nothing changes.
    pub fn new_player(&mut self, symbol: char) -> (r: Result<Player, SymbolUsed>)
        requires
            old(self).wf(),
            old(self).ids().len() < 0x4000_0000,
        ensures
            final(self).wf(),
            old(self).symbols().contains(symbol) ==> (r == Err::<Player, SymbolUsed>(
                SymbolUsed(symbol),
            ) && final(self).ids() == old(self).ids() && final(self).symbols() == old(
                self,
            ).symbols()),
            !old(self).symbols().contains(symbol) ==> (r matches Ok(p) && p.symbol == symbol
                && !old(self).ids().contains(p.id) && final(self).ids() == old(self).ids().push(
                p.id,
            ) && final(self).symbols() == old(self).symbols().push(symbol)),
    {
        if contains_char(&self.used_symbols, symbol) {
            return Err(SymbolUsed(symbol));
        }
        let id = self.fresh_id();
        self.used_ids.push(id);
        self.used_symbols.push(symbol);
        proof {
            lemma_push_fresh_no_duplicates_i32(old(self).used_ids@, id);
            lemma_push_fresh_no_duplicates_char(old(self).used_symbols@, symbol);
        }
        Ok(Player::new(id, symbol))
    }
}

/// Appending an entry that the sequence does not yet hold keeps it
/// duplicate-free.
proof fn lemma_push_fresh_no_duplicates_i32(s: Seq<i32>, x: i32)
    requires
        s.no_duplicates(),
        !s.contains(x),
    ensures
        s.push(x).no_duplicates(),
{
    assert forall|i: int, j: int|
        0 <= i < s.push(x).len() && 0 <= j < s.push(x).len() && i != j implies s.push(x)[i]
        != s.push(x)[j] by {
        if i < s.len() && j < s.len() {
        } else if i < s.len() {
            assert(s.contains(s[i]));
        } else if j < s.len() {
            assert(s.contains(s[j]));
        }
    }
}

/// Appending an entry that the sequence does not yet hold keeps it
/// duplicate-free.
proof fn lemma_push_fresh_no_duplicates_char(s: Seq<char>, x: char)
    requires
        s.no_duplicates(),
        !s.contains(x),
    ensures
        s.push(x).no_duplicates(),
{
    assert forall|i: int, j: int|
        0 <= i < s.push(x).len() && 0 <= j < s.push(x).len() && i != j implies s.push(x)[i]
        != s.push(x)[j] by {
        if i < s.len() && j < s.len() {
        } else if i < s.len() {
            assert(s.contains(s[i]));
        } else if j < s.len() {
            assert(s.contains(s[j]));
        }
    }
}

/// Registry uniqueness law: take a player issued by one successful call, whose
/// id and symbol were unrecorded before the call and recorded after it, and a
/// player issued by any later successful call, at a point where everything
/// once recorded is still recorded. The two players can share neither an id
/// nor a symbol.
pub proof fn lemma_registry_unique(
    ids1: Seq<i32>,
    syms1: Seq<char>,
    p1: Player,
    ids2: Seq<i32>,
    syms2: Seq<char>,
    p2: Player,
)
    requires
        !ids1.contains(p1.id),
        !syms1.contains(p1.symbol),
        forall|x: i32| ids1.push(p1.id).contains(x) ==> #[trigger] ids2.contains(x),
        forall|c: char| syms1.push(p1.symbol).contains(c) ==> #[trigger] syms2.contains(c),
        !ids2.contains(p2.id),
        !syms2.contains(p2.symbol),
    ensures
        p1.id != p2.id,
        p1.symbol != p2.symbol,
{
    assert(ids1.push(p1.id)[ids1.len() as int] == p1.id);
    assert(ids1.push(p1.id).contains(p1.id));
    assert(syms1.push(p1.symbol)[syms1.len() as int] == p1.symbol);
    assert(syms1.push(p1.symbol).contains(p1.symbol));
}

} // verus!
