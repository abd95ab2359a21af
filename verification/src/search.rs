//! Strategy selection short of full search: the candidate scan over
//! the eight lines, the greedy win / win-or-block strategies, random
//! choice among open cells, and the player record that dispatches them.

use crate::board::Board;
use crate::model::{is_mark, open_spaces};
use itertools::Itertools;
use vstd::prelude::*;

verus! {

// ---------------------------------------------------------------------
// The eight lines and their completion candidates
// ---------------------------------------------------------------------

/// The eight three-in-a-row lines by 1-based cell position, scanned in
/// a fixed order: the three rows, the three columns, both diagonals.
pub open spec fn lines() -> Seq<(int, int, int)> {
    seq![(1, 2, 3), (4, 5, 6), (7, 8, 9), (1, 4, 7), (2, 5, 8), (3, 6, 9), (1, 5, 9), (3, 5, 7)]
}

/// The completion candidate of line `k` on board `s`, if any: when
/// exactly two of its cells hold the same mark and the third is open,
/// the open position, paired with whether the mark is the mover's.
pub open spec fn line_cand(s: Seq<char>, mover: char, k: int) -> Seq<(usize, bool)> {
    let l = lines()[k];
    let ca = s[l.0 - 1];
    let cb = s[l.1 - 1];
    let cc = s[l.2 - 1];
    if is_mark(ca) && is_mark(cb) && !is_mark(cc) {
        if ca == cb {
            seq![(l.2 as usize, ca == mover)]
        } else {
            Seq::empty()
        }
    } else if is_mark(ca) && !is_mark(cb) && is_mark(cc) {
        if ca == cc {
            seq![(l.1 as usize, ca == mover)]
        } else {
            Seq::empty()
        }
    } else if !is_mark(ca) && is_mark(cb) && is_mark(cc) {
        if cb == cc {
            seq![(l.0 as usize, cb == mover)]
        } else {
            Seq::empty()
        }
    } else {
        Seq::empty()
    }
}

/// The candidates of the lines from `k` on, in line order.
pub open spec fn cands_from(s: Seq<char>, mover: char, k: int) -> Seq<(usize, bool)>
    decreases 8 - k,
{
    if k < 0 || k >= 8 {
        Seq::empty()
    } else {
        line_cand(s, mover, k) + cands_from(s, mover, k + 1)
    }
}

/// All completion candidates of a board for a given mover, in the
/// fixed line order.
pub open spec fn candidates(s: Seq<char>, mover: char) -> Seq<(usize, bool)> {
    cands_from(s, mover, 0)
}

/// Some candidate completes the mover's own line.
pub open spec fn has_winning_cand(s: Seq<char>, mover: char) -> bool {
    exists|n: int| 0 <= n < candidates(s, mover).len() && candidates(s, mover)[n].1
}

/// The first candidate that completes the mover's own line.
pub open spec fn first_winning_cand(s: Seq<char>, mover: char) -> (usize, bool) {
    candidates(s, mover)[first_winning_index(s, mover)]
}

/// The index of the first winning candidate.
pub open spec fn first_winning_index(s: Seq<char>, mover: char) -> int {
    choose|n: int|
        0 <= n < candidates(s, mover).len() && candidates(s, mover)[n].1 && forall|m: int|
            0 <= m < n ==> !candidates(s, mover)[m].1
}

/// There is a first winning candidate whenever there is any.
pub proof fn lemma_first_winning(s: Seq<char>, mover: char)
    requires
        has_winning_cand(s, mover),
    ensures
        0 <= first_winning_index(s, mover) < candidates(s, mover).len(),
        candidates(s, mover)[first_winning_index(s, mover)].1,
        forall|m: int| 0 <= m < first_winning_index(s, mover) ==> !candidates(s, mover)[m].1,
{
    let c = candidates(s, mover);
    let any = choose|n: int| 0 <= n < c.len() && c[n].1;
    lemma_least_winning(s, mover, any);
}

proof fn lemma_least_winning(s: Seq<char>, mover: char, n: int)
    requires
        0 <= n < candidates(s, mover).len(),
        candidates(s, mover)[n].1,
    ensures
        0 <= first_winning_index(s, mover) < candidates(s, mover).len(),
        candidates(s, mover)[first_winning_index(s, mover)].1,
        forall|m: int| 0 <= m < first_winning_index(s, mover) ==> !candidates(s, mover)[m].1,
    decreases n,
{
    let c = candidates(s, mover);
    if exists|m: int| 0 <= m < n && c[m].1 {
        let m = choose|m: int| 0 <= m < n && c[m].1;
        lemma_least_winning(s, mover, m);
    } else {
        assert(0 <= n < c.len() && c[n].1 && forall|m: int| 0 <= m < n ==> !c[m].1);
    }
}

// ---------------------------------------------------------------------
// Outside calls
// ---------------------------------------------------------------------

/// Relies on rand::random_range: a uniformly drawn index below `n`.
/// Nothing can be promised of which index comes back, only that it is
/// in range.
#[verifier::external_body]
fn random_below(n: usize) -> (r: usize)
    requires
        n >= 1,
    ensures
        r < n,
{
    rand::random_range(0..n)
}

/// The first winning entry of the list from position `n` on.
pub open spec fn first_win_from(v: Seq<(usize, bool)>, n: int) -> Option<(usize, bool)>
    decreases v.len() - n,
{
    if n < 0 || n >= v.len() {
        None
    } else if v[n].1 {
        Some(v[n])
    } else {
        first_win_from(v, n + 1)
    }
}

/// What a first-or-fallback scan of the candidate list yields: the
/// first winning entry, or else the first entry, or nothing at all.
pub open spec fn find_or_first_spec(v: Seq<(usize, bool)>) -> Option<(usize, bool)> {
    if v.len() == 0 {
        None
    } else {
        match first_win_from(v, 0) {
            Some(x) => Some(x),
            None => Some(v[0]),
        }
    }
}

/// The first-winning scan finds the least winning position, if any.
proof fn lemma_first_win_char(v: Seq<(usize, bool)>, n: int)
    requires
        0 <= n <= v.len(),
    ensures
        (forall|m: int| n <= m < v.len() ==> !v[m].1) ==> (first_win_from(v, n) is None),
        (exists|m: int| n <= m < v.len() && v[m].1) ==> (exists|m: int|
            n <= m < v.len() && v[m].1 && first_win_from(v, n) == Some(v[m]) && (forall|j: int|
                n <= j < m ==> !v[j].1)),
    decreases v.len() - n,
{
    if n < v.len() {
        lemma_first_win_char(v, n + 1);
        if !v[n].1 && (exists|m: int| n <= m < v.len() && v[m].1) {
            assert(exists|m: int| n + 1 <= m < v.len() && v[m].1);
        }
    }
}

/// Relies on itertools' find_or_first: the first element satisfying
/// the predicate — here, being a winning candidate — or else the first
/// element, or `None` when there is none at all.
#[verifier::external_body]
fn find_win_or_first(v: &Vec<(usize, bool)>) -> (r: Option<(usize, bool)>)
    ensures
        r == find_or_first_spec(v@),
{
    v.iter().copied().find_or_first(|&(_, b)| b)
}

// ---------------------------------------------------------------------
// The strategies
// ---------------------------------------------------------------------

/// A uniformly random open position of the board.
pub fn pick_random_open(board: &Board) -> (r: usize)
    requires
        board.wf(),
        open_spaces(board@).len() > 0,
    ensures
        open_spaces(board@).contains(r),
{
    let open = board.get_open_spaces();
    let guess = random_below(open.len());
    open[guess]
}

/// All completion candidates of the board for the given mover's mark,
/// scanning the eight lines in the fixed order.
#[verifier::rlimit(100)]
pub fn check_win_loss(board: &Board, mover: char) -> (r: Vec<(usize, bool)>)
    requires
        board.wf(),
    ensures
        r@ == candidates(board@, mover),
{
    let cells = board.iter();
    let mut out: Vec<(usize, bool)> = Vec::new();
    let mut k: usize = 0;
    while k < 8
        invariant
            0 <= k <= 8,
            board.wf(),
            cells@ == board@,
            candidates(board@, mover) == out@ + cands_from(board@, mover, k as int),
        decreases 8 - k,
    {
        let (a, b, c): (usize, usize, usize) = if k == 0 {
            (1, 2, 3)
        } else if k == 1 {
            (4, 5, 6)
        } else if k == 2 {
            (7, 8, 9)
        } else if k == 3 {
            (1, 4, 7)
        } else if k == 4 {
            (2, 5, 8)
        } else if k == 5 {
            (3, 6, 9)
        } else if k == 6 {
            (1, 5, 9)
        } else {
            (3, 5, 7)
        };
        let ca = cells[a - 1];
        let cb = cells[b - 1];
        let cc = cells[c - 1];
        let ma = ca == 'X' || ca == 'O';
        let mb = cb == 'X' || cb == 'O';
        let mc = cc == 'X' || cc == 'O';
        if ma && mb && !mc {
            if ca == cb {
                out.push((c, ca == mover));
            }
        } else if ma && !mb && mc {
            if ca == cc {
                out.push((b, ca == mover));
            }
        } else if !ma && mb && mc {
            if cb == cc {
                out.push((a, cb == mover));
            }
        }
        proof {
            assert(candidates(board@, mover) == out@ + cands_from(board@, mover, k + 1));
        }
        k = k + 1;
    }
    proof {
        assert(out@ =~= out@ + cands_from(board@, mover, 8));
    }
    out
}

/// The first candidate that wins for the mover, or else a random open
/// position.
pub fn only_find_winning(board: &Board, mover: char) -> (r: usize)
    requires
        board.wf(),
        open_spaces(board@).len() > 0,
    ensures
        has_winning_cand(board@, mover) ==> r == first_winning_cand(board@, mover).0,
        !has_winning_cand(board@, mover) ==> open_spaces(board@).contains(r),
{
    let cands = check_win_loss(board, mover);
    let mut n: usize = 0;
    while n < cands.len()
        invariant
            0 <= n <= cands@.len(),
            cands@ == candidates(board@, mover),
            board.wf(),
            open_spaces(board@).len() > 0,
            forall|m: int| 0 <= m < n ==> !cands@[m].1,
        decreases cands@.len() - n,
    {
        let (i, won) = cands[n];
        if won {
            proof {
                lemma_least_winning(board@, mover, n as int);
            }
            return i;
        }
        n = n + 1;
    }
    pick_random_open(board)
}

/// The first winning candidate, else the first candidate at all (a
/// block of the opponent's threat), else a random open position.
pub fn find_winning_block_losing(board: &Board, mover: char) -> (r: usize)
    requires
        board.wf(),
        open_spaces(board@).len() > 0,
    ensures
        has_winning_cand(board@, mover) ==> r == first_winning_cand(board@, mover).0,
        !has_winning_cand(board@, mover) && candidates(board@, mover).len() > 0 ==> r == candidates(
            board@,
            mover,
        )[0].0,
        !has_winning_cand(board@, mover) && candidates(board@, mover).len() == 0
            ==> open_spaces(board@).contains(r),
{
    let cands = check_win_loss(board, mover);
    let found = find_win_or_first(&cands);
    proof {
        lemma_first_win_char(cands@, 0);
        if has_winning_cand(board@, mover) {
            lemma_first_winning(board@, mover);
            let w = first_winning_index(board@, mover);
            let n = choose|m: int|
                0 <= m < cands@.len() && cands@[m].1 && first_win_from(cands@, 0) == Some(
                    cands@[m],
                ) && (forall|j: int| 0 <= j < m ==> !cands@[j].1);
            assert(!(n < w) && !(w < n));
            assert(found == Some(candidates(board@, mover)[w]));
        }
    }
    match found {
        Some((best, _)) => best,
        None => pick_random_open(board),
    }
}

// ---------------------------------------------------------------------
// Participants
// ---------------------------------------------------------------------

/// How a participant chooses its moves.
#[derive(Debug)]
pub enum PlayerType {
    Human,
    Random,
    FindWinning,
    BlockLosing,
}

/// Asks a participant kind whether a human sits behind it.
pub trait IsPlayer {
    /// Whether this kind of participant is the human one.
    spec fn human_spec(&self) -> bool;

    fn is_human(&self) -> (r: bool)
        ensures
            r == self.human_spec(),
    ;
}

impl IsPlayer for PlayerType {
    open spec fn human_spec(&self) -> bool {
        self is Human
    }

    fn is_human(&self) -> (r: bool) {
        match self {
            PlayerType::Human => true,
            _ => false,
        }
    }
}

/// A participant in a game: its mark and its strategy.
#[derive(Debug)]
pub struct Player {
    name: char,
    player: PlayerType,
}

impl PartialEq for Player {
    /// Participants are compared by their mark alone.
    fn eq(&self, other: &Self) -> (r: bool) {
        self.name == other.name
    }
}

impl vstd::std_specs::cmp::PartialEqSpecImpl for Player {
    open spec fn obeys_eq_spec() -> bool {
        true
    }

    open spec fn eq_spec(&self, other: &Player) -> bool {
        self.name_spec() == other.name_spec()
    }
}

impl Player {
    /// The participant's mark.
    pub closed spec fn name_spec(&self) -> char {
        self.name
    }

    /// The participant's strategy.
    pub closed spec fn kind_spec(&self) -> PlayerType {
        self.player
    }

    pub fn new(name: char, player: PlayerType) -> (p: Player)
        ensures
            p.name_spec() == name,
            p.kind_spec() == player,
    {
        Player { name, player }
    }

    pub fn name(&self) -> (r: char)
        ensures
            r == self.name_spec(),
    {
        self.name
    }

    /// A uniformly random open position of the board.
    pub fn pick_random_open_move(&self, board: &Board) -> (r: usize)
        requires
            board.wf(),
            open_spaces(board@).len() > 0,
        ensures
            open_spaces(board@).contains(r),
    {
        pick_random_open(board)
    }

    /// The participant's move on the given board, by its strategy.
    /// The human participant reads its move elsewhere, so it has no
    /// move here.
    pub fn make_move(&self, board: &Board) -> (r: usize)
        requires
            board.wf(),
            open_spaces(board@).len() > 0,
            !(self.kind_spec() is Human),
        ensures
            (self.kind_spec() is Random) ==> open_spaces(board@).contains(r),
            (self.kind_spec() is FindWinning) || (self.kind_spec() is BlockLosing) ==> (
            has_winning_cand(board@, self.name_spec()) ==> r == first_winning_cand(
                board@,
                self.name_spec(),
            ).0),
            (self.kind_spec() is FindWinning) && !has_winning_cand(board@, self.name_spec())
                && candidates(board@, self.name_spec()).len() == 0 ==> open_spaces(
                board@,
            ).contains(r),
            (self.kind_spec() is BlockLosing) && !has_winning_cand(board@, self.name_spec())
                && candidates(board@, self.name_spec()).len() > 0 ==> r == candidates(
                board@,
                self.name_spec(),
            )[0].0,
            (self.kind_spec() is BlockLosing) && !has_winning_cand(board@, self.name_spec())
                && candidates(board@, self.name_spec()).len() == 0 ==> open_spaces(
                board@,
            ).contains(r),
    {
        match self.player {
            PlayerType::Human => 0,
            PlayerType::Random => self.pick_random_open_move(board),
            PlayerType::FindWinning => only_find_winning(board, self.name),
            PlayerType::BlockLosing => find_winning_block_losing(board, self.name),
        }
    }
}

} // verus!
