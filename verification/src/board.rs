//! The board engine: a 3x3 grid of cells in row-major order, mutation,
//! win detection, the geometric transforms, and the canonical state key.

use crate::model::{
    apply_perm, canon, canon_code, code_of, gen_char, gen_of, init_cells, is_mark, open_spaces,
    placed, player_char, tri, valid_cell, wf, winner_ord,
};
use crate::sym::{
    lemma_apply_id, lemma_apply_involutive, lemma_apply_wf, lemma_canon_form, lemma_canon_perm,
    lemma_code_injective, lemma_comp, lemma_gen_apply,
};
use vstd::prelude::*;

verus! {

/// The two ways a board operation can be refused: an index outside
/// 1..=9, or a move onto a cell that is already occupied. The board is
/// left untouched in either case.
#[derive(Clone, Copy, Debug, PartialEq, Eq, Structural)]
pub enum BoardError {
    InvalidIndex,
    CellOccupied,
}

/// The 3x3 board, stored as its 9 cells in row-major order. Each cell
/// holds a player mark (`'X'` or `'O'`) or, while open, a digit; on a
/// playable board an open cell shows the digit of its own 1-based
/// position, so the board doubles as its own legal-move list.
#[derive(Debug)]
pub struct Board {
    cells: Vec<char>,
}

impl View for Board {
    type V = Seq<char>;

    closed spec fn view(&self) -> Seq<char> {
        self.cells@
    }
}

impl PartialEq for Board {
    /// Two boards are equal when all their cells agree.
    fn eq(&self, other: &Self) -> (r: bool) {
        if self.cells.len() != other.cells.len() {
            return false;
        }
        let n = self.cells.len();
        let mut i: usize = 0;
        while i < n
            invariant
                0 <= i <= n,
                n == self.cells.len(),
                n == other.cells.len(),
                forall|j: int| 0 <= j < i ==> self@[j] == other@[j],
            decreases n - i,
        {
            if self.cells[i] != other.cells[i] {
                return false;
            }
            i = i + 1;
        }
        proof {
            assert(self@ =~= other@);
        }
        true
    }
}

impl vstd::std_specs::cmp::PartialEqSpecImpl for Board {
    open spec fn obeys_eq_spec() -> bool {
        true
    }

    open spec fn eq_spec(&self, other: &Board) -> bool {
        self@ == other@
    }
}

impl Board {
    /// Every cell is a mark or a digit; the board has 9 cells.
    pub open spec fn wf(&self) -> bool {
        wf(self@)
    }

    /// Open cells show exactly their own position digit.
    pub open spec fn placed(&self) -> bool {
        placed(self@)
    }

    /// The mark of a player: `'X'` for the player who moves first,
    /// `'O'` for the other.
    pub fn player(first: bool) -> (r: char)
        ensures
            r == player_char(first),
    {
        if first {
            'X'
        } else {
            'O'
        }
    }

    /// A fresh board: all 9 cells open, showing the digits 1 to 9.
    pub fn new() -> (b: Board)
        ensures
            b@ == init_cells(),
            b.placed(),
            b.wf(),
    {
        let mut cells: Vec<char> = Vec::new();
        cells.push('1');
        cells.push('2');
        cells.push('3');
        cells.push('4');
        cells.push('5');
        cells.push('6');
        cells.push('7');
        cells.push('8');
        cells.push('9');
        let b = Board { cells };
        proof {
            assert(b@ =~= init_cells());
            assert forall|i: int| 0 <= i < 9 implies valid_cell(b@[i]) by {}
        }
        b
    }

    /// A board from 9 given cells in row-major order.
    pub fn from_vec(vec: Vec<char>) -> (b: Board)
        requires
            wf(vec@),
        ensures
            b@ == vec@,
            b.wf(),
    {
        Board { cells: vec }
    }

    /// A snapshot of the 9 cells in row-major order.
    pub fn iter(&self) -> (r: Vec<char>)
        ensures
            r@ == self@,
    {
        let r = self.cells.clone();
        proof {
            assert(r@ =~= self@);
        }
        r
    }

    /// An identical board.
    pub fn duplicate(&self) -> (b: Board)
        ensures
            b@ == self@,
    {
        Board { cells: self.iter() }
    }

    /// The 1-based positions of the open cells, in ascending order.
    /// The board is full exactly when this list is empty.
    pub fn get_open_spaces(&self) -> (r: Vec<usize>)
        requires
            self.wf(),
        ensures
            r@ == open_spaces(self@),
    {
        let mut r: Vec<usize> = Vec::new();
        let mut i: usize = 0;
        while i < 9
            invariant
                0 <= i <= 9,
                self.wf(),
                crate::model::open_from(self@, 0) == r@ + crate::model::open_from(self@, i as int),
            decreases 9 - i,
        {
            let c = self.cells[i];
            if !(c == 'X' || c == 'O') {
                r.push(i + 1);
            }
            proof {
                assert(crate::model::open_from(self@, i as int) == (if !is_mark(self@[i as int]) {
                    seq![(i + 1) as usize] + crate::model::open_from(self@, i + 1)
                } else {
                    crate::model::open_from(self@, i + 1)
                }));
                assert(crate::model::open_from(self@, 0) == r@ + crate::model::open_from(
                    self@,
                    i + 1,
                ));
            }
            i = i + 1;
        }
        proof {
            assert(crate::model::open_from(self@, 9) =~= Seq::<usize>::empty());
            assert(r@ =~= r@ + crate::model::open_from(self@, 9));
        }
        r
    }

    /// Whether no cell is open.
    pub fn is_full(&self) -> (r: bool)
        requires
            self.wf(),
        ensures
            r == (open_spaces(self@).len() == 0),
    {
        self.get_open_spaces().len() == 0
    }

    /// Put every cell back to its initial open digit, for a rematch.
    pub fn reset(&mut self)
        ensures
            final(self)@ == init_cells(),
            final(self).placed(),
            final(self).wf(),
    {
        let fresh = Board::new();
        self.cells = fresh.cells;
    }

    /// The occupant of cell `i` (1-based): the occupying player's mark,
    /// `None` for an open cell, and an invalid-index error outside
    /// 1..=9.
    pub fn get_cell(&self, i: usize) -> (r: Result<Option<char>, BoardError>)
        requires
            self.wf(),
        ensures
            (i == 0 || i > 9) <==> r == Result::<Option<char>, BoardError>::Err(
                BoardError::InvalidIndex,
            ),
            1 <= i <= 9 && is_mark(self@[i - 1]) <==> r == Result::<Option<char>, BoardError>::Ok(
                Some(self@[i - 1]),
            ),
            1 <= i <= 9 && !is_mark(self@[i - 1]) <==> r == Result::<Option<char>, BoardError>::Ok(
                None::<char>,
            ),
    {
        if i == 0 || i > 9 {
            return Err(BoardError::InvalidIndex);
        }
        let c = self.cells[i - 1];
        if c == 'X' || c == 'O' {
            Ok(Some(c))
        } else {
            Ok(None)
        }
    }

    /// Write the moving player's mark into open cell `i` (1-based).
    /// An index outside 1..=9 or an occupied cell is refused with the
    /// matching error and the board is left unchanged.
    pub fn set_cell(&mut self, i: usize, first: bool) -> (r: Result<(), BoardError>)
        requires
            old(self).wf(),
        ensures
            (i == 0 || i > 9) ==> r == Result::<(), BoardError>::Err(BoardError::InvalidIndex)
                && final(self)@ == old(self)@,
            1 <= i <= 9 && is_mark(old(self)@[i - 1]) ==> r == Result::<(), BoardError>::Err(
                BoardError::CellOccupied,
            ) && final(self)@ == old(self)@,
            1 <= i <= 9 && !is_mark(old(self)@[i - 1]) ==> r == Result::<(), BoardError>::Ok(())
                && final(self)@ == old(self)@.update(i - 1, player_char(first)),
            final(self).wf(),
            old(self).placed() ==> final(self).placed(),
    {
        match self.get_cell(i) {
            Err(e) => Err(e),
            Ok(Some(_)) => Err(BoardError::CellOccupied),
            Ok(None) => {
                let mark = Board::player(first);
                self.cells.set(i - 1, mark);
                Ok(())
            },
        }
    }

    /// The winning mark, if one of the 8 lines is filled by one
    /// player, looked for in a fixed order: the two diagonals, then
    /// each row and column in turn.
    pub fn check_matches(&self) -> (r: Option<char>)
        requires
            self.wf(),
        ensures
            r == winner_ord(self@),
    {
        let c = &self.cells;
        if c[0] == c[4] && c[4] == c[8] || c[2] == c[4] && c[4] == c[6] {
            return Some(c[4]);
        }
        if c[0] == c[1] && c[1] == c[2] {
            return Some(c[0]);
        }
        if c[0] == c[3] && c[3] == c[6] {
            return Some(c[0]);
        }
        if c[3] == c[4] && c[4] == c[5] {
            return Some(c[4]);
        }
        if c[1] == c[4] && c[4] == c[7] {
            return Some(c[4]);
        }
        if c[6] == c[7] && c[7] == c[8] {
            return Some(c[8]);
        }
        if c[2] == c[5] && c[5] == c[8] {
            return Some(c[8]);
        }
        None
    }

    /// The board with its row order reversed.
    pub fn flip_v(&self) -> (b: Board)
        requires
            self@.len() == 9,
        ensures
            b@ == apply_perm(1, self@),
            self.wf() ==> b.wf(),
    {
        let c = &self.cells;
        let mut cells: Vec<char> = Vec::new();
        cells.push(c[6]);
        cells.push(c[7]);
        cells.push(c[8]);
        cells.push(c[3]);
        cells.push(c[4]);
        cells.push(c[5]);
        cells.push(c[0]);
        cells.push(c[1]);
        cells.push(c[2]);
        let b = Board { cells };
        proof {
            assert(b@ =~= apply_perm(1, self@));
        }
        b
    }

    /// The board with the column order reversed within each row.
    pub fn flip_h(&self) -> (b: Board)
        requires
            self@.len() == 9,
        ensures
            b@ == apply_perm(2, self@),
            self.wf() ==> b.wf(),
    {
        let c = &self.cells;
        let mut cells: Vec<char> = Vec::new();
        cells.push(c[2]);
        cells.push(c[1]);
        cells.push(c[0]);
        cells.push(c[5]);
        cells.push(c[4]);
        cells.push(c[3]);
        cells.push(c[8]);
        cells.push(c[7]);
        cells.push(c[6]);
        let b = Board { cells };
        proof {
            assert(b@ =~= apply_perm(2, self@));
        }
        b
    }

    /// The board with rows and columns exchanged.
    pub fn transpose(&self) -> (b: Board)
        requires
            self@.len() == 9,
        ensures
            b@ == apply_perm(3, self@),
            self.wf() ==> b.wf(),
    {
        let c = &self.cells;
        let mut cells: Vec<char> = Vec::new();
        cells.push(c[0]);
        cells.push(c[3]);
        cells.push(c[6]);
        cells.push(c[1]);
        cells.push(c[4]);
        cells.push(c[7]);
        cells.push(c[2]);
        cells.push(c[5]);
        cells.push(c[8]);
        let b = Board { cells };
        proof {
            assert(b@ =~= apply_perm(3, self@));
        }
        b
    }
}

impl Board {
    /// One cell reduced to occupancy.
    fn gchar(c: char) -> (r: char)
        ensures
            r == gen_char(c),
    {
        if c == 'X' {
            '1'
        } else if c == 'O' {
            '2'
        } else {
            '0'
        }
    }

    /// The board reduced to its occupancy pattern, open spaces shown
    /// as `'0'`.
    fn state(&self) -> (b: Board)
        requires
            self@.len() == 9,
        ensures
            b@ == gen_of(self@),
            crate::model::wf_gen(b@),
    {
        let mut cells: Vec<char> = Vec::new();
        let mut i: usize = 0;
        while i < 9
            invariant
                0 <= i <= 9,
                self@.len() == 9,
                cells@ =~= gen_of(self@).subrange(0, i as int),
            decreases 9 - i,
        {
            cells.push(Board::gchar(self.cells[i]));
            proof {
                assert(cells@ =~= gen_of(self@).subrange(0, i + 1));
            }
            i = i + 1;
        }
        let b = Board { cells };
        proof {
            assert(b@ =~= gen_of(self@));
        }
        b
    }

    /// The base-3 code of an occupancy pattern, most significant cell
    /// first.
    fn board_code(b: &Board) -> (r: u32)
        requires
            b@.len() == 9,
        ensures
            r as int == code_of(b@),
    {
        let c = &b.cells;
        6561 * Board::tri3(c[0]) + 2187 * Board::tri3(c[1]) + 729 * Board::tri3(c[2]) + 243
            * Board::tri3(c[3]) + 81 * Board::tri3(c[4]) + 27 * Board::tri3(c[5]) + 9 * Board::tri3(
            c[6],
        ) + 3 * Board::tri3(c[7]) + Board::tri3(c[8])
    }

    /// An occupancy cell as a base-3 digit.
    fn tri3(c: char) -> (r: u32)
        ensures
            r as int == tri(c),
    {
        if c == '1' {
            1
        } else if c == '2' {
            2
        } else {
            0
        }
    }

    /// The occupancy pattern of `b` written out as a string over the
    /// digits 0, 1, 2.
    fn key_string(b: &Board) -> (r: String)
        requires
            crate::model::wf_gen(b@),
        ensures
            r@ == b@,
    {
        let mut s = String::new();
        let mut i: usize = 0;
        while i < 9
            invariant
                0 <= i <= 9,
                crate::model::wf_gen(b@),
                s@ =~= b@.subrange(0, i as int),
            decreases 9 - i,
        {
            let c = b.cells[i];
            if c == '1' {
                s.append("1");
            } else if c == '2' {
                s.append("2");
            } else {
                s.append("0");
            }
            proof {
                reveal_strlit("0");
                reveal_strlit("1");
                reveal_strlit("2");
                assert(s@ =~= b@.subrange(0, i + 1));
            }
            i = i + 1;
        }
        proof {
            assert(b@.subrange(0, 9) =~= b@);
        }
        s
    }

    /// The canonical representative of the board's occupancy pattern
    /// and its base-3 code: the transform image with the smallest code
    /// among the eight, which is also the one whose 0/1/2 string is
    /// lexicographically smallest.
    #[verifier::rlimit(100)]
    pub(crate) fn canon_board(&self) -> (r: (Board, u32))
        requires
            self@.len() == 9,
        ensures
            r.0@ == canon(gen_of(self@)),
            crate::model::wf_gen(r.0@),
            r.1 as int == canon_code(gen_of(self@)),
    {
        let ghost g = gen_of(self@);
        let base = self.state();
        let c0 = base.duplicate();
        let c1 = base.flip_v();
        let c2 = base.flip_h();
        let c3 = base.transpose();
        let c4 = base.transpose().flip_v();
        let c5 = base.flip_h().flip_v();
        let c6 = base.transpose().flip_h();
        let c7 = base.transpose().flip_v().flip_h();
        proof {
            lemma_apply_id(g);
            lemma_comp(3, 1, g);
            lemma_comp(2, 1, g);
            lemma_comp(3, 2, g);
            lemma_comp(4, 2, g);
            assert(c0@ == apply_perm(0, g));
            assert(c4@ == apply_perm(4, g));
            assert(c5@ == apply_perm(5, g));
            assert(c6@ == apply_perm(6, g));
            assert(c7@ == apply_perm(7, g));
        }
        let k0 = Board::board_code(&c0);
        let k1 = Board::board_code(&c1);
        let k2 = Board::board_code(&c2);
        let k3 = Board::board_code(&c3);
        let k4 = Board::board_code(&c4);
        let k5 = Board::board_code(&c5);
        let k6 = Board::board_code(&c6);
        let k7 = Board::board_code(&c7);
        let mut best: u32 = k0;
        if k1 < best {
            best = k1;
        }
        if k2 < best {
            best = k2;
        }
        if k3 < best {
            best = k3;
        }
        if k4 < best {
            best = k4;
        }
        if k5 < best {
            best = k5;
        }
        if k6 < best {
            best = k6;
        }
        if k7 < best {
            best = k7;
        }
        proof {
            assert(best as int == canon_code(g));
        }
        let chosen: Board = if k0 == best {
            c0
        } else if k1 == best {
            c1
        } else if k2 == best {
            c2
        } else if k3 == best {
            c3
        } else if k4 == best {
            c4
        } else if k5 == best {
            c5
        } else if k6 == best {
            c6
        } else {
            c7
        };
        proof {
            crate::model::lemma_gen_wf(self@);
            lemma_apply_wf(0, g);
            lemma_apply_wf(1, g);
            lemma_apply_wf(2, g);
            lemma_apply_wf(3, g);
            lemma_apply_wf(4, g);
            lemma_apply_wf(5, g);
            lemma_apply_wf(6, g);
            lemma_apply_wf(7, g);
            assert(crate::model::wf_gen(chosen@));
            assert(code_of(chosen@) == canon_code(g));
            lemma_canon_form(g);
            lemma_code_injective(chosen@, canon(g));
        }
        (chosen, best)
    }

    /// The canonical state key: the occupancy pattern of the board is
    /// written as a string over 0, 1, 2 for each of the eight dihedral
    /// transform images, and the lexicographically smallest of the
    /// eight strings is returned. Boards that are rotations or
    /// reflections of one another thus share one key, while the two
    /// players' marks stay distinct.
    pub fn state_key(&self) -> (r: String)
        requires
            self@.len() == 9,
        ensures
            r@ == canon(gen_of(self@)),
    {
        let (chosen, _code) = self.canon_board();
        Board::key_string(&chosen)
    }
}

// ---------------------------------------------------------------------
// Laws
// ---------------------------------------------------------------------

/// Flipping horizontally twice, flipping vertically twice, or
/// transposing twice restores every board: together with the
/// transforms' contracts, `flip_h(flip_h(b)) == b`,
/// `flip_v(flip_v(b)) == b` and `transpose(transpose(b)) == b`.
pub proof fn lemma_transforms_involutive(s: Seq<char>)
    requires
        s.len() == 9,
    ensures
        apply_perm(1, apply_perm(1, s)) == s,
        apply_perm(2, apply_perm(2, s)) == s,
        apply_perm(3, apply_perm(3, s)) == s,
{
    lemma_apply_involutive(1, s);
    lemma_apply_involutive(2, s);
    lemma_apply_involutive(3, s);
}

/// Symmetry invariance of the canonical key: a board and each of its
/// eight dihedral transform images yield the same canonical key, so
/// `state_key` cannot tell a board from its rotations and reflections,
/// while the two players' marks stay distinct throughout.
pub proof fn lemma_state_key_symmetric(t: int, s: Seq<char>)
    requires
        0 <= t < 8,
        s.len() == 9,
    ensures
        canon(gen_of(apply_perm(t, s))) == canon(gen_of(s)),
{
    lemma_gen_apply(t, s);
    crate::model::lemma_gen_wf(s);
    lemma_canon_perm(t, gen_of(s));
}

} // verus!
