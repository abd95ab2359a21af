//! The mathematical model of the board.
//!
//! A board is viewed as a sequence of 9 cell characters in row-major order
//! (row = index / 3, column = index % 3). A cell is either a player mark
//! (`'X'` for player one, `'O'` for player two) or open; an open cell shows
//! the digit of its own 1-based position.
//!
//! For symmetry reasoning a board is reduced to its *generic* form: a
//! sequence over `'0'` (open), `'1'` (player one), `'2'` (player two).
//! The eight dihedral transforms of the square act on these sequences as
//! fixed index permutations, and the canonical form of a board is the
//! image with the smallest base-3 code, which for equal-length strings of
//! these digits coincides with the lexicographically smallest string.

use vstd::prelude::*;

verus! {

// ---------------------------------------------------------------------
// Cell characters
// ---------------------------------------------------------------------

/// The mark of a player: `'X'` for player one, `'O'` for player two.
pub open spec fn player_char(first: bool) -> char {
    if first {
        'X'
    } else {
        'O'
    }
}

/// A cell holding a player mark (an occupied cell).
pub open spec fn is_mark(c: char) -> bool {
    c == 'X' || c == 'O'
}

/// The digit an open cell shows at 0-based position `i`.
pub open spec fn digit_char(i: int) -> char {
    if i == 0 {
        '1'
    } else if i == 1 {
        '2'
    } else if i == 2 {
        '3'
    } else if i == 3 {
        '4'
    } else if i == 4 {
        '5'
    } else if i == 5 {
        '6'
    } else if i == 6 {
        '7'
    } else if i == 7 {
        '8'
    } else {
        '9'
    }
}

/// A character that may legally appear in a cell: a mark or a digit 1-9.
pub open spec fn valid_cell(c: char) -> bool {
    is_mark(c) || c == '1' || c == '2' || c == '3' || c == '4' || c == '5' || c == '6' || c == '7'
        || c == '8' || c == '9'
}

/// A board image: 9 cells, each a mark or a position digit. Transform
/// images satisfy this even though their open digits have moved away
/// from their home positions.
pub open spec fn wf(s: Seq<char>) -> bool {
    s.len() == 9 && forall|i: int| 0 <= i < 9 ==> valid_cell(s[i])
}

/// A playable board: open cells show exactly the digit of their own
/// position, so the board doubles as its own legal-move list.
pub open spec fn placed(s: Seq<char>) -> bool {
    s.len() == 9 && forall|i: int| 0 <= i < 9 ==> (is_mark(s[i]) || s[i] == digit_char(i))
}

/// The cells of a fresh board: all open, showing the digits 1 to 9.
pub open spec fn init_cells() -> Seq<char> {
    seq!['1', '2', '3', '4', '5', '6', '7', '8', '9']
}

pub proof fn lemma_placed_wf(s: Seq<char>)
    requires
        placed(s),
    ensures
        wf(s),
{
    assert forall|i: int| 0 <= i < 9 implies valid_cell(s[i]) by {
        assert(is_mark(s[i]) || s[i] == digit_char(i));
    }
}

// ---------------------------------------------------------------------
// Generic (occupancy) form
// ---------------------------------------------------------------------

/// One cell reduced to occupancy: `'1'` player one, `'2'` player two,
/// `'0'` open.
pub open spec fn gen_char(c: char) -> char {
    if c == 'X' {
        '1'
    } else if c == 'O' {
        '2'
    } else {
        '0'
    }
}

/// The generic form of a board: its occupancy pattern as a string over
/// `'0'`, `'1'`, `'2'`.
pub open spec fn gen_of(s: Seq<char>) -> Seq<char> {
    Seq::new(9, |i: int| gen_char(s[i]))
}

/// A character of the generic alphabet.
pub open spec fn gcell(c: char) -> bool {
    c == '0' || c == '1' || c == '2'
}

/// A well-formed generic board.
pub open spec fn wf_gen(g: Seq<char>) -> bool {
    g.len() == 9 && forall|i: int| 0 <= i < 9 ==> gcell(g[i])
}

pub proof fn lemma_gen_wf(s: Seq<char>)
    requires
        s.len() == 9,
    ensures
        wf_gen(gen_of(s)),
{
}

/// The generic mark of the player to move.
pub open spec fn gmark(first: bool) -> char {
    if first {
        '1'
    } else {
        '2'
    }
}

// ---------------------------------------------------------------------
// Counting, fullness, turn parity
// ---------------------------------------------------------------------

/// 1 if the generic cell is open, else 0.
pub open spec fn ind_open(c: char) -> int {
    if c == '0' {
        1
    } else {
        0
    }
}

/// The number of open cells of a generic board, written as a plain
/// 9-term sum so that permutation invariance is immediate.
pub open spec fn open_count(g: Seq<char>) -> int {
    ind_open(g[0]) + ind_open(g[1]) + ind_open(g[2]) + ind_open(g[3]) + ind_open(g[4]) + ind_open(
        g[5],
    ) + ind_open(g[6]) + ind_open(g[7]) + ind_open(g[8])
}

/// 1 if the cell equals `t`, else 0.
pub open spec fn ind_eq(c: char, t: char) -> int {
    if c == t {
        1
    } else {
        0
    }
}

/// How many cells of a generic board hold `t`.
pub open spec fn count_of(g: Seq<char>, t: char) -> int {
    ind_eq(g[0], t) + ind_eq(g[1], t) + ind_eq(g[2], t) + ind_eq(g[3], t) + ind_eq(g[4], t)
        + ind_eq(g[5], t) + ind_eq(g[6], t) + ind_eq(g[7], t) + ind_eq(g[8], t)
}

/// Whose turn a position implies, player one moving first: it is player
/// one's turn exactly when both players have placed equally many marks.
pub open spec fn turn_of(g: Seq<char>) -> bool {
    count_of(g, '1') == count_of(g, '2')
}

/// A position reachable by alternating moves from the empty board has
/// either equal counts or one extra mark of player one.
pub open spec fn balanced(g: Seq<char>) -> bool {
    count_of(g, '1') == count_of(g, '2') || count_of(g, '1') == count_of(g, '2') + 1
}

// ---------------------------------------------------------------------
// Winning lines
// ---------------------------------------------------------------------

/// The three cells of one of the 8 lines all hold `t`.
pub open spec fn line_won(g: Seq<char>, a: int, b: int, c: int, t: char) -> bool {
    g[a] == t && g[b] == t && g[c] == t
}

/// Some line (3 rows, 3 columns, 2 diagonals) is filled with `t`.
pub open spec fn has_win(g: Seq<char>, t: char) -> bool {
    ||| line_won(g, 0, 1, 2, t)
    ||| line_won(g, 3, 4, 5, t)
    ||| line_won(g, 6, 7, 8, t)
    ||| line_won(g, 0, 3, 6, t)
    ||| line_won(g, 1, 4, 7, t)
    ||| line_won(g, 2, 5, 8, t)
    ||| line_won(g, 0, 4, 8, t)
    ||| line_won(g, 2, 4, 6, t)
}

/// At most one player owns a completed line. Every position arising in
/// a game satisfies this, since play stops at the first win.
pub open spec fn coherent(g: Seq<char>) -> bool {
    !(has_win(g, '1') && has_win(g, '2'))
}

/// The match query in the fixed order the engine checks: both diagonals
/// (reporting the center), then row 0, column 0, row 1, column 1, row 2,
/// column 2 (reporting the shared cell on the main diagonal).
pub open spec fn winner_ord(s: Seq<char>) -> Option<char> {
    if s[0] == s[4] && s[4] == s[8] || s[2] == s[4] && s[4] == s[6] {
        Some(s[4])
    } else if s[0] == s[1] && s[1] == s[2] {
        Some(s[0])
    } else if s[0] == s[3] && s[3] == s[6] {
        Some(s[0])
    } else if s[3] == s[4] && s[4] == s[5] {
        Some(s[4])
    } else if s[1] == s[4] && s[4] == s[7] {
        Some(s[4])
    } else if s[6] == s[7] && s[7] == s[8] {
        Some(s[8])
    } else if s[2] == s[5] && s[5] == s[8] {
        Some(s[8])
    } else {
        None
    }
}

/// On a playable board where at most one player has completed a line,
/// the ordered match query reports exactly the winning mark.
pub proof fn lemma_winner_ord_clean(s: Seq<char>)
    requires
        placed(s),
        coherent(gen_of(s)),
    ensures
        has_win(s, 'X') ==> winner_ord(s) == Some('X'),
        has_win(s, 'O') ==> winner_ord(s) == Some('O'),
        !has_win(s, 'X') && !has_win(s, 'O') ==> winner_ord(s) is None,
        has_win(s, 'X') == has_win(gen_of(s), '1'),
        has_win(s, 'O') == has_win(gen_of(s), '2'),
{
    assert(gen_of(s)[0] == gen_char(s[0]));
    assert(gen_of(s)[1] == gen_char(s[1]));
    assert(gen_of(s)[2] == gen_char(s[2]));
    assert(gen_of(s)[3] == gen_char(s[3]));
    assert(gen_of(s)[4] == gen_char(s[4]));
    assert(gen_of(s)[5] == gen_char(s[5]));
    assert(gen_of(s)[6] == gen_char(s[6]));
    assert(gen_of(s)[7] == gen_char(s[7]));
    assert(gen_of(s)[8] == gen_char(s[8]));
    assert(is_mark(s[0]) || s[0] == digit_char(0));
    assert(is_mark(s[1]) || s[1] == digit_char(1));
    assert(is_mark(s[2]) || s[2] == digit_char(2));
    assert(is_mark(s[3]) || s[3] == digit_char(3));
    assert(is_mark(s[4]) || s[4] == digit_char(4));
    assert(is_mark(s[5]) || s[5] == digit_char(5));
    assert(is_mark(s[6]) || s[6] == digit_char(6));
    assert(is_mark(s[7]) || s[7] == digit_char(7));
    assert(is_mark(s[8]) || s[8] == digit_char(8));
    assert(has_win(s, 'X') == has_win(gen_of(s), '1'));
    assert(has_win(s, 'O') == has_win(gen_of(s), '2'));
}

// ---------------------------------------------------------------------
// The eight dihedral transforms as index permutations
// ---------------------------------------------------------------------

/// The index table of transform `t`: the image board reads its cell `i`
/// from cell `perm_seq(t)[i]` of the source. The eight transforms are:
/// 0 identity, 1 vertical flip (row order reversed), 2 horizontal flip
/// (column order reversed), 3 transpose, 4 left rotation (transpose then
/// vertical flip), 5 half turn (both flips), 6 right rotation (transpose
/// then horizontal flip), 7 anti-diagonal reflection (transpose then
/// both flips).
pub open spec fn perm_seq(t: int) -> Seq<int> {
    if t == 0 {
        seq![0int, 1, 2, 3, 4, 5, 6, 7, 8]
    } else if t == 1 {
        seq![6int, 7, 8, 3, 4, 5, 0, 1, 2]
    } else if t == 2 {
        seq![2int, 1, 0, 5, 4, 3, 8, 7, 6]
    } else if t == 3 {
        seq![0int, 3, 6, 1, 4, 7, 2, 5, 8]
    } else if t == 4 {
        seq![2int, 5, 8, 1, 4, 7, 0, 3, 6]
    } else if t == 5 {
        seq![8int, 7, 6, 5, 4, 3, 2, 1, 0]
    } else if t == 6 {
        seq![6int, 3, 0, 7, 4, 1, 8, 5, 2]
    } else {
        seq![8int, 5, 2, 7, 4, 1, 6, 3, 0]
    }
}

/// The image of a board under transform `t`.
pub open spec fn apply_perm(t: int, g: Seq<char>) -> Seq<char> {
    Seq::new(9, |i: int| g[perm_seq(t)[i]])
}

/// Applying transform `k` to the image under `t` gives the image under
/// `comp(t, k)`: the dihedral group is closed under composition.
pub open spec fn comp(t: int, k: int) -> int {
    comp_table()[t][k]
}

/// The composition table of the eight transforms, row `t`, column `k`.
pub open spec fn comp_table() -> Seq<Seq<int>> {
    seq![
        seq![0int, 1, 2, 3, 4, 5, 6, 7],
        seq![1int, 0, 5, 6, 7, 2, 3, 4],
        seq![2int, 5, 0, 4, 3, 1, 7, 6],
        seq![3int, 4, 6, 0, 1, 7, 2, 5],
        seq![4int, 3, 7, 2, 5, 6, 0, 1],
        seq![5int, 2, 1, 7, 6, 0, 4, 3],
        seq![6int, 7, 3, 1, 0, 4, 5, 2],
        seq![7int, 6, 4, 5, 2, 3, 1, 0],
    ]
}

// ---------------------------------------------------------------------
// Codes and the canonical form
// ---------------------------------------------------------------------

/// A generic cell as a base-3 digit.
pub open spec fn tri(c: char) -> int {
    if c == '1' {
        1
    } else if c == '2' {
        2
    } else {
        0
    }
}

/// The base-3 code of a generic board, most significant digit first.
/// For 9-character strings over the digits `'0' < '1' < '2'`, comparing
/// codes is the same as comparing the strings lexicographically.
pub open spec fn code_of(g: Seq<char>) -> int {
    6561 * tri(g[0]) + 2187 * tri(g[1]) + 729 * tri(g[2]) + 243 * tri(g[3]) + 81 * tri(g[4]) + 27
        * tri(g[5]) + 9 * tri(g[6]) + 3 * tri(g[7]) + tri(g[8])
}

/// The smallest code among the eight transform images.
pub open spec fn canon_code(g: Seq<char>) -> int {
    vstd::math::min(
        vstd::math::min(
            vstd::math::min(code_of(apply_perm(0, g)), code_of(apply_perm(1, g))),
            vstd::math::min(code_of(apply_perm(2, g)), code_of(apply_perm(3, g))),
        ),
        vstd::math::min(
            vstd::math::min(code_of(apply_perm(4, g)), code_of(apply_perm(5, g))),
            vstd::math::min(code_of(apply_perm(6, g)), code_of(apply_perm(7, g))),
        ),
    )
}

/// The canonical form of a generic board: the transform image whose
/// code — equivalently, whose string — is smallest.
pub open spec fn canon(g: Seq<char>) -> Seq<char> {
    apply_perm(choose|t: int| 0 <= t < 8 && code_of(apply_perm(t, g)) == canon_code(g), g)
}

// ---------------------------------------------------------------------
// Open spaces
// ---------------------------------------------------------------------

/// The ascending list of 1-based positions of the open cells of a board,
/// starting the scan at 0-based index `i`.
pub open spec fn open_from(s: Seq<char>, i: int) -> Seq<usize>
    decreases 9 - i,
{
    if i < 0 || i >= 9 {
        Seq::empty()
    } else if !is_mark(s[i]) {
        seq![(i + 1) as usize] + open_from(s, i + 1)
    } else {
        open_from(s, i + 1)
    }
}

/// The ascending list of 1-based open positions of a board.
pub open spec fn open_spaces(s: Seq<char>) -> Seq<usize> {
    open_from(s, 0)
}

// ---------------------------------------------------------------------
// Minimax
// ---------------------------------------------------------------------

/// The position after the mover places a mark on open cell `i`.
pub open spec fn play(g: Seq<char>, i: int, first: bool) -> Seq<char> {
    g.update(i, gmark(first))
}

/// The minimax value of a position, always from player one's point of
/// view: 10 if player one has a completed line, -10 if player two has,
/// 0 for a full drawn board, and otherwise the best child value for the
/// mover — the maximum when player one moves, the minimum when player
/// two moves.
pub open spec fn mm(g: Seq<char>, first: bool) -> int
    decreases open_count(g), 10int,
{
    if has_win(g, '1') {
        10
    } else if has_win(g, '2') {
        -10
    } else if open_count(g) <= 0 {
        0
    } else {
        mm_scan(g, first, 0)
    }
}

/// The best value over the open cells at 0-based indices `i..9`, scanned
/// in ascending order; the sentinel for an empty scan never surfaces,
/// since `mm` only scans positions that still have an open cell.
pub open spec fn mm_scan(g: Seq<char>, first: bool, i: int) -> int
    decreases open_count(g), 9 - i,
{
    if i < 0 || i >= 9 {
        if first {
            -100
        } else {
            100
        }
    } else if g.len() == 9 && g[i] == '0' && open_count(g) > 0 {
        let sc = mm(play(g, i, first), !first);
        let rest = mm_scan(g, first, i + 1);
        if first {
            vstd::math::max(sc, rest)
        } else {
            vstd::math::min(sc, rest)
        }
    } else {
        mm_scan(g, first, i + 1)
    }
}

/// The open-space list is as long as the open-cell count of the
/// board's generic form.
pub proof fn lemma_open_spaces_count(s: Seq<char>)
    requires
        s.len() == 9,
    ensures
        open_spaces(s).len() == open_count(gen_of(s)),
{
    assert(open_from(s, 9) =~= Seq::<usize>::empty());
    assert(gen_of(s)[0] == gen_char(s[0]));
    assert(gen_of(s)[1] == gen_char(s[1]));
    assert(gen_of(s)[2] == gen_char(s[2]));
    assert(gen_of(s)[3] == gen_char(s[3]));
    assert(gen_of(s)[4] == gen_char(s[4]));
    assert(gen_of(s)[5] == gen_char(s[5]));
    assert(gen_of(s)[6] == gen_char(s[6]));
    assert(gen_of(s)[7] == gen_char(s[7]));
    assert(gen_of(s)[8] == gen_char(s[8]));
    assert(open_from(s, 8).len() == ind_open(gen_char(s[8])));
    assert(open_from(s, 7).len() == open_from(s, 8).len() + ind_open(gen_char(s[7])));
    assert(open_from(s, 6).len() == open_from(s, 7).len() + ind_open(gen_char(s[6])));
    assert(open_from(s, 5).len() == open_from(s, 6).len() + ind_open(gen_char(s[5])));
    assert(open_from(s, 4).len() == open_from(s, 5).len() + ind_open(gen_char(s[4])));
    assert(open_from(s, 3).len() == open_from(s, 4).len() + ind_open(gen_char(s[3])));
    assert(open_from(s, 2).len() == open_from(s, 3).len() + ind_open(gen_char(s[2])));
    assert(open_from(s, 1).len() == open_from(s, 2).len() + ind_open(gen_char(s[1])));
    assert(open_from(s, 0).len() == open_from(s, 1).len() + ind_open(gen_char(s[0])));
}

/// A fresh or reset board is not full: its open-space list is exactly
/// the nine positions 1 through 9, in order.
pub proof fn lemma_fresh_board_open()
    ensures
        open_spaces(init_cells()) == seq![1usize, 2, 3, 4, 5, 6, 7, 8, 9],
{
    let s = init_cells();
    assert(open_from(s, 9) =~= Seq::<usize>::empty());
    assert(open_from(s, 8) =~= seq![9usize]);
    assert(open_from(s, 7) =~= seq![8usize, 9]);
    assert(open_from(s, 6) =~= seq![7usize, 8, 9]);
    assert(open_from(s, 5) =~= seq![6usize, 7, 8, 9]);
    assert(open_from(s, 4) =~= seq![5usize, 6, 7, 8, 9]);
    assert(open_from(s, 3) =~= seq![4usize, 5, 6, 7, 8, 9]);
    assert(open_from(s, 2) =~= seq![3usize, 4, 5, 6, 7, 8, 9]);
    assert(open_from(s, 1) =~= seq![2usize, 3, 4, 5, 6, 7, 8, 9]);
    assert(open_from(s, 0) =~= seq![1usize, 2, 3, 4, 5, 6, 7, 8, 9]);
}

/// What stands in the open-space list: exactly the 1-based positions of
/// the cells at or after `i` that are open, in ascending order.
pub proof fn lemma_open_from_members(s: Seq<char>, i: int)
    requires
        s.len() == 9,
        0 <= i,
    ensures
        forall|n: int|
            0 <= n < open_from(s, i).len() ==> i + 1 <= #[trigger] open_from(s, i)[n] <= 9
                && !is_mark(s[open_from(s, i)[n] - 1]),
        forall|j: int| i <= j < 9 && !is_mark(s[j]) ==> open_from(s, i).contains((j + 1) as usize),
        forall|n: int, m: int|
            0 <= n < m < open_from(s, i).len() ==> open_from(s, i)[n] < open_from(s, i)[m],
    decreases 9 - i,
{
    if i < 9 {
        lemma_open_from_members(s, i + 1);
        if !is_mark(s[i]) {
            assert(open_from(s, i) == seq![(i + 1) as usize] + open_from(s, i + 1));
            assert forall|j: int| i <= j < 9 && !is_mark(s[j]) implies open_from(s, i).contains(
                ((j + 1) as usize),
            ) by {
                if j == i {
                    assert(open_from(s, i)[0] == (i + 1) as usize);
                } else {
                    let n = choose|n: int|
                        0 <= n < open_from(s, i + 1).len() && #[trigger] open_from(s, i + 1)[n]
                            == (j + 1) as usize;
                    assert(open_from(s, i)[n + 1] == (j + 1) as usize);
                }
            }
        } else {
            assert(open_from(s, i) == open_from(s, i + 1));
        }
    }
}

/// Placing a mark on an open cell lowers the open-cell count by one.
pub proof fn lemma_play_open_count(g: Seq<char>, i: int, first: bool)
    requires
        g.len() == 9,
        0 <= i < 9,
        g[i] == '0',
    ensures
        open_count(play(g, i, first)) == open_count(g) - 1,
{
}

} // verus!
