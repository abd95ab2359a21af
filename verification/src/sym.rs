//! Lemmas about the eight dihedral transforms: that they permute the
//! cells, compose into one another, and leave winning lines, cell
//! counts, the canonical form and the minimax value unchanged.

use crate::model::{
    apply_perm, balanced, canon, canon_code, code_of, coherent, comp, count_of, gcell, gen_of,
    has_win, lemma_play_open_count, mm, mm_scan, open_count, perm_seq, play, player_char, tri,
    turn_of, wf_gen,
};
use vstd::prelude::*;

verus! {

/// The inverse transform of `t`: applying `t` and then `inv_t(t)`
/// restores the board.
pub open spec fn inv_t(t: int) -> int {
    if t == 4 {
        6
    } else if t == 6 {
        4
    } else {
        t
    }
}

/// Each transform table is a permutation of the indices 0..9.
pub proof fn lemma_perm_bounds(t: int)
    requires
        0 <= t < 8,
    ensures
        forall|i: int| 0 <= i < 9 ==> 0 <= #[trigger] perm_seq(t)[i] < 9,
        forall|i: int, j: int|
            0 <= i < 9 && 0 <= j < 9 && perm_seq(t)[i] == perm_seq(t)[j] ==> i == j,
{
    assert forall|i: int| 0 <= i < 9 implies 0 <= #[trigger] perm_seq(t)[i] < 9 by {
        assert(t == 0 || t == 1 || t == 2 || t == 3 || t == 4 || t == 5 || t == 6 || t == 7);
    }
    assert forall|i: int, j: int|
        0 <= i < 9 && 0 <= j < 9 && perm_seq(t)[i] == perm_seq(t)[j] implies i == j by {
        assert(t == 0 || t == 1 || t == 2 || t == 3 || t == 4 || t == 5 || t == 6 || t == 7);
    }
}

/// Transform `t` followed by its inverse visits every index back home.
pub proof fn lemma_perm_inverse(t: int)
    requires
        0 <= t < 8,
    ensures
        0 <= inv_t(t) < 8,
        forall|i: int| 0 <= i < 9 ==> perm_seq(t)[#[trigger] perm_seq(inv_t(t))[i]] == i,
        forall|i: int| 0 <= i < 9 ==> perm_seq(inv_t(t))[#[trigger] perm_seq(t)[i]] == i,
{
    assert forall|i: int| 0 <= i < 9 implies perm_seq(t)[#[trigger] perm_seq(inv_t(t))[i]]
        == i by {
        assert(t == 0 || t == 1 || t == 2 || t == 3 || t == 4 || t == 5 || t == 6 || t == 7);
    }
    assert forall|i: int| 0 <= i < 9 implies perm_seq(inv_t(t))[#[trigger] perm_seq(t)[i]]
        == i by {
        assert(t == 0 || t == 1 || t == 2 || t == 3 || t == 4 || t == 5 || t == 6 || t == 7);
    }
}

/// The identity transform leaves a board unchanged.
pub proof fn lemma_apply_id(g: Seq<char>)
    requires
        g.len() == 9,
    ensures
        apply_perm(0, g) == g,
{
    assert(apply_perm(0, g) =~= g);
}

/// Composing two transforms is again one of the eight transforms, the
/// one the composition table names.
pub proof fn lemma_comp(t: int, k: int, g: Seq<char>)
    requires
        0 <= t < 8,
        0 <= k < 8,
        g.len() == 9,
    ensures
        0 <= comp(t, k) < 8,
        apply_perm(k, apply_perm(t, g)) == apply_perm(comp(t, k), g),
{
    assert(t == 0 || t == 1 || t == 2 || t == 3 || t == 4 || t == 5 || t == 6 || t == 7);
    assert(k == 0 || k == 1 || k == 2 || k == 3 || k == 4 || k == 5 || k == 6 || k == 7);
    assert forall|i: int| 0 <= i < 9 implies perm_seq(t)[#[trigger] perm_seq(k)[i]] == perm_seq(
        comp(t, k),
    )[i] by {
        assert(t == 0 || t == 1 || t == 2 || t == 3 || t == 4 || t == 5 || t == 6 || t == 7);
        assert(k == 0 || k == 1 || k == 2 || k == 3 || k == 4 || k == 5 || k == 6 || k == 7);
    }
    lemma_perm_bounds(k);
    assert(apply_perm(k, apply_perm(t, g)) =~= apply_perm(comp(t, k), g));
}

/// Transforming preserves well-formedness of a generic board.
pub proof fn lemma_apply_wf(t: int, g: Seq<char>)
    requires
        0 <= t < 8,
        wf_gen(g),
    ensures
        wf_gen(apply_perm(t, g)),
{
    lemma_perm_bounds(t);
}

/// A transform maps the eight winning lines onto the eight winning
/// lines, so who has a completed line does not change.
pub proof fn lemma_has_win_perm(t: int, g: Seq<char>, tok: char)
    requires
        0 <= t < 8,
        g.len() == 9,
    ensures
        has_win(apply_perm(t, g), tok) == has_win(g, tok),
{
    assert(t == 0 || t == 1 || t == 2 || t == 3 || t == 4 || t == 5 || t == 6 || t == 7);
}

/// A transform reorders the cells, so every cell count is unchanged.
pub proof fn lemma_counts_perm(t: int, g: Seq<char>)
    requires
        0 <= t < 8,
        g.len() == 9,
    ensures
        open_count(apply_perm(t, g)) == open_count(g),
        forall|tok: char| count_of(apply_perm(t, g), tok) == count_of(g, tok),
        turn_of(apply_perm(t, g)) == turn_of(g),
        balanced(apply_perm(t, g)) == balanced(g),
{
    assert(t == 0 || t == 1 || t == 2 || t == 3 || t == 4 || t == 5 || t == 6 || t == 7);
    assert forall|tok: char| count_of(apply_perm(t, g), tok) == count_of(g, tok) by {
        assert(t == 0 || t == 1 || t == 2 || t == 3 || t == 4 || t == 5 || t == 6 || t == 7);
    }
}

/// Two well-formed generic boards with the same code are equal.
pub proof fn lemma_code_injective(a: Seq<char>, b: Seq<char>)
    requires
        wf_gen(a),
        wf_gen(b),
        code_of(a) == code_of(b),
    ensures
        a == b,
{
    assert forall|i: int| 0 <= i < 9 implies gcell(a[i]) && gcell(b[i]) by {}
    assert(tri(a[0]) == tri(b[0]) && tri(a[1]) == tri(b[1]) && tri(a[2]) == tri(b[2]) && tri(a[3])
        == tri(b[3]) && tri(a[4]) == tri(b[4]) && tri(a[5]) == tri(b[5]) && tri(a[6]) == tri(b[6])
        && tri(a[7]) == tri(b[7]) && tri(a[8]) == tri(b[8]));
    assert(a =~= b);
}

/// The canonical form is one of the eight transform images, the one
/// whose code is the smallest of the eight.
pub proof fn lemma_canon_form(g: Seq<char>)
    requires
        wf_gen(g),
    ensures
        exists|t: int| 0 <= t < 8 && canon(g) == apply_perm(t, g),
        code_of(canon(g)) == canon_code(g),
        wf_gen(canon(g)),
{
    assert(exists|t: int| 0 <= t < 8 && code_of(apply_perm(t, g)) == canon_code(g)) by {
        if code_of(apply_perm(0, g)) == canon_code(g) {
            assert(0 <= 0int < 8 && code_of(apply_perm(0, g)) == canon_code(g));
        } else if code_of(apply_perm(1, g)) == canon_code(g) {
            assert(0 <= 1int < 8 && code_of(apply_perm(1, g)) == canon_code(g));
        } else if code_of(apply_perm(2, g)) == canon_code(g) {
            assert(0 <= 2int < 8 && code_of(apply_perm(2, g)) == canon_code(g));
        } else if code_of(apply_perm(3, g)) == canon_code(g) {
            assert(0 <= 3int < 8 && code_of(apply_perm(3, g)) == canon_code(g));
        } else if code_of(apply_perm(4, g)) == canon_code(g) {
            assert(0 <= 4int < 8 && code_of(apply_perm(4, g)) == canon_code(g));
        } else if code_of(apply_perm(5, g)) == canon_code(g) {
            assert(0 <= 5int < 8 && code_of(apply_perm(5, g)) == canon_code(g));
        } else if code_of(apply_perm(6, g)) == canon_code(g) {
            assert(0 <= 6int < 8 && code_of(apply_perm(6, g)) == canon_code(g));
        } else {
            assert(0 <= 7int < 8 && code_of(apply_perm(7, g)) == canon_code(g));
        }
    }
    let t = choose|t: int| 0 <= t < 8 && code_of(apply_perm(t, g)) == canon_code(g);
    assert(canon(g) == apply_perm(t, g));
    lemma_apply_wf(t, g);
}

/// The canonical code ranges over the same eight image codes whichever
/// transform image it starts from, so it is a symmetry invariant.
#[verifier::rlimit(60)]
pub proof fn lemma_canon_code_perm(t: int, g: Seq<char>)
    requires
        0 <= t < 8,
        g.len() == 9,
    ensures
        canon_code(apply_perm(t, g)) == canon_code(g),
{
    lemma_comp(t, 0, g);
    lemma_comp(t, 1, g);
    lemma_comp(t, 2, g);
    lemma_comp(t, 3, g);
    lemma_comp(t, 4, g);
    lemma_comp(t, 5, g);
    lemma_comp(t, 6, g);
    lemma_comp(t, 7, g);
    if t == 0 {
        assert(comp(t, 0) == 0 && comp(t, 1) == 1 && comp(t, 2) == 2 && comp(t, 3) == 3 && comp(
            t,
            4,
        ) == 4 && comp(t, 5) == 5 && comp(t, 6) == 6 && comp(t, 7) == 7);
    } else if t == 1 {
        assert(comp(t, 0) == 1 && comp(t, 1) == 0 && comp(t, 2) == 5 && comp(t, 3) == 6 && comp(
            t,
            4,
        ) == 7 && comp(t, 5) == 2 && comp(t, 6) == 3 && comp(t, 7) == 4);
    } else if t == 2 {
        assert(comp(t, 0) == 2 && comp(t, 1) == 5 && comp(t, 2) == 0 && comp(t, 3) == 4 && comp(
            t,
            4,
        ) == 3 && comp(t, 5) == 1 && comp(t, 6) == 7 && comp(t, 7) == 6);
    } else if t == 3 {
        assert(comp(t, 0) == 3 && comp(t, 1) == 4 && comp(t, 2) == 6 && comp(t, 3) == 0 && comp(
            t,
            4,
        ) == 1 && comp(t, 5) == 7 && comp(t, 6) == 2 && comp(t, 7) == 5);
    } else if t == 4 {
        assert(comp(t, 0) == 4 && comp(t, 1) == 3 && comp(t, 2) == 7 && comp(t, 3) == 2 && comp(
            t,
            4,
        ) == 5 && comp(t, 5) == 6 && comp(t, 6) == 0 && comp(t, 7) == 1);
    } else if t == 5 {
        assert(comp(t, 0) == 5 && comp(t, 1) == 2 && comp(t, 2) == 1 && comp(t, 3) == 7 && comp(
            t,
            4,
        ) == 6 && comp(t, 5) == 0 && comp(t, 6) == 4 && comp(t, 7) == 3);
    } else if t == 6 {
        assert(comp(t, 0) == 6 && comp(t, 1) == 7 && comp(t, 2) == 3 && comp(t, 3) == 1 && comp(
            t,
            4,
        ) == 0 && comp(t, 5) == 4 && comp(t, 6) == 5 && comp(t, 7) == 2);
    } else {
        assert(comp(t, 0) == 7 && comp(t, 1) == 6 && comp(t, 2) == 4 && comp(t, 3) == 5 && comp(
            t,
            4,
        ) == 2 && comp(t, 5) == 3 && comp(t, 6) == 1 && comp(t, 7) == 0);
    }
}

/// The canonical form itself is a symmetry invariant: a transformed
/// board has the same canonical form as the board.
pub proof fn lemma_canon_perm(t: int, g: Seq<char>)
    requires
        0 <= t < 8,
        wf_gen(g),
    ensures
        canon(apply_perm(t, g)) == canon(g),
{
    lemma_apply_wf(t, g);
    lemma_canon_code_perm(t, g);
    lemma_canon_form(g);
    lemma_canon_form(apply_perm(t, g));
    let k = choose|k: int| 0 <= k < 8 && canon(apply_perm(t, g)) == apply_perm(k, apply_perm(t, g));
    lemma_comp(t, k, g);
    lemma_apply_wf(comp(t, k), g);
    lemma_code_injective(canon(apply_perm(t, g)), canon(g));
}

/// Two well-formed generic boards with the same canonical code have the
/// same canonical form.
pub proof fn lemma_same_code_same_canon(a: Seq<char>, b: Seq<char>)
    requires
        wf_gen(a),
        wf_gen(b),
        canon_code(a) == canon_code(b),
    ensures
        canon(a) == canon(b),
{
    lemma_canon_form(a);
    lemma_canon_form(b);
    lemma_code_injective(canon(a), canon(b));
}

/// Placing a mark commutes with a transform: playing cell `i` of the
/// image is playing cell `perm_seq(t)[i]` of the source.
pub proof fn lemma_play_perm(t: int, g: Seq<char>, i: int, first: bool)
    requires
        0 <= t < 8,
        g.len() == 9,
        0 <= i < 9,
    ensures
        play(apply_perm(t, g), i, first) == apply_perm(t, play(g, perm_seq(t)[i], first)),
{
    lemma_perm_bounds(t);
    assert(play(apply_perm(t, g), i, first) =~= apply_perm(t, play(g, perm_seq(t)[i], first)));
}

/// An open cell witnesses a positive open-cell count.
pub proof fn lemma_oc_pos(g: Seq<char>, j: int)
    requires
        g.len() == 9,
        0 <= j < 9,
        g[j] == '0',
    ensures
        open_count(g) > 0,
{
    assert(j == 0 || j == 1 || j == 2 || j == 3 || j == 4 || j == 5 || j == 6 || j == 7 || j == 8);
}

/// A positive open-cell count yields an open cell.
pub proof fn lemma_oc_witness(g: Seq<char>)
    requires
        g.len() == 9,
        open_count(g) > 0,
    ensures
        exists|j: int| 0 <= j < 9 && g[j] == '0',
{
    if g[0] == '0' {
        assert(0 <= 0int < 9 && g[0] == '0');
    } else if g[1] == '0' {
        assert(0 <= 1int < 9 && g[1] == '0');
    } else if g[2] == '0' {
        assert(0 <= 2int < 9 && g[2] == '0');
    } else if g[3] == '0' {
        assert(0 <= 3int < 9 && g[3] == '0');
    } else if g[4] == '0' {
        assert(0 <= 4int < 9 && g[4] == '0');
    } else if g[5] == '0' {
        assert(0 <= 5int < 9 && g[5] == '0');
    } else if g[6] == '0' {
        assert(0 <= 6int < 9 && g[6] == '0');
    } else if g[7] == '0' {
        assert(0 <= 7int < 9 && g[7] == '0');
    } else {
        assert(0 <= 8int < 9 && g[8] == '0');
    }
}

/// A scan over cells none of which is open yields the sentinel.
pub proof fn lemma_scan_empty(g: Seq<char>, first: bool, i: int)
    requires
        forall|j: int| i <= j < 9 ==> g[j] != '0',
    ensures
        mm_scan(g, first, i) == if first {
            -100int
        } else {
            100int
        },
    decreases 9 - i,
{
    if 0 <= i < 9 {
        lemma_scan_empty(g, first, i + 1);
    }
}

/// The scan value is attained at some open cell at or after `i`.
pub open spec fn attained_scan(g: Seq<char>, first: bool, v: int, i: int) -> bool {
    exists|j: int| i <= j < 9 && g[j] == '0' && v == mm(play(g, j, first), !first)
}

/// The scan value bounds the value of every open cell at or after `i`:
/// from above when player one moves, from below when player two moves.
pub open spec fn bounds_scan(g: Seq<char>, first: bool, v: int, i: int) -> bool {
    forall|j: int|
        i <= j < 9 && g[j] == '0' ==> if first {
            mm(play(g, j, first), !first) <= v
        } else {
            v <= mm(play(g, j, first), !first)
        }
}

/// The minimax value always lies between the two win scores.
pub proof fn lemma_mm_bounds(g: Seq<char>, first: bool)
    requires
        g.len() == 9,
    ensures
        -10 <= mm(g, first) <= 10,
    decreases open_count(g), 10int,
{
    if !has_win(g, '1') && !has_win(g, '2') && open_count(g) > 0 {
        lemma_oc_witness(g);
        lemma_scan_char(g, first, 0);
        let j = choose|j: int|
            0 <= j < 9 && g[j] == '0' && mm_scan(g, first, 0) == mm(play(g, j, first), !first);
        lemma_play_open_count(g, j, first);
        lemma_mm_bounds(play(g, j, first), !first);
    }
}

/// The scan over the open cells at or after `i` computes exactly the
/// best child value there: it is attained, and it bounds all of them.
pub proof fn lemma_scan_char(g: Seq<char>, first: bool, i: int)
    requires
        g.len() == 9,
        0 <= i < 9,
        exists|j: int| i <= j < 9 && g[j] == '0',
    ensures
        attained_scan(g, first, mm_scan(g, first, i), i),
        bounds_scan(g, first, mm_scan(g, first, i), i),
    decreases open_count(g), 9 - i,
{
    let jw = choose|j: int| i <= j < 9 && g[j] == '0';
    lemma_oc_pos(g, jw);
    let v = mm_scan(g, first, i);
    if g[i] == '0' {
        let sc = mm(play(g, i, first), !first);
        let rest = mm_scan(g, first, i + 1);
        lemma_play_open_count(g, i, first);
        lemma_mm_bounds(play(g, i, first), !first);
        if exists|j: int| i + 1 <= j < 9 && g[j] == '0' {
            lemma_scan_char(g, first, i + 1);
            if first {
                assert(v == vstd::math::max(sc, rest));
                if v == sc {
                    assert(i <= i < 9 && g[i] == '0' && v == mm(play(g, i, first), !first));
                } else {
                    let j = choose|j: int|
                        i + 1 <= j < 9 && g[j] == '0' && rest == mm(play(g, j, first), !first);
                    assert(i <= j < 9 && g[j] == '0' && v == mm(play(g, j, first), !first));
                }
            } else {
                assert(v == vstd::math::min(sc, rest));
                if v == sc {
                    assert(i <= i < 9 && g[i] == '0' && v == mm(play(g, i, first), !first));
                } else {
                    let j = choose|j: int|
                        i + 1 <= j < 9 && g[j] == '0' && rest == mm(play(g, j, first), !first);
                    assert(i <= j < 9 && g[j] == '0' && v == mm(play(g, j, first), !first));
                }
            }
        } else {
            lemma_scan_empty(g, first, i + 1);
            assert(v == sc);
            assert(i <= i < 9 && g[i] == '0' && v == mm(play(g, i, first), !first));
        }
    } else {
        assert(i + 1 <= jw < 9);
        lemma_scan_char(g, first, i + 1);
        assert(v == mm_scan(g, first, i + 1));
    }
}

/// The central symmetry theorem: a dihedral transform changes neither
/// side's minimax value, whoever is to move.
pub proof fn lemma_mm_perm(t: int, g: Seq<char>, first: bool)
    requires
        0 <= t < 8,
        wf_gen(g),
    ensures
        mm(apply_perm(t, g), first) == mm(g, first),
    decreases open_count(g),
{
    let h = apply_perm(t, g);
    lemma_apply_wf(t, g);
    lemma_has_win_perm(t, g, '1');
    lemma_has_win_perm(t, g, '2');
    lemma_counts_perm(t, g);
    lemma_perm_bounds(t);
    lemma_perm_inverse(t);
    if !has_win(g, '1') && !has_win(g, '2') && open_count(g) > 0 {
        lemma_oc_witness(g);
        lemma_oc_witness(h);
        lemma_scan_char(g, first, 0);
        lemma_scan_char(h, first, 0);
        let v = mm_scan(g, first, 0);
        let w = mm_scan(h, first, 0);
        // the value of the image scan is a child value of the source
        let jh = choose|j: int|
            0 <= j < 9 && h[j] == '0' && w == mm(play(h, j, first), !first);
        let js = perm_seq(t)[jh];
        lemma_play_perm(t, g, jh, first);
        assert(g[js] == '0');
        lemma_play_wf(g, js, first);
        lemma_play_open_count(g, js, first);
        lemma_mm_perm(t, play(g, js, first), !first);
        assert(w == mm(play(g, js, first), !first));
        // the value of the source scan is a child value of the image
        let jg = choose|j: int|
            0 <= j < 9 && g[j] == '0' && v == mm(play(g, j, first), !first);
        let ji = perm_seq(inv_t(t))[jh];
        lemma_perm_bounds(inv_t(t));
        let jgi = perm_seq(inv_t(t))[jg];
        assert(perm_seq(t)[jgi] == jg);
        lemma_play_perm(t, g, jgi, first);
        assert(h[jgi] == '0');
        lemma_play_wf(g, jg, first);
        lemma_play_open_count(g, jg, first);
        lemma_mm_perm(t, play(g, jg, first), !first);
        assert(mm(play(h, jgi, first), !first) == mm(play(g, jg, first), !first));
        // hence each scan value bounds the other
        if first {
            assert(w <= v);
            assert(v <= w);
        } else {
            assert(v <= w);
            assert(w <= v);
        }
    }
}

/// Passing to the canonical form changes neither the minimax value nor
/// whose turn the position implies: this is what makes one score per
/// canonical state a sound memoization, however the state was reached.
pub proof fn lemma_mm_canon(g: Seq<char>, first: bool)
    requires
        wf_gen(g),
    ensures
        wf_gen(canon(g)),
        code_of(canon(g)) == canon_code(g),
        mm(canon(g), first) == mm(g, first),
        turn_of(canon(g)) == turn_of(g),
        open_count(canon(g)) == open_count(g),
        has_win(canon(g), '1') == has_win(g, '1'),
        has_win(canon(g), '2') == has_win(g, '2'),
{
    lemma_canon_form(g);
    let t = choose|t: int| 0 <= t < 8 && canon(g) == apply_perm(t, g);
    lemma_mm_perm(t, g, first);
    lemma_counts_perm(t, g);
    lemma_has_win_perm(t, g, '1');
    lemma_has_win_perm(t, g, '2');
}

/// The two flips and the transpose are involutions: applying one twice
/// restores the board.
pub proof fn lemma_apply_involutive(t: int, s: Seq<char>)
    requires
        t == 1 || t == 2 || t == 3 || t == 5,
        s.len() == 9,
    ensures
        apply_perm(t, apply_perm(t, s)) == s,
{
    lemma_comp(t, t, s);
    assert(comp(t, t) == 0);
    lemma_apply_id(s);
}

/// Reducing to the generic form commutes with transforming: both act
/// on cells one by one.
pub proof fn lemma_gen_apply(t: int, s: Seq<char>)
    requires
        0 <= t < 8,
        s.len() == 9,
    ensures
        gen_of(apply_perm(t, s)) == apply_perm(t, gen_of(s)),
{
    lemma_perm_bounds(t);
    assert(gen_of(apply_perm(t, s)) =~= apply_perm(t, gen_of(s)));
}

/// Genericizing commutes with placing a mark: marking cell `j` of the
/// board marks cell `j` of its occupancy pattern.
pub proof fn lemma_gen_play(s: Seq<char>, j: int, first: bool)
    requires
        s.len() == 9,
        0 <= j < 9,
    ensures
        gen_of(s.update(j, player_char(first))) == play(gen_of(s), j, first),
{
    assert(gen_of(s.update(j, player_char(first))) =~= play(gen_of(s), j, first));
}

/// Playing a mark keeps a generic board well-formed.
pub proof fn lemma_play_wf(g: Seq<char>, i: int, first: bool)
    requires
        wf_gen(g),
        0 <= i < 9,
    ensures
        wf_gen(play(g, i, first)),
{
}

/// What one legal move does to a live position: the mover's count
/// grows by one, so the turn flips and the position stays balanced;
/// and since nobody had a completed line, only the mover can have one
/// now, so the position stays coherent.
pub proof fn lemma_play_effects(g: Seq<char>, i: int, first: bool)
    requires
        wf_gen(g),
        0 <= i < 9,
        g[i] == '0',
        !has_win(g, '1'),
        !has_win(g, '2'),
        balanced(g),
        first == turn_of(g),
    ensures
        wf_gen(play(g, i, first)),
        open_count(play(g, i, first)) == open_count(g) - 1,
        balanced(play(g, i, first)),
        turn_of(play(g, i, first)) == !first,
        coherent(play(g, i, first)),
{
    let h = play(g, i, first);
    assert(i == 0 || i == 1 || i == 2 || i == 3 || i == 4 || i == 5 || i == 6 || i == 7 || i == 8);
    if first {
        assert(count_of(h, '1') == count_of(g, '1') + 1);
        assert(count_of(h, '2') == count_of(g, '2'));
        assert(!has_win(h, '2'));
    } else {
        assert(count_of(h, '2') == count_of(g, '2') + 1);
        assert(count_of(h, '1') == count_of(g, '1'));
        assert(!has_win(h, '1'));
    }
}

} // verus!
