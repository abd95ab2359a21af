//! The game state and the optimal strategy: exhaustive minimax over
//! the whole game tree, memoized on canonical board states.

use crate::board::Board;
use crate::model::{
    balanced, canon_code, coherent, gen_of, has_win, lemma_open_spaces_count,
    lemma_open_from_members, lemma_placed_wf, lemma_winner_ord_clean, mm, open_count, open_spaces,
    placed, play, player_char, turn_of, wf_gen, winner_ord,
};
use crate::search::{find_winning_block_losing, only_find_winning, pick_random_open};
use crate::sym::{
    lemma_gen_play, lemma_mm_bounds, lemma_mm_canon, lemma_oc_witness, lemma_play_effects,
    lemma_same_code_same_canon, lemma_scan_char,
};
use std::collections::HashMap;
use vstd::prelude::*;

verus! {

broadcast use vstd::std_specs::hash::group_hash_axioms;

/// A position a game can actually be in: the open cells show their
/// own digits, at most one player has a completed line, and the mark
/// counts come from alternating play with player one first.
pub open spec fn live(s: Seq<char>) -> bool {
    placed(s) && coherent(gen_of(s)) && balanced(gen_of(s))
}

/// The cells after the mover's mark lands on 1-based cell `i`.
pub open spec fn next_cells(s: Seq<char>, i: int, first: bool) -> Seq<char> {
    s.update(i - 1, player_char(first))
}

/// The minimax score, for player one, of the position after the mover
/// places a mark on the open 1-based cell `i`.
pub open spec fn move_score(g: Seq<char>, i: int, first: bool) -> int {
    mm(play(g, i - 1, first), !first)
}

/// Score `a` serves the mover no better than score `b`: not higher
/// for player one, not lower for player two.
pub open spec fn at_most_as_good(first: bool, a: int, b: int) -> bool {
    if first {
        a <= b
    } else {
        b <= a
    }
}

/// Score `a` serves the mover strictly worse than score `b`.
pub open spec fn strictly_worse(first: bool, a: int, b: int) -> bool {
    if first {
        a < b
    } else {
        b < a
    }
}

/// The strategy of one seat at the table.
#[derive(Clone, Copy, Debug)]
pub enum Strategy {
    Human,
    Random,
    FindWinning,
    BlockLosing,
    Optimal,
}

/// A game: the board, whose turn it is, whether it has ended, the two
/// seats' strategies, and the minimax score cache. The cache maps the
/// canonical code of a position's occupancy pattern to the minimax
/// score of the player then to move; symmetry invariance of the
/// minimax value is what makes one entry sound for every board that
/// shares the code.
pub struct Game {
    board: Board,
    p1_turn: bool,
    done: bool,
    p1: Strategy,
    p2: Strategy,
    cache: HashMap<u64, i32>,
}

impl Game {
    /// The cells of the game's board.
    pub closed spec fn board_view(&self) -> Seq<char> {
        self.board@
    }

    /// Whether it is player one's turn.
    pub closed spec fn turn_spec(&self) -> bool {
        self.p1_turn
    }

    /// Whether the game has ended.
    pub closed spec fn done_spec(&self) -> bool {
        self.done
    }

    /// The strategy seated as player one.
    pub closed spec fn p1_spec(&self) -> Strategy {
        self.p1
    }

    /// The strategy seated as player two.
    pub closed spec fn p2_spec(&self) -> Strategy {
        self.p2
    }

    /// A borrow of the board, for rendering and queries.
    pub fn board_ref(&self) -> (r: &Board)
        ensures
            r@ == self.board_view(),
    {
        &self.board
    }

    /// Whether the game has ended.
    pub fn is_done(&self) -> (r: bool)
        ensures
            r == self.done_spec(),
    {
        self.done
    }

    /// Whether it is player one's turn.
    pub fn is_p1_turn(&self) -> (r: bool)
        ensures
            r == self.turn_spec(),
    {
        self.p1_turn
    }

    /// Every cached score is the minimax value of some position with
    /// that canonical code, for the player whose turn that position
    /// implies.
    pub closed spec fn cache_ok(&self) -> bool {
        forall|k: u64|
            #[trigger] self.cache@.contains_key(k) ==> exists|g: Seq<char>|
                wf_gen(g) && canon_code(g) == k as int && self.cache@[k] as int == mm(
                    g,
                    turn_of(g),
                )
    }

    /// A fresh game: an open board, player one to move, both seats
    /// human until chosen otherwise, an empty cache.
    pub fn new() -> (game: Game)
        ensures
            game.board_view() == crate::model::init_cells(),
            placed(game.board_view()),
            game.turn_spec() == true,
            game.done_spec() == false,
            game.p1_spec() is Human,
            game.p2_spec() is Human,
            game.cache_ok(),
    {
        Game {
            board: Board::new(),
            p1: Strategy::Human,
            p2: Strategy::Human,
            p1_turn: true,
            done: false,
            cache: HashMap::new(),
        }
    }

    /// Back to the opening position for a rematch; the score cache is
    /// kept, since it does not depend on the course of any one game.
    pub fn reset(&mut self)
        ensures
            final(self).board_view() == crate::model::init_cells(),
            placed(final(self).board_view()),
            final(self).turn_spec() == true,
            final(self).done_spec() == false,
            final(self).p1_spec() == old(self).p1_spec(),
            final(self).p2_spec() == old(self).p2_spec(),
            old(self).cache_ok() ==> final(self).cache_ok(),
    {
        self.board.reset();
        self.p1_turn = true;
        self.done = false;
    }

    /// The strategy whose turn it is.
    pub fn curr_player(&self) -> (r: Strategy)
        ensures
            r == (if self.turn_spec() {
                self.p1_spec()
            } else {
                self.p2_spec()
            }),
    {
        if self.p1_turn {
            self.p1
        } else {
            self.p2
        }
    }

    /// A uniformly random open position of the board.
    pub fn pick_random_open_move(&self) -> (r: usize)
        requires
            crate::model::wf(self.board_view()),
            open_spaces(self.board_view()).len() > 0,
        ensures
            open_spaces(self.board_view()).contains(r),
    {
        pick_random_open(&self.board)
    }

    /// The minimax score of a position, always from player one's side:
    /// 10 when player one can force a win, -10 when player two can,
    /// 0 when best play from here is a draw. The score is looked up
    /// by the canonical code of the position first, and every computed
    /// score — terminal ones included — is cached under that code.
    #[verifier::rlimit(100)]
    pub fn minimax_score(&mut self, first: bool, board: &Board) -> (score: i32)
        requires
            old(self).cache_ok(),
            live(board@),
            first == turn_of(gen_of(board@)),
        ensures
            final(self).cache_ok(),
            score as int == mm(gen_of(board@), first),
            final(self).board_view() == old(self).board_view(),
            final(self).turn_spec() == old(self).turn_spec(),
            final(self).done_spec() == old(self).done_spec(),
            final(self).p1_spec() == old(self).p1_spec(),
            final(self).p2_spec() == old(self).p2_spec(),
        decreases open_count(gen_of(board@)),
    {
        let ghost g = gen_of(board@);
        proof {
            lemma_placed_wf(board@);
        }
        let (_canon, code) = board.canon_board();
        let key: u64 = code as u64;
        match self.cache.get(&key) {
            Some(s_ref) => {
                let s = *s_ref;
                proof {
                    let g0 = choose|g0: Seq<char>|
                        wf_gen(g0) && canon_code(g0) == key as int && self.cache@[key] as int == mm(
                            g0,
                            turn_of(g0),
                        );
                    lemma_same_code_same_canon(g0, g);
                    lemma_mm_canon(g0, first);
                    lemma_mm_canon(g, first);
                    assert(turn_of(g0) == turn_of(g));
                    assert(mm(g0, first) == mm(g, first));
                }
                return s;
            },
            None => {},
        }
        let winner = board.check_matches();
        match winner {
            Some(w) => {
                proof {
                    lemma_winner_ord_clean(board@);
                }
                let sc: i32 = if w == 'X' {
                    10
                } else {
                    -10
                };
                self.cache.insert(key, sc);
                proof {
                    assert(wf_gen(g) && canon_code(g) == key as int && self.cache@[key] as int
                        == mm(g, turn_of(g)));
                }
                return sc;
            },
            None => {},
        }
        proof {
            lemma_winner_ord_clean(board@);
            lemma_open_spaces_count(board@);
        }
        if board.is_full() {
            self.cache.insert(key, 0);
            proof {
                assert(wf_gen(g) && canon_code(g) == key as int && self.cache@[key] as int == mm(
                    g,
                    turn_of(g),
                ));
            }
            return 0;
        }
        let options = board.get_open_spaces();
        let mut best: i32 = if first {
            -100
        } else {
            100
        };
        let mut n: usize = 0;
        proof {
            lemma_open_from_members(board@, 0);
        }
        while n < options.len()
            invariant
                self.cache_ok(),
                self.board_view() == old(self).board_view(),
                self.turn_spec() == old(self).turn_spec(),
                self.done_spec() == old(self).done_spec(),
                self.p1_spec() == old(self).p1_spec(),
                self.p2_spec() == old(self).p2_spec(),
                live(board@),
                first == turn_of(g),
                g == gen_of(board@),
                board@.len() == 9,
                options@ == open_spaces(board@),
                !has_win(g, '1'),
                !has_win(g, '2'),
                open_count(g) > 0,
                0 <= n <= options@.len(),
                forall|m: int|
                    0 <= m < options@.len() ==> 1 <= #[trigger] options@[m] <= 9 && !crate::model::is_mark(
                        board@[options@[m] - 1],
                    ),
                n == 0 ==> best as int == (if first {
                    -100int
                } else {
                    100int
                }),
                n > 0 ==> (exists|m: int|
                    0 <= m < n && best as int == mm(
                        play(g, #[trigger] options@[m] - 1, first),
                        !first,
                    )),
                forall|m: int|
                    0 <= m < n ==> (if first {
                        mm(play(g, #[trigger] options@[m] - 1, first), !first) <= best as int
                    } else {
                        best as int <= mm(play(g, #[trigger] options@[m] - 1, first), !first)
                    }),
            decreases options@.len() - n,
        {
            let i = options[n];
            let mut child = board.duplicate();
            let ghost j: int = i as int - 1;
            proof {
                lemma_placed_wf(board@);
                assert(g[j] == '0');
                lemma_gen_play(board@, j, first);
                lemma_play_effects(g, j, first);
            }
            let res = child.set_cell(i, first);
            proof {
                assert(res == Result::<(), crate::board::BoardError>::Ok(()));
                assert(gen_of(child@) == play(g, j, first));
            }
            let s = self.minimax_score(!first, &child);
            proof {
                lemma_mm_bounds(gen_of(child@), !first);
            }
            if first {
                if s > best {
                    best = s;
                }
            } else {
                if s < best {
                    best = s;
                }
            }
            proof {
                if best == s {
                    assert(0 <= n < n + 1 && best as int == mm(
                        play(g, options@[n as int] - 1, first),
                        !first,
                    ));
                }
            }
            n = n + 1;
        }
        proof {
            lemma_open_from_members(board@, 0);
            lemma_open_spaces_count(board@);
            lemma_oc_witness(g);
            lemma_scan_char(g, first, 0);
            let v = crate::model::mm_scan(g, first, 0);
            // the scan value is attained at some open cell, which the
            // open-space list contains, so the loop has bounded it
            let jv = choose|jj: int|
                0 <= jj < 9 && g[jj] == '0' && v == mm(play(g, jj, first), !first);
            assert(open_spaces(board@).contains((jv + 1) as usize));
            let mv = choose|m: int|
                0 <= m < options@.len() && #[trigger] options@[m] == (jv + 1) as usize;
            assert(options@[mv] as int - 1 == jv);
            // the loop's best is attained at some open cell, which the
            // scan has bounded
            assert(options@.len() > 0);
            let mb = choose|m: int|
                0 <= m < options@.len() && best as int == mm(
                    play(g, #[trigger] options@[m] - 1, first),
                    !first,
                );
            assert(g[options@[mb] - 1] == '0');
            assert(best as int == v);
            assert(best as int == mm(g, first));
        }
        self.cache.insert(key, best);
        proof {
            assert(wf_gen(g) && canon_code(g) == key as int && self.cache@[key] as int == mm(
                g,
                turn_of(g),
            ));
        }
        best
    }

    /// Seat the given strategy on the side the turn flag points at,
    /// then point at the other side, so that two successive calls set
    /// up both seats.
    pub fn set_player(&mut self, player: Strategy)
        ensures
            old(self).turn_spec() ==> final(self).p1_spec() == player && final(self).p2_spec()
                == old(self).p2_spec(),
            !old(self).turn_spec() ==> final(self).p2_spec() == player && final(self).p1_spec()
                == old(self).p1_spec(),
            final(self).turn_spec() == !old(self).turn_spec(),
            final(self).board_view() == old(self).board_view(),
            final(self).done_spec() == old(self).done_spec(),
            old(self).cache_ok() ==> final(self).cache_ok(),
    {
        if self.p1_turn {
            self.p1 = player;
        } else {
            self.p2 = player;
        }
        self.p1_turn = !self.p1_turn;
    }

    /// One turn of the game: place the mover's mark on cell `i`, then
    /// settle whether the game has ended — by a win, or by a full
    /// board — and hand the turn to the other player. A refused move
    /// changes nothing and reports the board's error.
    pub fn apply_move(&mut self, i: usize) -> (r: Result<
        Option<char>,
        crate::board::BoardError,
    >)
        requires
            crate::model::wf(old(self).board_view()),
        ensures
            (i == 0 || i > 9 || crate::model::is_mark(old(self).board_view()[i as int - 1]))
                ==> ((r is Err)
                && final(self).board_view() == old(self).board_view()
                && final(self).turn_spec() == old(self).turn_spec()
                && final(self).done_spec() == old(self).done_spec()),
            (1 <= i <= 9 && !crate::model::is_mark(old(self).board_view()[i as int - 1]))
                ==> (final(self).board_view() == next_cells(old(self).board_view(), i as int, old(self).turn_spec())
                && final(self).turn_spec() == !old(self).turn_spec()
                && r == Result::<Option<char>, crate::board::BoardError>::Ok(winner_ord(next_cells(old(self).board_view(), i as int, old(self).turn_spec())))
                && final(self).done_spec() == (old(self).done_spec() || (winner_ord(next_cells(old(self).board_view(), i as int, old(self).turn_spec())) is Some)
                    || open_spaces(next_cells(old(self).board_view(), i as int, old(self).turn_spec())).len() == 0)),
            final(self).p1_spec() == old(self).p1_spec(),
            final(self).p2_spec() == old(self).p2_spec(),
            old(self).cache_ok() ==> final(self).cache_ok(),
    {
        let first = self.p1_turn;
        match self.board.set_cell(i, first) {
            Err(e) => Err(e),
            Ok(()) => {
                let w = self.board.check_matches();
                match w {
                    Some(_) => {
                        self.done = true;
                    },
                    None => {
                        if self.board.is_full() {
                            self.done = true;
                        }
                    },
                }
                self.p1_turn = !self.p1_turn;
                Ok(w)
            },
        }
    }

    /// The move minimax prefers for the player to move: the open cell
    /// whose resulting position scores best for that player — highest
    /// for player one, lowest for player two — and the earliest such
    /// cell when several score alike.
    #[verifier::rlimit(100)]
    pub fn pick_optimal_move(&mut self) -> (r: usize)
        requires
            old(self).cache_ok(),
            live(old(self).board_view()),
            old(self).turn_spec() == turn_of(gen_of(old(self).board_view())),
            (winner_ord(old(self).board_view()) is None),
            open_spaces(old(self).board_view()).len() > 0,
        ensures
            final(self).cache_ok(),
            final(self).board_view() == old(self).board_view(),
            final(self).turn_spec() == old(self).turn_spec(),
            final(self).done_spec() == old(self).done_spec(),
            final(self).p1_spec() == old(self).p1_spec(),
            final(self).p2_spec() == old(self).p2_spec(),
            open_spaces(old(self).board_view()).contains(r),
            forall|m: int|
                0 <= m < open_spaces(old(self).board_view()).len() ==> at_most_as_good(
                    old(self).turn_spec(),
                    move_score(
                        gen_of(old(self).board_view()),
                        #[trigger] open_spaces(old(self).board_view())[m] as int,
                        old(self).turn_spec(),
                    ),
                    move_score(
                        gen_of(old(self).board_view()),
                        r as int,
                        old(self).turn_spec(),
                    ),
                ),
            forall|m: int|
                0 <= m < open_spaces(old(self).board_view()).len() && #[trigger] open_spaces(
                    old(self).board_view(),
                )[m] < r ==> strictly_worse(
                    old(self).turn_spec(),
                    move_score(
                        gen_of(old(self).board_view()),
                        open_spaces(old(self).board_view())[m] as int,
                        old(self).turn_spec(),
                    ),
                    move_score(
                        gen_of(old(self).board_view()),
                        r as int,
                        old(self).turn_spec(),
                    ),
                ),
    {
        let first = self.p1_turn;
        let ghost g = gen_of(self.board@);
        proof {
            lemma_placed_wf(self.board@);
            lemma_winner_ord_clean(self.board@);
            lemma_open_from_members(self.board@, 0);
            lemma_open_spaces_count(self.board@);
        }
        let open = self.board.get_open_spaces();
        let mut best_i: usize = 0;
        let mut best: i32 = if first {
            -100
        } else {
            100
        };
        let mut n: usize = 0;
        while n < open.len()
            invariant
                self.cache_ok(),
                self.board_view() == old(self).board_view(),
                self.done_spec() == old(self).done_spec(),
                self.p1_spec() == old(self).p1_spec(),
                self.p2_spec() == old(self).p2_spec(),
                live(self.board_view()),
                first == self.turn_spec(),
                first == turn_of(g),
                g == gen_of(self.board_view()),
                self.board_view().len() == 9,
                open@ == open_spaces(self.board_view()),
                !has_win(g, '1'),
                !has_win(g, '2'),
                0 <= n <= open@.len(),
                open@.len() > 0,
                forall|m: int|
                    0 <= m < open@.len() ==> 1 <= #[trigger] open@[m] <= 9 && !crate::model::is_mark(
                        self.board_view()[open@[m] - 1],
                    ),
                n > 0 ==> (exists|mi: int|
                    0 <= mi < n && best_i == open@[mi] && best as int == move_score(
                        g,
                        #[trigger] open@[mi] as int,
                        first,
                    ) && (forall|m: int|
                        0 <= m < mi ==> strictly_worse(
                            first,
                            move_score(g, #[trigger] open@[m] as int, first),
                            best as int,
                        ))),
                forall|m: int|
                    0 <= m < n ==> at_most_as_good(
                        first,
                        move_score(g, #[trigger] open@[m] as int, first),
                        best as int,
                    ),
                n == 0 ==> best as int == (if first {
                    -100int
                } else {
                    100int
                }),
            decreases open@.len() - n,
        {
            let i = open[n];
            let mut child = self.board.duplicate();
            let ghost j: int = i as int - 1;
            proof {
                lemma_placed_wf(self.board@);
                assert(g[j] == '0');
                lemma_gen_play(self.board@, j, first);
                lemma_play_effects(g, j, first);
            }
            let res = child.set_cell(i, first);
            proof {
                assert(res == Result::<(), crate::board::BoardError>::Ok(()));
                assert(gen_of(child@) == play(g, j, first));
            }
            let s = self.minimax_score(!first, &child);
            proof {
                lemma_mm_bounds(gen_of(child@), !first);
                assert(s as int == move_score(g, i as int, first));
            }
            let better: bool = if first {
                s > best
            } else {
                s < best
            };
            if better {
                best = s;
                best_i = i;
            }
            proof {
                if best == s && best_i == i {
                    assert(0 <= n < n + 1 && best_i == open@[n as int] && best as int
                        == move_score(g, open@[n as int] as int, first));
                }
            }
            n = n + 1;
        }
        proof {
            let mi = choose|mi: int|
                0 <= mi < open@.len() && best_i == open@[mi] && best as int == move_score(
                    g,
                    #[trigger] open@[mi] as int,
                    first,
                ) && (forall|m: int|
                    0 <= m < mi ==> strictly_worse(
                        first,
                        move_score(g, #[trigger] open@[m] as int, first),
                        best as int,
                    ));
            lemma_open_from_members(self.board@, 0);
            assert(open_spaces(self.board_view()).contains(best_i)) by {
                assert(open@[mi] == best_i);
            }
            assert forall|m: int|
                0 <= m < open@.len() && #[trigger] open@[m] < best_i implies strictly_worse(
                first,
                move_score(g, open@[m] as int, first),
                best as int,
            ) by {
                if m >= mi {
                    assert(open@[m] >= open@[mi]);
                }
            }
        }
        best_i
    }

    /// The chosen strategy's move on the current board. The human
    /// strategy reads its move elsewhere; every other strategy
    /// computes it here.
    pub fn get_move(&mut self, player: Strategy) -> (r: usize)
        requires
            !(player is Human),
            old(self).cache_ok(),
            live(old(self).board_view()),
            old(self).turn_spec() == turn_of(gen_of(old(self).board_view())),
            (winner_ord(old(self).board_view()) is None),
            open_spaces(old(self).board_view()).len() > 0,
        ensures
            final(self).cache_ok(),
            final(self).board_view() == old(self).board_view(),
            final(self).turn_spec() == old(self).turn_spec(),
            final(self).done_spec() == old(self).done_spec(),
            final(self).p1_spec() == old(self).p1_spec(),
            final(self).p2_spec() == old(self).p2_spec(),
            (player is Random) ==> open_spaces(old(self).board_view()).contains(r),
            ((player is FindWinning) || (player is BlockLosing))
                && crate::search::has_winning_cand(
                old(self).board_view(),
                player_char(old(self).turn_spec()),
            ) ==> r == crate::search::first_winning_cand(
                old(self).board_view(),
                player_char(old(self).turn_spec()),
            ).0,
            (player is FindWinning) && !crate::search::has_winning_cand(
                old(self).board_view(),
                player_char(old(self).turn_spec()),
            ) ==> open_spaces(old(self).board_view()).contains(r),
            (player is BlockLosing) && !crate::search::has_winning_cand(
                old(self).board_view(),
                player_char(old(self).turn_spec()),
            ) && crate::search::candidates(
                old(self).board_view(),
                player_char(old(self).turn_spec()),
            ).len() > 0 ==> r == crate::search::candidates(
                old(self).board_view(),
                player_char(old(self).turn_spec()),
            )[0].0,
            (player is BlockLosing) && !crate::search::has_winning_cand(
                old(self).board_view(),
                player_char(old(self).turn_spec()),
            ) && crate::search::candidates(
                old(self).board_view(),
                player_char(old(self).turn_spec()),
            ).len() == 0 ==> open_spaces(old(self).board_view()).contains(r),
            (player is Optimal) ==> open_spaces(old(self).board_view()).contains(r) && (forall|
                m: int,
            |
                0 <= m < open_spaces(old(self).board_view()).len() ==> at_most_as_good(
                    old(self).turn_spec(),
                    move_score(
                        gen_of(old(self).board_view()),
                        #[trigger] open_spaces(old(self).board_view())[m] as int,
                        old(self).turn_spec(),
                    ),
                    move_score(gen_of(old(self).board_view()), r as int, old(self).turn_spec()),
                )),
    {
        proof {
            lemma_placed_wf(self.board@);
        }
        match player {
            Strategy::Human => 0,
            Strategy::Random => self.pick_random_open_move(),
            Strategy::FindWinning => {
                let mover = Board::player(self.p1_turn);
                let r = only_find_winning(&self.board, mover);
                proof {
                    if crate::search::has_winning_cand(self.board@, mover) {
                        crate::search::lemma_first_winning(self.board@, mover);
                    }
                }
                r
            },
            Strategy::BlockLosing => {
                let mover = Board::player(self.p1_turn);
                let r = find_winning_block_losing(&self.board, mover);
                proof {
                    if crate::search::has_winning_cand(self.board@, mover) {
                        crate::search::lemma_first_winning(self.board@, mover);
                    }
                }
                r
            },
            Strategy::Optimal => self.pick_optimal_move(),
        }
    }
}

} // verus!
