//! A reference search against which the pruning engine can be judged: a
//! specification-level exhaustive minimax over every legal move, a
//! verified implementation of it without any pruning, and an alpha-beta
//! implementation proved to return the exhaustive minimax score whenever
//! that score lies strictly inside its window — in particular, always,
//! under a full window. Pruning trades work, not the root score.

use vstd::prelude::*;

use crate::board::GameState;
use crate::board::Move;
use crate::board::Position;
use crate::board::pos_ok;
use crate::board::spec_game_over;
use crate::evaluator::Evaluator;
use crate::evaluator::lemma_evaluate_bounds;
use crate::evaluator::spec_evaluate;
use crate::rules::RuleEngine;
use crate::rules::lemma_apply_pos_ok;
use crate::rules::spec_apply_pos;
use crate::rules::spec_legal;
use crate::zobrist::ZobristTable;

verus! {

/// The better of two scores for the side choosing: the larger when
/// maximizing, the smaller when minimizing.
pub open spec fn mm2(a: int, b: int, maximizing: bool) -> int {
    if maximizing {
        if a >= b {
            a
        } else {
            b
        }
    } else {
        if a <= b {
            a
        } else {
            b
        }
    }
}

/// Exhaustive minimax over the legal moves among the cells from `n`
/// upward: the best child score and whether any legal move was found.
pub open spec fn spec_search_from(
    p: Position,
    n: int,
    depth: int,
    maximizing: bool,
    md: int,
) -> (int, bool)
    decreases depth, 361 - n,
{
    if n >= 361 || depth <= 0 {
        (0, false)
    } else {
        let rest = spec_search_from(p, n + 1, depth, maximizing, md);
        let mv = Move { x: (n / 19) as i32, y: (n % 19) as i32 };
        if spec_legal(p, mv) {
            let v = spec_minimax_ref(spec_apply_pos(p, mv), depth - 1, !maximizing, md);
            if rest.1 {
                (mm2(v, rest.0, maximizing), true)
            } else {
                (v, true)
            }
        } else {
            rest
        }
    }
}

/// The exhaustive minimax score of a position: the static evaluation at
/// depth zero, on a finished game, or with no legal move; otherwise the
/// best child score over every legal move, sides alternating.
pub open spec fn spec_minimax_ref(p: Position, depth: int, maximizing: bool, md: int) -> int
    decreases depth, 362int,
{
    if depth <= 0 || spec_game_over(p) {
        spec_evaluate(p, md, md - depth)
    } else {
        let r = spec_search_from(p, 0, depth, maximizing, md);
        if r.1 {
            r.0
        } else {
            spec_evaluate(p, md, md - depth)
        }
    }
}

/// Folding a prefix result into the remaining suffix: nothing yet takes
/// the suffix as it stands; otherwise the two best scores combine.
pub open spec fn spec_combine(acc: int, any: bool, rest: (int, bool), maximizing: bool) -> (
    int,
    bool,
) {
    if !any {
        rest
    } else if !rest.1 {
        (acc, true)
    } else {
        (mm2(acc, rest.0, maximizing), true)
    }
}

/// The exhaustive minimax score of a well-formed position is bounded by
/// the evaluator's range.
pub proof fn lemma_minimax_ref_bounds(p: Position, depth: int, maximizing: bool, md: int)
    requires
        pos_ok(p),
        0 <= depth <= md <= 64,
        p.turns + depth < i32::MAX,
    ensures
        -900000000 <= spec_minimax_ref(p, depth, maximizing, md) <= 900000000,
    decreases depth, 362int,
{
    if depth <= 0 || spec_game_over(p) {
        lemma_evaluate_bounds(p, md, md - depth);
    } else {
        let r = spec_search_from(p, 0, depth, maximizing, md);
        if r.1 {
            lemma_fold_bounds(p, 0, depth, maximizing, md);
        } else {
            lemma_evaluate_bounds(p, md, md - depth);
        }
    }
}

/// Whatever suffix of cells the exhaustive fold still has to scan, any
/// score it reports stays within the evaluator's range.
proof fn lemma_fold_bounds(p: Position, n: int, depth: int, maximizing: bool, md: int)
    requires
        pos_ok(p),
        1 <= depth <= md <= 64,
        0 <= n,
        p.turns + depth < i32::MAX,
    ensures
        spec_search_from(p, n, depth, maximizing, md).1 ==> -900000000 <= spec_search_from(
            p,
            n,
            depth,
            maximizing,
            md,
        ).0 <= 900000000,
    decreases depth, 361 - n,
{
    if n < 361 {
        lemma_fold_bounds(p, n + 1, depth, maximizing, md);
        let mv = Move { x: (n / 19) as i32, y: (n % 19) as i32 };
        if spec_legal(p, mv) {
            lemma_apply_pos_ok(p, mv);
            lemma_minimax_ref_bounds(spec_apply_pos(p, mv), depth - 1, !maximizing, md);
        }
    }
}

/// Exhaustive minimax, as running code: every legal move is searched with
/// a full window and no caching — the reference the pruning search is
/// held against.
pub fn minimax_exhaustive(
    state: &GameState,
    z: &ZobristTable,
    depth: i32,
    maximizing: bool,
    original_max_depth: i32,
) -> (r: i32)
    requires
        state.wf(),
        state.hash_ok(),
        z.is_init(),
        0 <= depth <= original_max_depth <= 64,
        state.turn_count + depth < i32::MAX,
    ensures
        r as int == spec_minimax_ref(
            state@,
            depth as int,
            maximizing,
            original_max_depth as int,
        ),
        -900000000 <= r <= 900000000,
    decreases depth,
{
    let ghost p = state@;
    let ghost d = depth as int;
    let ghost md = original_max_depth as int;
    if depth == 0 || state.is_game_over() {
        return Evaluator::evaluate(state, original_max_depth, original_max_depth - depth);
    }
    let ghost full = spec_search_from(p, 0, d, maximizing, md);
    let mut best: i32 = 0;
    let mut any = false;
    let mut n: usize = 0;
    while n < 361
        invariant
            state.wf(),
            state.hash_ok(),
            z.is_init(),
            p == state@,
            d == depth as int,
            md == original_max_depth as int,
            1 <= depth <= original_max_depth <= 64,
            state.turn_count + depth < i32::MAX,
            n <= 361,
            full == spec_search_from(p, 0, d, maximizing, md),
            any ==> -900000000 <= best <= 900000000,
            !any ==> best == 0,
            spec_combine(
                best as int,
                any,
                spec_search_from(p, n as int, d, maximizing, md),
                maximizing,
            ) == full,
        decreases 361 - n,
    {
        let x = (n / 19) as i32;
        let y = (n % 19) as i32;
        let mv = Move::new(x, y);
        proof {
            assert(mv == (Move { x: ((n as int) / 19) as i32, y: ((n as int) % 19) as i32 }));
        }
        let mut child = state.clone();
        let res = RuleEngine::apply_move(&mut child, z, &mv);
        if res.success {
            let v = minimax_exhaustive(&child, z, depth - 1, !maximizing, original_max_depth);
            if !any {
                best = v;
                any = true;
            } else if maximizing {
                if v > best {
                    best = v;
                }
            } else {
                if v < best {
                    best = v;
                }
            }
        }
        n = n + 1;
    }
    if !any {
        return Evaluator::evaluate(state, original_max_depth, original_max_depth - depth);
    }
    best
}

/// Alpha-beta over the same exhaustive move enumeration: whenever the
/// exhaustive minimax score lies strictly inside the window, pruning
/// returns exactly that score; a score at or past a window edge is
/// faithfully reported as hitting that edge. With the full window the
/// result therefore always equals the exhaustive minimax score: pruning
/// saves work without changing the root score.
#[verifier::rlimit(100)]
pub fn alphabeta_exhaustive(
    state: &GameState,
    z: &ZobristTable,
    depth: i32,
    alpha: i32,
    beta: i32,
    maximizing: bool,
    original_max_depth: i32,
) -> (r: i32)
    requires
        state.wf(),
        state.hash_ok(),
        z.is_init(),
        0 <= depth <= original_max_depth <= 64,
        state.turn_count + depth < i32::MAX,
        -900000001 <= alpha < beta <= 900000001,
    ensures
        -900000000 <= r <= 900000000,
        spec_minimax_ref(state@, depth as int, maximizing, original_max_depth as int)
            <= alpha as int ==> r <= alpha,
        spec_minimax_ref(state@, depth as int, maximizing, original_max_depth as int)
            >= beta as int ==> r >= beta,
        (alpha as int) < spec_minimax_ref(
            state@,
            depth as int,
            maximizing,
            original_max_depth as int,
        ) && spec_minimax_ref(state@, depth as int, maximizing, original_max_depth as int)
            < beta as int ==> r as int == spec_minimax_ref(
            state@,
            depth as int,
            maximizing,
            original_max_depth as int,
        ),
        alpha == -900000001 && beta == 900000001 ==> r as int == spec_minimax_ref(
            state@,
            depth as int,
            maximizing,
            original_max_depth as int,
        ),
    decreases depth,
{
    let ghost p = state@;
    let ghost d = depth as int;
    let ghost md = original_max_depth as int;
    proof {
        lemma_minimax_ref_bounds(p, d, maximizing, md);
    }
    if depth == 0 || state.is_game_over() {
        return Evaluator::evaluate(state, original_max_depth, original_max_depth - depth);
    }
    let ghost full = spec_search_from(p, 0, d, maximizing, md);
    let ghost mut pmv: int = 0;
    let ghost mut pany: bool = false;
    let mut best: i32 = 0;
    let mut any = false;
    if maximizing {
        let mut a = alpha;
        let mut n: usize = 0;
        while n < 361
            invariant
                state.wf(),
                state.hash_ok(),
                z.is_init(),
                p == state@,
                d == depth as int,
                md == original_max_depth as int,
                1 <= depth <= original_max_depth <= 64,
                state.turn_count + depth < i32::MAX,
                -900000001 <= alpha < beta <= 900000001,
                n <= 361,
                full == spec_search_from(p, 0, d, true, md),
                !spec_game_over(p),
                maximizing,
                spec_combine(pmv, pany, spec_search_from(p, n as int, d, true, md), true)
                    == full,
                any == pany,
                !any ==> best == 0 && a == alpha,
                any ==> -900000000 <= best <= 900000000,
                any ==> a as int == (if best > alpha {
                    best as int
                } else {
                    alpha as int
                }),
                any ==> best < beta,
                alpha <= a < beta,
                pany ==> (pmv <= alpha as int ==> best as int <= alpha as int),
                pany ==> (pmv > alpha as int ==> best as int == pmv),
            decreases 361 - n,
        {
            let x = (n / 19) as i32;
            let y = (n % 19) as i32;
            let mv = Move::new(x, y);
            proof {
                assert(mv == (Move {
                    x: ((n as int) / 19) as i32,
                    y: ((n as int) % 19) as i32,
                }));
            }
            let mut child = state.clone();
            let res = RuleEngine::apply_move(&mut child, z, &mv);
            if res.success {
                let rv = alphabeta_exhaustive(
                    &child,
                    z,
                    depth - 1,
                    a,
                    beta,
                    false,
                    original_max_depth,
                );
                let ghost a_old = a;
                let ghost best_old = best;
                let ghost any_old = any;
                let ghost pmv_old = pmv;
                let ghost mmi = spec_minimax_ref(child@, d - 1, false, md);
                if !any {
                    best = rv;
                    any = true;
                } else if rv > best {
                    best = rv;
                }
                proof {
                    pany = true;
                    pmv = if any_old {
                        mm2(pmv_old, mmi, true)
                    } else {
                        mmi
                    };
                }
                if best > a {
                    a = best;
                }
                if a >= beta {
                    proof {
                        // The child at or past beta pushes the true score
                        // past beta as well.
                        assert(rv >= beta);
                        assert(mmi >= beta as int);
                        let rest = spec_search_from(p, n as int + 1, d, true, md);
                        let here = spec_search_from(p, n as int, d, true, md);
                        assert(here.1 && here.0 >= mmi);
                        assert(full.1 && full.0 >= mmi);
                        assert(spec_minimax_ref(p, d, true, md) == full.0);
                    }
                    return best;
                }
                proof {
                    // Re-establish the prefix bookkeeping on the continue
                    // path, where the window survived.
                    assert(best < beta);
                    assert(rv < beta);
                    if mmi >= beta as int {
                        assert(rv >= beta);
                        assert(false);
                    }
                    if any_old {
                        if pmv_old >= mmi {
                            if pmv_old > alpha as int {
                                if mmi <= a_old as int {
                                    assert(rv <= a_old);
                                } else {
                                    assert(rv as int == mmi);
                                }
                                assert(best as int == pmv_old);
                            } else {
                                if mmi <= a_old as int {
                                    assert(rv <= a_old);
                                } else {
                                    assert(rv as int == mmi);
                                }
                            }
                        } else {
                            if mmi > alpha as int {
                                assert((a_old as int) < mmi);
                                assert(rv as int == mmi);
                                assert(best as int == mmi);
                            } else {
                                assert(mmi <= a_old as int);
                                assert(rv <= a_old);
                            }
                        }
                    } else {
                        if mmi > alpha as int {
                            assert(rv as int == mmi);
                        } else {
                            assert(rv <= a_old);
                        }
                    }
                }
            }
            n = n + 1;
        }
        if !any {
            proof {
                assert(!full.1);
            }
            return Evaluator::evaluate(state, original_max_depth, original_max_depth - depth);
        }
        proof {
            assert(full == (pmv, true));
            assert(spec_minimax_ref(p, d, true, md) == pmv);
        }
        best
    } else {
        let mut b = beta;
        let mut n: usize = 0;
        while n < 361
            invariant
                state.wf(),
                state.hash_ok(),
                z.is_init(),
                p == state@,
                d == depth as int,
                md == original_max_depth as int,
                1 <= depth <= original_max_depth <= 64,
                state.turn_count + depth < i32::MAX,
                -900000001 <= alpha < beta <= 900000001,
                n <= 361,
                full == spec_search_from(p, 0, d, false, md),
                !spec_game_over(p),
                !maximizing,
                spec_combine(pmv, pany, spec_search_from(p, n as int, d, false, md), false)
                    == full,
                any == pany,
                !any ==> best == 0 && b == beta,
                any ==> -900000000 <= best <= 900000000,
                any ==> b as int == (if best < beta {
                    best as int
                } else {
                    beta as int
                }),
                any ==> best > alpha,
                alpha < b <= beta,
                pany ==> (pmv >= beta as int ==> best as int >= beta as int),
                pany ==> (pmv < beta as int ==> best as int == pmv),
            decreases 361 - n,
        {
            let x = (n / 19) as i32;
            let y = (n % 19) as i32;
            let mv = Move::new(x, y);
            proof {
                assert(mv == (Move {
                    x: ((n as int) / 19) as i32,
                    y: ((n as int) % 19) as i32,
                }));
            }
            let mut child = state.clone();
            let res = RuleEngine::apply_move(&mut child, z, &mv);
            if res.success {
                let rv = alphabeta_exhaustive(
                    &child,
                    z,
                    depth - 1,
                    alpha,
                    b,
                    true,
                    original_max_depth,
                );
                let ghost b_old = b;
                let ghost best_old = best;
                let ghost any_old = any;
                let ghost pmv_old = pmv;
                let ghost mmi = spec_minimax_ref(child@, d - 1, true, md);
                if !any {
                    best = rv;
                    any = true;
                } else if rv < best {
                    best = rv;
                }
                proof {
                    pany = true;
                    pmv = if any_old {
                        mm2(pmv_old, mmi, false)
                    } else {
                        mmi
                    };
                }
                if best < b {
                    b = best;
                }
                if b <= alpha {
                    proof {
                        assert(rv <= alpha);
                        assert(mmi <= alpha as int);
                        let here = spec_search_from(p, n as int, d, false, md);
                        assert(here.1 && here.0 <= mmi);
                        assert(full.1 && full.0 <= mmi);
                        assert(spec_minimax_ref(p, d, false, md) == full.0);
                    }
                    return best;
                }
                proof {
                    assert(best > alpha);
                    assert(rv > alpha);
                    if mmi <= alpha as int {
                        assert(rv <= alpha);
                        assert(false);
                    }
                    if any_old {
                        if pmv_old <= mmi {
                            if pmv_old < beta as int {
                                if mmi >= b_old as int {
                                    assert(rv >= b_old);
                                } else {
                                    assert(rv as int == mmi);
                                }
                                assert(best as int == pmv_old);
                            } else {
                                if mmi >= b_old as int {
                                    assert(rv >= b_old);
                                } else {
                                    assert(rv as int == mmi);
                                }
                            }
                        } else {
                            if mmi < beta as int {
                                assert((b_old as int) > mmi);
                                assert(rv as int == mmi);
                                assert(best as int == mmi);
                            } else {
                                assert(mmi >= b_old as int);
                                assert(rv >= b_old);
                            }
                        }
                    } else {
                        if mmi < beta as int {
                            assert(rv as int == mmi);
                        } else {
                            assert(rv >= b_old);
                        }
                    }
                }
            }
            n = n + 1;
        }
        if !any {
            proof {
                assert(!full.1);
            }
            return Evaluator::evaluate(state, original_max_depth, original_max_depth - depth);
        }
        proof {
            assert(full == (pmv, true));
            assert(spec_minimax_ref(p, d, false, md) == pmv);
        }
        best
    }
}

} // verus!
