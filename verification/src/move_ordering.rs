//! Candidate generation and move ordering: an adaptive-radius zone around
//! the stones on the board, a cheap per-move heuristic score, and a sort
//! that puts the most promising candidates first.

use vstd::prelude::*;

use vstd::multiset::Multiset;

use crate::board::GameState;
use crate::board::Move;
use crate::board::Position;
use crate::board::cell_at;
use crate::board::dir4;
use crate::board::dx4;
use crate::board::dy4;
use crate::board::empties;
use crate::board::in_bounds;
use crate::board::lemma_divmod19;
use crate::board::lemma_ray_step;
use crate::board::ray_cell;
use crate::board::ray_ok;
use crate::board::ray_x;
use crate::rules::cap_pat;
use crate::rules::dir8;
use crate::rules::dx8;
use crate::rules::dy8;
use crate::rules::opp_of;

verus! {

/// Ceiling on a history-table entry; accumulation saturates here.
pub const HISTORY_CAP: i32 = 1048576;

/// A history table is 361 per-cell scores within the cap.
pub open spec fn hist_ok(h: Seq<i32>) -> bool {
    &&& h.len() == 361
    &&& forall|i: int| 0 <= i < 361 ==> 0 <= #[trigger] h[i] <= HISTORY_CAP
}

/// Chebyshev distance between (ax, ay) and (bx, by) is at most r.
pub open spec fn cheb_within(ax: int, ay: int, bx: int, by: int, r: int) -> bool {
    -r <= ax - bx <= r && -r <= ay - by <= r
}

/// Length of the run of `p` stones strictly after (x, y) along (dx, dy),
/// walking from offset k and stopping at `max` stones, the board's edge or
/// a foreign cell.
pub open spec fn run_to(
    b: Seq<i32>,
    x: int,
    y: int,
    dx: int,
    dy: int,
    p: i32,
    max: int,
    k: int,
) -> int
    decreases max + 1 - k,
{
    if k > max || !ray_ok(x, y, dx, dy, k) || ray_cell(b, x, y, dx, dy, k) != p {
        k - 1
    } else {
        run_to(b, x, y, dx, dy, p, max, k + 1)
    }
}

/// Length of the run of `p` stones strictly after (x, y) along (dx, dy),
/// capped at `max`.
pub open spec fn bounded_run(b: Seq<i32>, x: int, y: int, dx: int, dy: int, p: i32, max: int) -> int {
    run_to(b, x, y, dx, dy, p, max, 1)
}

/// Longest line of `p` through (x, y) over the first `d` main directions,
/// counting the cell itself and up to four stones out each way.
pub open spec fn line_pair_max(b: Seq<i32>, x: int, y: int, p: i32, d: int) -> int
    decreases d,
{
    if d <= 0 {
        0
    } else {
        let v = 1 + bounded_run(b, x, y, dx4(d - 1), dy4(d - 1), p, 4) + bounded_run(
            b,
            x,
            y,
            0 - dx4(d - 1),
            0 - dy4(d - 1),
            p,
            4,
        );
        let rest = line_pair_max(b, x, y, p, d - 1);
        if v > rest {
            v
        } else {
            rest
        }
    }
}

/// Longest line of the opponent's stones adjacent to (x, y) over the first
/// `d` main directions, both ways, without the cell itself.
pub open spec fn opp_pair_max(b: Seq<i32>, x: int, y: int, p: i32, d: int) -> int
    decreases d,
{
    if d <= 0 {
        0
    } else {
        let v = bounded_run(b, x, y, dx4(d - 1), dy4(d - 1), p, 4) + bounded_run(
            b,
            x,
            y,
            0 - dx4(d - 1),
            0 - dy4(d - 1),
            p,
            4,
        );
        let rest = opp_pair_max(b, x, y, p, d - 1);
        if v > rest {
            v
        } else {
            rest
        }
    }
}

/// Number of the first `d` neighbour cells of (x, y) holding value `v`.
pub open spec fn adj_count(b: Seq<i32>, x: int, y: int, v: i32, d: int) -> int
    decreases d,
{
    if d <= 0 {
        0
    } else {
        adj_count(b, x, y, v, d - 1) + if in_bounds(x + dx8(d - 1), y + dy8(d - 1)) && cell_at(
            b,
            x + dx8(d - 1),
            y + dy8(d - 1),
        ) == v {
            1int
        } else {
            0int
        }
    }
}

/// Chebyshev distance of `mv` from the board centre (9, 9).
pub open spec fn center_dist(mv: Move) -> int {
    let ax = if mv.x >= 9 {
        mv.x - 9
    } else {
        9 - mv.x
    };
    let ay = if mv.y >= 9 {
        mv.y - 9
    } else {
        9 - mv.y
    };
    if ax >= ay {
        ax as int
    } else {
        ay as int
    }
}

/// The cheap heuristic score of playing `mv` in position `pos`: centrality,
/// adjacency to both sides' stones, proximity to the last opposing move,
/// line potential for both sides, an immediate-capture bonus, and the
/// history-table entry of the cell.
#[verifier::opaque]
pub open spec fn spec_quick_eval(pos: Position, mv: Move, h: Seq<i32>) -> int {
    let b = pos.board;
    let p = pos.player;
    let o = opp_of(p);
    let x = mv.x as int;
    let y = mv.y as int;
    let centrality = (9 - center_dist(mv)) * 10;
    let adj = adj_count(b, x, y, p, 8) * 50 + adj_count(b, x, y, o, 8) * 20;
    let prox = if pos.last.valid() && cheb_within(x, y, pos.last.x as int, pos.last.y as int, 2) {
        500int
    } else {
        0int
    };
    let myl = line_pair_max(b, x, y, p, 4);
    let my_bonus = if myl >= 5 {
        100000int
    } else if myl == 4 {
        10000int
    } else if myl == 3 {
        1000int
    } else if myl == 2 {
        100int
    } else {
        0int
    };
    let oppl = opp_pair_max(b, x, y, o, 4);
    let opp_bonus = if oppl >= 4 {
        8000int
    } else if oppl == 3 {
        800int
    } else {
        0int
    };
    let cap_bonus = if exists|d: int| 0 <= d < 8 && #[trigger] cap_pat(b, x, y, d, p) {
        2000int
    } else {
        0int
    };
    centrality + adj + prox + my_bonus + opp_bonus + cap_bonus + h[mv.idx()]
}

/// Every move of the sequence lies on the board.
pub open spec fn all_valid(s: Seq<Move>) -> bool {
    forall|k: int| 0 <= k < s.len() ==> (#[trigger] s[k]).valid()
}

/// The slice [lo, hi) of `s` is ordered by falling quick score.
pub open spec fn sorted_desc(pos: Position, s: Seq<Move>, h: Seq<i32>, lo: int, hi: int) -> bool {
    forall|i: int, j: int|
        #![trigger spec_quick_eval(pos, s[i], h), spec_quick_eval(pos, s[j], h)]
        lo <= i <= j < hi ==> spec_quick_eval(pos, s[i], h) >= spec_quick_eval(pos, s[j], h)
}

/// Some occupied cell lies within Chebyshev distance r of (x, y).
pub open spec fn occupied_within(b: Seq<i32>, x: int, y: int, r: int) -> bool {
    exists|i: int, j: int|
        0 <= i < 19 && 0 <= j < 19 && cheb_within(i, j, x, y, r) && #[trigger] cell_at(b, i, j)
            != 0
}

/// Cell (x, y) is a candidate: empty and either within the phase radius of
/// an occupied cell or within the extended radius of the last opposing
/// move.
pub open spec fn relevant(pos: Position, x: int, y: int) -> bool {
    let r = spec_radius(pos.turns);
    &&& in_bounds(x, y)
    &&& cell_at(pos.board, x, y) == 0
    &&& (occupied_within(pos.board, x, y, r) || (pos.last.valid() && cheb_within(
        x,
        y,
        pos.last.x as int,
        pos.last.y as int,
        r + 1,
    )))
}

/// The candidate cells among the first `n` cells, in row-major order.
pub open spec fn relevant_list(pos: Position, n: int) -> Seq<Move>
    decreases n,
{
    if n <= 0 {
        Seq::empty()
    } else if relevant(pos, (n - 1) / 19, (n - 1) % 19) {
        relevant_list(pos, n - 1).push(
            Move { x: ((n - 1) / 19) as i32, y: ((n - 1) % 19) as i32 },
        )
    } else {
        relevant_list(pos, n - 1)
    }
}

/// Every listed candidate is an empty on-board cell, and the list is empty
/// only when no cell is a candidate.
pub proof fn lemma_relevant_list_props(pos: Position, n: int)
    requires
        pos.board.len() == 361,
        0 <= n <= 361,
    ensures
        forall|k: int|
            0 <= k < relevant_list(pos, n).len() ==> (#[trigger] relevant_list(pos, n)[k]).valid()
                && cell_at(
                pos.board,
                relevant_list(pos, n)[k].x as int,
                relevant_list(pos, n)[k].y as int,
            ) == 0,
    decreases n,
{
    if n > 0 {
        lemma_relevant_list_props(pos, n - 1);
        let prev = relevant_list(pos, n - 1);
        let cur = relevant_list(pos, n);
        if relevant(pos, (n - 1) / 19, (n - 1) % 19) {
            let m = Move { x: ((n - 1) / 19) as i32, y: ((n - 1) % 19) as i32 };
            assert(0 <= (n - 1) / 19 < 19 && 0 <= (n - 1) % 19 < 19) by (nonlinear_arith)
                requires
                    0 <= n - 1 < 361,
            ;
            assert(m.valid());
            assert(cell_at(pos.board, m.x as int, m.y as int) == 0);
            assert forall|k: int| 0 <= k < cur.len() implies (#[trigger] cur[k]).valid() && cell_at(
                pos.board,
                cur[k].x as int,
                cur[k].y as int,
            ) == 0 by {
                if k == cur.len() - 1 {
                    assert(cur[k] == m);
                } else {
                    assert(cur[k] == prev[k]);
                }
            }
        } else {
            assert(cur == prev);
        }
    }
}

/// Candidate-zone radius for the game phase: wider in the opening,
/// narrower later.
pub open spec fn spec_radius(turns: i32) -> int {
    if turns <= 4 {
        2
    } else {
        1
    }
}

/// Candidate-count cap for the game phase: small early, growing later.
pub open spec fn spec_max_candidates(turns: i32) -> int {
    if turns <= 4 {
        3
    } else if turns <= 10 {
        4
    } else {
        5
    }
}

/// Move ordering. All its operations are associated functions; it holds no
/// state of its own.
pub struct MoveOrdering;

impl MoveOrdering {
    /// Stones of `player` in a row strictly after (x, y) along (dx, dy),
    /// counting at most `max_count` of them.
    fn count_consecutive_in_direction(
        state: &GameState,
        x: i32,
        y: i32,
        dx: i32,
        dy: i32,
        player: i32,
        max_count: i32,
    ) -> (n: i32)
        requires
            state.wf(),
            in_bounds(x as int, y as int),
            -1 <= dx <= 1,
            -1 <= dy <= 1,
            !(dx == 0 && dy == 0),
            0 <= max_count <= 18,
        ensures
            n as int == bounded_run(
                state@.board,
                x as int,
                y as int,
                dx as int,
                dy as int,
                player,
                max_count as int,
            ),
            0 <= n <= max_count,
    {
        let ghost b = state@.board;
        let ghost xx = x as int;
        let ghost yy = y as int;
        let ghost dxi = dx as int;
        let ghost dyi = dy as int;
        let ghost mx = max_count as int;
        let mut count: i32 = 0;
        let mut cx = x + dx;
        let mut cy = y + dy;
        while count < max_count && cx >= 0 && cx < 19 && cy >= 0 && cy < 19 && state.board[(
        cx as usize) * 19 + (cy as usize)] == player
            invariant
                state.wf(),
                b == state@.board,
                in_bounds(xx, yy),
                xx == x as int,
                yy == y as int,
                dxi == dx as int,
                dyi == dy as int,
                -1 <= dx <= 1,
                -1 <= dy <= 1,
                mx == max_count as int,
                0 <= count <= max_count <= 18,
                cx as int == ray_x(xx, dxi, count as int + 1),
                cy as int == ray_x(yy, dyi, count as int + 1),
                xx - count - 1 <= cx as int <= xx + count + 1,
                yy - count - 1 <= cy as int <= yy + count + 1,
                run_to(b, xx, yy, dxi, dyi, player, mx, count as int + 1) == bounded_run(
                    b,
                    xx,
                    yy,
                    dxi,
                    dyi,
                    player,
                    mx,
                ),
            decreases max_count - count,
        {
            count = count + 1;
            proof {
                lemma_ray_step(xx, dxi, count as int);
                lemma_ray_step(yy, dyi, count as int);
            }
            cx = cx + dx;
            cy = cy + dy;
        }
        count
    }

    /// Candidate-zone radius for the game phase.
    fn get_search_radius_for_game_phase(turn_count: i32) -> (r: i32)
        ensures
            r as int == spec_radius(turn_count),
    {
        if turn_count <= 4 {
            2
        } else {
            1
        }
    }

    /// Candidate-count cap for the game phase.
    fn get_max_candidates_for_game_phase(state: &GameState) -> (r: usize)
        ensures
            r as int == spec_max_candidates(state.turn_count),
            1 <= r <= 5,
    {
        let piece_count = state.turn_count;
        if piece_count <= 4 {
            3
        } else if piece_count <= 10 {
            4
        } else {
            5
        }
    }


    /// Neighbour counts of both sides' stones around `mv`.
    fn adjacent_counts(state: &GameState, mv: Move) -> (r: (i32, i32))
        requires
            state.wf(),
            mv.valid(),
        ensures
            r.0 as int == adj_count(state@.board, mv.x as int, mv.y as int, state@.player, 8),
            r.1 as int == adj_count(
                state@.board,
                mv.x as int,
                mv.y as int,
                opp_of(state@.player),
                8,
            ),
            0 <= r.0 <= 8,
            0 <= r.1 <= 8,
    {
        let ghost b = state@.board;
        let ghost xx = mv.x as int;
        let ghost yy = mv.y as int;
        let current_player = state.current_player;
        let opponent = state.get_opponent(current_player);
        let mut my_adjacent: i32 = 0;
        let mut opp_adjacent: i32 = 0;
        let mut d: usize = 0;
        while d < 8
            invariant
                state.wf(),
                b == state@.board,
                mv.valid(),
                xx == mv.x as int,
                yy == mv.y as int,
                current_player == state@.player,
                opponent == opp_of(state@.player),
                d <= 8,
                0 <= my_adjacent <= d,
                0 <= opp_adjacent <= d,
                my_adjacent as int == adj_count(b, xx, yy, current_player, d as int),
                opp_adjacent as int == adj_count(b, xx, yy, opponent, d as int),
            decreases 8 - d,
        {
            let (ddx, ddy) = dir8(d);
            let nx = mv.x + ddx;
            let ny = mv.y + ddy;
            if state.is_valid(nx, ny) {
                let piece = state.get_piece(nx, ny);
                if piece == current_player {
                    my_adjacent = my_adjacent + 1;
                } else if piece == opponent {
                    opp_adjacent = opp_adjacent + 1;
                }
            }
            proof {
                let di = d as int;
                assert(nx as int == xx + dx8(di) && ny as int == yy + dy8(di));
                assert(adj_count(b, xx, yy, current_player, di + 1) == adj_count(
                    b,
                    xx,
                    yy,
                    current_player,
                    di,
                ) + (if in_bounds(xx + dx8(di), yy + dy8(di)) && cell_at(
                    b,
                    xx + dx8(di),
                    yy + dy8(di),
                ) == current_player {
                    1int
                } else {
                    0int
                }));
                assert(adj_count(b, xx, yy, opponent, di + 1) == adj_count(b, xx, yy, opponent, di)
                    + (if in_bounds(xx + dx8(di), yy + dy8(di)) && cell_at(
                    b,
                    xx + dx8(di),
                    yy + dy8(di),
                ) == opponent {
                    1int
                } else {
                    0int
                }));
            }
            d = d + 1;
        }
        (my_adjacent, opp_adjacent)
    }

    /// Longest line through `mv` for the side to move, and the longest
    /// adjacent opposing line.
    fn line_maxima(state: &GameState, mv: Move) -> (r: (i32, i32))
        requires
            state.wf(),
            mv.valid(),
        ensures
            r.0 as int == line_pair_max(state@.board, mv.x as int, mv.y as int, state@.player, 4),
            r.1 as int == opp_pair_max(
                state@.board,
                mv.x as int,
                mv.y as int,
                opp_of(state@.player),
                4,
            ),
            0 <= r.0 <= 9,
            0 <= r.1 <= 8,
    {
        let ghost b = state@.board;
        let ghost xx = mv.x as int;
        let ghost yy = mv.y as int;
        let current_player = state.current_player;
        let opponent = state.get_opponent(current_player);
        let mut max_my_line: i32 = 0;
        let mut max_opp_line: i32 = 0;
        let mut ld: usize = 0;
        while ld < 4
            invariant
                state.wf(),
                b == state@.board,
                mv.valid(),
                xx == mv.x as int,
                yy == mv.y as int,
                current_player == state@.player,
                opponent == opp_of(state@.player),
                ld <= 4,
                0 <= max_my_line <= 9,
                0 <= max_opp_line <= 8,
                max_my_line as int == line_pair_max(b, xx, yy, current_player, ld as int),
                max_opp_line as int == opp_pair_max(b, xx, yy, opponent, ld as int),
            decreases 4 - ld,
        {
            let (ddx, ddy) = dir4(ld);
            let my_count = 1 + Self::count_consecutive_in_direction(
                state,
                mv.x,
                mv.y,
                ddx,
                ddy,
                current_player,
                4,
            ) + Self::count_consecutive_in_direction(
                state,
                mv.x,
                mv.y,
                -ddx,
                -ddy,
                current_player,
                4,
            );
            if my_count > max_my_line {
                max_my_line = my_count;
            }
            let opp_count = Self::count_consecutive_in_direction(
                state,
                mv.x,
                mv.y,
                ddx,
                ddy,
                opponent,
                4,
            ) + Self::count_consecutive_in_direction(state, mv.x, mv.y, -ddx, -ddy, opponent, 4);
            if opp_count > max_opp_line {
                max_opp_line = opp_count;
            }
            ld = ld + 1;
        }
        (max_my_line, max_opp_line)
    }

    /// True when placing for the side to move at `mv` would capture a pair
    /// at once.
    fn sees_capture(state: &GameState, mv: Move) -> (r: bool)
        requires
            state.wf(),
            mv.valid(),
        ensures
            r == exists|d: int|
                0 <= d < 8 && #[trigger] cap_pat(
                    state@.board,
                    mv.x as int,
                    mv.y as int,
                    d,
                    state@.player,
                ),
    {
        let ghost b = state@.board;
        let ghost xx = mv.x as int;
        let ghost yy = mv.y as int;
        let current_player = state.current_player;
        let opponent = state.get_opponent(current_player);
        let mut cd: usize = 0;
        while cd < 8
            invariant
                state.wf(),
                b == state@.board,
                mv.valid(),
                xx == mv.x as int,
                yy == mv.y as int,
                cd <= 8,
                current_player == state@.player,
                opponent == opp_of(current_player),
                forall|dd: int| 0 <= dd < cd ==> !#[trigger] cap_pat(b, xx, yy, dd, current_player),
            decreases 8 - cd,
        {
            let (ddx, ddy) = dir8(cd);
            let x1 = mv.x + ddx;
            let y1 = mv.y + ddy;
            let x2 = mv.x + 2 * ddx;
            let y2 = mv.y + 2 * ddy;
            let x3 = mv.x + 3 * ddx;
            let y3 = mv.y + 3 * ddy;
            if state.is_valid(x1, y1) && state.is_valid(x2, y2) && state.is_valid(x3, y3)
                && state.get_piece(x1, y1) == opponent && state.get_piece(x2, y2) == opponent
                && state.get_piece(x3, y3) == current_player {
                proof {
                    assert(cap_pat(b, xx, yy, cd as int, current_player));
                }
                return true;
            }
            proof {
                assert(!cap_pat(b, xx, yy, cd as int, current_player));
            }
            cd = cd + 1;
        }
        false
    }

    /// The cheap heuristic score of playing `mv`: centrality, adjacency,
    /// proximity to the last opposing move, line potential, an
    /// immediate-capture bonus and the history bonus of the cell. Reads
    /// only; never mutates shared state.
    #[verifier::rlimit(100)]
    pub fn quick_evaluate_move(state: &GameState, mv: Move, history: &Vec<i32>) -> (r: i32)
        requires
            state.wf(),
            mv.valid(),
            hist_ok(history@),
        ensures
            r as int == spec_quick_eval(state@, mv, history@),
            0 <= r <= 2000000,
    {
        // Centrality.
        let cdx = if mv.x >= 9 {
            mv.x - 9
        } else {
            9 - mv.x
        };
        let cdy = if mv.y >= 9 {
            mv.y - 9
        } else {
            9 - mv.y
        };
        let center_d = if cdx >= cdy {
            cdx
        } else {
            cdy
        };
        let centrality = (9 - center_d) * 10;

        // Adjacency to both sides' stones.
        let (my_adjacent, opp_adjacent) = Self::adjacent_counts(state, mv);
        let adjacency = my_adjacent * 50 + opp_adjacent * 20;

        // Proximity to the last opposing move.
        let mut proximity: i32 = 0;
        if state.last_human_move.is_valid() {
            let lx = state.last_human_move.x;
            let ly = state.last_human_move.y;
            let ddx = if mv.x >= lx {
                mv.x - lx
            } else {
                lx - mv.x
            };
            let ddy = if mv.y >= ly {
                mv.y - ly
            } else {
                ly - mv.y
            };
            if ddx <= 2 && ddy <= 2 {
                proximity = 500;
            }
        }

        // Line potential for both sides.
        let (max_my_line, max_opp_line) = Self::line_maxima(state, mv);
        let my_bonus: i32 = if max_my_line >= 5 {
            100000
        } else if max_my_line == 4 {
            10000
        } else if max_my_line == 3 {
            1000
        } else if max_my_line == 2 {
            100
        } else {
            0
        };
        let opp_bonus: i32 = if max_opp_line >= 4 {
            8000
        } else if max_opp_line == 3 {
            800
        } else {
            0
        };

        // An immediate capture from this cell.
        let cap_bonus: i32 = if Self::sees_capture(state, mv) {
            2000
        } else {
            0
        };

        // History bonus of the cell.
        let hv = history[(mv.x as usize) * 19 + (mv.y as usize)];

        let score = centrality + adjacency + proximity + my_bonus + opp_bonus + cap_bonus + hv;
        proof {
            reveal(spec_quick_eval);
            assert(0 <= history@[mv.idx()] <= HISTORY_CAP);
        }
        score
    }

    /// Sort moves by falling quick score: a permutation of the input,
    /// ordered so that every kept prefix dominates what follows it.
    fn sort_moves_desc(state: &GameState, moves: Vec<Move>, history: &Vec<i32>) -> (r: Vec<Move>)
        requires
            state.wf(),
            hist_ok(history@),
            all_valid(moves@),
        ensures
            r@.len() == moves@.len(),
            r@.to_multiset() == moves@.to_multiset(),
            all_valid(r@),
            sorted_desc(state@, r@, history@, 0, r@.len() as int),
    {
        broadcast use
            vstd::seq_lib::group_to_multiset_ensures,
            vstd::multiset::group_multiset_axioms;

        let ghost pos = state@;
        let ghost h = history@;
        let ghost orig = moves@;
        let mut rest = moves;
        let mut out: Vec<Move> = Vec::new();
        while rest.len() > 0
            invariant
                state.wf(),
                hist_ok(history@),
                pos == state@,
                h == history@,
                out@.len() + rest@.len() == orig.len(),
                out@.to_multiset().add(rest@.to_multiset()) == orig.to_multiset(),
                all_valid(out@),
                all_valid(rest@),
                sorted_desc(pos, out@, h, 0, out@.len() as int),
                forall|i: int, k: int|
                    #![trigger spec_quick_eval(pos, out@[i], h), spec_quick_eval(pos, rest@[k], h)]
                    0 <= i < out@.len() && 0 <= k < rest@.len() ==> spec_quick_eval(pos, out@[i], h)
                        >= spec_quick_eval(pos, rest@[k], h),
            decreases rest@.len(),
        {
            let mut best_i: usize = 0;
            let mut best_s: i32 = Self::quick_evaluate_move(state, rest[0], history);
            let mut j: usize = 1;
            while j < rest.len()
                invariant
                    state.wf(),
                    hist_ok(history@),
                    pos == state@,
                    h == history@,
                    all_valid(rest@),
                    rest@.len() > 0,
                    1 <= j <= rest@.len(),
                    best_i < j,
                    best_s as int == spec_quick_eval(pos, rest@[best_i as int], h),
                    forall|k: int|
                        0 <= k < j ==> spec_quick_eval(pos, #[trigger] rest@[k], h)
                            <= best_s as int,
                decreases rest@.len() - j,
            {
                let s = Self::quick_evaluate_move(state, rest[j], history);
                if s > best_s {
                    best_s = s;
                    best_i = j;
                }
                j = j + 1;
            }
            let ghost rest0 = rest@;
            let ghost out0 = out@;
            let m = rest.remove(best_i);
            out.push(m);
            proof {
                lemma_extract_step(orig, out0, out@, rest0, rest@, m, best_i as int);
                // Every remaining move scores no higher than the extracted one.
                assert forall|k: int| 0 <= k < rest@.len() implies spec_quick_eval(
                    pos,
                    #[trigger] rest@[k],
                    h,
                ) <= spec_quick_eval(pos, m, h) by {
                    if k < best_i {
                        assert(rest@[k] == rest0[k]);
                    } else {
                        assert(rest@[k] == rest0[k + 1]);
                    }
                }
                assert(all_valid(rest@));
            }
        }
        proof {
            assert forall|a: Move| #[trigger] out@.to_multiset().count(a)
                == orig.to_multiset().count(a) by {
                assert(!rest@.contains(a));
                assert(rest@.to_multiset().count(a) == 0);
            }
            assert(out@.to_multiset() =~= orig.to_multiset());
        }
        out
    }

    /// True when an occupied cell lies within Chebyshev distance `radius`
    /// of (x, y).
    fn occupied_near(state: &GameState, x: i32, y: i32, radius: i32) -> (r: bool)
        requires
            state.wf(),
            in_bounds(x as int, y as int),
            0 <= radius <= 2,
        ensures
            r == occupied_within(state@.board, x as int, y as int, radius as int),
    {
        let ghost b = state@.board;
        let mut i: usize = 0;
        while i < 19
            invariant
                state.wf(),
                b == state@.board,
                in_bounds(x as int, y as int),
                0 <= radius <= 2,
                i <= 19,
                forall|i2: int, j2: int|
                    0 <= i2 < i && 0 <= j2 < 19 && cheb_within(i2, j2, x as int, y as int, radius as int)
                        ==> #[trigger] cell_at(b, i2, j2) == 0,
            decreases 19 - i,
        {
            let mut j: usize = 0;
            while j < 19
                invariant
                    state.wf(),
                    b == state@.board,
                    in_bounds(x as int, y as int),
                    0 <= radius <= 2,
                    i < 19,
                    j <= 19,
                    forall|i2: int, j2: int|
                        0 <= i2 < i && 0 <= j2 < 19 && cheb_within(
                            i2,
                            j2,
                            x as int,
                            y as int,
                            radius as int,
                        ) ==> #[trigger] cell_at(b, i2, j2) == 0,
                    forall|j2: int|
                        0 <= j2 < j && cheb_within(i as int, j2, x as int, y as int, radius as int)
                            ==> #[trigger] cell_at(b, i as int, j2) == 0,
                decreases 19 - j,
            {
                let ii = i as i32;
                let jj = j as i32;
                let dxa = if ii >= x {
                    ii - x
                } else {
                    x - ii
                };
                let dya = if jj >= y {
                    jj - y
                } else {
                    y - jj
                };
                if dxa <= radius && dya <= radius && state.board[i * 19 + j] != 0 {
                    proof {
                        assert(cheb_within(i as int, j as int, x as int, y as int, radius as int));
                        assert(cell_at(b, i as int, j as int) != 0);
                    }
                    return true;
                }
                j = j + 1;
            }
            i = i + 1;
        }
        false
    }

    /// Generate the candidate moves: the empty cells within the phase
    /// radius of a stone or near the last opposing move, in row-major
    /// order; the centre (or the first empty cell) when that zone is
    /// empty; and the top candidates by quick score when the zone exceeds
    /// the phase's cap.
    pub fn generate_candidates_adaptive_radius(state: &GameState, history: &Vec<i32>) -> (r: Vec<
        Move,
    >)
        requires
            state.wf(),
            hist_ok(history@),
        ensures
            all_valid(r@),
            forall|k: int|
                0 <= k < r@.len() ==> cell_at(
                    state@.board,
                    (#[trigger] r@[k]).x as int,
                    r@[k].y as int,
                ) == 0,
            empties(state@.board, 361).len() > 0 ==> r@.len() > 0,
            r@.len() <= 361,
            relevant_list(state@, 361).len() == 0 && empties(state@.board, 361).len() > 0
                && cell_at(state@.board, 9, 9) == 0 ==> r@ == seq![Move { x: 9i32, y: 9i32 }],
            0 < relevant_list(state@, 361).len() <= spec_max_candidates(state@.turns) ==> r@
                == relevant_list(state@, 361),
            relevant_list(state@, 361).len() > spec_max_candidates(state@.turns) ==> {
                &&& r@.len() == spec_max_candidates(state@.turns)
                &&& sorted_desc(state@, r@, history@, 0, r@.len() as int)
                &&& r@.to_multiset().subset_of(relevant_list(state@, 361).to_multiset())
                &&& forall|i: int, m: Move|
                    #![trigger spec_quick_eval(state@, r@[i], history@), spec_quick_eval(state@, m, history@)]
                    0 <= i < r@.len() && relevant_list(state@, 361).contains(m) && !r@.contains(m)
                        ==> spec_quick_eval(state@, r@[i], history@) >= spec_quick_eval(
                        state@,
                        m,
                        history@,
                    )
            },
    {
        broadcast use
            vstd::seq_lib::group_to_multiset_ensures,
            vstd::multiset::group_multiset_axioms;

        let ghost pos = state@;
        let ghost b = pos.board;
        let search_radius = Self::get_search_radius_for_game_phase(state.turn_count);
        let mut candidates: Vec<Move> = Vec::new();
        let last_valid = state.last_human_move.is_valid();
        let lx = state.last_human_move.x;
        let ly = state.last_human_move.y;
        let mut i: usize = 0;
        while i < 19
            invariant
                state.wf(),
                hist_ok(history@),
                pos == state@,
                b == pos.board,
                i <= 19,
                search_radius as int == spec_radius(pos.turns),
                1 <= search_radius <= 2,
                last_valid == pos.last.valid(),
                lx == pos.last.x,
                ly == pos.last.y,
                candidates@ == relevant_list(pos, (i * 19) as int),
            decreases 19 - i,
        {
            let mut j: usize = 0;
            while j < 19
                invariant
                    state.wf(),
                    hist_ok(history@),
                    pos == state@,
                    b == pos.board,
                    i < 19,
                    j <= 19,
                    search_radius as int == spec_radius(pos.turns),
                    1 <= search_radius <= 2,
                    last_valid == pos.last.valid(),
                    lx == pos.last.x,
                    ly == pos.last.y,
                    candidates@ == relevant_list(pos, (i * 19 + j) as int),
                decreases 19 - j,
            {
                let ii = i as i32;
                let jj = j as i32;
                if state.is_empty(ii, jj) {
                    let near_stone = Self::occupied_near(state, ii, jj, search_radius);
                    let mut near_last = false;
                    if last_valid {
                        let dxa = if ii >= lx {
                            ii - lx
                        } else {
                            lx - ii
                        };
                        let dya = if jj >= ly {
                            jj - ly
                        } else {
                            ly - jj
                        };
                        near_last = dxa <= search_radius + 1 && dya <= search_radius + 1;
                    }
                    if near_stone || near_last {
                        candidates.push(Move::new(ii, jj));
                        proof {
                            assert(relevant(pos, i as int, j as int));
                        }
                    } else {
                        proof {
                            assert(!relevant(pos, i as int, j as int));
                        }
                    }
                } else {
                    proof {
                        assert(!relevant(pos, i as int, j as int));
                    }
                }
                proof {
                    lemma_divmod19(i as int, j as int);
                }
                j = j + 1;
            }
            i = i + 1;
        }
        proof {
            lemma_relevant_list_props(pos, 361);
            crate::board::lemma_empties_props(b, 361);
        }

        // An empty zone: fall back to the centre, then the first empty cell.
        if candidates.len() == 0 {
            if state.is_empty(9, 9) {
                candidates.push(Move::new(9, 9));
            } else {
                let legal = state.get_legal_moves();
                if legal.len() > 0 {
                    candidates.push(legal[0]);
                }
            }
            return candidates;
        }

        // Keep only the strongest candidates once the zone grows.
        let max_candidates = Self::get_max_candidates_for_game_phase(state);
        if candidates.len() > max_candidates {
            let ghost full = candidates@;
            let sorted = Self::sort_moves_desc(state, candidates, history);
            let mut out: Vec<Move> = Vec::new();
            let mut k: usize = 0;
            while k < max_candidates
                invariant
                    k <= max_candidates,
                    max_candidates < sorted@.len(),
                    out@ == sorted@.subrange(0, k as int),
                decreases max_candidates - k,
            {
                out.push(sorted[k]);
                proof {
                    assert(out@ =~= sorted@.subrange(0, k as int + 1));
                }
                k = k + 1;
            }
            proof {
                let sk = sorted@;
                let pre = sk.subrange(0, max_candidates as int);
                let suf = sk.subrange(max_candidates as int, sk.len() as int);
                assert(sk =~= pre + suf);
                vstd::seq_lib::lemma_multiset_commutative(pre, suf);
                assert forall|k2: int| 0 <= k2 < out@.len() implies cell_at(
                    b,
                    (#[trigger] out@[k2]).x as int,
                    out@[k2].y as int,
                ) == 0 by {
                    assert(out@[k2] == sk[k2]);
                    assert(sk.contains(sk[k2]));
                    assert(full.to_multiset().count(sk[k2]) > 0);
                    assert(full.contains(sk[k2]));
                    let idx = choose|idx: int| 0 <= idx < full.len() && full[idx] == sk[k2];
                    assert(relevant_list(pos, 361)[idx] == sk[k2]);
                }
                assert(out@.to_multiset().subset_of(relevant_list(pos, 361).to_multiset()));
                assert forall|i2: int, m: Move|
                    #![trigger spec_quick_eval(pos, out@[i2], history@), spec_quick_eval(pos, m, history@)]
                    0 <= i2 < out@.len() && relevant_list(pos, 361).contains(m) && !out@.contains(
                        m,
                    ) implies spec_quick_eval(pos, out@[i2], history@) >= spec_quick_eval(
                    pos,
                    m,
                    history@,
                ) by {
                    assert(sk.to_multiset().count(m) > 0);
                    assert(sk.contains(m));
                    let idx = choose|idx: int| 0 <= idx < sk.len() && sk[idx] == m;
                    if idx < max_candidates {
                        assert(out@[idx] == m);
                        assert(out@.contains(m));
                        assert(false);
                    }
                    assert(spec_quick_eval(pos, sk[i2], history@) >= spec_quick_eval(
                        pos,
                        sk[idx],
                        history@,
                    ));
                }
            }
            return out;
        }
        candidates
    }

    /// Put the best move of a shallower search first and sort the rest by
    /// quick score; with no such move, sort the whole list. Lists of at
    /// most two moves are left alone.
    pub fn order_moves_with_previous_best(
        moves: &mut Vec<Move>,
        state: &GameState,
        previous_best_move: Move,
        history: &Vec<i32>,
    )
        requires
            state.wf(),
            hist_ok(history@),
            all_valid(old(moves)@),
        ensures
            final(moves)@.len() == old(moves)@.len(),
            final(moves)@.to_multiset() == old(moves)@.to_multiset(),
            all_valid(final(moves)@),
            old(moves)@.len() <= 2 ==> final(moves)@ == old(moves)@,
            old(moves)@.len() > 2 && previous_best_move.valid() && old(moves)@.contains(
                previous_best_move,
            ) ==> final(moves)@[0] == previous_best_move && sorted_desc(
                state@,
                final(moves)@,
                history@,
                1,
                final(moves)@.len() as int,
            ),
            old(moves)@.len() > 2 && !(previous_best_move.valid() && old(moves)@.contains(
                previous_best_move,
            )) ==> sorted_desc(state@, final(moves)@, history@, 0, final(moves)@.len() as int),
    {
        broadcast use
            vstd::seq_lib::group_to_multiset_ensures,
            vstd::multiset::group_multiset_axioms;

        let ghost pos = state@;
        let ghost orig = moves@;
        if moves.len() <= 2 {
            return;
        }
        if previous_best_move.is_valid() {
            let mut pos_found: usize = moves.len();
            let mut s: usize = 0;
            while s < moves.len()
                invariant
                    moves@ == orig,
                    s <= moves@.len(),
                    pos_found <= moves@.len(),
                    pos_found == moves@.len() ==> forall|k: int|
                        0 <= k < s ==> moves@[k] != previous_best_move,
                    pos_found < moves@.len() ==> moves@[pos_found as int] == previous_best_move,
                decreases moves@.len() - s,
            {
                if pos_found == moves.len() && moves[s] == previous_best_move {
                    pos_found = s;
                }
                s = s + 1;
            }
            if pos_found < moves.len() {
                // Bring the previous best to the front, then sort the rest.
                let first = moves[0];
                let best = moves[pos_found];
                moves.set(0, best);
                moves.set(pos_found, first);
                proof {
                    lemma_swap_to_multiset(orig, 0, pos_found as int);
                }
                let ghost swapped = moves@;
                let mut tail: Vec<Move> = Vec::new();
                let mut t: usize = 1;
                while t < moves.len()
                    invariant
                        moves@ == swapped,
                        swapped.len() == orig.len(),
                        1 <= t <= moves@.len(),
                        tail@ == swapped.subrange(1, t as int),
                    decreases moves@.len() - t,
                {
                    tail.push(moves[t]);
                    proof {
                        assert(tail@ =~= swapped.subrange(1, t as int + 1));
                    }
                    t = t + 1;
                }
                proof {
                    assert(all_valid(tail@));
                }
                let sorted_tail = Self::sort_moves_desc(state, tail, history);
                let mut w: usize = 0;
                while w < sorted_tail.len()
                    invariant
                        moves@.len() == swapped.len(),
                        sorted_tail@.len() + 1 == swapped.len(),
                        w <= sorted_tail@.len(),
                        moves@[0] == swapped[0],
                        forall|k: int| 0 <= k < w ==> moves@[k + 1] == sorted_tail@[k],
                        forall|k: int| w < k < moves@.len() ==> moves@[k] == swapped[k],
                        state.wf(),
                        hist_ok(history@),
                        pos == state@,
                        all_valid(sorted_tail@),
                        sorted_desc(pos, sorted_tail@, history@, 0, sorted_tail@.len() as int),
                        sorted_tail@.to_multiset() == swapped.subrange(
                            1,
                            swapped.len() as int,
                        ).to_multiset(),
                        swapped[0] == previous_best_move,
                        swapped.to_multiset() == orig.to_multiset(),
                        all_valid(swapped),
                    decreases sorted_tail@.len() - w,
                {
                    moves.set(w + 1, sorted_tail[w]);
                    w = w + 1;
                }
                proof {
                    assert(moves@ =~= seq![previous_best_move] + sorted_tail@);
                    vstd::seq_lib::lemma_multiset_commutative(
                        seq![previous_best_move],
                        sorted_tail@,
                    );
                    assert(swapped =~= seq![previous_best_move] + swapped.subrange(
                        1,
                        swapped.len() as int,
                    ));
                    vstd::seq_lib::lemma_multiset_commutative(
                        seq![previous_best_move],
                        swapped.subrange(1, swapped.len() as int),
                    );
                    assert(moves@.to_multiset() == orig.to_multiset());
                    assert forall|k: int| 0 <= k < moves@.len() implies (
                    #[trigger] moves@[k]).valid() by {
                        if k == 0 {
                        } else {
                            assert(moves@[k] == sorted_tail@[k - 1]);
                        }
                    }
                    assert forall|i2: int, j2: int|
                        #![trigger spec_quick_eval(pos, moves@[i2], history@), spec_quick_eval(pos, moves@[j2], history@)]
                        1 <= i2 <= j2 < moves@.len() implies spec_quick_eval(
                        pos,
                        moves@[i2],
                        history@,
                    ) >= spec_quick_eval(pos, moves@[j2], history@) by {
                        assert(moves@[i2] == sorted_tail@[i2 - 1]);
                        assert(moves@[j2] == sorted_tail@[j2 - 1]);
                        assert(spec_quick_eval(pos, sorted_tail@[i2 - 1], history@)
                            >= spec_quick_eval(pos, sorted_tail@[j2 - 1], history@));
                    }
                }
                return;
            }
        }
        // No previous best among the candidates: plain full sort.
        let snapshot = vec_copy_moves(moves);
        let sorted = Self::sort_moves_desc(state, snapshot, history);
        *moves = sorted;
    }
}

/// An element-for-element copy of a move list.
fn vec_copy_moves(v: &Vec<Move>) -> (r: Vec<Move>)
    ensures
        r@ == v@,
{
    let mut r: Vec<Move> = Vec::new();
    let mut i: usize = 0;
    while i < v.len()
        invariant
            i <= v.len(),
            r@ == v@.subrange(0, i as int),
        decreases v.len() - i,
    {
        r.push(v[i]);
        proof {
            assert(r@ =~= v@.subrange(0, i as int + 1));
        }
        i = i + 1;
    }
    proof {
        assert(r@ =~= v@);
    }
    r
}

/// Moving one move from the unsorted remainder to the sorted output keeps
/// the combined multiset of values.
proof fn lemma_extract_step(
    orig: Seq<Move>,
    out0: Seq<Move>,
    out1: Seq<Move>,
    rest0: Seq<Move>,
    rest1: Seq<Move>,
    m: Move,
    best_i: int,
)
    requires
        0 <= best_i < rest0.len(),
        m == rest0[best_i],
        rest1 == rest0.remove(best_i),
        out1 == out0.push(m),
        out0.to_multiset().add(rest0.to_multiset()) == orig.to_multiset(),
    ensures
        out1.to_multiset().add(rest1.to_multiset()) == orig.to_multiset(),
{
    broadcast use
        vstd::seq_lib::group_to_multiset_ensures,
        vstd::multiset::group_multiset_axioms;

    assert(rest0.contains(m));
    assert(rest0.to_multiset().count(m) > 0);
    assert(out1.to_multiset().add(rest1.to_multiset()) =~= orig.to_multiset());
}

/// Exchanging two entries of a sequence keeps its multiset of values.
proof fn lemma_swap_to_multiset(s: Seq<Move>, i: int, j: int)
    requires
        0 <= i < s.len(),
        0 <= j < s.len(),
    ensures
        s.update(i, s[j]).update(j, s[i]).to_multiset() == s.to_multiset(),
{
    broadcast use
        vstd::seq_lib::group_to_multiset_ensures,
        vstd::multiset::group_multiset_axioms;

    if i == j {
        assert(s.update(i, s[j]).update(j, s[i]) =~= s);
    } else {
        let s1 = s.update(i, s[j]);
        let s2 = s1.update(j, s[i]);
        assert(s.to_multiset().count(s[i]) > 0);
        assert(s1.to_multiset() =~= s.to_multiset().remove(s[i]).insert(s[j]));
        assert(s1[j] == s[j]);
        assert(s1.to_multiset().count(s1[j]) > 0);
        assert(s2.to_multiset() =~= s1.to_multiset().remove(s[j]).insert(s[i]));
        assert(s2.to_multiset() =~= s.to_multiset());
    }
}

} // verus!
