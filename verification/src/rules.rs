//! The rule engine: move application with pair captures, win verification
//! and the forbidden double free-three check.
//!
//! [`RuleEngine::apply_move`] is the only mutator the search uses. Its
//! contract pins down the whole transition — placement, captured cells,
//! capture counters, turn switch — and proves that the incremental hash
//! update leaves the state's hash equal to a from-scratch recomputation.

use vstd::prelude::*;

use crate::board::GameState;
use crate::board::Move;
use crate::board::Position;
use crate::board::board_ok;
use crate::board::cell_at;
use crate::board::cidx;
use crate::board::dir4;
use crate::board::dx4;
use crate::board::dy4;
use crate::board::in_bounds;
use crate::board::lemma_ray_step;
use crate::board::ray_cell;
use crate::board::ray_ok;
use crate::board::pos_ok;
use crate::board::ray_x;
use crate::board::EMPTY;
use crate::board::WIN_CAPTURES;
use crate::zobrist::ZobristTable;
use crate::zobrist::key_piece;

verus! {

/// x component of the d-th of the eight neighbour directions.
pub open spec fn dx8(d: int) -> int {
    if d == 0 {
        -1
    } else if d == 1 {
        -1
    } else if d == 2 {
        -1
    } else if d == 3 {
        0
    } else if d == 4 {
        0
    } else if d == 5 {
        1
    } else if d == 6 {
        1
    } else {
        1
    }
}

/// y component of the d-th of the eight neighbour directions.
pub open spec fn dy8(d: int) -> int {
    if d == 0 {
        -1
    } else if d == 1 {
        0
    } else if d == 2 {
        1
    } else if d == 3 {
        -1
    } else if d == 4 {
        1
    } else if d == 5 {
        -1
    } else if d == 6 {
        0
    } else {
        1
    }
}

/// The d-th of the eight neighbour directions, as executable values.
pub fn dir8(d: usize) -> (r: (i32, i32))
    requires
        d < 8,
    ensures
        r.0 == dx8(d as int),
        r.1 == dy8(d as int),
        -1 <= r.0 <= 1,
        -1 <= r.1 <= 1,
        !(r.0 == 0 && r.1 == 0),
{
    if d == 0 {
        (-1, -1)
    } else if d == 1 {
        (-1, 0)
    } else if d == 2 {
        (-1, 1)
    } else if d == 3 {
        (0, -1)
    } else if d == 4 {
        (0, 1)
    } else if d == 5 {
        (1, -1)
    } else if d == 6 {
        (1, 0)
    } else {
        (1, 1)
    }
}

/// The opponent of `player`: 2 for player 1, 1 for anyone else.
pub open spec fn opp_of(player: i32) -> i32 {
    if player == 1 {
        2i32
    } else {
        1i32
    }
}

/// The capture pattern stands at (mx, my) along direction d: the next two
/// cells hold the opponent's stones and the third holds the mover's own.
pub open spec fn cap_pat(b: Seq<i32>, mx: int, my: int, d: int, player: i32) -> bool {
    &&& in_bounds(mx + dx8(d), my + dy8(d))
    &&& in_bounds(mx + 2 * dx8(d), my + 2 * dy8(d))
    &&& in_bounds(mx + 3 * dx8(d), my + 3 * dy8(d))
    &&& cell_at(b, mx + dx8(d), my + dy8(d)) == opp_of(player)
    &&& cell_at(b, mx + 2 * dx8(d), my + 2 * dy8(d)) == opp_of(player)
    &&& cell_at(b, mx + 3 * dx8(d), my + 3 * dy8(d)) == player
}

/// The k-th cell of the capture pair along direction d from (mx, my).
pub open spec fn cap_cell(mx: int, my: int, d: int, k: int) -> Move {
    Move { x: (mx + k * dx8(d)) as i32, y: (my + k * dy8(d)) as i32 }
}

/// The stones captured by a stone of `player` standing at (mx, my),
/// scanning the first `d` of the eight directions: for each direction whose
/// capture pattern stands, the flanked pair, in direction order.
pub open spec fn spec_captures(b: Seq<i32>, mx: int, my: int, player: i32, d: int) -> Seq<Move>
    decreases d,
{
    if d <= 0 {
        Seq::empty()
    } else if cap_pat(b, mx, my, d - 1, player) {
        spec_captures(b, mx, my, player, d - 1).push(cap_cell(mx, my, d - 1, 1)).push(
            cap_cell(mx, my, d - 1, 2),
        )
    } else {
        spec_captures(b, mx, my, player, d - 1)
    }
}

/// Board `b` with the cells of the first `n` moves of `cells` cleared.
pub open spec fn clear_upto(b: Seq<i32>, cells: Seq<Move>, n: int) -> Seq<i32>
    decreases n,
{
    if n <= 0 {
        b
    } else {
        clear_upto(b, cells, n - 1).update(cells[n - 1].idx(), 0i32)
    }
}

/// XOR of the piece keys of `player` on the cells of the first `n` moves
/// of `cells`.
pub open spec fn xor_keys(cells: Seq<Move>, player: i32, n: int) -> u64
    decreases n,
{
    if n <= 0 {
        0
    } else {
        xor_keys(cells, player, n - 1) ^ key_piece(cells[n - 1].idx(), player as int)
    }
}

/// Clearing cells does not change the board's length.
proof fn lemma_clear_len(b: Seq<i32>, cells: Seq<Move>, n: int)
    requires
        forall|j: int| 0 <= j < n ==> (#[trigger] cells[j]).valid(),
        b.len() == 361,
    ensures
        clear_upto(b, cells, n).len() == 361,
    decreases n,
{
    if n > 0 {
        lemma_clear_len(b, cells, n - 1);
    }
}

/// A cell not among the first `n` cleared cells keeps its value.
proof fn lemma_clear_other(b: Seq<i32>, cells: Seq<Move>, n: int, i: int)
    requires
        forall|j: int| 0 <= j < n ==> (#[trigger] cells[j]).valid(),
        b.len() == 361,
        0 <= i < 361,
        forall|j: int| 0 <= j < n ==> (#[trigger] cells[j]).idx() != i,
    ensures
        clear_upto(b, cells, n)[i] == b[i],
    decreases n,
{
    if n > 0 {
        lemma_clear_other(b, cells, n - 1, i);
        lemma_clear_len(b, cells, n - 1);
    }
}

/// A cleared board holds the old value or an empty cell everywhere.
proof fn lemma_cleared_cell_ok(b: Seq<i32>, cells: Seq<Move>, n: int, i: int)
    requires
        forall|j: int| 0 <= j < n ==> (#[trigger] cells[j]).valid(),
        b.len() == 361,
        0 <= i < 361,
    ensures
        clear_upto(b, cells, n)[i] == b[i] || clear_upto(b, cells, n)[i] == 0,
    decreases n,
{
    if n > 0 {
        lemma_cleared_cell_ok(b, cells, n - 1, i);
        lemma_clear_len(b, cells, n - 1);
    }
}

/// Clearing distinct opponent-held cells XORs exactly their piece keys out
/// of the board hash.
proof fn lemma_clear_hash(b: Seq<i32>, cells: Seq<Move>, player: i32, n: int)
    requires
        b.len() == 361,
        forall|j: int|
            0 <= j < n ==> (#[trigger] cells[j]).valid() && b[cells[j].idx()] == player,
        forall|j: int, m: int|
            0 <= m < j < n ==> (#[trigger] cells[j]).idx() != (#[trigger] cells[m]).idx(),
    ensures
        crate::zobrist::board_hash(clear_upto(b, cells, n), 361) == crate::zobrist::board_hash(
            b,
            361,
        ) ^ xor_keys(cells, player, n),
    decreases n,
{
    let bh = crate::zobrist::board_hash(b, 361);
    if n <= 0 {
        crate::zobrist::lemma_xor_zero(bh);
    } else {
        lemma_clear_hash(b, cells, player, n - 1);
        let prev = clear_upto(b, cells, n - 1);
        let c = cells[n - 1];
        lemma_clear_len(b, cells, n - 1);
        lemma_clear_other(b, cells, n - 1, c.idx());
        assert(prev[c.idx()] == player);
        crate::zobrist::lemma_board_hash_update(prev, c.idx(), 0i32, 361);
        assert(crate::zobrist::cell_key(prev, c.idx()) == key_piece(c.idx(), player as int));
        assert(key_piece(c.idx(), 0int) == 0);
        let xk = xor_keys(cells, player, n - 1);
        let kc = key_piece(c.idx(), player as int);
        assert((((bh ^ xk) ^ kc) ^ 0) == bh ^ (xk ^ kc)) by (bit_vector);
    }
}

/// Two capture-pair cells around (mx, my) coincide only for the same
/// direction and the same step.
proof fn lemma_cap_cells_differ(mx: int, my: int, d1: int, k1: int, d2: int, k2: int)
    requires
        0 <= d1 < 8,
        0 <= d2 < 8,
        1 <= k1 <= 2,
        1 <= k2 <= 2,
        !(d1 == d2 && k1 == k2),
    ensures
        mx + k1 * dx8(d1) != mx + k2 * dx8(d2) || my + k1 * dy8(d1) != my + k2 * dy8(d2),
{
    if k1 == 1 {
        if k2 == 1 {
            assert(1 * dx8(d1) == dx8(d1) && 1 * dx8(d2) == dx8(d2) && 1 * dy8(d1) == dy8(d1) && 1
                * dy8(d2) == dy8(d2));
        } else {
            assert(1 * dx8(d1) == dx8(d1) && 2 * dx8(d2) == dx8(d2) + dx8(d2) && 1 * dy8(d1) == dy8(
                d1,
            ) && 2 * dy8(d2) == dy8(d2) + dy8(d2));
        }
    } else {
        if k2 == 1 {
            assert(2 * dx8(d1) == dx8(d1) + dx8(d1) && 1 * dx8(d2) == dx8(d2) && 2 * dy8(d1) == dy8(
                d1,
            ) + dy8(d1) && 1 * dy8(d2) == dy8(d2));
        } else {
            assert(2 * dx8(d1) == dx8(d1) + dx8(d1) && 2 * dx8(d2) == dx8(d2) + dx8(d2) && 2 * dy8(
                d1,
            ) == dy8(d1) + dy8(d1) && 2 * dy8(d2) == dy8(d2) + dy8(d2));
        }
    }
}

/// A capture-pair cell never coincides with the placed stone itself.
proof fn lemma_cap_cell_not_center(mx: int, my: int, d: int, k: int)
    requires
        0 <= d < 8,
        1 <= k <= 2,
    ensures
        mx + k * dx8(d) != mx || my + k * dy8(d) != my,
{
    if k == 1 {
        assert(1 * dx8(d) == dx8(d) && 1 * dy8(d) == dy8(d));
    } else {
        assert(2 * dx8(d) == dx8(d) + dx8(d) && 2 * dy8(d) == dy8(d) + dy8(d));
    }
}

/// Every cell of the capture list is on the board, holds the opponent's
/// stone, differs from the placed stone's cell and from every other listed
/// cell, and stems from a direction whose pattern stands.
pub proof fn lemma_captures_props(b: Seq<i32>, mx: int, my: int, player: i32, d: int)
    requires
        0 <= d <= 8,
        board_ok(b),
        in_bounds(mx, my),
    ensures
        forall|n: int|
            0 <= n < spec_captures(b, mx, my, player, d).len() ==> {
                let c = #[trigger] spec_captures(b, mx, my, player, d)[n];
                &&& c.valid()
                &&& cell_at(b, c.x as int, c.y as int) == opp_of(player)
                &&& c.idx() != cidx(mx, my)
                &&& exists|dd: int, k: int|
                    0 <= dd < d && 1 <= k <= 2 && c == #[trigger] cap_cell(mx, my, dd, k)
            },
        forall|n: int, m: int|
            0 <= m < n < spec_captures(b, mx, my, player, d).len()
                ==> #[trigger] spec_captures(b, mx, my, player, d)[n].idx()
                != #[trigger] spec_captures(b, mx, my, player, d)[m].idx(),
    decreases d,
{
    if d > 0 {
        lemma_captures_props(b, mx, my, player, d - 1);
        let prev = spec_captures(b, mx, my, player, d - 1);
        let cur = spec_captures(b, mx, my, player, d);
        if cap_pat(b, mx, my, d - 1, player) {
            let c1 = cap_cell(mx, my, d - 1, 1);
            let c2 = cap_cell(mx, my, d - 1, 2);
            assert(1 * dx8(d - 1) == dx8(d - 1) && 1 * dy8(d - 1) == dy8(d - 1));
            assert(c1.x as int == mx + dx8(d - 1) && c1.y as int == my + dy8(d - 1));
            assert(c2.x as int == mx + 2 * dx8(d - 1) && c2.y as int == my + 2 * dy8(d - 1));
            assert(c1.valid() && c2.valid());
            lemma_cap_cell_not_center(mx, my, d - 1, 1);
            lemma_cap_cell_not_center(mx, my, d - 1, 2);
            assert(c1.idx() != cidx(mx, my) && c2.idx() != cidx(mx, my));
            // The two new cells differ from each other and from all earlier
            // cells.
            assert forall|m: int| 0 <= m < prev.len() implies #[trigger] prev[m].idx() != c1.idx()
                && prev[m].idx() != c2.idx() by {
                let (dd, k) = choose|dd: int, k: int|
                    0 <= dd < d - 1 && 1 <= k <= 2 && prev[m] == #[trigger] cap_cell(mx, my, dd, k);
                lemma_cap_cells_differ(mx, my, dd, k, d - 1, 1);
                lemma_cap_cells_differ(mx, my, dd, k, d - 1, 2);
                assert(prev[m].valid());
            }
            lemma_cap_cells_differ(mx, my, d - 1, 1, d - 1, 2);
            assert(c1.idx() != c2.idx());
        }
    }
}

/// The capture list is non-empty exactly when some direction's pattern
/// stands.
pub proof fn lemma_captures_nonempty(b: Seq<i32>, mx: int, my: int, player: i32, d: int)
    requires
        0 <= d <= 8,
    ensures
        spec_captures(b, mx, my, player, d).len() > 0 <==> exists|dd: int|
            0 <= dd < d && #[trigger] cap_pat(b, mx, my, dd, player),
    decreases d,
{
    if d > 0 {
        lemma_captures_nonempty(b, mx, my, player, d - 1);
    }
}

/// The capture list always holds an even number of cells: one flanked pair
/// per matching direction.
pub proof fn lemma_captures_even(b: Seq<i32>, mx: int, my: int, player: i32, d: int)
    requires
        0 <= d <= 8,
    ensures
        spec_captures(b, mx, my, player, d).len() % 2 == 0,
        spec_captures(b, mx, my, player, d).len() <= 2 * d,
    decreases d,
{
    if d > 0 {
        lemma_captures_even(b, mx, my, player, d - 1);
    }
}

/// A run of five of `player`'s stones starts at (x, y) and extends along
/// (dx, dy), and (x, y) is the true start of the run (the preceding cell is
/// not the player's).
pub open spec fn spec_line_win(b: Seq<i32>, x: int, y: int, dx: int, dy: int, player: i32) -> bool {
    &&& !(in_bounds(x - dx, y - dy) && cell_at(b, x - dx, y - dy) == player)
    &&& in_bounds(x + dx, y + dy) && cell_at(b, x + dx, y + dy) == player
    &&& in_bounds(x + 2 * dx, y + 2 * dy) && cell_at(b, x + 2 * dx, y + 2 * dy) == player
    &&& in_bounds(x + 3 * dx, y + 3 * dy) && cell_at(b, x + 3 * dx, y + 3 * dy) == player
    &&& in_bounds(x + 4 * dx, y + 4 * dy) && cell_at(b, x + 4 * dx, y + 4 * dy) == player
}

/// Around line cell (px, py), along neighbour direction cd, a capture that
/// would remove (px, py) or its neighbour is available to the opponent:
/// OPP-PIECE-PIECE-EMPTY or EMPTY-PIECE-PIECE-OPP.
pub open spec fn break_at(b: Seq<i32>, px: int, py: int, cd: int, player: i32) -> bool {
    let bx = px - dx8(cd);
    let by = py - dy8(cd);
    let sx = px + dx8(cd);
    let sy = py + dy8(cd);
    let ax = px + 2 * dx8(cd);
    let ay = py + 2 * dy8(cd);
    ||| {
        &&& in_bounds(bx, by) && cell_at(b, bx, by) == opp_of(player)
        &&& in_bounds(sx, sy) && cell_at(b, sx, sy) == player
        &&& in_bounds(ax, ay) && cell_at(b, ax, ay) == 0
    }
    ||| {
        &&& in_bounds(ax, ay) && cell_at(b, ax, ay) == opp_of(player)
        &&& in_bounds(sx, sy) && cell_at(b, sx, sy) == player
        &&& in_bounds(bx, by) && cell_at(b, bx, by) == 0
    }
}

/// Somewhere on the first five cells of the winning line starting at
/// (x, y), the opponent has a capture that would break the line.
pub open spec fn spec_can_break(
    b: Seq<i32>,
    x: int,
    y: int,
    dx: int,
    dy: int,
    player: i32,
) -> bool {
    exists|i: int, cd: int|
        0 <= i < 5 && 0 <= cd < 8 && #[trigger] break_at(
            b,
            ray_x(x, dx, i),
            ray_x(y, dy, i),
            cd,
            player,
        )
}

/// The empty cell (x, y) gives `opponent` a capture somewhere.
pub open spec fn opp_cap_at(b: Seq<i32>, x: int, y: int, opponent: i32) -> bool {
    &&& in_bounds(x, y)
    &&& cell_at(b, x, y) == 0
    &&& exists|d: int| 0 <= d < 8 && #[trigger] cap_pat(b, x, y, d, opponent)
}

/// `opponent` has a capture available on their next turn.
pub open spec fn spec_opp_can_cap(b: Seq<i32>, opponent: i32) -> bool {
    exists|x: int, y: int| #[trigger] opp_cap_at(b, x, y, opponent)
}

/// (x, y) starts a verified winning line of `player` along main direction
/// d: a five-in-a-row the opponent cannot break by a capture.
pub open spec fn winline(b: Seq<i32>, x: int, y: int, d: int, player: i32) -> bool {
    &&& 0 <= d < 4
    &&& in_bounds(x, y)
    &&& cell_at(b, x, y) == player
    &&& spec_line_win(b, x, y, dx4(d), dy4(d), player)
    &&& !spec_can_break(b, x, y, dx4(d), dy4(d), player)
}

/// `player` has won: ten captures, or an unbreakable five-in-a-row while
/// the opponent is not about to reach a capture win first.
pub open spec fn spec_check_win(b: Seq<i32>, caps: Seq<i32>, player: i32) -> bool {
    ||| caps[player as int - 1] >= 10
    ||| {
        &&& exists|x: int, y: int, d: int| #[trigger] winline(b, x, y, d, player)
        &&& !(caps[opp_of(player) as int - 1] >= 8 && spec_opp_can_cap(b, opp_of(player)))
    }
}

/// Four consecutive stones of `player` stand in the five-cell window `w`.
pub open spec fn spec_has4(w: Seq<i32>, player: i32) -> bool {
    ||| w[0] == player && w[1] == player && w[2] == player && w[3] == player
    ||| w[1] == player && w[2] == player && w[3] == player && w[4] == player
}

/// Filling one empty cell of window `w` would give `player` four in a row.
pub open spec fn spec_cft(w: Seq<i32>, player: i32) -> bool {
    exists|i: int| 0 <= i < 5 && w[i] == 0 && #[trigger] spec_has4(w.update(i, player), player)
}

/// Window `w` holds one of the ten layouts of exactly three stones of
/// `player` and two empty cells.
pub open spec fn window_pattern_ok(w: Seq<i32>, player: i32) -> bool {
    let p = player;
    ||| (w[0] == p && w[1] == p && w[2] == p && w[3] == 0 && w[4] == 0)
    ||| (w[0] == p && w[1] == p && w[2] == 0 && w[3] == p && w[4] == 0)
    ||| (w[0] == p && w[1] == p && w[2] == 0 && w[3] == 0 && w[4] == p)
    ||| (w[0] == p && w[1] == 0 && w[2] == p && w[3] == p && w[4] == 0)
    ||| (w[0] == p && w[1] == 0 && w[2] == p && w[3] == 0 && w[4] == p)
    ||| (w[0] == p && w[1] == 0 && w[2] == 0 && w[3] == p && w[4] == p)
    ||| (w[0] == 0 && w[1] == p && w[2] == p && w[3] == p && w[4] == 0)
    ||| (w[0] == 0 && w[1] == p && w[2] == p && w[3] == 0 && w[4] == p)
    ||| (w[0] == 0 && w[1] == p && w[2] == 0 && w[3] == p && w[4] == p)
    ||| (w[0] == 0 && w[1] == 0 && w[2] == p && w[3] == p && w[4] == p)
}

/// The five cells starting `o` steps from (mx, my) along (dx, dy) form a
/// free three of `player`: all on the board, flanked by empty cells on both
/// sides, holding one of the three-stone layouts, one move away from an
/// open four.
pub open spec fn ft_window(
    b: Seq<i32>,
    mx: int,
    my: int,
    dx: int,
    dy: int,
    player: i32,
    o: int,
) -> bool {
    let wx = ray_x(mx, dx, o);
    let wy = ray_x(my, dy, o);
    let w = seq![
        cell_at(b, wx, wy),
        cell_at(b, wx + dx, wy + dy),
        cell_at(b, wx + 2 * dx, wy + 2 * dy),
        cell_at(b, wx + 3 * dx, wy + 3 * dy),
        cell_at(b, wx + 4 * dx, wy + 4 * dy),
    ];
    &&& in_bounds(wx, wy)
    &&& in_bounds(wx + dx, wy + dy)
    &&& in_bounds(wx + 2 * dx, wy + 2 * dy)
    &&& in_bounds(wx + 3 * dx, wy + 3 * dy)
    &&& in_bounds(wx + 4 * dx, wy + 4 * dy)
    &&& in_bounds(wx - dx, wy - dy) && cell_at(b, wx - dx, wy - dy) == 0
    &&& in_bounds(wx + 5 * dx, wy + 5 * dy) && cell_at(b, wx + 5 * dx, wy + 5 * dy) == 0
    &&& window_pattern_ok(w, player)
    &&& spec_cft(w, player)
}

/// Along (dx, dy), some five-cell window containing (mx, my) is a free
/// three of `player`.
pub open spec fn spec_free_three(
    b: Seq<i32>,
    mx: int,
    my: int,
    dx: int,
    dy: int,
    player: i32,
) -> bool {
    exists|o: int| -4 <= o <= 0 && #[trigger] ft_window(b, mx, my, dx, dy, player, o)
}

/// Number of the first `d` main directions along which a stone of `player`
/// at (mx, my) stands in a free three.
pub open spec fn ft_count(b: Seq<i32>, mx: int, my: int, player: i32, d: int) -> int
    decreases d,
{
    if d <= 0 {
        0
    } else {
        ft_count(b, mx, my, player, d - 1) + if spec_free_three(
            b,
            mx,
            my,
            dx4(d - 1),
            dy4(d - 1),
            player,
        ) {
            1int
        } else {
            0int
        }
    }
}

/// Placing a stone of `player` at `mv` would complete free threes along
/// two or more directions at once — the forbidden double free-three.
pub open spec fn spec_dft(b: Seq<i32>, mv: Move, player: i32) -> bool {
    ft_count(b.update(mv.idx(), player), mv.x as int, mv.y as int, player, 4) >= 2
}

/// The move is accepted by the rules: on the board, on an empty cell, and
/// not a double free-three for the side to move.
pub open spec fn spec_legal(p: Position, mv: Move) -> bool {
    &&& mv.valid()
    &&& cell_at(p.board, mv.x as int, mv.y as int) == 0
    &&& !spec_dft(p.board, mv, p.player)
}

/// The position after a legal move `mv`: the stone placed, every flanked
/// pair removed, the mover's capture counter raised by the number of pairs
/// (capped at ten), and the turn given to the opponent. The last recorded
/// move of player 1 is the state container's concern, not the rule
/// engine's, so it is unchanged.
pub open spec fn spec_apply_pos(p: Position, mv: Move) -> Position {
    let placed = p.board.update(mv.idx(), p.player);
    let caught = spec_captures(placed, mv.x as int, mv.y as int, p.player, 8);
    let cleared = clear_upto(placed, caught, caught.len() as int);
    let pairs = caught.len() as int / 2;
    let pi = p.player as int - 1;
    let rawcap = p.caps[pi] + pairs;
    let newcap: i32 = if rawcap > 10 {
        10i32
    } else {
        rawcap as i32
    };
    Position {
        board: cleared,
        player: opp_of(p.player),
        turns: (p.turns + 1) as i32,
        caps: p.caps.update(pi, newcap),
        last: p.last,
    }
}

/// Outcome of a move application: whether it was accepted, whether it
/// created a win for the mover, and which stones it captured.
pub struct MoveResult {
    pub success: bool,
    pub creates_win: bool,
    pub my_captured_pieces: Vec<Move>,
}

impl MoveResult {
    /// The all-failure default outcome.
    fn new() -> (r: MoveResult)
        ensures
            !r.success,
            !r.creates_win,
            r.my_captured_pieces@ == Seq::<Move>::empty(),
    {
        MoveResult { success: false, creates_win: false, my_captured_pieces: Vec::new() }
    }
}

/// The rule engine. All its operations are associated functions; it holds
/// no state of its own.
pub struct RuleEngine;

impl RuleEngine {
    /// Apply `mv` for the side to move: reject an occupied or off-board
    /// cell and a double free-three; otherwise place the stone, remove
    /// every flanked pair, raise the mover's capture counter, report
    /// whether the move wins, XOR the hash up to date and give the turn to
    /// the opponent. `final(state).hash_ok()` holds unconditionally, so by
    /// induction the stored hash equals what
    /// [`crate::zobrist::ZobristTable::compute_full_hash`] recomputes from
    /// scratch after any sequence of applied moves.
    pub fn apply_move(state: &mut GameState, z: &ZobristTable, mv: &Move) -> (r: MoveResult)
        requires
            old(state).wf(),
            old(state).hash_ok(),
            z.is_init(),
            old(state).turn_count < i32::MAX,
        ensures
            final(state).wf(),
            final(state).hash_ok(),
            r.success == spec_legal(old(state)@, *mv),
            !r.success ==> *final(state) == *old(state) && !r.creates_win
                && r.my_captured_pieces@ == Seq::<Move>::empty(),
            r.success ==> final(state)@ == spec_apply_pos(old(state)@, *mv),
            r.success ==> r.my_captured_pieces@ == spec_captures(
                old(state)@.board.update(mv.idx(), old(state)@.player),
                mv.x as int,
                mv.y as int,
                old(state)@.player,
                8,
            ),
            r.success ==> r.creates_win == spec_check_win(
                spec_apply_pos(old(state)@, *mv).board,
                spec_apply_pos(old(state)@, *mv).caps,
                old(state)@.player,
            ),
    {
        let mut result = MoveResult::new();
        if !state.is_empty(mv.x, mv.y) {
            return result;
        }
        if Self::creates_double_free_three(state, mv, state.current_player) {
            return result;
        }
        let current_player = state.current_player;
        let player_idx = (current_player - 1) as usize;
        let old_captures = state.captures[player_idx];
        let opponent = state.get_opponent(current_player);
        let ghost b0 = state@.board;
        let ghost tto: u64 = if old(state)@.player == 2 {
            crate::zobrist::key_turn()
        } else {
            0
        };

        // Place the stone.
        let idx = (mv.x as usize) * 19 + (mv.y as usize);
        state.board.set(idx, current_player);
        let ghost placed = state@.board;
        proof {
            assert(placed == b0.update(mv.idx(), current_player));
        }

        // Find and remove the flanked pairs.
        let captured = Self::find_captures(state, mv, current_player);
        let ghost caught = captured@;
        proof {
            lemma_captures_props(placed, mv.x as int, mv.y as int, current_player, 8);
            lemma_captures_even(placed, mv.x as int, mv.y as int, current_player, 8);
        }
        let mut ci: usize = 0;
        while ci < captured.len()
            invariant
                ci <= captured.len(),
                captured@ == caught,
                caught.len() <= 16,
                state.board@ == clear_upto(placed, caught, ci as int),
                placed.len() == 361,
                state.current_player == old(state).current_player,
                state.captures@ == old(state).captures@,
                state.turn_count == old(state).turn_count,
                state.last_human_move == old(state).last_human_move,
                state.zobrist_hash == old(state).zobrist_hash,
                old(state).wf(),
                forall|j: int|
                    0 <= j < caught.len() ==> (#[trigger] caught[j]).valid() && placed[
                        caught[j].idx()
                    ] == opp_of(current_player),
                forall|j: int, m: int|
                    0 <= m < j < caught.len() ==> (#[trigger] caught[j]).idx()
                        != (#[trigger] caught[m]).idx(),
            decreases captured.len() - ci,
        {
            let c = captured[ci];
            proof {
                lemma_clear_len(placed, caught, ci as int);
            }
            state.board.set((c.x as usize) * 19 + (c.y as usize), EMPTY);
            proof {
                assert(state.board@ =~= clear_upto(placed, caught, ci as int + 1));
            }
            ci = ci + 1;
        }
        proof {
            lemma_clear_len(placed, caught, caught.len() as int);
        }

        // Raise the mover's capture counter, capped at the winning count.
        let pairs = (captured.len() / 2) as i32;
        let mut newcap = old_captures + pairs;
        if newcap > 10 {
            newcap = 10;
        }
        state.captures.set(player_idx, newcap);

        // Did this move win the game?
        proof {
            assert forall|i: int| 0 <= i < 361 implies 0 <= #[trigger] state.board@[i] <= 2 by {
                lemma_cleared_cell_ok(placed, caught, caught.len() as int, i);
            }
            assert(state.wf());
        }
        result.creates_win = Self::check_win(state, current_player);

        // Update the hash incrementally: the placed stone, the removed
        // stones, the capture-count change and the side to move.
        let mut hash = state.zobrist_hash;
        let ghost h0 = hash;
        hash = hash ^ z.piece_key(mv.x, mv.y, current_player);
        let ghost h1 = hash;
        proof {
            crate::zobrist::lemma_xor_zero(h1);
        }
        let mut hi: usize = 0;
        while hi < captured.len()
            invariant
                hi <= captured.len(),
                captured@ == caught,
                z.is_init(),
                opponent == opp_of(current_player),
                forall|j: int| 0 <= j < caught.len() ==> (#[trigger] caught[j]).valid(),
                hash == h1 ^ xor_keys(caught, opponent, hi as int),
            decreases captured.len() - hi,
        {
            let c = captured[hi];
            let k = z.piece_key(c.x, c.y, opponent);
            proof {
                crate::zobrist::lemma_xor_assoc(
                    h1,
                    xor_keys(caught, opponent, hi as int),
                    key_piece(c.idx(), opponent as int),
                );
            }
            hash = hash ^ k;
            hi = hi + 1;
        }
        hash = hash ^ z.capture_key(player_idx, old_captures);
        hash = hash ^ z.capture_key(player_idx, newcap);
        hash = hash ^ z.turn_key();
        state.zobrist_hash = hash;

        // Give the turn to the opponent.
        state.current_player = opponent;
        state.turn_count = state.turn_count + 1;
        result.success = true;
        result.my_captured_pieces = captured;

        proof {
            let p0 = old(state)@;
            let pn = spec_apply_pos(p0, *mv);
            assert(state@.board == pn.board);
            assert(state@.caps =~= pn.caps);
            assert(state@ == pn);
            // The incrementally updated hash equals the full recomputation.
            let bh = crate::zobrist::board_hash(b0, 361);
            let kp = key_piece(mv.idx(), current_player as int);
            let kt = crate::zobrist::key_turn();
            let xk = xor_keys(caught, opponent, caught.len() as int);
            let c0 = crate::zobrist::key_capture(0, crate::board::clamp_cap(p0.caps[0] as int));
            let c1 = crate::zobrist::key_capture(1, crate::board::clamp_cap(p0.caps[1] as int));
            let kn = crate::zobrist::key_capture(
                player_idx as int,
                crate::board::clamp_cap(newcap as int),
            );
            crate::zobrist::lemma_board_hash_update(b0, mv.idx(), current_player, 361);
            assert(crate::zobrist::cell_key(b0, mv.idx()) == 0);
            lemma_clear_hash(placed, caught, opponent, caught.len() as int);
            // Board hash of the final board.
            let bhp = crate::zobrist::board_hash(placed, 361);
            let bhn = crate::zobrist::board_hash(pn.board, 361);
            assert(bhp == (bh ^ 0) ^ kp);
            assert(bhn == bhp ^ xk);
            // Side-to-move key flips.
            let ttn: u64 = if pn.player == 2 {
                kt
            } else {
                0
            };
            if p0.player == 2 {
                assert(kt ^ kt == 0) by (bit_vector);
                assert(ttn == tto ^ kt);
            } else {
                assert(0u64 ^ kt == kt) by (bit_vector);
                assert(ttn == tto ^ kt);
            }
            // Old hash decomposition and the final algebra.
            assert(h0 == ((bh ^ tto) ^ c0) ^ c1);
            if current_player == 1 {
                assert(hash == ((((((bh ^ tto) ^ c0) ^ c1) ^ kp) ^ xk) ^ c0) ^ kn ^ kt);
                assert(crate::board::full_hash(pn) == ((bhn ^ ttn) ^ kn) ^ c1) by {
                    assert(pn.caps[0] == newcap && pn.caps[1] == p0.caps[1]);
                }
                assert((((((((bh ^ tto) ^ c0) ^ c1) ^ kp) ^ xk) ^ c0) ^ kn ^ kt) == (((((bh ^ 0)
                    ^ kp) ^ xk) ^ (tto ^ kt)) ^ kn) ^ c1) by (bit_vector);
            } else {
                assert(hash == ((((((bh ^ tto) ^ c0) ^ c1) ^ kp) ^ xk) ^ c1) ^ kn ^ kt);
                assert(crate::board::full_hash(pn) == ((bhn ^ ttn) ^ c0) ^ kn) by {
                    assert(pn.caps[1] == newcap && pn.caps[0] == p0.caps[0]);
                }
                assert((((((((bh ^ tto) ^ c0) ^ c1) ^ kp) ^ xk) ^ c1) ^ kn ^ kt) == (((((bh ^ 0)
                    ^ kp) ^ xk) ^ (tto ^ kt)) ^ c0) ^ kn) by (bit_vector);
            }
        }
        result
    }

    /// The stones a stone of `player` placed at `mv` captures: for each of
    /// the eight directions whose pattern PLAYER-OPP-OPP-PLAYER stands, the
    /// flanked pair.
    pub fn find_captures(state: &GameState, mv: &Move, player: i32) -> (r: Vec<Move>)
        requires
            state.wf(),
            mv.valid(),
        ensures
            r@ == spec_captures(state@.board, mv.x as int, mv.y as int, player, 8),
    {
        let ghost b = state@.board;
        let mut captures: Vec<Move> = Vec::new();
        let opponent = state.get_opponent(player);
        let mut d: usize = 0;
        while d < 8
            invariant
                state.wf(),
                b == state@.board,
                d <= 8,
                mv.valid(),
                opponent == opp_of(player),
                captures@ == spec_captures(b, mv.x as int, mv.y as int, player, d as int),
            decreases 8 - d,
        {
            let (dx, dy) = dir8(d);
            let p1x = mv.x + dx;
            let p1y = mv.y + dy;
            let p2x = mv.x + 2 * dx;
            let p2y = mv.y + 2 * dy;
            let p3x = mv.x + 3 * dx;
            let p3y = mv.y + 3 * dy;
            if state.is_valid(p1x, p1y) && state.is_valid(p2x, p2y) && state.is_valid(p3x, p3y)
                && state.get_piece(p1x, p1y) == opponent && state.get_piece(p2x, p2y) == opponent
                && state.get_piece(p3x, p3y) == player {
                captures.push(Move::new(p1x, p1y));
                captures.push(Move::new(p2x, p2y));
                proof {
                    assert(1 * (dx as int) == dx as int && 1 * (dy as int) == dy as int);
                    assert(cap_pat(b, mv.x as int, mv.y as int, d as int, player));
                    assert(captures@ =~= spec_captures(
                        b,
                        mv.x as int,
                        mv.y as int,
                        player,
                        d as int + 1,
                    ));
                }
            } else {
                proof {
                    assert(1 * (dx as int) == dx as int && 1 * (dy as int) == dy as int);
                    assert(!cap_pat(b, mv.x as int, mv.y as int, d as int, player));
                }
            }
            d = d + 1;
        }
        captures
    }

    /// Number of consecutive stones of `player` strictly after `start`
    /// along (dx, dy).
    pub fn count_in_direction(
        state: &GameState,
        start: &Move,
        dx: i32,
        dy: i32,
        player: i32,
    ) -> (n: i32)
        requires
            state.wf(),
            start.valid(),
            -1 <= dx <= 1,
            -1 <= dy <= 1,
            !(dx == 0 && dy == 0),
        ensures
            0 <= n <= 18,
            forall|k: int|
                1 <= k <= n ==> #[trigger] ray_ok(
                    start.x as int,
                    start.y as int,
                    dx as int,
                    dy as int,
                    k,
                ) && ray_cell(state@.board, start.x as int, start.y as int, dx as int, dy as int, k)
                    == player,
            !(ray_ok(start.x as int, start.y as int, dx as int, dy as int, n + 1) && ray_cell(
                state@.board,
                start.x as int,
                start.y as int,
                dx as int,
                dy as int,
                n + 1,
            ) == player),
    {
        let n = state.ray_run(start.x, start.y, dx, dy, player);
        proof {
            assert forall|k: int| 1 <= k <= n implies #[trigger] ray_ok(
                start.x as int,
                start.y as int,
                dx as int,
                dy as int,
                k,
            ) && ray_cell(state@.board, start.x as int, start.y as int, dx as int, dy as int, k)
                == player by {
                assert(ray_ok(start.x as int, start.y as int, dx as int, dy as int, k));
                assert(ray_cell(
                    state@.board,
                    start.x as int,
                    start.y as int,
                    dx as int,
                    dy as int,
                    k,
                ) == player);
            }
        }
        n
    }

    /// True when a five-in-a-row of `player` starts at `start` and runs
    /// along (dx, dy), with `start` the true beginning of the line.
    fn check_line_win_in_direction(
        state: &GameState,
        start: &Move,
        dx: i32,
        dy: i32,
        player: i32,
    ) -> (r: bool)
        requires
            state.wf(),
            start.valid(),
            -1 <= dx <= 1,
            -1 <= dy <= 1,
            !(dx == 0 && dy == 0),
        ensures
            r == spec_line_win(
                state@.board,
                start.x as int,
                start.y as int,
                dx as int,
                dy as int,
                player,
            ),
    {
        let ghost b = state@.board;
        let ghost xx = start.x as int;
        let ghost yy = start.y as int;
        let ghost dxi = dx as int;
        let ghost dyi = dy as int;
        let bx = start.x - dx;
        let by = start.y - dy;
        if state.is_valid(bx, by) && state.get_piece(bx, by) == player {
            return false;
        }
        let fwd = state.ray_run(start.x, start.y, dx, dy, player);
        proof {
            assert(1 * dxi == dxi && 1 * dyi == dyi);
            assert(2 * dxi == dxi + dxi && 2 * dyi == dyi + dyi);
            assert(3 * dxi == dxi + dxi + dxi && 3 * dyi == dyi + dyi + dyi);
            assert(4 * dxi == dxi + dxi + dxi + dxi && 4 * dyi == dyi + dyi + dyi + dyi);
            if fwd >= 4 {
                assert(ray_ok(xx, yy, dxi, dyi, 1));
                assert(ray_cell(b, xx, yy, dxi, dyi, 1) == player);
                assert(ray_ok(xx, yy, dxi, dyi, 2));
                assert(ray_cell(b, xx, yy, dxi, dyi, 2) == player);
                assert(ray_ok(xx, yy, dxi, dyi, 3));
                assert(ray_cell(b, xx, yy, dxi, dyi, 3) == player);
                assert(ray_ok(xx, yy, dxi, dyi, 4));
                assert(ray_cell(b, xx, yy, dxi, dyi, 4) == player);
            } else {
                if spec_line_win(b, xx, yy, dxi, dyi, player) {
                    if fwd == 0 {
                        assert(ray_ok(xx, yy, dxi, dyi, 1));
                        assert(ray_cell(b, xx, yy, dxi, dyi, 1) == player);
                    } else if fwd == 1 {
                        assert(ray_ok(xx, yy, dxi, dyi, 2));
                        assert(ray_cell(b, xx, yy, dxi, dyi, 2) == player);
                    } else if fwd == 2 {
                        assert(ray_ok(xx, yy, dxi, dyi, 3));
                        assert(ray_cell(b, xx, yy, dxi, dyi, 3) == player);
                    } else {
                        assert(ray_ok(xx, yy, dxi, dyi, 4));
                        assert(ray_cell(b, xx, yy, dxi, dyi, 4) == player);
                    }
                    assert(false);
                }
            }
        }
        1 + fwd >= 5
    }

    /// True when the opponent can break the winning line that starts at
    /// `line_start` by capturing a pair that touches its first five cells.
    fn can_break_line_by_capture(
        state: &GameState,
        line_start: &Move,
        dx: i32,
        dy: i32,
        winning_player: i32,
    ) -> (r: bool)
        requires
            state.wf(),
            line_start.valid(),
            -1 <= dx <= 1,
            -1 <= dy <= 1,
        ensures
            r == spec_can_break(
                state@.board,
                line_start.x as int,
                line_start.y as int,
                dx as int,
                dy as int,
                winning_player,
            ),
    {
        let ghost b = state@.board;
        let ghost xx = line_start.x as int;
        let ghost yy = line_start.y as int;
        let ghost dxi = dx as int;
        let ghost dyi = dy as int;
        let opponent = state.get_opponent(winning_player);
        let mut px = line_start.x;
        let mut py = line_start.y;
        let mut i: usize = 0;
        while i < 5
            invariant
                state.wf(),
                b == state@.board,
                i <= 5,
                -1 <= dx <= 1,
                -1 <= dy <= 1,
                dxi == dx as int,
                dyi == dy as int,
                xx == line_start.x as int,
                yy == line_start.y as int,
                in_bounds(xx, yy),
                opponent == opp_of(winning_player),
                px as int == ray_x(xx, dxi, i as int),
                py as int == ray_x(yy, dyi, i as int),
                xx - i <= px as int <= xx + i,
                yy - i <= py as int <= yy + i,
                forall|i2: int, cd2: int|
                    0 <= i2 < i && 0 <= cd2 < 8 ==> !#[trigger] break_at(
                        b,
                        ray_x(xx, dxi, i2),
                        ray_x(yy, dyi, i2),
                        cd2,
                        winning_player,
                    ),
            decreases 5 - i,
        {
            proof {
                assert(ray_x(xx, dxi, 0) == xx && ray_x(yy, dyi, 0) == yy);
            }
            let mut cd: usize = 0;
            while cd < 8
                invariant
                    state.wf(),
                    b == state@.board,
                    i < 5,
                    cd <= 8,
                    -1 <= dx <= 1,
                    -1 <= dy <= 1,
                    dxi == dx as int,
                    dyi == dy as int,
                    xx == line_start.x as int,
                    yy == line_start.y as int,
                    in_bounds(xx, yy),
                    opponent == opp_of(winning_player),
                    px as int == ray_x(xx, dxi, i as int),
                    py as int == ray_x(yy, dyi, i as int),
                    xx - i <= px as int <= xx + i,
                    yy - i <= py as int <= yy + i,
                    forall|i2: int, cd2: int|
                        0 <= i2 < i && 0 <= cd2 < 8 ==> !#[trigger] break_at(
                            b,
                            ray_x(xx, dxi, i2),
                            ray_x(yy, dyi, i2),
                            cd2,
                            winning_player,
                        ),
                    forall|cd2: int|
                        0 <= cd2 < cd ==> !#[trigger] break_at(
                            b,
                            ray_x(xx, dxi, i as int),
                            ray_x(yy, dyi, i as int),
                            cd2,
                            winning_player,
                        ),
                decreases 8 - cd,
            {
                let (cdx, cdy) = dir8(cd);
                let second_x = px + cdx;
                let second_y = py + cdy;
                let before_x = px - cdx;
                let before_y = py - cdy;
                let after_x = second_x + cdx;
                let after_y = second_y + cdy;
                proof {
                    assert(2 * (cdx as int) == cdx as int + cdx as int);
                    assert(2 * (cdy as int) == cdy as int + cdy as int);
                }
                if state.is_valid(before_x, before_y) && state.get_piece(before_x, before_y)
                    == opponent && state.is_valid(second_x, second_y) && state.get_piece(
                    second_x,
                    second_y,
                ) == winning_player && state.is_valid(after_x, after_y) && state.is_empty(
                    after_x,
                    after_y,
                ) {
                    proof {
                        assert(break_at(b, px as int, py as int, cd as int, winning_player));
                    }
                    return true;
                }
                if state.is_valid(after_x, after_y) && state.get_piece(after_x, after_y)
                    == opponent && state.is_valid(second_x, second_y) && state.get_piece(
                    second_x,
                    second_y,
                ) == winning_player && state.is_valid(before_x, before_y) && state.is_empty(
                    before_x,
                    before_y,
                ) {
                    proof {
                        assert(break_at(b, px as int, py as int, cd as int, winning_player));
                    }
                    return true;
                }
                proof {
                    assert(!break_at(b, px as int, py as int, cd as int, winning_player));
                }
                cd = cd + 1;
            }
            i = i + 1;
            proof {
                lemma_ray_step(xx, dxi, i as int - 1);
                lemma_ray_step(yy, dyi, i as int - 1);
            }
            px = px + dx;
            py = py + dy;
        }
        false
    }

    /// True when `opponent` could capture a pair somewhere on their next
    /// turn.
    fn opponent_can_capture_next_turn(state: &GameState, opponent: i32) -> (r: bool)
        requires
            state.wf(),
        ensures
            r == spec_opp_can_cap(state@.board, opponent),
    {
        let ghost b = state@.board;
        let mut i: usize = 0;
        while i < 19
            invariant
                state.wf(),
                b == state@.board,
                i <= 19,
                forall|xx: int, yy: int|
                    0 <= xx < i && 0 <= yy < 19 ==> !#[trigger] opp_cap_at(b, xx, yy, opponent),
            decreases 19 - i,
        {
            let mut j: usize = 0;
            while j < 19
                invariant
                    state.wf(),
                    b == state@.board,
                    i < 19,
                    j <= 19,
                    forall|xx: int, yy: int|
                        0 <= xx < i && 0 <= yy < 19 ==> !#[trigger] opp_cap_at(b, xx, yy, opponent),
                    forall|yy: int|
                        0 <= yy < j ==> !#[trigger] opp_cap_at(b, i as int, yy, opponent),
                decreases 19 - j,
            {
                if state.is_empty(i as i32, j as i32) {
                    let test_move = Move::new(i as i32, j as i32);
                    let captures = Self::find_captures(state, &test_move, opponent);
                    proof {
                        lemma_captures_nonempty(b, i as int, j as int, opponent, 8);
                    }
                    if captures.len() > 0 {
                        proof {
                            assert(opp_cap_at(b, i as int, j as int, opponent));
                        }
                        return true;
                    }
                }
                j = j + 1;
            }
            i = i + 1;
        }
        false
    }

    /// True when `player` has won: ten captures, or a five-in-a-row the
    /// opponent can neither break by a capture nor trump with an imminent
    /// capture win of their own.
    pub fn check_win(state: &GameState, player: i32) -> (r: bool)
        requires
            state.wf(),
            player == 1 || player == 2,
        ensures
            r == spec_check_win(state@.board, state@.caps, player),
    {
        let ghost b = state@.board;
        let opponent = state.get_opponent(player);
        if state.captures[(player - 1) as usize] >= WIN_CAPTURES {
            return true;
        }
        let mut i: usize = 0;
        while i < 19
            invariant
                state.wf(),
                b == state@.board,
                i <= 19,
                player == 1 || player == 2,
                opponent == opp_of(player),
                state@.caps[player as int - 1] < 10,
                forall|xx: int, yy: int, dd: int|
                    0 <= xx < i && 0 <= yy < 19 && 0 <= dd < 4 ==> !#[trigger] winline(
                        b,
                        xx,
                        yy,
                        dd,
                        player,
                    ),
            decreases 19 - i,
        {
            let mut j: usize = 0;
            while j < 19
                invariant
                    state.wf(),
                    b == state@.board,
                    i < 19,
                    j <= 19,
                    player == 1 || player == 2,
                    opponent == opp_of(player),
                    state@.caps[player as int - 1] < 10,
                    forall|xx: int, yy: int, dd: int|
                        0 <= xx < i && 0 <= yy < 19 && 0 <= dd < 4 ==> !#[trigger] winline(
                            b,
                            xx,
                            yy,
                            dd,
                            player,
                        ),
                    forall|yy: int, dd: int|
                        0 <= yy < j && 0 <= dd < 4 ==> !#[trigger] winline(
                            b,
                            i as int,
                            yy,
                            dd,
                            player,
                        ),
                decreases 19 - j,
            {
                if self_cell(state, i, j) == player {
                    let pos = Move::new(i as i32, j as i32);
                    let mut d: usize = 0;
                    while d < 4
                        invariant
                            state.wf(),
                            b == state@.board,
                            i < 19,
                            j < 19,
                            d <= 4,
                            player == 1 || player == 2,
                            opponent == opp_of(player),
                            state@.caps[player as int - 1] < 10,
                            pos.x == i as i32 && pos.y == j as i32,
                            cell_at(b, i as int, j as int) == player,
                            forall|xx: int, yy: int, dd: int|
                                0 <= xx < i && 0 <= yy < 19 && 0 <= dd < 4 ==> !#[trigger] winline(
                                    b,
                                    xx,
                                    yy,
                                    dd,
                                    player,
                                ),
                            forall|yy: int, dd: int|
                                0 <= yy < j && 0 <= dd < 4 ==> !#[trigger] winline(
                                    b,
                                    i as int,
                                    yy,
                                    dd,
                                    player,
                                ),
                            forall|dd: int|
                                0 <= dd < d ==> !#[trigger] winline(b, i as int, j as int, dd, player),
                        decreases 4 - d,
                    {
                        let (dx, dy) = dir4(d);
                        if Self::check_line_win_in_direction(state, &pos, dx, dy, player) {
                            if Self::can_break_line_by_capture(state, &pos, dx, dy, player) {
                                proof {
                                    assert(!winline(b, i as int, j as int, d as int, player));
                                }
                            } else {
                                proof {
                                    assert(winline(b, i as int, j as int, d as int, player));
                                }
                                if state.captures[(opponent - 1) as usize] >= 8
                                    && Self::opponent_can_capture_next_turn(state, opponent) {
                                    return false;
                                }
                                return true;
                            }
                        } else {
                            proof {
                                assert(!winline(b, i as int, j as int, d as int, player));
                            }
                        }
                        d = d + 1;
                    }
                } else {
                    proof {
                        assert forall|dd: int| 0 <= dd < 4 implies !#[trigger] winline(
                            b,
                            i as int,
                            j as int,
                            dd,
                            player,
                        ) by {}
                    }
                }
                j = j + 1;
            }
            i = i + 1;
        }
        false
    }

    /// True when four consecutive stones of `player` stand in the five-cell
    /// window `pattern`.
    fn has_four_consecutive(pattern: &Vec<i32>, player: i32) -> (r: bool)
        requires
            pattern@.len() == 5,
        ensures
            r == spec_has4(pattern@, player),
    {
        (pattern[0] == player && pattern[1] == player && pattern[2] == player && pattern[3]
            == player) || (pattern[1] == player && pattern[2] == player && pattern[3] == player
            && pattern[4] == player)
    }

    /// True when filling one empty cell of `pattern` would give `player`
    /// four in a row.
    fn can_form_threat(pattern: &Vec<i32>, player: i32) -> (r: bool)
        requires
            pattern@.len() == 5,
        ensures
            r == spec_cft(pattern@, player),
    {
        let mut i: usize = 0;
        while i < 5
            invariant
                pattern@.len() == 5,
                i <= 5,
                forall|i2: int|
                    0 <= i2 < i ==> !(pattern@[i2] == 0 && #[trigger] spec_has4(
                        pattern@.update(i2, player),
                        player,
                    )),
            decreases 5 - i,
        {
            if pattern[i] == 0 {
                let mut temp = crate::board::vec_copy_i32(pattern);
                temp.set(i, player);
                proof {
                    assert(temp@ =~= pattern@.update(i as int, player));
                }
                if Self::has_four_consecutive(&temp, player) {
                    return true;
                }
            }
            i = i + 1;
        }
        false
    }

    /// True when `window` holds one of the ten three-stone layouts and one
    /// move would turn it into four in a row.
    fn is_valid_free_three_pattern(window: &Vec<i32>, player: i32) -> (r: bool)
        requires
            window@.len() == 5,
        ensures
            r == (window_pattern_ok(window@, player) && spec_cft(window@, player)),
    {
        let e = EMPTY;
        let p = player;
        let w0 = window[0];
        let w1 = window[1];
        let w2 = window[2];
        let w3 = window[3];
        let w4 = window[4];
        let matched = (w0 == p && w1 == p && w2 == p && w3 == e && w4 == e) || (w0 == p && w1 == p
            && w2 == e && w3 == p && w4 == e) || (w0 == p && w1 == p && w2 == e && w3 == e && w4
            == p) || (w0 == p && w1 == e && w2 == p && w3 == p && w4 == e) || (w0 == p && w1 == e
            && w2 == p && w3 == e && w4 == p) || (w0 == p && w1 == e && w2 == e && w3 == p && w4
            == p) || (w0 == e && w1 == p && w2 == p && w3 == p && w4 == e) || (w0 == e && w1 == p
            && w2 == p && w3 == e && w4 == p) || (w0 == e && w1 == p && w2 == e && w3 == p && w4
            == p) || (w0 == e && w1 == e && w2 == p && w3 == p && w4 == p);
        if matched {
            Self::can_form_threat(window, player)
        } else {
            false
        }
    }

    /// True when along (dx, dy) some five-cell window containing `mv` is a
    /// free three of `player`. The stone of `player` must already stand at
    /// `mv` on the given board.
    #[verifier::rlimit(100)]
    fn is_free_three(state: &GameState, mv: &Move, dx: i32, dy: i32, player: i32) -> (r: bool)
        requires
            state.wf(),
            mv.valid(),
            cell_at(state@.board, mv.x as int, mv.y as int) == player,
            -1 <= dx <= 1,
            -1 <= dy <= 1,
            !(dx == 0 && dy == 0),
        ensures
            r == spec_free_three(
                state@.board,
                mv.x as int,
                mv.y as int,
                dx as int,
                dy as int,
                player,
            ),
    {
        let ghost b = state@.board;
        let ghost mx = mv.x as int;
        let ghost my = mv.y as int;
        let ghost dxi = dx as int;
        let ghost dyi = dy as int;
        let mut wx = mv.x - 4 * dx;
        let mut wy = mv.y - 4 * dy;
        let mut o: i32 = -4;
        proof {
            assert((-4) * dxi == 0 - (4 * dxi) && (-4) * dyi == 0 - (4 * dyi));
        }
        while o <= 0
            invariant
                state.wf(),
                b == state@.board,
                mv.valid(),
                cell_at(b, mx, my) == player,
                mx == mv.x as int,
                my == mv.y as int,
                dxi == dx as int,
                dyi == dy as int,
                -1 <= dx <= 1,
                -1 <= dy <= 1,
                -4 <= o <= 1,
                wx as int == ray_x(mx, dxi, o as int),
                wy as int == ray_x(my, dyi, o as int),
                forall|o2: int|
                    -4 <= o2 < o ==> !#[trigger] ft_window(b, mx, my, dxi, dyi, player, o2),
            decreases 1 - o,
        {
            proof {
                if dx == 1 {
                    assert(mx + (o as int) * dxi == mx + o as int) by (nonlinear_arith)
                        requires
                            dxi == 1,
                    ;
                } else if dx == -1 {
                    assert(mx + (o as int) * dxi == mx - o as int) by (nonlinear_arith)
                        requires
                            dxi == -1,
                    ;
                } else {
                    assert(mx + (o as int) * dxi == mx) by (nonlinear_arith)
                        requires
                            dxi == 0,
                    ;
                }
                if dy == 1 {
                    assert(my + (o as int) * dyi == my + o as int) by (nonlinear_arith)
                        requires
                            dyi == 1,
                    ;
                } else if dy == -1 {
                    assert(my + (o as int) * dyi == my - o as int) by (nonlinear_arith)
                        requires
                            dyi == -1,
                    ;
                } else {
                    assert(my + (o as int) * dyi == my) by (nonlinear_arith)
                        requires
                            dyi == 0,
                    ;
                }
                assert(mx - 4 <= wx as int <= mx + 4);
                assert(my - 4 <= wy as int <= my + 4);
            }
            let all_valid = state.is_valid(wx, wy) && state.is_valid(wx + dx, wy + dy)
                && state.is_valid(wx + 2 * dx, wy + 2 * dy) && state.is_valid(
                wx + 3 * dx,
                wy + 3 * dy,
            ) && state.is_valid(wx + 4 * dx, wy + 4 * dy);
            if all_valid {
                let w0 = if wx == mv.x && wy == mv.y {
                    player
                } else {
                    state.get_piece(wx, wy)
                };
                let w1 = if wx + dx == mv.x && wy + dy == mv.y {
                    player
                } else {
                    state.get_piece(wx + dx, wy + dy)
                };
                let w2 = if wx + 2 * dx == mv.x && wy + 2 * dy == mv.y {
                    player
                } else {
                    state.get_piece(wx + 2 * dx, wy + 2 * dy)
                };
                let w3 = if wx + 3 * dx == mv.x && wy + 3 * dy == mv.y {
                    player
                } else {
                    state.get_piece(wx + 3 * dx, wy + 3 * dy)
                };
                let w4 = if wx + 4 * dx == mv.x && wy + 4 * dy == mv.y {
                    player
                } else {
                    state.get_piece(wx + 4 * dx, wy + 4 * dy)
                };
                let left_free = state.is_empty(wx - dx, wy - dy);
                let right_free = state.is_empty(wx + 5 * dx, wy + 5 * dy);
                if left_free && right_free {
                    let mut window: Vec<i32> = Vec::new();
                    window.push(w0);
                    window.push(w1);
                    window.push(w2);
                    window.push(w3);
                    window.push(w4);
                    let ghost wxs = ray_x(mx, dxi, o as int);
                    let ghost wys = ray_x(my, dyi, o as int);
                    let ghost wspec = seq![
                        cell_at(b, wxs, wys),
                        cell_at(b, wxs + dxi, wys + dyi),
                        cell_at(b, wxs + 2 * dxi, wys + 2 * dyi),
                        cell_at(b, wxs + 3 * dxi, wys + 3 * dyi),
                        cell_at(b, wxs + 4 * dxi, wys + 4 * dyi),
                    ];
                    proof {
                        assert(window@ =~= wspec);
                    }
                    if Self::is_valid_free_three_pattern(&window, player) {
                        proof {
                            assert(ft_window(b, mx, my, dxi, dyi, player, o as int));
                        }
                        return true;
                    }
                    proof {
                        assert(!ft_window(b, mx, my, dxi, dyi, player, o as int));
                    }
                } else {
                    proof {
                        assert(!ft_window(b, mx, my, dxi, dyi, player, o as int));
                    }
                }
            } else {
                proof {
                    assert(!ft_window(b, mx, my, dxi, dyi, player, o as int));
                }
            }
            o = o + 1;
            proof {
                lemma_ray_step(mx, dxi, o as int - 1);
                lemma_ray_step(my, dyi, o as int - 1);
            }
            wx = wx + dx;
            wy = wy + dy;
        }
        false
    }

    /// True when placing a stone of `player` at `mv` would complete free
    /// threes along two or more directions at once.
    pub fn creates_double_free_three(state: &GameState, mv: &Move, player: i32) -> (r: bool)
        requires
            state.wf(),
            mv.valid(),
            player == 1 || player == 2,
        ensures
            r == spec_dft(state@.board, *mv, player),
    {
        let mut temp = state.clone();
        temp.board.set((mv.x as usize) * 19 + (mv.y as usize), player);
        let ghost tb = state@.board.update(mv.idx(), player);
        proof {
            assert(temp@.board == tb);
        }
        let mut count: i32 = 0;
        let mut d: usize = 0;
        while d < 4
            invariant
                temp.wf(),
                temp@.board == tb,
                mv.valid(),
                player == 1 || player == 2,
                cell_at(tb, mv.x as int, mv.y as int) == player,
                d <= 4,
                0 <= count <= d,
                count == ft_count(tb, mv.x as int, mv.y as int, player, d as int),
            decreases 4 - d,
        {
            let (dx, dy) = dir4(d);
            if Self::is_free_three(&temp, mv, dx, dy, player) {
                count = count + 1;
            }
            d = d + 1;
        }
        count >= 2
    }

    /// True when the rules accept `mv` for the side to move: an empty cell
    /// on the board, and no double free-three.
    pub fn is_legal_move(state: &GameState, mv: &Move) -> (r: bool)
        requires
            state.wf(),
        ensures
            r == spec_legal(state@, *mv),
    {
        if !state.is_empty(mv.x, mv.y) {
            return false;
        }
        !Self::creates_double_free_three(state, mv, state.current_player)
    }
}

/// Clearing a listed cell really empties it, whatever else is cleared.
proof fn lemma_clear_hits(b: Seq<i32>, cells: Seq<Move>, n: int, i: int)
    requires
        forall|j: int| 0 <= j < n ==> (#[trigger] cells[j]).valid(),
        b.len() == 361,
        0 <= i < 361,
        exists|j: int| 0 <= j < n && (#[trigger] cells[j]).idx() == i,
    ensures
        clear_upto(b, cells, n)[i] == 0,
    decreases n,
{
    let j = choose|j: int| 0 <= j < n && (#[trigger] cells[j]).idx() == i;
    lemma_clear_len(b, cells, n - 1);
    if j == n - 1 {
    } else {
        lemma_clear_hits(b, cells, n - 1, i);
        if cells[n - 1].idx() == i {
        }
    }
}

/// Every flanked pair of a matching direction appears in the capture list.
proof fn lemma_captures_complete(b: Seq<i32>, mx: int, my: int, player: i32, d0: int, d: int)
    requires
        0 <= d0 < d <= 8,
        cap_pat(b, mx, my, d0, player),
    ensures
        exists|n: int|
            0 <= n < spec_captures(b, mx, my, player, d).len() && (#[trigger] spec_captures(
                b,
                mx,
                my,
                player,
                d,
            )[n]) == cap_cell(mx, my, d0, 1),
        exists|n: int|
            0 <= n < spec_captures(b, mx, my, player, d).len() && (#[trigger] spec_captures(
                b,
                mx,
                my,
                player,
                d,
            )[n]) == cap_cell(mx, my, d0, 2),
    decreases d,
{
    let prev = spec_captures(b, mx, my, player, d - 1);
    let cur = spec_captures(b, mx, my, player, d);
    if d0 == d - 1 {
        assert(cur == prev.push(cap_cell(mx, my, d0, 1)).push(cap_cell(mx, my, d0, 2)));
        assert(cur[prev.len() as int] == cap_cell(mx, my, d0, 1));
        assert(cur[prev.len() as int + 1] == cap_cell(mx, my, d0, 2));
    } else {
        lemma_captures_complete(b, mx, my, player, d0, d - 1);
        let m1 = choose|n: int|
            0 <= n < prev.len() && #[trigger] prev[n] == cap_cell(mx, my, d0, 1);
        let m2 = choose|n: int|
            0 <= n < prev.len() && #[trigger] prev[n] == cap_cell(mx, my, d0, 2);
        assert(cur[m1] == cap_cell(mx, my, d0, 1));
        assert(cur[m2] == cap_cell(mx, my, d0, 2));
    }
}

/// With exactly one matching direction, the capture list holds exactly
/// that direction's pair.
proof fn lemma_captures_single(b: Seq<i32>, mx: int, my: int, player: i32, d0: int, d: int)
    requires
        0 <= d0 < 8,
        0 <= d <= 8,
        cap_pat(b, mx, my, d0, player),
        forall|d2: int| 0 <= d2 < 8 && d2 != d0 ==> !#[trigger] cap_pat(b, mx, my, d2, player),
    ensures
        spec_captures(b, mx, my, player, d).len() == if d0 < d {
            2int
        } else {
            0int
        },
    decreases d,
{
    if d > 0 {
        lemma_captures_single(b, mx, my, player, d0, d - 1);
    }
}

/// The pair-capture law: when the rules accept a move whose placement
/// completes the pattern PLAYER-OPP-OPP-PLAYER along a direction, applying
/// it removes both flanked opposing stones, and when that is the only
/// matching direction the mover's capture counter rises by exactly one.
pub proof fn lemma_capture_applies(p: Position, mv: Move, d: int)
    requires
        pos_ok(p),
        spec_legal(p, mv),
        0 <= d < 8,
        cap_pat(p.board.update(mv.idx(), p.player), mv.x as int, mv.y as int, d, p.player),
    ensures
        cell_at(
            spec_apply_pos(p, mv).board,
            mv.x as int + dx8(d),
            mv.y as int + dy8(d),
        ) == 0,
        cell_at(
            spec_apply_pos(p, mv).board,
            mv.x as int + 2 * dx8(d),
            mv.y as int + 2 * dy8(d),
        ) == 0,
        (forall|d2: int| 0 <= d2 < 8 && d2 != d ==> !#[trigger] cap_pat(
            p.board.update(mv.idx(), p.player),
            mv.x as int,
            mv.y as int,
            d2,
            p.player,
        )) ==> spec_apply_pos(p, mv).caps[p.player as int - 1] == clamp_min10(
            p.caps[p.player as int - 1] + 1,
        ),
{
    let placed = p.board.update(mv.idx(), p.player);
    let caught = spec_captures(placed, mv.x as int, mv.y as int, p.player, 8);
    let mx = mv.x as int;
    let my = mv.y as int;
    lemma_captures_props(placed, mx, my, p.player, 8);
    lemma_captures_complete(placed, mx, my, p.player, d, 8);
    let c1 = cap_cell(mx, my, d, 1);
    let c2 = cap_cell(mx, my, d, 2);
    assert(1 * dx8(d) == dx8(d) && 1 * dy8(d) == dy8(d));
    assert(c1.x as int == mx + dx8(d) && c1.y as int == my + dy8(d));
    assert(c2.x as int == mx + 2 * dx8(d) && c2.y as int == my + 2 * dy8(d));
    let n1 = choose|n: int| 0 <= n < caught.len() && #[trigger] caught[n] == c1;
    let n2 = choose|n: int| 0 <= n < caught.len() && #[trigger] caught[n] == c2;
    lemma_clear_hits(placed, caught, caught.len() as int, c1.idx());
    lemma_clear_hits(placed, caught, caught.len() as int, c2.idx());
    if forall|d2: int|
        0 <= d2 < 8 && d2 != d ==> !#[trigger] cap_pat(placed, mx, my, d2, p.player) {
        lemma_captures_single(placed, mx, my, p.player, d, 8);
    }
}

/// Applying a legal move to a well-formed position yields a well-formed
/// position one turn later, with the opponent to move.
pub proof fn lemma_apply_pos_ok(p: Position, mv: Move)
    requires
        pos_ok(p),
        spec_legal(p, mv),
        p.turns < i32::MAX,
    ensures
        pos_ok(spec_apply_pos(p, mv)),
        spec_apply_pos(p, mv).turns == p.turns + 1,
        spec_apply_pos(p, mv).player == opp_of(p.player),
{
    let placed = p.board.update(mv.idx(), p.player);
    let caught = spec_captures(placed, mv.x as int, mv.y as int, p.player, 8);
    let q = spec_apply_pos(p, mv);
    lemma_captures_props(placed, mv.x as int, mv.y as int, p.player, 8);
    lemma_captures_even(placed, mv.x as int, mv.y as int, p.player, 8);
    lemma_clear_len(placed, caught, caught.len() as int);
    assert forall|i: int| 0 <= i < 361 implies 0 <= #[trigger] q.board[i] <= 2 by {
        lemma_cleared_cell_ok(placed, caught, caught.len() as int, i);
    }
}

/// With no free three along any of the first `d` directions, the count is
/// zero.
proof fn lemma_ft_count_zero(b: Seq<i32>, mx: int, my: int, player: i32, d: int)
    requires
        forall|d2: int|
            0 <= d2 < d ==> !spec_free_three(b, mx, my, dx4(d2), dy4(d2), player),
    ensures
        ft_count(b, mx, my, player, d) == 0,
    decreases d,
{
    if d > 0 {
        lemma_ft_count_zero(b, mx, my, player, d - 1);
    }
}

/// On an empty board the centre move is legal: the cell is free and a
/// single stone cannot complete any free three, let alone two.
pub proof fn lemma_empty_board_center_legal(p: Position)
    requires
        pos_ok(p),
        forall|i: int| 0 <= i < 361 ==> #[trigger] p.board[i] == 0,
    ensures
        spec_legal(p, Move { x: 9i32, y: 9i32 }),
{
    let mv = Move { x: 9i32, y: 9i32 };
    let b2 = p.board.update(mv.idx(), p.player);
    assert forall|i: int| 0 <= i < 361 && #[trigger] b2[i] == p.player implies i == 180 by {}
    assert forall|d: int, o: int| 0 <= d < 4 && -4 <= o <= 0 implies !ft_window(
        b2,
        9,
        9,
        dx4(d),
        dy4(d),
        p.player,
        o,
    ) by {
        if ft_window(b2, 9, 9, dx4(d), dy4(d), p.player, o) {
            // Every three-stone layout names at least two window cells
            // holding the player's stone; with one stone on the board both
            // would have to be the centre cell, forcing the direction to
            // be the null vector.
            let dx = dx4(d);
            let dy = dy4(d);
            let wx = ray_x(9, dx, o);
            let wy = ray_x(9, dy, o);
            assert(b2[cidx(wx, wy)] == p.player ==> cidx(wx, wy) == 180);
            assert(b2[cidx(wx + dx, wy + dy)] == p.player ==> cidx(wx + dx, wy + dy) == 180);
            assert(b2[cidx(wx + 2 * dx, wy + 2 * dy)] == p.player ==> cidx(
                wx + 2 * dx,
                wy + 2 * dy,
            ) == 180);
            assert(b2[cidx(wx + 3 * dx, wy + 3 * dy)] == p.player ==> cidx(
                wx + 3 * dx,
                wy + 3 * dy,
            ) == 180);
            assert(b2[cidx(wx + 4 * dx, wy + 4 * dy)] == p.player ==> cidx(
                wx + 4 * dx,
                wy + 4 * dy,
            ) == 180);
            assert(false);
        }
    }
    assert forall|d2: int| 0 <= d2 < 4 implies !spec_free_three(
        b2,
        9,
        9,
        dx4(d2),
        dy4(d2),
        p.player,
    ) by {
        if spec_free_three(b2, 9, 9, dx4(d2), dy4(d2), p.player) {
            let o = choose|o: int|
                -4 <= o <= 0 && #[trigger] ft_window(b2, 9, 9, dx4(d2), dy4(d2), p.player, o);
            assert(false);
        }
    }
    lemma_ft_count_zero(b2, 9, 9, p.player, 4);
    assert(cell_at(p.board, 9, 9) == 0);
}

/// The smaller of `c` and the winning capture count.
pub open spec fn clamp_min10(c: int) -> int {
    if c > 10 {
        10
    } else {
        c
    }
}

/// The cell value at (i, j); a small reading helper for the scans above.
fn self_cell(state: &GameState, i: usize, j: usize) -> (r: i32)
    requires
        state.wf(),
        i < 19,
        j < 19,
    ensures
        r == cell_at(state@.board, i as int, j as int),
{
    state.board[i * 19 + j]
}

} // verus!
