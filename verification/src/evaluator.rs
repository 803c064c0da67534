//! Static evaluation: pattern recognition over runs of two to five stones,
//! threat and fork bonuses, and capture-proximity scoring. A pure function
//! of a position — no search and no shared mutable state.

use vstd::prelude::*;

use crate::board::GameState;
use crate::board::Move;
use crate::board::Position;
use crate::board::cell_at;
use crate::board::dir4;
use crate::board::dx4;
use crate::board::dy4;
use crate::board::in_bounds;
use crate::board::lemma_divmod19;
use crate::board::lemma_ray_step;
use crate::board::ray_cell;
use crate::board::ray_ok;
use crate::board::ray_x;
use crate::board::spec_game_over;
use crate::rules::opp_of;

verus! {

/// Score of a proven win.
pub const WIN: i32 = 600000;

/// Score of an open four (both ends free).
pub const FOUR_OPEN: i32 = 50000;

/// Score of a closed four (one end free).
pub const FOUR_HALF: i32 = 25000;

/// Score of an open three.
pub const THREE_OPEN: i32 = 10000;

/// Score of a closed three.
pub const THREE_HALF: i32 = 1500;

/// Score of an open two.
pub const TWO_OPEN: i32 = 100;

/// What one six-cell scan along a direction found: the consecutive run
/// from the anchor, the stones within the scanned span (one gap allowed),
/// the free ends, and how far the span reaches.
#[derive(Clone, Copy, Debug, PartialEq, Eq, Structural)]
pub struct PatternInfo {
    pub consecutive_count: i32,
    pub total_pieces: i32,
    pub free_ends: i32,
    pub has_gaps: bool,
    pub total_span: i32,
    pub gap_count: i32,
}

/// A capture available to the mover: where to play and which stones would
/// leave the board.
#[derive(Clone)]
pub struct CaptureOpportunity {
    pub position: Move,
    pub captured: Vec<Move>,
}

/// Number of cells, out of the first six along (dx, dy) from (x, y), that
/// lie on the board before the first one off it.
pub open spec fn scan_len(x: int, y: int, dx: int, dy: int, i: int) -> int
    decreases 6 - i,
{
    if i >= 6 {
        6
    } else if !ray_ok(x, y, dx, dy, i) {
        i
    } else {
        scan_len(x, y, dx, dy, i + 1)
    }
}

/// Length of the consecutive run of `p` stones from the anchor within the
/// first `l` scanned cells.
pub open spec fn cc_len(b: Seq<i32>, x: int, y: int, dx: int, dy: int, p: i32, i: int, l: int) -> int
    decreases l - i,
{
    if i >= l {
        l
    } else if ray_cell(b, x, y, dx, dy, i) != p {
        i
    } else {
        cc_len(b, x, y, dx, dy, p, i + 1, l)
    }
}

/// Walk the scanned cells until the first opposing stone, accumulating the
/// stone count, the number of gaps after the first stone, and the last
/// stone's offset.
pub open spec fn gap_scan(
    b: Seq<i32>,
    x: int,
    y: int,
    dx: int,
    dy: int,
    p: i32,
    l: int,
    i: int,
    total: int,
    gaps: int,
    last: int,
) -> (int, int, int)
    decreases l - i,
{
    if i >= l {
        (total, gaps, last)
    } else {
        let c = ray_cell(b, x, y, dx, dy, i);
        if c == p {
            gap_scan(b, x, y, dx, dy, p, l, i + 1, total + 1, gaps, i)
        } else if c != 0 {
            (total, gaps, last)
        } else if total > 0 {
            gap_scan(b, x, y, dx, dy, p, l, i + 1, total, gaps + 1, last)
        } else {
            gap_scan(b, x, y, dx, dy, p, l, i + 1, total, gaps, last)
        }
    }
}

/// The pattern a six-cell scan from (x, y) along (dx, dy) derives for `p`.
pub open spec fn spec_analyze_line(
    b: Seq<i32>,
    x: int,
    y: int,
    dx: int,
    dy: int,
    p: i32,
) -> PatternInfo {
    let l = scan_len(x, y, dx, dy, 0);
    let cc = cc_len(b, x, y, dx, dy, p, 0, l);
    if cc >= 5 {
        PatternInfo {
            consecutive_count: cc as i32,
            total_pieces: cc as i32,
            free_ends: 2,
            has_gaps: false,
            total_span: cc as i32,
            gap_count: 0,
        }
    } else {
        let tgl = gap_scan(b, x, y, dx, dy, p, l, 0, 0, 0, -1);
        let total = tgl.0;
        let gaps = tgl.1;
        let span = tgl.2 + 1;
        let back_free = in_bounds(x - dx, y - dy) && cell_at(b, x - dx, y - dy) == 0;
        let front_free = ray_ok(x, y, dx, dy, span) && ray_cell(b, x, y, dx, dy, span) == 0;
        let fe = (if back_free {
            1int
        } else {
            0int
        }) + (if front_free {
            1int
        } else {
            0int
        });
        PatternInfo {
            consecutive_count: cc as i32,
            total_pieces: total as i32,
            free_ends: fe as i32,
            has_gaps: gaps > 0 && total > cc,
            total_span: span as i32,
            gap_count: gaps as i32,
        }
    }
}

/// (x, y) is the start of a line of `p` along (dx, dy): the preceding cell
/// is off the board or not the player's.
pub open spec fn spec_is_line_start(
    b: Seq<i32>,
    x: int,
    y: int,
    dx: int,
    dy: int,
    p: i32,
) -> bool {
    !(in_bounds(x - dx, y - dy) && cell_at(b, x - dx, y - dy) == p)
}

/// The point value of a pattern. Shapes that cannot reach five score zero.
pub open spec fn spec_pattern_score(pat: PatternInfo) -> i32 {
    if pat.consecutive_count >= 5 {
        600000i32
    } else if pat.total_pieces >= 5 && pat.has_gaps && pat.free_ends >= 1 {
        600000i32
    } else if pat.total_pieces == 4 && pat.consecutive_count == 4 && pat.free_ends == 2 {
        50000i32
    } else if pat.total_pieces == 4 && pat.consecutive_count == 4 && pat.free_ends == 1 {
        25000i32
    } else if pat.total_pieces == 4 && pat.consecutive_count != 4 && pat.has_gaps && pat.free_ends
        == 2 {
        50000i32
    } else if pat.total_pieces == 4 && pat.consecutive_count != 4 && pat.has_gaps && pat.free_ends
        == 1 {
        25000i32
    } else if pat.total_pieces == 3 && pat.consecutive_count == 3 && pat.free_ends == 2 {
        10000i32
    } else if pat.total_pieces == 3 && pat.consecutive_count == 3 && pat.free_ends == 1 {
        1500i32
    } else if pat.total_pieces == 3 && pat.consecutive_count != 3 && pat.has_gaps && pat.free_ends
        == 2 {
        10000i32
    } else if pat.total_pieces == 3 && pat.consecutive_count != 3 && pat.has_gaps && pat.free_ends
        == 1 {
        1500i32
    } else if pat.total_pieces == 2 && pat.free_ends == 2 {
        100i32
    } else {
        0i32
    }
}

/// The pattern found from line start (x, y) along direction d matches the
/// requested shape: `cc` consecutive stones (or a gapped four when `cc` is
/// four) with `fe` free ends.
pub open spec fn pattern_hit(
    b: Seq<i32>,
    p: i32,
    cc: i32,
    fe: i32,
    x: int,
    y: int,
    d: int,
) -> bool {
    let pat = spec_analyze_line(b, x, y, dx4(d), dy4(d), p);
    &&& cell_at(b, x, y) == p
    &&& spec_is_line_start(b, x, y, dx4(d), dy4(d), p)
    &&& if cc == 4 {
        (pat.consecutive_count == 4 && pat.free_ends == fe) || (pat.total_pieces == 4
            && pat.has_gaps && pat.free_ends == fe)
    } else {
        pat.consecutive_count == cc && pat.free_ends == fe
    }
}

/// Number of the first `d` directions in which the pattern from cell
/// (x, y) matches the requested shape.
pub open spec fn count_dirs(b: Seq<i32>, p: i32, cc: i32, fe: i32, x: int, y: int, d: int) -> int
    decreases d,
{
    if d <= 0 {
        0
    } else {
        count_dirs(b, p, cc, fe, x, y, d - 1) + if pattern_hit(b, p, cc, fe, x, y, d - 1) {
            1int
        } else {
            0int
        }
    }
}

/// Number of matching patterns whose line start lies among the first `n`
/// cells.
pub open spec fn count_cells(b: Seq<i32>, p: i32, cc: i32, fe: i32, n: int) -> int
    decreases n,
{
    if n <= 0 {
        0
    } else {
        count_cells(b, p, cc, fe, n - 1) + count_dirs(b, p, cc, fe, (n - 1) / 19, (n - 1) % 19, 4)
    }
}

/// Number of matching patterns of `p` on the whole board.
pub open spec fn spec_count_pattern(b: Seq<i32>, p: i32, cc: i32, fe: i32) -> int {
    count_cells(b, p, cc, fe, 361)
}

/// Pattern score contributed by direction d from cell (x, y): the value of
/// the pattern standing there if (x, y) is an occupied line start.
pub open spec fn score_dir(b: Seq<i32>, p: i32, x: int, y: int, d: int) -> int {
    if cell_at(b, x, y) == p && spec_is_line_start(b, x, y, dx4(d), dy4(d), p) {
        spec_pattern_score(spec_analyze_line(b, x, y, dx4(d), dy4(d), p)) as int
    } else {
        0
    }
}

/// Pattern score of cell (x, y) over the first `d` directions.
pub open spec fn score_dirs(b: Seq<i32>, p: i32, x: int, y: int, d: int) -> int
    decreases d,
{
    if d <= 0 {
        0
    } else {
        score_dirs(b, p, x, y, d - 1) + score_dir(b, p, x, y, d - 1)
    }
}

/// Pattern score of the first `n` cells.
pub open spec fn score_cells(b: Seq<i32>, p: i32, n: int) -> int
    decreases n,
{
    if n <= 0 {
        0
    } else {
        score_cells(b, p, n - 1) + score_dirs(b, p, (n - 1) / 19, (n - 1) % 19, 4)
    }
}

/// Score of the player's own capture count: a steep ramp near the
/// ten-capture win, linear below.
pub open spec fn cap_score_self(c: int) -> int {
    if c >= 9 {
        300000
    } else if c >= 8 {
        200000
    } else if c >= 6 {
        15000
    } else if c >= 4 {
        6000
    } else {
        c * 500
    }
}

/// Score of the opponent's capture count, weighted more heavily.
pub open spec fn cap_score_opp(c: int) -> int {
    if c >= 9 {
        400000
    } else if c >= 8 {
        300000
    } else if c >= 6 {
        20000
    } else if c >= 4 {
        8000
    } else {
        c * 800
    }
}

/// Pattern score plus both capture-count ramps for `p`.
pub open spec fn spec_analyze_position(b: Seq<i32>, caps: Seq<i32>, p: i32) -> int {
    score_cells(b, p, 361) + cap_score_self(caps[p as int - 1] as int) - cap_score_opp(
        caps[opp_of(p) as int - 1] as int,
    )
}

/// `p` holds a four, or two open threes at once.
pub open spec fn spec_wthreats(b: Seq<i32>, p: i32) -> bool {
    ||| spec_count_pattern(b, p, 4, 2) > 0
    ||| spec_count_pattern(b, p, 4, 1) > 0
    ||| spec_count_pattern(b, p, 3, 2) >= 2
}

/// The flat bonuses for immediate threats of `p` and of the opponent.
pub open spec fn spec_threat_score(b: Seq<i32>, p: i32) -> int {
    let o = opp_of(p);
    (if spec_wthreats(b, p) {
        90000int
    } else {
        0int
    }) - (if spec_wthreats(b, o) {
        105000int
    } else {
        0int
    }) - (if spec_count_pattern(b, o, 4, 2) > 0 {
        80000int
    } else {
        0int
    }) - (if spec_count_pattern(b, o, 4, 1) > 0 {
        60000int
    } else {
        0int
    }) + (if spec_count_pattern(b, p, 4, 2) > 0 {
        70000int
    } else {
        0int
    }) + (if spec_count_pattern(b, p, 4, 1) > 0 {
        40000int
    } else {
        0int
    })
}

/// The full static score of the position from `p`'s side: threat bonuses
/// plus pattern and capture scoring.
pub open spec fn spec_eval_player(b: Seq<i32>, caps: Seq<i32>, p: i32) -> int {
    spec_threat_score(b, p) + spec_analyze_position(b, caps, p)
}

/// The static score of a position for the searching side (player 2),
/// adjusted by mate distance on finished games so that faster wins score
/// strictly higher.
pub open spec fn spec_evaluate(pos: Position, md: int, cd: int) -> int {
    let m = cd;
    if spec_game_over(pos) {
        if pos.caps[1] >= 10 {
            600000 - m
        } else if pos.caps[0] >= 10 {
            -600000 + m
        } else if 3 - pos.player == 2 {
            600000 - m
        } else {
            -600000 + m
        }
    } else {
        spec_eval_player(pos.board, pos.caps, 2) - spec_eval_player(pos.board, pos.caps, 1)
    }
}

/// Directional match counts lie between 0 and the direction count.
proof fn lemma_count_dirs_bounds(b: Seq<i32>, p: i32, cc: i32, fe: i32, x: int, y: int, d: int)
    ensures
        0 <= count_dirs(b, p, cc, fe, x, y, d),
        d >= 0 ==> count_dirs(b, p, cc, fe, x, y, d) <= d,
    decreases d,
{
    if d > 0 {
        lemma_count_dirs_bounds(b, p, cc, fe, x, y, d - 1);
    }
}

/// Whole-board match counts lie between 0 and four per cell.
proof fn lemma_count_cells_bounds(b: Seq<i32>, p: i32, cc: i32, fe: i32, n: int)
    ensures
        0 <= count_cells(b, p, cc, fe, n),
        n >= 0 ==> count_cells(b, p, cc, fe, n) <= 4 * n,
    decreases n,
{
    if n > 0 {
        lemma_count_cells_bounds(b, p, cc, fe, n - 1);
        lemma_count_dirs_bounds(b, p, cc, fe, (n - 1) / 19, (n - 1) % 19, 4);
    }
}

/// Per-cell pattern scores lie between 0 and the win score per direction.
proof fn lemma_score_dirs_bounds(b: Seq<i32>, p: i32, x: int, y: int, d: int)
    ensures
        0 <= score_dirs(b, p, x, y, d),
        d >= 0 ==> score_dirs(b, p, x, y, d) <= 600000 * d,
    decreases d,
{
    if d > 0 {
        lemma_score_dirs_bounds(b, p, x, y, d - 1);
    }
}

/// Whole-board pattern scores lie between 0 and four win scores per cell.
proof fn lemma_score_cells_bounds(b: Seq<i32>, p: i32, n: int)
    ensures
        0 <= score_cells(b, p, n),
        n >= 0 ==> score_cells(b, p, n) <= 2400000 * n,
    decreases n,
{
    if n > 0 {
        lemma_score_cells_bounds(b, p, n - 1);
        lemma_score_dirs_bounds(b, p, (n - 1) / 19, (n - 1) % 19, 4);
    }
}

/// The static score of a well-formed position is bounded, whatever the
/// board holds.
pub proof fn lemma_evaluate_bounds(pos: Position, md: int, cd: int)
    requires
        crate::board::pos_ok(pos),
        0 <= cd <= md <= 64,
    ensures
        -900000000 <= spec_evaluate(pos, md, cd) <= 900000000,
{
    if !spec_game_over(pos) {
        lemma_score_cells_bounds(pos.board, 2, 361);
        lemma_score_cells_bounds(pos.board, 1, 361);
    }
}

/// The evaluator. All its operations are associated functions; it holds no
/// state of its own.
pub struct Evaluator;

impl Evaluator {
    /// True when (x, y) starts a line of `player` along (dx, dy).
    pub fn is_line_start(
        state: &GameState,
        x: i32,
        y: i32,
        dx: i32,
        dy: i32,
        player: i32,
    ) -> (r: bool)
        requires
            state.wf(),
            in_bounds(x as int, y as int),
            -1 <= dx <= 1,
            -1 <= dy <= 1,
        ensures
            r == spec_is_line_start(
                state@.board,
                x as int,
                y as int,
                dx as int,
                dy as int,
                player,
            ),
    {
        let prev_x = x - dx;
        let prev_y = y - dy;
        !state.is_valid(prev_x, prev_y) || state.get_piece(prev_x, prev_y) != player
    }

    /// Scan up to six cells from (x, y) along (dx, dy) and derive the
    /// pattern standing there for `player`.
    pub fn analyze_line(
        state: &GameState,
        x: i32,
        y: i32,
        dx: i32,
        dy: i32,
        player: i32,
    ) -> (r: PatternInfo)
        requires
            state.wf(),
            in_bounds(x as int, y as int),
            -1 <= dx <= 1,
            -1 <= dy <= 1,
            !(dx == 0 && dy == 0),
        ensures
            r == spec_analyze_line(
                state@.board,
                x as int,
                y as int,
                dx as int,
                dy as int,
                player,
            ),
    {
        let ghost b = state@.board;
        let ghost xx = x as int;
        let ghost yy = y as int;
        let ghost dxi = dx as int;
        let ghost dyi = dy as int;

        // How far does the board reach, and what stands there?
        let mut sequence: Vec<i32> = Vec::new();
        let mut cx = x;
        let mut cy = y;
        let mut i: usize = 0;
        while i < 6 && cx >= 0 && cx < 19 && cy >= 0 && cy < 19
            invariant
                state.wf(),
                b == state@.board,
                in_bounds(xx, yy),
                xx == x as int,
                yy == y as int,
                dxi == dx as int,
                dyi == dy as int,
                -1 <= dx <= 1,
                -1 <= dy <= 1,
                i <= 6,
                xx - i <= cx as int <= xx + i,
                yy - i <= cy as int <= yy + i,
                cx as int == ray_x(xx, dxi, i as int),
                cy as int == ray_x(yy, dyi, i as int),
                sequence@.len() == i,
                forall|j: int| 0 <= j < i ==> #[trigger] sequence@[j] == ray_cell(b, xx, yy, dxi, dyi, j),
                forall|j: int| 0 <= j < i ==> ray_ok(xx, yy, dxi, dyi, j),
                scan_len(xx, yy, dxi, dyi, i as int) == scan_len(xx, yy, dxi, dyi, 0),
            decreases 6 - i,
        {
            sequence.push(state.board[(cx as usize) * 19 + (cy as usize)]);
            i = i + 1;
            proof {
                lemma_ray_step(xx, dxi, i as int - 1);
                lemma_ray_step(yy, dyi, i as int - 1);
            }
            cx = cx + dx;
            cy = cy + dy;
        }
        let actual = i;
        proof {
            assert(scan_len(xx, yy, dxi, dyi, 0) == actual as int);
        }
        let ghost l = scan_len(xx, yy, dxi, dyi, 0);

        // Consecutive run from the anchor.
        let mut cc: usize = 0;
        while cc < actual && sequence[cc] == player
            invariant
                sequence@.len() == actual,
                cc <= actual,
                actual <= 6,
                forall|j: int|
                    0 <= j < actual ==> #[trigger] sequence@[j] == ray_cell(b, xx, yy, dxi, dyi, j),
                l == actual as int,
                cc_len(b, xx, yy, dxi, dyi, player, cc as int, l) == cc_len(
                    b,
                    xx,
                    yy,
                    dxi,
                    dyi,
                    player,
                    0,
                    l,
                ),
            decreases actual - cc,
        {
            cc = cc + 1;
        }
        proof {
            assert(cc_len(b, xx, yy, dxi, dyi, player, 0, l) == cc as int);
        }

        if cc >= 5 {
            return PatternInfo {
                consecutive_count: cc as i32,
                total_pieces: cc as i32,
                free_ends: 2,
                has_gaps: false,
                total_span: cc as i32,
                gap_count: 0,
            };
        }

        // Count stones and gaps up to the first opposing stone.
        let mut total: i32 = 0;
        let mut gaps: i32 = 0;
        let mut last: i32 = -1;
        let mut gi: usize = 0;
        while gi < actual
            invariant_except_break
                gi <= actual,
                0 <= total <= gi,
                0 <= gaps <= gi,
                -1 <= last < gi,
                gap_scan(
                    b,
                    xx,
                    yy,
                    dxi,
                    dyi,
                    player,
                    l,
                    gi as int,
                    total as int,
                    gaps as int,
                    last as int,
                ) == gap_scan(b, xx, yy, dxi, dyi, player, l, 0, 0, 0, -1),
            invariant
                sequence@.len() == actual,
                actual <= 6,
                0 <= total <= 6,
                0 <= gaps <= 6,
                -1 <= last < 6,
                forall|j: int|
                    0 <= j < actual ==> #[trigger] sequence@[j] == ray_cell(b, xx, yy, dxi, dyi, j),
                l == actual as int,
            ensures
                (total as int, gaps as int, last as int) == gap_scan(
                    b,
                    xx,
                    yy,
                    dxi,
                    dyi,
                    player,
                    l,
                    0,
                    0,
                    0,
                    -1,
                ),
            decreases actual - gi,
        {
            let c = sequence[gi];
            if c == player {
                total = total + 1;
                last = gi as i32;
            } else if c != 0 {
                break;
            } else if total > 0 {
                gaps = gaps + 1;
            }
            gi = gi + 1;
        }

        let total_span = last + 1;
        let has_gaps = gaps > 0 && total > cc as i32;

        // Free ends: the cell before the anchor and the cell after the span.
        let mut free_ends: i32 = 0;
        let back_x = x - dx;
        let back_y = y - dy;
        if state.is_valid(back_x, back_y) && state.is_empty(back_x, back_y) {
            free_ends = free_ends + 1;
        }
        let front_x = x + total_span * dx;
        let front_y = y + total_span * dy;
        proof {
            assert(0 <= total_span <= 6);
            assert(xx + (total_span as int) * dxi == ray_x(xx, dxi, total_span as int));
            assert(-6 <= (total_span as int) * dxi <= 6) by (nonlinear_arith)
                requires
                    0 <= total_span as int <= 6,
                    -1 <= dxi <= 1,
            ;
            assert(-6 <= (total_span as int) * dyi <= 6) by (nonlinear_arith)
                requires
                    0 <= total_span as int <= 6,
                    -1 <= dyi <= 1,
            ;
        }
        if state.is_valid(front_x, front_y) && state.is_empty(front_x, front_y) {
            free_ends = free_ends + 1;
        }

        PatternInfo {
            consecutive_count: cc as i32,
            total_pieces: total,
            free_ends,
            has_gaps,
            total_span,
            gap_count: gaps,
        }
    }

    /// The point value of a pattern.
    pub fn pattern_to_score(pattern: &PatternInfo) -> (r: i32)
        ensures
            r == spec_pattern_score(*pattern),
            0 <= r <= 600000,
    {
        if pattern.consecutive_count >= 5 {
            return WIN;
        }
        if pattern.total_pieces >= 5 && pattern.has_gaps && pattern.free_ends >= 1 {
            return WIN;
        }
        if pattern.total_pieces == 4 {
            if pattern.consecutive_count == 4 {
                if pattern.free_ends == 2 {
                    return FOUR_OPEN;
                }
                if pattern.free_ends == 1 {
                    return FOUR_HALF;
                }
            } else if pattern.has_gaps {
                if pattern.free_ends == 2 {
                    return FOUR_OPEN;
                }
                if pattern.free_ends == 1 {
                    return FOUR_HALF;
                }
            }
        }
        if pattern.total_pieces == 3 {
            if pattern.consecutive_count == 3 {
                if pattern.free_ends == 2 {
                    return THREE_OPEN;
                }
                if pattern.free_ends == 1 {
                    return THREE_HALF;
                }
            } else if pattern.has_gaps {
                if pattern.free_ends == 2 {
                    return THREE_OPEN;
                }
                if pattern.free_ends == 1 {
                    return THREE_HALF;
                }
            }
        }
        if pattern.total_pieces == 2 && pattern.free_ends == 2 {
            return TWO_OPEN;
        }
        0
    }

    /// Count the patterns of `player` with `consecutive_count` stones and
    /// `free_ends` free ends (a gapped four also counts as a four). Each
    /// line is counted once, from its start.
    pub fn count_pattern_type(
        state: &GameState,
        player: i32,
        consecutive_count: i32,
        free_ends: i32,
    ) -> (r: i32)
        requires
            state.wf(),
        ensures
            r as int == spec_count_pattern(state@.board, player, consecutive_count, free_ends),
            0 <= r <= 1444,
    {
        let ghost b = state@.board;
        let mut count: i32 = 0;
        let mut i: usize = 0;
        while i < 19
            invariant
                state.wf(),
                b == state@.board,
                i <= 19,
                0 <= count,
                count as int == count_cells(b, player, consecutive_count, free_ends, (
                i * 19) as int),
                count as int <= 4 * ((i * 19) as int),
            decreases 19 - i,
        {
            let mut j: usize = 0;
            while j < 19
                invariant
                    state.wf(),
                    b == state@.board,
                    i < 19,
                    j <= 19,
                    0 <= count,
                    count as int == count_cells(
                        b,
                        player,
                        consecutive_count,
                        free_ends,
                        (i * 19 + j) as int,
                    ),
                    count as int <= 4 * ((i * 19 + j) as int),
                decreases 19 - j,
            {
                let ghost k = (i * 19 + j) as int;
                if state.board[i * 19 + j] == player {
                    let mut d: usize = 0;
                    while d < 4
                        invariant
                            state.wf(),
                            b == state@.board,
                            i < 19,
                            j < 19,
                            d <= 4,
                            0 <= count,
                            cell_at(b, i as int, j as int) == player,
                            count as int == count_cells(b, player, consecutive_count, free_ends, (
                            i * 19 + j) as int) + count_dirs(
                                b,
                                player,
                                consecutive_count,
                                free_ends,
                                i as int,
                                j as int,
                                d as int,
                            ),
                            count as int <= 4 * ((i * 19 + j) as int) + d,
                        decreases 4 - d,
                    {
                        let (dx, dy) = dir4(d);
                        if Self::is_line_start(state, i as i32, j as i32, dx, dy, player) {
                            let pattern = Self::analyze_line(
                                state,
                                i as i32,
                                j as i32,
                                dx,
                                dy,
                                player,
                            );
                            let matches = if consecutive_count == 4 {
                                (pattern.consecutive_count == 4 && pattern.free_ends == free_ends)
                                    || (pattern.total_pieces == 4 && pattern.has_gaps
                                    && pattern.free_ends == free_ends)
                            } else {
                                pattern.consecutive_count == consecutive_count
                                    && pattern.free_ends == free_ends
                            };
                            if matches {
                                count = count + 1;
                            }
                        }
                        d = d + 1;
                    }
                } else {
                    proof {
                        lemma_count_dirs_zero(
                            b,
                            player,
                            consecutive_count,
                            free_ends,
                            i as int,
                            j as int,
                            4,
                        );
                    }
                }
                proof {
                    lemma_divmod19(i as int, j as int);
                }
                j = j + 1;
            }
            i = i + 1;
        }
        proof {
            lemma_count_cells_bounds(b, player, consecutive_count, free_ends, 361);
        }
        count
    }

    /// True when `player` holds a four of any kind, or two open threes at
    /// once.
    pub fn has_winning_threats(state: &GameState, player: i32) -> (r: bool)
        requires
            state.wf(),
        ensures
            r == spec_wthreats(state@.board, player),
    {
        let four_open = Self::count_pattern_type(state, player, 4, 2);
        if four_open > 0 {
            return true;
        }
        let four_half = Self::count_pattern_type(state, player, 4, 1);
        if four_half > 0 {
            return true;
        }
        let three_open = Self::count_pattern_type(state, player, 3, 2);
        if three_open >= 2 {
            return true;
        }
        false
    }

    /// Flat bonuses for the most urgent shapes on the board: fours of both
    /// sides and win-threatening combinations.
    pub fn evaluate_immediate_threats(state: &GameState, player: i32) -> (r: i32)
        requires
            state.wf(),
        ensures
            r as int == spec_threat_score(state@.board, player),
            -245000 <= r <= 200000,
    {
        let opponent = state.get_opponent(player);
        let mut threat_score: i32 = 0;
        let my_has_win_threats = Self::has_winning_threats(state, player);
        let opp_has_win_threats = Self::has_winning_threats(state, opponent);
        if my_has_win_threats {
            threat_score = threat_score + 90000;
        }
        if opp_has_win_threats {
            threat_score = threat_score - 105000;
        }
        let my_four_open = Self::count_pattern_type(state, player, 4, 2);
        let opp_four_open = Self::count_pattern_type(state, opponent, 4, 2);
        let my_four_half = Self::count_pattern_type(state, player, 4, 1);
        let opp_four_half = Self::count_pattern_type(state, opponent, 4, 1);
        if opp_four_open > 0 {
            threat_score = threat_score - 80000;
        }
        if opp_four_half > 0 {
            threat_score = threat_score - 60000;
        }
        if my_four_open > 0 {
            threat_score = threat_score + 70000;
        }
        if my_four_half > 0 {
            threat_score = threat_score + 40000;
        }
        threat_score
    }

    /// Pattern score of every line of `player`, counted once from its
    /// start, plus both capture-count ramps.
    pub fn analyze_position(state: &GameState, player: i32) -> (r: i32)
        requires
            state.wf(),
            player == 1 || player == 2,
        ensures
            r as int == spec_analyze_position(state@.board, state@.caps, player),
            -400000 <= r <= 866700000,
    {
        let ghost b = state@.board;
        let mut total_score: i32 = 0;
        let mut i: usize = 0;
        while i < 19
            invariant
                state.wf(),
                b == state@.board,
                i <= 19,
                0 <= total_score,
                total_score as int == score_cells(b, player, (i * 19) as int),
                total_score as int <= 2400000 * ((i * 19) as int),
            decreases 19 - i,
        {
            let mut j: usize = 0;
            while j < 19
                invariant
                    state.wf(),
                    b == state@.board,
                    i < 19,
                    j <= 19,
                    0 <= total_score,
                    total_score as int == score_cells(b, player, (i * 19 + j) as int),
                    total_score as int <= 2400000 * ((i * 19 + j) as int),
                decreases 19 - j,
            {
                if state.board[i * 19 + j] == player {
                    let mut d: usize = 0;
                    while d < 4
                        invariant
                            state.wf(),
                            b == state@.board,
                            i < 19,
                            j < 19,
                            d <= 4,
                            0 <= total_score,
                            cell_at(b, i as int, j as int) == player,
                            total_score as int == score_cells(b, player, (i * 19 + j) as int)
                                + score_dirs(b, player, i as int, j as int, d as int),
                            total_score as int <= 2400000 * ((i * 19 + j) as int) + 600000 * (
                            d as int),
                        decreases 4 - d,
                    {
                        let (dx, dy) = dir4(d);
                        if Self::is_line_start(state, i as i32, j as i32, dx, dy, player) {
                            let pattern = Self::analyze_line(
                                state,
                                i as i32,
                                j as i32,
                                dx,
                                dy,
                                player,
                            );
                            total_score = total_score + Self::pattern_to_score(&pattern);
                        }
                        d = d + 1;
                    }
                } else {
                    proof {
                        lemma_score_dirs_zero(b, player, i as int, j as int, 4);
                    }
                }
                proof {
                    lemma_divmod19(i as int, j as int);
                }
                j = j + 1;
            }
            i = i + 1;
        }
        proof {
            lemma_score_cells_bounds(b, player, 361);
        }
        let my_captures = state.captures[(player - 1) as usize];
        let opponent = state.get_opponent(player);
        let opp_captures = state.captures[(opponent - 1) as usize];
        if my_captures >= 9 {
            total_score = total_score + 300000;
        } else if my_captures >= 8 {
            total_score = total_score + 200000;
        } else if my_captures >= 6 {
            total_score = total_score + 15000;
        } else if my_captures >= 4 {
            total_score = total_score + 6000;
        } else {
            total_score = total_score + my_captures * 500;
        }
        if opp_captures >= 9 {
            total_score = total_score - 400000;
        } else if opp_captures >= 8 {
            total_score = total_score - 300000;
        } else if opp_captures >= 6 {
            total_score = total_score - 20000;
        } else if opp_captures >= 4 {
            total_score = total_score - 8000;
        } else {
            total_score = total_score - opp_captures * 800;
        }
        total_score
    }

    /// Threat bonuses plus pattern and capture scoring, from `player`'s
    /// side.
    pub fn evaluate_for_player(state: &GameState, player: i32) -> (r: i32)
        requires
            state.wf(),
            player == 1 || player == 2,
        ensures
            r as int == spec_eval_player(state@.board, state@.caps, player),
            -645000 <= r <= 866900000,
    {
        let mut score: i32 = 0;
        score = score + Self::evaluate_immediate_threats(state, player);
        score = score + Self::analyze_position(state, player);
        score
    }

    /// The static score of the position for the searching side: when the
    /// game is over, the win score less the plies from the root, so nearer
    /// wins and losses outweigh distant ones; otherwise the difference of
    /// the two players' static scores.
    pub fn evaluate(state: &GameState, max_depth: i32, current_depth: i32) -> (r: i32)
        requires
            state.wf(),
            0 <= current_depth <= max_depth,
        ensures
            r as int == spec_evaluate(state@, max_depth as int, current_depth as int),
            max_depth <= 1000 ==> -900000000 <= r <= 900000000,
    {
        let mate_distance = current_depth;
        if state.is_game_over() {
            if state.captures[1] >= 10 {
                return WIN - mate_distance;
            } else if state.captures[0] >= 10 {
                return -WIN + mate_distance;
            }
            let last_player = 3 - state.current_player;
            if last_player == 2 {
                return WIN - mate_distance;
            } else {
                return -WIN + mate_distance;
            }
        }
        let ai_score = Self::evaluate_for_player(state, 2);
        let human_score = Self::evaluate_for_player(state, 1);
        ai_score - human_score
    }
}

/// A cell that does not hold `p` contributes no pattern matches.
proof fn lemma_count_dirs_zero(b: Seq<i32>, p: i32, cc: i32, fe: i32, x: int, y: int, d: int)
    requires
        cell_at(b, x, y) != p,
    ensures
        count_dirs(b, p, cc, fe, x, y, d) == 0,
    decreases d,
{
    if d > 0 {
        lemma_count_dirs_zero(b, p, cc, fe, x, y, d - 1);
    }
}

/// A cell that does not hold `p` contributes no pattern score.
proof fn lemma_score_dirs_zero(b: Seq<i32>, p: i32, x: int, y: int, d: int)
    requires
        cell_at(b, x, y) != p,
    ensures
        score_dirs(b, p, x, y, d) == 0,
    decreases d,
{
    if d > 0 {
        lemma_score_dirs_zero(b, p, x, y, d - 1);
    }
}

} // verus!
