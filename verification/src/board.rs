//! Board-level game state: a 19x19 grid of cells, the side to move, the turn
//! counter, both capture counters, the last move of player 1 and the
//! incrementally maintained Zobrist hash.
//!
//! The central invariant is [`GameState::hash_ok`]: the stored hash always
//! equals the value a from-scratch recomputation over (board, side to move,
//! capture counts) would produce. Every mutator XORs the corresponding keys
//! in the same step that mutates the state.

use vstd::prelude::*;

use crate::zobrist::ZobristTable;
use crate::zobrist::board_hash;
use crate::zobrist::cell_key;
use crate::zobrist::key_capture;
use crate::zobrist::key_piece;
use crate::zobrist::key_turn;
use crate::zobrist::lemma_board_hash_update;

verus! {

/// Side length of the board.
pub const BOARD_SIZE: usize = 19;

/// Cell value of an empty cell.
pub const EMPTY: i32 = 0;

/// Cell value of the first player (the human side at the boundary).
pub const PLAYER1: i32 = 1;

/// Cell value of the second player (the engine side at the boundary).
pub const PLAYER2: i32 = 2;

/// Capture count that wins the game.
pub const WIN_CAPTURES: i32 = 10;

/// True when (x, y) lies on the board.
pub open spec fn in_bounds(x: int, y: int) -> bool {
    0 <= x < 19 && 0 <= y < 19
}

/// Flat index of cell (x, y) in the row-major board vector.
pub open spec fn cidx(x: int, y: int) -> int {
    x * 19 + y
}

/// Value of cell (x, y) of board `b`.
pub open spec fn cell_at(b: Seq<i32>, x: int, y: int) -> i32 {
    b[cidx(x, y)]
}

/// A board vector is well formed: 361 cells, each empty or owned by one of
/// the two players.
pub open spec fn board_ok(b: Seq<i32>) -> bool {
    &&& b.len() == 361
    &&& forall|i: int| 0 <= i < 361 ==> 0 <= #[trigger] b[i] <= 2
}

/// x component of the d-th of the four main line directions
/// (horizontal, vertical, both diagonals).
pub open spec fn dx4(d: int) -> int {
    if d == 0 {
        0
    } else {
        1
    }
}

/// y component of the d-th main line direction.
pub open spec fn dy4(d: int) -> int {
    if d == 0 {
        1
    } else if d == 1 {
        0
    } else if d == 2 {
        1
    } else {
        -1
    }
}

/// The d-th of the four main line directions, as executable values.
pub fn dir4(d: usize) -> (r: (i32, i32))
    requires
        d < 4,
    ensures
        r.0 == dx4(d as int),
        r.1 == dy4(d as int),
        -1 <= r.0 <= 1,
        -1 <= r.1 <= 1,
        !(r.0 == 0 && r.1 == 0),
{
    if d == 0 {
        (0, 1)
    } else if d == 1 {
        (1, 0)
    } else if d == 2 {
        (1, 1)
    } else {
        (1, -1)
    }
}

/// x coordinate k steps from x along a direction with x component dx.
pub open spec fn ray_x(x: int, dx: int, k: int) -> int {
    x + k * dx
}

/// Cell k steps from (x, y) along (dx, dy).
pub open spec fn ray_cell(b: Seq<i32>, x: int, y: int, dx: int, dy: int, k: int) -> i32 {
    cell_at(b, ray_x(x, dx, k), ray_x(y, dy, k))
}

/// The cell k steps from (x, y) along (dx, dy) lies on the board.
pub open spec fn ray_ok(x: int, y: int, dx: int, dy: int, k: int) -> bool {
    in_bounds(ray_x(x, dx, k), ray_x(y, dy, k))
}

/// Five cells in a row of one player, starting at (x, y) and running along
/// main direction d.
pub open spec fn five_at(b: Seq<i32>, x: int, y: int, d: int) -> bool {
    &&& 0 <= d < 4
    &&& in_bounds(x, y)
    &&& cell_at(b, x, y) != 0
    &&& forall|k: int|
        1 <= k < 5 ==> #[trigger] ray_ok(x, y, dx4(d), dy4(d), k) && ray_cell(
            b,
            x,
            y,
            dx4(d),
            dy4(d),
            k,
        ) == cell_at(b, x, y)
}

/// A five-in-a-row along direction d whose window starts s cells before
/// (x, y).
pub open spec fn five_start(b: Seq<i32>, x: int, y: int, d: int, s: int) -> bool {
    five_at(b, x - s * dx4(d), y - s * dy4(d), d)
}

/// Some five-in-a-row along direction d runs through (x, y).
pub open spec fn five_through(b: Seq<i32>, x: int, y: int, d: int) -> bool {
    exists|s: int| 0 <= s <= 4 && #[trigger] five_start(b, x, y, d, s)
}

/// The board holds a five-in-a-row of either player.
pub open spec fn has_five(b: Seq<i32>) -> bool {
    exists|x: int, y: int, d: int| #[trigger] five_at(b, x, y, d)
}

/// Stepping one cell further along a ray moves the coordinate by the
/// direction component.
pub proof fn lemma_ray_step(x: int, dx: int, k: int)
    ensures
        ray_x(x, dx, k + 1) == ray_x(x, dx, k) + dx,
{
    assert(x + (k + 1) * dx == (x + k * dx) + dx) by (nonlinear_arith);
}

/// Division and remainder by 19 recover the coordinates from a flat index.
pub proof fn lemma_divmod19(x: int, y: int)
    by (nonlinear_arith)
    requires
        0 <= x,
        0 <= y < 19,
    ensures
        (x * 19 + y) / 19 == x,
        (x * 19 + y) % 19 == y,
{
}

/// A move: a coordinate pair. (-1, -1) is the invalid sentinel.
#[derive(Clone, Copy, Debug, PartialEq, Eq, Hash, Structural)]
pub struct Move {
    pub x: i32,
    pub y: i32,
}

impl Move {
    /// True when the move lies on the board.
    pub open spec fn valid(self) -> bool {
        in_bounds(self.x as int, self.y as int)
    }

    /// The invalid sentinel as a spec value.
    pub open spec fn invalid_spec() -> Move {
        Move { x: -1i32, y: -1i32 }
    }

    /// Flat board index of the move's cell.
    pub open spec fn idx(self) -> int {
        cidx(self.x as int, self.y as int)
    }

    pub fn new(x: i32, y: i32) -> (r: Move)
        ensures
            r.x == x,
            r.y == y,
    {
        Move { x, y }
    }

    /// The sentinel move that is on no board.
    pub fn invalid() -> (r: Move)
        ensures
            r == Move::invalid_spec(),
    {
        Move { x: -1, y: -1 }
    }

    pub fn is_valid(&self) -> (r: bool)
        ensures
            r == self.valid(),
    {
        self.x >= 0 && self.y >= 0 && self.x < BOARD_SIZE as i32 && self.y < BOARD_SIZE as i32
    }
}

/// Mathematical model of a game state, without the hash.
pub ghost struct Position {
    pub board: Seq<i32>,
    pub player: i32,
    pub turns: i32,
    pub caps: Seq<i32>,
    pub last: Move,
}

/// A well-formed position: sound board, a real side to move, capture
/// counters within 0..=10 and a non-negative turn counter.
pub open spec fn pos_ok(p: Position) -> bool {
    &&& board_ok(p.board)
    &&& p.player == 1 || p.player == 2
    &&& p.turns >= 0
    &&& p.caps.len() == 2
    &&& 0 <= p.caps[0] <= 10
    &&& 0 <= p.caps[1] <= 10
}

/// Capture count clamped to the winning threshold, as the hash uses it.
pub open spec fn clamp_cap(c: int) -> int {
    if c <= 10 {
        c
    } else {
        10
    }
}

/// The from-scratch Zobrist hash of a position: the XOR of every occupied
/// cell's key, the side-to-move key when player 2 moves, and both clamped
/// capture-count keys.
pub open spec fn full_hash(p: Position) -> u64 {
    board_hash(p.board, 361) ^ (if p.player == 2 {
        key_turn()
    } else {
        0
    }) ^ key_capture(0, clamp_cap(p.caps[0] as int)) ^ key_capture(1, clamp_cap(p.caps[1] as int))
}

/// The position every game starts from.
pub open spec fn init_pos() -> Position {
    Position {
        board: Seq::new(361, |i: int| 0i32),
        player: 1,
        turns: 0,
        caps: seq![0, 0],
        last: Move::invalid_spec(),
    }
}

/// The game is over: a five-in-a-row stands on the board or a capture
/// counter has reached the winning threshold.
pub open spec fn spec_game_over(p: Position) -> bool {
    has_five(p.board) || p.caps[0] >= 10 || p.caps[1] >= 10
}

/// Cell (x, y) is occupied and a five-in-a-row runs through it.
pub open spec fn qualifies_five(b: Seq<i32>, x: int, y: int) -> bool {
    cell_at(b, x, y) != 0 && exists|d: int| 0 <= d < 4 && #[trigger] five_through(b, x, y, d)
}

/// The moves onto the empty cells among the first `n` cells of board `b`,
/// in row-major order.
pub open spec fn empties(b: Seq<i32>, n: int) -> Seq<Move>
    decreases n,
{
    if n <= 0 {
        Seq::empty()
    } else if b[n - 1] == 0 {
        empties(b, n - 1).push(Move { x: ((n - 1) / 19) as i32, y: ((n - 1) % 19) as i32 })
    } else {
        empties(b, n - 1)
    }
}

/// The mutable game state: board, side to move, turn counter, capture
/// counters, last move of player 1 and the incrementally maintained hash.
pub struct GameState {
    pub board: Vec<i32>,
    pub current_player: i32,
    pub turn_count: i32,
    pub captures: Vec<i32>,
    pub last_human_move: Move,
    pub zobrist_hash: u64,
}

impl View for GameState {
    type V = Position;

    open spec fn view(&self) -> Position {
        Position {
            board: self.board@,
            player: self.current_player,
            turns: self.turn_count,
            caps: self.captures@,
            last: self.last_human_move,
        }
    }
}

impl GameState {
    /// The state models a well-formed position.
    pub open spec fn wf(self) -> bool {
        pos_ok(self@)
    }

    /// The stored hash equals the from-scratch recomputation.
    pub open spec fn hash_ok(self) -> bool {
        self.zobrist_hash == full_hash(self@)
    }

    /// The empty starting state, with its hash already in sync.
    pub fn new(z: &ZobristTable) -> (s: GameState)
        requires
            z.is_init(),
        ensures
            s@ == init_pos(),
            s.wf(),
            s.hash_ok(),
    {
        let mut board: Vec<i32> = Vec::new();
        let mut i: usize = 0;
        while i < 361
            invariant
                board@.len() == i,
                i <= 361,
                forall|j: int| 0 <= j < i ==> #[trigger] board@[j] == 0,
            decreases 361 - i,
        {
            board.push(0);
            i = i + 1;
        }
        let mut captures: Vec<i32> = Vec::new();
        captures.push(0);
        captures.push(0);
        let hash = z.capture_key(0, 0) ^ z.capture_key(1, 0);
        let s = GameState {
            board,
            current_player: 1,
            turn_count: 0,
            captures,
            last_human_move: Move::invalid(),
            zobrist_hash: hash,
        };
        proof {
            assert(s@.board =~= init_pos().board);
            assert(s@.caps =~= init_pos().caps);
            lemma_zero_board_hash(s@.board, 361);
            let c0 = key_capture(0, 0);
            let c1 = key_capture(1, 0);
            assert(((0u64 ^ 0u64) ^ c0) ^ c1 == c0 ^ c1) by (bit_vector);
        }
        s
    }

    /// True when (x, y) lies on the board.
    pub fn is_valid(&self, x: i32, y: i32) -> (r: bool)
        ensures
            r == in_bounds(x as int, y as int),
    {
        x >= 0 && y >= 0 && x < BOARD_SIZE as i32 && y < BOARD_SIZE as i32
    }

    /// True when (x, y) lies on the board and holds no stone.
    pub fn is_empty(&self, x: i32, y: i32) -> (r: bool)
        requires
            self.wf(),
        ensures
            r == (in_bounds(x as int, y as int) && cell_at(self@.board, x as int, y as int) == 0),
    {
        if !self.is_valid(x, y) {
            return false;
        }
        self.board[(x as usize) * 19 + (y as usize)] == EMPTY
    }

    /// The piece at (x, y), or -1 when (x, y) is off the board.
    pub fn get_piece(&self, x: i32, y: i32) -> (r: i32)
        requires
            self.wf(),
        ensures
            r == if in_bounds(x as int, y as int) {
                cell_at(self@.board, x as int, y as int)
            } else {
                -1i32
            },
    {
        if !self.is_valid(x, y) {
            return -1;
        }
        self.board[(x as usize) * 19 + (y as usize)]
    }

    /// The other player.
    pub fn get_opponent(&self, player: i32) -> (r: i32)
        ensures
            r == if player == 1 {
                2i32
            } else {
                1i32
            },
    {
        if player == PLAYER1 {
            PLAYER2
        } else {
            PLAYER1
        }
    }

    /// The stored position fingerprint.
    pub fn get_zobrist_hash(&self) -> (r: u64)
        ensures
            r == self.zobrist_hash,
    {
        self.zobrist_hash
    }

    /// Place a stone for the side to move without applying captures, keeping
    /// the hash in sync; rejects moves off the board or on occupied cells.
    pub fn make_move(&mut self, z: &ZobristTable, mv: Move) -> (ok: bool)
        requires
            old(self).wf(),
            z.is_init(),
            old(self).turn_count < i32::MAX,
        ensures
            ok == (mv.valid() && cell_at(old(self)@.board, mv.x as int, mv.y as int) == 0),
            !ok ==> *final(self) == *old(self),
            ok ==> final(self)@.board == old(self)@.board.update(mv.idx(), old(self)@.player),
            ok ==> final(self)@.player == 3 - old(self)@.player,
            ok ==> final(self)@.turns == old(self)@.turns + 1,
            ok ==> final(self)@.caps == old(self)@.caps,
            ok ==> final(self)@.last == if old(self)@.player == 1 {
                mv
            } else {
                old(self)@.last
            },
            final(self).wf(),
            old(self).hash_ok() ==> final(self).hash_ok(),
    {
        if !mv.is_valid() {
            return false;
        }
        let idx = (mv.x as usize) * 19 + (mv.y as usize);
        if self.board[idx] != 0 {
            return false;
        }
        let player = self.current_player;
        let ghost b0 = self.board@;
        self.board.set(idx, player);
        self.zobrist_hash = self.zobrist_hash ^ z.piece_key(mv.x, mv.y, player) ^ z.turn_key();
        if player == PLAYER1 {
            self.last_human_move = mv;
        }
        self.current_player = 3 - self.current_player;
        self.turn_count = self.turn_count + 1;
        proof {
            lemma_board_hash_update(b0, mv.idx(), player, 361);
            assert(cell_key(b0, mv.idx()) == 0);
            let bh = board_hash(b0, 361);
            let kp = key_piece(mv.idx(), player as int);
            let kt = key_turn();
            let tto: u64 = if old(self)@.player == 2 {
                kt
            } else {
                0
            };
            let c0 = key_capture(0, clamp_cap(old(self)@.caps[0] as int));
            let c1 = key_capture(1, clamp_cap(old(self)@.caps[1] as int));
            assert((((((bh ^ 0) ^ kp) ^ (tto ^ kt)) ^ c0) ^ c1) == (((((bh ^ tto) ^ c0) ^ c1) ^ kp)
                ^ kt)) by (bit_vector);
            if old(self)@.player == 2 {
                assert(kt ^ kt == 0) by (bit_vector);
                assert(0u64 ^ kt == kt) by (bit_vector);
            } else {
                assert(0u64 ^ kt == kt) by (bit_vector);
            }
        }
        true
    }

    /// Undo a placement made by [`GameState::make_move`]: clear the cell,
    /// give the turn back and keep the hash in sync. The last recorded move
    /// of player 1 is not restored.
    pub fn unmake_move(&mut self, z: &ZobristTable, mv: Move) -> (ok: bool)
        requires
            old(self).wf(),
            z.is_init(),
            mv.valid() ==> cell_at(old(self)@.board, mv.x as int, mv.y as int) == 3 - old(
                self,
            )@.player && old(self).turn_count >= 1,
        ensures
            ok == mv.valid(),
            !ok ==> *final(self) == *old(self),
            ok ==> final(self)@.board == old(self)@.board.update(mv.idx(), 0i32),
            ok ==> final(self)@.player == 3 - old(self)@.player,
            ok ==> final(self)@.turns == old(self)@.turns - 1,
            ok ==> final(self)@.caps == old(self)@.caps,
            ok ==> final(self)@.last == old(self)@.last,
            final(self).wf(),
            old(self).hash_ok() ==> final(self).hash_ok(),
    {
        if !mv.is_valid() {
            return false;
        }
        let idx = (mv.x as usize) * 19 + (mv.y as usize);
        let mover = 3 - self.current_player;
        let ghost b0 = self.board@;
        self.board.set(idx, EMPTY);
        self.zobrist_hash = self.zobrist_hash ^ z.piece_key(mv.x, mv.y, mover) ^ z.turn_key();
        self.current_player = mover;
        self.turn_count = self.turn_count - 1;
        proof {
            lemma_board_hash_update(b0, mv.idx(), 0i32, 361);
            assert(key_piece(mv.idx(), 0int) == 0);
            let bh = board_hash(b0, 361);
            let kp = key_piece(mv.idx(), mover as int);
            assert(cell_key(b0, mv.idx()) == kp);
            let kt = key_turn();
            let tto: u64 = if old(self)@.player == 2 {
                kt
            } else {
                0
            };
            let c0 = key_capture(0, clamp_cap(old(self)@.caps[0] as int));
            let c1 = key_capture(1, clamp_cap(old(self)@.caps[1] as int));
            assert((((((bh ^ kp) ^ 0) ^ (tto ^ kt)) ^ c0) ^ c1) == (((((bh ^ tto) ^ c0) ^ c1) ^ kp)
                ^ kt)) by (bit_vector);
            if old(self)@.player == 2 {
                assert(kt ^ kt == 0) by (bit_vector);
                assert(0u64 ^ kt == kt) by (bit_vector);
            } else {
                assert(0u64 ^ kt == kt) by (bit_vector);
            }
        }
        true
    }

    /// Length of the maximal run of `player` stones strictly after (x, y)
    /// along (dx, dy).
    pub(crate) fn ray_run(&self, x: i32, y: i32, dx: i32, dy: i32, player: i32) -> (n: i32)
        requires
            self.wf(),
            in_bounds(x as int, y as int),
            -1 <= dx <= 1,
            -1 <= dy <= 1,
            !(dx == 0 && dy == 0),
        ensures
            0 <= n <= 18,
            forall|k: int|
                1 <= k <= n ==> #[trigger] ray_ok(x as int, y as int, dx as int, dy as int, k)
                    && ray_cell(self@.board, x as int, y as int, dx as int, dy as int, k)
                    == player,
            !(ray_ok(x as int, y as int, dx as int, dy as int, n + 1) && ray_cell(
                self@.board,
                x as int,
                y as int,
                dx as int,
                dy as int,
                n + 1,
            ) == player),
    {
        let ghost b = self@.board;
        let mut n: i32 = 0;
        let mut cx: i32 = x + dx;
        let mut cy: i32 = y + dy;
        while n < 18 && cx >= 0 && cx < 19 && cy >= 0 && cy < 19 && self.board[(cx as usize) * 19
            + (cy as usize)] == player
            invariant
                self.wf(),
                b == self@.board,
                in_bounds(x as int, y as int),
                -1 <= dx <= 1,
                -1 <= dy <= 1,
                !(dx == 0 && dy == 0),
                0 <= n <= 18,
                cx as int == ray_x(x as int, dx as int, n + 1),
                cy as int == ray_x(y as int, dy as int, n + 1),
                forall|k: int|
                    1 <= k <= n ==> #[trigger] ray_ok(x as int, y as int, dx as int, dy as int, k)
                        && ray_cell(self@.board, x as int, y as int, dx as int, dy as int, k)
                        == player,
            decreases 18 - n,
        {
            proof {
                assert(ray_ok(x as int, y as int, dx as int, dy as int, n + 1));
                assert(ray_cell(self@.board, x as int, y as int, dx as int, dy as int, n + 1)
                    == player);
            }
            n = n + 1;
            proof {
                lemma_ray_step(x as int, dx as int, n as int);
                lemma_ray_step(y as int, dy as int, n as int);
                assert forall|k: int| 1 <= k <= n implies #[trigger] ray_ok(
                    x as int,
                    y as int,
                    dx as int,
                    dy as int,
                    k,
                ) && ray_cell(self@.board, x as int, y as int, dx as int, dy as int, k)
                    == player by {
                    if k < n {
                        assert(ray_ok(x as int, y as int, dx as int, dy as int, k));
                        assert(ray_cell(self@.board, x as int, y as int, dx as int, dy as int, k)
                            == player);
                    } else {
                        assert(k == n);
                    }
                }
            }
            cx = cx + dx;
            cy = cy + dy;
        }
        proof {
            if n == 18 {
                assert(!in_bounds(cx as int, cy as int)) by {
                    if dx == 1 {
                        assert(cx as int == x + 19 * 1);
                    } else if dx == -1 {
                        assert(cx as int == x + 19 * (-1));
                    } else if dy == 1 {
                        assert(cy as int == y + 19 * 1);
                    } else {
                        assert(cy as int == y + 19 * (-1));
                    }
                };
            }
        }
        n
    }

    /// True when a five-in-a-row of the stone standing at (x, y) runs
    /// through (x, y).
    pub fn check_five_in_row(&self, x: usize, y: usize) -> (r: bool)
        requires
            self.wf(),
            x < 19,
            y < 19,
            cell_at(self@.board, x as int, y as int) != 0,
        ensures
            r == exists|d: int|
                0 <= d < 4 && #[trigger] five_through(self@.board, x as int, y as int, d),
    {
        let ghost b = self@.board;
        let player = self.board[x * 19 + y];
        let xi = x as i32;
        let yi = y as i32;
        let mut d: usize = 0;
        while d < 4
            invariant
                self.wf(),
                b == self@.board,
                d <= 4,
                x < 19,
                y < 19,
                xi == x as i32,
                yi == y as i32,
                player == cell_at(b, x as int, y as int),
                player != 0,
                forall|dd: int| 0 <= dd < d ==> !#[trigger] five_through(b, x as int, y as int, dd),
            decreases 4 - d,
        {
            let (dx, dy) = dir4(d);
            let fwd = self.ray_run(xi, yi, dx, dy, player);
            let bwd = self.ray_run(xi, yi, -dx, -dy, player);
            if 1 + fwd + bwd >= 5 {
                proof {
                    lemma_five_found(
                        b,
                        x as int,
                        y as int,
                        d as int,
                        dx as int,
                        dy as int,
                        player,
                        fwd as int,
                        bwd as int,
                    );
                }
                return true;
            }
            proof {
                lemma_five_absent(
                    b,
                    x as int,
                    y as int,
                    d as int,
                    dx as int,
                    dy as int,
                    player,
                    fwd as int,
                    bwd as int,
                );
            }
            d = d + 1;
        }
        false
    }

    /// True when the game is over: a five-in-a-row stands on the board or a
    /// capture counter has reached the winning threshold.
    pub fn is_game_over(&self) -> (r: bool)
        requires
            self.wf(),
        ensures
            r == spec_game_over(self@),
    {
        let ghost b = self@.board;
        let mut i: usize = 0;
        while i < 19
            invariant
                self.wf(),
                b == self@.board,
                i <= 19,
                forall|xx: int, yy: int|
                    0 <= xx < i && 0 <= yy < 19 ==> !#[trigger] qualifies_five(b, xx, yy),
            decreases 19 - i,
        {
            let mut j: usize = 0;
            while j < 19
                invariant
                    self.wf(),
                    b == self@.board,
                    i < 19,
                    j <= 19,
                    forall|xx: int, yy: int|
                        0 <= xx < i && 0 <= yy < 19 ==> !#[trigger] qualifies_five(b, xx, yy),
                    forall|yy: int| 0 <= yy < j ==> !#[trigger] qualifies_five(b, i as int, yy),
                decreases 19 - j,
            {
                if self.board[i * 19 + j] != 0 {
                    if self.check_five_in_row(i, j) {
                        proof {
                            let d = choose|d: int|
                                0 <= d < 4 && #[trigger] five_through(b, i as int, j as int, d);
                            let s = choose|s: int|
                                0 <= s <= 4 && #[trigger] five_start(b, i as int, j as int, d, s);
                            assert(five_at(
                                b,
                                i as int - s * dx4(d),
                                j as int - s * dy4(d),
                                d,
                            ));
                            assert(has_five(b));
                        }
                        return true;
                    }
                }
                j = j + 1;
            }
            i = i + 1;
        }
        if self.captures[0] >= WIN_CAPTURES || self.captures[1] >= WIN_CAPTURES {
            return true;
        }
        proof {
            if has_five(b) {
                let (xx, yy, d) = choose|xx: int, yy: int, d: int| #[trigger] five_at(b, xx, yy, d);
                assert(ray_x(xx, dx4(d), 0) == xx && ray_x(yy, dy4(d), 0) == yy)
                    by (nonlinear_arith);
                assert(five_start(b, xx, yy, d, 0)) by {
                    assert(xx - 0 * dx4(d) == xx && yy - 0 * dy4(d) == yy) by (nonlinear_arith);
                }
                assert(five_through(b, xx, yy, d));
                assert(qualifies_five(b, xx, yy));
                assert(false);
            }
        }
        false
    }

    /// All moves onto empty cells, in row-major order.
    pub fn get_legal_moves(&self) -> (r: Vec<Move>)
        requires
            self.wf(),
        ensures
            r@ == empties(self@.board, 361),
    {
        let ghost b = self@.board;
        let mut moves: Vec<Move> = Vec::new();
        let mut i: usize = 0;
        while i < 19
            invariant
                self.wf(),
                b == self@.board,
                i <= 19,
                moves@ == empties(b, (i as int) * 19),
            decreases 19 - i,
        {
            let mut j: usize = 0;
            while j < 19
                invariant
                    self.wf(),
                    b == self@.board,
                    i < 19,
                    j <= 19,
                    moves@ == empties(b, (i as int) * 19 + j),
                decreases 19 - j,
            {
                if self.board[i * 19 + j] == 0 {
                    moves.push(Move::new(i as i32, j as i32));
                    proof {
                        lemma_divmod19(i as int, j as int);
                    }
                }
                j = j + 1;
            }
            i = i + 1;
        }
        moves
    }
}

/// A maximal same-player run of `fwd` cells forward and `bwd` cells
/// backward around an occupied cell, spanning five or more cells in total,
/// yields a five-in-a-row through that cell.
proof fn lemma_five_found(
    b: Seq<i32>,
    x: int,
    y: int,
    d: int,
    dx: int,
    dy: int,
    player: i32,
    fwd: int,
    bwd: int,
)
    requires
        0 <= d < 4,
        dx == dx4(d),
        dy == dy4(d),
        in_bounds(x, y),
        cell_at(b, x, y) == player,
        player != 0,
        0 <= fwd,
        0 <= bwd,
        1 + fwd + bwd >= 5,
        forall|k: int|
            1 <= k <= fwd ==> #[trigger] ray_ok(x, y, dx, dy, k) && ray_cell(b, x, y, dx, dy, k)
                == player,
        forall|k: int|
            1 <= k <= bwd ==> #[trigger] ray_ok(x, y, 0 - dx, 0 - dy, k) && ray_cell(
                b,
                x,
                y,
                0 - dx,
                0 - dy,
                k,
            ) == player,
    ensures
        five_through(b, x, y, d),
{
    let s: int = if bwd <= 4 {
        bwd
    } else {
        4
    };
    let sx = x - s * dx;
    let sy = y - s * dy;
    assert(dx4(d) == dx && dy4(d) == dy);
    if s > 0 {
        assert(x + s * (0 - dx) == x - s * dx) by (nonlinear_arith);
        assert(y + s * (0 - dy) == y - s * dy) by (nonlinear_arith);
        assert(ray_ok(x, y, 0 - dx, 0 - dy, s));
        assert(ray_cell(b, x, y, 0 - dx, 0 - dy, s) == player);
    }
    assert(in_bounds(sx, sy));
    assert(cell_at(b, sx, sy) == player);
    assert forall|k: int| 1 <= k < 5 implies #[trigger] ray_ok(sx, sy, dx4(d), dy4(d), k)
        && ray_cell(b, sx, sy, dx4(d), dy4(d), k) == cell_at(b, sx, sy) by {
        assert((x - s * dx) + k * dx == x + (k - s) * dx) by (nonlinear_arith);
        assert((y - s * dy) + k * dy == y + (k - s) * dy) by (nonlinear_arith);
        if k == s {
            assert((x - s * dx) + k * dx == x) by (nonlinear_arith)
                requires
                    k == s,
            ;
            assert((y - s * dy) + k * dy == y) by (nonlinear_arith)
                requires
                    k == s,
            ;
        } else if k > s {
            let t = k - s;
            assert(4 - s <= fwd);
            assert(ray_ok(x, y, dx, dy, t));
            assert(ray_cell(b, x, y, dx, dy, t) == player);
        } else {
            let t = s - k;
            assert(ray_ok(x, y, 0 - dx, 0 - dy, t));
            assert(ray_cell(b, x, y, 0 - dx, 0 - dy, t) == player);
            assert(x + t * (0 - dx) == x + (k - s) * dx) by (nonlinear_arith)
                requires
                    t == s - k,
            ;
            assert(y + t * (0 - dy) == y + (k - s) * dy) by (nonlinear_arith)
                requires
                    t == s - k,
            ;
        }
    }
    assert(five_at(b, sx, sy, d));
    assert(sx == x - s * dx4(d) && sy == y - s * dy4(d));
    assert(five_start(b, x, y, d, s));
}

/// If the maximal same-player run through an occupied cell spans fewer than
/// five cells, no five-in-a-row runs through that cell in that direction.
proof fn lemma_five_absent(
    b: Seq<i32>,
    x: int,
    y: int,
    d: int,
    dx: int,
    dy: int,
    player: i32,
    fwd: int,
    bwd: int,
)
    requires
        0 <= d < 4,
        dx == dx4(d),
        dy == dy4(d),
        in_bounds(x, y),
        cell_at(b, x, y) == player,
        player != 0,
        0 <= fwd,
        0 <= bwd,
        1 + fwd + bwd < 5,
        forall|k: int|
            1 <= k <= fwd ==> #[trigger] ray_ok(x, y, dx, dy, k) && ray_cell(b, x, y, dx, dy, k)
                == player,
        forall|k: int|
            1 <= k <= bwd ==> #[trigger] ray_ok(x, y, 0 - dx, 0 - dy, k) && ray_cell(
                b,
                x,
                y,
                0 - dx,
                0 - dy,
                k,
            ) == player,
        !(ray_ok(x, y, dx, dy, fwd + 1) && ray_cell(b, x, y, dx, dy, fwd + 1) == player),
        !(ray_ok(x, y, 0 - dx, 0 - dy, bwd + 1) && ray_cell(b, x, y, 0 - dx, 0 - dy, bwd + 1)
            == player),
    ensures
        !five_through(b, x, y, d),
{
    assert forall|s: int| 0 <= s <= 4 implies !#[trigger] five_start(b, x, y, d, s) by {
        if five_start(b, x, y, d, s) {
            let sx = x - s * dx4(d);
            let sy = y - s * dy4(d);
            assert(five_at(b, sx, sy, d));
            assert(dx4(d) == dx && dy4(d) == dy);
            assert(sx == x - s * dx && sy == y - s * dy);
            // The start cell holds the same player as (x, y).
            if s >= 1 {
                assert(ray_ok(sx, sy, dx4(d), dy4(d), s));
                assert(ray_cell(b, sx, sy, dx4(d), dy4(d), s) == cell_at(b, sx, sy));
                assert((x - s * dx) + s * dx == x) by (nonlinear_arith);
                assert((y - s * dy) + s * dy == y) by (nonlinear_arith);
            }
            assert(cell_at(b, sx, sy) == player);
            // The run extends at least 4 - s cells forward of (x, y).
            if fwd < 4 - s {
                let k = s + fwd + 1;
                assert(1 <= k < 5);
                assert(ray_ok(sx, sy, dx4(d), dy4(d), k));
                assert(ray_cell(b, sx, sy, dx4(d), dy4(d), k) == cell_at(b, sx, sy));
                assert((x - s * dx) + k * dx == x + (fwd + 1) * dx) by (nonlinear_arith)
                    requires
                        k == s + fwd + 1,
                ;
                assert((y - s * dy) + k * dy == y + (fwd + 1) * dy) by (nonlinear_arith)
                    requires
                        k == s + fwd + 1,
                ;
                assert(ray_ok(x, y, dx, dy, fwd + 1));
                assert(ray_cell(b, x, y, dx, dy, fwd + 1) == player);
                assert(false);
            }
            // The run extends at least s cells backward of (x, y).
            if bwd < s {
                let k = s - (bwd + 1);
                assert(0 <= k < 5);
                if k == 0 {
                    assert(x + (bwd + 1) * (0 - dx) == x - s * dx) by (nonlinear_arith)
                        requires
                            s == bwd + 1,
                    ;
                    assert(y + (bwd + 1) * (0 - dy) == y - s * dy) by (nonlinear_arith)
                        requires
                            s == bwd + 1,
                    ;
                } else {
                    assert(ray_ok(sx, sy, dx4(d), dy4(d), k));
                    assert(ray_cell(b, sx, sy, dx4(d), dy4(d), k) == cell_at(b, sx, sy));
                    assert((x - s * dx) + k * dx == x + (bwd + 1) * (0 - dx)) by (nonlinear_arith)
                        requires
                            k == s - (bwd + 1),
                    ;
                    assert((y - s * dy) + k * dy == y + (bwd + 1) * (0 - dy)) by (nonlinear_arith)
                        requires
                            k == s - (bwd + 1),
                    ;
                }
                assert(ray_ok(x, y, 0 - dx, 0 - dy, bwd + 1));
                assert(ray_cell(b, x, y, 0 - dx, 0 - dy, bwd + 1) == player);
                assert(false);
            }
            assert(1 + fwd + bwd >= 5);
            assert(false);
        }
    }
}

/// The legal-move list holds exactly the empty cells: every entry is a
/// distinct empty on-board cell, and it is empty only when no cell is.
pub proof fn lemma_empties_props(b: Seq<i32>, n: int)
    requires
        b.len() == 361,
        0 <= n <= 361,
    ensures
        forall|k: int|
            0 <= k < empties(b, n).len() ==> (#[trigger] empties(b, n)[k]).valid() && cell_at(
                b,
                empties(b, n)[k].x as int,
                empties(b, n)[k].y as int,
            ) == 0,
        empties(b, n).len() == 0 <==> (forall|i: int| 0 <= i < n ==> #[trigger] b[i] != 0),
    decreases n,
{
    if n > 0 {
        lemma_empties_props(b, n - 1);
        if b[n - 1] == 0 {
            let m = Move { x: ((n - 1) / 19) as i32, y: ((n - 1) % 19) as i32 };
            assert(0 <= (n - 1) / 19 < 19 && 0 <= (n - 1) % 19 < 19 && ((n - 1) / 19) * 19 + (n - 1)
                % 19 == n - 1) by (nonlinear_arith)
                requires
                    0 <= n - 1 < 361,
            ;
            assert(m.valid());
            assert(cell_at(b, m.x as int, m.y as int) == 0);
        }
    }
}

/// Every empty cell appears in the legal-move list.
pub proof fn lemma_empties_complete(b: Seq<i32>, x: int, y: int, n: int)
    requires
        b.len() == 361,
        in_bounds(x, y),
        cell_at(b, x, y) == 0,
        cidx(x, y) < n <= 361,
    ensures
        exists|k: int|
            0 <= k < empties(b, n).len() && #[trigger] empties(b, n)[k] == (Move {
                x: x as i32,
                y: y as i32,
            }),
    decreases n,
{
    let c = cidx(x, y);
    let prev = empties(b, n - 1);
    let cur = empties(b, n);
    if c == n - 1 {
        lemma_divmod19(x, y);
        assert(cur == prev.push(Move { x: ((n - 1) / 19) as i32, y: ((n - 1) % 19) as i32 }));
        assert(cur[prev.len() as int] == (Move { x: x as i32, y: y as i32 }));
    } else {
        lemma_empties_complete(b, x, y, n - 1);
        let k = choose|k: int|
            0 <= k < prev.len() && #[trigger] prev[k] == (Move { x: x as i32, y: y as i32 });
        assert(cur[k] == (Move { x: x as i32, y: y as i32 }));
    }
}

/// An element-for-element copy of a vector of cell values.
pub(crate) fn vec_copy_i32(v: &Vec<i32>) -> (r: Vec<i32>)
    ensures
        r@ == v@,
{
    let mut r: Vec<i32> = Vec::new();
    let mut i: usize = 0;
    while i < v.len()
        invariant
            i <= v.len(),
            r@ == v@.subrange(0, i as int),
        decreases v.len() - i,
    {
        r.push(v[i]);
        proof {
            assert(r@ =~= v@.subrange(0, i as int + 1));
        }
        i = i + 1;
    }
    proof {
        assert(r@ =~= v@);
    }
    r
}

impl Clone for GameState {
    /// A deep copy that models the same position and carries the same hash.
    fn clone(&self) -> (r: Self)
        ensures
            r@ == self@,
            r.zobrist_hash == self.zobrist_hash,
    {
        let r = GameState {
            board: vec_copy_i32(&self.board),
            current_player: self.current_player,
            turn_count: self.turn_count,
            captures: vec_copy_i32(&self.captures),
            last_human_move: self.last_human_move,
            zobrist_hash: self.zobrist_hash,
        };
        r
    }
}

/// Bounds-checked construction of a game state from flat host inputs: the
/// row-major cell values, the side to move, the turn counter, both capture
/// counters and the last move of player 1. Rejects inputs that no legal
/// game can produce instead of trusting the caller, and computes the full
/// Zobrist hash so the invariant holds from the start.
pub fn state_from_flat(
    board: &Vec<i32>,
    current_player: i32,
    turn_count: i32,
    captures_p1: i32,
    captures_p2: i32,
    last_move_x: i32,
    last_move_y: i32,
    z: &ZobristTable,
) -> (r: Option<GameState>)
    requires
        z.is_init(),
    ensures
        r is Some <==> {
            &&& board@.len() == 361
            &&& forall|i: int| 0 <= i < 361 ==> 0 <= #[trigger] board@[i] <= 2
            &&& current_player == 1 || current_player == 2
            &&& turn_count >= 0
            &&& 0 <= captures_p1 <= 10
            &&& 0 <= captures_p2 <= 10
        },
        r matches Some(s) ==> {
            &&& s.wf()
            &&& s.hash_ok()
            &&& s@.board == board@
            &&& s@.player == current_player
            &&& s@.turns == turn_count
            &&& s@.caps == seq![captures_p1, captures_p2]
            &&& s@.last == if in_bounds(last_move_x as int, last_move_y as int) {
                Move { x: last_move_x, y: last_move_y }
            } else {
                Move::invalid_spec()
            }
        },
{
    if board.len() != 361 {
        return None;
    }
    let mut i: usize = 0;
    while i < 361
        invariant
            board@.len() == 361,
            i <= 361,
            forall|k: int| 0 <= k < i ==> 0 <= #[trigger] board@[k] <= 2,
        decreases 361 - i,
    {
        let c = board[i];
        if c < 0 || c > 2 {
            return None;
        }
        i = i + 1;
    }
    if !(current_player == PLAYER1 || current_player == PLAYER2) {
        return None;
    }
    if turn_count < 0 {
        return None;
    }
    if captures_p1 < 0 || captures_p1 > WIN_CAPTURES || captures_p2 < 0 || captures_p2
        > WIN_CAPTURES {
        return None;
    }
    let last = if last_move_x >= 0 && last_move_x < 19 && last_move_y >= 0 && last_move_y < 19 {
        Move::new(last_move_x, last_move_y)
    } else {
        Move::invalid()
    };
    let mut captures: Vec<i32> = Vec::new();
    captures.push(captures_p1);
    captures.push(captures_p2);
    let mut s = GameState {
        board: vec_copy_i32(board),
        current_player,
        turn_count,
        captures,
        last_human_move: last,
        zobrist_hash: 0,
    };
    proof {
        assert(s@.caps =~= seq![captures_p1, captures_p2]);
    }
    let hash = z.compute_full_hash(&s);
    s.zobrist_hash = hash;
    Some(s)
}

/// The partial hash of an all-empty board prefix is 0.
proof fn lemma_zero_board_hash(b: Seq<i32>, n: int)
    requires
        forall|j: int| 0 <= j < n ==> #[trigger] b[j] == 0,
        n <= b.len(),
    ensures
        board_hash(b, n) == 0,
    decreases n,
{
    if n > 0 {
        lemma_zero_board_hash(b, n - 1);
        assert(cell_key(b, n - 1) == 0);
        assert(0u64 ^ 0u64 == 0u64) by (bit_vector);
    }
}

} // verus!
