//! Zobrist hashing: a table of pseudo-random 64-bit keys, one per
//! (cell, player) pair, plus a side-to-move key and per-player capture-count
//! keys. A position's fingerprint is the XOR of the keys implied by it, so a
//! single placement or removal updates the fingerprint with one XOR.
//!
//! The keys come from a fixed-seed xorshift generator, so every table built
//! by [`ZobristTable::new`] holds exactly the same keys and fingerprints are
//! reproducible across runs. The canonical key values are pinned by the spec
//! functions [`key_piece`], [`key_turn`] and [`key_capture`], which lets the
//! rest of the crate state hash facts without carrying a table around.

use vstd::prelude::*;

use crate::board::GameState;
use crate::board::full_hash;
use crate::board::clamp_cap;

verus! {

/// XOR is associative.
pub proof fn lemma_xor_assoc(a: u64, b: u64, c: u64)
    ensures
        (a ^ b) ^ c == a ^ (b ^ c),
{
    assert((a ^ b) ^ c == a ^ (b ^ c)) by (bit_vector);
}

/// XOR with zero is the identity.
pub proof fn lemma_xor_zero(x: u64)
    ensures
        x ^ 0 == x,
        0u64 ^ x == x,
{
    assert(x ^ 0 == x && 0u64 ^ x == x) by (bit_vector);
}

/// Fixed seed of the key generator; determinism is part of the design.
pub const KEY_SEED: u64 = 0x123456789ABCDEF0;

/// Number of board cells (19 x 19).
pub const CELL_COUNT: usize = 361;

/// One step of the xorshift64 pseudo-random generator.
pub open spec fn xs_step(x0: u64) -> u64 {
    let x1 = x0 ^ (x0 << 13u64);
    let x2 = x1 ^ (x1 >> 7u64);
    x2 ^ (x2 << 17u64)
}

/// The n-th output of the generator started from `KEY_SEED`.
pub open spec fn xs_n(n: nat) -> u64
    decreases n,
{
    if n == 0 {
        KEY_SEED
    } else {
        xs_step(xs_n((n - 1) as nat))
    }
}

/// Index of the key of `player` on flat cell `c` inside the piece-key vector.
pub open spec fn pidx(c: int, player: int) -> int {
    c * 3 + player
}

/// Index of the key of capture count `count` of player slot `p` inside the
/// capture-key vector.
pub open spec fn cadx(p: int, count: int) -> int {
    p * 11 + count
}

/// Canonical key of `player` on flat cell `c`. The empty cell (and any value
/// outside {1, 2}) maps to 0, so empty cells contribute nothing to a hash.
pub open spec fn key_piece(c: int, player: int) -> u64 {
    if player == 1 {
        xs_n((2 * c + 1) as nat)
    } else if player == 2 {
        xs_n((2 * c + 2) as nat)
    } else {
        0
    }
}

/// Canonical side-to-move key.
pub open spec fn key_turn() -> u64 {
    xs_n(723)
}

/// Canonical key of capture count `count` (0..=10) of player slot `p`.
pub open spec fn key_capture(p: int, count: int) -> u64 {
    xs_n((724 + p * 11 + count) as nat)
}

/// Key contributed by cell `i` of board `b`: the key of the piece standing
/// there, or 0 when the cell is empty.
pub open spec fn cell_key(b: Seq<i32>, i: int) -> u64 {
    key_piece(i, b[i] as int)
}

/// XOR of the keys of the first `n` cells of board `b`.
pub open spec fn board_hash(b: Seq<i32>, n: int) -> u64
    decreases n,
{
    if n <= 0 {
        0
    } else {
        board_hash(b, n - 1) ^ cell_key(b, n - 1)
    }
}

/// Two boards that agree on their first `n` cells have the same partial hash.
pub proof fn lemma_board_hash_congruence(b1: Seq<i32>, b2: Seq<i32>, n: int)
    requires
        forall|j: int| 0 <= j < n ==> b1[j] == b2[j],
    ensures
        board_hash(b1, n) == board_hash(b2, n),
    decreases n,
{
    if n > 0 {
        lemma_board_hash_congruence(b1, b2, n - 1);
    }
}

/// Overwriting cell `i` XORs out the old cell key and XORs in the new one.
pub proof fn lemma_board_hash_update(b: Seq<i32>, i: int, v: i32, n: int)
    requires
        0 <= i < n <= b.len(),
    ensures
        board_hash(b.update(i, v), n) == board_hash(b, n) ^ cell_key(b, i) ^ key_piece(i, v as int),
    decreases n,
{
    let bu = b.update(i, v);
    if i == n - 1 {
        lemma_board_hash_congruence(bu, b, n - 1);
        let x = board_hash(b, n - 1);
        let a = cell_key(b, i);
        let k = key_piece(i, v as int);
        assert(x ^ k == (x ^ a) ^ a ^ k) by (bit_vector);
    } else {
        lemma_board_hash_update(b, i, v, n - 1);
        let x = board_hash(b, n - 1);
        let a = cell_key(b, i);
        let k = key_piece(i, v as int);
        let c = cell_key(b, n - 1);
        assert(cell_key(bu, n - 1) == c);
        assert(((x ^ a ^ k) ^ c) == ((x ^ c) ^ a ^ k)) by (bit_vector);
    }
}

/// The key table. Built once, read everywhere; it exposes no mutation API.
pub struct ZobristTable {
    piece: Vec<u64>,
    turn: u64,
    capture: Vec<u64>,
}

/// One step of the xorshift64 generator, advancing `state` and returning the
/// new value.
pub fn xorshift64(state: &mut u64) -> (r: u64)
    ensures
        r == xs_step(*old(state)),
        *final(state) == r,
{
    let mut x = *state;
    x = x ^ (x << 13u64);
    x = x ^ (x >> 7u64);
    x = x ^ (x << 17u64);
    *state = x;
    x
}

impl ZobristTable {
    /// The table holds exactly the canonical keys.
    pub closed spec fn is_init(&self) -> bool {
        &&& self.piece@.len() == 3 * CELL_COUNT
        &&& self.capture@.len() == 22
        &&& self.turn == key_turn()
        &&& forall|c: int, pl: int|
            0 <= c < CELL_COUNT && 0 <= pl < 3 ==> #[trigger] self.piece@[pidx(c, pl)]
                == key_piece(c, pl)
        &&& forall|p: int, cnt: int|
            0 <= p < 2 && 0 <= cnt < 11 ==> #[trigger] self.capture@[cadx(p, cnt)]
                == key_capture(p, cnt)
    }

    /// Build the table from the fixed seed.
    pub fn new() -> (z: ZobristTable)
        ensures
            z.is_init(),
    {
        let mut rng: u64 = KEY_SEED;
        let mut piece: Vec<u64> = Vec::new();
        let mut c: usize = 0;
        while c < CELL_COUNT
            invariant
                0 <= c <= CELL_COUNT,
                piece@.len() == 3 * c,
                rng == xs_n((2 * c) as nat),
                forall|c2: int, pl: int|
                    0 <= c2 < c && 0 <= pl < 3 ==> #[trigger] piece@[pidx(c2, pl)]
                        == key_piece(c2, pl),
            decreases CELL_COUNT - c,
        {
            piece.push(0);
            let k1 = xorshift64(&mut rng);
            piece.push(k1);
            let k2 = xorshift64(&mut rng);
            piece.push(k2);
            assert(k1 == xs_n((2 * c + 1) as nat));
            assert(k2 == xs_n((2 * c + 2) as nat));
            c = c + 1;
        }
        let turn = xorshift64(&mut rng);
        assert(turn == key_turn());
        let mut capture: Vec<u64> = Vec::new();
        let mut i: usize = 0;
        while i < 22
            invariant
                0 <= i <= 22,
                capture@.len() == i,
                rng == xs_n((723 + i) as nat),
                forall|j: int| 0 <= j < i ==> #[trigger] capture@[j] == xs_n((724 + j) as nat),
            decreases 22 - i,
        {
            let k = xorshift64(&mut rng);
            capture.push(k);
            i = i + 1;
        }
        let z = ZobristTable { piece, turn, capture };
        assert forall|p: int, cnt: int| 0 <= p < 2 && 0 <= cnt < 11 implies #[trigger] z
            .capture@[cadx(p, cnt)] == key_capture(p, cnt) by {
            assert(z.capture@[p * 11 + cnt] == xs_n((724 + (p * 11 + cnt)) as nat));
        }
        z
    }

    /// Key of `player` on cell (x, y).
    pub fn piece_key(&self, x: i32, y: i32, player: i32) -> (r: u64)
        requires
            self.is_init(),
            0 <= x < 19,
            0 <= y < 19,
            0 <= player <= 2,
        ensures
            r == key_piece(x * 19 + y, player as int),
    {
        let c = (x as usize) * 19 + (y as usize);
        let r = self.piece[c * 3 + player as usize];
        assert(r == self.piece@[pidx(x * 19 + y, player as int)]);
        r
    }

    /// Key XOR-ed into the hash whenever the side to move is player 2.
    pub fn turn_key(&self) -> (r: u64)
        requires
            self.is_init(),
        ensures
            r == key_turn(),
    {
        self.turn
    }

    /// Key of capture count `count` (clamped to 10) of player slot
    /// `player_idx`.
    pub fn capture_key(&self, player_idx: usize, count: i32) -> (r: u64)
        requires
            self.is_init(),
            player_idx < 2,
            0 <= count,
        ensures
            r == key_capture(player_idx as int, if count <= 10 { count as int } else { 10 }),
    {
        let cnt: usize = if count < 10 {
            count as usize
        } else {
            10
        };
        let r = self.capture[player_idx * 11 + cnt];
        assert(r == self.capture@[cadx(player_idx as int, cnt as int)]);
        r
    }

    /// Recompute the full position fingerprint from scratch: the XOR of
    /// every occupied cell's key, the side-to-move key when player 2 is to
    /// move, and both clamped capture-count keys.
    pub fn compute_full_hash(&self, state: &GameState) -> (r: u64)
        requires
            self.is_init(),
            state.wf(),
        ensures
            r == full_hash(state@),
    {
        let ghost b = state@.board;
        let mut hash: u64 = 0;
        let mut i: usize = 0;
        while i < CELL_COUNT
            invariant
                self.is_init(),
                state.wf(),
                b == state@.board,
                i <= CELL_COUNT,
                hash == board_hash(b, i as int),
            decreases CELL_COUNT - i,
        {
            let piece = state.board[i];
            if piece != 0 {
                hash = hash ^ self.piece[i * 3 + piece as usize];
                proof {
                    assert(self.piece@[pidx(i as int, piece as int)] == key_piece(
                        i as int,
                        piece as int,
                    ));
                }
            } else {
                proof {
                    assert(cell_key(b, i as int) == 0);
                    lemma_xor_zero(hash);
                }
            }
            i = i + 1;
        }
        if state.current_player == 2 {
            hash = hash ^ self.turn;
        } else {
            proof {
                lemma_xor_zero(hash);
            }
        }
        let c0 = state.captures[0];
        let c1 = state.captures[1];
        hash = hash ^ self.capture_key(0, c0);
        hash = hash ^ self.capture_key(1, c1);
        proof {
            assert(clamp_cap(state@.caps[0] as int) == state@.caps[0] as int);
            assert(clamp_cap(state@.caps[1] as int) == state@.caps[1] as int);
        }
        hash
    }
}

} // verus!
