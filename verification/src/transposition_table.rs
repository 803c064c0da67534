//! The transposition table: a fixed power-of-two array of cache entries
//! keyed by the Zobrist hash, with generation-aged replacement. A slot may
//! hold an entry for a different, colliding position; the stored key
//! detects this at lookup time rather than raising a fault.

use vstd::prelude::*;

use crate::board::Move;

verus! {

/// Largest score magnitude the table accepts; every search score fits.
pub const SCORE_LIMIT: i32 = 900000000;

/// Deepest search the table accepts entries for.
pub const DEPTH_LIMIT: i32 = 64;

/// Approximate bytes per cache entry, used to size the table.
pub const ENTRY_BYTES: usize = 48;

/// How a stored score bounds the true value: exact, a lower bound from a
/// fail-high cutoff, or an upper bound from a fail-low result.
#[derive(Clone, Copy, Debug, PartialEq, Eq, Structural)]
pub enum CacheEntryType {
    Exact,
    LowerBound,
    UpperBound,
}

/// One table slot: the full key that disambiguates collisions, the score,
/// the depth it was computed at, the best move found, the generation the
/// entry was created in, and the bound type.
#[derive(Clone, Copy, Debug, PartialEq, Eq, Structural)]
pub struct CacheEntry {
    pub zobrist_key: u64,
    pub score: i32,
    pub depth: i32,
    pub best_move: Move,
    pub generation: u32,
    pub entry_type: CacheEntryType,
}

/// Replacement weight of an entry: deeper entries and exact bounds weigh
/// more.
pub open spec fn spec_importance(e: CacheEntry) -> int {
    e.depth * 100 + if e.entry_type == CacheEntryType::Exact {
        50int
    } else if e.entry_type == CacheEntryType::LowerBound {
        25int
    } else {
        0int
    }
}

/// The slot a key maps to.
pub open spec fn slot_index(key: u64, mask: usize) -> int {
    ((key as usize) & mask) as int
}

/// What a lookup of `key` finds in table contents `tbl`: the stored entry
/// when its full key matches, nothing on a miss or a collision.
pub open spec fn lookup_in(tbl: Seq<Option<CacheEntry>>, mask: usize, key: u64) -> Option<
    CacheEntry,
> {
    match tbl[slot_index(key, mask)] {
        Some(e) => if e.zobrist_key == key {
            Some(e)
        } else {
            None
        },
        None => None,
    }
}

/// The replacement policy: an empty or zero-keyed slot is always taken; an
/// entry for the same position yields to equal or greater depth; a
/// colliding entry yields when the newcomer's importance beats the
/// holder's age-discounted importance, with ties broken in favour of exact
/// bounds.
pub open spec fn should_replace_in(
    tbl: Seq<Option<CacheEntry>>,
    mask: usize,
    gen: u32,
    key: u64,
    score: i32,
    depth: i32,
    ty: CacheEntryType,
) -> bool {
    match tbl[slot_index(key, mask)] {
        None => true,
        Some(existing) => {
            if existing.zobrist_key == 0 {
                true
            } else if existing.zobrist_key == key {
                depth >= existing.depth
            } else {
                let new_entry = CacheEntry {
                    zobrist_key: key,
                    score,
                    depth,
                    best_move: Move { x: -1i32, y: -1i32 },
                    generation: gen,
                    entry_type: ty,
                };
                let existing_importance = spec_importance(existing) - (gen - existing.generation)
                    * 10;
                let new_importance = spec_importance(new_entry);
                new_importance > existing_importance || (new_importance == existing_importance
                    && ty == CacheEntryType::Exact)
            }
        },
    }
}

/// The stored entry for `key` short-circuits a search node with window
/// (alpha, beta) at `depth`: it is deep enough, and its bound type allows
/// returning its score — exact always, a lower bound at or above beta, an
/// upper bound at or below alpha.
pub open spec fn tt_cuts(
    t: TranspositionTable,
    key: u64,
    depth: int,
    alpha: i32,
    beta: i32,
) -> bool {
    match lookup_in(t.table@, t.table_size_mask, key) {
        Some(e) => e.depth >= depth && (e.entry_type == CacheEntryType::Exact || (e.entry_type
            == CacheEntryType::LowerBound && e.score >= beta) || (e.entry_type
            == CacheEntryType::UpperBound && e.score <= alpha)),
        None => false,
    }
}

/// The bound type a score earns against the window it was searched with:
/// an upper bound at or below alpha, a lower bound at or above beta, exact
/// strictly inside.
pub open spec fn spec_bound_type(score: int, alpha: int, beta: int) -> CacheEntryType {
    if score <= alpha {
        CacheEntryType::UpperBound
    } else if score >= beta {
        CacheEntryType::LowerBound
    } else {
        CacheEntryType::Exact
    }
}

/// A node's result went through the replacement policy: either its key now
/// looks up to an entry carrying exactly this score, depth and bound type,
/// or the policy declined because the slot's holder outweighs it.
pub open spec fn node_recorded(
    t: TranspositionTable,
    key: u64,
    score: i32,
    depth: i32,
    ty: CacheEntryType,
) -> bool {
    ||| match lookup_in(t.table@, t.table_size_mask, key) {
        Some(en) => en.score == score && en.depth == depth && en.entry_type == ty,
        None => false,
    }
    ||| !should_replace_in(t.table@, t.table_size_mask, t.current_generation, key, score, depth, ty)
}

/// A [`TranspositionTable::store`] call records the node: afterwards the
/// key looks up to the stored entry, or the replacement policy visibly
/// declined it.
pub proof fn lemma_store_records(
    pre: TranspositionTable,
    post: TranspositionTable,
    key: u64,
    score: i32,
    depth: i32,
    best_move: Move,
    ty: CacheEntryType,
)
    requires
        pre.table@.len() == pre.table_size_mask + 1,
        post.table_size_mask == pre.table_size_mask,
        post.current_generation == pre.current_generation,
        post.table@ == if should_replace_in(
            pre.table@,
            pre.table_size_mask,
            pre.current_generation,
            key,
            score,
            depth,
            ty,
        ) {
            pre.table@.update(
                slot_index(key, pre.table_size_mask),
                Some(
                    CacheEntry {
                        zobrist_key: key,
                        score,
                        depth,
                        best_move,
                        generation: pre.current_generation,
                        entry_type: ty,
                    },
                ),
            )
        } else {
            pre.table@
        },
    ensures
        node_recorded(post, key, score, depth, ty),
{
    lemma_and_mask_le(key as usize, pre.table_size_mask);
}

/// A masked index never exceeds the mask.
pub proof fn lemma_and_mask_le(k: usize, m: usize)
    ensures
        (k & m) <= m,
{
    assert((k & m) <= m) by (bit_vector);
}

/// Storing an entry the policy accepts and looking the same key up again
/// returns exactly that entry: the stored score, depth, move and bound
/// type come back unchanged.
pub proof fn lemma_store_then_lookup(
    tbl: Seq<Option<CacheEntry>>,
    mask: usize,
    gen: u32,
    key: u64,
    score: i32,
    depth: i32,
    best_move: Move,
    ty: CacheEntryType,
)
    requires
        tbl.len() == mask + 1,
        should_replace_in(tbl, mask, gen, key, score, depth, ty),
    ensures
        lookup_in(
            tbl.update(
                slot_index(key, mask),
                Some(
                    CacheEntry {
                        zobrist_key: key,
                        score,
                        depth,
                        best_move,
                        generation: gen,
                        entry_type: ty,
                    },
                ),
            ),
            mask,
            key,
        ) == Some(
            CacheEntry {
                zobrist_key: key,
                score,
                depth,
                best_move,
                generation: gen,
                entry_type: ty,
            },
        ),
{
    lemma_and_mask_le(key as usize, mask);
}

impl CacheEntry {
    /// A fresh entry with the given fields.
    pub fn new(
        zobrist_key: u64,
        score: i32,
        depth: i32,
        best_move: Move,
        entry_type: CacheEntryType,
        generation: u32,
    ) -> (r: CacheEntry)
        ensures
            r == (CacheEntry { zobrist_key, score, depth, best_move, generation, entry_type }),
    {
        CacheEntry { zobrist_key, score, depth, best_move, generation, entry_type }
    }

    /// Replacement weight of the entry.
    pub fn get_importance_value(&self) -> (r: i32)
        requires
            0 <= self.depth <= DEPTH_LIMIT,
        ensures
            r as int == spec_importance(*self),
    {
        let mut value = self.depth * 100;
        if self.entry_type == CacheEntryType::Exact {
            value = value + 50;
        } else if self.entry_type == CacheEntryType::LowerBound {
            value = value + 25;
        }
        value
    }
}

/// The table itself: slots, the power-of-two index mask, and the current
/// generation counter.
pub struct TranspositionTable {
    pub table: Vec<Option<CacheEntry>>,
    pub table_size_mask: usize,
    pub current_generation: u32,
}

impl TranspositionTable {
    /// The slot array matches the mask and every stored entry respects the
    /// depth and score limits and carries a generation no newer than the
    /// table's.
    pub open spec fn wf(self) -> bool {
        &&& self.table@.len() == self.table_size_mask + 1
        &&& forall|i: int|
            0 <= i < self.table@.len() ==> match #[trigger] self.table@[i] {
                Some(e) => 0 <= e.depth <= DEPTH_LIMIT && -SCORE_LIMIT <= e.score <= SCORE_LIMIT
                    && e.generation <= self.current_generation,
                None => true,
            }
    }

    /// An empty table sized to roughly `table_size_mb` megabytes, rounded
    /// down to a power of two of entries.
    pub fn new(table_size_mb: usize) -> (t: TranspositionTable)
        requires
            1 <= table_size_mb <= 1024,
        ensures
            t.wf(),
            t.current_generation == 1,
            forall|i: int| 0 <= i < t.table@.len() ==> (#[trigger] t.table@[i]) is None,
    {
        let total_bytes = table_size_mb * 1024 * 1024;
        let num_entries = total_bytes / ENTRY_BYTES;
        let mut power_of_2: usize = 1;
        while power_of_2 < num_entries
            invariant
                1 <= power_of_2,
                power_of_2 <= num_entries * 2,
                num_entries <= 0x2000000,
            decreases 2 * num_entries - power_of_2,
        {
            power_of_2 = power_of_2 * 2;
        }
        if power_of_2 > num_entries {
            power_of_2 = power_of_2 / 2;
        }
        let mut table: Vec<Option<CacheEntry>> = Vec::new();
        let mut i: usize = 0;
        while i < power_of_2
            invariant
                i <= power_of_2,
                table@.len() == i,
                forall|k: int| 0 <= k < i ==> (#[trigger] table@[k]) is None,
            decreases power_of_2 - i,
        {
            table.push(None);
            i = i + 1;
        }
        TranspositionTable { table, table_size_mask: power_of_2 - 1, current_generation: 1 }
    }

    /// Advance the generation; staleness of old entries is weighted during
    /// replacement. Saturates at the counter's ceiling.
    pub fn increment_generation(&mut self)
        requires
            old(self).wf(),
        ensures
            final(self).wf(),
            final(self).table@ == old(self).table@,
            final(self).table_size_mask == old(self).table_size_mask,
            final(self).current_generation == if old(self).current_generation < u32::MAX {
                old(self).current_generation + 1
            } else {
                old(self).current_generation as int
            },
    {
        if self.current_generation < u32::MAX {
            self.current_generation = self.current_generation + 1;
        }
    }

    /// The current generation counter.
    pub fn current_generation(&self) -> (r: u32)
        ensures
            r == self.current_generation,
    {
        self.current_generation
    }

    /// Look the key up: the stored entry when its full key matches, and
    /// nothing on a miss or a collision.
    pub fn lookup(&self, zobrist_key: u64) -> (r: Option<CacheEntry>)
        requires
            self.wf(),
        ensures
            r == lookup_in(self.table@, self.table_size_mask, zobrist_key),
            match r {
                Some(e) => e.zobrist_key == zobrist_key && 0 <= e.depth <= DEPTH_LIMIT
                    && -SCORE_LIMIT <= e.score <= SCORE_LIMIT,
                None => true,
            },
    {
        let index = (zobrist_key as usize) & self.table_size_mask;
        proof {
            lemma_and_mask_le(zobrist_key as usize, self.table_size_mask);
        }
        match self.table[index] {
            Some(entry) => {
                if entry.zobrist_key == zobrist_key {
                    Some(entry)
                } else {
                    None
                }
            },
            None => None,
        }
    }

    /// Store a result under its key, applying the generation-aged
    /// replacement policy.
    pub fn store(
        &mut self,
        zobrist_key: u64,
        score: i32,
        depth: i32,
        best_move: Move,
        entry_type: CacheEntryType,
    )
        requires
            old(self).wf(),
            0 <= depth <= DEPTH_LIMIT,
            -SCORE_LIMIT <= score <= SCORE_LIMIT,
        ensures
            final(self).wf(),
            final(self).table_size_mask == old(self).table_size_mask,
            final(self).current_generation == old(self).current_generation,
            final(self).table@ == if should_replace_in(
                old(self).table@,
                old(self).table_size_mask,
                old(self).current_generation,
                zobrist_key,
                score,
                depth,
                entry_type,
            ) {
                old(self).table@.update(
                    slot_index(zobrist_key, old(self).table_size_mask),
                    Some(
                        CacheEntry {
                            zobrist_key,
                            score,
                            depth,
                            best_move,
                            generation: old(self).current_generation,
                            entry_type,
                        },
                    ),
                )
            } else {
                old(self).table@
            },
    {
        let index = (zobrist_key as usize) & self.table_size_mask;
        proof {
            lemma_and_mask_le(zobrist_key as usize, self.table_size_mask);
        }
        let should_replace: bool = match self.table[index] {
            Some(existing) => {
                if existing.zobrist_key == 0 {
                    true
                } else if existing.zobrist_key == zobrist_key {
                    depth >= existing.depth
                } else {
                    let existing_importance: i64 = existing.get_importance_value() as i64 - (
                    self.current_generation - existing.generation) as i64 * 10;
                    let new_entry = CacheEntry::new(
                        zobrist_key,
                        score,
                        depth,
                        best_move,
                        entry_type,
                        self.current_generation,
                    );
                    let new_importance: i64 = new_entry.get_importance_value() as i64;
                    new_importance > existing_importance || (new_importance == existing_importance
                        && entry_type == CacheEntryType::Exact)
                }
            },
            None => true,
        };
        if should_replace {
            self.table.set(
                index,
                Some(
                    CacheEntry::new(
                        zobrist_key,
                        score,
                        depth,
                        best_move,
                        entry_type,
                        self.current_generation,
                    ),
                ),
            );
        }
    }
}

} // verus!
