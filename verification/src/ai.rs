//! The search engine: iterative-deepening alpha-beta with a transposition
//! table, killer-move and history-heuristic ordering, and late-move
//! reduction. One top-level call owns its history table and killer moves
//! exclusively; the transposition table persists across calls, aged by a
//! generation counter.

use vstd::prelude::*;

use crate::board::GameState;
use crate::board::Move;
use crate::board::cell_at;
use crate::board::empties;
use crate::board::spec_game_over;
use crate::evaluator::spec_evaluate;
use crate::evaluator::Evaluator;
use crate::evaluator::WIN;
use crate::move_ordering::HISTORY_CAP;
use crate::move_ordering::MoveOrdering;
use crate::move_ordering::all_valid;
use crate::move_ordering::hist_ok;
use crate::move_ordering::relevant_list;
use crate::move_ordering::sorted_desc;
use crate::move_ordering::spec_max_candidates;
use crate::rules::RuleEngine;
use crate::rules::spec_legal;
use crate::transposition_table::CacheEntryType;
use crate::transposition_table::SCORE_LIMIT;
use crate::transposition_table::TranspositionTable;
use crate::transposition_table::lookup_in;
use crate::transposition_table::node_recorded;
use crate::transposition_table::spec_bound_type;
use crate::transposition_table::tt_cuts;
use crate::zobrist::ZobristTable;

verus! {

/// Scores above this threshold prove a forced win or loss; deepening past
/// them cannot change the outcome.
pub const NEAR_MATE: i32 = 300000;

/// A searched node's result went back through the table's replacement
/// policy under its own key and depth, with a bound type honest about the
/// window (alpha, beta) it was searched with: exact whenever the score
/// lies strictly inside, and otherwise either the window-derived bound or
/// the exact type of a proven result.
pub open spec fn result_recorded(
    t: TranspositionTable,
    key: u64,
    score: i32,
    depth: i32,
    alpha: i32,
    beta: i32,
) -> bool {
    exists|ty: CacheEntryType|
        {
            &&& #[trigger] node_recorded(t, key, score, depth, ty)
            &&& ty == CacheEntryType::Exact || ty == spec_bound_type(
                score as int,
                alpha as int,
                beta as int,
            )
            &&& alpha < score && score < beta ==> ty == CacheEntryType::Exact
        }
}

/// Deepest search the engine accepts.
pub const MAX_SEARCH_DEPTH: i32 = 64;

/// The search engine: node counters, the transposition table, the seed
/// move from shallower searches, the key table, and the per-search history
/// table and killer moves.
pub struct AI {
    pub nodes_evaluated: u64,
    pub cache_hits: u64,
    pub transposition_table: TranspositionTable,
    pub previous_best_move: Move,
    pub zobrist: ZobristTable,
    pub history: Vec<i32>,
    pub killers: Vec<Move>,
}

impl AI {
    /// The engine's containers are sound: table well formed, canonical
    /// keys, a capped history table and two killer slots per depth level.
    pub open spec fn wf(self) -> bool {
        &&& self.transposition_table.wf()
        &&& self.zobrist.is_init()
        &&& hist_ok(self.history@)
        &&& self.killers@.len() == 2 * (MAX_SEARCH_DEPTH + 1)
    }

    /// A fresh engine: an empty 64 MB transposition table, the canonical
    /// key table, a cleared history table and no killer moves.
    pub fn new() -> (r: AI)
        ensures
            r.wf(),
            r.nodes_evaluated == 0,
            r.cache_hits == 0,
            r.previous_best_move == Move::invalid_spec(),
    {
        let mut history: Vec<i32> = Vec::new();
        let mut i: usize = 0;
        while i < 361
            invariant
                history@.len() == i,
                i <= 361,
                forall|k: int| 0 <= k < i ==> #[trigger] history@[k] == 0,
            decreases 361 - i,
        {
            history.push(0);
            i = i + 1;
        }
        let mut killers: Vec<Move> = Vec::new();
        let mut j: usize = 0;
        while j < 130
            invariant
                killers@.len() == j,
                j <= 130,
            decreases 130 - j,
        {
            killers.push(Move::invalid());
            j = j + 1;
        }
        AI {
            nodes_evaluated: 0,
            cache_hits: 0,
            transposition_table: TranspositionTable::new(64),
            previous_best_move: Move::invalid(),
            zobrist: ZobristTable::new(),
            history,
            killers,
        }
    }

    /// Nodes evaluated and cache hits of the most recent depth iteration.
    pub fn get_stats(&self) -> (r: (u64, u64))
        ensures
            r.0 == self.nodes_evaluated,
            r.1 == self.cache_hits,
    {
        (self.nodes_evaluated, self.cache_hits)
    }

    /// Remember `mv` as the most recent cutoff move of this depth,
    /// keeping at most two distinct killers, most recent first.
    fn record_killer(&mut self, depth: i32, mv: Move)
        requires
            old(self).wf(),
            0 <= depth <= MAX_SEARCH_DEPTH,
        ensures
            final(self).wf(),
            final(self).transposition_table == old(self).transposition_table,
            final(self).zobrist == old(self).zobrist,
            final(self).history == old(self).history,
            final(self).nodes_evaluated == old(self).nodes_evaluated,
            final(self).cache_hits == old(self).cache_hits,
            final(self).previous_best_move == old(self).previous_best_move,
    {
        let idx = (depth as usize) * 2;
        let first = self.killers[idx];
        if !(first == mv) {
            self.killers.set(idx + 1, first);
            self.killers.set(idx, mv);
        }
    }

    /// Add the depth-squared cutoff bonus to the move's history entry,
    /// saturating at the cap.
    fn bump_history(&mut self, mv: Move, depth: i32)
        requires
            old(self).wf(),
            mv.valid(),
            0 <= depth <= MAX_SEARCH_DEPTH,
        ensures
            final(self).wf(),
            final(self).transposition_table == old(self).transposition_table,
            final(self).zobrist == old(self).zobrist,
            final(self).killers == old(self).killers,
            final(self).nodes_evaluated == old(self).nodes_evaluated,
            final(self).cache_hits == old(self).cache_hits,
            final(self).previous_best_move == old(self).previous_best_move,
    {
        proof {
            assert(0 <= depth * depth <= 64 * 64) by (nonlinear_arith)
                requires
                    0 <= depth <= 64,
            ;
        }
        let bonus = depth * depth;
        let idx = (mv.x as usize) * 19 + (mv.y as usize);
        let cur = self.history[idx];
        let bumped = if cur > HISTORY_CAP - bonus {
            HISTORY_CAP
        } else {
            cur + bonus
        };
        self.history.set(idx, bumped);
    }

    /// Halve every history entry, biasing the table toward recent
    /// information between depth iterations.
    fn decay_history(&mut self)
        requires
            old(self).wf(),
        ensures
            final(self).wf(),
            final(self).transposition_table == old(self).transposition_table,
            final(self).zobrist == old(self).zobrist,
            final(self).killers == old(self).killers,
            final(self).nodes_evaluated == old(self).nodes_evaluated,
            final(self).cache_hits == old(self).cache_hits,
            final(self).previous_best_move == old(self).previous_best_move,
    {
        let mut i: usize = 0;
        while i < 361
            invariant
                old(self).wf(),
                self.history@.len() == 361,
                i <= 361,
                forall|k: int|
                    0 <= k < 361 ==> 0 <= #[trigger] self.history@[k] <= HISTORY_CAP,
                self.transposition_table == old(self).transposition_table,
                self.zobrist == old(self).zobrist,
                self.killers == old(self).killers,
                self.nodes_evaluated == old(self).nodes_evaluated,
                self.cache_hits == old(self).cache_hits,
                self.previous_best_move == old(self).previous_best_move,
            decreases 361 - i,
        {
            let halved = self.history[i] / 2;
            self.history.set(i, halved);
            i = i + 1;
        }
    }

    /// Clear the per-search state: the history table and the killer moves.
    fn reset_search_tables(&mut self)
        requires
            old(self).wf(),
        ensures
            final(self).wf(),
            final(self).transposition_table == old(self).transposition_table,
            final(self).zobrist == old(self).zobrist,
            final(self).nodes_evaluated == old(self).nodes_evaluated,
            final(self).cache_hits == old(self).cache_hits,
            final(self).previous_best_move == old(self).previous_best_move,
    {
        let mut i: usize = 0;
        while i < 361
            invariant
                old(self).wf(),
                self.history@.len() == 361,
                i <= 361,
                forall|k: int|
                    0 <= k < 361 ==> 0 <= #[trigger] self.history@[k] <= HISTORY_CAP,
                self.transposition_table == old(self).transposition_table,
                self.zobrist == old(self).zobrist,
                self.killers == old(self).killers,
                self.nodes_evaluated == old(self).nodes_evaluated,
                self.cache_hits == old(self).cache_hits,
                self.previous_best_move == old(self).previous_best_move,
            decreases 361 - i,
        {
            self.history.set(i, 0);
            i = i + 1;
        }
        let mut j: usize = 0;
        while j < 130
            invariant
                old(self).wf(),
                hist_ok(self.history@),
                self.killers@.len() == 130,
                j <= 130,
                self.transposition_table == old(self).transposition_table,
                self.zobrist == old(self).zobrist,
                self.nodes_evaluated == old(self).nodes_evaluated,
                self.cache_hits == old(self).cache_hits,
                self.previous_best_move == old(self).previous_best_move,
            decreases 130 - j,
        {
            self.killers.set(j, Move::invalid());
            j = j + 1;
        }
    }

    /// Candidates for the position, ordered with the current seed move
    /// first and the rest by quick score: the candidate zone's cells,
    /// reordered, and truncated to the phase's cap when the zone is large.
    fn generate_ordered_moves(&mut self, state: &GameState) -> (r: Vec<Move>)
        requires
            old(self).wf(),
            state.wf(),
        ensures
            *final(self) == *old(self),
            all_valid(r@),
            empties(state@.board, 361).len() > 0 ==> r@.len() > 0,
            0 < relevant_list(state@, 361).len() <= spec_max_candidates(state@.turns) ==> {
                &&& r@.to_multiset() == relevant_list(state@, 361).to_multiset()
                &&& relevant_list(state@, 361).len() <= 2 ==> r@ == relevant_list(state@, 361)
                &&& relevant_list(state@, 361).len() > 2 && old(self).previous_best_move.valid()
                    && relevant_list(state@, 361).contains(old(self).previous_best_move)
                    ==> r@[0] == old(self).previous_best_move && sorted_desc(
                    state@,
                    r@,
                    old(self).history@,
                    1,
                    r@.len() as int,
                )
                &&& relevant_list(state@, 361).len() > 2 && !(old(
                    self,
                ).previous_best_move.valid() && relevant_list(state@, 361).contains(
                    old(self).previous_best_move,
                )) ==> sorted_desc(state@, r@, old(self).history@, 0, r@.len() as int)
            },
            relevant_list(state@, 361).len() > spec_max_candidates(state@.turns) ==> {
                &&& r@.len() == spec_max_candidates(state@.turns)
                &&& r@.to_multiset().subset_of(relevant_list(state@, 361).to_multiset())
                &&& sorted_desc(state@, r@, old(self).history@, 0, r@.len() as int) || (r@[0]
                    == old(self).previous_best_move && sorted_desc(
                    state@,
                    r@,
                    old(self).history@,
                    1,
                    r@.len() as int,
                ))
            },
    {
        let mut candidates = MoveOrdering::generate_candidates_adaptive_radius(
            state,
            &self.history,
        );
        MoveOrdering::order_moves_with_previous_best(
            &mut candidates,
            state,
            self.previous_best_move,
            &self.history,
        );
        candidates
    }

    /// The recursive alpha-beta search: probe the transposition table,
    /// stand pat at depth zero or a finished game, otherwise walk the
    /// ordered candidates with killer promotion and late-move reduction,
    /// and store the result with its bound type. The contract pins the
    /// cache discipline: a usable stored entry is returned as it stands,
    /// a leaf returns the static evaluation, every searched node goes back
    /// through the replacement policy under its own key and depth with a
    /// bound type honest about the original window, and any move handed
    /// back is one the rules accept here.
    #[verifier::rlimit(100)]
    pub fn minimax(
        &mut self,
        state: &GameState,
        depth: i32,
        alpha: i32,
        beta: i32,
        maximizing: bool,
        original_max_depth: i32,
    ) -> (r: (i32, Move))
        requires
            old(self).wf(),
            state.wf(),
            state.hash_ok(),
            0 <= depth <= original_max_depth <= MAX_SEARCH_DEPTH,
            state.turn_count + depth < i32::MAX,
            alpha < i32::MAX,
            beta > i32::MIN,
        ensures
            final(self).wf(),
            final(self).transposition_table.current_generation == old(
                self,
            ).transposition_table.current_generation,
            -SCORE_LIMIT <= r.0 <= SCORE_LIMIT,
            r.1 == Move::invalid_spec() || spec_legal(state@, r.1),
            tt_cuts(
                old(self).transposition_table,
                state.zobrist_hash,
                depth as int,
                alpha,
                beta,
            ) ==> (lookup_in(
                old(self).transposition_table.table@,
                old(self).transposition_table.table_size_mask,
                state.zobrist_hash,
            ) matches Some(en) && r.0 == en.score),
            !tt_cuts(old(self).transposition_table, state.zobrist_hash, depth as int, alpha, beta)
                && (depth == 0 || spec_game_over(state@)) ==> r.0 as int == spec_evaluate(
                state@,
                original_max_depth as int,
                original_max_depth as int - depth as int,
            ) && r.1 == Move::invalid_spec(),
            !tt_cuts(old(self).transposition_table, state.zobrist_hash, depth as int, alpha, beta)
                ==> result_recorded(
                final(self).transposition_table,
                state.zobrist_hash,
                r.0,
                depth,
                alpha,
                beta,
            ),
        decreases depth,
    {
        if self.nodes_evaluated < u64::MAX {
            self.nodes_evaluated = self.nodes_evaluated + 1;
        }

        // Transposition lookup: a stored result deep enough to trust is
        // returned at once when its bound type allows; its best move seeds
        // the ordering either way.
        let zobrist_key = state.get_zobrist_hash();
        let mut tt_best = Move::invalid();
        match self.transposition_table.lookup(zobrist_key) {
            Some(entry) => {
                if self.cache_hits < u64::MAX {
                    self.cache_hits = self.cache_hits + 1;
                }
                let cut = entry.depth >= depth && (entry.entry_type == CacheEntryType::Exact || (
                entry.entry_type == CacheEntryType::LowerBound && entry.score >= beta) || (
                entry.entry_type == CacheEntryType::UpperBound && entry.score <= alpha));
                if cut {
                    // Hand the recorded move on only when the rules still
                    // accept it here; a colliding position's move must not
                    // escape.
                    let tt_move = if entry.best_move.is_valid() && RuleEngine::is_legal_move(
                        state,
                        &entry.best_move,
                    ) {
                        entry.best_move
                    } else {
                        Move::invalid()
                    };
                    return (entry.score, tt_move);
                }
                if entry.best_move.is_valid() {
                    self.previous_best_move = entry.best_move;
                    tt_best = entry.best_move;
                }
            },
            None => {},
        }
        proof {
            assert(!tt_cuts(
                old(self).transposition_table,
                state.zobrist_hash,
                depth as int,
                alpha,
                beta,
            ));
        }

        // Depth exhausted or game over: the static evaluation stands.
        if depth == 0 || state.is_game_over() {
            let score = Evaluator::evaluate(state, original_max_depth, original_max_depth - depth);
            let ghost tmid = self.transposition_table;
            self.transposition_table.store(
                zobrist_key,
                score,
                depth,
                Move::invalid(),
                CacheEntryType::Exact,
            );
            proof {
                crate::transposition_table::lemma_store_records(
                    tmid,
                    self.transposition_table,
                    zobrist_key,
                    score,
                    depth,
                    Move::invalid_spec(),
                    CacheEntryType::Exact,
                );
            }
            return (score, Move::invalid());
        }

        // Ordered candidates, with the killers of this depth in front.
        let mut moves = self.generate_ordered_moves(state);
        let killer0 = self.killers[(depth as usize) * 2];
        let killer1 = self.killers[(depth as usize) * 2 + 1];
        promote_killer(&mut moves, killer1);
        promote_killer(&mut moves, killer0);
        if moves.len() == 0 {
            let score = Evaluator::evaluate(state, original_max_depth, original_max_depth - depth);
            let ghost tmid = self.transposition_table;
            self.transposition_table.store(
                zobrist_key,
                score,
                depth,
                Move::invalid(),
                CacheEntryType::Exact,
            );
            proof {
                crate::transposition_table::lemma_store_records(
                    tmid,
                    self.transposition_table,
                    zobrist_key,
                    score,
                    depth,
                    Move::invalid_spec(),
                    CacheEntryType::Exact,
                );
            }
            return (score, Move::invalid());
        }

        let original_alpha = alpha;
        let mut alpha_v = alpha;
        let mut beta_v = beta;
        let mut current_best_move = Move::invalid();
        let mut any = false;

        if maximizing {
            let mut max_eval: i32 = -SCORE_LIMIT - 1;
            let mut idx: usize = 0;
            while idx < moves.len()
                invariant_except_break
                    idx <= moves@.len(),
                invariant
                    self.wf(),
                    state.wf(),
                    state.hash_ok(),
                    1 <= depth <= original_max_depth <= MAX_SEARCH_DEPTH,
                    state.turn_count + depth < i32::MAX,
                    alpha_v < i32::MAX,
                    beta_v == beta,
                    beta > i32::MIN,
                    zobrist_key == state.zobrist_hash,
                    !spec_game_over(state@),
                    !tt_cuts(
                        old(self).transposition_table,
                        state.zobrist_hash,
                        depth as int,
                        alpha,
                        beta,
                    ),
                    self.transposition_table.current_generation == old(
                        self,
                    ).transposition_table.current_generation,
                    current_best_move == Move::invalid_spec() || spec_legal(
                        state@,
                        current_best_move,
                    ),
                    any ==> -SCORE_LIMIT <= max_eval <= SCORE_LIMIT,
                    !any ==> max_eval == -SCORE_LIMIT - 1,
                ensures
                    self.wf(),
                    self.transposition_table.current_generation == old(
                        self,
                    ).transposition_table.current_generation,
                    current_best_move == Move::invalid_spec() || spec_legal(
                        state@,
                        current_best_move,
                    ),
                    any ==> -SCORE_LIMIT <= max_eval <= SCORE_LIMIT,
                    !any ==> max_eval == -SCORE_LIMIT - 1,
                decreases moves@.len() - idx,
            {
                let mv = moves[idx];
                let mut child = state.clone();
                let res = RuleEngine::apply_move(&mut child, &self.zobrist, &mv);
                if res.success {
                    if res.creates_win {
                        // An immediate win ends the node: a mate score,
                        // adjusted so nearer mates score higher.
                        let mate = WIN - (original_max_depth - depth + 1);
                        let ghost tmid = self.transposition_table;
                        self.transposition_table.store(
                            zobrist_key,
                            mate,
                            depth,
                            mv,
                            CacheEntryType::Exact,
                        );
                        proof {
                            crate::transposition_table::lemma_store_records(
                                tmid,
                                self.transposition_table,
                                zobrist_key,
                                mate,
                                depth,
                                mv,
                                CacheEntryType::Exact,
                            );
                        }
                        return (mate, mv);
                    }
                    let mut eval: i32;
                    if idx >= 2 && depth >= 3 {
                        // Late-move reduction: a shallow null-window probe
                        // first; only a promising probe earns the full
                        // re-search.
                        let (reduced, _) = self.minimax(
                            &child,
                            depth - 2,
                            alpha_v,
                            alpha_v + 1,
                            false,
                            original_max_depth,
                        );
                        if reduced > alpha_v {
                            let (full, _) = self.minimax(
                                &child,
                                depth - 1,
                                alpha_v,
                                beta_v,
                                false,
                                original_max_depth,
                            );
                            eval = full;
                        } else {
                            eval = reduced;
                        }
                    } else {
                        let (full, _) = self.minimax(
                            &child,
                            depth - 1,
                            alpha_v,
                            beta_v,
                            false,
                            original_max_depth,
                        );
                        eval = full;
                    }
                    if eval > max_eval {
                        max_eval = eval;
                        current_best_move = mv;
                    }
                    any = true;
                    if eval > alpha_v {
                        alpha_v = eval;
                    }
                    if beta_v <= alpha_v {
                        // Beta cutoff: remember the move that caused it.
                        self.record_killer(depth, mv);
                        if mv.is_valid() {
                            self.bump_history(mv, depth);
                        }
                        break ;
                    }
                }
                idx = idx + 1;
            }
            if !any {
                let score = Evaluator::evaluate(
                    state,
                    original_max_depth,
                    original_max_depth - depth,
                );
                let ghost tmid = self.transposition_table;
                self.transposition_table.store(
                    zobrist_key,
                    score,
                    depth,
                    Move::invalid(),
                    CacheEntryType::Exact,
                );
                proof {
                    crate::transposition_table::lemma_store_records(
                        tmid,
                        self.transposition_table,
                        zobrist_key,
                        score,
                        depth,
                        Move::invalid_spec(),
                        CacheEntryType::Exact,
                    );
                }
                return (score, Move::invalid());
            }
            let entry_type = if max_eval <= original_alpha {
                CacheEntryType::UpperBound
            } else if max_eval >= beta {
                CacheEntryType::LowerBound
            } else {
                CacheEntryType::Exact
            };
            let ghost tmid = self.transposition_table;
            self.transposition_table.store(
                zobrist_key,
                max_eval,
                depth,
                current_best_move,
                entry_type,
            );
            proof {
                crate::transposition_table::lemma_store_records(
                    tmid,
                    self.transposition_table,
                    zobrist_key,
                    max_eval,
                    depth,
                    current_best_move,
                    entry_type,
                );
                assert(entry_type == spec_bound_type(
                    max_eval as int,
                    alpha as int,
                    beta as int,
                ));
            }
            (max_eval, current_best_move)
        } else {
            let mut min_eval: i32 = SCORE_LIMIT + 1;
            let mut idx: usize = 0;
            while idx < moves.len()
                invariant_except_break
                    idx <= moves@.len(),
                invariant
                    self.wf(),
                    state.wf(),
                    state.hash_ok(),
                    1 <= depth <= original_max_depth <= MAX_SEARCH_DEPTH,
                    state.turn_count + depth < i32::MAX,
                    beta_v > i32::MIN,
                    alpha_v == alpha,
                    alpha < i32::MAX,
                    zobrist_key == state.zobrist_hash,
                    !spec_game_over(state@),
                    !tt_cuts(
                        old(self).transposition_table,
                        state.zobrist_hash,
                        depth as int,
                        alpha,
                        beta,
                    ),
                    self.transposition_table.current_generation == old(
                        self,
                    ).transposition_table.current_generation,
                    current_best_move == Move::invalid_spec() || spec_legal(
                        state@,
                        current_best_move,
                    ),
                    any ==> -SCORE_LIMIT <= min_eval <= SCORE_LIMIT,
                    !any ==> min_eval == SCORE_LIMIT + 1,
                ensures
                    self.wf(),
                    self.transposition_table.current_generation == old(
                        self,
                    ).transposition_table.current_generation,
                    current_best_move == Move::invalid_spec() || spec_legal(
                        state@,
                        current_best_move,
                    ),
                    any ==> -SCORE_LIMIT <= min_eval <= SCORE_LIMIT,
                    !any ==> min_eval == SCORE_LIMIT + 1,
                decreases moves@.len() - idx,
            {
                let mv = moves[idx];
                let mut child = state.clone();
                let res = RuleEngine::apply_move(&mut child, &self.zobrist, &mv);
                if res.success {
                    if res.creates_win {
                        let mate = -WIN + (original_max_depth - depth + 1);
                        let ghost tmid = self.transposition_table;
                        self.transposition_table.store(
                            zobrist_key,
                            mate,
                            depth,
                            mv,
                            CacheEntryType::Exact,
                        );
                        proof {
                            crate::transposition_table::lemma_store_records(
                                tmid,
                                self.transposition_table,
                                zobrist_key,
                                mate,
                                depth,
                                mv,
                                CacheEntryType::Exact,
                            );
                        }
                        return (mate, mv);
                    }
                    let mut eval: i32;
                    if idx >= 2 && depth >= 3 {
                        let (reduced, _) = self.minimax(
                            &child,
                            depth - 2,
                            beta_v - 1,
                            beta_v,
                            true,
                            original_max_depth,
                        );
                        if reduced < beta_v {
                            let (full, _) = self.minimax(
                                &child,
                                depth - 1,
                                alpha_v,
                                beta_v,
                                true,
                                original_max_depth,
                            );
                            eval = full;
                        } else {
                            eval = reduced;
                        }
                    } else {
                        let (full, _) = self.minimax(
                            &child,
                            depth - 1,
                            alpha_v,
                            beta_v,
                            true,
                            original_max_depth,
                        );
                        eval = full;
                    }
                    if eval < min_eval {
                        min_eval = eval;
                        current_best_move = mv;
                    }
                    any = true;
                    if eval < beta_v {
                        beta_v = eval;
                    }
                    if beta_v <= alpha_v {
                        self.record_killer(depth, mv);
                        if mv.is_valid() {
                            self.bump_history(mv, depth);
                        }
                        break ;
                    }
                }
                idx = idx + 1;
            }
            if !any {
                let score = Evaluator::evaluate(
                    state,
                    original_max_depth,
                    original_max_depth - depth,
                );
                let ghost tmid = self.transposition_table;
                self.transposition_table.store(
                    zobrist_key,
                    score,
                    depth,
                    Move::invalid(),
                    CacheEntryType::Exact,
                );
                proof {
                    crate::transposition_table::lemma_store_records(
                        tmid,
                        self.transposition_table,
                        zobrist_key,
                        score,
                        depth,
                        Move::invalid_spec(),
                        CacheEntryType::Exact,
                    );
                }
                return (score, Move::invalid());
            }
            let entry_type = if min_eval <= original_alpha {
                CacheEntryType::UpperBound
            } else if min_eval >= beta {
                CacheEntryType::LowerBound
            } else {
                CacheEntryType::Exact
            };
            let ghost tmid = self.transposition_table;
            self.transposition_table.store(
                zobrist_key,
                min_eval,
                depth,
                current_best_move,
                entry_type,
            );
            proof {
                crate::transposition_table::lemma_store_records(
                    tmid,
                    self.transposition_table,
                    zobrist_key,
                    min_eval,
                    depth,
                    current_best_move,
                    entry_type,
                );
                assert(entry_type == spec_bound_type(
                    min_eval as int,
                    alpha as int,
                    beta as int,
                ));
            }
            (min_eval, current_best_move)
        }
    }

    /// Iterative deepening around the recursive search: a pre-check for an
    /// immediately winning candidate, then depth after depth with history
    /// decay in between, stopping early once a forced result is proven.
    /// The transposition table's generation advances exactly once per
    /// top-level call, so entries of earlier calls age uniformly.
    fn find_best_move_iterative(&mut self, state: &GameState, max_depth: i32) -> (r: Move)
        requires
            old(self).wf(),
            state.wf(),
            state.hash_ok(),
            1 <= max_depth <= MAX_SEARCH_DEPTH,
            state.turn_count + max_depth < i32::MAX,
        ensures
            final(self).wf(),
            final(self).transposition_table.current_generation == if old(
                self,
            ).transposition_table.current_generation < u32::MAX {
                old(self).transposition_table.current_generation + 1
            } else {
                old(self).transposition_table.current_generation as int
            },
            empties(state@.board, 361).len() > 0 ==> r.valid() && cell_at(
                state@.board,
                r.x as int,
                r.y as int,
            ) == 0,
            (exists|m: Move| #[trigger] spec_legal(state@, m)) ==> spec_legal(state@, r),
            (forall|i: int| 0 <= i < 361 ==> #[trigger] state@.board[i] == 0) ==> r == (Move {
                x: 9i32,
                y: 9i32,
            }) && final(self).nodes_evaluated == 0,
    {
        self.nodes_evaluated = 0;
        self.cache_hits = 0;
        self.transposition_table.increment_generation();
        let ghost gen1 = self.transposition_table.current_generation;
        self.reset_search_tables();

        // A fully empty board needs no search: the opening move is the
        // board centre, which a bare board cannot forbid.
        if Self::is_board_empty(state) {
            proof {
                crate::rules::lemma_empty_board_center_legal(state@);
            }
            return Move::new(9, 9);
        }

        // Pre-check: a candidate that wins at once is played at once.
        let all_candidates = MoveOrdering::generate_candidates_adaptive_radius(
            state,
            &self.history,
        );
        let mut p: usize = 0;
        while p < all_candidates.len()
            invariant
                self.wf(),
                state.wf(),
                state.hash_ok(),
                p <= all_candidates@.len(),
                all_valid(all_candidates@),
                forall|k: int|
                    0 <= k < all_candidates@.len() ==> cell_at(
                        state@.board,
                        (#[trigger] all_candidates@[k]).x as int,
                        all_candidates@[k].y as int,
                    ) == 0,
                state.turn_count < i32::MAX,
                !(forall|i: int| 0 <= i < 361 ==> #[trigger] state@.board[i] == 0),
                self.transposition_table.current_generation == gen1,
                gen1 as int == (if old(self).transposition_table.current_generation < u32::MAX {
                    old(self).transposition_table.current_generation + 1
                } else {
                    old(self).transposition_table.current_generation as int
                }),
            decreases all_candidates@.len() - p,
        {
            let mv = all_candidates[p];
            let mut test_state = state.clone();
            let res = RuleEngine::apply_move(&mut test_state, &self.zobrist, &mv);
            if res.success && res.creates_win {
                return mv;
            }
            p = p + 1;
        }

        // Iterative deepening with history decay and a near-mate early
        // exit.
        let mut best_move = Move::invalid();
        let mut depth: i32 = 1;
        while depth <= max_depth
            invariant
                self.wf(),
                state.wf(),
                state.hash_ok(),
                1 <= depth <= max_depth + 1,
                1 <= max_depth <= MAX_SEARCH_DEPTH,
                state.turn_count + max_depth < i32::MAX,
                self.transposition_table.current_generation == gen1,
                gen1 as int == (if old(self).transposition_table.current_generation < u32::MAX {
                    old(self).transposition_table.current_generation + 1
                } else {
                    old(self).transposition_table.current_generation as int
                }),
                best_move.valid() ==> spec_legal(state@, best_move),
                !(forall|i: int| 0 <= i < 361 ==> #[trigger] state@.board[i] == 0),
            ensures
                self.wf(),
                self.transposition_table.current_generation == gen1,
                gen1 as int == (if old(self).transposition_table.current_generation < u32::MAX {
                    old(self).transposition_table.current_generation + 1
                } else {
                    old(self).transposition_table.current_generation as int
                }),
                best_move.valid() ==> spec_legal(state@, best_move),
                !(forall|i: int| 0 <= i < 361 ==> #[trigger] state@.board[i] == 0),
            decreases max_depth + 1 - depth,
        {
            self.nodes_evaluated = 0;
            self.cache_hits = 0;
            if best_move.is_valid() {
                self.previous_best_move = best_move;
            }
            let (score, move_at_depth) = self.minimax(
                state,
                depth,
                i32::MIN + 1,
                i32::MAX - 1,
                state.current_player == crate::board::PLAYER2,
                depth,
            );
            if RuleEngine::is_legal_move(state, &move_at_depth) {
                best_move = move_at_depth;
            }
            let magnitude = if score >= 0 {
                score
            } else {
                -score
            };
            if magnitude > NEAR_MATE {
                break ;
            }
            self.decay_history();
            depth = depth + 1;
        }

        if best_move.is_valid() {
            return best_move;
        }

        // The search kept nothing: fall back to the first candidate the
        // rules accept, then to any legal cell at all, then to the first
        // zone candidate, before conceding that no move exists.
        let mut q: usize = 0;
        while q < all_candidates.len()
            invariant
                self.wf(),
                state.wf(),
                !(forall|i: int| 0 <= i < 361 ==> #[trigger] state@.board[i] == 0),
                self.transposition_table.current_generation == gen1,
                gen1 as int == (if old(self).transposition_table.current_generation < u32::MAX {
                    old(self).transposition_table.current_generation + 1
                } else {
                    old(self).transposition_table.current_generation as int
                }),
                q <= all_candidates@.len(),
                forall|k: int|
                    0 <= k < q ==> !spec_legal(state@, #[trigger] all_candidates@[k]),
            decreases all_candidates@.len() - q,
        {
            let cand = all_candidates[q];
            if RuleEngine::is_legal_move(state, &cand) {
                return cand;
            }
            q = q + 1;
        }
        let legal_cells = state.get_legal_moves();
        let mut w: usize = 0;
        while w < legal_cells.len()
            invariant
                self.wf(),
                state.wf(),
                !(forall|i: int| 0 <= i < 361 ==> #[trigger] state@.board[i] == 0),
                self.transposition_table.current_generation == gen1,
                gen1 as int == (if old(self).transposition_table.current_generation < u32::MAX {
                    old(self).transposition_table.current_generation + 1
                } else {
                    old(self).transposition_table.current_generation as int
                }),
                legal_cells@ == empties(state@.board, 361),
                w <= legal_cells@.len(),
                forall|k: int| 0 <= k < w ==> !spec_legal(state@, #[trigger] legal_cells@[k]),
            decreases legal_cells@.len() - w,
        {
            let cand = legal_cells[w];
            if RuleEngine::is_legal_move(state, &cand) {
                return cand;
            }
            w = w + 1;
        }
        proof {
            // Every empty cell was tried and refused: no legal move exists.
            assert forall|m: Move| !#[trigger] spec_legal(state@, m) by {
                if spec_legal(state@, m) {
                    crate::board::lemma_empties_complete(
                        state@.board,
                        m.x as int,
                        m.y as int,
                        361,
                    );
                    let k = choose|k: int|
                        0 <= k < empties(state@.board, 361).len() && #[trigger] empties(
                            state@.board,
                            361,
                        )[k] == (Move { x: ((m.x as int) as i32), y: ((m.y as int) as i32) });
                    assert(empties(state@.board, 361)[k] == m);
                    assert(false);
                }
            }
        }
        if all_candidates.len() > 0 {
            return all_candidates[0];
        }
        proof {
            assert(empties(state@.board, 361).len() == 0);
        }
        Move::invalid()
    }

    /// The engine's entry point: run the iterative-deepening search and
    /// return the chosen move — a move the rules accept whenever any
    /// exists, and the board centre on an empty board. Each call advances
    /// the transposition table's generation exactly once.
    pub fn get_best_move(&mut self, state: &GameState, max_depth: i32) -> (r: Move)
        requires
            old(self).wf(),
            state.wf(),
            state.hash_ok(),
            1 <= max_depth <= MAX_SEARCH_DEPTH,
            state.turn_count + max_depth < i32::MAX,
        ensures
            final(self).wf(),
            final(self).transposition_table.current_generation == if old(
                self,
            ).transposition_table.current_generation < u32::MAX {
                old(self).transposition_table.current_generation + 1
            } else {
                old(self).transposition_table.current_generation as int
            },
            empties(state@.board, 361).len() > 0 ==> r.valid() && cell_at(
                state@.board,
                r.x as int,
                r.y as int,
            ) == 0,
            (exists|m: Move| #[trigger] spec_legal(state@, m)) ==> spec_legal(state@, r),
            (forall|i: int| 0 <= i < 361 ==> #[trigger] state@.board[i] == 0) ==> r == (Move {
                x: 9i32,
                y: 9i32,
            }) && final(self).nodes_evaluated == 0,
    {
        self.find_best_move_iterative(state, max_depth)
    }

    /// True when no stone stands on the board.
    fn is_board_empty(state: &GameState) -> (r: bool)
        requires
            state.wf(),
        ensures
            r == forall|i: int| 0 <= i < 361 ==> #[trigger] state@.board[i] == 0,
    {
        let mut i: usize = 0;
        while i < 361
            invariant
                state.wf(),
                i <= 361,
                forall|k: int| 0 <= k < i ==> #[trigger] state@.board[k] == 0,
            decreases 361 - i,
        {
            if self_board_cell(state, i) != 0 {
                return false;
            }
            i = i + 1;
        }
        true
    }
}

/// Depth `k` of a deepening run proved a forced result: the score's
/// magnitude exceeds the near-mate threshold.
pub open spec fn mate_proven(scores: Seq<int>, k: int) -> bool {
    scores[k] > NEAR_MATE || scores[k] < -NEAR_MATE
}

/// The first depth index below `d` whose score proves a mate, or `d` when
/// none does.
pub open spec fn first_mate(scores: Seq<int>, d: int) -> int
    decreases d,
{
    if d <= 0 {
        0
    } else if first_mate(scores, d - 1) < d - 1 {
        first_mate(scores, d - 1)
    } else if mate_proven(scores, d - 1) {
        d - 1
    } else {
        d
    }
}

/// The depth index whose result the deepening loop keeps when it may run
/// up to `d` iterations: the first mate-proving iteration, or the last
/// one.
pub open spec fn last_iteration(scores: Seq<int>, d: int) -> int {
    if first_mate(scores, d) <= d - 1 {
        first_mate(scores, d)
    } else {
        d - 1
    }
}

/// `first_mate` never exceeds its bound and is exact: below it no score
/// proves a mate, and at it one does when it lies below the bound.
proof fn lemma_first_mate_shape(scores: Seq<int>, d: int)
    requires
        d >= 0,
    ensures
        0 <= first_mate(scores, d) <= d,
        forall|k: int| 0 <= k < first_mate(scores, d) ==> !mate_proven(scores, k),
        first_mate(scores, d) < d ==> mate_proven(scores, first_mate(scores, d)),
    decreases d,
{
    if d > 0 {
        lemma_first_mate_shape(scores, d - 1);
    }
}

/// Once some depth below `d1` proves a mate, allowing deeper budgets does
/// not move the first mate-proving depth.
proof fn lemma_first_mate_stable(scores: Seq<int>, d1: int, d2: int)
    requires
        0 <= d1 <= d2,
        first_mate(scores, d1) < d1,
    ensures
        first_mate(scores, d2) == first_mate(scores, d1),
    decreases d2 - d1,
{
    if d2 > d1 {
        lemma_first_mate_stable(scores, d1, d2 - 1);
    }
}

/// Deepening past a proven mate cannot change the returned move. With the
/// per-depth search results abstracted as a sequence of scores, the
/// deepening loop stops right after the first depth whose score's
/// magnitude exceeds the near-mate threshold — so when some depth below
/// the budget `d1` proves a mate, every larger budget `d2` keeps the
/// result of exactly the same iteration.
pub proof fn lemma_mate_stops_deepening(scores: Seq<int>, d1: int, d2: int)
    requires
        1 <= d1 <= d2,
        exists|k: int| 0 <= k < d1 && #[trigger] mate_proven(scores, k),
    ensures
        last_iteration(scores, d1) == last_iteration(scores, d2),
{
    let k = choose|k: int| 0 <= k < d1 && #[trigger] mate_proven(scores, k);
    lemma_first_mate_shape(scores, d1);
    if first_mate(scores, d1) >= d1 {
        assert(!mate_proven(scores, k));
        assert(false);
    }
    lemma_first_mate_stable(scores, d1, d2);
}

/// Move the first occurrence of `k`, if any, to the front of the list,
/// keeping the other moves in their relative order.
fn promote_killer(moves: &mut Vec<Move>, k: Move)
    requires
        all_valid(old(moves)@),
    ensures
        final(moves)@.len() == old(moves)@.len(),
        all_valid(final(moves)@),
{
    let ghost orig = moves@;
    if !k.is_valid() {
        return;
    }
    let mut found: usize = moves.len();
    let mut s: usize = 0;
    while s < moves.len()
        invariant
            moves@ == orig,
            s <= moves@.len(),
            found <= moves@.len(),
            found < moves@.len() ==> moves@[found as int] == k,
        decreases moves@.len() - s,
    {
        if found == moves.len() && moves[s] == k {
            found = s;
        }
        s = s + 1;
    }
    if found < moves.len() {
        let m = moves.remove(found);
        moves.insert(0, m);
        proof {
            assert forall|j: int| 0 <= j < moves@.len() implies (#[trigger] moves@[j]).valid() by {
                if j == 0 {
                    assert(moves@[0] == orig[found as int]);
                } else if j <= found {
                    assert(moves@[j] == orig[j - 1]);
                } else {
                    assert(moves@[j] == orig[j]);
                }
            }
        }
    }
}

/// The flat board cell at index `i`.
fn self_board_cell(state: &GameState, i: usize) -> (r: i32)
    requires
        state.wf(),
        i < 361,
    ensures
        r == state@.board[i as int],
{
    state.board[i]
}

} // verus!
