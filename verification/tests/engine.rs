use gomoku_ai::ai::AI;
use gomoku_ai::board::GameState;
use gomoku_ai::board::Move;
use gomoku_ai::board::state_from_flat;
use gomoku_ai::evaluator::Evaluator;
use gomoku_ai::evaluator::PatternInfo;
use gomoku_ai::move_ordering::MoveOrdering;
use gomoku_ai::rules::RuleEngine;
use gomoku_ai::transposition_table::CacheEntryType;
use gomoku_ai::transposition_table::TranspositionTable;
use gomoku_ai::zobrist::ZobristTable;

fn empty_flat_board() -> Vec<i32> {
    let mut b = Vec::new();
    let mut i = 0;
    while i < 361 {
        b.push(0);
        i += 1;
    }
    b
}

fn put(b: &mut Vec<i32>, x: usize, y: usize, v: i32) {
    b[x * 19 + y] = v;
}

fn zero_history() -> Vec<i32> {
    let mut h = Vec::new();
    let mut i = 0;
    while i < 361 {
        h.push(0);
        i += 1;
    }
    h
}

fn pattern(cc: i32, total: i32, fe: i32, gaps: bool, span: i32, gc: i32) -> PatternInfo {
    PatternInfo {
        consecutive_count: cc,
        total_pieces: total,
        free_ends: fe,
        has_gaps: gaps,
        total_span: span,
        gap_count: gc,
    }
}

#[test]
fn pattern_scores_match_the_fixed_point_values() {
    assert_eq!(Evaluator::pattern_to_score(&pattern(5, 5, 2, false, 5, 0)), 600000);
    assert_eq!(Evaluator::pattern_to_score(&pattern(4, 4, 2, false, 4, 0)), 50000);
    assert_eq!(Evaluator::pattern_to_score(&pattern(4, 4, 1, false, 4, 0)), 25000);
    assert_eq!(Evaluator::pattern_to_score(&pattern(3, 4, 2, true, 5, 1)), 50000);
    assert_eq!(Evaluator::pattern_to_score(&pattern(3, 3, 2, false, 3, 0)), 10000);
    assert_eq!(Evaluator::pattern_to_score(&pattern(3, 3, 1, false, 3, 0)), 1500);
    assert_eq!(Evaluator::pattern_to_score(&pattern(2, 2, 2, false, 2, 0)), 100);
    assert_eq!(Evaluator::pattern_to_score(&pattern(2, 2, 1, false, 2, 0)), 0);
    // A shape that cannot reach five is worth nothing even when closed.
    assert_eq!(Evaluator::pattern_to_score(&pattern(4, 4, 0, false, 4, 0)), 0);
}

#[test]
fn analyze_line_reads_an_open_three() {
    let z = ZobristTable::new();
    let mut b = empty_flat_board();
    put(&mut b, 9, 9, 1);
    put(&mut b, 9, 10, 1);
    put(&mut b, 9, 11, 1);
    let s = state_from_flat(&b, 1, 3, 0, 0, -1, -1, &z).unwrap();
    let p = Evaluator::analyze_line(&s, 9, 9, 0, 1, 1);
    assert_eq!(p.consecutive_count, 3);
    assert_eq!(p.total_pieces, 3);
    assert_eq!(p.free_ends, 2);
    assert!(!p.has_gaps);
    assert_eq!(p.total_span, 3);
    assert_eq!(Evaluator::pattern_to_score(&p), 10000);
}

#[test]
fn analyze_line_sees_a_gap() {
    let z = ZobristTable::new();
    let mut b = empty_flat_board();
    put(&mut b, 9, 9, 1);
    put(&mut b, 9, 10, 1);
    put(&mut b, 9, 12, 1);
    let s = state_from_flat(&b, 1, 3, 0, 0, -1, -1, &z).unwrap();
    let p = Evaluator::analyze_line(&s, 9, 9, 0, 1, 1);
    assert_eq!(p.consecutive_count, 2);
    assert_eq!(p.total_pieces, 3);
    assert!(p.has_gaps);
    // Every empty cell after the first stone counts, to the scan's end.
    assert_eq!(p.gap_count, 3);
    assert_eq!(p.total_span, 4);
}

#[test]
fn count_pattern_type_counts_the_open_three_once() {
    let z = ZobristTable::new();
    let mut b = empty_flat_board();
    put(&mut b, 9, 9, 1);
    put(&mut b, 9, 10, 1);
    put(&mut b, 9, 11, 1);
    let s = state_from_flat(&b, 1, 3, 0, 0, -1, -1, &z).unwrap();
    assert_eq!(Evaluator::count_pattern_type(&s, 1, 3, 2), 1);
    assert_eq!(Evaluator::count_pattern_type(&s, 1, 4, 2), 0);
    assert_eq!(Evaluator::count_pattern_type(&s, 2, 3, 2), 0);
}

#[test]
fn evaluate_is_zero_on_an_empty_board() {
    let z = ZobristTable::new();
    let s = GameState::new(&z);
    assert_eq!(Evaluator::evaluate(&s, 6, 0), 0);
}

#[test]
fn evaluate_prefers_the_searching_side() {
    // An open three for player 2 scores positive; the same for player 1
    // scores negative.
    let z = ZobristTable::new();
    let mut b = empty_flat_board();
    put(&mut b, 9, 9, 2);
    put(&mut b, 9, 10, 2);
    put(&mut b, 9, 11, 2);
    let s2 = state_from_flat(&b, 1, 3, 0, 0, -1, -1, &z).unwrap();
    assert!(Evaluator::evaluate(&s2, 6, 0) > 0);
    let mut c = empty_flat_board();
    put(&mut c, 9, 9, 1);
    put(&mut c, 9, 10, 1);
    put(&mut c, 9, 11, 1);
    let s1 = state_from_flat(&c, 1, 3, 0, 0, -1, -1, &z).unwrap();
    assert!(Evaluator::evaluate(&s1, 6, 0) < 0);
}

#[test]
fn evaluate_scores_a_finished_game_by_mate_distance() {
    let z = ZobristTable::new();
    let b = empty_flat_board();
    // Player 2 already has ten captures: a win for the searching side.
    let s = state_from_flat(&b, 1, 40, 0, 10, -1, -1, &z).unwrap();
    assert_eq!(Evaluator::evaluate(&s, 6, 2), 600000 - 2);
    assert_eq!(Evaluator::evaluate(&s, 6, 4), 600000 - 4);
    // The nearer win outranks the farther one.
    assert!(Evaluator::evaluate(&s, 6, 2) > Evaluator::evaluate(&s, 6, 4));
    // And ten for player 1 is a loss, worse when nearer.
    let t = state_from_flat(&b, 1, 40, 10, 0, -1, -1, &z).unwrap();
    assert_eq!(Evaluator::evaluate(&t, 6, 2), -600000 + 2);
    assert!(Evaluator::evaluate(&t, 6, 2) < Evaluator::evaluate(&t, 6, 4));
}

#[test]
fn has_winning_threats_spots_an_open_four() {
    let z = ZobristTable::new();
    let mut b = empty_flat_board();
    for y in 8..12 {
        put(&mut b, 9, y, 1);
    }
    let s = state_from_flat(&b, 2, 4, 0, 0, -1, -1, &z).unwrap();
    assert!(Evaluator::has_winning_threats(&s, 1));
    assert!(!Evaluator::has_winning_threats(&s, 2));
}

#[test]
fn capture_counts_score_on_a_steep_ramp() {
    let z = ZobristTable::new();
    let b = empty_flat_board();
    // Nine captures for player 1 against none: exactly the ramp value.
    let s = state_from_flat(&b, 1, 20, 9, 0, -1, -1, &z).unwrap();
    assert_eq!(Evaluator::evaluate_for_player(&s, 1), 300000);
    assert_eq!(Evaluator::evaluate_for_player(&s, 2), -400000);
    // Below the ramp the scoring is linear: three captures are worth 1500.
    let t = state_from_flat(&b, 1, 8, 3, 0, -1, -1, &z).unwrap();
    assert_eq!(Evaluator::evaluate_for_player(&t, 1), 1500);
    assert_eq!(Evaluator::evaluate_for_player(&t, 2), -2400);
}

#[test]
fn quick_evaluate_adds_line_and_capture_bonuses() {
    let z = ZobristTable::new();
    let mut b = empty_flat_board();
    // Two own stones east of the candidate: a line of three, and two
    // adjacent... only (9,10) is adjacent.
    put(&mut b, 9, 10, 1);
    put(&mut b, 9, 11, 1);
    let s = state_from_flat(&b, 1, 2, 0, 0, -1, -1, &z).unwrap();
    let h = zero_history();
    // Centrality 90, one adjacent own stone 50, line of three 1000.
    assert_eq!(MoveOrdering::quick_evaluate_move(&s, Move::new(9, 9), &h), 1140);
    // Flanking an opposing pair adds the capture bonus of 2000.
    let mut c = empty_flat_board();
    put(&mut c, 9, 10, 2);
    put(&mut c, 9, 11, 2);
    put(&mut c, 9, 12, 1);
    let t = state_from_flat(&c, 1, 3, 0, 0, -1, -1, &z).unwrap();
    // Centrality 90, one adjacent opponent 20, opposing line of two
    // nearby adds nothing below three, capture bonus 2000.
    assert_eq!(MoveOrdering::quick_evaluate_move(&t, Move::new(9, 9), &h), 2110);
}

#[test]
fn quick_evaluate_rewards_centrality() {
    let z = ZobristTable::new();
    let s = GameState::new(&z);
    let h = zero_history();
    assert_eq!(MoveOrdering::quick_evaluate_move(&s, Move::new(9, 9), &h), 90);
    assert_eq!(MoveOrdering::quick_evaluate_move(&s, Move::new(0, 0), &h), 0);
    assert_eq!(MoveOrdering::quick_evaluate_move(&s, Move::new(9, 5), &h), 50);
}

#[test]
fn quick_evaluate_adds_the_history_bonus() {
    let z = ZobristTable::new();
    let s = GameState::new(&z);
    let mut h = zero_history();
    h[9 * 19 + 9] = 700;
    assert_eq!(MoveOrdering::quick_evaluate_move(&s, Move::new(9, 9), &h), 790);
}

#[test]
fn candidates_on_an_empty_board_are_the_centre() {
    let z = ZobristTable::new();
    let s = GameState::new(&z);
    let h = zero_history();
    let c = MoveOrdering::generate_candidates_adaptive_radius(&s, &h);
    assert_eq!(c.len(), 1);
    assert_eq!(c[0], Move::new(9, 9));
}

#[test]
fn candidates_stay_near_the_stones() {
    let z = ZobristTable::new();
    let mut b = empty_flat_board();
    put(&mut b, 9, 9, 1);
    let s = state_from_flat(&b, 2, 1, 0, 0, 9, 9, &z).unwrap();
    let h = zero_history();
    let c = MoveOrdering::generate_candidates_adaptive_radius(&s, &h);
    // Early game: at most three candidates, all empty cells within the
    // extended zone around the last move.
    assert!(c.len() == 3);
    for m in c.iter() {
        assert!(m.is_valid());
        assert!(s.is_empty(m.x, m.y));
        assert!((m.x - 9).abs() <= 3 && (m.y - 9).abs() <= 3);
    }
}

#[test]
fn ordering_puts_the_previous_best_first() {
    let z = ZobristTable::new();
    let s = GameState::new(&z);
    let h = zero_history();
    let mut moves = vec![
        Move::new(0, 0),
        Move::new(5, 5),
        Move::new(9, 9),
        Move::new(2, 2),
    ];
    MoveOrdering::order_moves_with_previous_best(&mut moves, &s, Move::new(2, 2), &h);
    assert_eq!(moves.len(), 4);
    assert_eq!(moves[0], Move::new(2, 2));
    // The rest is ordered by falling quick score; (9,9) is the most
    // central of the remainder.
    assert_eq!(moves[1], Move::new(9, 9));
}

#[test]
fn ordering_sorts_by_quick_score_without_a_previous_best() {
    let z = ZobristTable::new();
    let s = GameState::new(&z);
    let h = zero_history();
    let mut moves = vec![
        Move::new(0, 0),
        Move::new(9, 9),
        Move::new(9, 5),
        Move::new(1, 1),
    ];
    MoveOrdering::order_moves_with_previous_best(&mut moves, &s, Move::invalid(), &h);
    assert_eq!(moves[0], Move::new(9, 9));
    assert_eq!(moves[1], Move::new(9, 5));
    assert_eq!(moves[3], Move::new(0, 0));
}

#[test]
fn transposition_round_trip_returns_the_stored_entry() {
    let mut t = TranspositionTable::new(1);
    let key: u64 = 0x0123456789ABCDEF;
    t.store(key, 12345, 6, Move::new(4, 7), CacheEntryType::Exact);
    let e = t.lookup(key).unwrap();
    assert_eq!(e.zobrist_key, key);
    assert_eq!(e.score, 12345);
    assert_eq!(e.depth, 6);
    assert_eq!(e.best_move, Move::new(4, 7));
    assert!(e.entry_type == CacheEntryType::Exact);
}

#[test]
fn transposition_collision_is_detected_by_the_key() {
    let mut t = TranspositionTable::new(1);
    let key: u64 = 0x1111_2222_3333_4444;
    t.store(key, 777, 5, Move::new(1, 1), CacheEntryType::Exact);
    // A different key mapping anywhere never returns the wrong entry.
    assert!(t.lookup(key ^ 0x8000_0000_0000_0000).is_none());
}

#[test]
fn transposition_same_key_keeps_the_deeper_entry() {
    let mut t = TranspositionTable::new(1);
    let key: u64 = 42;
    t.store(key, 100, 8, Move::new(2, 2), CacheEntryType::Exact);
    t.store(key, 50, 3, Move::new(3, 3), CacheEntryType::Exact);
    let e = t.lookup(key).unwrap();
    assert_eq!(e.depth, 8);
    assert_eq!(e.score, 100);
}

#[test]
fn generations_advance_once_per_call() {
    let mut t = TranspositionTable::new(1);
    assert_eq!(t.current_generation(), 1);
    t.increment_generation();
    t.increment_generation();
    assert_eq!(t.current_generation(), 3);
}

#[test]
fn cache_entry_importance_weighs_depth_and_bound() {
    let e = gomoku_ai::transposition_table::CacheEntry::new(
        1,
        0,
        4,
        Move::invalid(),
        CacheEntryType::Exact,
        1,
    );
    assert_eq!(e.get_importance_value(), 450);
    let l = gomoku_ai::transposition_table::CacheEntry::new(
        1,
        0,
        4,
        Move::invalid(),
        CacheEntryType::LowerBound,
        1,
    );
    assert_eq!(l.get_importance_value(), 425);
    let u = gomoku_ai::transposition_table::CacheEntry::new(
        1,
        0,
        4,
        Move::invalid(),
        CacheEntryType::UpperBound,
        1,
    );
    assert_eq!(u.get_importance_value(), 400);
}

#[test]
fn each_search_call_ages_the_table_by_one_generation() {
    let mut ai = AI::new();
    let g0 = ai.transposition_table.current_generation();
    let state = GameState::new(&ai.zobrist);
    ai.get_best_move(&state, 2);
    assert_eq!(ai.transposition_table.current_generation(), g0 + 1);
    ai.get_best_move(&state, 2);
    assert_eq!(ai.transposition_table.current_generation(), g0 + 2);
}

#[test]
fn empty_board_opening_is_the_centre_without_search() {
    let mut ai = AI::new();
    let state = GameState::new(&ai.zobrist);
    let mv = ai.get_best_move(&state, 4);
    assert_eq!(mv, Move::new(9, 9));
    let (nodes, _) = ai.get_stats();
    assert_eq!(nodes, 0);
}

#[test]
fn immediate_win_is_taken_by_the_pre_check() {
    let mut ai = AI::new();
    let mut b = empty_flat_board();
    for y in 5..9 {
        put(&mut b, 5, y, 2);
    }
    // Player 2 to move with four in a row: the chosen move must win on
    // the spot.
    let state = state_from_flat(&b, 2, 8, 0, 0, -1, -1, &ai.zobrist).unwrap();
    let mv = ai.get_best_move(&state, 3);
    let mut check = state.clone();
    let r = RuleEngine::apply_move(&mut check, &ai.zobrist, &mv);
    assert!(r.success);
    assert!(r.creates_win);
}

#[test]
fn search_returns_a_legal_empty_cell() {
    let mut ai = AI::new();
    let mut b = empty_flat_board();
    put(&mut b, 9, 9, 1);
    put(&mut b, 9, 10, 2);
    put(&mut b, 10, 9, 1);
    let state = state_from_flat(&b, 2, 3, 0, 0, 10, 9, &ai.zobrist).unwrap();
    let mv = ai.get_best_move(&state, 3);
    assert!(mv.is_valid());
    assert!(state.is_empty(mv.x, mv.y));
    assert!(RuleEngine::is_legal_move(&state, &mv));
}

#[test]
fn alpha_beta_equals_exhaustive_minimax_under_a_full_window() {
    // A nearly full board without a five-in-a-row: runs never exceed two
    // cells, and only a handful of cells stay free, so the exhaustive
    // reference stays cheap.
    let z = ZobristTable::new();
    let mut b = empty_flat_board();
    for x in 0..19usize {
        for y in 0..19usize {
            let v = if (x + y / 2) % 2 == 0 { 1 } else { 2 };
            put(&mut b, x, y, v);
        }
    }
    let free = [(0usize, 0usize), (0, 5), (4, 9), (9, 9), (18, 18)];
    for &(x, y) in free.iter() {
        put(&mut b, x, y, 0);
    }
    let s = state_from_flat(&b, 1, 300, 0, 0, -1, -1, &z).unwrap();
    for depth in 1..4 {
        let plain =
            gomoku_ai::reference_search::minimax_exhaustive(&s, &z, depth, true, depth);
        let pruned = gomoku_ai::reference_search::alphabeta_exhaustive(
            &s,
            &z,
            depth,
            -900000001,
            900000001,
            true,
            depth,
        );
        assert_eq!(plain, pruned);
    }
}

#[test]
fn deepening_keeps_the_move_once_a_mate_is_proven() {
    // A mate-in-one position: the pre-check and every deepening budget
    // agree on the winning move.
    let mut b = empty_flat_board();
    for y in 5..9 {
        put(&mut b, 5, y, 2);
    }
    let mut ai1 = AI::new();
    let s1 = state_from_flat(&b, 2, 8, 0, 0, -1, -1, &ai1.zobrist).unwrap();
    let shallow = ai1.get_best_move(&s1, 2);
    let mut ai2 = AI::new();
    let s2 = state_from_flat(&b, 2, 8, 0, 0, -1, -1, &ai2.zobrist).unwrap();
    let deep = ai2.get_best_move(&s2, 6);
    assert_eq!(shallow, deep);
}
