use gomoku_ai::board::GameState;
use gomoku_ai::board::Move;
use gomoku_ai::board::state_from_flat;
use gomoku_ai::rules::RuleEngine;
use gomoku_ai::zobrist::ZobristTable;

fn empty_flat_board() -> Vec<i32> {
    let mut b = Vec::new();
    let mut i = 0;
    while i < 361 {
        b.push(0);
        i += 1;
    }
    b
}

fn put(b: &mut Vec<i32>, x: usize, y: usize, v: i32) {
    b[x * 19 + y] = v;
}

#[test]
fn move_validity() {
    assert!(Move::new(0, 0).is_valid());
    assert!(Move::new(18, 18).is_valid());
    assert!(!Move::new(-1, 5).is_valid());
    assert!(!Move::new(5, 19).is_valid());
    assert!(!Move::invalid().is_valid());
}

#[test]
fn new_state_is_empty_and_hash_matches_recomputation() {
    let z = ZobristTable::new();
    let s = GameState::new(&z);
    assert_eq!(s.current_player, 1);
    assert_eq!(s.turn_count, 0);
    assert_eq!(s.captures[0], 0);
    assert_eq!(s.captures[1], 0);
    assert!(s.is_empty(9, 9));
    assert_eq!(s.get_zobrist_hash(), z.compute_full_hash(&s));
    assert_eq!(s.get_legal_moves().len(), 361);
}

#[test]
fn zobrist_tables_are_reproducible() {
    let z1 = ZobristTable::new();
    let z2 = ZobristTable::new();
    assert_eq!(z1.piece_key(0, 0, 1), z2.piece_key(0, 0, 1));
    assert_eq!(z1.piece_key(18, 18, 2), z2.piece_key(18, 18, 2));
    assert_eq!(z1.turn_key(), z2.turn_key());
    assert_eq!(z1.capture_key(0, 3), z2.capture_key(0, 3));
    // The empty cell contributes nothing.
    assert_eq!(z1.piece_key(7, 11, 0), 0);
    // Counts clamp at the winning threshold.
    assert_eq!(z1.capture_key(1, 10), z1.capture_key(1, 25));
}

#[test]
fn incremental_hash_stays_in_sync_over_a_game() {
    let z = ZobristTable::new();
    let mut s = GameState::new(&z);
    let moves = [(9, 9), (9, 10), (10, 10), (8, 8), (5, 5), (9, 11)];
    for &(x, y) in moves.iter() {
        let r = RuleEngine::apply_move(&mut s, &z, &Move::new(x, y));
        assert!(r.success);
        assert_eq!(s.get_zobrist_hash(), z.compute_full_hash(&s));
    }
}

#[test]
fn make_and_unmake_restore_board_and_hash() {
    let z = ZobristTable::new();
    let mut s = GameState::new(&z);
    let h0 = s.get_zobrist_hash();
    assert!(s.make_move(&z, Move::new(3, 4)));
    assert!(!s.is_empty(3, 4));
    assert_eq!(s.get_zobrist_hash(), z.compute_full_hash(&s));
    assert_eq!(s.current_player, 2);
    s.unmake_move(&z, Move::new(3, 4));
    assert!(s.is_empty(3, 4));
    assert_eq!(s.current_player, 1);
    assert_eq!(s.get_zobrist_hash(), h0);
}

#[test]
fn make_move_rejects_occupied_and_off_board() {
    let z = ZobristTable::new();
    let mut s = GameState::new(&z);
    assert!(s.make_move(&z, Move::new(0, 0)));
    assert!(!s.make_move(&z, Move::new(0, 0)));
    assert!(!s.make_move(&z, Move::new(-1, 0)));
    assert!(!s.make_move(&z, Move::new(0, 19)));
}

#[test]
fn capture_removes_the_flanked_pair() {
    // Row: A at (5,5), B at (5,6) and (5,7); A plays (5,8).
    let z = ZobristTable::new();
    let mut b = empty_flat_board();
    put(&mut b, 5, 5, 1);
    put(&mut b, 5, 6, 2);
    put(&mut b, 5, 7, 2);
    let mut s = state_from_flat(&b, 1, 3, 0, 0, 5, 7, &z).unwrap();
    let r = RuleEngine::apply_move(&mut s, &z, &Move::new(5, 8));
    assert!(r.success);
    assert_eq!(r.my_captured_pieces.len(), 2);
    assert!(s.is_empty(5, 6));
    assert!(s.is_empty(5, 7));
    assert_eq!(s.captures[0], 1);
    assert_eq!(s.get_zobrist_hash(), z.compute_full_hash(&s));
}

#[test]
fn capture_works_along_a_diagonal() {
    let z = ZobristTable::new();
    let mut b = empty_flat_board();
    put(&mut b, 8, 8, 1);
    put(&mut b, 7, 7, 2);
    put(&mut b, 6, 6, 2);
    let mut s = state_from_flat(&b, 1, 3, 0, 0, 6, 6, &z).unwrap();
    let r = RuleEngine::apply_move(&mut s, &z, &Move::new(5, 5));
    assert!(r.success);
    assert_eq!(r.my_captured_pieces.len(), 2);
    assert!(s.is_empty(7, 7));
    assert!(s.is_empty(6, 6));
    assert_eq!(s.captures[0], 1);
}

#[test]
fn completing_five_in_a_row_reports_a_win() {
    // A's stones at (5,5)..(5,8); playing (5,9) completes the five.
    let z = ZobristTable::new();
    let mut b = empty_flat_board();
    for y in 5..9 {
        put(&mut b, 5, y, 1);
    }
    let mut s = state_from_flat(&b, 1, 8, 0, 0, -1, -1, &z).unwrap();
    let r = RuleEngine::apply_move(&mut s, &z, &Move::new(5, 9));
    assert!(r.success);
    assert!(r.creates_win);
    assert!(s.is_game_over());
}

#[test]
fn ten_captures_win_the_game() {
    let z = ZobristTable::new();
    let b = empty_flat_board();
    let s = state_from_flat(&b, 1, 40, 10, 0, -1, -1, &z).unwrap();
    assert!(RuleEngine::check_win(&s, 1));
    assert!(!RuleEngine::check_win(&s, 2));
    assert!(s.is_game_over());
}

#[test]
fn double_free_three_is_rejected() {
    // Two stones on row 9 and two on column 9; (9,9) would complete two
    // open threes at once.
    let z = ZobristTable::new();
    let mut b = empty_flat_board();
    put(&mut b, 9, 7, 1);
    put(&mut b, 9, 8, 1);
    put(&mut b, 7, 9, 1);
    put(&mut b, 8, 9, 1);
    let mut s = state_from_flat(&b, 1, 8, 0, 0, -1, -1, &z).unwrap();
    let mv = Move::new(9, 9);
    assert!(s.is_empty(9, 9));
    assert!(RuleEngine::creates_double_free_three(&s, &mv, 1));
    assert!(!RuleEngine::is_legal_move(&s, &mv));
    let r = RuleEngine::apply_move(&mut s, &z, &mv);
    assert!(!r.success);
    assert!(s.is_empty(9, 9));
}

#[test]
fn single_free_three_is_legal() {
    let z = ZobristTable::new();
    let mut b = empty_flat_board();
    put(&mut b, 9, 7, 1);
    put(&mut b, 9, 8, 1);
    let s = state_from_flat(&b, 1, 4, 0, 0, -1, -1, &z).unwrap();
    assert!(RuleEngine::is_legal_move(&s, &Move::new(9, 9)));
}

#[test]
fn apply_move_rejects_occupied_and_off_board_cells() {
    let z = ZobristTable::new();
    let mut b = empty_flat_board();
    put(&mut b, 4, 4, 2);
    let mut s = state_from_flat(&b, 1, 1, 0, 0, -1, -1, &z).unwrap();
    let occupied = RuleEngine::apply_move(&mut s, &z, &Move::new(4, 4));
    assert!(!occupied.success);
    let off = RuleEngine::apply_move(&mut s, &z, &Move::new(19, 0));
    assert!(!off.success);
    let sentinel = RuleEngine::apply_move(&mut s, &z, &Move::invalid());
    assert!(!sentinel.success);
}

#[test]
fn count_in_direction_counts_the_run() {
    let z = ZobristTable::new();
    let mut b = empty_flat_board();
    put(&mut b, 9, 9, 1);
    put(&mut b, 9, 10, 1);
    put(&mut b, 9, 11, 1);
    put(&mut b, 9, 12, 2);
    let s = state_from_flat(&b, 1, 4, 0, 0, -1, -1, &z).unwrap();
    assert_eq!(
        RuleEngine::count_in_direction(&s, &Move::new(9, 9), 0, 1, 1),
        2
    );
    assert_eq!(
        RuleEngine::count_in_direction(&s, &Move::new(9, 9), 0, -1, 1),
        0
    );
    assert_eq!(
        RuleEngine::count_in_direction(&s, &Move::new(9, 12), 0, -1, 1),
        3
    );
}

#[test]
fn find_captures_lists_each_flanked_pair() {
    let z = ZobristTable::new();
    let mut b = empty_flat_board();
    // Two directions at once: east and north.
    put(&mut b, 9, 10, 2);
    put(&mut b, 9, 11, 2);
    put(&mut b, 9, 12, 1);
    put(&mut b, 8, 9, 2);
    put(&mut b, 7, 9, 2);
    put(&mut b, 6, 9, 1);
    let mut s = state_from_flat(&b, 1, 6, 0, 0, -1, -1, &z).unwrap();
    let r = RuleEngine::apply_move(&mut s, &z, &Move::new(9, 9));
    assert!(r.success);
    assert_eq!(r.my_captured_pieces.len(), 4);
    assert_eq!(s.captures[0], 2);
    assert!(s.is_empty(9, 10));
    assert!(s.is_empty(9, 11));
    assert!(s.is_empty(8, 9));
    assert!(s.is_empty(7, 9));
    assert_eq!(s.get_zobrist_hash(), z.compute_full_hash(&s));
}

#[test]
fn state_from_flat_rejects_bad_inputs() {
    let z = ZobristTable::new();
    let short = vec![0; 10];
    assert!(state_from_flat(&short, 1, 0, 0, 0, -1, -1, &z).is_none());
    let mut bad_cell = empty_flat_board();
    bad_cell[0] = 7;
    assert!(state_from_flat(&bad_cell, 1, 0, 0, 0, -1, -1, &z).is_none());
    let b = empty_flat_board();
    assert!(state_from_flat(&b, 3, 0, 0, 0, -1, -1, &z).is_none());
    assert!(state_from_flat(&b, 1, -1, 0, 0, -1, -1, &z).is_none());
    assert!(state_from_flat(&b, 1, 0, 11, 0, -1, -1, &z).is_none());
    assert!(state_from_flat(&b, 1, 0, 0, -2, -1, -1, &z).is_none());
    assert!(state_from_flat(&b, 1, 0, 0, 0, -1, -1, &z).is_some());
}

#[test]
fn winning_line_broken_by_capture_does_not_count() {
    // Five in a row for player 1, but player 2 can capture a pair that
    // touches the line: the win is not verified.
    let z = ZobristTable::new();
    let mut b = empty_flat_board();
    for y in 5..10 {
        put(&mut b, 5, y, 1);
    }
    // The pair (5,5)-(6,5)? Use a vertical pair through the line's first
    // cell: stones at (5,5) and (6,5) of player 1, with (4,5) held by
    // player 2 and (7,5) empty: OPP-PIECE-PIECE-EMPTY.
    put(&mut b, 6, 5, 1);
    put(&mut b, 4, 5, 2);
    let s = state_from_flat(&b, 2, 10, 0, 0, -1, -1, &z).unwrap();
    assert!(!RuleEngine::check_win(&s, 1));
}
