use chess_engine::board::Board;
use chess_engine::chess_move::Move;
use chess_engine::engine::{Engine, TranspositionTable};

#[test]
fn evaluate_test_score() {
    let board = Board::new_game();
    assert_eq!(board.evaluate(), 0);
}

#[test]
fn engine_finds_mate_in_one() {
    let mut engine =
        Engine::from_fen("rnbqkbnr/pppp1ppp/8/4p3/6P1/5P2/PPPPP2P/RNBQKBNR b").unwrap();
    let before = engine.board.to_fen();
    let m = engine.get_best_move(2);
    assert_eq!(m.to_str(), "d8h4");
    assert_eq!(engine.board.to_fen(), before);
}

#[test]
fn engine_move_is_legal_and_board_restored() {
    let mut engine = Engine::new();
    let before = engine.board.to_fen();
    let m = engine.get_best_move(2);
    assert!(engine.get_all_moves().contains(&m));
    assert_eq!(engine.board.to_fen(), before);
}

#[test]
fn engine_without_moves_returns_null() {
    let mut engine =
        Engine::from_fen("rnb1kbnr/pppp1ppp/8/4p3/6Pq/5P2/PPPPP2P/RNBQKBNR w").unwrap();
    assert_eq!(engine.get_best_move(1), Move::null());
}

#[test]
fn table_stores_and_replaces() {
    let mut tt = TranspositionTable::new();
    let key = (String::from("8/8/8/8/8/8/8/8 w"), 2);
    assert_eq!(tt.get(&key), None);
    tt.set(key.clone(), 15);
    assert_eq!(tt.get(&key), Some(15));
    tt.set(key.clone(), -3);
    assert_eq!(tt.get(&key), Some(-3));
    assert_eq!(tt.get(&(String::from("8/8/8/8/8/8/8/8 w"), 3)), None);
}

fn full_negamax(board: &mut Board, depth: u32) -> i16 {
    if depth == 0 {
        return board.evaluate();
    }
    let mut max = -9999;
    for m in board.get_all_moves() {
        board.make_move(m);
        let score = -full_negamax(board, depth - 1);
        board.undo_move(m);
        max = max.max(score);
    }
    max
}

fn full_best_move(board: &mut Board, depth: u32) -> Move {
    let mut best_value = -9999;
    let mut best = Move::null();
    for m in board.get_all_moves() {
        board.make_move(m);
        let value = -full_negamax(board, depth - 1);
        board.undo_move(m);
        if value > best_value {
            best_value = value;
            best = m;
        }
    }
    best
}

fn same_choice(text: &str, depth: u32) {
    let mut engine = Engine::from_fen(text).unwrap();
    let mut board = Board::from_fen(text).unwrap();
    assert_eq!(engine.get_best_move(depth), full_best_move(&mut board, depth));
}

#[test]
fn pruning_keeps_the_choice_at_depth_two() {
    same_choice("rnbqkbnr/pppppppp/8/8/8/8/PPPPPPPP/RNBQKBNR w", 2);
    same_choice("r1bqkb1r/pppp1ppp/2n2n2/4p3/2B1P3/5N2/PPPP1PPP/RNBQK2R b", 2);
}

#[test]
fn pruning_keeps_the_choice_at_depth_three() {
    same_choice("4k3/8/8/3q4/4P3/8/8/4K2R w", 3);
    same_choice("6k1/5ppp/8/8/8/8/5PPP/R5K1 w", 3);
}
