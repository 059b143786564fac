use chess_engine::bitboard::BitBoard;
use chess_engine::board::Board;
use chess_engine::chess_move::Move;
use chess_engine::coord::Coord;
use chess_engine::piece::{Piece, PieceEnum};

fn play(board: &mut Board, text: &str) -> Move {
    let m = Move::from_str(text).unwrap();
    board.make_move(m);
    m
}

#[test]
fn board_test_score() {
    let board = Board::new_game();
    assert_eq!(board.evaluate(), 0);
}

#[test]
fn start_has_twenty_moves() {
    let board = Board::new_game();
    let moves = board.get_all_moves();
    assert_eq!(moves.len(), 20);
    let pawn_moves = moves.iter().filter(|m| m.from.y == 1).count();
    assert_eq!(pawn_moves, 16);
    assert!(moves.iter().all(|m| !m.capture));
}

#[test]
fn make_then_undo_restores_position() {
    let mut board = Board::new_game();
    play(&mut board, "e2e4");
    play(&mut board, "d7d5");
    let before_text = board.to_fen();
    let before_flags = board.check_states[1];
    let before_turn = board.turn;
    let moves = board.get_all_moves();
    let capture = *moves
        .iter()
        .find(|m| m.capture && m.to == Coord::new(3, 4))
        .unwrap();
    board.make_move(capture);
    assert_eq!(board.to_fen(), "rnbqkbnr/ppp1pppp/8/3P4/8/8/PPPP1PPP/RNBQKBNR b");
    board.undo_move(capture);
    assert_eq!(board.to_fen(), before_text);
    assert_eq!(board.turn, before_turn);
    assert_eq!(board.check_states[1], before_flags);
}

#[test]
fn rook_on_open_file_gives_check() {
    let mut board = Board::new();
    board.set_piece(Coord::new(4, 0), Piece::new(PieceEnum::King, true));
    board.set_piece(Coord::new(4, 7), Piece::new(PieceEnum::Rook, false));
    board.update_flags();
    assert!(board.is_check(true));
    assert!(board.calculate_is_check(true));
}

#[test]
fn rook_behind_blocker_gives_no_check() {
    let mut board = Board::new();
    board.set_piece(Coord::new(4, 0), Piece::new(PieceEnum::King, true));
    board.set_piece(Coord::new(4, 3), Piece::new(PieceEnum::Knight, true));
    board.set_piece(Coord::new(4, 7), Piece::new(PieceEnum::Rook, false));
    board.update_flags();
    assert!(!board.is_check(true));
}

#[test]
fn missing_king_counts_as_check() {
    let mut board = Board::new();
    board.set_piece(Coord::new(4, 7), Piece::new(PieceEnum::Rook, false));
    board.update_flags();
    assert!(board.is_check(true));
}

#[test]
fn fools_mate_is_checkmate() {
    let mut board = Board::new_game();
    play(&mut board, "f2f3");
    play(&mut board, "e7e5");
    play(&mut board, "g2g4");
    play(&mut board, "d8h4");
    assert!(board.turn);
    assert!(board.is_check(true));
    assert!(board.is_checkmate(true));
    assert!(!board.is_stalemate(true));
    assert!(board.is_draw(true));
    assert!(board.is_game_over());
    assert!(board.get_all_moves().is_empty());
}

#[test]
fn check_filters_to_escapes() {
    let mut board = Board::new();
    board.set_piece(Coord::new(4, 0), Piece::new(PieceEnum::King, true));
    board.set_piece(Coord::new(4, 7), Piece::new(PieceEnum::Rook, false));
    board.set_piece(Coord::new(0, 7), Piece::new(PieceEnum::King, false));
    board.update_flags();
    let moves = board.get_all_moves();
    assert!(moves.iter().all(|m| m.to.x != 4));
    assert_eq!(moves.len(), 4);
}

#[test]
fn stalemate_is_flagged() {
    let board = Board::from_fen("K7/8/8/8/8/8/6pp/6pk b").unwrap();
    assert!(!board.is_check(false));
    assert!(board.is_stalemate(false));
    assert!(!board.is_checkmate(false));
    assert!(board.is_draw(false));
}

#[test]
fn pawn_double_step_needs_empty_path() {
    let board = Board::from_fen("4k3/8/8/8/8/4n3/4P3/4K3 w").unwrap();
    let moves = board.get_moves(Coord::new(4, 1));
    assert!(moves.is_empty());
}

#[test]
fn pawn_captures_diagonally() {
    let board = Board::from_fen("4k3/8/8/8/8/3p1p2/4P3/4K3 w").unwrap();
    let moves = board.get_moves(Coord::new(4, 1));
    assert_eq!(moves.len(), 4);
    assert_eq!(moves.iter().filter(|m| m.capture).count(), 2);
}

#[test]
fn knight_quiet_and_capture_split() {
    let board = Board::from_fen("4k3/8/8/8/8/3p4/8/2N1K3 w").unwrap();
    let moves = board.get_moves(Coord::new(2, 0));
    assert_eq!(moves.len(), 4);
    assert_eq!(moves.iter().filter(|m| m.capture).count(), 1);
    assert!(moves.iter().all(|m| m.to != Coord::new(4, 0) || m.capture));
}

#[test]
fn evaluation_follows_side_to_move() {
    let white = Board::from_fen("8/8/8/8/4P3/8/8/8 w").unwrap();
    assert_eq!(white.evaluate(), 25);
    let black = Board::from_fen("8/8/8/8/4P3/8/8/8 b").unwrap();
    assert_eq!(black.evaluate(), -20);
}

#[test]
fn piece_lookup_and_sides() {
    let board = Board::new_game();
    assert_eq!(board.get_piece(Coord::new(3, 0)), Some(Piece::new(PieceEnum::Queen, true)));
    assert_eq!(board.get_piece(Coord::new(4, 7)), Some(Piece::new(PieceEnum::King, false)));
    assert_eq!(board.get_piece(Coord::new(4, 4)), None);
    assert!(board.is_white(Coord::new(0, 1)));
    assert!(board.is_black(Coord::new(0, 6)));
    assert!(board.is_empty(Coord::new(0, 3)));
    assert!(board.is_opponent(Coord::new(0, 6)));
    assert_eq!(board.get_piece_index_coord(5, false), Some(Coord::new(4, 7)));
    assert_eq!(board.occupied_bitboard().get_board(), 0xFFFF00000000FFFF);
    assert_eq!(board.get_piece_bitboard(true).get_board(), 0xFFFF);
    assert_eq!(board.get_enemy_bitboard(true).get_board(), 0xFFFF000000000000);
    assert_eq!(BitBoard::from_coord(Coord::new(1, 0)).get_board(), 2);
}

#[test]
fn check_is_found_whatever_the_side_to_move() {
    let mut board = Board::new();
    board.set_piece(Coord::new(4, 7), Piece::new(PieceEnum::King, false));
    board.set_piece(Coord::new(4, 0), Piece::new(PieceEnum::Rook, true));
    board.update_flags();
    assert!(board.turn);
    assert!(board.calculate_is_check(false));
}
