use chess_engine::board::Board;
use chess_engine::chess_move::Move;
use chess_engine::coord::Coord;
use chess_engine::piece::{Piece, PieceEnum};

const START: &str = "rnbqkbnr/pppppppp/8/8/8/8/PPPPPPPP/RNBQKBNR w";

#[test]
fn start_position_text() {
    assert_eq!(Board::new_game().to_fen(), START);
}

#[test]
fn position_text_round_trip() {
    let text = "r1bqkb1r/pppp1ppp/2n2n2/4p3/2B1P3/5N2/PPPP1PPP/RNBQK2R b";
    let board = Board::from_fen(text).unwrap();
    assert_eq!(board.to_fen(), text);
    let again = Board::from_fen(&board.to_fen()).unwrap();
    assert_eq!(again.to_fen(), board.to_fen());
    assert!(!again.turn);
}

#[test]
fn position_text_errors() {
    assert!(Board::from_fen("rnbqkbnr/ppppxppp/8/8/8/8/PPPPPPPP/RNBQKBNR w").is_none());
    assert!(Board::from_fen("9/8/8/8/8/8/8/8 w").is_none());
    assert!(Board::from_fen("8/8/8/8/8/8/8/8/8 w").is_none());
    assert!(Board::from_fen("44p/8/8/8/8/8/8/8 w").is_none());
    assert!(Board::from_fen("8/8/8/8/8/8/8/8").is_some());
    assert!(Board::from_fen("8/8/8/8/8/8/8/8").unwrap().turn);
}

#[test]
fn load_keeps_or_replaces() {
    let mut board = Board::new_game();
    assert!(!board.load_fen("xyz w"));
    assert_eq!(board.to_fen(), START);
    assert!(board.load_fen("4k3/8/8/8/8/8/8/4K3 b"));
    assert_eq!(board.to_fen(), "4k3/8/8/8/8/8/8/4K3 b");
}

#[test]
fn square_text() {
    assert_eq!(Coord::new(4, 3).to_str(), "e4");
    assert_eq!(Coord::from_str("h8"), Some(Coord::new(7, 7)));
    assert_eq!(Coord::from_str("i1"), None);
    assert_eq!(Coord::from_str("a0"), None);
    assert_eq!(Coord::from_str("a10"), None);
    assert_eq!(Coord::from_index(63), Coord::new(7, 7));
    assert_eq!(Coord::new(7, 7).to_index(), 63);
}

#[test]
fn move_text() {
    let m = Move::from_str("e7e8q").unwrap();
    assert!(m.promotion);
    assert_eq!(m.to_str(), "e7e8q");
    assert_eq!(Move::from_str("g1f3").unwrap().to_str(), "g1f3");
    assert_eq!(Move::from_str("e2e4x"), None);
    assert_eq!(Move::from_str("e2"), None);
    assert_eq!(Move::null().to_str(), "a1a1");
}

#[test]
fn piece_letters() {
    assert_eq!(Piece::from_char('n'), Some(Piece::new(PieceEnum::Knight, false)));
    assert_eq!(Piece::from_char('Q'), Some(Piece::new(PieceEnum::Queen, true)));
    assert_eq!(Piece::from_char('x'), None);
    assert_eq!(Piece::new(PieceEnum::Bishop, false).to_char(), 'b');
    assert_eq!(Piece::new(PieceEnum::King, true).to_char(), 'K');
    assert_eq!(PieceEnum::from_index(3), PieceEnum::Rook);
    assert_eq!(PieceEnum::Queen.to_index(), 4);
}

#[test]
fn leading_and_unicode_separators() {
    let board = Board::from_fen("  4k3/8/8/8/8/8/8/4K3\u{a0}b").unwrap();
    assert_eq!(board.to_fen(), "4k3/8/8/8/8/8/8/4K3 b");
    let tabbed = Board::from_fen("\t8/8/8/8/8/8/8/8\tw").unwrap();
    assert!(tabbed.turn);
}
