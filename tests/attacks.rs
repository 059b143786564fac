use chess_engine::attacks::{
    get_bishop_moves, get_rook_moves, init_king_moves, init_knight_moves, init_pawn_attacks,
    init_pawn_moves,
};
use chess_engine::bitboard::BitBoard;

#[test]
fn test_get_bishop_moves() {
    let bishop_bitboard = BitBoard::from_index(35);
    let blockers = BitBoard::from_index(28) | BitBoard::from_index(42);
    let moves = get_bishop_moves(bishop_bitboard, blockers);

    let expected = BitBoard::from_index(8)
        | BitBoard::from_index(17)
        | BitBoard::from_index(26)
        | BitBoard::from_index(28)
        | BitBoard::from_index(42)
        | BitBoard::from_index(44)
        | BitBoard::from_index(53)
        | BitBoard::from_index(62);

    assert_eq!(moves, expected);
}

#[test]
fn rook_ray_stops_at_first_blocker() {
    let rook = BitBoard::from_index(0);
    let blockers = BitBoard::from_index(3).union(BitBoard::from_index(5));
    let moves = get_rook_moves(rook, blockers);
    assert!(moves.get_index(1) && moves.get_index(2) && moves.get_index(3));
    assert!(!moves.get_index(4) && !moves.get_index(5));
    for rank in 1..8u8 {
        assert!(moves.get_index(rank * 8));
    }
    assert_eq!(moves.get_board().count_ones(), 10);
}

#[test]
fn rook_ray_does_not_wrap() {
    let rook = BitBoard::from_index(7);
    let moves = get_rook_moves(rook, BitBoard::new());
    assert!(!moves.get_index(8));
    assert_eq!(moves.get_board().count_ones(), 14);
}

#[test]
fn bitboard_shifts_and_bits() {
    let mut b = BitBoard::from_index(9);
    b.shift_up();
    assert_eq!(b.get_board(), 1u64 << 17);
    b.shift_right();
    assert_eq!(b.get_board(), 1u64 << 18);
    b.shift_down();
    b.shift_left();
    assert_eq!(b.get_board(), 1u64 << 9);
    assert_eq!(b.trailing_zeros(), 9);
    assert_eq!(b.get_rank(), 1);
    assert_eq!(b.get_file(), 1);
    b.set_index(3);
    assert!(b.get_index(3));
    b.unset(chess_engine::coord::Coord::new(3, 0));
    assert!(!b.get_index(3));
    assert!(BitBoard::new().is_empty());
    assert_eq!(BitBoard::new().trailing_zeros(), 64);
    assert_eq!(BitBoard::from(5).complement().get_board(), !5u64);
    assert_eq!(BitBoard::from(6).sym_difference(BitBoard::from(3)).get_board(), 5);
    assert_eq!((BitBoard::from(6) ^ BitBoard::from(3)).get_board(), 5);
    assert_eq!((BitBoard::from(6) & BitBoard::from(3)).get_board(), 2);
    assert_eq!((!BitBoard::from(0)).get_board(), u64::MAX);
}

#[test]
fn tables_hold_the_empty_board_targets() {
    let knight = init_knight_moves();
    assert_eq!(knight[0].get_board(), (1u64 << 10) | (1u64 << 17));
    let king = init_king_moves();
    assert_eq!(king[0].get_board(), (1u64 << 1) | (1u64 << 8) | (1u64 << 9));
    assert_eq!(king[27].get_board().count_ones(), 8);
    let (black_moves, white_moves) = init_pawn_moves();
    assert_eq!(white_moves[12].get_board(), (1u64 << 20) | (1u64 << 28));
    assert_eq!(white_moves[20].get_board(), 1u64 << 28);
    assert_eq!(black_moves[52].get_board(), (1u64 << 44) | (1u64 << 36));
    assert_eq!(white_moves[60].get_board(), 0);
    let (black_attacks, white_attacks) = init_pawn_attacks();
    assert_eq!(white_attacks[8].get_board(), 1u64 << 17);
    assert_eq!(black_attacks[52].get_board(), (1u64 << 43) | (1u64 << 45));
}
