use chess_movegen::board::Board;
use chess_movegen::moves::{Move, MoveKind};
use chess_movegen::square::Case;

#[test]
fn test_print_move() {
    let m1 = Move::new(Case::new_from_str("e2"), Case::new_from_str("e4"), MoveKind::DoublePawnPush);
    println!("{}", m1.to_string())
}

#[test]
fn test_move_creation_from_txt() {
    let board = Board::new_from_fen("2p1k2r/p2P2P1/8/8/4Pp2/8/1P6/R3K3 w - e3 0 1");
    assert_eq!(Move::new_on_board("f4f3", &board).get_kind(), MoveKind::Quiet);
    assert_eq!(Move::new_on_board("b2b4", &board).get_kind(), MoveKind::DoublePawnPush);
    assert_eq!(Move::new_on_board("a7a5", &board).get_kind(), MoveKind::DoublePawnPush);
    assert_eq!(Move::new_on_board("e8g8", &board).get_kind(), MoveKind::KingCastle);
    assert_eq!(Move::new_on_board("e1c1", &board).get_kind(), MoveKind::QueenCastle);
    assert_eq!(Move::new_on_board("a1a7", &board).get_kind(), MoveKind::SimpleCapture);
    assert_eq!(Move::new_on_board("f4e3", &board).get_kind(), MoveKind::EnPassantCapture);
    assert_eq!(Move::new_on_board("g7g8n", &board).get_kind(), MoveKind::KnightPromotion);
    assert_eq!(Move::new_on_board("g7g8b", &board).get_kind(), MoveKind::BishopPromotion);
    assert_eq!(Move::new_on_board("g7g8r", &board).get_kind(), MoveKind::RookPromotion);
    assert_eq!(Move::new_on_board("g7g8q", &board).get_kind(), MoveKind::QueenPromotion);
    assert_eq!(Move::new_on_board("d7c8n", &board).get_kind(), MoveKind::KnightCapturePromotion);
    assert_eq!(Move::new_on_board("d7c8b", &board).get_kind(), MoveKind::BishopCapturePromotion);
    assert_eq!(Move::new_on_board("d7c8r", &board).get_kind(), MoveKind::RookCapturePromotion);
    assert_eq!(Move::new_on_board("d7c8q", &board).get_kind(), MoveKind::QueenCapturePromotion);
}
