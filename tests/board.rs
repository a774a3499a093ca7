use chess_movegen::board::Board;
use chess_movegen::moves::Move;

#[test]
fn debug_board() {
    let empty_board = Board::new_empty_board();
    println!("{:?}", empty_board);
    println!("{}", empty_board.to_string());
    let board = Board::new_board();
    println!("{:?}", board);
    println!("{}", board.to_string());
}

#[test]
fn fen_load() {
    let mut fen = "rnbqkbnr/pppppppp/8/8/8/8/PPPPPPPP/RNBQKBNR w KQkq - 0 1";
    let mut expected = "\
8 rnbqkbnr
7 pppppppp
6 ........
5 ........
4 ........
3 ........
2 PPPPPPPP
1 RNBQKBNR
  abcdefgh";
    assert_eq!(Board::new_from_fen(fen).to_string(), expected);
    assert_eq!(Board::new_from_fen(fen).to_fen(), fen);

    fen = "rnbqkbnr/pppppppp/8/8/4P3/8/PPPP1PPP/RNBQKBNR b KQkq e3 0 1";
    expected = "\
8 rnbqkbnr
7 pppppppp
6 ........
5 ........
4 ....P...
3 ........
2 PPPP.PPP
1 RNBQKBNR
  abcdefgh";
    assert_eq!(Board::new_from_fen(fen).to_string(), expected);
    assert_eq!(Board::new_from_fen(fen).to_fen(), fen);

    fen = "rnbqkbnr/pp1ppppp/8/2p5/4P3/8/PPPP1PPP/RNBQKBNR w KQkq c6 0 2";
    expected = "\
8 rnbqkbnr
7 pp.ppppp
6 ........
5 ..p.....
4 ....P...
3 ........
2 PPPP.PPP
1 RNBQKBNR
  abcdefgh";
    assert_eq!(Board::new_from_fen(fen).to_string(), expected);
    assert_eq!(Board::new_from_fen(fen).to_fen(), fen);

    fen = "rnbqkbnr/pp1ppppp/8/2p5/4P3/5N2/PPPP1PPP/RNBQKB1R b KQkq - 1 2";
    expected = "\
8 rnbqkbnr
7 pp.ppppp
6 ........
5 ..p.....
4 ....P...
3 .....N..
2 PPPP.PPP
1 RNBQKB.R
  abcdefgh";
    assert_eq!(Board::new_from_fen(fen).to_string(), expected);
    assert_eq!(Board::new_from_fen(fen).to_fen(), fen);

    fen = "r3r1k1/pp3nPp/1b1p1B2/1q1P1N2/8/P4Q2/1P3PK1/R6R b KQkq - 1 2";
    expected = "\
8 r...r.k.
7 pp...nPp
6 .b.p.B..
5 .q.P.N..
4 ........
3 P....Q..
2 .P...PK.
1 R......R
  abcdefgh";
    assert_eq!(Board::new_from_fen(fen).to_string(), expected);
    assert_eq!(Board::new_from_fen(fen).to_fen(), fen);
}

#[test]
fn test_move_simple() {
    let mut board = Board::new_from_fen("2p1k2r/p2P2P1/8/8/4Pp2/8/1P6/R3K3 w - e3 0 1");
    println!("{}", board.to_string());

    board = board
        .apply_move(&Move::new_on_board("f4f3", &board))
        .apply_move(&Move::new_on_board("b2b4", &board));
    board = board.apply_move(&Move::new_on_board("a7a5", &board));

    println!("{}", board.to_string());
}
