use chess_movegen::board::Board;

fn perft(board: &Board, depth: u64) -> u64 {
    if depth == 0 {
        return 1;
    }
    let moves = board.get_moves();
    if depth == 1 {
        return moves.len() as u64;
    }
    let mut sum = 0;
    for mv in moves.iter() {
        let nb = board.apply_move(mv);
        sum += perft(&nb, depth - 1);
    }
    sum
}

#[test]
fn test_mov_gen_start_board() {
    let board = Board::new_board();
    assert_eq!(20, perft(&board, 1));
    assert_eq!(400, perft(&board, 2));
    assert_eq!(8_902, perft(&board, 3));
    assert_eq!(197_281, perft(&board, 4));
    assert_eq!(4_865_609, perft(&board, 5));
}

#[test]
fn test_mov_gen_2() {
    let board = Board::new_from_fen("r3k2r/p1ppqpb1/bn2pnp1/3PN3/1p2P3/2N2Q1p/PPPBBPPP/R3K2R w KQkq - 0 0");
    assert_eq!(48, perft(&board, 1));
    assert_eq!(2039, perft(&board, 2));
    assert_eq!(97_862, perft(&board, 3));
    assert_eq!(4_085_603, perft(&board, 4));

    let mut board = Board::new_from_fen("r3k2r/p1ppqpb1/bn2pnp1/3PN3/1p2P3/2N2Q1p/PPPBBPPP/R3K2R w KQkq - 0 0");
    board = board.apply_move(&"a1c1".parse().unwrap());
    println!("{}", board.to_fen());
}

#[test]
fn test_mov_gen_3() {
    let board = Board::new_from_fen("8/2p5/3p4/KP5r/1R3p1k/8/4P1P1/8 w - - 0 0");
    assert_eq!(14, perft(&board, 1));
    assert_eq!(191, perft(&board, 2));
    assert_eq!(2_812, perft(&board, 3));
    assert_eq!(43_238, perft(&board, 4));
    assert_eq!(674_624, perft(&board, 5));
}

#[test]
fn test_mov_gen_4() {
    let board = Board::new_from_fen("r3k2r/Pppp1ppp/1b3nbN/nP6/BBP1P3/q4N2/Pp1P2PP/R2Q1RK1 w kq - 0 1");
    assert_eq!(6, perft(&board, 1));
    assert_eq!(264, perft(&board, 2));
    assert_eq!(9467, perft(&board, 3));
    assert_eq!(422_333, perft(&board, 4));
    assert_eq!(15_833_292, perft(&board, 5));
}

#[test]
fn test_mov_gen_4_mirror() {
    let board = Board::new_from_fen("r2q1rk1/pP1p2pp/Q4n2/bbp1p3/Np6/1B3NBn/pPPP1PPP/R3K2R b KQ - 0 1");
    assert_eq!(6, perft(&board, 1));
    assert_eq!(264, perft(&board, 2));
    assert_eq!(9467, perft(&board, 3));
    assert_eq!(422_333, perft(&board, 4));
    assert_eq!(15_833_292, perft(&board, 5));
}

#[test]
fn test_mov_gen_5() {
    let board = Board::new_from_fen("rnbq1k1r/pp1Pbppp/2p5/8/2B5/8/PPP1NnPP/RNBQK2R w KQ - 1 8");
    assert_eq!(44, perft(&board, 1));
    assert_eq!(1486, perft(&board, 2));
    assert_eq!(62_379, perft(&board, 3));
    assert_eq!(2_103_487, perft(&board, 4));
}

#[test]
fn test_mov_gen_6() {
    let board = Board::new_from_fen("r4rk1/1pp1qppp/p1np1n2/2b1p1B1/2B1P1b1/P1NP1N2/1PP1QPPP/R4RK1 w - - 0 10");
    let moves = board.get_moves();
    for mv in moves.iter() {
        println!("{}", mv.to_string())
    }
    assert_eq!(46, perft(&board, 1));
    assert_eq!(2_079, perft(&board, 2));
    assert_eq!(89_890, perft(&board, 3));
    assert_eq!(3_894_594, perft(&board, 4));
}

#[test]
fn castle_under_attack() {
    let board = Board::new_from_fen("r3k2r/p1ppqpb1/bn2pnp1/3PN3/1p2P3/2N2Q2/PPPBBPpP/1R2K2R w Kkq - 0 2");
    assert_eq!(44, perft(&board, 1))
}
