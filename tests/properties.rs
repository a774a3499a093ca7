use chess_movegen::board::{Board, Castle};
use chess_movegen::fen::FenField;
use chess_movegen::move_generation::is_attacked;
use chess_movegen::moves::{Move, MoveKind};
use chess_movegen::piece::{Color, Piece, PieceKind};
use chess_movegen::square::{Case, Dir};

fn count(b: &Board) -> usize {
    b.board.iter().filter(|s| s.is_some()).count()
}

fn field_error(fen: &str) -> FenField {
    Board::from_fen(fen).unwrap_err().field
}

#[test]
fn fen_round_trip_reference_set() {
    for fen in [
        "rnbqkbnr/pppppppp/8/8/8/8/PPPPPPPP/RNBQKBNR w KQkq - 0 1",
        "r3k2r/p1ppqpb1/bn2pnp1/3PN3/1p2P3/2N2Q1p/PPPBBPPP/R3K2R w KQkq - 0 0",
        "8/2p5/3p4/KP5r/1R3p1k/8/4P1P1/8 w - - 0 0",
        "r3k2r/Pppp1ppp/1b3nbN/nP6/BBP1P3/q4N2/Pp1P2PP/R2Q1RK1 w kq - 0 1",
        "rnbq1k1r/pp1Pbppp/2p5/8/2B5/8/PPP1NnPP/RNBQK2R w KQ - 1 8",
        "r4rk1/1pp1qppp/p1np1n2/2b1p1B1/2B1P1b1/P1NP1N2/1PP1QPPP/R4RK1 w - - 0 10",
        "4k3/8/8/8/8/8/8/4K2R w Kq - 12 4294967295",
        "rnbqkbnr/ppp1pppp/8/3pP3/8/8/PPPP1PPP/RNBQKBNR w KQkq d6 0 3",
    ] {
        assert_eq!(Board::new_from_fen(fen).to_fen(), fen);
    }
}

#[test]
fn castling_field_is_emitted_in_canonical_order() {
    let b = Board::new_from_fen("r3k2r/8/8/8/8/8/8/R3K2R w qkQ - 0 1");
    assert_eq!(b.to_fen(), "r3k2r/8/8/8/8/8/8/R3K2R w Qkq - 0 1");
    let empty = Board::new_empty_board();
    assert_eq!(empty.castle, Castle { white_king: true, white_queen: true, black_king: true, black_queen: true });
    assert_eq!(empty.to_fen(), "8/8/8/8/8/8/8/8 w KQkq - 0 1");
}

#[test]
fn fen_errors_name_the_field() {
    assert_eq!(field_error("8/8/8/8/8/8/8/8 w - - 0"), FenField::Fields);
    assert_eq!(field_error(""), FenField::Fields);
    assert_eq!(field_error("8/8/8/8/8/8/8 w - - 0 1"), FenField::RankCount);
    assert_eq!(field_error("8/8/8/8/8/8/8/7x w - - 0 1"), FenField::PieceGlyph);
    assert_eq!(field_error("8/8/8/8/8/8/8/9 w - - 0 1"), FenField::PieceGlyph);
    assert_eq!(field_error("8/8/8/8/8/8/8/ppppppppp w - - 0 1"), FenField::RankWidth);
    assert_eq!(field_error("8/8/8/8/8/8/8/7 w - - 0 1"), FenField::RankWidth);
    assert_eq!(field_error("8/8/8/8/8/8/8/8 x - - 0 1"), FenField::Side);
    assert_eq!(field_error("8/8/8/8/8/8/8/8 w KX - 0 1"), FenField::Castling);
    assert_eq!(field_error("8/8/8/8/8/8/8/8 w - e9 0 1"), FenField::EnPassant);
    assert_eq!(field_error("8/8/8/8/8/8/8/8 w - - a 1"), FenField::Halfmove);
    assert_eq!(field_error("8/8/8/8/8/8/8/8 w - - 0 -1"), FenField::Fullmove);
    assert_eq!(field_error("8/8/8/8/8/8/8/8 w - - 0 4294967296"), FenField::Fullmove);
}

#[test]
fn squares_and_neighbours() {
    let e4: Case = "e4".parse().unwrap();
    assert_eq!(e4, Case::new(28));
    assert_eq!(e4.get_line(), 3);
    assert_eq!(e4.get_column(), 4);
    assert!("i1".parse::<Case>().is_err());
    assert!("a9".parse::<Case>().is_err());
    assert!("a10".parse::<Case>().is_err());
    let a1 = Case::new(0);
    assert_eq!(a1.get_neighbour(Dir::Cav1, 1), Some(Case::new(17)));
    assert_eq!(a1.get_neighbour(Dir::Cav2, 1), Some(Case::new(10)));
    assert_eq!(a1.get_neighbour(Dir::Cav10, 1), None);
    assert_eq!(a1.get_neighbour(Dir::Cav11, 1), None);
    assert_eq!(a1.get_neighbour(Dir::UpRight, 7), Some(Case::new(63)));
    assert_eq!(a1.get_neighbour(Dir::UpRight, 8), None);
    assert_eq!(a1.get_neighbour(Dir::Left, 1), None);
    let h8 = Case::new(63);
    assert_eq!(h8.get_neighbour(Dir::Cav7, 1), Some(Case::new(46)));
    assert_eq!(h8.get_neighbour(Dir::Cav8, 1), Some(Case::new(53)));
    assert_eq!(h8.get_neighbour(Dir::Cav4, 1), None);
    assert_eq!(h8.get_neighbour(Dir::Down, 7), Some(Case::new(7)));
}

#[test]
fn move_text() {
    assert!("e2".parse::<Move>().is_err());
    assert!("e2e4e5".parse::<Move>().is_err());
    assert!("e7e8k".parse::<Move>().is_err());
    assert!("z7e8".parse::<Move>().is_err());
    let m: Move = "e7e8q".parse().unwrap();
    assert_eq!(m.kind, MoveKind::QueenPromotion);
    assert_eq!(m.to_string(), "e7e8q");
    assert!(m.is_promotion());
    assert!(!m.is_capture());
    assert_eq!(Move::new(Case::new(12), Case::new(28), MoveKind::Quiet).to_string(), "e2e4");
}

#[test]
fn piece_glyphs() {
    let p = Piece::from_glyph('n').unwrap();
    assert_eq!(p, Piece { kind: PieceKind::Knight, color: Color::Black });
    assert_eq!(p.glyph(), 'n');
    assert_eq!(Piece { kind: PieceKind::Queen, color: Color::White }.glyph(), 'Q');
    assert!(Piece::from_glyph('x').is_err());
    assert_eq!(Color::White.flip(), Color::Black);
}

#[test]
fn apply_flips_side_and_counts_moves() {
    let b = Board::new_board();
    let after_white = b.apply_move_from_uci("e2e4").unwrap();
    assert_eq!(after_white.side, Color::Black);
    assert_eq!(after_white.moves, 1);
    assert_eq!(after_white.halfmove, 0);
    assert_eq!(after_white.en_passant, Some(Case::new(20)));
    let after_black = after_white.apply_move_from_uci("g8f6").unwrap();
    assert_eq!(after_black.side, Color::White);
    assert_eq!(after_black.moves, 2);
    assert_eq!(after_black.halfmove, 1);
    assert_eq!(after_black.en_passant, None);
    assert_eq!(after_black.to_fen(), "rnbqkb1r/pppppppp/5n2/8/4P3/8/PPPP1PPP/RNBQKBNR w KQkq - 1 2");
    assert_eq!(count(&after_black), 32);
}

#[test]
fn pawn_move_resets_halfmove() {
    let b = Board::new_from_fen("4k3/8/8/8/8/8/4P3/4K3 w - - 7 30");
    let n = b.apply_move_from_uci("e2e3").unwrap();
    assert_eq!(n.halfmove, 0);
    let k = b.apply_move_from_uci("e1d1").unwrap();
    assert_eq!(k.halfmove, 8);
}

#[test]
fn captures_remove_one_piece() {
    let b = Board::new_from_fen("rnbqkbnr/ppp1pppp/8/3pP3/8/8/PPPP1PPP/RNBQKBNR w KQkq d6 0 3");
    let ep = b.apply_move_from_uci("e5d6").unwrap();
    assert_eq!(count(&ep), count(&b) - 1);
    assert_eq!(ep.board[35], None);
    assert_eq!(ep.halfmove, 0);
    let b2 = Board::new_from_fen("4k3/8/8/3p4/4P3/8/8/4K3 w - - 5 10");
    let take = b2.apply_move_from_uci("e4d5").unwrap();
    assert_eq!(count(&take), count(&b2) - 1);
    for mv in b.get_moves() {
        let n = b.apply_move(&mv);
        if mv.is_capture() {
            assert_eq!(count(&n), count(&b) - 1);
        } else {
            assert_eq!(count(&n), count(&b));
        }
    }
}

#[test]
fn castling_moves_the_rook_and_drops_rights() {
    let b = Board::new_from_fen("r3k2r/8/8/8/8/8/8/R3K2R w KQkq - 0 1");
    let k = b.apply_move_from_uci("e1g1").unwrap();
    assert_eq!(k.to_fen(), "r3k2r/8/8/8/8/8/8/R4RK1 b kq - 1 1");
    let q = b.apply_move_from_uci("e1c1").unwrap();
    assert_eq!(q.to_fen(), "r3k2r/8/8/8/8/8/8/2KR3R b kq - 1 1");
    let rook = b.apply_move_from_uci("h1h8").unwrap();
    assert_eq!(rook.to_fen(), "r3k2R/8/8/8/8/8/8/R3K3 b Qq - 0 1");
    let moves = b.get_moves();
    assert!(moves.iter().any(|m| m.kind == MoveKind::KingCastle));
    assert!(moves.iter().any(|m| m.kind == MoveKind::QueenCastle));
}

#[test]
fn castling_through_attack_is_refused() {
    let b = Board::new_from_fen("r3k2r/8/8/8/8/8/5r2/R3K2R w KQkq - 0 1");
    assert!(is_attacked(&b.board, Case::new(5), Color::Black));
    let moves = b.get_moves();
    assert!(!moves.iter().any(|m| m.kind == MoveKind::KingCastle));
    // The rook on f2 does not reach e1, d1 or c1.
    assert!(moves.iter().any(|m| m.kind == MoveKind::QueenCastle));
}

#[test]
fn stalemate_and_checkmate_have_no_moves() {
    let stalemate = Board::new_from_fen("7k/5Q2/6K1/8/8/8/8/8 b - - 0 1");
    assert!(stalemate.get_moves().is_empty());
    assert!(!is_attacked(&stalemate.board, Case::new(63), Color::White));
    let mate = Board::new_from_fen("7k/6Q1/6K1/8/8/8/8/8 b - - 0 1");
    assert!(mate.get_moves().is_empty());
    assert!(is_attacked(&mate.board, Case::new(63), Color::White));
}

#[test]
fn every_legal_move_keeps_the_king_safe() {
    let b = Board::new_from_fen("r3k2r/p1ppqpb1/bn2pnp1/3PN3/1p2P3/2N2Q1p/PPPBBPPP/R3K2R w KQkq - 0 0");
    let moves = b.get_moves();
    assert_eq!(moves.len(), 48);
    for mv in moves.iter() {
        assert!(b.is_move_legal(mv));
        let n = b.apply_move(mv);
        assert_eq!(n.side, Color::Black);
        let king = (0..64).find(|&i| n.board[i] == Some(Piece { kind: PieceKind::King, color: Color::White })).unwrap();
        assert!(!is_attacked(&n.board, Case::new(king), Color::Black));
    }
}

#[test]
fn pinned_piece_cannot_move() {
    let b = Board::new_from_fen("4r1k1/8/8/8/8/8/4N3/4K3 w - - 0 1");
    let moves = b.get_moves();
    assert!(moves.iter().all(|m| m.from != Case::new(12)));
    let pin = Move::new(Case::new(12), Case::new(29), MoveKind::Quiet);
    assert!(!b.is_move_legal(&pin));
}

#[test]
fn promotions_are_generated() {
    let b = Board::new_from_fen("1n2k3/P7/8/8/8/8/8/4K3 w - - 0 1");
    let moves = b.get_moves();
    let promos = moves.iter().filter(|m| m.is_promotion()).count();
    assert_eq!(promos, 8);
    let caps = moves.iter().filter(|m| m.is_promotion() && m.is_capture()).count();
    assert_eq!(caps, 4);
    let n = b.apply_move_from_uci("a7b8n").unwrap();
    assert_eq!(n.board[57], Some(Piece { kind: PieceKind::Knight, color: Color::White }));
}

#[test]
fn uci_move_errors() {
    let b = Board::new_board();
    assert!(b.apply_move_from_uci("e3e4").is_err());
    assert!(b.apply_move_from_uci("e2").is_err());
    let full = Board::new_from_fen("4k3/8/8/8/8/8/8/4K3 b - - 0 4294967295");
    assert!(full.apply_move_from_uci("e8d8").is_err());
}
