use riag::{force_generate, Board, Magic, Move};

fn magics() -> (Magic, Magic) {
    force_generate().expect("magic search failed")
}

fn names(moves: &[Move]) -> Vec<String> {
    moves
        .iter()
        .map(|m| String::from_utf8(m.name().to_vec()).unwrap())
        .collect()
}

#[test]
fn move_packing_round_trip() {
    let m = Move::new(12, 28, riag::piece::EMPTY);
    assert_eq!(m.pos(), 12);
    assert_eq!(m.dest(), 28);
    assert_eq!(m.promotion(), riag::piece::EMPTY);
    assert_eq!(m.name(), ['e' as u8, '2' as u8, 'e' as u8, '4' as u8]);
}

#[test]
fn start_position_has_twenty_moves() {
    let (rm, bm) = magics();
    let b = Board::start();
    let moves = b.generate_moves(&rm, &bm);
    assert_eq!(moves.len(), 20);
    let ns = names(&moves);
    assert!(ns.contains(&"e2e4".to_string()));
    assert!(ns.contains(&"g1f3".to_string()));
}

#[test]
fn reply_to_kings_pawn_has_twenty_moves() {
    let (rm, bm) = magics();
    let b = Board::start();
    let moves = b.generate_moves(&rm, &bm);
    let e2e4 = moves
        .iter()
        .find(|m| m.pos() == 12 && m.dest() == 28)
        .copied()
        .unwrap();
    let b2 = b.apply_move(e2e4);
    assert_eq!(b2.generate_moves(&rm, &bm).len(), 20);
}

#[test]
fn castling_moves_are_generated() {
    let (rm, bm) = magics();
    let b = Board::from_fen("r3k2r/8/8/8/8/8/8/R3K2R w KQkq - 0 1").unwrap();
    let ns = names(&b.generate_moves(&rm, &bm));
    assert!(ns.contains(&"e1g1".to_string()));
    assert!(ns.contains(&"e1c1".to_string()));
}

#[test]
fn castling_blocked_by_attack() {
    let (rm, bm) = magics();
    // a black rook on f8 guards f1, so king-side castling is out
    let b = Board::from_fen("r4rk1/8/8/8/8/8/8/R3K2R w KQ - 0 1").unwrap();
    let ns = names(&b.generate_moves(&rm, &bm));
    assert!(!ns.contains(&"e1g1".to_string()));
    assert!(ns.contains(&"e1c1".to_string()));
}

#[test]
fn en_passant_capture_is_generated_and_removes_the_pawn() {
    let (rm, bm) = magics();
    let b = Board::from_fen("4k3/8/8/3pP3/8/8/8/4K3 w - d6 0 1").unwrap();
    let moves = b.generate_moves(&rm, &bm);
    let ns = names(&moves);
    assert!(ns.contains(&"e5d6".to_string()));
    let ep = moves
        .iter()
        .find(|m| m.pos() == 36 && m.dest() == 43)
        .copied()
        .unwrap();
    let b2 = b.apply_move(ep);
    assert_eq!(b2.fen(), "4k3/8/3P4/8/8/8/8/4K3 b - - 0 1".as_bytes().to_vec());
}

#[test]
fn promotions_come_in_four() {
    let (rm, bm) = magics();
    let b = Board::from_fen("4k3/P7/8/8/8/8/8/4K3 w - - 0 1").unwrap();
    let moves = b.generate_moves(&rm, &bm);
    let promos: Vec<Move> = moves.iter().filter(|m| m.pos() == 48).copied().collect();
    assert_eq!(promos.len(), 4);
    let mut kinds: Vec<usize> = promos.iter().map(|m| m.promotion()).collect();
    kinds.sort();
    assert_eq!(
        kinds,
        vec![riag::piece::QUEEN, riag::piece::ROOK, riag::piece::BISHOP, riag::piece::KNIGHT]
    );
}

#[test]
fn moves_never_leave_own_king_in_check() {
    // the mover's king is safe after every generated move
    let (rm, bm) = magics();
    for fen in [
        "r3k2r/p1ppqpb1/bn2pnp1/3PN3/1p2P3/2N2Q1p/PPPBBPPP/R3K2R w KQkq - 0 1",
        "4k3/8/8/8/8/8/4q3/4K3 w - - 0 1",
        "8/2p5/3p4/KP5r/1R3p1k/8/4P1P1/8 w - - 0 1",
    ] {
        let b = Board::from_fen(fen).unwrap();
        let side = b.to_move;
        for m in b.generate_moves(&rm, &bm) {
            let after = b.apply_move(m);
            let attacked = after.attacked_squares(1 - side, &rm, &bm);
            assert_eq!(after.bitboards[side][riag::piece::KING] & attacked, 0);
        }
    }
}

#[test]
fn pinned_piece_cannot_move() {
    let (rm, bm) = magics();
    // the white bishop on e2 shields the king from the rook on e8
    let b = Board::from_fen("4r1k1/8/8/8/8/8/4B3/4K3 w - - 0 1").unwrap();
    let ns = names(&b.generate_moves(&rm, &bm));
    assert!(ns.iter().all(|n| !n.starts_with("e2")));
}

#[test]
fn halfmove_and_fullmove_clocks_advance() {
    let (rm, bm) = magics();
    let b = Board::from_fen("4k3/8/8/8/8/8/4N3/4K3 w - - 3 10").unwrap();
    let moves = b.generate_moves(&rm, &bm);
    let knight = moves.iter().find(|m| m.pos() == 12).copied().unwrap();
    let b2 = b.apply_move(knight);
    assert_eq!(b2.halfmove, 4);
    assert_eq!(b2.fullmove, 10);
    let replies = b2.generate_moves(&rm, &bm);
    let reply = replies[0];
    let b3 = b2.apply_move(reply);
    assert_eq!(b3.fullmove, 11);
}

#[test]
fn colour_bitboards_union_all_pieces() {
    let b = Board::start();
    let cb = riag::movegen::get_colour_bitboards(&b.bitboards);
    assert_eq!(cb[0], 0xFFFF);
    assert_eq!(cb[1], 0xFFFF_0000_0000_0000);
}
