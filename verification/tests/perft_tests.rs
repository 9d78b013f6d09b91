use riag::{force_generate, Board, Magic};

const START: &str = "rnbqkbnr/pppppppp/8/8/8/8/PPPPPPPP/RNBQKBNR w KQkq - 0 1";
const KIWIPETE: &str = "r3k2r/p1ppqpb1/bn2pnp1/3PN3/1p2P3/2N2Q1p/PPPBBPPP/R3K2R w KQkq - 0 1";
const POSITION_3: &str = "8/2p5/3p4/KP5r/1R3p1k/8/4P1P1/8 w - - 0 1";
const POSITION_5: &str = "rnbq1k1r/pp1Pbppp/2p5/8/2B5/8/PPP1NnPP/RNBQK2R w KQ - 1 8";

fn magics() -> (Magic, Magic) {
    force_generate().expect("magic search failed")
}

#[test]
fn perft_start_shallow() {
    let (rm, bm) = magics();
    let b = Board::from_fen(START).unwrap();
    assert_eq!(b.perft(0, &rm, &bm), 1);
    assert_eq!(b.perft(1, &rm, &bm), 20);
    assert_eq!(b.perft(2, &rm, &bm), 400);
    assert_eq!(b.perft(3, &rm, &bm), 8_902);
}

#[test]
fn perft_start_depth_four() {
    let (rm, bm) = magics();
    let b = Board::from_fen(START).unwrap();
    assert_eq!(b.perft(4, &rm, &bm), 197_281);
}

#[test]
fn perft_kiwipete() {
    let (rm, bm) = magics();
    let b = Board::from_fen(KIWIPETE).unwrap();
    assert_eq!(b.perft(1, &rm, &bm), 48);
    assert_eq!(b.perft(2, &rm, &bm), 2_039);
    assert_eq!(b.perft(3, &rm, &bm), 97_862);
}

#[test]
fn perft_position_three() {
    let (rm, bm) = magics();
    let b = Board::from_fen(POSITION_3).unwrap();
    assert_eq!(b.perft(1, &rm, &bm), 14);
    assert_eq!(b.perft(2, &rm, &bm), 191);
    assert_eq!(b.perft(3, &rm, &bm), 2_812);
    assert_eq!(b.perft(4, &rm, &bm), 43_238);
}

#[test]
fn perft_position_five() {
    let (rm, bm) = magics();
    let b = Board::from_fen(POSITION_5).unwrap();
    assert_eq!(b.perft(1, &rm, &bm), 44);
    assert_eq!(b.perft(2, &rm, &bm), 1_486);
    assert_eq!(b.perft(3, &rm, &bm), 62_379);
}

#[test]
fn perft_start_depth_five() {
    let (rm, bm) = magics();
    let b = Board::from_fen(START).unwrap();
    assert_eq!(b.perft(5, &rm, &bm), 4_865_609);
}

#[test]
fn perft_kiwipete_depth_four() {
    let (rm, bm) = magics();
    let b = Board::from_fen(KIWIPETE).unwrap();
    assert_eq!(b.perft(4, &rm, &bm), 4_085_603);
}

#[test]
fn smothered_mate_has_no_moves() {
    // a double check with no flight squares: perft(1) is zero
    let (rm, bm) = magics();
    let b =
        Board::from_fen("r3k2r/Pppp1ppp/1b3nbN/nP6/BBP1P3/q4N2/Pp1P2pP/R2Q1RqK w kq - 0 1").unwrap();
    assert_eq!(b.perft(1, &rm, &bm), 0);
    assert_eq!(b.perft(3, &rm, &bm), 0);
}

#[test]
fn perft_divide_sums_to_perft() {
    let (rm, bm) = magics();
    let b = Board::from_fen(START).unwrap();
    let parts = b.perft_divide(3, &rm, &bm);
    assert_eq!(parts.len(), 20);
    let total: u64 = parts.iter().map(|(_, c)| c).sum();
    assert_eq!(total, 8_902);
}
