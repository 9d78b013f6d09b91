use riag::{Board, Error, Square};

const START: &str = "rnbqkbnr/pppppppp/8/8/8/8/PPPPPPPP/RNBQKBNR w KQkq - 0 1";
const KIWIPETE: &str = "r3k2r/p1ppqpb1/bn2pnp1/3PN3/1p2P3/2N2Q1p/PPPBBPPP/R3K2R w KQkq - 0 1";

#[test]
fn start_fen_round_trip() {
    let b = Board::from_fen(START).unwrap();
    assert_eq!(b.fen(), START.as_bytes().to_vec());
}

#[test]
fn kiwipete_round_trip() {
    let b = Board::from_fen(KIWIPETE).unwrap();
    assert_eq!(b.fen(), KIWIPETE.as_bytes().to_vec());
}

#[test]
fn en_passant_round_trip() {
    let fen = "rnbqkbnr/pppp1ppp/8/4p3/8/8/PPPPPPPP/RNBQKBNR w KQkq e6 0 2";
    let b = Board::from_fen(fen).unwrap();
    assert_eq!(b.fen(), fen.as_bytes().to_vec());
}

#[test]
fn missing_counters_default() {
    let b = Board::from_fen("4k3/8/8/8/8/8/8/4K3 w - -").unwrap();
    assert_eq!(b.fen(), "4k3/8/8/8/8/8/8/4K3 w - - 0 1".as_bytes().to_vec());
}

#[test]
fn start_board_is_start_fen() {
    let b = Board::start();
    assert_eq!(b.fen(), START.as_bytes().to_vec());
}

#[test]
fn invalid_piece_is_reported() {
    match Board::from_fen("xnbqkbnr/pppppppp/8/8/8/8/PPPPPPPP/RNBQKBNR w KQkq - 0 1") {
        Err(Error::InvalidPiece(c)) => assert_eq!(c, 'x'),
        _ => panic!("expected an invalid-piece error"),
    }
}

#[test]
fn invalid_ep_file_is_reported() {
    match Board::from_fen("4k3/8/8/8/8/8/8/4K3 w - j3 0 1") {
        Err(Error::InvalidFile(c)) => assert_eq!(c, 'j'),
        _ => panic!("expected an invalid-file error"),
    }
}

#[test]
fn invalid_ep_rank_is_reported() {
    match Board::from_fen("4k3/8/8/8/8/8/8/4K3 w - a0 0 1") {
        Err(Error::InvalidRank(c)) => assert_eq!(c, '0'),
        _ => panic!("expected an invalid-rank error"),
    }
}

#[test]
fn garbage_is_rejected() {
    assert!(Board::from_fen("this is not a fen").is_err());
    assert!(matches!(
        Board::from_fen("8/8/8/8 w - - 0 1"),
        Err(Error::FailedToParseFEN(_))
    ));
}

#[test]
fn short_rank_is_rejected() {
    assert!(Board::from_fen("4k3/8/8/8/8/8/8/3K3 w - - 0 1").is_err());
}

#[test]
fn two_kings_per_side_rejected() {
    assert!(Board::from_fen("kk6/8/8/8/8/8/8/4K3 w - - 0 1").is_err());
    assert!(Board::from_fen("4k3/8/8/8/8/8/8/8 w - - 0 1").is_err());
}

#[test]
fn ep_target_on_wrong_rank_rejected() {
    // e6 is only a target while White is to move
    assert!(Board::from_fen("4k3/8/8/8/8/8/8/4K3 b - e6 0 1").is_err());
    assert!(Board::from_fen("4k3/8/8/8/8/8/8/4K3 w - e6 0 1").is_ok());
}

#[test]
fn square_from_chars() {
    let s = Square::try_from_chars('e', '4').unwrap();
    assert_eq!(s.name(), ['e' as u8, '4' as u8]);
    assert!(matches!(
        Square::try_from_chars('i', '4'),
        Err(Error::InvalidFile('i'))
    ));
    assert!(matches!(
        Square::try_from_chars('a', '9'),
        Err(Error::InvalidRank('9'))
    ));
}
