use riag::{force_generate, Board};

/// Mirrors a FEN across the horizontal axis and swaps the colours:
/// ranks reverse, letter case flips, the side to move and the castling
/// rights swap colour. Positions without an en-passant target only.
fn mirror_fen(fen: &str) -> String {
    let fields: Vec<&str> = fen.split(' ').collect();
    let swap_case = |c: char| -> char {
        if c.is_ascii_uppercase() {
            c.to_ascii_lowercase()
        } else if c.is_ascii_lowercase() {
            c.to_ascii_uppercase()
        } else {
            c
        }
    };
    let placement: Vec<String> = fields[0]
        .split('/')
        .rev()
        .map(|rank| rank.chars().map(swap_case).collect())
        .collect();
    let to_move = if fields[1] == "w" { "b" } else { "w" };
    let castling: String = if fields[2] == "-" {
        "-".to_string()
    } else {
        let mut flipped: Vec<char> = fields[2].chars().map(swap_case).collect();
        flipped.sort_by_key(|c| match c {
            'K' => 0,
            'Q' => 1,
            'k' => 2,
            'q' => 3,
            _ => 4,
        });
        flipped.into_iter().collect()
    };
    format!(
        "{} {} {} {} {} {}",
        placement.join("/"),
        to_move,
        castling,
        fields[3],
        fields.get(4).unwrap_or(&"0"),
        fields.get(5).unwrap_or(&"1")
    )
}

#[test]
fn mirrored_boards_have_equally_many_moves() {
    let (rm, bm) = force_generate().expect("magic search failed");
    for fen in [
        "rnbqkbnr/pppppppp/8/8/8/8/PPPPPPPP/RNBQKBNR w KQkq - 0 1",
        "r3k2r/p1ppqpb1/bn2pnp1/3PN3/1p2P3/2N2Q1p/PPPBBPPP/R3K2R w KQkq - 0 1",
        "r3k2r/Pppp1ppp/1b3nbN/nP6/BBP1P3/q4N2/Pp1P2pP/R2Q1RqK w kq - 0 1",
        "8/2p5/3p4/KP5r/1R3p1k/8/4P1P1/8 w - - 0 1",
    ] {
        let b = Board::from_fen(fen).unwrap();
        let m = Board::from_fen(&mirror_fen(fen)).unwrap();
        assert_eq!(
            b.generate_moves(&rm, &bm).len(),
            m.generate_moves(&rm, &bm).len(),
            "move counts differ for {fen}"
        );
    }
}
