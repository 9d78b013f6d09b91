use riag::board::piece::{Colour, Piece, UncolouredPiece};
use riag::piece::PieceExt;
use riag::{BitboardExt, Error};

#[test]
fn piece_letter_round_trip() {
    for c in "KQRBNPkqrbnp".chars() {
        let p = Piece::try_from_char(c).unwrap();
        assert_eq!(p.to_char(), c);
        let code: usize = PieceExt::from_alpha(c);
        assert_eq!(code.to_alpha(), c);
    }
    assert!(matches!(
        Piece::try_from_char('z'),
        Err(Error::InvalidPiece('z'))
    ));
}

#[test]
fn piece_colour_and_kind() {
    let p = Piece::try_from_char('n').unwrap();
    assert_eq!(p.colour(), Colour::Black);
    assert_eq!(p.piece(), UncolouredPiece::Knight);
    assert_eq!(p.as_index(), 4);
    assert_eq!(Colour::White.with(UncolouredPiece::Queen), Piece::WhiteQueen);
    assert_eq!(Colour::White.opposite(), Colour::Black);
}

#[test]
fn unicode_glyphs_differ_by_colour() {
    let w: usize = PieceExt::from_alpha('K');
    let b: usize = PieceExt::from_alpha('k');
    assert_ne!(w.to_unicode(), b.to_unicode());
}

#[test]
fn bit_indices_walk_low_to_high() {
    let mut it = 0b1010_0101u64.bit_indices();
    let mut seen = Vec::new();
    while let Some(i) = it.next() {
        seen.push(i);
    }
    assert_eq!(seen, vec![0, 2, 5, 7]);
    let mut empty = 0u64.bit_indices();
    assert_eq!(empty.next(), None);
}
