//! Integer piece encoding used by the board core.
//!
//! A piece code packs the kind in the low nibble and the colour in bit 4;
//! `EMPTY` is a sentinel that only appears in mailbox cells.

use vstd::prelude::*;

verus! {

pub type Piece = usize;

pub const KING: Piece = 0;
pub const QUEEN: Piece = 1;
pub const ROOK: Piece = 2;
pub const BISHOP: Piece = 3;
pub const KNIGHT: Piece = 4;
pub const PAWN: Piece = 5;
pub const EMPTY: Piece = 6;

pub const WHITE: Piece = 0;
pub const BLACK: Piece = 1;

pub const WHITE_KING: Piece = 0x00;
pub const WHITE_QUEEN: Piece = 0x01;
pub const WHITE_ROOK: Piece = 0x02;
pub const WHITE_BISHOP: Piece = 0x03;
pub const WHITE_KNIGHT: Piece = 0x04;
pub const WHITE_PAWN: Piece = 0x05;

pub const BLACK_KING: Piece = 0x10;
pub const BLACK_QUEEN: Piece = 0x11;
pub const BLACK_ROOK: Piece = 0x12;
pub const BLACK_BISHOP: Piece = 0x13;
pub const BLACK_KNIGHT: Piece = 0x14;
pub const BLACK_PAWN: Piece = 0x15;

pub const PIECE_MASK: Piece = 0x0F;

/// A mailbox cell is either the empty sentinel or a kind below six
/// paired with a colour below two.
pub open spec fn valid_cell(p: u8) -> bool {
    p == EMPTY as u8 || ((p & 0x0F) < 6 && (p >> 4) < 2 && (p & 0xE0) == 0)
}

/// A piece code, or the empty sentinel, as a `usize`.
pub open spec fn valid_piece(p: Piece) -> bool {
    p <= 6 || (16 <= p && p <= 21)
}

/// The code of a piece of colour `c` and kind `k`.
pub open spec fn code_of(c: int, k: int) -> u8 {
    (k + c * 16) as u8
}

/// The nibble fields of a piece code: kind below, colour above.
pub proof fn lemma_code_fields(k: u8, c: u8)
    requires
        k < 16,
        c < 2,
    ensures
        (((k + c * 16) as u8) & 0x0F) == k,
        (((k + c * 16) as u8) >> 4u8) == c,
        (((k + c * 16) as u8) & 0xE0u8) == 0,
{
    let p = (k + c * 16) as u8;
    assert(k < 16 && c < 2 && p == k + c * 16 ==> (p & 0x0F) == k && (p >> 4u8) == c && (p
        & 0xE0u8) == 0) by (bit_vector);
}

/// A cell with a clear high nibble is its kind plus sixteen times its
/// colour.
pub proof fn lemma_cell_decompose(p: u8)
    requires
        (p & 0xE0u8) == 0,
    ensures
        p == (p & 0x0F) + ((p >> 4u8) as u8) * 16,
{
    assert((p & 0xE0u8) == 0 ==> p == (p & 0x0F) + ((p >> 4u8) as u8) * 16) by (bit_vector);
}

pub open spec fn is_piece_char(c: char) -> bool {
    c == 'K' || c == 'Q' || c == 'R' || c == 'B' || c == 'N' || c == 'P' || c == 'k' || c == 'q'
        || c == 'r' || c == 'b' || c == 'n' || c == 'p'
}

pub open spec fn piece_of_char(c: char) -> Piece {
    if c == 'K' {
        WHITE_KING
    } else if c == 'Q' {
        WHITE_QUEEN
    } else if c == 'R' {
        WHITE_ROOK
    } else if c == 'B' {
        WHITE_BISHOP
    } else if c == 'N' {
        WHITE_KNIGHT
    } else if c == 'P' {
        WHITE_PAWN
    } else if c == 'k' {
        BLACK_KING
    } else if c == 'q' {
        BLACK_QUEEN
    } else if c == 'r' {
        BLACK_ROOK
    } else if c == 'b' {
        BLACK_BISHOP
    } else if c == 'n' {
        BLACK_KNIGHT
    } else {
        BLACK_PAWN
    }
}

pub open spec fn char_of_piece(p: Piece) -> char {
    if p == WHITE_KING {
        'K'
    } else if p == WHITE_QUEEN {
        'Q'
    } else if p == WHITE_ROOK {
        'R'
    } else if p == WHITE_BISHOP {
        'B'
    } else if p == WHITE_KNIGHT {
        'N'
    } else if p == WHITE_PAWN {
        'P'
    } else if p == BLACK_KING {
        'k'
    } else if p == BLACK_QUEEN {
        'q'
    } else if p == BLACK_ROOK {
        'r'
    } else if p == BLACK_BISHOP {
        'b'
    } else if p == BLACK_KNIGHT {
        'n'
    } else {
        'p'
    }
}

pub trait PieceExt: Sized + Copy {
    /// The values the letter codec is defined on.
    spec fn codec_valid(self) -> bool;

    /// Decodes a FEN piece letter; uppercase is White, lowercase is Black.
    fn from_alpha(c: char) -> (r: Self)
        requires
            is_piece_char(c),
    ;

    /// Encodes the piece as its FEN letter.
    fn to_alpha(self) -> (r: char)
        requires
            self.codec_valid(),
    ;

    /// Encodes the piece as a chess glyph for pretty printing.
    fn to_unicode(self) -> (r: char)
        requires
            self.codec_valid(),
    ;
}

impl PieceExt for Piece {
    open spec fn codec_valid(self) -> bool {
        valid_piece(self)
    }

    fn from_alpha(c: char) -> (r: Self)
        ensures
            r == piece_of_char(c),
    {
        match c {
            'K' => WHITE_KING,
            'Q' => WHITE_QUEEN,
            'R' => WHITE_ROOK,
            'B' => WHITE_BISHOP,
            'N' => WHITE_KNIGHT,
            'P' => WHITE_PAWN,
            'k' => BLACK_KING,
            'q' => BLACK_QUEEN,
            'r' => BLACK_ROOK,
            'b' => BLACK_BISHOP,
            'n' => BLACK_KNIGHT,
            _ => BLACK_PAWN,
        }
    }

    fn to_alpha(self) -> (r: char)
        ensures
            self != EMPTY ==> r == char_of_piece(self),
            self == EMPTY ==> r == '.',
    {
        match self {
            WHITE_KING => 'K',
            WHITE_QUEEN => 'Q',
            WHITE_ROOK => 'R',
            WHITE_BISHOP => 'B',
            WHITE_KNIGHT => 'N',
            WHITE_PAWN => 'P',
            BLACK_KING => 'k',
            BLACK_QUEEN => 'q',
            BLACK_ROOK => 'r',
            BLACK_BISHOP => 'b',
            BLACK_KNIGHT => 'n',
            BLACK_PAWN => 'p',
            _ => '.',
        }
    }

    fn to_unicode(self) -> (r: char) {
        match self {
            WHITE_KING => '\u{2654}',
            WHITE_QUEEN => '\u{2655}',
            WHITE_ROOK => '\u{2656}',
            WHITE_BISHOP => '\u{2657}',
            WHITE_KNIGHT => '\u{2658}',
            WHITE_PAWN => '\u{2659}',
            BLACK_KING => '\u{265A}',
            BLACK_QUEEN => '\u{265B}',
            BLACK_ROOK => '\u{265C}',
            BLACK_BISHOP => '\u{265D}',
            BLACK_KNIGHT => '\u{265E}',
            BLACK_PAWN => '\u{265F}',
            _ => '\u{2022}',
        }
    }
}

} // verus!
