//! The enumerated piece model exposed alongside the integer codes.

use vstd::prelude::*;

use crate::error::Error;

verus! {

#[derive(Clone, Copy, Debug, PartialEq, Eq, Structural)]
pub enum Piece {
    BlackKing,
    BlackQueen,
    BlackRook,
    BlackBishop,
    BlackKnight,
    BlackPawn,
    WhiteKing,
    WhiteQueen,
    WhiteRook,
    WhiteBishop,
    WhiteKnight,
    WhitePawn,
}

#[derive(Clone, Copy, Debug, PartialEq, Eq, Structural)]
pub enum Colour {
    Black,
    White,
}

#[derive(Clone, Copy, Debug, PartialEq, Eq, Structural)]
pub enum UncolouredPiece {
    King,
    Queen,
    Rook,
    Bishop,
    Knight,
    Pawn,
}

impl Colour {
    /// The other side.
    pub fn opposite(self) -> (r: Colour)
        ensures
            r == (if self is Black {
                Colour::White
            } else {
                Colour::Black
            }),
    {
        match self {
            Colour::Black => Colour::White,
            Colour::White => Colour::Black,
        }
    }

    /// Pairs the colour with a kind.
    pub fn with(self, kind: UncolouredPiece) -> (r: Piece)
        ensures
            r.colour_spec() == self && r.kind_spec() == kind,
    {
        match (self, kind) {
            (Colour::Black, UncolouredPiece::King) => Piece::BlackKing,
            (Colour::Black, UncolouredPiece::Queen) => Piece::BlackQueen,
            (Colour::Black, UncolouredPiece::Rook) => Piece::BlackRook,
            (Colour::Black, UncolouredPiece::Bishop) => Piece::BlackBishop,
            (Colour::Black, UncolouredPiece::Knight) => Piece::BlackKnight,
            (Colour::Black, UncolouredPiece::Pawn) => Piece::BlackPawn,
            (Colour::White, UncolouredPiece::King) => Piece::WhiteKing,
            (Colour::White, UncolouredPiece::Queen) => Piece::WhiteQueen,
            (Colour::White, UncolouredPiece::Rook) => Piece::WhiteRook,
            (Colour::White, UncolouredPiece::Bishop) => Piece::WhiteBishop,
            (Colour::White, UncolouredPiece::Knight) => Piece::WhiteKnight,
            (Colour::White, UncolouredPiece::Pawn) => Piece::WhitePawn,
        }
    }
}

impl Piece {
    pub open spec fn colour_spec(self) -> Colour {
        match self {
            Piece::BlackKing
            | Piece::BlackQueen
            | Piece::BlackRook
            | Piece::BlackBishop
            | Piece::BlackKnight
            | Piece::BlackPawn => Colour::Black,
            _ => Colour::White,
        }
    }

    pub open spec fn kind_spec(self) -> UncolouredPiece {
        match self {
            Piece::BlackKing | Piece::WhiteKing => UncolouredPiece::King,
            Piece::BlackQueen | Piece::WhiteQueen => UncolouredPiece::Queen,
            Piece::BlackRook | Piece::WhiteRook => UncolouredPiece::Rook,
            Piece::BlackBishop | Piece::WhiteBishop => UncolouredPiece::Bishop,
            Piece::BlackKnight | Piece::WhiteKnight => UncolouredPiece::Knight,
            Piece::BlackPawn | Piece::WhitePawn => UncolouredPiece::Pawn,
        }
    }

    pub fn colour(self) -> (r: Colour)
        ensures
            r == self.colour_spec(),
    {
        match self {
            Piece::BlackKing
            | Piece::BlackQueen
            | Piece::BlackRook
            | Piece::BlackBishop
            | Piece::BlackKnight
            | Piece::BlackPawn => Colour::Black,
            _ => Colour::White,
        }
    }

    pub fn piece(self) -> (r: UncolouredPiece)
        ensures
            r == self.kind_spec(),
    {
        match self {
            Piece::BlackKing | Piece::WhiteKing => UncolouredPiece::King,
            Piece::BlackQueen | Piece::WhiteQueen => UncolouredPiece::Queen,
            Piece::BlackRook | Piece::WhiteRook => UncolouredPiece::Rook,
            Piece::BlackBishop | Piece::WhiteBishop => UncolouredPiece::Bishop,
            Piece::BlackKnight | Piece::WhiteKnight => UncolouredPiece::Knight,
            Piece::BlackPawn | Piece::WhitePawn => UncolouredPiece::Pawn,
        }
    }

    pub open spec fn index_spec(self) -> usize {
        match self {
            Piece::BlackKing => 0,
            Piece::BlackQueen => 1,
            Piece::BlackRook => 2,
            Piece::BlackBishop => 3,
            Piece::BlackKnight => 4,
            Piece::BlackPawn => 5,
            Piece::WhiteKing => 6,
            Piece::WhiteQueen => 7,
            Piece::WhiteRook => 8,
            Piece::WhiteBishop => 9,
            Piece::WhiteKnight => 10,
            Piece::WhitePawn => 11,
        }
    }

    /// The piece's position in declaration order, Black pieces first.
    pub fn as_index(self) -> (r: usize)
        ensures
            r == self.index_spec(),
            r < 12,
    {
        match self {
            Piece::BlackKing => 0,
            Piece::BlackQueen => 1,
            Piece::BlackRook => 2,
            Piece::BlackBishop => 3,
            Piece::BlackKnight => 4,
            Piece::BlackPawn => 5,
            Piece::WhiteKing => 6,
            Piece::WhiteQueen => 7,
            Piece::WhiteRook => 8,
            Piece::WhiteBishop => 9,
            Piece::WhiteKnight => 10,
            Piece::WhitePawn => 11,
        }
    }

    /// Decodes a FEN piece letter.
    pub fn try_from_char(value: char) -> (r: Result<Piece, Error>)
        ensures
            crate::piece::is_piece_char(value) <==> r is Ok,
            r matches Err(e) ==> e == Error::InvalidPiece(value),
            r matches Ok(p) ==> p.to_char_spec() == value,
    {
        match value {
            'k' => Ok(Piece::BlackKing),
            'q' => Ok(Piece::BlackQueen),
            'r' => Ok(Piece::BlackRook),
            'b' => Ok(Piece::BlackBishop),
            'n' => Ok(Piece::BlackKnight),
            'p' => Ok(Piece::BlackPawn),
            'K' => Ok(Piece::WhiteKing),
            'Q' => Ok(Piece::WhiteQueen),
            'R' => Ok(Piece::WhiteRook),
            'B' => Ok(Piece::WhiteBishop),
            'N' => Ok(Piece::WhiteKnight),
            'P' => Ok(Piece::WhitePawn),
            _ => Err(Error::InvalidPiece(value)),
        }
    }

    pub open spec fn to_char_spec(self) -> char {
        match self {
            Piece::BlackKing => 'k',
            Piece::BlackQueen => 'q',
            Piece::BlackRook => 'r',
            Piece::BlackBishop => 'b',
            Piece::BlackKnight => 'n',
            Piece::BlackPawn => 'p',
            Piece::WhiteKing => 'K',
            Piece::WhiteQueen => 'Q',
            Piece::WhiteRook => 'R',
            Piece::WhiteBishop => 'B',
            Piece::WhiteKnight => 'N',
            Piece::WhitePawn => 'P',
        }
    }

    /// Encodes the piece as its FEN letter.
    pub fn to_char(self) -> (r: char)
        ensures
            r == self.to_char_spec(),
    {
        match self {
            Piece::BlackKing => 'k',
            Piece::BlackQueen => 'q',
            Piece::BlackRook => 'r',
            Piece::BlackBishop => 'b',
            Piece::BlackKnight => 'n',
            Piece::BlackPawn => 'p',
            Piece::WhiteKing => 'K',
            Piece::WhiteQueen => 'Q',
            Piece::WhiteRook => 'R',
            Piece::WhiteBishop => 'B',
            Piece::WhiteKnight => 'N',
            Piece::WhitePawn => 'P',
        }
    }
}

} // verus!
