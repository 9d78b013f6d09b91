//! The board state: mailbox, per-piece bitboards, side to move,
//! castling rights, en-passant target and move clocks.

pub mod piece;

use vstd::prelude::*;

use crate::bitboard::{bit, lemma_bit_and, lemma_bit_or, lemma_no_bits, one_bit, Bitboard};
use crate::error::Error;
use crate::piece::{code_of, valid_cell, BLACK, WHITE};

verus! {

/// Sentinel for "no en-passant target".
pub const NO_EP: u8 = 255;

/// Castling right bits, a nibble ordered WK, WQ, BK, BQ from the most
/// significant bit down.
pub const WHITE_KINGSIDE: u8 = 0x8;

pub const WHITE_QUEENSIDE: u8 = 0x4;

pub const BLACK_KINGSIDE: u8 = 0x2;

pub const BLACK_QUEENSIDE: u8 = 0x1;

/// A representation of a chess board state.
///
/// `board` is a mailbox of piece codes under the little-endian rank-file
/// mapping; `bitboards[c][k]` holds the squares of colour `c`'s pieces of
/// kind `k`.
#[derive(Clone, Copy)]
pub struct Board {
    pub board: [u8; 64],
    pub bitboards: [[Bitboard; 6]; 2],
    pub to_move: usize,
    pub castle: u8,
    pub en_passant: u8,
    pub halfmove: u64,
    pub fullmove: u64,
}

/// The mathematical model of a board: the same fields over sequences
/// and unbounded integers.
#[verifier::ext_equal]
pub struct BoardModel {
    pub board: Seq<u8>,
    pub bitboards: Seq<Seq<u64>>,
    pub to_move: int,
    pub castle: u8,
    pub en_passant: u8,
    pub halfmove: u64,
    pub fullmove: u64,
}

/// The model of a bitboard array: two sequences of six sets.
pub open spec fn bbs_view(a: [[Bitboard; 6]; 2]) -> Seq<Seq<u64>> {
    Seq::new(2, |c: int| Seq::new(6, |k: int| a[c][k]))
}

impl View for Board {
    type V = BoardModel;

    open spec fn view(&self) -> BoardModel {
        BoardModel {
            board: self.board@,
            bitboards: bbs_view(self.bitboards),
            to_move: self.to_move as int,
            castle: self.castle,
            en_passant: self.en_passant,
            halfmove: self.halfmove,
            fullmove: self.fullmove,
        }
    }
}

/// Mailbox and bitboards agree: square `s` holds the piece of colour
/// `c` and kind `k` exactly when bit `s` of `bitboards[c][k]` is set.
pub open spec fn pair_coherent(board: Seq<u8>, bbs: Seq<Seq<u64>>) -> bool {
    forall|s: int, c: int, k: int|
        0 <= s < 64 && 0 <= c < 2 && 0 <= k < 6 ==> (#[trigger] bit(bbs[c][k], s) <==> board[s]
            == code_of(c, k))
}

/// Every mailbox cell holds a piece code or the empty sentinel.
pub open spec fn cells_ok(board: Seq<u8>) -> bool {
    forall|s: int| 0 <= s < 64 ==> valid_cell(#[trigger] board[s])
}

impl BoardModel {
    /// The fields have their carrier sizes.
    pub open spec fn sized(self) -> bool {
        &&& self.board.len() == 64
        &&& self.bitboards.len() == 2
        &&& self.bitboards[0].len() == 6
        &&& self.bitboards[1].len() == 6
    }

    /// Mailbox and bitboards agree.
    pub open spec fn coherent(self) -> bool {
        pair_coherent(self.board, self.bitboards)
    }

    /// Every mailbox cell holds a piece code or the empty sentinel.
    pub open spec fn cells_valid(self) -> bool {
        cells_ok(self.board)
    }

    /// Exactly one king per colour.
    pub open spec fn kings_ok(self) -> bool {
        one_bit(self.bitboards[0][0]) && one_bit(self.bitboards[1][0])
    }

    /// The en-passant target, when present, lies on the rank a pawn of
    /// the side that just moved skipped over.
    pub open spec fn ep_ok(self) -> bool {
        self.en_passant == NO_EP || (self.to_move == BLACK && 16 <= self.en_passant < 24) || (
        self.to_move == WHITE && 40 <= self.en_passant < 48)
    }

    /// The invariant of every board the core produces.
    pub open spec fn wf(self) -> bool {
        &&& self.sized()
        &&& 0 <= self.to_move < 2
        &&& self.castle < 16
        &&& self.coherent()
        &&& self.cells_valid()
        &&& self.kings_ok()
        &&& self.ep_ok()
        &&& self.halfmove <= 0x1000_0000
        &&& 1 <= self.fullmove <= 0x1000_0000
    }

    /// All squares occupied by pieces of colour `c`.
    pub open spec fn occ(self, c: int) -> u64 {
        self.bitboards[c][0] | self.bitboards[c][1] | self.bitboards[c][2] | self.bitboards[c][3]
            | self.bitboards[c][4] | self.bitboards[c][5]
    }
}

/// A board square, index 0..64 under the little-endian rank-file mapping.
#[derive(Clone, Copy, PartialEq, Eq, Structural)]
pub struct Square(pub usize);

impl Square {
    /// Builds the square named by a file letter and a rank digit.
    pub fn try_from_chars(f: char, r: char) -> (res: Result<Square, Error>)
        ensures
            ('a' <= f <= 'h' && '1' <= r <= '8') <==> res is Ok,
            res matches Ok(s) ==> s.0 == (f as int - 'a' as int) + 8 * (r as int - '1' as int)
                && s.0 < 64,
            res matches Err(e) ==> if !('a' <= f <= 'h') {
                e == Error::InvalidFile(f)
            } else {
                e == Error::InvalidRank(r)
            },
    {
        if !('a' <= f && f <= 'h') {
            return Err(Error::InvalidFile(f));
        }
        if !('1' <= r && r <= '8') {
            return Err(Error::InvalidRank(r));
        }
        let file = f as usize - 'a' as usize;
        let rank = r as usize - '1' as usize;
        Ok(Square(file + rank * 8))
    }

    /// The square's name in file-letter rank-digit form.
    pub fn name(&self) -> (r: [u8; 2])
        requires
            self.0 < 64,
        ensures
            r[0] == 'a' as u8 + self.0 as int % 8,
            r[1] == '1' as u8 + self.0 as int / 8,
    {
        ['a' as u8 + (self.0 % 8) as u8, '1' as u8 + (self.0 / 8) as u8]
    }
}

/// A square occupied by colour `c` is occupied by one of its six kinds.
pub proof fn lemma_occ_bit(b: BoardModel, c: int)
    requires
        b.sized(),
        0 <= c < 2,
    ensures
        forall|i: int|
            #![trigger bit(b.occ(c), i)]
            bit(b.occ(c), i) <==> exists|k: int| 0 <= k < 6 && bit(#[trigger] b.bitboards[c][k], i),
{
    let b0 = b.bitboards[c][0];
    let b1 = b.bitboards[c][1];
    let b2 = b.bitboards[c][2];
    let b3 = b.bitboards[c][3];
    let b4 = b.bitboards[c][4];
    let b5 = b.bitboards[c][5];
    lemma_bit_or(b0, b1);
    lemma_bit_or(b0 | b1, b2);
    lemma_bit_or(b0 | b1 | b2, b3);
    lemma_bit_or(b0 | b1 | b2 | b3, b4);
    lemma_bit_or(b0 | b1 | b2 | b3 | b4, b5);
    assert forall|i: int| #![trigger bit(b.occ(c), i)] bit(b.occ(c), i) <==> exists|k: int|
        0 <= k < 6 && bit(#[trigger] b.bitboards[c][k], i) by {
        if bit(b.occ(c), i) {
            if bit(b0, i) {
                assert(bit(b.bitboards[c][0], i));
            } else if bit(b1, i) {
                assert(bit(b.bitboards[c][1], i));
            } else if bit(b2, i) {
                assert(bit(b.bitboards[c][2], i));
            } else if bit(b3, i) {
                assert(bit(b.bitboards[c][3], i));
            } else if bit(b4, i) {
                assert(bit(b.bitboards[c][4], i));
            } else {
                assert(bit(b.bitboards[c][5], i));
            }
        }
    }
}

/// The White and Black occupancy sets of a coherent board are disjoint.
pub proof fn lemma_colour_partition(b: BoardModel)
    requires
        b.sized(),
        b.coherent(),
    ensures
        b.occ(0) & b.occ(1) == 0,
{
    lemma_occ_bit(b, 0);
    lemma_occ_bit(b, 1);
    lemma_bit_and(b.occ(0), b.occ(1));
    assert forall|i: int| !bit(b.occ(0) & b.occ(1), i) by {
        if bit(b.occ(0) & b.occ(1), i) {
            let k0 = choose|k: int| 0 <= k < 6 && bit(b.bitboards[0][k], i);
            let k1 = choose|k: int| 0 <= k < 6 && bit(b.bitboards[1][k], i);
            assert(b.board[i] == code_of(0, k0));
            assert(b.board[i] == code_of(1, k1));
        }
    }
    lemma_no_bits(b.occ(0) & b.occ(1));
}

} // verus!
