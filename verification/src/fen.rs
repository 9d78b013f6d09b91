//! The FEN text codec: parsing the six fields into a board that
//! satisfies the board invariant, and printing a board back.

use vstd::prelude::*;
use vstd::string::StringSliceAdditionalSpecFns;

use crate::bitboard::{
    bit, lemma_bit_or, lemma_bit_single, lemma_bit_zero, lemma_nonzero_has_bit, one_bit,
};
use crate::board::{bbs_view, Board, BoardModel, NO_EP};
use crate::error::Error;
use crate::piece::{code_of, BLACK, EMPTY, KING, WHITE};

verus! {

/// The piece code of a FEN letter byte, or none.
pub open spec fn code_of_letter(c: u8) -> Option<u8> {
    if c == 'K' as u8 {
        Some(0u8)
    } else if c == 'Q' as u8 {
        Some(1u8)
    } else if c == 'R' as u8 {
        Some(2u8)
    } else if c == 'B' as u8 {
        Some(3u8)
    } else if c == 'N' as u8 {
        Some(4u8)
    } else if c == 'P' as u8 {
        Some(5u8)
    } else if c == 'k' as u8 {
        Some(16u8)
    } else if c == 'q' as u8 {
        Some(17u8)
    } else if c == 'r' as u8 {
        Some(18u8)
    } else if c == 'b' as u8 {
        Some(19u8)
    } else if c == 'n' as u8 {
        Some(20u8)
    } else if c == 'p' as u8 {
        Some(21u8)
    } else {
        None
    }
}

fn letter_code(c: u8) -> (r: Option<u8>)
    ensures
        r == code_of_letter(c),
{
    if c == 'K' as u8 {
        Some(0u8)
    } else if c == 'Q' as u8 {
        Some(1u8)
    } else if c == 'R' as u8 {
        Some(2u8)
    } else if c == 'B' as u8 {
        Some(3u8)
    } else if c == 'N' as u8 {
        Some(4u8)
    } else if c == 'P' as u8 {
        Some(5u8)
    } else if c == 'k' as u8 {
        Some(16u8)
    } else if c == 'q' as u8 {
        Some(17u8)
    } else if c == 'r' as u8 {
        Some(18u8)
    } else if c == 'b' as u8 {
        Some(19u8)
    } else if c == 'n' as u8 {
        Some(20u8)
    } else if c == 'p' as u8 {
        Some(21u8)
    } else {
        None
    }
}


/// The empty mailbox the placement scan starts from.
pub open spec fn empty_board() -> Seq<u8> {
    Seq::new(64, |s: int| EMPTY as u8)
}

/// The empty bitboards the placement scan starts from.
pub open spec fn empty_bbs() -> Seq<Seq<u64>> {
    Seq::new(2, |c: int| Seq::new(6, |k: int| 0u64))
}

/// The placement scan: from input index `i` at file `x` of rank `y`,
/// consuming digits as runs of empty squares, letters as pieces and
/// slashes as rank separators, until the field-ending space.
pub open spec fn parse_placement(
    s: Seq<u8>,
    i: int,
    x: int,
    y: int,
    board: Seq<u8>,
    bbs: Seq<Seq<u64>>,
) -> Option<(int, Seq<u8>, Seq<Seq<u64>>)>
    decreases s.len() - i,
{
    if i < 0 || i >= s.len() {
        None
    } else if s[i] == ' ' as u8 {
        if x == 8 && y == 0 {
            Some((i, board, bbs))
        } else {
            None
        }
    } else if s[i] == '/' as u8 {
        if x == 8 && y > 0 {
            parse_placement(s, i + 1, 0, y - 1, board, bbs)
        } else {
            None
        }
    } else if '1' as u8 <= s[i] && s[i] <= '8' as u8 {
        let d = s[i] - '0' as u8;
        if x + d <= 8 {
            parse_placement(s, i + 1, x + d, y, board, bbs)
        } else {
            None
        }
    } else {
        match code_of_letter(s[i]) {
            None => None,
            Some(code) => {
                if x < 8 {
                    let pos = x + y * 8;
                    let colour = (code / 16) as int;
                    let kind = (code % 16) as int;
                    parse_placement(
                        s,
                        i + 1,
                        x + 1,
                        y,
                        board.update(pos, code),
                        bbs.update(
                            colour,
                            bbs[colour].update(kind, bbs[colour][kind] | (1u64 << pos as u64)),
                        ),
                    )
                } else {
                    None
                }
            },
        }
    }
}

/// The side-to-move field: one letter, `w` or `b`.
pub open spec fn parse_side(s: Seq<u8>, i: int) -> Option<(int, int)> {
    if 0 <= i < s.len() {
        if s[i] == 'w' as u8 {
            Some((i + 1, WHITE as int))
        } else if s[i] == 'b' as u8 {
            Some((i + 1, BLACK as int))
        } else {
            None
        }
    } else {
        None
    }
}

/// A single space separating two fields.
pub open spec fn expect_space(s: Seq<u8>, i: int) -> Option<int> {
    if 0 <= i < s.len() && s[i] == ' ' as u8 {
        Some(i + 1)
    } else {
        None
    }
}

/// One or more castling letters accumulated into the rights nibble.
pub open spec fn parse_castle_letters(s: Seq<u8>, start: int, i: int, acc: u8) -> Option<(int, u8)>
    decreases s.len() - i,
{
    if i < 0 {
        None
    } else if i >= s.len() || s[i] == ' ' as u8 {
        if i == start {
            None
        } else {
            Some((i, acc))
        }
    } else if s[i] == 'K' as u8 {
        parse_castle_letters(s, start, i + 1, acc | 0x8u8)
    } else if s[i] == 'Q' as u8 {
        parse_castle_letters(s, start, i + 1, acc | 0x4u8)
    } else if s[i] == 'k' as u8 {
        parse_castle_letters(s, start, i + 1, acc | 0x2u8)
    } else if s[i] == 'q' as u8 {
        parse_castle_letters(s, start, i + 1, acc | 0x1u8)
    } else {
        None
    }
}

/// The castling field: a dash, or castling letters.
pub open spec fn parse_castles(s: Seq<u8>, i: int) -> Option<(int, u8)> {
    if 0 <= i < s.len() && s[i] == '-' as u8 {
        Some((i + 1, 0u8))
    } else {
        parse_castle_letters(s, i, i, 0u8)
    }
}

/// The en-passant field: a dash, or a file letter and a rank digit.
pub open spec fn parse_ep(s: Seq<u8>, i: int) -> Option<(int, u8)> {
    if 0 <= i < s.len() && s[i] == '-' as u8 {
        Some((i + 1, NO_EP))
    } else if 0 <= i && i + 2 <= s.len() {
        let f = s[i];
        let rk = s[i + 1];
        if 'a' as u8 <= f <= 'h' as u8 && '1' as u8 <= rk <= '8' as u8 {
            Some((i + 2, ((f - 'a' as u8) + (rk - '1' as u8) * 8) as u8))
        } else {
            None
        }
    } else {
        None
    }
}

/// A decimal number read until a space or the end of the input; the
/// accumulator is refused once it exceeds the counter cap.
pub open spec fn parse_number(s: Seq<u8>, i: int, acc: u64) -> Option<(int, u64)>
    decreases s.len() - i,
{
    if i < 0 {
        None
    } else if i >= s.len() || s[i] == ' ' as u8 {
        Some((i, acc))
    } else if '0' as u8 <= s[i] && s[i] <= '9' as u8 {
        if acc > 0x10_0000 {
            None
        } else {
            parse_number(s, i + 1, (acc * 10 + (s[i] - '0' as u8)) as u64)
        }
    } else {
        None
    }
}

/// The optional halfmove and fullmove fields, defaulting to zero and
/// one; when present they must be non-empty and reach the end of the
/// input.
pub open spec fn parse_counters(s: Seq<u8>, i: int) -> Option<(u64, u64)> {
    if i >= s.len() {
        Some((0u64, 1u64))
    } else {
        match expect_space(s, i) {
            None => None,
            Some(i1) => match parse_number(s, i1, 0) {
                None => None,
                Some((i2, hm)) => {
                    if i2 == i1 {
                        None
                    } else if i2 >= s.len() {
                        Some((hm, 1u64))
                    } else {
                        match parse_number(s, i2 + 1, 0) {
                            None => None,
                            Some((i4, fm)) => {
                                if i4 == i2 + 1 || i4 < s.len() {
                                    None
                                } else {
                                    Some((hm, fm))
                                }
                            },
                        }
                    }
                },
            },
        }
    }
}

/// The en-passant target lies on the rank a double push of the side
/// that just moved skipped over.
pub open spec fn ep_fits(to_move: int, ep: u8) -> bool {
    ep == NO_EP || (to_move == BLACK && 16 <= ep < 24) || (to_move == WHITE && 40 <= ep < 48)
}

/// Each side has exactly one king on its king bitboard.
pub open spec fn kings_once(bbs: Seq<Seq<u64>>) -> bool {
    let wk = bbs[WHITE as int][KING as int];
    let bk = bbs[BLACK as int][KING as int];
    wk != 0 && wk & ((wk - 1) as u64) == 0 && bk != 0 && bk & ((bk - 1) as u64) == 0
}

/// The functional model of the FEN parser: exactly the inputs `decode`
/// accepts, and exactly the board it builds from each.
pub open spec fn fen_parse_spec(s: Seq<u8>) -> Option<BoardModel> {
    match parse_placement(s, 0, 0, 7, empty_board(), empty_bbs()) {
        None => None,
        Some((i0, board, bbs)) => match parse_side(s, i0 + 1) {
            None => None,
            Some((i1, to_move)) => match expect_space(s, i1) {
                None => None,
                Some(i2) => match parse_castles(s, i2) {
                    None => None,
                    Some((i3, castle)) => match expect_space(s, i3) {
                        None => None,
                        Some(i4) => match parse_ep(s, i4) {
                            None => None,
                            Some((i5, en_passant)) => {
                                if !ep_fits(to_move, en_passant) {
                                    None
                                } else {
                                    match parse_counters(s, i5) {
                                        None => None,
                                        Some((halfmove, fullmove)) => {
                                            if fullmove < 1 || !kings_once(bbs) {
                                                None
                                            } else {
                                                Some(
                                                    BoardModel {
                                                        board,
                                                        bitboards: bbs,
                                                        to_move,
                                                        castle,
                                                        en_passant,
                                                        halfmove,
                                                        fullmove,
                                                    },
                                                )
                                            }
                                        },
                                    }
                                }
                            },
                        },
                    },
                },
            },
        },
    }
}

/// The mailbox and the bitboards agree, every cell decodes, and the
/// squares not yet filled (rank below `y`, or rank `y` at file `x` and
/// beyond) are still empty everywhere.
spec fn placing_inv(board: [u8; 64], bbs: [[u64; 6]; 2], x: int, y: int) -> bool {
    &&& (forall|s: int, c: int, k: int|
        0 <= s < 64 && 0 <= c < 2 && 0 <= k < 6 ==> (#[trigger] bit(bbs_view(bbs)[c][k], s) <==> board@[s]
            == code_of(c, k)))
    &&& (forall|s: int| 0 <= s < 64 ==> crate::piece::valid_cell(#[trigger] board@[s]))
    &&& (forall|s: int|
        0 <= s < 64 && (s / 8 < y || (s / 8 == y && s % 8 >= x)) ==> #[trigger] board@[s] == EMPTY
            as u8)
}

/// The cell of the starting position: pawns on the second and seventh
/// ranks, the standard back ranks behind them.
pub open spec fn start_cell(s: int) -> u8 {
    if 8 <= s < 16 {
        5u8
    } else if 48 <= s < 56 {
        21u8
    } else if s == 0 || s == 7 {
        2u8
    } else if s == 1 || s == 6 {
        4u8
    } else if s == 2 || s == 5 {
        3u8
    } else if s == 3 {
        1u8
    } else if s == 4 {
        0u8
    } else if s == 56 || s == 63 {
        18u8
    } else if s == 57 || s == 62 {
        20u8
    } else if s == 58 || s == 61 {
        19u8
    } else if s == 59 {
        17u8
    } else if s == 60 {
        16u8
    } else {
        EMPTY as u8
    }
}

/// The starting position: White to move, all four castling rights, no
/// en-passant target, clocks at zero and one.
pub open spec fn start_model() -> BoardModel {
    BoardModel {
        board: Seq::new(64, |s: int| start_cell(s)),
        bitboards: seq![
            seq![0x10u64, 0x8u64, 0x81u64, 0x24u64, 0x42u64, 0xFF00u64],
            seq![
                0x1000000000000000u64,
                0x0800000000000000u64,
                0x8100000000000000u64,
                0x2400000000000000u64,
                0x4200000000000000u64,
                0x00FF000000000000u64,
            ],
        ],
        to_move: WHITE as int,
        castle: 0xFu8,
        en_passant: NO_EP,
        halfmove: 0u64,
        fullmove: 1u64,
    }
}

impl Board {
    /// Parses the six FEN fields: succeeds on exactly the inputs
    /// `fen_parse_spec` accepts and returns exactly the board it names,
    /// which always satisfies the board invariant.
    pub fn from_fen(fen: &str) -> (r: Result<Board, Error>)
        ensures
            r matches Ok(b) ==> b@.wf() && fen_parse_spec(fen.spec_bytes()) == Some(b@),
            r is Ok <==> fen_parse_spec(fen.spec_bytes()) is Some,
    {
        decode(fen)
    }

    /// The starting position.
    #[verifier::rlimit(100)]
    #[verifier::spinoff_prover]
    pub fn start() -> (r: Board)
        ensures
            r@ == start_model(),
            r@.wf(),
    {
        let board: [u8; 64] = [
            2, 4, 3, 1, 0, 3, 4, 2,
            5, 5, 5, 5, 5, 5, 5, 5,
            6, 6, 6, 6, 6, 6, 6, 6,
            6, 6, 6, 6, 6, 6, 6, 6,
            6, 6, 6, 6, 6, 6, 6, 6,
            6, 6, 6, 6, 6, 6, 6, 6,
            21, 21, 21, 21, 21, 21, 21, 21,
            18, 20, 19, 17, 16, 19, 20, 18,
        ];
        let bitboards: [[u64; 6]; 2] = [
            [0x10, 0x8, 0x81, 0x24, 0x42, 0xFF00],
            [
                0x1000000000000000,
                0x0800000000000000,
                0x8100000000000000,
                0x2400000000000000,
                0x4200000000000000,
                0x00FF000000000000,
            ],
        ];
        let b = Board {
            board,
            bitboards,
            to_move: WHITE,
            castle: 0xF,
            en_passant: NO_EP,
            halfmove: 0,
            fullmove: 1,
        };
        proof {
            assert(b@.board =~= start_model().board);
            assert(b@.bitboards =~~= start_model().bitboards);
            assert(b@ =~~= start_model());
            crate::piece::lemma_code_fields(0, 0);
            crate::piece::lemma_code_fields(1, 0);
            crate::piece::lemma_code_fields(2, 0);
            crate::piece::lemma_code_fields(3, 0);
            crate::piece::lemma_code_fields(4, 0);
            crate::piece::lemma_code_fields(5, 0);
            crate::piece::lemma_code_fields(6, 0);
            crate::piece::lemma_code_fields(0, 1);
            crate::piece::lemma_code_fields(1, 1);
            crate::piece::lemma_code_fields(2, 1);
            crate::piece::lemma_code_fields(3, 1);
            crate::piece::lemma_code_fields(4, 1);
            crate::piece::lemma_code_fields(5, 1);
            assert forall|s: int, c: int, k: int|
                0 <= s < 64 && 0 <= c < 2 && 0 <= k < 6 implies (#[trigger] bit(
                b@.bitboards[c][k],
                s,
            ) <==> b@.board[s] == code_of(c, k)) by {
                let iu = s as u64;
                assert(iu < 64 ==> ((0x10u64 & (1u64 << iu)) != 0) == (iu == 4) && ((0x8u64 & (1u64
                    << iu)) != 0) == (iu == 3) && ((0x81u64 & (1u64 << iu)) != 0) == (iu == 0 || iu
                    == 7) && ((0x24u64 & (1u64 << iu)) != 0) == (iu == 2 || iu == 5) && ((0x42u64
                    & (1u64 << iu)) != 0) == (iu == 1 || iu == 6) && ((0xFF00u64 & (1u64 << iu))
                    != 0) == (8 <= iu < 16) && ((0x1000000000000000u64 & (1u64 << iu)) != 0) == (iu
                    == 60) && ((0x0800000000000000u64 & (1u64 << iu)) != 0) == (iu == 59) && ((
                0x8100000000000000u64 & (1u64 << iu)) != 0) == (iu == 56 || iu == 63) && ((
                0x2400000000000000u64 & (1u64 << iu)) != 0) == (iu == 58 || iu == 61) && ((
                0x4200000000000000u64 & (1u64 << iu)) != 0) == (iu == 57 || iu == 62) && ((
                0x00FF000000000000u64 & (1u64 << iu)) != 0) == (48 <= iu < 56)) by (bit_vector);
            }
            assert forall|s: int| 0 <= s < 64 implies crate::piece::valid_cell(
                #[trigger] b@.board[s],
            ) by {}
            assert(0x10u64 == 1u64 << 4u64 && 0x1000000000000000u64 == 1u64 << 60u64)
                by (bit_vector);
            assert(one_bit(b@.bitboards[0][0]));
            assert(one_bit(b@.bitboards[1][0]));
            assert(b@.wf());
        }
        b
    }
}

/// A single bit set means exactly one king.
proof fn lemma_single_bit(bb: u64)
    requires
        bb != 0,
        bb & (bb - 1) as u64 == 0,
    ensures
        one_bit(bb),
{
    lemma_nonzero_has_bit(bb);
    let t = crate::bitboard::u64_lowest_bit(bb) as u64;
    assert(bb != 0 && bb & (bb - 1) as u64 == 0 && t < 64 && bb & (1u64 << t) != 0 ==> bb == (1u64
        << t)) by (bit_vector);
}

/// Parses a FEN string: piece placement over ranks eight down to one,
/// side to move, castling rights, en-passant target, and the optional
/// halfmove and fullmove numbers (defaulting to zero and one). Succeeds
/// on exactly the inputs `fen_parse_spec` accepts, returns exactly the
/// board it names — which always satisfies the board invariant — and
/// reports an error on every other input.
#[verifier::loop_isolation(false)]
#[verifier::rlimit(100)]
pub fn decode(fen: &str) -> (r: Result<Board, Error>)
    ensures
        r matches Ok(b) ==> b@.wf() && fen_parse_spec(fen.spec_bytes()) == Some(b@),
        r is Ok <==> fen_parse_spec(fen.spec_bytes()) is Some,
{
    let bytes = fen.as_bytes();
    let ghost sb = bytes@;
    let n = bytes.len();
    let mut board: [u8; 64] = [EMPTY as u8;64];
    let mut bitboards: [[u64; 6]; 2] = [[0u64;6];2];
    let mut i: usize = 0;
    let mut x: usize = 0;
    let mut y: usize = 7;
    proof {
        lemma_bit_zero();
        crate::piece::lemma_code_fields(6u8, 0u8);
        assert(board@ =~= empty_board());
        assert(bbs_view(bitboards) =~~= empty_bbs());
        assert(placing_inv(board, bitboards, 0, 7));
    }
    while i < n && bytes[i] != ' ' as u8
        invariant
            i <= n,
            x <= 8,
            y <= 7,
            placing_inv(board, bitboards, x as int, y as int),
            parse_placement(sb, 0, 0, 7, empty_board(), empty_bbs()) == parse_placement(
                sb,
                i as int,
                x as int,
                y as int,
                board@,
                bbs_view(bitboards),
            ),
        decreases n - i,
    {
        let c = bytes[i];
        if c == '/' as u8 {
            if x != 8 || y == 0 {
                return Err(Error::FailedToParseFEN(fen.to_owned()));
            }
            x = 0;
            y = y - 1;
        } else if '1' as u8 <= c && c <= '8' as u8 {
            let d = (c - '0' as u8) as usize;
            if x + d > 8 {
                return Err(Error::FailedToParseFEN(fen.to_owned()));
            }
            x = x + d;
        } else {
            match letter_code(c) {
                None => {
                    return Err(Error::InvalidPiece(c as char));
                },
                Some(code) => {
                    if x >= 8 {
                        return Err(Error::FailedToParseFEN(fen.to_owned()));
                    }
                    let pos = x + y * 8;
                    let colour = (code / 16) as usize;
                    let kind = (code % 16) as usize;
                    let ghost oldboard = board@;
                    let ghost oldbbs = bbs_view(bitboards);
                    let single = 1u64 << (pos as u64);
                    proof {
                        crate::piece::lemma_code_fields(code % 16, code / 16);
                        lemma_bit_single(pos as u64);
                        lemma_bit_or(oldbbs[colour as int][kind as int], single);
                    }
                    board[pos] = code;
                    let mut row = bitboards[colour];
                    row[kind] = row[kind] | single;
                    bitboards[colour] = row;
                    x = x + 1;
                    proof {
                        let nbb = bbs_view(bitboards);
                        assert(board@ =~= oldboard.update(pos as int, code));
                        assert forall|c2: int, k2: int| 0 <= c2 < 2 && 0 <= k2 < 6 implies #[trigger] nbb[c2][k2] == (if c2 == colour && k2 == kind {
                            oldbbs[c2][k2] | single
                        } else {
                            oldbbs[c2][k2]
                        }) by {}
                        assert(nbb =~~= oldbbs.update(
                            colour as int,
                            oldbbs[colour as int].update(
                                kind as int,
                                oldbbs[colour as int][kind as int] | single,
                            ),
                        ));
                        assert forall|s2: int, c2: int, k2: int|
                            0 <= s2 < 64 && 0 <= c2 < 2 && 0 <= k2 < 6 implies (#[trigger] bit(
                            nbb[c2][k2],
                            s2,
                        ) <==> board@[s2] == code_of(c2, k2)) by {
                            if c2 == colour && k2 == kind {
                                assert(bit(nbb[c2][k2], s2) == (bit(oldbbs[c2][k2], s2) || s2
                                    == pos));
                            } else {
                                assert(bit(nbb[c2][k2], s2) == bit(oldbbs[c2][k2], s2));
                                if s2 == pos {
                                    assert(oldboard[s2] == EMPTY as u8);
                                }
                            }
                        }
                        assert(placing_inv(board, bitboards, x as int, y as int));
                    }
                },
            }
        }
        i = i + 1;
    }
    if i >= n {
        return Err(Error::FailedToParseFEN(fen.to_owned()));
    }
    if !(x == 8 && y == 0) {
        return Err(Error::FailedToParseFEN(fen.to_owned()));
    }
    let ghost pl_i = i as int;
    let ghost pl_board = board@;
    let ghost pl_bbs = bbs_view(bitboards);
    proof {
        assert(parse_placement(sb, 0, 0, 7, empty_board(), empty_bbs()) == Some(
            (pl_i, pl_board, pl_bbs),
        ));
    }
    // side to move
    i = i + 1;
    if i >= n {
        return Err(Error::FailedToParseFEN(fen.to_owned()));
    }
    let to_move: usize = if bytes[i] == 'w' as u8 {
        WHITE
    } else if bytes[i] == 'b' as u8 {
        BLACK
    } else {
        return Err(Error::FailedToParseFEN(fen.to_owned()));
    };
    let ghost tm = to_move as int;
    i = i + 1;
    proof {
        assert(parse_side(sb, pl_i + 1) == Some((i as int, tm)));
    }
    if i >= n || bytes[i] != ' ' as u8 {
        return Err(Error::FailedToParseFEN(fen.to_owned()));
    }
    i = i + 1;
    let ghost c_i = i as int;
    proof {
        assert(expect_space(sb, c_i - 1) == Some(c_i));
    }
    // castling rights
    let mut castle: u8 = 0;
    if i < n && bytes[i] == '-' as u8 {
        i = i + 1;
        proof {
            assert(parse_castles(sb, c_i) == Some((i as int, 0u8)));
        }
    } else {
        let start = i;
        while i < n && bytes[i] != ' ' as u8
            invariant
                start <= i <= n,
                castle < 16,
                parse_castles(sb, c_i) == parse_castle_letters(
                    sb,
                    start as int,
                    i as int,
                    castle,
                ),
            decreases n - i,
        {
            let c = bytes[i];
            proof {
                let cc = castle;
                assert(cc < 16 ==> (cc | 0x8u8) < 16 && (cc | 0x4u8) < 16 && (cc | 0x2u8) < 16 && (
                cc | 0x1u8) < 16) by (bit_vector);
            }
            if c == 'K' as u8 {
                castle = castle | 0x8u8;
            } else if c == 'Q' as u8 {
                castle = castle | 0x4u8;
            } else if c == 'k' as u8 {
                castle = castle | 0x2u8;
            } else if c == 'q' as u8 {
                castle = castle | 0x1u8;
            } else {
                return Err(Error::FailedToParseFEN(fen.to_owned()));
            }
            i = i + 1;
        }
        if i == start {
            return Err(Error::FailedToParseFEN(fen.to_owned()));
        }
        proof {
            assert(parse_castles(sb, c_i) == Some((i as int, castle)));
        }
    }
    if i >= n || bytes[i] != ' ' as u8 {
        return Err(Error::FailedToParseFEN(fen.to_owned()));
    }
    i = i + 1;
    let ghost e_i = i as int;
    proof {
        assert(expect_space(sb, e_i - 1) == Some(e_i));
    }
    // en-passant target
    let en_passant: u8;
    if i < n && bytes[i] == '-' as u8 {
        en_passant = NO_EP;
        i = i + 1;
    } else {
        if n - i < 2 {
            return Err(Error::FailedToParseFEN(fen.to_owned()));
        }
        let f = bytes[i];
        let rk = bytes[i + 1];
        if !('a' as u8 <= f && f <= 'h' as u8) {
            return Err(Error::InvalidFile(f as char));
        }
        if !('1' as u8 <= rk && rk <= '8' as u8) {
            return Err(Error::InvalidRank(rk as char));
        }
        en_passant = (f - 'a' as u8) + (rk - '1' as u8) * 8;
        i = i + 2;
    }
    proof {
        assert(parse_ep(sb, e_i) == Some((i as int, en_passant)));
    }
    // the target must lie on the rank a double push just skipped
    if !(en_passant == NO_EP || (to_move == BLACK && 16 <= en_passant && en_passant < 24) || (
    to_move == WHITE && 40 <= en_passant && en_passant < 48)) {
        return Err(Error::FailedToParseFEN(fen.to_owned()));
    }
    proof {
        assert(ep_fits(tm, en_passant));
    }
    let ghost m_i = i as int;
    // optional halfmove clock and fullmove number
    let mut halfmove: u64 = 0;
    let mut fullmove: u64 = 1;
    if i < n {
        if bytes[i] != ' ' as u8 {
            return Err(Error::FailedToParseFEN(fen.to_owned()));
        }
        i = i + 1;
        let start = i;
        halfmove = 0;
        while i < n && bytes[i] != ' ' as u8
            invariant
                start <= i <= n,
                halfmove <= 0x1000_0000,
                parse_number(sb, start as int, 0) == parse_number(sb, i as int, halfmove),
            decreases n - i,
        {
            let c = bytes[i];
            if !('0' as u8 <= c && c <= '9' as u8) {
                return Err(Error::FailedToParseFEN(fen.to_owned()));
            }
            if halfmove > 0x10_0000 {
                return Err(Error::FailedToParseFEN(fen.to_owned()));
            }
            halfmove = halfmove * 10 + (c - '0' as u8) as u64;
            i = i + 1;
        }
        if i == start {
            return Err(Error::FailedToParseFEN(fen.to_owned()));
        }
        proof {
            assert(parse_number(sb, start as int, 0) == Some((i as int, halfmove)));
        }
        if i < n {
            i = i + 1;
            let start2 = i;
            fullmove = 0;
            while i < n && bytes[i] != ' ' as u8
                invariant
                    start2 <= i <= n,
                    fullmove <= 0x1000_0000,
                    parse_number(sb, start2 as int, 0) == parse_number(sb, i as int, fullmove),
                decreases n - i,
            {
                let c = bytes[i];
                if !('0' as u8 <= c && c <= '9' as u8) {
                    return Err(Error::FailedToParseFEN(fen.to_owned()));
                }
                if fullmove > 0x10_0000 {
                    return Err(Error::FailedToParseFEN(fen.to_owned()));
                }
                fullmove = fullmove * 10 + (c - '0' as u8) as u64;
                i = i + 1;
            }
            if i == start2 || i < n {
                return Err(Error::FailedToParseFEN(fen.to_owned()));
            }
        }
    }
    proof {
        assert(parse_counters(sb, m_i) == Some((halfmove, fullmove)));
    }
    if fullmove < 1 {
        return Err(Error::FailedToParseFEN(fen.to_owned()));
    }
    // exactly one king per colour
    let wk = bitboards[WHITE][KING];
    let bk = bitboards[BLACK][KING];
    if wk == 0 || wk & (wk - 1) != 0 || bk == 0 || bk & (bk - 1) != 0 {
        return Err(Error::FailedToParseFEN(fen.to_owned()));
    }
    proof {
        lemma_single_bit(wk);
        lemma_single_bit(bk);
        assert(kings_once(pl_bbs));
    }
    let b = Board { board, bitboards, to_move, castle, en_passant, halfmove, fullmove };
    proof {
        assert(b@.wf());
        assert(b@ =~~= BoardModel {
            board: pl_board,
            bitboards: pl_bbs,
            to_move: tm,
            castle,
            en_passant,
            halfmove,
            fullmove,
        });
        assert(fen_parse_spec(sb) == Some(b@));
    }
    Ok(b)
}

/// The decimal digits of `v`, most significant first.
pub open spec fn dec_digits(v: u64) -> Seq<u8>
    decreases v,
{
    if v < 10 {
        seq![('0' as u8 + v) as u8]
    } else {
        dec_digits(v / 10) + seq![('0' as u8 + v % 10) as u8]
    }
}

/// Appends the decimal digits of `v`.
fn push_dec(out: &mut Vec<u8>, v: u64)
    ensures
        final(out)@ == old(out)@ + dec_digits(v),
    decreases v,
{
    if v < 10 {
        out.push('0' as u8 + (v as u8));
        proof {
            assert(out@ =~= old(out)@ + dec_digits(v));
        }
    } else {
        push_dec(out, v / 10);
        out.push('0' as u8 + ((v % 10) as u8));
        proof {
            assert(out@ =~= old(out)@ + dec_digits(v));
        }
    }
}

/// The FEN letter of a piece code.
pub open spec fn letter_of_code(p: u8) -> u8 {
    if p == 0 {
        'K' as u8
    } else if p == 1 {
        'Q' as u8
    } else if p == 2 {
        'R' as u8
    } else if p == 3 {
        'B' as u8
    } else if p == 4 {
        'N' as u8
    } else if p == 5 {
        'P' as u8
    } else if p == 16 {
        'k' as u8
    } else if p == 17 {
        'q' as u8
    } else if p == 18 {
        'r' as u8
    } else if p == 19 {
        'b' as u8
    } else if p == 20 {
        'n' as u8
    } else {
        'p' as u8
    }
}

/// One rank of the placement field, walked from file `x` with `run`
/// empty squares already pending: runs of empties collapse to their
/// count, pieces print their letter.
pub open spec fn rank_fen(board: Seq<u8>, y: int, x: int, run: int) -> Seq<u8>
    decreases 8 - x,
{
    if x >= 8 {
        if run > 0 {
            seq![('0' as u8 + run) as u8]
        } else {
            Seq::empty()
        }
    } else if board[y * 8 + x] == EMPTY as u8 {
        rank_fen(board, y, x + 1, run + 1)
    } else {
        (if run > 0 {
            seq![('0' as u8 + run) as u8]
        } else {
            Seq::empty()
        }) + seq![letter_of_code(board[y * 8 + x])] + rank_fen(board, y, x + 1, 0)
    }
}

/// The castling field: the letters of the held rights, or a dash.
pub open spec fn castle_fen(castle: u8) -> Seq<u8> {
    if castle & 0xF == 0 {
        seq!['-' as u8]
    } else {
        (if castle & 0x8 != 0 {
            seq!['K' as u8]
        } else {
            Seq::empty()
        }) + (if castle & 0x4 != 0 {
            seq!['Q' as u8]
        } else {
            Seq::empty()
        }) + (if castle & 0x2 != 0 {
            seq!['k' as u8]
        } else {
            Seq::empty()
        }) + (if castle & 0x1 != 0 {
            seq!['q' as u8]
        } else {
            Seq::empty()
        })
    }
}

/// The en-passant field: the target square's name, or a dash.
pub open spec fn ep_fen(ep: u8) -> Seq<u8> {
    if ep == NO_EP {
        seq!['-' as u8]
    } else {
        seq![('a' as u8 + ep % 8) as u8, ('1' as u8 + (ep / 8) % 8) as u8]
    }
}

/// The placement field from rank `y` down to rank one, separated by
/// slashes.
pub open spec fn placement_fen(board: Seq<u8>, y: int) -> Seq<u8>
    decreases y,
{
    if y <= 0 {
        rank_fen(board, 0, 0, 0)
    } else {
        rank_fen(board, y, 0, 0) + seq!['/' as u8] + placement_fen(board, y - 1)
    }
}

/// The five fields after the placement, each preceded by a space.
pub open spec fn meta_fen(b: BoardModel) -> Seq<u8> {
    seq![
        ' ' as u8,
        if b.to_move == WHITE {
            'w' as u8
        } else {
            'b' as u8
        },
        ' ' as u8,
    ] + castle_fen(b.castle) + seq![' ' as u8] + ep_fen(b.en_passant) + seq![' ' as u8]
        + dec_digits(b.halfmove) + seq![' ' as u8] + dec_digits(b.fullmove)
}

/// The full FEN text of a board.
pub open spec fn fen_bytes(b: BoardModel) -> Seq<u8> {
    placement_fen(b.board, 7) + meta_fen(b)
}

impl Board {
    /// Prints one rank of the placement field.
    fn fen_rank(&self, y: usize, out: &mut Vec<u8>)
        requires
            y < 8,
        ensures
            final(out)@ == old(out)@ + rank_fen(self@.board, y as int, 0, 0),
    {
        let ghost base = out@;
        let mut x: usize = 0;
        let mut run: u8 = 0;
        while x < 8
            invariant
                x <= 8,
                y < 8,
                run <= x,
                base + rank_fen(self@.board, y as int, 0, 0) == out@ + rank_fen(
                    self@.board,
                    y as int,
                    x as int,
                    run as int,
                ),
            decreases 8 - x,
        {
            let cell = self.board[y * 8 + x];
            if cell == EMPTY as u8 {
                run = run + 1;
            } else {
                if run > 0 {
                    out.push('0' as u8 + run);
                }
                let letter: u8 = if cell == 0 {
                    'K' as u8
                } else if cell == 1 {
                    'Q' as u8
                } else if cell == 2 {
                    'R' as u8
                } else if cell == 3 {
                    'B' as u8
                } else if cell == 4 {
                    'N' as u8
                } else if cell == 5 {
                    'P' as u8
                } else if cell == 16 {
                    'k' as u8
                } else if cell == 17 {
                    'q' as u8
                } else if cell == 18 {
                    'r' as u8
                } else if cell == 19 {
                    'b' as u8
                } else if cell == 20 {
                    'n' as u8
                } else {
                    'p' as u8
                };
                out.push(letter);
                run = 0;
            }
            x = x + 1;
        }
        if run > 0 {
            out.push('0' as u8 + run);
        }
        proof {
            assert(out@ =~= base + rank_fen(self@.board, y as int, 0, 0));
        }
    }

    /// Exports the board as FEN text.
    #[verifier::rlimit(80)]
    pub fn fen(&self) -> (r: Vec<u8>)
        ensures
            r@ == fen_bytes(self@),
    {
        let mut out: Vec<u8> = Vec::new();
        let mut yy: usize = 7;
        proof {
            assert(out@ + placement_fen(self@.board, 7) =~= placement_fen(self@.board, 7));
        }
        loop
            invariant_except_break
                yy <= 7,
                placement_fen(self@.board, 7) == out@ + placement_fen(self@.board, yy as int),
            ensures
                out@ == placement_fen(self@.board, 7),
            decreases yy,
        {
            let ghost before = out@;
            self.fen_rank(yy, &mut out);
            if yy == 0 {
                proof {
                    assert(placement_fen(self@.board, 7) =~= out@);
                }
                break ;
            }
            out.push('/' as u8);
            proof {
                assert(placement_fen(self@.board, yy as int) == rank_fen(
                    self@.board,
                    yy as int,
                    0,
                    0,
                ) + seq!['/' as u8] + placement_fen(self@.board, yy - 1));
                assert(placement_fen(self@.board, 7) =~= out@ + placement_fen(
                    self@.board,
                    yy - 1,
                ));
            }
            yy = yy - 1;
        }
        let ghost placed = out@;
        self.fen_meta(&mut out);
        proof {
            assert(out@ == placed + meta_fen(self@));
            assert(out@ =~= fen_bytes(self@));
        }
        out
    }

    /// Appends the five fields after the placement.
    #[verifier::rlimit(100)]
    #[verifier::spinoff_prover]
    fn fen_meta(&self, out: &mut Vec<u8>)
        ensures
            final(out)@ == old(out)@ + meta_fen(self@),
    {
        let ghost base = out@;
        out.push(' ' as u8);
        if self.to_move == WHITE {
            out.push('w' as u8);
        } else {
            out.push('b' as u8);
        }
        out.push(' ' as u8);
        Self::fen_castle(self.castle, out);
        let ghost c_end = out@;
        proof {
            assert(c_end =~= base + seq![
                ' ' as u8,
                if self@.to_move == WHITE {
                    'w' as u8
                } else {
                    'b' as u8
                },
                ' ' as u8,
            ] + castle_fen(self@.castle));
        }
        out.push(' ' as u8);
        if self.en_passant == NO_EP {
            out.push('-' as u8);
        } else {
            out.push('a' as u8 + self.en_passant % 8);
            out.push('1' as u8 + (self.en_passant / 8) % 8);
        }
        let ghost e_end = out@;
        proof {
            assert(e_end =~= c_end + seq![' ' as u8] + ep_fen(self@.en_passant));
        }
        out.push(' ' as u8);
        push_dec(out, self.halfmove);
        out.push(' ' as u8);
        push_dec(out, self.fullmove);
        proof {
            assert(out@ =~= e_end + seq![' ' as u8] + dec_digits(self@.halfmove) + seq![' ' as u8]
                + dec_digits(self@.fullmove));
            assert(out@ =~= base + meta_fen(self@));
        }
    }

    /// Appends the castling field.
    fn fen_castle(castle: u8, out: &mut Vec<u8>)
        ensures
            final(out)@ == old(out)@ + castle_fen(castle),
    {
        let ghost base = out@;
        if castle & 0xF == 0 {
            out.push('-' as u8);
            proof {
                assert(out@ =~= base + castle_fen(castle));
            }
        } else {
            if castle & 0x8 != 0 {
                out.push('K' as u8);
            }
            if castle & 0x4 != 0 {
                out.push('Q' as u8);
            }
            if castle & 0x2 != 0 {
                out.push('k' as u8);
            }
            if castle & 0x1 != 0 {
                out.push('q' as u8);
            }
            proof {
                assert(out@ =~= base + castle_fen(castle));
            }
        }
    }
}

} // verus!
