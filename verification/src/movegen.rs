//! Move generation: leaper tables, the attacked-squares set,
//! pseudo-legal generation, the legality filter and move application.

use vstd::prelude::*;

use crate::bitboard::{
    bit, lemma_bit_andnot, lemma_bit_or, lemma_bit_single, lemma_bit_zero, lemma_clear_lowest_bit,
    lemma_or_assoc, lemma_or_zero, u64_lowest_bit, Bitboard,
};
use crate::board::{Board, BoardModel};
use crate::magic::{slider_attacks, slider_mask, Magic, BISHOP_SLIDER, ROOK_SLIDER};
use crate::piece::{code_of, BISHOP, BLACK, EMPTY, KING, KNIGHT, PAWN, QUEEN, ROOK, WHITE};

verus! {

pub const FILE_A: Bitboard = 0x101010101010101;

pub const FILE_B: Bitboard = 0x202020202020202;

pub const FILE_G: Bitboard = 0x4040404040404040;

pub const FILE_H: Bitboard = 0x8080808080808080;

pub const RANK_1: Bitboard = 0xFF;

pub const RANK_2: Bitboard = 0xFF00;

pub const RANK_7: Bitboard = 0xFF000000000000;

pub const RANK_8: Bitboard = 0xFF00000000000000;

/// The eight single-step king targets of the occupancy `bb`,
/// edge-masked so nothing wraps across the board border.
pub open spec fn king_moves_of(bb: u64) -> u64 {
    (bb & !FILE_A) >> 1u64 | (bb & !FILE_H) << 1u64 | (bb & !RANK_8) << 8u64 | (bb & !RANK_1)
        >> 8u64 | (bb & !(RANK_8 | FILE_H)) << 9u64 | (bb & !(RANK_1 | FILE_H)) >> 7u64 | (bb & !(
    RANK_1 | FILE_A)) >> 9u64 | (bb & !(RANK_8 | FILE_A)) << 7u64
}

pub open spec fn king_moves_spec(pos: int) -> u64 {
    king_moves_of(1u64 << pos as u64)
}

/// Computes the king move mask of a square.
pub fn king_moves(pos: usize) -> (r: Bitboard)
    requires
        pos < 64,
    ensures
        r == king_moves_spec(pos as int),
{
    let bb = 1u64 << (pos as u64);
    (bb & !FILE_A) >> 1u64 | (bb & !FILE_H) << 1u64 | (bb & !RANK_8) << 8u64 | (bb & !RANK_1)
        >> 8u64 | (bb & !(RANK_8 | FILE_H)) << 9u64 | (bb & !(RANK_1 | FILE_H)) >> 7u64 | (bb & !(
    RANK_1 | FILE_A)) >> 9u64 | (bb & !(RANK_8 | FILE_A)) << 7u64
}

/// The eight knight targets of the occupancy `bb`, edge-masked.
pub open spec fn knight_moves_of(bb: u64) -> u64 {
    (bb & !(RANK_7 | RANK_8 | FILE_H)) << 17u64 | (bb & !(RANK_8 | FILE_G | FILE_H)) << 10u64 | (bb
        & !(RANK_1 | FILE_G | FILE_H)) >> 6u64 | (bb & !(RANK_1 | RANK_2 | FILE_H)) >> 15u64 | (bb
        & !(RANK_1 | RANK_2 | FILE_A)) >> 17u64 | (bb & !(RANK_1 | FILE_A | FILE_B)) >> 10u64 | (bb
        & !(RANK_8 | FILE_A | FILE_B)) << 6u64 | (bb & !(RANK_7 | RANK_8 | FILE_A)) << 15u64
}

pub open spec fn knight_moves_spec(pos: int) -> u64 {
    knight_moves_of(1u64 << pos as u64)
}

/// Computes the knight move mask of a square.
pub fn knight_moves(pos: usize) -> (r: Bitboard)
    requires
        pos < 64,
    ensures
        r == knight_moves_spec(pos as int),
{
    let bb = 1u64 << (pos as u64);
    (bb & !(RANK_7 | RANK_8 | FILE_H)) << 17u64 | (bb & !(RANK_8 | FILE_G | FILE_H)) << 10u64 | (bb
        & !(RANK_1 | FILE_G | FILE_H)) >> 6u64 | (bb & !(RANK_1 | RANK_2 | FILE_H)) >> 15u64 | (bb
        & !(RANK_1 | RANK_2 | FILE_A)) >> 17u64 | (bb & !(RANK_1 | FILE_A | FILE_B)) >> 10u64 | (bb
        & !(RANK_8 | FILE_A | FILE_B)) << 6u64 | (bb & !(RANK_7 | RANK_8 | FILE_A)) << 15u64
}

/// The two diagonal capture targets of a pawn of colour `c`; zero
/// outside the pawn ranks.
pub open spec fn pawn_captures_spec(c: int, pos: int) -> u64 {
    if 8 <= pos < 56 {
        let bb = 1u64 << pos as u64;
        if c == WHITE {
            (bb & !FILE_A) << 7u64 | (bb & !FILE_H) << 9u64
        } else {
            (bb & !FILE_H) >> 7u64 | (bb & !FILE_A) >> 9u64
        }
    } else {
        0u64
    }
}

/// Computes the pawn capture mask of a colour and square.
pub fn pawn_captures(c: usize, pos: usize) -> (r: Bitboard)
    requires
        c < 2,
        pos < 64,
    ensures
        r == pawn_captures_spec(c as int, pos as int),
{
    if pos < 8 || pos >= 56 {
        return 0;
    }
    let bb = 1u64 << (pos as u64);
    if c == WHITE {
        (bb & !FILE_A) << 7u64 | (bb & !FILE_H) << 9u64
    } else {
        (bb & !FILE_H) >> 7u64 | (bb & !FILE_A) >> 9u64
    }
}

/// Magic-table rook attacks: the reference rays under the occupancy
/// restricted to the square's blocker mask.
pub open spec fn magic_rook(pos: int, occ: u64) -> u64 {
    slider_attacks(ROOK_SLIDER as int, pos, occ & slider_mask(ROOK_SLIDER as int, pos))
}

/// Magic-table bishop attacks: the reference rays under the occupancy
/// restricted to the square's blocker mask.
pub open spec fn magic_bishop(pos: int, occ: u64) -> u64 {
    slider_attacks(BISHOP_SLIDER as int, pos, occ & slider_mask(BISHOP_SLIDER as int, pos))
}

/// The magic-table attack sets equal the reference rays under the full
/// occupancy: masking changes nothing, so the attacked-squares set and
/// the slider destinations read the true occupancy of all pieces.
pub proof fn lemma_magic_is_reference(pos: int, occ: u64)
    requires
        0 <= pos < 64,
    ensures
        magic_rook(pos, occ) == crate::magic::rook_attacks_spec(pos, occ),
        magic_bishop(pos, occ) == crate::magic::bishop_attacks_spec(pos, occ),
{
    crate::magic::lemma_masked_slider_exact(ROOK_SLIDER as int, pos, occ);
    crate::magic::lemma_masked_slider_exact(BISHOP_SLIDER as int, pos, occ);
}

/// Folds `f` over the members of `bb` at positions `s` and above.
pub open spec fn acc_attacks(bb: u64, f: spec_fn(int) -> u64, s: int) -> u64
    decreases 64 - s,
{
    if s < 0 || s >= 64 {
        0u64
    } else {
        (if bit(bb, s) {
            f(s)
        } else {
            0u64
        }) | acc_attacks(bb, f, s + 1)
    }
}

proof fn lemma_acc_zero(f: spec_fn(int) -> u64, s: int)
    ensures
        acc_attacks(0u64, f, s) == 0u64,
    decreases 64 - s,
{
    lemma_bit_zero();
    if 0 <= s < 64 {
        lemma_acc_zero(f, s + 1);
        lemma_or_zero(0u64);
    }
}

proof fn lemma_acc_congruent(b1: u64, b2: u64, f: spec_fn(int) -> u64, s: int)
    requires
        forall|t: int| t >= s ==> bit(b1, t) == bit(b2, t),
    ensures
        acc_attacks(b1, f, s) == acc_attacks(b2, f, s),
    decreases 64 - s,
{
    if 0 <= s < 64 {
        lemma_acc_congruent(b1, b2, f, s + 1);
    }
}

proof fn lemma_acc_at(bb: u64, f: spec_fn(int) -> u64, j: int, s: int)
    requires
        0 <= s <= j < 64,
        bit(bb, j),
        forall|t: int| s <= t < j ==> !bit(bb, t),
    ensures
        acc_attacks(bb, f, s) == f(j) | acc_attacks(bb & !(1u64 << j as u64), f, s),
    decreases 64 - s,
{
    let bb2 = bb & !(1u64 << j as u64);
    lemma_bit_andnot(bb, 1u64 << j as u64);
    lemma_bit_single(j as u64);
    if s == j {
        assert(!bit(bb2, s));
        lemma_acc_congruent(bb, bb2, f, s + 1);
        lemma_or_zero(acc_attacks(bb2, f, s + 1));
    } else {
        lemma_acc_at(bb, f, j, s + 1);
        assert(!bit(bb, s) && !bit(bb2, s));
        lemma_or_zero(acc_attacks(bb, f, s + 1));
        lemma_or_zero(acc_attacks(bb2, f, s + 1));
    }
}

/// Folding over a non-empty set is folding its lowest member first.
proof fn lemma_acc_lowest(bb: u64, f: spec_fn(int) -> u64)
    requires
        bb != 0,
    ensures
        u64_lowest_bit(bb) < 64,
        acc_attacks(bb, f, 0) == f(u64_lowest_bit(bb) as int) | acc_attacks(
            bb & !(1u64 << (u64_lowest_bit(bb) as u64)),
            f,
            0,
        ),
{
    lemma_clear_lowest_bit(bb);
    lemma_acc_at(bb, f, u64_lowest_bit(bb) as int, 0);
}

/// The union of all squares attacked by colour `c`: king and knight
/// steps, magic slider rays under the full occupancy, and the pawn
/// capture diagonals.
pub open spec fn attacked_spec(b: BoardModel, c: int) -> u64 {
    let all = b.occ(0) | b.occ(1);
    acc_attacks(b.bitboards[c][KING as int], kind_attack_fn(KING as int, c, all), 0) | acc_attacks(
        b.bitboards[c][QUEEN as int],
        kind_attack_fn(QUEEN as int, c, all),
        0,
    ) | acc_attacks(b.bitboards[c][ROOK as int], kind_attack_fn(ROOK as int, c, all), 0)
        | acc_attacks(b.bitboards[c][BISHOP as int], kind_attack_fn(BISHOP as int, c, all), 0)
        | acc_attacks(b.bitboards[c][KNIGHT as int], kind_attack_fn(KNIGHT as int, c, all), 0)
        | acc_attacks(b.bitboards[c][PAWN as int], kind_attack_fn(PAWN as int, c, all), 0)
}

/// The two per-colour occupancy sets of a bitboard array.
pub fn get_colour_bitboards(bitboards: &[[Bitboard; 6]; 2]) -> (r: [Bitboard; 2])
    ensures
        r[0] == bitboards[0][0] | bitboards[0][1] | bitboards[0][2] | bitboards[0][3]
            | bitboards[0][4] | bitboards[0][5],
        r[1] == bitboards[1][0] | bitboards[1][1] | bitboards[1][2] | bitboards[1][3]
            | bitboards[1][4] | bitboards[1][5],
{
    let w = &bitboards[0];
    let b = &bitboards[1];
    [
        w[0] | w[1] | w[2] | w[3] | w[4] | w[5],
        b[0] | b[1] | b[2] | b[3] | b[4] | b[5],
    ]
}

impl Board {
    /// Folds the attack sets of one piece kind of colour `c`.
    fn fold_kind(bb0: Bitboard, kind: usize, c: usize, all: Bitboard, rm: &Magic, bm: &Magic) -> (r:
        Bitboard)
        requires
            kind < 6,
            c < 2,
            rm.wf(ROOK_SLIDER as int),
            bm.wf(BISHOP_SLIDER as int),
        ensures
            r == acc_attacks(bb0, kind_attack_fn(kind as int, c as int, all), 0),
    {
        let ghost f = kind_attack_fn(kind as int, c as int, all);
        let mut bb = bb0;
        let mut squares: u64 = 0;
        proof {
            lemma_or_zero(acc_attacks(bb0, f, 0));
        }
        while bb != 0
            invariant
                kind < 6,
                c < 2,
                rm.wf(ROOK_SLIDER as int),
                bm.wf(BISHOP_SLIDER as int),
                f == kind_attack_fn(kind as int, c as int, all),
                squares | acc_attacks(bb, f, 0) == acc_attacks(bb0, f, 0),
            decreases bb,
        {
            proof {
                lemma_acc_lowest(bb, f);
                lemma_clear_lowest_bit(bb);
            }
            let pos = bb.trailing_zeros() as usize;
            let attack: u64 = if kind == KING {
                king_moves(pos)
            } else if kind == QUEEN {
                rm.attacks(pos, all) | bm.attacks(pos, all)
            } else if kind == ROOK {
                rm.attacks(pos, all)
            } else if kind == BISHOP {
                bm.attacks(pos, all)
            } else if kind == KNIGHT {
                knight_moves(pos)
            } else {
                pawn_captures(c, pos)
            };
            proof {
                assert(attack == f(pos as int));
                lemma_or_assoc(squares, attack, acc_attacks(
                    bb & !(1u64 << (u64_lowest_bit(bb) as u64)),
                    f,
                    0,
                ));
            }
            squares = squares | attack;
            bb = bb & !(1u64 << (pos as u64));
        }
        proof {
            lemma_acc_zero(f, 0);
            lemma_or_zero(squares);
        }
        squares
    }

    /// The set of squares colour `colour` attacks, consulting the magic
    /// tables for the sliders.
    pub fn attacked_squares(&self, colour: usize, rm: &Magic, bm: &Magic) -> (r: Bitboard)
        requires
            colour < 2,
            rm.wf(ROOK_SLIDER as int),
            bm.wf(BISHOP_SLIDER as int),
        ensures
            r == attacked_spec(self@, colour as int),
    {
        let cb = get_colour_bitboards(&self.bitboards);
        let all = cb[0] | cb[1];
        proof {
            assert(self@.occ(0) == cb[0] && self@.occ(1) == cb[1]);
        }
        let bbs = &self.bitboards[colour];
        Self::fold_kind(bbs[KING], KING, colour, all, rm, bm) | Self::fold_kind(
            bbs[QUEEN],
            QUEEN,
            colour,
            all,
            rm,
            bm,
        ) | Self::fold_kind(bbs[ROOK], ROOK, colour, all, rm, bm) | Self::fold_kind(
            bbs[BISHOP],
            BISHOP,
            colour,
            all,
            rm,
            bm,
        ) | Self::fold_kind(bbs[KNIGHT], KNIGHT, colour, all, rm, bm) | Self::fold_kind(
            bbs[PAWN],
            PAWN,
            colour,
            all,
            rm,
            bm,
        )
    }
}

/// A move packed into sixteen bits: origin in the low six, destination
/// in the next six, promotion piece kind in the top four.
#[derive(Clone, Copy, PartialEq, Eq, Structural)]
pub struct Move(pub u16);

pub open spec fn move_pos(m: Move) -> int {
    (m.0 & 0x3F) as int
}

pub open spec fn move_dest(m: Move) -> int {
    ((m.0 >> 6u16) & 0x3F) as int
}

pub open spec fn move_promo(m: Move) -> int {
    (m.0 >> 12u16) as int
}

/// The packed form of origin, destination and promotion.
pub open spec fn mk_move(pos: int, dest: int, promo: int) -> Move {
    Move((pos + dest * 64 + promo * 4096) as u16)
}

impl Move {
    /// Packs a move.
    pub fn new(pos: usize, dest: usize, promotion: crate::piece::Piece) -> (r: Move)
        requires
            pos < 64,
            dest < 64,
            promotion < 16,
        ensures
            r == mk_move(pos as int, dest as int, promotion as int),
            move_pos(r) == pos,
            move_dest(r) == dest,
            move_promo(r) == promotion,
    {
        let r = Move(pos as u16 | (dest as u16) << 6u16 | (promotion as u16) << 12u16);
        proof {
            let p = pos as u16;
            let d = dest as u16;
            let q = promotion as u16;
            assert(p < 64 && d < 64 && q < 16 ==> {
                let packed = p | d << 6u16 | q << 12u16;
                packed == p + d * 64 + q * 4096 && (packed & 0x3F) == p && ((packed >> 6u16) & 0x3F)
                    == d && (packed >> 12u16) == q
            }) by (bit_vector);
        }
        r
    }

    /// The origin square.
    pub fn pos(&self) -> (r: usize)
        ensures
            r == move_pos(*self),
            r < 64,
    {
        proof {
            let m = self.0;
            assert((m & 0x3F) < 64) by (bit_vector);
        }
        (self.0 & 0x3F) as usize
    }

    /// The destination square.
    pub fn dest(&self) -> (r: usize)
        ensures
            r == move_dest(*self),
            r < 64,
    {
        proof {
            let m = self.0;
            assert(((m >> 6u16) & 0x3F) < 64) by (bit_vector);
        }
        ((self.0 >> 6u16) & 0x3F) as usize
    }

    /// The promotion piece kind, or the empty sentinel.
    pub fn promotion(&self) -> (r: crate::piece::Piece)
        ensures
            r == move_promo(*self),
            r < 16,
    {
        proof {
            let m = self.0;
            assert((m >> 12u16) < 16) by (bit_vector);
        }
        (self.0 >> 12u16) as usize
    }

    /// The algebraic name: origin file and rank, then destination file
    /// and rank.
    pub fn name(&self) -> (r: [u8; 4])
        ensures
            r[0] == 'a' as u8 + move_pos(*self) % 8,
            r[1] == '1' as u8 + move_pos(*self) / 8,
            r[2] == 'a' as u8 + move_dest(*self) % 8,
            r[3] == '1' as u8 + move_dest(*self) / 8,
    {
        let pos = self.pos();
        let dest = self.dest();
        [
            'a' as u8 + (pos % 8) as u8,
            '1' as u8 + (pos / 8) as u8,
            'a' as u8 + (dest % 8) as u8,
            '1' as u8 + (dest / 8) as u8,
        ]
    }
}

pub open spec fn clear_bit(bb: u64, s: int) -> u64 {
    bb & !(1u64 << s as u64)
}

pub open spec fn set_bit(bb: u64, s: int) -> u64 {
    bb | (1u64 << s as u64)
}

/// Lifting a piece off its origin and putting it (or its promotion)
/// down on the destination: the mailbox and bitboard updates, with
/// every opposing bitboard cleared on the destination.
pub open spec fn move_piece_spec(
    board: Seq<u8>,
    bbs: Seq<Seq<u64>>,
    pos: int,
    dest: int,
    promo: int,
) -> (Seq<u8>, Seq<Seq<u64>>) {
    let cell = board[pos];
    let piece = (cell & 0x0F) as int;
    let colour = (cell >> 4u8) as int;
    let opp = 1 - colour;
    let target = if promo == EMPTY {
        piece
    } else {
        promo
    };
    let newcode = if promo == EMPTY {
        cell
    } else {
        (promo + colour * 16) as u8
    };
    let bbs1 = bbs.update(colour, bbs[colour].update(piece, clear_bit(bbs[colour][piece], pos)));
    let bbs2 = bbs1.update(
        colour,
        bbs1[colour].update(target, set_bit(bbs1[colour][target], dest)),
    );
    let bbs3 = bbs2.update(opp, Seq::new(6, |k: int| clear_bit(bbs2[opp][k], dest)));
    let board1 = board.update(pos, EMPTY as u8).update(dest, newcode);
    (board1, bbs3)
}

/// Moves the piece standing on `pos` to `dest`, replacing it by its
/// promotion unless `promotion` is the empty sentinel, and clears the
/// destination from every opposing bitboard.
pub fn move_piece(
    pos: usize,
    dest: usize,
    board: &mut [u8; 64],
    bitboards: &mut [[Bitboard; 6]; 2],
    promotion: crate::piece::Piece,
)
    requires
        pos < 64,
        dest < 64,
        crate::piece::valid_cell(old(board)[pos as int]),
        old(board)[pos as int] != EMPTY as u8,
        promotion == EMPTY || promotion < 6,
    ensures
        ({
            let r = move_piece_spec(
                old(board)@,
                crate::board::bbs_view(*old(bitboards)),
                pos as int,
                dest as int,
                promotion as int,
            );
            final(board)@ == r.0 && crate::board::bbs_view(*final(bitboards)) == r.1
        }),
{
    let cell = board[pos];
    let piece = (cell & 0x0F) as usize;
    let colour = (cell >> 4u8) as usize;
    let opp = 1 - colour;
    let ghost r = move_piece_spec(
        board@,
        crate::board::bbs_view(*bitboards),
        pos as int,
        dest as int,
        promotion as int,
    );
    let mut row = bitboards[colour];
    row[piece] = row[piece] & !(1u64 << (pos as u64));
    bitboards[colour] = row;
    board[pos] = EMPTY as u8;
    if promotion == EMPTY {
        let mut row1 = bitboards[colour];
        row1[piece] = row1[piece] | (1u64 << (dest as u64));
        bitboards[colour] = row1;
        board[dest] = cell;
    } else {
        let mut row1 = bitboards[colour];
        row1[promotion] = row1[promotion] | (1u64 << (dest as u64));
        bitboards[colour] = row1;
        board[dest] = (promotion + colour * 16) as u8;
    }
    let mut row2 = bitboards[opp];
    row2[0] = row2[0] & !(1u64 << (dest as u64));
    row2[1] = row2[1] & !(1u64 << (dest as u64));
    row2[2] = row2[2] & !(1u64 << (dest as u64));
    row2[3] = row2[3] & !(1u64 << (dest as u64));
    row2[4] = row2[4] & !(1u64 << (dest as u64));
    row2[5] = row2[5] & !(1u64 << (dest as u64));
    bitboards[opp] = row2;
    proof {
        assert(board@ =~= r.0);
        assert(crate::board::bbs_view(*bitboards) =~~= r.1);
    }
}

/// The castling rights that survive the move: a king move clears both
/// of its side's rights, a rook moving from its home square clears that
/// square's right.
pub open spec fn castle_after(b: BoardModel, pos: int, kind: int) -> u8 {
    if b.to_move == WHITE {
        if kind == KING {
            b.castle & 0xF3u8
        } else if kind == ROOK && pos == 0 {
            b.castle & 0xFBu8
        } else if kind == ROOK && pos == 7 {
            b.castle & 0xF7u8
        } else {
            b.castle
        }
    } else {
        if kind == KING {
            b.castle & 0xFCu8
        } else if kind == ROOK && pos == 56 {
            b.castle & 0xFEu8
        } else if kind == ROOK && pos == 63 {
            b.castle & 0xFDu8
        } else {
            b.castle
        }
    }
}

/// The guard under which a move can act: the origin cell decodes to a
/// piece, and the promotion field is a piece kind or the empty
/// sentinel. A move failing it leaves the board unchanged.
pub open spec fn move_sane(b: BoardModel, m: Move) -> bool {
    let cell = b.board[move_pos(m)];
    let promo = move_promo(m);
    &&& (cell & 0x0F) < 6
    &&& (cell >> 4u8) < 2
    &&& (cell & 0xE0u8) == 0
    &&& (promo == EMPTY || promo < 6)
}

/// The board after a move: move the piece, take an en-passant victim,
/// bring the castling rook across, update the castling rights, set or
/// clear the en-passant target, advance the clocks and flip the side
/// to move. A move whose origin holds no piece of either colour, or
/// whose promotion field is no piece kind, changes nothing; the rook
/// leg of a castling move is skipped when its origin square would not
/// decode, and the clocks saturate instead of wrapping.
pub open spec fn apply_spec(b: BoardModel, m: Move) -> BoardModel {
    let pos = move_pos(m);
    let dest = move_dest(m);
    let promo = move_promo(m);
    let cell = b.board[pos];
    let kind = (cell & 0x0F) as int;
    if !move_sane(b, m) {
        b
    } else {
        let r1 = move_piece_spec(b.board, b.bitboards, pos, dest, promo);
        let board1 = r1.0;
        let bbs1 = r1.1;
        let r2 = if kind == PAWN && dest == b.en_passant {
            if b.to_move == WHITE && dest >= 8 {
                (
                    board1.update(dest - 8, EMPTY as u8),
                    bbs1.update(
                        BLACK as int,
                        bbs1[BLACK as int].update(
                            PAWN as int,
                            clear_bit(bbs1[BLACK as int][PAWN as int], dest - 8),
                        ),
                    ),
                )
            } else if b.to_move != WHITE && dest < 56 {
                (
                    board1.update(dest + 8, EMPTY as u8),
                    bbs1.update(
                        WHITE as int,
                        bbs1[WHITE as int].update(
                            PAWN as int,
                            clear_bit(bbs1[WHITE as int][PAWN as int], dest + 8),
                        ),
                    ),
                )
            } else {
                (board1, bbs1)
            }
        } else {
            (board1, bbs1)
        };
        let r3 = if kind == KING && dest - pos == 2 {
            if b.to_move == WHITE {
                rook_leg(r2.0, r2.1, 7, 5)
            } else {
                rook_leg(r2.0, r2.1, 63, 61)
            }
        } else if kind == KING && pos - dest == 2 {
            if b.to_move == WHITE {
                rook_leg(r2.0, r2.1, 0, 3)
            } else {
                rook_leg(r2.0, r2.1, 56, 59)
            }
        } else {
            r2
        };
        let en_passant = if kind == PAWN && (dest - pos == 16 || pos - dest == 16) {
            if b.to_move == WHITE {
                (pos + 8) as u8
            } else if pos >= 8 {
                (pos - 8) as u8
            } else {
                crate::board::NO_EP
            }
        } else {
            crate::board::NO_EP
        };
        let halfmove = if b.board[dest] != EMPTY as u8 || kind == PAWN {
            0u64
        } else if b.halfmove == u64::MAX {
            u64::MAX
        } else {
            (b.halfmove + 1) as u64
        };
        let fullmove = if b.to_move == BLACK {
            if b.fullmove == u64::MAX {
                u64::MAX
            } else {
                (b.fullmove + 1) as u64
            }
        } else {
            b.fullmove
        };
        BoardModel {
            board: r3.0,
            bitboards: r3.1,
            to_move: if b.to_move == WHITE {
                BLACK as int
            } else {
                WHITE as int
            },
            castle: castle_after(b, pos, kind),
            en_passant,
            halfmove,
            fullmove,
        }
    }
}

/// The castling rook's own move, skipped when its origin square would
/// not decode to a piece.
pub open spec fn rook_leg(board: Seq<u8>, bbs: Seq<Seq<u64>>, from: int, to: int) -> (
    Seq<u8>,
    Seq<Seq<u64>>,
) {
    let cell = board[from];
    if (cell & 0x0F) < 6 && (cell >> 4u8) < 2 && (cell & 0xE0u8) == 0 {
        move_piece_spec(board, bbs, from, to, EMPTY as int)
    } else {
        (board, bbs)
    }
}

impl Board {
    /// Applies one leg of a castling rook move if its origin decodes.
    fn rook_leg_exec(board: &mut [u8; 64], bitboards: &mut [[Bitboard; 6]; 2], from: usize, to: usize)
        requires
            from < 64,
            to < 64,
        ensures
            ({
                let r = rook_leg(old(board)@, crate::board::bbs_view(*old(bitboards)), from as int, to as int);
                final(board)@ == r.0 && crate::board::bbs_view(*final(bitboards)) == r.1
            }),
    {
        let cell = board[from];
        proof {
            crate::piece::lemma_code_fields(6u8, 0u8);
        }
        if (cell & 0x0F) < 6 && (cell >> 4u8) < 2 && (cell & 0xE0u8) == 0 {
            move_piece(from, to, board, bitboards, EMPTY);
        }
    }

    /// Produces the board after the move; the input is unchanged.
    pub fn apply_move(&self, m: Move) -> (r: Board)
        ensures
            r@ == apply_spec(self@, m),
    {
        let pos = m.pos();
        let dest = m.dest();
        let promotion = m.promotion();
        let cell = self.board[pos];
        let piece = (cell & 0x0F) as usize;
        if !((cell & 0x0F) < 6 && (cell >> 4u8) < 2 && (cell & 0xE0u8) == 0 && (promotion == EMPTY
            || promotion < 6)) {
            return *self;
        }
        proof {
            crate::piece::lemma_code_fields(6u8, 0u8);
        }
        let diff = dest as i32 - pos as i32;
        let mut board = self.board;
        let mut bitboards = self.bitboards;
        move_piece(pos, dest, &mut board, &mut bitboards, promotion);
        // en-passant: the captured pawn stands on the rank the target shadows
        if piece == PAWN && self.en_passant != crate::board::NO_EP && dest == self.en_passant
            as usize {
            if self.to_move == WHITE && dest >= 8 {
                let mut row = bitboards[BLACK];
                row[PAWN] = row[PAWN] & !(1u64 << ((dest - 8) as u64));
                bitboards[BLACK] = row;
                board[dest - 8] = EMPTY as u8;
            } else if self.to_move != WHITE && dest < 56 {
                let mut row = bitboards[WHITE];
                row[PAWN] = row[PAWN] & !(1u64 << ((dest + 8) as u64));
                bitboards[WHITE] = row;
                board[dest + 8] = EMPTY as u8;
            }
        }
        // castling: bring the rook across the king
        if piece == KING && diff == 2 {
            if self.to_move == WHITE {
                Self::rook_leg_exec(&mut board, &mut bitboards, 7, 5);
            } else {
                Self::rook_leg_exec(&mut board, &mut bitboards, 63, 61);
            }
        } else if piece == KING && diff == -2 {
            if self.to_move == WHITE {
                Self::rook_leg_exec(&mut board, &mut bitboards, 0, 3);
            } else {
                Self::rook_leg_exec(&mut board, &mut bitboards, 56, 59);
            }
        }
        let mut castle = self.castle;
        if self.to_move == WHITE {
            if piece == KING {
                castle = castle & 0xF3u8;
            } else if piece == ROOK && pos == 0 {
                castle = castle & 0xFBu8;
            } else if piece == ROOK && pos == 7 {
                castle = castle & 0xF7u8;
            }
        } else {
            if piece == KING {
                castle = castle & 0xFCu8;
            } else if piece == ROOK && pos == 56 {
                castle = castle & 0xFEu8;
            } else if piece == ROOK && pos == 63 {
                castle = castle & 0xFDu8;
            }
        }
        let en_passant: u8 = if piece == PAWN && (diff == 16 || diff == -16) {
            if self.to_move == WHITE {
                (pos + 8) as u8
            } else if pos >= 8 {
                (pos - 8) as u8
            } else {
                crate::board::NO_EP
            }
        } else {
            crate::board::NO_EP
        };
        let halfmove: u64 = if self.board[dest] != EMPTY as u8 || piece == PAWN {
            0
        } else if self.halfmove == u64::MAX {
            u64::MAX
        } else {
            self.halfmove + 1
        };
        let fullmove: u64 = if self.to_move == BLACK {
            if self.fullmove == u64::MAX {
                u64::MAX
            } else {
                self.fullmove + 1
            }
        } else {
            self.fullmove
        };
        let r = Board {
            board,
            bitboards,
            to_move: if self.to_move == WHITE {
                BLACK
            } else {
                WHITE
            },
            castle,
            en_passant,
            halfmove,
            fullmove,
        };
        proof {
            assert(r@.board =~= apply_spec(self@, m).board);
            assert(r@.bitboards =~~= apply_spec(self@, m).bitboards);
            assert(r@ =~~= apply_spec(self@, m));
        }
        r
    }
}

/// Folds per-square move lists over the members of `bb`, lowest square
/// first.
pub open spec fn acc_moves(bb: u64, g: spec_fn(int) -> Seq<Move>, s: int) -> Seq<Move>
    decreases 64 - s,
{
    if s < 0 || s >= 64 {
        Seq::empty()
    } else {
        (if bit(bb, s) {
            g(s)
        } else {
            Seq::empty()
        }) + acc_moves(bb, g, s + 1)
    }
}

proof fn lemma_macc_zero(g: spec_fn(int) -> Seq<Move>, s: int)
    ensures
        acc_moves(0u64, g, s) == Seq::<Move>::empty(),
    decreases 64 - s,
{
    lemma_bit_zero();
    if 0 <= s < 64 {
        lemma_macc_zero(g, s + 1);
        assert(acc_moves(0u64, g, s) =~= Seq::<Move>::empty());
    }
}

proof fn lemma_macc_congruent(b1: u64, b2: u64, g: spec_fn(int) -> Seq<Move>, s: int)
    requires
        forall|t: int| t >= s ==> bit(b1, t) == bit(b2, t),
    ensures
        acc_moves(b1, g, s) == acc_moves(b2, g, s),
    decreases 64 - s,
{
    if 0 <= s < 64 {
        lemma_macc_congruent(b1, b2, g, s + 1);
    }
}

proof fn lemma_macc_at(bb: u64, g: spec_fn(int) -> Seq<Move>, j: int, s: int)
    requires
        0 <= s <= j < 64,
        bit(bb, j),
        forall|t: int| s <= t < j ==> !bit(bb, t),
    ensures
        acc_moves(bb, g, s) == g(j) + acc_moves(bb & !(1u64 << j as u64), g, s),
    decreases 64 - s,
{
    let bb2 = bb & !(1u64 << j as u64);
    lemma_bit_andnot(bb, 1u64 << j as u64);
    lemma_bit_single(j as u64);
    if s == j {
        assert(!bit(bb2, s));
        lemma_macc_congruent(bb, bb2, g, s + 1);
        assert(acc_moves(bb2, g, s) =~= acc_moves(bb2, g, s + 1));
    } else {
        lemma_macc_at(bb, g, j, s + 1);
        assert(!bit(bb, s) && !bit(bb2, s));
        assert(acc_moves(bb, g, s) =~= acc_moves(bb, g, s + 1));
        assert(acc_moves(bb2, g, s) =~= acc_moves(bb2, g, s + 1));
    }
}

/// Folding a non-empty set starts with its lowest member.
proof fn lemma_macc_lowest(bb: u64, g: spec_fn(int) -> Seq<Move>)
    requires
        bb != 0,
    ensures
        u64_lowest_bit(bb) < 64,
        acc_moves(bb, g, 0) == g(u64_lowest_bit(bb) as int) + acc_moves(
            bb & !(1u64 << (u64_lowest_bit(bb) as u64)),
            g,
            0,
        ),
{
    lemma_clear_lowest_bit(bb);
    lemma_macc_at(bb, g, u64_lowest_bit(bb) as int, 0);
}

/// Every move folded out of `bb` satisfies what every move of `g` on
/// every member of `bb` satisfies.
proof fn lemma_macc_all(bb: u64, g: spec_fn(int) -> Seq<Move>, s: int, p: spec_fn(Move) -> bool)
    requires
        forall|d: int, i: int|
            0 <= d < 64 && bit(bb, d) && 0 <= i < g(d).len() ==> p(#[trigger] g(d)[i]),
    ensures
        forall|i: int|
            0 <= i < acc_moves(bb, g, s).len() ==> p(#[trigger] acc_moves(bb, g, s)[i]),
    decreases 64 - s,
{
    if 0 <= s < 64 {
        lemma_macc_all(bb, g, s + 1, p);
        let whole = acc_moves(bb, g, s);
        let head: Seq<Move> = if bit(bb, s) {
            g(s)
        } else {
            Seq::empty()
        };
        let tail = acc_moves(bb, g, s + 1);
        assert forall|i: int| 0 <= i < whole.len() implies p(#[trigger] whole[i]) by {
            if i < head.len() {
                assert(bit(bb, s) && whole[i] == g(s)[i]);
            } else {
                assert(whole[i] == tail[i - head.len()]);
            }
        }
    }
}

/// One plain move per destination square.
pub open spec fn enc_one(pos: int) -> spec_fn(int) -> Seq<Move> {
    |d: int| seq![mk_move(pos, d, EMPTY as int)]
}

/// Pawn encoding: four promotions on the back ranks, one plain move
/// elsewhere.
pub open spec fn enc_pawn(pos: int) -> spec_fn(int) -> Seq<Move> {
    |d: int|
        if d < 8 || d >= 56 {
            seq![
                mk_move(pos, d, QUEEN as int),
                mk_move(pos, d, ROOK as int),
                mk_move(pos, d, BISHOP as int),
                mk_move(pos, d, KNIGHT as int),
            ]
        } else {
            seq![mk_move(pos, d, EMPTY as int)]
        }
}

/// The fields of a packed move.
pub proof fn lemma_mk_fields(pos: int, d: int, q: int)
    requires
        0 <= pos < 64,
        0 <= d < 64,
        0 <= q < 16,
    ensures
        move_pos(mk_move(pos, d, q)) == pos,
        move_dest(mk_move(pos, d, q)) == d,
        move_promo(mk_move(pos, d, q)) == q,
{
    let p16 = pos as u16;
    let d16 = d as u16;
    let q16 = q as u16;
    let packed = (pos + d * 64 + q * 4096) as u16;
    assert(p16 < 64 && d16 < 64 && q16 < 16 && packed == p16 + d16 * 64 + q16 * 4096 ==> (packed
        & 0x3F) == p16 && ((packed >> 6u16) & 0x3F) == d16 && (packed >> 12u16) == q16)
        by (bit_vector);
}

/// The packed fields always decode to squares and a promotion nibble.
pub proof fn lemma_move_bounds(m: Move)
    ensures
        0 <= move_pos(m) < 64,
        0 <= move_dest(m) < 64,
        0 <= move_promo(m) < 16,
{
    let w = m.0;
    assert((w & 0x3F) < 64 && ((w >> 6u16) & 0x3F) < 64 && (w >> 12u16) < 16) by (bit_vector);
}

/// Appends one move per member of `dest`, lowest destination first.
pub fn encode_moves(moves: &mut Vec<Move>, pos: usize, dest: Bitboard)
    requires
        pos < 64,
    ensures
        final(moves)@ == old(moves)@ + acc_moves(dest, enc_one(pos as int), 0),
{
    let ghost g = enc_one(pos as int);
    let ghost base = moves@;
    let mut bb = dest;
    while bb != 0
        invariant
            pos < 64,
            g == enc_one(pos as int),
            base + acc_moves(dest, g, 0) == moves@ + acc_moves(bb, g, 0),
        decreases bb,
    {
        proof {
            lemma_macc_lowest(bb, g);
            lemma_clear_lowest_bit(bb);
        }
        let i = bb.trailing_zeros() as usize;
        let ghost before = moves@;
        moves.push(Move::new(pos, i, EMPTY));
        proof {
            assert(moves@ =~= before + g(i as int));
            assert(before + (g(i as int) + acc_moves(
                bb & !(1u64 << (u64_lowest_bit(bb) as u64)),
                g,
                0,
            )) =~= (before + g(i as int)) + acc_moves(
                bb & !(1u64 << (u64_lowest_bit(bb) as u64)),
                g,
                0,
            ));
        }
        bb = bb & !(1u64 << (i as u64));
    }
    proof {
        lemma_macc_zero(g, 0);
        assert(moves@ + Seq::<Move>::empty() =~= moves@);
        assert(base + acc_moves(dest, g, 0) =~= moves@);
    }
}

/// Appends pawn moves per member of `dest`: four promotions on the
/// back ranks, one plain move elsewhere.
pub fn encode_pawn_moves(moves: &mut Vec<Move>, pos: usize, dest: Bitboard)
    requires
        pos < 64,
    ensures
        final(moves)@ == old(moves)@ + acc_moves(dest, enc_pawn(pos as int), 0),
{
    let ghost g = enc_pawn(pos as int);
    let ghost base = moves@;
    let mut bb = dest;
    while bb != 0
        invariant
            pos < 64,
            g == enc_pawn(pos as int),
            base + acc_moves(dest, g, 0) == moves@ + acc_moves(bb, g, 0),
        decreases bb,
    {
        proof {
            lemma_macc_lowest(bb, g);
            lemma_clear_lowest_bit(bb);
        }
        let i = bb.trailing_zeros() as usize;
        let ghost before = moves@;
        if i < 8 || i >= 56 {
            moves.push(Move::new(pos, i, QUEEN));
            moves.push(Move::new(pos, i, ROOK));
            moves.push(Move::new(pos, i, BISHOP));
            moves.push(Move::new(pos, i, KNIGHT));
        } else {
            moves.push(Move::new(pos, i, EMPTY));
        }
        proof {
            assert(moves@ =~= before + g(i as int));
            assert(before + (g(i as int) + acc_moves(
                bb & !(1u64 << (u64_lowest_bit(bb) as u64)),
                g,
                0,
            )) =~= (before + g(i as int)) + acc_moves(
                bb & !(1u64 << (u64_lowest_bit(bb) as u64)),
                g,
                0,
            ));
        }
        bb = bb & !(1u64 << (i as u64));
    }
    proof {
        lemma_macc_zero(g, 0);
        assert(moves@ + Seq::<Move>::empty() =~= moves@);
        assert(base + acc_moves(dest, g, 0) =~= moves@);
    }
}

/// The castling destinations open to the side to move: each right the
/// side still holds whose between squares are empty, whose king path is
/// safe and whose rook is home contributes the king's landing square.
pub open spec fn castle_dests_spec(b: BoardModel) -> u64 {
    let all = b.occ(b.to_move) | b.occ(1 - b.to_move);
    let attacked = attacked_spec(b, 1 - b.to_move);
    if b.to_move == WHITE {
        (if b.castle & 0x8u8 != 0 && all & 0x60 == 0 && attacked & 0x70 == 0 && b.board[7] == (ROOK
            + WHITE * 16) as u8 {
            1u64 << 6u64
        } else {
            0u64
        }) | (if b.castle & 0x4u8 != 0 && all & 0xE == 0 && attacked & 0x1C == 0 && b.board[0] == (
        ROOK + WHITE * 16) as u8 {
            1u64 << 2u64
        } else {
            0u64
        })
    } else {
        (if b.castle & 0x2u8 != 0 && all & 0x6000000000000000 == 0 && attacked
            & 0x7000000000000000 == 0 && b.board[63] == (ROOK + BLACK * 16) as u8 {
            1u64 << 62u64
        } else {
            0u64
        }) | (if b.castle & 0x1u8 != 0 && all & 0xE00000000000000 == 0 && attacked
            & 0x1C00000000000000 == 0 && b.board[56] == (ROOK + BLACK * 16) as u8 {
            1u64 << 58u64
        } else {
            0u64
        })
    }
}

/// The pawn destinations: diagonal captures into enemy pieces or the
/// en-passant target, the single push, and the double push off the
/// pawn's home rank, pushes blocked by any piece.
pub open spec fn pawn_dests_spec(b: BoardModel, pos: int) -> u64 {
    let player = b.occ(b.to_move);
    let opponent = b.occ(1 - b.to_move);
    let all = player | opponent;
    let ep: u64 = if b.en_passant < 64 {
        1u64 << (b.en_passant as u64)
    } else {
        0u64
    };
    let bb = 1u64 << pos as u64;
    if b.to_move == WHITE {
        (pawn_captures_spec(WHITE as int, pos) & (opponent | ep)) | ((bb << 8u64) & !all) | ((((bb
            & RANK_2) << 8u64) & !all) << 8u64) & !all
    } else {
        (pawn_captures_spec(BLACK as int, pos) & (opponent | ep)) | ((bb >> 8u64) & !all) | ((((bb
            & RANK_7) >> 8u64) & !all) >> 8u64) & !all
    }
}

/// The pseudo-legal destination squares of a piece of `kind` on `pos`.
pub open spec fn dest_set(b: BoardModel, kind: int, pos: int) -> u64 {
    let player = b.occ(b.to_move);
    let opponent = b.occ(1 - b.to_move);
    let all = player | opponent;
    if kind == KING {
        (king_moves_spec(pos) & !player) | castle_dests_spec(b)
    } else if kind == QUEEN {
        (magic_rook(pos, all) | magic_bishop(pos, all)) & !player
    } else if kind == ROOK {
        magic_rook(pos, all) & !player
    } else if kind == BISHOP {
        magic_bishop(pos, all) & !player
    } else if kind == KNIGHT {
        knight_moves_spec(pos) & !player
    } else {
        pawn_dests_spec(b, pos)
    }
}

/// The move list one piece of `kind` contributes: its destination set,
/// encoded with promotions for a pawn and plainly otherwise.
pub open spec fn kind_moves_fn(b: BoardModel, kind: int) -> spec_fn(int) -> Seq<Move> {
    |pos: int|
        if kind == PAWN {
            acc_moves(pawn_dests_spec(b, pos), enc_pawn(pos), 0)
        } else {
            acc_moves(dest_set(b, kind, pos), enc_one(pos), 0)
        }
}

/// The pseudo-legal move list: kings, queens, rooks, bishops, knights,
/// then pawns, each kind's pieces from the lowest square up.
pub open spec fn pseudo_move_seq(b: BoardModel) -> Seq<Move> {
    acc_moves(b.bitboards[b.to_move][KING as int], kind_moves_fn(b, KING as int), 0) + acc_moves(
        b.bitboards[b.to_move][QUEEN as int],
        kind_moves_fn(b, QUEEN as int),
        0,
    ) + acc_moves(b.bitboards[b.to_move][ROOK as int], kind_moves_fn(b, ROOK as int), 0)
        + acc_moves(b.bitboards[b.to_move][BISHOP as int], kind_moves_fn(b, BISHOP as int), 0)
        + acc_moves(b.bitboards[b.to_move][KNIGHT as int], kind_moves_fn(b, KNIGHT as int), 0)
        + acc_moves(b.bitboards[b.to_move][PAWN as int], kind_moves_fn(b, PAWN as int), 0)
}

impl Board {
    /// Emits the moves of every piece of one kind of the side to move,
    /// lowest square first.
    fn gen_kind(&self, kind: usize, rm: &Magic, bm: &Magic, moves: &mut Vec<Move>)
        requires
            kind < 6,
            self.to_move < 2,
            rm.wf(ROOK_SLIDER as int),
            bm.wf(BISHOP_SLIDER as int),
        ensures
            final(moves)@ == old(moves)@ + acc_moves(
                self@.bitboards[self@.to_move][kind as int],
                kind_moves_fn(self@, kind as int),
                0,
            ),
    {
        let ghost g = kind_moves_fn(self@, kind as int);
        let ghost bb0 = self@.bitboards[self@.to_move][kind as int];
        let ghost base = moves@;
        let cb = get_colour_bitboards(&self.bitboards);
        let player = cb[self.to_move];
        let opponent = cb[1 - self.to_move];
        let all = player | opponent;
        let mut bb = self.bitboards[self.to_move][kind];
        proof {
            assert(self@.occ(0) == cb[0] && self@.occ(1) == cb[1]);
            assert(moves@ + acc_moves(bb0, g, 0) =~= base + acc_moves(bb0, g, 0));
        }
        while bb != 0
            invariant
                kind < 6,
                self.to_move < 2,
                rm.wf(ROOK_SLIDER as int),
                bm.wf(BISHOP_SLIDER as int),
                g == kind_moves_fn(self@, kind as int),
                bb0 == self@.bitboards[self@.to_move][kind as int],
                player == self@.occ(self@.to_move),
                opponent == self@.occ(1 - self@.to_move),
                all == player | opponent,
                base + acc_moves(bb0, g, 0) == moves@ + acc_moves(bb, g, 0),
            decreases bb,
        {
            proof {
                lemma_macc_lowest(bb, g);
                lemma_clear_lowest_bit(bb);
            }
            let pos = bb.trailing_zeros() as usize;
            if kind == PAWN {
                let ep: u64 = if self.en_passant < 64 {
                    1u64 << (self.en_passant as u64)
                } else {
                    0u64
                };
                let pbb = 1u64 << (pos as u64);
                let dest: u64 = if self.to_move == WHITE {
                    (pawn_captures(WHITE, pos) & (opponent | ep)) | ((pbb << 8u64) & !all) | ((((
                    pbb & RANK_2) << 8u64) & !all) << 8u64) & !all
                } else {
                    (pawn_captures(BLACK, pos) & (opponent | ep)) | ((pbb >> 8u64) & !all) | ((((
                    pbb & RANK_7) >> 8u64) & !all) >> 8u64) & !all
                };
                proof {
                    assert(dest == pawn_dests_spec(self@, pos as int));
                }
                let ghost before = moves@;
                encode_pawn_moves(moves, pos, dest);
                proof {
                    assert(g(pos as int) == acc_moves(dest, enc_pawn(pos as int), 0));
                    assert(before + (g(pos as int) + acc_moves(
                        bb & !(1u64 << (u64_lowest_bit(bb) as u64)),
                        g,
                        0,
                    )) =~= (before + g(pos as int)) + acc_moves(
                        bb & !(1u64 << (u64_lowest_bit(bb) as u64)),
                        g,
                        0,
                    ));
                }
            } else {
                let dest: u64 = if kind == KING {
                    let attacked = self.attacked_squares(1 - self.to_move, rm, bm);
                    let c1: u64;
                    let c2: u64;
                    if self.to_move == WHITE {
                        c1 = if self.castle & 0x8u8 != 0 && all & 0x60 == 0 && attacked & 0x70
                            == 0 && self.board[7] == (ROOK + WHITE * 16) as u8 {
                            1u64 << 6u64
                        } else {
                            0u64
                        };
                        c2 = if self.castle & 0x4u8 != 0 && all & 0xE == 0 && attacked & 0x1C == 0
                            && self.board[0] == (ROOK + WHITE * 16) as u8 {
                            1u64 << 2u64
                        } else {
                            0u64
                        };
                    } else {
                        c1 = if self.castle & 0x2u8 != 0 && all & 0x6000000000000000 == 0
                            && attacked & 0x7000000000000000 == 0 && self.board[63] == (ROOK + BLACK
                            * 16) as u8 {
                            1u64 << 62u64
                        } else {
                            0u64
                        };
                        c2 = if self.castle & 0x1u8 != 0 && all & 0xE00000000000000 == 0
                            && attacked & 0x1C00000000000000 == 0 && self.board[56] == (ROOK + BLACK
                            * 16) as u8 {
                            1u64 << 58u64
                        } else {
                            0u64
                        };
                    }
                    (king_moves(pos) & !player) | (c1 | c2)
                } else if kind == QUEEN {
                    (rm.attacks(pos, all) | bm.attacks(pos, all)) & !player
                } else if kind == ROOK {
                    rm.attacks(pos, all) & !player
                } else if kind == BISHOP {
                    bm.attacks(pos, all) & !player
                } else {
                    knight_moves(pos) & !player
                };
                proof {
                    assert(dest == dest_set(self@, kind as int, pos as int));
                }
                let ghost before = moves@;
                encode_moves(moves, pos, dest);
                proof {
                    assert(g(pos as int) == acc_moves(dest, enc_one(pos as int), 0));
                    assert(before + (g(pos as int) + acc_moves(
                        bb & !(1u64 << (u64_lowest_bit(bb) as u64)),
                        g,
                        0,
                    )) =~= (before + g(pos as int)) + acc_moves(
                        bb & !(1u64 << (u64_lowest_bit(bb) as u64)),
                        g,
                        0,
                    ));
                }
            }
            bb = bb & !(1u64 << (pos as u64));
        }
        proof {
            lemma_macc_zero(g, 0);
            assert(moves@ + Seq::<Move>::empty() =~= moves@);
        }
    }

    /// Every move a piece of the side to move could make by its own
    /// movement rules, castling and en passant included, before the
    /// own-king-safety filter.
    pub fn generate_pseudolegal_moves(&self, rm: &Magic, bm: &Magic) -> (r: Vec<Move>)
        requires
            self.to_move < 2,
            rm.wf(ROOK_SLIDER as int),
            bm.wf(BISHOP_SLIDER as int),
        ensures
            r@ == pseudo_move_seq(self@),
    {
        let mut moves: Vec<Move> = Vec::new();
        self.gen_kind(KING, rm, bm, &mut moves);
        self.gen_kind(QUEEN, rm, bm, &mut moves);
        self.gen_kind(ROOK, rm, bm, &mut moves);
        self.gen_kind(BISHOP, rm, bm, &mut moves);
        self.gen_kind(KNIGHT, rm, bm, &mut moves);
        self.gen_kind(PAWN, rm, bm, &mut moves);
        proof {
            assert(moves@ =~= pseudo_move_seq(self@));
        }
        moves
    }
}

/// The side that made the move is not in check afterwards.
pub open spec fn king_safe(b: BoardModel, m: Move) -> bool {
    let after = apply_spec(b, m);
    after.bitboards[b.to_move][KING as int] & attacked_spec(after, 1 - b.to_move) == 0
}

pub open spec fn legal_pred(b: BoardModel) -> spec_fn(Move) -> bool {
    |m: Move| king_safe(b, m)
}

/// The legal moves: the pseudo-legal moves whose application leaves
/// the mover's king unattacked.
pub open spec fn legal_move_seq(b: BoardModel) -> Seq<Move> {
    pseudo_move_seq(b).filter(legal_pred(b))
}

impl Board {
    /// The legal moves of the side to move; every returned move leaves
    /// the mover's king out of check.
    #[verifier::rlimit(80)]
    pub fn generate_moves(&self, rm: &Magic, bm: &Magic) -> (r: Vec<Move>)
        requires
            self.to_move < 2,
            rm.wf(ROOK_SLIDER as int),
            bm.wf(BISHOP_SLIDER as int),
        ensures
            r@ == legal_move_seq(self@),
            forall|i: int| 0 <= i < r@.len() ==> king_safe(self@, #[trigger] r@[i]),
    {
        let ghost pred = legal_pred(self@);
        let pseudo = self.generate_pseudolegal_moves(rm, bm);
        let mut result: Vec<Move> = Vec::new();
        let mut i: usize = 0;
        proof {
            reveal(Seq::filter);
            assert(pseudo@.subrange(0, 0int) =~= Seq::<Move>::empty());
        }
        while i < pseudo.len()
            invariant
                i <= pseudo@.len(),
                self.to_move < 2,
                rm.wf(ROOK_SLIDER as int),
                bm.wf(BISHOP_SLIDER as int),
                pred == legal_pred(self@),
                result@ == pseudo@.subrange(0, i as int).filter(pred),
            decreases pseudo@.len() - i,
        {
            let m = pseudo[i];
            let b2 = self.apply_move(m);
            let attacked = b2.attacked_squares(1 - self.to_move, rm, bm);
            proof {
                reveal(Seq::filter);
                assert(pseudo@.subrange(0, i + 1int).drop_last() =~= pseudo@.subrange(
                    0,
                    i as int,
                ));
                assert(pseudo@.subrange(0, i + 1int).last() == m);
            }
            if b2.bitboards[self.to_move][KING] & attacked == 0 {
                result.push(m);
            }
            i += 1;
        }
        proof {
            assert(pseudo@.subrange(0, pseudo@.len() as int) =~= pseudo@);
        }
        result
    }
}

/// The attack set contributed by one piece of `kind` and colour `c`
/// standing on a square, under total occupancy `all`.
pub open spec fn kind_attack_fn(kind: int, c: int, all: u64) -> spec_fn(int) -> u64 {
    if kind == KING {
        |s: int| king_moves_spec(s)
    } else if kind == QUEEN {
        |s: int| magic_rook(s, all) | magic_bishop(s, all)
    } else if kind == ROOK {
        |s: int| magic_rook(s, all)
    } else if kind == BISHOP {
        |s: int| magic_bishop(s, all)
    } else if kind == KNIGHT {
        |s: int| knight_moves_spec(s)
    } else {
        |s: int| pawn_captures_spec(c, s)
    }
}

/// Mailbox/bitboard coherence and cell validity survive lifting a
/// piece from `pos` to `dest`: the origin empties, the destination
/// takes the moved or promoted piece, and nothing else changes.
pub proof fn lemma_move_piece_coherent(
    board: Seq<u8>,
    bbs: Seq<Seq<u64>>,
    pos: int,
    dest: int,
    promo: int,
)
    requires
        board.len() == 64,
        bbs.len() == 2,
        bbs[0].len() == 6,
        bbs[1].len() == 6,
        crate::board::pair_coherent(board, bbs),
        crate::board::cells_ok(board),
        0 <= pos < 64,
        0 <= dest < 64,
        pos != dest,
        (board[pos] & 0x0F) < 6,
        (board[pos] >> 4u8) < 2,
        (board[pos] & 0xE0u8) == 0,
        promo == EMPTY || (0 <= promo < 6),
        board[dest] == EMPTY as u8 || ((board[dest] >> 4u8) as int) != ((board[pos] >> 4u8) as int),
    ensures
        ({
            let r = move_piece_spec(board, bbs, pos, dest, promo);
            &&& r.0.len() == 64
            &&& r.1.len() == 2
            &&& r.1[0].len() == 6
            &&& r.1[1].len() == 6
            &&& crate::board::pair_coherent(r.0, r.1)
            &&& crate::board::cells_ok(r.0)
        }),
{
    let cell = board[pos];
    let piece = (cell & 0x0F) as int;
    let colour = (cell >> 4u8) as int;
    let opp = 1 - colour;
    let target: int = if promo == EMPTY {
        piece
    } else {
        promo
    };
    let newcode: u8 = if promo == EMPTY {
        cell
    } else {
        (promo + colour * 16) as u8
    };
    let r = move_piece_spec(board, bbs, pos, dest, promo);
    crate::piece::lemma_cell_decompose(cell);
    crate::piece::lemma_code_fields(cell & 0x0F, cell >> 4u8);
    assert(cell == code_of(colour, piece));
    if promo != EMPTY {
        crate::piece::lemma_code_fields(promo as u8, colour as u8);
    }
    crate::piece::lemma_code_fields(6u8, 0u8);
    assert(newcode == code_of(colour, target));
    lemma_bit_single(pos as u64);
    lemma_bit_single(dest as u64);
    assert forall|s: int, c2: int, k2: int|
        0 <= s < 64 && 0 <= c2 < 2 && 0 <= k2 < 6 implies (#[trigger] bit(r.1[c2][k2], s) <==> r.0[s]
        == code_of(c2, k2)) by {
        lemma_bit_andnot(bbs[c2][k2], 1u64 << pos as u64);
        lemma_bit_andnot(bbs[c2][k2], 1u64 << dest as u64);
        lemma_bit_or(clear_bit(bbs[c2][k2], pos), 1u64 << dest as u64);
        lemma_bit_or(bbs[c2][k2], 1u64 << dest as u64);
        crate::piece::lemma_code_fields(k2 as u8, c2 as u8);
        assert(bit(bbs[c2][k2], s) <==> board[s] == code_of(c2, k2));
        assert(bit(bbs[c2][k2], pos) <==> board[pos] == code_of(c2, k2));
        assert(bit(bbs[c2][k2], dest) <==> board[dest] == code_of(c2, k2));
        if c2 == opp {
            assert(r.1[c2][k2] == clear_bit(bbs[c2][k2], dest));
        } else if k2 == target && k2 == piece {
            assert(r.1[c2][k2] == set_bit(clear_bit(bbs[c2][k2], pos), dest));
        } else if k2 == target {
            assert(r.1[c2][k2] == set_bit(bbs[c2][k2], dest));
        } else if k2 == piece {
            assert(r.1[c2][k2] == clear_bit(bbs[c2][k2], pos));
        } else {
            assert(r.1[c2][k2] == bbs[c2][k2]);
        }
        if s == pos {
            assert(r.0[s] == EMPTY as u8);
        } else if s == dest {
            assert(r.0[s] == newcode);
        } else {
            assert(r.0[s] == board[s]);
        }
    }
    assert forall|s: int| 0 <= s < 64 implies crate::piece::valid_cell(#[trigger] r.0[s]) by {
        if s != pos && s != dest {
            assert(r.0[s] == board[s]);
        }
    }
}

/// Applying a move that neither castles nor captures en passant keeps
/// the mailbox and the bitboards coherent and every cell valid, as
/// long as the origin holds a piece of the side to move and the
/// destination holds none of the mover's own pieces — which is how
/// every generated move behaves.
pub proof fn lemma_apply_preserves_coherence(b: BoardModel, m: Move)
    requires
        b.sized(),
        b.coherent(),
        b.cells_valid(),
        0 <= b.to_move < 2,
        move_sane(b, m),
        move_pos(m) != move_dest(m),
        ((b.board[move_pos(m)] >> 4u8) as int) == b.to_move,
        b.board[move_dest(m)] == EMPTY as u8 || ((b.board[move_dest(m)] >> 4u8) as int)
            != b.to_move,
        ((b.board[move_pos(m)] & 0x0F) as int) == KING ==> move_dest(m) - move_pos(m) != 2
            && move_pos(m) - move_dest(m) != 2,
        ((b.board[move_pos(m)] & 0x0F) as int) == PAWN ==> move_dest(m) != b.en_passant,
    ensures
        apply_spec(b, m).sized(),
        apply_spec(b, m).coherent(),
        apply_spec(b, m).cells_valid(),
{
    lemma_move_bounds(m);
    lemma_move_piece_coherent(b.board, b.bitboards, move_pos(m), move_dest(m), move_promo(m));
}

/// Such a move also keeps exactly one king per colour when it does not
/// capture the opposing king and does not promote a king away.
pub proof fn lemma_apply_preserves_kings(b: BoardModel, m: Move)
    requires
        b.sized(),
        b.coherent(),
        b.cells_valid(),
        b.kings_ok(),
        0 <= b.to_move < 2,
        move_sane(b, m),
        move_pos(m) != move_dest(m),
        ((b.board[move_pos(m)] >> 4u8) as int) == b.to_move,
        b.board[move_dest(m)] == EMPTY as u8 || ((b.board[move_dest(m)] >> 4u8) as int)
            != b.to_move,
        ((b.board[move_pos(m)] & 0x0F) as int) == KING ==> move_dest(m) - move_pos(m) != 2
            && move_pos(m) - move_dest(m) != 2 && move_promo(m) == EMPTY,
        ((b.board[move_pos(m)] & 0x0F) as int) == PAWN ==> move_dest(m) != b.en_passant,
        move_promo(m) != KING,
        b.board[move_dest(m)] != code_of(1 - b.to_move, KING as int),
    ensures
        apply_spec(b, m).kings_ok(),
{
    let pos = move_pos(m);
    let dest = move_dest(m);
    let promo = move_promo(m);
    let cell = b.board[pos];
    let piece = (cell & 0x0F) as int;
    let colour = (cell >> 4u8) as int;
    let opp = 1 - colour;
    crate::piece::lemma_cell_decompose(cell);
    crate::piece::lemma_code_fields(cell & 0x0F, cell >> 4u8);
    lemma_move_bounds(m);
    let after = apply_spec(b, m);
    let own0 = b.bitboards[colour][KING as int];
    let opp0 = b.bitboards[opp][KING as int];
    assert(after.bitboards == move_piece_spec(b.board, b.bitboards, pos, dest, promo).1);
    lemma_bit_single(pos as u64);
    lemma_bit_single(dest as u64);
    lemma_bit_andnot(own0, 1u64 << pos as u64);
    lemma_bit_andnot(opp0, 1u64 << dest as u64);
    // the opposing king is not on the destination, so clearing it there
    // changes nothing
    assert forall|t: int| 0 <= t < 64 implies bit(clear_bit(opp0, dest), t) == bit(opp0, t) by {
        if t == dest {
            assert(!bit(opp0, dest));
        }
    }
    crate::bitboard::lemma_bit_ext(clear_bit(opp0, dest), opp0);
    assert(after.bitboards[opp][KING as int] == opp0);
    if piece == KING {
        // the king board is exactly its one square, which moves
        let j = choose|j: u64| j < 64 && own0 == 1u64 << j;
        lemma_bit_single(j);
        assert(bit(own0, pos));
        assert(j == pos);
        assert forall|t: int| !bit(clear_bit(own0, pos), t) by {}
        crate::bitboard::lemma_no_bits(clear_bit(own0, pos));
        crate::bitboard::lemma_or_zero(1u64 << dest as u64);
        assert(after.bitboards[colour][KING as int] == set_bit(clear_bit(own0, pos), dest));
        assert(set_bit(0u64, dest) == 1u64 << dest as u64);
        assert(crate::bitboard::one_bit(after.bitboards[colour][KING as int]));
    } else {
        assert(after.bitboards[colour][KING as int] == own0);
    }
}

/// The origin-side premises of the preservation lemmas: the move
/// decodes, and its origin holds a piece of the side to move.
pub open spec fn sane_own(b: BoardModel, m: Move) -> bool {
    &&& move_sane(b, m)
    &&& ((b.board[move_pos(m)] >> 4u8) as int) == b.to_move
    &&& b.board[move_pos(m)] != EMPTY as u8
}

proof fn lemma_kind_moves_sane(b: BoardModel, kind: int)
    requires
        b.sized(),
        b.coherent(),
        0 <= b.to_move < 2,
        0 <= kind < 6,
    ensures
        forall|i: int|
            0 <= i < acc_moves(b.bitboards[b.to_move][kind], kind_moves_fn(b, kind), 0).len()
                ==> sane_own(
                b,
                #[trigger] acc_moves(b.bitboards[b.to_move][kind], kind_moves_fn(b, kind), 0)[i],
            ),
{
    let bbk = b.bitboards[b.to_move][kind];
    let g = kind_moves_fn(b, kind);
    let p = |m: Move| sane_own(b, m);
    assert forall|d: int, i: int|
        0 <= d < 64 && bit(bbk, d) && 0 <= i < g(d).len() implies p(#[trigger] g(d)[i]) by {
        assert(b.board[d] == code_of(b.to_move, kind));
        crate::piece::lemma_code_fields(kind as u8, b.to_move as u8);
        let dset = if kind == PAWN {
            pawn_dests_spec(b, d)
        } else {
            dest_set(b, kind, d)
        };
        let enc = if kind == PAWN {
            enc_pawn(d)
        } else {
            enc_one(d)
        };
        assert(g(d) == acc_moves(dset, enc, 0));
        assert forall|dd: int, ii: int|
            0 <= dd < 64 && bit(dset, dd) && 0 <= ii < enc(dd).len() implies p(
            #[trigger] enc(dd)[ii],
        ) by {
            if kind == PAWN && (dd < 8 || dd >= 56) {
                lemma_mk_fields(d, dd, QUEEN as int);
                lemma_mk_fields(d, dd, ROOK as int);
                lemma_mk_fields(d, dd, BISHOP as int);
                lemma_mk_fields(d, dd, KNIGHT as int);
            } else {
                lemma_mk_fields(d, dd, EMPTY as int);
            }
        }
        lemma_macc_all(dset, enc, 0, p);
    }
    lemma_macc_all(bbk, g, 0, p);
}

/// Every pseudo-legal move decodes and moves a piece of the side to
/// move: the origin-side premises of the preservation lemmas hold of
/// the whole generated list. The destination-side premises — no own
/// piece on the target, the castling and en-passant shapes — are not
/// derived here.
pub proof fn lemma_pseudo_moves_sane(b: BoardModel)
    requires
        b.sized(),
        b.coherent(),
        0 <= b.to_move < 2,
    ensures
        forall|i: int|
            0 <= i < pseudo_move_seq(b).len() ==> sane_own(b, #[trigger] pseudo_move_seq(b)[i]),
{
    lemma_kind_moves_sane(b, KING as int);
    lemma_kind_moves_sane(b, QUEEN as int);
    lemma_kind_moves_sane(b, ROOK as int);
    lemma_kind_moves_sane(b, BISHOP as int);
    lemma_kind_moves_sane(b, KNIGHT as int);
    lemma_kind_moves_sane(b, PAWN as int);
}

/// Every element a filter keeps comes from the sequence it filtered.
proof fn lemma_filter_elem_of(s: Seq<Move>, pred: spec_fn(Move) -> bool, i: int)
    requires
        0 <= i < s.filter(pred).len(),
    ensures
        exists|j: int| 0 <= j < s.len() && #[trigger] s[j] == s.filter(pred)[i],
    decreases s.len(),
{
    reveal(Seq::filter);
    if s.len() > 0 {
        let sub = s.drop_last().filter(pred);
        if pred(s.last()) && i == sub.len() {
            assert(s[s.len() - 1] == s.filter(pred)[i]);
        } else {
            lemma_filter_elem_of(s.drop_last(), pred, i);
            let j = choose|j: int|
                0 <= j < s.drop_last().len() && #[trigger] s.drop_last()[j] == s.drop_last().filter(
                    pred,
                )[i];
            assert(s[j] == s.filter(pred)[i]);
        }
    }
}

/// The same premises hold of every legal move: the filter only
/// removes entries.
pub proof fn lemma_legal_moves_sane(b: BoardModel)
    requires
        b.sized(),
        b.coherent(),
        0 <= b.to_move < 2,
    ensures
        forall|i: int|
            0 <= i < legal_move_seq(b).len() ==> sane_own(b, #[trigger] legal_move_seq(b)[i]),
{
    lemma_pseudo_moves_sane(b);
    assert forall|i: int|
        0 <= i < legal_move_seq(b).len() implies sane_own(b, #[trigger] legal_move_seq(b)[i]) by {
        lemma_filter_elem_of(pseudo_move_seq(b), legal_pred(b), i);
        let j = choose|j: int|
            0 <= j < pseudo_move_seq(b).len() && #[trigger] pseudo_move_seq(b)[j]
                == legal_move_seq(b)[i];
        assert(sane_own(b, pseudo_move_seq(b)[j]));
    }
}

} // verus!
