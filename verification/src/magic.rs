//! Sliding-piece attacks through magic bitboards.
//!
//! For each square a multiplier and a shift perfect-hash every blocker
//! subset of the square's mask into a table of precomputed attack sets.
//! The tables are searched for with random candidates at start-up and
//! verified against the reference ray walk as they are built.

use vstd::prelude::*;

use crate::bitboard::{
    bit, lemma_bit_andnot, lemma_bit_ext, lemma_bit_single, lemma_no_bits, Bitboard,
};

verus! {

/// Selects the rook tables and masks.
pub const ROOK_SLIDER: usize = 0;

/// Selects the bishop tables and masks.
pub const BISHOP_SLIDER: usize = 1;

/// The squares a ray from `(x, y)` in direction `(dx, dy)` attacks:
/// every square walked over until (and including) the first one that
/// intersects the blockers, staying on the board.
pub open spec fn ray_spec(x: int, y: int, dx: int, dy: int, blockers: u64, fuel: nat) -> u64
    decreases fuel,
{
    if fuel == 0 {
        0u64
    } else {
        let nx = x + dx;
        let ny = y + dy;
        if !(0 <= nx < 8 && 0 <= ny < 8) {
            0u64
        } else {
            let s = 1u64 << ((nx + ny * 8) as u64);
            if blockers & s != 0 {
                s
            } else {
                s | ray_spec(nx, ny, dx, dy, blockers, (fuel - 1) as nat)
            }
        }
    }
}

/// Reference rook attacks: the four orthogonal rays.
pub open spec fn rook_attacks_spec(pos: int, blockers: u64) -> u64 {
    let x = pos % 8;
    let y = pos / 8;
    ray_spec(x, y, 1, 0, blockers, 7) | ray_spec(x, y, -1, 0, blockers, 7) | ray_spec(
        x,
        y,
        0,
        1,
        blockers,
        7,
    ) | ray_spec(x, y, 0, -1, blockers, 7)
}

/// Reference bishop attacks: the four diagonal rays.
pub open spec fn bishop_attacks_spec(pos: int, blockers: u64) -> u64 {
    let x = pos % 8;
    let y = pos / 8;
    ray_spec(x, y, 1, 1, blockers, 7) | ray_spec(x, y, 1, -1, blockers, 7) | ray_spec(
        x,
        y,
        -1,
        1,
        blockers,
        7,
    ) | ray_spec(x, y, -1, -1, blockers, 7)
}

fn walk_ray(x: i32, y: i32, dx: i32, dy: i32, blockers: u64, fuel: u32) -> (r: u64)
    requires
        0 <= x < 8,
        0 <= y < 8,
        -1 <= dx <= 1,
        -1 <= dy <= 1,
    ensures
        r == ray_spec(x as int, y as int, dx as int, dy as int, blockers, fuel as nat),
    decreases fuel,
{
    if fuel == 0 {
        return 0;
    }
    let nx = x + dx;
    let ny = y + dy;
    if nx < 0 || nx > 7 || ny < 0 || ny > 7 {
        return 0;
    }
    let s: u64 = 1u64 << ((nx + ny * 8) as u64);
    if blockers & s != 0 {
        s
    } else {
        s | walk_ray(nx, ny, dx, dy, blockers, fuel - 1)
    }
}

/// Walks the four orthogonal rays outward from `pos`, stopping at the
/// first blocker of each, which is included as an attacked piece.
pub fn generate_rook_attacks(pos: usize, blockers: Bitboard) -> (r: Bitboard)
    requires
        pos < 64,
    ensures
        r == rook_attacks_spec(pos as int, blockers),
{
    let x = (pos % 8) as i32;
    let y = (pos / 8) as i32;
    walk_ray(x, y, 1, 0, blockers, 7) | walk_ray(x, y, -1, 0, blockers, 7) | walk_ray(
        x,
        y,
        0,
        1,
        blockers,
        7,
    ) | walk_ray(x, y, 0, -1, blockers, 7)
}

/// Walks the four diagonal rays outward from `pos`, stopping at the
/// first blocker of each, which is included as an attacked piece.
pub fn generate_bishop_attacks(pos: usize, blockers: Bitboard) -> (r: Bitboard)
    requires
        pos < 64,
    ensures
        r == bishop_attacks_spec(pos as int, blockers),
{
    let x = (pos % 8) as i32;
    let y = (pos / 8) as i32;
    walk_ray(x, y, 1, 1, blockers, 7) | walk_ray(x, y, 1, -1, blockers, 7) | walk_ray(
        x,
        y,
        -1,
        1,
        blockers,
        7,
    ) | walk_ray(x, y, -1, -1, blockers, 7)
}

/// The rook blocker mask built square by square: file `i` of the rank
/// and rank `i` of the file, for `i` strictly inside the board edges,
/// skipping the square itself.
pub open spec fn rook_mask_rec(x: int, y: int, i: int) -> u64
    decreases 7 - i,
{
    if i < 1 || i >= 7 {
        0u64
    } else {
        (if i != x {
            1u64 << ((i + y * 8) as u64)
        } else {
            0u64
        }) | (if i != y {
            1u64 << ((x + i * 8) as u64)
        } else {
            0u64
        }) | rook_mask_rec(x, y, i + 1)
    }
}

/// The rook blocker mask: same rank or file, edges and origin excluded.
pub open spec fn rook_mask_spec(pos: int) -> u64 {
    rook_mask_rec(pos % 8, pos / 8, 1)
}

fn rook_mask_walk(x: i32, y: i32, i: i32) -> (r: u64)
    requires
        0 <= x < 8,
        0 <= y < 8,
        1 <= i,
    ensures
        r == rook_mask_rec(x as int, y as int, i as int),
    decreases 7 - i,
{
    if i >= 7 {
        return 0;
    }
    let horiz: u64 = if i != x {
        1u64 << ((i + y * 8) as u64)
    } else {
        0
    };
    let vert: u64 = if i != y {
        1u64 << ((x + i * 8) as u64)
    } else {
        0
    };
    horiz | vert | rook_mask_walk(x, y, i + 1)
}

/// Computes the rook blocker mask of a square.
pub fn rook_mask(pos: usize) -> (r: Bitboard)
    requires
        pos < 64,
    ensures
        r == rook_mask_spec(pos as int),
{
    rook_mask_walk((pos % 8) as i32, (pos / 8) as i32, 1)
}

/// One diagonal of the bishop mask, walked from the origin while the
/// next step stays off the outer edge; includes the origin square.
pub open spec fn diag_mask_rec(a: int, b: int, dx: int, dy: int, fuel: nat) -> u64
    decreases fuel,
{
    if fuel == 0 {
        0u64
    } else if !((if dx > 0 {
        a < 7
    } else {
        a > 0
    }) && (if dy > 0 {
        b < 7
    } else {
        b > 0
    })) {
        0u64
    } else {
        (1u64 << ((a + b * 8) as u64)) | diag_mask_rec(a + dx, b + dy, dx, dy, (fuel - 1) as nat)
    }
}

/// The bishop blocker mask: both diagonals, edges and origin excluded.
pub open spec fn bishop_mask_spec(pos: int) -> u64 {
    let x = pos % 8;
    let y = pos / 8;
    (diag_mask_rec(x, y, 1, 1, 8) | diag_mask_rec(x, y, 1, -1, 8) | diag_mask_rec(x, y, -1, 1, 8)
        | diag_mask_rec(x, y, -1, -1, 8)) & !(1u64 << pos as u64)
}

fn diag_mask_walk(a: i32, b: i32, dx: i32, dy: i32, fuel: u32) -> (r: u64)
    requires
        0 <= a < 8,
        0 <= b < 8,
        dx == 1 || dx == -1,
        dy == 1 || dy == -1,
    ensures
        r == diag_mask_rec(a as int, b as int, dx as int, dy as int, fuel as nat),
    decreases fuel,
{
    if fuel == 0 {
        return 0;
    }
    let cont = (if dx > 0 {
        a < 7
    } else {
        a > 0
    }) && (if dy > 0 {
        b < 7
    } else {
        b > 0
    });
    if !cont {
        return 0;
    }
    (1u64 << ((a + b * 8) as u64)) | diag_mask_walk(a + dx, b + dy, dx, dy, fuel - 1)
}

/// Computes the bishop blocker mask of a square.
pub fn bishop_mask(pos: usize) -> (r: Bitboard)
    requires
        pos < 64,
    ensures
        r == bishop_mask_spec(pos as int),
{
    let x = (pos % 8) as i32;
    let y = (pos / 8) as i32;
    (diag_mask_walk(x, y, 1, 1, 8) | diag_mask_walk(x, y, 1, -1, 8) | diag_mask_walk(x, y, -1, 1, 8)
        | diag_mask_walk(x, y, -1, -1, 8)) & !(1u64 << (pos as u64))
}

/// The blocker mask of slider `kind` on `pos`.
pub open spec fn slider_mask(kind: int, pos: int) -> u64 {
    if kind == ROOK_SLIDER {
        rook_mask_spec(pos)
    } else {
        bishop_mask_spec(pos)
    }
}

/// The reference attacks of slider `kind` on `pos` under `blockers`.
pub open spec fn slider_attacks(kind: int, pos: int, blockers: u64) -> u64 {
    if kind == ROOK_SLIDER {
        rook_attacks_spec(pos, blockers)
    } else {
        bishop_attacks_spec(pos, blockers)
    }
}

fn slider_mask_exec(kind: usize, pos: usize) -> (r: u64)
    requires
        kind < 2,
        pos < 64,
    ensures
        r == slider_mask(kind as int, pos as int),
{
    if kind == ROOK_SLIDER {
        rook_mask(pos)
    } else {
        bishop_mask(pos)
    }
}


/// A square of the open ray from `(x, y)` in direction `(dx, dy)`.
pub open spec fn on_ray(x: int, y: int, dx: int, dy: int, a: int, b: int) -> bool {
    exists|j: int| j >= 1 && a == x + #[trigger] (j * dx) && b == y + j * dy
}

/// A ray reads the blockers only at squares whose successor is still
/// on the board: blocker sets that agree there walk the same ray.
proof fn lemma_ray_congruent(x: int, y: int, dx: int, dy: int, b1: u64, b2: u64, fuel: nat)
    requires
        0 <= x < 8,
        0 <= y < 8,
        -1 <= dx <= 1,
        -1 <= dy <= 1,
        forall|a: int, b: int|
            0 <= a < 8 && 0 <= b < 8 && #[trigger] on_ray(x, y, dx, dy, a, b) && 0 <= a + dx < 8
                && 0 <= b + dy < 8 ==> (b1 & (1u64 << (a + b * 8) as u64) != 0) == (b2 & (1u64 << (a
                + b * 8) as u64) != 0),
    ensures
        ray_spec(x, y, dx, dy, b1, fuel) == ray_spec(x, y, dx, dy, b2, fuel),
    decreases fuel,
{
    if fuel > 0 {
        let nx = x + dx;
        let ny = y + dy;
        if 0 <= nx < 8 && 0 <= ny < 8 {
            let s = 1u64 << ((nx + ny * 8) as u64);
            assert(on_ray(x, y, dx, dy, nx, ny)) by {
                assert(nx == x + 1 * dx && ny == y + 1 * dy);
            }
            if 0 <= nx + dx < 8 && 0 <= ny + dy < 8 {
                assert((b1 & s != 0) == (b2 & s != 0));
                assert forall|a: int, b: int|
                    0 <= a < 8 && 0 <= b < 8 && #[trigger] on_ray(nx, ny, dx, dy, a, b) && 0 <= a
                        + dx < 8 && 0 <= b + dy < 8 implies (b1 & (1u64 << (a + b * 8) as u64)
                    != 0) == (b2 & (1u64 << (a + b * 8) as u64) != 0) by {
                    let j = choose|j: int| j >= 1 && a == nx + #[trigger] (j * dx) && b == ny + j * dy;
                    assert(a == x + (j + 1) * dx && b == y + (j + 1) * dy) by (nonlinear_arith)
                        requires
                            a == nx + j * dx,
                            b == ny + j * dy,
                            nx == x + dx,
                            ny == y + dy,
                    ;
                    assert(on_ray(x, y, dx, dy, a, b));
                }
                lemma_ray_congruent(nx, ny, dx, dy, b1, b2, (fuel - 1) as nat);
            } else {
                assert(ray_spec(nx, ny, dx, dy, b1, (fuel - 1) as nat) == 0);
                assert(ray_spec(nx, ny, dx, dy, b2, (fuel - 1) as nat) == 0);
                crate::bitboard::lemma_or_zero(s);
            }
        }
    }
}

/// Every inner square of the rank or file through `(x, y)` is in the
/// rook mask: the horizontal members.
proof fn lemma_rook_mask_h(x: int, y: int, i: int, a: int)
    requires
        0 <= x < 8,
        0 <= y < 8,
        1 <= i <= a,
        a < 7,
        a != x,
    ensures
        bit(rook_mask_rec(x, y, i), a + y * 8),
    decreases 7 - i,
{
    let h: u64 = if i != x {
        1u64 << ((i + y * 8) as u64)
    } else {
        0u64
    };
    let v: u64 = if i != y {
        1u64 << ((x + i * 8) as u64)
    } else {
        0u64
    };
    let rest = rook_mask_rec(x, y, i + 1);
    crate::bitboard::lemma_bit_or(h, v);
    crate::bitboard::lemma_bit_or(h | v, rest);
    if a == i {
        lemma_bit_single((i + y * 8) as u64);
    } else {
        lemma_rook_mask_h(x, y, i + 1, a);
    }
}

/// The vertical members of the rook mask.
proof fn lemma_rook_mask_v(x: int, y: int, i: int, b: int)
    requires
        0 <= x < 8,
        0 <= y < 8,
        1 <= i <= b,
        b < 7,
        b != y,
    ensures
        bit(rook_mask_rec(x, y, i), x + b * 8),
    decreases 7 - i,
{
    let h: u64 = if i != x {
        1u64 << ((i + y * 8) as u64)
    } else {
        0u64
    };
    let v: u64 = if i != y {
        1u64 << ((x + i * 8) as u64)
    } else {
        0u64
    };
    let rest = rook_mask_rec(x, y, i + 1);
    crate::bitboard::lemma_bit_or(h, v);
    crate::bitboard::lemma_bit_or(h | v, rest);
    if b == i {
        lemma_bit_single((x + i * 8) as u64);
        if i != x {
            lemma_bit_single((i + y * 8) as u64);
        }
    } else {
        lemma_rook_mask_v(x, y, i + 1, b);
    }
}

/// The `j`-th square out along a diagonal is in that diagonal's walk
/// while it stays strictly inside the board edges.
proof fn lemma_diag_member(x: int, y: int, dx: int, dy: int, fuel: nat, j: int)
    requires
        dx == 1 || dx == -1,
        dy == 1 || dy == -1,
        0 <= x < 8,
        0 <= y < 8,
        1 <= j,
        j < fuel,
        1 <= x + j * dx <= 6,
        1 <= y + j * dy <= 6,
    ensures
        bit(diag_mask_rec(x, y, dx, dy, fuel), (x + j * dx) + (y + j * dy) * 8),
    decreases j,
{
    let a = x + j * dx;
    let b = y + j * dy;
    assert((if dx > 0 {
        x < 7
    } else {
        x > 0
    }) && (if dy > 0 {
        y < 7
    } else {
        y > 0
    })) by (nonlinear_arith)
        requires
            dx == 1 || dx == -1,
            dy == 1 || dy == -1,
            1 <= j,
            1 <= x + j * dx <= 6,
            1 <= y + j * dy <= 6,
            0 <= x < 8,
            0 <= y < 8,
    ;
    let head = 1u64 << ((x + y * 8) as u64);
    let rest = diag_mask_rec(x + dx, y + dy, dx, dy, (fuel - 1) as nat);
    crate::bitboard::lemma_bit_or(head, rest);
    if j == 1 {
        assert(a == x + dx && b == y + dy) by (nonlinear_arith)
            requires
                j == 1,
                a == x + j * dx,
                b == y + j * dy,
        ;
        assert((if dx > 0 {
            a < 7
        } else {
            a > 0
        }) && (if dy > 0 {
            b < 7
        } else {
            b > 0
        }));
        let head2 = 1u64 << ((a + b * 8) as u64);
        let rest2 = diag_mask_rec(a + dx, b + dy, dx, dy, (fuel - 2) as nat);
        crate::bitboard::lemma_bit_or(head2, rest2);
        lemma_bit_single((a + b * 8) as u64);
    } else {
        assert(a == (x + dx) + (j - 1) * dx && b == (y + dy) + (j - 1) * dy) by (nonlinear_arith)
            requires
                a == x + j * dx,
                b == y + j * dy,
        ;
        lemma_diag_member(x + dx, y + dy, dx, dy, (fuel - 1) as nat, j - 1);
    }
}

/// Restricting the occupancy to the blocker mask changes no slider
/// attack set: the masked-out squares are board edges or off the rays,
/// which the reference walk never consults.
pub proof fn lemma_masked_slider_exact(kind: int, pos: int, occ: u64)
    requires
        0 <= kind < 2,
        0 <= pos < 64,
    ensures
        slider_attacks(kind, pos, occ & slider_mask(kind, pos)) == slider_attacks(kind, pos, occ),
{
    let x = pos % 8;
    let y = pos / 8;
    let mask = slider_mask(kind, pos);
    crate::bitboard::lemma_bit_and(occ, mask);
    if kind == ROOK_SLIDER {
        assert forall|dx: int, dy: int| (dx == 1 && dy == 0) || (dx == -1 && dy == 0) || (dx == 0
            && dy == 1) || (dx == 0 && dy == -1) implies ray_spec(x, y, dx, dy, occ & mask, 7)
            == ray_spec(x, y, dx, dy, occ, 7) by {
            assert forall|a: int, b: int|
                0 <= a < 8 && 0 <= b < 8 && #[trigger] on_ray(x, y, dx, dy, a, b) && 0 <= a + dx
                    < 8 && 0 <= b + dy < 8 implies ((occ & mask) & (1u64 << (a + b * 8) as u64)
                != 0) == (occ & (1u64 << (a + b * 8) as u64) != 0) by {
                let j = choose|j: int| j >= 1 && a == x + #[trigger] (j * dx) && b == y + j * dy;
                if dy == 0 {
                    assert(b == y && a != x && 1 <= a < 7) by (nonlinear_arith)
                        requires
                            (dx == 1 || dx == -1) && dy == 0,
                            j >= 1,
                            a == x + j * dx,
                            b == y + j * dy,
                            0 <= a + dx < 8,
                            0 <= a < 8,
                            0 <= x < 8,
                            0 <= y < 8,
                    ;
                    lemma_rook_mask_h(x, y, 1, a);
                } else {
                    assert(a == x && b != y && 1 <= b < 7) by (nonlinear_arith)
                        requires
                            (dy == 1 || dy == -1) && dx == 0,
                            j >= 1,
                            a == x + j * dx,
                            b == y + j * dy,
                            0 <= b + dy < 8,
                            0 <= b < 8,
                            0 <= x < 8,
                            0 <= y < 8,
                    ;
                    lemma_rook_mask_v(x, y, 1, b);
                }
                assert(bit(mask, a + b * 8));
                assert(bit(occ & mask, a + b * 8) == bit(occ, a + b * 8));
            }
            lemma_ray_congruent(x, y, dx, dy, occ & mask, occ, 7);
        }
    } else {
        let whole = diag_mask_rec(x, y, 1, 1, 8) | diag_mask_rec(x, y, 1, -1, 8) | diag_mask_rec(
            x,
            y,
            -1,
            1,
            8,
        ) | diag_mask_rec(x, y, -1, -1, 8);
        crate::bitboard::lemma_bit_or(diag_mask_rec(x, y, 1, 1, 8), diag_mask_rec(x, y, 1, -1, 8));
        crate::bitboard::lemma_bit_or(
            diag_mask_rec(x, y, 1, 1, 8) | diag_mask_rec(x, y, 1, -1, 8),
            diag_mask_rec(x, y, -1, 1, 8),
        );
        crate::bitboard::lemma_bit_or(
            diag_mask_rec(x, y, 1, 1, 8) | diag_mask_rec(x, y, 1, -1, 8) | diag_mask_rec(
                x,
                y,
                -1,
                1,
                8,
            ),
            diag_mask_rec(x, y, -1, -1, 8),
        );
        lemma_bit_andnot(whole, 1u64 << pos as u64);
        lemma_bit_single(pos as u64);
        assert forall|dx: int, dy: int| (dx == 1 || dx == -1) && (dy == 1 || dy == -1) implies
            ray_spec(x, y, dx, dy, occ & mask, 7) == ray_spec(x, y, dx, dy, occ, 7) by {
            assert forall|a: int, b: int|
                0 <= a < 8 && 0 <= b < 8 && #[trigger] on_ray(x, y, dx, dy, a, b) && 0 <= a + dx
                    < 8 && 0 <= b + dy < 8 implies ((occ & mask) & (1u64 << (a + b * 8) as u64)
                != 0) == (occ & (1u64 << (a + b * 8) as u64) != 0) by {
                let j = choose|j: int| j >= 1 && a == x + #[trigger] (j * dx) && b == y + j * dy;
                assert(1 <= a <= 6 && 1 <= b <= 6 && a != x && 1 <= j <= 7) by (nonlinear_arith)
                    requires
                        (dx == 1 || dx == -1) && (dy == 1 || dy == -1),
                        j >= 1,
                        a == x + j * dx,
                        b == y + j * dy,
                        0 <= a + dx < 8,
                        0 <= b + dy < 8,
                        0 <= a < 8,
                        0 <= b < 8,
                        0 <= x < 8,
                        0 <= y < 8,
                ;
                lemma_diag_member(x, y, dx, dy, 8, j);
                assert(bit(whole, a + b * 8));
                assert(a + b * 8 != pos) by (nonlinear_arith)
                    requires
                        a != x,
                        pos == x + y * 8,
                        0 <= a < 8 && 0 <= b < 8 && 0 <= x < 8 && 0 <= y < 8,
                ;
                assert(bit(mask, a + b * 8));
                assert(bit(occ & mask, a + b * 8) == bit(occ, a + b * 8));
            }
            lemma_ray_congruent(x, y, dx, dy, occ & mask, occ, 7);
        }
    }
}

/// `b` holds no square outside `mask`.
pub open spec fn subset_of(b: u64, mask: u64) -> bool {
    b & !mask == 0
}

/// The number of set bits of `mask` at positions `j` and above.
pub open spec fn mask_bits(mask: u64, j: int) -> nat
    decreases 64 - j,
{
    if j < 0 || j >= 64 {
        0
    } else {
        (if bit(mask, j) {
            1nat
        } else {
            0nat
        }) + mask_bits(mask, j + 1)
    }
}

/// The subset of `mask` (at positions `j` and above) selected by the
/// binary digits of `i`, lowest digit at the lowest masked square.
pub open spec fn spread(i: int, mask: u64, j: int) -> u64
    decreases 64 - j,
{
    if j < 0 || j >= 64 {
        0u64
    } else if bit(mask, j) {
        (if i % 2 == 1 {
            1u64 << j as u64
        } else {
            0u64
        }) | spread(i / 2, mask, j + 1)
    } else {
        spread(i, mask, j + 1)
    }
}

/// The index whose digit string selects exactly `b` out of `mask`.
pub open spec fn compress(b: u64, mask: u64, j: int) -> int
    decreases 64 - j,
{
    if j < 0 || j >= 64 {
        0
    } else if bit(mask, j) {
        (if bit(b, j) {
            1int
        } else {
            0int
        }) + 2 * compress(b, mask, j + 1)
    } else {
        compress(b, mask, j + 1)
    }
}

/// Counts the set bits.
pub fn popcount(mask: u64) -> (r: u32)
    ensures
        r == mask_bits(mask, 0),
        r <= 64,
{
    let mut count: u32 = 0;
    let mut j: u32 = 0;
    while j < 64
        invariant
            j <= 64,
            count + mask_bits(mask, j as int) == mask_bits(mask, 0),
            count <= j,
        decreases 64 - j,
    {
        if mask & (1u64 << (j as u64)) != 0 {
            count += 1;
        }
        j += 1;
    }
    count
}

/// Every subset is a spread value: corollary of `lemma_spread_surjective`.
pub proof fn lemma_spread_covers(b: u64, mask: u64)
    requires
        subset_of(b, mask),
    ensures
        0 <= compress(b, mask, 0) < vstd::arithmetic::power2::pow2(mask_bits(mask, 0)),
        spread(compress(b, mask, 0), mask, 0) == b,
{
    lemma_bit_andnot(b, mask);
    crate::bitboard::lemma_bit_zero();
    assert forall|t: int| bit(b, t) implies t >= 0 && bit(mask, t) by {
        if !bit(mask, t) {
            assert(bit(b & !mask, t));
        }
    }
    lemma_spread_surjective(b, mask, 0);
}

/// `compress` reads only the bits of `b` at positions `j` and above.
proof fn lemma_compress_congruent(b1: u64, b2: u64, mask: u64, j: int)
    requires
        forall|t: int| t >= j ==> bit(b1, t) == bit(b2, t),
    ensures
        compress(b1, mask, j) == compress(b2, mask, j),
    decreases 64 - j,
{
    if 0 <= j < 64 {
        lemma_compress_congruent(b1, b2, mask, j + 1);
    }
}

/// Spreading the compressed digits of a subset gives the subset back.
proof fn lemma_spread_surjective(b: u64, mask: u64, j: int)
    requires
        0 <= j <= 64,
        forall|t: int| #[trigger] bit(b, t) ==> t >= j && bit(mask, t),
    ensures
        0 <= compress(b, mask, j) < vstd::arithmetic::power2::pow2(mask_bits(mask, j)),
        spread(compress(b, mask, j), mask, j) == b,
    decreases 64 - j,
{
    if j >= 64 {
        assert forall|t: int| !bit(b, t) by {
            if bit(b, t) {
                assert(t >= 64 && 0 <= t < 64);
            }
        }
        lemma_no_bits(b);
        vstd::arithmetic::power2::lemma_pow2_pos(0);
        assert(vstd::arithmetic::power2::pow2(0) == 1) by {
            vstd::arithmetic::power2::lemma2_to64();
        }
    } else if bit(mask, j) {
        let bj = bit(b, j);
        let single = 1u64 << j as u64;
        let b2 = b & !single;
        lemma_bit_andnot(b, single);
        lemma_bit_single(j as u64);
        assert forall|t: int| #[trigger] bit(b2, t) implies t >= j + 1 && bit(mask, t) by {
            assert(bit(b, t) && t != j);
        }
        lemma_spread_surjective(b2, mask, j + 1);
        let c2 = compress(b2, mask, j + 1);
        lemma_compress_congruent(b, b2, mask, j + 1);
        let c = compress(b, mask, j);
        assert(c == (if bj {
            1int
        } else {
            0int
        }) + 2 * c2);
        // the digit string reproduces: low digit is bj, the rest is c2
        assert(c % 2 == (if bj {
            1int
        } else {
            0int
        }) && c / 2 == c2) by {
            if bj {
                assert((1 + 2 * c2) % 2 == 1 && (1 + 2 * c2) / 2 == c2);
            } else {
                assert((2 * c2) % 2 == 0 && (2 * c2) / 2 == c2);
            }
        }
        assert(spread(c, mask, j) == (if bj {
            single
        } else {
            0u64
        }) | spread(c2, mask, j + 1));
        // rebuild b from its bit at j and the rest
        let lo = if bj {
            single
        } else {
            0u64
        };
        crate::bitboard::lemma_bit_or(lo, b2);
        crate::bitboard::lemma_bit_zero();
        assert forall|t: int| 0 <= t < 64 implies bit(lo | b2, t) == bit(b, t) by {}
        lemma_bit_ext(lo | b2, b);
        // the bound: one more digit doubles the range
        vstd::arithmetic::power2::lemma_pow2_unfold(mask_bits(mask, j));
    } else {
        assert forall|t: int| #[trigger] bit(b, t) implies t >= j + 1 && bit(mask, t) by {
            assert(t != j);
        }
        lemma_spread_surjective(b, mask, j + 1);
    }
}

fn slider_attacks_exec(kind: usize, pos: usize, blockers: u64) -> (r: u64)
    requires
        kind < 2,
        pos < 64,
    ensures
        r == slider_attacks(kind as int, pos as int, blockers),
{
    if kind == ROOK_SLIDER {
        generate_rook_attacks(pos, blockers)
    } else {
        generate_bishop_attacks(pos, blockers)
    }
}

proof fn lemma_shift_facts(x: u64, k: u64)
    ensures
        x >> 0u64 == x,
        x >> 1u64 == x / 2,
        x & 1 == x % 2,
        k < 63 ==> (x >> k) >> 1u64 == x >> (k + 1),
{
    assert((x >> 0u64) == x && (x >> 1u64) == x / 2 && (x & 1) == x % 2 && (k < 63 ==> ((x >> k)
        >> 1u64) == (x >> (k + 1)))) by (bit_vector);
}

/// A hashed index stays below two to the number of hashed bits.
proof fn lemma_shr_bound(x: u64, s: u64)
    requires
        48 <= s < 64,
    ensures
        (x >> s) < (1u64 << ((64 - s) as u64)),
{
    assert(48 <= s < 64 ==> (x >> s) < (1u64 << ((64 - s) as u64))) by (bit_vector);
}

/// Masking with `mask` lands inside `mask`.
proof fn lemma_masked_subset(occ: u64, mask: u64)
    ensures
        subset_of(occ & mask, mask),
{
    crate::bitboard::lemma_bit_and(occ, mask);
    lemma_bit_andnot(occ & mask, mask);
    crate::bitboard::lemma_bit_zero();
    assert forall|t: int| !bit((occ & mask) & !mask, t) by {}
    lemma_no_bits((occ & mask) & !mask);
}

/// Masking a subset of `mask` changes nothing.
proof fn lemma_subset_noop(b: u64, mask: u64)
    requires
        subset_of(b, mask),
    ensures
        b & mask == b,
{
    crate::bitboard::lemma_bit_and(b, mask);
    lemma_bit_andnot(b, mask);
    crate::bitboard::lemma_bit_zero();
    assert forall|t: int| 0 <= t < 64 implies bit(b & mask, t) == bit(b, t) by {
        if bit(b, t) && !bit(mask, t) {
            assert(bit(b & !mask, t));
        }
    }
    lemma_bit_ext(b & mask, b);
}

/// Removing one more named square distributes over removal.
proof fn lemma_andnot_facts(a: u64, x: u64, y: u64)
    ensures
        a & !(x | y) == (a & !x) & !y,
        a & !0u64 == a,
{
    assert((a & !(x | y)) == ((a & !x) & !y) && (a & !0u64) == a) by (bit_vector);
}

/// The complement of a subset within `mask` is again a subset, and
/// removing it from `mask` gives the subset back.
pub proof fn lemma_mask_complement(b: u64, mask: u64)
    requires
        subset_of(b, mask),
    ensures
        subset_of(mask & !b, mask),
        mask & !(mask & !b) == b,
{
    assert(b & !mask == 0 ==> ((mask & !b) & !mask) == 0 && (mask & !(mask & !b)) == b)
        by (bit_vector);
}

/// Enumerates every subset of `mask`: entry `i` removes from `mask`
/// the bits named by the binary digits of `i`, so the full mask comes
/// first and the empty set last.
pub fn bitmask_permutations(mask: Bitboard) -> (r: Vec<Bitboard>)
    requires
        mask_bits(mask, 0) <= 16,
    ensures
        r.len() == vstd::arithmetic::power2::pow2(mask_bits(mask, 0)),
        forall|t: int| 0 <= t < r.len() ==> r[t] == mask & !spread(t, mask, 0),
{
    let bits = popcount(mask);
    proof {
        vstd::arithmetic::power2::lemma2_to64();
        vstd::arithmetic::power2::lemma_pow2_strictly_increases(bits as nat, 17);
        vstd::bits::lemma_u32_shl_is_mul(1u32, bits);
    }
    let count: usize = (1u32 << bits) as usize;
    let mut permutations: Vec<u64> = Vec::new();
    let mut i: usize = 0;
    while i < count
        invariant
            i <= count,
            count == vstd::arithmetic::power2::pow2(mask_bits(mask, 0)),
            mask_bits(mask, 0) <= 16,
            permutations@.len() == i,
            forall|t: int| 0 <= t < i ==> permutations@[t] == mask & !spread(t, mask, 0),
        decreases count - i,
    {
        let mut p: u64 = mask;
        let mut curr_bit: u64 = 0;
        let mut j: u32 = 0;
        proof {
            lemma_shift_facts(i as u64, 0);
        }
        while j < 64
            invariant
                j <= 64,
                curr_bit + mask_bits(mask, j as int) == mask_bits(mask, 0),
                mask_bits(mask, 0) <= 16,
                mask & !spread(i as int, mask, 0) == p & !spread(
                    ((i as u64) >> curr_bit) as int,
                    mask,
                    j as int,
                ),
            decreases 64 - j,
        {
            proof {
                lemma_shift_facts((i as u64) >> curr_bit, curr_bit);
                lemma_shift_facts(i as u64, curr_bit);
            }
            if mask & (1u64 << (j as u64)) != 0 {
                let ghost iu = (i as u64) >> curr_bit;
                let ghost rest = spread(iu as int / 2, mask, j as int + 1);
                proof {
                    if iu % 2 == 1 {
                        lemma_andnot_facts(p, 1u64 << (j as u64), rest);
                    } else {
                        crate::bitboard::lemma_or_zero(rest);
                    }
                }
                if ((i as u64) >> curr_bit) & 1 == 1 {
                    p = p & !(1u64 << (j as u64));
                }
                curr_bit += 1;
            }
            j += 1;
        }
        proof {
            lemma_andnot_facts(p, 0, 0);
        }
        permutations.push(p);
        i += 1;
    }
    permutations
}

/// Where a blocker set hashes to, before the table offset is added.
pub open spec fn hash_of(b: u64, magic: u64, shift: u64) -> int {
    (vstd::wrapping::u64_specs::wrapping_mul(b, magic) >> shift) as int
}

/// One square's perfect-hash data: multiplier, blocker mask, shift and
/// the slice of the shared attack table it indexes into.
#[derive(Clone, Copy)]
pub struct MagicEntry {
    pub magic: u64,
    pub mask: Bitboard,
    pub shift: u64,
    pub offset: usize,
}

impl MagicEntry {
    /// Where an occupancy lands in the shared attack table.
    pub open spec fn index_of(self, occ: u64) -> int {
        hash_of(occ & self.mask, self.magic, self.shift) + self.offset
    }
}

/// The per-square magic entries and the shared attack table of one
/// slider kind.
pub struct Magic {
    pub entries: [MagicEntry; 64],
    pub attack_table: Vec<Bitboard>,
}

/// The entry hashes every occupancy to an in-range table slot holding
/// the reference attack set of its masked blockers.
pub open spec fn entry_ok(e: MagicEntry, table: Seq<u64>, kind: int, pos: int) -> bool {
    &&& e.mask == slider_mask(kind, pos)
    &&& e.shift < 64
    &&& forall|occ: u64|
        0 <= #[trigger] e.index_of(occ) < table.len() && table[e.index_of(occ)] == slider_attacks(
            kind,
            pos,
            occ & e.mask,
        )
}

impl Magic {
    /// Every square's entry hashes correctly for slider `kind`.
    pub open spec fn wf(self, kind: int) -> bool {
        forall|pos: int| 0 <= pos < 64 ==> entry_ok(self.entries[pos], self.attack_table@, kind, pos)
    }

    /// What one table consultation reads.
    pub open spec fn lookup(self, pos: int, occ: u64) -> u64 {
        self.attack_table@[self.entries[pos].index_of(occ)]
    }

    /// Consults the perfect-hash table: the attack set of the slider on
    /// `pos` under the given occupancy.
    pub fn attacks(&self, pos: usize, occupancy: Bitboard) -> (r: Bitboard)
        requires
            pos < 64,
            exists|k: int| self.wf(k),
        ensures
            r == self.lookup(pos as int, occupancy),
            forall|k: int|
                self.wf(k) ==> r == slider_attacks(k, pos as int, occupancy & slider_mask(
                    k,
                    pos as int,
                )),
    {
        let e = self.entries[pos];
        let ghost h = hash_of(occupancy & e.mask, e.magic, e.shift);
        proof {
            let k0 = choose|k: int| self.wf(k);
            assert(entry_ok(self.entries[pos as int], self.attack_table@, k0, pos as int));
            assert(0 <= e.index_of(occupancy) < self.attack_table@.len());
            assert(0 <= h && h + e.offset < self.attack_table@.len());
        }
        let n = self.attack_table.len();
        proof {
            assert(h + e.offset < n);
        }
        let hashed = ((occupancy & e.mask).wrapping_mul(e.magic) >> e.shift) as usize;
        proof {
            assert(hashed == h);
        }
        let index = hashed + e.offset;
        proof {
            assert(index == e.index_of(occupancy));
        }
        self.attack_table[index]
    }
}

/// Magic lookup agrees with the reference ray attacks on every blocker
/// subset of every square's mask: the perfect-hash tables are exact.
pub proof fn lemma_magic_correct(m: Magic, kind: int, pos: int, b: u64)
    requires
        m.wf(kind),
        0 <= pos < 64,
        subset_of(b, slider_mask(kind, pos)),
    ensures
        m.lookup(pos, b) == slider_attacks(kind, pos, b),
{
    assert(entry_ok(m.entries[pos], m.attack_table@, kind, pos));
    lemma_subset_noop(b, slider_mask(kind, pos));
    assert(0 <= m.entries[pos].index_of(b));
}

/// A correct entry stays correct when the table grows at the end.
proof fn lemma_entry_ok_extend(e: MagicEntry, t1: Seq<u64>, t2: Seq<u64>, kind: int, pos: int)
    requires
        entry_ok(e, t1, kind, pos),
        t1.len() <= t2.len(),
        forall|i: int| 0 <= i < t1.len() ==> t1[i] == t2[i],
    ensures
        entry_ok(e, t2, kind, pos),
{
    assert forall|occ: u64|
        0 <= #[trigger] e.index_of(occ) < t2.len() && t2[e.index_of(occ)] == slider_attacks(
            kind,
            pos,
            occ & e.mask,
        ) by {
        assert(0 <= e.index_of(occ) < t1.len());
    }
}

/// Relies on fastrand::u64 over the full range, which never panics;
/// nothing is assumed about the value drawn.
#[verifier::external_body]
fn random_u64() -> u64 {
    fastrand::u64(..)
}

/// Searches random candidates for a magic multiplier per square and
/// builds the attack table, verifying every blocker subset against the
/// reference ray walk; `None` when the bounded search fails.
pub fn generate_magic_numbers(kind: usize) -> (r: Option<Magic>)
    requires
        kind < 2,
    ensures
        r matches Some(m) ==> m.wf(kind as int),
{
    let mut entries: [MagicEntry; 64] = [MagicEntry { magic: 0, mask: 0, shift: 0, offset: 0 };64];
    let mut attack_table: Vec<u64> = Vec::new();
    let mut pos: usize = 0;
    while pos < 64
        invariant
            kind < 2,
            pos <= 64,
            forall|p: int| 0 <= p < pos ==> entry_ok(entries[p], attack_table@, kind as int, p),
        decreases 64 - pos,
    {
        let mask = slider_mask_exec(kind, pos);
        let bits = popcount(mask);
        if bits == 0 || bits > 16 {
            return None;
        }
        let shift: u64 = 64 - bits as u64;
        proof {
            vstd::arithmetic::power2::lemma2_to64();
            vstd::arithmetic::power2::lemma_pow2_strictly_increases(bits as nat, 17);
            vstd::bits::lemma_u64_shl_is_mul(1u64, (64 - shift) as u64);
        }
        let permutations: usize = (1u64 << (64 - shift)) as usize;
        let blockers = bitmask_permutations(mask);
        let mut attack_boards: Vec<u64> = Vec::new();
        let mut t: usize = 0;
        while t < permutations
            invariant
                kind < 2,
                pos < 64,
                t <= permutations,
                permutations == blockers@.len(),
                attack_boards@.len() == t,
                forall|q: int|
                    0 <= q < t ==> attack_boards@[q] == slider_attacks(
                        kind as int,
                        pos as int,
                        blockers@[q],
                    ),
            decreases permutations - t,
        {
            attack_boards.push(slider_attacks_exec(kind, pos, blockers[t]));
            t += 1;
        }
        let mut done = false;
        let mut attempt: u32 = 0;
        while !done && attempt < 100000000
            invariant
                kind < 2,
                pos < 64,
                48 <= shift < 64,
                permutations == vstd::arithmetic::power2::pow2(mask_bits(mask, 0)),
                permutations == vstd::arithmetic::power2::pow2((64 - shift) as nat),
                mask == slider_mask(kind as int, pos as int),
                mask_bits(mask, 0) == 64 - shift,
                permutations == blockers@.len(),
                attack_boards@.len() == permutations,
                forall|q: int| 0 <= q < permutations ==> blockers@[q] == mask & !spread(q, mask, 0),
                forall|q: int|
                    0 <= q < permutations ==> attack_boards@[q] == slider_attacks(
                        kind as int,
                        pos as int,
                        blockers@[q],
                    ),
                forall|p: int| 0 <= p < pos ==> entry_ok(entries[p], attack_table@, kind as int, p),
                done ==> entry_ok(entries[pos as int], attack_table@, kind as int, pos as int),
            decreases 100000000 - attempt, 1int - (if done {
                1int
            } else {
                0int
            }),
    {
            attempt += 1;
            let magic = random_u64() & random_u64() & random_u64();
            if popcount(mask.wrapping_mul(magic) & 0xFF00000000000000) < 6 {
                continue ;
            }
            let mut used: Vec<u64> = Vec::new();
            let mut written: Vec<bool> = Vec::new();
            let mut z: usize = 0;
            while z < permutations
                invariant
                    z <= permutations,
                    used@.len() == z,
                    written@.len() == z,
                decreases permutations - z,
            {
                used.push(0);
                written.push(false);
                z += 1;
            }
            let mut ok = true;
            let mut i: usize = 0;
            while ok && i < permutations
                invariant
                    48 <= shift < 64,
                    permutations == vstd::arithmetic::power2::pow2((64 - shift) as nat),
                    permutations == blockers@.len(),
                    attack_boards@.len() == permutations,
                    used@.len() == permutations,
                    written@.len() == permutations,
                    i <= permutations,
                    ok ==> forall|q: int|
                        0 <= q < i ==> 0 <= #[trigger] hash_of(blockers@[q], magic, shift)
                            < permutations && written@[hash_of(blockers@[q], magic, shift)]
                            && used@[hash_of(blockers@[q], magic, shift)] == attack_boards@[q],
                decreases permutations - i, 1int + (if ok {
                        1int
                    } else {
                        0int
                    }),
            {
                proof {
                    lemma_shr_bound(
                        vstd::wrapping::u64_specs::wrapping_mul(blockers@[i as int], magic),
                        shift,
                    );
                    vstd::bits::lemma_u64_shl_is_mul(1u64, (64 - shift) as u64);
                }
                let index = (blockers[i].wrapping_mul(magic) >> shift) as usize;
                if written[index] && used[index] != attack_boards[i] {
                    ok = false;
                } else {
                    used[index] = attack_boards[i];
                    written[index] = true;
                    i += 1;
                }
            }
            if ok && i == permutations {
                let offset = attack_table.len();
                let ghost table0 = attack_table@;
                let mut k: usize = 0;
                while k < permutations
                    invariant
                        k <= permutations,
                        used@.len() == permutations,
                        attack_table@.len() == table0.len() + k,
                        forall|q: int| 0 <= q < table0.len() ==> attack_table@[q] == table0[q],
                        forall|q: int|
                            0 <= q < k ==> attack_table@[table0.len() + q] == used@[q],
                    decreases permutations - k,
                {
                    attack_table.push(used[k]);
                    k += 1;
                }
                let entry = MagicEntry { magic, mask, shift, offset };
                proof {
                    assert forall|p: int|
                        0 <= p < pos implies entry_ok(
                        entries[p],
                        attack_table@,
                        kind as int,
                        p,
                    ) by {
                        lemma_entry_ok_extend(entries[p], table0, attack_table@, kind as int, p);
                    }
                }
                entries[pos] = entry;
                proof {
                    assert forall|occ: u64|
                        0 <= #[trigger] entry.index_of(occ) < attack_table@.len()
                            && attack_table@[entry.index_of(occ)] == slider_attacks(
                            kind as int,
                            pos as int,
                            occ & entry.mask,
                        ) by {
                        let b = occ & mask;
                        lemma_masked_subset(occ, mask);
                        lemma_mask_complement(b, mask);
                        lemma_spread_covers(mask & !b, mask);
                        let q = compress(mask & !b, mask, 0);
                        assert(blockers@[q] == b);
                        let h = hash_of(b, magic, shift);
                        assert(written@[h] && used@[h] == attack_boards@[q]);
                        assert(attack_table@[table0.len() + h] == used@[h]);
                        lemma_subset_noop(b, mask);
                        assert(entry.index_of(occ) == offset + h);
                    }
                    assert(entry_ok(entries[pos as int], attack_table@, kind as int, pos as int));
                }
                done = true;
            }
        }
        if !done {
            return None;
        }
        pos += 1;
    }
    Some(Magic { entries, attack_table })
}

/// Searches the rook tables.
pub fn generate_rook_magic() -> (r: Option<Magic>)
    ensures
        r matches Some(m) ==> m.wf(ROOK_SLIDER as int),
{
    generate_magic_numbers(ROOK_SLIDER)
}

/// Searches the bishop tables.
pub fn generate_bishop_magic() -> (r: Option<Magic>)
    ensures
        r matches Some(m) ==> m.wf(BISHOP_SLIDER as int),
{
    generate_magic_numbers(BISHOP_SLIDER)
}

/// Builds both slider tables once, at start-up.
pub fn force_generate() -> (r: Option<(Magic, Magic)>)
    ensures
        r matches Some(m) ==> m.0.wf(ROOK_SLIDER as int) && m.1.wf(BISHOP_SLIDER as int),
{
    let rook = generate_rook_magic();
    let bishop = generate_bishop_magic();
    match (rook, bishop) {
        (Some(r), Some(b)) => Some((r, b)),
        _ => None,
    }
}

} // verus!
