//! Perft: depth-first enumeration of the legal-move tree, counting
//! leaf positions.

use vstd::prelude::*;

use crate::board::{Board, BoardModel};
use crate::magic::{Magic, BISHOP_SLIDER, ROOK_SLIDER};
use crate::movegen::{apply_spec, legal_move_seq, Move};

verus! {

/// A count clamped to the 64-bit range.
pub open spec fn sat64(n: nat) -> u64 {
    if n > u64::MAX {
        u64::MAX
    } else {
        n as u64
    }
}

/// The perft count: one at depth zero, else the sum over the legal
/// moves of the count of each resulting board one level down.
pub open spec fn perft_spec(b: BoardModel, depth: nat) -> nat
    decreases depth, 1int, 0int,
{
    if depth == 0 {
        1
    } else {
        perft_sum(legal_move_seq(b), b, depth)
    }
}

/// The summed perft counts of the boards reached by the moves of `s`.
pub open spec fn perft_sum(s: Seq<Move>, b: BoardModel, depth: nat) -> nat
    decreases depth, 0int, s.len(),
{
    if depth == 0 || s.len() == 0 {
        0
    } else {
        perft_spec(apply_spec(b, s[0]), (depth - 1) as nat) + perft_sum(s.drop_first(), b, depth)
    }
}

impl Board {
    /// Counts the leaf positions reachable in exactly `depth` legal
    /// moves, saturating at the largest 64-bit value.
    pub fn perft(&self, depth: u32, rm: &Magic, bm: &Magic) -> (r: u64)
        requires
            self.to_move < 2,
            rm.wf(ROOK_SLIDER as int),
            bm.wf(BISHOP_SLIDER as int),
        ensures
            r == sat64(perft_spec(self@, depth as nat)),
        decreases depth,
    {
        if depth == 0 {
            return 1;
        }
        let ghost b = self@;
        let ghost d = depth as nat;
        let moves = self.generate_moves(rm, bm);
        let ghost s = moves@;
        let mut total: u64 = 0;
        let mut i: usize = 0;
        proof {
            assert(s.skip(0) =~= s);
        }
        while i < moves.len()
            invariant
                i <= s.len(),
                s == moves@,
                s == legal_move_seq(b),
                b == self@,
                d == depth as nat,
                depth >= 1,
                self.to_move < 2,
                rm.wf(ROOK_SLIDER as int),
                bm.wf(BISHOP_SLIDER as int),
                sat64(perft_sum(s, b, d)) == sat64((total + perft_sum(s.skip(i as int), b, d)) as nat),
            decreases s.len() - i,
        {
            let m = moves[i];
            let b2 = self.apply_move(m);
            proof {
                assert(b2@ == apply_spec(b, m));
                assert(b2.to_move < 2);
            }
            let c = b2.perft(depth - 1, rm, bm);
            let ghost rest = s.skip(i as int);
            proof {
                assert(rest.len() > 0 && rest[0] == m);
                assert(rest.drop_first() =~= s.skip(i + 1int));
                assert(perft_sum(rest, b, d) == perft_spec(apply_spec(b, m), (d - 1) as nat)
                    + perft_sum(s.skip(i + 1int), b, d));
            }
            let new_total = total.saturating_add(c);
            proof {
                let p = perft_spec(apply_spec(b, m), (d - 1) as nat);
                let r2 = perft_sum(s.skip(i + 1int), b, d);
                assert(sat64((total + (p + r2)) as nat) == sat64((new_total + r2) as nat));
            }
            total = new_total;
            i += 1;
        }
        proof {
            assert(s.skip(s.len() as int) =~= Seq::<Move>::empty());
            assert(perft_sum(s.skip(s.len() as int), b, d) == 0);
        }
        total
    }

    /// The per-root-move breakdown of a perft count: each legal move
    /// paired with the count of its subtree one level down.
    pub fn perft_divide(&self, depth: u32, rm: &Magic, bm: &Magic) -> (r: Vec<(Move, u64)>)
        requires
            depth >= 1,
            self.to_move < 2,
            rm.wf(ROOK_SLIDER as int),
            bm.wf(BISHOP_SLIDER as int),
        ensures
            r@.len() == legal_move_seq(self@).len(),
            forall|i: int|
                0 <= i < r@.len() ==> (#[trigger] r@[i]).0 == legal_move_seq(self@)[i]
                    && r@[i].1 == sat64(
                    perft_spec(apply_spec(self@, legal_move_seq(self@)[i]), (depth - 1) as nat),
                ),
    {
        let moves = self.generate_moves(rm, bm);
        let mut out: Vec<(Move, u64)> = Vec::new();
        let mut i: usize = 0;
        while i < moves.len()
            invariant
                i <= moves@.len(),
                moves@ == legal_move_seq(self@),
                depth >= 1,
                self.to_move < 2,
                rm.wf(ROOK_SLIDER as int),
                bm.wf(BISHOP_SLIDER as int),
                out@.len() == i,
                forall|t: int|
                    0 <= t < i ==> (#[trigger] out@[t]).0 == legal_move_seq(self@)[t]
                        && out@[t].1 == sat64(
                        perft_spec(
                            apply_spec(self@, legal_move_seq(self@)[t]),
                            (depth - 1) as nat,
                        ),
                    ),
            decreases moves@.len() - i,
        {
            let m = moves[i];
            let b2 = self.apply_move(m);
            proof {
                assert(b2.to_move < 2);
            }
            let c = b2.perft(depth - 1, rm, bm);
            out.push((m, c));
            i += 1;
        }
        out
    }
}

} // verus!
