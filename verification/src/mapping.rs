//! The bucket geometry and the index mapping.
//!
//! A histogram partitions its value range into a linear region, where each
//! value `v` with `1 <= v <= linear_max` owns the slot `v - 1`, and a
//! logarithmic region, where each power-of-two band `[2^e, 2^(e+1))` is cut
//! into `buckets_inner` equal sub-buckets.  This module defines the forward
//! mapping (value to slot), its approximate inverse (slot to representative
//! value), and proves the range, round-trip and relative-error facts the
//! counter store and the query engine rely on.

use vstd::prelude::*;

verus! {

use vstd::arithmetic::power2::{pow2, lemma_pow2_pos, lemma_pow2_strictly_increases};
use crate::arith::{bit_len, ceil_div, lemma_bit_len_bounds, lemma_bit_len_le,
    lemma_bit_len_unique, lemma_ceil_div_bounds};

/// The derived bucket geometry is consistent: `bi` sub-buckets per band,
/// `lp` the bit length of `bi`, `lmax` the top of the linear region, `bo`
/// bands, `bt` slots in all, for values up to `mv`.
pub open spec fn wf_geom(bi: int, lp: int, lmax: int, bo: int, bt: int, mv: int) -> bool {
    &&& bi >= 1
    &&& lp == bit_len(bi as nat)
    &&& lmax == pow2(lp as nat) - 1
    &&& bo == if bit_len(mv as nat) > lp {
        bit_len(mv as nat) - lp
    } else {
        0int
    }
    &&& bt == lmax + bi * bo
    &&& mv >= 1
}

/// The exponent of the power-of-two band holding `v`: the unique `e` with
/// `2^e <= v < 2^(e+1)`.
pub open spec fn floor_log2(v: int) -> int {
    bit_len(v as nat) - 1
}

/// The slot index a value maps to.  In the linear region the mapping is
/// one-to-one; in the logarithmic region the position within the band is
/// interpolated linearly and rounded toward the lower band edge.
pub open spec fn spec_get_index(bi: int, lp: int, lmax: int, v: int) -> int {
    if v <= lmax {
        v - 1
    } else {
        let outer = floor_log2(v);
        let bb = pow2(outer as nat) as int;
        lmax + bi * (outer - lp) + bi * (v - bb) / bb
    }
}

/// The representative value of a slot: the algebraic inverse of
/// `spec_get_index`, rounding the interpolated offset up.
pub open spec fn spec_index_value(bi: int, lp: int, lmax: int, i: int) -> int {
    if i < lmax {
        i + 1
    } else {
        let li = i - lmax;
        let outer = li / bi;
        let inner = li % bi;
        let bb = pow2((outer + lp) as nat) as int;
        bb + ceil_div(inner * bb, bi)
    }
}

/// Elementary consequences of a consistent geometry.
pub proof fn lemma_geom_basics(bi: int, lp: int, lmax: int, bo: int, bt: int, mv: int)
    requires
        wf_geom(bi, lp, lmax, bo, bt, mv),
    ensures
        1 <= lp,
        pow2((lp - 1) as nat) <= bi < pow2(lp as nat),
        1 <= bi <= lmax,
        1 <= lmax <= bt,
        0 <= bo,
        bt == lmax + bi * bo,
{
    lemma_bit_len_bounds(bi as nat);
    lemma_pow2_pos((lp - 1) as nat);
    assert(pow2(lp as nat) >= 2) by {
        lemma_pow2_pos(lp as nat);
        if lp >= 1 {
            vstd::arithmetic::power2::lemma_pow2_unfold(lp as nat);
            lemma_pow2_pos((lp - 1) as nat);
        }
    }
    assert(bi * bo >= 0) by {
        vstd::arithmetic::mul::lemma_mul_nonnegative(bi, bo);
    }
}

/// In the linear region the mapping is exact in both directions:
/// `v` maps to slot `v - 1` and slot `v - 1` represents exactly `v`.
pub proof fn lemma_linear_region_exact(
    bi: int,
    lp: int,
    lmax: int,
    bo: int,
    bt: int,
    mv: int,
    v: int,
)
    requires
        wf_geom(bi, lp, lmax, bo, bt, mv),
        1 <= v <= lmax,
    ensures
        spec_get_index(bi, lp, lmax, v) == v - 1,
        spec_index_value(bi, lp, lmax, v - 1) == v,
{
}

/// Every in-range value maps to a valid slot, and values above the linear
/// region land in the logarithmic region's slots.
pub proof fn lemma_get_index_in_range(
    bi: int,
    lp: int,
    lmax: int,
    bo: int,
    bt: int,
    mv: int,
    v: int,
)
    requires
        wf_geom(bi, lp, lmax, bo, bt, mv),
        1 <= v <= mv,
    ensures
        0 <= spec_get_index(bi, lp, lmax, v) < bt,
        v > lmax ==> lp <= floor_log2(v) < lp + bo,
        v > lmax ==> spec_get_index(bi, lp, lmax, v) >= lmax,
{
    lemma_geom_basics(bi, lp, lmax, bo, bt, mv);
    if v <= lmax {
    } else {
        let outer = floor_log2(v);
        let bb = pow2(outer as nat) as int;
        lemma_bit_len_bounds(v as nat);
        assert(lp <= outer) by {
            // v > lmax means v >= 2^lp, so v has more than lp binary digits.
            lemma_bit_len_le(v as nat, lp as nat);
        }
        assert(outer < lp + bo) by {
            // v <= mv, so v has at most bit_len(mv) binary digits.
            lemma_bit_len_bounds(mv as nat);
            lemma_bit_len_le(v as nat, bit_len(mv as nat));
            assert(bit_len(v as nat) <= bit_len(mv as nat));
        }
        assert(pow2(outer as nat) <= v < pow2((outer + 1) as nat));
        assert(pow2((outer + 1) as nat) == 2 * bb) by {
            vstd::arithmetic::power2::lemma_pow2_unfold((outer + 1) as nat);
        }
        let inner = bi * (v - bb) / bb;
        assert(0 <= inner) by {
            vstd::arithmetic::mul::lemma_mul_nonnegative(bi, v - bb);
            vstd::arithmetic::div_mod::lemma_div_pos_is_pos(bi * (v - bb), bb);
        }
        assert(inner < bi) by {
            assert(bi * (v - bb) < bb * bi) by (nonlinear_arith)
                requires
                    v - bb < bb,
                    bi >= 1,
            ;
            vstd::arithmetic::div_mod::lemma_multiply_divide_lt(bi * (v - bb), bb, bi);
        }
        assert(bi * (outer - lp) <= bi * (bo - 1)) by {
            vstd::arithmetic::mul::lemma_mul_inequality(outer - lp, bo - 1, bi);
            vstd::arithmetic::mul::lemma_mul_is_commutative(outer - lp, bi);
            vstd::arithmetic::mul::lemma_mul_is_commutative(bo - 1, bi);
        }
        assert(bi * (bo - 1) == bi * bo - bi) by (nonlinear_arith);
        assert(bi * (outer - lp) >= 0) by {
            vstd::arithmetic::mul::lemma_mul_nonnegative(bi, outer - lp);
        }
    }
}

/// The representative value of a logarithmic slot lies inside that slot's
/// band, strictly above the linear region.
pub proof fn lemma_index_value_in_band(
    bi: int,
    lp: int,
    lmax: int,
    bo: int,
    bt: int,
    mv: int,
    i: int,
)
    requires
        wf_geom(bi, lp, lmax, bo, bt, mv),
        lmax <= i,
    ensures
        ({
            let outer = (i - lmax) / bi;
            let bb = pow2((outer + lp) as nat) as int;
            bb <= spec_index_value(bi, lp, lmax, i) < 2 * bb
        }),
        lmax < spec_index_value(bi, lp, lmax, i),
{
    lemma_geom_basics(bi, lp, lmax, bo, bt, mv);
    let li = i - lmax;
    let outer = li / bi;
    let inner = li % bi;
    let bb = pow2((outer + lp) as nat) as int;
    assert(0 <= outer) by {
        vstd::arithmetic::div_mod::lemma_div_pos_is_pos(li, bi);
    }
    assert(0 <= inner < bi) by {
        vstd::arithmetic::div_mod::lemma_mod_division_less_than_divisor(li, bi);
    }
    assert(bi < bb) by {
        if outer + lp > lp {
            lemma_pow2_strictly_increases(lp as nat, (outer + lp) as nat);
        }
    }
    let r = ceil_div(inner * bb, bi);
    assert(inner * bb >= 0) by {
        vstd::arithmetic::mul::lemma_mul_nonnegative(inner, bb);
    }
    lemma_ceil_div_bounds(inner * bb, bi);
    assert(r >= 0) by {
        assert(r * bi >= 0);
        if r < 0 {
            assert(r * bi <= -1 * bi) by {
                vstd::arithmetic::mul::lemma_mul_inequality(r, -1, bi);
                vstd::arithmetic::mul::lemma_mul_is_commutative(r, bi);
                vstd::arithmetic::mul::lemma_mul_is_commutative(-1, bi);
            }
        }
    }
    assert(r < bb) by {
        assert(r * bi <= inner * bb + bi - 1);
        assert(inner * bb <= (bi - 1) * bb) by {
            vstd::arithmetic::mul::lemma_mul_inequality(inner, bi - 1, bb);
            vstd::arithmetic::mul::lemma_mul_is_commutative(inner, bb);
            vstd::arithmetic::mul::lemma_mul_is_commutative(bi - 1, bb);
        }
        assert((bi - 1) * bb + bi - 1 < bb * bi) by (nonlinear_arith)
            requires
                1 <= bi < bb,
        ;
        assert(r * bi < bb * bi);
        assert(r < bb) by {
            if r >= bb {
                vstd::arithmetic::mul::lemma_mul_inequality(bb, r, bi);
                vstd::arithmetic::mul::lemma_mul_is_commutative(bb, bi);
                vstd::arithmetic::mul::lemma_mul_is_commutative(r, bi);
            }
        }
    }
    assert(pow2(lp as nat) <= bb) by {
        if outer + lp > lp {
            lemma_pow2_strictly_increases(lp as nat, (outer + lp) as nat);
        }
    }
}

/// Round trip from a slot: the representative value of any valid slot maps
/// back to exactly that slot, so re-recording a slot's representative
/// value (as `merge` does) lands its count in the same slot.
pub proof fn lemma_slot_roundtrip(
    bi: int,
    lp: int,
    lmax: int,
    bo: int,
    bt: int,
    mv: int,
    i: int,
)
    requires
        wf_geom(bi, lp, lmax, bo, bt, mv),
        0 <= i < bt,
    ensures
        spec_index_value(bi, lp, lmax, i) >= 1,
        spec_get_index(bi, lp, lmax, spec_index_value(bi, lp, lmax, i)) == i,
{
    lemma_geom_basics(bi, lp, lmax, bo, bt, mv);
    if i < lmax {
    } else {
        let li = i - lmax;
        let outer = li / bi;
        let inner = li % bi;
        let bb = pow2((outer + lp) as nat) as int;
        let rep = spec_index_value(bi, lp, lmax, i);
        let r = ceil_div(inner * bb, bi);
        lemma_index_value_in_band(bi, lp, lmax, bo, bt, mv, i);
        assert(0 <= outer) by {
            vstd::arithmetic::div_mod::lemma_div_pos_is_pos(li, bi);
        }
        assert(0 <= inner < bi) by {
            vstd::arithmetic::div_mod::lemma_mod_division_less_than_divisor(li, bi);
        }
        assert(bi < bb) by {
            if outer + lp > lp {
                lemma_pow2_strictly_increases(lp as nat, (outer + lp) as nat);
            }
        }
        // rep sits in the band [2^(outer+lp), 2^(outer+lp+1)), so the
        // forward mapping recovers the band exponent outer + lp.
        assert(pow2((outer + lp + 1) as nat) == 2 * bb) by {
            vstd::arithmetic::power2::lemma_pow2_unfold((outer + lp + 1) as nat);
        }
        lemma_bit_len_unique(rep as nat, (outer + lp) as nat);
        assert(floor_log2(rep) == outer + lp);
        // The forward mapping recovers the sub-bucket: bi * r / bb == inner.
        assert(inner * bb >= 0) by {
            vstd::arithmetic::mul::lemma_mul_nonnegative(inner, bb);
        }
        lemma_ceil_div_bounds(inner * bb, bi);
        assert(bi * r == r * bi) by {
            vstd::arithmetic::mul::lemma_mul_is_commutative(bi, r);
        }
        assert(bi * r >= inner * bb);
        assert(bi * r <= inner * bb + bi - 1);
        assert(inner * bb == bb * inner) by {
            vstd::arithmetic::mul::lemma_mul_is_commutative(inner, bb);
        }
        assert(bi * r / bb == inner) by {
            vstd::arithmetic::div_mod::lemma_fundamental_div_mod_converse_div(
                bi * r,
                bb,
                inner,
                bi * r - bb * inner,
            );
        }
        // Reassemble the slot index.
        assert(li == bi * outer + inner) by {
            vstd::arithmetic::div_mod::lemma_fundamental_div_mod(li, bi);
        }
        assert(spec_get_index(bi, lp, lmax, rep) == lmax + bi * (outer + lp - lp) + bi * (rep - bb)
            / bb);
        assert(rep - bb == r);
    }
}

/// Bounded relative error in the logarithmic region: the representative
/// value of `v`'s slot lies in `v`'s own power-of-two band, never above
/// `v`, and within one part in `buckets_inner` of it.
pub proof fn lemma_log_region_relative_error(
    bi: int,
    lp: int,
    lmax: int,
    bo: int,
    bt: int,
    mv: int,
    v: int,
)
    requires
        wf_geom(bi, lp, lmax, bo, bt, mv),
        lmax < v <= mv,
    ensures
        ({
            let rep = spec_index_value(bi, lp, lmax, spec_get_index(bi, lp, lmax, v));
            let bb = pow2(floor_log2(v) as nat) as int;
            &&& bb <= rep <= v < 2 * bb
            &&& bb <= v
            &&& (v - rep) * bi < bb
            &&& (v - rep) * bi <= v
        }),
{
    lemma_geom_basics(bi, lp, lmax, bo, bt, mv);
    lemma_get_index_in_range(bi, lp, lmax, bo, bt, mv, v);
    let outer = floor_log2(v);
    let bb = pow2(outer as nat) as int;
    lemma_bit_len_bounds(v as nat);
    assert(pow2((outer + 1) as nat) == 2 * bb) by {
        vstd::arithmetic::power2::lemma_pow2_unfold((outer + 1) as nat);
    }
    assert(bi < pow2(lp as nat) <= bb) by {
        lemma_bit_len_bounds(bi as nat);
        if lp < outer {
            lemma_pow2_strictly_increases(lp as nat, outer as nat);
        }
    }
    let inner = bi * (v - bb) / bb;
    let g = spec_get_index(bi, lp, lmax, v);
    assert(g == lmax + bi * (outer - lp) + inner);
    assert(0 <= inner < bi) by {
        vstd::arithmetic::mul::lemma_mul_nonnegative(bi, v - bb);
        vstd::arithmetic::div_mod::lemma_div_pos_is_pos(bi * (v - bb), bb);
        assert(bi * (v - bb) < bb * bi) by (nonlinear_arith)
            requires
                v - bb < bb,
                bi >= 1,
        ;
        vstd::arithmetic::div_mod::lemma_multiply_divide_lt(bi * (v - bb), bb, bi);
    }
    // The slot decomposes back into the same outer and inner.
    assert((g - lmax) / bi == outer - lp && (g - lmax) % bi == inner) by {
        assert(g - lmax == (outer - lp) * bi + inner) by {
            vstd::arithmetic::mul::lemma_mul_is_commutative(bi, outer - lp);
        }
        vstd::arithmetic::div_mod::lemma_fundamental_div_mod_converse_div(
            g - lmax,
            bi,
            outer - lp,
            inner,
        );
        vstd::arithmetic::div_mod::lemma_fundamental_div_mod_converse_mod(
            g - lmax,
            bi,
            outer - lp,
            inner,
        );
    }
    assert(pow2(((outer - lp) + lp) as nat) == pow2(outer as nat));
    let r = ceil_div(inner * bb, bi);
    let rep = spec_index_value(bi, lp, lmax, g);
    assert(g >= lmax);
    assert(rep == bb + r);
    assert(inner * bb >= 0) by {
        vstd::arithmetic::mul::lemma_mul_nonnegative(inner, bb);
    }
    lemma_ceil_div_bounds(inner * bb, bi);
    // inner = floor(bi * (v - bb) / bb), so inner * bb <= bi * (v - bb),
    // with remainder rm < bb.
    let rm = bi * (v - bb) - bb * inner;
    assert(0 <= rm < bb && bi * (v - bb) == bb * inner + rm) by {
        vstd::arithmetic::div_mod::lemma_fundamental_div_mod(bi * (v - bb), bb);
    }
    assert(inner * bb == bb * inner) by {
        vstd::arithmetic::mul::lemma_mul_is_commutative(inner, bb);
    }
    // rep <= v: bi * r <= inner * bb + bi - 1 <= bi * (v - bb) + bi - 1
    // < bi * (v - bb + 1), so r < v - bb + 1.
    assert(r * bi <= bi * (v - bb) + bi - 1);
    assert(bi * (v - bb + 1) == bi * (v - bb) + bi) by (nonlinear_arith);
    assert(r * bi < bi * (v - bb + 1));
    assert(r < v - bb + 1) by {
        if r >= v - bb + 1 {
            vstd::arithmetic::mul::lemma_mul_inequality(v - bb + 1, r, bi);
            vstd::arithmetic::mul::lemma_mul_is_commutative(v - bb + 1, bi);
            vstd::arithmetic::mul::lemma_mul_is_commutative(bi, v - bb + 1);
        }
    }
    assert(rep <= v);
    // (v - rep) * bi = bi * (v - bb) - bi * r <= bi * (v - bb) - inner * bb
    // = rm < bb <= v.
    assert(r * bi >= inner * bb);
    assert((v - rep) * bi == bi * (v - bb) - r * bi) by (nonlinear_arith)
        requires
            rep == bb + r,
    ;
    assert((v - rep) * bi <= rm);
}

} // verus!
