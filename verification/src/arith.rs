//! Small arithmetic helpers shared by the bucket geometry and the counters:
//! bit lengths, powers, ceiling division and saturating addition.

use vstd::prelude::*;

verus! {

use vstd::arithmetic::power::{pow, lemma_pow_increases};
use vstd::arithmetic::power2::{pow2, lemma_pow2_pos, lemma_pow2_strictly_increases};

/// Number of binary digits of `n`: the unique `k` with `2^(k-1) <= n < 2^k`
/// (and `0` for `n == 0`).
pub open spec fn bit_len(n: nat) -> nat
    decreases n,
{
    if n == 0 {
        0
    } else {
        (1 + bit_len(n / 2)) as nat
    }
}

/// `bit_len` pins each positive `n` between two adjacent powers of two.
pub proof fn lemma_bit_len_bounds(n: nat)
    requires
        n >= 1,
    ensures
        bit_len(n) >= 1,
        pow2((bit_len(n) - 1) as nat) <= n < pow2(bit_len(n)),
    decreases n,
{
    if n == 1 {
        assert(bit_len(1) == 1) by {
            reveal_with_fuel(bit_len, 2);
        }
        assert(pow2(0) == 1 && pow2(1) == 2) by {
            vstd::arithmetic::power2::lemma2_to64();
        }
    } else {
        lemma_bit_len_bounds(n / 2);
        let l = bit_len(n / 2);
        assert(bit_len(n) == l + 1);
        assert(pow2(l) == 2 * pow2((l - 1) as nat)) by {
            vstd::arithmetic::power2::lemma_pow2_unfold(l);
        }
        assert(pow2((l + 1) as nat) == 2 * pow2(l)) by {
            vstd::arithmetic::power2::lemma_pow2_unfold((l + 1) as nat);
        }
        assert(n >= 2 * (n / 2));
        assert(n < 2 * (n / 2) + 2);
    }
}

/// `n < 2^k` exactly when `n` has at most `k` binary digits.
pub proof fn lemma_bit_len_le(n: nat, k: nat)
    ensures
        n < pow2(k) <==> bit_len(n) <= k,
{
    lemma_pow2_pos(k);
    if n == 0 {
    } else {
        lemma_bit_len_bounds(n);
        if bit_len(n) <= k {
            if bit_len(n) < k {
                lemma_pow2_strictly_increases(bit_len(n), k);
            }
        }
        if n < pow2(k) {
            if bit_len(n) > k {
                if k < bit_len(n) - 1 {
                    lemma_pow2_strictly_increases(k, (bit_len(n) - 1) as nat);
                }
                assert(pow2(k) <= pow2((bit_len(n) - 1) as nat));
            }
        }
    }
}

/// A positive `n` between `2^k` and `2^(k+1)` has exactly `k + 1` binary digits.
pub proof fn lemma_bit_len_unique(n: nat, k: nat)
    requires
        pow2(k) <= n < pow2(k + 1),
    ensures
        bit_len(n) == k + 1,
{
    lemma_bit_len_le(n, k + 1);
    lemma_bit_len_le(n, k);
    lemma_pow2_pos(k);
}

/// Ceiling division for a positive divisor.
pub open spec fn ceil_div(a: int, b: int) -> int {
    (a + b - 1) / b
}

/// The two defining bounds of `ceil_div`: it is the least integer quotient
/// whose product with the divisor reaches `a`.
pub proof fn lemma_ceil_div_bounds(a: int, b: int)
    requires
        a >= 0,
        b >= 1,
    ensures
        ceil_div(a, b) * b >= a,
        ceil_div(a, b) * b <= a + b - 1,
        a % b == 0 ==> ceil_div(a, b) == a / b,
        a % b != 0 ==> ceil_div(a, b) == a / b + 1,
{
    let q = (a + b - 1) / b;
    vstd::arithmetic::div_mod::lemma_fundamental_div_mod(a + b - 1, b);
    vstd::arithmetic::div_mod::lemma_fundamental_div_mod(a, b);
    vstd::arithmetic::div_mod::lemma_mod_division_less_than_divisor(a + b - 1, b);
    vstd::arithmetic::div_mod::lemma_mod_division_less_than_divisor(a, b);
    if a % b == 0 {
        assert(a + b - 1 == b * (a / b) + (b - 1));
        vstd::arithmetic::div_mod::lemma_div_multiples_vanish_fancy(a / b, b - 1, b);
    } else {
        let r = a % b;
        assert(a + b - 1 == (a / b + 1) * b + (r - 1)) by (nonlinear_arith)
            requires
                a == b * (a / b) + r,
        ;
        vstd::arithmetic::div_mod::lemma_fundamental_div_mod_converse(
            a + b - 1,
            b,
            a / b + 1,
            r - 1,
        );
    }
    assert(q * b >= a && q * b <= a + b - 1) by (nonlinear_arith)
        requires
            b >= 1,
            a % b == 0 ==> q == a / b,
            a % b != 0 ==> q == a / b + 1,
            a == b * (a / b) + a % b,
            0 <= a % b < b,
    ;
}

/// Addition on `u64` clamped at the largest representable value.
pub open spec fn sat_add_u64(a: int, b: int) -> u64 {
    if a + b > u64::MAX {
        u64::MAX
    } else {
        (a + b) as u64
    }
}

/// Saturating addition loses nothing when folded over a sum: adding counts
/// one at a time, clamping after each step, gives the same result as
/// clamping the exact total once.
pub proof fn lemma_sat_add_u64_chain(a: int, b: int, c: int)
    requires
        0 <= a,
        0 <= b,
        0 <= c,
    ensures
        sat_add_u64(sat_add_u64(a, b) as int, c) == sat_add_u64(a, b + c),
{
}

/// `2^e` as an exec value.
pub fn pow2_u64(e: u32) -> (r: u64)
    requires
        e <= 63,
    ensures
        r == pow2(e as nat),
{
    let mut r: u64 = 1;
    let mut i: u32 = 0;
    proof {
        vstd::arithmetic::power2::lemma2_to64();
        vstd::arithmetic::power2::lemma2_to64_rest();
    }
    while i < e
        invariant
            i <= e <= 63,
            r == pow2(i as nat),
            pow2(63) == 0x8000000000000000,
        decreases e - i,
    {
        proof {
            if i + 1 < 63 {
                lemma_pow2_strictly_increases((i + 1) as nat, 63);
            }
            vstd::arithmetic::power2::lemma_pow2_unfold((i + 1) as nat);
        }
        r = r * 2;
        i = i + 1;
    }
    r
}

/// `10^e` as an exec value; `e <= 9` keeps the result within `u32`.
pub fn pow10_u32(e: u32) -> (r: u32)
    requires
        e <= 9,
    ensures
        r == pow(10, e as nat),
        r >= 1,
{
    proof {
        reveal_with_fuel(pow, 10);
        assert(pow(10, 9) == 1000000000);
    }
    let mut r: u32 = 1;
    let mut i: u32 = 0;
    while i < e
        invariant
            i <= e <= 9,
            r == pow(10, i as nat),
            pow(10, 9) == 1000000000,
        decreases e - i,
    {
        proof {
            lemma_pow_increases(10, (i + 1) as nat, 9);
            reveal_with_fuel(pow, 2);
            assert(pow(10, (i + 1) as nat) == 10 * pow(10, i as nat));
        }
        r = r * 10;
        i = i + 1;
    }
    r
}

/// Number of binary digits of `v` as an exec value.
pub fn bit_len_u64(v: u64) -> (r: u32)
    ensures
        r == bit_len(v as nat),
        r <= 64,
{
    proof {
        assert(v < pow2(64)) by {
            vstd::arithmetic::power2::lemma2_to64_rest();
        }
        lemma_bit_len_le(v as nat, 64);
    }
    let mut x: u64 = v;
    let mut r: u32 = 0;
    while x > 0
        invariant
            r + bit_len(x as nat) == bit_len(v as nat),
            bit_len(v as nat) <= 64,
        decreases x,
    {
        x = x / 2;
        r = r + 1;
    }
    r
}

} // verus!
