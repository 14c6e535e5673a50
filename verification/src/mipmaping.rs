//! The mip-chain arithmetic: the halving rule for level dimensions, the length
//! of the chain it produces, and the proofs that the chain terminates at 1x1.

use vstd::prelude::*;
use vstd::math::max;

verus! {

/// The halving rule: the next level of a dimension `d` is `max(1, d / 2)`.
pub open spec fn half_dim(d: int) -> int {
    max(1, d / 2)
}

/// The larger of the two dimensions of a level.
pub open spec fn max_dim(w: int, h: int) -> int {
    max(w, h)
}

/// Number of levels in the full mip chain of a `w x h` base image: the base
/// level, then one level per application of the halving rule until `1 x 1`.
pub open spec fn chain_len(w: int, h: int) -> int
    decreases w + h when 1 <= w && 1 <= h
{
    if w <= 1 && h <= 1 {
        1
    } else {
        1 + chain_len(half_dim(w), half_dim(h))
    }
}

/// Dimensions of level `i` of the chain rooted at a `w x h` base image.
pub open spec fn level_dims(w: int, h: int, i: int) -> (int, int)
    decreases i when 0 <= i && 1 <= w && 1 <= h
{
    if i <= 0 {
        (w, h)
    } else {
        level_dims(half_dim(w), half_dim(h), i - 1)
    }
}

/// `log2` of `n`, rounded down.
pub open spec fn log2_floor(n: int) -> int
    decreases n when 1 <= n
{
    if n <= 1 {
        0
    } else {
        1 + log2_floor(n / 2)
    }
}

/// `log2` of `n`, rounded up.
pub open spec fn log2_ceil(n: int) -> int
    decreases n when 1 <= n
{
    if n <= 1 {
        0
    } else {
        1 + log2_ceil((n + 1) / 2)
    }
}

/// Whether `n` is a power of two.
pub open spec fn is_pow2(n: int) -> bool
    decreases n when 1 <= n
{
    if n <= 1 {
        n == 1
    } else {
        n % 2 == 0 && is_pow2(n / 2)
    }
}

/// The two halved dimensions have the halved maximum: halving and taking the
/// larger dimension commute.
proof fn lemma_half_max(w: int, h: int)
    requires
        1 <= w,
        1 <= h,
    ensures
        max_dim(half_dim(w), half_dim(h)) == half_dim(max_dim(w, h)),
{
    if w <= h {
        assert(w / 2 <= h / 2) by (nonlinear_arith)
            requires w <= h;
    } else {
        assert(h / 2 <= w / 2) by (nonlinear_arith)
            requires h <= w;
    }
}

/// The chain of a `w x h` base image has exactly `log2_floor(max(w, h)) + 1`
/// levels.
pub proof fn lemma_chain_len_log2(w: int, h: int)
    requires
        1 <= w,
        1 <= h,
    ensures
        chain_len(w, h) == log2_floor(max_dim(w, h)) + 1,
    decreases w + h,
{
    if w <= 1 && h <= 1 {
    } else {
        lemma_half_max(w, h);
        lemma_chain_len_log2(half_dim(w), half_dim(h));
        assert(max_dim(w, h) / 2 >= 1) by (nonlinear_arith)
            requires max_dim(w, h) >= 2;
    }
}

/// On a power of two the two roundings of `log2` agree.
proof fn lemma_log2_ceil_of_pow2(n: int)
    requires
        1 <= n,
        is_pow2(n),
    ensures
        log2_ceil(n) == log2_floor(n),
    decreases n,
{
    if n > 1 {
        assert((n + 1) / 2 == n / 2) by (nonlinear_arith)
            requires n % 2 == 0 && n >= 2;
        lemma_log2_ceil_of_pow2(n / 2);
    }
}

/// Mip-chain length, stated with the rounded-up logarithm: when the larger
/// base dimension is a power of two, repeated halving yields exactly
/// `log2_ceil(max(w, h)) + 1` levels. (With a non-power-of-two larger
/// dimension, such as a `6 x 6` base, the count is `log2_floor(max(w, h)) + 1`
/// instead: see `lemma_chain_len_log2`.)
pub proof fn lemma_chain_len_log2_ceil(w: int, h: int)
    requires
        1 <= w,
        1 <= h,
        is_pow2(max_dim(w, h)),
    ensures
        chain_len(w, h) == log2_ceil(max_dim(w, h)) + 1,
{
    lemma_chain_len_log2(w, h);
    lemma_log2_ceil_of_pow2(max_dim(w, h));
}

/// `log2_floor` never goes negative.
proof fn lemma_log2_floor_nonneg(n: int)
    requires
        1 <= n,
    ensures
        0 <= log2_floor(n),
    decreases n,
{
    if n > 1 {
        assert(1 <= n / 2) by (nonlinear_arith)
            requires 2 <= n;
        lemma_log2_floor_nonneg(n / 2);
    }
}

/// `log2_floor` grows with its argument.
proof fn lemma_log2_floor_is_ordered(a: int, b: int)
    requires
        1 <= a <= b,
    ensures
        log2_floor(a) <= log2_floor(b),
    decreases b,
{
    if a <= 1 {
        lemma_log2_floor_nonneg(b);
    } else {
        assert(a / 2 <= b / 2) by (nonlinear_arith)
            requires a <= b;
        assert(1 <= a / 2) by (nonlinear_arith)
            requires 2 <= a;
        lemma_log2_floor_is_ordered(a / 2, b / 2);
    }
}

/// Doubling adds one to `log2_floor`.
proof fn lemma_log2_floor_double(n: int)
    requires
        1 <= n,
    ensures
        log2_floor(2 * n) == 1 + log2_floor(n),
{
    assert((2 * n) / 2 == n) by (nonlinear_arith);
    assert(2 * n >= 2);
}

/// `log2_floor(2^k) == k`, shown for the powers used to bound a `u32`
/// dimension.
proof fn lemma_log2_floor_pow(k: nat)
    requires
        k <= 32,
    ensures
        log2_floor(vstd::arithmetic::power2::pow2(k) as int) == k,
    decreases k,
{
    if k == 0 {
        vstd::arithmetic::power2::lemma2_to64();
    } else {
        vstd::arithmetic::power2::lemma_pow2_unfold(k);
        lemma_log2_floor_pow((k - 1) as nat);
        vstd::arithmetic::power2::lemma_pow2_pos((k - 1) as nat);
        lemma_log2_floor_double(vstd::arithmetic::power2::pow2((k - 1) as nat) as int);
    }
}

/// Every chain has at least its base level.
proof fn lemma_chain_len_pos(w: int, h: int)
    requires
        1 <= w,
        1 <= h,
    ensures
        1 <= chain_len(w, h),
    decreases w + h,
{
    if !(w <= 1 && h <= 1) {
        lemma_chain_len_pos(half_dim(w), half_dim(h));
    }
}

/// A chain rooted at dimensions that fit in a `u32` has at most 33 levels.
pub proof fn lemma_chain_len_bound(w: int, h: int)
    requires
        1 <= w <= u32::MAX,
        1 <= h <= u32::MAX,
    ensures
        1 <= chain_len(w, h) <= 33,
{
    lemma_chain_len_log2(w, h);
    vstd::arithmetic::power2::lemma2_to64();
    lemma_log2_floor_pow(32);
    lemma_log2_floor_is_ordered(1, max_dim(w, h));
    lemma_log2_floor_is_ordered(max_dim(w, h), pow2_32_int());
}

/// `2^32` as an integer, named so the bound lemma can speak of it.
pub open spec fn pow2_32_int() -> int {
    0x1_0000_0000
}

/// `chain_len` of the halved dimensions is one less than at the base, as long
/// as the base is not already `1 x 1`.
pub proof fn lemma_chain_len_step(w: int, h: int)
    requires
        1 <= w,
        1 <= h,
        !(w == 1 && h == 1),
    ensures
        chain_len(half_dim(w), half_dim(h)) == chain_len(w, h) - 1,
{
}

/// The chain visits exactly one `1 x 1` level: the last one. Every earlier
/// level is strictly larger, and each level's dimensions follow from the
/// previous by the halving rule.
pub proof fn lemma_chain_reaches_one(w: int, h: int, i: int)
    requires
        1 <= w,
        1 <= h,
        0 <= i < chain_len(w, h),
    ensures
        1 <= level_dims(w, h, i).0,
        1 <= level_dims(w, h, i).1,
        i == chain_len(w, h) - 1 <==> level_dims(w, h, i) == (1int, 1int),
        i < chain_len(w, h) - 1 ==> level_dims(w, h, i + 1) == (
            half_dim(level_dims(w, h, i).0),
            half_dim(level_dims(w, h, i).1),
        ),
    decreases i,
{
    if i == 0 {
        if !(w == 1 && h == 1) {
            lemma_chain_len_pos(half_dim(w), half_dim(h));
            assert(level_dims(w, h, 1) == level_dims(half_dim(w), half_dim(h), 0));
        }
    } else {
        lemma_chain_len_step(w, h);
        lemma_chain_reaches_one(half_dim(w), half_dim(h), i - 1);
        assert(level_dims(w, h, i) == level_dims(half_dim(w), half_dim(h), i - 1));
        if i < chain_len(w, h) - 1 {
            assert(level_dims(w, h, i + 1) == level_dims(half_dim(w), half_dim(h), i));
        }
    }
}

} // verus!
