//! Square roots: the capability, the whole square root of a whole number, and the root of a
//! whole number as double-precision arithmetic computes it.

use vstd::prelude::*;
use vstd::arithmetic::power2::lemma2_to64;
use vstd::arithmetic::power2::lemma_pow2_adds;
use vstd::arithmetic::power2::lemma_pow2_pos;
use vstd::arithmetic::power2::lemma_pow2_strictly_increases;
use vstd::arithmetic::power2::lemma_pow2_unfold;
use vstd::arithmetic::power2::pow2;
use crate::primitive::Primitive;
use crate::primitive::MANTISSA_LIMIT;

verus! {

/// A square root within one numeric representation.
pub trait Sqrt: Sized {
    /// What `sqrt` returns.
    spec fn sqrt_spec(&self) -> Self;

    fn sqrt(&self) -> (r: Self)
        ensures
            r == self.sqrt_spec(),
    ;
}

/// `r` is the largest whole number whose square does not exceed `n`.
pub open spec fn is_whole_sqrt(n: int, r: int) -> bool {
    0 <= r && r * r <= n < (r + 1) * (r + 1)
}

/// The square root of a whole number, cut to a whole number; zero below zero, where there
/// is none.
pub open spec fn whole_sqrt(n: int) -> int {
    if n < 0 {
        0
    } else {
        choose|r: int| is_whole_sqrt(n, r)
    }
}

/// Only one number is the whole square root of `n`.
pub proof fn lemma_whole_sqrt_unique(n: int, r: int)
    requires
        is_whole_sqrt(n, r),
    ensures
        whole_sqrt(n) == r,
{
    let c = choose|c: int| is_whole_sqrt(n, c);
    assert(is_whole_sqrt(n, c));
    if c < r {
        assert((c + 1) * (c + 1) <= r * r) by (nonlinear_arith)
            requires
                0 <= c,
                c + 1 <= r,
        ;
    } else if r < c {
        assert((r + 1) * (r + 1) <= c * c) by (nonlinear_arith)
            requires
                0 <= r,
                r + 1 <= c,
        ;
    }
}

/// The first number that `integer_sqrt` does not take: two to the power 108.
pub const ROOT_LIMIT: u128 = 0x1000_0000_0000_0000_0000_0000_0000;

/// The whole square root of a number below `2^108`.
pub fn integer_sqrt(n: u128) -> (r: u128)
    requires
        n < ROOT_LIMIT,
    ensures
        r == whole_sqrt(n as int),
        is_whole_sqrt(n as int, r as int),
        r < 0x40_0000_0000_0000,
{
    let mut lo: u128 = 0;
    let mut hi: u128 = 0x40_0000_0000_0000;
    assert(0x40_0000_0000_0000u128 * 0x40_0000_0000_0000u128 == ROOT_LIMIT) by (nonlinear_arith);
    while hi - lo > 1
        invariant
            lo < hi <= 0x40_0000_0000_0000,
            lo * lo <= n < hi * hi,
        decreases hi - lo,
    {
        let mid = lo + (hi - lo) / 2;
        assert(mid * mid <= 0x40_0000_0000_0000 * 0x40_0000_0000_0000) by (nonlinear_arith)
            requires
                mid <= 0x40_0000_0000_0000,
        ;
        if mid * mid <= n {
            lo = mid;
        } else {
            hi = mid;
        }
    }
    proof {
        lemma_whole_sqrt_unique(n as int, lo as int);
    }
    lo
}

/// How many binary digits a whole number has.
pub open spec fn bit_length(n: nat) -> nat
    decreases n,
{
    if n == 0 {
        0
    } else {
        1 + bit_length(n / 2)
    }
}

/// The whole part of the double nearest to the square root of `mantissa * 2^exponent`.
///
/// The root lies between `2^p` and `2^(p + 1)`, where `p` is half the number of binary digits
/// of the value less one. The doubles there are the multiples of `2^(p - 52)`, so the whole
/// part of the root of the value times `4^(53 - p)` counts the half steps below the root, and
/// half of that count, rounded up, is the mantissa of the nearest double.
pub open spec fn double_root(mantissa: u64, exponent: i16) -> nat {
    let p = (bit_length(mantissa as nat) + exponent - 1) / 2;
    let half_steps = whole_sqrt(mantissa * pow2((exponent + 106 - 2 * p) as nat));
    Primitive::whole_magnitude(((half_steps + 1) / 2) as u64, (p - 52) as i16)
}

/// The square root of a whole number as a double computes it, cut to a whole number: the
/// number goes to the nearest double, the root of that to the nearest double again. Zero
/// below zero, where there is no root.
pub open spec fn double_sqrt(n: int) -> nat {
    match Primitive::of_int(n) {
        Primitive::Finite { negative, mantissa, exponent } => if negative || mantissa == 0 {
            0
        } else {
            double_root(mantissa, exponent)
        },
        _ => 0,
    }
}

/// The whole part of the double nearest to the square root of a double that holds a whole
/// number, or the largest 128-bit number where that is smaller.
pub fn double_sqrt_of(value: Primitive) -> (r: u128)
    requires
        value.is_double(),
        value matches Primitive::Finite { exponent, .. } && 0 <= exponent <= 76,
    ensures
        value matches Primitive::Finite { negative, mantissa, exponent } && r == if negative
            || mantissa == 0 {
            0
        } else if double_root(mantissa, exponent) > u128::MAX {
            u128::MAX as nat
        } else {
            double_root(mantissa, exponent)
        },
{
    match value {
        Primitive::Finite { negative, mantissa, exponent } => {
            if negative || mantissa == 0 {
                return 0;
            }
            let digits = digits_of(mantissa);
            let p: i16 = (digits + exponent - 1) / 2;
            let shift: i16 = exponent + 106 - 2 * p;
            proof {
                lemma_below_its_digits(mantissa as nat);
                lemma_scaled_fits(mantissa as nat, digits as nat, shift as nat);
            }
            let scaled = Primitive::whole_saturating(mantissa, shift);
            let half_steps = integer_sqrt(scaled);
            Primitive::whole_saturating(((half_steps + 1) / 2) as u64, p - 52)
        },
        _ => 0,
    }
}

/// How many binary digits a number has.
fn digits_of(n: u64) -> (r: i16)
    ensures
        r == bit_length(n as nat),
        0 <= r <= 64,
{
    let mut v = n;
    let mut count: i16 = 0;
    proof {
        lemma2_to64();
        assert(v * pow2(0) == v) by (nonlinear_arith)
            requires
                pow2(0) == 1,
        ;
    }
    while v > 0
        invariant
            0 <= count <= 64,
            bit_length(n as nat) == count + bit_length(v as nat),
            v * pow2(count as nat) <= n,
        decreases v,
    {
        proof {
            lemma2_to64();
            lemma_pow2_pos(count as nat);
            if count >= 64 {
                if count > 64 {
                    lemma_pow2_strictly_increases(64, count as nat);
                }
                assert(v * pow2(count as nat) >= pow2(count as nat)) by (nonlinear_arith)
                    requires
                        v >= 1,
                        0 < pow2(count as nat),
                ;
                assert(false);
            }
            lemma_pow2_unfold((count + 1) as nat);
            let half = (v / 2) as int;
            let power = pow2(count as nat) as int;
            assert(half * (2 * power) <= v * power) by (nonlinear_arith)
                requires
                    0 <= 2 * half <= v,
                    0 < power,
            ;
        }
        v = v / 2;
        count = count + 1;
    }
    count
}

/// A number is below two to the power of the number of its binary digits.
pub proof fn lemma_below_its_digits(n: nat)
    ensures
        n < pow2(bit_length(n)),
    decreases n,
{
    lemma2_to64();
    if n > 0 {
        lemma_below_its_digits(n / 2);
        lemma_pow2_unfold(bit_length(n));
    }
}

/// A mantissa moved up to at most 108 binary digits stays below `2^108`.
proof fn lemma_scaled_fits(mantissa: nat, digits: nat, shift: nat)
    requires
        mantissa < pow2(digits),
        digits + shift <= 108,
    ensures
        mantissa * pow2(shift) < ROOT_LIMIT,
{
    lemma_pow2_adds(digits, shift);
    lemma_pow2_pos(shift);
    assert(mantissa * pow2(shift) < pow2(digits) * pow2(shift)) by (nonlinear_arith)
        requires
            mantissa < pow2(digits),
            0 < pow2(shift),
    ;
    lemma2_to64();
    lemma_pow2_adds(64, 32);
    lemma_pow2_adds(96, 12);
    assert(pow2(108) == ROOT_LIMIT);
    if digits + shift < 108 {
        lemma_pow2_strictly_increases(digits + shift, 108);
    }
}


/// Every whole number from zero on has a whole square root.
pub proof fn lemma_whole_sqrt_exists(n: int)
    requires
        0 <= n,
    ensures
        is_whole_sqrt(n, whole_sqrt(n)),
    decreases n,
{
    if n == 0 {
        assert(is_whole_sqrt(0, 0)) by (nonlinear_arith);
    } else {
        lemma_whole_sqrt_exists(n - 1);
        let r = whole_sqrt(n - 1);
        if (r + 1) * (r + 1) <= n {
            assert(n < (r + 2) * (r + 2)) by (nonlinear_arith)
                requires
                    n - 1 < (r + 1) * (r + 1),
                    0 <= r,
            ;
            assert(is_whole_sqrt(n, r + 1));
        } else {
            assert(is_whole_sqrt(n, r));
        }
    }
}

/// A whole square root is below `b` exactly where the number is below the square of `b`.
pub proof fn lemma_whole_sqrt_below(n: int, b: int)
    requires
        0 <= n,
        0 <= b,
    ensures
        whole_sqrt(n) < b <==> n < b * b,
{
    lemma_whole_sqrt_exists(n);
    let r = whole_sqrt(n);
    if r < b {
        assert((r + 1) * (r + 1) <= b * b) by (nonlinear_arith)
            requires
                0 <= r,
                r + 1 <= b,
        ;
    } else {
        assert(b * b <= r * r) by (nonlinear_arith)
            requires
                0 <= b <= r,
        ;
    }
}

/// Below `2^52` the root that a double computes, cut to a whole number, is the whole square
/// root: the nearest double to the root never reaches the next whole number.
pub proof fn lemma_double_sqrt_small(n: int)
    requires
        0 <= n < MANTISSA_LIMIT / 2,
    ensures
        double_sqrt(n) == whole_sqrt(n),
{
    crate::primitive::lemma_of_small_int(n);
    if n == 0 {
        assert(is_whole_sqrt(0, 0)) by (nonlinear_arith);
        lemma_whole_sqrt_unique(0, 0);
    } else {
        lemma2_to64();
        lemma_pow2_adds(32, 20);
        let digits = bit_length(n as nat);
        lemma_below_its_digits(n as nat);
        lemma_digits_of_small(n as nat, 52);
        let p = (digits - 1) / 2;
        let s = (52 - p) as nat;
        let unit = pow2(s) as int;
        let half = 2 * unit;
        lemma_pow2_unfold(s + 1);
        lemma_pow2_adds(s + 1, s + 1);
        lemma_pow2_pos(s);
        assert(pow2((106 - 2 * p) as nat) == half * half);
        let scaled = n * (half * half);
        let k = whole_sqrt(n);
        lemma_whole_sqrt_exists(n);
        // The root is below `2^(p + 1)`, which is at most `2^(52 - p)`.
        lemma_pow2_adds((p + 1) as nat, (p + 1) as nat);
        if 2 * p + 2 > digits {
            lemma_pow2_strictly_increases(digits, (2 * p + 2) as nat);
        }
        let top = pow2((p + 1) as nat) as int;
        lemma_whole_sqrt_below(n, top);
        assert(k + 1 <= top);
        if p + 1 < s {
            lemma_pow2_strictly_increases((p + 1) as nat, s);
        }
        assert(k + 1 <= unit);
        // The count of half steps lies between `k * half` and `(k + 1) * half - 2`.
        assert(0 <= scaled) by (nonlinear_arith)
            requires
                scaled == n * (half * half),
                0 <= n,
        ;
        lemma_whole_sqrt_exists(scaled);
        let t = whole_sqrt(scaled);
        assert((k * half) * (k * half) <= scaled) by (nonlinear_arith)
            requires
                k * k <= n,
                scaled == n * (half * half),
                0 <= k,
                0 < half,
        ;
        lemma_whole_sqrt_below(scaled, k * half);
        assert(k * half <= t);
        let bound = (k + 1) * half - 1;
        assert(scaled < bound * bound) by (nonlinear_arith)
            requires
                n < (k + 1) * (k + 1),
                scaled == n * (half * half),
                bound == (k + 1) * half - 1,
                half == 2 * unit,
                k + 1 <= unit,
                0 <= k,
        {
            assert(scaled <= ((k + 1) * (k + 1) - 1) * (half * half));
            assert(bound * bound == (k + 1) * (k + 1) * (half * half) - 2 * (k + 1) * half + 1);
            assert(half * half >= 2 * (k + 1) * half) by {
                assert(half >= 2 * (k + 1));
            }
        }
        assert(0 <= bound) by (nonlinear_arith)
            requires
                bound == (k + 1) * half - 1,
                0 <= k,
                1 <= half,
        ;
        lemma_whole_sqrt_below(scaled, bound);
        assert(t < bound);
        // Half of that count, rounded up, cut by `2^(52 - p)`, is `k`.
        let m = (t + 1) / 2;
        assert(k * unit <= m < (k + 1) * unit) by (nonlinear_arith)
            requires
                k * half <= t < (k + 1) * half - 1,
                half == 2 * unit,
                m == (t + 1) / 2,
        ;
        assert(m / unit == k) by (nonlinear_arith)
            requires
                k * unit <= m < (k + 1) * unit,
                0 < unit,
        ;
        lemma_pow2_adds((p + 1) as nat, s);
        lemma_pow2_adds(32, 21);
        assert(top * unit == MANTISSA_LIMIT);
        assert(m < MANTISSA_LIMIT) by (nonlinear_arith)
            requires
                m < (k + 1) * unit,
                k + 1 <= top,
                top * unit == MANTISSA_LIMIT,
                0 < unit,
        ;
    }
}

/// A number below `2^d` has at most `d` binary digits.
proof fn lemma_digits_of_small(n: nat, d: nat)
    requires
        n < pow2(d),
    ensures
        bit_length(n) <= d,
    decreases d,
{
    lemma2_to64();
    if n > 0 {
        if d == 0 {
            assert(false);
        } else {
            lemma_pow2_unfold(d);
            lemma_digits_of_small(n / 2, (d - 1) as nat);
        }
    }
}

/// A whole square root is never above its number.
pub proof fn lemma_root_below(n: int, r: int)
    requires
        is_whole_sqrt(n, r),
    ensures
        r <= n,
{
    assert(r <= r * r) by (nonlinear_arith)
        requires
            0 <= r,
    ;
}

} // verus!
