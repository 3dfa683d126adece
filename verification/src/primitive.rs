//! The double-precision intermediate of every cast between numeric representations.
//!
//! A value of any representation is cast to another by way of a double: it is first taken to
//! the nearest double, and the double is then taken to the target. The double is held here by
//! its parts, a sign, a mantissa and a binary exponent, so that what a cast does to a whole
//! number is plain arithmetic: rounding to 53 binary digits on the way in, and cutting toward
//! zero within the range of the target on the way out.

use vstd::prelude::*;
use vstd::arithmetic::div_mod::lemma_div_denominator;
use vstd::arithmetic::power2::lemma2_to64;
use vstd::arithmetic::power2::lemma_pow2_adds;
use vstd::arithmetic::power2::lemma_pow2_pos;
use vstd::arithmetic::power2::lemma_pow2_strictly_increases;
use vstd::arithmetic::power2::lemma_pow2_unfold;
use vstd::arithmetic::power2::pow2;

verus! {

/// The first magnitude that a double-precision mantissa cannot hold: two to the power 53.
pub const MANTISSA_LIMIT: u64 = 0x20_0000_0000_0000;

/// The intermediate through which every cast between numeric representations passes: a
/// double-precision value, held as its sign, its mantissa and its binary exponent.
///
/// A finite value stands for `mantissa * 2^exponent`, negated where `negative` is set.
#[derive(Clone, Copy, Debug, PartialEq, Eq, Structural)]
pub enum Primitive {
    /// Not a number.
    Nan,
    /// An infinity of the given sign.
    Infinite { negative: bool },
    /// A finite value.
    Finite { negative: bool, mantissa: u64, exponent: i16 },
}

/// A conversion into the common intermediate.
pub trait ToPrimitive {
    /// What `to_primitive` returns.
    spec fn to_primitive_spec(&self) -> Primitive;

    fn to_primitive(&self) -> (p: Primitive)
        ensures
            p == self.to_primitive_spec(),
    ;
}

/// A conversion out of anything that converts into the common intermediate.
pub trait FromPrimitive<T: ToPrimitive>: Sized {
    /// What `from_primitive` returns.
    spec fn from_primitive_spec(v: T) -> Self;

    fn from_primitive(v: T) -> (r: Self)
        ensures
            r == Self::from_primitive_spec(v),
    ;
}

impl ToPrimitive for Primitive {
    open spec fn to_primitive_spec(&self) -> Primitive {
        *self
    }

    fn to_primitive(&self) -> (p: Primitive) {
        *self
    }
}

impl<T: ToPrimitive> FromPrimitive<T> for Primitive {
    open spec fn from_primitive_spec(v: T) -> Primitive {
        v.to_primitive_spec()
    }

    fn from_primitive(v: T) -> (r: Primitive) {
        v.to_primitive()
    }
}

/// How many low bits a magnitude loses when it is cut down to a double's mantissa.
pub open spec fn excess_bits(n: nat) -> nat
    decreases n,
{
    if n < MANTISSA_LIMIT {
        0
    } else {
        1 + excess_bits(n / 2)
    }
}

/// `n / 2^e`, rounded to the nearest whole number, a tie going to the even one.
pub open spec fn nearest_even(n: nat, e: nat) -> nat {
    let q = n / pow2(e);
    let r = n % pow2(e);
    if 2 * r > pow2(e) || (2 * r == pow2(e) && q % 2 == 1) {
        q + 1
    } else {
        q
    }
}

impl Primitive {
    /// The double nearest to the whole number of the given sign and magnitude.
    pub open spec fn of_magnitude(negative: bool, n: nat) -> Primitive {
        let e = excess_bits(n);
        let q = nearest_even(n, e);
        if q == MANTISSA_LIMIT {
            Primitive::Finite {
                negative,
                mantissa: (MANTISSA_LIMIT / 2) as u64,
                exponent: (e + 1) as i16,
            }
        } else {
            Primitive::Finite { negative, mantissa: q as u64, exponent: e as i16 }
        }
    }

    /// The double nearest to a whole number.
    pub open spec fn of_int(n: int) -> Primitive {
        if n < 0 {
            Self::of_magnitude(true, (-n) as nat)
        } else {
            Self::of_magnitude(false, n as nat)
        }
    }

    /// The whole part of `mantissa * 2^exponent`.
    pub open spec fn whole_magnitude(mantissa: u64, exponent: i16) -> nat {
        if exponent >= 0 {
            mantissa as nat * pow2(exponent as nat)
        } else {
            mantissa as nat / pow2((-exponent) as nat)
        }
    }

    /// The value cut toward zero and held within `lo ..= hi`; zero where it is not a number.
    pub open spec fn clamped(self, lo: int, hi: int) -> int {
        match self {
            Primitive::Nan => 0,
            Primitive::Infinite { negative } => if negative {
                lo
            } else {
                hi
            },
            Primitive::Finite { negative, mantissa, exponent } => {
                let whole = Self::whole_magnitude(mantissa, exponent) as int;
                if negative {
                    if -whole < lo {
                        lo
                    } else {
                        -whole
                    }
                } else {
                    if whole > hi {
                        hi
                    } else {
                        whole
                    }
                }
            },
        }
    }

    /// The value is one that a double holds: its mantissa has at most 53 bits, and its
    /// exponent lies between those of the smallest and the largest double.
    pub open spec fn is_double(self) -> bool {
        match self {
            Primitive::Finite { negative, mantissa, exponent } => mantissa < MANTISSA_LIMIT
                && -1074 <= exponent <= 971,
            _ => true,
        }
    }

    /// The double nearest to an unsigned whole number.
    pub fn from_unsigned(n: u128) -> (p: Primitive)
        ensures
            p == Self::of_int(n as int),
            p.is_double(),
    {
        Self::from_magnitude(false, n)
    }

    /// The double nearest to a signed whole number.
    pub fn from_signed(n: i128) -> (p: Primitive)
        ensures
            p == Self::of_int(n as int),
            p.is_double(),
    {
        if n == i128::MIN {
            Self::from_magnitude(true, 0x8000_0000_0000_0000_0000_0000_0000_0000u128)
        } else if n < 0 {
            Self::from_magnitude(true, (-n) as u128)
        } else {
            Self::from_magnitude(false, n as u128)
        }
    }

    fn from_magnitude(negative: bool, n: u128) -> (p: Primitive)
        ensures
            p == Self::of_magnitude(negative, n as nat),
            p.is_double(),
    {
        if n < MANTISSA_LIMIT as u128 {
            proof {
                lemma2_to64();
            }
            return Primitive::Finite { negative, mantissa: n as u64, exponent: 0 };
        }
        let mut pow: u128 = 2;
        let mut e: i16 = 1;
        proof {
            lemma2_to64();
        }
        while n / pow >= MANTISSA_LIMIT as u128
            invariant
                1 <= e <= 75,
                pow == pow2(e as nat),
                pow >= 2,
                excess_bits(n as nat) == e + excess_bits((n / pow) as nat),
            decreases n / pow,
        {
            proof {
                lemma_pow2_unfold((e + 1) as nat);
                lemma_div_denominator(n as int, pow as int, 2);
                lemma_power_bound(n, pow, e as nat);
            }
            pow = pow * 2;
            e = e + 1;
        }
        let q = n / pow;
        let r = n % pow;
        let half = pow / 2;
        proof {
            lemma_pow2_unfold(e as nat);
        }
        let up = r > half || (r == half && q % 2 == 1);
        let rounded = if up {
            q + 1
        } else {
            q
        };
        assert(rounded == nearest_even(n as nat, e as nat));
        if rounded == MANTISSA_LIMIT as u128 {
            Primitive::Finite { negative, mantissa: MANTISSA_LIMIT / 2, exponent: e + 1 }
        } else {
            Primitive::Finite { negative, mantissa: rounded as u64, exponent: e }
        }
    }

    /// The value cut toward zero and held within `lo ..= hi`; zero where it is not a number.
    pub fn clamp_to(&self, lo: i128, hi: i128) -> (r: i128)
        requires
            lo <= 0 <= hi,
        ensures
            r == self.clamped(lo as int, hi as int),
    {
        match *self {
            Primitive::Nan => 0,
            Primitive::Infinite { negative } => if negative {
                lo
            } else {
                hi
            },
            Primitive::Finite { negative, mantissa, exponent } => {
                let whole = Self::whole_saturating(mantissa, exponent);
                if negative {
                    if lo == i128::MIN {
                        if whole > 0x8000_0000_0000_0000_0000_0000_0000_0000u128 {
                            lo
                        } else if whole == 0x8000_0000_0000_0000_0000_0000_0000_0000u128 {
                            i128::MIN
                        } else {
                            -(whole as i128)
                        }
                    } else if whole > (-lo) as u128 {
                        lo
                    } else {
                        -(whole as i128)
                    }
                } else {
                    if whole > hi as u128 {
                        hi
                    } else {
                        whole as i128
                    }
                }
            },
        }
    }

    /// The value cut toward zero and held within the unsigned 128-bit range; zero where it
    /// is not a number.
    pub fn clamp_to_unsigned(&self) -> (r: u128)
        ensures
            r == self.clamped(0, u128::MAX as int),
    {
        match *self {
            Primitive::Nan => 0,
            Primitive::Infinite { negative } => if negative {
                0
            } else {
                u128::MAX
            },
            Primitive::Finite { negative, mantissa, exponent } => {
                let whole = Self::whole_saturating(mantissa, exponent);
                if negative {
                    0
                } else {
                    whole
                }
            },
        }
    }

    /// The whole part of `mantissa * 2^exponent`, or the largest 128-bit number where the
    /// whole part is larger than that.
    pub fn whole_saturating(mantissa: u64, exponent: i16) -> (r: u128)
        ensures
            r == if Self::whole_magnitude(mantissa, exponent) > u128::MAX {
                u128::MAX as nat
            } else {
                Self::whole_magnitude(mantissa, exponent)
            },
    {
        if exponent >= 0 {
            let mut v: u128 = mantissa as u128;
            let mut k: i16 = 0;
            proof {
                lemma2_to64();
                assert(pow2(k as nat) == 1);
                assert(mantissa as nat * 1 == mantissa);
            }
            while k < exponent && 0 < v && v <= u128::MAX / 2
                invariant
                    0 <= k <= exponent,
                    v == mantissa as nat * pow2(k as nat),
                decreases exponent - k,
            {
                proof {
                    lemma_pow2_unfold((k + 1) as nat);
                    lemma_mul_by_double(mantissa as nat, pow2(k as nat));
                }
                v = v * 2;
                k = k + 1;
            }
            if k < exponent {
                if v == 0 {
                    proof {
                        lemma_pow2_pos(k as nat);
                        lemma_pow2_pos(exponent as nat);
                        lemma_zero_product(mantissa as nat, pow2(k as nat));
                        lemma_zero_product(mantissa as nat, pow2(exponent as nat));
                    }
                    0
                } else {
                    proof {
                        lemma_pow2_unfold((k + 1) as nat);
                        lemma_mul_by_double(mantissa as nat, pow2(k as nat));
                        if k + 1 < exponent {
                            lemma_pow2_strictly_increases((k + 1) as nat, exponent as nat);
                        }
                        lemma_mul_grows(
                            mantissa as nat,
                            pow2((k + 1) as nat),
                            pow2(exponent as nat),
                        );
                    }
                    u128::MAX
                }
            } else {
                v
            }
        } else {
            let depth: i32 = -(exponent as i32);
            let mut v: u64 = mantissa;
            let mut k: i32 = 0;
            proof {
                lemma2_to64();
                assert(pow2(k as nat) == 1);
                assert(mantissa as nat / 1 == mantissa);
            }
            while k < depth && v > 0
                invariant
                    0 <= k <= depth,
                    v == mantissa as nat / pow2(k as nat),
                decreases depth - k,
            {
                proof {
                    lemma_pow2_unfold((k + 1) as nat);
                    lemma_pow2_pos(k as nat);
                    lemma_div_denominator(mantissa as int, pow2(k as nat) as int, 2);
                    assert(pow2(k as nat) * 2 == 2 * pow2(k as nat));
                }
                v = v / 2;
                k = k + 1;
            }
            proof {
                if k < depth {
                    lemma_pow2_pos(k as nat);
                    lemma_pow2_strictly_increases(k as nat, depth as nat);
                    lemma_small_quotient(
                        mantissa as nat,
                        pow2(k as nat),
                        pow2(depth as nat),
                    );
                }
            }
            v as u128
        }
    }
}

proof fn lemma_mul_by_double(m: nat, p: nat)
    ensures
        m * (2 * p) == 2 * (m * p),
{
    assert(m * (2 * p) == 2 * (m * p)) by (nonlinear_arith);
}

proof fn lemma_zero_product(m: nat, p: nat)
    requires
        p > 0,
    ensures
        m * p == 0 <==> m == 0,
{
    assert(m * p == 0 <==> m == 0) by (nonlinear_arith)
        requires
            p > 0,
    ;
}

proof fn lemma_mul_grows(m: nat, p: nat, q: nat)
    requires
        p <= q,
    ensures
        m * p <= m * q,
{
    assert(m * p <= m * q) by (nonlinear_arith)
        requires
            p <= q,
    ;
}

/// A quotient that is already zero stays zero under a larger divisor.
proof fn lemma_small_quotient(m: nat, p: nat, q: nat)
    requires
        0 < p <= q,
        m / p == 0,
    ensures
        m / q == 0,
{
    assert(m < p) by (nonlinear_arith)
        requires
            0 < p,
            m / p == 0,
    {
        assert(m == p * (m / p) + m % p);
    }
    assert(m / q == 0) by (nonlinear_arith)
        requires
            m < q,
            0 < q,
    ;
}

/// A whole number that a double's mantissa holds converts to itself, and comes back as
/// itself wherever the target can hold it.
pub proof fn lemma_of_small_int(n: int)
    requires
        -MANTISSA_LIMIT < n < MANTISSA_LIMIT,
    ensures
        Primitive::of_int(n) == (Primitive::Finite {
            negative: n < 0,
            mantissa: (if n < 0 {
                -n
            } else {
                n
            }) as u64,
            exponent: 0,
        }),
        forall|lo: int, hi: int|
            lo <= n <= hi ==> #[trigger] Primitive::of_int(n).clamped(lo, hi) == n,
{
    lemma2_to64();
    let m: nat = (if n < 0 {
        -n
    } else {
        n
    }) as nat;
    assert(excess_bits(m) == 0);
    assert(m / 1 == m && m % 1 == 0);
    assert(nearest_even(m, 0) == m);
    assert(m * 1 == m);
    assert(Primitive::whole_magnitude(m as u64, 0) == m);
}

/// A power of two that still leaves 53 bits of a 128-bit magnitude is below `2^75`.
proof fn lemma_power_bound(n: u128, pow: u128, e: nat)
    requires
        pow == pow2(e),
        pow > 0,
        n / pow >= MANTISSA_LIMIT,
    ensures
        pow < 0x800_0000_0000_0000_0000u128,
        e < 75,
{
    assert(pow * MANTISSA_LIMIT <= n) by (nonlinear_arith)
        requires
            n / pow >= MANTISSA_LIMIT,
            pow > 0,
    {
        assert(n >= (n / pow) * pow);
    }
    assert(pow < 0x800_0000_0000_0000_0000u128) by (nonlinear_arith)
        requires
            pow * MANTISSA_LIMIT <= n,
            n <= u128::MAX,
            MANTISSA_LIMIT == 0x20_0000_0000_0000,
    ;
    lemma_pow2_75();
    if e >= 75 {
        if e > 75 {
            lemma_pow2_strictly_increases(75, e);
        }
    }
}

proof fn lemma_pow2_75()
    ensures
        pow2(75) == 0x800_0000_0000_0000_0000u128,
{
    lemma2_to64();
    lemma_pow2_adds(64, 11);
}

} // verus!
