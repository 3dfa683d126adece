//! The integer types as numeric representations: how each converts to and from the
//! double-precision intermediate, what its square root is, and that each is a scalar.
//!
//! An integer converts to the double nearest to it, and a double converts back by being cut
//! toward zero and held within the range of the integer type. The square root of an integer is
//! what double-precision arithmetic makes of it, cut to a whole number: below `2^52` that is
//! the whole part of the root.

use vstd::prelude::*;
use vstd::arithmetic::power2::lemma2_to64;
use vstd::arithmetic::power2::lemma_pow2_adds;
use vstd::arithmetic::power2::lemma_pow2_pos;
use vstd::arithmetic::power2::lemma_pow2_unfold;
use vstd::arithmetic::power2::pow2;
use crate::primitive::excess_bits;
use crate::primitive::lemma_of_small_int;
use crate::primitive::FromPrimitive;
use crate::primitive::Primitive;
use crate::primitive::ToPrimitive;
use crate::primitive::MANTISSA_LIMIT;
use crate::scalar::counts_to;
use crate::scalar::one_spec;
use crate::scalar::whole_part;
use crate::scalar::zero_is_neutral;
use crate::scalar::zero_spec;
use crate::scalar::Scalar;
use crate::sqrt::double_sqrt;
use crate::sqrt::double_sqrt_of;
use crate::sqrt::integer_sqrt;
use crate::sqrt::lemma_double_sqrt_small;
use crate::sqrt::lemma_root_below;
use crate::sqrt::Sqrt;

verus! {

impl ToPrimitive for u8 {
    open spec fn to_primitive_spec(&self) -> Primitive {
        Primitive::of_int(*self as int)
    }

    fn to_primitive(&self) -> (p: Primitive) {
        Primitive::from_unsigned(*self as u128)
    }
}

impl<T: ToPrimitive> FromPrimitive<T> for u8 {
    open spec fn from_primitive_spec(v: T) -> u8 {
        v.to_primitive_spec().clamped(u8::MIN as int, u8::MAX as int) as u8
    }

    fn from_primitive(v: T) -> (r: u8) {
        v.to_primitive().clamp_to(u8::MIN as i128, u8::MAX as i128) as u8
    }
}

impl Sqrt for u8 {
    open spec fn sqrt_spec(&self) -> u8 {
        let root = double_sqrt(*self as int);
        if root > u8::MAX {
            u8::MAX
        } else {
            root as u8
        }
    }

    fn sqrt(&self) -> (r: u8) {
        let root = integer_sqrt(*self as u128);
        proof {
            lemma_double_sqrt_small(*self as int);
            lemma_root_below(*self as int, root as int);
        }
        root as u8
    }
}

impl ToPrimitive for u16 {
    open spec fn to_primitive_spec(&self) -> Primitive {
        Primitive::of_int(*self as int)
    }

    fn to_primitive(&self) -> (p: Primitive) {
        Primitive::from_unsigned(*self as u128)
    }
}

impl<T: ToPrimitive> FromPrimitive<T> for u16 {
    open spec fn from_primitive_spec(v: T) -> u16 {
        v.to_primitive_spec().clamped(u16::MIN as int, u16::MAX as int) as u16
    }

    fn from_primitive(v: T) -> (r: u16) {
        v.to_primitive().clamp_to(u16::MIN as i128, u16::MAX as i128) as u16
    }
}

impl Sqrt for u16 {
    open spec fn sqrt_spec(&self) -> u16 {
        let root = double_sqrt(*self as int);
        if root > u16::MAX {
            u16::MAX
        } else {
            root as u16
        }
    }

    fn sqrt(&self) -> (r: u16) {
        let root = integer_sqrt(*self as u128);
        proof {
            lemma_double_sqrt_small(*self as int);
            lemma_root_below(*self as int, root as int);
        }
        root as u16
    }
}

impl ToPrimitive for u32 {
    open spec fn to_primitive_spec(&self) -> Primitive {
        Primitive::of_int(*self as int)
    }

    fn to_primitive(&self) -> (p: Primitive) {
        Primitive::from_unsigned(*self as u128)
    }
}

impl<T: ToPrimitive> FromPrimitive<T> for u32 {
    open spec fn from_primitive_spec(v: T) -> u32 {
        v.to_primitive_spec().clamped(u32::MIN as int, u32::MAX as int) as u32
    }

    fn from_primitive(v: T) -> (r: u32) {
        v.to_primitive().clamp_to(u32::MIN as i128, u32::MAX as i128) as u32
    }
}

impl Sqrt for u32 {
    open spec fn sqrt_spec(&self) -> u32 {
        let root = double_sqrt(*self as int);
        if root > u32::MAX {
            u32::MAX
        } else {
            root as u32
        }
    }

    fn sqrt(&self) -> (r: u32) {
        let root = integer_sqrt(*self as u128);
        proof {
            lemma_double_sqrt_small(*self as int);
            lemma_root_below(*self as int, root as int);
        }
        root as u32
    }
}

impl ToPrimitive for u64 {
    open spec fn to_primitive_spec(&self) -> Primitive {
        Primitive::of_int(*self as int)
    }

    fn to_primitive(&self) -> (p: Primitive) {
        Primitive::from_unsigned(*self as u128)
    }
}

impl<T: ToPrimitive> FromPrimitive<T> for u64 {
    open spec fn from_primitive_spec(v: T) -> u64 {
        v.to_primitive_spec().clamped(u64::MIN as int, u64::MAX as int) as u64
    }

    fn from_primitive(v: T) -> (r: u64) {
        v.to_primitive().clamp_to(u64::MIN as i128, u64::MAX as i128) as u64
    }
}

impl Sqrt for u64 {
    open spec fn sqrt_spec(&self) -> u64 {
        let root = double_sqrt(*self as int);
        if root > u64::MAX {
            u64::MAX
        } else {
            root as u64
        }
    }

    fn sqrt(&self) -> (r: u64) {
        proof {
            lemma_integer_exponent(*self as int);
        }
        let root = double_sqrt_of(Primitive::from_unsigned(*self as u128));
        if root > u64::MAX as u128 {
            u64::MAX
        } else {
            root as u64
        }
    }
}

impl ToPrimitive for u128 {
    open spec fn to_primitive_spec(&self) -> Primitive {
        Primitive::of_int(*self as int)
    }

    fn to_primitive(&self) -> (p: Primitive) {
        Primitive::from_unsigned(*self as u128)
    }
}

impl<T: ToPrimitive> FromPrimitive<T> for u128 {
    open spec fn from_primitive_spec(v: T) -> u128 {
        v.to_primitive_spec().clamped(0, u128::MAX as int) as u128
    }

    fn from_primitive(v: T) -> (r: u128) {
        v.to_primitive().clamp_to_unsigned()
    }
}

impl Sqrt for u128 {
    open spec fn sqrt_spec(&self) -> u128 {
        let root = double_sqrt(*self as int);
        if root > u128::MAX {
            u128::MAX
        } else {
            root as u128
        }
    }

    fn sqrt(&self) -> (r: u128) {
        proof {
            lemma_integer_exponent(*self as int);
        }
        double_sqrt_of(Primitive::from_unsigned(*self as u128))
    }
}

impl ToPrimitive for usize {
    open spec fn to_primitive_spec(&self) -> Primitive {
        Primitive::of_int(*self as int)
    }

    fn to_primitive(&self) -> (p: Primitive) {
        Primitive::from_unsigned(*self as u128)
    }
}

impl<T: ToPrimitive> FromPrimitive<T> for usize {
    open spec fn from_primitive_spec(v: T) -> usize {
        v.to_primitive_spec().clamped(usize::MIN as int, usize::MAX as int) as usize
    }

    fn from_primitive(v: T) -> (r: usize) {
        v.to_primitive().clamp_to(usize::MIN as i128, usize::MAX as i128) as usize
    }
}

impl Sqrt for usize {
    open spec fn sqrt_spec(&self) -> usize {
        let root = double_sqrt(*self as int);
        if root > usize::MAX {
            usize::MAX
        } else {
            root as usize
        }
    }

    fn sqrt(&self) -> (r: usize) {
        proof {
            lemma_integer_exponent(*self as int);
        }
        let root = double_sqrt_of(Primitive::from_unsigned(*self as u128));
        if root > usize::MAX as u128 {
            usize::MAX
        } else {
            root as usize
        }
    }
}

impl ToPrimitive for i8 {
    open spec fn to_primitive_spec(&self) -> Primitive {
        Primitive::of_int(*self as int)
    }

    fn to_primitive(&self) -> (p: Primitive) {
        Primitive::from_signed(*self as i128)
    }
}

impl<T: ToPrimitive> FromPrimitive<T> for i8 {
    open spec fn from_primitive_spec(v: T) -> i8 {
        v.to_primitive_spec().clamped(i8::MIN as int, i8::MAX as int) as i8
    }

    fn from_primitive(v: T) -> (r: i8) {
        v.to_primitive().clamp_to(i8::MIN as i128, i8::MAX as i128) as i8
    }
}

impl Sqrt for i8 {
    open spec fn sqrt_spec(&self) -> i8 {
        let root = double_sqrt(*self as int);
        if root > i8::MAX {
            i8::MAX
        } else {
            root as i8
        }
    }

    fn sqrt(&self) -> (r: i8) {
        if *self < 0 {
            0
        } else {
            let root = integer_sqrt(*self as u128);
            proof {
                lemma_double_sqrt_small(*self as int);
                lemma_root_below(*self as int, root as int);
            }
            root as i8
        }
    }
}

impl ToPrimitive for i16 {
    open spec fn to_primitive_spec(&self) -> Primitive {
        Primitive::of_int(*self as int)
    }

    fn to_primitive(&self) -> (p: Primitive) {
        Primitive::from_signed(*self as i128)
    }
}

impl<T: ToPrimitive> FromPrimitive<T> for i16 {
    open spec fn from_primitive_spec(v: T) -> i16 {
        v.to_primitive_spec().clamped(i16::MIN as int, i16::MAX as int) as i16
    }

    fn from_primitive(v: T) -> (r: i16) {
        v.to_primitive().clamp_to(i16::MIN as i128, i16::MAX as i128) as i16
    }
}

impl Sqrt for i16 {
    open spec fn sqrt_spec(&self) -> i16 {
        let root = double_sqrt(*self as int);
        if root > i16::MAX {
            i16::MAX
        } else {
            root as i16
        }
    }

    fn sqrt(&self) -> (r: i16) {
        if *self < 0 {
            0
        } else {
            let root = integer_sqrt(*self as u128);
            proof {
                lemma_double_sqrt_small(*self as int);
                lemma_root_below(*self as int, root as int);
            }
            root as i16
        }
    }
}

impl ToPrimitive for i32 {
    open spec fn to_primitive_spec(&self) -> Primitive {
        Primitive::of_int(*self as int)
    }

    fn to_primitive(&self) -> (p: Primitive) {
        Primitive::from_signed(*self as i128)
    }
}

impl<T: ToPrimitive> FromPrimitive<T> for i32 {
    open spec fn from_primitive_spec(v: T) -> i32 {
        v.to_primitive_spec().clamped(i32::MIN as int, i32::MAX as int) as i32
    }

    fn from_primitive(v: T) -> (r: i32) {
        v.to_primitive().clamp_to(i32::MIN as i128, i32::MAX as i128) as i32
    }
}

impl Sqrt for i32 {
    open spec fn sqrt_spec(&self) -> i32 {
        let root = double_sqrt(*self as int);
        if root > i32::MAX {
            i32::MAX
        } else {
            root as i32
        }
    }

    fn sqrt(&self) -> (r: i32) {
        if *self < 0 {
            0
        } else {
            let root = integer_sqrt(*self as u128);
            proof {
                lemma_double_sqrt_small(*self as int);
                lemma_root_below(*self as int, root as int);
            }
            root as i32
        }
    }
}

impl ToPrimitive for i64 {
    open spec fn to_primitive_spec(&self) -> Primitive {
        Primitive::of_int(*self as int)
    }

    fn to_primitive(&self) -> (p: Primitive) {
        Primitive::from_signed(*self as i128)
    }
}

impl<T: ToPrimitive> FromPrimitive<T> for i64 {
    open spec fn from_primitive_spec(v: T) -> i64 {
        v.to_primitive_spec().clamped(i64::MIN as int, i64::MAX as int) as i64
    }

    fn from_primitive(v: T) -> (r: i64) {
        v.to_primitive().clamp_to(i64::MIN as i128, i64::MAX as i128) as i64
    }
}

impl Sqrt for i64 {
    open spec fn sqrt_spec(&self) -> i64 {
        let root = double_sqrt(*self as int);
        if root > i64::MAX {
            i64::MAX
        } else {
            root as i64
        }
    }

    fn sqrt(&self) -> (r: i64) {
        proof {
            lemma_integer_exponent(*self as int);
        }
        let root = double_sqrt_of(Primitive::from_signed(*self as i128));
        if root > i64::MAX as u128 {
            i64::MAX
        } else {
            root as i64
        }
    }
}

impl ToPrimitive for i128 {
    open spec fn to_primitive_spec(&self) -> Primitive {
        Primitive::of_int(*self as int)
    }

    fn to_primitive(&self) -> (p: Primitive) {
        Primitive::from_signed(*self as i128)
    }
}

impl<T: ToPrimitive> FromPrimitive<T> for i128 {
    open spec fn from_primitive_spec(v: T) -> i128 {
        v.to_primitive_spec().clamped(i128::MIN as int, i128::MAX as int) as i128
    }

    fn from_primitive(v: T) -> (r: i128) {
        v.to_primitive().clamp_to(i128::MIN, i128::MAX)
    }
}

impl Sqrt for i128 {
    open spec fn sqrt_spec(&self) -> i128 {
        let root = double_sqrt(*self as int);
        if root > i128::MAX {
            i128::MAX
        } else {
            root as i128
        }
    }

    fn sqrt(&self) -> (r: i128) {
        proof {
            lemma_integer_exponent(*self as int);
        }
        let root = double_sqrt_of(Primitive::from_signed(*self as i128));
        if root > i128::MAX as u128 {
            i128::MAX
        } else {
            root as i128
        }
    }
}

impl ToPrimitive for isize {
    open spec fn to_primitive_spec(&self) -> Primitive {
        Primitive::of_int(*self as int)
    }

    fn to_primitive(&self) -> (p: Primitive) {
        Primitive::from_signed(*self as i128)
    }
}

impl<T: ToPrimitive> FromPrimitive<T> for isize {
    open spec fn from_primitive_spec(v: T) -> isize {
        v.to_primitive_spec().clamped(isize::MIN as int, isize::MAX as int) as isize
    }

    fn from_primitive(v: T) -> (r: isize) {
        v.to_primitive().clamp_to(isize::MIN as i128, isize::MAX as i128) as isize
    }
}

impl Sqrt for isize {
    open spec fn sqrt_spec(&self) -> isize {
        let root = double_sqrt(*self as int);
        if root > isize::MAX {
            isize::MAX
        } else {
            root as isize
        }
    }

    fn sqrt(&self) -> (r: isize) {
        proof {
            lemma_integer_exponent(*self as int);
        }
        let root = double_sqrt_of(Primitive::from_signed(*self as i128));
        if root > isize::MAX as u128 {
            isize::MAX
        } else {
            root as isize
        }
    }
}

/// The double nearest to a whole number of at most 128 binary digits is finite, and its
/// exponent lies between zero and 76.
pub proof fn lemma_integer_exponent(n: int)
    requires
        -0x8000_0000_0000_0000_0000_0000_0000_0000 <= n <= u128::MAX,
    ensures
        Primitive::of_int(n) matches Primitive::Finite { exponent, .. } && 0 <= exponent <= 76,
{
    let m: nat = (if n < 0 {
        -n
    } else {
        n
    }) as nat;
    lemma2_to64();
    lemma_pow2_adds(64, 64);
    lemma_excess_bound(m, 128);
}

/// A number of at most `53 + k` binary digits loses at most `k` of them.
proof fn lemma_excess_bound(n: nat, digits: nat)
    requires
        n < pow2(digits),
        digits >= 53,
    ensures
        excess_bits(n) <= digits - 53,
    decreases digits,
{
    lemma2_to64();
    lemma_pow2_adds(32, 21);
    assert(pow2(53) == MANTISSA_LIMIT);
    if n >= MANTISSA_LIMIT {
        if digits == 53 {
            assert(false);
        } else {
            lemma_pow2_unfold(digits);
            lemma_excess_bound(n / 2, (digits - 1) as nat);
        }
    }
}

/// The zero and the one of each integer type are the numbers zero and one.
pub proof fn lemma_integer_constants()
    ensures
        zero_spec::<u8>() == 0,
        one_spec::<u8>() == 1,
        zero_spec::<u16>() == 0,
        one_spec::<u16>() == 1,
        zero_spec::<u32>() == 0,
        one_spec::<u32>() == 1,
        zero_spec::<u64>() == 0,
        one_spec::<u64>() == 1,
        zero_spec::<u128>() == 0,
        one_spec::<u128>() == 1,
        zero_spec::<usize>() == 0,
        one_spec::<usize>() == 1,
        zero_spec::<i8>() == 0,
        one_spec::<i8>() == 1,
        zero_spec::<i16>() == 0,
        one_spec::<i16>() == 1,
        zero_spec::<i32>() == 0,
        one_spec::<i32>() == 1,
        zero_spec::<i64>() == 0,
        one_spec::<i64>() == 1,
        zero_spec::<i128>() == 0,
        one_spec::<i128>() == 1,
        zero_spec::<isize>() == 0,
        one_spec::<isize>() == 1,
{
    lemma_of_small_int(0);
    lemma_of_small_int(1);
    assert(Primitive::of_int(0).clamped(0, u8::MAX as int) == 0);
    assert(Primitive::of_int(1).clamped(0, u8::MAX as int) == 1);
    assert(Primitive::of_int(0).clamped(0, u16::MAX as int) == 0);
    assert(Primitive::of_int(1).clamped(0, u16::MAX as int) == 1);
    assert(Primitive::of_int(0).clamped(0, u32::MAX as int) == 0);
    assert(Primitive::of_int(1).clamped(0, u32::MAX as int) == 1);
    assert(Primitive::of_int(0).clamped(0, u64::MAX as int) == 0);
    assert(Primitive::of_int(1).clamped(0, u64::MAX as int) == 1);
    assert(Primitive::of_int(0).clamped(0, u128::MAX as int) == 0);
    assert(Primitive::of_int(1).clamped(0, u128::MAX as int) == 1);
    assert(Primitive::of_int(0).clamped(0, usize::MAX as int) == 0);
    assert(Primitive::of_int(1).clamped(0, usize::MAX as int) == 1);
    assert(Primitive::of_int(0).clamped(i8::MIN as int, i8::MAX as int) == 0);
    assert(Primitive::of_int(1).clamped(i8::MIN as int, i8::MAX as int) == 1);
    assert(Primitive::of_int(0).clamped(i16::MIN as int, i16::MAX as int) == 0);
    assert(Primitive::of_int(1).clamped(i16::MIN as int, i16::MAX as int) == 1);
    assert(Primitive::of_int(0).clamped(i32::MIN as int, i32::MAX as int) == 0);
    assert(Primitive::of_int(1).clamped(i32::MIN as int, i32::MAX as int) == 1);
    assert(Primitive::of_int(0).clamped(i64::MIN as int, i64::MAX as int) == 0);
    assert(Primitive::of_int(1).clamped(i64::MIN as int, i64::MAX as int) == 1);
    assert(Primitive::of_int(0).clamped(i128::MIN as int, i128::MAX as int) == 0);
    assert(Primitive::of_int(1).clamped(i128::MIN as int, i128::MAX as int) == 1);
    assert(Primitive::of_int(0).clamped(isize::MIN as int, isize::MAX as int) == 0);
    assert(Primitive::of_int(1).clamped(isize::MIN as int, isize::MAX as int) == 1);
}

/// A whole number that a double's mantissa holds, cast to an integer type that holds it, is
/// itself.
pub proof fn lemma_cast_small(n: int)
    requires
        -MANTISSA_LIMIT < n < MANTISSA_LIMIT,
    ensures
        u8::MIN <= n <= u8::MAX ==> <u8 as FromPrimitive<Primitive>>::from_primitive_spec(
            Primitive::of_int(n),
        ) == n,
        u16::MIN <= n <= u16::MAX ==> <u16 as FromPrimitive<Primitive>>::from_primitive_spec(
            Primitive::of_int(n),
        ) == n,
        u32::MIN <= n <= u32::MAX ==> <u32 as FromPrimitive<Primitive>>::from_primitive_spec(
            Primitive::of_int(n),
        ) == n,
        u64::MIN <= n <= u64::MAX ==> <u64 as FromPrimitive<Primitive>>::from_primitive_spec(
            Primitive::of_int(n),
        ) == n,
        u128::MIN <= n <= u128::MAX ==> <u128 as FromPrimitive<Primitive>>::from_primitive_spec(
            Primitive::of_int(n),
        ) == n,
        usize::MIN <= n <= usize::MAX ==> <usize as FromPrimitive<Primitive>>::from_primitive_spec(
            Primitive::of_int(n),
        ) == n,
        i8::MIN <= n <= i8::MAX ==> <i8 as FromPrimitive<Primitive>>::from_primitive_spec(
            Primitive::of_int(n),
        ) == n,
        i16::MIN <= n <= i16::MAX ==> <i16 as FromPrimitive<Primitive>>::from_primitive_spec(
            Primitive::of_int(n),
        ) == n,
        i32::MIN <= n <= i32::MAX ==> <i32 as FromPrimitive<Primitive>>::from_primitive_spec(
            Primitive::of_int(n),
        ) == n,
        i64::MIN <= n <= i64::MAX ==> <i64 as FromPrimitive<Primitive>>::from_primitive_spec(
            Primitive::of_int(n),
        ) == n,
        i128::MIN <= n <= i128::MAX ==> <i128 as FromPrimitive<Primitive>>::from_primitive_spec(
            Primitive::of_int(n),
        ) == n,
        isize::MIN <= n <= isize::MAX ==> <isize as FromPrimitive<Primitive>>::from_primitive_spec(
            Primitive::of_int(n),
        ) == n,
{
    lemma_of_small_int(n);
    if u8::MIN <= n <= u8::MAX {
        assert(Primitive::of_int(n).clamped(0, u8::MAX as int) == n);
    }
    if u16::MIN <= n <= u16::MAX {
        assert(Primitive::of_int(n).clamped(0, u16::MAX as int) == n);
    }
    if u32::MIN <= n <= u32::MAX {
        assert(Primitive::of_int(n).clamped(0, u32::MAX as int) == n);
    }
    if u64::MIN <= n <= u64::MAX {
        assert(Primitive::of_int(n).clamped(0, u64::MAX as int) == n);
    }
    if u128::MIN <= n <= u128::MAX {
        assert(Primitive::of_int(n).clamped(0, u128::MAX as int) == n);
    }
    if usize::MIN <= n <= usize::MAX {
        assert(Primitive::of_int(n).clamped(0, usize::MAX as int) == n);
    }
    if i8::MIN <= n <= i8::MAX {
        assert(Primitive::of_int(n).clamped(i8::MIN as int, i8::MAX as int) == n);
    }
    if i16::MIN <= n <= i16::MAX {
        assert(Primitive::of_int(n).clamped(i16::MIN as int, i16::MAX as int) == n);
    }
    if i32::MIN <= n <= i32::MAX {
        assert(Primitive::of_int(n).clamped(i32::MIN as int, i32::MAX as int) == n);
    }
    if i64::MIN <= n <= i64::MAX {
        assert(Primitive::of_int(n).clamped(i64::MIN as int, i64::MAX as int) == n);
    }
    if i128::MIN <= n <= i128::MAX {
        assert(Primitive::of_int(n).clamped(i128::MIN as int, i128::MAX as int) == n);
    }
    if isize::MIN <= n <= isize::MAX {
        assert(Primitive::of_int(n).clamped(isize::MIN as int, isize::MAX as int) == n);
    }
}

/// In each integer type, zero behaves as zero.
pub proof fn lemma_zero_is_neutral()
    ensures
        zero_is_neutral::<u8>(),
        zero_is_neutral::<u16>(),
        zero_is_neutral::<u32>(),
        zero_is_neutral::<u64>(),
        zero_is_neutral::<u128>(),
        zero_is_neutral::<usize>(),
        zero_is_neutral::<i8>(),
        zero_is_neutral::<i16>(),
        zero_is_neutral::<i32>(),
        zero_is_neutral::<i64>(),
        zero_is_neutral::<i128>(),
        zero_is_neutral::<isize>(),
{
    lemma_integer_constants();
    lemma_of_small_int(0);
    assert(double_sqrt(0) == 0);
}

impl Scalar for u8 {
    proof fn zero_behaves() {
        lemma_zero_is_neutral();
    }
}

impl Scalar for u16 {
    proof fn zero_behaves() {
        lemma_zero_is_neutral();
    }
}

impl Scalar for u32 {
    proof fn zero_behaves() {
        lemma_zero_is_neutral();
    }
}

impl Scalar for u64 {
    proof fn zero_behaves() {
        lemma_zero_is_neutral();
    }
}

impl Scalar for u128 {
    proof fn zero_behaves() {
        lemma_zero_is_neutral();
    }
}

impl Scalar for usize {
    proof fn zero_behaves() {
        lemma_zero_is_neutral();
    }
}

impl Scalar for i8 {
    proof fn zero_behaves() {
        lemma_zero_is_neutral();
    }
}

impl Scalar for i16 {
    proof fn zero_behaves() {
        lemma_zero_is_neutral();
    }
}

impl Scalar for i32 {
    proof fn zero_behaves() {
        lemma_zero_is_neutral();
    }
}

impl Scalar for i64 {
    proof fn zero_behaves() {
        lemma_zero_is_neutral();
    }
}

impl Scalar for i128 {
    proof fn zero_behaves() {
        lemma_zero_is_neutral();
    }
}

impl Scalar for isize {
    proof fn zero_behaves() {
        lemma_zero_is_neutral();
    }
}

/// The whole part of an integer that a double's mantissa holds is the integer itself.
pub proof fn lemma_whole_part_of_integers()
    ensures
        forall|a: u8|
            -MANTISSA_LIMIT < a < MANTISSA_LIMIT ==> #[trigger] whole_part(a) == a,
        forall|a: u16|
            -MANTISSA_LIMIT < a < MANTISSA_LIMIT ==> #[trigger] whole_part(a) == a,
        forall|a: u32|
            -MANTISSA_LIMIT < a < MANTISSA_LIMIT ==> #[trigger] whole_part(a) == a,
        forall|a: u64|
            -MANTISSA_LIMIT < a < MANTISSA_LIMIT ==> #[trigger] whole_part(a) == a,
        forall|a: u128|
            -MANTISSA_LIMIT < a < MANTISSA_LIMIT ==> #[trigger] whole_part(a) == a,
        forall|a: usize|
            -MANTISSA_LIMIT < a < MANTISSA_LIMIT ==> #[trigger] whole_part(a) == a,
        forall|a: i8|
            -MANTISSA_LIMIT < a < MANTISSA_LIMIT ==> #[trigger] whole_part(a) == a,
        forall|a: i16|
            -MANTISSA_LIMIT < a < MANTISSA_LIMIT ==> #[trigger] whole_part(a) == a,
        forall|a: i32|
            -MANTISSA_LIMIT < a < MANTISSA_LIMIT ==> #[trigger] whole_part(a) == a,
        forall|a: i64|
            -MANTISSA_LIMIT < a < MANTISSA_LIMIT ==> #[trigger] whole_part(a) == a,
        forall|a: i128|
            -MANTISSA_LIMIT < a < MANTISSA_LIMIT ==> #[trigger] whole_part(a) == a,
        forall|a: isize|
            -MANTISSA_LIMIT < a < MANTISSA_LIMIT ==> #[trigger] whole_part(a) == a,
{
    assert forall|a: u8|
        -MANTISSA_LIMIT < a < MANTISSA_LIMIT implies #[trigger] whole_part(a) == a by {
        lemma_of_small_int(a as int);
        assert(Primitive::of_int(a as int).clamped(i128::MIN as int, i128::MAX as int) == a);
    }
    assert forall|a: u16|
        -MANTISSA_LIMIT < a < MANTISSA_LIMIT implies #[trigger] whole_part(a) == a by {
        lemma_of_small_int(a as int);
        assert(Primitive::of_int(a as int).clamped(i128::MIN as int, i128::MAX as int) == a);
    }
    assert forall|a: u32|
        -MANTISSA_LIMIT < a < MANTISSA_LIMIT implies #[trigger] whole_part(a) == a by {
        lemma_of_small_int(a as int);
        assert(Primitive::of_int(a as int).clamped(i128::MIN as int, i128::MAX as int) == a);
    }
    assert forall|a: u64|
        -MANTISSA_LIMIT < a < MANTISSA_LIMIT implies #[trigger] whole_part(a) == a by {
        lemma_of_small_int(a as int);
        assert(Primitive::of_int(a as int).clamped(i128::MIN as int, i128::MAX as int) == a);
    }
    assert forall|a: u128|
        -MANTISSA_LIMIT < a < MANTISSA_LIMIT implies #[trigger] whole_part(a) == a by {
        lemma_of_small_int(a as int);
        assert(Primitive::of_int(a as int).clamped(i128::MIN as int, i128::MAX as int) == a);
    }
    assert forall|a: usize|
        -MANTISSA_LIMIT < a < MANTISSA_LIMIT implies #[trigger] whole_part(a) == a by {
        lemma_of_small_int(a as int);
        assert(Primitive::of_int(a as int).clamped(i128::MIN as int, i128::MAX as int) == a);
    }
    assert forall|a: i8|
        -MANTISSA_LIMIT < a < MANTISSA_LIMIT implies #[trigger] whole_part(a) == a by {
        lemma_of_small_int(a as int);
        assert(Primitive::of_int(a as int).clamped(i128::MIN as int, i128::MAX as int) == a);
    }
    assert forall|a: i16|
        -MANTISSA_LIMIT < a < MANTISSA_LIMIT implies #[trigger] whole_part(a) == a by {
        lemma_of_small_int(a as int);
        assert(Primitive::of_int(a as int).clamped(i128::MIN as int, i128::MAX as int) == a);
    }
    assert forall|a: i32|
        -MANTISSA_LIMIT < a < MANTISSA_LIMIT implies #[trigger] whole_part(a) == a by {
        lemma_of_small_int(a as int);
        assert(Primitive::of_int(a as int).clamped(i128::MIN as int, i128::MAX as int) == a);
    }
    assert forall|a: i64|
        -MANTISSA_LIMIT < a < MANTISSA_LIMIT implies #[trigger] whole_part(a) == a by {
        lemma_of_small_int(a as int);
        assert(Primitive::of_int(a as int).clamped(i128::MIN as int, i128::MAX as int) == a);
    }
    assert forall|a: i128|
        -MANTISSA_LIMIT < a < MANTISSA_LIMIT implies #[trigger] whole_part(a) == a by {
        lemma_of_small_int(a as int);
        assert(Primitive::of_int(a as int).clamped(i128::MIN as int, i128::MAX as int) == a);
    }
    assert forall|a: isize|
        -MANTISSA_LIMIT < a < MANTISSA_LIMIT implies #[trigger] whole_part(a) == a by {
        lemma_of_small_int(a as int);
        assert(Primitive::of_int(a as int).clamped(i128::MIN as int, i128::MAX as int) == a);
    }
}

/// The whole part of an integer that a double's mantissa does not hold lies no nearer to zero
/// than the first such integer.
pub proof fn lemma_whole_part_of_large_integers()
    ensures
        forall|a: u8| a >= MANTISSA_LIMIT ==> #[trigger] whole_part(a) >= MANTISSA_LIMIT,
        forall|a: u16| a >= MANTISSA_LIMIT ==> #[trigger] whole_part(a) >= MANTISSA_LIMIT,
        forall|a: u32| a >= MANTISSA_LIMIT ==> #[trigger] whole_part(a) >= MANTISSA_LIMIT,
        forall|a: u64| a >= MANTISSA_LIMIT ==> #[trigger] whole_part(a) >= MANTISSA_LIMIT,
        forall|a: u128| a >= MANTISSA_LIMIT ==> #[trigger] whole_part(a) >= MANTISSA_LIMIT,
        forall|a: usize| a >= MANTISSA_LIMIT ==> #[trigger] whole_part(a) >= MANTISSA_LIMIT,
        forall|a: i8| a >= MANTISSA_LIMIT ==> #[trigger] whole_part(a) >= MANTISSA_LIMIT,
        forall|a: i16| a >= MANTISSA_LIMIT ==> #[trigger] whole_part(a) >= MANTISSA_LIMIT,
        forall|a: i32| a >= MANTISSA_LIMIT ==> #[trigger] whole_part(a) >= MANTISSA_LIMIT,
        forall|a: i64| a >= MANTISSA_LIMIT ==> #[trigger] whole_part(a) >= MANTISSA_LIMIT,
        forall|a: i128| a >= MANTISSA_LIMIT ==> #[trigger] whole_part(a) >= MANTISSA_LIMIT,
        forall|a: isize| a >= MANTISSA_LIMIT ==> #[trigger] whole_part(a) >= MANTISSA_LIMIT,
        forall|a: i8| a <= -MANTISSA_LIMIT ==> #[trigger] whole_part(a) <= -MANTISSA_LIMIT,
        forall|a: i16| a <= -MANTISSA_LIMIT ==> #[trigger] whole_part(a) <= -MANTISSA_LIMIT,
        forall|a: i32| a <= -MANTISSA_LIMIT ==> #[trigger] whole_part(a) <= -MANTISSA_LIMIT,
        forall|a: i64| a <= -MANTISSA_LIMIT ==> #[trigger] whole_part(a) <= -MANTISSA_LIMIT,
        forall|a: i128| a <= -MANTISSA_LIMIT ==> #[trigger] whole_part(a) <= -MANTISSA_LIMIT,
        forall|a: isize| a <= -MANTISSA_LIMIT ==> #[trigger] whole_part(a) <= -MANTISSA_LIMIT,
{
    lemma2_to64();
    lemma_pow2_adds(64, 64);
    assert forall|a: u8| a >= MANTISSA_LIMIT implies #[trigger] whole_part(a)
        >= MANTISSA_LIMIT by {
        lemma_large_stays_large(a as nat);
    }
    assert forall|a: u16| a >= MANTISSA_LIMIT implies #[trigger] whole_part(a)
        >= MANTISSA_LIMIT by {
        lemma_large_stays_large(a as nat);
    }
    assert forall|a: u32| a >= MANTISSA_LIMIT implies #[trigger] whole_part(a)
        >= MANTISSA_LIMIT by {
        lemma_large_stays_large(a as nat);
    }
    assert forall|a: u64| a >= MANTISSA_LIMIT implies #[trigger] whole_part(a)
        >= MANTISSA_LIMIT by {
        lemma_large_stays_large(a as nat);
    }
    assert forall|a: u128| a >= MANTISSA_LIMIT implies #[trigger] whole_part(a)
        >= MANTISSA_LIMIT by {
        lemma_large_stays_large(a as nat);
    }
    assert forall|a: usize| a >= MANTISSA_LIMIT implies #[trigger] whole_part(a)
        >= MANTISSA_LIMIT by {
        lemma_large_stays_large(a as nat);
    }
    assert forall|a: i8| a >= MANTISSA_LIMIT implies #[trigger] whole_part(a)
        >= MANTISSA_LIMIT by {
        lemma_large_stays_large(a as nat);
    }
    assert forall|a: i16| a >= MANTISSA_LIMIT implies #[trigger] whole_part(a)
        >= MANTISSA_LIMIT by {
        lemma_large_stays_large(a as nat);
    }
    assert forall|a: i32| a >= MANTISSA_LIMIT implies #[trigger] whole_part(a)
        >= MANTISSA_LIMIT by {
        lemma_large_stays_large(a as nat);
    }
    assert forall|a: i64| a >= MANTISSA_LIMIT implies #[trigger] whole_part(a)
        >= MANTISSA_LIMIT by {
        lemma_large_stays_large(a as nat);
    }
    assert forall|a: i128| a >= MANTISSA_LIMIT implies #[trigger] whole_part(a)
        >= MANTISSA_LIMIT by {
        lemma_large_stays_large(a as nat);
    }
    assert forall|a: isize| a >= MANTISSA_LIMIT implies #[trigger] whole_part(a)
        >= MANTISSA_LIMIT by {
        lemma_large_stays_large(a as nat);
    }
    assert forall|a: i8| a <= -MANTISSA_LIMIT implies #[trigger] whole_part(a)
        <= -MANTISSA_LIMIT by {
        lemma_large_stays_large((-a) as nat);
    }
    assert forall|a: i16| a <= -MANTISSA_LIMIT implies #[trigger] whole_part(a)
        <= -MANTISSA_LIMIT by {
        lemma_large_stays_large((-a) as nat);
    }
    assert forall|a: i32| a <= -MANTISSA_LIMIT implies #[trigger] whole_part(a)
        <= -MANTISSA_LIMIT by {
        lemma_large_stays_large((-a) as nat);
    }
    assert forall|a: i64| a <= -MANTISSA_LIMIT implies #[trigger] whole_part(a)
        <= -MANTISSA_LIMIT by {
        lemma_large_stays_large((-a) as nat);
    }
    assert forall|a: i128| a <= -MANTISSA_LIMIT implies #[trigger] whole_part(a)
        <= -MANTISSA_LIMIT by {
        lemma_large_stays_large((-a) as nat);
    }
    assert forall|a: isize| a <= -MANTISSA_LIMIT implies #[trigger] whole_part(a)
        <= -MANTISSA_LIMIT by {
        lemma_large_stays_large((-a) as nat);
    }
}

/// The double nearest to a whole number that a mantissa does not hold is no smaller than the
/// first such number.
proof fn lemma_large_stays_large(n: nat)
    requires
        MANTISSA_LIMIT <= n < pow2(128),
    ensures
        Primitive::of_magnitude(false, n) matches Primitive::Finite { mantissa, exponent, .. }
            && Primitive::whole_magnitude(mantissa, exponent) >= MANTISSA_LIMIT,
        Primitive::of_magnitude(true, n) matches Primitive::Finite { mantissa, exponent, .. }
            && Primitive::whole_magnitude(mantissa, exponent) >= MANTISSA_LIMIT,
{
    let e = excess_bits(n);
    lemma_kept_bits(n);
    lemma_excess_bound(n, 128);
    lemma_pow2_pos(e);
    lemma_pow2_unfold(e);
    let q = n / pow2(e);
    let rounded = crate::primitive::nearest_even(n, e);
    assert(q <= rounded <= q + 1);
    assert(q * pow2(e) >= MANTISSA_LIMIT) by (nonlinear_arith)
        requires
            q >= MANTISSA_LIMIT / 2,
            pow2(e) >= 2,
            MANTISSA_LIMIT == 0x20_0000_0000_0000,
    ;
    if rounded == MANTISSA_LIMIT {
        lemma_pow2_pos(e + 1);
        lemma_pow2_unfold(e + 1);
        assert((MANTISSA_LIMIT / 2) as nat * pow2(e + 1) >= MANTISSA_LIMIT) by (nonlinear_arith)
            requires
                pow2(e + 1) >= 2,
                MANTISSA_LIMIT == 0x20_0000_0000_0000,
        ;
    } else {
        assert(rounded * pow2(e) >= q * pow2(e)) by (nonlinear_arith)
            requires
                rounded >= q,
        ;
    }
}

/// A whole number that a mantissa does not hold loses at least one binary digit, and keeps
/// 53 of them.
proof fn lemma_kept_bits(n: nat)
    requires
        n >= MANTISSA_LIMIT,
    ensures
        excess_bits(n) >= 1,
        MANTISSA_LIMIT / 2 <= n / pow2(excess_bits(n)) < MANTISSA_LIMIT,
    decreases n,
{
    lemma2_to64();
    assert(excess_bits(n) == 1 + excess_bits(n / 2));
    if n / 2 >= MANTISSA_LIMIT {
        lemma_kept_bits(n / 2);
        let e = excess_bits(n / 2);
        lemma_pow2_pos(e);
        lemma_pow2_unfold(e + 1);
        vstd::arithmetic::div_mod::lemma_div_denominator(n as int, 2, pow2(e) as int);
        assert(n / pow2(e + 1) == (n / 2) / pow2(e));
    } else {
        assert(excess_bits(n / 2) == 0);
        assert(pow2(1) == 2);
    }
}

/// Each integer type counts like the whole numbers up to any of its values that a double's
/// mantissa holds.
pub proof fn lemma_integers_count()
    ensures
        forall|limit: u8| limit < MANTISSA_LIMIT ==> #[trigger] counts_to(limit),
        forall|limit: u16| limit < MANTISSA_LIMIT ==> #[trigger] counts_to(limit),
        forall|limit: u32| limit < MANTISSA_LIMIT ==> #[trigger] counts_to(limit),
        forall|limit: u64| limit < MANTISSA_LIMIT ==> #[trigger] counts_to(limit),
        forall|limit: u128| limit < MANTISSA_LIMIT ==> #[trigger] counts_to(limit),
        forall|limit: usize| limit < MANTISSA_LIMIT ==> #[trigger] counts_to(limit),
        forall|limit: i8| limit < MANTISSA_LIMIT ==> #[trigger] counts_to(limit),
        forall|limit: i16| limit < MANTISSA_LIMIT ==> #[trigger] counts_to(limit),
        forall|limit: i32| limit < MANTISSA_LIMIT ==> #[trigger] counts_to(limit),
        forall|limit: i64| limit < MANTISSA_LIMIT ==> #[trigger] counts_to(limit),
        forall|limit: i128| limit < MANTISSA_LIMIT ==> #[trigger] counts_to(limit),
        forall|limit: isize| limit < MANTISSA_LIMIT ==> #[trigger] counts_to(limit),
{
    lemma_whole_part_of_integers();
    lemma_whole_part_of_large_integers();
    lemma_integer_constants();
}

} // verus!
