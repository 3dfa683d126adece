//! The numbers that vectors, rays and worlds are built on, and what is assumed of them.
//!
//! The library is generic over its numbers. What an operator does to two of them is known
//! through the specifications that each type gives for its operators; the contracts of the
//! functions that compute with scalars are stated over those specifications, and hold of the
//! types that obey them.
//!
//! A type is a scalar by declaring so, and with the declaration it owes one law: that its zero
//! behaves as zero. The integer types are scalars, and prove the law.

use vstd::prelude::*;
use std::ops::Add;
use std::ops::Div;
use std::ops::Mul;
use std::ops::Sub;
use vstd::std_specs::cmp::PartialEqSpec;
use vstd::std_specs::cmp::PartialOrdIs;
use vstd::std_specs::cmp::PartialOrdSpec;
use vstd::std_specs::ops::AddSpec;
use vstd::std_specs::ops::DivSpec;
use vstd::std_specs::ops::MulSpec;
use vstd::std_specs::ops::SubSpec;
use crate::primitive::FromPrimitive;
use crate::primitive::Primitive;
use crate::primitive::ToPrimitive;
use crate::sqrt::Sqrt;

verus! {

/// Zero behaves as zero in `T`: its square and its double are zero, its square root is zero,
/// and it is not greater than itself.
pub open spec fn zero_is_neutral<
    T: Copy + PartialOrd + Add<Output = T> + Mul<Output = T> + Sqrt + FromPrimitive<Primitive>,
>() -> bool {
    &&& zero_spec::<T>().mul_req(zero_spec::<T>())
    &&& zero_spec::<T>().mul_spec(zero_spec::<T>()) == zero_spec::<T>()
    &&& zero_spec::<T>().add_req(zero_spec::<T>())
    &&& zero_spec::<T>().add_spec(zero_spec::<T>()) == zero_spec::<T>()
    &&& zero_spec::<T>().sqrt_spec() == zero_spec::<T>()
    &&& !zero_spec::<T>().is_gt(&zero_spec::<T>())
}

/// What the world asks of the numbers it is built on: they are copied freely, can be
/// compared, added, subtracted, multiplied and divided, have a square root, convert to and
/// from the other numeric representations, and have a zero that behaves as zero.
pub trait Scalar: Copy + PartialOrd + Add<Output = Self> + Sub<Output = Self> + Mul<
    Output = Self,
> + Div<Output = Self> + Sqrt + ToPrimitive + FromPrimitive<Primitive> {
    /// The law of zero: the square and the double of zero are zero, the square root of zero
    /// is zero, and zero is not greater than itself.
    proof fn zero_behaves()
        ensures
            zero_is_neutral::<Self>(),
    ;
}

/// The arithmetic, the equality and the order of `T` are functions of their operands: what an
/// operation returns is what its specification says. The integer types obey; a type whose
/// operations may answer differently from one call to the next does not, and of such a type
/// the contracts of this library promise nothing.
pub open spec fn obeys<T: Scalar>() -> bool {
    &&& T::obeys_eq_spec()
    &&& T::obeys_partial_cmp_spec()
    &&& T::obeys_add_spec()
    &&& T::obeys_sub_spec()
    &&& T::obeys_mul_spec()
    &&& T::obeys_div_spec()
}

/// The zero of a numeric representation: what the double zero converts to.
pub open spec fn zero_spec<T: FromPrimitive<Primitive>>() -> T {
    T::from_primitive_spec(Primitive::of_int(0))
}

/// The one of a numeric representation: what the double one converts to.
pub open spec fn one_spec<T: FromPrimitive<Primitive>>() -> T {
    T::from_primitive_spec(Primitive::of_int(1))
}

/// The zero of a numeric representation.
pub fn zero<T: FromPrimitive<Primitive>>() -> (z: T)
    ensures
        z == zero_spec::<T>(),
{
    T::from_primitive(Primitive::from_signed(0))
}

/// The one of a numeric representation.
pub fn one<T: FromPrimitive<Primitive>>() -> (z: T)
    ensures
        z == one_spec::<T>(),
{
    T::from_primitive(Primitive::from_signed(1))
}

/// One half in a numeric representation: what the double one half converts to. Among the
/// whole numbers that is zero.
pub open spec fn half_spec<T: FromPrimitive<Primitive>>() -> T {
    T::from_primitive_spec(Primitive::Finite { negative: false, mantissa: 1, exponent: -1i16 })
}

/// One half in a numeric representation.
pub fn half<T: FromPrimitive<Primitive>>() -> (h: T)
    ensures
        h == half_spec::<T>(),
{
    T::from_primitive(Primitive::Finite { negative: false, mantissa: 1, exponent: -1 })
}

/// The whole part of a scalar, as far as 128 bits hold it.
pub open spec fn whole_part<T: ToPrimitive>(a: T) -> int {
    a.to_primitive_spec().clamped(i128::MIN as int, i128::MAX as int)
}

/// `T` counts like the whole numbers from zero up to `limit`: adding one to a scalar below
/// `limit` can be done and adds one to its whole part, and a scalar up to `limit` has reached
/// `limit` exactly where its whole part has.
pub open spec fn counts_to<T: Scalar>(limit: T) -> bool {
    &&& forall|a: T|
        0 <= #[trigger] whole_part(a) < whole_part(limit) ==> a.add_req(one_spec::<T>())
            && whole_part(a.add_spec(one_spec::<T>())) == whole_part(a) + 1
    &&& forall|a: T|
        0 <= #[trigger] whole_part(a) <= whole_part(limit) ==> (a.is_ge(&limit) <==> whole_part(a)
            >= whole_part(limit))
}

} // verus!
