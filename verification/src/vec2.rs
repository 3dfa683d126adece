//! Vectors in the plane: arithmetic by components, length, normalizing, turning and casting.

use vstd::prelude::*;
use std::cmp::Ordering;
use std::ops::Add;
use std::ops::AddAssign;
use std::ops::Div;
use std::ops::DivAssign;
use std::ops::Mul;
use std::ops::MulAssign;
use std::ops::Sub;
use std::ops::SubAssign;
use vstd::std_specs::cmp::PartialEqSpec;
use vstd::std_specs::cmp::PartialOrdIs;
use vstd::std_specs::cmp::PartialOrdSpec;
use vstd::std_specs::ops::AddSpec;
use vstd::std_specs::ops::DivSpec;
use vstd::std_specs::ops::MulSpec;
use vstd::std_specs::ops::SubSpec;
use crate::scalar::obeys;
use crate::scalar::zero;
use crate::scalar::zero_spec;
use crate::scalar::Scalar;
use crate::primitive::FromPrimitive;
use crate::primitive::Primitive;
use crate::primitive::ToPrimitive;

verus! {

/// A point or a direction in the plane, over any numeric representation.
///
/// Two vectors are equal where both components are, and are ordered by `x` first, then by
/// `y`.
#[derive(Clone, Copy, Debug, Default, Eq, Ord)]
pub struct Vec2<T: Copy> {
    pub x: T,
    pub y: T,
}

impl<T: Copy> Vec2<T> {
    /// The vector of the two components.
    pub fn new(x: T, y: T) -> (v: Self)
        ensures
            v == (Vec2 { x, y }),
    {
        Self { x, y }
    }

    /// The vector whose two components are `v`.
    pub fn scalar(v: T) -> (r: Self)
        ensures
            r == (Vec2 { x: v, y: v }),
    {
        Vec2::new(v, v)
    }
}

impl<T: Copy + FromPrimitive<Primitive>> Vec2<T> {
    /// The vector whose two components are zero.
    pub fn zero() -> (v: Self)
        ensures
            v == (Vec2 { x: zero_spec::<T>(), y: zero_spec::<T>() }),
    {
        Self { x: zero(), y: zero() }
    }
}

/// The sum, component by component.
impl<T: Copy + Add<Output = T>> Add for Vec2<T> {
    type Output = Vec2<T>;

    fn add(self, rhs: Vec2<T>) -> (r: Vec2<T>) {
        Vec2 { x: self.x + rhs.x, y: self.y + rhs.y }
    }
}

impl<T: Copy + Add<Output = T>> vstd::std_specs::ops::AddSpecImpl for Vec2<T> {
    open spec fn obeys_add_spec() -> bool {
        T::obeys_add_spec()
    }

    open spec fn add_req(self, rhs: Vec2<T>) -> bool {
        self.x.add_req(rhs.x) && self.y.add_req(rhs.y)
    }

    open spec fn add_spec(self, rhs: Vec2<T>) -> Vec2<T> {
        Vec2 { x: self.x.add_spec(rhs.x), y: self.y.add_spec(rhs.y) }
    }
}

impl<T: Copy + Add<Output = T>> AddAssign for Vec2<T> {
    fn add_assign(&mut self, rhs: Vec2<T>)
        requires
            old(self).add_req(rhs),
        ensures
            T::obeys_add_spec() ==> *final(self) == old(self).add_spec(rhs),
    {
        self.x = self.x + rhs.x;
        self.y = self.y + rhs.y;
    }
}

/// The difference, component by component.
impl<T: Copy + Sub<Output = T>> Sub for Vec2<T> {
    type Output = Vec2<T>;

    fn sub(self, rhs: Vec2<T>) -> (r: Vec2<T>) {
        Vec2 { x: self.x - rhs.x, y: self.y - rhs.y }
    }
}

impl<T: Copy + Sub<Output = T>> vstd::std_specs::ops::SubSpecImpl for Vec2<T> {
    open spec fn obeys_sub_spec() -> bool {
        T::obeys_sub_spec()
    }

    open spec fn sub_req(self, rhs: Vec2<T>) -> bool {
        self.x.sub_req(rhs.x) && self.y.sub_req(rhs.y)
    }

    open spec fn sub_spec(self, rhs: Vec2<T>) -> Vec2<T> {
        Vec2 { x: self.x.sub_spec(rhs.x), y: self.y.sub_spec(rhs.y) }
    }
}

impl<T: Copy + Sub<Output = T>> SubAssign for Vec2<T> {
    fn sub_assign(&mut self, rhs: Vec2<T>)
        requires
            old(self).sub_req(rhs),
        ensures
            T::obeys_sub_spec() ==> *final(self) == old(self).sub_spec(rhs),
    {
        self.x = self.x - rhs.x;
        self.y = self.y - rhs.y;
    }
}

/// The product, component by component.
impl<T: Copy + Mul<Output = T>> Mul for Vec2<T> {
    type Output = Vec2<T>;

    fn mul(self, rhs: Vec2<T>) -> (r: Vec2<T>) {
        Vec2 { x: self.x * rhs.x, y: self.y * rhs.y }
    }
}

impl<T: Copy + Mul<Output = T>> vstd::std_specs::ops::MulSpecImpl for Vec2<T> {
    open spec fn obeys_mul_spec() -> bool {
        T::obeys_mul_spec()
    }

    open spec fn mul_req(self, rhs: Vec2<T>) -> bool {
        self.x.mul_req(rhs.x) && self.y.mul_req(rhs.y)
    }

    open spec fn mul_spec(self, rhs: Vec2<T>) -> Vec2<T> {
        Vec2 { x: self.x.mul_spec(rhs.x), y: self.y.mul_spec(rhs.y) }
    }
}

impl<T: Copy + Mul<Output = T>> MulAssign for Vec2<T> {
    fn mul_assign(&mut self, rhs: Vec2<T>)
        requires
            old(self).mul_req(rhs),
        ensures
            T::obeys_mul_spec() ==> *final(self) == old(self).mul_spec(rhs),
    {
        self.x = self.x * rhs.x;
        self.y = self.y * rhs.y;
    }
}

/// The quotient, component by component.
impl<T: Copy + Div<Output = T>> Div for Vec2<T> {
    type Output = Vec2<T>;

    fn div(self, rhs: Vec2<T>) -> (r: Vec2<T>) {
        Vec2 { x: self.x / rhs.x, y: self.y / rhs.y }
    }
}

impl<T: Copy + Div<Output = T>> vstd::std_specs::ops::DivSpecImpl for Vec2<T> {
    open spec fn obeys_div_spec() -> bool {
        T::obeys_div_spec()
    }

    open spec fn div_req(self, rhs: Vec2<T>) -> bool {
        self.x.div_req(rhs.x) && self.y.div_req(rhs.y)
    }

    open spec fn div_spec(self, rhs: Vec2<T>) -> Vec2<T> {
        Vec2 { x: self.x.div_spec(rhs.x), y: self.y.div_spec(rhs.y) }
    }
}

impl<T: Copy + Div<Output = T>> DivAssign for Vec2<T> {
    fn div_assign(&mut self, rhs: Vec2<T>)
        requires
            old(self).div_req(rhs),
        ensures
            T::obeys_div_spec() ==> *final(self) == old(self).div_spec(rhs),
    {
        self.x = self.x / rhs.x;
        self.y = self.y / rhs.y;
    }
}

impl<T: Copy + Mul<Output = T>> Vec2<T> {
    /// Both components can be multiplied by `by`.
    pub open spec fn scale_req(&self, by: T) -> bool {
        self.x.mul_req(by) && self.y.mul_req(by)
    }

    /// Both components multiplied by `by`.
    pub open spec fn scaled_spec(&self, by: T) -> Vec2<T> {
        Vec2 { x: self.x.mul_spec(by), y: self.y.mul_spec(by) }
    }

    /// The vector with both components multiplied by `by`.
    pub fn scaled(&self, by: T) -> (r: Self)
        requires
            self.scale_req(by),
        ensures
            T::obeys_mul_spec() ==> r == self.scaled_spec(by),
    {
        let mut ret = *self;
        ret.scale(by);
        ret
    }

    /// Multiplies both components by `by`.
    pub fn scale(&mut self, by: T) -> (r: &mut Self)
        requires
            old(self).scale_req(by),
        ensures
            T::obeys_mul_spec() ==> *r == old(self).scaled_spec(by),
            *final(self) == *final(r),
    {
        self.x = self.x * by;
        self.y = self.y * by;
        self
    }
}

impl<T: Copy + Mul<Output = T> + Add<Output = T>> Vec2<T> {
    /// The squares and their sum can be formed.
    pub open spec fn sq_magn_req(&self) -> bool {
        &&& self.x.mul_req(self.x)
        &&& self.y.mul_req(self.y)
        &&& self.x.mul_spec(self.x).add_req(self.y.mul_spec(self.y))
    }

    /// The sum of the squared components.
    pub open spec fn sq_magn_spec(&self) -> T {
        self.x.mul_spec(self.x).add_spec(self.y.mul_spec(self.y))
    }

    /// The square of the length: the sum of the squared components.
    pub fn sq_magn(&self) -> (r: T)
        requires
            T::obeys_mul_spec(),
            T::obeys_add_spec(),
            self.sq_magn_req(),
        ensures
            r == self.sq_magn_spec(),
    {
        self.x * self.x + self.y * self.y
    }
}

impl<T: Scalar> Vec2<T> {
    /// The length: the square root of the sum of the squared components.
    pub open spec fn magn_spec(&self) -> T {
        self.sq_magn_spec().sqrt_spec()
    }

    /// The length tests greater than zero.
    pub open spec fn has_length(&self) -> bool {
        self.magn_spec().is_gt(&zero_spec::<T>())
    }

    /// The length can be formed, and divided by where it is greater than zero.
    pub open spec fn normalize_req(&self) -> bool {
        &&& self.sq_magn_req()
        &&& self.has_length() ==> self.x.div_req(self.magn_spec()) && self.y.div_req(
            self.magn_spec(),
        )
    }

    /// The vector divided by its length; the vector itself where its length is not greater
    /// than zero.
    pub open spec fn normalized_spec(&self) -> Vec2<T> {
        if self.has_length() {
            Vec2 {
                x: self.x.div_spec(self.magn_spec()),
                y: self.y.div_spec(self.magn_spec()),
            }
        } else {
            *self
        }
    }

    /// The length: the square root of the sum of the squared components.
    pub fn magn(&self) -> (r: T)
        requires
            T::obeys_mul_spec(),
            T::obeys_add_spec(),
            self.sq_magn_req(),
        ensures
            r == self.magn_spec(),
    {
        self.sq_magn().sqrt()
    }

    /// Divides the vector by its length, where that is greater than zero, and returns the
    /// length that it had. A vector without length is left as it is.
    pub fn normalize(&mut self) -> (len: T)
        requires
            obeys::<T>(),
            old(self).normalize_req(),
        ensures
            len == old(self).magn_spec(),
            *final(self) == old(self).normalized_spec(),
    {
        let len = self.magn();
        if len > zero() {
            self.x = self.x / len;
            self.y = self.y / len;
        }
        len
    }

    /// The vector divided by its length, where that is greater than zero; else the vector
    /// itself.
    pub fn normalized(&self) -> (r: Self)
        requires
            obeys::<T>(),
            self.normalize_req(),
        ensures
            r == self.normalized_spec(),
    {
        let mut ret = *self;
        ret.normalize();
        ret
    }
}

/// Normalizing the zero vector divides by nothing: it can always be done, leaves the vector
/// as it is and returns zero for its length.
pub proof fn lemma_normalize_zero<T: Scalar>(v: Vec2<T>)
    requires
        v == (Vec2 { x: zero_spec::<T>(), y: zero_spec::<T>() }),
    ensures
        v.normalize_req(),
        v.magn_spec() == zero_spec::<T>(),
        v.normalized_spec() == v,
{
    T::zero_behaves();
}

/// Whatever the arithmetic of `T`, a vector whose length is not greater than zero is left as
/// it is by normalizing.
pub proof fn lemma_normalize_without_length<T: Scalar>(v: Vec2<T>)
    requires
        !v.has_length(),
    ensures
        v.normalized_spec() == v,
{
}

impl<T: Copy + ToPrimitive> Vec2<T> {
    /// Both components taken through the common intermediate into `To`.
    pub open spec fn cast_spec<To: Copy + ToPrimitive + FromPrimitive<Primitive>>(&self) -> Vec2<
        To,
    > {
        Vec2 {
            x: To::from_primitive_spec(self.x.to_primitive_spec()),
            y: To::from_primitive_spec(self.y.to_primitive_spec()),
        }
    }

    /// The vector in another numeric representation: each component goes through the
    /// double-precision intermediate, so that a fraction is cut off on the way to an integer
    /// and a value out of range is held at the nearest end of the range.
    pub fn cast<To: Copy + ToPrimitive + FromPrimitive<Primitive>>(&self) -> (r: Vec2<To>)
        ensures
            r == self.cast_spec::<To>(),
    {
        Vec2::new(
            To::from_primitive(self.x.to_primitive()),
            To::from_primitive(self.y.to_primitive()),
        )
    }
}

impl<T: Copy + Mul<Output = T> + Sub<Output = T> + Add<Output = T>> Vec2<T> {
    /// The four products, the difference and the sum of a rotation can be formed.
    pub open spec fn rotate_req(&self, cos_theta: T, sin_theta: T) -> bool {
        &&& self.x.mul_req(cos_theta)
        &&& self.y.mul_req(sin_theta)
        &&& self.x.mul_req(sin_theta)
        &&& self.y.mul_req(cos_theta)
        &&& self.x.mul_spec(cos_theta).sub_req(self.y.mul_spec(sin_theta))
        &&& self.x.mul_spec(sin_theta).add_req(self.y.mul_spec(cos_theta))
    }

    /// The vector turned by the angle whose cosine and sine are given.
    pub open spec fn rotated_spec(&self, cos_theta: T, sin_theta: T) -> Vec2<T> {
        Vec2 {
            x: self.x.mul_spec(cos_theta).sub_spec(self.y.mul_spec(sin_theta)),
            y: self.x.mul_spec(sin_theta).add_spec(self.y.mul_spec(cos_theta)),
        }
    }

    /// The arithmetic of `T` is a function of its operands.
    pub open spec fn obeys_rotate() -> bool {
        T::obeys_mul_spec() && T::obeys_sub_spec() && T::obeys_add_spec()
    }

    /// Turns the vector by the angle whose cosine and sine are given.
    pub fn rotate(&mut self, cos_theta: T, sin_theta: T) -> (r: &mut Self)
        requires
            Self::obeys_rotate(),
            old(self).rotate_req(cos_theta, sin_theta),
        ensures
            *r == old(self).rotated_spec(cos_theta, sin_theta),
            *final(self) == *final(r),
    {
        let x = self.x;
        self.x = x * cos_theta - self.y * sin_theta;
        self.y = x * sin_theta + self.y * cos_theta;
        self
    }

    /// The vector turned by the angle whose cosine and sine are given.
    pub fn rotated(&self, cos_theta: T, sin_theta: T) -> (r: Vec2<T>)
        requires
            Self::obeys_rotate(),
            self.rotate_req(cos_theta, sin_theta),
        ensures
            r == self.rotated_spec(cos_theta, sin_theta),
    {
        let mut ret = *self;
        ret.rotate(cos_theta, sin_theta);
        ret
    }
}

impl<T: Copy + PartialEq> PartialEq for Vec2<T> {
    fn eq(&self, other: &Self) -> (r: bool) {
        self.x == other.x && self.y == other.y
    }
}

impl<T: Copy + PartialEq> vstd::std_specs::cmp::PartialEqSpecImpl for Vec2<T> {
    open spec fn obeys_eq_spec() -> bool {
        T::obeys_eq_spec()
    }

    open spec fn eq_spec(&self, other: &Self) -> bool {
        self.x.eq_spec(&other.x) && self.y.eq_spec(&other.y)
    }
}

impl<T: Copy + PartialOrd> PartialOrd for Vec2<T> {
    fn partial_cmp(&self, other: &Self) -> (r: Option<Ordering>) {
        match self.x.partial_cmp(&other.x) {
            Some(Ordering::Equal) => {},
            ord => return ord,
        }
        self.y.partial_cmp(&other.y)
    }
}

impl<T: Copy + PartialOrd> vstd::std_specs::cmp::PartialOrdSpecImpl for Vec2<T> {
    open spec fn obeys_partial_cmp_spec() -> bool {
        T::obeys_partial_cmp_spec()
    }

    open spec fn partial_cmp_spec(&self, other: &Self) -> Option<Ordering> {
        if self.x.partial_cmp_spec(&other.x) == Some(Ordering::Equal) {
            self.y.partial_cmp_spec(&other.y)
        } else {
            self.x.partial_cmp_spec(&other.x)
        }
    }
}

} // verus!
