//! Complex numbers over any scalar type.

use crate::scalar::{differences_never_fail, sums_never_fail};
use std::ops::{Add, Mul, Sub};
use vstd::prelude::*;
use vstd::std_specs::ops::{AddSpec, AddSpecImpl, MulSpec, MulSpecImpl, SubSpec};

verus! {

/// A point of the complex plane.
#[derive(Copy, Clone, Default)]
pub struct Complex<T> {
    pub re: T,
    pub im: T,
}

impl<T> Complex<T> {
    pub fn new(re: T, im: T) -> (point: Self)
        ensures
            point.re == re,
            point.im == im,
    {
        Self { re, im }
    }

    /// The square of the distance from the origin: `re * re + im * im`.
    pub open spec fn spec_squared_magnitude(self) -> T where
        T: Copy + Mul<Output = T> + Add<Output = T>,
     {
        self.re.mul_spec(self.re).add_spec(self.im.mul_spec(self.im))
    }

    /// The squared magnitude can be computed: both parts can be squared,
    /// and the squares can be added. Of squares that are not known exactly
    /// this asks that any two scalars can be added.
    pub open spec fn can_measure(self) -> bool where T: Copy + Mul<Output = T> + Add<Output = T> {
        &&& self.re.mul_req(self.re)
        &&& self.im.mul_req(self.im)
        &&& (sums_never_fail::<T>() || (T::obeys_mul_spec() && self.re.mul_spec(self.re).add_req(
            self.im.mul_spec(self.im),
        )))
    }

    pub fn squared_magnitude(&self) -> (magnitude: T) where
        T: Copy + Mul<Output = T> + Add<Output = T>,

        requires
            self.can_measure(),
        ensures
            T::obeys_mul_spec() && T::obeys_add_spec() ==> magnitude
                == self.spec_squared_magnitude(),
    {
        self.re * self.re + self.im * self.im
    }
}

impl<T: Add<Output = T>> Add for Complex<T> {
    type Output = Self;

    /// The sum, taken part by part.
    fn add(self, rhs: Self) -> (sum: Self) {
        Self { re: self.re + rhs.re, im: self.im + rhs.im }
    }
}

impl<T: Add<Output = T>> AddSpecImpl for Complex<T> {
    open spec fn obeys_add_spec() -> bool {
        T::obeys_add_spec()
    }

    open spec fn add_req(self, rhs: Self) -> bool {
        self.re.add_req(rhs.re) && self.im.add_req(rhs.im)
    }

    open spec fn add_spec(self, rhs: Self) -> Self {
        Complex { re: self.re.add_spec(rhs.re), im: self.im.add_spec(rhs.im) }
    }
}

impl<T: Copy + Add<Output = T> + Sub<Output = T> + Mul<Output = T>> Mul for Complex<T> {
    type Output = Self;

    /// The product of two complex numbers:
    /// `(a + bi)(c + di) = (ac - bd) + (ad + bc)i`.
    fn mul(self, rhs: Self) -> (product: Self) {
        Self {
            re: self.re * rhs.re - self.im * rhs.im,
            im: self.re * rhs.im + self.im * rhs.re,
        }
    }
}

impl<T: Copy + Add<Output = T> + Sub<Output = T> + Mul<Output = T>> MulSpecImpl for Complex<T> {
    open spec fn obeys_mul_spec() -> bool {
        T::obeys_add_spec() && T::obeys_sub_spec() && T::obeys_mul_spec()
    }

    /// The four products of the parts can be taken, and then their
    /// difference and their sum. Of products that are not known exactly this
    /// asks that any two scalars can be subtracted and added.
    open spec fn mul_req(self, rhs: Self) -> bool {
        &&& self.re.mul_req(rhs.re)
        &&& self.im.mul_req(rhs.im)
        &&& self.re.mul_req(rhs.im)
        &&& self.im.mul_req(rhs.re)
        &&& (differences_never_fail::<T>() || (T::obeys_mul_spec() && self.re.mul_spec(
            rhs.re,
        ).sub_req(self.im.mul_spec(rhs.im))))
        &&& (sums_never_fail::<T>() || (T::obeys_mul_spec() && self.re.mul_spec(rhs.im).add_req(
            self.im.mul_spec(rhs.re),
        )))
    }

    open spec fn mul_spec(self, rhs: Self) -> Self {
        Complex {
            re: self.re.mul_spec(rhs.re).sub_spec(self.im.mul_spec(rhs.im)),
            im: self.re.mul_spec(rhs.im).add_spec(self.im.mul_spec(rhs.re)),
        }
    }
}

} // verus!
