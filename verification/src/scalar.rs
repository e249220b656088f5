//! What the renderer asks of the numbers that it computes with.
//!
//! The renderer is generic in its scalar type, and no operation on a scalar
//! may stop a render. There are two ways to know that none does. Either the
//! arithmetic of the scalar never fails, whatever its operands: then every
//! computation is permitted. Or the arithmetic is exact, which is to say that
//! each operation yields the value that its specification names: then the
//! operands of each operation are known in advance, and it is enough that
//! each operation that a computation comes to is permitted on its operands.
//!
//! Where the arithmetic is exact, the contracts of the renderer say exactly
//! which value each computation yields. Where it is not, they say what holds
//! of every outcome.

use std::ops::{Add, Div, Mul, Sub};
use vstd::prelude::*;
use vstd::std_specs::cmp::{PartialOrdIs, PartialOrdSpec};
use vstd::std_specs::convert::FromSpec;
use vstd::std_specs::ops::{AddSpec, DivSpec, MulSpec, SubSpec};

verus! {

/// The scalars of the complex plane: copyable numbers with the four
/// arithmetic operations and an order, into which a pixel coordinate
/// converts.
pub trait Scalar: Copy + PartialOrd + Add<Output = Self> + Sub<Output = Self> + Mul<
    Output = Self,
> + Div<Output = Self> + From<u32> {

}

impl<T> Scalar for T where
    T: Copy + PartialOrd + Add<Output = T> + Sub<Output = T> + Mul<Output = T> + Div<
        Output = T,
    > + From<u32>,
 {

}

/// Any two values of `T` can be added.
pub open spec fn sums_never_fail<T: Add<Output = T>>() -> bool {
    forall|a: T, b: T| #[trigger] a.add_req(b)
}

/// Any value of `T` can be subtracted from any other.
pub open spec fn differences_never_fail<T: Sub<Output = T>>() -> bool {
    forall|a: T, b: T| #[trigger] a.sub_req(b)
}

/// Any two values of `T` can be multiplied.
pub open spec fn products_never_fail<T: Mul<Output = T>>() -> bool {
    forall|a: T, b: T| #[trigger] a.mul_req(b)
}

/// Any value of `T` can be divided by any other.
pub open spec fn quotients_never_fail<T: Div<Output = T>>() -> bool {
    forall|a: T, b: T| #[trigger] a.div_req(b)
}

/// None of the four operations of `T` can fail, whatever its operands.
pub open spec fn arithmetic_never_fails<T: Scalar>() -> bool {
    &&& sums_never_fail::<T>()
    &&& differences_never_fail::<T>()
    &&& products_never_fail::<T>()
    &&& quotients_never_fail::<T>()
}

/// Every operation of `T` that the renderer uses yields the value that the
/// operation's specification names.
pub open spec fn arithmetic_is_exact<T: Scalar>() -> bool {
    &&& T::obeys_add_spec()
    &&& T::obeys_sub_spec()
    &&& T::obeys_mul_spec()
    &&& T::obeys_div_spec()
    &&& T::obeys_partial_cmp_spec()
    &&& T::obeys_from_spec()
}

/// The scalar that stands for the whole number `n`.
pub open spec fn scalar_of<T: Scalar>(n: u32) -> T {
    T::from_spec(n)
}

/// `a` is strictly greater than `b`.
pub open spec fn exceeds<T: Scalar>(a: T, b: T) -> bool {
    a.is_gt(&b)
}

} // verus!
