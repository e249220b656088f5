//! The orbit of a point under the quadratic map, and when it escapes.
//!
//! The orbit of a point `c` starts at zero and moves by `z -> z * z + c`. The
//! point has escaped at the first step at which the squared magnitude of its
//! orbit lies beyond the threshold. A point whose orbit stays within the
//! threshold for as many steps as the iteration cap allows counts as bounded.

use crate::complex::Complex;
use crate::scalar::{
    arithmetic_is_exact, arithmetic_never_fails, exceeds, scalar_of, sums_never_fail, Scalar,
};
use vstd::prelude::*;
use vstd::std_specs::ops::{AddSpec, MulSpec, SubSpec};

verus! {

/// The squared magnitude beyond which a point is taken to have escaped.
pub const MAX_SQUARED_MAGNITUDE: u32 = 4;

/// The orbit of `point` after `k` steps of `z -> z * z + point`, from zero.
pub open spec fn orbit<T: Scalar>(point: Complex<T>, k: nat) -> Complex<T>
    decreases k,
{
    if k == 0 {
        Complex { re: scalar_of::<T>(0), im: scalar_of::<T>(0) }
    } else {
        let z = orbit(point, (k - 1) as nat);
        z.mul_spec(z).add_spec(point)
    }
}

/// After `k` steps the orbit of `point` lies beyond the escape threshold.
pub open spec fn escapes_at<T: Scalar>(point: Complex<T>, k: nat) -> bool {
    exceeds(orbit(point, k).spec_squared_magnitude(), scalar_of::<T>(MAX_SQUARED_MAGNITUDE))
}

/// The orbit of `point` has not escaped at any step before `k`.
pub open spec fn bounded_before<T: Scalar>(point: Complex<T>, k: nat) -> bool {
    forall|j: nat| j < k ==> !escapes_at(point, j)
}

/// The step from `z` can be made: `z` can be squared, and `point` can be
/// added to the square.
pub open spec fn can_step<T: Scalar>(z: Complex<T>, point: Complex<T>) -> bool {
    &&& z.mul_req(z)
    &&& (sums_never_fail::<T>() || (Complex::<T>::obeys_mul_spec() && z.mul_spec(z).add_req(
        point,
    )))
}

/// Every operation that the iteration of `point` under the cap `cap` comes
/// to can be made: as long as the orbit has not escaped, its squared
/// magnitude can be computed and, where it still has not escaped, the next
/// step can be made.
pub open spec fn orbit_permitted<T: Scalar>(point: Complex<T>, cap: nat) -> bool {
    forall|k: nat|
        k < cap && #[trigger] bounded_before(point, k) ==> {
            &&& orbit(point, k).can_measure()
            &&& !escapes_at(point, k) ==> can_step(orbit(point, k), point)
        }
}

/// The iteration of `point` under the cap `cap` cannot fail: the cap is 0
/// and nothing is computed, or no arithmetic on the scalar ever fails, or the
/// arithmetic is exact and each operation on the orbit is permitted.
pub open spec fn can_iterate<T: Scalar>(point: Complex<T>, cap: nat) -> bool {
    ||| cap == 0
    ||| arithmetic_never_fails::<T>()
    ||| (arithmetic_is_exact::<T>() && orbit_permitted(point, cap))
}

/// The first iteration from `from` on and below `cap` at which the orbit of
/// `point` lies beyond the threshold, if there is one.
pub open spec fn first_escape<T: Scalar>(point: Complex<T>, from: nat, cap: nat) -> Option<usize>
    decreases cap - from,
{
    if from >= cap {
        None
    } else if escapes_at(point, from) {
        Some(from as usize)
    } else {
        first_escape(point, from + 1, cap)
    }
}

/// The escape time of `point` under the iteration cap `cap`: the first
/// iteration below the cap at which its orbit lies beyond the threshold, or
/// `None` for a point that stays bounded that long.
pub open spec fn spec_escape_time<T: Scalar>(point: Complex<T>, cap: nat) -> Option<usize> {
    first_escape(point, 0, cap)
}

/// Iterations at which the orbit has not escaped can be skipped.
pub proof fn lemma_first_escape_skips<T: Scalar>(point: Complex<T>, from: nat, to: nat, cap: nat)
    requires
        from <= to <= cap,
        forall|k: nat| from <= k < to ==> !escapes_at(point, k),
    ensures
        first_escape(point, from, cap) == first_escape(point, to, cap),
    decreases to - from,
{
    if from < to {
        lemma_first_escape_skips(point, from + 1, to, cap);
    }
}

/// The escape time is the first iteration below the cap at which the orbit
/// lies beyond the threshold: no earlier iteration does, and where the
/// point counts as bounded, none below the cap does.
pub proof fn lemma_escape_time_is_first<T: Scalar>(point: Complex<T>, cap: nat)
    requires
        cap <= usize::MAX,
    ensures
        match spec_escape_time(point, cap) {
            Some(i) => {
                &&& i < cap
                &&& escapes_at(point, i as nat)
                &&& forall|k: nat| k < i ==> !escapes_at(point, k)
            },
            None => forall|k: nat| k < cap ==> !escapes_at(point, k),
        },
{
    lemma_first_escape_from(point, 0, cap);
}

/// What `first_escape` finds from `from` on.
proof fn lemma_first_escape_from<T: Scalar>(point: Complex<T>, from: nat, cap: nat)
    requires
        cap <= usize::MAX,
    ensures
        match first_escape(point, from, cap) {
            Some(i) => {
                &&& from <= i < cap
                &&& escapes_at(point, i as nat)
                &&& forall|k: nat| from <= k < i ==> !escapes_at(point, k)
            },
            None => forall|k: nat| from <= k < cap ==> !escapes_at(point, k),
        },
    decreases cap - from,
{
    if from < cap && !escapes_at(point, from) {
        lemma_first_escape_from(point, from + 1, cap);
    }
}

/// A point whose orbit first lies beyond the threshold at iteration `i`
/// escapes at `i` under every cap above `i`: a larger cap never changes when
/// a point escapes.
pub proof fn lemma_escape_time_whatever_the_cap<T: Scalar>(point: Complex<T>, i: nat, cap: nat)
    requires
        i < cap <= usize::MAX,
        escapes_at(point, i),
        forall|k: nat| k < i ==> !escapes_at(point, k),
    ensures
        spec_escape_time(point, cap) == Some(i as usize),
{
    lemma_first_escape_skips(point, 0, i, cap);
}

/// Under the cap 0 no iteration is made, and every point counts as bounded.
pub proof fn lemma_cap_zero_bounds_every_point<T: Scalar>(point: Complex<T>)
    ensures
        spec_escape_time(point, 0) is None,
{
}

/// The scalar zero behaves as the number zero does: its square, its sum
/// with itself and its difference from itself are zero, and it does not lie
/// beyond the escape threshold.
pub open spec fn zero_is_zero<T: Scalar>() -> bool {
    let zero = scalar_of::<T>(0);
    &&& zero.mul_spec(zero) == zero
    &&& zero.add_spec(zero) == zero
    &&& zero.sub_spec(zero) == zero
    &&& !exceeds(zero, scalar_of::<T>(MAX_SQUARED_MAGNITUDE))
}

/// The origin stays bounded under every cap: its orbit never leaves zero.
pub proof fn lemma_origin_is_bounded<T: Scalar>(cap: nat)
    requires
        zero_is_zero::<T>(),
    ensures
        spec_escape_time(Complex { re: scalar_of::<T>(0), im: scalar_of::<T>(0) }, cap) is None,
{
    let origin = Complex { re: scalar_of::<T>(0), im: scalar_of::<T>(0) };
    assert forall|k: nat| k < cap implies !escapes_at(origin, k) by {
        lemma_orbit_of_origin::<T>(k);
    }
    lemma_first_escape_skips(origin, 0, cap, cap);
}

/// The orbit of the origin is the origin at every step.
pub proof fn lemma_orbit_of_origin<T: Scalar>(k: nat)
    requires
        zero_is_zero::<T>(),
    ensures
        orbit(Complex { re: scalar_of::<T>(0), im: scalar_of::<T>(0) }, k) == (Complex {
            re: scalar_of::<T>(0),
            im: scalar_of::<T>(0),
        }),
    decreases k,
{
    if k > 0 {
        lemma_orbit_of_origin::<T>((k - 1) as nat);
    }
}

/// A point that itself lies beyond the threshold has escaped once the
/// first step has brought its orbit from zero to the point: it escapes at
/// iteration 1, under every cap that allows two iterations. At iteration 0
/// the orbit is still at zero, so no point escapes there, and under the cap 1
/// every point counts as bounded.
pub proof fn lemma_point_beyond_threshold<T: Scalar>(point: Complex<T>, cap: nat)
    requires
        zero_is_zero::<T>(),
        scalar_of::<T>(0).add_spec(point.re) == point.re,
        scalar_of::<T>(0).add_spec(point.im) == point.im,
        exceeds(point.spec_squared_magnitude(), scalar_of::<T>(MAX_SQUARED_MAGNITUDE)),
        cap <= usize::MAX,
    ensures
        cap >= 2 ==> spec_escape_time(point, cap) == Some(1usize),
        cap <= 1 ==> spec_escape_time(point, cap) is None,
{
    assert(orbit(point, 1) == point);
    if cap >= 2 {
        assert forall|k: nat| k < 1 implies !escapes_at(point, k) by {
            assert(k == 0);
        }
        lemma_escape_time_whatever_the_cap(point, 1, cap);
    } else if cap == 1 {
        assert(first_escape(point, 1, 1) is None);
    }
}

} // verus!
