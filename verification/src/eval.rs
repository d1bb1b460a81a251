//! The mutually related evaluators for the rational function and its
//! derivative.
//!
//! The function is f(z) = prod(z - root_i) / prod(z - pole_j).  Both
//! evaluators peel one list entry at a time from the front, all roots first,
//! then all poles, so that the base case sees both lists empty at once.  The
//! value is pinned, operation by operation, to a spec-level recursion over
//! the named results of the double-precision primitives.

use vstd::prelude::*;
use vstd::slice::{slice_index_get, slice_subrange};
use crate::complex::{
    Complex, c_one, c_zero, spec_add, spec_sub, spec_mul, spec_div, spec_neg, spec_norm_sqr,
    double_lt, c_add, c_sub, c_mul, c_div, c_neg, c_norm_sqr, c_lt, ONE_BITS, ZERO_BITS,
    EPS_POLE_SQR_BITS,
};

verus! {

/// The current point is too close to one of the poles: a denominator term is
/// near zero and the quotient is numerically meaningless.
#[derive(Clone, Copy, PartialEq, Eq, Debug)]
pub struct PoleProximityError;

/// Whether the difference `d` between the current point and a pole fails the
/// pole-proximity check: its squared norm is strictly below the squared
/// threshold.
pub open spec fn spec_pole_too_close(d: Complex) -> bool {
    double_lt(spec_norm_sqr(d), EPS_POLE_SQR_BITS)
}

/// The value of the rational function at `z`: the product of (z - root) over
/// the roots, divided by the product of (z - pole) over the poles, built by
/// peeling the lists from the front, roots before poles.
pub open spec fn spec_compute(z: Complex, roots: Seq<Complex>, poles: Seq<Complex>) -> Result<
    Complex,
    PoleProximityError,
>
    decreases roots.len() + poles.len(),
{
    if roots.len() == 0 && poles.len() == 0 {
        Ok(c_one())
    } else if roots.len() == 0 {
        let d = spec_sub(z, poles[0]);
        if spec_pole_too_close(d) {
            Err(PoleProximityError)
        } else {
            match spec_compute(z, roots, poles.drop_first()) {
                Ok(x) => Ok(spec_div(x, d)),
                Err(e) => Err(e),
            }
        }
    } else {
        let d = spec_sub(z, roots[0]);
        match spec_compute(z, roots.drop_first(), poles) {
            Ok(x) => Ok(spec_mul(x, d)),
            Err(e) => Err(e),
        }
    }
}

/// The value of the derivative of the rational function at `z`, built by the
/// same peeling order: the product rule on each root factor, the quotient
/// rule on each pole factor.
pub open spec fn spec_derive(z: Complex, roots: Seq<Complex>, poles: Seq<Complex>) -> Result<
    Complex,
    PoleProximityError,
>
    decreases roots.len() + poles.len(),
{
    if roots.len() == 0 && poles.len() == 0 {
        Ok(c_zero())
    } else if roots.len() == 0 {
        let d = spec_sub(z, poles[0]);
        if spec_pole_too_close(d) {
            Err(PoleProximityError)
        } else {
            let a = match spec_compute(z, roots, poles.drop_first()) {
                Ok(x) => Ok(spec_div(spec_neg(x), spec_mul(d, d))),
                Err(e) => Err::<Complex, PoleProximityError>(e),
            };
            let b = match spec_derive(z, roots, poles.drop_first()) {
                Ok(x) => Ok(spec_div(x, d)),
                Err(e) => Err::<Complex, PoleProximityError>(e),
            };
            match (a, b) {
                (Ok(x), Ok(y)) => Ok(spec_add(x, y)),
                (Err(e), _) => Err(e),
                (_, Err(e)) => Err(e),
            }
        }
    } else {
        let d = spec_sub(z, roots[0]);
        let a = spec_compute(z, roots.drop_first(), poles);
        let b = match spec_derive(z, roots.drop_first(), poles) {
            Ok(x) => Ok(spec_mul(x, d)),
            Err(e) => Err::<Complex, PoleProximityError>(e),
        };
        match (a, b) {
            (Ok(x), Ok(y)) => Ok(spec_add(x, y)),
            (Err(e), _) => Err(e),
            (_, Err(e)) => Err(e),
        }
    }
}

/// Evaluates the rational function at `z` by recursive peeling: all roots
/// are stripped first (multiplying), then all poles (dividing), and a pole
/// term whose squared norm falls below the threshold fails the call.
pub fn compute(z: Complex, roots: &[Complex], poles: &[Complex]) -> (r: Result<
    Complex,
    PoleProximityError,
>)
    ensures
        r == spec_compute(z, roots@, poles@),
    decreases roots@.len() + poles@.len(),
{
    if roots.len() == 0 && poles.len() == 0 {
        Ok(Complex { re: ONE_BITS, im: ZERO_BITS })
    } else if roots.len() == 0 {
        let d = c_sub(z, *slice_index_get(poles, 0));
        if c_lt(c_norm_sqr(d), EPS_POLE_SQR_BITS) {
            Err(PoleProximityError)
        } else {
            let rest = slice_subrange(poles, 1, poles.len());
            proof {
                assert(rest@ =~= poles@.drop_first());
            }
            match compute(z, roots, rest) {
                Ok(x) => Ok(c_div(x, d)),
                Err(e) => Err(e),
            }
        }
    } else {
        let d = c_sub(z, *slice_index_get(roots, 0));
        let rest = slice_subrange(roots, 1, roots.len());
        proof {
            assert(rest@ =~= roots@.drop_first());
        }
        match compute(z, rest, poles) {
            Ok(x) => Ok(c_mul(x, d)),
            Err(e) => Err(e),
        }
    }
}

/// Evaluates the derivative of the rational function at `z`, mirroring the
/// peeling order of `compute`; both sub-results of a step must succeed, and
/// a pole-proximity failure in either propagates.
pub fn derive(z: Complex, roots: &[Complex], poles: &[Complex]) -> (r: Result<
    Complex,
    PoleProximityError,
>)
    ensures
        r == spec_derive(z, roots@, poles@),
    decreases roots@.len() + poles@.len(),
{
    if roots.len() == 0 && poles.len() == 0 {
        Ok(Complex { re: ZERO_BITS, im: ZERO_BITS })
    } else if roots.len() == 0 {
        let d = c_sub(z, *slice_index_get(poles, 0));
        if c_lt(c_norm_sqr(d), EPS_POLE_SQR_BITS) {
            Err(PoleProximityError)
        } else {
            let rest = slice_subrange(poles, 1, poles.len());
            proof {
                assert(rest@ =~= poles@.drop_first());
            }
            let a = match compute(z, roots, rest) {
                Ok(x) => Ok(c_div(c_neg(x), c_mul(d, d))),
                Err(e) => Err::<Complex, PoleProximityError>(e),
            };
            let b = match derive(z, roots, rest) {
                Ok(x) => Ok(c_div(x, d)),
                Err(e) => Err::<Complex, PoleProximityError>(e),
            };
            match (a, b) {
                (Ok(x), Ok(y)) => Ok(c_add(x, y)),
                (Err(e), _) => Err(e),
                (_, Err(e)) => Err(e),
            }
        }
    } else {
        let d = c_sub(z, *slice_index_get(roots, 0));
        let rest = slice_subrange(roots, 1, roots.len());
        proof {
            assert(rest@ =~= roots@.drop_first());
        }
        let a = compute(z, rest, poles);
        let b = match derive(z, rest, poles) {
            Ok(x) => Ok(c_mul(x, d)),
            Err(e) => Err::<Complex, PoleProximityError>(e),
        };
        match (a, b) {
            (Ok(x), Ok(y)) => Ok(c_add(x, y)),
            (Err(e), _) => Err(e),
            (_, Err(e)) => Err(e),
        }
    }
}

/// For empty root and pole lists the function value is one, for every point:
/// the empty product ratio.
pub proof fn lemma_compute_empty(z: Complex)
    ensures
        spec_compute(z, Seq::<Complex>::empty(), Seq::<Complex>::empty()) == Ok::<
            Complex,
            PoleProximityError,
        >(c_one()),
{
}

/// For empty root and pole lists the derivative is zero, for every point:
/// the derivative of a constant.
pub proof fn lemma_derive_empty(z: Complex)
    ensures
        spec_derive(z, Seq::<Complex>::empty(), Seq::<Complex>::empty()) == Ok::<
            Complex,
            PoleProximityError,
        >(c_zero()),
{
}

/// For a single root and no poles the value is z - r scaled by the empty
/// product: one times (z - r), for every point, and the call never fails.
pub proof fn lemma_compute_single_root(z: Complex, r: Complex)
    ensures
        spec_compute(z, seq![r], Seq::<Complex>::empty()) == Ok::<Complex, PoleProximityError>(
            spec_mul(c_one(), spec_sub(z, r)),
        ),
{
    reveal_with_fuel(spec_compute, 2);
    assert(seq![r].drop_first() =~= Seq::<Complex>::empty());
}

/// For a single root and no poles the derivative is the product rule on one
/// factor: one plus zero times (z - r), for every point, and the call never
/// fails.
pub proof fn lemma_derive_single_root(z: Complex, r: Complex)
    ensures
        spec_derive(z, seq![r], Seq::<Complex>::empty()) == Ok::<Complex, PoleProximityError>(
            spec_add(c_one(), spec_mul(c_zero(), spec_sub(z, r))),
        ),
{
    reveal_with_fuel(spec_compute, 2);
    reveal_with_fuel(spec_derive, 2);
    assert(seq![r].drop_first() =~= Seq::<Complex>::empty());
}

/// For no roots and a single pole: away from the pole the value is one
/// divided by (z - p); within the pole threshold the call fails.
pub proof fn lemma_compute_single_pole(z: Complex, p: Complex)
    ensures
        !spec_pole_too_close(spec_sub(z, p)) ==> spec_compute(z, Seq::<Complex>::empty(), seq![p])
            == Ok::<Complex, PoleProximityError>(spec_div(c_one(), spec_sub(z, p))),
        spec_pole_too_close(spec_sub(z, p)) ==> spec_compute(z, Seq::<Complex>::empty(), seq![p])
            == Err::<Complex, PoleProximityError>(PoleProximityError),
{
    reveal_with_fuel(spec_compute, 2);
    assert(seq![p].drop_first() =~= Seq::<Complex>::empty());
}

/// For no roots and a single pole: away from the pole the derivative is the
/// quotient rule on one factor, minus one over (z - p) squared plus zero
/// over (z - p); within the pole threshold the call fails.
pub proof fn lemma_derive_single_pole(z: Complex, p: Complex)
    ensures
        !spec_pole_too_close(spec_sub(z, p)) ==> spec_derive(z, Seq::<Complex>::empty(), seq![p])
            == Ok::<Complex, PoleProximityError>(
            spec_add(
                spec_div(spec_neg(c_one()), spec_mul(spec_sub(z, p), spec_sub(z, p))),
                spec_div(c_zero(), spec_sub(z, p)),
            ),
        ),
        spec_pole_too_close(spec_sub(z, p)) ==> spec_derive(z, Seq::<Complex>::empty(), seq![p])
            == Err::<Complex, PoleProximityError>(PoleProximityError),
{
    reveal_with_fuel(spec_compute, 2);
    reveal_with_fuel(spec_derive, 2);
    assert(seq![p].drop_first() =~= Seq::<Complex>::empty());
}

} // verus!
