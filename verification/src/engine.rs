//! The Newton iteration engine.
//!
//! Starting from a caller-supplied point, the engine repeatedly evaluates
//! the rational function and its derivative, aborts on a pole-proximity
//! failure or a degenerate derivative, detects convergence of the value,
//! classifies a converged trajectory by the nearest entry of the root list,
//! and otherwise takes the Newton step z - f(z)/f'(z), up to the iteration
//! budget.

use vstd::prelude::*;
use vstd::slice::slice_index_get;
use crate::complex::{
    Complex, spec_add, spec_sub, spec_div, spec_neg, spec_norm_sqr, double_lt, double_le, c_add,
    c_sub, c_div, c_neg, c_norm_sqr, c_lt, c_le, EPS_POLE_SQR_BITS, EPS_VALUE_BITS,
};
use crate::eval::{spec_compute, spec_derive, compute};

verus! {

/// The outcome of one run of the engine: either the trajectory converged,
/// reporting the root-list entry nearest the final iterate and the number of
/// completed Newton steps, or it did not, reporting how many steps were
/// taken before the loop stopped (the full budget when it was exhausted).
#[derive(Clone, Copy, PartialEq, Eq, Debug)]
pub enum IterationResult {
    /// The value's squared norm fell below the convergence threshold.
    Converged { root: Complex, iterations: i64 },
    /// The budget ran out, a pole was approached, the derivative degenerated,
    /// or convergence was signalled with an empty root list.
    NotConverged { iterations_used: i64 },
}

/// The boundary-facing result record: the matched root when the trajectory
/// converged, and the step count on convergence or the full budget
/// otherwise.
#[derive(Clone, Copy, PartialEq, Eq, Debug)]
pub struct IterEnd {
    /// The matched root, present only on convergence.
    pub z: Option<Complex>,
    /// The completed Newton steps on convergence; the iteration budget on
    /// any non-converged outcome.
    pub niter: i64,
}

/// The squared distance between a root-list entry and the current point, as
/// the bit pattern of a double.
pub open spec fn spec_dist_bits(k: Complex, z: Complex) -> u64 {
    spec_norm_sqr(spec_sub(k, z))
}

/// The nearest-root scan over the remaining entries, carrying the best entry
/// so far: a candidate replaces the best only when its squared distance is
/// strictly smaller (equal distances keep the earlier entry).
pub open spec fn spec_nearest_from(z: Complex, rest: Seq<Complex>, best: Complex) -> Complex
    decreases rest.len(),
{
    if rest.len() == 0 {
        best
    } else {
        let next = if spec_dist_bits(rest[0], z) != spec_dist_bits(best, z) && double_lt(
            spec_dist_bits(rest[0], z),
            spec_dist_bits(best, z),
        ) {
            rest[0]
        } else {
            best
        };
        spec_nearest_from(z, rest.drop_first(), next)
    }
}

/// The entry of a non-empty root list with the smallest squared distance to
/// `z`; among equidistant entries, the one appearing first.
pub open spec fn spec_nearest(z: Complex, roots: Seq<Complex>) -> Complex
    recommends
        roots.len() > 0,
{
    spec_nearest_from(z, roots.drop_first(), roots[0])
}

/// One run of the engine from step `i` onward: evaluate the derivative and
/// abort on failure or degeneracy, evaluate the value and abort on failure,
/// report convergence through the nearest root, or take the Newton step.
pub open spec fn spec_iterate_from(
    maxiter: i64,
    i: i64,
    z: Complex,
    roots: Seq<Complex>,
    poles: Seq<Complex>,
) -> IterationResult
    decreases maxiter - i,
{
    if i >= maxiter {
        IterationResult::NotConverged { iterations_used: maxiter }
    } else {
        match spec_derive(z, roots, poles) {
            Err(_) => IterationResult::NotConverged { iterations_used: i },
            Ok(der) => if double_le(spec_norm_sqr(der), EPS_POLE_SQR_BITS) {
                IterationResult::NotConverged { iterations_used: i }
            } else {
                match spec_compute(z, roots, poles) {
                    Err(_) => IterationResult::NotConverged { iterations_used: i },
                    Ok(val) => if double_le(spec_norm_sqr(val), EPS_VALUE_BITS) {
                        if roots.len() == 0 {
                            IterationResult::NotConverged { iterations_used: i }
                        } else {
                            IterationResult::Converged { root: spec_nearest(z, roots), iterations: i }
                        }
                    } else {
                        spec_iterate_from(
                            maxiter,
                            (i + 1) as i64,
                            spec_add(z, spec_div(spec_neg(val), der)),
                            roots,
                            poles,
                        )
                    },
                }
            },
        }
    }
}

/// The outcome of the engine run from the starting point, step zero.
pub open spec fn spec_iterate(
    maxiter: i64,
    z0: Complex,
    roots: Seq<Complex>,
    poles: Seq<Complex>,
) -> IterationResult {
    spec_iterate_from(maxiter, 0, z0, roots, poles)
}

/// Returns the entry of a non-empty root list nearest to `z` by squared
/// distance; among equidistant entries, the one appearing first in the list.
pub fn nearest_root(z: Complex, roots: &[Complex]) -> (r: Complex)
    requires
        roots@.len() > 0,
    ensures
        r == spec_nearest(z, roots@),
{
    let mut best = *slice_index_get(roots, 0);
    let mut best_d = c_norm_sqr(c_sub(best, z));
    let mut k: usize = 1;
    proof {
        assert(roots@.skip(1) =~= roots@.drop_first());
    }
    while k < roots.len()
        invariant
            1 <= k <= roots@.len(),
            best_d == spec_dist_bits(best, z),
            spec_nearest_from(z, roots@.skip(k as int), best) == spec_nearest(z, roots@),
        decreases roots@.len() - k,
    {
        let cand = *slice_index_get(roots, k);
        let cand_d = c_norm_sqr(c_sub(cand, z));
        proof {
            assert(roots@.skip(k as int)[0] == roots@[k as int]);
            assert(roots@.skip(k as int).drop_first() =~= roots@.skip(k as int + 1));
        }
        if cand_d != best_d && c_lt(cand_d, best_d) {
            best = cand;
            best_d = cand_d;
        }
        k = k + 1;
    }
    proof {
        assert(roots@.skip(roots@.len() as int) =~= Seq::<Complex>::empty());
    }
    best
}

/// Runs the Newton iteration from `z0` under the budget `maxiter` and
/// classifies the outcome.  The root and pole lists are only read.
pub fn iterate(maxiter: i64, z0: Complex, roots: &[Complex], poles: &[Complex]) -> (r:
    IterationResult)
    ensures
        r == spec_iterate(maxiter, z0, roots@, poles@),
{
    let mut i: i64 = 0;
    let mut z = z0;
    while i < maxiter
        invariant
            0 <= i,
            maxiter >= 0 ==> i <= maxiter,
            maxiter < 0 ==> i == 0,
            spec_iterate_from(maxiter, i, z, roots@, poles@) == spec_iterate(
                maxiter,
                z0,
                roots@,
                poles@,
            ),
        decreases maxiter - i,
    {
        let der = match crate::eval::derive(z, roots, poles) {
            Ok(x) => x,
            Err(_) => {
                return IterationResult::NotConverged { iterations_used: i };
            },
        };
        if c_le(c_norm_sqr(der), EPS_POLE_SQR_BITS) {
            return IterationResult::NotConverged { iterations_used: i };
        }
        let val = match compute(z, roots, poles) {
            Ok(x) => x,
            Err(_) => {
                return IterationResult::NotConverged { iterations_used: i };
            },
        };
        if c_le(c_norm_sqr(val), EPS_VALUE_BITS) {
            if roots.len() == 0 {
                return IterationResult::NotConverged { iterations_used: i };
            }
            let root = nearest_root(z, roots);
            return IterationResult::Converged { root, iterations: i };
        }
        z = c_add(z, c_div(c_neg(val), der));
        i = i + 1;
    }
    IterationResult::NotConverged { iterations_used: maxiter }
}

/// Runs the engine and exposes the outcome in the boundary record shape: the
/// matched root and the step count on convergence, no root and the full
/// budget on any other outcome.
pub fn do_newton_iterate(maxiter: i64, z1: Complex, roots: Vec<Complex>, poles: Vec<Complex>) -> (r:
    IterEnd)
    ensures
        (match spec_iterate(maxiter, z1, roots@, poles@) {
            IterationResult::Converged { root, iterations } => r.z == Some(root) && r.niter
                == iterations,
            IterationResult::NotConverged { .. } => r.z == None::<Complex> && r.niter == maxiter,
        }),
{
    match iterate(maxiter, z1, roots.as_slice(), poles.as_slice()) {
        IterationResult::Converged { root, iterations } => IterEnd { z: Some(root), niter: iterations },
        IterationResult::NotConverged { iterations_used: _ } => IterEnd { z: None, niter: maxiter },
    }
}


/// The engine is a pure function of its inputs: two runs with the same
/// budget, starting point, root list and pole list give the same outcome.
pub proof fn lemma_iterate_deterministic(
    r1: IterationResult,
    r2: IterationResult,
    maxiter: i64,
    z0: Complex,
    roots: Seq<Complex>,
    poles: Seq<Complex>,
)
    requires
        r1 == spec_iterate(maxiter, z0, roots, poles),
        r2 == spec_iterate(maxiter, z0, roots, poles),
    ensures
        r1 == r2,
{
}

proof fn lemma_nearest_from_keeps_best(z: Complex, rest: Seq<Complex>, best: Complex)
    requires
        forall|j: int|
            0 <= j < rest.len() ==> !(spec_dist_bits(rest[j], z) != spec_dist_bits(best, z)
                && double_lt(spec_dist_bits(rest[j], z), spec_dist_bits(best, z))),
    ensures
        spec_nearest_from(z, rest, best) == best,
    decreases rest.len(),
{
    if rest.len() > 0 {
        assert(!(spec_dist_bits(rest[0], z) != spec_dist_bits(best, z) && double_lt(
            spec_dist_bits(rest[0], z),
            spec_dist_bits(best, z),
        )));
        assert forall|j: int| 0 <= j < rest.drop_first().len() implies !(spec_dist_bits(
            rest.drop_first()[j],
            z,
        ) != spec_dist_bits(best, z) && double_lt(
            spec_dist_bits(rest.drop_first()[j], z),
            spec_dist_bits(best, z),
        )) by {
            assert(rest.drop_first()[j] == rest[j + 1]);
        }
        lemma_nearest_from_keeps_best(z, rest.drop_first(), best);
    }
}

/// Tie-break: a candidate at the same squared distance as the best entry so
/// far never replaces it, so when no other entry is strictly nearer to `z`
/// than the first one - equidistant entries included - the first entry of
/// the root list is the one returned.
pub proof fn lemma_nearest_prefers_first(z: Complex, roots: Seq<Complex>)
    requires
        roots.len() > 0,
        forall|j: int|
            0 <= j < roots.len() ==> !(spec_dist_bits(roots[j], z) != spec_dist_bits(roots[0], z)
                && double_lt(spec_dist_bits(roots[j], z), spec_dist_bits(roots[0], z))),
    ensures
        spec_nearest(z, roots) == roots[0],
{
    assert forall|j: int| 0 <= j < roots.drop_first().len() implies !(spec_dist_bits(
        roots.drop_first()[j],
        z,
    ) != spec_dist_bits(roots[0], z) && double_lt(
        spec_dist_bits(roots.drop_first()[j], z),
        spec_dist_bits(roots[0], z),
    )) by {
        assert(roots.drop_first()[j] == roots[j + 1]);
    }
    lemma_nearest_from_keeps_best(z, roots.drop_first(), roots[0]);
}

proof fn lemma_nearest_from_is_entry(z: Complex, rest: Seq<Complex>, best: Complex)
    ensures
        spec_nearest_from(z, rest, best) == best || rest.contains(spec_nearest_from(z, rest, best)),
    decreases rest.len(),
{
    if rest.len() > 0 {
        let next = if spec_dist_bits(rest[0], z) != spec_dist_bits(best, z) && double_lt(
            spec_dist_bits(rest[0], z),
            spec_dist_bits(best, z),
        ) {
            rest[0]
        } else {
            best
        };
        lemma_nearest_from_is_entry(z, rest.drop_first(), next);
        let r = spec_nearest_from(z, rest.drop_first(), next);
        if r == next {
            if next != best {
                assert(rest.contains(r)) by {
                    assert(rest[0] == r);
                }
            }
        } else {
            let j = choose|j: int| 0 <= j < rest.drop_first().len() && rest.drop_first()[j] == r;
            assert(rest.contains(r)) by {
                assert(rest[j + 1] == r);
            }
        }
    }
}

/// The reported root of a converged run is taken verbatim from the root
/// list: the nearest-root classification returns one of the supplied
/// entries, never a synthesized value.
pub proof fn lemma_nearest_is_entry(z: Complex, roots: Seq<Complex>)
    requires
        roots.len() > 0,
    ensures
        roots.contains(spec_nearest(z, roots)),
{
    lemma_nearest_from_is_entry(z, roots.drop_first(), roots[0]);
    let r = spec_nearest(z, roots);
    if r == roots[0] {
        assert(roots.contains(r)) by {
            assert(roots[0] == r);
        }
    } else {
        let j = choose|j: int|
            0 <= j < roots.drop_first().len() && roots.drop_first()[j] == r;
        assert(roots.contains(r)) by {
            assert(roots[j + 1] == r);
        }
    }
}

proof fn lemma_iterate_from_count_bounds(
    maxiter: i64,
    i: i64,
    z: Complex,
    roots: Seq<Complex>,
    poles: Seq<Complex>,
)
    requires
        0 <= i,
    ensures
        (match spec_iterate_from(maxiter, i, z, roots, poles) {
            IterationResult::Converged { iterations, .. } => i <= iterations < maxiter,
            IterationResult::NotConverged { iterations_used } => iterations_used == maxiter || i
                <= iterations_used < maxiter,
        }),
    decreases maxiter - i,
{
    if i < maxiter {
        match spec_derive(z, roots, poles) {
            Err(_) => {},
            Ok(der) => {
                if !double_le(spec_norm_sqr(der), EPS_POLE_SQR_BITS) {
                    match spec_compute(z, roots, poles) {
                        Err(_) => {},
                        Ok(val) => {
                            if !double_le(spec_norm_sqr(val), EPS_VALUE_BITS) {
                                lemma_iterate_from_count_bounds(
                                    maxiter,
                                    (i + 1) as i64,
                                    spec_add(z, spec_div(spec_neg(val), der)),
                                    roots,
                                    poles,
                                );
                            }
                        },
                    }
                }
            },
        }
    }
}

/// A converged outcome always reports strictly fewer completed steps than
/// the budget; a non-converged outcome reports either the full budget or
/// the step at which the run aborted, which lies below the budget.
pub proof fn lemma_iterate_count_bounds(
    maxiter: i64,
    z0: Complex,
    roots: Seq<Complex>,
    poles: Seq<Complex>,
)
    ensures
        (match spec_iterate(maxiter, z0, roots, poles) {
            IterationResult::Converged { iterations, .. } => 0 <= iterations < maxiter,
            IterationResult::NotConverged { iterations_used } => iterations_used == maxiter || 0
                <= iterations_used < maxiter,
        }),
{
    lemma_iterate_from_count_bounds(maxiter, 0, z0, roots, poles);
}


proof fn lemma_iterate_from_root_is_entry(
    maxiter: i64,
    i: i64,
    z: Complex,
    roots: Seq<Complex>,
    poles: Seq<Complex>,
)
    ensures
        (match spec_iterate_from(maxiter, i, z, roots, poles) {
            IterationResult::Converged { root, .. } => roots.contains(root),
            IterationResult::NotConverged { .. } => true,
        }),
    decreases maxiter - i,
{
    if i < maxiter {
        match spec_derive(z, roots, poles) {
            Err(_) => {},
            Ok(der) => {
                if !double_le(spec_norm_sqr(der), EPS_POLE_SQR_BITS) {
                    match spec_compute(z, roots, poles) {
                        Err(_) => {},
                        Ok(val) => {
                            if double_le(spec_norm_sqr(val), EPS_VALUE_BITS) {
                                if roots.len() > 0 {
                                    lemma_nearest_is_entry(z, roots);
                                }
                            } else {
                                lemma_iterate_from_root_is_entry(
                                    maxiter,
                                    (i + 1) as i64,
                                    spec_add(z, spec_div(spec_neg(val), der)),
                                    roots,
                                    poles,
                                );
                            }
                        },
                    }
                }
            },
        }
    }
}

/// The root reported by a converged run is always one of the supplied
/// root-list entries, whatever the budget, starting point and pole list.
pub proof fn lemma_converged_root_is_entry(
    maxiter: i64,
    z0: Complex,
    roots: Seq<Complex>,
    poles: Seq<Complex>,
)
    ensures
        (match spec_iterate(maxiter, z0, roots, poles) {
            IterationResult::Converged { root, .. } => roots.contains(root),
            IterationResult::NotConverged { .. } => true,
        }),
{
    lemma_iterate_from_root_is_entry(maxiter, 0, z0, roots, poles);
}

} // verus!
