use newton_fractal::complex::Complex;
use newton_fractal::engine::{do_newton_iterate, iterate, nearest_root, IterEnd, IterationResult};
use newton_fractal::eval::{compute, PoleProximityError};
use newton_fractal::eval::derive as derive_fn;
use num::complex::Complex64;

fn c(re: f64, im: f64) -> Complex {
    Complex { re: re.to_bits(), im: im.to_bits() }
}

fn as_c64(x: Complex) -> Complex64 {
    Complex64::new(f64::from_bits(x.re), f64::from_bits(x.im))
}

fn rel_close(a: Complex64, b: Complex64, tol: f64) -> bool {
    (a - b).norm_sqr().sqrt() <= tol * b.norm_sqr().sqrt().max(1e-30)
}

#[test]
fn compute_empty_lists_returns_one() {
    for z in [c(0.0, 0.0), c(2.5, -3.0), c(-17.0, 0.25)] {
        assert_eq!(compute(z, &[], &[]), Ok(c(1.0, 0.0)));
    }
}

#[test]
fn derive_empty_lists_returns_zero() {
    for z in [c(0.0, 0.0), c(2.5, -3.0), c(-17.0, 0.25)] {
        assert_eq!(derive_fn(z, &[], &[]), Ok(c(0.0, 0.0)));
    }
}

#[test]
fn compute_single_root_is_z_minus_r() {
    let r = c(1.0, 2.0);
    for z in [c(2.5, 1.5), c(-3.0, 0.5), c(0.0, 0.0)] {
        let got = as_c64(compute(z, &[r], &[]).unwrap());
        let want = as_c64(z) - as_c64(r);
        assert_eq!(got, want);
    }
}

#[test]
fn derive_single_root_is_one() {
    let r = c(1.0, 2.0);
    for z in [c(2.5, 1.5), c(-3.0, 0.5), c(0.0, 0.0)] {
        let got = as_c64(derive_fn(z, &[r], &[]).unwrap());
        assert_eq!(got, Complex64::new(1.0, 0.0));
    }
}

#[test]
fn compute_two_roots_matches_peeled_product() {
    let r1 = c(1.0, 0.0);
    let r2 = c(-0.5, 0.25);
    let z = c(2.0, -1.0);
    let got = compute(z, &[r1, r2], &[]).unwrap();
    // the recursion strips r1 first, so the product is built as
    // ((1 * (z - r2)) * (z - r1))
    let want = (Complex64::new(1.0, 0.0) * (as_c64(z) - as_c64(r2))) * (as_c64(z) - as_c64(r1));
    assert_eq!(as_c64(got), want);
    assert_eq!((got.re, got.im), (want.re.to_bits(), want.im.to_bits()));
}

#[test]
fn compute_single_pole_is_reciprocal() {
    let p = c(1.0, 0.0);
    let z = c(3.0, 1.0);
    let got = compute(z, &[], &[p]).unwrap();
    let want = Complex64::new(1.0, 0.0) / (as_c64(z) - as_c64(p));
    assert_eq!(as_c64(got), want);
}

#[test]
fn derive_single_pole_is_minus_inverse_square() {
    let p = c(1.0, 0.0);
    let z = c(3.0, 1.0);
    let got = as_c64(derive_fn(z, &[], &[p]).unwrap());
    let d = as_c64(z) - as_c64(p);
    let want = -Complex64::new(1.0, 0.0) / (d * d);
    assert!(rel_close(got, want, 1e-12), "got {got}, want {want}");
}

#[test]
fn compute_near_pole_fails() {
    let p = c(0.5, -0.5);
    assert_eq!(compute(p, &[], &[p]), Err(PoleProximityError));
    assert_eq!(derive_fn(p, &[], &[p]), Err(PoleProximityError));
}

#[test]
fn derivative_matches_finite_difference() {
    let roots = [c(1.0, 0.0), c(-0.5, 0.866), c(-0.5, -0.866)];
    let poles = [c(0.3, 0.2)];
    let f = |z: Complex64| {
        as_c64(compute(c(z.re, z.im), &roots, &poles).unwrap())
    };
    let got = as_c64(derive_fn(c(1.7, 0.9), &roots, &poles).unwrap());
    let h = 1e-7;
    let z = Complex64::new(1.7, 0.9);
    let fd = (f(z + Complex64::new(h, 0.0)) - f(z - Complex64::new(h, 0.0)))
        / Complex64::new(2.0 * h, 0.0);
    assert!(rel_close(got, fd, 1e-4), "got {got}, finite difference {fd}");
}

#[test]
fn converges_to_nearest_cube_root_of_unity() {
    let roots = [c(1.0, 0.0), c(-0.5, 0.866), c(-0.5, -0.866)];
    let r = iterate(50, c(1.5, 0.1), &roots, &[]);
    match r {
        IterationResult::Converged { root, iterations } => {
            assert_eq!(root, c(1.0, 0.0));
            assert!(iterations < 50);
            assert!(iterations >= 1);
        }
        IterationResult::NotConverged { .. } => panic!("expected convergence, got {r:?}"),
    }
    let end = do_newton_iterate(50, c(1.5, 0.1), roots.to_vec(), Vec::new());
    assert_eq!(end.z, Some(c(1.0, 0.0)));
    match r {
        IterationResult::Converged { iterations, .. } => assert_eq!(end.niter, iterations),
        _ => unreachable!(),
    }
}

#[test]
fn starting_at_the_root_converges_immediately() {
    let r = iterate(10, c(1.0, 0.0), &[c(1.0, 0.0)], &[]);
    assert_eq!(
        r,
        IterationResult::Converged { root: c(1.0, 0.0), iterations: 0 }
    );
}

#[test]
fn starting_on_a_pole_aborts_at_step_zero() {
    let r = iterate(10, c(0.0, 0.0), &[], &[c(0.0, 0.0)]);
    assert_eq!(r, IterationResult::NotConverged { iterations_used: 0 });
    let end = do_newton_iterate(10, c(0.0, 0.0), Vec::new(), vec![c(0.0, 0.0)]);
    assert_eq!(end, IterEnd { z: None, niter: 10 });
}

#[test]
fn zero_budget_does_not_iterate() {
    let r = iterate(0, c(1.5, 0.1), &[c(1.0, 0.0)], &[]);
    assert_eq!(r, IterationResult::NotConverged { iterations_used: 0 });
    let end = do_newton_iterate(0, c(1.5, 0.1), vec![c(1.0, 0.0)], Vec::new());
    assert_eq!(end, IterEnd { z: None, niter: 0 });
}

#[test]
fn exhausts_the_budget_on_a_non_attracted_start() {
    // the real axis belongs to no basin of the two roots +/- i
    let roots = [c(0.0, 1.0), c(0.0, -1.0)];
    let r = iterate(10, c(0.5, 0.0), &roots, &[]);
    assert_eq!(r, IterationResult::NotConverged { iterations_used: 10 });
    let end = do_newton_iterate(10, c(0.5, 0.0), roots.to_vec(), Vec::new());
    assert_eq!(end, IterEnd { z: None, niter: 10 });
}

#[test]
fn vanishing_value_with_empty_root_list_is_not_converged() {
    // a double pole at the origin: far away the value underflows the
    // convergence threshold while the derivative is still above its own,
    // and with no roots to classify against the engine reports failure
    let poles = [c(0.0, 0.0), c(0.0, 0.0)];
    let r = iterate(10, c(1e40, 0.0), &[], &poles);
    assert_eq!(r, IterationResult::NotConverged { iterations_used: 0 });
}

#[test]
fn identical_inputs_give_identical_results() {
    let roots = [c(1.0, 0.0), c(-0.5, 0.866), c(-0.5, -0.866)];
    let a = iterate(50, c(1.5, 0.1), &roots, &[]);
    let b = iterate(50, c(1.5, 0.1), &roots, &[]);
    assert_eq!(a, b);
    let ea = do_newton_iterate(50, c(1.5, 0.1), roots.to_vec(), Vec::new());
    let eb = do_newton_iterate(50, c(1.5, 0.1), roots.to_vec(), Vec::new());
    assert_eq!(ea, eb);
}

#[test]
fn equidistant_roots_tie_break_to_the_first() {
    // both roots are at squared distance one from the origin
    assert_eq!(nearest_root(c(0.0, 0.0), &[c(1.0, 0.0), c(-1.0, 0.0)]), c(1.0, 0.0));
    // the same pair in the other order picks the other root
    assert_eq!(nearest_root(c(0.0, 0.0), &[c(-1.0, 0.0), c(1.0, 0.0)]), c(-1.0, 0.0));
    // a strictly nearer later entry still wins
    assert_eq!(
        nearest_root(c(0.0, 0.0), &[c(5.0, 0.0), c(-1.0, 0.0), c(1.0, 0.0)]),
        c(-1.0, 0.0)
    );
}

#[test]
fn iterate_does_not_touch_the_input_lists() {
    let roots = vec![c(1.0, 0.0), c(-0.5, 0.866)];
    let poles = vec![c(0.3, 0.2)];
    let roots_before = roots.clone();
    let poles_before = poles.clone();
    let _ = iterate(25, c(1.5, 0.1), &roots, &poles);
    assert_eq!(roots, roots_before);
    assert_eq!(poles, poles_before);
}
