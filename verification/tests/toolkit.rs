use descent::cg::{tikhonov, CG};
use descent::matrix::{gen_matrix, Matrix};
use descent::optimizer::{
    DescentFrame, DescentOutcome, DirectionStrategy, Optimizer, StopRule,
};
use descent::rational::Rational;
use descent::rosen::{Objective, RosenDerivatives};
use descent::spatial_vec::SpatialVec;
use descent::tracer::Tracer;
use descent::SolveError;

fn q(n: i64, d: i64) -> Rational {
    Rational::new_frac(n, d)
}

fn qi(n: i64) -> Rational {
    Rational::from_int(n)
}

fn vec2(a: Rational, b: Rational) -> SpatialVec {
    SpatialVec::new(vec![a, b])
}

fn mat2(c0: (i64, i64), c1: (i64, i64)) -> Matrix {
    Matrix::new(vec![
        vec2(qi(c0.0), qi(c0.1)),
        vec2(qi(c1.0), qi(c1.1)),
    ])
}

fn assert_vec_eq(v: &SpatialVec, expected: &[Rational]) {
    assert_eq!(v.dim(), expected.len());
    for (i, e) in expected.iter().enumerate() {
        assert!(v.get(i).eq_value(e), "coordinate {} differs", i);
    }
}

#[test]
fn rational_arithmetic_is_exact() {
    let half = q(1, 2);
    let third = q(1, 3);
    let sum = half.add(&third).unwrap();
    assert!(sum.eq_value(&q(5, 6)));
    let diff = half.sub(&third).unwrap();
    assert!(diff.eq_value(&q(1, 6)));
    let prod = q(2, 3).mul(&q(3, 4)).unwrap();
    assert!(prod.eq_value(&half));
    let quot = half.div(&q(1, 4)).unwrap();
    assert!(quot.eq_value(&qi(2)));
    assert!(half.neg().eq_value(&q(-1, 2)));
    assert!(third.lt(&half));
    assert!(third.le(&half));
    assert!(!half.le(&third));
    assert!(q(2, 4).eq_value(&half));
    assert!(q(0, 7).is_zero());
    assert!(!half.is_zero());
}

#[test]
fn rational_addition_overflows_to_none() {
    let big = qi(i64::MAX);
    assert!(big.add(&big).is_none());
    assert!(big.mul(&big).is_none());
}

#[test]
fn vector_addition_commutes() {
    let u = vec2(q(1, 2), q(-3, 4));
    let v = vec2(q(5, 6), q(7, 8));
    let uv = u.add(&v).unwrap();
    let vu = v.add(&u).unwrap();
    for i in 0..2 {
        assert!(uv.get(i).eq_value(&vu.get(i)));
    }
}

#[test]
fn vector_minus_itself_is_zero() {
    let u = vec2(q(22, 7), q(-9, 5));
    let z = u.sub(&u).unwrap();
    for i in 0..2 {
        assert!(z.get(i).is_zero());
    }
}

#[test]
fn scaling_distributes_over_addition() {
    let c = q(3, 5);
    let u = vec2(q(1, 3), q(2, 7));
    let v = vec2(q(-4, 9), q(5, 11));
    let lhs = u.add(&v).unwrap().scale(&c).unwrap();
    let rhs = u.scale(&c).unwrap().add(&v.scale(&c).unwrap()).unwrap();
    for i in 0..2 {
        assert!(lhs.get(i).eq_value(&rhs.get(i)));
    }
}

#[test]
fn norm_sq_is_nonnegative_and_zero_only_at_zero() {
    let zero = Rational::zero();
    let u = vec2(qi(3), qi(4));
    let ns = u.norm_sq().unwrap();
    assert!(ns.eq_value(&qi(25)));
    assert!(zero.le(&ns));
    let z = vec2(Rational::zero(), Rational::zero());
    assert!(z.norm_sq().unwrap().is_zero());
    let tiny = vec2(Rational::zero(), q(1, 1_000_000));
    assert!(!tiny.norm_sq().unwrap().is_zero());
    let empty = SpatialVec::new(vec![]);
    assert!(empty.norm_sq().unwrap().is_zero());
}

#[test]
fn dot_product_matches_hand_computation() {
    let u = vec2(qi(1), qi(2));
    let v = vec2(qi(3), qi(4));
    assert!(u.dot(&v).unwrap().eq_value(&qi(11)));
}

#[test]
fn identity_times_matrix_is_matrix() {
    let m = mat2((1, 3), (2, 4));
    let id = Matrix::identity(2);
    let p = id.mul(&m).unwrap();
    for c in 0..2 {
        for r in 0..2 {
            assert!(p.entry(c, r).eq_value(&m.entry(c, r)));
        }
    }
}

#[test]
fn pow_zero_is_identity_and_pow_two_is_square() {
    let m = mat2((1, 3), (2, 4));
    let p0 = m.pow(0).unwrap();
    let id = Matrix::identity(2);
    for c in 0..2 {
        for r in 0..2 {
            assert!(p0.entry(c, r).eq_value(&id.entry(c, r)));
        }
    }
    let p1 = m.pow(1).unwrap();
    for c in 0..2 {
        for r in 0..2 {
            assert!(p1.entry(c, r).eq_value(&m.entry(c, r)));
        }
    }
    let p2 = m.pow(2).unwrap();
    let sq = m.mul(&m).unwrap();
    for c in 0..2 {
        for r in 0..2 {
            assert!(p2.entry(c, r).eq_value(&sq.entry(c, r)));
        }
    }
}

#[test]
fn matrix_product_has_the_standard_orientation() {
    // Columns a = ((1,2),(3,4)) and b = ((0,1),(1,0)): entry [0][0] of the
    // standard product a*b is row 0 of a against column 0 of b,
    // 1*0 + 3*1 = 3; b permutes a's columns.
    let a = mat2((1, 2), (3, 4));
    let b = mat2((0, 1), (1, 0));
    let c = a.mul(&b).unwrap();
    assert!(c.entry(0, 0).eq_value(&qi(3)));
    assert!(c.entry(0, 1).eq_value(&qi(4)));
    assert!(c.entry(1, 0).eq_value(&qi(1)));
    assert!(c.entry(1, 1).eq_value(&qi(2)));
}

#[test]
fn matrix_difference_and_value_equality() {
    let m = mat2((1, 3), (2, 4));
    assert!(m.eq_value(&m));
    let d = m.msub(&m).unwrap();
    for c in 0..2 {
        for r in 0..2 {
            assert!(d.entry(c, r).is_zero());
        }
    }
    let other = mat2((1, 3), (2, 5));
    assert!(!m.eq_value(&other));
}

#[test]
fn transpose_is_an_involution() {
    let m = mat2((1, 3), (2, 4));
    let tt = m.transpose().transpose();
    for c in 0..2 {
        for r in 0..2 {
            assert!(tt.entry(c, r).eq_value(&m.entry(c, r)));
        }
    }
}

#[test]
fn symmetry_check_sees_one_flipped_entry() {
    let sym = mat2((2, 5), (5, 7));
    assert!(sym.is_symmetric());
    let asym = mat2((2, 5), (6, 7));
    assert!(!asym.is_symmetric());
}

#[test]
fn blur_matrix_is_tridiagonal() {
    let l = q(1, 4);
    let m = gen_matrix(&l, 3).unwrap();
    assert_eq!(m.dim(), 3);
    for c in 0..3 {
        for r in 0..3 {
            let e = m.entry(c, r);
            if c == r {
                assert!(e.eq_value(&q(1, 2)));
            } else if c + 1 == r || r + 1 == c {
                assert!(e.eq_value(&q(1, 4)));
            } else {
                assert!(e.is_zero());
            }
        }
    }
    assert!(m.is_symmetric());
}

#[test]
fn rosenbrock_value_and_gradient() {
    let o = Objective::Rosenbrock { coefficient: qi(100) };
    let x = vec2(q(-12, 10), qi(1));
    // f(-6/5, 1) = 100 * (1 - 36/25)^2 + (1 + 6/5)^2 = 100 * 121/625 + 121/25
    let f = o.value(&x).unwrap();
    assert!(f.eq_value(&q(12100 + 3025, 625)));
    let g = o.grad(&x).unwrap();
    // g0 = -4 * 100 * x0 * (x1 - x0^2) - 2 * (1 - x0)
    //    = -400 * (-6/5) * (-11/25) - 2 * 11/5 = -1056/5 - 22/5 = -1078/5
    let g0 = q(-400 * 6 * 11, 125).sub(&q(22, 5)).unwrap();
    assert!(g.get(0).eq_value(&g0));
    // g1 = 2 * 100 * (1 - 36/25) = 200 * (-11/25) = -88
    assert!(g.get(1).eq_value(&qi(-88)));
}

#[test]
fn newton_direction_solves_the_hessian_system() {
    let c = qi(1);
    let derivs = RosenDerivatives { rosen_coefficient: c };
    let x = vec2(Rational::zero(), Rational::zero());
    let d = derivs.gen_newton(&x).unwrap();
    assert_vec_eq(&d, &[qi(1), Rational::zero()]);
    // Verify H * d == -g by hand at x = (0, 0): H = [[2, 0], [0, 2]],
    // g = (-2, 0).
    let g = derivs.gen_grad(&x).unwrap();
    let h00 = qi(2);
    let h11 = qi(2);
    let lhs0 = h00.mul(&d.get(0)).unwrap();
    assert!(lhs0.eq_value(&g.get(0).neg()));
    let lhs1 = h11.mul(&d.get(1)).unwrap();
    assert!(lhs1.eq_value(&g.get(1).neg()));
}

#[test]
fn singular_hessian_is_surfaced() {
    let o = Objective::Bowl { a: Rational::zero(), b: qi(1) };
    let x = vec2(qi(1), qi(1));
    assert_eq!(o.newton(&x).unwrap_err(), SolveError::SingularHessian);
}

#[test]
fn line_search_satisfies_sufficient_decrease() {
    let o = Objective::Rosenbrock { coefficient: qi(100) };
    let opt = Optimizer {
        initial_step_length: qi(1),
        step_contraction_factor: q(1, 2),
        step_threshold_coefficient: q(1, 4),
        objective: o,
    };
    let x = vec2(q(-12, 10), qi(1));
    let grad = opt.objective.grad(&x).unwrap();
    let value = opt.objective.value(&x).unwrap();
    let fr = DescentFrame { step: 0, grad, position: x, value };
    let d = fr.grad.neg();
    let mut tracer = Tracer::new();
    let (alpha, next_value) = opt
        .calc_next_step_length("t", &fr, &d, &mut tracer, 60)
        .unwrap();
    // f(x + alpha d) <= f(x) + alpha * theta * (d . g), exactly.
    let dg = d.dot(&fr.grad).unwrap();
    let bound = fr
        .value
        .add(&alpha.mul(&opt.step_threshold_coefficient.mul(&dg).unwrap()).unwrap())
        .unwrap();
    assert!(next_value.le(&bound));
    // The step is strictly positive.
    let zero = Rational::zero();
    assert!(zero.lt(&alpha));
}

#[test]
fn line_search_reports_exhaustion_on_an_ascent_direction() {
    let o = Objective::Bowl { a: qi(1), b: qi(1) };
    let opt = Optimizer {
        initial_step_length: qi(1),
        step_contraction_factor: q(1, 2),
        step_threshold_coefficient: q(1, 4),
        objective: o,
    };
    let x = vec2(qi(1), qi(0));
    let grad = opt.objective.grad(&x).unwrap();
    let value = opt.objective.value(&x).unwrap();
    let d = grad.copied();
    let fr = DescentFrame { step: 0, grad, position: x, value };
    let mut tracer = Tracer::new();
    let r = opt.calc_next_step_length("t", &fr, &d, &mut tracer, 8);
    assert_eq!(r.unwrap_err(), SolveError::StepsExhausted);
}

#[test]
fn newton_reaches_the_bowl_minimum_in_one_step() {
    let o = Objective::Bowl { a: qi(1), b: qi(1) };
    let opt = Optimizer {
        initial_step_length: qi(1),
        step_contraction_factor: q(1, 2),
        step_threshold_coefficient: q(1, 4),
        objective: o,
    };
    let start = vec2(qi(3), qi(-2));
    let rule = StopRule::NormSqAbove { threshold: Rational::zero() };
    let mut tracer = Tracer::new();
    let run = opt
        .descent(
            "newton",
            start,
            &rule,
            DirectionStrategy::Newton,
            &mut tracer,
            10,
            30,
        )
        .unwrap();
    assert_eq!(run.outcome, DescentOutcome::Converged);
    assert_eq!(run.frames.len(), 2);
    let last = &run.frames[run.frames.len() - 1];
    assert!(last.position.get(0).is_zero());
    assert!(last.position.get(1).is_zero());
    assert!(last.value.is_zero());
}

#[test]
fn steepest_descent_takes_an_exact_armijo_step() {
    let o = Objective::Bowl { a: qi(1), b: qi(1) };
    let opt = Optimizer {
        initial_step_length: qi(1),
        step_contraction_factor: q(1, 2),
        step_threshold_coefficient: q(1, 4),
        objective: o,
    };
    let start = vec2(qi(1), qi(0));
    let rule = StopRule::NormSqAbove { threshold: Rational::zero() };
    let mut tracer = Tracer::new();
    let run = opt
        .descent(
            "sd",
            start,
            &rule,
            DirectionStrategy::SteepestDescent,
            &mut tracer,
            5,
            30,
        )
        .unwrap();
    // From (1, 0) the direction is -g = (-2, 0).  The unit trial lands on
    // (-1, 0) and fails the sufficient-decrease test; the halved step lands
    // exactly on the minimum, where the gradient vanishes and the rule
    // releases the loop.
    assert_eq!(run.outcome, DescentOutcome::Converged);
    assert_eq!(run.frames.len(), 2);
    let second = &run.frames[1];
    assert!(second.position.get(0).is_zero());
    assert!(second.position.get(1).is_zero());
    // The cost accounting: one rejected and one accepted objective trial,
    // one line-search gradient count, plus one count per frame at the end.
    assert_eq!(tracer.get(&"sd/objective".to_string()), 2);
    assert_eq!(tracer.get(&"sd/grad".to_string()), 3);
}

#[test]
fn polak_ribiere_resets_on_a_non_descent_direction() {
    let o = Objective::Bowl { a: q(1, 2), b: q(1, 2) };
    let opt = Optimizer {
        initial_step_length: qi(1),
        step_contraction_factor: q(1, 2),
        step_threshold_coefficient: q(1, 4),
        objective: o,
    };
    // At x = (1, 0) the gradient is (1, 0).  Seeding the strategy with a
    // tiny previous gradient and a previous direction aligned with the
    // current gradient makes beta = 100 and the candidate (99, 0), whose
    // inner product with the gradient is nonnegative: the engine must fall
    // back to the negative gradient and record exactly one reset.
    let strategy = DirectionStrategy::PolakRibiere {
        prev_grad: Some(vec2(q(1, 10), Rational::zero())),
        prev_dir: Some(vec2(qi(1), Rational::zero())),
    };
    let start = vec2(qi(1), qi(0));
    let rule = StopRule::NormSqAbove { threshold: Rational::zero() };
    let mut tracer = Tracer::new();
    let run = opt
        .descent("pr", start, &rule, strategy, &mut tracer, 1, 30)
        .unwrap();
    assert!(run.frames.len() == 2);
    assert_eq!(tracer.get(&"pr/reset".to_string()), 1);
    // The reset direction is the plain negative gradient, so the accepted
    // unit step lands at x - g = (0, 0).
    let last = &run.frames[1];
    assert!(last.position.get(0).is_zero());
    assert!(last.position.get(1).is_zero());
}

#[test]
fn polak_ribiere_without_memory_starts_along_negative_gradient() {
    let o = Objective::Bowl { a: q(1, 2), b: q(1, 2) };
    let opt = Optimizer {
        initial_step_length: qi(1),
        step_contraction_factor: q(1, 2),
        step_threshold_coefficient: q(1, 4),
        objective: o,
    };
    let strategy = DirectionStrategy::PolakRibiere { prev_grad: None, prev_dir: None };
    let start = vec2(qi(2), qi(0));
    let rule = StopRule::NormSqAbove { threshold: Rational::zero() };
    let mut tracer = Tracer::new();
    let run = opt
        .descent("pr0", start, &rule, strategy, &mut tracer, 1, 30)
        .unwrap();
    assert_eq!(run.frames.len(), 2);
    assert_eq!(tracer.get(&"pr0/reset".to_string()), 0);
    // One unit step along -g = (-2, 0) lands at the origin.
    assert!(run.frames[1].position.get(0).is_zero());
    assert!(run.frames[1].position.get(1).is_zero());
}

#[test]
fn zero_previous_gradient_is_surfaced_as_zero_curvature() {
    let o = Objective::Bowl { a: q(1, 2), b: q(1, 2) };
    let opt = Optimizer {
        initial_step_length: qi(1),
        step_contraction_factor: q(1, 2),
        step_threshold_coefficient: q(1, 4),
        objective: o,
    };
    let strategy = DirectionStrategy::PolakRibiere {
        prev_grad: Some(vec2(Rational::zero(), Rational::zero())),
        prev_dir: Some(vec2(qi(1), Rational::zero())),
    };
    let start = vec2(qi(1), qi(0));
    let rule = StopRule::NormSqAbove { threshold: Rational::zero() };
    let mut tracer = Tracer::new();
    let run = opt
        .descent("zc", start, &rule, strategy, &mut tracer, 3, 30)
        .unwrap();
    assert_eq!(run.outcome, DescentOutcome::Failed(SolveError::ZeroCurvature));
}

#[test]
fn rosenbrock_steepest_descent_decreases_the_objective() {
    // Minimizing 100 (x1 - x0^2)^2 + (1 - x0)^2 from (-1.2, 1.0).  A full
    // run down to a small gradient norm needs fractions far beyond any
    // machine word, so the engine is held to a short exact prefix: each
    // accepted step must strictly decrease the objective.
    let o = Objective::Rosenbrock { coefficient: qi(100) };
    let opt = Optimizer {
        initial_step_length: qi(1),
        step_contraction_factor: q(1, 2),
        step_threshold_coefficient: q(1, 4),
        objective: o,
    };
    let start = vec2(q(-12, 10), qi(1));
    let rule = StopRule::NormSqAbove { threshold: q(1, 1_000_000) };
    let mut tracer = Tracer::new();
    let run = opt
        .descent(
            "rb",
            start,
            &rule,
            DirectionStrategy::SteepestDescent,
            &mut tracer,
            3,
            30,
        )
        .unwrap();
    assert!(run.frames.len() >= 2);
    for w in run.frames.windows(2) {
        assert!(w[1].value.lt(&w[0].value));
    }
}

#[test]
fn cg_solves_a_diagonal_system_in_two_iterations() {
    // A = diag(4, 9), b = (8, 18), x0 = (0, 0): the exact solution (2, 2)
    // must appear within two iterations, with the squared residual norm
    // driven below 1e-18 (that is, the residual norm below 1e-9).
    let a = mat2((4, 0), (0, 9));
    let b = vec2(qi(8), qi(18));
    let x0 = vec2(qi(0), qi(0));
    let threshold = q(1, 1_000_000_000_000_000_000);
    let mut cg = CG::new(&a, &b, x0).unwrap();
    let run = cg.descent(&threshold, &a, 2);
    assert_eq!(run.outcome, DescentOutcome::Converged);
    assert!(run.frames.len() <= 3);
    assert!(run.frames.len() >= 2);
    let last = &run.frames[run.frames.len() - 1];
    assert!(last.position.get(0).eq_value(&qi(2)));
    assert!(last.position.get(1).eq_value(&qi(2)));
    assert!(last.residual.norm_sq().unwrap().le(&threshold));
}

#[test]
fn cg_surfaces_a_zero_curvature_direction() {
    let a = mat2((0, 0), (0, 0));
    let b = vec2(qi(1), qi(0));
    let x0 = vec2(qi(0), qi(0));
    let threshold = Rational::zero();
    let mut cg = CG::new(&a, &b, x0).unwrap();
    let run = cg.descent(&threshold, &a, 5);
    assert_eq!(run.outcome, DescentOutcome::Failed(SolveError::ZeroCurvature));
}

#[test]
fn cg_honors_its_step_budget() {
    let a = mat2((4, 0), (0, 9));
    let b = vec2(qi(8), qi(18));
    let x0 = vec2(qi(0), qi(0));
    let threshold = q(1, 1_000_000_000_000_000_000);
    let mut cg = CG::new(&a, &b, x0).unwrap();
    let run = cg.descent(&threshold, &a, 1);
    assert_eq!(run.outcome, DescentOutcome::OutOfSteps);
    assert_eq!(run.frames.len(), 2);
}

#[test]
fn tracer_merge_adds_counts_per_label() {
    let mut target = Tracer::new();
    target.increment_call("a/grad".to_string(), 2);
    target.increment_call("b/obj".to_string(), 1);
    let mut other = Tracer::new();
    other.increment_call("a/grad".to_string(), 3);
    target.merge(&other);
    assert_eq!(target.get(&"a/grad".to_string()), 5);
    assert_eq!(target.get(&"b/obj".to_string()), 1);
    assert_eq!(target.get(&"absent".to_string()), 0);
}

#[test]
fn tracer_first_increment_starts_at_the_amount() {
    let mut t = Tracer::new();
    t.increment_call("x".to_string(), 5);
    assert_eq!(t.get(&"x".to_string()), 5);
    t.increment_call("x".to_string(), 2);
    assert_eq!(t.get(&"x".to_string()), 7);
    assert_eq!(t.num_entries(), 1);
    let (label, count) = t.entry_at(0);
    assert_eq!(label, "x".to_string());
    assert_eq!(count, 7);
}

#[test]
fn tracer_counts_saturate_instead_of_wrapping() {
    let mut t = Tracer::new();
    t.increment_call("big".to_string(), u64::MAX);
    t.increment_call("big".to_string(), 10);
    assert_eq!(t.get(&"big".to_string()), u64::MAX);
}

#[test]
fn tikhonov_surfaces_an_exhausted_row_budget() {
    // With no step budget at all, the first row cannot reach the residual
    // threshold: the cap-exceeded condition is surfaced, never swallowed.
    let a = gen_matrix(&q(1, 4), 2).unwrap();
    let data = vec![vec2(qi(1), qi(0))];
    let lambda = q(1, 10);
    let threshold = Rational::zero();
    let r = tikhonov(&a, &data, &lambda, &threshold, 0);
    assert_eq!(r.unwrap_err(), SolveError::StepsExhausted);
}

#[test]
fn tikhonov_deconvolves_row_by_row() {
    let a = gen_matrix(&q(1, 4), 2).unwrap();
    let d0 = vec2(qi(1), qi(0));
    let d1 = vec2(qi(0), qi(1));
    let data = vec![d0, d1];
    let lambda = q(1, 10);
    let threshold = Rational::zero();
    let out = tikhonov(&a, &data, &lambda, &threshold, 5).unwrap();
    assert_eq!(out.len(), 2);
    // Each row solves (A A^T + lambda^2 I) x = A^T d exactly; check the
    // first row's equation by substitution.
    let at = a.transpose();
    let reg = a
        .mul(&at)
        .unwrap()
        .madd(
            &Matrix::identity(2)
                .mscale(&lambda.mul(&lambda).unwrap())
                .unwrap(),
        )
        .unwrap();
    let lhs = reg.mul_vec(&out[0]).unwrap();
    let rhs = at.mul_vec(&data[0]).unwrap();
    for i in 0..2 {
        assert!(lhs.get(i).eq_value(&rhs.get(i)));
    }
}
