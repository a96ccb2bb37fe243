//! The backtracking line-search descent engine.
//!
//! The engine iterates: evaluate the stopping predicate on the current
//! frame; ask the injected direction strategy for a descent direction;
//! shrink a trial step length until the sufficient-decrease (Armijo)
//! condition holds; advance; record a new frame.  The same loop hosts
//! steepest descent, Newton iteration and nonlinear conjugate gradients by
//! swapping only the direction strategy.  Every run returns its full frame
//! history, even when it ends in an error.

use crate::rational::{
    lemma_add_chain, lemma_add_congruence, lemma_div_chain, lemma_le_congruence, lemma_mul_chain,
    lemma_mul_congruence, lemma_rat_eq_trans, lemma_wf_add, rat_add_chk, rat_add_v, rat_div_chk,
    rat_div_v, rat_eq, rat_is_zero, rat_le, rat_lt, rat_mul_chk, rat_mul_v, rat_one, rat_wf,
    rat_zero, Rat, Rational,
};
use crate::rosen::{
    lemma_obj_value_congruence, obj_grad0_v, obj_grad1_v, obj_grad_chk, obj_newton0_v,
    obj_newton1_v, obj_newton_chk, obj_value_chk, obj_value_v, Objective,
};
use vstd::string::StringExecFns;
use crate::spatial_vec::{
    dot_chk, dot_v, lemma_dot_prefix_congruence, lemma_dot_prefix_wf, norm_sq_v, seq_dens_pos,
    seq_rat_eq, vadd_chk, vadd_v, vneg_v, vscale_chk, vscale_v, SpatialVec,
};
use crate::tracer::{map_count, sat_add_u64};
use crate::tracer::Tracer;
use crate::SolveError;
use vstd::prelude::*;

verus! {

/// One recorded snapshot of the descent: iteration index, current position,
/// the gradient there, and the objective value there.
pub struct DescentFrame {
    pub step: usize,
    pub grad: SpatialVec,
    pub position: SpatialVec,
    pub value: Rational,
}

/// The frame's members are well-formed two-dimensional data.
pub open spec fn frame_wf(fr: DescentFrame) -> bool {
    &&& fr.position.wf()
    &&& fr.grad.wf()
    &&& fr.value.wf()
    &&& fr.position@.len() == 2
    &&& fr.grad@.len() == 2
}

/// The frame faithfully records the objective at its position: the stored
/// gradient and value equal the true gradient and value there.
pub open spec fn frame_ok(o: Objective, fr: DescentFrame) -> bool {
    &&& frame_wf(fr)
    &&& rat_eq(fr.grad@[0], obj_grad0_v(o, fr.position@))
    &&& rat_eq(fr.grad@[1], obj_grad1_v(o, fr.position@))
    &&& rat_eq(fr.value@, obj_value_v(o, fr.position@))
}

/// The stopping predicate, evaluated on each frame before stepping.
pub enum StopRule {
    /// Continue while the squared gradient norm exceeds `threshold` (the
    /// square of the intended gradient-norm tolerance).
    NormSqAbove { threshold: Rational },
}

impl StopRule {
    pub open spec fn wf(self) -> bool {
        match self {
            StopRule::NormSqAbove { threshold } => threshold.wf(),
        }
    }
}

/// Whether the rule asks for another step at this frame.
pub open spec fn should_continue_v(rule: StopRule, fr: DescentFrame) -> bool {
    match rule {
        StopRule::NormSqAbove { threshold } => rat_lt(threshold@, norm_sq_v(fr.grad@)),
    }
}

impl StopRule {
    /// Evaluate the rule on a frame; exact.
    pub fn should_step(&self, fr: &DescentFrame) -> (r: Result<bool, SolveError>)
        requires
            self.wf(),
            frame_wf(*fr),
        ensures
            (r is Ok) == (dot_chk(fr.grad@, fr.grad@, fr.grad@.len()) is Some),
            r matches Ok(b) ==> b == should_continue_v(*self, *fr),
            r matches Err(e) ==> e == SolveError::Overflow,
    {
        match self {
            StopRule::NormSqAbove { threshold } => {
                let ns = match fr.grad.norm_sq() {
                    Some(v) => v,
                    None => {
                        return Err(SolveError::Overflow);
                    },
                };
                proof {
                    assert(seq_dens_pos(fr.grad@));
                    lemma_dot_prefix_wf(fr.grad@, fr.grad@, fr.grad@.len());
                    lemma_le_congruence(threshold@, ns@, threshold@, norm_sq_v(fr.grad@));
                }
                Ok(threshold.lt(&ns))
            },
        }
    }
}

/// A descent-direction strategy; the Polak-Ribiere variant carries the
/// previous gradient and direction it needs.
pub enum DirectionStrategy {
    /// `d = -grad f(x)`.
    SteepestDescent,
    /// `d = -H^-1(x) * grad f(x)`.
    Newton,
    /// `d = -grad f(x) + beta * d_prev` with
    /// `beta = (g . g) / (g_prev . g_prev)`, falling back to the plain
    /// negative gradient whenever that direction fails to point downhill.
    PolakRibiere { prev_grad: Option<SpatialVec>, prev_dir: Option<SpatialVec> },
}

/// The strategy's shape, without its state.
pub enum StrategyKind {
    Steepest,
    Newton,
    PolakRibiere,
}

pub open spec fn strat_kind(s: DirectionStrategy) -> StrategyKind {
    match s {
        DirectionStrategy::SteepestDescent => StrategyKind::Steepest,
        DirectionStrategy::Newton => StrategyKind::Newton,
        DirectionStrategy::PolakRibiere { prev_grad, prev_dir } => StrategyKind::PolakRibiere,
    }
}

/// The Polak-Ribiere memory as plain values, when present.
pub open spec fn strat_prev(s: DirectionStrategy) -> Option<(Seq<Rat>, Seq<Rat>)> {
    match s {
        DirectionStrategy::PolakRibiere { prev_grad: Some(g), prev_dir: Some(d) } => Some(
            (g@, d@),
        ),
        _ => None,
    }
}

impl DirectionStrategy {
    pub open spec fn wf(self) -> bool {
        match self {
            DirectionStrategy::PolakRibiere { prev_grad, prev_dir } => {
                &&& (prev_grad is Some) == (prev_dir is Some)
                &&& (prev_grad matches Some(g) ==> g.wf() && g@.len() == 2)
                &&& (prev_dir matches Some(d) ==> d.wf() && d@.len() == 2)
            },
            _ => true,
        }
    }
}

/// The momentum coefficient `(g . g) / (pg . pg)`.
pub open spec fn pr_beta_v(g: Seq<Rat>, pg: Seq<Rat>) -> Rat {
    rat_div_v(dot_v(g, g), dot_v(pg, pg))
}

/// The raw Polak-Ribiere candidate `-g + beta * d_prev`.
pub open spec fn pr_candidate_v(g: Seq<Rat>, pg: Seq<Rat>, pd: Seq<Rat>) -> Seq<Rat> {
    vadd_v(vneg_v(g), vscale_v(pr_beta_v(g, pg), pd))
}

/// What a correct direction is, for a strategy of shape `kind` whose memory
/// holds `prev`, at the frame `fr`: steepest descent negates the gradient;
/// Newton solves the closed-form system; Polak-Ribiere combines the previous
/// direction and resets to the negative gradient whenever the combination
/// does not point downhill (`g . d >= 0`).
pub open spec fn dir_ok_v(
    o: Objective,
    kind: StrategyKind,
    prev: Option<(Seq<Rat>, Seq<Rat>)>,
    fr: DescentFrame,
    d: Seq<Rat>,
) -> bool {
    match kind {
        StrategyKind::Steepest => seq_rat_eq(d, vneg_v(fr.grad@)),
        StrategyKind::Newton => {
            &&& d.len() == 2
            &&& rat_eq(d[0], obj_newton0_v(o, fr.position@))
            &&& rat_eq(d[1], obj_newton1_v(o, fr.position@))
        },
        StrategyKind::PolakRibiere => match prev {
            None => seq_rat_eq(d, vneg_v(fr.grad@)),
            Some((pg, pd)) => {
                let cand = pr_candidate_v(fr.grad@, pg, pd);
                &&& !rat_eq(dot_v(pg, pg), rat_zero())
                &&& if rat_le(rat_zero(), dot_v(fr.grad@, cand)) {
                    seq_rat_eq(d, vneg_v(fr.grad@))
                } else {
                    seq_rat_eq(d, cand)
                }
            },
        },
    }
}

/// The checked Polak-Ribiere chain, through the candidate direction and the
/// downhill test value `g . cand`.
#[verifier::opaque]
pub open spec fn pr_gd_chk(g: Seq<Rat>, pg: Seq<Rat>, pd: Seq<Rat>) -> Result<
    (Seq<Rat>, Rat),
    SolveError,
> {
    match dot_chk(g, g, g.len()) {
        None => Err(SolveError::Overflow),
        Some(gg) => match dot_chk(pg, pg, pg.len()) {
            None => Err(SolveError::Overflow),
            Some(pp) => if rat_is_zero(pp) {
                Err(SolveError::ZeroCurvature)
            } else {
                match rat_div_chk(gg, pp) {
                    None => Err(SolveError::Overflow),
                    Some(beta) => match vscale_chk(beta, pd) {
                        None => Err(SolveError::Overflow),
                        Some(sc) => match vadd_chk(vneg_v(g), sc) {
                            None => Err(SolveError::Overflow),
                            Some(cand) => match dot_chk(g, cand, g.len()) {
                                None => Err(SolveError::Overflow),
                                Some(gd) => Ok((cand, gd)),
                            },
                        },
                    },
                }
            },
        },
    }
}

/// The checked next direction for a strategy of shape `kind` with memory
/// `prev` at frame `fr`: the exact outcome of the engine's direction step.
#[verifier::opaque]
pub open spec fn dir_chk(
    o: Objective,
    kind: StrategyKind,
    prev: Option<(Seq<Rat>, Seq<Rat>)>,
    fr: DescentFrame,
) -> Result<Seq<Rat>, SolveError> {
    match kind {
        StrategyKind::Steepest => Ok(vneg_v(fr.grad@)),
        StrategyKind::Newton => match obj_newton_chk(o, fr.position@) {
            Ok(p) => Ok(seq![p.0, p.1]),
            Err(e) => Err(e),
        },
        StrategyKind::PolakRibiere => match prev {
            None => Ok(vneg_v(fr.grad@)),
            Some((pg, pd)) => match pr_gd_chk(fr.grad@, pg, pd) {
                Err(e) => Err(e),
                Ok((cand, gd)) => Ok(
                    if rat_le(rat_zero(), gd) {
                        vneg_v(fr.grad@)
                    } else {
                        cand
                    },
                ),
            },
        },
    }
}

/// Whether the Polak-Ribiere safety valve fires at this gradient: the
/// candidate chain succeeds and its direction fails to point downhill.
#[verifier::opaque]
pub open spec fn pr_reset_fires(
    kind: StrategyKind,
    prev: Option<(Seq<Rat>, Seq<Rat>)>,
    g: Seq<Rat>,
) -> bool {
    &&& kind is PolakRibiere
    &&& match prev {
        None => false,
        Some((pg, pd)) => match pr_gd_chk(g, pg, pd) {
            Ok(p) => rat_le(rat_zero(), p.1),
            Err(e) => false,
        },
    }
}

/// The coordinate sequence of a direction result.
pub open spec fn dir_res_view(r: Result<SpatialVec, SolveError>) -> Result<Seq<Rat>, SolveError> {
    match r {
        Ok(d) => Ok(d@),
        Err(e) => Err(e),
    }
}

/// Compute the next direction, updating the strategy's memory; on a
/// Polak-Ribiere reset the tracer's `reset_label` count rises by one.
fn next_direction(
    strategy: &mut DirectionStrategy,
    o: &Objective,
    fr: &DescentFrame,
    tracer: &mut Tracer,
    reset_label: String,
) -> (r: Result<SpatialVec, SolveError>)
    requires
        old(strategy).wf(),
        o.wf(),
        frame_ok(*o, *fr),
        old(tracer).wf(),
    ensures
        final(strategy).wf(),
        final(tracer).wf(),
        strat_kind(*final(strategy)) == strat_kind(*old(strategy)),
        dir_res_view(r) == dir_chk(*o, strat_kind(*old(strategy)), strat_prev(*old(strategy)), *fr),
        final(tracer)@ == (if pr_reset_fires(
            strat_kind(*old(strategy)),
            strat_prev(*old(strategy)),
            fr.grad@,
        ) {
            old(tracer)@.insert(
                reset_label@,
                sat_add_u64(map_count(old(tracer)@, reset_label@), 1),
            )
        } else {
            old(tracer)@
        }),
        r matches Ok(d) ==> {
            &&& d.wf()
            &&& d@.len() == 2
            &&& dir_ok_v(*o, strat_kind(*old(strategy)), strat_prev(*old(strategy)), *fr, d@)
            &&& (strat_kind(*old(strategy)) is PolakRibiere ==> strat_prev(*final(strategy))
                == Some((fr.grad@, d@)))
            &&& (!(strat_kind(*old(strategy)) is PolakRibiere) ==> *final(strategy) == *old(
                strategy,
            ))
        },
        r matches Err(e) ==> e == SolveError::Overflow || e == SolveError::SingularHessian
            || e == SolveError::ZeroCurvature,
{
    proof {
        reveal(dir_chk);
        reveal(pr_gd_chk);
        reveal(pr_reset_fires);
    }
    match strategy {
        DirectionStrategy::SteepestDescent => {
            let d = fr.grad.neg();
            proof {
                assert(seq_rat_eq(d@, vneg_v(fr.grad@)));
                assert(d@ =~= vneg_v(fr.grad@));
            }
            Ok(d)
        },
        DirectionStrategy::Newton => {
            let r = o.newton(&fr.position);
            proof {
                if r is Ok {
                    let d = r->Ok_0;
                    let p = obj_newton_chk(*o, fr.position@)->Ok_0;
                    assert(d@ =~= seq![p.0, p.1]);
                }
            }
            r
        },
        DirectionStrategy::PolakRibiere { prev_grad, prev_dir } => {
            let has_prev = prev_grad.is_some();
            if !has_prev {
                let d = fr.grad.neg();
                proof {
                    assert(seq_rat_eq(d@, vneg_v(fr.grad@)));
                    assert(d@ =~= vneg_v(fr.grad@));
                }
                *prev_grad = Some(fr.grad.copied());
                *prev_dir = Some(d.copied());
                Ok(d)
            } else {
                let pg = match prev_grad {
                    Some(p) => p.copied(),
                    None => {
                        proof {
                            assert(false);
                        }
                        fr.grad.copied()
                    },
                };
                let pd = match prev_dir {
                    Some(p) => p.copied(),
                    None => {
                        proof {
                            assert(false);
                        }
                        fr.grad.copied()
                    },
                };
                let gg = match fr.grad.dot(&fr.grad) {
                    Some(v) => v,
                    None => {
                        return Err(SolveError::Overflow);
                    },
                };
                let pp = match pg.dot(&pg) {
                    Some(v) => v,
                    None => {
                        return Err(SolveError::Overflow);
                    },
                };
                if pp.is_zero() {
                    return Err(SolveError::ZeroCurvature);
                }
                let beta = match gg.div(&pp) {
                    Some(v) => v,
                    None => {
                        return Err(SolveError::Overflow);
                    },
                };
                proof {
                    assert(seq_dens_pos(fr.grad@) && seq_dens_pos(pg@) && seq_dens_pos(pd@));
                    lemma_dot_prefix_wf(fr.grad@, fr.grad@, fr.grad@.len());
                    lemma_dot_prefix_wf(pg@, pg@, pg@.len());
                    crate::rational::lemma_is_zero_transfer(pp@, dot_v(pg@, pg@));
                    lemma_div_chain(beta@, gg@, pp@, dot_v(fr.grad@, fr.grad@), dot_v(pg@, pg@));
                    crate::rational::lemma_div_v_wf(dot_v(fr.grad@, fr.grad@), dot_v(pg@, pg@));
                }
                let scaled = match pd.scale(&beta) {
                    Some(v) => v,
                    None => {
                        return Err(SolveError::Overflow);
                    },
                };
                let negg = fr.grad.neg();
                proof {
                    assert(negg@ =~= vneg_v(fr.grad@));
                }
                let cand = match negg.add(&scaled) {
                    Some(v) => v,
                    None => {
                        return Err(SolveError::Overflow);
                    },
                };
                let ghost candv = pr_candidate_v(fr.grad@, pg@, pd@);
                proof {
                    assert forall|i: int| 0 <= i < 2 implies rat_eq(#[trigger] cand@[i], candv[i]) by {
                        lemma_mul_chain(
                            scaled@[i],
                            beta@,
                            pd@[i],
                            pr_beta_v(fr.grad@, pg@),
                            pd@[i],
                        );
                        lemma_add_chain(
                            cand@[i],
                            negg@[i],
                            scaled@[i],
                            vneg_v(fr.grad@)[i],
                            vscale_v(pr_beta_v(fr.grad@, pg@), pd@)[i],
                        );
                    }
                    assert(seq_rat_eq(cand@, candv));
                }
                let gd = match fr.grad.dot(&cand) {
                    Some(v) => v,
                    None => {
                        return Err(SolveError::Overflow);
                    },
                };
                proof {
                    assert(seq_dens_pos(candv)) by {
                        assert forall|i: int| 0 <= i < candv.len() implies (
                        #[trigger] candv[i]).d > 0 by {
                            assert(candv[i].d == fr.grad@[i].d * (pr_beta_v(fr.grad@, pg@).d
                                * pd@[i].d));
                            assert(candv[i].d > 0) by (nonlinear_arith)
                                requires
                                    candv[i].d == fr.grad@[i].d * (pr_beta_v(fr.grad@, pg@).d
                                        * pd@[i].d),
                                    fr.grad@[i].d > 0,
                                    pd@[i].d > 0,
                                    pr_beta_v(fr.grad@, pg@).d > 0,
                            ;
                        }
                    }
                    lemma_dot_prefix_congruence(fr.grad@, fr.grad@, cand@, candv, fr.grad@.len());
                    lemma_dot_prefix_wf(fr.grad@, candv, fr.grad@.len());
                    lemma_rat_eq_trans(gd@, dot_v(fr.grad@, cand@), dot_v(fr.grad@, candv));
                }
                let zero = Rational::zero();
                let is_reset = zero.le(&gd);
                proof {
                    lemma_le_congruence(
                        zero@,
                        gd@,
                        rat_zero(),
                        dot_v(fr.grad@, candv),
                    );
                }
                let d = if is_reset {
                    tracer.increment_call(reset_label, 1);
                    let neg_d = fr.grad.neg();
                    proof {
                        assert(neg_d@ =~= vneg_v(fr.grad@));
                    }
                    neg_d
                } else {
                    cand
                };
                *prev_grad = Some(fr.grad.copied());
                *prev_dir = Some(d.copied());
                Ok(d)
            }
        },
    }
}

/// `r` to the `j`-th power, as a fraction value.
pub open spec fn rat_pow_v(r: Rat, j: nat) -> Rat
    decreases j,
{
    if j == 0 {
        rat_one()
    } else {
        rat_mul_v(r, rat_pow_v(r, (j - 1) as nat))
    }
}

/// Powers of a well-formed fraction stay well-formed.
proof fn lemma_pow_wf(r: Rat, j: nat)
    requires
        r.d > 0,
    ensures
        rat_pow_v(r, j).d > 0,
    decreases j,
{
    if j > 0 {
        lemma_pow_wf(r, (j - 1) as nat);
        crate::rational::lemma_pos_prod(r.d, rat_pow_v(r, (j - 1) as nat).d);
    }
}

/// The point `x + alpha * d` probed by the line search.
pub open spec fn trial_point_v(fr: DescentFrame, d: Seq<Rat>, alpha: Rat) -> Seq<Rat> {
    vadd_v(fr.position@, vscale_v(alpha, d))
}

/// The sufficient-decrease bound `f(x) + alpha * (theta * (d . g))`.
pub open spec fn armijo_rhs_v(
    o: Objective,
    theta: Rat,
    fr: DescentFrame,
    d: Seq<Rat>,
    alpha: Rat,
) -> Rat {
    rat_add_v(obj_value_v(o, fr.position@), rat_mul_v(alpha, rat_mul_v(theta, dot_v(d, fr.grad@))))
}

/// The Armijo condition at step length `alpha`:
/// `f(x + alpha d) <= f(x) + alpha * theta * (d . grad f(x))`.
pub open spec fn armijo_holds(
    o: Objective,
    theta: Rat,
    fr: DescentFrame,
    d: Seq<Rat>,
    alpha: Rat,
) -> bool {
    rat_le(obj_value_v(o, trial_point_v(fr, d, alpha)), armijo_rhs_v(o, theta, fr, d, alpha))
}

/// A correctly accepted backtracking step: `alpha` is `a0 * rho^j` for the
/// first `j` (at most `max_shrinks`) whose trial satisfies the Armijo
/// condition.
pub open spec fn accepted_step(
    o: Objective,
    a0: Rat,
    rho: Rat,
    theta: Rat,
    fr: DescentFrame,
    d: Seq<Rat>,
    alpha: Rat,
    max_shrinks: nat,
) -> bool {
    exists|j: nat|
        {
            &&& j <= max_shrinks
            &&& rat_eq(alpha, rat_mul_v(a0, #[trigger] rat_pow_v(rho, j)))
            &&& armijo_holds(o, theta, fr, d, alpha)
            &&& forall|j2: nat|
                j2 < j ==> !armijo_holds(
                    o,
                    theta,
                    fr,
                    d,
                    rat_mul_v(a0, #[trigger] rat_pow_v(rho, j2)),
                )
        }
}

/// The denominators inside the line-search quantities are positive whenever
/// the inputs are well-formed.
proof fn lemma_search_wf(o: Objective, theta: Rat, fr: DescentFrame, d: Seq<Rat>, alpha: Rat)
    requires
        o.wf(),
        theta.d > 0,
        alpha.d > 0,
        frame_wf(fr),
        d.len() == 2,
        seq_dens_pos(d),
    ensures
        rat_wf(obj_value_v(o, trial_point_v(fr, d, alpha))),
        rat_wf(armijo_rhs_v(o, theta, fr, d, alpha)),
        rat_wf(obj_value_v(o, fr.position@)),
        rat_wf(trial_point_v(fr, d, alpha)[0]),
        rat_wf(trial_point_v(fr, d, alpha)[1]),
{
    let tp = trial_point_v(fr, d, alpha);
    assert forall|i: int| 0 <= i < 2 implies (#[trigger] tp[i]).d > 0 by {
        assert(tp[i].d == fr.position@[i].d * (alpha.d * d[i].d));
        assert(tp[i].d > 0) by (nonlinear_arith)
            requires
                tp[i].d == fr.position@[i].d * (alpha.d * d[i].d),
                fr.position@[i].d > 0,
                alpha.d > 0,
                d[i].d > 0,
        ;
    }
    crate::rosen::lemma_obj_spec_wf(o, tp);
    crate::rosen::lemma_obj_spec_wf(o, fr.position@);
    lemma_dot_prefix_wf(d, fr.grad@, d.len());
    lemma_wf_add(theta, dot_v(d, fr.grad@));
    lemma_wf_add(alpha, rat_mul_v(theta, dot_v(d, fr.grad@)));
    lemma_wf_add(
        obj_value_v(o, fr.position@),
        rat_mul_v(alpha, rat_mul_v(theta, dot_v(d, fr.grad@))),
    );
}

/// The Armijo condition respects value equality of the step length.
proof fn lemma_armijo_alpha_congruence(
    o: Objective,
    theta: Rat,
    fr: DescentFrame,
    d: Seq<Rat>,
    a1: Rat,
    a2: Rat,
)
    requires
        o.wf(),
        theta.d > 0,
        a1.d > 0,
        a2.d > 0,
        rat_eq(a1, a2),
        frame_wf(fr),
        d.len() == 2,
        seq_dens_pos(d),
    ensures
        armijo_holds(o, theta, fr, d, a1) == armijo_holds(o, theta, fr, d, a2),
{
    let t1 = trial_point_v(fr, d, a1);
    let t2 = trial_point_v(fr, d, a2);
    assert forall|i: int| 0 <= i < 2 implies rat_eq(#[trigger] t1[i], t2[i]) by {
        lemma_mul_congruence(a1, d[i], a2, d[i]);
        lemma_add_congruence(
            fr.position@[i],
            rat_mul_v(a1, d[i]),
            fr.position@[i],
            rat_mul_v(a2, d[i]),
        );
    }
    assert(seq_rat_eq(t1, t2));
    lemma_obj_value_congruence(o, t1, t2);
    lemma_mul_congruence(a1, rat_mul_v(theta, dot_v(d, fr.grad@)), a2, rat_mul_v(theta, dot_v(d, fr.grad@)));
    lemma_add_congruence(
        obj_value_v(o, fr.position@),
        rat_mul_v(a1, rat_mul_v(theta, dot_v(d, fr.grad@))),
        obj_value_v(o, fr.position@),
        rat_mul_v(a2, rat_mul_v(theta, dot_v(d, fr.grad@))),
    );
    lemma_search_wf(o, theta, fr, d, a1);
    lemma_search_wf(o, theta, fr, d, a2);
    lemma_le_congruence(
        obj_value_v(o, t1),
        armijo_rhs_v(o, theta, fr, d, a1),
        obj_value_v(o, t2),
        armijo_rhs_v(o, theta, fr, d, a2),
    );
}

/// The checked sufficient-decrease slope `theta * (d . g)`.
pub open spec fn cd_chk(theta: Rat, d: Seq<Rat>, g: Seq<Rat>) -> Option<Rat> {
    match dot_chk(d, g, d.len()) {
        None => None,
        Some(dg) => rat_mul_chk(theta, dg),
    }
}

/// The machine step length after `j` contractions: `a0 * rho^j` by repeated
/// checked multiplication.
pub open spec fn alpha_rep_chk(a0: Rat, rho: Rat, j: nat) -> Option<Rat>
    decreases j,
{
    if j == 0 {
        Some(a0)
    } else {
        match alpha_rep_chk(a0, rho, (j - 1) as nat) {
            None => None,
            Some(a) => rat_mul_chk(a, rho),
        }
    }
}

/// Whether one of the checked computations of a backtracking trial at step
/// length `a` leaves the word range: the trial point, the objective there,
/// the sufficient-decrease bound, or the gradient evaluation that follows an
/// accepted step.
#[verifier::opaque]
pub open spec fn trial_blocked(
    o: Objective,
    fr: DescentFrame,
    d: Seq<Rat>,
    cd: Rat,
    a: Rat,
) -> bool {
    match vscale_chk(a, d) {
        None => true,
        Some(sc) => match vadd_chk(fr.position@, sc) {
            None => true,
            Some(xt) => match obj_value_chk(o, xt) {
                None => true,
                Some(fv) => match rat_mul_chk(a, cd) {
                    None => true,
                    Some(ri) => match rat_add_chk(fr.value@, ri) {
                        None => true,
                        Some(rhs) => obj_grad_chk(o, xt) is None,
                    },
                },
            },
        },
    }
}

/// Some checked computation of the backtracking search from `fr` along `d`
/// leaves the word range within the first `max` contractions.
#[verifier::opaque]
pub open spec fn ls_overflow(
    o: Objective,
    theta: Rat,
    a0: Rat,
    rho: Rat,
    fr: DescentFrame,
    d: Seq<Rat>,
    max: nat,
) -> bool {
    match cd_chk(theta, d, fr.grad@) {
        None => true,
        Some(cd) => exists|j: nat|
            j <= max && match #[trigger] alpha_rep_chk(a0, rho, j) {
                None => true,
                Some(a) => trial_blocked(o, fr, d, cd, a),
            },
    }
}

/// The line-search descent engine: the three line-search coefficients and
/// the objective being minimized.
pub struct Optimizer {
    /// The first trial step length, `alpha0 > 0`.
    pub initial_step_length: Rational,
    /// The factor `rho` in `(0, 1)` by which a rejected step contracts.
    pub step_contraction_factor: Rational,
    /// The sufficient-decrease coefficient `theta` in `(0, 1)`.
    pub step_threshold_coefficient: Rational,
    /// The objective being minimized.
    pub objective: Objective,
}

impl Optimizer {
    pub open spec fn wf(self) -> bool {
        &&& self.initial_step_length.wf()
        &&& self.step_contraction_factor.wf()
        &&& self.step_threshold_coefficient.wf()
        &&& self.objective.wf()
        &&& rat_lt(rat_zero(), self.initial_step_length@)
        &&& rat_lt(rat_zero(), self.step_contraction_factor@)
        &&& rat_lt(self.step_contraction_factor@, rat_one())
        &&& rat_lt(rat_zero(), self.step_threshold_coefficient@)
        &&& rat_lt(self.step_threshold_coefficient@, rat_one())
    }

    /// Backtracking line search from `fr` along `step_direction`: contract
    /// the trial step by the contraction factor until the sufficient-decrease
    /// condition holds, and return that step length with the objective value
    /// it reaches.  Each rejected trial counts one `<trial>/objective`
    /// evaluation in the tracer, and an accepted trial one more of each of
    /// `<trial>/grad` and `<trial>/objective`, as the engine's cost
    /// accounting.
    pub fn calc_next_step_length(
        &self,
        trial_name: &str,
        fr: &DescentFrame,
        step_direction: &SpatialVec,
        tracer: &mut Tracer,
        max_shrinks: usize,
    ) -> (r: Result<(Rational, Rational), SolveError>)
        requires
            self.wf(),
            frame_ok(self.objective, *fr),
            step_direction.wf(),
            step_direction@.len() == 2,
            old(tracer).wf(),
        ensures
            final(tracer).wf(),
            forall|k: Seq<char>|
                k != trial_name@ + "/objective"@ && k != trial_name@ + "/grad"@
                    ==> #[trigger] map_count(final(tracer)@, k) == map_count(old(tracer)@, k),
            forall|k: Seq<char>|
                #[trigger] map_count(final(tracer)@, k) >= map_count(old(tracer)@, k),
            r matches Ok(p) ==> {
                &&& p.0.wf()
                &&& p.1.wf()
                &&& accepted_step(
                    self.objective,
                    self.initial_step_length@,
                    self.step_contraction_factor@,
                    self.step_threshold_coefficient@,
                    *fr,
                    step_direction@,
                    p.0@,
                    max_shrinks as nat,
                )
                &&& rat_eq(
                    p.1@,
                    obj_value_v(self.objective, trial_point_v(*fr, step_direction@, p.0@)),
                )
                &&& exists|j: nat|
                    j <= max_shrinks && Some(p.0@) == #[trigger] alpha_rep_chk(
                        self.initial_step_length@,
                        self.step_contraction_factor@,
                        j,
                    )
                &&& (cd_chk(
                    self.step_threshold_coefficient@,
                    step_direction@,
                    fr.grad@,
                ) matches Some(cd) && (vscale_chk(p.0@, step_direction@) matches Some(sc) && (
                vadd_chk(fr.position@, sc) matches Some(xt) && obj_value_chk(
                    self.objective,
                    xt,
                ) == Some(p.1@) && (rat_mul_chk(p.0@, cd) matches Some(ri) && rat_add_chk(
                    fr.value@,
                    ri,
                ) is Some))))
            },
            r == Err::<(Rational, Rational), SolveError>(SolveError::StepsExhausted) ==> forall|
                j: nat,
            |
                j <= max_shrinks ==> !armijo_holds(
                    self.objective,
                    self.step_threshold_coefficient@,
                    *fr,
                    step_direction@,
                    rat_mul_v(
                        self.initial_step_length@,
                        #[trigger] rat_pow_v(self.step_contraction_factor@, j),
                    ),
                ),
            r == Err::<(Rational, Rational), SolveError>(SolveError::Overflow) ==> ls_overflow(
                self.objective,
                self.step_threshold_coefficient@,
                self.initial_step_length@,
                self.step_contraction_factor@,
                *fr,
                step_direction@,
                max_shrinks as nat,
            ),
            r matches Err(e) ==> e == SolveError::Overflow || e == SolveError::StepsExhausted,
    {
        let ghost ov = self.objective;
        let ghost a0v = self.initial_step_length@;
        let ghost rhov = self.step_contraction_factor@;
        let ghost thetav = self.step_threshold_coefficient@;
        let ghost dv = step_direction@;
        let ghost t0 = tracer@;
        let ghost olv = trial_name@ + "/objective"@;
        let ghost glv = trial_name@ + "/grad"@;
        proof {
            reveal(trial_blocked);
            reveal(ls_overflow);
        }
        let mut res: Option<Result<(Rational, Rational), SolveError>> = None;
        let dg = match step_direction.dot(&fr.grad) {
            Some(v) => v,
            None => {
                return Err(SolveError::Overflow);
            },
        };
        let cand_dot = match self.step_threshold_coefficient.mul(&dg) {
            Some(v) => v,
            None => {
                return Err(SolveError::Overflow);
            },
        };
        proof {
            assert(seq_dens_pos(dv) && seq_dens_pos(fr.grad@));
            lemma_dot_prefix_wf(dv, fr.grad@, dv.len());
            lemma_mul_chain(cand_dot@, self.step_threshold_coefficient@, dg@, thetav, dot_v(dv, fr.grad@));
        }
        let mut step = self.initial_step_length;
        let ghost j: nat = 0;
        proof {
            assert(rat_pow_v(rhov, 0) == rat_one());
            assert(a0v.n * (a0v.d * 1) == (a0v.n * 1) * a0v.d) by (nonlinear_arith);
            assert(rat_eq(a0v, rat_mul_v(a0v, rat_pow_v(rhov, 0))));
        }
        let mut shrinks_done: usize = 0;
        while shrinks_done <= max_shrinks
            invariant_except_break
                res is None,
            invariant
                self.wf(),
                frame_ok(ov, *fr),
                ov == self.objective,
                a0v == self.initial_step_length@,
                rhov == self.step_contraction_factor@,
                thetav == self.step_threshold_coefficient@,
                dv == step_direction@,
                step_direction.wf(),
                step_direction@.len() == 2,
                tracer.wf(),
                olv == trial_name@ + "/objective"@,
                glv == trial_name@ + "/grad"@,
                forall|k: Seq<char>|
                    k != olv && k != glv ==> #[trigger] map_count(tracer@, k) == map_count(t0, k),
                forall|k: Seq<char>| #[trigger] map_count(tracer@, k) >= map_count(t0, k),
                step.wf(),
                rat_eq(cand_dot@, rat_mul_v(thetav, dot_v(dv, fr.grad@))),
                Some(cand_dot@) == cd_chk(thetav, dv, fr.grad@),
                cand_dot.wf(),
                shrinks_done as nat == j,
                shrinks_done <= max_shrinks,
                rat_eq(step@, rat_mul_v(a0v, rat_pow_v(rhov, j))),
                Some(step@) == alpha_rep_chk(a0v, rhov, j),
                forall|j2: nat|
                    j2 < j ==> !armijo_holds(
                        ov,
                        thetav,
                        *fr,
                        dv,
                        rat_mul_v(a0v, #[trigger] rat_pow_v(rhov, j2)),
                    ),
            ensures
                res matches Some(out) && match out {
                    Ok(p) => {
                        &&& p.0.wf()
                        &&& p.1.wf()
                        &&& accepted_step(ov, a0v, rhov, thetav, *fr, dv, p.0@, max_shrinks as nat)
                        &&& rat_eq(p.1@, obj_value_v(ov, trial_point_v(*fr, dv, p.0@)))
                        &&& exists|j2: nat|
                            j2 <= max_shrinks && Some(p.0@) == #[trigger] alpha_rep_chk(
                                a0v,
                                rhov,
                                j2,
                            )
                        &&& (cd_chk(thetav, dv, fr.grad@) matches Some(cd) && (vscale_chk(
                            p.0@,
                            dv,
                        ) matches Some(sc) && (vadd_chk(fr.position@, sc) matches Some(xt)
                            && obj_value_chk(ov, xt) == Some(p.1@) && (rat_mul_chk(
                            p.0@,
                            cd,
                        ) matches Some(ri) && rat_add_chk(fr.value@, ri) is Some))))
                    },
                    Err(e) => {
                        &&& (e == SolveError::StepsExhausted ==> forall|j2: nat|
                            j2 <= max_shrinks ==> !armijo_holds(
                                ov,
                                thetav,
                                *fr,
                                dv,
                                rat_mul_v(a0v, #[trigger] rat_pow_v(rhov, j2)),
                            ))
                        &&& (e == SolveError::Overflow ==> ls_overflow(
                            ov,
                            thetav,
                            a0v,
                            rhov,
                            *fr,
                            dv,
                            max_shrinks as nat,
                        ))
                        &&& (e == SolveError::Overflow || e == SolveError::StepsExhausted)
                    },
                },
                tracer.wf(),
                forall|k: Seq<char>|
                    k != olv && k != glv ==> #[trigger] map_count(tracer@, k) == map_count(t0, k),
                forall|k: Seq<char>| #[trigger] map_count(tracer@, k) >= map_count(t0, k),
            decreases max_shrinks + 1 - shrinks_done,
        {
            proof {
                reveal(trial_blocked);
                reveal(ls_overflow);
            }
            let scaled = match step_direction.scale(&step) {
                Some(v) => v,
                None => {
                    proof {
                        assert(trial_blocked(ov, *fr, dv, cand_dot@, step@));
                    }
                    res = Some(Err(SolveError::Overflow));
                    break ;
                },
            };
            let x_trial = match fr.position.add(&scaled) {
                Some(v) => v,
                None => {
                    proof {
                        assert(trial_blocked(ov, *fr, dv, cand_dot@, step@));
                    }
                    res = Some(Err(SolveError::Overflow));
                    break ;
                },
            };
            let ghost tpv = trial_point_v(*fr, dv, step@);
            proof {
                assert forall|i: int| 0 <= i < 2 implies rat_eq(#[trigger] x_trial@[i], tpv[i]) by {
                    assert(rat_eq(scaled@[i], rat_mul_v(step@, dv[i])));
                    lemma_add_chain(
                        x_trial@[i],
                        fr.position@[i],
                        scaled@[i],
                        fr.position@[i],
                        rat_mul_v(step@, dv[i]),
                    );
                }
                assert(seq_rat_eq(x_trial@, tpv));
            }
            let next_value = match self.objective.value(&x_trial) {
                Ok(v) => v,
                Err(e) => {
                    proof {
                        assert(trial_blocked(ov, *fr, dv, cand_dot@, step@));
                    }
                    res = Some(Err(SolveError::Overflow));
                    break ;
                },
            };
            let rhs_inc = match step.mul(&cand_dot) {
                Some(v) => v,
                None => {
                    proof {
                        assert(trial_blocked(ov, *fr, dv, cand_dot@, step@));
                    }
                    res = Some(Err(SolveError::Overflow));
                    break ;
                },
            };
            let rhs = match fr.value.add(&rhs_inc) {
                Some(v) => v,
                None => {
                    proof {
                        assert(trial_blocked(ov, *fr, dv, cand_dot@, step@));
                    }
                    res = Some(Err(SolveError::Overflow));
                    break ;
                },
            };
            proof {
                lemma_search_wf(ov, thetav, *fr, dv, step@);
                crate::rosen::lemma_obj_spec_wf(ov, x_trial@);
                lemma_obj_value_congruence(ov, x_trial@, tpv);
                lemma_rat_eq_trans(next_value@, obj_value_v(ov, x_trial@), obj_value_v(ov, tpv));
                lemma_mul_chain(rhs_inc@, step@, cand_dot@, step@, rat_mul_v(thetav, dot_v(dv, fr.grad@)));
                lemma_add_chain(
                    rhs@,
                    fr.value@,
                    rhs_inc@,
                    obj_value_v(ov, fr.position@),
                    rat_mul_v(step@, rat_mul_v(thetav, dot_v(dv, fr.grad@))),
                );
                lemma_le_congruence(
                    next_value@,
                    rhs@,
                    obj_value_v(ov, tpv),
                    armijo_rhs_v(ov, thetav, *fr, dv, step@),
                );
            }
            if next_value.le(&rhs) {
                let grad_label = new_label(trial_name, "/grad");
                let obj_label = new_label(trial_name, "/objective");
                let ghost tpre = tracer@;
                tracer.increment_call(grad_label, 1);
                let ghost tmid = tracer@;
                tracer.increment_call(obj_label, 1);
                proof {
                    crate::tracer::lemma_bump_frame(tpre, glv, 1);
                    crate::tracer::lemma_bump_frame(tmid, olv, 1);
                    assert(armijo_holds(ov, thetav, *fr, dv, step@));
                    assert(accepted_step(ov, a0v, rhov, thetav, *fr, dv, step@, max_shrinks as nat)) by {
                        assert(j <= max_shrinks as nat && rat_eq(step@, rat_mul_v(a0v, rat_pow_v(rhov, j))));
                    }
                }
                res = Some(Ok((step, next_value)));
                break ;
            }
            let obj_label = new_label(trial_name, "/objective");
            let ghost tpre = tracer@;
            tracer.increment_call(obj_label, 1);
            proof {
                crate::tracer::lemma_bump_frame(tpre, olv, 1);
                assert(!armijo_holds(ov, thetav, *fr, dv, step@));
                lemma_pow_wf(rhov, j);
                crate::rational::lemma_pos_prod(a0v.d, rat_pow_v(rhov, j).d);
                lemma_armijo_alpha_congruence(
                    ov,
                    thetav,
                    *fr,
                    dv,
                    step@,
                    rat_mul_v(a0v, rat_pow_v(rhov, j)),
                );
                assert forall|j2: nat|
                    j2 < j + 1 implies !armijo_holds(
                    ov,
                    thetav,
                    *fr,
                    dv,
                    rat_mul_v(a0v, #[trigger] rat_pow_v(rhov, j2)),
                ) by {
                    if j2 == j {
                        assert(!armijo_holds(ov, thetav, *fr, dv, rat_mul_v(a0v, rat_pow_v(rhov, j))));
                    }
                }
            }
            if shrinks_done == max_shrinks {
                proof {
                    assert forall|j2: nat|
                        j2 <= max_shrinks implies !armijo_holds(
                        ov,
                        thetav,
                        *fr,
                        dv,
                        rat_mul_v(a0v, #[trigger] rat_pow_v(rhov, j2)),
                    ) by {
                        assert(j2 < j + 1);
                    }
                }
                res = Some(Err(SolveError::StepsExhausted));
                break ;
            }
            let new_step = match step.mul(&self.step_contraction_factor) {
                Some(v) => v,
                None => {
                    proof {
                        assert(alpha_rep_chk(a0v, rhov, (j + 1) as nat) is None);
                    }
                    res = Some(Err(SolveError::Overflow));
                    break ;
                },
            };
            proof {
                lemma_mul_chain(new_step@, step@, rhov, rat_mul_v(a0v, rat_pow_v(rhov, j)), rhov);
                crate::rational::lemma_mul_shuffle_v(a0v, rat_pow_v(rhov, j), rhov);
                crate::rational::lemma_pos_prod(a0v.d * rat_pow_v(rhov, j).d, rhov.d);
                assert(rat_pow_v(rhov, j + 1) == rat_mul_v(rhov, rat_pow_v(rhov, j)));
                lemma_rat_eq_trans(
                    new_step@,
                    rat_mul_v(rat_mul_v(a0v, rat_pow_v(rhov, j)), rhov),
                    rat_mul_v(a0v, rat_pow_v(rhov, (j + 1) as nat)),
                );
            }
            step = new_step;
            shrinks_done += 1;
            proof {
                j = (j + 1) as nat;
            }
        }
        match res {
            Some(out) => out,
            None => Err(SolveError::StepsExhausted),
        }
    }
}

/// Settle the outcome of a run whose step budget has run out: count the
/// final per-frame gradient bookkeeping, then ask the stopping rule once
/// more at the last frame.
fn budget_outcome(
    trial_name: &str,
    rule: &StopRule,
    fr: &DescentFrame,
    n: u64,
    tracer: &mut Tracer,
) -> (oc: DescentOutcome)
    requires
        rule.wf(),
        frame_wf(*fr),
        old(tracer).wf(),
    ensures
        final(tracer).wf(),
        forall|k: Seq<char>|
            k != trial_name@ + "/grad"@ ==> #[trigger] map_count(final(tracer)@, k) == map_count(
                old(tracer)@,
                k,
            ),
        forall|k: Seq<char>|
            #[trigger] map_count(final(tracer)@, k) >= map_count(old(tracer)@, k),
        oc is Converged ==> !should_continue_v(*rule, *fr),
        oc is OutOfSteps ==> should_continue_v(*rule, *fr),
        oc matches DescentOutcome::Failed(e) ==> e == SolveError::Overflow && dot_chk(
            fr.grad@,
            fr.grad@,
            fr.grad@.len(),
        ) is None,
{
    let grad_label = new_label(trial_name, "/grad");
    let ghost tpre = tracer@;
    tracer.increment_call(grad_label, n);
    proof {
        crate::tracer::lemma_bump_frame(tpre, trial_name@ + "/grad"@, n);
    }
    match rule.should_step(fr) {
        Ok(b) => {
            if !b {
                DescentOutcome::Converged
            } else {
                DescentOutcome::OutOfSteps
            }
        },
        Err(e) => DescentOutcome::Failed(e),
    }
}

/// Builds the tracer label `<trial><suffix>`.
fn new_label(trial_name: &str, suffix: &str) -> (r: String)
    ensures
        r@ == trial_name@ + suffix@,
{
    let mut s = String::new();
    s.append(trial_name);
    s.append(suffix);
    proof {
        assert(s@ =~= trial_name@ + suffix@);
    }
    s
}

/// Appending one correctly taken step extends the audit-trail invariant.
proof fn lemma_chain_extend(
    ov: Objective,
    a0v: Rat,
    rhov: Rat,
    thetav: Rat,
    rule: StopRule,
    strategy: DirectionStrategy,
    strat_before: DirectionStrategy,
    old_frames: Seq<DescentFrame>,
    fs: Seq<DescentFrame>,
    dirs: Seq<Seq<Rat>>,
    ds: Seq<Seq<Rat>>,
    alphas: Seq<Rat>,
    als: Seq<Rat>,
    d: Seq<Rat>,
    alpha: Rat,
    newfr: DescentFrame,
    max_shrinks: nat,
)
    requires
        descent_chain(ov, a0v, rhov, thetav, rule, strategy, old_frames, dirs, alphas, max_shrinks),
        fs == old_frames.push(newfr),
        ds == dirs.push(d),
        als == alphas.push(alpha),
        should_continue_v(rule, old_frames[old_frames.len() - 1]),
        d.len() == 2,
        seq_dens_pos(d),
        alpha.d > 0,
        strat_kind(strat_before) == strat_kind(strategy),
        strat_kind(strategy) is PolakRibiere ==> strat_prev(strat_before) == prev_at(
            strategy,
            old_frames,
            dirs,
            old_frames.len() - 1,
        ),
        dir_ok_v(
            ov,
            strat_kind(strategy),
            strat_prev(strat_before),
            old_frames[old_frames.len() - 1],
            d,
        ),
        accepted_step(
            ov,
            a0v,
            rhov,
            thetav,
            old_frames[old_frames.len() - 1],
            d,
            alpha,
            max_shrinks,
        ),
        seq_rat_eq(
            newfr.position@,
            trial_point_v(old_frames[old_frames.len() - 1], d, alpha),
        ),
        frame_ok(ov, newfr),
        newfr.step == old_frames.len(),
    ensures
        descent_chain(ov, a0v, rhov, thetav, rule, strategy, fs, ds, als, max_shrinks),
{
    let k = old_frames.len() - 1;
    assert forall|k2: int| 0 <= k2 < fs.len() implies frame_ok(ov, #[trigger] fs[k2])
        && fs[k2].step == k2 by {
        if k2 < fs.len() - 1 {
            assert(fs[k2] == old_frames[k2]);
        }
    }
    assert forall|k2: int| 0 <= k2 < fs.len() - 1 implies {
        &&& should_continue_v(rule, #[trigger] fs[k2])
        &&& ds[k2].len() == 2
        &&& seq_dens_pos(ds[k2])
        &&& als[k2].d > 0
        &&& dir_ok_v(ov, strat_kind(strategy), prev_at(strategy, fs, ds, k2), fs[k2], ds[k2])
        &&& accepted_step(ov, a0v, rhov, thetav, fs[k2], ds[k2], als[k2], max_shrinks)
        &&& seq_rat_eq(fs[k2 + 1].position@, vadd_v(fs[k2].position@, vscale_v(als[k2], ds[k2])))
    } by {
        if k2 < fs.len() - 2 {
            assert(fs[k2] == old_frames[k2] && fs[k2 + 1] == old_frames[k2 + 1]);
            assert(ds[k2] == dirs[k2] && als[k2] == alphas[k2]);
            assert(prev_at(strategy, fs, ds, k2) == prev_at(strategy, old_frames, dirs, k2));
        } else {
            assert(k2 == k);
            assert(fs[k2] == old_frames[k] && fs[k2 + 1] == newfr);
            assert(ds[k2] == d && als[k2] == alpha);
            assert(dir_ok_v(ov, strat_kind(strategy), strat_prev(strat_before), fs[k2], ds[k2]));
            if strat_kind(strategy) is PolakRibiere {
                assert(prev_at(strategy, fs, ds, k2) == strat_prev(strat_before));
            }
            assert(dir_ok_v(ov, strat_kind(strategy), prev_at(strategy, fs, ds, k2), fs[k2], ds[k2]));
        }
    }
}

/// What a `Failed` outcome attests: at the run's last frame, either the
/// stopping rule's own evaluation left the word range, or the rule asked to
/// continue and the step from that frame was blocked -- the direction
/// computation failed with this very error, or every permitted trial step
/// failed the sufficient-decrease test, or a checked computation of the
/// search overflowed.
#[verifier::opaque]
pub open spec fn descent_failure(
    o: Objective,
    a0: Rat,
    rho: Rat,
    theta: Rat,
    rule: StopRule,
    kind: StrategyKind,
    prev: Option<(Seq<Rat>, Seq<Rat>)>,
    fr: DescentFrame,
    e: SolveError,
    max: nat,
) -> bool {
    ||| (e == SolveError::Overflow && dot_chk(fr.grad@, fr.grad@, fr.grad@.len()) is None)
    ||| (should_continue_v(rule, fr) && match dir_chk(o, kind, prev, fr) {
        Err(e2) => e == e2,
        Ok(d) => {
            ||| (e == SolveError::StepsExhausted && forall|j: nat|
                j <= max ==> !armijo_holds(
                    o,
                    theta,
                    fr,
                    d,
                    rat_mul_v(a0, #[trigger] rat_pow_v(rho, j)),
                ))
            ||| (e == SolveError::Overflow && ls_overflow(o, theta, a0, rho, fr, d, max))
        },
    })
}

/// How one run ended.
#[derive(Clone, Copy, Debug, PartialEq, Eq, Structural)]
pub enum DescentOutcome {
    /// The stopping predicate released the loop.
    Converged,
    /// The step budget ran out before the predicate released the loop.
    OutOfSteps,
    /// A fatal numerical condition ended the run early.
    Failed(SolveError),
}

/// A finished run: the append-only frame history (the zeroth frame is always
/// present) and how the run ended.
pub struct DescentRun {
    pub frames: Vec<DescentFrame>,
    pub outcome: DescentOutcome,
}

/// The Polak-Ribiere memory in force before step `k`: the strategy's own
/// seed before the first step, afterwards the previous step's gradient and
/// direction.
pub open spec fn prev_at(
    strat0: DirectionStrategy,
    frames: Seq<DescentFrame>,
    dirs: Seq<Seq<Rat>>,
    k: int,
) -> Option<(Seq<Rat>, Seq<Rat>)> {
    if k == 0 {
        strat_prev(strat0)
    } else {
        Some((frames[k - 1].grad@, dirs[k - 1]))
    }
}

/// The audit-trail invariant of a descent run: every frame faithfully
/// records the objective, and every consecutive pair is one engine step --
/// the predicate asked to continue, the strategy produced the direction, the
/// backtracking search accepted the step length, and the position advanced
/// by exactly that step.
pub open spec fn descent_chain(
    o: Objective,
    a0: Rat,
    rho: Rat,
    theta: Rat,
    rule: StopRule,
    strat0: DirectionStrategy,
    frames: Seq<DescentFrame>,
    dirs: Seq<Seq<Rat>>,
    alphas: Seq<Rat>,
    max_shrinks: nat,
) -> bool {
    &&& frames.len() >= 1
    &&& dirs.len() == frames.len() - 1
    &&& alphas.len() == frames.len() - 1
    &&& forall|k: int|
        0 <= k < frames.len() ==> frame_ok(o, #[trigger] frames[k]) && frames[k].step == k
    &&& forall|k: int|
        0 <= k < frames.len() - 1 ==> {
            &&& should_continue_v(rule, #[trigger] frames[k])
            &&& dirs[k].len() == 2
            &&& seq_dens_pos(dirs[k])
            &&& alphas[k].d > 0
            &&& dir_ok_v(o, strat_kind(strat0), prev_at(strat0, frames, dirs, k), frames[k], dirs[k])
            &&& accepted_step(o, a0, rho, theta, frames[k], dirs[k], alphas[k], max_shrinks)
            &&& seq_rat_eq(
                frames[k + 1].position@,
                vadd_v(frames[k].position@, vscale_v(alphas[k], dirs[k])),
            )
        }
}

impl Optimizer {
    /// Run the descent from `start` until the stopping rule releases it, the
    /// step budget `max_steps` runs out, or a fatal numerical condition
    /// appears.  The returned history always begins with the frame at
    /// `start`; consecutive frames are linked exactly as `descent_chain`
    /// states.  Objective, gradient and reset events are counted in the
    /// tracer under `<trial>/objective`, `<trial>/grad` and `<trial>/reset`.
    #[verifier::rlimit(100)]
    pub fn descent(
        &self,
        trial_name: &str,
        start: SpatialVec,
        rule: &StopRule,
        strategy: DirectionStrategy,
        tracer: &mut Tracer,
        max_steps: usize,
        max_shrinks: usize,
    ) -> (r: Result<DescentRun, SolveError>)
        requires
            self.wf(),
            start.wf(),
            start@.len() == 2,
            rule.wf(),
            strategy.wf(),
            old(tracer).wf(),
        ensures
            final(tracer).wf(),
            forall|k: Seq<char>|
                k != trial_name@ + "/objective"@ && k != trial_name@ + "/grad"@ && k
                    != trial_name@ + "/reset"@ ==> #[trigger] map_count(final(tracer)@, k)
                    == map_count(old(tracer)@, k),
            forall|k: Seq<char>|
                #[trigger] map_count(final(tracer)@, k) >= map_count(old(tracer)@, k),
            r matches Ok(run) ==> {
                &&& 1 <= run.frames@.len() <= max_steps + 1
                &&& run.frames@[0].position@ == start@
                &&& exists|dirs: Seq<Seq<Rat>>, alphas: Seq<Rat>|
                    descent_chain(
                        self.objective,
                        self.initial_step_length@,
                        self.step_contraction_factor@,
                        self.step_threshold_coefficient@,
                        *rule,
                        strategy,
                        run.frames@,
                        dirs,
                        alphas,
                        max_shrinks as nat,
                    ) && (run.outcome matches DescentOutcome::Failed(e) ==> descent_failure(
                        self.objective,
                        self.initial_step_length@,
                        self.step_contraction_factor@,
                        self.step_threshold_coefficient@,
                        *rule,
                        strat_kind(strategy),
                        prev_at(strategy, run.frames@, dirs, run.frames@.len() - 1),
                        run.frames@[run.frames@.len() - 1],
                        e,
                        max_shrinks as nat,
                    ))
                &&& (run.outcome is Converged ==> !should_continue_v(
                    *rule,
                    run.frames@[run.frames@.len() - 1],
                ))
                &&& (run.outcome is OutOfSteps ==> run.frames@.len() == max_steps + 1
                    && should_continue_v(*rule, run.frames@[run.frames@.len() - 1]))
            },
            (r is Err) == (obj_grad_chk(self.objective, start@) is None || obj_value_chk(
                self.objective,
                start@,
            ) is None),
            r matches Err(e) ==> e == SolveError::Overflow,
    {
        let ghost ov = self.objective;
        let ghost a0v = self.initial_step_length@;
        let ghost rhov = self.step_contraction_factor@;
        let ghost thetav = self.step_threshold_coefficient@;
        let g0 = match self.objective.grad(&start) {
            Ok(g) => g,
            Err(e) => {
                return Err(SolveError::Overflow);
            },
        };
        let v0 = match self.objective.value(&start) {
            Ok(v) => v,
            Err(e) => {
                return Err(SolveError::Overflow);
            },
        };
        let ghost startv = start@;
        let ghost t0 = tracer@;
        let ghost olv = trial_name@ + "/objective"@;
        let ghost glv = trial_name@ + "/grad"@;
        let ghost rlv = trial_name@ + "/reset"@;
        let mut frames: Vec<DescentFrame> = Vec::new();
        frames.push(DescentFrame { step: 0, grad: g0, position: start, value: v0 });
        let mut strat = strategy;
        let ghost mut dirs: Seq<Seq<Rat>> = Seq::empty();
        let ghost mut alphas: Seq<Rat> = Seq::empty();
        let mut outcome_opt: Option<DescentOutcome> = None;
        while frames.len() <= max_steps
            invariant_except_break
                outcome_opt is None,
                strat_kind(strategy) is PolakRibiere ==> strat_prev(strat) == prev_at(
                    strategy,
                    frames@,
                    dirs,
                    frames@.len() - 1,
                ),
            invariant
                self.wf(),
                ov == self.objective,
                a0v == self.initial_step_length@,
                rhov == self.step_contraction_factor@,
                thetav == self.step_threshold_coefficient@,
                rule.wf(),
                strat.wf(),
                tracer.wf(),
                olv == trial_name@ + "/objective"@,
                glv == trial_name@ + "/grad"@,
                rlv == trial_name@ + "/reset"@,
                forall|k: Seq<char>|
                    k != olv && k != glv && k != rlv ==> #[trigger] map_count(tracer@, k)
                        == map_count(t0, k),
                forall|k: Seq<char>| #[trigger] map_count(tracer@, k) >= map_count(t0, k),
                1 <= frames@.len() <= max_steps + 1,
                frames@[0].position@ == startv,
                strat_kind(strat) == strat_kind(strategy),
                descent_chain(
                    ov,
                    a0v,
                    rhov,
                    thetav,
                    *rule,
                    strategy,
                    frames@,
                    dirs,
                    alphas,
                    max_shrinks as nat,
                ),
            ensures
                match outcome_opt {
                    None => frames@.len() == max_steps + 1,
                    Some(oc) => {
                        &&& (oc is Converged ==> !should_continue_v(
                            *rule,
                            frames@[frames@.len() - 1],
                        ))
                        &&& !(oc is OutOfSteps)
                        &&& (oc matches DescentOutcome::Failed(e) ==> descent_failure(
                            ov,
                            a0v,
                            rhov,
                            thetav,
                            *rule,
                            strat_kind(strategy),
                            prev_at(strategy, frames@, dirs, frames@.len() - 1),
                            frames@[frames@.len() - 1],
                            e,
                            max_shrinks as nat,
                        ))
                    },
                },
            decreases max_steps + 1 - frames@.len(),
        {
            proof {
                reveal(descent_failure);
                reveal(trial_blocked);
                reveal(ls_overflow);
                reveal(dir_chk);
            }
            let lastidx = frames.len() - 1;
            let cont = match rule.should_step(&frames[lastidx]) {
                Ok(b) => b,
                Err(e) => {
                    proof {
                        assert(dot_chk(
                            frames@[lastidx as int].grad@,
                            frames@[lastidx as int].grad@,
                            frames@[lastidx as int].grad@.len(),
                        ) is None);
                    }
                    outcome_opt = Some(DescentOutcome::Failed(e));
                    break ;
                },
            };
            if !cont {
                let grad_label = new_label(trial_name, "/grad");
                let n = frames.len();
                let ghost tpre = tracer@;
                tracer.increment_call(grad_label, n as u64);
                proof {
                    crate::tracer::lemma_bump_frame(tpre, glv, n as u64);
                }
                outcome_opt = Some(DescentOutcome::Converged);
                break ;
            }
            let ghost strat_before = strat;
            let ghost tpre_dir = tracer@;
            let d = match next_direction(
                &mut strat,
                &self.objective,
                &frames[lastidx],
                tracer,
                new_label(trial_name, "/reset"),
            ) {
                Ok(d) => d,
                Err(e) => {
                    proof {
                        if pr_reset_fires(
                            strat_kind(strat_before),
                            strat_prev(strat_before),
                            frames@[lastidx as int].grad@,
                        ) {
                            crate::tracer::lemma_bump_frame(tpre_dir, rlv, 1);
                        }
                        let prev = prev_at(strategy, frames@, dirs, frames@.len() - 1);
                        if strat_kind(strategy) is PolakRibiere {
                            assert(prev == strat_prev(strat_before));
                        }
                        assert(dir_chk(ov, strat_kind(strategy), prev, frames@[lastidx as int])
                            == Err::<Seq<Rat>, SolveError>(e));
                        assert(descent_failure(
                            ov,
                            a0v,
                            rhov,
                            thetav,
                            *rule,
                            strat_kind(strategy),
                            prev,
                            frames@[lastidx as int],
                            e,
                            max_shrinks as nat,
                        ));
                    }
                    outcome_opt = Some(DescentOutcome::Failed(e));
                    break ;
                },
            };
            proof {
                if pr_reset_fires(
                    strat_kind(strat_before),
                    strat_prev(strat_before),
                    frames@[lastidx as int].grad@,
                ) {
                    crate::tracer::lemma_bump_frame(tpre_dir, rlv, 1);
                }
                let prev = prev_at(strategy, frames@, dirs, frames@.len() - 1);
                if strat_kind(strategy) is PolakRibiere {
                    assert(prev == strat_prev(strat_before));
                }
                assert(dir_chk(ov, strat_kind(strategy), prev, frames@[lastidx as int])
                    == Ok::<Seq<Rat>, SolveError>(d@));
            }
            let (alpha, nv) = match self.calc_next_step_length(
                trial_name,
                &frames[lastidx],
                &d,
                tracer,
                max_shrinks,
            ) {
                Ok(p) => p,
                Err(e) => {
                    proof {
                        let prev = prev_at(strategy, frames@, dirs, frames@.len() - 1);
                        assert(descent_failure(
                            ov,
                            a0v,
                            rhov,
                            thetav,
                            *rule,
                            strat_kind(strategy),
                            prev,
                            frames@[lastidx as int],
                            e,
                            max_shrinks as nat,
                        ));
                    }
                    outcome_opt = Some(DescentOutcome::Failed(e));
                    break ;
                },
            };
            let scaled = match d.scale(&alpha) {
                Some(v) => v,
                None => {
                    proof {
                        assert(false);
                    }
                    outcome_opt = Some(DescentOutcome::Failed(SolveError::Overflow));
                    break ;
                },
            };
            let xnew = match frames[lastidx].position.add(&scaled) {
                Some(v) => v,
                None => {
                    proof {
                        assert(false);
                    }
                    outcome_opt = Some(DescentOutcome::Failed(SolveError::Overflow));
                    break ;
                },
            };
            let ghost k = lastidx as int;
            let ghost tpv = trial_point_v(frames@[k], d@, alpha@);
            proof {
                assert forall|i: int| 0 <= i < 2 implies rat_eq(#[trigger] xnew@[i], tpv[i]) by {
                    assert(rat_eq(scaled@[i], rat_mul_v(alpha@, d@[i])));
                    lemma_add_chain(
                        xnew@[i],
                        frames@[k].position@[i],
                        scaled@[i],
                        frames@[k].position@[i],
                        rat_mul_v(alpha@, d@[i]),
                    );
                }
                assert(seq_rat_eq(xnew@, tpv));
            }
            let gnew = match self.objective.grad(&xnew) {
                Ok(g) => g,
                Err(e) => {
                    proof {
                        let prev = prev_at(strategy, frames@, dirs, frames@.len() - 1);
                        let j2 = choose|j2: nat|
                            j2 <= max_shrinks && Some(alpha@) == #[trigger] alpha_rep_chk(
                                a0v,
                                rhov,
                                j2,
                            );
                        let cd = cd_chk(thetav, d@, frames@[lastidx as int].grad@)->Some_0;
                        assert(trial_blocked(ov, frames@[lastidx as int], d@, cd, alpha@));
                        assert(ls_overflow(
                            ov,
                            thetav,
                            a0v,
                            rhov,
                            frames@[lastidx as int],
                            d@,
                            max_shrinks as nat,
                        ));
                        assert(descent_failure(
                            ov,
                            a0v,
                            rhov,
                            thetav,
                            *rule,
                            strat_kind(strategy),
                            prev,
                            frames@[lastidx as int],
                            SolveError::Overflow,
                            max_shrinks as nat,
                        ));
                    }
                    outcome_opt = Some(DescentOutcome::Failed(SolveError::Overflow));
                    break ;
                },
            };
            let newstep = frames.len();
            let newfr = DescentFrame { step: newstep, grad: gnew, position: xnew, value: nv };
            proof {
                assert(seq_dens_pos(d@));
                lemma_search_wf(ov, thetav, frames@[k], d@, alpha@);
                crate::rosen::lemma_obj_spec_wf(ov, xnew@);
                lemma_obj_value_congruence(ov, tpv, xnew@);
                lemma_rat_eq_trans(nv@, obj_value_v(ov, tpv), obj_value_v(ov, xnew@));
                assert(frame_ok(ov, newfr));
            }
            let ghost old_frames = frames@;
            frames.push(newfr);
            proof {
                let fs = frames@;
                let ds = dirs.push(d@);
                let als = alphas.push(alpha@);
                lemma_chain_extend(
                    ov,
                    a0v,
                    rhov,
                    thetav,
                    *rule,
                    strategy,
                    strat_before,
                    old_frames,
                    fs,
                    dirs,
                    ds,
                    alphas,
                    als,
                    d@,
                    alpha@,
                    newfr,
                    max_shrinks as nat,
                );
                dirs = ds;
                alphas = als;
                if strat_kind(strategy) is PolakRibiere {
                    assert(strat_prev(strat) == Some((fs[k].grad@, dirs[k])));
                    assert(prev_at(strategy, fs, dirs, fs.len() - 1) == Some((fs[k].grad@, dirs[k])));
                }
            }
        }
        let outcome = match outcome_opt {
            Some(oc) => oc,
            None => {
                let n = frames.len();
                let lastidx = n - 1;
                budget_outcome(trial_name, rule, &frames[lastidx], n as u64, tracer)
            },
        };
        proof {
            reveal(descent_failure);
            assert forall|k: Seq<char>|
                k != olv && k != glv && k != rlv implies #[trigger] map_count(tracer@, k)
                == map_count(t0, k) by {}
            assert forall|k: Seq<char>| #[trigger] map_count(tracer@, k) >= map_count(t0, k) by {}
        }
        Ok(DescentRun { frames, outcome })
    }
}

} // verus!

