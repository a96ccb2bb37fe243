//! The conjugate-gradient linear solver.
//!
//! Solves `A * x = b` for a symmetric positive-definite `A` by the classical
//! recurrence: `alpha = (r . r) / (d . A d)`, `x' = x + alpha d`,
//! `r' = r + alpha (A d)`, `beta = (r' . r') / (r . r)`,
//! `d' = -r' + beta d`.  Iteration is governed by a residual-norm stopping
//! predicate and a step budget; a zero step-length denominator is surfaced
//! as an error, never turned into a bogus step.  Every run returns its full
//! frame history.

use crate::matrix::{matvec_chk, row_v, transpose_v, Matrix};
use crate::optimizer::DescentOutcome;
use crate::rational::{
    lemma_add_chain, lemma_div_chain, lemma_is_zero_transfer, lemma_le_congruence,
    lemma_mul_congruence, lemma_rat_eq_trans, rat_add_v, rat_div_chk, rat_div_v, rat_eq,
    rat_is_zero, rat_lt, rat_mul_v, rat_neg_v, rat_zero, Rat, Rational,
};
use crate::spatial_vec::{
    dot_chk, dot_v, lemma_dot_prefix_congruence, lemma_dot_prefix_wf, norm_sq_v, seq_dens_pos,
    seq_rat_eq, seq_wf, vadd_chk, vadd_v, vneg_v, vscale_chk, vscale_v, vsub_chk, vsub_v,
    SpatialVec,
};
use crate::SolveError;
use vstd::prelude::*;

verus! {

/// One recorded snapshot of a solve: the residual and the position.
pub struct DescentFrame {
    pub residual: SpatialVec,
    pub position: SpatialVec,
}

/// A finished solve: the frame history (the zeroth frame is always present)
/// and how the run ended.
pub struct CgRun {
    pub frames: Vec<DescentFrame>,
    pub outcome: DescentOutcome,
}

/// The frame's members are well-formed vectors of dimension `n`.
pub open spec fn cg_frame_wf(fr: DescentFrame, n: nat) -> bool {
    &&& fr.residual.wf()
    &&& fr.position.wf()
    &&& fr.residual@.len() == n
    &&& fr.position@.len() == n
}

/// The matrix-vector product `m * v`, with entries
/// `sum over i of v[i] * m[i][j]`, as fraction values.
pub open spec fn matvec_v(m: Seq<Seq<Rat>>, v: Seq<Rat>) -> Seq<Rat> {
    Seq::new(m.len(), |j: int| dot_v(v, row_v(m, j)))
}

/// Whether the solver continues at this frame: the squared residual norm
/// still exceeds the threshold.
pub open spec fn cg_continue_v(threshold: Rat, fr: DescentFrame) -> bool {
    rat_lt(threshold, norm_sq_v(fr.residual@))
}

/// One step of the conjugate-gradient recurrence, as fraction values, from
/// state `(x, r, d)` to state `(x2, r2, d2)`.
pub open spec fn cg_edge_v(
    av: Seq<Seq<Rat>>,
    x: Seq<Rat>,
    r: Seq<Rat>,
    d: Seq<Rat>,
    x2: Seq<Rat>,
    r2: Seq<Rat>,
    d2: Seq<Rat>,
) -> bool {
    let ad = matvec_v(av, d);
    let rr = dot_v(r, r);
    let dad = dot_v(d, ad);
    let alpha = rat_div_v(rr, dad);
    let beta = rat_div_v(dot_v(r2, r2), rr);
    &&& !rat_eq(dad, rat_zero())
    &&& !rat_eq(rr, rat_zero())
    &&& seq_rat_eq(x2, vadd_v(x, vscale_v(alpha, d)))
    &&& seq_rat_eq(r2, vadd_v(r, vscale_v(alpha, ad)))
    &&& seq_rat_eq(d2, vadd_v(vneg_v(r2), vscale_v(beta, d)))
}

/// The checked evaluation of one recurrence step from state `(x, r, d)`:
/// `Overflow` as soon as a reduced fraction leaves the word range,
/// `ZeroCurvature` exactly when a step-length denominator (`d . A d` or
/// `r . r`) is the value zero.  This is the exact outcome of the solver's
/// step.
#[verifier::opaque]
pub open spec fn cg_step_chk(av: Seq<Seq<Rat>>, x: Seq<Rat>, r: Seq<Rat>, d: Seq<Rat>) -> Result<
    (Seq<Rat>, Seq<Rat>, Seq<Rat>),
    SolveError,
> {
    match matvec_chk(av, d) {
        None => Err(SolveError::Overflow),
        Some(ad) => match dot_chk(r, r, r.len()) {
            None => Err(SolveError::Overflow),
            Some(rr) => match dot_chk(d, ad, d.len()) {
                None => Err(SolveError::Overflow),
                Some(dad) => if rat_is_zero(dad) || rat_is_zero(rr) {
                    Err(SolveError::ZeroCurvature)
                } else {
                    match rat_div_chk(rr, dad) {
                        None => Err(SolveError::Overflow),
                        Some(alpha) => match vscale_chk(alpha, d) {
                            None => Err(SolveError::Overflow),
                            Some(sd) => match vadd_chk(x, sd) {
                                None => Err(SolveError::Overflow),
                                Some(x2) => match vscale_chk(alpha, ad) {
                                    None => Err(SolveError::Overflow),
                                    Some(sad) => match vadd_chk(r, sad) {
                                        None => Err(SolveError::Overflow),
                                        Some(r2) => match dot_chk(r2, r2, r2.len()) {
                                            None => Err(SolveError::Overflow),
                                            Some(rr2) => match rat_div_chk(rr2, rr) {
                                                None => Err(SolveError::Overflow),
                                                Some(beta) => match vscale_chk(beta, d) {
                                                    None => Err(SolveError::Overflow),
                                                    Some(sdir) => match vadd_chk(
                                                        vneg_v(r2),
                                                        sdir,
                                                    ) {
                                                        None => Err(SolveError::Overflow),
                                                        Some(d2) => Ok((x2, r2, d2)),
                                                    },
                                                },
                                            },
                                        },
                                    },
                                },
                            },
                        },
                    }
                },
            },
        },
    }
}

/// What a `Failed` outcome attests: at the run's last state, either the
/// stopping rule's own residual-norm evaluation left the word range, or the
/// rule asked to continue and the checked recurrence step from that state
/// fails with this very error.
#[verifier::opaque]
pub open spec fn cg_failure(
    av: Seq<Seq<Rat>>,
    tv: Rat,
    fr: DescentFrame,
    d: Seq<Rat>,
    e: SolveError,
) -> bool {
    ||| (e == SolveError::Overflow && dot_chk(fr.residual@, fr.residual@, fr.residual@.len())
        is None)
    ||| (cg_continue_v(tv, fr) && match cg_step_chk(av, fr.position@, fr.residual@, d) {
        Err(e2) => e == e2,
        Ok(p) => false,
    })
}

/// The audit-trail invariant of a solve: each consecutive pair of frames,
/// with its direction, is one exact step of the recurrence, taken only while
/// the stopping predicate asked for one.
pub open spec fn cg_chain(
    av: Seq<Seq<Rat>>,
    threshold: Rat,
    frames: Seq<DescentFrame>,
    dirs: Seq<Seq<Rat>>,
) -> bool {
    &&& frames.len() >= 1
    &&& dirs.len() == frames.len()
    &&& forall|k: int|
        0 <= k < frames.len() ==> cg_frame_wf(#[trigger] frames[k], av.len()) && dirs[k].len()
            == av.len() && seq_dens_pos(dirs[k])
    &&& forall|k: int|
        0 <= k < frames.len() - 1 ==> {
            &&& cg_continue_v(threshold, #[trigger] frames[k])
            &&& cg_edge_v(
                av,
                frames[k].position@,
                frames[k].residual@,
                dirs[k],
                frames[k + 1].position@,
                frames[k + 1].residual@,
                dirs[k + 1],
            )
        }
}

/// Appending one correctly taken step extends the audit-trail invariant.
proof fn lemma_cg_chain_extend(
    av: Seq<Seq<Rat>>,
    threshold: Rat,
    old_frames: Seq<DescentFrame>,
    fs: Seq<DescentFrame>,
    dirs: Seq<Seq<Rat>>,
    ds: Seq<Seq<Rat>>,
    newfr: DescentFrame,
    newdir: Seq<Rat>,
)
    requires
        cg_chain(av, threshold, old_frames, dirs),
        fs == old_frames.push(newfr),
        ds == dirs.push(newdir),
        cg_continue_v(threshold, old_frames[old_frames.len() - 1]),
        cg_frame_wf(newfr, av.len()),
        newdir.len() == av.len(),
        seq_dens_pos(newdir),
        cg_edge_v(
            av,
            old_frames[old_frames.len() - 1].position@,
            old_frames[old_frames.len() - 1].residual@,
            dirs[old_frames.len() - 1],
            newfr.position@,
            newfr.residual@,
            newdir,
        ),
    ensures
        cg_chain(av, threshold, fs, ds),
{
    let k = old_frames.len() - 1;
    assert forall|k2: int| 0 <= k2 < fs.len() implies cg_frame_wf(#[trigger] fs[k2], av.len())
        && ds[k2].len() == av.len() && seq_dens_pos(ds[k2]) by {
        if k2 < fs.len() - 1 {
            assert(fs[k2] == old_frames[k2] && ds[k2] == dirs[k2]);
        }
    }
    assert forall|k2: int| 0 <= k2 < fs.len() - 1 implies {
        &&& cg_continue_v(threshold, #[trigger] fs[k2])
        &&& cg_edge_v(
            av,
            fs[k2].position@,
            fs[k2].residual@,
            ds[k2],
            fs[k2 + 1].position@,
            fs[k2 + 1].residual@,
            ds[k2 + 1],
        )
    } by {
        if k2 < fs.len() - 2 {
            assert(fs[k2] == old_frames[k2] && fs[k2 + 1] == old_frames[k2 + 1]);
            assert(ds[k2] == dirs[k2] && ds[k2 + 1] == dirs[k2 + 1]);
        } else {
            assert(k2 == k);
            assert(fs[k2] == old_frames[k] && fs[k2 + 1] == newfr);
            assert(ds[k2] == dirs[k] && ds[k2 + 1] == newdir);
        }
    }
}

/// The running state of one conjugate-gradient solve.
pub struct CG {
    pub direction: SpatialVec,
    pub location: SpatialVec,
    pub residual: SpatialVec,
}

impl CG {
    /// Well-formed state of dimension `n`.
    pub open spec fn wf(self, n: nat) -> bool {
        &&& self.direction.wf()
        &&& self.location.wf()
        &&& self.residual.wf()
        &&& self.direction@.len() == n
        &&& self.location@.len() == n
        &&& self.residual@.len() == n
    }

    /// Set up a solve of `a * x = b` from the initial guess `x0`: the
    /// residual is `a * x0 - b` and the first direction its negation.
    pub fn new(a: &Matrix, b: &SpatialVec, x0: SpatialVec) -> (r: Result<CG, SolveError>)
        requires
            a.wf(),
            b.wf(),
            x0.wf(),
            b@.len() == a@.len(),
            x0@.len() == a@.len(),
        ensures
            (r is Ok) == (matvec_chk(a@, x0@) matches Some(ax) && vsub_chk(ax, b@) is Some),
            r matches Ok(cg) ==> {
                &&& cg.wf(a@.len())
                &&& cg.location@ == x0@
                &&& seq_rat_eq(cg.residual@, vsub_v(matvec_v(a@, x0@), b@))
                &&& forall|i: int|
                    0 <= i < a@.len() ==> rat_eq(
                        #[trigger] cg.direction@[i],
                        rat_neg_v(cg.residual@[i]),
                    )
            },
            r matches Err(e) ==> e == SolveError::Overflow,
    {
        let ax = match a.mul_vec(&x0) {
            Some(v) => v,
            None => {
                return Err(SolveError::Overflow);
            },
        };
        let resid = match ax.sub(b) {
            Some(v) => v,
            None => {
                return Err(SolveError::Overflow);
            },
        };
        proof {
            assert forall|j: int| 0 <= j < a@.len() implies rat_eq(
                #[trigger] resid@[j],
                vsub_v(matvec_v(a@, x0@), b@)[j],
            ) by {
                assert(rat_eq(ax@[j], dot_v(x0@, row_v(a@, j))));
                crate::rational::lemma_sub_chain(
                    resid@[j],
                    ax@[j],
                    b@[j],
                    matvec_v(a@, x0@)[j],
                    b@[j],
                );
            }
        }
        let dir = resid.neg();
        Ok(CG { direction: dir, location: x0, residual: resid })
    }

    /// Run the recurrence until the squared residual norm falls to
    /// `threshold` or below, the step budget runs out, or a fatal numerical
    /// condition appears.  The returned history always begins with the
    /// current state's frame; consecutive frames are linked exactly as
    /// `cg_chain` states, with the state's own direction as the first
    /// direction.
    pub fn descent(
        &mut self,
        threshold: &Rational,
        a: &Matrix,
        max_steps: usize,
    ) -> (r: CgRun)
        requires
            old(self).wf(a@.len()),
            a.wf(),
            threshold.wf(),
        ensures
            final(self).wf(a@.len()),
            1 <= r.frames@.len() <= max_steps + 1,
            r.frames@[0].position@ == old(self).location@,
            r.frames@[0].residual@ == old(self).residual@,
            exists|dirs: Seq<Seq<Rat>>|
                cg_chain(a@, threshold@, r.frames@, dirs) && dirs[0] == old(self).direction@ && (
                r.outcome matches DescentOutcome::Failed(e) ==> cg_failure(
                    a@,
                    threshold@,
                    r.frames@[r.frames@.len() - 1],
                    dirs[r.frames@.len() - 1],
                    e,
                )),
            r.outcome is Converged ==> !cg_continue_v(
                threshold@,
                r.frames@[r.frames@.len() - 1],
            ),
            r.outcome is OutOfSteps ==> r.frames@.len() == max_steps + 1 && cg_continue_v(
                threshold@,
                r.frames@[r.frames@.len() - 1],
            ),
            final(self).location@ == r.frames@[r.frames@.len() - 1].position@,
            final(self).residual@ == r.frames@[r.frames@.len() - 1].residual@,
    {
        let ghost av = a@;
        let ghost tv = threshold@;
        let n = a.dim();
        let mut frames: Vec<DescentFrame> = Vec::new();
        frames.push(
            DescentFrame { residual: self.residual.copied(), position: self.location.copied() },
        );
        let ghost mut dirs: Seq<Seq<Rat>> = Seq::empty().push(self.direction@);
        let ghost d0v = self.direction@;
        let mut outcome_opt: Option<DescentOutcome> = None;
        while frames.len() <= max_steps
            invariant_except_break
                outcome_opt is None,
            invariant
                a.wf(),
                av == a@,
                tv == threshold@,
                threshold.wf(),
                self.wf(av.len()),
                n == av.len(),
                1 <= frames@.len() <= max_steps + 1,
                cg_chain(av, tv, frames@, dirs),
                dirs[0] == d0v,
                frames@[0].position@ == old(self).location@,
                frames@[0].residual@ == old(self).residual@,
                self.location@ == frames@[frames@.len() - 1].position@,
                self.residual@ == frames@[frames@.len() - 1].residual@,
                self.direction@ == dirs[frames@.len() - 1],
            ensures
                match outcome_opt {
                    None => frames@.len() == max_steps + 1,
                    Some(oc) => {
                        &&& (oc is Converged ==> !cg_continue_v(
                            tv,
                            frames@[frames@.len() - 1],
                        ))
                        &&& !(oc is OutOfSteps)
                        &&& (oc matches DescentOutcome::Failed(e) ==> cg_failure(
                            av,
                            tv,
                            frames@[frames@.len() - 1],
                            dirs[frames@.len() - 1],
                            e,
                        ))
                    },
                },
            decreases max_steps + 1 - frames@.len(),
        {
            proof {
                reveal(cg_failure);
                reveal(cg_step_chk);
            }
            let ns = match self.residual.norm_sq() {
                Some(v) => v,
                None => {
                    proof {
                        assert(cg_failure(
                            av,
                            tv,
                            frames@[frames@.len() - 1],
                            dirs[frames@.len() - 1],
                            SolveError::Overflow,
                        ));
                    }
                    outcome_opt = Some(DescentOutcome::Failed(SolveError::Overflow));
                    break ;
                },
            };
            proof {
                assert(seq_dens_pos(self.residual@));
                lemma_dot_prefix_wf(self.residual@, self.residual@, self.residual@.len());
                lemma_le_congruence(threshold@, ns@, tv, norm_sq_v(self.residual@));
            }
            let cont = threshold.lt(&ns);
            if !cont {
                outcome_opt = Some(DescentOutcome::Converged);
                break ;
            }
            let ad = match a.mul_vec(&self.direction) {
                Some(v) => v,
                None => {
                    proof {
                        assert(cg_failure(
                            av,
                            tv,
                            frames@[frames@.len() - 1],
                            dirs[frames@.len() - 1],
                            SolveError::Overflow,
                        ));
                    }
                    outcome_opt = Some(DescentOutcome::Failed(SolveError::Overflow));
                    break ;
                },
            };
            let ghost adv = matvec_v(av, self.direction@);
            proof {
                assert forall|j: int| 0 <= j < n implies rat_eq(#[trigger] ad@[j], adv[j]) by {}
                assert(seq_rat_eq(ad@, adv));
                assert(seq_dens_pos(adv)) by {
                    assert forall|j: int| 0 <= j < n implies (#[trigger] adv[j]).d > 0 by {
                        assert(seq_dens_pos(row_v(av, j))) by {
                            assert forall|i: int| 0 <= i < n implies (#[trigger] row_v(av, j)[i]).d
                                > 0 by {
                                assert(row_v(av, j)[i] == av[i][j]);
                                assert(seq_wf(av[i]));
                            }
                        }
                        lemma_dot_prefix_wf(self.direction@, row_v(av, j), n as nat);
                    }
                }
            }
            let rr = match self.residual.dot(&self.residual) {
                Some(v) => v,
                None => {
                    proof {
                        assert(cg_failure(
                            av,
                            tv,
                            frames@[frames@.len() - 1],
                            dirs[frames@.len() - 1],
                            SolveError::Overflow,
                        ));
                    }
                    outcome_opt = Some(DescentOutcome::Failed(SolveError::Overflow));
                    break ;
                },
            };
            let dad = match self.direction.dot(&ad) {
                Some(v) => v,
                None => {
                    proof {
                        assert(cg_failure(
                            av,
                            tv,
                            frames@[frames@.len() - 1],
                            dirs[frames@.len() - 1],
                            SolveError::Overflow,
                        ));
                    }
                    outcome_opt = Some(DescentOutcome::Failed(SolveError::Overflow));
                    break ;
                },
            };
            let ghost rrv = dot_v(self.residual@, self.residual@);
            let ghost dadv = dot_v(self.direction@, adv);
            proof {
                lemma_dot_prefix_congruence(self.direction@, self.direction@, ad@, adv, n as nat);
                lemma_rat_eq_trans(dad@, dot_v(self.direction@, ad@), dadv);
                lemma_dot_prefix_wf(self.direction@, adv, n as nat);
                lemma_dot_prefix_wf(self.residual@, self.residual@, n as nat);
                lemma_is_zero_transfer(dad@, dadv);
                lemma_is_zero_transfer(rr@, rrv);
            }
            if dad.is_zero() || rr.is_zero() {
                proof {
                    assert(cg_failure(
                        av,
                        tv,
                        frames@[frames@.len() - 1],
                        dirs[frames@.len() - 1],
                        SolveError::ZeroCurvature,
                    ));
                }
                outcome_opt = Some(DescentOutcome::Failed(SolveError::ZeroCurvature));
                break ;
            }
            proof {
                assert(!rat_eq(dadv, rat_zero()) && !rat_eq(rrv, rat_zero())) by {
                    assert(dadv.n != 0 && rrv.n != 0);
                    assert(dadv.n * 1 != 0 * dadv.d && rrv.n * 1 != 0 * rrv.d)
                        by (nonlinear_arith)
                        requires
                            dadv.n != 0,
                            rrv.n != 0,
                    ;
                }
            }
            let alpha = match rr.div(&dad) {
                Some(v) => v,
                None => {
                    proof {
                        assert(cg_failure(
                            av,
                            tv,
                            frames@[frames@.len() - 1],
                            dirs[frames@.len() - 1],
                            SolveError::Overflow,
                        ));
                    }
                    outcome_opt = Some(DescentOutcome::Failed(SolveError::Overflow));
                    break ;
                },
            };
            let ghost alphav = rat_div_v(rrv, dadv);
            proof {
                lemma_div_chain(alpha@, rr@, dad@, rrv, dadv);
            }
            let scaled_d = match self.direction.scale(&alpha) {
                Some(v) => v,
                None => {
                    proof {
                        assert(cg_failure(
                            av,
                            tv,
                            frames@[frames@.len() - 1],
                            dirs[frames@.len() - 1],
                            SolveError::Overflow,
                        ));
                    }
                    outcome_opt = Some(DescentOutcome::Failed(SolveError::Overflow));
                    break ;
                },
            };
            let xnew = match self.location.add(&scaled_d) {
                Some(v) => v,
                None => {
                    proof {
                        assert(cg_failure(
                            av,
                            tv,
                            frames@[frames@.len() - 1],
                            dirs[frames@.len() - 1],
                            SolveError::Overflow,
                        ));
                    }
                    outcome_opt = Some(DescentOutcome::Failed(SolveError::Overflow));
                    break ;
                },
            };
            let scaled_ad = match ad.scale(&alpha) {
                Some(v) => v,
                None => {
                    proof {
                        assert(cg_failure(
                            av,
                            tv,
                            frames@[frames@.len() - 1],
                            dirs[frames@.len() - 1],
                            SolveError::Overflow,
                        ));
                    }
                    outcome_opt = Some(DescentOutcome::Failed(SolveError::Overflow));
                    break ;
                },
            };
            let rnew = match self.residual.add(&scaled_ad) {
                Some(v) => v,
                None => {
                    proof {
                        assert(cg_failure(
                            av,
                            tv,
                            frames@[frames@.len() - 1],
                            dirs[frames@.len() - 1],
                            SolveError::Overflow,
                        ));
                    }
                    outcome_opt = Some(DescentOutcome::Failed(SolveError::Overflow));
                    break ;
                },
            };
            let rr2 = match rnew.dot(&rnew) {
                Some(v) => v,
                None => {
                    proof {
                        assert(cg_failure(
                            av,
                            tv,
                            frames@[frames@.len() - 1],
                            dirs[frames@.len() - 1],
                            SolveError::Overflow,
                        ));
                    }
                    outcome_opt = Some(DescentOutcome::Failed(SolveError::Overflow));
                    break ;
                },
            };
            let beta = match rr2.div(&rr) {
                Some(v) => v,
                None => {
                    proof {
                        assert(cg_failure(
                            av,
                            tv,
                            frames@[frames@.len() - 1],
                            dirs[frames@.len() - 1],
                            SolveError::Overflow,
                        ));
                    }
                    outcome_opt = Some(DescentOutcome::Failed(SolveError::Overflow));
                    break ;
                },
            };
            let scaled_dir = match self.direction.scale(&beta) {
                Some(v) => v,
                None => {
                    proof {
                        assert(cg_failure(
                            av,
                            tv,
                            frames@[frames@.len() - 1],
                            dirs[frames@.len() - 1],
                            SolveError::Overflow,
                        ));
                    }
                    outcome_opt = Some(DescentOutcome::Failed(SolveError::Overflow));
                    break ;
                },
            };
            let negr = rnew.neg();
            proof {
                assert(negr@ =~= vneg_v(rnew@));
            }
            let dnew = match negr.add(&scaled_dir) {
                Some(v) => v,
                None => {
                    proof {
                        assert(cg_failure(
                            av,
                            tv,
                            frames@[frames@.len() - 1],
                            dirs[frames@.len() - 1],
                            SolveError::Overflow,
                        ));
                    }
                    outcome_opt = Some(DescentOutcome::Failed(SolveError::Overflow));
                    break ;
                },
            };
            let ghost betav = rat_div_v(dot_v(rnew@, rnew@), rrv);
            proof {
                lemma_div_chain(beta@, rr2@, rr@, dot_v(rnew@, rnew@), rrv);
                assert forall|i: int| 0 <= i < n implies rat_eq(
                    #[trigger] xnew@[i],
                    vadd_v(self.location@, vscale_v(alphav, self.direction@))[i],
                ) by {
                    crate::rational::lemma_mul_chain(
                        scaled_d@[i],
                        alpha@,
                        self.direction@[i],
                        alphav,
                        self.direction@[i],
                    );
                    lemma_add_chain(
                        xnew@[i],
                        self.location@[i],
                        scaled_d@[i],
                        self.location@[i],
                        rat_mul_v(alphav, self.direction@[i]),
                    );
                }
                assert forall|i: int| 0 <= i < n implies rat_eq(
                    #[trigger] rnew@[i],
                    vadd_v(self.residual@, vscale_v(alphav, adv))[i],
                ) by {
                    assert(rat_eq(scaled_ad@[i], rat_mul_v(alpha@, ad@[i])));
                    lemma_mul_congruence(alpha@, ad@[i], alphav, adv[i]);
                    crate::rational::lemma_pos_prod(alpha@.d, ad@[i].d);
                    lemma_rat_eq_trans(
                        scaled_ad@[i],
                        rat_mul_v(alpha@, ad@[i]),
                        rat_mul_v(alphav, adv[i]),
                    );
                    lemma_add_chain(
                        rnew@[i],
                        self.residual@[i],
                        scaled_ad@[i],
                        self.residual@[i],
                        rat_mul_v(alphav, adv[i]),
                    );
                }
                assert forall|i: int| 0 <= i < n implies rat_eq(
                    #[trigger] dnew@[i],
                    vadd_v(vneg_v(rnew@), vscale_v(betav, self.direction@))[i],
                ) by {
                    crate::rational::lemma_mul_chain(
                        scaled_dir@[i],
                        beta@,
                        self.direction@[i],
                        betav,
                        self.direction@[i],
                    );
                    lemma_add_chain(
                        dnew@[i],
                        negr@[i],
                        scaled_dir@[i],
                        vneg_v(rnew@)[i],
                        rat_mul_v(betav, self.direction@[i]),
                    );
                }
            }
            let newfr = DescentFrame { residual: rnew.copied(), position: xnew.copied() };
            let ghost old_frames = frames@;
            frames.push(newfr);
            self.location = xnew;
            self.residual = rnew;
            self.direction = dnew;
            proof {
                let fs = frames@;
                let ds = dirs.push(dnew@);
                assert(cg_edge_v(
                    av,
                    old_frames[old_frames.len() - 1].position@,
                    old_frames[old_frames.len() - 1].residual@,
                    dirs[old_frames.len() - 1],
                    newfr.position@,
                    newfr.residual@,
                    dnew@,
                ));
                lemma_cg_chain_extend(
                    av,
                    tv,
                    old_frames,
                    fs,
                    dirs,
                    ds,
                    newfr,
                    dnew@,
                );
                dirs = ds;
            }
        }
        let outcome = match outcome_opt {
            Some(oc) => oc,
            None => {
                match self.residual.norm_sq() {
                    Some(ns) => {
                        proof {
                            assert(seq_dens_pos(self.residual@));
                            lemma_dot_prefix_wf(
                                self.residual@,
                                self.residual@,
                                self.residual@.len(),
                            );
                            lemma_le_congruence(
                                threshold@,
                                ns@,
                                tv,
                                norm_sq_v(self.residual@),
                            );
                        }
                        if !threshold.lt(&ns) {
                            DescentOutcome::Converged
                        } else {
                            DescentOutcome::OutOfSteps
                        }
                    },
                    None => {
                        proof {
                            reveal(cg_failure);
                            assert(cg_failure(
                                av,
                                tv,
                                frames@[frames@.len() - 1],
                                dirs[frames@.len() - 1],
                                SolveError::Overflow,
                            ));
                        }
                        DescentOutcome::Failed(SolveError::Overflow)
                    },
                }
            },
        };
        CgRun { frames, outcome }
    }
}

/// The views of a vector of vectors.
pub open spec fn views_of(v: Seq<SpatialVec>) -> Seq<Seq<Rat>> {
    Seq::new(v.len(), |i: int| v[i]@)
}

/// One entry of the Tikhonov-regularized normal-equation matrix
/// `A A^T + lambda^2 I`.
pub open spec fn tik_entry_v(av: Seq<Seq<Rat>>, lam: Rat, c: int, j: int) -> Rat {
    rat_add_v(
        crate::matrix::mm_entry_v(av, transpose_v(av), c, j),
        if c == j {
            rat_mul_v(lam, lam)
        } else {
            rat_zero()
        },
    )
}

/// Row `i` of the deconvolution was solved: some recorded solve of the
/// regularized system, warm-started from the previous row's solution (or
/// from the first data row), begins at the right residual, ends at
/// `outs[i]`, and its final squared residual norm is at or below the
/// threshold.
pub open spec fn tik_row_solved(
    regm: Seq<Seq<Rat>>,
    threshold: Rat,
    av: Seq<Seq<Rat>>,
    datas: Seq<Seq<Rat>>,
    outs: Seq<Seq<Rat>>,
    i: int,
) -> bool {
    exists|frames: Seq<DescentFrame>, dirs: Seq<Seq<Rat>>|
        {
            &&& #[trigger] cg_chain(regm, threshold, frames, dirs)
            &&& frames[0].position@ == (if i == 0 {
                datas[0]
            } else {
                outs[i - 1]
            })
            &&& seq_rat_eq(
                frames[0].residual@,
                vsub_v(matvec_v(regm, frames[0].position@), matvec_v(transpose_v(av), datas[i])),
            )
            &&& !cg_continue_v(threshold, frames[frames.len() - 1])
            &&& outs[i] == frames[frames.len() - 1].position@
        }
}

/// Tikhonov deconvolution: build the regularized normal-equation matrix
/// `A A^T + lambda^2 I`, then solve one linear system per data row with the
/// conjugate-gradient solver, chaining each row's solution in as the next
/// row's starting point.  Every accepted row converged to the residual
/// threshold; a row that exhausts the step budget is surfaced as
/// `StepsExhausted`, and any fatal condition in a row's solve as that
/// condition.
pub fn tikhonov(
    a: &Matrix,
    data: &Vec<SpatialVec>,
    lambda: &Rational,
    threshold: &Rational,
    max_steps: usize,
) -> (r: Result<Vec<SpatialVec>, SolveError>)
    requires
        a.wf(),
        lambda.wf(),
        threshold.wf(),
        data@.len() >= 1,
        forall|i: int|
            0 <= i < data@.len() ==> (#[trigger] data@[i]).wf() && data@[i]@.len() == a@.len(),
    ensures
        r matches Ok(out) ==> {
            &&& out@.len() == data@.len()
            &&& forall|i: int|
                0 <= i < out@.len() ==> (#[trigger] out@[i]).wf() && out@[i]@.len() == a@.len()
            &&& exists|regm: Seq<Seq<Rat>>|
                {
                    &&& crate::matrix::mat_wf(regm)
                    &&& regm.len() == a@.len()
                    &&& (forall|c: int, j: int|
                        0 <= c < regm.len() && 0 <= j < regm.len() ==> rat_eq(
                            #[trigger] regm[c][j],
                            tik_entry_v(a@, lambda@, c, j),
                        ))
                    &&& (forall|i: int|
                        0 <= i < out@.len() ==> tik_row_solved(
                            regm,
                            threshold@,
                            a@,
                            views_of(data@),
                            views_of(out@),
                            i,
                        ))
                }
        },
{
    let ghost av = a@;
    let ghost tv = threshold@;
    let n = a.dim();
    let at = a.transpose();
    let aat = match a.mul(&at) {
        Some(m) => m,
        None => {
            return Err(SolveError::Overflow);
        },
    };
    let lamsq = match lambda.mul(lambda) {
        Some(v) => v,
        None => {
            return Err(SolveError::Overflow);
        },
    };
    let idm = crate::matrix::Matrix::identity(n);
    let reg1 = match idm.mscale(&lamsq) {
        Some(m) => m,
        None => {
            return Err(SolveError::Overflow);
        },
    };
    let reg = match aat.madd(&reg1) {
        Some(m) => m,
        None => {
            return Err(SolveError::Overflow);
        },
    };
    let ghost regm = reg@;
    proof {
        crate::matrix::lemma_identity_wf(n as nat);
        assert forall|c: int, j: int| 0 <= c < n && 0 <= j < n implies rat_eq(
            #[trigger] regm[c][j],
            tik_entry_v(av, lambda@, c, j),
        ) by {
            let idv = crate::matrix::identity_v(n as nat)[c][j];
            assert(rat_eq(reg1@[c][j], rat_mul_v(lamsq@, idv)));
            if c == j {
                crate::rational::lemma_mul_one_right(lamsq@, idv);
                crate::rational::lemma_pos_prod(lamsq@.d, idv.d);
                lemma_rat_eq_trans(reg1@[c][j], rat_mul_v(lamsq@, idv), lamsq@);
                crate::rational::lemma_pos_prod(lambda@.d, lambda@.d);
                lemma_rat_eq_trans(reg1@[c][j], lamsq@, rat_mul_v(lambda@, lambda@));
            } else {
                crate::rational::lemma_mul_zero_right(lamsq@, idv);
                crate::rational::lemma_pos_prod(lamsq@.d, idv.d);
                lemma_rat_eq_trans(reg1@[c][j], rat_mul_v(lamsq@, idv), rat_zero());
            }
            assert(rat_eq(aat@[c][j], crate::matrix::mm_entry_v(av, at@, c, j)));
            assert(at@ == transpose_v(av));
            crate::rational::lemma_add_congruence(
                aat@[c][j],
                reg1@[c][j],
                crate::matrix::mm_entry_v(av, transpose_v(av), c, j),
                if c == j {
                    rat_mul_v(lambda@, lambda@)
                } else {
                    rat_zero()
                },
            );
            crate::rational::lemma_pos_prod(aat@[c][j].d, reg1@[c][j].d);
            lemma_rat_eq_trans(
                regm[c][j],
                rat_add_v(aat@[c][j], reg1@[c][j]),
                tik_entry_v(av, lambda@, c, j),
            );
        }
    }
    let rows = data.len();
    let mut out: Vec<SpatialVec> = Vec::new();
    let mut i: usize = 0;
    while i < rows
        invariant
            a.wf(),
            av == a@,
            tv == threshold@,
            threshold.wf(),
            reg.wf(),
            regm == reg@,
            regm.len() == n == av.len(),
            at.wf(),
            at@ == transpose_v(av),
            rows == data@.len(),
            1 <= rows,
            forall|k: int|
                0 <= k < data@.len() ==> (#[trigger] data@[k]).wf() && data@[k]@.len() == n,
            i <= rows,
            out@.len() == i,
            forall|k: int|
                0 <= k < i ==> (#[trigger] out@[k]).wf() && out@[k]@.len() == n,
            forall|k: int|
                0 <= k < i ==> tik_row_solved(
                    regm,
                    tv,
                    av,
                    views_of(data@),
                    views_of(out@),
                    k,
                ),
        decreases rows - i,
    {
        let start = if i == 0 {
            data[0].copied()
        } else {
            out[i - 1].copied()
        };
        let atd = match at.mul_vec(&data[i]) {
            Some(v) => v,
            None => {
                return Err(SolveError::Overflow);
            },
        };
        let mut cg = match CG::new(&reg, &atd, start) {
            Ok(c) => c,
            Err(e) => {
                return Err(e);
            },
        };
        let ghost cg0 = cg;
        let run = cg.descent(threshold, &reg, max_steps);
        match run.outcome {
            DescentOutcome::Converged => {},
            DescentOutcome::OutOfSteps => {
                return Err(SolveError::StepsExhausted);
            },
            DescentOutcome::Failed(e) => {
                return Err(e);
            },
        }
        let lastidx = run.frames.len() - 1;
        let sol = run.frames[lastidx].position.copied();
        proof {
            let frames = run.frames@;
            let fr0 = frames[0];
            assert forall|j: int| 0 <= j < n implies rat_eq(
                #[trigger] fr0.residual@[j],
                vsub_v(matvec_v(regm, fr0.position@), matvec_v(transpose_v(av), data@[i as int]@))[
                    j
                ],
            ) by {
                assert(rat_eq(fr0.residual@[j], vsub_v(matvec_v(regm, fr0.position@), atd@)[j]));
                assert(rat_eq(atd@[j], matvec_v(transpose_v(av), data@[i as int]@)[j])) by {
                    assert(rat_eq(atd@[j], dot_v(data@[i as int]@, row_v(at@, j))));
                }
                assert(seq_dens_pos(row_v(regm, j))) by {
                    assert forall|x: int| 0 <= x < n implies (#[trigger] row_v(regm, j)[x]).d
                        > 0 by {
                        assert(row_v(regm, j)[x] == regm[x][j]);
                        assert(seq_wf(regm[x]));
                    }
                }
                lemma_dot_prefix_wf(fr0.position@, row_v(regm, j), n as nat);
                crate::rational::lemma_sub_congruence(
                    matvec_v(regm, fr0.position@)[j],
                    atd@[j],
                    matvec_v(regm, fr0.position@)[j],
                    matvec_v(transpose_v(av), data@[i as int]@)[j],
                );
                crate::rational::lemma_pos_prod(
                    matvec_v(regm, fr0.position@)[j].d,
                    atd@[j].d,
                );
                lemma_rat_eq_trans(
                    fr0.residual@[j],
                    vsub_v(matvec_v(regm, fr0.position@), atd@)[j],
                    vsub_v(
                        matvec_v(regm, fr0.position@),
                        matvec_v(transpose_v(av), data@[i as int]@),
                    )[j],
                );
            }
        }
        let ghost old_out = out@;
        out.push(sol);
        proof {
            let douts = views_of(out@);
            let ddatas = views_of(data@);
            let oldouts = views_of(old_out);
            assert forall|k: int| 0 <= k < i + 1 implies tik_row_solved(
                regm,
                tv,
                av,
                ddatas,
                douts,
                k,
            ) by {
                if k < i {
                    assert(tik_row_solved(regm, tv, av, ddatas, oldouts, k));
                    let (frames, dirs) = choose|frames: Seq<DescentFrame>, dirs: Seq<Seq<Rat>>|
                        {
                            &&& #[trigger] cg_chain(regm, tv, frames, dirs)
                            &&& frames[0].position@ == (if k == 0 {
                                ddatas[0]
                            } else {
                                oldouts[k - 1]
                            })
                            &&& seq_rat_eq(
                                frames[0].residual@,
                                vsub_v(
                                    matvec_v(regm, frames[0].position@),
                                    matvec_v(transpose_v(av), ddatas[k]),
                                ),
                            )
                            &&& !cg_continue_v(tv, frames[frames.len() - 1])
                            &&& oldouts[k] == frames[frames.len() - 1].position@
                        };
                    assert(douts[k] == oldouts[k]);
                    if k > 0 {
                        assert(douts[k - 1] == oldouts[k - 1]);
                    }
                    assert(cg_chain(regm, tv, frames, dirs) && frames[0].position@ == (if k == 0 {
                        ddatas[0]
                    } else {
                        douts[k - 1]
                    }) && seq_rat_eq(
                        frames[0].residual@,
                        vsub_v(
                            matvec_v(regm, frames[0].position@),
                            matvec_v(transpose_v(av), ddatas[k]),
                        ),
                    ) && douts[k] == frames[frames.len() - 1].position@);
                } else {
                    let frames = run.frames@;
                    let dirs = choose|dirs: Seq<Seq<Rat>>|
                        #[trigger] cg_chain(regm, tv, frames, dirs) && dirs[0] == cg0.direction@;
                    assert(cg_chain(regm, tv, frames, dirs));
                    assert(frames[0].position@ == cg0.location@);
                    assert(douts[k] == sol@ && sol@ == frames[frames.len() - 1].position@);
                    assert(frames[0].position@ == (if k == 0 {
                        ddatas[0]
                    } else {
                        douts[k - 1]
                    }));
                    assert(seq_rat_eq(
                        frames[0].residual@,
                        vsub_v(
                            matvec_v(regm, frames[0].position@),
                            matvec_v(transpose_v(av), ddatas[k]),
                        ),
                    ));
                }
            }
        }
        i += 1;
    }
    Ok(out)
}

} // verus!
