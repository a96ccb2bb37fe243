//! Derivative providers for the test objectives.
//!
//! The bivariate Rosenbrock-family objective is
//! `f(x) = c * (x1 - x0^2)^2 + (1 - x0)^2`, parametrized by the coefficient
//! `c`.  Its gradient and the Newton direction `-H^-1 * grad f(x)` are in
//! closed form, the Hessian inverse through the 2x2 determinant formula; a
//! zero determinant is surfaced as an error, never propagated as a bogus
//! direction.  A diagonal quadratic bowl `f(x) = a * x0^2 + b * x1^2` is
//! provided alongside, for which the Newton system collapses to `d = -x`.

use crate::rational::{
    lemma_add_chain, lemma_add_congruence, lemma_div_chain, lemma_is_zero_transfer,
    lemma_mul_chain, lemma_mul_congruence, lemma_neg_chain, lemma_sub_chain, lemma_sub_congruence,
    lemma_wf_add, rat_add_chk, rat_add_v, rat_div_chk, rat_div_v, rat_eq, rat_is_zero,
    rat_mul_chk, rat_mul_v, rat_neg_v, rat_one, rat_sub_chk, rat_sub_v, rat_wf, rat_zero, Rat,
    Rational,
};
use crate::spatial_vec::{seq_rat_eq, SpatialVec};
use crate::SolveError;
use vstd::prelude::*;

verus! {

/// The integer `n` as a fraction.
pub open spec fn con_rat(n: int) -> Rat {
    Rat { n, d: 1 }
}

pub open spec fn sq_v(a: Rat) -> Rat {
    rat_mul_v(a, a)
}

/// `x1 - x0^2`, the inner residual of the Rosenbrock objective.
pub open spec fn rosen_t_v(x: Seq<Rat>) -> Rat {
    rat_sub_v(x[1], sq_v(x[0]))
}

/// `1 - x0`.
pub open spec fn rosen_u_v(x: Seq<Rat>) -> Rat {
    rat_sub_v(rat_one(), x[0])
}

/// An objective function of two variables with closed-form derivatives.
pub enum Objective {
    /// `f(x) = c * (x1 - x0^2)^2 + (1 - x0)^2`.
    Rosenbrock { coefficient: Rational },
    /// `f(x) = a * x0^2 + b * x1^2`.
    Bowl { a: Rational, b: Rational },
}

impl Objective {
    pub open spec fn wf(self) -> bool {
        match self {
            Objective::Rosenbrock { coefficient } => coefficient.wf(),
            Objective::Bowl { a, b } => a.wf() && b.wf(),
        }
    }
}

/// The objective value at `x`.
pub open spec fn obj_value_v(o: Objective, x: Seq<Rat>) -> Rat {
    match o {
        Objective::Rosenbrock { coefficient } => rat_add_v(
            rat_mul_v(coefficient@, sq_v(rosen_t_v(x))),
            sq_v(rosen_u_v(x)),
        ),
        Objective::Bowl { a, b } => rat_add_v(rat_mul_v(a@, sq_v(x[0])), rat_mul_v(b@, sq_v(x[1]))),
    }
}

/// The first gradient coordinate at `x`.
pub open spec fn obj_grad0_v(o: Objective, x: Seq<Rat>) -> Rat {
    match o {
        Objective::Rosenbrock { coefficient } => rat_sub_v(
            rat_mul_v(rat_mul_v(rat_mul_v(con_rat(-4), coefficient@), x[0]), rosen_t_v(x)),
            rat_mul_v(con_rat(2), rosen_u_v(x)),
        ),
        Objective::Bowl { a, b } => rat_mul_v(rat_mul_v(con_rat(2), a@), x[0]),
    }
}

/// The second gradient coordinate at `x`.
pub open spec fn obj_grad1_v(o: Objective, x: Seq<Rat>) -> Rat {
    match o {
        Objective::Rosenbrock { coefficient } => rat_mul_v(
            rat_mul_v(con_rat(2), coefficient@),
            rosen_t_v(x),
        ),
        Objective::Bowl { a, b } => rat_mul_v(rat_mul_v(con_rat(2), b@), x[1]),
    }
}

/// The Hessian entries of the Rosenbrock objective:
/// `h00 = 12 c x0^2 - 4 c x1 + 2`, `h01 = -4 c x0`, `h11 = 2 c`.
pub open spec fn rosen_h00_v(c: Rat, x: Seq<Rat>) -> Rat {
    rat_add_v(
        rat_sub_v(
            rat_mul_v(rat_mul_v(con_rat(12), c), sq_v(x[0])),
            rat_mul_v(rat_mul_v(con_rat(4), c), x[1]),
        ),
        con_rat(2),
    )
}

pub open spec fn rosen_h01_v(c: Rat, x: Seq<Rat>) -> Rat {
    rat_neg_v(rat_mul_v(rat_mul_v(con_rat(4), c), x[0]))
}

pub open spec fn rosen_h11_v(c: Rat) -> Rat {
    rat_mul_v(con_rat(2), c)
}

/// The Hessian determinant at `x`.
pub open spec fn obj_det_v(o: Objective, x: Seq<Rat>) -> Rat {
    match o {
        Objective::Rosenbrock { coefficient } => rat_sub_v(
            rat_mul_v(rosen_h00_v(coefficient@, x), rosen_h11_v(coefficient@)),
            sq_v(rosen_h01_v(coefficient@, x)),
        ),
        Objective::Bowl { a, b } => rat_mul_v(
            rat_mul_v(con_rat(2), a@),
            rat_mul_v(con_rat(2), b@),
        ),
    }
}

/// The first coordinate of the Newton direction `-H^-1 * g` at `x`, by the
/// 2x2 inverse formula; for the bowl the system collapses to `-x0`.
pub open spec fn obj_newton0_v(o: Objective, x: Seq<Rat>) -> Rat {
    match o {
        Objective::Rosenbrock { coefficient } => {
            let c = coefficient@;
            rat_div_v(
                rat_neg_v(
                    rat_sub_v(
                        rat_mul_v(rosen_h11_v(c), obj_grad0_v(o, x)),
                        rat_mul_v(rosen_h01_v(c, x), obj_grad1_v(o, x)),
                    ),
                ),
                obj_det_v(o, x),
            )
        },
        Objective::Bowl { a, b } => rat_neg_v(x[0]),
    }
}

/// The second coordinate of the Newton direction at `x`.
pub open spec fn obj_newton1_v(o: Objective, x: Seq<Rat>) -> Rat {
    match o {
        Objective::Rosenbrock { coefficient } => {
            let c = coefficient@;
            rat_div_v(
                rat_sub_v(
                    rat_mul_v(rosen_h01_v(c, x), obj_grad0_v(o, x)),
                    rat_mul_v(rosen_h00_v(c, x), obj_grad1_v(o, x)),
                ),
                obj_det_v(o, x),
            )
        },
        Objective::Bowl { a, b } => rat_neg_v(x[1]),
    }
}

/// The checked evaluation of the objective value at `x`: the reduced
/// machine fraction of each intermediate, or `None` as soon as one leaves
/// the word range.  This is the exact success condition of
/// `Objective::value`.
#[verifier::opaque]
pub open spec fn obj_value_chk(o: Objective, x: Seq<Rat>) -> Option<Rat> {
    match o {
        Objective::Rosenbrock { coefficient } => match rat_mul_chk(x[0], x[0]) {
            None => None,
            Some(x0sq) => match rat_sub_chk(x[1], x0sq) {
                None => None,
                Some(t) => match rat_mul_chk(t, t) {
                    None => None,
                    Some(tsq) => match rat_mul_chk(coefficient@, tsq) {
                        None => None,
                        Some(ct) => match rat_sub_chk(rat_one(), x[0]) {
                            None => None,
                            Some(u) => match rat_mul_chk(u, u) {
                                None => None,
                                Some(usq) => rat_add_chk(ct, usq),
                            },
                        },
                    },
                },
            },
        },
        Objective::Bowl { a, b } => match rat_mul_chk(x[0], x[0]) {
            None => None,
            Some(x0sq) => match rat_mul_chk(a@, x0sq) {
                None => None,
                Some(ax) => match rat_mul_chk(x[1], x[1]) {
                    None => None,
                    Some(x1sq) => match rat_mul_chk(b@, x1sq) {
                        None => None,
                        Some(bx) => rat_add_chk(ax, bx),
                    },
                },
            },
        },
    }
}

/// The checked evaluation of the gradient at `x`; the exact success
/// condition of `Objective::grad`.
#[verifier::opaque]
pub open spec fn obj_grad_chk(o: Objective, x: Seq<Rat>) -> Option<(Rat, Rat)> {
    match o {
        Objective::Rosenbrock { coefficient } => match rat_mul_chk(x[0], x[0]) {
            None => None,
            Some(x0sq) => match rat_sub_chk(x[1], x0sq) {
                None => None,
                Some(t) => match rat_mul_chk(con_rat(-4), coefficient@) {
                    None => None,
                    Some(m4c) => match rat_mul_chk(m4c, x[0]) {
                        None => None,
                        Some(m4cx0) => match rat_mul_chk(m4cx0, t) {
                            None => None,
                            Some(p) => match rat_sub_chk(rat_one(), x[0]) {
                                None => None,
                                Some(u) => match rat_mul_chk(con_rat(2), u) {
                                    None => None,
                                    Some(twou) => match rat_sub_chk(p, twou) {
                                        None => None,
                                        Some(g0) => match rat_mul_chk(con_rat(2), coefficient@) {
                                            None => None,
                                            Some(twoc) => match rat_mul_chk(twoc, t) {
                                                None => None,
                                                Some(g1) => Some((g0, g1)),
                                            },
                                        },
                                    },
                                },
                            },
                        },
                    },
                },
            },
        },
        Objective::Bowl { a, b } => match rat_mul_chk(con_rat(2), a@) {
            None => None,
            Some(twoa) => match rat_mul_chk(twoa, x[0]) {
                None => None,
                Some(g0) => match rat_mul_chk(con_rat(2), b@) {
                    None => None,
                    Some(twob) => match rat_mul_chk(twob, x[1]) {
                        None => None,
                        Some(g1) => Some((g0, g1)),
                    },
                },
            },
        },
    }
}

/// The checked evaluation of the Newton direction at `x`: `Overflow` as
/// soon as an intermediate leaves the word range, `SingularHessian` exactly
/// when the computed determinant is zero.  This is the exact outcome of
/// `Objective::newton`.
#[verifier::opaque]
pub open spec fn obj_newton_chk(o: Objective, x: Seq<Rat>) -> Result<(Rat, Rat), SolveError> {
    match o {
        Objective::Rosenbrock { coefficient } => {
            let c = coefficient@;
            match obj_grad_chk(o, x) {
                None => Err(SolveError::Overflow),
                Some((g0, g1)) => match rat_mul_chk(x[0], x[0]) {
                    None => Err(SolveError::Overflow),
                    Some(x0sq) => match rat_mul_chk(con_rat(12), c) {
                        None => Err(SolveError::Overflow),
                        Some(twelvec) => match rat_mul_chk(twelvec, x0sq) {
                            None => Err(SolveError::Overflow),
                            Some(h00a) => match rat_mul_chk(con_rat(4), c) {
                                None => Err(SolveError::Overflow),
                                Some(fourc) => match rat_mul_chk(fourc, x[1]) {
                                    None => Err(SolveError::Overflow),
                                    Some(h00b) => match rat_sub_chk(h00a, h00b) {
                                        None => Err(SolveError::Overflow),
                                        Some(s1) => match rat_add_chk(s1, con_rat(2)) {
                                            None => Err(SolveError::Overflow),
                                            Some(h00) => match rat_mul_chk(fourc, x[0]) {
                                                None => Err(SolveError::Overflow),
                                                Some(fcx0) => rosen_newton_tail_chk(
                                                    c,
                                                    g0,
                                                    g1,
                                                    h00,
                                                    rat_neg_v(fcx0),
                                                ),
                                            },
                                        },
                                    },
                                },
                            },
                        },
                    },
                },
            }
        },
        Objective::Bowl { a, b } => {
            if a@.n == 0 || b@.n == 0 {
                Err(SolveError::SingularHessian)
            } else {
                Ok((rat_neg_v(x[0]), rat_neg_v(x[1])))
            }
        },
    }
}

/// The tail of the checked Newton evaluation, from the Hessian entries on.
#[verifier::opaque]
pub open spec fn rosen_newton_tail_chk(
    c: Rat,
    g0: Rat,
    g1: Rat,
    h00: Rat,
    h01: Rat,
) -> Result<(Rat, Rat), SolveError> {
    match rat_mul_chk(con_rat(2), c) {
        None => Err(SolveError::Overflow),
        Some(h11) => match rat_mul_chk(h00, h11) {
            None => Err(SolveError::Overflow),
            Some(dp) => match rat_mul_chk(h01, h01) {
                None => Err(SolveError::Overflow),
                Some(hsq) => match rat_sub_chk(dp, hsq) {
                    None => Err(SolveError::Overflow),
                    Some(det) => if rat_is_zero(det) {
                        Err(SolveError::SingularHessian)
                    } else {
                        match rat_mul_chk(h11, g0) {
                            None => Err(SolveError::Overflow),
                            Some(n0a) => match rat_mul_chk(h01, g1) {
                                None => Err(SolveError::Overflow),
                                Some(n0b) => match rat_sub_chk(n0a, n0b) {
                                    None => Err(SolveError::Overflow),
                                    Some(n0) => match rat_div_chk(rat_neg_v(n0), det) {
                                        None => Err(SolveError::Overflow),
                                        Some(d0) => match rat_mul_chk(h01, g0) {
                                            None => Err(SolveError::Overflow),
                                            Some(n1a) => match rat_mul_chk(h00, g1) {
                                                None => Err(SolveError::Overflow),
                                                Some(n1b) => match rat_sub_chk(n1a, n1b) {
                                                    None => Err(SolveError::Overflow),
                                                    Some(n1) => match rat_div_chk(n1, det) {
                                                        None => Err(SolveError::Overflow),
                                                        Some(d1) => Ok((d0, d1)),
                                                    },
                                                },
                                            },
                                        },
                                    },
                                },
                            },
                        }
                    },
                },
            },
        },
    }
}

/// The value of an evaluation result, when it succeeded.
pub open spec fn res_rat_view(r: Result<Rational, SolveError>) -> Option<Rat> {
    match r {
        Ok(v) => Some(v@),
        Err(e) => None,
    }
}

/// The coordinate pair of a two-dimensional evaluation result.
pub open spec fn res_pair_view(r: Result<SpatialVec, SolveError>) -> Result<
    (Rat, Rat),
    SolveError,
> {
    match r {
        Ok(d) => Ok((d@[0], d@[1])),
        Err(e) => Err(e),
    }
}

impl Objective {
    /// The objective value at `x`, exactly; `Overflow` when an intermediate
    /// reduced fraction leaves the word range.
    pub fn value(&self, x: &SpatialVec) -> (r: Result<Rational, SolveError>)
        requires
            self.wf(),
            x.wf(),
            x@.len() == 2,
        ensures
            res_rat_view(r) == obj_value_chk(*self, x@),
            r matches Ok(v) ==> v.wf() && rat_eq(v@, obj_value_v(*self, x@)),
            r matches Err(e) ==> e == SolveError::Overflow,
    {
        proof {
            reveal(obj_value_chk);
        }
        let x0 = x.get(0);
        let x1 = x.get(1);
        match self {
            Objective::Rosenbrock { coefficient } => {
                let c = *coefficient;
                let x0sq = match x0.mul(&x0) {
                    Some(v) => v,
                    None => {
                        return Err(SolveError::Overflow);
                    },
                };
                let t = match x1.sub(&x0sq) {
                    Some(v) => v,
                    None => {
                        return Err(SolveError::Overflow);
                    },
                };
                proof {
                    lemma_sub_chain(t@, x1@, x0sq@, x@[1], sq_v(x@[0]));
                }
                let tsq = match t.mul(&t) {
                    Some(v) => v,
                    None => {
                        return Err(SolveError::Overflow);
                    },
                };
                proof {
                    lemma_mul_chain(tsq@, t@, t@, rosen_t_v(x@), rosen_t_v(x@));
                }
                let ct = match c.mul(&tsq) {
                    Some(v) => v,
                    None => {
                        return Err(SolveError::Overflow);
                    },
                };
                proof {
                    lemma_mul_chain(ct@, c@, tsq@, c@, sq_v(rosen_t_v(x@)));
                }
                let one = Rational::one();
                let u = match one.sub(&x0) {
                    Some(v) => v,
                    None => {
                        return Err(SolveError::Overflow);
                    },
                };
                proof {
                    lemma_sub_chain(u@, one@, x0@, rat_one(), x@[0]);
                }
                let usq = match u.mul(&u) {
                    Some(v) => v,
                    None => {
                        return Err(SolveError::Overflow);
                    },
                };
                proof {
                    lemma_mul_chain(usq@, u@, u@, rosen_u_v(x@), rosen_u_v(x@));
                }
                let f = match ct.add(&usq) {
                    Some(v) => v,
                    None => {
                        return Err(SolveError::Overflow);
                    },
                };
                proof {
                    lemma_add_chain(
                        f@,
                        ct@,
                        usq@,
                        rat_mul_v(c@, sq_v(rosen_t_v(x@))),
                        sq_v(rosen_u_v(x@)),
                    );
                }
                Ok(f)
            },
            Objective::Bowl { a, b } => {
                let x0sq = match x0.mul(&x0) {
                    Some(v) => v,
                    None => {
                        return Err(SolveError::Overflow);
                    },
                };
                let ax = match a.mul(&x0sq) {
                    Some(v) => v,
                    None => {
                        return Err(SolveError::Overflow);
                    },
                };
                let x1sq = match x1.mul(&x1) {
                    Some(v) => v,
                    None => {
                        return Err(SolveError::Overflow);
                    },
                };
                let bx = match b.mul(&x1sq) {
                    Some(v) => v,
                    None => {
                        return Err(SolveError::Overflow);
                    },
                };
                let f = match ax.add(&bx) {
                    Some(v) => v,
                    None => {
                        return Err(SolveError::Overflow);
                    },
                };
                proof {
                    lemma_mul_chain(ax@, a@, x0sq@, a@, sq_v(x@[0]));
                    lemma_mul_chain(bx@, b@, x1sq@, b@, sq_v(x@[1]));
                    lemma_add_chain(
                        f@,
                        ax@,
                        bx@,
                        rat_mul_v(a@, sq_v(x@[0])),
                        rat_mul_v(b@, sq_v(x@[1])),
                    );
                }
                Ok(f)
            },
        }
    }

    /// The gradient at `x`, exactly; `Overflow` when an intermediate reduced
    /// fraction leaves the word range.
    pub fn grad(&self, x: &SpatialVec) -> (r: Result<SpatialVec, SolveError>)
        requires
            self.wf(),
            x.wf(),
            x@.len() == 2,
        ensures
            (r is Ok) == (obj_grad_chk(*self, x@) is Some),
            r matches Ok(g) ==> {
                &&& Some((g@[0], g@[1])) == obj_grad_chk(*self, x@)
                &&& g.wf()
                &&& g@.len() == 2
                &&& rat_eq(g@[0], obj_grad0_v(*self, x@))
                &&& rat_eq(g@[1], obj_grad1_v(*self, x@))
            },
            r matches Err(e) ==> e == SolveError::Overflow,
    {
        proof {
            reveal(obj_grad_chk);
        }
        let x0 = x.get(0);
        let x1 = x.get(1);
        match self {
            Objective::Rosenbrock { coefficient } => {
                let c = *coefficient;
                let x0sq = match x0.mul(&x0) {
                    Some(v) => v,
                    None => {
                        return Err(SolveError::Overflow);
                    },
                };
                let t = match x1.sub(&x0sq) {
                    Some(v) => v,
                    None => {
                        return Err(SolveError::Overflow);
                    },
                };
                proof {
                    lemma_sub_chain(t@, x1@, x0sq@, x@[1], sq_v(x@[0]));
                }
                let m4c = match Rational::from_int(-4).mul(&c) {
                    Some(v) => v,
                    None => {
                        return Err(SolveError::Overflow);
                    },
                };
                let m4cx0 = match m4c.mul(&x0) {
                    Some(v) => v,
                    None => {
                        return Err(SolveError::Overflow);
                    },
                };
                proof {
                    lemma_mul_chain(m4cx0@, m4c@, x0@, rat_mul_v(con_rat(-4), c@), x@[0]);
                }
                let p = match m4cx0.mul(&t) {
                    Some(v) => v,
                    None => {
                        return Err(SolveError::Overflow);
                    },
                };
                proof {
                    lemma_mul_chain(
                        p@,
                        m4cx0@,
                        t@,
                        rat_mul_v(rat_mul_v(con_rat(-4), c@), x@[0]),
                        rosen_t_v(x@),
                    );
                }
                let one = Rational::one();
                let u = match one.sub(&x0) {
                    Some(v) => v,
                    None => {
                        return Err(SolveError::Overflow);
                    },
                };
                proof {
                    lemma_sub_chain(u@, one@, x0@, rat_one(), x@[0]);
                }
                let twou = match Rational::from_int(2).mul(&u) {
                    Some(v) => v,
                    None => {
                        return Err(SolveError::Overflow);
                    },
                };
                proof {
                    lemma_mul_chain(twou@, con_rat(2), u@, con_rat(2), rosen_u_v(x@));
                }
                let g0 = match p.sub(&twou) {
                    Some(v) => v,
                    None => {
                        return Err(SolveError::Overflow);
                    },
                };
                proof {
                    lemma_sub_chain(
                        g0@,
                        p@,
                        twou@,
                        rat_mul_v(rat_mul_v(rat_mul_v(con_rat(-4), c@), x@[0]), rosen_t_v(x@)),
                        rat_mul_v(con_rat(2), rosen_u_v(x@)),
                    );
                }
                let twoc = match Rational::from_int(2).mul(&c) {
                    Some(v) => v,
                    None => {
                        return Err(SolveError::Overflow);
                    },
                };
                let g1 = match twoc.mul(&t) {
                    Some(v) => v,
                    None => {
                        return Err(SolveError::Overflow);
                    },
                };
                proof {
                    lemma_mul_chain(g1@, twoc@, t@, rat_mul_v(con_rat(2), c@), rosen_t_v(x@));
                }
                let mut data: Vec<Rational> = Vec::new();
                data.push(g0);
                data.push(g1);
                let g = SpatialVec::new(data);
                proof {
                    assert(data@[0] == g0 && data@[1] == g1);
                    assert(g@[0] == g0@ && g@[1] == g1@);
                }
                Ok(g)
            },
            Objective::Bowl { a, b } => {
                let twoa = match Rational::from_int(2).mul(a) {
                    Some(v) => v,
                    None => {
                        return Err(SolveError::Overflow);
                    },
                };
                let g0 = match twoa.mul(&x0) {
                    Some(v) => v,
                    None => {
                        return Err(SolveError::Overflow);
                    },
                };
                let twob = match Rational::from_int(2).mul(b) {
                    Some(v) => v,
                    None => {
                        return Err(SolveError::Overflow);
                    },
                };
                let g1 = match twob.mul(&x1) {
                    Some(v) => v,
                    None => {
                        return Err(SolveError::Overflow);
                    },
                };
                proof {
                    lemma_mul_chain(g0@, twoa@, x0@, rat_mul_v(con_rat(2), a@), x@[0]);
                    lemma_mul_chain(g1@, twob@, x1@, rat_mul_v(con_rat(2), b@), x@[1]);
                }
                let mut data: Vec<Rational> = Vec::new();
                data.push(g0);
                data.push(g1);
                let g = SpatialVec::new(data);
                proof {
                    assert(data@[0] == g0 && data@[1] == g1);
                    assert(g@[0] == g0@ && g@[1] == g1@);
                }
                Ok(g)
            },
        }
    }
}

/// The spec-level objective quantities are well-formed fractions whenever the
/// point and the parameters are.
pub proof fn lemma_obj_spec_wf(o: Objective, x: Seq<Rat>)
    requires
        o.wf(),
        x.len() == 2,
        rat_wf(x[0]),
        rat_wf(x[1]),
    ensures
        rat_wf(obj_value_v(o, x)),
        rat_wf(obj_grad0_v(o, x)),
        rat_wf(obj_grad1_v(o, x)),
        rat_wf(obj_det_v(o, x)),
        o matches Objective::Rosenbrock { coefficient } ==> rat_wf(
            rosen_h00_v(coefficient@, x),
        ) && rat_wf(rosen_h01_v(coefficient@, x)) && rat_wf(rosen_h11_v(coefficient@)),
{
    match o {
        Objective::Rosenbrock { coefficient } => {
            let c = coefficient@;
            lemma_wf_add(x[0], x[0]);
            lemma_wf_add(x[1], sq_v(x[0]));
            let t = rosen_t_v(x);
            lemma_wf_add(rat_one(), x[0]);
            let u = rosen_u_v(x);
            lemma_wf_add(t, t);
            lemma_wf_add(c, sq_v(t));
            lemma_wf_add(u, u);
            lemma_wf_add(rat_mul_v(c, sq_v(t)), sq_v(u));
            lemma_wf_add(con_rat(-4), c);
            lemma_wf_add(rat_mul_v(con_rat(-4), c), x[0]);
            lemma_wf_add(rat_mul_v(rat_mul_v(con_rat(-4), c), x[0]), t);
            lemma_wf_add(con_rat(2), u);
            lemma_wf_add(rat_mul_v(rat_mul_v(rat_mul_v(con_rat(-4), c), x[0]), t), rat_mul_v(con_rat(2), u));
            lemma_wf_add(con_rat(2), c);
            lemma_wf_add(rat_mul_v(con_rat(2), c), t);
            lemma_wf_add(con_rat(12), c);
            lemma_wf_add(rat_mul_v(con_rat(12), c), sq_v(x[0]));
            lemma_wf_add(con_rat(4), c);
            lemma_wf_add(rat_mul_v(con_rat(4), c), x[1]);
            lemma_wf_add(
                rat_mul_v(rat_mul_v(con_rat(12), c), sq_v(x[0])),
                rat_mul_v(rat_mul_v(con_rat(4), c), x[1]),
            );
            lemma_wf_add(
                rat_sub_v(
                    rat_mul_v(rat_mul_v(con_rat(12), c), sq_v(x[0])),
                    rat_mul_v(rat_mul_v(con_rat(4), c), x[1]),
                ),
                con_rat(2),
            );
            lemma_wf_add(rat_mul_v(con_rat(4), c), x[0]);
            let h01 = rosen_h01_v(c, x);
            lemma_wf_add(rosen_h00_v(c, x), rosen_h11_v(c));
            lemma_wf_add(h01, h01);
            lemma_wf_add(rat_mul_v(rosen_h00_v(c, x), rosen_h11_v(c)), sq_v(h01));
        },
        Objective::Bowl { a, b } => {
            lemma_wf_add(x[0], x[0]);
            lemma_wf_add(x[1], x[1]);
            lemma_wf_add(a@, sq_v(x[0]));
            lemma_wf_add(b@, sq_v(x[1]));
            lemma_wf_add(rat_mul_v(a@, sq_v(x[0])), rat_mul_v(b@, sq_v(x[1])));
            lemma_wf_add(con_rat(2), a@);
            lemma_wf_add(rat_mul_v(con_rat(2), a@), x[0]);
            lemma_wf_add(con_rat(2), b@);
            lemma_wf_add(rat_mul_v(con_rat(2), b@), x[1]);
            lemma_wf_add(rat_mul_v(con_rat(2), a@), rat_mul_v(con_rat(2), b@));
        },
    }
}

impl Objective {
    /// The Newton direction `-H^-1 * grad f(x)` at `x`, through the 2x2
    /// determinant formula; `SingularHessian` exactly when the determinant is
    /// the value zero, `Overflow` when an intermediate reduced fraction
    /// leaves the word range.
    pub fn newton(&self, x: &SpatialVec) -> (r: Result<SpatialVec, SolveError>)
        requires
            self.wf(),
            x.wf(),
            x@.len() == 2,
        ensures
            res_pair_view(r) == obj_newton_chk(*self, x@),
            r matches Ok(d) ==> {
                &&& d.wf()
                &&& d@.len() == 2
                &&& rat_eq(d@[0], obj_newton0_v(*self, x@))
                &&& rat_eq(d@[1], obj_newton1_v(*self, x@))
            },
            r matches Err(e) ==> e == SolveError::Overflow || e == SolveError::SingularHessian,
            r == Err::<SpatialVec, SolveError>(SolveError::SingularHessian) ==> rat_eq(
                obj_det_v(*self, x@),
                rat_zero(),
            ),
            rat_eq(obj_det_v(*self, x@), rat_zero()) ==> !(r is Ok),
    {
        proof {
            reveal(obj_newton_chk);
            reveal(rosen_newton_tail_chk);
            lemma_obj_spec_wf(*self, x@);
        }
        let x0 = x.get(0);
        let x1 = x.get(1);
        match self {
            Objective::Rosenbrock { coefficient } => {
                let c = *coefficient;
                let ghost cv = c@;
                let g = match self.grad(x) {
                    Ok(g) => g,
                    Err(e) => {
                        return Err(SolveError::Overflow);
                    },
                };
                let g0 = g.get(0);
                let g1 = g.get(1);
                let x0sq = match x0.mul(&x0) {
                    Some(v) => v,
                    None => {
                        return Err(SolveError::Overflow);
                    },
                };
                let twelvec = match Rational::from_int(12).mul(&c) {
                    Some(v) => v,
                    None => {
                        return Err(SolveError::Overflow);
                    },
                };
                let h00a = match twelvec.mul(&x0sq) {
                    Some(v) => v,
                    None => {
                        return Err(SolveError::Overflow);
                    },
                };
                proof {
                    lemma_mul_chain(h00a@, twelvec@, x0sq@, rat_mul_v(con_rat(12), cv), sq_v(x@[0]));
                }
                let fourc = match Rational::from_int(4).mul(&c) {
                    Some(v) => v,
                    None => {
                        return Err(SolveError::Overflow);
                    },
                };
                let h00b = match fourc.mul(&x1) {
                    Some(v) => v,
                    None => {
                        return Err(SolveError::Overflow);
                    },
                };
                proof {
                    lemma_mul_chain(h00b@, fourc@, x1@, rat_mul_v(con_rat(4), cv), x@[1]);
                }
                let s1 = match h00a.sub(&h00b) {
                    Some(v) => v,
                    None => {
                        return Err(SolveError::Overflow);
                    },
                };
                proof {
                    lemma_sub_chain(
                        s1@,
                        h00a@,
                        h00b@,
                        rat_mul_v(rat_mul_v(con_rat(12), cv), sq_v(x@[0])),
                        rat_mul_v(rat_mul_v(con_rat(4), cv), x@[1]),
                    );
                }
                let two = Rational::from_int(2);
                let h00 = match s1.add(&two) {
                    Some(v) => v,
                    None => {
                        return Err(SolveError::Overflow);
                    },
                };
                proof {
                    lemma_add_chain(
                        h00@,
                        s1@,
                        two@,
                        rat_sub_v(
                            rat_mul_v(rat_mul_v(con_rat(12), cv), sq_v(x@[0])),
                            rat_mul_v(rat_mul_v(con_rat(4), cv), x@[1]),
                        ),
                        con_rat(2),
                    );
                }
                let fcx0 = match fourc.mul(&x0) {
                    Some(v) => v,
                    None => {
                        return Err(SolveError::Overflow);
                    },
                };
                let h01 = fcx0.neg();
                proof {
                    lemma_mul_chain(fcx0@, fourc@, x0@, rat_mul_v(con_rat(4), cv), x@[0]);
                    lemma_neg_chain(h01@, fcx0@, rat_mul_v(rat_mul_v(con_rat(4), cv), x@[0]));
                }
                let h11 = match two.mul(&c) {
                    Some(v) => v,
                    None => {
                        return Err(SolveError::Overflow);
                    },
                };
                let dp = match h00.mul(&h11) {
                    Some(v) => v,
                    None => {
                        return Err(SolveError::Overflow);
                    },
                };
                proof {
                    lemma_mul_chain(dp@, h00@, h11@, rosen_h00_v(cv, x@), rosen_h11_v(cv));
                }
                let hsq = match h01.mul(&h01) {
                    Some(v) => v,
                    None => {
                        return Err(SolveError::Overflow);
                    },
                };
                proof {
                    lemma_mul_chain(hsq@, h01@, h01@, rosen_h01_v(cv, x@), rosen_h01_v(cv, x@));
                }
                let det = match dp.sub(&hsq) {
                    Some(v) => v,
                    None => {
                        return Err(SolveError::Overflow);
                    },
                };
                proof {
                    lemma_sub_chain(
                        det@,
                        dp@,
                        hsq@,
                        rat_mul_v(rosen_h00_v(cv, x@), rosen_h11_v(cv)),
                        sq_v(rosen_h01_v(cv, x@)),
                    );
                    lemma_is_zero_transfer(det@, obj_det_v(*self, x@));
                }
                if det.is_zero() {
                    proof {
                        assert(*self == Objective::Rosenbrock { coefficient: c });
                        assert(rat_is_zero(det@));
                        assert(rat_is_zero(obj_det_v(*self, x@)));
                        assert(rat_eq(obj_det_v(*self, x@), rat_zero()));
                    }
                    return Err(SolveError::SingularHessian);
                }
                let n0a = match h11.mul(&g0) {
                    Some(v) => v,
                    None => {
                        return Err(SolveError::Overflow);
                    },
                };
                proof {
                    lemma_mul_chain(n0a@, h11@, g0@, rosen_h11_v(cv), obj_grad0_v(*self, x@));
                }
                let n0b = match h01.mul(&g1) {
                    Some(v) => v,
                    None => {
                        return Err(SolveError::Overflow);
                    },
                };
                proof {
                    lemma_mul_chain(n0b@, h01@, g1@, rosen_h01_v(cv, x@), obj_grad1_v(*self, x@));
                }
                let n0 = match n0a.sub(&n0b) {
                    Some(v) => v,
                    None => {
                        return Err(SolveError::Overflow);
                    },
                };
                let n0n = n0.neg();
                proof {
                    lemma_sub_chain(
                        n0@,
                        n0a@,
                        n0b@,
                        rat_mul_v(rosen_h11_v(cv), obj_grad0_v(*self, x@)),
                        rat_mul_v(rosen_h01_v(cv, x@), obj_grad1_v(*self, x@)),
                    );
                    lemma_neg_chain(
                        n0n@,
                        n0@,
                        rat_sub_v(
                            rat_mul_v(rosen_h11_v(cv), obj_grad0_v(*self, x@)),
                            rat_mul_v(rosen_h01_v(cv, x@), obj_grad1_v(*self, x@)),
                        ),
                    );
                    lemma_wf_add(rosen_h11_v(cv), obj_grad0_v(*self, x@));
                    lemma_wf_add(rosen_h01_v(cv, x@), obj_grad1_v(*self, x@));
                    lemma_wf_add(
                        rat_mul_v(rosen_h11_v(cv), obj_grad0_v(*self, x@)),
                        rat_mul_v(rosen_h01_v(cv, x@), obj_grad1_v(*self, x@)),
                    );
                }
                let d0 = match n0n.div(&det) {
                    Some(v) => v,
                    None => {
                        return Err(SolveError::Overflow);
                    },
                };
                proof {
                    lemma_div_chain(
                        d0@,
                        n0n@,
                        det@,
                        rat_neg_v(
                            rat_sub_v(
                                rat_mul_v(rosen_h11_v(cv), obj_grad0_v(*self, x@)),
                                rat_mul_v(rosen_h01_v(cv, x@), obj_grad1_v(*self, x@)),
                            ),
                        ),
                        obj_det_v(*self, x@),
                    );
                }
                let n1a = match h01.mul(&g0) {
                    Some(v) => v,
                    None => {
                        return Err(SolveError::Overflow);
                    },
                };
                proof {
                    lemma_mul_chain(n1a@, h01@, g0@, rosen_h01_v(cv, x@), obj_grad0_v(*self, x@));
                }
                let n1b = match h00.mul(&g1) {
                    Some(v) => v,
                    None => {
                        return Err(SolveError::Overflow);
                    },
                };
                proof {
                    lemma_mul_chain(n1b@, h00@, g1@, rosen_h00_v(cv, x@), obj_grad1_v(*self, x@));
                }
                let n1 = match n1a.sub(&n1b) {
                    Some(v) => v,
                    None => {
                        return Err(SolveError::Overflow);
                    },
                };
                proof {
                    lemma_sub_chain(
                        n1@,
                        n1a@,
                        n1b@,
                        rat_mul_v(rosen_h01_v(cv, x@), obj_grad0_v(*self, x@)),
                        rat_mul_v(rosen_h00_v(cv, x@), obj_grad1_v(*self, x@)),
                    );
                    lemma_wf_add(rosen_h01_v(cv, x@), obj_grad0_v(*self, x@));
                    lemma_wf_add(rosen_h00_v(cv, x@), obj_grad1_v(*self, x@));
                    lemma_wf_add(
                        rat_mul_v(rosen_h01_v(cv, x@), obj_grad0_v(*self, x@)),
                        rat_mul_v(rosen_h00_v(cv, x@), obj_grad1_v(*self, x@)),
                    );
                }
                let d1 = match n1.div(&det) {
                    Some(v) => v,
                    None => {
                        return Err(SolveError::Overflow);
                    },
                };
                proof {
                    lemma_div_chain(
                        d1@,
                        n1@,
                        det@,
                        rat_sub_v(
                            rat_mul_v(rosen_h01_v(cv, x@), obj_grad0_v(*self, x@)),
                            rat_mul_v(rosen_h00_v(cv, x@), obj_grad1_v(*self, x@)),
                        ),
                        obj_det_v(*self, x@),
                    );
                }
                let mut data: Vec<Rational> = Vec::new();
                data.push(d0);
                data.push(d1);
                let d = SpatialVec::new(data);
                proof {
                    assert(data@[0] == d0 && data@[1] == d1);
                    assert(d@[0] == d0@ && d@[1] == d1@);
                    let dv = obj_det_v(*self, x@);
                    assert(!rat_is_zero(dv));
                    assert(dv.n * 1 != 0 * dv.d) by (nonlinear_arith)
                        requires
                            dv.n != 0,
                    ;
                    assert(!rat_eq(dv, rat_zero()));
                }
                Ok(d)
            },
            Objective::Bowl { a, b } => {
                if a.is_zero() || b.is_zero() {
                    proof {
                        assert(rat_eq(obj_det_v(*self, x@), rat_zero())) by (nonlinear_arith)
                            requires
                                a@.n == 0 || b@.n == 0,
                                obj_det_v(*self, x@).n == (2 * a@.n) * (2 * b@.n),
                        ;
                    }
                    return Err(SolveError::SingularHessian);
                }
                let d = x.neg();
                proof {
                    assert(!rat_eq(obj_det_v(*self, x@), rat_zero())) by (nonlinear_arith)
                        requires
                            a@.n != 0,
                            b@.n != 0,
                            obj_det_v(*self, x@).n == (2 * a@.n) * (2 * b@.n),
                    ;
                }
                Ok(d)
            },
        }
    }
}

/// The closed-form derivative provider for the Rosenbrock-family objective
/// `f(x) = c * (x1 - x0^2)^2 + (1 - x0)^2` with coefficient `c`.
pub struct RosenDerivatives {
    pub rosen_coefficient: Rational,
}

impl RosenDerivatives {
    pub open spec fn wf(self) -> bool {
        self.rosen_coefficient.wf()
    }

    /// The objective this provider differentiates.
    pub open spec fn objective(self) -> Objective {
        Objective::Rosenbrock { coefficient: self.rosen_coefficient }
    }

    /// The gradient of the Rosenbrock-family objective at `x`.
    pub fn gen_grad(&self, x: &SpatialVec) -> (r: Result<SpatialVec, SolveError>)
        requires
            self.wf(),
            x.wf(),
            x@.len() == 2,
        ensures
            (r is Ok) == (obj_grad_chk(self.objective(), x@) is Some),
            r matches Ok(g) ==> {
                &&& g.wf()
                &&& g@.len() == 2
                &&& rat_eq(g@[0], obj_grad0_v(self.objective(), x@))
                &&& rat_eq(g@[1], obj_grad1_v(self.objective(), x@))
            },
            r matches Err(e) ==> e == SolveError::Overflow,
    {
        let o = Objective::Rosenbrock { coefficient: self.rosen_coefficient };
        o.grad(x)
    }

    /// The Newton direction of the Rosenbrock-family objective at `x`.
    pub fn gen_newton(&self, x: &SpatialVec) -> (r: Result<SpatialVec, SolveError>)
        requires
            self.wf(),
            x.wf(),
            x@.len() == 2,
        ensures
            res_pair_view(r) == obj_newton_chk(self.objective(), x@),
            r matches Ok(d) ==> {
                &&& d.wf()
                &&& d@.len() == 2
                &&& rat_eq(d@[0], obj_newton0_v(self.objective(), x@))
                &&& rat_eq(d@[1], obj_newton1_v(self.objective(), x@))
            },
            r matches Err(e) ==> e == SolveError::Overflow || e == SolveError::SingularHessian,
            r == Err::<SpatialVec, SolveError>(SolveError::SingularHessian) ==> rat_eq(
                obj_det_v(self.objective(), x@),
                rat_zero(),
            ),
    {
        let o = Objective::Rosenbrock { coefficient: self.rosen_coefficient };
        o.newton(x)
    }
}

/// On the quadratic bowl, one unit step along the Newton direction from any
/// point reaches the minimum at the origin: `x + d` is the zero vector.
pub proof fn lemma_bowl_newton_reaches_origin(a: Rational, b: Rational, x: Seq<Rat>)
    requires
        x.len() == 2,
    ensures
        rat_is_zero(
            rat_add_v(x[0], obj_newton0_v(Objective::Bowl { a, b }, x)),
        ),
        rat_is_zero(
            rat_add_v(x[1], obj_newton1_v(Objective::Bowl { a, b }, x)),
        ),
{
    assert(obj_newton0_v(Objective::Bowl { a, b }, x) == rat_neg_v(x[0]));
    assert(x[0].n * x[0].d + (-x[0].n) * x[0].d == 0) by (nonlinear_arith);
    assert(x[1].n * x[1].d + (-x[1].n) * x[1].d == 0) by (nonlinear_arith);
}

/// The objective value respects pointwise value equality of the point.
pub proof fn lemma_obj_value_congruence(o: Objective, x: Seq<Rat>, y: Seq<Rat>)
    requires
        x.len() == 2,
        y.len() == 2,
        seq_rat_eq(x, y),
    ensures
        rat_eq(obj_value_v(o, x), obj_value_v(o, y)),
{
    assert(rat_eq(x[0], y[0]) && rat_eq(x[1], y[1]));
    match o {
        Objective::Rosenbrock { coefficient } => {
            let c = coefficient@;
            lemma_mul_congruence(x[0], x[0], y[0], y[0]);
            lemma_sub_congruence(x[1], sq_v(x[0]), y[1], sq_v(y[0]));
            lemma_mul_congruence(rosen_t_v(x), rosen_t_v(x), rosen_t_v(y), rosen_t_v(y));
            lemma_mul_congruence(c, sq_v(rosen_t_v(x)), c, sq_v(rosen_t_v(y)));
            lemma_sub_congruence(rat_one(), x[0], rat_one(), y[0]);
            lemma_mul_congruence(rosen_u_v(x), rosen_u_v(x), rosen_u_v(y), rosen_u_v(y));
            lemma_add_congruence(
                rat_mul_v(c, sq_v(rosen_t_v(x))),
                sq_v(rosen_u_v(x)),
                rat_mul_v(c, sq_v(rosen_t_v(y))),
                sq_v(rosen_u_v(y)),
            );
        },
        Objective::Bowl { a, b } => {
            lemma_mul_congruence(x[0], x[0], y[0], y[0]);
            lemma_mul_congruence(x[1], x[1], y[1], y[1]);
            lemma_mul_congruence(a@, sq_v(x[0]), a@, sq_v(y[0]));
            lemma_mul_congruence(b@, sq_v(x[1]), b@, sq_v(y[1]));
            lemma_add_congruence(
                rat_mul_v(a@, sq_v(x[0])),
                rat_mul_v(b@, sq_v(x[1])),
                rat_mul_v(a@, sq_v(y[0])),
                rat_mul_v(b@, sq_v(y[1])),
            );
        },
    }
}

} // verus!
