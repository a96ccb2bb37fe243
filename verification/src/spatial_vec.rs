//! Fixed-dimension numeric vectors over exact rational scalars.
//!
//! A vector is an ordered tuple of rationals; elementwise add, subtract and
//! scale, the dot product, and the squared Euclidean norm are exact.  The
//! squared norm stands in for the norm itself, whose square root is in
//! general irrational; every consumer compares it against a squared
//! threshold.

use crate::rational::{
    lemma_add_congruence, lemma_mul_congruence, lemma_rat_eq_trans, lemma_red_value, lemma_wf_add,
    rat_add_chk, rat_add_v, rat_eq,
    rat_fits, rat_is_zero, rat_le, rat_mul_chk, rat_mul_v, rat_neg_v, rat_opt_view, rat_sub_chk,
    rat_sub_v, rat_wf, rat_zero, Rat, Rational,
};
use vstd::prelude::*;

verus! {

/// All entries are well-formed machine fractions.
pub open spec fn seq_wf(s: Seq<Rat>) -> bool {
    forall|i: int| 0 <= i < s.len() ==> rat_fits(#[trigger] s[i])
}

/// Pointwise value equality of two coordinate sequences.
pub open spec fn seq_rat_eq(a: Seq<Rat>, b: Seq<Rat>) -> bool {
    &&& a.len() == b.len()
    &&& forall|i: int| 0 <= i < a.len() ==> rat_eq(#[trigger] a[i], b[i])
}

/// The zero vector: every coordinate is the value zero.
pub open spec fn seq_is_zero(s: Seq<Rat>) -> bool {
    forall|i: int| 0 <= i < s.len() ==> rat_is_zero(#[trigger] s[i])
}

pub open spec fn vadd_v(u: Seq<Rat>, v: Seq<Rat>) -> Seq<Rat> {
    Seq::new(u.len(), |i: int| rat_add_v(u[i], v[i]))
}

pub open spec fn vsub_v(u: Seq<Rat>, v: Seq<Rat>) -> Seq<Rat> {
    Seq::new(u.len(), |i: int| rat_sub_v(u[i], v[i]))
}

pub open spec fn vscale_v(c: Rat, u: Seq<Rat>) -> Seq<Rat> {
    Seq::new(u.len(), |i: int| rat_mul_v(c, u[i]))
}

pub open spec fn vneg_v(u: Seq<Rat>) -> Seq<Rat> {
    Seq::new(u.len(), |i: int| rat_neg_v(u[i]))
}

/// Dot product of the first `k` coordinates, accumulated left to right.
pub open spec fn dot_prefix_v(u: Seq<Rat>, v: Seq<Rat>, k: nat) -> Rat
    decreases k,
{
    if k == 0 {
        rat_zero()
    } else {
        rat_add_v(dot_prefix_v(u, v, (k - 1) as nat), rat_mul_v(u[k - 1], v[k - 1]))
    }
}

/// The dot product: the sum of the coordinatewise products.
pub open spec fn dot_v(u: Seq<Rat>, v: Seq<Rat>) -> Rat {
    dot_prefix_v(u, v, u.len())
}

/// The squared Euclidean norm: the dot product of the vector with itself.
pub open spec fn norm_sq_v(u: Seq<Rat>) -> Rat {
    dot_v(u, u)
}

/// The reduced machine representation of the dot product of the first `k`
/// coordinates, or `None` as soon as one accumulation step leaves the word
/// range.
pub open spec fn dot_chk(u: Seq<Rat>, v: Seq<Rat>, k: nat) -> Option<Rat>
    decreases k,
{
    if k == 0 {
        Some(rat_zero())
    } else {
        match dot_chk(u, v, (k - 1) as nat) {
            None => None,
            Some(acc) => match rat_mul_chk(u[k - 1], v[k - 1]) {
                None => None,
                Some(p) => rat_add_chk(acc, p),
            },
        }
    }
}

/// The coordinate sequence of an optional vector.
pub open spec fn vec_opt_view(r: Option<SpatialVec>) -> Option<Seq<Rat>> {
    match r {
        Some(w) => Some(w@),
        None => None,
    }
}

/// The checked elementwise sum: the reduced machine fractions, or `None` as
/// soon as one coordinate leaves the word range.
pub open spec fn vadd_chk(u: Seq<Rat>, v: Seq<Rat>) -> Option<Seq<Rat>> {
    if forall|i: int| 0 <= i < u.len() ==> #[trigger] rat_add_chk(u[i], v[i]) is Some {
        Some(Seq::new(u.len(), |i: int| rat_add_chk(u[i], v[i])->Some_0))
    } else {
        None
    }
}

/// The checked elementwise difference.
pub open spec fn vsub_chk(u: Seq<Rat>, v: Seq<Rat>) -> Option<Seq<Rat>> {
    if forall|i: int| 0 <= i < u.len() ==> #[trigger] rat_sub_chk(u[i], v[i]) is Some {
        Some(Seq::new(u.len(), |i: int| rat_sub_chk(u[i], v[i])->Some_0))
    } else {
        None
    }
}

/// The checked scalar multiple `c * u`.
pub open spec fn vscale_chk(c: Rat, u: Seq<Rat>) -> Option<Seq<Rat>> {
    if forall|i: int| 0 <= i < u.len() ==> #[trigger] rat_mul_chk(c, u[i]) is Some {
        Some(Seq::new(u.len(), |i: int| rat_mul_chk(c, u[i])->Some_0))
    } else {
        None
    }
}

/// Once an accumulation step has failed, every longer prefix fails too.
pub proof fn lemma_dot_chk_none_mono(u: Seq<Rat>, v: Seq<Rat>, k1: nat, k2: nat)
    requires
        k1 <= k2,
        dot_chk(u, v, k1) is None,
    ensures
        dot_chk(u, v, k2) is None,
    decreases k2,
{
    if k2 > k1 {
        lemma_dot_chk_none_mono(u, v, k1, (k2 - 1) as nat);
    }
}

/// A successful checked dot product denotes the exact dot product value.
pub proof fn lemma_dot_chk_value(u: Seq<Rat>, v: Seq<Rat>, k: nat)
    requires
        seq_wf(u),
        seq_wf(v),
        k <= u.len(),
        k <= v.len(),
    ensures
        rat_wf(dot_prefix_v(u, v, k)),
        dot_chk(u, v, k) matches Some(x) ==> rat_fits(x) && rat_eq(x, dot_prefix_v(u, v, k)),
    decreases k,
{
    if k == 0 {
    } else {
        lemma_dot_chk_value(u, v, (k - 1) as nat);
        let pfx = dot_prefix_v(u, v, (k - 1) as nat);
        let a = u[k - 1];
        let b = v[k - 1];
        assert(rat_wf(rat_mul_v(a, b)) && rat_wf(rat_add_v(pfx, rat_mul_v(a, b))))
            by (nonlinear_arith)
            requires
                a.d > 0,
                b.d > 0,
                pfx.d > 0,
        ;
        if dot_chk(u, v, k) is Some {
            let acc = dot_chk(u, v, (k - 1) as nat)->Some_0;
            let p = rat_mul_chk(a, b)->Some_0;
            let mv = rat_mul_v(a, b);
            lemma_red_value(mv.n, mv.d);
            let av = rat_add_v(acc, p);
            assert(av.d != 0) by (nonlinear_arith)
                requires
                    acc.d > 0,
                    p.d > 0,
                    av.d == acc.d * p.d,
            ;
            lemma_red_value(av.n, av.d);
            let x = dot_chk(u, v, k)->Some_0;
            lemma_add_congruence(acc, p, pfx, mv);
            lemma_rat_eq_trans(x, av, rat_add_v(pfx, mv));
        }
    }
}

/// Fixed-dimension vector of exact rational coordinates.
#[derive(Debug)]
pub struct SpatialVec {
    data: Vec<Rational>,
}

impl View for SpatialVec {
    type V = Seq<Rat>;

    closed spec fn view(&self) -> Seq<Rat> {
        Seq::new(self.data@.len(), |i: int| self.data@[i]@)
    }
}

impl SpatialVec {
    /// Every coordinate is a well-formed machine fraction.
    pub open spec fn wf(self) -> bool {
        seq_wf(self@)
    }

    /// Wrap the given coordinates as a vector.
    pub fn new(data: Vec<Rational>) -> (r: SpatialVec)
        requires
            forall|i: int| 0 <= i < data@.len() ==> (#[trigger] data@[i]).wf(),
        ensures
            r.wf(),
            r@.len() == data@.len(),
            forall|i: int| 0 <= i < data@.len() ==> r@[i] == (#[trigger] data@[i])@,
    {
        SpatialVec { data }
    }

    /// The dimension.
    pub fn dim(&self) -> (n: usize)
        ensures
            n == self@.len(),
    {
        self.data.len()
    }

    /// The coordinate at index `i`.
    pub fn get(&self, i: usize) -> (r: Rational)
        requires
            self.wf(),
            i < self@.len(),
        ensures
            r.wf(),
            r@ == self@[i as int],
    {
        proof {
            assert(self.data@[i as int]@ == self@[i as int]);
        }
        self.data[i]
    }

    /// An independent copy with the same coordinates.
    pub fn copied(&self) -> (r: SpatialVec)
        ensures
            r@ == self@,
    {
        let n = self.data.len();
        let mut out: Vec<Rational> = Vec::new();
        let mut i: usize = 0;
        while i < n
            invariant
                n == self.data@.len(),
                i <= n,
                out@.len() == i,
                forall|j: int| 0 <= j < i ==> out@[j] == self.data@[j],
            decreases n - i,
        {
            out.push(self.data[i]);
            i += 1;
        }
        let r = SpatialVec { data: out };
        proof {
            assert(r@ =~= self@);
        }
        r
    }

    /// Elementwise sum; `None` when one reduced coordinate leaves the word
    /// range.
    pub fn add(&self, other: &SpatialVec) -> (r: Option<SpatialVec>)
        requires
            self.wf(),
            other.wf(),
            self@.len() == other@.len(),
        ensures
            r matches Some(w) ==> {
                &&& w.wf()
                &&& w@.len() == self@.len()
                &&& forall|i: int|
                    0 <= i < self@.len() ==> Some(#[trigger] w@[i]) == rat_add_chk(
                        self@[i],
                        other@[i],
                    )
                &&& seq_rat_eq(w@, vadd_v(self@, other@))
            },
            r is None <==> exists|i: int|
                0 <= i < self@.len() && rat_add_chk(#[trigger] self@[i], other@[i]) is None,
            vec_opt_view(r) == vadd_chk(self@, other@),
    {
        let n = self.data.len();
        let mut out: Vec<Rational> = Vec::new();
        let mut i: usize = 0;
        while i < n
            invariant
                self.wf(),
                other.wf(),
                n == self@.len() == other@.len(),
                i <= n,
                out@.len() == i,
                forall|j: int|
                    0 <= j < i ==> Some((#[trigger] out@[j])@) == rat_add_chk(self@[j], other@[j]),
                forall|j: int| 0 <= j < i ==> (#[trigger] out@[j]).wf(),
            decreases n - i,
        {
            proof {
                assert(self.data@[i as int]@ == self@[i as int]);
                assert(other.data@[i as int]@ == other@[i as int]);
            }
            match self.data[i].add(&other.data[i]) {
                Some(x) => {
                    out.push(x);
                },
                None => {
                    return None;
                },
            }
            i += 1;
        }
        proof {
            assert forall|j: int| 0 <= j < n implies rat_add_chk(
                #[trigger] self@[j],
                other@[j],
            ) is Some by {
                assert(Some(out@[j]@) == rat_add_chk(self@[j], other@[j]));
            }
            assert forall|j: int| 0 <= j < n implies rat_eq(
                out@[j]@,
                vadd_v(self@, other@)[j],
            ) by {
                assert(Some(out@[j]@) == rat_add_chk(self@[j], other@[j]));
                let sv = rat_add_v(self@[j], other@[j]);
                assert(sv.d != 0) by (nonlinear_arith)
                    requires
                        self@[j].d > 0,
                        other@[j].d > 0,
                        sv.d == self@[j].d * other@[j].d,
                ;
                lemma_red_value(sv.n, sv.d);
            }
        }
        let w = SpatialVec { data: out };
        proof {
            assert forall|j: int| 0 <= j < n implies w@[j] == vadd_chk(self@, other@)->Some_0[j] by {
                assert(Some(w@[j]) == rat_add_chk(self@[j], other@[j]));
            }
            assert(w@ =~= vadd_chk(self@, other@)->Some_0);
        }
        Some(w)
    }

    /// Elementwise difference; `None` when one reduced coordinate leaves the
    /// word range.
    pub fn sub(&self, other: &SpatialVec) -> (r: Option<SpatialVec>)
        requires
            self.wf(),
            other.wf(),
            self@.len() == other@.len(),
        ensures
            r matches Some(w) ==> {
                &&& w.wf()
                &&& w@.len() == self@.len()
                &&& forall|i: int|
                    0 <= i < self@.len() ==> Some(#[trigger] w@[i]) == rat_sub_chk(
                        self@[i],
                        other@[i],
                    )
                &&& seq_rat_eq(w@, vsub_v(self@, other@))
            },
            r is None <==> exists|i: int|
                0 <= i < self@.len() && rat_sub_chk(#[trigger] self@[i], other@[i]) is None,
            vec_opt_view(r) == vsub_chk(self@, other@),
    {
        let n = self.data.len();
        let mut out: Vec<Rational> = Vec::new();
        let mut i: usize = 0;
        while i < n
            invariant
                self.wf(),
                other.wf(),
                n == self@.len() == other@.len(),
                i <= n,
                out@.len() == i,
                forall|j: int|
                    0 <= j < i ==> Some((#[trigger] out@[j])@) == rat_sub_chk(self@[j], other@[j]),
                forall|j: int| 0 <= j < i ==> (#[trigger] out@[j]).wf(),
            decreases n - i,
        {
            proof {
                assert(self.data@[i as int]@ == self@[i as int]);
                assert(other.data@[i as int]@ == other@[i as int]);
            }
            match self.data[i].sub(&other.data[i]) {
                Some(x) => {
                    out.push(x);
                },
                None => {
                    return None;
                },
            }
            i += 1;
        }
        proof {
            assert forall|j: int| 0 <= j < n implies rat_sub_chk(
                #[trigger] self@[j],
                other@[j],
            ) is Some by {
                assert(Some(out@[j]@) == rat_sub_chk(self@[j], other@[j]));
            }
            assert forall|j: int| 0 <= j < n implies rat_eq(
                out@[j]@,
                vsub_v(self@, other@)[j],
            ) by {
                assert(Some(out@[j]@) == rat_sub_chk(self@[j], other@[j]));
                let sv = rat_sub_v(self@[j], other@[j]);
                assert(sv.d != 0) by (nonlinear_arith)
                    requires
                        self@[j].d > 0,
                        other@[j].d > 0,
                        sv.d == self@[j].d * other@[j].d,
                ;
                lemma_red_value(sv.n, sv.d);
            }
        }
        let w = SpatialVec { data: out };
        proof {
            assert forall|j: int| 0 <= j < n implies w@[j] == vsub_chk(self@, other@)->Some_0[j] by {
                assert(Some(w@[j]) == rat_sub_chk(self@[j], other@[j]));
            }
            assert(w@ =~= vsub_chk(self@, other@)->Some_0);
        }
        Some(w)
    }

    /// The scalar multiple `c * self`; `None` when one reduced coordinate
    /// leaves the word range.
    pub fn scale(&self, c: &Rational) -> (r: Option<SpatialVec>)
        requires
            self.wf(),
            c.wf(),
        ensures
            r matches Some(w) ==> {
                &&& w.wf()
                &&& w@.len() == self@.len()
                &&& forall|i: int|
                    0 <= i < self@.len() ==> Some(#[trigger] w@[i]) == rat_mul_chk(c@, self@[i])
                &&& seq_rat_eq(w@, vscale_v(c@, self@))
            },
            r is None <==> exists|i: int|
                0 <= i < self@.len() && rat_mul_chk(c@, #[trigger] self@[i]) is None,
            vec_opt_view(r) == vscale_chk(c@, self@),
    {
        let n = self.data.len();
        let mut out: Vec<Rational> = Vec::new();
        let mut i: usize = 0;
        while i < n
            invariant
                self.wf(),
                c.wf(),
                n == self@.len(),
                i <= n,
                out@.len() == i,
                forall|j: int|
                    0 <= j < i ==> Some((#[trigger] out@[j])@) == rat_mul_chk(c@, self@[j]),
                forall|j: int| 0 <= j < i ==> (#[trigger] out@[j]).wf(),
            decreases n - i,
        {
            proof {
                assert(self.data@[i as int]@ == self@[i as int]);
            }
            match c.mul(&self.data[i]) {
                Some(x) => {
                    out.push(x);
                },
                None => {
                    return None;
                },
            }
            i += 1;
        }
        proof {
            assert forall|j: int| 0 <= j < n implies rat_mul_chk(
                c@,
                #[trigger] self@[j],
            ) is Some by {
                assert(Some(out@[j]@) == rat_mul_chk(c@, self@[j]));
            }
            assert forall|j: int| 0 <= j < n implies rat_eq(
                out@[j]@,
                vscale_v(c@, self@)[j],
            ) by {
                assert(Some(out@[j]@) == rat_mul_chk(c@, self@[j]));
                let sv = rat_mul_v(c@, self@[j]);
                assert(sv.d != 0) by (nonlinear_arith)
                    requires
                        c@.d > 0,
                        self@[j].d > 0,
                        sv.d == c@.d * self@[j].d,
                ;
                lemma_red_value(sv.n, sv.d);
            }
        }
        let w = SpatialVec { data: out };
        proof {
            assert forall|j: int| 0 <= j < n implies w@[j] == vscale_chk(c@, self@)->Some_0[j] by {
                assert(Some(w@[j]) == rat_mul_chk(c@, self@[j]));
            }
            assert(w@ =~= vscale_chk(c@, self@)->Some_0);
        }
        Some(w)
    }

    /// Elementwise negation; exact, never fails.
    pub fn neg(&self) -> (r: SpatialVec)
        requires
            self.wf(),
        ensures
            r.wf(),
            r@.len() == self@.len(),
            forall|i: int| 0 <= i < self@.len() ==> #[trigger] r@[i] == rat_neg_v(self@[i]),
    {
        let n = self.data.len();
        let mut out: Vec<Rational> = Vec::new();
        let mut i: usize = 0;
        while i < n
            invariant
                self.wf(),
                n == self@.len(),
                i <= n,
                out@.len() == i,
                forall|j: int| 0 <= j < i ==> (#[trigger] out@[j])@ == rat_neg_v(self@[j]),
                forall|j: int| 0 <= j < i ==> (#[trigger] out@[j]).wf(),
            decreases n - i,
        {
            proof {
                assert(self.data@[i as int]@ == self@[i as int]);
            }
            out.push(self.data[i].neg());
            i += 1;
        }
        SpatialVec { data: out }
    }

    /// The dot product `self . other`; `None` when one accumulation step
    /// leaves the word range.
    pub fn dot(&self, other: &SpatialVec) -> (r: Option<Rational>)
        requires
            self.wf(),
            other.wf(),
            self@.len() == other@.len(),
        ensures
            rat_opt_view(r) == dot_chk(self@, other@, self@.len()),
            r matches Some(x) ==> x.wf() && rat_eq(x@, dot_v(self@, other@)),
            rat_wf(dot_v(self@, other@)),
    {
        proof {
            lemma_dot_chk_value(self@, other@, self@.len());
        }
        let n = self.data.len();
        let mut acc = Rational::zero();
        let mut i: usize = 0;
        while i < n
            invariant
                self.wf(),
                other.wf(),
                n == self@.len() == other@.len(),
                i <= n,
                acc.wf(),
                Some(acc@) == dot_chk(self@, other@, i as nat),
                rat_wf(dot_v(self@, other@)),
            decreases n - i,
        {
            proof {
                assert(self.data@[i as int]@ == self@[i as int]);
                assert(other.data@[i as int]@ == other@[i as int]);
            }
            let p = match self.data[i].mul(&other.data[i]) {
                Some(p) => p,
                None => {
                    proof {
                        lemma_dot_chk_none_mono(self@, other@, (i + 1) as nat, n as nat);
                    }
                    return None;
                },
            };
            acc = match acc.add(&p) {
                Some(a) => a,
                None => {
                    proof {
                        lemma_dot_chk_none_mono(self@, other@, (i + 1) as nat, n as nat);
                    }
                    return None;
                },
            };
            i += 1;
        }
        Some(acc)
    }

    /// The squared Euclidean norm `self . self`; `None` when one accumulation
    /// step leaves the word range.
    pub fn norm_sq(&self) -> (r: Option<Rational>)
        requires
            self.wf(),
        ensures
            rat_opt_view(r) == dot_chk(self@, self@, self@.len()),
            r matches Some(x) ==> x.wf() && rat_eq(x@, norm_sq_v(self@)),
            rat_wf(norm_sq_v(self@)),
    {
        self.dot(self)
    }
}

/// Vector addition is commutative: `u + v` and `v + u` are the same tuple of
/// fractions, coordinate by coordinate.
pub proof fn lemma_vec_add_comm(u: Seq<Rat>, v: Seq<Rat>)
    requires
        u.len() == v.len(),
    ensures
        vadd_v(u, v) =~= vadd_v(v, u),
{
    assert forall|i: int| 0 <= i < u.len() implies vadd_v(u, v)[i] == vadd_v(v, u)[i] by {
        let a = u[i];
        let b = v[i];
        assert(a.n * b.d + b.n * a.d == b.n * a.d + a.n * b.d);
        assert(a.d * b.d == b.d * a.d) by (nonlinear_arith);
    }
}

/// Subtracting a vector from itself gives the zero vector.
pub proof fn lemma_vec_sub_self(u: Seq<Rat>)
    ensures
        seq_is_zero(vsub_v(u, u)),
        forall|i: int| 0 <= i < u.len() ==> rat_eq(#[trigger] vsub_v(u, u)[i], rat_zero()),
{
}

/// Scalar multiplication distributes over vector addition, as fraction
/// values.
pub proof fn lemma_scale_distributes(c: Rat, u: Seq<Rat>, v: Seq<Rat>)
    requires
        u.len() == v.len(),
    ensures
        seq_rat_eq(vscale_v(c, vadd_v(u, v)), vadd_v(vscale_v(c, u), vscale_v(c, v))),
{
    assert forall|i: int| 0 <= i < u.len() implies rat_eq(
        vscale_v(c, vadd_v(u, v))[i],
        vadd_v(vscale_v(c, u), vscale_v(c, v))[i],
    ) by {
        lemma_rat_mul_add_distrib(c, u[i], v[i]);
    }
}

/// `c * (a + b)` and `c * a + c * b` are the same fraction value.
#[verifier::rlimit(100)]
pub proof fn lemma_rat_mul_add_distrib(c: Rat, a: Rat, b: Rat)
    ensures
        rat_eq(rat_mul_v(c, rat_add_v(a, b)), rat_add_v(rat_mul_v(c, a), rat_mul_v(c, b))),
{
    let l = rat_mul_v(c, rat_add_v(a, b));
    let r = rat_add_v(rat_mul_v(c, a), rat_mul_v(c, b));
    let t1 = c.n * a.n * b.d;
    let t2 = c.n * b.n * a.d;
    let w = c.d * a.d * b.d;
    assert(l.n == t1 + t2) by (nonlinear_arith)
        requires
            l.n == c.n * (a.n * b.d + b.n * a.d),
            t1 == c.n * a.n * b.d,
            t2 == c.n * b.n * a.d,
    ;
    assert(l.d == w) by (nonlinear_arith)
        requires
            l.d == c.d * (a.d * b.d),
            w == c.d * a.d * b.d,
    ;
    assert(r.d == w * c.d) by (nonlinear_arith)
        requires
            r.d == (c.d * a.d) * (c.d * b.d),
            w == c.d * a.d * b.d,
    ;
    assert((c.n * a.n) * (c.d * b.d) == t1 * c.d) by (nonlinear_arith)
        requires
            t1 == c.n * a.n * b.d,
    ;
    assert((c.n * b.n) * (c.d * a.d) == t2 * c.d) by (nonlinear_arith)
        requires
            t2 == c.n * b.n * a.d,
    ;
    assert(r.n == (t1 + t2) * c.d) by (nonlinear_arith)
        requires
            r.n == t1 * c.d + t2 * c.d,
    ;
    assert((t1 + t2) * (w * c.d) == ((t1 + t2) * c.d) * w) by (nonlinear_arith);
    assert(l.n * r.d == r.n * l.d);
}

/// The squared norm over the first `k` coordinates is a well-formed,
/// nonnegative fraction, zero exactly when those coordinates are all zero.
pub proof fn lemma_norm_sq_prefix(u: Seq<Rat>, k: nat)
    requires
        seq_wf(u),
        k <= u.len(),
    ensures
        rat_wf(dot_prefix_v(u, u, k)),
        rat_le(rat_zero(), dot_prefix_v(u, u, k)),
        rat_eq(dot_prefix_v(u, u, k), rat_zero()) <==> (forall|i: int|
            0 <= i < k ==> rat_is_zero(#[trigger] u[i])),
    decreases k,
{
    if k == 0 {
    } else {
        lemma_norm_sq_prefix(u, (k - 1) as nat);
        let p = dot_prefix_v(u, u, (k - 1) as nat);
        let a = u[k - 1];
        let m = rat_mul_v(a, a);
        assert(m.d > 0 && m.n >= 0 && (m.n == 0 <==> a.n == 0)) by (nonlinear_arith)
            requires
                a.d > 0,
                m.d == a.d * a.d,
                m.n == a.n * a.n,
        ;
        let s = rat_add_v(p, m);
        assert(s.d > 0 && s.n >= 0 && (s.n == 0 <==> (p.n == 0 && m.n == 0))) by (nonlinear_arith)
            requires
                p.d > 0,
                m.d > 0,
                p.n >= 0,
                m.n >= 0,
                s.d == p.d * m.d,
                s.n == p.n * m.d + m.n * p.d,
        ;
    }
}

/// The squared norm of a vector is nonnegative, and is zero exactly for the
/// zero vector.
pub proof fn lemma_norm_sq_nonneg(u: Seq<Rat>)
    requires
        seq_wf(u),
    ensures
        rat_wf(norm_sq_v(u)),
        rat_le(rat_zero(), norm_sq_v(u)),
        rat_eq(norm_sq_v(u), rat_zero()) <==> seq_is_zero(u),
{
    lemma_norm_sq_prefix(u, u.len());
}

/// The dot product respects pointwise value equality.
pub proof fn lemma_dot_prefix_congruence(
    u: Seq<Rat>,
    uu: Seq<Rat>,
    v: Seq<Rat>,
    vv: Seq<Rat>,
    k: nat,
)
    requires
        seq_rat_eq(u, uu),
        seq_rat_eq(v, vv),
        k <= u.len(),
        k <= v.len(),
    ensures
        rat_eq(dot_prefix_v(u, v, k), dot_prefix_v(uu, vv, k)),
    decreases k,
{
    if k > 0 {
        lemma_dot_prefix_congruence(u, uu, v, vv, (k - 1) as nat);
        lemma_mul_congruence(u[k - 1], v[k - 1], uu[k - 1], vv[k - 1]);
        lemma_add_congruence(
            dot_prefix_v(u, v, (k - 1) as nat),
            rat_mul_v(u[k - 1], v[k - 1]),
            dot_prefix_v(uu, vv, (k - 1) as nat),
            rat_mul_v(uu[k - 1], vv[k - 1]),
        );
    }
}

/// Positive denominators, coordinate by coordinate; implied by `seq_wf`.
pub open spec fn seq_dens_pos(s: Seq<Rat>) -> bool {
    forall|i: int| 0 <= i < s.len() ==> (#[trigger] s[i]).d > 0
}

/// The dot product of vectors with positive denominators is a well-formed
/// fraction.
pub proof fn lemma_dot_prefix_wf(u: Seq<Rat>, v: Seq<Rat>, k: nat)
    requires
        seq_dens_pos(u),
        seq_dens_pos(v),
        k <= u.len(),
        k <= v.len(),
    ensures
        rat_wf(dot_prefix_v(u, v, k)),
    decreases k,
{
    if k > 0 {
        lemma_dot_prefix_wf(u, v, (k - 1) as nat);
        lemma_wf_add(u[k - 1], v[k - 1]);
        lemma_wf_add(dot_prefix_v(u, v, (k - 1) as nat), rat_mul_v(u[k - 1], v[k - 1]));
    }
}

} // verus!
