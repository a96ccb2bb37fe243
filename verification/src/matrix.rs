//! Dense square matrices over exact rational scalars.
//!
//! Storage is column-major: the matrix is an ordered sequence of columns,
//! and `m[c][r]` is the entry in column `c`, row `r`.  Multiplication is the
//! standard product, `(a * b)[c][r] == sum over k of a[k][r] * b[c][k]`; the
//! identity and transposition are exact, and the integer power uses binary
//! exponentiation.

use crate::rational::{
    lemma_add_zero_left, lemma_add_zero_right, lemma_rat_eq_trans, lemma_sub_chain, rat_add_chk,
    rat_add_v, rat_eq, rat_fits, rat_mul_chk, rat_mul_v, rat_one, rat_sub_chk, rat_sub_v, rat_wf,
    rat_zero, Rat, Rational,
};
use crate::spatial_vec::{
    dot_chk, dot_prefix_v, dot_v, lemma_dot_chk_value, seq_rat_eq, seq_wf, vadd_v, vec_opt_view,
    vscale_v, vsub_v, SpatialVec,
};
use vstd::prelude::*;

verus! {

/// A well-formed matrix model: square, with well-formed entries.
pub open spec fn mat_wf(m: Seq<Seq<Rat>>) -> bool {
    forall|c: int| 0 <= c < m.len() ==> (#[trigger] m[c]).len() == m.len() && seq_wf(m[c])
}

/// Pointwise value equality of two square matrices.
pub open spec fn mat_rat_eq(a: Seq<Seq<Rat>>, b: Seq<Seq<Rat>>) -> bool {
    &&& a.len() == b.len()
    &&& forall|c: int| 0 <= c < a.len() ==> seq_rat_eq(#[trigger] a[c], #[trigger] b[c])
}

/// The identity matrix of side `n`.
pub open spec fn identity_v(n: nat) -> Seq<Seq<Rat>> {
    Seq::new(
        n,
        |c: int|
            Seq::new(
                n,
                |r: int|
                    if r == c {
                        rat_one()
                    } else {
                        rat_zero()
                    },
            ),
    )
}

/// Row `r` of `m`, gathered across the columns.
pub open spec fn row_v(m: Seq<Seq<Rat>>, r: int) -> Seq<Rat> {
    Seq::new(m.len(), |i: int| m[i][r])
}

/// The transpose: entry `[c][r]` becomes entry `[r][c]`.
pub open spec fn transpose_v(m: Seq<Seq<Rat>>) -> Seq<Seq<Rat>> {
    Seq::new(m.len(), |c: int| Seq::new(m.len(), |r: int| m[r][c]))
}

/// One entry of the standard matrix product `a * b`: row `r` of `a` against
/// column `c` of `b`, placed at column `c`, row `r` of the result.
pub open spec fn mm_entry_v(a: Seq<Seq<Rat>>, b: Seq<Seq<Rat>>, c: int, r: int) -> Rat {
    dot_v(b[c], row_v(a, r))
}

/// The matrix product, as exact fraction values.
pub open spec fn mm_v(a: Seq<Seq<Rat>>, b: Seq<Seq<Rat>>) -> Seq<Seq<Rat>> {
    Seq::new(a.len(), |c: int| Seq::new(a.len(), |r: int| mm_entry_v(a, b, c, r)))
}

/// Whether every entry of the matrix product can be accumulated within the
/// machine word range.
pub open spec fn mm_ok(a: Seq<Seq<Rat>>, b: Seq<Seq<Rat>>) -> bool {
    forall|c: int, r: int|
        0 <= c < a.len() && 0 <= r < a.len() ==> #[trigger] dot_chk(b[c], row_v(a, r), a.len())
            is Some
}

/// The machine representation of the matrix product.
pub open spec fn mm_rep(a: Seq<Seq<Rat>>, b: Seq<Seq<Rat>>) -> Seq<Seq<Rat>> {
    Seq::new(
        a.len(),
        |c: int| Seq::new(a.len(), |r: int| dot_chk(b[c], row_v(a, r), a.len())->Some_0),
    )
}

/// The checked matrix product: its machine representation, or `None` when
/// one entry leaves the word range.
pub open spec fn mm_chk(a: Seq<Seq<Rat>>, b: Seq<Seq<Rat>>) -> Option<Seq<Seq<Rat>>> {
    if mm_ok(a, b) {
        Some(mm_rep(a, b))
    } else {
        None
    }
}

/// The checked matrix-vector product `m * v`: the reduced machine fraction
/// of each entry, or `None` as soon as one accumulation leaves the word
/// range.
pub open spec fn matvec_chk(m: Seq<Seq<Rat>>, v: Seq<Rat>) -> Option<Seq<Rat>> {
    if forall|j: int| 0 <= j < m.len() ==> #[trigger] dot_chk(v, row_v(m, j), m.len()) is Some {
        Some(Seq::new(m.len(), |j: int| dot_chk(v, row_v(m, j), m.len())->Some_0))
    } else {
        None
    }
}

/// The checked binary exponentiation recurrence: `out` accumulates the
/// product, `base` is squared as `k` halves.
pub open spec fn pow_chk(out: Seq<Seq<Rat>>, base: Seq<Seq<Rat>>, k: nat) -> Option<
    Seq<Seq<Rat>>,
>
    decreases k,
{
    if k == 0 {
        Some(out)
    } else {
        let o1 = if k % 2 == 1 {
            mm_chk(out, base)
        } else {
            Some(out)
        };
        match o1 {
            None => None,
            Some(o) => match mm_chk(base, base) {
                None => None,
                Some(bb) => pow_chk(o, bb, k / 2),
            },
        }
    }
}

/// Whether the matrix equals its transpose, as fraction values.
pub open spec fn sym_v(m: Seq<Seq<Rat>>) -> bool {
    forall|i: int, j: int|
        0 <= i < m.len() && 0 <= j < m.len() ==> rat_eq(#[trigger] m[i][j], #[trigger] m[j][i])
}

pub open spec fn mat_opt_view(r: Option<Matrix>) -> Option<Seq<Seq<Rat>>> {
    match r {
        Some(x) => Some(x@),
        None => None,
    }
}

/// A successful checked product denotes the exact product values, entry by
/// entry, and is itself well-formed.
pub proof fn lemma_mm_chk_value(a: Seq<Seq<Rat>>, b: Seq<Seq<Rat>>)
    requires
        mat_wf(a),
        mat_wf(b),
        a.len() == b.len(),
    ensures
        mm_chk(a, b) matches Some(w) ==> {
            &&& mat_wf(w)
            &&& w.len() == a.len()
            &&& forall|c: int, r: int|
                0 <= c < a.len() && 0 <= r < a.len() ==> rat_eq(
                    #[trigger] w[c][r],
                    mm_entry_v(a, b, c, r),
                )
        },
{
    if mm_chk(a, b) is Some {
        let w = mm_chk(a, b)->Some_0;
        assert forall|c: int, r: int|
            0 <= c < a.len() && 0 <= r < a.len() implies rat_eq(
            #[trigger] w[c][r],
            mm_entry_v(a, b, c, r),
        ) && rat_fits(w[c][r]) by {
            assert(seq_wf(row_v(a, r)));
            lemma_dot_chk_value(b[c], row_v(a, r), a.len());
        }
        assert(mat_wf(w));
    }
}

/// Dense square matrix of exact rational entries, stored by columns.
pub struct Matrix {
    cols: Vec<SpatialVec>,
}

impl View for Matrix {
    type V = Seq<Seq<Rat>>;

    closed spec fn view(&self) -> Seq<Seq<Rat>> {
        Seq::new(self.cols@.len(), |c: int| self.cols@[c]@)
    }
}

impl Matrix {
    /// Square with well-formed entries.
    pub open spec fn wf(self) -> bool {
        mat_wf(self@)
    }

    /// Wrap the given columns as a matrix; there must be as many columns as
    /// each column has entries.
    pub fn new(cols: Vec<SpatialVec>) -> (r: Matrix)
        requires
            forall|c: int|
                0 <= c < cols@.len() ==> (#[trigger] cols@[c]).wf() && cols@[c]@.len()
                    == cols@.len(),
        ensures
            r.wf(),
            r@.len() == cols@.len(),
            forall|c: int| 0 <= c < cols@.len() ==> r@[c] == (#[trigger] cols@[c])@,
    {
        Matrix { cols }
    }

    /// The side length.
    pub fn dim(&self) -> (n: usize)
        ensures
            n == self@.len(),
    {
        self.cols.len()
    }

    /// Column `c`.
    pub fn col(&self, c: usize) -> (r: &SpatialVec)
        requires
            c < self@.len(),
        ensures
            r@ == self@[c as int],
    {
        proof {
            assert(self.cols@[c as int]@ == self@[c as int]);
        }
        &self.cols[c]
    }

    /// The entry in column `c`, row `r`.
    pub fn entry(&self, c: usize, r: usize) -> (x: Rational)
        requires
            self.wf(),
            c < self@.len(),
            r < self@.len(),
        ensures
            x.wf(),
            x@ == self@[c as int][r as int],
    {
        proof {
            assert(self.cols@[c as int]@ == self@[c as int]);
        }
        self.cols[c].get(r)
    }

    /// An independent copy with the same entries.
    pub fn copied(&self) -> (r: Matrix)
        ensures
            r@ == self@,
    {
        let n = self.cols.len();
        let mut out: Vec<SpatialVec> = Vec::new();
        let mut i: usize = 0;
        while i < n
            invariant
                n == self.cols@.len(),
                i <= n,
                out@.len() == i,
                forall|j: int| 0 <= j < i ==> (#[trigger] out@[j])@ == self.cols@[j]@,
            decreases n - i,
        {
            out.push(self.cols[i].copied());
            i += 1;
        }
        let r = Matrix { cols: out };
        proof {
            assert forall|c: int| 0 <= c < n implies r@[c] == self@[c] by {}
            assert(r@ =~= self@);
        }
        r
    }

    /// The identity matrix of side `n`.
    pub fn identity(n: usize) -> (r: Matrix)
        ensures
            r.wf(),
            r@ == identity_v(n as nat),
    {
        let mut cols: Vec<SpatialVec> = Vec::new();
        let mut c: usize = 0;
        while c < n
            invariant
                c <= n,
                cols@.len() == c,
                forall|j: int|
                    0 <= j < c ==> (#[trigger] cols@[j]).wf() && cols@[j]@ =~= identity_v(
                        n as nat,
                    )[j],
            decreases n - c,
        {
            let mut data: Vec<Rational> = Vec::new();
            let mut r: usize = 0;
            while r < n
                invariant
                    r <= n,
                    c < n,
                    data@.len() == r,
                    forall|i: int|
                        0 <= i < r ==> (#[trigger] data@[i]).wf() && data@[i]@ == (if i == c {
                            rat_one()
                        } else {
                            rat_zero()
                        }),
                decreases n - r,
            {
                if r == c {
                    data.push(Rational::one());
                } else {
                    data.push(Rational::zero());
                }
                r += 1;
            }
            let col = SpatialVec::new(data);
            proof {
                let target = identity_v(n as nat)[c as int];
                assert forall|i: int| 0 <= i < n implies col@[i] == target[i] by {
                    assert(col@[i] == data@[i]@);
                }
                assert(col@ =~= target);
            }
            cols.push(col);
            c += 1;
        }
        let m = Matrix { cols };
        proof {
            assert(m@ =~~= identity_v(n as nat));
        }
        m
    }

    /// The transpose; exact, never fails.
    pub fn transpose(&self) -> (r: Matrix)
        requires
            self.wf(),
        ensures
            r.wf(),
            r@ == transpose_v(self@),
    {
        let n = self.cols.len();
        let mut cols: Vec<SpatialVec> = Vec::new();
        let mut c: usize = 0;
        while c < n
            invariant
                self.wf(),
                n == self@.len(),
                c <= n,
                cols@.len() == c,
                forall|j: int|
                    0 <= j < c ==> (#[trigger] cols@[j]).wf() && cols@[j]@ =~= transpose_v(
                        self@,
                    )[j],
            decreases n - c,
        {
            let mut data: Vec<Rational> = Vec::new();
            let mut r: usize = 0;
            while r < n
                invariant
                    self.wf(),
                    n == self@.len(),
                    c < n,
                    r <= n,
                    data@.len() == r,
                    forall|i: int|
                        0 <= i < r ==> (#[trigger] data@[i]).wf() && data@[i]@ == self@[i][c as int],
                decreases n - r,
            {
                data.push(self.entry(r, c));
                r += 1;
            }
            let col = SpatialVec::new(data);
            proof {
                let target = transpose_v(self@)[c as int];
                assert forall|i: int| 0 <= i < n implies col@[i] == target[i] by {
                    assert(col@[i] == data@[i]@);
                }
                assert(col@ =~= target);
            }
            cols.push(col);
            c += 1;
        }
        let m = Matrix { cols };
        proof {
            assert(m@ =~~= transpose_v(self@));
        }
        m
    }

    /// Row `r`, gathered as a vector.
    pub fn row(&self, r: usize) -> (w: SpatialVec)
        requires
            self.wf(),
            r < self@.len(),
        ensures
            w.wf(),
            w@ == row_v(self@, r as int),
    {
        let n = self.cols.len();
        let mut data: Vec<Rational> = Vec::new();
        let mut i: usize = 0;
        while i < n
            invariant
                self.wf(),
                n == self@.len(),
                r < n,
                i <= n,
                data@.len() == i,
                forall|j: int|
                    0 <= j < i ==> (#[trigger] data@[j]).wf() && data@[j]@ == self@[j][r as int],
            decreases n - i,
        {
            data.push(self.entry(i, r));
            i += 1;
        }
        let w = SpatialVec::new(data);
        proof {
            assert forall|j: int| 0 <= j < n implies w@[j] == row_v(self@, r as int)[j] by {
                assert(w@[j] == data@[j]@);
            }
            assert(w@ =~= row_v(self@, r as int));
        }
        w
    }

    /// The standard matrix product `self * other`, with entry at column
    /// `c`, row `r` equal to `sum over k of self[k][r] * other[c][k]`;
    /// `None` when one entry's accumulation leaves the word range.
    pub fn mul(&self, other: &Matrix) -> (r: Option<Matrix>)
        requires
            self.wf(),
            other.wf(),
            self@.len() == other@.len(),
        ensures
            mat_opt_view(r) == mm_chk(self@, other@),
            r matches Some(w) ==> {
                &&& w.wf()
                &&& w@.len() == self@.len()
                &&& forall|c: int, j: int|
                    0 <= c < self@.len() && 0 <= j < self@.len() ==> rat_eq(
                        #[trigger] w@[c][j],
                        mm_entry_v(self@, other@, c, j),
                    )
            },
    {
        proof {
            lemma_mm_chk_value(self@, other@);
        }
        let n = self.cols.len();
        let mut cols: Vec<SpatialVec> = Vec::new();
        let mut c: usize = 0;
        while c < n
            invariant
                self.wf(),
                other.wf(),
                n == self@.len() == other@.len(),
                c <= n,
                cols@.len() == c,
                forall|a: int, j: int|
                    0 <= a < c && 0 <= j < n ==> Some(#[trigger] cols@[a]@[j]) == dot_chk(
                        other@[a],
                        row_v(self@, j),
                        n as nat,
                    ),
                forall|a: int| 0 <= a < c ==> (#[trigger] cols@[a]).wf() && cols@[a]@.len() == n,
            decreases n - c,
        {
            let mut data: Vec<Rational> = Vec::new();
            let mut j: usize = 0;
            while j < n
                invariant
                    self.wf(),
                    other.wf(),
                    n == self@.len() == other@.len(),
                    c < n,
                    j <= n,
                    data@.len() == j,
                    forall|i: int|
                        0 <= i < j ==> Some((#[trigger] data@[i])@) == dot_chk(
                            other@[c as int],
                            row_v(self@, i),
                            n as nat,
                        ),
                    forall|i: int| 0 <= i < j ==> (#[trigger] data@[i]).wf(),
                decreases n - j,
            {
                let rowj = self.row(j);
                proof {
                    assert(other.cols@[c as int]@ == other@[c as int]);
                    assert(rowj@ == row_v(self@, j as int));
                }
                match other.cols[c].dot(&rowj) {
                    Some(x) => {
                        data.push(x);
                    },
                    None => {
                        proof {
                            assert(dot_chk(other@[c as int], row_v(self@, j as int), n as nat)
                                is None);
                            assert(!mm_ok(self@, other@));
                        }
                        return None;
                    },
                }
                j += 1;
            }
            let col = SpatialVec::new(data);
            proof {
                assert forall|j0: int| 0 <= j0 < n implies Some(#[trigger] col@[j0]) == dot_chk(
                    other@[c as int],
                    row_v(self@, j0),
                    n as nat,
                ) by {
                    assert(col@[j0] == data@[j0]@);
                }
            }
            cols.push(col);
            c += 1;
        }
        let m = Matrix { cols };
        proof {
            assert forall|a: int, j: int|
                0 <= a < n && 0 <= j < n implies #[trigger] dot_chk(
                other@[a],
                row_v(self@, j),
                n as nat,
            ) is Some by {
                assert(Some(m@[a][j]) == dot_chk(other@[a], row_v(self@, j), n as nat));
            }
            assert(mm_ok(self@, other@));
            assert forall|a: int| 0 <= a < n implies m@[a] =~= mm_rep(self@, other@)[a] by {
                assert forall|j: int| 0 <= j < n implies m@[a][j] == mm_rep(self@, other@)[a][j] by {
                    assert(Some(m@[a][j]) == dot_chk(other@[a], row_v(self@, j), n as nat));
                }
            }
            assert(m@ =~~= mm_rep(self@, other@));
        }
        Some(m)
    }

    /// The matrix-vector product `self * v`, with entries
    /// `sum over i of v[i] * self[i][r]`; `None` when one entry's
    /// accumulation leaves the word range.
    pub fn mul_vec(&self, v: &SpatialVec) -> (r: Option<SpatialVec>)
        requires
            self.wf(),
            v.wf(),
            self@.len() == v@.len(),
        ensures
            r matches Some(w) ==> {
                &&& w.wf()
                &&& w@.len() == self@.len()
                &&& forall|j: int|
                    0 <= j < self@.len() ==> Some(#[trigger] w@[j]) == dot_chk(
                        v@,
                        row_v(self@, j),
                        self@.len(),
                    )
                &&& forall|j: int|
                    0 <= j < self@.len() ==> rat_eq(
                        #[trigger] w@[j],
                        dot_v(v@, row_v(self@, j)),
                    )
            },
            r is None <==> exists|j: int|
                0 <= j < self@.len() && #[trigger] dot_chk(v@, row_v(self@, j), self@.len())
                    is None,
            vec_opt_view(r) == matvec_chk(self@, v@),
    {
        let n = self.cols.len();
        let mut data: Vec<Rational> = Vec::new();
        let mut j: usize = 0;
        while j < n
            invariant
                self.wf(),
                v.wf(),
                n == self@.len() == v@.len(),
                j <= n,
                data@.len() == j,
                forall|i: int|
                    0 <= i < j ==> Some((#[trigger] data@[i])@) == dot_chk(
                        v@,
                        row_v(self@, i),
                        n as nat,
                    ),
                forall|i: int| 0 <= i < j ==> (#[trigger] data@[i]).wf(),
            decreases n - j,
        {
            let rowj = self.row(j);
            match v.dot(&rowj) {
                Some(x) => {
                    data.push(x);
                },
                None => {
                    return None;
                },
            }
            j += 1;
        }
        proof {
            assert forall|i: int| 0 <= i < n implies #[trigger] dot_chk(
                v@,
                row_v(self@, i),
                n as nat,
            ) is Some by {
                assert(Some(data@[i]@) == dot_chk(v@, row_v(self@, i), n as nat));
            }
            assert forall|i: int| 0 <= i < n implies rat_eq(
                data@[i]@,
                dot_v(v@, row_v(self@, i)),
            ) by {
                assert(seq_wf(row_v(self@, i)));
                lemma_dot_chk_value(v@, row_v(self@, i), n as nat);
                assert(Some(data@[i]@) == dot_chk(v@, row_v(self@, i), n as nat));
            }
        }
        let w = SpatialVec::new(data);
        proof {
            assert forall|i: int| 0 <= i < n implies w@[i] == matvec_chk(self@, v@)->Some_0[i] by {
                assert(w@[i] == data@[i]@);
                assert(Some(data@[i]@) == dot_chk(v@, row_v(self@, i), n as nat));
            }
            assert(w@ =~= matvec_chk(self@, v@)->Some_0);
        }
        Some(w)
    }

    /// Elementwise sum; `None` when one reduced entry leaves the word range.
    pub fn madd(&self, other: &Matrix) -> (r: Option<Matrix>)
        requires
            self.wf(),
            other.wf(),
            self@.len() == other@.len(),
        ensures
            r matches Some(w) ==> {
                &&& w.wf()
                &&& w@.len() == self@.len()
                &&& forall|c: int, j: int|
                    0 <= c < self@.len() && 0 <= j < self@.len() ==> Some(#[trigger] w@[c][j])
                        == rat_add_chk(self@[c][j], other@[c][j])
                &&& forall|c: int, j: int|
                    0 <= c < self@.len() && 0 <= j < self@.len() ==> rat_eq(
                        #[trigger] w@[c][j],
                        rat_add_v(self@[c][j], other@[c][j]),
                    )
            },
            r is None <==> exists|c: int, j: int|
                0 <= c < self@.len() && 0 <= j < self@.len() && #[trigger] rat_add_chk(
                    self@[c][j],
                    other@[c][j],
                ) is None,
    {
        let n = self.cols.len();
        let mut cols: Vec<SpatialVec> = Vec::new();
        let mut c: usize = 0;
        while c < n
            invariant
                self.wf(),
                other.wf(),
                n == self@.len() == other@.len(),
                c <= n,
                cols@.len() == c,
                forall|a: int|
                    0 <= a < c ==> (#[trigger] cols@[a]).wf() && seq_rat_eq(
                        cols@[a]@,
                        vadd_v(self@[a], other@[a]),
                    ) && (forall|j: int|
                        0 <= j < n ==> Some(#[trigger] cols@[a]@[j]) == rat_add_chk(
                            self@[a][j],
                            other@[a][j],
                        )),
            decreases n - c,
        {
            proof {
                assert(self.cols@[c as int]@ == self@[c as int]);
                assert(other.cols@[c as int]@ == other@[c as int]);
            }
            match self.cols[c].add(&other.cols[c]) {
                Some(x) => {
                    cols.push(x);
                },
                None => {
                    proof {
                        let i = choose|i: int|
                            0 <= i < self@[c as int].len() && rat_add_chk(
                                #[trigger] self@[c as int][i],
                                other@[c as int][i],
                            ) is None;
                        assert(rat_add_chk(self@[c as int][i], other@[c as int][i]) is None);
                    }
                    return None;
                },
            }
            c += 1;
        }
        proof {
            assert forall|a: int, j: int|
                0 <= a < n && 0 <= j < n implies #[trigger] rat_add_chk(
                self@[a][j],
                other@[a][j],
            ) is Some by {
                assert(Some(cols@[a]@[j]) == rat_add_chk(self@[a][j], other@[a][j]));
            }
        }
        Some(Matrix { cols })
    }

    /// Elementwise difference; `None` when one reduced entry leaves the
    /// word range.
    pub fn msub(&self, other: &Matrix) -> (r: Option<Matrix>)
        requires
            self.wf(),
            other.wf(),
            self@.len() == other@.len(),
        ensures
            r matches Some(w) ==> {
                &&& w.wf()
                &&& w@.len() == self@.len()
                &&& forall|c: int, j: int|
                    0 <= c < self@.len() && 0 <= j < self@.len() ==> Some(#[trigger] w@[c][j])
                        == rat_sub_chk(self@[c][j], other@[c][j])
                &&& forall|c: int, j: int|
                    0 <= c < self@.len() && 0 <= j < self@.len() ==> rat_eq(
                        #[trigger] w@[c][j],
                        rat_sub_v(self@[c][j], other@[c][j]),
                    )
            },
            r is None <==> exists|c: int, j: int|
                0 <= c < self@.len() && 0 <= j < self@.len() && #[trigger] rat_sub_chk(
                    self@[c][j],
                    other@[c][j],
                ) is None,
    {
        let n = self.cols.len();
        let mut cols: Vec<SpatialVec> = Vec::new();
        let mut c: usize = 0;
        while c < n
            invariant
                self.wf(),
                other.wf(),
                n == self@.len() == other@.len(),
                c <= n,
                cols@.len() == c,
                forall|a: int|
                    0 <= a < c ==> (#[trigger] cols@[a]).wf() && cols@[a]@.len() == n && seq_rat_eq(
                        cols@[a]@,
                        vsub_v(self@[a], other@[a]),
                    ) && (forall|j: int|
                        0 <= j < n ==> Some(#[trigger] cols@[a]@[j]) == rat_sub_chk(
                            self@[a][j],
                            other@[a][j],
                        )),
            decreases n - c,
        {
            proof {
                assert(self.cols@[c as int]@ == self@[c as int]);
                assert(other.cols@[c as int]@ == other@[c as int]);
            }
            match self.cols[c].sub(&other.cols[c]) {
                Some(x) => {
                    cols.push(x);
                },
                None => {
                    proof {
                        let i = choose|i: int|
                            0 <= i < self@[c as int].len() && rat_sub_chk(
                                #[trigger] self@[c as int][i],
                                other@[c as int][i],
                            ) is None;
                        assert(rat_sub_chk(self@[c as int][i], other@[c as int][i]) is None);
                    }
                    return None;
                },
            }
            c += 1;
        }
        proof {
            assert forall|a: int, j: int|
                0 <= a < n && 0 <= j < n implies #[trigger] rat_sub_chk(
                self@[a][j],
                other@[a][j],
            ) is Some by {
                assert(Some(cols@[a]@[j]) == rat_sub_chk(self@[a][j], other@[a][j]));
            }
        }
        Some(Matrix { cols })
    }

    /// Exact elementwise value equality of two equally sized matrices.
    pub fn eq_value(&self, other: &Matrix) -> (r: bool)
        requires
            self.wf(),
            other.wf(),
        ensures
            r == mat_rat_eq(self@, other@),
    {
        let n = self.cols.len();
        if n != other.cols.len() {
            return false;
        }
        let mut c: usize = 0;
        while c < n
            invariant
                self.wf(),
                other.wf(),
                n == self@.len() == other@.len(),
                c <= n,
                forall|a: int| 0 <= a < c ==> seq_rat_eq(#[trigger] self@[a], #[trigger] other@[a]),
            decreases n - c,
        {
            let mut j: usize = 0;
            while j < n
                invariant
                    self.wf(),
                    other.wf(),
                    n == self@.len() == other@.len(),
                    c < n,
                    j <= n,
                    forall|i: int|
                        0 <= i < j ==> rat_eq(
                            #[trigger] self@[c as int][i],
                            other@[c as int][i],
                        ),
                decreases n - j,
            {
                let x = self.entry(c, j);
                let y = other.entry(c, j);
                if !x.eq_value(&y) {
                    proof {
                        assert(!rat_eq(self@[c as int][j as int], other@[c as int][j as int]));
                        assert(!seq_rat_eq(self@[c as int], other@[c as int]));
                    }
                    return false;
                }
                j += 1;
            }
            proof {
                assert(seq_rat_eq(self@[c as int], other@[c as int]));
            }
            c += 1;
        }
        true
    }

    /// The scalar multiple `x * self`; `None` when one reduced entry leaves
    /// the word range.
    pub fn mscale(&self, x: &Rational) -> (r: Option<Matrix>)
        requires
            self.wf(),
            x.wf(),
        ensures
            r matches Some(w) ==> {
                &&& w.wf()
                &&& w@.len() == self@.len()
                &&& forall|c: int, j: int|
                    0 <= c < self@.len() && 0 <= j < self@.len() ==> Some(#[trigger] w@[c][j])
                        == rat_mul_chk(x@, self@[c][j])
                &&& forall|c: int|
                    0 <= c < self@.len() ==> seq_rat_eq(
                        #[trigger] w@[c],
                        vscale_v(x@, self@[c]),
                    )
            },
            r is None <==> exists|c: int, j: int|
                0 <= c < self@.len() && 0 <= j < self@.len() && #[trigger] rat_mul_chk(
                    x@,
                    self@[c][j],
                ) is None,
    {
        let n = self.cols.len();
        let mut cols: Vec<SpatialVec> = Vec::new();
        let mut c: usize = 0;
        while c < n
            invariant
                self.wf(),
                x.wf(),
                n == self@.len(),
                c <= n,
                cols@.len() == c,
                forall|a: int|
                    0 <= a < c ==> (#[trigger] cols@[a]).wf() && cols@[a]@.len() == n
                        && seq_rat_eq(cols@[a]@, vscale_v(x@, self@[a])) && (forall|j: int|
                        0 <= j < n ==> Some(#[trigger] cols@[a]@[j]) == rat_mul_chk(
                            x@,
                            self@[a][j],
                        )),
            decreases n - c,
        {
            proof {
                assert(self.cols@[c as int]@ == self@[c as int]);
            }
            match self.cols[c].scale(x) {
                Some(w) => {
                    cols.push(w);
                },
                None => {
                    proof {
                        let i = choose|i: int|
                            0 <= i < self@[c as int].len() && rat_mul_chk(
                                x@,
                                #[trigger] self@[c as int][i],
                            ) is None;
                        assert(rat_mul_chk(x@, self@[c as int][i]) is None);
                    }
                    return None;
                },
            }
            c += 1;
        }
        proof {
            assert forall|a: int, j: int|
                0 <= a < n && 0 <= j < n implies #[trigger] rat_mul_chk(
                x@,
                self@[a][j],
            ) is Some by {
                assert(Some(cols@[a]@[j]) == rat_mul_chk(x@, self@[a][j]));
            }
        }
        Some(Matrix { cols })
    }

    /// The `n`-th power by binary exponentiation; the zeroth power is the
    /// identity.  `None` when an intermediate product leaves the word range.
    pub fn pow(&self, n: u32) -> (r: Option<Matrix>)
        requires
            self.wf(),
        ensures
            mat_opt_view(r) == pow_chk(identity_v(self@.len()), self@, n as nat),
            n == 0 ==> (r matches Some(w) && w@ == identity_v(self@.len())),
            r matches Some(w) ==> w.wf() && w@.len() == self@.len(),
    {
        let dim = self.cols.len();
        let mut out = Matrix::identity(dim);
        let mut base = self.copied();
        let mut k = n;
        proof {
            assert(out.wf() && out@.len() == dim);
        }
        while k > 0
            invariant
                out.wf(),
                base.wf(),
                out@.len() == dim == base@.len(),
                dim == self@.len(),
                pow_chk(out@, base@, k as nat) == pow_chk(
                    identity_v(self@.len()),
                    self@,
                    n as nat,
                ),
            decreases k,
        {
            if k % 2 == 1 {
                match out.mul(&base) {
                    Some(w) => {
                        out = w;
                    },
                    None => {
                        return None;
                    },
                }
            }
            match base.mul(&base) {
                Some(w) => {
                    proof {
                        assert(pow_chk(out@, w@, (k / 2) as nat) == pow_chk(
                            identity_v(self@.len()),
                            self@,
                            n as nat,
                        ));
                    }
                    base = w;
                },
                None => {
                    return None;
                },
            }
            k = k / 2;
        }
        Some(out)
    }

    /// Whether the matrix equals its transpose: an exact elementwise
    /// comparison of each above-diagonal entry with its mirror, stopping at
    /// the first asymmetry.
    pub fn is_symmetric(&self) -> (r: bool)
        requires
            self.wf(),
        ensures
            r == sym_v(self@),
    {
        let n = self.cols.len();
        let mut i: usize = 0;
        while i < n
            invariant
                self.wf(),
                n == self@.len(),
                i <= n,
                forall|a: int, b: int|
                    0 <= a < i && a < b < n ==> rat_eq(#[trigger] self@[a][b], self@[b][a]),
            decreases n - i,
        {
            let mut j: usize = i + 1;
            while j < n
                invariant
                    self.wf(),
                    n == self@.len(),
                    i < n,
                    i < j <= n,
                    forall|a: int, b: int|
                        0 <= a < i && a < b < n ==> rat_eq(#[trigger] self@[a][b], self@[b][a]),
                    forall|b: int|
                        i < b < j ==> rat_eq(#[trigger] self@[i as int][b], self@[b][i as int]),
                decreases n - j,
            {
                let x = self.entry(i, j);
                let y = self.entry(j, i);
                if !x.eq_value(&y) {
                    proof {
                        assert(!rat_eq(self@[i as int][j as int], self@[j as int][i as int]));
                    }
                    return false;
                }
                j += 1;
            }
            i += 1;
        }
        proof {
            assert forall|a: int, b: int|
                0 <= a < n && 0 <= b < n implies rat_eq(
                #[trigger] self@[a][b],
                #[trigger] self@[b][a],
            ) by {
                if a < b {
                } else if b < a {
                } else {
                }
            }
        }
        true
    }
}

/// One entry of the tridiagonal blur operator with off-diagonal weight `l`:
/// `1 - 2 l` on the diagonal, `l` on the two neighbouring diagonals, zero
/// elsewhere.
pub open spec fn blur_entry_v(l: Rat, c: int, j: int) -> Rat {
    if c == j {
        rat_sub_v(rat_one(), rat_mul_v(con_two(), l))
    } else if c == j + 1 || j == c + 1 {
        l
    } else {
        rat_zero()
    }
}

/// The constant two as a fraction.
pub open spec fn con_two() -> Rat {
    Rat { n: 2, d: 1 }
}

/// Whether the blur operator's two derived scalars, `2 l` and `1 - 2 l`,
/// stay within the word range.
pub open spec fn blur_scalars_ok(l: Rat) -> bool {
    match rat_mul_chk(con_two(), l) {
        None => false,
        Some(twol) => rat_sub_chk(rat_one(), twol) is Some,
    }
}

/// Builds the tridiagonal blur operator of side `n` with off-diagonal
/// weight `l`; `None` exactly when the diagonal entry's reduced form leaves
/// the word range.
pub fn gen_matrix(l: &Rational, n: usize) -> (r: Option<Matrix>)
    requires
        l.wf(),
    ensures
        (r is Some) == blur_scalars_ok(l@),
        r matches Some(m) ==> {
            &&& m.wf()
            &&& m@.len() == n
            &&& forall|c: int, j: int|
                0 <= c < n && 0 <= j < n ==> rat_eq(#[trigger] m@[c][j], blur_entry_v(l@, c, j))
        },
{
    let two = Rational::from_int(2);
    let twol = match two.mul(l) {
        Some(v) => v,
        None => {
            return None;
        },
    };
    let one = Rational::one();
    let diag = match one.sub(&twol) {
        Some(v) => v,
        None => {
            return None;
        },
    };
    proof {
        lemma_sub_chain(diag@, one@, twol@, rat_one(), rat_mul_v(con_two(), l@));
    }
    let zero = Rational::zero();
    let mut cols: Vec<SpatialVec> = Vec::new();
    let mut c: usize = 0;
    while c < n
        invariant
            l.wf(),
            diag.wf(),
            rat_eq(diag@, rat_sub_v(rat_one(), rat_mul_v(con_two(), l@))),
            zero@ == rat_zero(),
            zero.wf(),
            c <= n,
            cols@.len() == c,
            forall|a: int|
                0 <= a < c ==> (#[trigger] cols@[a]).wf() && cols@[a]@.len() == n && (forall|
                    j: int,
                |
                    0 <= j < n ==> rat_eq(#[trigger] cols@[a]@[j], blur_entry_v(l@, a, j))),
        decreases n - c,
    {
        let mut data: Vec<Rational> = Vec::new();
        let mut j: usize = 0;
        while j < n
            invariant
                l.wf(),
                diag.wf(),
                rat_eq(diag@, rat_sub_v(rat_one(), rat_mul_v(con_two(), l@))),
                zero@ == rat_zero(),
                zero.wf(),
                c < n,
                j <= n,
                data@.len() == j,
                forall|i: int|
                    0 <= i < j ==> (#[trigger] data@[i]).wf() && rat_eq(
                        data@[i]@,
                        blur_entry_v(l@, c as int, i),
                    ),
            decreases n - j,
        {
            if j == c {
                data.push(diag);
            } else if j + 1 == c || c + 1 == j {
                data.push(*l);
            } else {
                data.push(zero);
            }
            j += 1;
        }
        let col = SpatialVec::new(data);
        proof {
            assert forall|i: int| 0 <= i < n implies rat_eq(
                #[trigger] col@[i],
                blur_entry_v(l@, c as int, i),
            ) by {
                assert(col@[i] == data@[i]@);
            }
        }
        cols.push(col);
        c += 1;
    }
    let m = Matrix { cols };
    Some(m)
}

/// The identity matrix is well-formed.
pub proof fn lemma_identity_wf(n: nat)
    ensures
        mat_wf(identity_v(n)),
{
    assert forall|c: int| 0 <= c < n implies (#[trigger] identity_v(n)[c]).len() == n && seq_wf(
        identity_v(n)[c],
    ) by {
        assert forall|r: int| 0 <= r < n implies rat_fits(#[trigger] identity_v(n)[c][r]) by {}
    }
}

/// The dot product of any sequence with a unit basis sequence picks out one
/// coordinate: over the first `k` coordinates it is `w[c]` once `c` has been
/// passed, and zero before that.
proof fn lemma_unit_dot_prefix(w: Seq<Rat>, e: Seq<Rat>, c: int, k: nat)
    requires
        seq_wf(w),
        k <= e.len(),
        k <= w.len(),
        0 <= c < e.len(),
        forall|i: int|
            0 <= i < e.len() ==> #[trigger] e[i] == (if i == c {
                rat_one()
            } else {
                rat_zero()
            }),
    ensures
        rat_wf(dot_prefix_v(w, e, k)),
        c < k ==> rat_eq(dot_prefix_v(w, e, k), w[c]),
        c >= k ==> rat_eq(dot_prefix_v(w, e, k), rat_zero()),
    decreases k,
{
    if k == 0 {
    } else {
        lemma_unit_dot_prefix(w, e, c, (k - 1) as nat);
        let p = dot_prefix_v(w, e, (k - 1) as nat);
        let m = rat_mul_v(w[k - 1], e[k - 1]);
        let s = rat_add_v(p, m);
        assert(m.d > 0 && s.d > 0) by (nonlinear_arith)
            requires
                e[k - 1].d > 0,
                w[k - 1].d > 0,
                p.d > 0,
                m.d == w[k - 1].d * e[k - 1].d,
                s.d == p.d * m.d,
        ;
        if k - 1 == c {
            crate::rational::lemma_mul_one_right(w[k - 1], e[k - 1]);
            lemma_add_zero_left(p, m);
            lemma_rat_eq_trans(s, m, w[c]);
        } else {
            crate::rational::lemma_mul_zero_right(w[k - 1], e[k - 1]);
            lemma_add_zero_right(p, m);
            if c < k - 1 {
                lemma_rat_eq_trans(s, p, w[c]);
            } else {
                lemma_rat_eq_trans(s, p, rat_zero());
            }
        }
    }
}

/// The identity matrix is a left unit for multiplication: `identity * m`
/// has the same fraction values as `m`, entry by entry.
pub proof fn lemma_identity_mul(m: Seq<Seq<Rat>>)
    requires
        mat_wf(m),
    ensures
        mat_rat_eq(mm_v(identity_v(m.len()), m), m),
{
    let n = m.len();
    let idm = identity_v(n);
    let prod = mm_v(idm, m);
    assert forall|c: int| 0 <= c < n implies seq_rat_eq(#[trigger] prod[c], #[trigger] m[c]) by {
        assert forall|r: int| 0 <= r < n implies rat_eq(#[trigger] prod[c][r], m[c][r]) by {
            let w = m[c];
            let e = row_v(idm, r);
            assert(seq_wf(w));
            assert forall|i: int|
                0 <= i < e.len() implies #[trigger] e[i] == (if i == r {
                rat_one()
            } else {
                rat_zero()
            }) by {
                assert(e[i] == idm[i][r]);
            }
            lemma_unit_dot_prefix(w, e, r, n);
            assert(w[r] == m[c][r]);
        }
    }
}

/// The zeroth power is the identity.
pub proof fn lemma_pow_zero(m: Seq<Seq<Rat>>)
    ensures
        pow_chk(identity_v(m.len()), m, 0) == Some(identity_v(m.len())),
{
}

/// When the squaring succeeds, the second power has the same fraction values
/// as the plain product `m * m`.
pub proof fn lemma_pow_two(m: Seq<Seq<Rat>>)
    requires
        mat_wf(m),
    ensures
        pow_chk(identity_v(m.len()), m, 2) matches Some(p) ==> mat_rat_eq(p, mm_v(m, m)),
{
    let n = m.len();
    let idm = identity_v(n);
    lemma_identity_wf(n);
    reveal_with_fuel(pow_chk, 3);
    if pow_chk(idm, m, 2) is Some {
        let p = pow_chk(idm, m, 2)->Some_0;
        let bb = mm_chk(m, m)->Some_0;
        lemma_mm_chk_value(m, m);
        lemma_mm_chk_value(idm, bb);
        lemma_identity_mul(bb);
        assert(p == mm_chk(idm, bb)->Some_0);
        let prod = mm_v(m, m);
        assert forall|c: int| 0 <= c < n implies seq_rat_eq(#[trigger] p[c], #[trigger] prod[c]) by {
            assert forall|r: int| 0 <= r < n implies rat_eq(#[trigger] p[c][r], prod[c][r]) by {
                assert(rat_eq(p[c][r], mm_entry_v(idm, bb, c, r)));
                assert(rat_eq(mm_entry_v(idm, bb, c, r), bb[c][r])) by {
                    assert(rat_eq(mm_v(idm, bb)[c][r], bb[c][r]));
                }
                assert(rat_eq(bb[c][r], mm_entry_v(m, m, c, r)));
                assert(seq_wf(row_v(idm, r))) by {
                    assert forall|i: int| 0 <= i < n implies rat_fits(
                        #[trigger] row_v(idm, r)[i],
                    ) by {
                        assert(row_v(idm, r)[i] == idm[i][r]);
                        assert(seq_wf(idm[i]));
                    }
                }
                lemma_dot_chk_value(bb[c], row_v(idm, r), n);
                lemma_rat_eq_trans(p[c][r], mm_entry_v(idm, bb, c, r), bb[c][r]);
                lemma_rat_eq_trans(p[c][r], bb[c][r], mm_entry_v(m, m, c, r));
                assert(prod[c][r] == mm_entry_v(m, m, c, r));
            }
        }
    }
}

/// Transposition is an involution on square matrices.
pub proof fn lemma_transpose_involutive(m: Seq<Seq<Rat>>)
    requires
        mat_wf(m),
    ensures
        transpose_v(transpose_v(m)) == m,
{
    let t = transpose_v(m);
    let tt = transpose_v(t);
    assert forall|c: int| 0 <= c < m.len() implies #[trigger] tt[c] =~= m[c] by {
        assert(m[c].len() == m.len());
        assert forall|r: int| 0 <= r < m.len() implies #[trigger] tt[c][r] == m[c][r] by {
            assert(tt[c][r] == t[r][c]);
            assert(t[r][c] == m[c][r]);
        }
    }
    assert(tt =~~= m);
}

} // verus!
