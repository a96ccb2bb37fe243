//! Exact rational scalars.
//!
//! Every numeric quantity of the toolkit is a fraction of two machine
//! integers, kept reduced by a greatest-common-divisor pass after each
//! operation.  Arithmetic is exact: an operation either returns the
//! mathematically correct fraction or reports that its reduced form does not
//! fit the machine word, never a rounded value.

use vstd::arithmetic::div_mod::{
    lemma_fundamental_div_mod, lemma_fundamental_div_mod_converse, lemma_mod_multiples_basic,
    lemma_mod_self_0, lemma_small_mod,
};
use vstd::math::abs;
use vstd::prelude::*;

verus! {

/// Mathematical model of one rational scalar: the fraction `n / d`.
pub struct Rat {
    pub n: int,
    pub d: int,
}

/// A well-formed fraction keeps its denominator positive.
pub open spec fn rat_wf(a: Rat) -> bool {
    a.d > 0
}

/// Value equality of two fractions, by cross multiplication.
pub open spec fn rat_eq(a: Rat, b: Rat) -> bool {
    a.n * b.d == b.n * a.d
}

/// `a <= b` as fraction values; meaningful when both denominators are positive.
pub open spec fn rat_le(a: Rat, b: Rat) -> bool {
    a.n * b.d <= b.n * a.d
}

/// `a < b` as fraction values; meaningful when both denominators are positive.
pub open spec fn rat_lt(a: Rat, b: Rat) -> bool {
    a.n * b.d < b.n * a.d
}

pub open spec fn rat_zero() -> Rat {
    Rat { n: 0, d: 1 }
}

pub open spec fn rat_one() -> Rat {
    Rat { n: 1, d: 1 }
}

/// A well-formed fraction is the value zero exactly when its numerator is zero.
pub open spec fn rat_is_zero(a: Rat) -> bool {
    a.n == 0
}

pub open spec fn rat_add_v(a: Rat, b: Rat) -> Rat {
    Rat { n: a.n * b.d + b.n * a.d, d: a.d * b.d }
}

pub open spec fn rat_sub_v(a: Rat, b: Rat) -> Rat {
    Rat { n: a.n * b.d - b.n * a.d, d: a.d * b.d }
}

pub open spec fn rat_mul_v(a: Rat, b: Rat) -> Rat {
    Rat { n: a.n * b.n, d: a.d * b.d }
}

pub open spec fn rat_neg_v(a: Rat) -> Rat {
    Rat { n: -a.n, d: a.d }
}

/// The quotient `a / b`, with the sign moved into the numerator so that the
/// result is well-formed whenever `b` is a nonzero well-formed fraction.
pub open spec fn rat_div_v(a: Rat, b: Rat) -> Rat {
    if b.n >= 0 {
        Rat { n: a.n * b.d, d: a.d * b.n }
    } else {
        Rat { n: -(a.n * b.d), d: -(a.d * b.n) }
    }
}

/// Greatest common divisor by the Euclidean recurrence.
pub open spec fn gcd_nat(a: nat, b: nat) -> nat
    decreases b,
{
    if b == 0 {
        a
    } else {
        gcd_nat(b, a % b)
    }
}

/// The reduced representative of the fraction `n / d`: sign on the numerator,
/// both components divided by their greatest common divisor.
pub open spec fn red(n: int, d: int) -> Rat {
    let s: int = if d < 0 {
        -1
    } else {
        1
    };
    let g = gcd_nat(abs(n), abs(d)) as int;
    Rat { n: (s * n) / g, d: (s * d) / g }
}

/// Whether a fraction's components fit the `i64` word used by the executable
/// representation.  `i64::MIN` is left out so that negation is always exact.
pub open spec fn rat_fits(a: Rat) -> bool {
    &&& -(i64::MAX as int) <= a.n <= i64::MAX as int
    &&& 1 <= a.d <= i64::MAX as int
}

/// The reduced form of `n / d` when it fits the machine word, `None` otherwise.
pub open spec fn red_chk(n: int, d: int) -> Option<Rat> {
    if rat_fits(red(n, d)) {
        Some(red(n, d))
    } else {
        None
    }
}

pub open spec fn rat_add_chk(a: Rat, b: Rat) -> Option<Rat> {
    red_chk(rat_add_v(a, b).n, rat_add_v(a, b).d)
}

pub open spec fn rat_sub_chk(a: Rat, b: Rat) -> Option<Rat> {
    red_chk(rat_sub_v(a, b).n, rat_sub_v(a, b).d)
}

pub open spec fn rat_mul_chk(a: Rat, b: Rat) -> Option<Rat> {
    red_chk(rat_mul_v(a, b).n, rat_mul_v(a, b).d)
}

pub open spec fn rat_div_chk(a: Rat, b: Rat) -> Option<Rat> {
    red_chk(a.n * b.d, a.d * b.n)
}

/// Both gcd arguments are divisible by the gcd, which is positive when either
/// argument is.
pub proof fn lemma_gcd_divides(a: nat, b: nat)
    requires
        a > 0 || b > 0,
    ensures
        ({
            let g = gcd_nat(a, b) as int;
            &&& g >= 1
            &&& a as int % g == 0
            &&& b as int % g == 0
        }),
    decreases b,
{
    let g = gcd_nat(a, b) as int;
    if b == 0 {
        lemma_mod_self_0(a as int);
        lemma_small_mod(0, a);
    } else {
        lemma_gcd_divides(b, a % b);
        let q = a as int / b as int;
        let m = (a % b) as int;
        lemma_fundamental_div_mod(a as int, b as int);
        let qb = b as int / g;
        let qm = m / g;
        lemma_fundamental_div_mod(b as int, g);
        lemma_fundamental_div_mod(m, g);
        assert(a as int == (qb * q + qm) * g) by (nonlinear_arith)
            requires
                a as int == b as int * q + m,
                b as int == g * qb,
                m == g * qm,
        ;
        lemma_mod_multiples_basic(qb * q + qm, g);
    }
}

/// Exact division: when `g` divides nonnegative `x`, the quotient recovers `x`
/// and negation commutes with the division.
pub proof fn lemma_exact_div(x: int, g: int)
    requires
        g >= 1,
        x >= 0,
        x % g == 0,
    ensures
        x == g * (x / g),
        0 <= x / g <= x,
        (-x) / g == -(x / g),
        (-x) % g == 0,
{
    lemma_fundamental_div_mod(x, g);
    assert(0 <= x / g && x / g <= x) by (nonlinear_arith)
        requires
            g >= 1,
            x >= 0,
            x == g * (x / g),
    ;
    assert(-x == (-(x / g)) * g + 0) by (nonlinear_arith)
        requires
            x == g * (x / g),
    ;
    lemma_fundamental_div_mod_converse(-x, g, -(x / g), 0);
}

/// Reduction keeps the value: `red(n, d)` is well-formed and denotes the same
/// fraction as `n / d`, for any nonzero `d`.
pub proof fn lemma_red_value(n: int, d: int)
    requires
        d != 0,
    ensures
        red(n, d).d >= 1,
        rat_eq(red(n, d), Rat { n, d }),
        n == 0 ==> red(n, d).n == 0,
{
    let s: int = if d < 0 {
        -1
    } else {
        1
    };
    let na = abs(n);
    let da = abs(d);
    let g = gcd_nat(na, da) as int;
    lemma_gcd_divides(na, da);
    let r = red(n, d);
    let sn = s * n;
    let sd = s * d;
    assert(sn == if (n >= 0) == (d >= 0) {
        na as int
    } else {
        -(na as int)
    });
    assert(sd == da as int);
    lemma_exact_div(na as int, g);
    lemma_exact_div(da as int, g);
    assert(r.n == sn / g && r.d == sd / g);
    let q = na as int / g;
    assert(g * (-q) == -(g * q)) by (nonlinear_arith);
    assert(sn == g * r.n && sd == g * r.d);
    assert(r.d >= 1) by (nonlinear_arith)
        requires
            sd == g * r.d,
            sd >= 1,
            g >= 1,
    ;
    assert(r.n * d == n * r.d) by (nonlinear_arith)
        requires
            sn == g * r.n,
            sd == g * r.d,
            sn == s * n,
            sd == s * d,
            s * s == 1,
            g >= 1,
    ;
    if n == 0 {
        assert(r.n == 0) by (nonlinear_arith)
            requires
                sn == g * r.n,
                sn == 0,
                g >= 1,
        ;
    }
}

/// Product of two values bounded by `b` in magnitude is bounded by `b * b`.
proof fn lemma_prod_bound(x: int, y: int, b: int)
    by (nonlinear_arith)
    requires
        0 <= b,
        -b <= x <= b,
        -b <= y <= b,
    ensures
        -(b * b) <= x * y <= b * b,
{
}

/// Exact rational scalar: a fraction of two `i64` words, denominator positive.
#[derive(Clone, Copy, Debug)]
pub struct Rational {
    num: i64,
    den: i64,
}

impl View for Rational {
    type V = Rat;

    closed spec fn view(&self) -> Rat {
        Rat { n: self.num as int, d: self.den as int }
    }
}

pub open spec fn rat_opt_view(r: Option<Rational>) -> Option<Rat> {
    match r {
        Some(x) => Some(x@),
        None => None,
    }
}

impl Rational {
    /// Denominator positive and both components within the exactly
    /// representable range.
    pub open spec fn wf(self) -> bool {
        rat_fits(self@)
    }

    /// The integer `n` as a rational.
    pub fn from_int(n: i64) -> (r: Rational)
        requires
            -i64::MAX <= n,
        ensures
            r.wf(),
            r@ == (Rat { n: n as int, d: 1 }),
    {
        Rational { num: n, den: 1 }
    }

    /// The fraction `num / den`, stored in reduced form.
    pub fn new_frac(num: i64, den: i64) -> (r: Rational)
        requires
            -i64::MAX <= num,
            1 <= den,
        ensures
            r.wf(),
            r@ == red(num as int, den as int),
            rat_eq(r@, Rat { n: num as int, d: den as int }),
    {
        proof {
            lemma_red_value(num as int, den as int);
            lemma_gcd_divides(abs(num as int), abs(den as int));
            let g = gcd_nat(abs(num as int), abs(den as int)) as int;
            lemma_exact_div(abs(num as int) as int, g);
            lemma_exact_div(abs(den as int) as int, g);
        }
        let r = reduce_parts(num as i128, den as i128);
        match r {
            Some(x) => x,
            None => {
                proof {
                    assert(false);
                }
                Rational { num: 0, den: 1 }
            },
        }
    }

    pub fn zero() -> (r: Rational)
        ensures
            r.wf(),
            r@ == rat_zero(),
    {
        Rational { num: 0, den: 1 }
    }

    pub fn one() -> (r: Rational)
        ensures
            r.wf(),
            r@ == rat_one(),
    {
        Rational { num: 1, den: 1 }
    }

    /// Exact negation; never overflows because `i64::MIN` is excluded.
    pub fn neg(&self) -> (r: Rational)
        requires
            self.wf(),
        ensures
            r.wf(),
            r@ == rat_neg_v(self@),
    {
        Rational { num: -self.num, den: self.den }
    }

    /// Exact sum, reduced; `None` when the reduced sum leaves the word range.
    pub fn add(&self, other: &Rational) -> (r: Option<Rational>)
        requires
            self.wf(),
            other.wf(),
        ensures
            rat_opt_view(r) == rat_add_chk(self@, other@),
            r matches Some(x) ==> x.wf() && rat_eq(x@, rat_add_v(self@, other@)),
    {
        let b: i128 = i64::MAX as i128;
        proof {
            lemma_prod_bound(self.num as int, other.den as int, b as int);
            lemma_prod_bound(other.num as int, self.den as int, b as int);
            lemma_prod_bound(self.den as int, other.den as int, b as int);
        }
        let n: i128 = (self.num as i128) * (other.den as i128) + (other.num as i128) * (self.den
            as i128);
        let d: i128 = (self.den as i128) * (other.den as i128);
        proof {
            assert(d >= 1) by (nonlinear_arith)
                requires
                    self.den >= 1,
                    other.den >= 1,
                    d == self.den as int * other.den as int,
            ;
            lemma_red_value(n as int, d as int);
        }
        reduce_parts(n, d)
    }

    /// Exact difference, reduced; `None` when it leaves the word range.
    pub fn sub(&self, other: &Rational) -> (r: Option<Rational>)
        requires
            self.wf(),
            other.wf(),
        ensures
            rat_opt_view(r) == rat_sub_chk(self@, other@),
            r matches Some(x) ==> x.wf() && rat_eq(x@, rat_sub_v(self@, other@)),
    {
        let b: i128 = i64::MAX as i128;
        proof {
            lemma_prod_bound(self.num as int, other.den as int, b as int);
            lemma_prod_bound(other.num as int, self.den as int, b as int);
            lemma_prod_bound(self.den as int, other.den as int, b as int);
        }
        let n: i128 = (self.num as i128) * (other.den as i128) - (other.num as i128) * (self.den
            as i128);
        let d: i128 = (self.den as i128) * (other.den as i128);
        proof {
            assert(d >= 1) by (nonlinear_arith)
                requires
                    self.den >= 1,
                    other.den >= 1,
                    d == self.den as int * other.den as int,
            ;
            lemma_red_value(n as int, d as int);
        }
        reduce_parts(n, d)
    }

    /// Exact product, reduced; `None` when it leaves the word range.
    pub fn mul(&self, other: &Rational) -> (r: Option<Rational>)
        requires
            self.wf(),
            other.wf(),
        ensures
            rat_opt_view(r) == rat_mul_chk(self@, other@),
            r matches Some(x) ==> x.wf() && rat_eq(x@, rat_mul_v(self@, other@)),
    {
        let b: i128 = i64::MAX as i128;
        proof {
            lemma_prod_bound(self.num as int, other.num as int, b as int);
            lemma_prod_bound(self.den as int, other.den as int, b as int);
        }
        let n: i128 = (self.num as i128) * (other.num as i128);
        let d: i128 = (self.den as i128) * (other.den as i128);
        proof {
            assert(d >= 1) by (nonlinear_arith)
                requires
                    self.den >= 1,
                    other.den >= 1,
                    d == self.den as int * other.den as int,
            ;
            lemma_red_value(n as int, d as int);
        }
        reduce_parts(n, d)
    }

    /// Exact quotient, reduced; the divisor must not be the value zero.
    pub fn div(&self, other: &Rational) -> (r: Option<Rational>)
        requires
            self.wf(),
            other.wf(),
            !rat_is_zero(other@),
        ensures
            rat_opt_view(r) == rat_div_chk(self@, other@),
            r matches Some(x) ==> x.wf() && rat_eq(x@, rat_div_v(self@, other@)),
    {
        let b: i128 = i64::MAX as i128;
        proof {
            lemma_prod_bound(self.num as int, other.den as int, b as int);
            lemma_prod_bound(self.den as int, other.num as int, b as int);
        }
        let n: i128 = (self.num as i128) * (other.den as i128);
        let d: i128 = (self.den as i128) * (other.num as i128);
        proof {
            assert(d != 0) by (nonlinear_arith)
                requires
                    self.den as int >= 1,
                    other.num as int != 0,
                    d == self.den as int * other.num as int,
            ;
            lemma_red_value(n as int, d as int);
            assert(rat_eq(Rat { n: n as int, d: d as int }, rat_div_v(self@, other@)))
                by (nonlinear_arith)
                requires
                    n == self@.n * other@.d,
                    d == self@.d * other@.n,
            ;
            lemma_rat_eq_trans(red(n as int, d as int), Rat { n: n as int, d: d as int },
                rat_div_v(self@, other@));
        }
        reduce_parts(n, d)
    }

    /// Exact comparison of the two fraction values.
    pub fn le(&self, other: &Rational) -> (r: bool)
        requires
            self.wf(),
            other.wf(),
        ensures
            r == rat_le(self@, other@),
    {
        let b: i128 = i64::MAX as i128;
        proof {
            lemma_prod_bound(self.num as int, other.den as int, b as int);
            lemma_prod_bound(other.num as int, self.den as int, b as int);
        }
        (self.num as i128) * (other.den as i128) <= (other.num as i128) * (self.den as i128)
    }

    /// Exact strict comparison of the two fraction values.
    pub fn lt(&self, other: &Rational) -> (r: bool)
        requires
            self.wf(),
            other.wf(),
        ensures
            r == rat_lt(self@, other@),
    {
        let b: i128 = i64::MAX as i128;
        proof {
            lemma_prod_bound(self.num as int, other.den as int, b as int);
            lemma_prod_bound(other.num as int, self.den as int, b as int);
        }
        (self.num as i128) * (other.den as i128) < (other.num as i128) * (self.den as i128)
    }

    /// Exact value equality of the two fractions.
    pub fn eq_value(&self, other: &Rational) -> (r: bool)
        requires
            self.wf(),
            other.wf(),
        ensures
            r == rat_eq(self@, other@),
    {
        let b: i128 = i64::MAX as i128;
        proof {
            lemma_prod_bound(self.num as int, other.den as int, b as int);
            lemma_prod_bound(other.num as int, self.den as int, b as int);
        }
        (self.num as i128) * (other.den as i128) == (other.num as i128) * (self.den as i128)
    }

    /// The stored numerator; the fraction's value is `numer / denom`.
    pub fn numer(&self) -> (r: i64)
        ensures
            r == self@.n,
    {
        self.num
    }

    /// The stored denominator, always positive.
    pub fn denom(&self) -> (r: i64)
        ensures
            r == self@.d,
    {
        self.den
    }

    /// Whether the fraction is the value zero.
    pub fn is_zero(&self) -> (r: bool)
        requires
            self.wf(),
        ensures
            r == rat_is_zero(self@),
    {
        self.num == 0
    }
}

/// Value equality is transitive through a fraction with nonzero denominator.
pub proof fn lemma_rat_eq_trans(a: Rat, b: Rat, c: Rat)
    requires
        rat_eq(a, b) || rat_eq(b, a),
        rat_eq(b, c) || rat_eq(c, b),
        b.d != 0,
    ensures
        rat_eq(a, c),
        rat_eq(c, a),
{
    assert(a.n * b.d == b.n * a.d) by (nonlinear_arith)
        requires
            a.n * b.d == b.n * a.d || b.n * a.d == a.n * b.d,
    ;
    assert(b.n * c.d == c.n * b.d) by (nonlinear_arith)
        requires
            b.n * c.d == c.n * b.d || c.n * b.d == b.n * c.d,
    ;
    assert(a.n * c.d == c.n * a.d && c.n * a.d == a.n * c.d) by (nonlinear_arith)
        requires
            a.n * b.d == b.n * a.d,
            b.n * c.d == c.n * b.d,
            b.d != 0,
    ;
}

/// Value equality is a congruence for addition.
pub proof fn lemma_add_congruence(a: Rat, b: Rat, x: Rat, y: Rat)
    requires
        rat_eq(a, x),
        rat_eq(b, y),
    ensures
        rat_eq(rat_add_v(a, b), rat_add_v(x, y)),
{
    assert((a.n * x.d) * (b.d * y.d) == (x.n * a.d) * (b.d * y.d));
    assert((b.n * y.d) * (a.d * x.d) == (y.n * b.d) * (a.d * x.d));
    assert(a.n * b.d * (x.d * y.d) == (a.n * x.d) * (b.d * y.d) && (x.n * a.d) * (b.d * y.d) == (
    x.n * y.d) * (a.d * b.d)) by (nonlinear_arith);
    assert(b.n * a.d * (x.d * y.d) == (b.n * y.d) * (a.d * x.d) && (y.n * b.d) * (a.d * x.d) == (
    y.n * x.d) * (a.d * b.d)) by (nonlinear_arith);
    assert((a.n * b.d + b.n * a.d) * (x.d * y.d) == (x.n * y.d + y.n * x.d) * (a.d * b.d))
        by (nonlinear_arith)
        requires
            a.n * b.d * (x.d * y.d) == (x.n * y.d) * (a.d * b.d),
            b.n * a.d * (x.d * y.d) == (y.n * x.d) * (a.d * b.d),
    ;
}

/// Value equality is a congruence for subtraction.
pub proof fn lemma_sub_congruence(a: Rat, b: Rat, x: Rat, y: Rat)
    requires
        rat_eq(a, x),
        rat_eq(b, y),
    ensures
        rat_eq(rat_sub_v(a, b), rat_sub_v(x, y)),
{
    assert((a.n * x.d) * (b.d * y.d) == (x.n * a.d) * (b.d * y.d));
    assert((b.n * y.d) * (a.d * x.d) == (y.n * b.d) * (a.d * x.d));
    assert(a.n * b.d * (x.d * y.d) == (a.n * x.d) * (b.d * y.d) && (x.n * a.d) * (b.d * y.d) == (
    x.n * y.d) * (a.d * b.d)) by (nonlinear_arith);
    assert(b.n * a.d * (x.d * y.d) == (b.n * y.d) * (a.d * x.d) && (y.n * b.d) * (a.d * x.d) == (
    y.n * x.d) * (a.d * b.d)) by (nonlinear_arith);
    assert((a.n * b.d - b.n * a.d) * (x.d * y.d) == (x.n * y.d - y.n * x.d) * (a.d * b.d))
        by (nonlinear_arith)
        requires
            a.n * b.d * (x.d * y.d) == (x.n * y.d) * (a.d * b.d),
            b.n * a.d * (x.d * y.d) == (y.n * x.d) * (a.d * b.d),
    ;
}

/// Value equality is a congruence for multiplication.
pub proof fn lemma_mul_congruence(a: Rat, b: Rat, x: Rat, y: Rat)
    requires
        rat_eq(a, x),
        rat_eq(b, y),
    ensures
        rat_eq(rat_mul_v(a, b), rat_mul_v(x, y)),
{
    assert((a.n * b.n) * (x.d * y.d) == (x.n * y.n) * (a.d * b.d)) by (nonlinear_arith)
        requires
            a.n * x.d == x.n * a.d,
            b.n * y.d == y.n * b.d,
    ;
}

/// Value equality is a congruence for negation.
pub proof fn lemma_neg_congruence(a: Rat, x: Rat)
    requires
        rat_eq(a, x),
    ensures
        rat_eq(rat_neg_v(a), rat_neg_v(x)),
{
    assert((-a.n) * x.d == (-x.n) * a.d) by (nonlinear_arith)
        requires
            a.n * x.d == x.n * a.d,
    ;
}

/// Comparisons respect value equality: equal values stand in the same order
/// relations.
pub proof fn lemma_le_congruence(a: Rat, b: Rat, x: Rat, y: Rat)
    requires
        rat_eq(a, x),
        rat_eq(b, y),
        rat_wf(a),
        rat_wf(b),
        rat_wf(x),
        rat_wf(y),
    ensures
        rat_le(a, b) == rat_le(x, y),
        rat_lt(a, b) == rat_lt(x, y),
        rat_eq(a, b) == rat_eq(x, y),
{
    assert((a.n * b.d <= b.n * a.d) == (x.n * y.d <= y.n * x.d) && (a.n * b.d < b.n * a.d) == (x.n
        * y.d < y.n * x.d) && (a.n * b.d == b.n * a.d) == (x.n * y.d == y.n * x.d))
        by (nonlinear_arith)
        requires
            a.n * x.d == x.n * a.d,
            b.n * y.d == y.n * b.d,
            a.d > 0,
            b.d > 0,
            x.d > 0,
            y.d > 0,
    ;
}

/// Adding a zero-valued fraction on the left leaves the value unchanged.
pub proof fn lemma_add_zero_left(a: Rat, b: Rat)
    requires
        rat_eq(a, rat_zero()),
    ensures
        rat_eq(rat_add_v(a, b), b),
{
    assert((a.n * b.d + b.n * a.d) * b.d == b.n * (a.d * b.d)) by (nonlinear_arith)
        requires
            a.n == 0,
    ;
}

/// Adding a zero-valued fraction on the right leaves the value unchanged.
pub proof fn lemma_add_zero_right(a: Rat, b: Rat)
    requires
        rat_eq(b, rat_zero()),
    ensures
        rat_eq(rat_add_v(a, b), a),
{
    assert((a.n * b.d + b.n * a.d) * a.d == a.n * (a.d * b.d)) by (nonlinear_arith)
        requires
            b.n == 0,
    ;
}

/// Multiplying by a one-valued fraction on the left leaves the value
/// unchanged.
pub proof fn lemma_mul_one_left(c: Rat, b: Rat)
    requires
        rat_eq(c, rat_one()),
    ensures
        rat_eq(rat_mul_v(c, b), b),
{
    assert(c.n * 1 == 1 * c.d);
    assert(c.n == c.d) by (nonlinear_arith)
        requires
            c.n * 1 == 1 * c.d,
    ;
    assert((c.n * b.n) * b.d == b.n * (c.d * b.d)) by (nonlinear_arith)
        requires
            c.n == c.d,
    ;
}

/// Multiplying by a one-valued fraction on the right leaves the value
/// unchanged.
pub proof fn lemma_mul_one_right(a: Rat, b: Rat)
    requires
        rat_eq(b, rat_one()),
    ensures
        rat_eq(rat_mul_v(a, b), a),
{
    assert(b.n * 1 == 1 * b.d);
    assert(b.n == b.d) by (nonlinear_arith)
        requires
            b.n * 1 == 1 * b.d,
    ;
    assert((a.n * b.n) * a.d == a.n * (a.d * b.d)) by (nonlinear_arith)
        requires
            b.n == b.d,
    ;
}

/// Multiplying by a zero-valued fraction on the right gives the value zero.
pub proof fn lemma_mul_zero_right(a: Rat, b: Rat)
    requires
        rat_eq(b, rat_zero()),
    ensures
        rat_eq(rat_mul_v(a, b), rat_zero()),
{
    assert((a.n * b.n) * 1 == 0 * (a.d * b.d)) by (nonlinear_arith)
        requires
            b.n == 0,
    ;
}

/// Multiplying by a zero-valued fraction on the left gives the value zero.
pub proof fn lemma_mul_zero_left(c: Rat, b: Rat)
    requires
        rat_eq(c, rat_zero()),
    ensures
        rat_eq(rat_mul_v(c, b), rat_zero()),
{
    assert((c.n * b.n) * 1 == 0 * (c.d * b.d)) by (nonlinear_arith)
        requires
            c.n == 0,
    ;
}

/// The quotient without the sign normalization; equal in value to the
/// normalized quotient.
pub proof fn lemma_div_raw(a: Rat, b: Rat)
    ensures
        rat_eq(rat_div_v(a, b), Rat { n: a.n * b.d, d: a.d * b.n }),
        rat_eq(Rat { n: a.n * b.d, d: a.d * b.n }, rat_div_v(a, b)),
{
    if b.n >= 0 {
    } else {
        let p = rat_div_v(a, b);
        assert(p.n * (a.d * b.n) == (a.n * b.d) * p.d) by (nonlinear_arith)
            requires
                p.n == -(a.n * b.d),
                p.d == -(a.d * b.n),
        ;
    }
}

/// Value equality is a congruence for division by a nonzero fraction.
pub proof fn lemma_div_congruence(a: Rat, b: Rat, x: Rat, y: Rat)
    requires
        rat_eq(a, x),
        rat_eq(b, y),
        rat_wf(a),
        rat_wf(b),
        rat_wf(x),
        rat_wf(y),
        b.n != 0,
        y.n != 0,
    ensures
        rat_eq(rat_div_v(a, b), rat_div_v(x, y)),
{
    let p = Rat { n: a.n * b.d, d: a.d * b.n };
    let q = Rat { n: x.n * y.d, d: x.d * y.n };
    assert((a.n * b.d) * (x.d * y.n) == (x.n * y.d) * (a.d * b.n)) by (nonlinear_arith)
        requires
            a.n * x.d == x.n * a.d,
            b.n * y.d == y.n * b.d,
    ;
    lemma_div_raw(a, b);
    lemma_div_raw(x, y);
    assert(p.d != 0) by (nonlinear_arith)
        requires
            a.d > 0,
            b.n != 0,
            p.d == a.d * b.n,
    ;
    assert(q.d != 0) by (nonlinear_arith)
        requires
            x.d > 0,
            y.n != 0,
            q.d == x.d * y.n,
    ;
    lemma_rat_eq_trans(rat_div_v(a, b), p, q);
    lemma_rat_eq_trans(rat_div_v(a, b), q, rat_div_v(x, y));
}

/// A product of positives is positive.
pub proof fn lemma_pos_prod(p: int, q: int)
    by (nonlinear_arith)
    requires
        p > 0,
        q > 0,
    ensures
        p * q > 0,
{
}

/// A computed sum equal in value to `a + b` is equal in value to `x + y`
/// whenever `a` and `x`, and `b` and `y`, agree in value.
pub proof fn lemma_add_chain(r: Rat, a: Rat, b: Rat, x: Rat, y: Rat)
    requires
        rat_eq(r, rat_add_v(a, b)),
        rat_eq(a, x),
        rat_eq(b, y),
        a.d > 0,
        b.d > 0,
    ensures
        rat_eq(r, rat_add_v(x, y)),
        rat_eq(rat_add_v(x, y), r),
{
    lemma_pos_prod(a.d, b.d);
    lemma_add_congruence(a, b, x, y);
    lemma_rat_eq_trans(r, rat_add_v(a, b), rat_add_v(x, y));
}

/// The subtraction counterpart of `lemma_add_chain`.
pub proof fn lemma_sub_chain(r: Rat, a: Rat, b: Rat, x: Rat, y: Rat)
    requires
        rat_eq(r, rat_sub_v(a, b)),
        rat_eq(a, x),
        rat_eq(b, y),
        a.d > 0,
        b.d > 0,
    ensures
        rat_eq(r, rat_sub_v(x, y)),
        rat_eq(rat_sub_v(x, y), r),
{
    lemma_pos_prod(a.d, b.d);
    lemma_sub_congruence(a, b, x, y);
    lemma_rat_eq_trans(r, rat_sub_v(a, b), rat_sub_v(x, y));
}

/// The multiplication counterpart of `lemma_add_chain`.
pub proof fn lemma_mul_chain(r: Rat, a: Rat, b: Rat, x: Rat, y: Rat)
    requires
        rat_eq(r, rat_mul_v(a, b)),
        rat_eq(a, x),
        rat_eq(b, y),
        a.d > 0,
        b.d > 0,
    ensures
        rat_eq(r, rat_mul_v(x, y)),
        rat_eq(rat_mul_v(x, y), r),
{
    lemma_pos_prod(a.d, b.d);
    lemma_mul_congruence(a, b, x, y);
    lemma_rat_eq_trans(r, rat_mul_v(a, b), rat_mul_v(x, y));
}

/// The negation counterpart of `lemma_add_chain`.
pub proof fn lemma_neg_chain(r: Rat, a: Rat, x: Rat)
    requires
        rat_eq(r, rat_neg_v(a)),
        rat_eq(a, x),
        a.d > 0,
    ensures
        rat_eq(r, rat_neg_v(x)),
        rat_eq(rat_neg_v(x), r),
{
    lemma_neg_congruence(a, x);
    lemma_rat_eq_trans(r, rat_neg_v(a), rat_neg_v(x));
}

/// The division counterpart of `lemma_add_chain`.
pub proof fn lemma_div_chain(r: Rat, a: Rat, b: Rat, x: Rat, y: Rat)
    requires
        rat_eq(r, rat_div_v(a, b)),
        rat_eq(a, x),
        rat_eq(b, y),
        rat_wf(a),
        rat_wf(b),
        rat_wf(x),
        rat_wf(y),
        b.n != 0,
        y.n != 0,
    ensures
        rat_eq(r, rat_div_v(x, y)),
        rat_eq(rat_div_v(x, y), r),
{
    lemma_div_congruence(a, b, x, y);
    let m = rat_div_v(a, b);
    assert(m.d != 0) by (nonlinear_arith)
        requires
            a.d > 0,
            b.n != 0,
            m.d == a.d * b.n || m.d == -(a.d * b.n),
    ;
    lemma_rat_eq_trans(r, m, rat_div_v(x, y));
}

/// The normalized quotient of a well-formed fraction by a nonzero fraction
/// is well-formed.
pub proof fn lemma_div_v_wf(a: Rat, b: Rat)
    requires
        rat_wf(a),
        b.n != 0,
    ensures
        rat_wf(rat_div_v(a, b)),
{
    if b.n >= 0 {
        lemma_pos_prod(a.d, b.n);
    } else {
        assert(-(a.d * b.n) > 0) by (nonlinear_arith)
            requires
                a.d > 0,
                b.n < 0,
        ;
    }
}

/// `(a * b) * c` and `a * (c * b)` are the same fraction value.
pub proof fn lemma_mul_shuffle_v(a: Rat, b: Rat, c: Rat)
    ensures
        rat_eq(rat_mul_v(rat_mul_v(a, b), c), rat_mul_v(a, rat_mul_v(c, b))),
{
    assert(((a.n * b.n) * c.n) * (a.d * (c.d * b.d)) == (a.n * (c.n * b.n)) * ((a.d * b.d) * c.d))
        by (nonlinear_arith);
}

/// Fractions equal in value are zero together.
pub proof fn lemma_is_zero_transfer(a: Rat, b: Rat)
    requires
        rat_eq(a, b),
        a.d != 0,
        b.d != 0,
    ensures
        rat_is_zero(a) == rat_is_zero(b),
{
    assert((a.n == 0) == (b.n == 0)) by (nonlinear_arith)
        requires
            a.n * b.d == b.n * a.d,
            a.d != 0,
            b.d != 0,
    ;
}

/// Well-formedness passes through the arithmetic on fraction values.
pub proof fn lemma_wf_add(a: Rat, b: Rat)
    requires
        rat_wf(a),
        rat_wf(b),
    ensures
        rat_wf(rat_add_v(a, b)),
        rat_wf(rat_sub_v(a, b)),
        rat_wf(rat_mul_v(a, b)),
        rat_wf(rat_neg_v(a)),
{
    lemma_pos_prod(a.d, b.d);
}

/// Euclid's algorithm for the greatest common divisor.
fn gcd_u128(a0: u128, b0: u128) -> (g: u128)
    ensures
        g as nat == gcd_nat(a0 as nat, b0 as nat),
{
    let mut a = a0;
    let mut b = b0;
    while b != 0
        invariant
            gcd_nat(a as nat, b as nat) == gcd_nat(a0 as nat, b0 as nat),
        decreases b,
    {
        let t = a % b;
        a = b;
        b = t;
    }
    a
}

/// Reduce the fraction `n / d` and store it in machine words, or report that
/// its reduced form does not fit.
fn reduce_parts(n: i128, d: i128) -> (r: Option<Rational>)
    requires
        d != 0,
        -i128::MAX <= n,
        -i128::MAX <= d,
    ensures
        rat_opt_view(r) == red_chk(n as int, d as int),
        r matches Some(x) ==> x.wf() && x@ == red(n as int, d as int),
{
    let neg: bool = (n < 0) != (d < 0);
    let na: u128 = if n < 0 {
        (-n) as u128
    } else {
        n as u128
    };
    let da: u128 = if d < 0 {
        (-d) as u128
    } else {
        d as u128
    };
    proof {
        assert(na as int == abs(n as int));
        assert(da as int == abs(d as int));
        lemma_gcd_divides(na as nat, da as nat);
    }
    let g = gcd_u128(na, da);
    let nr = na / g;
    let dr = da / g;
    let ghost s: int = if d < 0 {
        -1
    } else {
        1
    };
    proof {
        lemma_exact_div(na as int, g as int);
        lemma_exact_div(da as int, g as int);
        assert(s * (n as int) == if neg {
            -(na as int)
        } else {
            na as int
        });
        assert(s * (d as int) == da as int);
        assert(red(n as int, d as int) == Rat {
            n: if neg {
                -(nr as int)
            } else {
                nr as int
            },
            d: dr as int,
        });
        assert(dr >= 1) by (nonlinear_arith)
            requires
                da as int == g as int * dr as int,
                da >= 1,
                g >= 1,
                dr >= 0,
        ;
    }
    if nr <= i64::MAX as u128 && dr <= i64::MAX as u128 {
        let num: i64 = if neg {
            -(nr as i64)
        } else {
            nr as i64
        };
        let den: i64 = dr as i64;
        Some(Rational { num, den })
    } else {
        None
    }
}

} // verus!
