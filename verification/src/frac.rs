//! Exact rational numbers over 128-bit integers.
//!
//! A [`Frac`] is a fraction `num / den` with a positive denominator, both
//! bounded by [`FRAC_LIM`] so that every cross product of two fractions fits
//! comfortably in an `i128`. Comparisons are therefore total and exact, while
//! the arithmetic operations normalise their result by the greatest common
//! divisor and report `None` when even the reduced fraction would leave the
//! representable range.

use vstd::prelude::*;

verus! {

use vstd::arithmetic::div_mod::{
    lemma_fundamental_div_mod, lemma_mod_multiples_basic, lemma_mod_self_0, lemma_small_mod,
};
use vstd::arithmetic::mul::lemma_mul_is_commutative;

/// Bound on numerator magnitude and denominator of every `Frac`: 2^62.
pub const FRAC_LIM: i128 = 0x4000_0000_0000_0000;

/// Absolute value of an integer.
pub open spec fn iabs(n: int) -> int {
    if n < 0 {
        -n
    } else {
        n
    }
}

/// Greatest common divisor by Euclid's algorithm; `gcd_nat(0, 0) == 0`.
pub open spec fn gcd_nat(a: nat, b: nat) -> nat
    decreases b,
{
    if b == 0 {
        a
    } else {
        gcd_nat(b, a % b)
    }
}

/// The divisor by which a raw fraction `n / d` (with `d > 0`) is reduced.
pub open spec fn gcd_of(n: int, d: int) -> int {
    gcd_nat(iabs(n) as nat, d as nat) as int
}

/// Numerator of the reduced form of `n / d`.
pub open spec fn norm_num(n: int, d: int) -> int {
    n / gcd_of(n, d)
}

/// Denominator of the reduced form of `n / d`.
pub open spec fn norm_den(n: int, d: int) -> int {
    d / gcd_of(n, d)
}

/// Whether the reduced form of `n / d` stays within the representable range.
pub open spec fn norm_fits(n: int, d: int) -> bool {
    &&& -FRAC_LIM <= norm_num(n, d) <= FRAC_LIM
    &&& norm_den(n, d) <= FRAC_LIM
}

/// The gcd divides both arguments and is positive as soon as one of them is.
pub proof fn lemma_gcd(a: nat, b: nat)
    ensures
        a > 0 || b > 0 ==> gcd_nat(a, b) > 0,
        gcd_nat(a, b) > 0 ==> a % gcd_nat(a, b) == 0,
        gcd_nat(a, b) > 0 ==> b % gcd_nat(a, b) == 0,
    decreases b,
{
    let g = gcd_nat(a, b);
    if b == 0 {
        if a > 0 {
            lemma_mod_self_0(a as int);
            lemma_small_mod(0, a);
        }
    } else {
        lemma_gcd(b, a % b);
        assert(g == gcd_nat(b, a % b));
        assert(g > 0);
        let r = a % b;
        lemma_fundamental_div_mod(a as int, b as int);
        assert(a == b * (a as int / b as int) + r);
        let q = a as int / b as int;
        let qb = b as int / g as int;
        let qr = r as int / g as int;
        lemma_fundamental_div_mod(b as int, g as int);
        lemma_fundamental_div_mod(r as int, g as int);
        assert(b == g * qb + 0);
        assert(r == g * qr + 0);
        assert(a == g * (qb * q + qr)) by (nonlinear_arith)
            requires
                a == b * q + r,
                b == g * qb,
                r == g * qr,
        ;
        lemma_mod_multiples_basic(qb * q + qr, g as int);
        assert(a % g == 0);
    }
}

/// Divisibility is transitive: if `g` divides `m` and `m` divides `n`, then
/// `g` divides `n`.
pub proof fn lemma_divides_trans(n: int, m: int, g: int)
    requires
        g > 0,
        m > 0,
        n >= 0,
        n % m == 0,
        m % g == 0,
    ensures
        n % g == 0,
{
    lemma_fundamental_div_mod(n, m);
    lemma_fundamental_div_mod(m, g);
    let qn = n / m;
    let qm = m / g;
    assert(n == g * (qm * qn)) by (nonlinear_arith)
        requires
            n == m * qn,
            m == g * qm,
    ;
    lemma_mod_multiples_basic(qm * qn, g);
}

/// Dividing a numerator and a positive denominator by a common exact divisor
/// keeps the value of the fraction and shrinks both parts.
pub proof fn lemma_exact_div_scale(n: int, d: int, g: int)
    requires
        g > 0,
        d > 0,
        iabs(n) % g == 0,
        d % g == 0,
    ensures
        d / g > 0,
        d / g <= d,
        (n / g) * d == n * (d / g),
        iabs(n / g) <= iabs(n),
        n % g == 0,
{
    lemma_fundamental_div_mod(iabs(n), g);
    lemma_fundamental_div_mod(d, g);
    let na = iabs(n) / g;
    let dq = d / g;
    assert(iabs(n) == g * na);
    assert(d == g * dq);
    assert(na >= 0 && dq > 0 && dq <= d && na <= iabs(n)) by (nonlinear_arith)
        requires
            iabs(n) == g * na,
            d == g * dq,
            g >= 1,
            iabs(n) >= 0,
            d > 0,
    ;
    if n >= 0 {
        assert(n / g == na);
        assert(na * d == n * dq) by (nonlinear_arith)
            requires
                n == g * na,
                d == g * dq,
        ;
        lemma_mod_multiples_basic(na, g);
        lemma_mul_is_commutative(g, na);
    } else {
        assert(n == g * (-na)) by (nonlinear_arith)
            requires
                iabs(n) == g * na,
                n < 0,
                iabs(n) == -n,
        ;
        lemma_div_exact_neg(n, g, -na);
        assert((-na) * d == n * dq) by (nonlinear_arith)
            requires
                n == g * (-na),
                d == g * dq,
        ;
        lemma_mod_multiples_basic(-na, g);
        lemma_mul_is_commutative(g, -na);
    }
}

/// Dividing both parts of a fraction by their gcd keeps its value:
/// `norm_num(n, d) * d == n * norm_den(n, d)`.
pub proof fn lemma_norm_value(n: int, d: int)
    requires
        d > 0,
    ensures
        norm_den(n, d) > 0,
        norm_num(n, d) * d == n * norm_den(n, d),
        iabs(norm_num(n, d)) <= iabs(n),
        norm_den(n, d) <= d,
{
    let g = gcd_of(n, d);
    lemma_gcd(iabs(n) as nat, d as nat);
    assert(g > 0);
    assert(iabs(n) % g == 0);
    assert(d % g == 0);
    lemma_fundamental_div_mod(iabs(n), g);
    lemma_fundamental_div_mod(d, g);
    let na = iabs(n) / g;
    let dq = d / g;
    assert(iabs(n) == g * na);
    assert(d == g * dq);
    assert(na >= 0 && dq >= 0) by (nonlinear_arith)
        requires
            iabs(n) == g * na,
            d == g * dq,
            g > 0,
            iabs(n) >= 0,
            d > 0,
    ;
    assert(dq > 0) by (nonlinear_arith)
        requires
            d == g * dq,
            g > 0,
            d > 0,
            dq >= 0,
    ;
    // Relate Euclidean division of n itself to that of its absolute value.
    if n >= 0 {
        assert(norm_num(n, d) == na);
        assert(na * d == n * dq) by (nonlinear_arith)
            requires
                n == g * na,
                d == g * dq,
        ;
        assert(na <= iabs(n)) by (nonlinear_arith)
            requires
                iabs(n) == g * na,
                g >= 1,
                na >= 0,
        ;
    } else {
        // n == -(g * na), so n / g == -na exactly.
        assert(n == g * (-na)) by (nonlinear_arith)
            requires
                iabs(n) == g * na,
                n < 0,
                iabs(n) == -n,
        ;
        lemma_div_exact_neg(n, g, -na);
        assert(norm_num(n, d) == -na);
        assert((-na) * d == n * dq) by (nonlinear_arith)
            requires
                n == g * (-na),
                d == g * dq,
        ;
        assert(na <= iabs(n)) by (nonlinear_arith)
            requires
                iabs(n) == g * na,
                g >= 1,
                na >= 0,
        ;
    }
    assert(dq <= d) by (nonlinear_arith)
        requires
            d == g * dq,
            g >= 1,
            dq >= 0,
    ;
}

/// If `x == d * q` then Euclidean division gives `x / d == q`, also for
/// negative `x`.
pub proof fn lemma_div_exact_neg(x: int, d: int, q: int)
    requires
        d > 0,
        x == d * q,
    ensures
        x / d == q,
{
    lemma_mod_multiples_basic(q, d);
    lemma_mul_is_commutative(q, d);
    assert(x % d == 0);
    lemma_fundamental_div_mod(x, d);
    assert(x == d * (x / d));
    assert(q == x / d) by (nonlinear_arith)
        requires
            x == d * q,
            x == d * (x / d),
            d > 0,
    ;
}

/// Transitivity of the fraction order in cross-multiplied form:
/// `a/b <= c/d` and `c/d <= e/f` give `a/b <= e/f`.
pub proof fn lemma_frac_le_trans(an: int, ad: int, bn: int, bd: int, cn: int, cd: int)
    by (nonlinear_arith)
    requires
        ad > 0,
        bd > 0,
        cd > 0,
        an * bd <= bn * ad,
        bn * cd <= cn * bd,
    ensures
        an * cd <= cn * ad,
{
}

/// Value of a normalised sum: if `acc` equals the exact pair `(sn, sd)` and
/// `r` is the sum of `acc` and the term `(tn, td)` by `checked_add`, then `r`
/// equals the exact pair sum `(sn td + tn sd, sd td)`.
pub proof fn lemma_value_add(
    accn: int,
    accd: int,
    sn: int,
    sd: int,
    tn: int,
    td: int,
    rn: int,
    rd: int,
)
    requires
        sd > 0,
        accd > 0,
        td > 0,
        rd > 0,
        accn * sd == sn * accd,
        rn * (accd * td) == (accn * td + tn * accd) * rd,
    ensures
        rn * (sd * td) == (sn * td + tn * sd) * rd,
{
    assert((rn * (sd * td)) * accd == ((accn * td + tn * accd) * rd) * sd) by (nonlinear_arith)
        requires
            rn * (accd * td) == (accn * td + tn * accd) * rd,
    ;
    assert((accn * td + tn * accd) * sd == (sn * td + tn * sd) * accd) by (nonlinear_arith)
        requires
            accn * sd == sn * accd,
    ;
    assert(((accn * td + tn * accd) * rd) * sd == ((accn * td + tn * accd) * sd) * rd)
        by (nonlinear_arith);
    assert(((sn * td + tn * sd) * accd) * rd == ((sn * td + tn * sd) * rd) * accd)
        by (nonlinear_arith);
    assert(rn * (sd * td) == (sn * td + tn * sd) * rd) by (nonlinear_arith)
        requires
            (rn * (sd * td)) * accd == ((sn * td + tn * sd) * rd) * accd,
            accd > 0,
    ;
}

/// Value of a quotient: if `acc` equals the exact pair `(sn, sd)` and `r` is
/// `acc` divided by `o == (on, od)` with `on > 0` by `checked_div`, then `r`
/// equals the exact pair `(sn od, sd on)`.
pub proof fn lemma_value_div(
    accn: int,
    accd: int,
    sn: int,
    sd: int,
    on: int,
    od: int,
    rn: int,
    rd: int,
)
    requires
        sd > 0,
        accd > 0,
        od > 0,
        on > 0,
        rd > 0,
        accn * sd == sn * accd,
        rn * (accd * on) == (accn * od) * rd,
    ensures
        rn * (sd * on) == (sn * od) * rd,
{
    assert((rn * (sd * on)) * accd == ((accn * od) * rd) * sd) by (nonlinear_arith)
        requires
            rn * (accd * on) == (accn * od) * rd,
    ;
    assert(((accn * od) * rd) * sd == ((sn * od) * rd) * accd) by (nonlinear_arith)
        requires
            accn * sd == sn * accd,
    ;
    assert(rn * (sd * on) == (sn * od) * rd) by (nonlinear_arith)
        requires
            (rn * (sd * on)) * accd == ((sn * od) * rd) * accd,
            accd > 0,
    ;
}

/// A fraction with denominator one is already reduced.
pub proof fn lemma_norm_trivial(n: int)
    requires
        0 <= n <= FRAC_LIM,
    ensures
        gcd_of(n, 1) == 1,
        norm_num(n, 1) == n,
        norm_den(n, 1) == 1,
        norm_fits(n, 1),
{
    lemma_fundamental_div_mod(n, 1);
    vstd::arithmetic::div_mod::lemma_mod_division_less_than_divisor(n, 1);
    assert(n % 1 == 0);
    assert(gcd_nat(n as nat, 1) == gcd_nat(1, (n % 1) as nat));
    assert(gcd_nat(1, 0) == 1);
    assert(gcd_of(n, 1) == 1);
    assert(n / 1 == n) by {
        lemma_fundamental_div_mod(n, 1);
        vstd::arithmetic::div_mod::lemma_mod_division_less_than_divisor(n, 1);
    }
}

/// An even numerator over the denominator two reduces to its half over one.
pub proof fn lemma_norm_half_even(n: int)
    requires
        0 <= n <= FRAC_LIM,
    ensures
        gcd_of(n + n, 2) == 2,
        norm_num(n + n, 2) == n,
        norm_den(n + n, 2) == 1,
        norm_fits(n + n, 2),
{
    lemma_mod_multiples_basic(n, 2);
    lemma_mul_is_commutative(n, 2);
    assert((n + n) % 2 == 0);
    assert(gcd_nat((n + n) as nat, 2) == gcd_nat(2, ((n + n) % 2) as nat));
    assert(gcd_nat(2, 0) == 2);
    assert(gcd_of(n + n, 2) == 2);
    lemma_div_exact_neg(n + n, 2, n);
    lemma_div_exact_neg(2, 2, 1);
}

/// Product bound: factors bounded in magnitude give a bounded product.
pub proof fn lemma_abs_mul_le(a: int, b: int, aa: int, bb: int)
    by (nonlinear_arith)
    requires
        -aa <= a <= aa,
        -bb <= b <= bb,
        0 <= aa,
        0 <= bb,
    ensures
        -(aa * bb) <= a * b <= aa * bb,
{
}

/// An exact fraction `num / den` with `den > 0`, both parts bounded by
/// [`FRAC_LIM`].
#[derive(Clone, Copy, Debug, PartialEq, Eq, Structural)]
pub struct Frac {
    num: i128,
    den: i128,
}

impl Frac {
    /// Numerator, as a mathematical integer.
    pub closed spec fn num(self) -> int {
        self.num as int
    }

    /// Denominator, as a mathematical integer; always positive.
    pub closed spec fn den(self) -> int {
        self.den as int
    }

    /// Representation bounds, kept by every constructor and operation.
    #[verifier::type_invariant]
    pub open spec fn wf(self) -> bool {
        &&& -FRAC_LIM <= self.num() <= FRAC_LIM
        &&& 0 < self.den() <= FRAC_LIM
    }

    /// Value equality with another fraction, by cross multiplication.
    pub open spec fn spec_eq(self, o: Frac) -> bool {
        self.num() * o.den() == o.num() * self.den()
    }

    /// Value order: `self <= o`, by cross multiplication.
    pub open spec fn spec_le(self, o: Frac) -> bool {
        self.num() * o.den() <= o.num() * self.den()
    }

    /// The fraction zero.
    pub fn zero() -> (r: Frac)
        ensures
            r.num() == 0,
            r.den() == 1,
    {
        Frac { num: 0, den: 1 }
    }

    /// The fraction one.
    pub fn one() -> (r: Frac)
        ensures
            r.num() == 1,
            r.den() == 1,
    {
        Frac { num: 1, den: 1 }
    }

    /// The integer `n`, as a fraction with denominator one.
    pub fn from_int(n: i32) -> (r: Frac)
        ensures
            r.num() == n as int,
            r.den() == 1,
    {
        Frac { num: n as i128, den: 1 }
    }

    /// Numerator, for callers outside the proof world.
    pub fn numerator(&self) -> (r: i128)
        ensures
            r as int == self.num(),
    {
        self.num
    }

    /// Denominator, for callers outside the proof world.
    pub fn denominator(&self) -> (r: i128)
        ensures
            r as int == self.den(),
    {
        self.den
    }

    /// Builds the fraction `num / den`, reduced; rejects a zero denominator
    /// and a value outside the representable range.
    pub fn new(num: i64, den: i64) -> (r: Result<Frac, crate::GeomError>)
        ensures
            ({
                let n = if den < 0 {
                    -(num as int)
                } else {
                    num as int
                };
                let d = iabs(den as int);
                match r {
                    Ok(f) => den != 0 && norm_fits(n, d) && f.num() == norm_num(n, d) && f.den()
                        == norm_den(n, d) && f.num() * (den as int) == (num as int) * f.den(),
                    Err(e) => (den == 0 || !norm_fits(n, d)) && (e
                        == crate::GeomError::ZeroDenominator <==> den == 0),
                }
            }),
    {
        if den == 0 {
            return Err(crate::GeomError::ZeroDenominator);
        }
        let (n, d): (i128, i128) = if den < 0 {
            (-(num as i128), -(den as i128))
        } else {
            (num as i128, den as i128)
        };
        match Self::normalize(n, d) {
            Some(f) => {
                proof {
                    lemma_norm_value(n as int, d as int);
                    use_type_invariant(f);
                    if den < 0 {
                        assert(f.num() * (den as int) == (num as int) * f.den())
                            by (nonlinear_arith)
                            requires
                                f.num() * (d as int) == (n as int) * f.den(),
                                d as int == -(den as int),
                                n as int == -(num as int),
                        ;
                    }
                }
                Ok(f)
            },
            None => Err(crate::GeomError::OutOfRange),
        }
    }

    /// Exact sum; `None` when even the reduced result leaves the range.
    pub fn checked_add(&self, o: &Frac) -> (r: Option<Frac>)
        ensures
            ({
                let rn = self.num() * o.den() + o.num() * self.den();
                let rd = self.den() * o.den();
                match r {
                    Some(f) => norm_fits(rn, rd) && f.num() == norm_num(rn, rd) && f.den()
                        == norm_den(rn, rd) && f.num() * rd == rn * f.den(),
                    None => !norm_fits(rn, rd),
                }
            }),
    {
        proof {
            use_type_invariant(self);
            use_type_invariant(o);
            lemma_abs_mul_le(self.num as int, o.den as int, FRAC_LIM as int, FRAC_LIM as int);
            lemma_abs_mul_le(o.num as int, self.den as int, FRAC_LIM as int, FRAC_LIM as int);
            lemma_abs_mul_le(self.den as int, o.den as int, FRAC_LIM as int, FRAC_LIM as int);
        }
        let rn = self.num * o.den + o.num * self.den;
        let rd = self.den * o.den;
        assert(rd > 0) by (nonlinear_arith)
            requires
                self.den > 0,
                o.den > 0,
                rd == self.den * o.den,
        ;
        let r = Self::normalize(rn, rd);
        proof {
            if r is Some {
                lemma_norm_value(rn as int, rd as int);
            }
        }
        r
    }

    /// Exact difference; `None` when the reduced result leaves the range.
    pub fn checked_sub(&self, o: &Frac) -> (r: Option<Frac>)
        ensures
            ({
                let rn = self.num() * o.den() - o.num() * self.den();
                let rd = self.den() * o.den();
                match r {
                    Some(f) => norm_fits(rn, rd) && f.num() == norm_num(rn, rd) && f.den()
                        == norm_den(rn, rd) && f.num() * rd == rn * f.den(),
                    None => !norm_fits(rn, rd),
                }
            }),
    {
        let r = self.checked_add(&o.neg());
        proof {
            vstd::arithmetic::mul::lemma_mul_unary_negation(o.num(), self.den());
        }
        r
    }

    /// Exact product; `None` when the reduced result leaves the range.
    pub fn checked_mul(&self, o: &Frac) -> (r: Option<Frac>)
        ensures
            ({
                let rn = self.num() * o.num();
                let rd = self.den() * o.den();
                match r {
                    Some(f) => norm_fits(rn, rd) && f.num() == norm_num(rn, rd) && f.den()
                        == norm_den(rn, rd) && f.num() * rd == rn * f.den(),
                    None => !norm_fits(rn, rd),
                }
            }),
    {
        proof {
            use_type_invariant(self);
            use_type_invariant(o);
            lemma_abs_mul_le(self.num as int, o.num as int, FRAC_LIM as int, FRAC_LIM as int);
            lemma_abs_mul_le(self.den as int, o.den as int, FRAC_LIM as int, FRAC_LIM as int);
        }
        let rn = self.num * o.num;
        let rd = self.den * o.den;
        assert(rd > 0) by (nonlinear_arith)
            requires
                self.den > 0,
                o.den > 0,
                rd == self.den * o.den,
        ;
        let r = Self::normalize(rn, rd);
        proof {
            if r is Some {
                lemma_norm_value(rn as int, rd as int);
            }
        }
        r
    }

    /// Exact quotient; `None` when the divisor is zero or the reduced result
    /// leaves the range. On success the value satisfies
    /// `f.num() * (self.den() * o.num()) == (self.num() * o.den()) * f.den()`.
    pub fn checked_div(&self, o: &Frac) -> (r: Option<Frac>)
        ensures
            ({
                let rn = if o.num() < 0 {
                    -(self.num() * o.den())
                } else {
                    self.num() * o.den()
                };
                let rd = if o.num() < 0 {
                    self.den() * -o.num()
                } else {
                    self.den() * o.num()
                };
                match r {
                    Some(f) => o.num() != 0 && norm_fits(rn, rd) && f.num() == norm_num(rn, rd)
                        && f.den() == norm_den(rn, rd) && f.num() * (self.den() * o.num()) == (
                    self.num() * o.den()) * f.den(),
                    None => o.num() == 0 || !norm_fits(rn, rd),
                }
            }),
    {
        proof {
            use_type_invariant(self);
            use_type_invariant(o);
            lemma_abs_mul_le(self.num as int, o.den as int, FRAC_LIM as int, FRAC_LIM as int);
            lemma_abs_mul_le(self.den as int, o.num as int, FRAC_LIM as int, FRAC_LIM as int);
            lemma_abs_mul_le(self.den as int, -(o.num as int), FRAC_LIM as int, FRAC_LIM as int);
        }
        if o.num == 0 {
            return None;
        }
        let rn = if o.num < 0 {
            -(self.num * o.den)
        } else {
            self.num * o.den
        };
        let rd = if o.num < 0 {
            self.den * (-o.num)
        } else {
            self.den * o.num
        };
        assert(rd > 0) by (nonlinear_arith)
            requires
                self.den > 0,
                o.num != 0,
                rd == if o.num < 0 {
                    self.den * (-o.num)
                } else {
                    self.den * o.num
                },
        ;
        let r = Self::normalize(rn, rd);
        proof {
            if let Some(f) = r {
                lemma_norm_value(rn as int, rd as int);
                assert(f.num() * (self.den() * o.num()) == (self.num() * o.den()) * f.den())
                    by (nonlinear_arith)
                    requires
                        f.num() * (rd as int) == (rn as int) * f.den(),
                        o.num() < 0 ==> rn as int == -(self.num() * o.den()) && rd as int
                            == self.den() * -o.num(),
                        o.num() >= 0 ==> rn as int == self.num() * o.den() && rd as int
                            == self.den() * o.num(),
                ;
            }
        }
        r
    }

    /// Exact negation.
    pub fn neg(&self) -> (r: Frac)
        ensures
            r.num() == -self.num(),
            r.den() == self.den(),
    {
        proof {
            use_type_invariant(self);
        }
        Frac { num: -self.num, den: self.den }
    }

    /// Exact order: `self <= o` as rational values.
    pub fn le(&self, o: &Frac) -> (r: bool)
        ensures
            r == self.spec_le(*o),
    {
        proof {
            use_type_invariant(self);
            use_type_invariant(o);
            lemma_abs_mul_le(self.num as int, o.den as int, FRAC_LIM as int, FRAC_LIM as int);
            lemma_abs_mul_le(o.num as int, self.den as int, FRAC_LIM as int, FRAC_LIM as int);
        }
        self.num * o.den <= o.num * self.den
    }

    /// Exact strict order: `self < o` as rational values.
    pub fn lt(&self, o: &Frac) -> (r: bool)
        ensures
            r == !o.spec_le(*self),
    {
        proof {
            use_type_invariant(self);
            use_type_invariant(o);
            lemma_abs_mul_le(self.num as int, o.den as int, FRAC_LIM as int, FRAC_LIM as int);
            lemma_abs_mul_le(o.num as int, self.den as int, FRAC_LIM as int, FRAC_LIM as int);
        }
        self.num * o.den < o.num * self.den
    }

    /// Exact value equality, independent of representation.
    pub fn eq_val(&self, o: &Frac) -> (r: bool)
        ensures
            r == self.spec_eq(*o),
    {
        proof {
            use_type_invariant(self);
            use_type_invariant(o);
            lemma_abs_mul_le(self.num as int, o.den as int, FRAC_LIM as int, FRAC_LIM as int);
            lemma_abs_mul_le(o.num as int, self.den as int, FRAC_LIM as int, FRAC_LIM as int);
        }
        self.num * o.den == o.num * self.den
    }

    /// Whether the value is zero.
    pub fn is_zero(&self) -> (r: bool)
        ensures
            r == (self.num() == 0),
    {
        self.num == 0
    }

    /// Whether the value is nonnegative.
    pub fn is_nonneg(&self) -> (r: bool)
        ensures
            r == (self.num() >= 0),
    {
        self.num >= 0
    }

    /// Builds a fraction directly from parts already known to be in range;
    /// for the geometry modules of this crate.
    pub(crate) fn from_parts(num: i128, den: i128) -> (r: Frac)
        requires
            -FRAC_LIM <= num <= FRAC_LIM,
            0 < den <= FRAC_LIM,
        ensures
            r.num() == num as int,
            r.den() == den as int,
    {
        Frac { num, den }
    }

    /// A rational upper bound on the square root of a non-negative fraction:
    /// the result `u` satisfies `u >= 0` and `u * u >= self` as values. `None`
    /// exactly when the reduced bound leaves the representable range.
    pub fn sqrt_ub(&self) -> (r: Option<Frac>)
        requires
            self.num() >= 0,
        ensures
            r is Some <==> sqrt_ub_fits(*self),
            match r {
                Some(u) => u.num() == norm_num(sqrt_floor(*self) + 1, self.den()) && u.den()
                    == norm_den(sqrt_floor(*self) + 1, self.den()) && u.num() > 0 && (u.num()
                    * u.num()) * self.den() >= self.num() * (u.den() * u.den()),
                None => true,
            },
    {
        proof {
            use_type_invariant(self);
            lemma_abs_mul_le(self.num(), self.den(), FRAC_LIM as int, FRAC_LIM as int);
        }
        let v = (self.num * self.den) as u128;
        let s = isqrt_u128(v);
        proof {
            assert((s as int) * (s as int) <= (FRAC_LIM as int) * (FRAC_LIM as int))
                by (nonlinear_arith)
                requires
                    (s as int) * (s as int) <= v as int,
                    v as int <= (FRAC_LIM as int) * (FRAC_LIM as int),
            ;
            assert(s as int <= FRAC_LIM as int) by (nonlinear_arith)
                requires
                    (s as int) * (s as int) <= (FRAC_LIM as int) * (FRAC_LIM as int),
                    s as int >= 0,
            ;
        }
        let ub = s as i128 + 1;
        proof {
            assert(is_sqrt_floor(s as int, self.num() * self.den()));
            lemma_isqrt_unique(s as int, sqrt_floor(*self), self.num() * self.den());
        }
        match Self::normalize(ub, self.den) {
            Some(u) => {
                proof {
                    use_type_invariant(u);
                    lemma_norm_value(ub as int, self.den());
                    let sn = self.num();
                    let sd = self.den();
                    assert(u.num() * sd == (ub as int) * u.den());
                    assert(v as int == sn * sd);
                    assert((v as int) < ((ub as int) * (ub as int)));
                    assert(u.num() > 0) by (nonlinear_arith)
                        requires
                            u.num() * sd == (ub as int) * u.den(),
                            ub as int > 0,
                            u.den() > 0,
                            sd > 0,
                    ;
                    assert((u.num() * u.num()) * sd >= sn * (u.den() * u.den()))
                        by (nonlinear_arith)
                        requires
                            u.num() * sd == (ub as int) * u.den(),
                            sn * sd < (ub as int) * (ub as int),
                            u.den() > 0,
                            u.num() > 0,
                            sd > 0,
                            sn >= 0,
                    ;
                }
                Some(u)
            },
            None => None,
        }
    }

    /// Reduces `raw_num / raw_den` by the gcd and checks the bounds.
    pub(crate) fn normalize(raw_num: i128, raw_den: i128) -> (r: Option<Frac>)
        requires
            raw_den > 0,
            raw_num > i128::MIN,
        ensures
            match r {
                Some(f) => norm_fits(raw_num as int, raw_den as int) && f.num() == norm_num(
                    raw_num as int,
                    raw_den as int,
                ) && f.den() == norm_den(raw_num as int, raw_den as int),
                None => !norm_fits(raw_num as int, raw_den as int),
            },
    {
        let ghost n = raw_num as int;
        let ghost d = raw_den as int;
        let neg = raw_num < 0;
        let a: u128 = if neg {
            (-raw_num) as u128
        } else {
            raw_num as u128
        };
        let dd: u128 = raw_den as u128;
        let g = gcd_u128(a, dd);
        proof {
            lemma_gcd(a as nat, dd as nat);
            assert(g > 0);
            assert(gcd_of(n, d) == g as int);
        }
        let na = a / g;
        let dq = dd / g;
        proof {
            lemma_norm_value(n, d);
            lemma_fundamental_div_mod(a as int, g as int);
            assert(a as int == (g as int) * (na as int));
            if neg {
                assert(n == (g as int) * (-(na as int))) by (nonlinear_arith)
                    requires
                        a as int == (g as int) * (na as int),
                        n == -(a as int),
                ;
                lemma_div_exact_neg(n, g as int, -(na as int));
                assert(norm_num(n, d) == -(na as int));
            } else {
                assert(norm_num(n, d) == na as int);
            }
            assert(norm_den(n, d) == dq as int);
        }
        if na <= (FRAC_LIM as u128) && dq <= (FRAC_LIM as u128) {
            let num = if neg {
                -(na as i128)
            } else {
                na as i128
            };
            Some(Frac { num, den: dq as i128 })
        } else {
            None
        }
    }
}

/// The integer square root of `num * den`: the unique `s >= 0` with
/// `s * s <= num den < (s + 1)^2`, used as the numerator bound of
/// [`Frac::sqrt_ub`].
pub open spec fn sqrt_floor(x: Frac) -> int {
    sqrt_floor_pair(x.num(), x.den())
}

/// The integer square root of `n * d`, for a raw fraction pair.
pub open spec fn sqrt_floor_pair(n: int, d: int) -> int {
    choose|s: int| 0 <= s && #[trigger] is_sqrt_floor(s, n * d)
}

/// Whether `s` is the integer square root of `v`.
pub open spec fn is_sqrt_floor(s: int, v: int) -> bool {
    s * s <= v < (s + 1) * (s + 1)
}

/// Whether the rational square-root upper bound of a non-negative fraction is
/// representable.
pub open spec fn sqrt_ub_fits(x: Frac) -> bool {
    norm_fits(sqrt_floor(x) + 1, x.den())
}

/// The integer square root is unique.
pub proof fn lemma_isqrt_unique(a: int, b: int, v: int)
    requires
        0 <= a,
        is_sqrt_floor(a, v),
        exists|s: int| 0 <= s && #[trigger] is_sqrt_floor(s, v),
        b == (choose|s: int| 0 <= s && #[trigger] is_sqrt_floor(s, v)),
    ensures
        a == b,
{
    let c = choose|s: int| 0 <= s && #[trigger] is_sqrt_floor(s, v);
    assert(0 <= c && is_sqrt_floor(c, v));
    assert(a == c) by (nonlinear_arith)
        requires
            0 <= a,
            0 <= c,
            a * a <= v < (a + 1) * (a + 1),
            c * c <= v < (c + 1) * (c + 1),
    ;
}

/// Integer square root: the greatest `r` with `r * r <= v`.
pub(crate) fn isqrt_u128(v: u128) -> (r: u128)
    ensures
        (r as int) * (r as int) <= v as int,
        (v as int) < (((r as int) + 1) * ((r as int) + 1)),
{
    let mut lo: u128 = 0;
    let mut hi: u128 = 0x10000000000000000;
    proof {
        assert((hi as int) * (hi as int) > v as int) by (nonlinear_arith)
            requires
                hi as int == 0x10000000000000000,
                (v as int) < 0x100000000000000000000000000000000,
        ;
    }
    while lo + 1 < hi
        invariant
            lo < hi,
            hi <= 0x10000000000000000,
            (lo as int) * (lo as int) <= v as int,
            (hi as int) * (hi as int) > v as int,
        decreases hi - lo,
    {
        let mid = lo + (hi - lo) / 2;
        proof {
            assert((mid as int) * (mid as int) < 0x100000000000000000000000000000000)
                by (nonlinear_arith)
                requires
                    (mid as int) < 0x10000000000000000,
                    mid as int >= 0,
            ;
        }
        if mid * mid <= v {
            lo = mid;
        } else {
            hi = mid;
        }
    }
    lo
}

/// Euclid's algorithm on machine integers.
pub(crate) fn gcd_u128(a: u128, b: u128) -> (g: u128)
    ensures
        g as nat == gcd_nat(a as nat, b as nat),
    decreases b,
{
    if b == 0 {
        a
    } else {
        gcd_u128(b, a % b)
    }
}

} // verus!
