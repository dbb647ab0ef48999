//! Points of the plane, in homogeneous rational coordinates.
//!
//! A [`Point`] stores `(x, y) == (xn / d, yn / d)` with one shared positive
//! denominator. Numerators and denominator are bounded by [`COORD_LIM`], the
//! precision budget of the whole geometry layer: every collision predicate of
//! the crate stays within `i128` because of this bound, so all predicates are
//! total and exact. A point whose reduced coordinates do not fit the budget is
//! rejected at construction.

use vstd::prelude::*;

verus! {

use crate::frac::{
    Frac, FRAC_LIM, gcd_nat, gcd_u128, iabs, lemma_gcd, lemma_divides_trans,
    lemma_exact_div_scale,
};
use crate::GeomError;

/// Bound on the numerators and denominator of a point: 2^8.
pub const COORD_LIM: i128 = 256;

/// Gcd of two coordinate numerators and their shared denominator.
pub open spec fn gcd3(xn: int, yn: int, d: int) -> int {
    gcd_nat(gcd_nat(iabs(xn) as nat, iabs(yn) as nat) as nat, d as nat) as int
}

/// Reduced x numerator of a raw homogeneous triple.
pub open spec fn norm3_x(xn: int, yn: int, d: int) -> int {
    xn / gcd3(xn, yn, d)
}

/// Reduced y numerator of a raw homogeneous triple.
pub open spec fn norm3_y(xn: int, yn: int, d: int) -> int {
    yn / gcd3(xn, yn, d)
}

/// Reduced denominator of a raw homogeneous triple.
pub open spec fn norm3_d(xn: int, yn: int, d: int) -> int {
    d / gcd3(xn, yn, d)
}

/// Whether the reduced triple stays within the precision budget.
pub open spec fn fits3(xn: int, yn: int, d: int) -> bool {
    &&& -COORD_LIM <= norm3_x(xn, yn, d) <= COORD_LIM
    &&& -COORD_LIM <= norm3_y(xn, yn, d) <= COORD_LIM
    &&& norm3_d(xn, yn, d) <= COORD_LIM
}

/// The point a raw homogeneous triple reduces to.
pub closed spec fn norm3_point(xn: int, yn: int, d: int) -> Point {
    Point {
        xn: norm3_x(xn, yn, d) as i128,
        yn: norm3_y(xn, yn, d) as i128,
        d: norm3_d(xn, yn, d) as i128,
    }
}

/// The triple gcd is positive, divides all three parts, and dividing by it
/// keeps both coordinate values.
pub proof fn lemma_gcd3(xn: int, yn: int, d: int)
    requires
        d > 0,
    ensures
        gcd3(xn, yn, d) > 0,
        iabs(xn) % gcd3(xn, yn, d) == 0,
        iabs(yn) % gcd3(xn, yn, d) == 0,
        d % gcd3(xn, yn, d) == 0,
        norm3_d(xn, yn, d) > 0,
        norm3_d(xn, yn, d) <= d,
        norm3_x(xn, yn, d) * d == xn * norm3_d(xn, yn, d),
        norm3_y(xn, yn, d) * d == yn * norm3_d(xn, yn, d),
        iabs(norm3_x(xn, yn, d)) <= iabs(xn),
        iabs(norm3_y(xn, yn, d)) <= iabs(yn),
{
    let ax = iabs(xn) as nat;
    let ay = iabs(yn) as nat;
    let g2 = gcd_nat(ax, ay);
    let g = gcd3(xn, yn, d);
    lemma_gcd(g2, d as nat);
    assert(g > 0);
    assert(d % g == 0);
    lemma_gcd(ax, ay);
    if g2 == 0 {
        // both numerators are zero; any positive g divides zero
        assert(iabs(xn) == 0 && iabs(yn) == 0);
        vstd::arithmetic::div_mod::lemma_small_mod(0, g as nat);
    } else {
        assert(g2 as int % g == 0);
        lemma_divides_trans(ax as int, g2 as int, g);
        lemma_divides_trans(ay as int, g2 as int, g);
    }
    lemma_exact_div_scale(xn, d, g);
    lemma_exact_div_scale(yn, d, g);
}

/// A point `(xn / d, yn / d)` of the plane.
#[derive(Clone, Copy, Debug, PartialEq, Eq, Structural)]
pub struct Point {
    xn: i128,
    yn: i128,
    d: i128,
}

impl Point {
    /// x numerator, as a mathematical integer.
    pub closed spec fn xn(self) -> int {
        self.xn as int
    }

    /// y numerator, as a mathematical integer.
    pub closed spec fn yn(self) -> int {
        self.yn as int
    }

    /// Shared denominator, as a mathematical integer; always positive.
    pub closed spec fn d(self) -> int {
        self.d as int
    }

    /// Precision bounds every point keeps by construction.
    #[verifier::type_invariant]
    pub open spec fn wf(self) -> bool {
        &&& -COORD_LIM <= self.xn() <= COORD_LIM
        &&& -COORD_LIM <= self.yn() <= COORD_LIM
        &&& 0 < self.d() <= COORD_LIM
    }

    /// Whether `self` and `o` denote the same point of the plane.
    pub open spec fn same_point(self, o: Point) -> bool {
        &&& self.xn() * o.d() == o.xn() * self.d()
        &&& self.yn() * o.d() == o.yn() * self.d()
    }

    /// Builds the point `(x, y)`; rejects coordinates whose reduced
    /// homogeneous form leaves the precision budget.
    pub fn new(x: &Frac, y: &Frac) -> (r: Result<Point, GeomError>)
        ensures
            ({
                let rxn = x.num() * y.den();
                let ryn = y.num() * x.den();
                let rd = x.den() * y.den();
                match r {
                    Ok(p) => fits3(rxn, ryn, rd) && p.xn() * x.den() == x.num() * p.d() && p.yn()
                        * y.den() == y.num() * p.d(),
                    Err(e) => !fits3(rxn, ryn, rd) && e == GeomError::OutOfRange,
                }
            }),
    {
        proof {
            use_type_invariant(x);
            use_type_invariant(y);
            crate::frac::lemma_abs_mul_le(x.num(), y.den(), FRAC_LIM as int, FRAC_LIM as int);
            crate::frac::lemma_abs_mul_le(y.num(), x.den(), FRAC_LIM as int, FRAC_LIM as int);
            crate::frac::lemma_abs_mul_le(x.den(), y.den(), FRAC_LIM as int, FRAC_LIM as int);
        }
        let xnum = x.numerator();
        let xden = x.denominator();
        let ynum = y.numerator();
        let yden = y.denominator();
        let rxn = xnum * yden;
        let ryn = ynum * xden;
        let rd = xden * yden;
        assert(rd > 0) by (nonlinear_arith)
            requires
                xden > 0,
                yden > 0,
                rd == xden * yden,
        ;
        let r = Self::from_raw(rxn, ryn, rd);
        proof {
            if let Ok(p) = r {
                use_type_invariant(p);
                assert(p.xn() * x.den() == x.num() * p.d()) by (nonlinear_arith)
                    requires
                        p.xn() * (rd as int) == (rxn as int) * p.d(),
                        rxn as int == x.num() * y.den(),
                        rd as int == x.den() * y.den(),
                        y.den() > 0,
                ;
                assert(p.yn() * y.den() == y.num() * p.d()) by (nonlinear_arith)
                    requires
                        p.yn() * (rd as int) == (ryn as int) * p.d(),
                        ryn as int == y.num() * x.den(),
                        rd as int == x.den() * y.den(),
                        x.den() > 0,
                ;
            }
        }
        r
    }

    /// Builds the point with integer coordinates `(x, y)`.
    pub fn new_int(x: i32, y: i32) -> (r: Result<Point, GeomError>)
        ensures
            match r {
                Ok(p) => -COORD_LIM <= x as int <= COORD_LIM && -COORD_LIM <= y as int <= COORD_LIM
                    && p.xn() == x as int && p.yn() == y as int && p.d() == 1,
                Err(e) => !(-COORD_LIM <= x as int <= COORD_LIM && -COORD_LIM <= y as int
                    <= COORD_LIM) && e == GeomError::OutOfRange,
            },
    {
        if -(COORD_LIM as i32) <= x && x <= COORD_LIM as i32 && -(COORD_LIM as i32) <= y && y
            <= COORD_LIM as i32 {
            Ok(Point { xn: x as i128, yn: y as i128, d: 1 })
        } else {
            Err(GeomError::OutOfRange)
        }
    }

    /// Reduces a raw homogeneous triple by its gcd and checks the precision
    /// budget; the exact entry point for all computed points of the crate.
    pub(crate) fn from_raw(rxn: i128, ryn: i128, rd: i128) -> (r: Result<Point, GeomError>)
        requires
            rd > 0,
            rxn > i128::MIN,
            ryn > i128::MIN,
        ensures
            match r {
                Ok(p) => fits3(rxn as int, ryn as int, rd as int) && p == norm3_point(
                    rxn as int,
                    ryn as int,
                    rd as int,
                ) && p.xn() == norm3_x(rxn as int, ryn as int, rd as int) && p.yn() == norm3_y(
                    rxn as int,
                    ryn as int,
                    rd as int,
                ) && p.d() == norm3_d(rxn as int, ryn as int, rd as int) && p.xn() * (rd as int) == (
                rxn as int) * p.d() && p.yn() * (rd as int) == (ryn as int) * p.d(),
                Err(e) => !fits3(rxn as int, ryn as int, rd as int) && e == GeomError::OutOfRange,
            },
    {
        let ax: u128 = if rxn < 0 {
            (-rxn) as u128
        } else {
            rxn as u128
        };
        let ay: u128 = if ryn < 0 {
            (-ryn) as u128
        } else {
            ryn as u128
        };
        let dd: u128 = rd as u128;
        let g = gcd_u128(gcd_u128(ax, ay), dd);
        proof {
            lemma_gcd3(rxn as int, ryn as int, rd as int);
            assert(g as int == gcd3(rxn as int, ryn as int, rd as int));
        }
        let nd = dd / g;
        let nx = ax / g;
        let ny = ay / g;
        proof {
            let gi = g as int;
            let xi = rxn as int;
            let yi = ryn as int;
            let di = rd as int;
            vstd::arithmetic::div_mod::lemma_fundamental_div_mod(iabs(xi), gi);
            vstd::arithmetic::div_mod::lemma_fundamental_div_mod(iabs(yi), gi);
            assert(nx as int == iabs(xi) / gi);
            assert(ny as int == iabs(yi) / gi);
            // relate the unsigned quotients to the signed reduced numerators
            if xi < 0 {
                assert(xi == gi * (-(nx as int))) by (nonlinear_arith)
                    requires
                        iabs(xi) == gi * (nx as int),
                        xi < 0,
                        iabs(xi) == -xi,
                ;
                crate::frac::lemma_div_exact_neg(xi, gi, -(nx as int));
            } else {
                assert(norm3_x(xi, yi, di) == nx as int);
            }
            if yi < 0 {
                assert(yi == gi * (-(ny as int))) by (nonlinear_arith)
                    requires
                        iabs(yi) == gi * (ny as int),
                        yi < 0,
                        iabs(yi) == -yi,
                ;
                crate::frac::lemma_div_exact_neg(yi, gi, -(ny as int));
            } else {
                assert(norm3_y(xi, yi, di) == ny as int);
            }
        }
        if nx <= (COORD_LIM as u128) && ny <= (COORD_LIM as u128) && nd <= (COORD_LIM as u128) {
            let xn = if rxn < 0 {
                -(nx as i128)
            } else {
                nx as i128
            };
            let yn = if ryn < 0 {
                -(ny as i128)
            } else {
                ny as i128
            };
            Ok(Point { xn, yn, d: nd as i128 })
        } else {
            Err(GeomError::OutOfRange)
        }
    }

    /// Brings the representation bounds of every point of a vector into
    /// scope; for the geometry modules of this crate.
    pub(crate) fn observe_all(points: &Vec<Point>)
        ensures
            forall|k: int| 0 <= k < points@.len() ==> (#[trigger] points@[k]).wf(),
    {
        let n = points.len();
        let mut i: usize = 0;
        while i < n
            invariant
                n == points@.len(),
                i <= n,
                forall|k: int| 0 <= k < i ==> (#[trigger] points@[k]).wf(),
            decreases n - i,
        {
            let p = &points[i];
            proof {
                use_type_invariant(p);
            }
            i = i + 1;
        }
    }

    /// Raw x numerator, for the geometry modules of this crate.
    pub(crate) fn x_numerator_raw(&self) -> (r: i128)
        ensures
            r as int == self.xn(),
    {
        self.xn
    }

    /// Raw y numerator, for the geometry modules of this crate.
    pub(crate) fn y_numerator_raw(&self) -> (r: i128)
        ensures
            r as int == self.yn(),
    {
        self.yn
    }

    /// Raw shared denominator, for the geometry modules of this crate.
    pub(crate) fn denominator_raw(&self) -> (r: i128)
        ensures
            r as int == self.d(),
    {
        self.d
    }

    /// The x coordinate as a fraction.
    pub fn x(&self) -> (r: Frac)
        ensures
            r.num() == self.xn(),
            r.den() == self.d(),
    {
        proof {
            use_type_invariant(self);
        }
        Frac::from_parts(self.xn, self.d)
    }

    /// The y coordinate as a fraction.
    pub fn y(&self) -> (r: Frac)
        ensures
            r.num() == self.yn(),
            r.den() == self.d(),
    {
        proof {
            use_type_invariant(self);
        }
        Frac::from_parts(self.yn, self.d)
    }

    /// Whether `self` and `o` denote the same point, exactly.
    pub fn eq_point(&self, o: &Point) -> (r: bool)
        ensures
            r == self.same_point(*o),
    {
        proof {
            use_type_invariant(self);
            use_type_invariant(o);
            crate::frac::lemma_abs_mul_le(self.xn(), o.d(), COORD_LIM as int, COORD_LIM as int);
            crate::frac::lemma_abs_mul_le(o.xn(), self.d(), COORD_LIM as int, COORD_LIM as int);
            crate::frac::lemma_abs_mul_le(self.yn(), o.d(), COORD_LIM as int, COORD_LIM as int);
            crate::frac::lemma_abs_mul_le(o.yn(), self.d(), COORD_LIM as int, COORD_LIM as int);
        }
        self.xn * o.d == o.xn * self.d && self.yn * o.d == o.yn * self.d
    }

    /// The squared distance between two points, exact. The numerator and
    /// denominator of the result are the cleared-denominator forms
    /// `(xn1 d2 - xn2 d1)^2 + (yn1 d2 - yn2 d1)^2` and `(d1 d2)^2`.
    pub fn sq_distance(&self, o: &Point) -> (r: Frac)
        ensures
            r.num() == sq_dist_num(*self, *o),
            r.den() == sq_dist_den(*self, *o),
    {
        proof {
            use_type_invariant(self);
            use_type_invariant(o);
            crate::frac::lemma_abs_mul_le(self.xn(), o.d(), 256, 256);
            crate::frac::lemma_abs_mul_le(o.xn(), self.d(), 256, 256);
            crate::frac::lemma_abs_mul_le(self.yn(), o.d(), 256, 256);
            crate::frac::lemma_abs_mul_le(o.yn(), self.d(), 256, 256);
            crate::frac::lemma_abs_mul_le(self.d(), o.d(), 256, 256);
        }
        let dx = self.xn * o.d - o.xn * self.d;
        let dy = self.yn * o.d - o.yn * self.d;
        let dd = self.d * o.d;
        proof {
            crate::frac::lemma_abs_mul_le(dx as int, dx as int, 131072, 131072);
            crate::frac::lemma_abs_mul_le(dy as int, dy as int, 131072, 131072);
            crate::frac::lemma_abs_mul_le(dd as int, dd as int, 65536, 65536);
            assert(dd > 0) by (nonlinear_arith)
                requires
                    self.d() > 0,
                    o.d() > 0,
                    dd as int == self.d() * o.d(),
            ;
            assert((dd as int) * (dd as int) > 0) by (nonlinear_arith)
                requires
                    dd as int > 0,
            ;
            assert((dx as int) * (dx as int) >= 0) by (nonlinear_arith);
            assert((dy as int) * (dy as int) >= 0) by (nonlinear_arith);
        }
        Frac::from_parts(dx * dx + dy * dy, dd * dd)
    }
}

/// Cleared-denominator numerator of the squared distance between two points.
pub open spec fn sq_dist_num(p: Point, q: Point) -> int {
    (p.xn() * q.d() - q.xn() * p.d()) * (p.xn() * q.d() - q.xn() * p.d()) + (p.yn() * q.d() - q.yn()
        * p.d()) * (p.yn() * q.d() - q.yn() * p.d())
}

/// Cleared-denominator denominator of the squared distance between two
/// points.
pub open spec fn sq_dist_den(p: Point, q: Point) -> int {
    (p.d() * q.d()) * (p.d() * q.d())
}


impl crate::geo_traits::DistanceFrom<Point> for Point {
    open spec fn sq_distance_rel(&self, other: &Point, f: Frac) -> bool {
        f.num() == sq_dist_num(*self, *other) && f.den() == sq_dist_den(*self, *other)
    }

    open spec fn sq_distance_fits(&self, other: &Point) -> bool {
        true
    }

    /// A point is its own boundary, so the query point always counts as
    /// exterior, as for segments.
    open spec fn sq_border_rel(
        &self,
        other: &Point,
        pos: crate::geo_traits::GeoPosition,
        f: Frac,
    ) -> bool {
        pos == crate::geo_traits::GeoPosition::Exterior && f.num() == sq_dist_num(*self, *other)
            && f.den() == sq_dist_den(*self, *other)
    }

    fn sq_distance(&self, other: &Point) -> (r: Result<Frac, crate::GeomError>) {
        Ok(self.sq_distance(other))
    }

    fn sq_distance_from_border(&self, other: &Point) -> (r: Result<
        (crate::geo_traits::GeoPosition, Frac),
        crate::GeomError,
    >) {
        Ok((crate::geo_traits::GeoPosition::Exterior, self.sq_distance(other)))
    }
}

} // verus!
