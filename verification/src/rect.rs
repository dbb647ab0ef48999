//! Axis-aligned rectangles.
//!
//! The four bounds are exact fractions within the coordinate precision
//! budget, with `x_min <= x_max` and `y_min <= y_max` established at
//! construction.

use vstd::prelude::*;

verus! {

use crate::frac::Frac;
use crate::point::{Point, COORD_LIM};
use crate::geo_traits::{CollidesWith, AlmostCollidesWith};
use crate::GeomError;

/// Whether a fraction stays within the coordinate precision budget.
pub open spec fn frac_small(f: Frac) -> bool {
    &&& -COORD_LIM <= f.num() <= COORD_LIM
    &&& 0 < f.den() <= COORD_LIM
}

/// An axis-aligned rectangle `[x_min, x_max] x [y_min, y_max]`.
#[derive(Clone, Copy, Debug, PartialEq, Eq, Structural)]
pub struct AARectangle {
    x_min: Frac,
    y_min: Frac,
    x_max: Frac,
    y_max: Frac,
}

impl AARectangle {
    /// Lower x bound.
    pub closed spec fn x_min(self) -> Frac {
        self.x_min
    }

    /// Lower y bound.
    pub closed spec fn y_min(self) -> Frac {
        self.y_min
    }

    /// Upper x bound.
    pub closed spec fn x_max(self) -> Frac {
        self.x_max
    }

    /// Upper y bound.
    pub closed spec fn y_max(self) -> Frac {
        self.y_max
    }

    /// Bounds are ordered and within the precision budget.
    #[verifier::type_invariant]
    pub open spec fn wf(self) -> bool {
        &&& frac_small(self.x_min())
        &&& frac_small(self.y_min())
        &&& frac_small(self.x_max())
        &&& frac_small(self.y_max())
        &&& self.x_min().spec_le(self.x_max())
        &&& self.y_min().spec_le(self.y_max())
    }

    /// Builds the rectangle; rejects unordered bounds and bounds outside the
    /// precision budget.
    pub fn new(x_min: Frac, y_min: Frac, x_max: Frac, y_max: Frac) -> (r: Result<
        AARectangle,
        GeomError,
    >)
        ensures
            match r {
                Ok(rect) => frac_small(x_min) && frac_small(y_min) && frac_small(x_max)
                    && frac_small(y_max) && x_min.spec_le(x_max) && y_min.spec_le(y_max)
                    && rect.x_min() == x_min && rect.y_min() == y_min && rect.x_max() == x_max
                    && rect.y_max() == y_max,
                Err(e) => {
                    &&& !(frac_small(x_min) && frac_small(y_min) && frac_small(x_max) && frac_small(
                        y_max,
                    ) && x_min.spec_le(x_max) && y_min.spec_le(y_max))
                    &&& (e == GeomError::OutOfRange <==> !(frac_small(x_min) && frac_small(y_min)
                        && frac_small(x_max) && frac_small(y_max)))
                    &&& (e == GeomError::InvalidRectangle <==> (frac_small(x_min) && frac_small(
                        y_min,
                    ) && frac_small(x_max) && frac_small(y_max) && !(x_min.spec_le(x_max)
                        && y_min.spec_le(y_max))))
                },
            },
    {
        if !(frac_is_small(&x_min) && frac_is_small(&y_min) && frac_is_small(&x_max)
            && frac_is_small(&y_max)) {
            Err(GeomError::OutOfRange)
        } else if !(x_min.le(&x_max) && y_min.le(&y_max)) {
            Err(GeomError::InvalidRectangle)
        } else {
            Ok(AARectangle { x_min, y_min, x_max, y_max })
        }
    }

    /// Lower x bound.
    pub fn get_x_min(&self) -> (r: Frac)
        ensures
            r == self.x_min(),
    {
        self.x_min
    }

    /// Lower y bound.
    pub fn get_y_min(&self) -> (r: Frac)
        ensures
            r == self.y_min(),
    {
        self.y_min
    }

    /// Upper x bound.
    pub fn get_x_max(&self) -> (r: Frac)
        ensures
            r == self.x_max(),
    {
        self.x_max
    }

    /// Upper y bound.
    pub fn get_y_max(&self) -> (r: Frac)
        ensures
            r == self.y_max(),
    {
        self.y_max
    }

    /// Exact area, `(x_max - x_min) * (y_max - y_min)`.
    pub fn area(&self) -> (r: Frac)
        ensures
            r.num() == rect_area_num(*self),
            r.den() == rect_area_den(*self),
    {
        proof {
            use_type_invariant(self);
            crate::frac::lemma_abs_mul_le(self.x_max().num(), self.x_min().den(), 256, 256);
            crate::frac::lemma_abs_mul_le(self.x_min().num(), self.x_max().den(), 256, 256);
            crate::frac::lemma_abs_mul_le(self.y_max().num(), self.y_min().den(), 256, 256);
            crate::frac::lemma_abs_mul_le(self.y_min().num(), self.y_max().den(), 256, 256);
            crate::frac::lemma_abs_mul_le(self.x_min().den(), self.x_max().den(), 256, 256);
            crate::frac::lemma_abs_mul_le(self.y_min().den(), self.y_max().den(), 256, 256);
        }
        let wn = self.x_max.numerator() * self.x_min.denominator() - self.x_min.numerator()
            * self.x_max.denominator();
        let hn = self.y_max.numerator() * self.y_min.denominator() - self.y_min.numerator()
            * self.y_max.denominator();
        let wd = self.x_min.denominator() * self.x_max.denominator();
        let hd = self.y_min.denominator() * self.y_max.denominator();
        proof {
            crate::frac::lemma_abs_mul_le(wn as int, hn as int, 131072, 131072);
            crate::frac::lemma_abs_mul_le(wd as int, hd as int, 65536, 65536);
            assert(wd > 0 && hd > 0 && (wd as int) * (hd as int) > 0) by (nonlinear_arith)
                requires
                    self.x_min().den() > 0,
                    self.x_max().den() > 0,
                    self.y_min().den() > 0,
                    self.y_max().den() > 0,
                    wd as int == self.x_min().den() * self.x_max().den(),
                    hd as int == self.y_min().den() * self.y_max().den(),
            ;
            assert(wn >= 0 && hn >= 0) by (nonlinear_arith)
                requires
                    self.x_min().spec_le(self.x_max()),
                    self.y_min().spec_le(self.y_max()),
                    wn as int == self.x_max().num() * self.x_min().den() - self.x_min().num()
                        * self.x_max().den(),
                    hn as int == self.y_max().num() * self.y_min().den() - self.y_min().num()
                        * self.y_max().den(),
            ;
            assert((wn as int) * (hn as int) >= 0) by (nonlinear_arith)
                requires
                    wn >= 0,
                    hn >= 0,
            ;
        }
        Frac::from_parts(wn * hn, wd * hd)
    }

    /// The center of the rectangle; rejected exactly when its reduced
    /// coordinates leave the precision budget.
    pub fn centroid(&self) -> (r: Result<Point, GeomError>)
        ensures
            r is Ok <==> centroid_fits(*self),
            match r {
                Ok(p) => p == centroid_point(*self) && is_midpoint(
                    p.xn(),
                    p.d(),
                    self.x_min(),
                    self.x_max(),
                ) && is_midpoint(p.yn(), p.d(), self.y_min(), self.y_max()),
                Err(e) => e == GeomError::OutOfRange,
            },
    {
        proof {
            use_type_invariant(self);
            crate::frac::lemma_abs_mul_le(self.x_min().num(), self.x_max().den(), 256, 256);
            crate::frac::lemma_abs_mul_le(self.x_max().num(), self.x_min().den(), 256, 256);
            crate::frac::lemma_abs_mul_le(self.y_min().num(), self.y_max().den(), 256, 256);
            crate::frac::lemma_abs_mul_le(self.y_max().num(), self.y_min().den(), 256, 256);
            crate::frac::lemma_abs_mul_le(self.x_min().den(), self.x_max().den(), 256, 256);
            crate::frac::lemma_abs_mul_le(self.y_min().den(), self.y_max().den(), 256, 256);
        }
        let xn = self.x_min.numerator() * self.x_max.denominator() + self.x_max.numerator()
            * self.x_min.denominator();
        let xd = 2 * (self.x_min.denominator() * self.x_max.denominator());
        let yn = self.y_min.numerator() * self.y_max.denominator() + self.y_max.numerator()
            * self.y_min.denominator();
        let yd = 2 * (self.y_min.denominator() * self.y_max.denominator());
        proof {
            crate::frac::lemma_abs_mul_le(xn as int, yd as int, 131072, 131072);
            crate::frac::lemma_abs_mul_le(yn as int, xd as int, 131072, 131072);
            crate::frac::lemma_abs_mul_le(xd as int, yd as int, 131072, 131072);
            assert(xd > 0 && yd > 0 && (xd as int) * (yd as int) > 0) by (nonlinear_arith)
                requires
                    self.x_min().den() > 0,
                    self.x_max().den() > 0,
                    self.y_min().den() > 0,
                    self.y_max().den() > 0,
                    xd as int == 2 * (self.x_min().den() * self.x_max().den()),
                    yd as int == 2 * (self.y_min().den() * self.y_max().den()),
            ;
        }
        let rxn = xn * yd;
        let ryn = yn * xd;
        let rd = xd * yd;
        match Point::from_raw(rxn, ryn, rd) {
            Ok(p) => {
                proof {
                    use_type_invariant(p);
                    assert(2 * p.xn() * (self.x_min().den() * self.x_max().den()) == (
                    self.x_min().num() * self.x_max().den() + self.x_max().num()
                        * self.x_min().den()) * p.d()) by (nonlinear_arith)
                        requires
                            p.xn() * (rd as int) == (rxn as int) * p.d(),
                            rxn as int == (xn as int) * (yd as int),
                            rd as int == (xd as int) * (yd as int),
                            xd as int == 2 * (self.x_min().den() * self.x_max().den()),
                            xn as int == self.x_min().num() * self.x_max().den() + self.x_max().num()
                                * self.x_min().den(),
                            yd > 0,
                    ;
                    assert(2 * p.yn() * (self.y_min().den() * self.y_max().den()) == (
                    self.y_min().num() * self.y_max().den() + self.y_max().num()
                        * self.y_min().den()) * p.d()) by (nonlinear_arith)
                        requires
                            p.yn() * (rd as int) == (ryn as int) * p.d(),
                            ryn as int == (yn as int) * (xd as int),
                            rd as int == (xd as int) * (yd as int),
                            yd as int == 2 * (self.y_min().den() * self.y_max().den()),
                            yn as int == self.y_min().num() * self.y_max().den() + self.y_max().num()
                                * self.y_min().den(),
                            xd > 0,
                    ;
                }
                Ok(p)
            },
            Err(e) => Err(e),
        }
    }

    /// Splits the rectangle at its center into its four quadrants, ordered
    /// `[top left, top right, bottom left, bottom right]`; rejected when a
    /// midpoint leaves the precision budget.
    pub fn quadrants(&self) -> (r: Result<(AARectangle, AARectangle, AARectangle, AARectangle), GeomError>)
        ensures
            r is Ok <==> mid_small(self.x_min(), self.x_max()) && mid_small(
                self.y_min(),
                self.y_max(),
            ),
            match r {
                Ok(qs) => {
                    &&& qs.0.x_min() == self.x_min() && qs.0.y_max() == self.y_max()
                    &&& qs.1.x_max() == self.x_max() && qs.1.y_max() == self.y_max()
                    &&& qs.2.x_min() == self.x_min() && qs.2.y_min() == self.y_min()
                    &&& qs.3.x_max() == self.x_max() && qs.3.y_min() == self.y_min()
                    &&& qs.0.x_max() == qs.1.x_min() && qs.2.x_max() == qs.3.x_min()
                    &&& qs.0.y_min() == qs.2.y_max() && qs.1.y_min() == qs.3.y_max()
                    &&& qs.0.x_max() == qs.2.x_max() && qs.0.y_min() == qs.1.y_min()
                    &&& is_midpoint(qs.0.x_max().num(), qs.0.x_max().den(), self.x_min(), self.x_max())
                    &&& is_midpoint(qs.0.y_min().num(), qs.0.y_min().den(), self.y_min(), self.y_max())
                },
                Err(e) => e == GeomError::OutOfRange,
            },
    {
        proof {
            use_type_invariant(self);
        }
        let two = Frac::from_int(2);
        let xs = match self.x_min.checked_add(&self.x_max) {
            Some(f) => f,
            None => {
                return Err(GeomError::OutOfRange);
            },
        };
        let xm = match xs.checked_div(&two) {
            Some(f) => f,
            None => {
                return Err(GeomError::OutOfRange);
            },
        };
        let ys = match self.y_min.checked_add(&self.y_max) {
            Some(f) => f,
            None => {
                return Err(GeomError::OutOfRange);
            },
        };
        let ym = match ys.checked_div(&two) {
            Some(f) => f,
            None => {
                return Err(GeomError::OutOfRange);
            },
        };
        proof {
            use_type_invariant(xs);
            use_type_invariant(xm);
            use_type_invariant(ys);
            use_type_invariant(ym);
            lemma_midpoint(self.x_min(), self.x_max(), xs, xm);
            lemma_midpoint(self.y_min(), self.y_max(), ys, ym);
            lemma_mid_between(
                self.x_min().num(),
                self.x_min().den(),
                self.x_max().num(),
                self.x_max().den(),
                xm.num(),
                xm.den(),
            );
            lemma_mid_between(
                self.y_min().num(),
                self.y_min().den(),
                self.y_max().num(),
                self.y_max().den(),
                ym.num(),
                ym.den(),
            );
        }
        if !(frac_is_small(&xm) && frac_is_small(&ym)) {
            return Err(GeomError::OutOfRange);
        }
        let tl = match AARectangle::new(self.x_min, ym, xm, self.y_max) {
            Ok(q) => q,
            Err(_) => {
                proof {
                    assert(false);
                }
                vstd::pervasive::unreached()
            },
        };
        let tr = match AARectangle::new(xm, ym, self.x_max, self.y_max) {
            Ok(q) => q,
            Err(_) => {
                proof {
                    assert(false);
                }
                vstd::pervasive::unreached()
            },
        };
        let bl = match AARectangle::new(self.x_min, self.y_min, xm, ym) {
            Ok(q) => q,
            Err(_) => {
                proof {
                    assert(false);
                }
                vstd::pervasive::unreached()
            },
        };
        let br = match AARectangle::new(xm, self.y_min, self.x_max, ym) {
            Ok(q) => q,
            Err(_) => {
                proof {
                    assert(false);
                }
                vstd::pervasive::unreached()
            },
        };
        Ok((tl, tr, bl, br))
    }
}

impl CollidesWith<AARectangle> for AARectangle {
    open spec fn collides_spec(&self, other: &AARectangle) -> bool {
        rects_collide(*self, *other)
    }

    /// Whether the closed rectangles overlap.
    fn collides_with(&self, other: &AARectangle) -> (r: bool) {
        self.x_min.le(&other.x_max) && other.x_min.le(&self.x_max) && self.y_min.le(&other.y_max)
            && other.y_min.le(&self.y_max)
    }
}

impl AlmostCollidesWith<AARectangle> for AARectangle {
    open spec fn almost_collides_spec(&self, other: &AARectangle) -> bool {
        rects_collide(*self, *other)
    }

    /// With exact arithmetic the lenient test coincides with the exact one.
    fn almost_collides_with(&self, other: &AARectangle) -> (r: bool) {
        self.collides_with(other)
    }
}

impl CollidesWith<Point> for AARectangle {
    open spec fn collides_spec(&self, other: &Point) -> bool {
        rect_contains_point(*self, *other)
    }

    /// Whether the point lies in the closed rectangle.
    fn collides_with(&self, other: &Point) -> (r: bool) {
        let px = other.x();
        let py = other.y();
        self.x_min.le(&px) && px.le(&self.x_max) && self.y_min.le(&py) && py.le(&self.y_max)
    }
}

/// The raw homogeneous triple of a rectangle's center.
pub open spec fn centroid_raw(r: AARectangle) -> (int, int, int) {
    let xn = r.x_min().num() * r.x_max().den() + r.x_max().num() * r.x_min().den();
    let xd = 2 * (r.x_min().den() * r.x_max().den());
    let yn = r.y_min().num() * r.y_max().den() + r.y_max().num() * r.y_min().den();
    let yd = 2 * (r.y_min().den() * r.y_max().den());
    (xn * yd, yn * xd, xd * yd)
}

/// Whether the rectangle's exact center is representable.
pub open spec fn centroid_fits(r: AARectangle) -> bool {
    crate::point::fits3(centroid_raw(r).0, centroid_raw(r).1, centroid_raw(r).2)
}

/// The rectangle's exact center, when representable.
pub open spec fn centroid_point(r: AARectangle) -> Point {
    crate::point::norm3_point(centroid_raw(r).0, centroid_raw(r).1, centroid_raw(r).2)
}

/// Whether `mn / md` is the midpoint of `a` and `b`, as values:
/// `2 m == a + b` in cross-multiplied form.
pub open spec fn is_midpoint(mn: int, md: int, a: Frac, b: Frac) -> bool {
    2 * mn * (a.den() * b.den()) == (a.num() * b.den() + b.num() * a.den()) * md
}

/// The exact reduced representation of the midpoint of `a` and `b`, as the
/// split computes it: the reduced sum, then the reduced halving; `None` once
/// a step leaves the representable range.
pub open spec fn mid_rep(a: Frac, b: Frac) -> Option<(int, int)> {
    let rn = a.num() * b.den() + b.num() * a.den();
    let rd = a.den() * b.den();
    if crate::frac::norm_fits(rn, rd) {
        let sn = crate::frac::norm_num(rn, rd);
        let sd = crate::frac::norm_den(rn, rd);
        if crate::frac::norm_fits(sn * 1, sd * 2) {
            Some((crate::frac::norm_num(sn * 1, sd * 2), crate::frac::norm_den(sn * 1, sd * 2)))
        } else {
            None
        }
    } else {
        None
    }
}

/// Whether the reduced midpoint stays within the coordinate precision budget.
pub open spec fn mid_small(a: Frac, b: Frac) -> bool {
    match mid_rep(a, b) {
        Some(m) => -COORD_LIM <= m.0 <= COORD_LIM && 0 < m.1 <= COORD_LIM,
        None => false,
    }
}

/// The midpoint of an ordered pair lies between the two, as values.
proof fn lemma_mid_between(an: int, ad: int, bn: int, bd: int, mn: int, md: int)
    requires
        ad > 0,
        bd > 0,
        md > 0,
        an * bd <= bn * ad,
        2 * mn * (ad * bd) == (an * bd + bn * ad) * md,
    ensures
        an * md <= mn * ad,
        mn * bd <= bn * md,
{
    assert((2 * (an * bd)) * md <= ((an * bd) + (bn * ad)) * md) by (nonlinear_arith)
        requires
            an * bd <= bn * ad,
            md > 0,
    ;
    assert((an * md) * (2 * bd) <= (mn * ad) * (2 * bd)) by (nonlinear_arith)
        requires
            (2 * (an * bd)) * md <= 2 * mn * (ad * bd),
    ;
    assert(an * md <= mn * ad) by (nonlinear_arith)
        requires
            (an * md) * (2 * bd) <= (mn * ad) * (2 * bd),
            bd > 0,
    ;
    assert(((an * bd) + (bn * ad)) * md <= (2 * (bn * ad)) * md) by (nonlinear_arith)
        requires
            an * bd <= bn * ad,
            md > 0,
    ;
    assert((mn * bd) * (2 * ad) <= (bn * md) * (2 * ad)) by (nonlinear_arith)
        requires
            2 * mn * (ad * bd) <= (2 * (bn * ad)) * md,
    ;
    assert(mn * bd <= bn * md) by (nonlinear_arith)
        requires
            (mn * bd) * (2 * ad) <= (bn * md) * (2 * ad),
            ad > 0,
    ;
}

/// From the contracts of `checked_add` and `checked_div` by two, the computed
/// value is the midpoint.
proof fn lemma_midpoint(a: Frac, b: Frac, s: Frac, m: Frac)
    requires
        s.num() * (a.den() * b.den()) == (a.num() * b.den() + b.num() * a.den()) * s.den(),
        m.num() * (s.den() * 2) == (s.num() * 1) * m.den(),
        a.den() > 0,
        b.den() > 0,
        s.den() > 0,
        m.den() > 0,
    ensures
        is_midpoint(m.num(), m.den(), a, b),
{
    assert(2 * m.num() * (a.den() * b.den()) == (a.num() * b.den() + b.num() * a.den()) * m.den())
        by (nonlinear_arith)
        requires
            s.num() * (a.den() * b.den()) == (a.num() * b.den() + b.num() * a.den()) * s.den(),
            m.num() * (s.den() * 2) == (s.num() * 1) * m.den(),
            a.den() > 0,
            b.den() > 0,
            s.den() > 0,
            m.den() > 0,
    ;
}

/// Closed overlap of two rectangles.
pub open spec fn rects_collide(a: AARectangle, b: AARectangle) -> bool {
    &&& a.x_min().spec_le(b.x_max())
    &&& b.x_min().spec_le(a.x_max())
    &&& a.y_min().spec_le(b.y_max())
    &&& b.y_min().spec_le(a.y_max())
}

/// Whether a point lies in a closed rectangle.
pub open spec fn rect_contains_point(r: AARectangle, p: Point) -> bool {
    &&& r.x_min().num() * p.d() <= p.xn() * r.x_min().den()
    &&& p.xn() * r.x_max().den() <= r.x_max().num() * p.d()
    &&& r.y_min().num() * p.d() <= p.yn() * r.y_min().den()
    &&& p.yn() * r.y_max().den() <= r.y_max().num() * p.d()
}

/// Cleared-denominator numerator of the rectangle's area.
pub open spec fn rect_area_num(r: AARectangle) -> int {
    (r.x_max().num() * r.x_min().den() - r.x_min().num() * r.x_max().den()) * (r.y_max().num()
        * r.y_min().den() - r.y_min().num() * r.y_max().den())
}

/// Denominator of the rectangle's area.
pub open spec fn rect_area_den(r: AARectangle) -> int {
    (r.x_min().den() * r.x_max().den()) * (r.y_min().den() * r.y_max().den())
}

/// Exec check that a fraction is within the coordinate precision budget.
pub fn frac_is_small(f: &Frac) -> (r: bool)
    ensures
        r == frac_small(*f),
{
    proof {
        use_type_invariant(f);
    }
    let n = f.numerator();
    let d = f.denominator();
    -(COORD_LIM) <= n && n <= COORD_LIM && d <= COORD_LIM
}


/// Cleared-denominator numerator of a rectangle's squared diagonal.
pub open spec fn rect_sq_diag_num(r: AARectangle) -> int {
    let wn = r.x_max().num() * r.x_min().den() - r.x_min().num() * r.x_max().den();
    let wd = r.x_min().den() * r.x_max().den();
    let hn = r.y_max().num() * r.y_min().den() - r.y_min().num() * r.y_max().den();
    let hd = r.y_min().den() * r.y_max().den();
    (wn * wn) * (hd * hd) + (hn * hn) * (wd * wd)
}

/// Denominator of a rectangle's squared diagonal.
pub open spec fn rect_sq_diag_den(r: AARectangle) -> int {
    let wd = r.x_min().den() * r.x_max().den();
    let hd = r.y_min().den() * r.y_max().den();
    (wd * wd) * (hd * hd)
}

impl crate::geo_traits::Shape for AARectangle {
    open spec fn centroid_rel(&self, p: Point) -> bool {
        p == centroid_point(*self)
    }

    open spec fn centroid_fits(&self) -> bool {
        centroid_fits(*self)
    }

    open spec fn area_num(&self) -> int {
        rect_area_num(*self)
    }

    open spec fn area_den(&self) -> int {
        rect_area_den(*self)
    }

    /// A rectangle is its own bounding box.
    open spec fn bbox_rel(&self, b: AARectangle) -> bool {
        b == *self
    }

    open spec fn bbox_fits(&self) -> bool {
        true
    }

    /// The squared diameter of a rectangle is its squared diagonal.
    open spec fn sq_diameter_rel(&self, f: Frac) -> bool {
        f.num() * rect_sq_diag_den(*self) == rect_sq_diag_num(*self) * f.den()
    }

    open spec fn sq_diameter_fits(&self) -> bool {
        crate::frac::norm_fits(rect_sq_diag_num(*self), rect_sq_diag_den(*self))
    }

    fn centroid(&self) -> (r: Result<Point, GeomError>) {
        AARectangle::centroid(self)
    }

    fn area(&self) -> (r: Frac) {
        proof {
            use_type_invariant(self);
        }
        AARectangle::area(self)
    }

    fn bbox(&self) -> (r: Result<AARectangle, GeomError>) {
        proof {
            use_type_invariant(self);
        }
        Ok(*self)
    }

    fn sq_diameter(&self) -> (r: Result<Frac, GeomError>) {
        proof {
            use_type_invariant(self);
            crate::frac::lemma_abs_mul_le(self.x_max().num(), self.x_min().den(), 256, 256);
            crate::frac::lemma_abs_mul_le(self.x_min().num(), self.x_max().den(), 256, 256);
            crate::frac::lemma_abs_mul_le(self.y_max().num(), self.y_min().den(), 256, 256);
            crate::frac::lemma_abs_mul_le(self.y_min().num(), self.y_max().den(), 256, 256);
            crate::frac::lemma_abs_mul_le(self.x_min().den(), self.x_max().den(), 256, 256);
            crate::frac::lemma_abs_mul_le(self.y_min().den(), self.y_max().den(), 256, 256);
        }
        let wn = self.x_max.numerator() * self.x_min.denominator() - self.x_min.numerator()
            * self.x_max.denominator();
        let hn = self.y_max.numerator() * self.y_min.denominator() - self.y_min.numerator()
            * self.y_max.denominator();
        let wd = self.x_min.denominator() * self.x_max.denominator();
        let hd = self.y_min.denominator() * self.y_max.denominator();
        proof {
            crate::frac::lemma_abs_mul_le(wn as int, wn as int, 131072, 131072);
            crate::frac::lemma_abs_mul_le(hn as int, hn as int, 131072, 131072);
            crate::frac::lemma_abs_mul_le(wd as int, wd as int, 65536, 65536);
            crate::frac::lemma_abs_mul_le(hd as int, hd as int, 65536, 65536);
            crate::frac::lemma_abs_mul_le(
                (wn as int) * (wn as int),
                (hd as int) * (hd as int),
                0x400000000,
                0x100000000,
            );
            crate::frac::lemma_abs_mul_le(
                (hn as int) * (hn as int),
                (wd as int) * (wd as int),
                0x400000000,
                0x100000000,
            );
            crate::frac::lemma_abs_mul_le(
                (wd as int) * (wd as int),
                (hd as int) * (hd as int),
                0x100000000,
                0x100000000,
            );
            assert(wd > 0 && hd > 0) by (nonlinear_arith)
                requires
                    self.x_min().den() > 0,
                    self.x_max().den() > 0,
                    self.y_min().den() > 0,
                    self.y_max().den() > 0,
                    wd as int == self.x_min().den() * self.x_max().den(),
                    hd as int == self.y_min().den() * self.y_max().den(),
            ;
            assert(((wd as int) * (wd as int)) * ((hd as int) * (hd as int)) > 0)
                by (nonlinear_arith)
                requires
                    wd > 0,
                    hd > 0,
            ;
        }
        let num = (wn * wn) * (hd * hd) + (hn * hn) * (wd * wd);
        let den = (wd * wd) * (hd * hd);
        match Frac::normalize(num, den) {
            Some(f) => {
                proof {
                    crate::frac::lemma_norm_value(num as int, den as int);
                }
                Ok(f)
            },
            None => Err(GeomError::OutOfRange),
        }
    }
}

} // verus!
