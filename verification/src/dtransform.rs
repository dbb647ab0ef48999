//! Decomposed transformations: an exact rotation plus a translation.
//!
//! A rotation is a point of the unit circle, given by its cosine and sine as
//! exact fractions with `cos^2 + sin^2 == 1`; an angle never appears, so no
//! trigonometry is approximated. A pose applies the rotation first and the
//! translation second.

use vstd::prelude::*;

verus! {

use crate::frac::Frac;
use crate::point::Point;
use crate::rect::{frac_small, frac_is_small};
use crate::GeomError;

/// An exact rotation: a rational point of the unit circle.
#[derive(Clone, Copy, Debug, PartialEq, Eq, Structural)]
pub struct Rotation {
    cos: Frac,
    sin: Frac,
}

/// The unit-circle equation for two integer fractions, on cleared
/// denominators.
pub open spec fn unit_ints(cn: int, cd: int, sn: int, sd: int) -> bool {
    (cn * cn) * (sd * sd) + (sn * sn) * (cd * cd) == (cd * cd) * (sd * sd)
}

/// The unit-circle equation for two fractions, on cleared denominators.
pub open spec fn on_unit_circle(c: Frac, s: Frac) -> bool {
    unit_ints(c.num(), c.den(), s.num(), s.den())
}

/// Whether a raw fraction reduces into the coordinate precision budget.
pub open spec fn norm_small(n: int, d: int) -> bool {
    &&& crate::frac::norm_fits(n, d)
    &&& -crate::point::COORD_LIM <= crate::frac::norm_num(n, d) <= crate::point::COORD_LIM
    &&& 0 < crate::frac::norm_den(n, d) <= crate::point::COORD_LIM
}

impl Rotation {
    /// The cosine.
    pub closed spec fn cos(self) -> Frac {
        self.cos
    }

    /// The sine.
    pub closed spec fn sin(self) -> Frac {
        self.sin
    }

    /// Cosine and sine lie on the unit circle and within the precision
    /// budget.
    #[verifier::type_invariant]
    pub open spec fn wf(self) -> bool {
        &&& frac_small(self.cos())
        &&& frac_small(self.sin())
        &&& on_unit_circle(self.cos(), self.sin())
    }

    /// Builds the rotation with the given cosine and sine; rejects a pair off
    /// the unit circle, and one outside the precision budget.
    pub fn new(cos: Frac, sin: Frac) -> (r: Result<Rotation, GeomError>)
        ensures
            match r {
                Ok(rot) => frac_small(cos) && frac_small(sin) && on_unit_circle(cos, sin)
                    && rot.cos() == cos && rot.sin() == sin,
                Err(e) => {
                    &&& !(frac_small(cos) && frac_small(sin) && on_unit_circle(cos, sin))
                    &&& (e == GeomError::OutOfRange || e == GeomError::NotOnUnitCircle)
                    &&& (e == GeomError::NotOnUnitCircle <==> (frac_small(cos) && frac_small(sin)
                        && !on_unit_circle(cos, sin)))
                },
            },
    {
        if !(frac_is_small(&cos) && frac_is_small(&sin)) {
            return Err(GeomError::OutOfRange);
        }
        proof {
            use_type_invariant(cos);
            use_type_invariant(sin);
            crate::frac::lemma_abs_mul_le(cos.num(), cos.num(), 256, 256);
            crate::frac::lemma_abs_mul_le(sin.num(), sin.num(), 256, 256);
            crate::frac::lemma_abs_mul_le(cos.den(), cos.den(), 256, 256);
            crate::frac::lemma_abs_mul_le(sin.den(), sin.den(), 256, 256);
            crate::frac::lemma_abs_mul_le(
                cos.num() * cos.num(),
                sin.den() * sin.den(),
                65536,
                65536,
            );
            crate::frac::lemma_abs_mul_le(
                sin.num() * sin.num(),
                cos.den() * cos.den(),
                65536,
                65536,
            );
            crate::frac::lemma_abs_mul_le(
                cos.den() * cos.den(),
                sin.den() * sin.den(),
                65536,
                65536,
            );
        }
        let cn = cos.numerator();
        let cd = cos.denominator();
        let sn = sin.numerator();
        let sd = sin.denominator();
        if (cn * cn) * (sd * sd) + (sn * sn) * (cd * cd) == (cd * cd) * (sd * sd) {
            Ok(Rotation { cos, sin })
        } else {
            Err(GeomError::NotOnUnitCircle)
        }
    }

    /// The identity rotation.
    pub fn identity() -> (r: Rotation)
        ensures
            r.cos().num() == 1,
            r.cos().den() == 1,
            r.sin().num() == 0,
            r.sin().den() == 1,
    {
        let c = Frac::one();
        let s = Frac::zero();
        proof {
            assert((c.num() * c.num()) * (s.den() * s.den()) + (s.num() * s.num()) * (c.den()
                * c.den()) == (c.den() * c.den()) * (s.den() * s.den())) by (nonlinear_arith)
                requires
                    c.num() == 1,
                    c.den() == 1,
                    s.num() == 0,
                    s.den() == 1,
            ;
        }
        Rotation { cos: c, sin: s }
    }

    /// The cosine.
    pub fn get_cos(&self) -> (r: Frac)
        ensures
            r == self.cos(),
    {
        self.cos
    }

    /// The sine.
    pub fn get_sin(&self) -> (r: Frac)
        ensures
            r == self.sin(),
    {
        self.sin
    }
}

/// The product of two positive denominators is positive.
proof fn lemma_den_pos_mul(a: int, b: int)
    by (nonlinear_arith)
    requires
        a > 0,
        b > 0,
    ensures
        a * b > 0,
{
}

/// Exact pair value of the cosine of a composed rotation,
/// `c1 c2 - s1 s2`, on cleared denominators.
pub open spec fn composed_cos(r1: Rotation, r2: Rotation) -> (int, int) {
    let c1 = r1.cos();
    let s1 = r1.sin();
    let c2 = r2.cos();
    let s2 = r2.sin();
    (
        (c1.num() * c2.num()) * (s1.den() * s2.den()) - (s1.num() * s2.num()) * (c1.den()
            * c2.den()),
        (c1.den() * c2.den()) * (s1.den() * s2.den()),
    )
}

/// Exact pair value of the sine of a composed rotation,
/// `s1 c2 + c1 s2`, on cleared denominators.
pub open spec fn composed_sin(r1: Rotation, r2: Rotation) -> (int, int) {
    let c1 = r1.cos();
    let s1 = r1.sin();
    let c2 = r2.cos();
    let s2 = r2.sin();
    (
        (s1.num() * c2.num()) * (c1.den() * s2.den()) + (c1.num() * s2.num()) * (s1.den()
            * c2.den()),
        (s1.den() * c2.den()) * (c1.den() * s2.den()),
    )
}

/// Exact pair value of the x translation of a composed pose,
/// `c1 tx2 - s1 ty2 + tx1`, on cleared denominators.
pub open spec fn composed_tx(r1: Rotation, tx1: Frac, tx2: Frac, ty2: Frac) -> (int, int) {
    let c1 = r1.cos();
    let s1 = r1.sin();
    let p0 = (c1.num() * tx2.num()) * (s1.den() * ty2.den()) - (s1.num() * ty2.num()) * (c1.den()
        * tx2.den());
    let p1 = (c1.den() * tx2.den()) * (s1.den() * ty2.den());
    (p0 * tx1.den() + tx1.num() * p1, p1 * tx1.den())
}

/// Exact pair value of the y translation of a composed pose,
/// `s1 tx2 + c1 ty2 + ty1`, on cleared denominators.
pub open spec fn composed_ty(r1: Rotation, ty1: Frac, tx2: Frac, ty2: Frac) -> (int, int) {
    let c1 = r1.cos();
    let s1 = r1.sin();
    let p0 = (s1.num() * tx2.num()) * (c1.den() * ty2.den()) + (c1.num() * ty2.num()) * (s1.den()
        * tx2.den());
    let p1 = (s1.den() * tx2.den()) * (c1.den() * ty2.den());
    (p0 * ty1.den() + ty1.num() * p1, p1 * ty1.den())
}

/// Whether the composition of two poses is representable: all four reduced
/// components stay within the precision budget and the reduced rotation pair
/// lies on the unit circle (which it always does mathematically; the check is
/// part of the exact construction). Composition succeeds exactly then.
pub open spec fn composition_representable(a: DTransformation, b: DTransformation) -> bool {
    let cc = composed_cos(a.rotation(), b.rotation());
    let cs = composed_sin(a.rotation(), b.rotation());
    let ctx = composed_tx(a.rotation(), a.translation().0, b.translation().0, b.translation().1);
    let cty = composed_ty(a.rotation(), a.translation().1, b.translation().0, b.translation().1);
    &&& norm_small(cc.0, cc.1)
    &&& norm_small(cs.0, cs.1)
    &&& norm_small(ctx.0, ctx.1)
    &&& norm_small(cty.0, cty.1)
    &&& unit_ints(
        crate::frac::norm_num(cc.0, cc.1),
        crate::frac::norm_den(cc.0, cc.1),
        crate::frac::norm_num(cs.0, cs.1),
        crate::frac::norm_den(cs.0, cs.1),
    )
}

/// Exact pair value of the x translation of an inverse pose,
/// `-(cos tx + sin ty)`, on cleared denominators.
pub open spec fn inverse_tx(a: DTransformation) -> (int, int) {
    let c = a.rotation().cos();
    let s = a.rotation().sin();
    let tx = a.translation().0;
    let ty = a.translation().1;
    (
        -((c.num() * tx.num()) * (s.den() * ty.den()) + (s.num() * ty.num()) * (c.den()
            * tx.den())),
        (c.den() * tx.den()) * (s.den() * ty.den()),
    )
}

/// Exact pair value of the y translation of an inverse pose,
/// `sin tx - cos ty`, on cleared denominators.
pub open spec fn inverse_ty(a: DTransformation) -> (int, int) {
    let c = a.rotation().cos();
    let s = a.rotation().sin();
    let tx = a.translation().0;
    let ty = a.translation().1;
    (
        (s.num() * tx.num()) * (c.den() * ty.den()) - (c.num() * ty.num()) * (s.den() * tx.den()),
        (s.den() * tx.den()) * (c.den() * ty.den()),
    )
}

/// Whether the inverse of a pose is representable: both reduced translation
/// components stay within the precision budget (the inverse rotation always
/// is). Inversion succeeds exactly then.
pub open spec fn inversion_representable(a: DTransformation) -> bool {
    &&& norm_small(inverse_tx(a).0, inverse_tx(a).1)
    &&& norm_small(inverse_ty(a).0, inverse_ty(a).1)
}

/// A pose: a rotation followed by a translation.
#[derive(Clone, Copy, Debug, PartialEq, Eq, Structural)]
pub struct DTransformation {
    rotation: Rotation,
    tx: Frac,
    ty: Frac,
}

/// Cleared-denominator x numerator of the image of `p` under rotation `rot`
/// followed by translation `(tx, ty)`: `cos p.x - sin p.y + tx`.
pub open spec fn image_xn(rot: Rotation, tx: Frac, p: Point) -> int {
    let c = rot.cos();
    let s = rot.sin();
    (c.num() * s.den()) * (p.xn() * tx.den()) - (s.num() * c.den()) * (p.yn() * tx.den())
        + tx.num() * ((c.den() * s.den()) * p.d())
}

/// Denominator of the x coordinate of the image.
pub open spec fn image_xd(rot: Rotation, tx: Frac, p: Point) -> int {
    (rot.cos().den() * rot.sin().den()) * (p.d() * tx.den())
}

/// Cleared-denominator y numerator of the image: `sin p.x + cos p.y + ty`.
pub open spec fn image_yn(rot: Rotation, ty: Frac, p: Point) -> int {
    let c = rot.cos();
    let s = rot.sin();
    (s.num() * c.den()) * (p.xn() * ty.den()) + (c.num() * s.den()) * (p.yn() * ty.den())
        + ty.num() * ((c.den() * s.den()) * p.d())
}

/// Denominator of the y coordinate of the image.
pub open spec fn image_yd(rot: Rotation, ty: Frac, p: Point) -> int {
    (rot.cos().den() * rot.sin().den()) * (p.d() * ty.den())
}

/// Whether the image of `p` under the pose is representable: its reduced
/// homogeneous form stays within the precision budget.
pub open spec fn image_fits(rot: Rotation, tx: Frac, ty: Frac, p: Point) -> bool {
    crate::point::fits3(
        image_xn(rot, tx, p) * image_yd(rot, ty, p),
        image_yn(rot, ty, p) * image_xd(rot, tx, p),
        image_xd(rot, tx, p) * image_yd(rot, ty, p),
    )
}

/// The exact image of `p` under the pose, when representable.
pub open spec fn image_point(rot: Rotation, tx: Frac, ty: Frac, p: Point) -> Point {
    crate::point::norm3_point(
        image_xn(rot, tx, p) * image_yd(rot, ty, p),
        image_yn(rot, ty, p) * image_xd(rot, tx, p),
        image_xd(rot, tx, p) * image_yd(rot, ty, p),
    )
}

/// Whether the point `q` is the image of `p` under rotation `rot` followed by
/// translation `(tx, ty)`:
/// `q.x == cos p.x - sin p.y + tx` and `q.y == sin p.x + cos p.y + ty`,
/// in cross-multiplied form over the denominators involved.
pub open spec fn maps_point(rot: Rotation, tx: Frac, ty: Frac, p: Point, q: Point) -> bool {
    let c = rot.cos();
    let s = rot.sin();
    &&& q.xn() * ((c.den() * s.den()) * (p.d() * tx.den())) == ((c.num() * s.den()) * (p.xn()
        * tx.den()) - (s.num() * c.den()) * (p.yn() * tx.den()) + tx.num() * ((c.den() * s.den())
        * p.d())) * q.d()
    &&& q.yn() * ((c.den() * s.den()) * (p.d() * ty.den())) == ((s.num() * c.den()) * (p.xn()
        * ty.den()) + (c.num() * s.den()) * (p.yn() * ty.den()) + ty.num() * ((c.den() * s.den())
        * p.d())) * q.d()
}

impl DTransformation {
    /// The rotation part.
    pub closed spec fn rotation(self) -> Rotation {
        self.rotation
    }

    /// The translation part.
    pub closed spec fn translation(self) -> (Frac, Frac) {
        (self.tx, self.ty)
    }

    /// Translations stay within the precision budget.
    #[verifier::type_invariant]
    pub open spec fn wf(self) -> bool {
        &&& frac_small(self.translation().0)
        &&& frac_small(self.translation().1)
    }

    /// Builds the pose; rejects a translation outside the precision budget.
    pub fn new(rotation: Rotation, translation: (Frac, Frac)) -> (r: Result<
        DTransformation,
        GeomError,
    >)
        ensures
            match r {
                Ok(t) => frac_small(translation.0) && frac_small(translation.1) && t.rotation()
                    == rotation && t.translation() == translation,
                Err(e) => !(frac_small(translation.0) && frac_small(translation.1)) && e
                    == GeomError::OutOfRange,
            },
    {
        if frac_is_small(&translation.0) && frac_is_small(&translation.1) {
            Ok(DTransformation { rotation, tx: translation.0, ty: translation.1 })
        } else {
            Err(GeomError::OutOfRange)
        }
    }

    /// The pose that leaves everything in place.
    pub fn empty() -> (r: DTransformation)
        ensures
            r.rotation().cos().num() == 1 && r.rotation().cos().den() == 1,
            r.rotation().sin().num() == 0 && r.rotation().sin().den() == 1,
            r.translation().0.num() == 0 && r.translation().0.den() == 1,
            r.translation().1.num() == 0 && r.translation().1.den() == 1,
    {
        DTransformation { rotation: Rotation::identity(), tx: Frac::zero(), ty: Frac::zero() }
    }

    /// Whether the pose leaves every point in place: the identity rotation
    /// and the zero translation, as values.
    pub fn is_empty(&self) -> (r: bool)
        ensures
            r == (self.rotation().cos().num() == self.rotation().cos().den()
                && self.rotation().sin().num() == 0 && self.translation().0.num() == 0
                && self.translation().1.num() == 0),
    {
        proof {
            use_type_invariant(&self.rotation);
            use_type_invariant(&self.rotation.cos);
        }
        let one = Frac::one();
        self.rotation.cos.eq_val(&one) && self.rotation.sin.is_zero() && self.tx.is_zero()
            && self.ty.is_zero()
    }

    /// The rotation part.
    pub fn get_rotation(&self) -> (r: Rotation)
        ensures
            r == self.rotation(),
    {
        self.rotation
    }

    /// The translation part.
    pub fn get_translation(&self) -> (r: (Frac, Frac))
        ensures
            r == self.translation(),
    {
        proof {
            use_type_invariant(self);
        }
        (self.tx, self.ty)
    }

    /// The pose that applies `other` first and `self` second: the rotations
    /// compose and the translation is `self`'s rotation applied to `other`'s
    /// translation, plus `self`'s own. Because poses are kept decomposed, the
    /// composition of two poses is again a pose — composing and then reading
    /// the rotation and translation off is exact, with no matrix round trip.
    /// `Err` only when an exact component leaves the representable range.
    pub fn compose(&self, other: &DTransformation) -> (r: Result<DTransformation, GeomError>)
        ensures
            r is Ok <==> composition_representable(*self, *other),
            match r {
                Ok(t) => {
                    let cc = composed_cos(self.rotation(), other.rotation());
                    let cs = composed_sin(self.rotation(), other.rotation());
                    let ctx = composed_tx(
                        self.rotation(),
                        self.translation().0,
                        other.translation().0,
                        other.translation().1,
                    );
                    let cty = composed_ty(
                        self.rotation(),
                        self.translation().1,
                        other.translation().0,
                        other.translation().1,
                    );
                    &&& t.rotation().cos().num() * cc.1 == cc.0 * t.rotation().cos().den()
                    &&& t.rotation().sin().num() * cs.1 == cs.0 * t.rotation().sin().den()
                    &&& t.translation().0.num() * ctx.1 == ctx.0 * t.translation().0.den()
                    &&& t.translation().1.num() * cty.1 == cty.0 * t.translation().1.den()
                },
                Err(e) => e == GeomError::OutOfRange || e == GeomError::NotOnUnitCircle,
            },
    {
        proof {
            use_type_invariant(self);
            use_type_invariant(other);
            use_type_invariant(&self.rotation);
            use_type_invariant(&other.rotation);
            use_type_invariant(&self.tx);
            use_type_invariant(&self.ty);
            use_type_invariant(&other.tx);
            use_type_invariant(&other.ty);
        }
        let c1n = self.rotation.cos.numerator();
        let c1d = self.rotation.cos.denominator();
        let s1n = self.rotation.sin.numerator();
        let s1d = self.rotation.sin.denominator();
        let c2n = other.rotation.cos.numerator();
        let c2d = other.rotation.cos.denominator();
        let s2n = other.rotation.sin.numerator();
        let s2d = other.rotation.sin.denominator();
        let t1xn = self.tx.numerator();
        let t1xd = self.tx.denominator();
        let t1yn = self.ty.numerator();
        let t1yd = self.ty.denominator();
        let t2xn = other.tx.numerator();
        let t2xd = other.tx.denominator();
        let t2yn = other.ty.numerator();
        let t2yd = other.ty.denominator();
        proof {
            let l = 256;
            crate::frac::lemma_abs_mul_le(c1n as int, c2n as int, l, l);
            crate::frac::lemma_abs_mul_le(s1n as int, s2n as int, l, l);
            crate::frac::lemma_abs_mul_le(s1n as int, c2n as int, l, l);
            crate::frac::lemma_abs_mul_le(c1n as int, s2n as int, l, l);
            crate::frac::lemma_abs_mul_le(c1d as int, c2d as int, l, l);
            crate::frac::lemma_abs_mul_le(s1d as int, s2d as int, l, l);
            crate::frac::lemma_abs_mul_le(s1d as int, c2d as int, l, l);
            crate::frac::lemma_abs_mul_le(c1d as int, s2d as int, l, l);
            crate::frac::lemma_abs_mul_le(c1n as int, t2xn as int, l, l);
            crate::frac::lemma_abs_mul_le(s1n as int, t2yn as int, l, l);
            crate::frac::lemma_abs_mul_le(s1n as int, t2xn as int, l, l);
            crate::frac::lemma_abs_mul_le(c1n as int, t2yn as int, l, l);
            crate::frac::lemma_abs_mul_le(c1d as int, t2xd as int, l, l);
            crate::frac::lemma_abs_mul_le(s1d as int, t2yd as int, l, l);
            crate::frac::lemma_abs_mul_le(s1d as int, t2xd as int, l, l);
            crate::frac::lemma_abs_mul_le(c1d as int, t2yd as int, l, l);
            crate::frac::lemma_abs_mul_le(
                (c1n as int) * (c2n as int),
                (s1d as int) * (s2d as int),
                65536,
                65536,
            );
            crate::frac::lemma_abs_mul_le(
                (s1n as int) * (s2n as int),
                (c1d as int) * (c2d as int),
                65536,
                65536,
            );
            crate::frac::lemma_abs_mul_le(
                (c1d as int) * (c2d as int),
                (s1d as int) * (s2d as int),
                65536,
                65536,
            );
            crate::frac::lemma_abs_mul_le(
                (s1n as int) * (c2n as int),
                (c1d as int) * (s2d as int),
                65536,
                65536,
            );
            crate::frac::lemma_abs_mul_le(
                (c1n as int) * (s2n as int),
                (s1d as int) * (c2d as int),
                65536,
                65536,
            );
            crate::frac::lemma_abs_mul_le(
                (s1d as int) * (c2d as int),
                (c1d as int) * (s2d as int),
                65536,
                65536,
            );
            crate::frac::lemma_abs_mul_le(
                (c1n as int) * (t2xn as int),
                (s1d as int) * (t2yd as int),
                65536,
                65536,
            );
            crate::frac::lemma_abs_mul_le(
                (s1n as int) * (t2yn as int),
                (c1d as int) * (t2xd as int),
                65536,
                65536,
            );
            crate::frac::lemma_abs_mul_le(
                (c1d as int) * (t2xd as int),
                (s1d as int) * (t2yd as int),
                65536,
                65536,
            );
            crate::frac::lemma_abs_mul_le(
                (s1n as int) * (t2xn as int),
                (c1d as int) * (t2yd as int),
                65536,
                65536,
            );
            crate::frac::lemma_abs_mul_le(
                (c1n as int) * (t2yn as int),
                (s1d as int) * (t2xd as int),
                65536,
                65536,
            );
            crate::frac::lemma_abs_mul_le(
                (s1d as int) * (t2xd as int),
                (c1d as int) * (t2yd as int),
                65536,
                65536,
            );
        }
        let cos_raw_n = (c1n * c2n) * (s1d * s2d) - (s1n * s2n) * (c1d * c2d);
        let cos_raw_d = (c1d * c2d) * (s1d * s2d);
        let sin_raw_n = (s1n * c2n) * (c1d * s2d) + (c1n * s2n) * (s1d * c2d);
        let sin_raw_d = (s1d * c2d) * (c1d * s2d);
        let tx_p0 = (c1n * t2xn) * (s1d * t2yd) - (s1n * t2yn) * (c1d * t2xd);
        let tx_p1 = (c1d * t2xd) * (s1d * t2yd);
        let ty_p0 = (s1n * t2xn) * (c1d * t2yd) + (c1n * t2yn) * (s1d * t2xd);
        let ty_p1 = (s1d * t2xd) * (c1d * t2yd);
        proof {
            lemma_den_pos_mul(c1d as int, c2d as int);
            lemma_den_pos_mul(s1d as int, s2d as int);
            lemma_den_pos_mul(s1d as int, c2d as int);
            lemma_den_pos_mul(c1d as int, s2d as int);
            lemma_den_pos_mul(c1d as int, t2xd as int);
            lemma_den_pos_mul(s1d as int, t2yd as int);
            lemma_den_pos_mul(s1d as int, t2xd as int);
            lemma_den_pos_mul(c1d as int, t2yd as int);
            lemma_den_pos_mul((c1d as int) * (c2d as int), (s1d as int) * (s2d as int));
            lemma_den_pos_mul((s1d as int) * (c2d as int), (c1d as int) * (s2d as int));
            lemma_den_pos_mul((c1d as int) * (t2xd as int), (s1d as int) * (t2yd as int));
            lemma_den_pos_mul((s1d as int) * (t2xd as int), (c1d as int) * (t2yd as int));
            crate::frac::lemma_abs_mul_le(tx_p0 as int, t1xd as int, 0x20000000000, 256);
            crate::frac::lemma_abs_mul_le(t1xn as int, tx_p1 as int, 256, 0x100000000);
            crate::frac::lemma_abs_mul_le(tx_p1 as int, t1xd as int, 0x100000000, 256);
            crate::frac::lemma_abs_mul_le(ty_p0 as int, t1yd as int, 0x20000000000, 256);
            crate::frac::lemma_abs_mul_le(t1yn as int, ty_p1 as int, 256, 0x100000000);
            crate::frac::lemma_abs_mul_le(ty_p1 as int, t1yd as int, 0x100000000, 256);
            lemma_den_pos_mul(tx_p1 as int, t1xd as int);
            lemma_den_pos_mul(ty_p1 as int, t1yd as int);
        }
        let tx_raw_n = tx_p0 * t1xd + t1xn * tx_p1;
        let tx_raw_d = tx_p1 * t1xd;
        let ty_raw_n = ty_p0 * t1yd + t1yn * ty_p1;
        let ty_raw_d = ty_p1 * t1yd;
        let cos = match Frac::normalize(cos_raw_n, cos_raw_d) {
            Some(f) => f,
            None => {
                return Err(GeomError::OutOfRange);
            },
        };
        let sin = match Frac::normalize(sin_raw_n, sin_raw_d) {
            Some(f) => f,
            None => {
                return Err(GeomError::OutOfRange);
            },
        };
        let tx = match Frac::normalize(tx_raw_n, tx_raw_d) {
            Some(f) => f,
            None => {
                return Err(GeomError::OutOfRange);
            },
        };
        let ty = match Frac::normalize(ty_raw_n, ty_raw_d) {
            Some(f) => f,
            None => {
                return Err(GeomError::OutOfRange);
            },
        };
        proof {
            crate::frac::lemma_norm_value(cos_raw_n as int, cos_raw_d as int);
            crate::frac::lemma_norm_value(sin_raw_n as int, sin_raw_d as int);
            crate::frac::lemma_norm_value(tx_raw_n as int, tx_raw_d as int);
            crate::frac::lemma_norm_value(ty_raw_n as int, ty_raw_d as int);
        }
        let rot = match Rotation::new(cos, sin) {
            Ok(rt) => rt,
            Err(e) => {
                return Err(e);
            },
        };
        match DTransformation::new(rot, (tx, ty)) {
            Ok(t) => Ok(t),
            Err(e) => Err(e),
        }
    }

    /// The pose that undoes this one: the inverse rotation, then the negated
    /// rotated translation. `Err` exactly when a reduced component of the
    /// inverse translation leaves the precision budget.
    pub fn inverse(&self) -> (r: Result<DTransformation, GeomError>)
        ensures
            r is Ok <==> inversion_representable(*self),
            match r {
                Ok(t) => {
                    let itx = inverse_tx(*self);
                    let ity = inverse_ty(*self);
                    &&& t.rotation().cos() == self.rotation().cos()
                    &&& t.rotation().sin().num() == -self.rotation().sin().num()
                    &&& t.rotation().sin().den() == self.rotation().sin().den()
                    &&& t.translation().0.num() * itx.1 == itx.0 * t.translation().0.den()
                    &&& t.translation().1.num() * ity.1 == ity.0 * t.translation().1.den()
                },
                Err(e) => e == GeomError::OutOfRange,
            },
    {
        proof {
            use_type_invariant(self);
            use_type_invariant(&self.rotation);
            use_type_invariant(&self.tx);
            use_type_invariant(&self.ty);
        }
        let c = &self.rotation.cos;
        let s = &self.rotation.sin;
        let sin_inv = s.neg();
        proof {
            assert(on_unit_circle(self.rotation.cos(), sin_inv)) by (nonlinear_arith)
                requires
                    on_unit_circle(self.rotation.cos(), self.rotation.sin()),
                    sin_inv.num() == -self.rotation.sin().num(),
                    sin_inv.den() == self.rotation.sin().den(),
                    on_unit_circle(self.rotation.cos(), self.rotation.sin()) == unit_ints(
                        self.rotation.cos().num(),
                        self.rotation.cos().den(),
                        self.rotation.sin().num(),
                        self.rotation.sin().den(),
                    ),
                    on_unit_circle(self.rotation.cos(), sin_inv) == unit_ints(
                        self.rotation.cos().num(),
                        self.rotation.cos().den(),
                        sin_inv.num(),
                        sin_inv.den(),
                    ),
            ;
        }
        let rot = Rotation { cos: self.rotation.cos, sin: sin_inv };
        let cn = c.numerator();
        let cd = c.denominator();
        let sn = s.numerator();
        let sd = s.denominator();
        let txn = self.tx.numerator();
        let txd = self.tx.denominator();
        let tyn = self.ty.numerator();
        let tyd = self.ty.denominator();
        proof {
            let l = 256;
            crate::frac::lemma_abs_mul_le(cn as int, txn as int, l, l);
            crate::frac::lemma_abs_mul_le(sn as int, tyn as int, l, l);
            crate::frac::lemma_abs_mul_le(sn as int, txn as int, l, l);
            crate::frac::lemma_abs_mul_le(cn as int, tyn as int, l, l);
            crate::frac::lemma_abs_mul_le(cd as int, txd as int, l, l);
            crate::frac::lemma_abs_mul_le(sd as int, tyd as int, l, l);
            crate::frac::lemma_abs_mul_le(sd as int, txd as int, l, l);
            crate::frac::lemma_abs_mul_le(cd as int, tyd as int, l, l);
            crate::frac::lemma_abs_mul_le(
                (cn as int) * (txn as int),
                (sd as int) * (tyd as int),
                65536,
                65536,
            );
            crate::frac::lemma_abs_mul_le(
                (sn as int) * (tyn as int),
                (cd as int) * (txd as int),
                65536,
                65536,
            );
            crate::frac::lemma_abs_mul_le(
                (cd as int) * (txd as int),
                (sd as int) * (tyd as int),
                65536,
                65536,
            );
            crate::frac::lemma_abs_mul_le(
                (sn as int) * (txn as int),
                (cd as int) * (tyd as int),
                65536,
                65536,
            );
            crate::frac::lemma_abs_mul_le(
                (cn as int) * (tyn as int),
                (sd as int) * (txd as int),
                65536,
                65536,
            );
            crate::frac::lemma_abs_mul_le(
                (sd as int) * (txd as int),
                (cd as int) * (tyd as int),
                65536,
                65536,
            );
            lemma_den_pos_mul(cd as int, txd as int);
            lemma_den_pos_mul(sd as int, tyd as int);
            lemma_den_pos_mul(sd as int, txd as int);
            lemma_den_pos_mul(cd as int, tyd as int);
            lemma_den_pos_mul((cd as int) * (txd as int), (sd as int) * (tyd as int));
            lemma_den_pos_mul((sd as int) * (txd as int), (cd as int) * (tyd as int));
        }
        let itx_n = -((cn * txn) * (sd * tyd) + (sn * tyn) * (cd * txd));
        let itx_d = (cd * txd) * (sd * tyd);
        let ity_n = (sn * txn) * (cd * tyd) - (cn * tyn) * (sd * txd);
        let ity_d = (sd * txd) * (cd * tyd);
        let tx = match Frac::normalize(itx_n, itx_d) {
            Some(f) => f,
            None => {
                return Err(GeomError::OutOfRange);
            },
        };
        let ty = match Frac::normalize(ity_n, ity_d) {
            Some(f) => f,
            None => {
                return Err(GeomError::OutOfRange);
            },
        };
        proof {
            crate::frac::lemma_norm_value(itx_n as int, itx_d as int);
            crate::frac::lemma_norm_value(ity_n as int, ity_d as int);
        }
        match DTransformation::new(rot, (tx, ty)) {
            Ok(t) => Ok(t),
            Err(e) => Err(e),
        }
    }

    /// The image of a point under the pose; fails exactly when the reduced
    /// image coordinates leave the representable range.
    pub fn transform_point(&self, p: &Point) -> (r: Result<Point, GeomError>)
        ensures
            r is Ok <==> image_fits(
                self.rotation(),
                self.translation().0,
                self.translation().1,
                *p,
            ),
            match r {
                Ok(q) => q == image_point(
                    self.rotation(),
                    self.translation().0,
                    self.translation().1,
                    *p,
                ) && maps_point(self.rotation(), self.translation().0, self.translation().1, *p, q),
                Err(e) => e == GeomError::OutOfRange,
            },
    {
        proof {
            use_type_invariant(self);
            use_type_invariant(&self.rotation);
            use_type_invariant(p);
            use_type_invariant(&self.rotation.cos);
            use_type_invariant(&self.rotation.sin);
            use_type_invariant(&self.tx);
            use_type_invariant(&self.ty);
        }
        let c = &self.rotation.cos;
        let s = &self.rotation.sin;
        let tx = &self.tx;
        let ty = &self.ty;
        let cd = c.denominator();
        let sd = s.denominator();
        let pd = p.denominator_raw();
        proof {
            let l = 256;
            crate::frac::lemma_abs_mul_le(c.num(), s.den(), l, l);
            crate::frac::lemma_abs_mul_le(s.num(), c.den(), l, l);
            crate::frac::lemma_abs_mul_le(c.den(), s.den(), l, l);
            crate::frac::lemma_abs_mul_le(p.xn(), tx.den(), l, l);
            crate::frac::lemma_abs_mul_le(p.yn(), tx.den(), l, l);
            crate::frac::lemma_abs_mul_le(p.xn(), ty.den(), l, l);
            crate::frac::lemma_abs_mul_le(p.yn(), ty.den(), l, l);
            crate::frac::lemma_abs_mul_le(p.d(), tx.den(), l, l);
            crate::frac::lemma_abs_mul_le(p.d(), ty.den(), l, l);
            crate::frac::lemma_abs_mul_le(c.num() * s.den(), p.xn() * tx.den(), 65536, 65536);
            crate::frac::lemma_abs_mul_le(s.num() * c.den(), p.yn() * tx.den(), 65536, 65536);
            crate::frac::lemma_abs_mul_le(s.num() * c.den(), p.xn() * ty.den(), 65536, 65536);
            crate::frac::lemma_abs_mul_le(c.num() * s.den(), p.yn() * ty.den(), 65536, 65536);
            crate::frac::lemma_abs_mul_le(c.den() * s.den(), p.d(), 65536, 256);
            crate::frac::lemma_abs_mul_le(tx.num(), (c.den() * s.den()) * p.d(), 256, 0x1000000);
            crate::frac::lemma_abs_mul_le(ty.num(), (c.den() * s.den()) * p.d(), 256, 0x1000000);
            crate::frac::lemma_abs_mul_le(c.den() * s.den(), p.d() * tx.den(), 65536, 65536);
            crate::frac::lemma_abs_mul_le(c.den() * s.den(), p.d() * ty.den(), 65536, 65536);
        }
        let xnum = (c.numerator() * sd) * (p.x_numerator_raw() * tx.denominator()) - (s.numerator()
            * cd) * (p.y_numerator_raw() * tx.denominator()) + tx.numerator() * ((cd * sd) * pd);
        let xden = (cd * sd) * (pd * tx.denominator());
        let ynum = (s.numerator() * cd) * (p.x_numerator_raw() * ty.denominator()) + (c.numerator()
            * sd) * (p.y_numerator_raw() * ty.denominator()) + ty.numerator() * ((cd * sd) * pd);
        let yden = (cd * sd) * (pd * ty.denominator());
        proof {
            assert(xden > 0 && yden > 0) by (nonlinear_arith)
                requires
                    cd > 0,
                    sd > 0,
                    pd > 0,
                    tx.den() > 0,
                    ty.den() > 0,
                    xden as int == ((cd as int) * (sd as int)) * ((pd as int) * tx.den()),
                    yden as int == ((cd as int) * (sd as int)) * ((pd as int) * ty.den()),
            ;
            crate::frac::lemma_abs_mul_le(xnum as int, yden as int, 0x80000000000, 0x100000000);
            crate::frac::lemma_abs_mul_le(ynum as int, xden as int, 0x80000000000, 0x100000000);
            crate::frac::lemma_abs_mul_le(xden as int, yden as int, 0x100000000, 0x100000000);
        }
        let rxn = xnum * yden;
        let ryn = ynum * xden;
        let rd = xden * yden;
        proof {
            assert(rd > 0) by (nonlinear_arith)
                requires
                    xden > 0,
                    yden > 0,
                    rd as int == (xden as int) * (yden as int),
            ;
        }
        match Point::from_raw(rxn, ryn, rd) {
            Ok(q) => {
                proof {
                    use_type_invariant(q);
                    assert(q.xn() * (xden as int) == (xnum as int) * q.d()) by (nonlinear_arith)
                        requires
                            q.xn() * (rd as int) == (rxn as int) * q.d(),
                            rxn as int == (xnum as int) * (yden as int),
                            rd as int == (xden as int) * (yden as int),
                            yden > 0,
                    ;
                    assert(q.yn() * (yden as int) == (ynum as int) * q.d()) by (nonlinear_arith)
                        requires
                            q.yn() * (rd as int) == (ryn as int) * q.d(),
                            ryn as int == (ynum as int) * (xden as int),
                            rd as int == (xden as int) * (yden as int),
                            xden > 0,
                    ;
                }
                Ok(q)
            },
            Err(e) => Err(e),
        }
    }
}

} // verus!
