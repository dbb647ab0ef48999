//! Circles and their exact collision predicates.
//!
//! A circle is a center point and a non-negative radius within the precision
//! budget. All collision tests compare squared distances on cleared
//! denominators, so they are total and exact; boundary contact counts as a
//! collision throughout.

use vstd::prelude::*;

verus! {

use crate::frac::{
    Frac, norm_fits, norm_num, norm_den, sqrt_floor_pair, lemma_frac_le_trans,
};
use crate::point::{Point, sq_dist_num, sq_dist_den};
use crate::edge::{Edge, dx_num, dy_num};
use crate::rect::{AARectangle, frac_small, frac_is_small};
use crate::geo_traits::{CollidesWith, GeoPosition};
use crate::GeomError;

/// A circle with the given center and radius.
#[derive(Clone, Copy, Debug, PartialEq, Eq, Structural)]
pub struct Circle {
    center: Point,
    radius: Frac,
}

/// Whether the point lies in the closed disk: the squared center distance is
/// at most the squared radius, on cleared denominators.
pub open spec fn circle_contains_point(c: Circle, p: Point) -> bool {
    sq_dist_num(c.spec_center(), p) * (c.spec_radius().den() * c.spec_radius().den()) <= (c.spec_radius().num()
        * c.spec_radius().num()) * sq_dist_den(c.spec_center(), p)
}

/// Whether two closed disks overlap: the squared center distance is at most
/// the square of the radius sum.
pub open spec fn circles_collide(a: Circle, b: Circle) -> bool {
    let rn = a.spec_radius().num() * b.spec_radius().den() + b.spec_radius().num() * a.spec_radius().den();
    let rd = a.spec_radius().den() * b.spec_radius().den();
    sq_dist_num(a.spec_center(), b.spec_center()) * (rd * rd) <= (rn * rn) * sq_dist_den(
        a.spec_center(),
        b.spec_center(),
    )
}

/// Whether the closed disk meets the segment: the squared distance from the
/// center to the nearest point of the segment is at most the squared radius.
/// The nearest point is classified by the projection parameter of the center
/// onto the carrier line, on cleared denominators.
#[verifier::opaque]
pub open spec fn circle_edge_collide_pts(c: Circle, p1: Point, p2: Point) -> bool {
    let a1 = dx_num(c.spec_center(), p1);
    let b1 = dy_num(c.spec_center(), p1);
    let cx = dx_num(p2, p1);
    let cy = dy_num(p2, p1);
    let p = a1 * cx + b1 * cy;
    let l = cx * cx + cy * cy;
    let dc = c.spec_center().d();
    let d1 = p1.d();
    let d2 = p2.d();
    if p <= 0 {
        circle_contains_point(c, p1)
    } else if p * d2 >= dc * l {
        circle_contains_point(c, p2)
    } else {
        let g = a1 * cy - b1 * cx;
        (g * g) * (c.spec_radius().den() * c.spec_radius().den()) <= (c.spec_radius().num() * c.spec_radius().num()) * (
        (dc * dc) * ((d1 * d1) * l))
    }
}

/// Whether the closed disk meets the segment.
pub open spec fn circle_edge_collide(c: Circle, e: Edge) -> bool {
    circle_edge_collide_pts(c, e.spec_start(), e.spec_end())
}

/// Whether the closed disk meets the closed rectangle: the point of the
/// rectangle nearest to the center, found by clamping each coordinate, lies
/// in the disk.
#[verifier::opaque]
pub open spec fn circle_rect_collide(c: Circle, r: AARectangle) -> bool {
    let xn = c.spec_center().xn();
    let yn = c.spec_center().yn();
    let d = c.spec_center().d();
    let nx = if xn * r.x_min().den() < r.x_min().num() * d {
        (r.x_min().num(), r.x_min().den())
    } else if r.x_max().num() * d < xn * r.x_max().den() {
        (r.x_max().num(), r.x_max().den())
    } else {
        (xn, d)
    };
    let ny = if yn * r.y_min().den() < r.y_min().num() * d {
        (r.y_min().num(), r.y_min().den())
    } else if r.y_max().num() * d < yn * r.y_max().den() {
        (r.y_max().num(), r.y_max().den())
    } else {
        (yn, d)
    };
    let dxn = nx.0 * d - xn * nx.1;
    let dxd = nx.1 * d;
    let dyn_ = ny.0 * d - yn * ny.1;
    let dyd = ny.1 * d;
    let rn = c.spec_radius().num();
    let rd = c.spec_radius().den();
    ((dxn * dxn) * (dyd * dyd) + (dyn_ * dyn_) * (dxd * dxd)) * (rd * rd) <= (rn * rn) * ((dxd
        * dxd) * (dyd * dyd))
}

/// Whether the disk `inner` lies entirely within the disk `outer`: the
/// radius difference is non-negative and the squared center distance is at
/// most its square, on cleared denominators.
pub open spec fn circle_in_circle(outer: Circle, inner: Circle) -> bool {
    let orn = outer.spec_radius().num();
    let ord = outer.spec_radius().den();
    let irn = inner.spec_radius().num();
    let ird = inner.spec_radius().den();
    let dn = orn * ird - irn * ord;
    let dd = ord * ird;
    &&& irn * ord <= orn * ird
    &&& sq_dist_num(outer.spec_center(), inner.spec_center()) * (dd * dd) <= (dn * dn)
        * sq_dist_den(outer.spec_center(), inner.spec_center())
}

/// A radius at least `u + r`, where `u` is at least the center distance,
/// covers the whole inner disk: the radius difference exceeds `u`, so its
/// square exceeds the squared center distance.
proof fn lemma_cover(
    rn: int,
    rd: int,
    irn: int,
    ird: int,
    un: int,
    ud: int,
    sn: int,
    sd: int,
)
    requires
        rd > 0,
        ird > 0,
        ud > 0,
        sd > 0,
        un >= 0,
        irn >= 0,
        sn >= 0,
        (un * un) * sd >= sn * (ud * ud),
        rn * (ud * ird) >= (un * ird + irn * ud) * rd,
    ensures
        irn * rd <= rn * ird,
        sn * ((rd * ird) * (rd * ird)) <= ((rn * ird - irn * rd) * (rn * ird - irn * rd)) * sd,
{
    let a = rn * ird - irn * rd;
    assert(a * ud >= un * (ird * rd)) by (nonlinear_arith)
        requires
            rn * (ud * ird) >= (un * ird + irn * ud) * rd,
            a == rn * ird - irn * rd,
    ;
    assert(un * (ird * rd) >= 0) by (nonlinear_arith)
        requires
            un >= 0,
            ird > 0,
            rd > 0,
    ;
    assert(a >= 0) by (nonlinear_arith)
        requires
            a * ud >= 0,
            ud > 0,
    ;
    assert(irn * rd <= rn * ird) by {
        assert(a >= 0);
    }
    assert((a * ud) * (a * ud) >= (un * (ird * rd)) * (un * (ird * rd))) by (nonlinear_arith)
        requires
            a * ud >= un * (ird * rd),
            un * (ird * rd) >= 0,
    ;
    assert(((a * a) * (ud * ud)) * sd >= ((un * un) * ((ird * rd) * (ird * rd))) * sd)
        by (nonlinear_arith)
        requires
            (a * ud) * (a * ud) >= (un * (ird * rd)) * (un * (ird * rd)),
            sd > 0,
    ;
    assert(((un * un) * sd) * ((ird * rd) * (ird * rd)) >= (sn * (ud * ud)) * ((ird * rd) * (ird
        * rd))) by (nonlinear_arith)
        requires
            (un * un) * sd >= sn * (ud * ud),
            ird > 0,
            rd > 0,
    ;
    assert(((a * a) * sd) * (ud * ud) >= (sn * ((ird * rd) * (ird * rd))) * (ud * ud))
        by (nonlinear_arith)
        requires
            ((a * a) * (ud * ud)) * sd >= ((un * un) * ((ird * rd) * (ird * rd))) * sd,
            ((un * un) * sd) * ((ird * rd) * (ird * rd)) >= (sn * (ud * ud)) * ((ird * rd) * (ird
                * rd)),
    ;
    assert((a * a) * sd >= sn * ((ird * rd) * (ird * rd))) by (nonlinear_arith)
        requires
            ((a * a) * sd) * (ud * ud) >= (sn * ((ird * rd) * (ird * rd))) * (ud * ud),
            ud > 0,
    ;
    assert(sn * ((rd * ird) * (rd * ird)) <= (a * a) * sd) by (nonlinear_arith)
        requires
            (a * a) * sd >= sn * ((ird * rd) * (ird * rd)),
    ;
}

/// The circle with the given center and radius, as a specification value.
pub closed spec fn circle_at(center: Point, radius: Frac) -> Circle {
    Circle { center, radius }
}

/// The exact reduced covering bound for one circle seen from `c0`: the
/// rational square-root upper bound of the squared center distance, plus the
/// circle's radius; `None` when a reduction leaves the representable range.
pub open spec fn bc_step(c0: Point, c: Circle) -> Option<(int, int)> {
    let sqn = sq_dist_num(c0, c.spec_center());
    let sqd = sq_dist_den(c0, c.spec_center());
    let sf = sqrt_floor_pair(sqn, sqd);
    if norm_fits(sf + 1, sqd) {
        let un = norm_num(sf + 1, sqd);
        let ud = norm_den(sf + 1, sqd);
        let rn = un * c.spec_radius().den() + c.spec_radius().num() * ud;
        let rd = ud * c.spec_radius().den();
        if norm_fits(rn, rd) {
            Some((norm_num(rn, rd), norm_den(rn, rd)))
        } else {
            None
        }
    } else {
        None
    }
}

/// The exact reduced running maximum of the covering bounds of the first `k`
/// circles, seen from `c0`; `None` once a step has failed.
pub open spec fn bc_acc(c0: Point, cs: Seq<Circle>, k: int) -> Option<(int, int)>
    decreases k,
{
    if k <= 0 {
        Some((0, 1))
    } else {
        match (bc_acc(c0, cs, k - 1), bc_step(c0, cs[k - 1])) {
            (Some(a), Some(s)) => if a.0 * s.1 < s.0 * a.1 {
                Some(s)
            } else {
                Some(a)
            },
            _ => None,
        }
    }
}

/// Whether the bounding circle of a circle list is representable: every
/// covering bound reduces within range and the largest stays within the
/// coordinate precision budget.
pub open spec fn bc_representable(cs: Seq<Circle>) -> bool {
    match bc_acc(cs[0].spec_center(), cs, cs.len() as int) {
        Some(m) => m.0 <= crate::point::COORD_LIM && 0 < m.1 <= crate::point::COORD_LIM,
        None => false,
    }
}

/// The parts of [`circle_at`], and extensionality: circles are equal exactly
/// when their parts are.
pub proof fn lemma_circle_at(center: Point, radius: Frac)
    ensures
        circle_at(center, radius).spec_center() == center,
        circle_at(center, radius).spec_radius() == radius,
        forall|c: Circle|
            (#[trigger] c.spec_center()) == center && c.spec_radius() == radius ==> c == circle_at(
                center,
                radius,
            ),
{
}

impl Circle {
    /// Center of the circle.
    pub closed spec fn spec_center(self) -> Point {
        self.center
    }

    /// Radius of the circle; non-negative.
    pub closed spec fn spec_radius(self) -> Frac {
        self.radius
    }

    /// The radius is non-negative and within the precision budget.
    #[verifier::type_invariant]
    pub open spec fn wf(self) -> bool {
        &&& frac_small(self.spec_radius())
        &&& self.spec_radius().num() >= 0
    }

    /// Builds the circle; rejects a negative radius, and a radius outside the
    /// precision budget.
    pub fn new(center: Point, radius: Frac) -> (r: Result<Circle, GeomError>)
        ensures
            match r {
                Ok(c) => radius.num() >= 0 && frac_small(radius) && c.spec_center() == center
                    && c.spec_radius() == radius,
                Err(e) => {
                    &&& !(radius.num() >= 0 && frac_small(radius))
                    &&& (e == GeomError::InvalidRadius <==> radius.num() < 0)
                },
            },
    {
        if !radius.is_nonneg() {
            Err(GeomError::InvalidRadius)
        } else if !frac_is_small(&radius) {
            Err(GeomError::OutOfRange)
        } else {
            Ok(Circle { center, radius })
        }
    }

    /// The center point.
    pub fn center(&self) -> (r: Point)
        ensures
            r == self.spec_center(),
    {
        self.center
    }

    /// The radius.
    pub fn radius(&self) -> (r: Frac)
        ensures
            r == self.spec_radius(),
    {
        proof {
            use_type_invariant(self);
        }
        self.radius
    }

    /// Whether the point lies in the interior (boundary included) or the
    /// exterior of the circle.
    pub fn border_position(&self, p: &Point) -> (r: GeoPosition)
        ensures
            r == (if circle_contains_point(*self, *p) {
                GeoPosition::Interior
            } else {
                GeoPosition::Exterior
            }),
    {
        if self.collides_with(p) {
            GeoPosition::Interior
        } else {
            GeoPosition::Exterior
        }
    }

    /// A circle that contains every circle of the list, centered on the first
    /// one: its radius bounds, for each circle, the center distance plus that
    /// circle's radius. It is a cover, not the smallest one — the smallest
    /// enclosing circle generally has an irrational center. Fails exactly
    /// when a reduced covering bound leaves the precision budget.
    pub fn bounding_circle(circles: &Vec<Circle>) -> (r: Result<Circle, GeomError>)
        requires
            circles@.len() >= 1,
        ensures
            r is Ok <==> bc_representable(circles@),
            match r {
                Ok(c) => c.spec_center() == circles@[0].spec_center() && (forall|i: int|
                    0 <= i < circles@.len() ==> circle_in_circle(c, #[trigger] circles@[i])),
                Err(e) => e == GeomError::OutOfRange,
            },
    {
        let c0 = circles[0].center();
        proof {
            use_type_invariant(c0);
        }
        let n = circles.len();
        let mut big = Frac::zero();
        let mut i: usize = 0;
        while i < n
            invariant
                n == circles@.len(),
                i <= n,
                c0 == circles@[0].spec_center(),
                c0.wf(),
                big.num() >= 0,
                big.den() > 0,
                forall|k: int|
                    0 <= k < i ==> {
                        let c = #[trigger] circles@[k];
                        c.spec_radius().den() > 0 && c.spec_radius().num() >= 0
                            && c.spec_center().d() > 0
                    },
                bc_acc(c0, circles@, i as int) == Some((big.num(), big.den())),
                forall|k: int|
                    0 <= k < i ==> {
                        let s = (#[trigger] bc_step(c0, circles@[k]))->Some_0;
                        bc_step(c0, circles@[k]) is Some && s.0 * big.den() <= big.num() * s.1
                            && s.1 > 0
                    },
                forall|k: int|
                    0 <= k < i ==> {
                        let c = #[trigger] circles@[k];
                        let sqn = sq_dist_num(c0, c.spec_center());
                        let sqd = sq_dist_den(c0, c.spec_center());
                        let sf = sqrt_floor_pair(sqn, sqd);
                        let un = norm_num(sf + 1, sqd);
                        let ud = norm_den(sf + 1, sqd);
                        un > 0 && ud > 0 && (un * un) * sqd >= sqn * (ud * ud)
                    },
            decreases n - i,
        {
            let c = &circles[i];
            proof {
                use_type_invariant(c);
                use_type_invariant(big);
                use_type_invariant(&c.center);
                use_type_invariant(&c.radius);
            }
            let d2 = c0.sq_distance(&c.center());
            proof {
                use_type_invariant(d2);
                crate::surrogate::lemma_sq_dist_nonneg(c0, c.spec_center());
            }
            let u = match d2.sqrt_ub() {
                Some(u) => u,
                None => {
                    proof {
                        assert(bc_step(c0, circles@[i as int]) is None);
                        lemma_bc_acc_none(c0, circles@, i + 1 as int, circles@.len() as int);
                    }
                    return Err(GeomError::OutOfRange);
                },
            };
            let s = match u.checked_add(&c.radius()) {
                Some(s) => s,
                None => {
                    proof {
                        assert(bc_step(c0, circles@[i as int]) is None);
                        lemma_bc_acc_none(c0, circles@, i + 1 as int, circles@.len() as int);
                    }
                    return Err(GeomError::OutOfRange);
                },
            };
            proof {
                use_type_invariant(u);
                use_type_invariant(s);
                assert(s.num() >= 0) by (nonlinear_arith)
                    requires
                        s.num() * (u.den() * c.spec_radius().den()) == (u.num()
                            * c.spec_radius().den() + c.spec_radius().num() * u.den()) * s.den(),
                        u.num() > 0,
                        c.spec_radius().num() >= 0,
                        u.den() > 0,
                        c.spec_radius().den() > 0,
                        s.den() > 0,
                ;
            }
            let ghost old_big = big;
            if big.lt(&s) {
                big = s;
            }
            proof {
                use_type_invariant(big);
                assert forall|k: int|
                    0 <= k < i + 1 implies {
                    let sp = (#[trigger] bc_step(c0, circles@[k]))->Some_0;
                    bc_step(c0, circles@[k]) is Some && sp.0 * big.den() <= big.num() * sp.1
                        && sp.1 > 0
                } by {
                    if k < i {
                        let sp = bc_step(c0, circles@[k])->Some_0;
                        if old_big != big {
                            lemma_frac_le_trans(
                                sp.0,
                                sp.1,
                                old_big.num(),
                                old_big.den(),
                                big.num(),
                                big.den(),
                            );
                        }
                    }
                }
            }
            i = i + 1;
        }
        let pole = match Circle::new(c0, big) {
            Ok(c) => c,
            Err(_) => {
                return Err(GeomError::OutOfRange);
            },
        };
        proof {
            use_type_invariant(big);
            assert forall|k: int|
                0 <= k < circles@.len() implies circle_in_circle(pole, #[trigger] circles@[k]) by {
                let c = circles@[k];
                let sqn = sq_dist_num(c0, c.spec_center());
                let sqd = sq_dist_den(c0, c.spec_center());
                let sf = sqrt_floor_pair(sqn, sqd);
                let un = norm_num(sf + 1, sqd);
                let ud = norm_den(sf + 1, sqd);
                let irn = c.spec_radius().num();
                let ird = c.spec_radius().den();
                let sp = bc_step(c0, circles@[k])->Some_0;
                assert(ud * ird > 0) by (nonlinear_arith)
                    requires
                        ud > 0,
                        ird > 0,
                ;
                crate::surrogate::lemma_sq_dist_nonneg(c0, c.spec_center());
                crate::frac::lemma_norm_value(un * ird + irn * ud, ud * ird);
                lemma_frac_le_trans(
                    un * ird + irn * ud,
                    ud * ird,
                    sp.0,
                    sp.1,
                    big.num(),
                    big.den(),
                );
                lemma_cover(
                    big.num(),
                    big.den(),
                    irn,
                    ird,
                    un,
                    ud,
                    sqn,
                    sqd,
                );
            }
        }
        Ok(pole)
    }
}

/// Once a covering-bound step has failed, every later accumulator is `None`.
proof fn lemma_bc_acc_none(c0: Point, cs: Seq<Circle>, k: int, j: int)
    requires
        0 <= k <= j,
        bc_acc(c0, cs, k) is None,
    ensures
        bc_acc(c0, cs, j) is None,
    decreases j - k,
{
    if j > k {
        lemma_bc_acc_none(c0, cs, k, j - 1);
    }
}

impl CollidesWith<Circle> for Circle {
    open spec fn collides_spec(&self, other: &Circle) -> bool {
        circles_collide(*self, *other)
    }

    fn collides_with(&self, other: &Circle) -> (r: bool) {
        proof {
            use_type_invariant(self);
            use_type_invariant(other);
            use_type_invariant(&self.center);
            use_type_invariant(&other.center);
            crate::frac::lemma_abs_mul_le(self.spec_radius().num(), other.spec_radius().den(), 256, 256);
            crate::frac::lemma_abs_mul_le(other.spec_radius().num(), self.spec_radius().den(), 256, 256);
            crate::frac::lemma_abs_mul_le(self.spec_radius().den(), other.spec_radius().den(), 256, 256);
        }
        let sq = self.center.sq_distance(&other.center);
        let rn = self.radius.numerator() * other.radius.denominator() + other.radius.numerator()
            * self.radius.denominator();
        let rd = self.radius.denominator() * other.radius.denominator();
        proof {
            crate::frac::lemma_abs_mul_le(rn as int, rn as int, 131072, 131072);
            crate::frac::lemma_abs_mul_le(rd as int, rd as int, 65536, 65536);
            use_type_invariant(sq);
            crate::frac::lemma_abs_mul_le(
                sq.num(),
                (rd as int) * (rd as int),
                crate::frac::FRAC_LIM as int,
                0x100000000,
            );
            crate::frac::lemma_abs_mul_le(
                (rn as int) * (rn as int),
                sq.den(),
                0x400000000,
                crate::frac::FRAC_LIM as int,
            );
        }
        sq.numerator() * (rd * rd) <= (rn * rn) * sq.denominator()
    }
}

impl CollidesWith<Point> for Circle {
    open spec fn collides_spec(&self, other: &Point) -> bool {
        circle_contains_point(*self, *other)
    }

    fn collides_with(&self, other: &Point) -> (r: bool) {
        proof {
            use_type_invariant(self);
            use_type_invariant(&self.center);
            use_type_invariant(other);
        }
        let sq = self.center.sq_distance(other);
        let rn = self.radius.numerator();
        let rd = self.radius.denominator();
        proof {
            use_type_invariant(sq);
            crate::frac::lemma_abs_mul_le(rn as int, rn as int, 256, 256);
            crate::frac::lemma_abs_mul_le(rd as int, rd as int, 256, 256);
            crate::frac::lemma_abs_mul_le(
                sq.num(),
                (rd as int) * (rd as int),
                crate::frac::FRAC_LIM as int,
                65536,
            );
            crate::frac::lemma_abs_mul_le(
                (rn as int) * (rn as int),
                sq.den(),
                65536,
                crate::frac::FRAC_LIM as int,
            );
        }
        sq.numerator() * (rd * rd) <= (rn * rn) * sq.denominator()
    }
}

impl CollidesWith<Edge> for Circle {
    open spec fn collides_spec(&self, other: &Edge) -> bool {
        circle_edge_collide(*self, *other)
    }

    fn collides_with(&self, other: &Edge) -> (r: bool) {
        let p1 = other.start();
        let p2 = other.end();
        let cen = &self.center;
        proof {
            reveal(crate::circle::circle_edge_collide_pts);
            use_type_invariant(self);
            use_type_invariant(other);
            use_type_invariant(cen);
            use_type_invariant(p1);
            use_type_invariant(p2);
            crate::edge::lemma_diff_bounds(*cen, p1);
            crate::edge::lemma_diff_bounds(p2, p1);
        }
        let a1 = cen.x_numerator_raw() * p1.denominator_raw() - p1.x_numerator_raw()
            * cen.denominator_raw();
        let b1 = cen.y_numerator_raw() * p1.denominator_raw() - p1.y_numerator_raw()
            * cen.denominator_raw();
        let cx = p2.x_numerator_raw() * p1.denominator_raw() - p1.x_numerator_raw()
            * p2.denominator_raw();
        let cy = p2.y_numerator_raw() * p1.denominator_raw() - p1.y_numerator_raw()
            * p2.denominator_raw();
        proof {
            crate::frac::lemma_abs_mul_le(a1 as int, cx as int, 131072, 131072);
            crate::frac::lemma_abs_mul_le(b1 as int, cy as int, 131072, 131072);
            crate::frac::lemma_abs_mul_le(cx as int, cx as int, 131072, 131072);
            crate::frac::lemma_abs_mul_le(cy as int, cy as int, 131072, 131072);
        }
        let p = a1 * cx + b1 * cy;
        let l = cx * cx + cy * cy;
        let dc = cen.denominator_raw();
        let d1 = p1.denominator_raw();
        let d2 = p2.denominator_raw();
        if p <= 0 {
            self.collides_with(&p1)
        } else {
            proof {
                crate::frac::lemma_abs_mul_le(p as int, d2 as int, 0x800000000, 256);
                crate::frac::lemma_abs_mul_le(dc as int, l as int, 256, 0x800000000);
            }
            if p * d2 >= dc * l {
                self.collides_with(&p2)
            } else {
                proof {
                    crate::frac::lemma_abs_mul_le(a1 as int, cy as int, 131072, 131072);
                    crate::frac::lemma_abs_mul_le(b1 as int, cx as int, 131072, 131072);
                }
                let g = a1 * cy - b1 * cx;
                let rn = self.radius.numerator();
                let rd = self.radius.denominator();
                proof {
                    crate::frac::lemma_abs_mul_le(g as int, g as int, 0x800000000, 0x800000000);
                    crate::frac::lemma_abs_mul_le(rd as int, rd as int, 256, 256);
                    crate::frac::lemma_abs_mul_le(rn as int, rn as int, 256, 256);
                    crate::frac::lemma_abs_mul_le(dc as int, dc as int, 256, 256);
                    crate::frac::lemma_abs_mul_le(d1 as int, d1 as int, 256, 256);
                    crate::frac::lemma_abs_mul_le(
                        (g as int) * (g as int),
                        (rd as int) * (rd as int),
                        0x400000000000000000,
                        65536,
                    );
                    crate::frac::lemma_abs_mul_le(
                        (d1 as int) * (d1 as int),
                        l as int,
                        65536,
                        0x800000000,
                    );
                    crate::frac::lemma_abs_mul_le(
                        (dc as int) * (dc as int),
                        ((d1 as int) * (d1 as int)) * (l as int),
                        65536,
                        0x8000000000000,
                    );
                    crate::frac::lemma_abs_mul_le(
                        (rn as int) * (rn as int),
                        ((dc as int) * (dc as int)) * (((d1 as int) * (d1 as int)) * (l as int)),
                        65536,
                        0x80000000000000000,
                    );
                }
                (g * g) * (rd * rd) <= (rn * rn) * ((dc * dc) * ((d1 * d1) * l))
            }
        }
    }
}

impl CollidesWith<AARectangle> for Circle {
    open spec fn collides_spec(&self, other: &AARectangle) -> bool {
        circle_rect_collide(*self, *other)
    }

    fn collides_with(&self, other: &AARectangle) -> (r: bool) {
        proof {
            reveal(crate::circle::circle_rect_collide);
        }
        let cen = &self.center;
        let x_min = other.get_x_min();
        let x_max = other.get_x_max();
        let y_min = other.get_y_min();
        let y_max = other.get_y_max();
        proof {
            use_type_invariant(self);
            use_type_invariant(other);
            use_type_invariant(cen);
            crate::frac::lemma_abs_mul_le(cen.xn(), x_min.den(), 256, 256);
            crate::frac::lemma_abs_mul_le(x_min.num(), cen.d(), 256, 256);
            crate::frac::lemma_abs_mul_le(cen.xn(), x_max.den(), 256, 256);
            crate::frac::lemma_abs_mul_le(x_max.num(), cen.d(), 256, 256);
            crate::frac::lemma_abs_mul_le(cen.yn(), y_min.den(), 256, 256);
            crate::frac::lemma_abs_mul_le(y_min.num(), cen.d(), 256, 256);
            crate::frac::lemma_abs_mul_le(cen.yn(), y_max.den(), 256, 256);
            crate::frac::lemma_abs_mul_le(y_max.num(), cen.d(), 256, 256);
        }
        let xn = cen.x_numerator_raw();
        let yn = cen.y_numerator_raw();
        let d = cen.denominator_raw();
        let (nxn, nxd): (i128, i128) = if xn * x_min.denominator() < x_min.numerator() * d {
            (x_min.numerator(), x_min.denominator())
        } else if x_max.numerator() * d < xn * x_max.denominator() {
            (x_max.numerator(), x_max.denominator())
        } else {
            (xn, d)
        };
        let (nyn, nyd): (i128, i128) = if yn * y_min.denominator() < y_min.numerator() * d {
            (y_min.numerator(), y_min.denominator())
        } else if y_max.numerator() * d < yn * y_max.denominator() {
            (y_max.numerator(), y_max.denominator())
        } else {
            (yn, d)
        };
        proof {
            crate::frac::lemma_abs_mul_le(nxn as int, d as int, 256, 256);
            crate::frac::lemma_abs_mul_le(xn as int, nxd as int, 256, 256);
            crate::frac::lemma_abs_mul_le(nxd as int, d as int, 256, 256);
            crate::frac::lemma_abs_mul_le(nyn as int, d as int, 256, 256);
            crate::frac::lemma_abs_mul_le(yn as int, nyd as int, 256, 256);
            crate::frac::lemma_abs_mul_le(nyd as int, d as int, 256, 256);
        }
        let dxn = nxn * d - xn * nxd;
        let dxd = nxd * d;
        let dyn_ = nyn * d - yn * nyd;
        let dyd = nyd * d;
        let rn = self.radius.numerator();
        let rd = self.radius.denominator();
        proof {
            crate::frac::lemma_abs_mul_le(dxn as int, dxn as int, 131072, 131072);
            crate::frac::lemma_abs_mul_le(dyn_ as int, dyn_ as int, 131072, 131072);
            crate::frac::lemma_abs_mul_le(dxd as int, dxd as int, 65536, 65536);
            crate::frac::lemma_abs_mul_le(dyd as int, dyd as int, 65536, 65536);
            crate::frac::lemma_abs_mul_le(rn as int, rn as int, 256, 256);
            crate::frac::lemma_abs_mul_le(rd as int, rd as int, 256, 256);
            crate::frac::lemma_abs_mul_le(
                (dxn as int) * (dxn as int),
                (dyd as int) * (dyd as int),
                0x400000000,
                0x100000000,
            );
            crate::frac::lemma_abs_mul_le(
                (dyn_ as int) * (dyn_ as int),
                (dxd as int) * (dxd as int),
                0x400000000,
                0x100000000,
            );
            crate::frac::lemma_abs_mul_le(
                (dxn as int) * (dxn as int) * ((dyd as int) * (dyd as int)) + (dyn_ as int) * (
                dyn_ as int) * ((dxd as int) * (dxd as int)),
                (rd as int) * (rd as int),
                0x80000000000000000,
                65536,
            );
            crate::frac::lemma_abs_mul_le(
                (dxd as int) * (dxd as int),
                (dyd as int) * (dyd as int),
                0x100000000,
                0x100000000,
            );
            crate::frac::lemma_abs_mul_le(
                (rn as int) * (rn as int),
                ((dxd as int) * (dxd as int)) * ((dyd as int) * (dyd as int)),
                65536,
                0x10000000000000000,
            );
        }
        ((dxn * dxn) * (dyd * dyd) + (dyn_ * dyn_) * (dxd * dxd)) * (rd * rd) <= (rn * rn) * ((dxd
            * dxd) * (dyd * dyd))
    }
}

} // verus!
