//! Directed line segments and their exact intersection test.
//!
//! The segment intersection test is the standard parametric one: writing the
//! intersection of the two carrier lines as `start2 + t (start1 - start2)` and
//! `end2 + u ...`, two segments intersect when the two parameters both lie in
//! `[0, 1]`. Degenerate and parallel pairs (including collinear overlaps)
//! report no collision. All tests are carried out on cleared denominators, so
//! they are total and exact.

use vstd::prelude::*;

verus! {

use crate::frac::Frac;
use crate::point::Point;
use crate::geo_traits::CollidesWith;
use crate::GeomError;

/// Numerator of `p.x - q.x` over the denominator `p.d() * q.d()`.
pub open spec fn dx_num(p: Point, q: Point) -> int {
    p.xn() * q.d() - q.xn() * p.d()
}

/// Numerator of `p.y - q.y` over the denominator `p.d() * q.d()`.
pub open spec fn dy_num(p: Point, q: Point) -> int {
    p.yn() * q.d() - q.yn() * p.d()
}

/// A directed segment between two distinct points.
#[derive(Clone, Copy, Debug, PartialEq, Eq, Structural)]
pub struct Edge {
    start: Point,
    end: Point,
}

/// Cleared-denominator numerator of the intersection parameter `t`; its
/// denominator is `d2 d3 d4^2` with `d1..d4` the denominators of `e1.start`,
/// `e1.end`, `e2.start`, `e2.end`.
pub open spec fn inter_tn(e1: Edge, e2: Edge) -> int {
    dx_num(e1.spec_end(), e2.spec_end()) * dy_num(e2.spec_end(), e2.spec_start()) - dy_num(e1.spec_end(), e2.spec_end()) * dx_num(
        e2.spec_end(),
        e2.spec_start(),
    )
}

/// Cleared-denominator numerator of the shared parameter denominator; its
/// denominator is `d1 d2 d3 d4`. Zero exactly for parallel carrier lines.
pub open spec fn inter_td(e1: Edge, e2: Edge) -> int {
    dx_num(e1.spec_end(), e1.spec_start()) * dy_num(e2.spec_end(), e2.spec_start()) - dy_num(e1.spec_end(), e1.spec_start())
        * dx_num(e2.spec_end(), e2.spec_start())
}

/// Cleared-denominator numerator of the intersection parameter `u`; its
/// denominator is `d1 d2^2 d4`.
pub open spec fn inter_un(e1: Edge, e2: Edge) -> int {
    dx_num(e1.spec_end(), e2.spec_end()) * dy_num(e1.spec_end(), e1.spec_start()) - dy_num(e1.spec_end(), e2.spec_end()) * dx_num(
        e1.spec_end(),
        e1.spec_start(),
    )
}

/// Exact intersection of the segments `p1 p2` and `p3 p4`: the carrier lines
/// are not parallel and both intersection parameters lie in `[0, 1]`.
#[verifier::opaque]
pub open spec fn segs_intersect_pts(p1: Point, p2: Point, p3: Point, p4: Point) -> bool {
    let tn = (dx_num(p2, p4) * dy_num(p4, p3) - dy_num(p2, p4) * dx_num(p4, p3));
    let td = (dx_num(p2, p1) * dy_num(p4, p3) - dy_num(p2, p1) * dx_num(p4, p3));
    let un = (dx_num(p2, p4) * dy_num(p2, p1) - dy_num(p2, p4) * dx_num(p2, p1));
    let d1 = p1.d();
    let d2 = p2.d();
    let d3 = p3.d();
    let d4 = p4.d();
    &&& td != 0
    &&& (td > 0 ==> tn >= 0 && tn * d1 <= td * d4 && un >= 0 && un * d3 <= td * d2)
    &&& (td < 0 ==> tn <= 0 && tn * d1 >= td * d4 && un <= 0 && un * d3 >= td * d2)
}

/// Exact segment intersection: the carrier lines are not parallel and both
/// intersection parameters lie in `[0, 1]`.
pub open spec fn segs_intersect(e1: Edge, e2: Edge) -> bool {
    segs_intersect_pts(e1.spec_start(), e1.spec_end(), e2.spec_start(), e2.spec_end())
}

/// Cleared-denominator x numerator of the intersection point; its denominator
/// is [`inter_den`].
pub open spec fn inter_x_num(e1: Edge, e2: Edge) -> int {
    e1.spec_end().xn() * inter_td(e1, e2) * e2.spec_end().d() + inter_tn(e1, e2) * dx_num(
        e1.spec_start(),
        e1.spec_end(),
    )
}

/// Cleared-denominator y numerator of the intersection point.
pub open spec fn inter_y_num(e1: Edge, e2: Edge) -> int {
    e1.spec_end().yn() * inter_td(e1, e2) * e2.spec_end().d() + inter_tn(e1, e2) * dy_num(
        e1.spec_start(),
        e1.spec_end(),
    )
}

/// Shared denominator of the intersection point numerators.
pub open spec fn inter_den(e1: Edge, e2: Edge) -> int {
    inter_td(e1, e2) * (e1.spec_end().d() * e2.spec_end().d())
}

/// Whether the exact intersection point of two intersecting segments is
/// representable: its reduced homogeneous form, with the denominator made
/// positive, stays within the precision budget.
pub open spec fn inter_fits(e1: Edge, e2: Edge) -> bool {
    if inter_den(e1, e2) < 0 {
        crate::point::fits3(-inter_x_num(e1, e2), -inter_y_num(e1, e2), -inter_den(e1, e2))
    } else {
        crate::point::fits3(inter_x_num(e1, e2), inter_y_num(e1, e2), inter_den(e1, e2))
    }
}

impl Edge {
    /// Start point.
    pub closed spec fn spec_start(self) -> Point {
        self.start
    }

    /// End point.
    pub closed spec fn spec_end(self) -> Point {
        self.end
    }

    /// An edge is well formed when its endpoints are distinct points.
    #[verifier::type_invariant]
    pub open spec fn wf(self) -> bool {
        !self.spec_start().same_point(self.spec_end())
    }

    /// Builds the edge from `start` to `end`; a degenerate edge, whose
    /// endpoints denote the same point, is rejected.
    pub fn new(start: Point, end: Point) -> (r: Result<Edge, GeomError>)
        ensures
            match r {
                Ok(e) => !start.same_point(end) && e.spec_start() == start && e.spec_end() == end,
                Err(err) => start.same_point(end) && err == GeomError::DegenerateEdge,
            },
    {
        if start.eq_point(&end) {
            Err(GeomError::DegenerateEdge)
        } else {
            Ok(Edge { start, end })
        }
    }

    /// Builds an edge whose endpoints are already known to be distinct; for
    /// the geometry modules of this crate.
    pub(crate) fn new_unchecked(start: Point, end: Point) -> (r: Edge)
        requires
            !start.same_point(end),
        ensures
            r.spec_start() == start,
            r.spec_end() == end,
    {
        Edge { start, end }
    }

    /// The start point.
    pub fn start(&self) -> (r: Point)
        ensures
            r == self.spec_start(),
    {
        self.start
    }

    /// The end point.
    pub fn end(&self) -> (r: Point)
        ensures
            r == self.spec_end(),
    {
        self.end
    }

    /// The same segment, directed the other way.
    pub fn reverse(self) -> (r: Edge)
        ensures
            r.spec_start() == self.spec_end(),
            r.spec_end() == self.spec_start(),
    {
        proof {
            use_type_invariant(self);
        }
        Edge { start: self.end, end: self.start }
    }

    /// The smaller of the two endpoint x coordinates.
    pub fn x_min(&self) -> (r: Frac)
        ensures
            r.num() == if self.spec_start().xn() * self.spec_end().d() <= self.spec_end().xn() * self.spec_start().d() {
                self.spec_start().xn()
            } else {
                self.spec_end().xn()
            },
            r.den() == if self.spec_start().xn() * self.spec_end().d() <= self.spec_end().xn() * self.spec_start().d() {
                self.spec_start().d()
            } else {
                self.spec_end().d()
            },
    {
        let sx = self.start.x();
        let ex = self.end.x();
        if sx.le(&ex) {
            sx
        } else {
            ex
        }
    }

    /// The larger of the two endpoint x coordinates.
    pub fn x_max(&self) -> (r: Frac)
        ensures
            r.num() == if self.spec_start().xn() * self.spec_end().d() <= self.spec_end().xn() * self.spec_start().d() {
                self.spec_end().xn()
            } else {
                self.spec_start().xn()
            },
            r.den() == if self.spec_start().xn() * self.spec_end().d() <= self.spec_end().xn() * self.spec_start().d() {
                self.spec_end().d()
            } else {
                self.spec_start().d()
            },
    {
        let sx = self.start.x();
        let ex = self.end.x();
        if sx.le(&ex) {
            ex
        } else {
            sx
        }
    }

    /// The smaller of the two endpoint y coordinates.
    pub fn y_min(&self) -> (r: Frac)
        ensures
            r.num() == if self.spec_start().yn() * self.spec_end().d() <= self.spec_end().yn() * self.spec_start().d() {
                self.spec_start().yn()
            } else {
                self.spec_end().yn()
            },
            r.den() == if self.spec_start().yn() * self.spec_end().d() <= self.spec_end().yn() * self.spec_start().d() {
                self.spec_start().d()
            } else {
                self.spec_end().d()
            },
    {
        let sy = self.start.y();
        let ey = self.end.y();
        if sy.le(&ey) {
            sy
        } else {
            ey
        }
    }

    /// The larger of the two endpoint y coordinates.
    pub fn y_max(&self) -> (r: Frac)
        ensures
            r.num() == if self.spec_start().yn() * self.spec_end().d() <= self.spec_end().yn() * self.spec_start().d() {
                self.spec_end().yn()
            } else {
                self.spec_start().yn()
            },
            r.den() == if self.spec_start().yn() * self.spec_end().d() <= self.spec_end().yn() * self.spec_start().d() {
                self.spec_end().d()
            } else {
                self.spec_start().d()
            },
    {
        let sy = self.start.y();
        let ey = self.end.y();
        if sy.le(&ey) {
            ey
        } else {
            sy
        }
    }

    /// Exact segment intersection test; parallel pairs, collinear overlaps
    /// included, report no collision.
    fn intersects(&self, other: &Edge) -> (r: bool)
        ensures
            r == segs_intersect(*self, *other),
    {
        let (tn, td, un) = edge_inter_nums(self, other);
        proof {
            reveal(crate::edge::segs_intersect_pts);
            use_type_invariant(self);
            use_type_invariant(other);
            use_type_invariant(&self.start);
            use_type_invariant(&self.end);
            use_type_invariant(&other.start);
            use_type_invariant(&other.end);
            lemma_inter_bounds(*self, *other);
            crate::frac::lemma_abs_mul_le(tn as int, self.spec_start().d(), 0x80000000000, 256);
            crate::frac::lemma_abs_mul_le(td as int, other.spec_end().d(), 0x80000000000, 256);
            crate::frac::lemma_abs_mul_le(un as int, other.spec_start().d(), 0x80000000000, 256);
            crate::frac::lemma_abs_mul_le(td as int, self.spec_end().d(), 0x80000000000, 256);
        }
        let d1 = self.start.denominator_raw();
        let d2 = self.end.denominator_raw();
        let d3 = other.start.denominator_raw();
        let d4 = other.end.denominator_raw();
        if td == 0 {
            false
        } else if td > 0 {
            tn >= 0 && tn * d1 <= td * d4 && un >= 0 && un * d3 <= td * d2
        } else {
            tn <= 0 && tn * d1 >= td * d4 && un <= 0 && un * d3 >= td * d2
        }
    }

    /// Where the two segments intersect: `Ok(None)` when they do not, the
    /// exact intersection point when they do. `Err` reports an intersection
    /// point whose reduced coordinates leave the precision budget.
    pub fn collides_at(&self, other: &Edge) -> (r: Result<Option<Point>, GeomError>)
        ensures
            r is Err <==> segs_intersect(*self, *other) && !inter_fits(*self, *other),
            match r {
                Ok(None) => !segs_intersect(*self, *other),
                Ok(Some(p)) => segs_intersect(*self, *other) && p.xn() * inter_den(*self, *other)
                    == inter_x_num(*self, *other) * p.d() && p.yn() * inter_den(*self, *other)
                    == inter_y_num(*self, *other) * p.d(),
                Err(e) => e == GeomError::OutOfRange,
            },
    {
        if !self.intersects(other) {
            return Ok(None);
        }
        let (tn, td, _un) = edge_inter_nums(self, other);
        proof {
            reveal(crate::edge::segs_intersect_pts);
            use_type_invariant(self);
            use_type_invariant(other);
            use_type_invariant(&self.start);
            use_type_invariant(&self.end);
            use_type_invariant(&other.start);
            use_type_invariant(&other.end);
            lemma_inter_bounds(*self, *other);
        }
        let p2 = &self.end;
        let p4 = &other.end;
        let d2 = p2.denominator_raw();
        let d4 = p4.denominator_raw();
        proof {
            crate::frac::lemma_abs_mul_le(d2 as int, d4 as int, 256, 256);
            crate::frac::lemma_abs_mul_le(td as int, d2 as int * d4 as int, 0x80000000000, 65536);
            crate::frac::lemma_abs_mul_le(self.spec_end().xn(), td as int, 256, 0x80000000000);
            crate::frac::lemma_abs_mul_le(
                self.spec_end().xn() * (td as int),
                d4 as int,
                0x8000000000000,
                256,
            );
            crate::frac::lemma_abs_mul_le(self.spec_end().yn(), td as int, 256, 0x80000000000);
            crate::frac::lemma_abs_mul_le(
                self.spec_end().yn() * (td as int),
                d4 as int,
                0x8000000000000,
                256,
            );
            lemma_diff_bounds(self.spec_start(), self.spec_end());
            crate::frac::lemma_abs_mul_le(
                tn as int,
                dx_num(self.spec_start(), self.spec_end()),
                0x80000000000,
                131072,
            );
            crate::frac::lemma_abs_mul_le(
                tn as int,
                dy_num(self.spec_start(), self.spec_end()),
                0x80000000000,
                131072,
            );
            crate::frac::lemma_abs_mul_le(self.spec_start().xn(), self.spec_end().d(), 256, 256);
            crate::frac::lemma_abs_mul_le(self.spec_end().xn(), self.spec_start().d(), 256, 256);
            crate::frac::lemma_abs_mul_le(self.spec_start().yn(), self.spec_end().d(), 256, 256);
            crate::frac::lemma_abs_mul_le(self.spec_end().yn(), self.spec_start().d(), 256, 256);
        }
        let a12 = self.start.x_numerator_raw() * d2 - p2.x_numerator_raw()
            * self.start.denominator_raw();
        let b12 = self.start.y_numerator_raw() * d2 - p2.y_numerator_raw()
            * self.start.denominator_raw();
        let raw_xn = p2.x_numerator_raw() * td * d4 + tn * a12;
        let raw_yn = p2.y_numerator_raw() * td * d4 + tn * b12;
        let raw_d = td * (d2 * d4);
        assert(raw_d != 0) by (nonlinear_arith)
            requires
                td != 0,
                d2 > 0,
                d4 > 0,
                raw_d as int == (td as int) * ((d2 as int) * (d4 as int)),
        ;
        let (sxn, syn, sd) = if raw_d < 0 {
            (-raw_xn, -raw_yn, -raw_d)
        } else {
            (raw_xn, raw_yn, raw_d)
        };
        match Point::from_raw(sxn, syn, sd) {
            Ok(p) => {
                proof {
                    use_type_invariant(p);
                    if raw_d < 0 {
                        assert(p.xn() * (raw_d as int) == (raw_xn as int) * p.d())
                            by (nonlinear_arith)
                            requires
                                p.xn() * (sd as int) == (sxn as int) * p.d(),
                                sd as int == -(raw_d as int),
                                sxn as int == -(raw_xn as int),
                        ;
                        assert(p.yn() * (raw_d as int) == (raw_yn as int) * p.d())
                            by (nonlinear_arith)
                            requires
                                p.yn() * (sd as int) == (syn as int) * p.d(),
                                sd as int == -(raw_d as int),
                                syn as int == -(raw_yn as int),
                        ;
                    }
                }
                Ok(Some(p))
            },
            Err(_) => Err(GeomError::OutOfRange),
        }
    }
}

impl CollidesWith<Edge> for Edge {
    open spec fn collides_spec(&self, other: &Edge) -> bool {
        segs_intersect(*self, *other)
    }

    fn collides_with(&self, other: &Edge) -> (r: bool) {
        self.intersects(other)
    }
}

/// Computes the three cleared-denominator intersection numerators.
fn edge_inter_nums(e1: &Edge, e2: &Edge) -> (r: (i128, i128, i128))
    ensures
        r.0 as int == inter_tn(*e1, *e2),
        r.1 as int == inter_td(*e1, *e2),
        r.2 as int == inter_un(*e1, *e2),
{
    proof {
        use_type_invariant(e1);
        use_type_invariant(e2);
        use_type_invariant(&e1.start);
        use_type_invariant(&e1.end);
        use_type_invariant(&e2.start);
        use_type_invariant(&e2.end);
        lemma_diff_bounds(e1.spec_end(), e2.spec_end());
        lemma_diff_bounds(e2.spec_end(), e2.spec_start());
        lemma_diff_bounds(e1.spec_end(), e1.spec_start());
        crate::frac::lemma_abs_mul_le(
            dx_num(e1.spec_end(), e2.spec_end()),
            dy_num(e2.spec_end(), e2.spec_start()),
            131072,
            131072,
        );
        crate::frac::lemma_abs_mul_le(
            dy_num(e1.spec_end(), e2.spec_end()),
            dx_num(e2.spec_end(), e2.spec_start()),
            131072,
            131072,
        );
        crate::frac::lemma_abs_mul_le(
            dx_num(e1.spec_end(), e1.spec_start()),
            dy_num(e2.spec_end(), e2.spec_start()),
            131072,
            131072,
        );
        crate::frac::lemma_abs_mul_le(
            dy_num(e1.spec_end(), e1.spec_start()),
            dx_num(e2.spec_end(), e2.spec_start()),
            131072,
            131072,
        );
        crate::frac::lemma_abs_mul_le(
            dx_num(e1.spec_end(), e2.spec_end()),
            dy_num(e1.spec_end(), e1.spec_start()),
            131072,
            131072,
        );
        crate::frac::lemma_abs_mul_le(
            dy_num(e1.spec_end(), e2.spec_end()),
            dx_num(e1.spec_end(), e1.spec_start()),
            131072,
            131072,
        );
    }
    let p1 = &e1.start;
    let p2 = &e1.end;
    let p3 = &e2.start;
    let p4 = &e2.end;
    let a24 = p2.x_numerator_raw() * p4.denominator_raw() - p4.x_numerator_raw()
        * p2.denominator_raw();
    let b24 = p2.y_numerator_raw() * p4.denominator_raw() - p4.y_numerator_raw()
        * p2.denominator_raw();
    let a43 = p4.x_numerator_raw() * p3.denominator_raw() - p3.x_numerator_raw()
        * p4.denominator_raw();
    let b43 = p4.y_numerator_raw() * p3.denominator_raw() - p3.y_numerator_raw()
        * p4.denominator_raw();
    let a21 = p2.x_numerator_raw() * p1.denominator_raw() - p1.x_numerator_raw()
        * p2.denominator_raw();
    let b21 = p2.y_numerator_raw() * p1.denominator_raw() - p1.y_numerator_raw()
        * p2.denominator_raw();
    let tn = a24 * b43 - b24 * a43;
    let td = a21 * b43 - b21 * a43;
    let un = a24 * b21 - b24 * a21;
    (tn, td, un)
}

/// Bounds on the cleared-denominator coordinate differences of two points.
pub(crate) proof fn lemma_diff_bounds(p: Point, q: Point)
    requires
        p.wf(),
        q.wf(),
    ensures
        -131072 <= dx_num(p, q) <= 131072,
        -131072 <= dy_num(p, q) <= 131072,
        -65536 <= p.xn() * q.d() <= 65536,
        -65536 <= q.xn() * p.d() <= 65536,
        -65536 <= p.yn() * q.d() <= 65536,
        -65536 <= q.yn() * p.d() <= 65536,
{
    crate::frac::lemma_abs_mul_le(p.xn(), q.d(), 256, 256);
    crate::frac::lemma_abs_mul_le(q.xn(), p.d(), 256, 256);
    crate::frac::lemma_abs_mul_le(p.yn(), q.d(), 256, 256);
    crate::frac::lemma_abs_mul_le(q.yn(), p.d(), 256, 256);
}

/// Bounds on the three intersection numerators: `|tn|, |td|, |un| <= 2^43`.
proof fn lemma_inter_bounds(e1: Edge, e2: Edge)
    requires
        e1.wf(),
        e2.wf(),
        e1.spec_start().wf(),
        e1.spec_end().wf(),
        e2.spec_start().wf(),
        e2.spec_end().wf(),
    ensures
        -0x80000000000 <= inter_tn(e1, e2) <= 0x80000000000,
        -0x80000000000 <= inter_td(e1, e2) <= 0x80000000000,
        -0x80000000000 <= inter_un(e1, e2) <= 0x80000000000,
{
    lemma_diff_bounds(e1.spec_end(), e2.spec_end());
    lemma_diff_bounds(e2.spec_end(), e2.spec_start());
    lemma_diff_bounds(e1.spec_end(), e1.spec_start());
    crate::frac::lemma_abs_mul_le(
        dx_num(e1.spec_end(), e2.spec_end()),
        dy_num(e2.spec_end(), e2.spec_start()),
        131072,
        131072,
    );
    crate::frac::lemma_abs_mul_le(
        dy_num(e1.spec_end(), e2.spec_end()),
        dx_num(e2.spec_end(), e2.spec_start()),
        131072,
        131072,
    );
    crate::frac::lemma_abs_mul_le(
        dx_num(e1.spec_end(), e1.spec_start()),
        dy_num(e2.spec_end(), e2.spec_start()),
        131072,
        131072,
    );
    crate::frac::lemma_abs_mul_le(
        dy_num(e1.spec_end(), e1.spec_start()),
        dx_num(e2.spec_end(), e2.spec_start()),
        131072,
        131072,
    );
    crate::frac::lemma_abs_mul_le(
        dx_num(e1.spec_end(), e2.spec_end()),
        dy_num(e1.spec_end(), e1.spec_start()),
        131072,
        131072,
    );
    crate::frac::lemma_abs_mul_le(
        dy_num(e1.spec_end(), e2.spec_end()),
        dx_num(e1.spec_end(), e1.spec_start()),
        131072,
        131072,
    );
}


/// Cleared-denominator numerator of the squared distance from point `p` to
/// segment `e`: the squared distance to the nearer endpoint when the
/// projection of `p` onto the carrier line falls outside the segment, else
/// the squared carrier-line distance.
pub open spec fn edge_pt_sq_num(e: Edge, p: Point) -> int {
    let a1 = dx_num(p, e.spec_start());
    let b1 = dy_num(p, e.spec_start());
    let cx = dx_num(e.spec_end(), e.spec_start());
    let cy = dy_num(e.spec_end(), e.spec_start());
    let proj = a1 * cx + b1 * cy;
    let l = cx * cx + cy * cy;
    if proj <= 0 {
        crate::point::sq_dist_num(p, e.spec_start())
    } else if proj * e.spec_end().d() >= p.d() * l {
        crate::point::sq_dist_num(p, e.spec_end())
    } else {
        (a1 * cy - b1 * cx) * (a1 * cy - b1 * cx)
    }
}

/// Denominator of the squared point-to-segment distance.
pub open spec fn edge_pt_sq_den(e: Edge, p: Point) -> int {
    let a1 = dx_num(p, e.spec_start());
    let b1 = dy_num(p, e.spec_start());
    let cx = dx_num(e.spec_end(), e.spec_start());
    let cy = dy_num(e.spec_end(), e.spec_start());
    let proj = a1 * cx + b1 * cy;
    let l = cx * cx + cy * cy;
    let d1 = e.spec_start().d();
    if proj <= 0 {
        crate::point::sq_dist_den(p, e.spec_start())
    } else if proj * e.spec_end().d() >= p.d() * l {
        crate::point::sq_dist_den(p, e.spec_end())
    } else {
        (p.d() * p.d()) * ((d1 * d1) * l)
    }
}

/// Whether the exact squared point-to-segment distance is representable:
/// always for the endpoint cases, and when the reduced carrier-line value
/// stays within the range otherwise.
pub open spec fn edge_pt_sq_fits(e: Edge, p: Point) -> bool {
    let a1 = dx_num(p, e.spec_start());
    let b1 = dy_num(p, e.spec_start());
    let cx = dx_num(e.spec_end(), e.spec_start());
    let cy = dy_num(e.spec_end(), e.spec_start());
    let proj = a1 * cx + b1 * cy;
    let l = cx * cx + cy * cy;
    if proj <= 0 || proj * e.spec_end().d() >= p.d() * l {
        true
    } else {
        crate::frac::norm_fits(edge_pt_sq_num(e, p), edge_pt_sq_den(e, p))
    }
}

impl crate::geo_traits::DistanceFrom<Point> for Edge {
    open spec fn sq_distance_rel(&self, other: &Point, f: Frac) -> bool {
        f.num() * edge_pt_sq_den(*self, *other) == edge_pt_sq_num(*self, *other) * f.den()
    }

    open spec fn sq_distance_fits(&self, other: &Point) -> bool {
        edge_pt_sq_fits(*self, *other)
    }

    /// A segment has no interior, so the query point always counts as
    /// exterior.
    open spec fn sq_border_rel(&self, other: &Point, pos: crate::geo_traits::GeoPosition, f: Frac) -> bool {
        pos == crate::geo_traits::GeoPosition::Exterior && f.num() * edge_pt_sq_den(*self, *other)
            == edge_pt_sq_num(*self, *other) * f.den()
    }

    fn sq_distance(&self, other: &Point) -> (r: Result<Frac, GeomError>) {
        edge_pt_sq_distance(self, other)
    }

    fn sq_distance_from_border(&self, other: &Point) -> (r: Result<
        (crate::geo_traits::GeoPosition, Frac),
        GeomError,
    >) {
        match edge_pt_sq_distance(self, other) {
            Ok(f) => Ok((crate::geo_traits::GeoPosition::Exterior, f)),
            Err(e) => Err(e),
        }
    }
}

/// Exact squared point-to-segment distance by clamped projection.
fn edge_pt_sq_distance(e: &Edge, p: &Point) -> (r: Result<Frac, GeomError>)
    ensures
        r is Ok <==> edge_pt_sq_fits(*e, *p),
        match r {
            Ok(f) => f.num() * edge_pt_sq_den(*e, *p) == edge_pt_sq_num(*e, *p) * f.den(),
            Err(err) => err == GeomError::OutOfRange,
        },
{
    let p1 = e.start();
    let p2 = e.end();
    proof {
        use_type_invariant(e);
        use_type_invariant(p);
        use_type_invariant(p1);
        use_type_invariant(p2);
        lemma_diff_bounds(*p, p1);
        lemma_diff_bounds(p2, p1);
        crate::frac::lemma_abs_mul_le(dx_num(*p, p1), dx_num(p2, p1), 131072, 131072);
        crate::frac::lemma_abs_mul_le(dy_num(*p, p1), dy_num(p2, p1), 131072, 131072);
        crate::frac::lemma_abs_mul_le(dx_num(p2, p1), dx_num(p2, p1), 131072, 131072);
        crate::frac::lemma_abs_mul_le(dy_num(p2, p1), dy_num(p2, p1), 131072, 131072);
    }
    let a1 = p.x_numerator_raw() * p1.denominator_raw() - p1.x_numerator_raw()
        * p.denominator_raw();
    let b1 = p.y_numerator_raw() * p1.denominator_raw() - p1.y_numerator_raw()
        * p.denominator_raw();
    let cx = p2.x_numerator_raw() * p1.denominator_raw() - p1.x_numerator_raw()
        * p2.denominator_raw();
    let cy = p2.y_numerator_raw() * p1.denominator_raw() - p1.y_numerator_raw()
        * p2.denominator_raw();
    let proj = a1 * cx + b1 * cy;
    let l = cx * cx + cy * cy;
    if proj <= 0 {
        let f = p.sq_distance(&p1);
        return Ok(f);
    }
    proof {
        crate::frac::lemma_abs_mul_le(proj as int, p2.d(), 0x800000000, 256);
        crate::frac::lemma_abs_mul_le(p.d(), l as int, 256, 0x800000000);
    }
    if proj * p2.denominator_raw() >= p.denominator_raw() * l {
        let f = p.sq_distance(&p2);
        return Ok(f);
    }
    proof {
        crate::frac::lemma_abs_mul_le(a1 as int, cy as int, 131072, 131072);
        crate::frac::lemma_abs_mul_le(b1 as int, cx as int, 131072, 131072);
    }
    let g = a1 * cy - b1 * cx;
    let d1 = p1.denominator_raw();
    let dp = p.denominator_raw();
    proof {
        crate::frac::lemma_abs_mul_le(g as int, g as int, 0x800000000, 0x800000000);
        crate::frac::lemma_abs_mul_le(dp as int, dp as int, 256, 256);
        crate::frac::lemma_abs_mul_le(d1 as int, d1 as int, 256, 256);
        crate::frac::lemma_abs_mul_le((d1 as int) * (d1 as int), l as int, 65536, 0x800000000);
        crate::frac::lemma_abs_mul_le(
            (dp as int) * (dp as int),
            ((d1 as int) * (d1 as int)) * (l as int),
            65536,
            0x8000000000000,
        );
        assert(!p1.same_point(p2) ==> l > 0) by (nonlinear_arith)
            requires
                cx as int == dx_num(p2, p1),
                cy as int == dy_num(p2, p1),
                l as int == (cx as int) * (cx as int) + (cy as int) * (cy as int),
                p1.same_point(p2) <==> (p2.xn() * p1.d() == p1.xn() * p2.d() && p2.yn() * p1.d()
                    == p1.yn() * p2.d()),
        ;
        assert((dp as int) * (dp as int) > 0 && ((d1 as int) * (d1 as int)) * (l as int) > 0)
            by (nonlinear_arith)
            requires
                dp > 0,
                d1 > 0,
                l > 0,
        ;
        assert(((dp as int) * (dp as int)) * (((d1 as int) * (d1 as int)) * (l as int)) > 0)
            by (nonlinear_arith)
            requires
                (dp as int) * (dp as int) > 0,
                ((d1 as int) * (d1 as int)) * (l as int) > 0,
        ;
    }
    let den = (dp * dp) * ((d1 * d1) * l);
    match Frac::normalize(g * g, den) {
        Some(f) => {
            proof {
                crate::frac::lemma_norm_value((g as int) * (g as int), den as int);
            }
            Ok(f)
        },
        None => Err(GeomError::OutOfRange),
    }
}

} // verus!
