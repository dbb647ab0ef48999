//! Simple polygons: closed, non-self-intersecting vertex cycles.
//!
//! A polygon is validated at construction: at least three vertices,
//! consecutive vertices distinct, and no two non-adjacent edges intersecting.
//! The bounding box and the exact area (half the absolute shoelace sum) are
//! computed once and cached. A fail-fast surrogate — a circle covering every
//! vertex, plus optional zero-radius poles on the silhouette — can be attached
//! after construction.

use vstd::prelude::*;

verus! {

use crate::frac::{Frac, lemma_value_add};
use crate::point::{Point, sq_dist_num, sq_dist_den};
use crate::edge::{Edge, segs_intersect_pts};
use crate::geo_traits::CollidesWith;
use crate::rect::AARectangle;
use crate::surrogate::{SPSurrogate, SPSurrogateConfig, surrogate_covers};
use crate::circle::Circle;
use crate::dtransform::DTransformation;
use crate::GeomError;

/// Whether two optional surrogates agree pole for pole.
pub open spec fn surrogate_eq(a: Option<SPSurrogate>, b: Option<SPSurrogate>) -> bool {
    match (a, b) {
        (Some(x), Some(y)) => x.poles() == y.poles() && x.spec_config() == y.spec_config(),
        (None, None) => true,
        _ => false,
    }
}

/// The successor of `i` in a cycle of length `n`.
pub open spec fn nxt(i: int, n: int) -> int {
    if i + 1 == n {
        0
    } else {
        i + 1
    }
}

/// Whether the cycle edges starting at `i` and `j` (`i < j`) share a vertex.
pub open spec fn edges_adjacent(i: int, j: int, n: int) -> bool {
    j == i + 1 || (i == 0 && j == n - 1)
}

/// A valid vertex cycle: at least three vertices, consecutive vertices
/// distinct, and no two non-adjacent edges intersecting.
#[verifier::opaque]
pub open spec fn valid_poly_points(pts: Seq<Point>) -> bool {
    &&& pts.len() >= 3
    &&& (forall|i: int|
        0 <= i < pts.len() ==> !#[trigger] pts[i].same_point(pts[nxt(i, pts.len() as int)]))
    &&& (forall|i: int, j: int|
        0 <= i < j < pts.len() && !edges_adjacent(i, j, pts.len() as int)
            ==> !#[trigger] segs_intersect_pts(
            pts[i],
            pts[nxt(i, pts.len() as int)],
            pts[j],
            pts[nxt(j, pts.len() as int)],
        ))
}

/// Cleared-denominator shoelace term of the edge from `p` to `q`:
/// the numerator of `p.x q.y - q.x p.y` over `p.d() q.d()`.
pub open spec fn shoelace_num(p: Point, q: Point) -> int {
    p.xn() * q.yn() - q.xn() * p.yn()
}

/// Denominator of the shoelace term of the edge from `p` to `q`.
pub open spec fn shoelace_den(p: Point, q: Point) -> int {
    p.d() * q.d()
}

/// Exact sum of the first `k` shoelace terms, as a raw fraction pair.
pub open spec fn shoelace_sum(pts: Seq<Point>, k: int) -> (int, int)
    decreases k,
{
    if k <= 0 {
        (0, 1)
    } else {
        let s = shoelace_sum(pts, k - 1);
        let p = pts[k - 1];
        let q = pts[nxt(k - 1, pts.len() as int)];
        (s.0 * shoelace_den(p, q) + shoelace_num(p, q) * s.1, s.1 * shoelace_den(p, q))
    }
}

/// The denominator of every partial shoelace sum is positive.
proof fn lemma_shoelace_den_pos(pts: Seq<Point>, k: int)
    requires
        forall|i: int| 0 <= i < pts.len() ==> (#[trigger] pts[i]).d() > 0,
        k <= pts.len(),
    ensures
        shoelace_sum(pts, k).1 > 0,
    decreases k,
{
    if k > 0 {
        lemma_shoelace_den_pos(pts, k - 1);
        let s = shoelace_sum(pts, k - 1);
        let p = pts[k - 1];
        let q = pts[nxt(k - 1, pts.len() as int)];
        assert(s.1 * shoelace_den(p, q) > 0) by (nonlinear_arith)
            requires
                s.1 > 0,
                p.d() > 0,
                q.d() > 0,
                shoelace_den(p, q) == p.d() * q.d(),
        ;
    }
}

/// The exact reduced accumulator of the shoelace sum after `k` terms, as the
/// area computation produces it: each partial sum is reduced by its gcd and
/// checked against the representable range; `None` once any step leaves it.
pub open spec fn area_acc(pts: Seq<Point>, k: int) -> Option<(int, int)>
    decreases k,
{
    if k <= 0 {
        Some((0, 1))
    } else {
        match area_acc(pts, k - 1) {
            Some(a) => {
                let p = pts[k - 1];
                let q = pts[nxt(k - 1, pts.len() as int)];
                let rn = a.0 * shoelace_den(p, q) + shoelace_num(p, q) * a.1;
                let rd = a.1 * shoelace_den(p, q);
                if crate::frac::norm_fits(rn, rd) {
                    Some((crate::frac::norm_num(rn, rd), crate::frac::norm_den(rn, rd)))
                } else {
                    None
                }
            },
            None => None,
        }
    }
}

/// Whether the exact area of the cycle is representable: every reduced
/// partial shoelace sum and the final halving stay within the range.
pub open spec fn area_representable(pts: Seq<Point>) -> bool {
    match area_acc(pts, pts.len() as int) {
        Some(a) => crate::frac::norm_fits(a.0 * 1, a.1 * 2),
        None => false,
    }
}

/// Once an area accumulator step has failed, every later step has failed.
proof fn lemma_area_acc_none(pts: Seq<Point>, k: int, j: int)
    requires
        0 <= k <= j,
        area_acc(pts, k) is None,
    ensures
        area_acc(pts, j) is None,
    decreases j - k,
{
    if j > k {
        lemma_area_acc_none(pts, k, j - 1);
    }
}

/// Whether the fraction `f` is half the absolute value of the full shoelace
/// sum of `pts` — the exact area of the polygon.
#[verifier::opaque]
pub open spec fn is_poly_area(f: Frac, pts: Seq<Point>) -> bool {
    let s = shoelace_sum(pts, pts.len() as int);
    f.num() * (2 * s.1) == crate::frac::iabs(s.0) * f.den()
}

/// Whether `b` is the bounding box of `pts`: it contains every vertex and
/// each bound is attained by one of them.
#[verifier::opaque]
pub open spec fn is_poly_bbox(b: AARectangle, pts: Seq<Point>) -> bool {
    &&& (forall|i: int|
        0 <= i < pts.len() ==> {
            let p = #[trigger] pts[i];
            &&& b.x_min().num() * p.d() <= p.xn() * b.x_min().den()
            &&& p.xn() * b.x_max().den() <= b.x_max().num() * p.d()
            &&& b.y_min().num() * p.d() <= p.yn() * b.y_min().den()
            &&& p.yn() * b.y_max().den() <= b.y_max().num() * p.d()
        })
    &&& (exists|i: int|
        0 <= i < pts.len() && (#[trigger] pts[i]).xn() == b.x_min().num() && pts[i].d()
            == b.x_min().den())
    &&& (exists|i: int|
        0 <= i < pts.len() && (#[trigger] pts[i]).xn() == b.x_max().num() && pts[i].d()
            == b.x_max().den())
    &&& (exists|i: int|
        0 <= i < pts.len() && (#[trigger] pts[i]).yn() == b.y_min().num() && pts[i].d()
            == b.y_min().den())
    &&& (exists|i: int|
        0 <= i < pts.len() && (#[trigger] pts[i]).yn() == b.y_max().num() && pts[i].d()
            == b.y_max().den())
}

/// The images of a vertex cycle under a pose, vertex by vertex.
pub open spec fn image_seq(rot: crate::dtransform::Rotation, tx: Frac, ty: Frac, pts: Seq<Point>) -> Seq<
    Point,
> {
    Seq::new(pts.len(), |i: int| crate::dtransform::image_point(rot, tx, ty, pts[i]))
}

/// Whether every vertex image under the pose is representable.
pub open spec fn all_images_fit(
    rot: crate::dtransform::Rotation,
    tx: Frac,
    ty: Frac,
    pts: Seq<Point>,
) -> bool {
    forall|i: int|
        0 <= i < pts.len() ==> crate::dtransform::image_fits(rot, tx, ty, #[trigger] pts[i])
}

/// Whether the image of a whole cycle under a pose is representable and is
/// again a valid polygon with a representable area — exactly when posing the
/// cycle succeeds.
pub open spec fn pose_applies(
    rot: crate::dtransform::Rotation,
    tx: Frac,
    ty: Frac,
    pts: Seq<Point>,
) -> bool {
    &&& all_images_fit(rot, tx, ty, pts)
    &&& valid_poly_points(image_seq(rot, tx, ty, pts))
    &&& area_representable(image_seq(rot, tx, ty, pts))
}

/// A simple polygon with its cached bounding box, exact area and optional
/// fail-fast surrogate.
#[derive(Debug)]
pub struct SimplePolygon {
    points: Vec<Point>,
    bbox: AARectangle,
    area: Frac,
    surrogate: Option<SPSurrogate>,
}

impl SimplePolygon {
    /// The vertex cycle.
    pub closed spec fn points(self) -> Seq<Point> {
        self.points@
    }

    /// The cached bounding box.
    pub closed spec fn spec_bbox(self) -> AARectangle {
        self.bbox
    }

    /// The cached exact area.
    pub closed spec fn spec_area(self) -> Frac {
        self.area
    }

    /// The attached surrogate, if one was generated.
    pub closed spec fn spec_surrogate(self) -> Option<SPSurrogate> {
        self.surrogate
    }

    /// Validity of the cycle and of the cached values; in particular an
    /// attached surrogate covers every vertex with its first pole.
    #[verifier::type_invariant]
    pub open spec fn wf(self) -> bool {
        &&& valid_poly_points(self.points())
        &&& is_poly_bbox(self.spec_bbox(), self.points())
        &&& is_poly_area(self.spec_area(), self.points())
        &&& self.spec_area().num() >= 0
        &&& match self.spec_surrogate() {
            Some(s) => surrogate_covers(s.poles(), self.points()),
            None => true,
        }
    }

    /// Builds a polygon from its vertex cycle. A cycle with fewer than three
    /// vertices, with equal consecutive vertices or with two intersecting
    /// non-adjacent edges is rejected as invalid; `OutOfRange` reports an
    /// exact area outside the representable range, and construction succeeds
    /// exactly when neither obstacle exists.
    pub fn new(points: Vec<Point>) -> (r: Result<SimplePolygon, GeomError>)
        ensures
            r is Ok <==> valid_poly_points(points@) && area_representable(points@),
            match r {
                Ok(p) => valid_poly_points(points@) && p.points() == points@ && p.spec_surrogate()
                    is None && is_poly_bbox(p.spec_bbox(), points@) && is_poly_area(
                    p.spec_area(),
                    points@,
                ),
                Err(e) => (e == GeomError::InvalidPolygon || e == GeomError::OutOfRange) && (e
                    == GeomError::InvalidPolygon <==> !valid_poly_points(points@)) && (e
                    == GeomError::OutOfRange <==> valid_poly_points(points@)
                    && !area_representable(points@)),
            },
    {
        Point::observe_all(&points);
        if !check_valid_cycle(&points) {
            return Err(GeomError::InvalidPolygon);
        }
        proof {
            reveal(crate::polygon::valid_poly_points);
        }
        let bbox = compute_bbox(&points);
        let area = match compute_area(&points) {
            Some(a) => a,
            None => {
                return Err(GeomError::OutOfRange);
            },
        };
        Ok(SimplePolygon { points, bbox, area, surrogate: None })
    }

    /// Number of vertices.
    pub fn number_of_points(&self) -> (r: usize)
        ensures
            r == self.points().len(),
            r >= 3,
    {
        proof {
            use_type_invariant(self);
            reveal(crate::polygon::valid_poly_points);
        }
        self.points.len()
    }

    /// The vertex at index `i`.
    pub fn point_at(&self, i: usize) -> (r: Point)
        requires
            i < self.points().len(),
        ensures
            r == self.points()[i as int],
    {
        self.points[i]
    }

    /// The directed edge from vertex `i` to its cyclic successor.
    #[verifier::rlimit(50)]
    pub fn edge_at(&self, i: usize) -> (r: Edge)
        requires
            i < self.points().len(),
        ensures
            r.spec_start() == self.points()[i as int],
            r.spec_end() == self.points()[nxt(i as int, self.points().len() as int)],
    {
        proof {
            use_type_invariant(self);
            reveal(crate::polygon::valid_poly_points);
        }
        let n = self.points.len();
        let j = if i + 1 == n {
            0
        } else {
            i + 1
        };
        proof {
            assert(!self.points@[i as int].same_point(
                self.points@[nxt(i as int, self.points@.len() as int)],
            ));
        }
        Edge::new_unchecked(self.points[i], self.points[j])
    }

    /// The cached bounding box.
    pub fn bbox_cached(&self) -> (r: AARectangle)
        ensures
            r == self.spec_bbox(),
            is_poly_bbox(r, self.points()),
    {
        proof {
            use_type_invariant(self);
        }
        self.bbox
    }

    /// The cached exact area.
    pub fn area_cached(&self) -> (r: Frac)
        ensures
            r == self.spec_area(),
            is_poly_area(r, self.points()),
            r.num() >= 0,
    {
        proof {
            use_type_invariant(self);
        }
        self.area
    }

    /// The attached surrogate; callers must have generated one.
    pub fn surrogate(&self) -> (r: &SPSurrogate)
        requires
            self.spec_surrogate() is Some,
        ensures
            Some(*r) == self.spec_surrogate(),
            surrogate_covers(r.poles(), self.points()),
    {
        proof {
            use_type_invariant(self);
        }
        match &self.surrogate {
            Some(s) => s,
            None => {
                proof {
                    assert(false);
                }
                vstd::pervasive::unreached()
            },
        }
    }

    /// An exact copy of the polygon, sharing nothing with the original.
    pub fn deep_copy(&self) -> (r: SimplePolygon)
        ensures
            r.points() == self.points(),
            r.spec_bbox() == self.spec_bbox(),
            r.spec_area() == self.spec_area(),
            surrogate_eq(r.spec_surrogate(), self.spec_surrogate()),
    {
        proof {
            use_type_invariant(self);
        }
        let points = copy_points(&self.points);
        let surrogate = match &self.surrogate {
            Some(s) => Some(s.deep_copy()),
            None => None,
        };
        SimplePolygon { points, bbox: self.bbox, area: self.area, surrogate }
    }

    /// Whether a surrogate has been generated.
    pub fn has_surrogate(&self) -> (r: bool)
        ensures
            r == (self.spec_surrogate() is Some),
    {
        self.surrogate.is_some()
    }

    /// Generates and attaches the fail-fast surrogate: a circle covering
    /// every vertex, plus up to `config.n_ff_poles` zero-radius poles on the
    /// silhouette. Fails exactly when the cover circle leaves the precision
    /// budget; the polygon is unchanged in that case.
    #[verifier::rlimit(50)]
    pub fn generate_surrogate(&mut self, config: SPSurrogateConfig) -> (r: Result<(), GeomError>)
        ensures
            final(self).points() == old(self).points(),
            final(self).spec_bbox() == old(self).spec_bbox(),
            final(self).spec_area() == old(self).spec_area(),
            r is Ok <==> crate::surrogate::surrogate_representable(
                old(self).points(),
                old(self).spec_bbox(),
            ),
            match r {
                Ok(()) => final(self).spec_surrogate() is Some && surrogate_covers(
                    final(self).spec_surrogate()->Some_0.poles(),
                    final(self).points(),
                ) && final(self).spec_surrogate()->Some_0.spec_config() == config,
                Err(e) => e == GeomError::OutOfRange && final(self).spec_surrogate() == old(
                    self,
                ).spec_surrogate(),
            },
    {
        proof {
            use_type_invariant(&*self);
            reveal(crate::polygon::valid_poly_points);
        }
        Point::observe_all(&self.points);
        let s = match SPSurrogate::generate(&self.points, &self.bbox, config) {
            Ok(s) => s,
            Err(e) => {
                return Err(e);
            },
        };
        self.surrogate = Some(s);
        Ok(())
    }
}

/// Exact validity check of a vertex cycle.
#[verifier::rlimit(50)]
fn check_valid_cycle(points: &Vec<Point>) -> (r: bool)
    ensures
        r == valid_poly_points(points@),
{
    proof {
        reveal(crate::polygon::valid_poly_points);
    }
    let n = points.len();
    if n < 3 {
        return false;
    }
    let mut i: usize = 0;
    while i < n
        invariant
            n == points@.len(),
            n >= 3,
            i <= n,
            forall|k: int|
                0 <= k < i ==> !#[trigger] points@[k].same_point(points@[nxt(k, n as int)]),
        decreases n - i,
    {
        let j = if i + 1 == n {
            0
        } else {
            i + 1
        };
        if points[i].eq_point(&points[j]) {
            proof {
                reveal(crate::polygon::valid_poly_points);
                assert(points@[i as int].same_point(points@[nxt(i as int, n as int)]));
            }
            return false;
        }
        i = i + 1;
    }
    let mut i: usize = 0;
    while i < n
        invariant
            n == points@.len(),
            n >= 3,
            i <= n,
            forall|k: int|
                0 <= k < n ==> !#[trigger] points@[k].same_point(points@[nxt(k, n as int)]),
            forall|a: int, b: int|
                0 <= a < b < n && a < i && !edges_adjacent(a, b, n as int)
                    ==> !#[trigger] segs_intersect_pts(
                    points@[a],
                    points@[nxt(a, n as int)],
                    points@[b],
                    points@[nxt(b, n as int)],
                ),
        decreases n - i,
    {
        let mut j: usize = i + 1;
        while j < n
            invariant
                n == points@.len(),
                n >= 3,
                i < n,
                i + 1 <= j <= n,
                forall|k: int|
                    0 <= k < n ==> !#[trigger] points@[k].same_point(points@[nxt(k, n as int)]),
                forall|a: int, b: int|
                    0 <= a < b < n && a < i && !edges_adjacent(a, b, n as int)
                        ==> !#[trigger] segs_intersect_pts(
                        points@[a],
                        points@[nxt(a, n as int)],
                        points@[b],
                        points@[nxt(b, n as int)],
                    ),
                forall|b: int|
                    i < b < j && !edges_adjacent(i as int, b, n as int)
                        ==> !#[trigger] segs_intersect_pts(
                        points@[i as int],
                        points@[nxt(i as int, n as int)],
                        points@[b],
                        points@[nxt(b, n as int)],
                    ),
            decreases n - j,
        {
            let adjacent = j == i + 1 || (i == 0 && j == n - 1);
            if !adjacent {
                let i2 = if i + 1 == n {
                    0
                } else {
                    i + 1
                };
                let j2 = if j + 1 == n {
                    0
                } else {
                    j + 1
                };
                proof {
                    assert(!points@[i as int].same_point(points@[nxt(i as int, n as int)]));
                    assert(!points@[j as int].same_point(points@[nxt(j as int, n as int)]));
                }
                let e1 = Edge::new_unchecked(points[i], points[i2]);
                let e2 = Edge::new_unchecked(points[j], points[j2]);
                if e1.collides_with(&e2) {
                    proof {
                        reveal(crate::polygon::valid_poly_points);
                    }
                    return false;
                }
            }
            j = j + 1;
        }
        proof {
            assert forall|a: int, b: int|
                0 <= a < b < n && a < i + 1 && !edges_adjacent(a, b, n as int)
                    implies !segs_intersect_pts(
                points@[a],
                points@[nxt(a, n as int)],
                points@[b],
                points@[nxt(b, n as int)],
            ) by {
                if a < i {
                    assert(!segs_intersect_pts(
                        points@[a],
                        points@[nxt(a, n as int)],
                        points@[b],
                        points@[nxt(b, n as int)],
                    ));
                } else {
                    assert(!segs_intersect_pts(
                        points@[a],
                        points@[nxt(a, n as int)],
                        points@[b],
                        points@[nxt(b, n as int)],
                    ));
                }
            }
        }
        i = i + 1;
    }
    proof {
        reveal(crate::polygon::valid_poly_points);
    }
    true
}

/// Bounding box of a non-empty vertex list.
fn compute_bbox(points: &Vec<Point>) -> (r: AARectangle)
    requires
        points@.len() >= 1,
        forall|k: int| 0 <= k < points@.len() ==> (#[trigger] points@[k]).wf(),
    ensures
        is_poly_bbox(r, points@),
{
    let p0 = &points[0];
    proof {
        use_type_invariant(p0);
    }
    let mut x_min = p0.x();
    let mut x_max = p0.x();
    let mut y_min = p0.y();
    let mut y_max = p0.y();
    proof {
        use_type_invariant(x_min);
        use_type_invariant(x_max);
        use_type_invariant(y_min);
        use_type_invariant(y_max);
    }
    let n = points.len();
    let mut i: usize = 1;
    while i < n
        invariant
            n == points@.len(),
            forall|k: int| 0 <= k < points@.len() ==> (#[trigger] points@[k]).wf(),
            1 <= i <= n,
            x_min.den() > 0,
            x_max.den() > 0,
            y_min.den() > 0,
            y_max.den() > 0,
            forall|k: int|
                0 <= k < i ==> {
                    let p = #[trigger] points@[k];
                    &&& x_min.num() * p.d() <= p.xn() * x_min.den()
                    &&& p.xn() * x_max.den() <= x_max.num() * p.d()
                    &&& y_min.num() * p.d() <= p.yn() * y_min.den()
                    &&& p.yn() * y_max.den() <= y_max.num() * p.d()
                },
            exists|k: int|
                0 <= k < i && (#[trigger] points@[k]).xn() == x_min.num() && points@[k].d()
                    == x_min.den(),
            exists|k: int|
                0 <= k < i && (#[trigger] points@[k]).xn() == x_max.num() && points@[k].d()
                    == x_max.den(),
            exists|k: int|
                0 <= k < i && (#[trigger] points@[k]).yn() == y_min.num() && points@[k].d()
                    == y_min.den(),
            exists|k: int|
                0 <= k < i && (#[trigger] points@[k]).yn() == y_max.num() && points@[k].d()
                    == y_max.den(),
        decreases n - i,
    {
        let p = &points[i];
        let px = p.x();
        let py = p.y();
        let ghost old_x_min = x_min;
        let ghost old_x_max = x_max;
        let ghost old_y_min = y_min;
        let ghost old_y_max = y_max;
        proof {
            use_type_invariant(px);
            use_type_invariant(py);
        }
        if px.lt(&x_min) {
            x_min = px;
        }
        if x_max.lt(&px) {
            x_max = px;
        }
        if py.lt(&y_min) {
            y_min = py;
        }
        if y_max.lt(&py) {
            y_max = py;
        }
        proof {
            use_type_invariant(p);
            use_type_invariant(x_min);
            use_type_invariant(x_max);
            use_type_invariant(y_min);
            use_type_invariant(y_max);
            assert forall|k: int|
                0 <= k < i + 1 implies {
                let pk = #[trigger] points@[k];
                &&& x_min.num() * pk.d() <= pk.xn() * x_min.den()
                &&& pk.xn() * x_max.den() <= x_max.num() * pk.d()
                &&& y_min.num() * pk.d() <= pk.yn() * y_min.den()
                &&& pk.yn() * y_max.den() <= y_max.num() * pk.d()
            } by {
                if k < i {
                    crate::frac::lemma_frac_le_trans(
                        x_min.num(),
                        x_min.den(),
                        old_x_min.num(),
                        old_x_min.den(),
                        points@[k].xn(),
                        points@[k].d(),
                    );
                    crate::frac::lemma_frac_le_trans(
                        points@[k].xn(),
                        points@[k].d(),
                        old_x_max.num(),
                        old_x_max.den(),
                        x_max.num(),
                        x_max.den(),
                    );
                    crate::frac::lemma_frac_le_trans(
                        y_min.num(),
                        y_min.den(),
                        old_y_min.num(),
                        old_y_min.den(),
                        points@[k].yn(),
                        points@[k].d(),
                    );
                    crate::frac::lemma_frac_le_trans(
                        points@[k].yn(),
                        points@[k].d(),
                        old_y_max.num(),
                        old_y_max.den(),
                        y_max.num(),
                        y_max.den(),
                    );
                }
            }
        }
        i = i + 1;
    }
    proof {
        reveal(crate::polygon::is_poly_bbox);
        use_type_invariant(x_min);
        use_type_invariant(x_max);
        use_type_invariant(y_min);
        use_type_invariant(y_max);
        crate::frac::lemma_frac_le_trans(
            x_min.num(),
            x_min.den(),
            points@[0].xn(),
            points@[0].d(),
            x_max.num(),
            x_max.den(),
        );
        crate::frac::lemma_frac_le_trans(
            y_min.num(),
            y_min.den(),
            points@[0].yn(),
            points@[0].d(),
            y_max.num(),
            y_max.den(),
        );
    }
    match AARectangle::new(x_min, y_min, x_max, y_max) {
        Ok(b) => b,
        Err(_) => {
            proof {
                assert(false);
            }
            vstd::pervasive::unreached()
        },
    }
}

/// Exact polygon area: half the absolute shoelace sum. `None` when the sum
/// leaves the representable range.
fn compute_area(points: &Vec<Point>) -> (r: Option<Frac>)
    requires
        points@.len() >= 1,
        forall|k: int| 0 <= k < points@.len() ==> (#[trigger] points@[k]).wf(),
    ensures
        r is Some <==> area_representable(points@),
        match r {
            Some(f) => is_poly_area(f, points@) && f.num() >= 0,
            None => true,
        },
{
    let n = points.len();
    let mut acc = Frac::zero();
    let mut k: usize = 0;
    while k < n
        invariant
            n == points@.len(),
            k <= n,
            forall|i: int| 0 <= i < points@.len() ==> (#[trigger] points@[i]).wf(),
            acc.num() * shoelace_sum(points@, k as int).1 == shoelace_sum(points@, k as int).0
                * acc.den(),
            area_acc(points@, k as int) == Some((acc.num(), acc.den())),
        decreases n - k,
    {
        let p = &points[k];
        let j = if k + 1 == n {
            0
        } else {
            k + 1
        };
        let q = &points[j];
        proof {
            use_type_invariant(p);
            use_type_invariant(q);
            use_type_invariant(acc);
            crate::frac::lemma_abs_mul_le(p.xn(), q.yn(), 256, 256);
            crate::frac::lemma_abs_mul_le(q.xn(), p.yn(), 256, 256);
            crate::frac::lemma_abs_mul_le(p.d(), q.d(), 256, 256);
            assert(p.d() * q.d() > 0) by (nonlinear_arith)
                requires
                    p.d() > 0,
                    q.d() > 0,
            ;
        }
        let tn = p.x_numerator_raw() * q.y_numerator_raw() - q.x_numerator_raw()
            * p.y_numerator_raw();
        let td = p.denominator_raw() * q.denominator_raw();
        let term = Frac::from_parts(tn, td);
        let next = match acc.checked_add(&term) {
            Some(f) => f,
            None => {
                proof {
                    assert(area_acc(points@, k + 1 as int) is None);
                    lemma_area_acc_none(points@, k + 1 as int, points@.len() as int);
                }
                return None;
            },
        };
        proof {
            use_type_invariant(next);
            lemma_shoelace_den_pos(points@, k as int);
            lemma_value_add(
                acc.num(),
                acc.den(),
                shoelace_sum(points@, k as int).0,
                shoelace_sum(points@, k as int).1,
                tn as int,
                td as int,
                next.num(),
                next.den(),
            );
        }
        acc = next;
        k = k + 1;
    }
    let two = Frac::from_int(2);
    let half = match acc.checked_div(&two) {
        Some(f) => f,
        None => {
            return None;
        },
    };
    proof {
        assert(area_representable(points@));
    }
    let area = if half.is_nonneg() {
        half
    } else {
        half.neg()
    };
    proof {
        reveal(crate::polygon::is_poly_area);
        use_type_invariant(acc);
        use_type_invariant(half);
        lemma_shoelace_den_pos(points@, n as int);
        let s = shoelace_sum(points@, n as int);
        assert(area.num() * (2 * s.1) == crate::frac::iabs(s.0) * area.den()) by (nonlinear_arith)
            requires
                acc.num() * s.1 == s.0 * acc.den(),
                half.num() * (acc.den() * 2) == (acc.num() * 1) * half.den(),
                (half.num() >= 0 ==> area.num() == half.num() && area.den() == half.den()),
                (half.num() < 0 ==> area.num() == -half.num() && area.den() == half.den()),
                crate::frac::iabs(s.0) == if s.0 < 0 {
                    -s.0
                } else {
                    s.0
                },
                s.1 > 0,
                acc.den() > 0,
                half.den() > 0,
        ;
    }
    Some(area)
}


/// An element-wise copy of a vertex list.
fn copy_points(points: &Vec<Point>) -> (r: Vec<Point>)
    ensures
        r@ == points@,
{
    let n = points.len();
    let mut r: Vec<Point> = Vec::new();
    let mut i: usize = 0;
    while i < n
        invariant
            n == points@.len(),
            i <= n,
            r@ == points@.subrange(0, i as int),
        decreases n - i,
    {
        r.push(points[i]);
        proof {
            assert(r@ =~= points@.subrange(0, i + 1 as int));
        }
        i = i + 1;
    }
    proof {
        assert(r@ =~= points@);
    }
    r
}


/// Whether the horizontal ray from `p` towards positive x crosses the open
/// edge from `a` to `b`, with the standard half-open rule on the vertical
/// extent, on cleared denominators.
#[verifier::opaque]
pub open spec fn ray_crosses(p: Point, a: Point, b: Point) -> bool {
    let ay_above = a.yn() * p.d() > p.yn() * a.d();
    let by_above = b.yn() * p.d() > p.yn() * b.d();
    let axh = a.xn() * (b.d() * p.d());
    let ayh = a.yn() * (b.d() * p.d());
    let bxh = b.xn() * (a.d() * p.d());
    let byh = b.yn() * (a.d() * p.d());
    let pxh = p.xn() * (a.d() * b.d());
    let pyh = p.yn() * (a.d() * b.d());
    let cr = (bxh - axh) * (pyh - ayh) - (pxh - axh) * (byh - ayh);
    &&& ay_above != by_above
    &&& cr * (byh - ayh) > 0
}

/// The number of cycle edges among the first `k` whose ray test crosses.
pub open spec fn crossings(pts: Seq<Point>, p: Point, k: int) -> int
    decreases k,
{
    if k <= 0 {
        0
    } else {
        crossings(pts, p, k - 1) + if ray_crosses(p, pts[k - 1], pts[nxt(k - 1, pts.len() as int)]) {
            1int
        } else {
            0int
        }
    }
}

/// Whether the point lies in the interior of the polygon, by crossing
/// parity. Points on the boundary may fall on either side of the test.
pub open spec fn point_in_polygon(pts: Seq<Point>, p: Point) -> bool {
    crossings(pts, p, pts.len() as int) % 2 == 1
}

/// Exact ray-crossing test for one edge.
fn crossing_exec(p: &Point, a: &Point, b: &Point) -> (r: bool)
    ensures
        r == ray_crosses(*p, *a, *b),
{
    proof {
        reveal(crate::polygon::ray_crosses);
        use_type_invariant(p);
        use_type_invariant(a);
        use_type_invariant(b);
        let l = 256;
        crate::frac::lemma_abs_mul_le(a.yn(), p.d(), l, l);
        crate::frac::lemma_abs_mul_le(p.yn(), a.d(), l, l);
        crate::frac::lemma_abs_mul_le(b.yn(), p.d(), l, l);
        crate::frac::lemma_abs_mul_le(p.yn(), b.d(), l, l);
        crate::frac::lemma_abs_mul_le(b.d(), p.d(), l, l);
        crate::frac::lemma_abs_mul_le(a.d(), p.d(), l, l);
        crate::frac::lemma_abs_mul_le(a.d(), b.d(), l, l);
        crate::frac::lemma_abs_mul_le(a.xn(), b.d() * p.d(), l, 65536);
        crate::frac::lemma_abs_mul_le(a.yn(), b.d() * p.d(), l, 65536);
        crate::frac::lemma_abs_mul_le(b.xn(), a.d() * p.d(), l, 65536);
        crate::frac::lemma_abs_mul_le(b.yn(), a.d() * p.d(), l, 65536);
        crate::frac::lemma_abs_mul_le(p.xn(), a.d() * b.d(), l, 65536);
        crate::frac::lemma_abs_mul_le(p.yn(), a.d() * b.d(), l, 65536);
    }
    let ay_above = a.y_numerator_raw() * p.denominator_raw() > p.y_numerator_raw()
        * a.denominator_raw();
    let by_above = b.y_numerator_raw() * p.denominator_raw() > p.y_numerator_raw()
        * b.denominator_raw();
    if ay_above == by_above {
        return false;
    }
    let axh = a.x_numerator_raw() * (b.denominator_raw() * p.denominator_raw());
    let ayh = a.y_numerator_raw() * (b.denominator_raw() * p.denominator_raw());
    let bxh = b.x_numerator_raw() * (a.denominator_raw() * p.denominator_raw());
    let byh = b.y_numerator_raw() * (a.denominator_raw() * p.denominator_raw());
    let pxh = p.x_numerator_raw() * (a.denominator_raw() * b.denominator_raw());
    let pyh = p.y_numerator_raw() * (a.denominator_raw() * b.denominator_raw());
    proof {
        crate::frac::lemma_abs_mul_le((bxh - axh) as int, (pyh - ayh) as int, 0x2000000, 0x2000000);
        crate::frac::lemma_abs_mul_le((pxh - axh) as int, (byh - ayh) as int, 0x2000000, 0x2000000);
        crate::frac::lemma_abs_mul_le(
            ((bxh - axh) * (pyh - ayh) - (pxh - axh) * (byh - ayh)) as int,
            (byh - ayh) as int,
            0x8000000000000,
            0x2000000,
        );
    }
    let cr = (bxh - axh) * (pyh - ayh) - (pxh - axh) * (byh - ayh);
    cr * (byh - ayh) > 0
}

impl SimplePolygon {
    /// Whether the point lies in the interior of the polygon, by exact
    /// crossing parity; boundary points may report either side.
    pub fn contains_point(&self, p: &Point) -> (r: bool)
        ensures
            r == point_in_polygon(self.points(), *p),
    {
        proof {
            use_type_invariant(self);
            reveal(crate::polygon::valid_poly_points);
        }
        let n = self.points.len();
        let mut odd = false;
        let mut k: usize = 0;
        while k < n
            invariant
                n == self.points@.len(),
                k <= n,
                odd == (crossings(self.points@, *p, k as int) % 2 == 1),
            decreases n - k,
        {
            let j = if k + 1 == n {
                0
            } else {
                k + 1
            };
            if crossing_exec(p, &self.points[k], &self.points[j]) {
                odd = !odd;
            }
            k = k + 1;
        }
        proof {
            assert(self.points@ == self.points());
        }
        odd
    }

    /// The image of the polygon under a pose, vertex by vertex; the receiver
    /// is untouched. Fails exactly when an exact image coordinate, the image
    /// cycle's validity or its exact area leaves what the precision budget
    /// can represent.
    pub fn transform_clone(&self, dt: &DTransformation) -> (r: Result<SimplePolygon, GeomError>)
        ensures
            r is Ok <==> pose_applies(
                dt.rotation(),
                dt.translation().0,
                dt.translation().1,
                self.points(),
            ),
            match r {
                Ok(q) => {
                    &&& q.points() == image_seq(
                        dt.rotation(),
                        dt.translation().0,
                        dt.translation().1,
                        self.points(),
                    )
                    &&& q.points().len() == self.points().len()
                    &&& forall|i: int|
                        0 <= i < self.points().len() ==> crate::dtransform::maps_point(
                            dt.rotation(),
                            dt.translation().0,
                            dt.translation().1,
                            self.points()[i],
                            #[trigger] q.points()[i],
                        )
                    &&& valid_poly_points(q.points())
                },
                Err(e) => e == GeomError::InvalidPolygon || e == GeomError::OutOfRange,
            },
    {
        let ghost rot = dt.rotation();
        let ghost gtx = dt.translation().0;
        let ghost gty = dt.translation().1;
        let n = self.points.len();
        let mut pts: Vec<Point> = Vec::new();
        let mut i: usize = 0;
        while i < n
            invariant
                n == self.points@.len(),
                rot == dt.rotation(),
                gtx == dt.translation().0,
                gty == dt.translation().1,
                i <= n,
                pts@.len() == i,
                pts@ == image_seq(rot, gtx, gty, self.points@).subrange(0, i as int),
                forall|k: int|
                    0 <= k < i ==> crate::dtransform::image_fits(
                        rot,
                        gtx,
                        gty,
                        #[trigger] self.points@[k],
                    ),
                forall|k: int|
                    0 <= k < i ==> crate::dtransform::maps_point(
                        rot,
                        gtx,
                        gty,
                        self.points@[k],
                        #[trigger] pts@[k],
                    ),
            decreases n - i,
        {
            let q = match dt.transform_point(&self.points[i]) {
                Ok(q) => q,
                Err(e) => {
                    proof {
                        assert(!crate::dtransform::image_fits(
                            rot,
                            gtx,
                            gty,
                            self.points@[i as int],
                        ));
                    }
                    return Err(e);
                },
            };
            pts.push(q);
            proof {
                assert(pts@ =~= image_seq(rot, gtx, gty, self.points@).subrange(0, i + 1 as int));
            }
            i = i + 1;
        }
        proof {
            assert(pts@ =~= image_seq(rot, gtx, gty, self.points@));
        }
        match SimplePolygon::new(pts) {
            Ok(poly) => {
                proof {
                    assert forall|k: int|
                        0 <= k < self.points().len() implies crate::dtransform::maps_point(
                        rot,
                        gtx,
                        gty,
                        self.points()[k],
                        #[trigger] poly.points()[k],
                    ) by {
                        assert(poly.points()[k] == image_seq(rot, gtx, gty, self.points@)[k]);
                    }
                }
                Ok(poly)
            },
            Err(e) => Err(e),
        }
    }
}

impl SimplePolygon {
    /// Whether some edge of `self` intersects some edge of `other`, exactly.
    pub fn edges_intersect(&self, other: &SimplePolygon) -> (r: bool)
        ensures
            r == poly_edges_intersect(self.points(), other.points()),
    {
        proof {
            use_type_invariant(self);
            use_type_invariant(other);
            reveal(crate::polygon::valid_poly_points);
        }
        let n = self.number_of_points();
        let m = other.number_of_points();
        let mut i: usize = 0;
        while i < n
            invariant
                n == self.points().len(),
                m == other.points().len(),
                n >= 3,
                m >= 3,
                i <= n,
                forall|a: int, b: int|
                    0 <= a < i && 0 <= b < m ==> !#[trigger] segs_intersect_pts(
                        self.points()[a],
                        self.points()[nxt(a, n as int)],
                        other.points()[b],
                        other.points()[nxt(b, m as int)],
                    ),
            decreases n - i,
        {
            let e1 = self.edge_at(i);
            let mut j: usize = 0;
            while j < m
                invariant
                    n == self.points().len(),
                    m == other.points().len(),
                    n >= 3,
                    m >= 3,
                    i < n,
                    j <= m,
                    e1.spec_start() == self.points()[i as int],
                    e1.spec_end() == self.points()[nxt(i as int, n as int)],
                    forall|b: int|
                        0 <= b < j ==> !#[trigger] segs_intersect_pts(
                            self.points()[i as int],
                            self.points()[nxt(i as int, n as int)],
                            other.points()[b],
                            other.points()[nxt(b, m as int)],
                        ),
                decreases m - j,
            {
                let e2 = other.edge_at(j);
                if e1.collides_with(&e2) {
                    return true;
                }
                j = j + 1;
            }
            i = i + 1;
        }
        false
    }

    /// Whether the circle meets some edge of the polygon, exactly.
    pub fn circle_hits_edges(&self, c: &Circle) -> (r: bool)
        ensures
            r == circle_hits_edges_spec(*c, self.points()),
    {
        proof {
            use_type_invariant(self);
            reveal(crate::polygon::valid_poly_points);
        }
        let n = self.number_of_points();
        let mut i: usize = 0;
        while i < n
            invariant
                n == self.points().len(),
                n >= 3,
                i <= n,
                forall|a: int|
                    0 <= a < i ==> !#[trigger] crate::circle::circle_edge_collide_pts(
                        *c,
                        self.points()[a],
                        self.points()[nxt(a, n as int)],
                    ),
            decreases n - i,
        {
            let e = self.edge_at(i);
            if c.collides_with(&e) {
                proof {
                    assert(crate::circle::circle_edge_collide_pts(
                        *c,
                        self.points()[i as int],
                        self.points()[nxt(i as int, n as int)],
                    ));
                }
                return true;
            }
            i = i + 1;
        }
        false
    }
}

impl crate::geo_traits::CollidesWith<SimplePolygon> for SimplePolygon {
    open spec fn collides_spec(&self, other: &SimplePolygon) -> bool {
        polys_collide(self.points(), other.points())
    }

    /// Exact polygon overlap test: some pair of edges intersects, or one
    /// polygon's first vertex lies inside the other.
    fn collides_with(&self, other: &SimplePolygon) -> (r: bool) {
        proof {
            use_type_invariant(self);
            use_type_invariant(other);
            reveal(crate::polygon::valid_poly_points);
        }
        if self.edges_intersect(other) {
            return true;
        }
        let p0 = self.point_at(0);
        if other.contains_point(&p0) {
            return true;
        }
        let q0 = other.point_at(0);
        if self.contains_point(&q0) {
            return true;
        }
        false
    }
}

impl crate::geo_traits::CollidesWith<Circle> for SimplePolygon {
    open spec fn collides_spec(&self, other: &Circle) -> bool {
        circle_poly_collide(*other, self.points())
    }

    /// Exact circle-polygon overlap test: the circle meets some edge, or its
    /// center lies inside the polygon.
    fn collides_with(&self, other: &Circle) -> (r: bool) {
        if self.circle_hits_edges(other) {
            return true;
        }
        let c = other.center();
        self.contains_point(&c)
    }
}

/// Whether some edge of `a` intersects some edge of `b`.
pub open spec fn poly_edges_intersect(a: Seq<Point>, b: Seq<Point>) -> bool {
    exists|i: int, j: int|
        0 <= i < a.len() && 0 <= j < b.len() && segs_intersect_pts(
            a[i],
            a[nxt(i, a.len() as int)],
            b[j],
            b[nxt(j, b.len() as int)],
        )
}

/// Exact polygon overlap: some pair of edges intersects, or one polygon's
/// first vertex lies inside the other.
pub open spec fn polys_collide(a: Seq<Point>, b: Seq<Point>) -> bool {
    ||| poly_edges_intersect(a, b)
    ||| point_in_polygon(b, a[0])
    ||| point_in_polygon(a, b[0])
}

/// Exact overlap with the exterior of a region: some edge crosses the
/// region's boundary, or the first vertex lies outside the region.
pub open spec fn exterior_collide(a: Seq<Point>, region: Seq<Point>) -> bool {
    ||| poly_edges_intersect(a, region)
    ||| !point_in_polygon(region, a[0])
}

/// Whether the circle meets some edge of the cycle.
pub open spec fn circle_hits_edges_spec(c: Circle, pts: Seq<Point>) -> bool {
    exists|i: int|
        0 <= i < pts.len() && crate::circle::circle_edge_collide_pts(
            c,
            pts[i],
            pts[nxt(i, pts.len() as int)],
        )
}

/// Exact overlap of a circle with the exterior of a region: the circle meets
/// the boundary, or its center lies outside the region.
pub open spec fn circle_exterior_collide(c: Circle, region: Seq<Point>) -> bool {
    ||| circle_hits_edges_spec(c, region)
    ||| !point_in_polygon(region, c.spec_center())
}

/// Exact circle-polygon overlap: the circle meets some edge of the cycle, or
/// its center lies inside the polygon.
pub open spec fn circle_poly_collide(c: Circle, pts: Seq<Point>) -> bool {
    ||| circle_hits_edges_spec(c, pts)
    ||| point_in_polygon(pts, c.spec_center())
}

} // verus!
