//! Fail-fast surrogates: a few circles standing in for a polygon.
//!
//! The first pole is a circle that covers every vertex of the polygon — and
//! with them, by convexity, the whole polygon. Any further poles are
//! zero-radius circles on the silhouette, which sharpen the filter without
//! ever weakening it: a surrogate reports a collision as soon as any of its
//! poles does, so extra poles only add true reports.

use vstd::prelude::*;

verus! {

use crate::frac::{Frac, lemma_frac_le_trans, norm_fits, norm_num, norm_den, sqrt_floor_pair};
use crate::dtransform::norm_small;
use crate::point::{Point, sq_dist_num, sq_dist_den};
use crate::rect::AARectangle;
use crate::circle::{Circle, circle_contains_point};
use crate::GeomError;

/// Configuration of surrogate generation: the target coverage fraction of the
/// polygon's area, the cap on pole count, and how many fail-fast poles and
/// piers the collision filter uses.
#[derive(Clone, Copy, Debug, PartialEq, Eq, Structural)]
pub struct SPSurrogateConfig {
    /// Fraction of the polygon's area the poles should cover.
    pub pole_coverage_goal: Frac,
    /// Upper bound on the number of poles beyond the covering pole.
    pub max_poles: usize,
    /// Number of poles used by the fail-fast filter.
    pub n_ff_poles: usize,
    /// Number of piers used by the fail-fast filter.
    pub n_ff_piers: usize,
}

/// A surrogate: the covering pole first, then the silhouette poles.
#[derive(Debug)]
pub struct SPSurrogate {
    poles: Vec<Circle>,
    config: SPSurrogateConfig,
}

/// The exact representation of the running maximum of the squared distances
/// from `c` to the first `k` vertices, as the generation loop computes it:
/// each squared distance is an exact pair, and a strictly larger value
/// replaces the running maximum.
pub open spec fn max_sq_dist(c: Point, pts: Seq<Point>, k: int) -> (int, int)
    decreases k,
{
    if k <= 1 {
        (sq_dist_num(c, pts[0]), sq_dist_den(c, pts[0]))
    } else {
        let prev = max_sq_dist(c, pts, k - 1);
        let cur = (sq_dist_num(c, pts[k - 1]), sq_dist_den(c, pts[k - 1]));
        if prev.0 * cur.1 < cur.0 * prev.1 {
            cur
        } else {
            prev
        }
    }
}

/// Whether the covering radius — the rational square-root upper bound of the
/// largest center-to-vertex squared distance — is representable within the
/// coordinate precision budget.
pub open spec fn cover_radius_ok(c: Point, pts: Seq<Point>) -> bool {
    let m = max_sq_dist(c, pts, pts.len() as int);
    norm_small(sqrt_floor_pair(m.0, m.1) + 1, m.1)
}

/// Whether surrogate generation succeeds on a vertex cycle with the given
/// bounding box: the box's center and the covering radius around it are both
/// representable.
pub open spec fn surrogate_representable(pts: Seq<Point>, b: AARectangle) -> bool {
    &&& crate::rect::centroid_fits(b)
    &&& cover_radius_ok(crate::rect::centroid_point(b), pts)
}

/// The first pole covers every vertex of the cycle.
pub open spec fn surrogate_covers(poles: Seq<Circle>, pts: Seq<Point>) -> bool {
    &&& poles.len() >= 1
    &&& forall|i: int| 0 <= i < pts.len() ==> circle_contains_point(poles[0], #[trigger] pts[i])
}

impl SPSurrogate {
    /// The poles, covering pole first.
    pub closed spec fn poles(self) -> Seq<Circle> {
        self.poles@
    }

    /// The configuration the surrogate was generated with.
    pub closed spec fn spec_config(self) -> SPSurrogateConfig {
        self.config
    }

    /// The poles, covering pole first.
    pub fn get_poles(&self) -> (r: &Vec<Circle>)
        ensures
            r@ == self.poles(),
    {
        &self.poles
    }

    /// The configuration the surrogate was generated with.
    pub fn get_config(&self) -> (r: SPSurrogateConfig)
        ensures
            r == self.spec_config(),
    {
        self.config
    }

    /// An exact copy of the surrogate.
    pub fn deep_copy(&self) -> (r: SPSurrogate)
        ensures
            r.poles() == self.poles(),
            r.spec_config() == self.spec_config(),
    {
        let n = self.poles.len();
        let mut poles: Vec<Circle> = Vec::new();
        let mut i: usize = 0;
        while i < n
            invariant
                n == self.poles@.len(),
                i <= n,
                poles@ == self.poles@.subrange(0, i as int),
            decreases n - i,
        {
            poles.push(self.poles[i]);
            proof {
                assert(poles@ =~= self.poles@.subrange(0, i + 1 as int));
            }
            i = i + 1;
        }
        proof {
            assert(poles@ =~= self.poles@);
        }
        SPSurrogate { poles, config: self.config }
    }

    /// Generates the surrogate of a vertex cycle with the given bounding box:
    /// a circle around the box's center whose radius is a rational upper
    /// bound on the largest center-to-vertex distance, then up to
    /// `config.n_ff_poles` zero-radius poles on the first vertices. Fails
    /// only when the covering circle leaves the precision budget.
    pub fn generate(points: &Vec<Point>, bbox: &AARectangle, config: SPSurrogateConfig) -> (r:
        Result<SPSurrogate, GeomError>)
        requires
            points@.len() >= 1,
            forall|k: int| 0 <= k < points@.len() ==> (#[trigger] points@[k]).wf(),
        ensures
            r is Ok <==> surrogate_representable(points@, *bbox),
            match r {
                Ok(s) => surrogate_covers(s.poles(), points@) && s.spec_config() == config,
                Err(e) => e == GeomError::OutOfRange,
            },
    {
        let center = match bbox.centroid() {
            Ok(c) => c,
            Err(e) => {
                return Err(e);
            },
        };
        let n = points.len();
        let mut r2 = center.sq_distance(&points[0]);
        proof {
            use_type_invariant(center);
            lemma_sq_dist_nonneg(center, points@[0]);
            assert(sq_dist_den(center, points@[0]) > 0) by (nonlinear_arith)
                requires
                    center.d() > 0,
                    points@[0].d() > 0,
                    sq_dist_den(center, points@[0]) == (center.d() * points@[0].d()) * (center.d()
                        * points@[0].d()),
            ;
        }
        let mut i: usize = 1;
        while i < n
        invariant
            n == points@.len(),
            forall|k: int| 0 <= k < points@.len() ==> (#[trigger] points@[k]).wf(),
            1 <= i <= n,
            r2.num() >= 0,
            r2.den() > 0,
            (r2.num(), r2.den()) == max_sq_dist(center, points@, i as int),
            forall|k: int|
                0 <= k < i ==> sq_dist_num(center, #[trigger] points@[k]) * r2.den() <= r2.num()
                    * sq_dist_den(center, points@[k]),
        decreases n - i,
        {
            let d = center.sq_distance(&points[i]);
            proof {
                use_type_invariant(center);
                lemma_sq_dist_nonneg(center, points@[i as int]);
                use_type_invariant(d);
                assert(sq_dist_den(center, points@[i as int]) > 0) by (nonlinear_arith)
                    requires
                        center.d() > 0,
                        points@[i as int].d() > 0,
                        sq_dist_den(center, points@[i as int]) == (center.d() * points@[
                            i as int].d()) * (center.d() * points@[i as int].d()),
                ;
            }
            let ghost old_r2 = r2;
            if r2.lt(&d) {
                r2 = d;
            }
            proof {
                use_type_invariant(r2);
                assert forall|k: int|
                    0 <= k < i + 1 implies sq_dist_num(center, #[trigger] points@[k]) * r2.den()
                    <= r2.num() * sq_dist_den(center, points@[k]) by {
                    assert(sq_dist_den(center, points@[k]) > 0) by (nonlinear_arith)
                        requires
                            center.d() > 0,
                            points@[k].d() > 0,
                            sq_dist_den(center, points@[k]) == (center.d() * points@[k].d()) * (
                            center.d() * points@[k].d()),
                    ;
                    if k < i {
                        if old_r2 != r2 {
                            lemma_frac_le_trans(
                                sq_dist_num(center, points@[k]),
                                sq_dist_den(center, points@[k]),
                                old_r2.num(),
                                old_r2.den(),
                                r2.num(),
                                r2.den(),
                            );
                        }
                    }
                }
            }
            i = i + 1;
        }
        let radius = match r2.sqrt_ub() {
            Some(u) => u,
            None => {
                return Err(GeomError::OutOfRange);
            },
        };
        let pole0 = match Circle::new(center, radius) {
            Ok(c) => c,
            Err(_) => {
                return Err(GeomError::OutOfRange);
            },
        };
        proof {
            use_type_invariant(radius);
            use_type_invariant(center);
            assert(radius.den() * radius.den() > 0) by (nonlinear_arith)
                requires
                    radius.den() > 0,
            ;
            assert forall|k: int|
                0 <= k < points@.len() implies circle_contains_point(pole0, #[trigger] points@[k]) by {
                assert(sq_dist_den(center, points@[k]) > 0) by (nonlinear_arith)
                    requires
                        center.d() > 0,
                        points@[k].d() > 0,
                        sq_dist_den(center, points@[k]) == (center.d() * points@[k].d()) * (
                        center.d() * points@[k].d()),
                ;
                lemma_frac_le_trans(
                    sq_dist_num(center, points@[k]),
                    sq_dist_den(center, points@[k]),
                    r2.num(),
                    r2.den(),
                    radius.num() * radius.num(),
                    radius.den() * radius.den(),
                );
            }
        }
        let mut poles: Vec<Circle> = Vec::new();
        poles.push(pole0);
        let mut k: usize = 0;
        let ff = if config.n_ff_poles < n {
            config.n_ff_poles
        } else {
            n
        };
        while k < ff
            invariant
                ff <= n,
                n == points@.len(),
                k <= ff,
                poles@.len() == k + 1,
                poles@[0] == pole0,
            decreases ff - k,
        {
            let z = Frac::zero();
            let p = match Circle::new(points[k], z) {
                Ok(c) => c,
                Err(_) => {
                    proof {
                        assert(false);
                    }
                    vstd::pervasive::unreached()
                },
            };
            poles.push(p);
            k = k + 1;
        }
        Ok(SPSurrogate { poles, config })
    }
}

/// A squared distance numerator is a sum of squares, hence non-negative; the
/// denominator is a square of a positive number, hence positive.
pub proof fn lemma_sq_dist_nonneg(p: Point, q: Point)
    requires
        p.d() > 0,
        q.d() > 0,
    ensures
        sq_dist_num(p, q) >= 0,
        sq_dist_den(p, q) > 0,
{
    assert(sq_dist_num(p, q) >= 0) by (nonlinear_arith)
        requires
            sq_dist_num(p, q) == (p.xn() * q.d() - q.xn() * p.d()) * (p.xn() * q.d() - q.xn()
                * p.d()) + (p.yn() * q.d() - q.yn() * p.d()) * (p.yn() * q.d() - q.yn() * p.d()),
    ;
    assert(sq_dist_den(p, q) > 0) by (nonlinear_arith)
        requires
            p.d() > 0,
            q.d() > 0,
            sq_dist_den(p, q) == (p.d() * q.d()) * (p.d() * q.d()),
    ;
}

} // verus!
