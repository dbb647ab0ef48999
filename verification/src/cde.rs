//! The collision detection engine: the hazard store and its exact queries.
//!
//! The engine keeps the static hazards of the bin apart from the dynamic
//! hazards of placed items, answers exact polygon and surrogate collision
//! queries against both, and supports cheap snapshot and restore of the
//! dynamic state. The engine scans the hazard store exactly; it keeps no
//! spatial index and no proximity grid, only the pending-changes marker of
//! their mark-dirty/flush-on-demand protocol, so that edits can record
//! whether a commit is still outstanding.

use vstd::prelude::*;

verus! {

use crate::point::Point;
use crate::rect::AARectangle;
use crate::circle::Circle;
use crate::polygon::{
    SimplePolygon, polys_collide, circle_poly_collide, exterior_collide, circle_exterior_collide,
};
use crate::surrogate::{SPSurrogate, SPSurrogateConfig};
use crate::hazard::{Hazard, HazardEntity};
use crate::dtransform::DTransformation;
use crate::geo_traits::CollidesWith;
use crate::GeomError;

/// Fixed configuration of an engine: spatial index depth, proximity cell
/// count and the surrogate generation parameters.
#[derive(Clone, Copy, Debug, PartialEq, Eq, Structural)]
pub struct CDEConfig {
    /// Maximum depth of the spatial index.
    pub quadtree_depth: usize,
    /// Number of cells of the proximity grid.
    pub hpg_n_cells: usize,
    /// Surrogate generation parameters for items.
    pub item_surrogate_config: SPSurrogateConfig,
}

/// The view of one hazard: its entity and its footprint's vertex cycle.
pub open spec fn haz_view(h: Hazard) -> (HazardEntity, Seq<Point>) {
    (h.entity(), h.shape_points())
}

/// The views of a hazard list, in order.
pub open spec fn hazs_view(hs: Seq<Hazard>) -> Seq<(HazardEntity, Seq<Point>)> {
    hs.map_values(|h: Hazard| haz_view(h))
}

/// How a hazard's footprint is overlapped by a vertex cycle: the bin
/// exterior collides with whatever crosses or leaves its region, any other
/// hazard with whatever overlaps its footprint.
pub open spec fn haz_overlap_poly(h: Hazard, pts: Seq<Point>) -> bool {
    match h.entity() {
        HazardEntity::BinExterior => exterior_collide(pts, h.shape_points()),
        _ => polys_collide(pts, h.shape_points()),
    }
}

/// How a hazard's footprint is overlapped by a circle.
pub open spec fn haz_overlap_circle(h: Hazard, c: Circle) -> bool {
    match h.entity() {
        HazardEntity::BinExterior => circle_exterior_collide(c, h.shape_points()),
        _ => circle_poly_collide(c, h.shape_points()),
    }
}

/// Whether some hazard of the list is not ignored and its footprint overlaps
/// the given vertex cycle.
pub open spec fn haz_hit_poly(hs: Seq<Hazard>, pts: Seq<Point>, ign: Seq<HazardEntity>) -> bool {
    exists|i: int|
        0 <= i < hs.len() && !ign.contains((#[trigger] hs[i]).entity()) && haz_overlap_poly(
            hs[i],
            pts,
        )
}

/// Whether some hazard of the list is not ignored and its footprint meets the
/// given circle.
pub open spec fn haz_hit_circle(hs: Seq<Hazard>, c: Circle, ign: Seq<HazardEntity>) -> bool {
    exists|i: int|
        0 <= i < hs.len() && !ign.contains((#[trigger] hs[i]).entity()) && haz_overlap_circle(
            hs[i],
            c,
        )
}

/// The image of a pole under a pose: the mapped center, the same radius.
pub open spec fn tpole(dt: DTransformation, c: Circle) -> Circle {
    crate::circle::circle_at(
        crate::dtransform::image_point(
            dt.rotation(),
            dt.translation().0,
            dt.translation().1,
            c.spec_center(),
        ),
        c.spec_radius(),
    )
}

/// The collision detection engine.
#[derive(Debug)]
pub struct CDEngine {
    bbox: AARectangle,
    static_hazards: Vec<Hazard>,
    dynamic_hazards: Vec<Hazard>,
    config: CDEConfig,
    pending_dirty: bool,
}

/// A snapshot of the dynamic state of an engine.
#[derive(Debug)]
pub struct CDESnapshot {
    dynamic: Vec<Hazard>,
}

impl CDESnapshot {
    /// The captured dynamic hazards.
    pub closed spec fn dynamic(self) -> Seq<Hazard> {
        self.dynamic@
    }
}

impl CDEngine {
    /// The static hazards: the bin boundary and its zones.
    pub closed spec fn statics(self) -> Seq<Hazard> {
        self.static_hazards@
    }

    /// The dynamic hazards, one per placed item, in registration order.
    pub closed spec fn dynamics(self) -> Seq<Hazard> {
        self.dynamic_hazards@
    }

    /// The region the engine covers.
    pub closed spec fn spec_bbox(self) -> AARectangle {
        self.bbox
    }

    /// The fixed configuration.
    pub closed spec fn spec_config(self) -> CDEConfig {
        self.config
    }

    /// Whether uncommitted deregistrations are pending a flush.
    pub closed spec fn dirty(self) -> bool {
        self.pending_dirty
    }

    /// Builds an engine over the given region with the given static hazards.
    pub fn new(bbox: AARectangle, static_hazards: Vec<Hazard>, config: CDEConfig) -> (r: CDEngine)
        ensures
            r.statics() == static_hazards@,
            r.dynamics().len() == 0,
            r.spec_bbox() == bbox,
            r.spec_config() == config,
            !r.dirty(),
    {
        CDEngine {
            bbox,
            static_hazards,
            dynamic_hazards: Vec::new(),
            config,
            pending_dirty: false,
        }
    }

    /// The region the engine covers.
    pub fn get_bbox(&self) -> (r: AARectangle)
        ensures
            r == self.spec_bbox(),
    {
        proof {
            use_type_invariant(&self.bbox);
        }
        self.bbox
    }

    /// The fixed configuration.
    pub fn get_config(&self) -> (r: CDEConfig)
        ensures
            r == self.spec_config(),
    {
        self.config
    }

    /// The static hazards.
    pub fn static_hazards_ref(&self) -> (r: &Vec<Hazard>)
        ensures
            r@ == self.statics(),
    {
        &self.static_hazards
    }

    /// The dynamic hazards.
    pub fn dynamic_hazards_ref(&self) -> (r: &Vec<Hazard>)
        ensures
            r@ == self.dynamics(),
    {
        &self.dynamic_hazards
    }

    /// Whether uncommitted deregistrations are pending a flush.
    pub fn is_dirty(&self) -> (r: bool)
        ensures
            r == self.dirty(),
    {
        self.pending_dirty
    }

    /// Registers a hazard: appends it to the dynamic store and marks the
    /// engine as holding uncommitted changes.
    pub fn register_hazard(&mut self, h: Hazard)
        ensures
            final(self).dynamics() == old(self).dynamics().push(h),
            final(self).statics() == old(self).statics(),
            final(self).spec_bbox() == old(self).spec_bbox(),
            final(self).spec_config() == old(self).spec_config(),
            final(self).dirty(),
    {
        self.dynamic_hazards.push(h);
        self.pending_dirty = true;
    }

    /// Deregisters the first dynamic hazard with the given entity; an entity
    /// that is not registered is a contract violation and is reported as
    /// `NotFound`, with the engine unchanged. With `commit_instant` the edit
    /// is committed at once, otherwise the engine is left marked dirty.
    pub fn deregister_hazard(&mut self, entity: &HazardEntity, commit_instant: bool) -> (r: Result<
        (),
        GeomError,
    >)
        ensures
            final(self).statics() == old(self).statics(),
            final(self).spec_bbox() == old(self).spec_bbox(),
            final(self).spec_config() == old(self).spec_config(),
            match r {
                Ok(()) => {
                    &&& exists|i: int|
                        {
                            &&& 0 <= i < old(self).dynamics().len()
                            &&& (#[trigger] old(self).dynamics()[i]).entity() == entity
                            &&& (forall|k: int|
                                0 <= k < i ==> (#[trigger] old(self).dynamics()[k]).entity()
                                    != entity)
                            &&& final(self).dynamics() == old(self).dynamics().remove(i)
                        }
                    &&& final(self).dirty() == !commit_instant
                },
                Err(e) => {
                    &&& e == GeomError::NotFound
                    &&& forall|i: int|
                        0 <= i < old(self).dynamics().len() ==> (#[trigger] old(
                            self,
                        ).dynamics()[i]).entity() != entity
                    &&& final(self).dynamics() == old(self).dynamics()
                    &&& final(self).dirty() == old(self).dirty()
                },
            },
    {
        let n = self.dynamic_hazards.len();
        let mut i: usize = 0;
        while i < n
            invariant
                n == self.dynamic_hazards@.len(),
                i <= n,
                self.spec_bbox() == old(self).spec_bbox(),
                self.spec_config() == old(self).spec_config(),
                self.statics() == old(self).statics(),
                self.dynamics() == old(self).dynamics(),
                self.dirty() == old(self).dirty(),
                forall|k: int|
                    0 <= k < i ==> (#[trigger] self.dynamic_hazards@[k]).entity() != entity,
            decreases n - i,
        {
            let e = self.dynamic_hazards[i].get_entity();
            if e == *entity {
                self.dynamic_hazards.remove(i);
                if commit_instant {
                    self.pending_dirty = false;
                } else {
                    self.pending_dirty = true;
                }
                return Ok(());
            }
            i = i + 1;
        }
        Err(GeomError::NotFound)
    }

    /// Commits all pending edits: clears the dirty marker.
    pub fn flush_haz_prox_grid(&mut self)
        ensures
            final(self).dynamics() == old(self).dynamics(),
            final(self).statics() == old(self).statics(),
            final(self).spec_bbox() == old(self).spec_bbox(),
            final(self).spec_config() == old(self).spec_config(),
            !final(self).dirty(),
    {
        self.pending_dirty = false;
    }

    /// Captures the dynamic state.
    pub fn create_snapshot(&self) -> (r: CDESnapshot)
        ensures
            hazs_view(r.dynamic()) == hazs_view(self.dynamics()),
    {
        CDESnapshot { dynamic: copy_hazards(&self.dynamic_hazards) }
    }

    /// Reinstates a captured dynamic state.
    pub fn restore(&mut self, snapshot: &CDESnapshot)
        ensures
            hazs_view(final(self).dynamics()) == hazs_view(snapshot.dynamic()),
            final(self).statics() == old(self).statics(),
            final(self).spec_bbox() == old(self).spec_bbox(),
            final(self).spec_config() == old(self).spec_config(),
            final(self).dirty() == old(self).dirty(),
    {
        self.dynamic_hazards = copy_hazards(&snapshot.dynamic);
    }

    /// Exact, authoritative polygon collision query: whether any hazard that
    /// is not ignored overlaps the shape.
    pub fn poly_collides(&self, shape: &SimplePolygon, ignored: &Vec<HazardEntity>) -> (r: bool)
        ensures
            r == (haz_hit_poly(self.statics(), shape.points(), ignored@) || haz_hit_poly(
                self.dynamics(),
                shape.points(),
                ignored@,
            )),
    {
        if scan_poly(&self.static_hazards, shape, ignored) {
            return true;
        }
        scan_poly(&self.dynamic_hazards, shape, ignored)
    }

    /// Conservative fast-path collision query on the fail-fast surrogate,
    /// posed at `dt`. On success there is a sequence of transformed poles,
    /// pole by pole the image of the surrogate's, such that the result holds
    /// exactly of it; `Err` only when a transformed pole leaves the precision
    /// budget.
    pub fn surrogate_collides(
        &self,
        surrogate: &SPSurrogate,
        dt: &DTransformation,
        ignored: &Vec<HazardEntity>,
    ) -> (r: Result<bool, GeomError>)
        ensures
            r is Ok <==> (forall|i: int|
                0 <= i < surrogate.poles().len() ==> crate::dtransform::image_fits(
                    dt.rotation(),
                    dt.translation().0,
                    dt.translation().1,
                    (#[trigger] surrogate.poles()[i]).spec_center(),
                )),
            match r {
                Ok(b) => b == (exists|i: int|
                    0 <= i < surrogate.poles().len() && (haz_hit_circle(
                        self.statics(),
                        #[trigger] tpole(*dt, surrogate.poles()[i]),
                        ignored@,
                    ) || haz_hit_circle(self.dynamics(), tpole(*dt, surrogate.poles()[i]), ignored@))),
                Err(e) => e == GeomError::OutOfRange,
            },
    {
        let poles = surrogate.get_poles();
        let n = poles.len();
        let mut tp: Vec<Circle> = Vec::new();
        let mut i: usize = 0;
        while i < n
            invariant
                n == poles@.len(),
                poles@ == surrogate.poles(),
                i <= n,
                tp@.len() == i,
                forall|k: int|
                    0 <= k < i ==> crate::dtransform::image_fits(
                        dt.rotation(),
                        dt.translation().0,
                        dt.translation().1,
                        (#[trigger] poles@[k]).spec_center(),
                    ),
                forall|k: int| 0 <= k < i ==> #[trigger] tp@[k] == tpole(*dt, poles@[k]),
            decreases n - i,
        {
            let pole = &poles[i];
            proof {
                use_type_invariant(pole);
            }
            let c = pole.center();
            let tc = match dt.transform_point(&c) {
                Ok(q) => q,
                Err(_) => {
                    return Err(GeomError::OutOfRange);
                },
            };
            let circle = match Circle::new(tc, pole.radius()) {
                Ok(ci) => ci,
                Err(_) => {
                    proof {
                        assert(false);
                    }
                    vstd::pervasive::unreached()
                },
            };
            proof {
                crate::circle::lemma_circle_at(tc, pole.spec_radius());
                assert(circle == tpole(*dt, poles@[i as int]));
            }
            tp.push(circle);
            i = i + 1;
        }
        let mut hit = false;
        let mut k: usize = 0;
        while k < n
            invariant
                n == tp@.len(),
                n == surrogate.poles().len(),
                k <= n,
                forall|j: int| 0 <= j < n ==> #[trigger] tp@[j] == tpole(*dt, surrogate.poles()[j]),
                hit == (exists|i: int|
                    0 <= i < k && (haz_hit_circle(
                        self.statics(),
                        #[trigger] tpole(*dt, surrogate.poles()[i]),
                        ignored@,
                    ) || haz_hit_circle(self.dynamics(), tpole(*dt, surrogate.poles()[i]), ignored@))),
            decreases n - k,
        {
            let c = &tp[k];
            proof {
                assert(tp@[k as int] == tpole(*dt, surrogate.poles()[k as int]));
            }
            if scan_circle(&self.static_hazards, c, ignored) || scan_circle(
                &self.dynamic_hazards,
                c,
                ignored,
            ) {
                hit = true;
            }
            k = k + 1;
        }
        Ok(hit)
    }

    /// An exact copy of the engine.
    pub fn deep_copy(&self) -> (r: CDEngine)
        ensures
            hazs_view(r.statics()) == hazs_view(self.statics()),
            hazs_view(r.dynamics()) == hazs_view(self.dynamics()),
            r.dynamics().len() == self.dynamics().len(),
            r.spec_bbox() == self.spec_bbox(),
            r.spec_config() == self.spec_config(),
            r.dirty() == self.dirty(),
    {
        proof {
            use_type_invariant(&self.bbox);
        }
        CDEngine {
            bbox: self.bbox,
            static_hazards: copy_hazards(&self.static_hazards),
            dynamic_hazards: copy_hazards(&self.dynamic_hazards),
            config: self.config,
            pending_dirty: self.pending_dirty,
        }
    }
}

/// Whether the list contains the entity.
pub fn contains_entity(list: &Vec<HazardEntity>, e: &HazardEntity) -> (r: bool)
    ensures
        r == list@.contains(*e),
{
    let n = list.len();
    let mut i: usize = 0;
    while i < n
        invariant
            n == list@.len(),
            i <= n,
            forall|k: int| 0 <= k < i ==> list@[k] != e,
        decreases n - i,
    {
        if list[i] == *e {
            return true;
        }
        i = i + 1;
    }
    false
}

/// Whether some hazard of the list is not ignored and overlaps the shape.
fn scan_poly(hs: &Vec<Hazard>, shape: &SimplePolygon, ignored: &Vec<HazardEntity>) -> (r: bool)
    ensures
        r == haz_hit_poly(hs@, shape.points(), ignored@),
{
    proof {
        use_type_invariant(shape);
        reveal(crate::polygon::valid_poly_points);
    }
    let n = hs.len();
    let mut i: usize = 0;
    while i < n
        invariant
            n == hs@.len(),
            i <= n,
            shape.points().len() >= 3,
            forall|k: int|
                0 <= k < i ==> !(!ignored@.contains((#[trigger] hs@[k]).entity())
                    && haz_overlap_poly(hs@[k], shape.points())),
        decreases n - i,
    {
        let h = &hs[i];
        let e = h.get_entity();
        if !contains_entity(ignored, &e) {
            let hit = match e {
                HazardEntity::BinExterior => shape.edges_intersect(h.get_shape()) || {
                    let p0 = shape.point_at(0);
                    !h.get_shape().contains_point(&p0)
                },
                _ => shape.collides_with(h.get_shape()),
            };
            if hit {
                return true;
            }
        }
        i = i + 1;
    }
    false
}

/// Whether some hazard of the list is not ignored and meets the circle.
fn scan_circle(hs: &Vec<Hazard>, c: &Circle, ignored: &Vec<HazardEntity>) -> (r: bool)
    ensures
        r == haz_hit_circle(hs@, *c, ignored@),
{
    let n = hs.len();
    let mut i: usize = 0;
    while i < n
        invariant
            n == hs@.len(),
            i <= n,
            forall|k: int|
                0 <= k < i ==> !(!ignored@.contains((#[trigger] hs@[k]).entity())
                    && haz_overlap_circle(hs@[k], *c)),
        decreases n - i,
    {
        let h = &hs[i];
        let e = h.get_entity();
        if !contains_entity(ignored, &e) {
            let hit = match e {
                HazardEntity::BinExterior => h.get_shape().circle_hits_edges(c) || {
                    let cen = c.center();
                    !h.get_shape().contains_point(&cen)
                },
                _ => h.get_shape().collides_with(c),
            };
            if hit {
                return true;
            }
        }
        i = i + 1;
    }
    false
}

/// An element-wise copy of a hazard list, equal view by view.
fn copy_hazards(hs: &Vec<Hazard>) -> (r: Vec<Hazard>)
    ensures
        hazs_view(r@) == hazs_view(hs@),
        r@.len() == hs@.len(),
{
    let n = hs.len();
    let mut r: Vec<Hazard> = Vec::new();
    let mut i: usize = 0;
    while i < n
        invariant
            n == hs@.len(),
            i <= n,
            r@.len() == i,
            forall|k: int| 0 <= k < i ==> haz_view(#[trigger] r@[k]) == haz_view(hs@[k]),
        decreases n - i,
    {
        r.push(hs[i].deep_copy());
        i = i + 1;
    }
    proof {
        assert(hazs_view(r@) =~= hazs_view(hs@));
    }
    r
}

} // verus!
