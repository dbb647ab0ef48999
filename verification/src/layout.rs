//! Layouts: a bin with items placed in it, kept in step with its engine.
//!
//! The core consistency invariant of the whole system holds by type
//! invariant: the dynamic hazards of the engine correspond one to one, in
//! order, to the placed items of the layout. Placing registers, removing
//! deregisters, and snapshot/restore round-trips the full state.

use vstd::prelude::*;

verus! {

use crate::frac::{Frac, lemma_value_add, lemma_value_div};
use crate::point::Point;
use crate::polygon::SimplePolygon;
use crate::hazard::{Hazard, HazardEntity, PlacedItemUID};
use crate::cde::{CDEngine, CDESnapshot, CDEConfig, haz_view, hazs_view, haz_hit_poly};
use crate::dtransform::DTransformation;
use crate::item::Item;
use crate::GeomError;

/// One placement: its identity and the materialised transformed shape.
#[derive(Debug)]
pub struct PlacedItem {
    uid: PlacedItemUID,
    shape: SimplePolygon,
}

impl PlacedItem {
    /// The identity of the placement.
    pub closed spec fn uid(self) -> PlacedItemUID {
        self.uid
    }

    /// The vertex cycle of the transformed shape.
    pub closed spec fn shape_points(self) -> Seq<Point> {
        self.shape.points()
    }

    /// The exact area of the transformed shape.
    pub closed spec fn spec_area(self) -> Frac {
        self.shape.spec_area()
    }

    /// The bounding box of the transformed shape.
    pub closed spec fn spec_bbox(self) -> crate::rect::AARectangle {
        self.shape.spec_bbox()
    }

    /// The identity of the placement.
    pub fn get_uid(&self) -> (r: PlacedItemUID)
        ensures
            r == self.uid(),
    {
        self.uid
    }

    /// The transformed shape.
    pub fn get_shape(&self) -> (r: &SimplePolygon)
        ensures
            r.points() == self.shape_points(),
            r.spec_area() == self.spec_area(),
            r.spec_bbox() == self.spec_bbox(),
    {
        &self.shape
    }

    /// An exact copy.
    pub fn deep_copy(&self) -> (r: PlacedItem)
        ensures
            r.uid() == self.uid(),
            r.shape_points() == self.shape_points(),
            r.spec_area() == self.spec_area(),
    {
        PlacedItem { uid: self.uid, shape: self.shape.deep_copy() }
    }
}

/// The bijection between placed items and dynamic hazards: index by index,
/// the hazard's entity is the placement's identity and its footprint is the
/// placement's shape.
pub open spec fn layout_aligned(placed: Seq<PlacedItem>, hz: Seq<Hazard>) -> bool {
    &&& hz.len() == placed.len()
    &&& forall|i: int|
        0 <= i < placed.len() ==> {
            &&& (#[trigger] hz[i]).entity() == HazardEntity::PlacedItem(placed[i].uid())
            &&& hz[i].shape_points() == placed[i].shape_points()
        }
}

/// Bijection law: in an aligned layout the active placed-item hazards are
/// exactly the placements — an entity is registered if and only if a
/// placement with that identity is in the list.
pub proof fn lemma_hazard_bijection(placed: Seq<PlacedItem>, hz: Seq<Hazard>, uid: PlacedItemUID)
    requires
        layout_aligned(placed, hz),
    ensures
        (exists|i: int|
            0 <= i < hz.len() && (#[trigger] hz[i]).entity() == HazardEntity::PlacedItem(uid))
            <==> (exists|i: int| 0 <= i < placed.len() && (#[trigger] placed[i]).uid() == uid),
{
    if exists|i: int|
        0 <= i < hz.len() && (#[trigger] hz[i]).entity() == HazardEntity::PlacedItem(uid) {
        let i = choose|i: int|
            0 <= i < hz.len() && (#[trigger] hz[i]).entity() == HazardEntity::PlacedItem(uid);
        assert(placed[i].uid() == uid);
    }
    if exists|i: int| 0 <= i < placed.len() && (#[trigger] placed[i]).uid() == uid {
        let i = choose|i: int| 0 <= i < placed.len() && (#[trigger] placed[i]).uid() == uid;
        assert(hz[i].entity() == HazardEntity::PlacedItem(uid));
    }
}

/// Query equivalence: hazard lists that agree view by view answer every
/// polygon collision query the same way.
pub proof fn lemma_equal_views_equal_queries(a: Seq<Hazard>, b: Seq<Hazard>)
    requires
        hazs_view(a) == hazs_view(b),
    ensures
        forall|pts: Seq<Point>, ign: Seq<HazardEntity>|
            #[trigger] haz_hit_poly(a, pts, ign) == haz_hit_poly(b, pts, ign),
{
    assert(a.len() == b.len()) by {
        assert(hazs_view(a).len() == a.len());
        assert(hazs_view(b).len() == b.len());
    }
    assert forall|pts: Seq<Point>, ign: Seq<HazardEntity>|
        #[trigger] haz_hit_poly(a, pts, ign) == haz_hit_poly(b, pts, ign) by {
        assert forall|i: int| 0 <= i < a.len() implies haz_view(#[trigger] a[i]) == haz_view(
            b[i],
        ) by {
            assert(hazs_view(a)[i] == haz_view(a[i]));
            assert(hazs_view(b)[i] == haz_view(b[i]));
        }
        if haz_hit_poly(a, pts, ign) {
            let i = choose|i: int|
                0 <= i < a.len() && !ign.contains((#[trigger] a[i]).entity())
                    && crate::cde::haz_overlap_poly(a[i], pts);
            assert(a[i].entity() == b[i].entity() && a[i].shape_points() == b[i].shape_points());
            assert(!ign.contains(b[i].entity()) && crate::cde::haz_overlap_poly(b[i], pts));
        }
        if haz_hit_poly(b, pts, ign) {
            let i = choose|i: int|
                0 <= i < b.len() && !ign.contains((#[trigger] b[i]).entity())
                    && crate::cde::haz_overlap_poly(b[i], pts);
            assert(a[i].entity() == b[i].entity() && a[i].shape_points() == b[i].shape_points());
            assert(!ign.contains(a[i].entity()) && crate::cde::haz_overlap_poly(a[i], pts));
        }
    }
}

/// Query equivalence for the fast path: hazard lists that agree view by view
/// answer every circle query the same way.
pub proof fn lemma_equal_views_equal_circle_queries(a: Seq<Hazard>, b: Seq<Hazard>)
    requires
        hazs_view(a) == hazs_view(b),
    ensures
        forall|c: crate::circle::Circle, ign: Seq<HazardEntity>|
            #[trigger] crate::cde::haz_hit_circle(a, c, ign) == crate::cde::haz_hit_circle(
                b,
                c,
                ign,
            ),
{
    assert(a.len() == b.len()) by {
        assert(hazs_view(a).len() == a.len());
        assert(hazs_view(b).len() == b.len());
    }
    assert forall|c: crate::circle::Circle, ign: Seq<HazardEntity>|
        #[trigger] crate::cde::haz_hit_circle(a, c, ign) == crate::cde::haz_hit_circle(
        b,
        c,
        ign,
    ) by {
        assert forall|i: int| 0 <= i < a.len() implies haz_view(#[trigger] a[i]) == haz_view(
            b[i],
        ) by {
            assert(hazs_view(a)[i] == haz_view(a[i]));
            assert(hazs_view(b)[i] == haz_view(b[i]));
        }
        if crate::cde::haz_hit_circle(a, c, ign) {
            let i = choose|i: int|
                0 <= i < a.len() && !ign.contains((#[trigger] a[i]).entity())
                    && crate::cde::haz_overlap_circle(a[i], c);
            assert(a[i].entity() == b[i].entity() && a[i].shape_points() == b[i].shape_points());
            assert(!ign.contains(b[i].entity()) && crate::cde::haz_overlap_circle(b[i], c));
        }
        if crate::cde::haz_hit_circle(b, c, ign) {
            let i = choose|i: int|
                0 <= i < b.len() && !ign.contains((#[trigger] b[i]).entity())
                    && crate::cde::haz_overlap_circle(b[i], c);
            assert(a[i].entity() == b[i].entity() && a[i].shape_points() == b[i].shape_points());
            assert(!ign.contains(a[i].entity()) && crate::cde::haz_overlap_circle(a[i], c));
        }
    }
}

/// A bin: its outer shape and the template engine built once for it.
#[derive(Debug)]
pub struct Bin {
    id: usize,
    outer: SimplePolygon,
    base_cde: CDEngine,
}

impl Bin {
    /// The identifier.
    pub closed spec fn spec_id(self) -> usize {
        self.id
    }

    /// The outer shape's vertex cycle.
    pub closed spec fn outer_points(self) -> Seq<Point> {
        self.outer.points()
    }

    /// The exact area of the outer shape.
    pub closed spec fn spec_area(self) -> Frac {
        self.outer.spec_area()
    }

    /// The template engine.
    pub closed spec fn spec_base_cde(self) -> CDEngine {
        self.base_cde
    }

    /// The template engine has no dynamic hazards.
    #[verifier::type_invariant]
    pub open spec fn wf(self) -> bool {
        self.spec_base_cde().dynamics().len() == 0
    }

    /// Builds a bin: its template engine covers the shape's bounding box and
    /// tracks the bin exterior as its one static hazard.
    pub fn new(id: usize, outer: SimplePolygon, config: CDEConfig) -> (r: Bin)
        ensures
            r.spec_id() == id,
            r.outer_points() == outer.points(),
            r.spec_area() == outer.spec_area(),
            r.spec_base_cde().statics().len() == 1,
            r.spec_base_cde().statics()[0].entity() == HazardEntity::BinExterior,
            r.spec_base_cde().statics()[0].shape_points() == outer.points(),
            r.spec_base_cde().dynamics().len() == 0,
            r.spec_base_cde().spec_config() == config,
    {
        let bbox = outer.bbox_cached();
        let boundary = Hazard::new(HazardEntity::BinExterior, outer.deep_copy());
        let mut statics: Vec<Hazard> = Vec::new();
        statics.push(boundary);
        let base_cde = CDEngine::new(bbox, statics, config);
        Bin { id, outer, base_cde }
    }

    /// Builds the rectangular bin of a strip of the given integer width and
    /// height, its lower-left corner at the origin. Succeeds exactly for
    /// dimensions between one and the coordinate precision budget.
    pub fn from_strip(id: usize, width: i32, height: i32, config: CDEConfig) -> (r: Result<
        Bin,
        GeomError,
    >)
        ensures
            r is Ok <==> (1 <= width as int <= crate::point::COORD_LIM && 1 <= height as int
                <= crate::point::COORD_LIM),
            match r {
                Ok(b) => {
                    &&& b.spec_id() == id
                    &&& b.outer_points().len() == 4
                    &&& b.outer_points()[0].xn() == 0 && b.outer_points()[0].yn() == 0
                    &&& b.outer_points()[1].xn() == width as int && b.outer_points()[1].yn() == 0
                    &&& b.outer_points()[2].xn() == width as int && b.outer_points()[2].yn()
                        == height as int
                    &&& b.outer_points()[3].xn() == 0 && b.outer_points()[3].yn() == height as int
                    &&& (forall|i: int| 0 <= i < 4 ==> (#[trigger] b.outer_points()[i]).d() == 1)
                    &&& b.spec_base_cde().spec_config() == config
                },
                Err(e) => {
                    &&& (e == GeomError::OutOfRange || e == GeomError::InvalidRectangle)
                    &&& (e == GeomError::InvalidRectangle <==> width < 1 || height < 1)
                },
            },
    {
        if width < 1 || height < 1 {
            return Err(GeomError::InvalidRectangle);
        }
        if width > crate::point::COORD_LIM as i32 || height > crate::point::COORD_LIM as i32 {
            return Err(GeomError::OutOfRange);
        }
        let p0 = match Point::new_int(0, 0) {
            Ok(p) => p,
            Err(_) => {
                proof {
                    assert(false);
                }
                vstd::pervasive::unreached()
            },
        };
        let p1 = match Point::new_int(width, 0) {
            Ok(p) => p,
            Err(_) => {
                proof {
                    assert(false);
                }
                vstd::pervasive::unreached()
            },
        };
        let p2 = match Point::new_int(width, height) {
            Ok(p) => p,
            Err(_) => {
                proof {
                    assert(false);
                }
                vstd::pervasive::unreached()
            },
        };
        let p3 = match Point::new_int(0, height) {
            Ok(p) => p,
            Err(_) => {
                proof {
                    assert(false);
                }
                vstd::pervasive::unreached()
            },
        };
        let mut pts: Vec<Point> = Vec::new();
        pts.push(p0);
        pts.push(p1);
        pts.push(p2);
        pts.push(p3);
        proof {
            lemma_strip_cycle(pts@, width as int, height as int);
        }
        let outer = match SimplePolygon::new(pts) {
            Ok(p) => p,
            Err(_) => {
                proof {
                    assert(false);
                }
                vstd::pervasive::unreached()
            },
        };
        Ok(Bin::new(id, outer, config))
    }

    /// The identifier.
    pub fn get_id(&self) -> (r: usize)
        ensures
            r == self.spec_id(),
    {
        self.id
    }

    /// The outer shape.
    pub fn outer(&self) -> (r: &SimplePolygon)
        ensures
            r.points() == self.outer_points(),
            r.spec_area() == self.spec_area(),
    {
        &self.outer
    }

    /// The template engine.
    pub fn base_cde(&self) -> (r: &CDEngine)
        ensures
            r == self.spec_base_cde(),
    {
        &self.base_cde
    }

    /// An exact copy of the bin.
    pub fn deep_copy(&self) -> (r: Bin)
        ensures
            r.spec_id() == self.spec_id(),
            r.outer_points() == self.outer_points(),
            r.spec_area() == self.spec_area(),
            hazs_view(r.spec_base_cde().statics()) == hazs_view(self.spec_base_cde().statics()),
            r.spec_base_cde().dynamics().len() == 0,
            r.spec_base_cde().spec_config() == self.spec_base_cde().spec_config(),
    {
        proof {
            use_type_invariant(self);
        }
        Bin { id: self.id, outer: self.outer.deep_copy(), base_cde: self.base_cde.deep_copy() }
    }
}

/// Exact sum of the areas of the first `k` placements, as a raw fraction
/// pair.
pub open spec fn areas_sum(ps: Seq<PlacedItem>, k: int) -> (int, int)
    decreases k,
{
    if k <= 0 {
        (0, 1)
    } else {
        let s = areas_sum(ps, k - 1);
        let a = ps[k - 1].spec_area();
        (s.0 * a.den() + a.num() * s.1, s.1 * a.den())
    }
}

/// The exact reduced accumulator of the placed-area sum after `k`
/// placements, as the usage computation produces it; `None` once any reduced
/// partial sum leaves the representable range.
pub open spec fn usage_acc(ps: Seq<PlacedItem>, k: int) -> Option<(int, int)>
    decreases k,
{
    if k <= 0 {
        Some((0, 1))
    } else {
        match usage_acc(ps, k - 1) {
            Some(a) => {
                let ar = ps[k - 1].spec_area();
                let rn = a.0 * ar.den() + ar.num() * a.1;
                let rd = a.1 * ar.den();
                if crate::frac::norm_fits(rn, rd) {
                    Some((crate::frac::norm_num(rn, rd), crate::frac::norm_den(rn, rd)))
                } else {
                    None
                }
            },
            None => None,
        }
    }
}

/// Whether the exact usage ratio is representable: the bin area is nonzero
/// and every reduced partial sum and the final quotient stay within the
/// range. The usage query succeeds exactly on these states.
pub open spec fn usage_representable(ps: Seq<PlacedItem>, bin_area: Frac) -> bool {
    match usage_acc(ps, ps.len() as int) {
        Some(a) => bin_area.num() > 0 && crate::frac::norm_fits(
            a.0 * bin_area.den(),
            a.1 * bin_area.num(),
        ),
        None => false,
    }
}

/// Once a usage accumulator step has failed, every later step has failed.
proof fn lemma_usage_acc_none(ps: Seq<PlacedItem>, k: int, j: int)
    requires
        0 <= k <= j,
        usage_acc(ps, k) is None,
    ensures
        usage_acc(ps, j) is None,
    decreases j - k,
{
    if j > k {
        lemma_usage_acc_none(ps, k, j - 1);
    }
}

/// Whether placing the item at the pose is representable: every vertex image
/// fits the precision budget and the transformed shape is again a valid
/// polygon with a representable area. Placement succeeds exactly on these
/// poses.
pub open spec fn placement_representable(item: Item, dt: DTransformation) -> bool {
    crate::polygon::pose_applies(
        dt.rotation(),
        dt.translation().0,
        dt.translation().1,
        item.shape_points(),
    )
}

/// A layout: a bin, the placements inside it, and the live engine that
/// mirrors them.
#[derive(Debug)]
pub struct Layout {
    id: usize,
    bin: Bin,
    placed_items: Vec<PlacedItem>,
    cde: CDEngine,
}

/// An immutable capture of a layout, for cheap backtracking.
#[derive(Debug)]
pub struct LayoutSnapshot {
    id: usize,
    bin: Bin,
    placed_items: Vec<PlacedItem>,
    cde_snapshot: CDESnapshot,
    usage: Option<Frac>,
}

impl LayoutSnapshot {
    /// The identifier of the captured layout.
    pub closed spec fn spec_id(self) -> usize {
        self.id
    }

    /// The captured placements.
    pub closed spec fn placed(self) -> Seq<PlacedItem> {
        self.placed_items@
    }

    /// The captured engine state.
    pub closed spec fn spec_cde_snapshot(self) -> CDESnapshot {
        self.cde_snapshot
    }

    /// The captured bin.
    pub closed spec fn spec_bin(self) -> Bin {
        self.bin
    }

    /// The captured usage ratio.
    pub closed spec fn spec_usage(self) -> Option<Frac> {
        self.usage
    }

    /// The captured engine state mirrors the captured placements.
    #[verifier::type_invariant]
    pub open spec fn wf(self) -> bool {
        &&& layout_aligned(self.placed(), self.spec_cde_snapshot().dynamic())
        &&& self.spec_bin().wf()
    }

    /// The identifier of the captured layout.
    pub fn get_id(&self) -> (r: usize)
        ensures
            r == self.spec_id(),
    {
        self.id
    }

    /// The captured usage ratio.
    pub fn get_usage(&self) -> (r: Option<Frac>)
        ensures
            r == self.spec_usage(),
    {
        self.usage
    }
}

impl Layout {
    /// The identifier, used only to match with a snapshot.
    pub closed spec fn spec_id(self) -> usize {
        self.id
    }

    /// The placements, in placement order.
    pub closed spec fn placed(self) -> Seq<PlacedItem> {
        self.placed_items@
    }

    /// The live engine.
    pub closed spec fn spec_cde(self) -> CDEngine {
        self.cde
    }

    /// The bin.
    pub closed spec fn spec_bin(self) -> Bin {
        self.bin
    }

    /// The core consistency invariant: the engine's dynamic hazards mirror
    /// the placements, index by index. Established by `new` and kept by every
    /// operation.
    pub open spec fn wf(self) -> bool {
        &&& layout_aligned(self.placed(), self.spec_cde().dynamics())
        &&& self.spec_bin().wf()
    }

    /// Builds an empty layout over the bin, with the live engine cloned from
    /// the bin's template.
    pub fn new(id: usize, bin: Bin) -> (r: Layout)
        ensures
            r.wf(),
            r.spec_id() == id,
            r.placed().len() == 0,
            r.spec_cde().dynamics().len() == 0,
            hazs_view(r.spec_cde().statics()) == hazs_view(bin.spec_base_cde().statics()),
            r.spec_bin().spec_id() == bin.spec_id(),
            r.spec_bin().outer_points() == bin.outer_points(),
            r.spec_bin().spec_area() == bin.spec_area(),
    {
        proof {
            use_type_invariant(&bin);
        }
        let cde = bin.base_cde().deep_copy();
        Layout { id, bin, placed_items: Vec::new(), cde }
    }

    /// Rebuilds a layout from a snapshot.
    pub fn from_snapshot(ls: &LayoutSnapshot) -> (r: Layout)
        ensures
            r.wf(),
            r.spec_id() == ls.spec_id(),
            hazs_view(r.spec_cde().dynamics()) == hazs_view(ls.spec_cde_snapshot().dynamic()),
            placed_views(r.placed()) == placed_views(ls.placed()),
            hazs_view(r.spec_cde().statics()) == hazs_view(ls.spec_bin().spec_base_cde().statics()),
            r.spec_bin().spec_id() == ls.spec_bin().spec_id(),
            r.spec_bin().outer_points() == ls.spec_bin().outer_points(),
            r.spec_bin().spec_area() == ls.spec_bin().spec_area(),
    {
        proof {
            use_type_invariant(ls);
        }
        let mut layout = Layout::new(ls.id, ls.bin.deep_copy());
        match layout.restore(ls) {
            Ok(()) => layout,
            Err(_) => {
                proof {
                    assert(false);
                }
                vstd::pervasive::unreached()
            },
        }
    }

    /// Captures the full layout state.
    pub fn create_snapshot(&self) -> (r: LayoutSnapshot)
        requires
            self.wf(),
        ensures
            r.spec_id() == self.spec_id(),
            placed_views(r.placed()) == placed_views(self.placed()),
            hazs_view(r.spec_cde_snapshot().dynamic()) == hazs_view(self.spec_cde().dynamics()),
            r.spec_bin().spec_id() == self.spec_bin().spec_id(),
            r.spec_bin().outer_points() == self.spec_bin().outer_points(),
            r.spec_bin().spec_area() == self.spec_bin().spec_area(),
            hazs_view(r.spec_bin().spec_base_cde().statics()) == hazs_view(
                self.spec_bin().spec_base_cde().statics(),
            ),
            r.spec_usage() is Some <==> usage_representable(
                self.placed(),
                self.spec_bin().spec_area(),
            ),
            match r.spec_usage() {
                Some(u) => {
                    let s = areas_sum(self.placed(), self.placed().len() as int);
                    let a = self.spec_bin().spec_area();
                    u.num() * (s.1 * a.num()) == (s.0 * a.den()) * u.den()
                },
                None => true,
            },
    {
        let usage = self.usage();
        let bin = self.bin.deep_copy();
        let placed_items = copy_placed(&self.placed_items);
        let cde_snapshot = self.cde.create_snapshot();
        proof {
            lemma_views_align(
                placed_items@,
                cde_snapshot.dynamic(),
                self.placed(),
                self.spec_cde().dynamics(),
            );
        }
        LayoutSnapshot { id: self.id, bin, placed_items, cde_snapshot, usage }
    }

    /// Reinstates a captured state; a snapshot of a different layout identity
    /// is a contract violation and is rejected, with the layout unchanged.
    pub fn restore(&mut self, layout_snapshot: &LayoutSnapshot) -> (r: Result<(), GeomError>)
        requires
            old(self).wf(),
        ensures
            final(self).wf(),
            final(self).spec_bin() == old(self).spec_bin(),
            match r {
                Ok(()) => {
                    &&& old(self).spec_id() == layout_snapshot.spec_id()
                    &&& final(self).spec_id() == old(self).spec_id()
                    &&& placed_views(final(self).placed()) == placed_views(layout_snapshot.placed())
                    &&& hazs_view(final(self).spec_cde().dynamics()) == hazs_view(
                        layout_snapshot.spec_cde_snapshot().dynamic(),
                    )
                    &&& hazs_view(final(self).spec_cde().statics()) == hazs_view(
                        old(self).spec_cde().statics(),
                    )
                },
                Err(e) => {
                    &&& e == GeomError::IdMismatch
                    &&& old(self).spec_id() != layout_snapshot.spec_id()
                    &&& *final(self) == *old(self)
                },
            },
    {
        proof {
            use_type_invariant(layout_snapshot);
        }
        if self.id != layout_snapshot.get_id() {
            return Err(GeomError::IdMismatch);
        }
        self.placed_items = copy_placed(&layout_snapshot.placed_items);
        self.cde.restore(&layout_snapshot.cde_snapshot);
        proof {
            lemma_views_align(
                self.placed(),
                self.spec_cde().dynamics(),
                layout_snapshot.placed(),
                layout_snapshot.spec_cde_snapshot().dynamic(),
            );
        }
        Ok(())
    }

    /// The same layout under a different identifier.
    pub fn clone_with_id(&self, id: usize) -> (r: Layout)
        requires
            self.wf(),
        ensures
            r.wf(),
            r.spec_id() == id,
            placed_views(r.placed()) == placed_views(self.placed()),
            hazs_view(r.spec_cde().dynamics()) == hazs_view(self.spec_cde().dynamics()),
            hazs_view(r.spec_cde().statics()) == hazs_view(self.spec_cde().statics()),
    {
        let r = Layout {
            id,
            bin: self.bin.deep_copy(),
            placed_items: copy_placed(&self.placed_items),
            cde: self.cde.deep_copy(),
        };
        proof {
            lemma_views_align(
                r.placed(),
                r.spec_cde().dynamics(),
                self.placed(),
                self.spec_cde().dynamics(),
            );
        }
        r
    }

    /// Places an item at the given pose: materialises the transformed shape,
    /// registers its hazard and appends the placement. Fails exactly when
    /// the transformed shape leaves what the precision budget can represent,
    /// with the layout unchanged.
    pub fn place_item(&mut self, item: &Item, d_transformation: &DTransformation) -> (r: Result<
        (),
        GeomError,
    >)
        requires
            old(self).wf(),
        ensures
            final(self).wf(),
            final(self).spec_bin() == old(self).spec_bin(),
            final(self).spec_id() == old(self).spec_id(),
            r is Ok <==> placement_representable(*item, *d_transformation),
            match r {
                Ok(()) => {
                    &&& final(self).placed().len() == old(self).placed().len() + 1
                    &&& final(self).placed().subrange(0, old(self).placed().len() as int) == old(
                        self,
                    ).placed()
                    &&& final(self).placed().last().uid() == (PlacedItemUID {
                        item_id: item.spec_id(),
                        d_transformation: *d_transformation,
                    })
                    &&& final(self).placed().last().shape_points() == crate::polygon::image_seq(
                        d_transformation.rotation(),
                        d_transformation.translation().0,
                        d_transformation.translation().1,
                        item.shape_points(),
                    )
                    &&& final(self).spec_cde().dynamics().len() == old(
                        self,
                    ).spec_cde().dynamics().len() + 1
                    &&& final(self).spec_cde().statics() == old(self).spec_cde().statics()
                },
                Err(e) => {
                    &&& (e == GeomError::OutOfRange || e == GeomError::InvalidPolygon)
                    &&& placed_views(final(self).placed()) == placed_views(old(self).placed())
                    &&& final(self).spec_cde().dynamics() == old(self).spec_cde().dynamics()
                },
            },
    {
        let transformed = match item.shape().transform_clone(d_transformation) {
            Ok(p) => p,
            Err(e) => {
                return Err(e);
            },
        };
        let uid = PlacedItemUID { item_id: item.id(), d_transformation: *d_transformation };
        let hazard_shape = transformed.deep_copy();
        self.cde.register_hazard(
            Hazard::new(HazardEntity::PlacedItem(uid), hazard_shape),
        );
        self.placed_items.push(PlacedItem { uid, shape: transformed });
        Ok(())
    }

    /// Removes the placement with the given identity: drops it from the list
    /// and deregisters its hazard. An identity that is not present is a
    /// contract violation and is reported as `NotFound`, with the layout
    /// unchanged.
    pub fn remove_item(&mut self, pi_uid: &PlacedItemUID, commit_instant: bool) -> (r: Result<
        (),
        GeomError,
    >)
        requires
            old(self).wf(),
        ensures
            final(self).wf(),
            final(self).spec_bin() == old(self).spec_bin(),
            final(self).spec_id() == old(self).spec_id(),
            match r {
                Ok(()) => {
                    &&& final(self).placed().len() + 1 == old(self).placed().len()
                    &&& exists|i: int|
                        {
                            &&& 0 <= i < old(self).placed().len()
                            &&& (#[trigger] old(self).placed()[i]).uid() == pi_uid
                            &&& final(self).placed() == old(self).placed().remove(i)
                        }
                    &&& final(self).spec_cde().statics() == old(self).spec_cde().statics()
                },
                Err(e) => {
                    &&& e == GeomError::NotFound
                    &&& forall|i: int|
                        0 <= i < old(self).placed().len() ==> (#[trigger] old(
                            self,
                        ).placed()[i]).uid() != pi_uid
                    &&& *final(self) == *old(self)
                },
            },
    {
        let pos = match find_placed(&self.placed_items, pi_uid) {
            Some(i) => i,
            None => {
                return Err(GeomError::NotFound);
            },
        };
        let removed = self.placed_items.remove(pos);
        let entity = HazardEntity::PlacedItem(removed.get_uid());
        proof {
            assert(old(self).spec_cde().dynamics()[pos as int].entity() == entity);
            assert forall|k: int| 0 <= k < pos implies (#[trigger] old(
                self,
            ).spec_cde().dynamics()[k]).entity() != entity by {
                assert(old(self).placed()[k].uid() != pi_uid);
            }
        }
        match self.cde.deregister_hazard(&entity, commit_instant) {
            Ok(()) => {},
            Err(_) => {
                proof {
                    assert(false);
                }
                return vstd::pervasive::unreached();
            },
        }
        proof {
            let i = choose|i: int|
                {
                    &&& 0 <= i < old(self).spec_cde().dynamics().len()
                    &&& (#[trigger] old(self).spec_cde().dynamics()[i]).entity() == entity
                    &&& (forall|k: int|
                        0 <= k < i ==> (#[trigger] old(self).spec_cde().dynamics()[k]).entity()
                            != entity)
                    &&& self.spec_cde().dynamics() == old(self).spec_cde().dynamics().remove(i)
                };
            assert(i == pos as int);
            assert forall|k: int|
                0 <= k < self.placed_items@.len() implies {
                &&& (#[trigger] self.spec_cde().dynamics()[k]).entity()
                    == HazardEntity::PlacedItem(self.placed_items@[k].uid())
                &&& self.spec_cde().dynamics()[k].shape_points()
                    == self.placed_items@[k].shape_points()
            } by {
                if k < pos as int {
                    assert(old(self).spec_cde().dynamics()[k].entity()
                        == HazardEntity::PlacedItem(old(self).placed()[k].uid()));
                } else {
                    assert(old(self).spec_cde().dynamics()[k + 1].entity()
                        == HazardEntity::PlacedItem(old(self).placed()[k + 1].uid()));
                }
            }
        }
        Ok(())
    }

    /// True if no items are placed.
    pub fn is_empty(&self) -> (r: bool)
        ensures
            r == (self.placed().len() == 0),
    {
        self.placed_items.len() == 0
    }

    /// The bin.
    pub fn bin(&self) -> (r: &Bin)
        ensures
            r == self.spec_bin(),
    {
        &self.bin
    }

    /// The placements, in placement order.
    pub fn placed_items(&self) -> (r: &Vec<PlacedItem>)
        ensures
            r@ == self.placed(),
    {
        &self.placed_items
    }

    /// The ratio of placed area to bin area, exact; `None` when the bin area
    /// is zero or the exact ratio leaves the representable range.
    pub fn usage(&self) -> (r: Option<Frac>)
        ensures
            r is Some <==> usage_representable(self.placed(), self.spec_bin().spec_area()),
            match r {
                Some(u) => {
                    let s = areas_sum(self.placed(), self.placed().len() as int);
                    let a = self.spec_bin().spec_area();
                    u.num() * (s.1 * a.num()) == (s.0 * a.den()) * u.den()
                },
                None => true,
            },
    {
        usage_exec(&self.placed_items, self.bin.outer().area_cached())
    }

    /// The identifier.
    pub fn id(&self) -> (r: usize)
        ensures
            r == self.spec_id(),
    {
        self.id
    }

    /// The live collision detection engine.
    pub fn cde(&self) -> (r: &CDEngine)
        ensures
            r == self.spec_cde(),
    {
        &self.cde
    }

    /// Makes sure the engine is completely updated with the changes made to
    /// the layout.
    pub fn flush_changes(&mut self)
        requires
            old(self).wf(),
        ensures
            final(self).wf(),
            final(self).spec_bin() == old(self).spec_bin(),
            final(self).spec_id() == old(self).spec_id(),
            final(self).placed() == old(self).placed(),
            final(self).spec_cde().dynamics() == old(self).spec_cde().dynamics(),
            final(self).spec_cde().statics() == old(self).spec_cde().statics(),
            !final(self).spec_cde().dirty(),
    {
        self.cde.flush_haz_prox_grid();
    }
}

/// The view of a placement: its identity and its shape's vertex cycle.
pub open spec fn placed_view(p: PlacedItem) -> (PlacedItemUID, Seq<Point>, Frac) {
    (p.uid(), p.shape_points(), p.spec_area())
}

/// The views of a placement list, in order.
pub open spec fn placed_views(ps: Seq<PlacedItem>) -> Seq<(PlacedItemUID, Seq<Point>, Frac)> {
    ps.map_values(|p: PlacedItem| placed_view(p))
}

/// Lists whose placements and hazards agree view by view with an aligned
/// pair are aligned themselves.
proof fn lemma_views_align(
    placed_a: Seq<PlacedItem>,
    hz_a: Seq<Hazard>,
    placed_b: Seq<PlacedItem>,
    hz_b: Seq<Hazard>,
)
    requires
        placed_views(placed_a) == placed_views(placed_b),
        hazs_view(hz_a) == hazs_view(hz_b),
        layout_aligned(placed_b, hz_b),
    ensures
        layout_aligned(placed_a, hz_a),
{
    assert(placed_a.len() == placed_b.len()) by {
        assert(placed_views(placed_a).len() == placed_a.len());
        assert(placed_views(placed_b).len() == placed_b.len());
    }
    assert(hz_a.len() == hz_b.len()) by {
        assert(hazs_view(hz_a).len() == hz_a.len());
        assert(hazs_view(hz_b).len() == hz_b.len());
    }
    assert forall|i: int| 0 <= i < placed_a.len() implies {
        &&& (#[trigger] hz_a[i]).entity() == HazardEntity::PlacedItem(placed_a[i].uid())
        &&& hz_a[i].shape_points() == placed_a[i].shape_points()
    } by {
        assert(placed_views(placed_a)[i] == placed_view(placed_a[i]));
        assert(placed_views(placed_b)[i] == placed_view(placed_b[i]));
        assert(hazs_view(hz_a)[i] == haz_view(hz_a[i]));
        assert(hazs_view(hz_b)[i] == haz_view(hz_b[i]));
        assert(hz_b[i].entity() == HazardEntity::PlacedItem(placed_b[i].uid()));
    }
}

/// The first index of a placement with the given identity.
fn find_placed(ps: &Vec<PlacedItem>, uid: &PlacedItemUID) -> (r: Option<usize>)
    ensures
        match r {
            Some(i) => i < ps@.len() && ps@[i as int].uid() == uid && (forall|k: int|
                0 <= k < i ==> (#[trigger] ps@[k]).uid() != uid),
            None => forall|k: int| 0 <= k < ps@.len() ==> (#[trigger] ps@[k]).uid() != uid,
        },
{
    let n = ps.len();
    let mut i: usize = 0;
    while i < n
        invariant
            n == ps@.len(),
            i <= n,
            forall|k: int| 0 <= k < i ==> (#[trigger] ps@[k]).uid() != uid,
        decreases n - i,
    {
        let u = ps[i].get_uid();
        if u == *uid {
            return Some(i);
        }
        i = i + 1;
    }
    None
}

/// The four corners of a strip, in order, form a valid cycle with a
/// representable area.
proof fn lemma_strip_cycle(s: Seq<Point>, w: int, h: int)
    requires
        s.len() == 4,
        1 <= w <= crate::point::COORD_LIM,
        1 <= h <= crate::point::COORD_LIM,
        s[0].xn() == 0 && s[0].yn() == 0 && s[0].d() == 1,
        s[1].xn() == w && s[1].yn() == 0 && s[1].d() == 1,
        s[2].xn() == w && s[2].yn() == h && s[2].d() == 1,
        s[3].xn() == 0 && s[3].yn() == h && s[3].d() == 1,
    ensures
        crate::polygon::valid_poly_points(s),
        crate::polygon::area_representable(s),
{
    reveal(crate::polygon::valid_poly_points);
    reveal(crate::edge::segs_intersect_pts);
    assert(!s[0].same_point(s[1]));
    assert(!s[1].same_point(s[2]));
    assert(!s[2].same_point(s[3]));
    assert(!s[3].same_point(s[0]));
    assert(!crate::edge::segs_intersect_pts(s[0], s[1], s[2], s[3]));
    assert(!crate::edge::segs_intersect_pts(s[1], s[2], s[3], s[0]));
    assert forall|i: int, j: int|
        0 <= i < j < s.len() && !crate::polygon::edges_adjacent(i, j, s.len() as int)
            implies !#[trigger] crate::edge::segs_intersect_pts(
        s[i],
        s[crate::polygon::nxt(i, s.len() as int)],
        s[j],
        s[crate::polygon::nxt(j, s.len() as int)],
    ) by {
        assert(i == 0 && j == 2 || i == 1 && j == 3);
    }
    assert(crate::polygon::valid_poly_points(s));
    // the shoelace accumulator stays on small one-denominator fractions
    crate::frac::lemma_norm_trivial(0);
    assert(crate::polygon::area_acc(s, 0) == Some((0int, 1int)));
    assert(crate::polygon::shoelace_num(s[0], s[1]) == 0 && crate::polygon::shoelace_den(
        s[0],
        s[1],
    ) == 1);
    assert(crate::polygon::area_acc(s, 1) == Some((0int, 1int)));
    assert(w * h >= 1 && w * h <= 65536) by (nonlinear_arith)
        requires
            1 <= w <= 256,
            1 <= h <= 256,
    ;
    crate::frac::lemma_norm_trivial(w * h);
    assert(crate::polygon::shoelace_num(s[1], s[2]) == w * h && crate::polygon::shoelace_den(
        s[1],
        s[2],
    ) == 1);
    assert(crate::polygon::area_acc(s, 2) == Some((w * h, 1int))) by {
        let a = crate::polygon::area_acc(s, 1)->Some_0;
        let rn = a.0 * crate::polygon::shoelace_den(s[1], s[2]) + crate::polygon::shoelace_num(
            s[1],
            s[2],
        ) * a.1;
        let rd = a.1 * crate::polygon::shoelace_den(s[1], s[2]);
        assert(a.0 * crate::polygon::shoelace_den(s[1], s[2]) == 0) by (nonlinear_arith)
            requires
                a.0 == 0,
        ;
        assert(crate::polygon::shoelace_num(s[1], s[2]) * a.1 == crate::polygon::shoelace_num(
            s[1],
            s[2],
        )) by (nonlinear_arith)
            requires
                a.1 == 1,
        ;
        assert(a.1 * crate::polygon::shoelace_den(s[1], s[2]) == crate::polygon::shoelace_den(
            s[1],
            s[2],
        )) by (nonlinear_arith)
            requires
                a.1 == 1,
        ;
        assert(rn == w * h);
        assert(rd == 1);
        assert(crate::frac::norm_fits(rn, rd));
        assert(crate::frac::norm_num(rn, rd) == w * h);
        assert(crate::frac::norm_den(rn, rd) == 1);
    }
    assert(crate::polygon::shoelace_num(s[2], s[3]) == w * h && crate::polygon::shoelace_den(
        s[2],
        s[3],
    ) == 1);
    crate::frac::lemma_norm_trivial(w * h + w * h);
    assert(crate::polygon::area_acc(s, 3) == Some((w * h + w * h, 1int)));
    assert(crate::polygon::shoelace_num(s[3], s[0]) == 0 && crate::polygon::shoelace_den(
        s[3],
        s[0],
    ) == 1);
    assert(crate::polygon::area_acc(s, 4) == Some((w * h + w * h, 1int))) by {
        let a = crate::polygon::area_acc(s, 3)->Some_0;
        let rn = a.0 * crate::polygon::shoelace_den(s[3], s[0]) + crate::polygon::shoelace_num(
            s[3],
            s[0],
        ) * a.1;
        let rd = a.1 * crate::polygon::shoelace_den(s[3], s[0]);
        assert(a.0 * crate::polygon::shoelace_den(s[3], s[0]) == a.0) by (nonlinear_arith)
            requires
                crate::polygon::shoelace_den(s[3], s[0]) == 1,
        ;
        assert(crate::polygon::shoelace_num(s[3], s[0]) * a.1 == 0) by (nonlinear_arith)
            requires
                crate::polygon::shoelace_num(s[3], s[0]) == 0,
        ;
        assert(a.1 * crate::polygon::shoelace_den(s[3], s[0]) == crate::polygon::shoelace_den(
            s[3],
            s[0],
        )) by (nonlinear_arith)
            requires
                a.1 == 1,
        ;
        assert(rn == w * h + w * h);
        assert(rd == 1);
        assert(crate::frac::norm_fits(rn, rd));
        assert(crate::frac::norm_num(rn, rd) == w * h + w * h);
        assert(crate::frac::norm_den(rn, rd) == 1);
    }
    crate::frac::lemma_norm_half_even(w * h);
    assert(crate::polygon::area_representable(s)) by {
        let m = crate::polygon::area_acc(s, 4)->Some_0;
        assert(m.0 == w * h + w * h && m.1 == 1);
        assert(m.0 * 1 == w * h + w * h) by (nonlinear_arith)
            requires
                m.0 == w * h + w * h,
        ;
        assert(m.1 * 2 == 2) by (nonlinear_arith)
            requires
                m.1 == 1,
        ;
        assert(crate::frac::norm_fits(m.0 * 1, m.1 * 2));
        assert(s.len() as int == 4);
    }
}

/// An element-wise copy of a placement list, equal view by view.
fn copy_placed(ps: &Vec<PlacedItem>) -> (r: Vec<PlacedItem>)
    ensures
        placed_views(r@) == placed_views(ps@),
        r@.len() == ps@.len(),
{
    let n = ps.len();
    let mut r: Vec<PlacedItem> = Vec::new();
    let mut i: usize = 0;
    while i < n
        invariant
            n == ps@.len(),
            i <= n,
            r@.len() == i,
            forall|k: int| 0 <= k < i ==> placed_view(#[trigger] r@[k]) == placed_view(ps@[k]),
        decreases n - i,
    {
        r.push(ps[i].deep_copy());
        i = i + 1;
    }
    proof {
        assert(placed_views(r@) =~= placed_views(ps@));
    }
    r
}

/// The denominator of every partial area sum is positive.
proof fn lemma_areas_den_pos(ps: Seq<PlacedItem>, k: int)
    requires
        forall|j: int| 0 <= j < k ==> (#[trigger] ps[j]).spec_area().den() > 0,
        k <= ps.len(),
    ensures
        areas_sum(ps, k).1 > 0,
    decreases k,
{
    if k > 0 {
        lemma_areas_den_pos(ps, k - 1);
        let s = areas_sum(ps, k - 1);
        let a = ps[k - 1].spec_area();
        assert(s.1 * a.den() > 0) by (nonlinear_arith)
            requires
                s.1 > 0,
                a.den() > 0,
        ;
    }
}

/// Computes the exact usage ratio.
fn usage_exec(ps: &Vec<PlacedItem>, bin_area: Frac) -> (r: Option<Frac>)
    requires
        bin_area.num() >= 0,
    ensures
        r is Some <==> usage_representable(ps@, bin_area),
        match r {
            Some(u) => {
                let s = areas_sum(ps@, ps@.len() as int);
                u.num() * (s.1 * bin_area.num()) == (s.0 * bin_area.den()) * u.den()
            },
            None => true,
        },
{
    let n = ps.len();
    let mut acc = Frac::zero();
    let mut i: usize = 0;
    while i < n
        invariant
            n == ps@.len(),
            i <= n,
            forall|j: int| 0 <= j < i ==> (#[trigger] ps@[j]).spec_area().den() > 0,
            acc.num() * areas_sum(ps@, i as int).1 == areas_sum(ps@, i as int).0 * acc.den(),
            usage_acc(ps@, i as int) == Some((acc.num(), acc.den())),
        decreases n - i,
    {
        let a = ps[i].get_shape().area_cached();
        proof {
            use_type_invariant(a);
            use_type_invariant(acc);
            lemma_areas_den_pos(ps@, i as int);
        }
        let next = match acc.checked_add(&a) {
            Some(f) => f,
            None => {
                proof {
                    assert(usage_acc(ps@, i + 1 as int) is None);
                    lemma_usage_acc_none(ps@, i + 1 as int, ps@.len() as int);
                }
                return None;
            },
        };
        proof {
            use_type_invariant(next);
            lemma_value_add(
                acc.num(),
                acc.den(),
                areas_sum(ps@, i as int).0,
                areas_sum(ps@, i as int).1,
                a.num(),
                a.den(),
                next.num(),
                next.den(),
            );
        }
        acc = next;
        i = i + 1;
    }
    proof {
        use_type_invariant(acc);
        use_type_invariant(bin_area);
        lemma_areas_den_pos(ps@, n as int);
    }
    if bin_area.is_zero() {
        return None;
    }
    let u = match acc.checked_div(&bin_area) {
        Some(f) => f,
        None => {
            return None;
        },
    };
    proof {
        use_type_invariant(u);
        lemma_value_div(
            acc.num(),
            acc.den(),
            areas_sum(ps@, n as int).0,
            areas_sum(ps@, n as int).1,
            bin_area.num(),
            bin_area.den(),
            u.num(),
            u.den(),
        );
    }
    Some(u)
}

} // verus!
