//! Strip packing: the consumer-facing boundary over one layout.
//!
//! A strip packing problem owns the item templates with their outstanding
//! quantities and a single layout over a strip-shaped bin. Widening or
//! narrowing the strip builds a fresh layout — cached poses are not carried
//! across a bounding-geometry change — and tries to place every old placement
//! again, dropping those whose fast or exact collision check now fails.

use vstd::prelude::*;

verus! {

use crate::cde::CDEConfig;
use crate::hazard::{HazardEntity, PlacedItemUID, ignored_entities};
use crate::item::Item;
use crate::layout::{Layout, placed_views, placement_representable};
use crate::GeomError;

/// Whether a placement identity occurs in an identity list.
pub open spec fn uid_in(uid: PlacedItemUID, uids: Seq<PlacedItemUID>) -> bool {
    exists|j: int| 0 <= j < uids.len() && uids[j] == uid
}

/// Whether a placement identity occurs in a placement list.
pub open spec fn uid_among(uid: PlacedItemUID, ps: Seq<crate::layout::PlacedItem>) -> bool {
    exists|j: int| 0 <= j < ps.len() && (#[trigger] ps[j]).uid() == uid
}

/// A strip packing problem: items, outstanding quantities, one layout.
#[derive(Debug)]
pub struct SPProblem {
    items: Vec<Item>,
    qtys: Vec<u64>,
    layout: Layout,
    strip_height: i32,
    strip_width: i32,
    missing_item_qtys: Vec<u64>,
    solution_id_counter: usize,
}

impl SPProblem {
    /// The item templates, indexed by their ids.
    pub closed spec fn spec_items(self) -> Seq<Item> {
        self.items@
    }

    /// The outstanding quantity of each item.
    pub closed spec fn spec_missing(self) -> Seq<u64> {
        self.missing_item_qtys@
    }

    /// The target quantity of each item.
    pub closed spec fn spec_qtys(self) -> Seq<u64> {
        self.qtys@
    }

    /// The single layout.
    pub closed spec fn spec_layout(self) -> Layout {
        self.layout
    }

    /// The strip width.
    pub closed spec fn spec_strip_width(self) -> i32 {
        self.strip_width
    }

    /// The strip height.
    pub closed spec fn spec_strip_height(self) -> i32 {
        self.strip_height
    }

    /// Item ids are their indices, and the layout is consistent.
    pub open spec fn wf(self) -> bool {
        &&& self.spec_layout().wf()
        &&& self.spec_missing().len() == self.spec_items().len()
        &&& self.spec_qtys().len() == self.spec_items().len()
        &&& forall|i: int|
            0 <= i < self.spec_items().len() ==> (#[trigger] self.spec_items()[i]).spec_id()
                == i
    }

    /// Builds a strip packing problem over a fresh strip of the given width.
    /// Items must be listed in id order; succeeds exactly when the strip
    /// dimensions are representable.
    pub fn new(
        items: Vec<Item>,
        qtys: Vec<u64>,
        strip_width: i32,
        strip_height: i32,
        config: CDEConfig,
    ) -> (r: Result<SPProblem, GeomError>)
        requires
            qtys@.len() == items@.len(),
            forall|i: int| 0 <= i < items@.len() ==> (#[trigger] items@[i]).spec_id() == i,
        ensures
            r is Ok <==> (1 <= strip_width as int <= crate::point::COORD_LIM && 1
                <= strip_height as int <= crate::point::COORD_LIM),
            match r {
                Ok(p) => {
                    &&& p.wf()
                    &&& p.spec_strip_width() == strip_width
                    &&& p.spec_strip_height() == strip_height
                    &&& p.spec_items() == items@
                    &&& p.spec_missing() == qtys@
                    &&& p.spec_layout().placed().len() == 0
                },
                Err(e) => e == GeomError::OutOfRange || e == GeomError::InvalidRectangle,
            },
    {
        let bin = match crate::layout::Bin::from_strip(0, strip_width, strip_height, config) {
            Ok(b) => b,
            Err(e) => {
                return Err(e);
            },
        };
        let layout = Layout::new(0, bin);
        let missing_item_qtys = copy_qtys(&qtys);
        Ok(
            SPProblem {
                items,
                qtys,
                layout,
                strip_height,
                strip_width,
                missing_item_qtys,
                solution_id_counter: 0,
            },
        )
    }

    /// The strip width.
    pub fn strip_width(&self) -> (r: i32)
        ensures
            r == self.spec_strip_width(),
    {
        self.strip_width
    }

    /// The strip height.
    pub fn strip_height(&self) -> (r: i32)
        ensures
            r == self.spec_strip_height(),
    {
        self.strip_height
    }

    /// The single layout.
    pub fn layout(&self) -> (r: &Layout)
        ensures
            r == self.spec_layout(),
    {
        &self.layout
    }

    /// The outstanding quantity of each item.
    pub fn missing_item_qtys(&self) -> (r: &Vec<u64>)
        ensures
            r@ == self.spec_missing(),
    {
        &self.missing_item_qtys
    }

    /// Places the item with the given id at the pose and marks one unit of it
    /// as no longer outstanding. Succeeds exactly when the transformed shape
    /// is representable.
    pub fn insert_item(&mut self, item_id: usize, dt: &crate::dtransform::DTransformation) -> (r:
        Result<(), GeomError>)
        requires
            old(self).wf(),
            item_id < old(self).spec_items().len(),
        ensures
            final(self).wf(),
            final(self).spec_items() == old(self).spec_items(),
            final(self).spec_strip_width() == old(self).spec_strip_width(),
            r is Ok <==> placement_representable(old(self).spec_items()[item_id as int], *dt),
            match r {
                Ok(()) => {
                    &&& final(self).spec_layout().placed().len() == old(
                        self,
                    ).spec_layout().placed().len() + 1
                    &&& final(self).spec_layout().placed().last().uid() == (PlacedItemUID {
                        item_id,
                        d_transformation: *dt,
                    })
                    &&& final(self).spec_missing() == old(self).spec_missing().update(
                        item_id as int,
                        sub_one(old(self).spec_missing()[item_id as int]),
                    )
                },
                Err(e) => {
                    &&& (e == GeomError::OutOfRange || e == GeomError::InvalidPolygon)
                    &&& placed_views(final(self).spec_layout().placed()) == placed_views(
                        old(self).spec_layout().placed(),
                    )
                    &&& final(self).spec_missing() == old(self).spec_missing()
                },
            },
    {
        let item = &self.items[item_id];
        match self.layout.place_item(item, dt) {
            Ok(()) => {},
            Err(e) => {
                return Err(e);
            },
        }
        let q = self.missing_item_qtys[item_id];
        let new_q = if q > 0 {
            q - 1
        } else {
            0
        };
        self.missing_item_qtys.set(item_id, new_q);
        Ok(())
    }

    /// Removes the placement with the given identity and marks one unit of
    /// its item as outstanding again. An absent identity is a contract
    /// violation, reported as `NotFound` with the problem unchanged.
    pub fn remove_item(&mut self, pi_uid: &PlacedItemUID, commit_instant: bool) -> (r: Result<
        (),
        GeomError,
    >)
        requires
            old(self).wf(),
        ensures
            final(self).wf(),
            final(self).spec_items() == old(self).spec_items(),
            final(self).spec_strip_width() == old(self).spec_strip_width(),
            match r {
                Ok(()) => final(self).spec_layout().placed().len() + 1 == old(
                    self,
                ).spec_layout().placed().len(),
                Err(e) => {
                    &&& e == GeomError::NotFound
                    &&& forall|i: int|
                        0 <= i < old(self).spec_layout().placed().len() ==> (#[trigger] old(
                            self,
                        ).spec_layout().placed()[i]).uid() != pi_uid
                    &&& final(self).spec_layout() == old(self).spec_layout()
                    &&& final(self).spec_missing() == old(self).spec_missing()
                },
            },
    {
        match self.layout.remove_item(pi_uid, commit_instant) {
            Ok(()) => {},
            Err(e) => {
                return Err(e);
            },
        }
        if pi_uid.item_id < self.missing_item_qtys.len() {
            let q = self.missing_item_qtys[pi_uid.item_id];
            if q < u64::MAX {
                self.missing_item_qtys.set(pi_uid.item_id, q + 1);
            }
        }
        Ok(())
    }

    /// Rebuilds the layout over a strip of the new width, with a fresh
    /// identity, and tries every old placement again in order: a placement is
    /// kept when its item still exists, its pose is still representable and
    /// its fast and exact collision checks pass against what has been placed
    /// before it; the others are dropped and their items marked outstanding.
    /// Succeeds exactly when the new strip dimensions are representable and a
    /// fresh layout identity exists.
    pub fn modify_strip_width(&mut self, new_width: i32) -> (r: Result<(), GeomError>)
        requires
            old(self).wf(),
        ensures
            final(self).wf(),
            final(self).spec_items() == old(self).spec_items(),
            r is Ok <==> (1 <= new_width as int <= crate::point::COORD_LIM && 1 <= old(
                self,
            ).spec_strip_height() as int <= crate::point::COORD_LIM && old(
                self,
            ).spec_layout().spec_id() < usize::MAX),
            match r {
                Ok(()) => {
                    &&& final(self).spec_strip_width() == new_width
                    &&& final(self).spec_layout().spec_id() == old(self).spec_layout().spec_id()
                        + 1
                    &&& (forall|i: int|
                        0 <= i < final(self).spec_layout().placed().len() ==> uid_among(
                            (#[trigger] final(self).spec_layout().placed()[i]).uid(),
                            old(self).spec_layout().placed(),
                        ))
                    &&& final(self).spec_layout().placed().len() <= old(
                        self,
                    ).spec_layout().placed().len()
                },
                Err(e) => {
                    &&& (e == GeomError::OutOfRange || e == GeomError::InvalidRectangle)
                    &&& final(self).spec_strip_width() == old(self).spec_strip_width()
                },
            },
    {
        if self.layout.id() == usize::MAX {
            return Err(GeomError::OutOfRange);
        }
        let next_id = self.layout.id() + 1;
        let config = self.layout.cde().get_config();
        let bin = match crate::layout::Bin::from_strip(
            next_id,
            new_width,
            self.strip_height,
            config,
        ) {
            Ok(b) => b,
            Err(e) => {
                return Err(e);
            },
        };
        // every quantity becomes outstanding again, then each kept placement
        // claims its unit back
        let n_items = self.missing_item_qtys.len();
        let mut qi: usize = 0;
        while qi < n_items
            invariant
                n_items == self.missing_item_qtys@.len(),
                self.spec_qtys().len() == self.spec_missing().len(),
                self.spec_layout() == old(self).spec_layout(),
                self.spec_items() == old(self).spec_items(),
                self.spec_qtys() == old(self).spec_qtys(),
                self.spec_items().len() == self.spec_missing().len(),
                self.spec_strip_height() == old(self).spec_strip_height(),
                self.spec_strip_width() == old(self).spec_strip_width(),
                forall|i: int|
                    0 <= i < self.spec_items().len() ==> (#[trigger] self.spec_items()[i]).spec_id()
                        == i,
                qi <= n_items,
            decreases n_items - qi,
        {
            let q = self.qtys[qi];
            self.missing_item_qtys.set(qi, q);
            qi = qi + 1;
        }
        let old_placed = copy_uids(self.layout.placed_items());
        let mut layout = Layout::new(next_id, bin);
        let ghost old_uids = old_placed@;
        let mut k: usize = 0;
        while k < old_placed.len()
            invariant
                old_placed@ == old_uids,
                self.spec_items().len() == self.spec_missing().len(),
                self.spec_qtys().len() == self.spec_missing().len(),
                self.spec_items() == old(self).spec_items(),
                self.spec_qtys() == old(self).spec_qtys(),
                self.spec_strip_height() == old(self).spec_strip_height(),
                self.spec_strip_width() == old(self).spec_strip_width(),
                forall|i: int|
                    0 <= i < self.spec_items().len() ==> (#[trigger] self.spec_items()[i]).spec_id()
                        == i,
                k <= old_uids.len(),
                layout.wf(),
                layout.spec_id() == next_id,
                forall|i: int|
                    0 <= i < layout.placed().len() ==> uid_in(
                        (#[trigger] layout.placed()[i]).uid(),
                        old_uids,
                    ),
                layout.placed().len() <= k,
            decreases old_placed.len() - k,
        {
            let uid = old_placed[k];
            if uid.item_id < self.items.len() {
                let item = &self.items[uid.item_id];
                let ignored: Vec<HazardEntity> = match item.hazard_filter() {
                    Some(f) => {
                        let filter = *f;
                        let mut ig = ignored_entities(&filter, layout.cde().static_hazards_ref());
                        let mut ig2 = ignored_entities(&filter, layout.cde().dynamic_hazards_ref());
                        ig.append(&mut ig2);
                        ig
                    },
                    None => Vec::new(),
                };
                let keep = match layout.cde().surrogate_collides(
                    item.shape().surrogate(),
                    &uid.d_transformation,
                    &ignored,
                ) {
                    Ok(false) => match item.shape().transform_clone(&uid.d_transformation) {
                        Ok(moved) => !layout.cde().poly_collides(&moved, &ignored),
                        Err(_) => false,
                    },
                    _ => false,
                };
                if keep {
                    let ghost pre = layout.placed();
                    match layout.place_item(item, &uid.d_transformation) {
                        Ok(()) => {
                            proof {
                                assert(old_uids[k as int] == uid);
                                assert(layout.placed().last().uid() == uid);
                                assert forall|i: int|
                                    0 <= i < layout.placed().len() implies uid_in(
                                    (#[trigger] layout.placed()[i]).uid(),
                                    old_uids,
                                ) by {
                                    if i < pre.len() {
                                        assert(layout.placed().subrange(0, pre.len() as int)[i]
                                            == layout.placed()[i]);
                                        assert(layout.placed()[i] == pre[i]);
                                    } else {
                                        assert(layout.placed()[i].uid() == uid);
                                    }
                                }
                            }
                            let q = self.missing_item_qtys[uid.item_id];
                            let new_q = if q > 0 {
                                q - 1
                            } else {
                                0
                            };
                            self.missing_item_qtys.set(uid.item_id, new_q);
                        },
                        Err(_) => {
                            proof {
                                assert(false);
                            }
                        },
                    }
                }
            }
            k = k + 1;
        }
        proof {
            assert forall|i: int|
                0 <= i < layout.placed().len() implies uid_among(
                (#[trigger] layout.placed()[i]).uid(),
                old(self).spec_layout().placed(),
            ) by {
                let u = layout.placed()[i].uid();
                let j = choose|j: int| 0 <= j < old_uids.len() && old_uids[j] == u;
                assert(old(self).spec_layout().placed()[j].uid() == u);
            }
        }
        self.layout = layout;
        self.strip_width = new_width;
        Ok(())
    }

    /// Shrinks (or grows) the strip to the smallest width that reaches past
    /// the right edge of every placement, then rebuilds the layout at that
    /// width as [`SPProblem::modify_strip_width`] does. Placements that touch
    /// the new boundary exactly are dropped by the exact collision check.
    pub fn fit_strip_width(&mut self) -> (r: Result<(), GeomError>)
        requires
            old(self).wf(),
        ensures
            final(self).wf(),
            final(self).spec_items() == old(self).spec_items(),
            r is Ok <==> (1 <= old(self).spec_strip_height() as int <= crate::point::COORD_LIM
                && old(self).spec_layout().spec_id() < usize::MAX),
            match r {
                Ok(()) => final(self).spec_strip_width() as int == fitted_width(
                    old(self).spec_layout().placed(),
                    old(self).spec_layout().placed().len() as int,
                ),
                Err(e) => e == GeomError::OutOfRange || e == GeomError::InvalidRectangle,
            },
    {
        let placed = self.layout.placed_items();
        let n = placed.len();
        let mut w: i32 = 1;
        let mut k: usize = 0;
        while k < n
            invariant
                n == self.spec_layout().placed().len(),
                placed@ == self.spec_layout().placed(),
                k <= n,
                1 <= w as int <= crate::point::COORD_LIM,
                w as int == fitted_width(self.spec_layout().placed(), k as int),
            decreases n - k,
        {
            let bbox = placed[k].get_shape().bbox_cached();
            let b = bbox.get_x_max();
            proof {
                use_type_invariant(b);
                use_type_invariant(bbox);
            }
            let bn = b.numerator();
            let bd = b.denominator();
            if bn > 0 {
                let c = (bn + bd - 1) / bd;
                proof {
                    assert(0 < ((bn as int) + (bd as int) - 1) / (bd as int)
                        <= crate::point::COORD_LIM as int) by (nonlinear_arith)
                        requires
                            0 < bn as int <= crate::point::COORD_LIM as int,
                            0 < bd as int <= crate::point::COORD_LIM as int,
                    ;
                }
                if c > w as i128 {
                    w = c as i32;
                }
            }
            k = k + 1;
        }
        let ghost fitted = w as int;
        let r = self.modify_strip_width(w);
        proof {
            if r is Ok {
                assert(final(self).spec_strip_width() as int == fitted);
            }
        }
        r
    }
}

/// The least integer at least `n / d`, for a positive denominator.
pub open spec fn ceil_div(n: int, d: int) -> int {
    (n + d - 1) / d
}

/// The smallest strip width, at least one, that reaches past the right edge
/// of every one of the first `k` placements.
pub open spec fn fitted_width(ps: Seq<crate::layout::PlacedItem>, k: int) -> int
    decreases k,
{
    if k <= 0 {
        1
    } else {
        let prev = fitted_width(ps, k - 1);
        let b = ps[k - 1].spec_bbox().x_max();
        let c = if b.num() > 0 {
            ceil_div(b.num(), b.den())
        } else {
            0
        };
        if c > prev {
            c
        } else {
            prev
        }
    }
}

/// One less, floored at zero.
pub open spec fn sub_one(q: u64) -> u64 {
    if q > 0 {
        (q - 1) as u64
    } else {
        0
    }
}

/// An element-wise copy of a quantity list.
fn copy_qtys(qs: &Vec<u64>) -> (r: Vec<u64>)
    ensures
        r@ == qs@,
{
    let n = qs.len();
    let mut r: Vec<u64> = Vec::new();
    let mut i: usize = 0;
    while i < n
        invariant
            n == qs@.len(),
            i <= n,
            r@ == qs@.subrange(0, i as int),
        decreases n - i,
    {
        r.push(qs[i]);
        proof {
            assert(r@ =~= qs@.subrange(0, i + 1 as int));
        }
        i = i + 1;
    }
    proof {
        assert(r@ =~= qs@);
    }
    r
}

/// The identities of a placement list, in order.
fn copy_uids(ps: &Vec<crate::layout::PlacedItem>) -> (r: Vec<PlacedItemUID>)
    ensures
        r@.len() == ps@.len(),
        forall|i: int| 0 <= i < ps@.len() ==> #[trigger] r@[i] == ps@[i].uid(),
{
    let n = ps.len();
    let mut r: Vec<PlacedItemUID> = Vec::new();
    let mut i: usize = 0;
    while i < n
        invariant
            n == ps@.len(),
            i <= n,
            r@.len() == i,
            forall|k: int| 0 <= k < i ==> #[trigger] r@[k] == ps@[k].uid(),
        decreases n - i,
    {
        r.push(ps[i].get_uid());
        i = i + 1;
    }
    r
}

} // verus!
