//! Hazards: the obstacles tracked by the collision engine.
//!
//! A hazard couples an entity — the identity of a placed item, the bin
//! exterior, or an inferior quality zone — with its polygonal footprint. A
//! quality-zone filter names the entities an item of a given base quality is
//! allowed to ignore.

use vstd::prelude::*;

verus! {

use crate::polygon::SimplePolygon;
use crate::dtransform::DTransformation;

/// The identity of one placement: the item it places and the exact pose.
#[derive(Clone, Copy, Debug, PartialEq, Eq, Structural)]
pub struct PlacedItemUID {
    /// The identifier of the placed item.
    pub item_id: usize,
    /// The pose the item was placed with.
    pub d_transformation: DTransformation,
}

/// The entity a hazard stands for.
#[derive(Clone, Copy, Debug, PartialEq, Eq, Structural)]
pub enum HazardEntity {
    /// A placed item, identified by its placement.
    PlacedItem(PlacedItemUID),
    /// The region outside the bin.
    BinExterior,
    /// A quality zone of the given quality level.
    QualityZoneInferior { quality: usize, id: usize },
}

/// Ignores every quality zone whose quality is at least the item's own base
/// quality.
#[derive(Clone, Copy, Debug, PartialEq, Eq, Structural)]
pub struct QZHazardFilter {
    /// The base quality of the item the filter belongs to.
    pub base_quality: usize,
}

/// Whether the filter lets an item ignore the entity.
pub open spec fn filter_ignores(f: QZHazardFilter, e: HazardEntity) -> bool {
    match e {
        HazardEntity::QualityZoneInferior { quality, id } => quality >= f.base_quality,
        _ => false,
    }
}

/// An obstacle: an entity with its polygonal footprint.
#[derive(Debug)]
pub struct Hazard {
    entity: HazardEntity,
    shape: SimplePolygon,
}

/// The entities of a hazard list that a filter ignores, in order.
pub open spec fn ignored_of(f: QZHazardFilter, hs: Seq<Hazard>) -> Seq<HazardEntity>
    decreases hs.len(),
{
    if hs.len() == 0 {
        Seq::empty()
    } else {
        let rest = ignored_of(f, hs.drop_last());
        if filter_ignores(f, hs.last().entity()) {
            rest.push(hs.last().entity())
        } else {
            rest
        }
    }
}

impl Hazard {
    /// The entity the hazard stands for.
    pub closed spec fn entity(self) -> HazardEntity {
        self.entity
    }

    /// The vertex cycle of the footprint.
    pub closed spec fn shape_points(self) -> Seq<crate::point::Point> {
        self.shape.points()
    }

    /// Builds the hazard.
    pub fn new(entity: HazardEntity, shape: SimplePolygon) -> (r: Hazard)
        ensures
            r.entity() == entity,
            r.shape_points() == shape.points(),
    {
        Hazard { entity, shape }
    }

    /// The entity the hazard stands for.
    pub fn get_entity(&self) -> (r: HazardEntity)
        ensures
            r == self.entity(),
    {
        self.entity
    }

    /// The footprint.
    pub fn get_shape(&self) -> (r: &SimplePolygon)
        ensures
            r.points() == self.shape_points(),
    {
        &self.shape
    }

    /// An exact copy of the hazard.
    pub fn deep_copy(&self) -> (r: Hazard)
        ensures
            r.entity() == self.entity(),
            r.shape_points() == self.shape_points(),
    {
        Hazard { entity: self.entity, shape: self.shape.deep_copy() }
    }
}

/// The entities of `hazards` that the filter lets an item ignore, in order.
pub fn ignored_entities(filter: &QZHazardFilter, hazards: &Vec<Hazard>) -> (r: Vec<HazardEntity>)
    ensures
        r@ == ignored_of(*filter, hazards@),
{
    let n = hazards.len();
    let mut r: Vec<HazardEntity> = Vec::new();
    let mut i: usize = 0;
    while i < n
        invariant
            n == hazards@.len(),
            i <= n,
            r@ == ignored_of(*filter, hazards@.subrange(0, i as int)),
        decreases n - i,
    {
        let e = hazards[i].get_entity();
        let keep = match e {
            HazardEntity::QualityZoneInferior { quality, id } => quality >= filter.base_quality,
            _ => false,
        };
        if keep {
            r.push(e);
        }
        proof {
            let pre = hazards@.subrange(0, i as int);
            let post = hazards@.subrange(0, i + 1 as int);
            assert(post.drop_last() =~= pre);
            assert(post.last() == hazards@[i as int]);
        }
        i = i + 1;
    }
    proof {
        assert(hazards@.subrange(0, n as int) =~= hazards@);
    }
    r
}

} // verus!
