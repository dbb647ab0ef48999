//! Shared traits of the geometric primitives.
//!
//! Each trait carries a specification member that the implementing type
//! defines; the executable methods are then bound to that specification by
//! their contracts. Distances are kept squared throughout: the primitives are
//! exact rational geometry, and a squared distance is rational where the
//! distance itself usually is not.

use vstd::prelude::*;

verus! {

use crate::frac::Frac;
use crate::point::Point;
use crate::rect::AARectangle;
use crate::GeomError;

/// Whether a query point lies in the interior or the exterior of a region.
#[derive(Clone, Copy, Debug, PartialEq, Eq, Structural)]
pub enum GeoPosition {
    Interior,
    Exterior,
}

/// Types that can detect collisions between themselves and a `T`.
pub trait CollidesWith<T> {
    /// What it means for `self` and `other` to collide.
    spec fn collides_spec(&self, other: &T) -> bool;

    /// Exact collision test.
    fn collides_with(&self, other: &T) -> (r: bool)
        ensures
            r == self.collides_spec(other),
    ;
}

/// Types that can detect almost-collisions between themselves and a `T`,
/// leaning towards false positives. With exact rational arithmetic no
/// precision slack is needed, so implementations may coincide with the exact
/// test; the trait keeps the lean-positive reading in its contract.
pub trait AlmostCollidesWith<T> {
    /// What the lenient test reports.
    spec fn almost_collides_spec(&self, other: &T) -> bool;

    /// Lenient collision test: never false where the exact test is true.
    fn almost_collides_with(&self, other: &T) -> (r: bool)
        ensures
            r == self.almost_collides_spec(other),
    ;
}

/// Geometric primitives that can calculate squared distances to a `T`.
pub trait DistanceFrom<T> {
    /// How a squared distance result relates to the two primitives.
    spec fn sq_distance_rel(&self, other: &T, f: Frac) -> bool;

    /// Whether the exact squared distance is representable; the queries
    /// succeed exactly then.
    spec fn sq_distance_fits(&self, other: &T) -> bool;

    /// How a squared border distance and a position relate to the two
    /// primitives.
    spec fn sq_border_rel(&self, other: &T, pos: GeoPosition, f: Frac) -> bool;

    /// Squared distance between the two primitives; `Err` exactly when the
    /// exact value leaves the representable range.
    fn sq_distance(&self, other: &T) -> (r: Result<Frac, GeomError>)
        ensures
            r is Ok <==> self.sq_distance_fits(other),
            match r {
                Ok(f) => self.sq_distance_rel(other, f),
                Err(e) => e == GeomError::OutOfRange,
            },
    ;

    /// Squared distance from `other` to the boundary of `self`, and whether
    /// `other` lies in the interior or the exterior of `self`.
    fn sq_distance_from_border(&self, other: &T) -> (r: Result<(GeoPosition, Frac), GeomError>)
        ensures
            r is Ok <==> self.sq_distance_fits(other),
            match r {
                Ok(pf) => self.sq_border_rel(other, pf.0, pf.1),
                Err(e) => e == GeomError::OutOfRange,
            },
    ;
}

/// Shared properties of geometric primitives.
pub trait Shape {
    /// How the centroid relates to the shape.
    spec fn centroid_rel(&self, p: Point) -> bool;

    /// Whether the exact centroid is representable; `centroid` succeeds
    /// exactly then.
    spec fn centroid_fits(&self) -> bool;

    /// Cleared-denominator numerator of the area.
    spec fn area_num(&self) -> int;

    /// Denominator of the area; positive.
    spec fn area_den(&self) -> int;

    /// How the bounding box relates to the shape.
    spec fn bbox_rel(&self, b: AARectangle) -> bool;

    /// Whether the exact bounding box is representable; `bbox` succeeds
    /// exactly then.
    spec fn bbox_fits(&self) -> bool;

    /// How a squared diameter relates to the shape.
    spec fn sq_diameter_rel(&self, f: Frac) -> bool;

    /// Whether the exact squared diameter is representable; `sq_diameter`
    /// succeeds exactly then.
    spec fn sq_diameter_fits(&self) -> bool;

    /// Geometric center of the shape; `Err` exactly when its reduced
    /// coordinates leave the precision budget.
    fn centroid(&self) -> (r: Result<Point, GeomError>)
        ensures
            r is Ok <==> self.centroid_fits(),
            match r {
                Ok(p) => self.centroid_rel(p),
                Err(e) => e == GeomError::OutOfRange,
            },
    ;

    /// Exact area of the interior of the shape.
    fn area(&self) -> (r: Frac)
        ensures
            r.num() * self.area_den() == self.area_num() * r.den(),
    ;

    /// Bounding box of the shape; `Err` exactly when its exact bounds leave
    /// the precision budget.
    fn bbox(&self) -> (r: Result<AARectangle, GeomError>)
        ensures
            r is Ok <==> self.bbox_fits(),
            match r {
                Ok(b) => self.bbox_rel(b),
                Err(e) => e == GeomError::OutOfRange,
            },
    ;

    /// Squared distance between the two furthest points of the shape.
    fn sq_diameter(&self) -> (r: Result<Frac, GeomError>)
        ensures
            r is Ok <==> self.sq_diameter_fits(),
            match r {
                Ok(f) => self.sq_diameter_rel(f),
                Err(e) => e == GeomError::OutOfRange,
            },
    ;
}

} // verus!
