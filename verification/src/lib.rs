//! Geometric core of a 2D irregular cutting-and-packing (nesting) engine.
//!
//! The library answers, at interactive speed, whether placing a shape at a
//! candidate pose inside a bounded region would overlap anything already
//! placed, and maintains the spatial bookkeeping that makes thousands of such
//! trial placements tractable for an external search procedure.
//!
//! All geometry is carried out in exact rational arithmetic: coordinates,
//! transformation matrices, areas and distances are fractions of machine
//! integers, so every collision predicate is decided exactly, with no
//! rounding and no degenerate "almost equal" cases. Values that cannot be
//! represented within the fixed precision budget are rejected at
//! construction, mirroring the fail-fast treatment of malformed input.

use vstd::prelude::*;

pub mod frac;
pub mod point;
pub mod edge;
pub mod rect;
pub mod geo_traits;
pub mod circle;
pub mod polygon;
pub mod surrogate;
pub mod dtransform;
pub mod hazard;
pub mod cde;
pub mod item;
pub mod layout;
pub mod color;
pub mod problem;

pub use frac::Frac;

verus! {

/// The ways in which a geometric value can be rejected.
///
/// `OutOfRange` marks a value that exact arithmetic cannot represent within
/// the fixed precision budget; the remaining variants mark malformed input or
/// contract violations, which fail fast at construction or at the call.
#[derive(Clone, Copy, Debug, PartialEq, Eq, Structural)]
pub enum GeomError {
    /// A fraction left the representable range, even after reduction.
    OutOfRange,
    /// A fraction was given a zero denominator.
    ZeroDenominator,
    /// An edge was given two equal endpoints.
    DegenerateEdge,
    /// A rectangle was given an upper bound below its lower bound.
    InvalidRectangle,
    /// A circle was given a negative radius.
    InvalidRadius,
    /// A polygon had fewer than three vertices or intersected itself.
    InvalidPolygon,
    /// A snapshot was restored onto a layout with a different identity.
    IdMismatch,
    /// A placement to remove was not present in the layout.
    NotFound,
    /// A rotation was given a cosine/sine pair that does not lie on the unit
    /// circle.
    NotOnUnitCircle,
}

} // verus!
