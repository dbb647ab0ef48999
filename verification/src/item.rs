//! Placement templates: the immutable items a layout places.
//!
//! An item is created once, at instance-load time: its shape receives a
//! fail-fast surrogate, its allowed-orientation domain, objective value and
//! optional base quality are fixed, and a centering pose records how the
//! reference shape was brought to the origin. Identity is by id.

use vstd::prelude::*;

verus! {

use crate::frac::Frac;
use crate::polygon::SimplePolygon;
use crate::surrogate::SPSurrogateConfig;
use crate::dtransform::{DTransformation, Rotation};
use crate::hazard::QZHazardFilter;
use crate::GeomError;

/// The orientations a placement may use: a continuous angular range, in
/// turns, or a discrete set of exact rotations.
#[derive(Debug)]
pub enum AllowedOrients {
    /// Any angle within `[start, end]`, in turns.
    Range(Frac, Frac),
    /// One of the listed exact rotations.
    Discrete(Vec<Rotation>),
}

/// The view of an orientation domain: the range bounds where it is a range,
/// the listed rotations where it is discrete.
pub open spec fn orients_view(o: AllowedOrients) -> (Option<(Frac, Frac)>, Seq<Rotation>) {
    match o {
        AllowedOrients::Range(a, b) => (Some((a, b)), Seq::empty()),
        AllowedOrients::Discrete(rs) => (None, rs@),
    }
}

impl AllowedOrients {
    /// The full circle: every orientation is allowed.
    pub fn full_range() -> (r: AllowedOrients)
        ensures
            match r {
                AllowedOrients::Range(a, b) => a.num() == 0 && a.den() == 1 && b.num() == 1
                    && b.den() == 1,
                _ => false,
            },
    {
        AllowedOrients::Range(Frac::zero(), Frac::one())
    }
}

/// An immutable placement template.
#[derive(Debug)]
pub struct Item {
    id: usize,
    shape: SimplePolygon,
    allowed_orientations: AllowedOrients,
    base_quality: Option<usize>,
    value: u64,
    centering_transform: DTransformation,
    hazard_filter: Option<QZHazardFilter>,
}

impl Item {
    /// The identifier.
    pub closed spec fn spec_id(self) -> usize {
        self.id
    }

    /// The shape's vertex cycle.
    pub closed spec fn shape_points(self) -> Seq<crate::point::Point> {
        self.shape.points()
    }

    /// The shape.
    pub closed spec fn spec_shape(self) -> SimplePolygon {
        self.shape
    }

    /// The objective value.
    pub closed spec fn spec_value(self) -> u64 {
        self.value
    }

    /// The base quality, if any.
    pub closed spec fn spec_base_quality(self) -> Option<usize> {
        self.base_quality
    }

    /// The hazard filter derived from the base quality.
    pub closed spec fn spec_hazard_filter(self) -> Option<QZHazardFilter> {
        self.hazard_filter
    }

    /// The centering pose.
    pub closed spec fn spec_centering_transform(self) -> DTransformation {
        self.centering_transform
    }

    /// The allowed-orientation domain.
    pub closed spec fn spec_allowed_orientations(self) -> (Option<(Frac, Frac)>, Seq<Rotation>) {
        orients_view(self.allowed_orientations)
    }

    /// The shape always carries a surrogate, and the filter mirrors the base
    /// quality.
    #[verifier::type_invariant]
    pub open spec fn wf(self) -> bool {
        &&& self.spec_shape().spec_surrogate() is Some
        &&& self.spec_hazard_filter() == match self.spec_base_quality() {
            Some(q) => Some(QZHazardFilter { base_quality: q }),
            None => None::<QZHazardFilter>,
        }
    }

    /// Builds an item: generates the shape's surrogate with the given
    /// configuration and derives the hazard filter from the base quality.
    /// Fails exactly when surrogate generation leaves the precision budget.
    pub fn new(
        id: usize,
        shape: SimplePolygon,
        value: u64,
        allowed_orientations: AllowedOrients,
        centering_transform: DTransformation,
        base_quality: Option<usize>,
        surrogate_config: SPSurrogateConfig,
    ) -> (r: Result<Item, GeomError>)
        ensures
            r is Ok <==> crate::surrogate::surrogate_representable(
                shape.points(),
                shape.spec_bbox(),
            ),
            match r {
                Ok(item) => {
                    &&& item.spec_id() == id
                    &&& item.shape_points() == shape.points()
                    &&& item.spec_value() == value
                    &&& item.spec_base_quality() == base_quality
                    &&& item.spec_centering_transform() == centering_transform
                    &&& item.spec_allowed_orientations() == orients_view(allowed_orientations)
                    &&& item.spec_shape().spec_surrogate()->Some_0.spec_config()
                        == surrogate_config
                    &&& item.spec_hazard_filter() == match base_quality {
                        Some(q) => Some(QZHazardFilter { base_quality: q }),
                        None => None::<QZHazardFilter>,
                    }
                },
                Err(e) => e == GeomError::OutOfRange,
            },
    {
        let mut owned_shape = shape;
        match owned_shape.generate_surrogate(surrogate_config) {
            Ok(()) => {},
            Err(e) => {
                return Err(e);
            },
        }
        let hazard_filter = match base_quality {
            Some(q) => Some(QZHazardFilter { base_quality: q }),
            None => None,
        };
        Ok(
            Item {
                id,
                shape: owned_shape,
                allowed_orientations,
                base_quality,
                value,
                centering_transform,
                hazard_filter,
            },
        )
    }

    /// The same item under a different identifier.
    pub fn clone_with_id(&self, id: usize) -> (r: Item)
        ensures
            r.spec_id() == id,
            r.shape_points() == self.shape_points(),
            r.spec_value() == self.spec_value(),
            r.spec_base_quality() == self.spec_base_quality(),
            r.spec_centering_transform() == self.spec_centering_transform(),
            r.spec_allowed_orientations() == self.spec_allowed_orientations(),
            r.spec_hazard_filter() == self.spec_hazard_filter(),
    {
        proof {
            use_type_invariant(self);
        }
        let allowed_orientations = match &self.allowed_orientations {
            AllowedOrients::Range(a, b) => AllowedOrients::Range(*a, *b),
            AllowedOrients::Discrete(rs) => AllowedOrients::Discrete(copy_rotations(rs)),
        };
        Item {
            id,
            shape: self.shape.deep_copy(),
            allowed_orientations,
            base_quality: self.base_quality,
            value: self.value,
            centering_transform: self.centering_transform,
            hazard_filter: self.hazard_filter,
        }
    }

    /// The shape.
    pub fn shape(&self) -> (r: &SimplePolygon)
        ensures
            r.points() == self.shape_points(),
            r.spec_surrogate() is Some,
    {
        proof {
            use_type_invariant(self);
        }
        &self.shape
    }

    /// The identifier.
    pub fn id(&self) -> (r: usize)
        ensures
            r == self.spec_id(),
    {
        self.id
    }

    /// The objective value.
    pub fn value(&self) -> (r: u64)
        ensures
            r == self.spec_value(),
    {
        self.value
    }

    /// The centering pose.
    pub fn centering_transform(&self) -> (r: DTransformation)
        ensures
            r == self.spec_centering_transform(),
    {
        proof {
            use_type_invariant(self);
        }
        self.centering_transform
    }

    /// The base quality, if any.
    pub fn base_quality(&self) -> (r: Option<usize>)
        ensures
            r == self.spec_base_quality(),
    {
        self.base_quality
    }

    /// The hazard filter derived from the base quality.
    pub fn hazard_filter(&self) -> (r: Option<&QZHazardFilter>)
        ensures
            match r {
                Some(f) => self.spec_hazard_filter() == Some(*f),
                None => self.spec_hazard_filter() is None,
            },
    {
        self.hazard_filter.as_ref()
    }

    /// The allowed-orientation domain.
    pub fn allowed_orientations(&self) -> (r: &AllowedOrients)
        ensures
            orients_view(*r) == self.spec_allowed_orientations(),
    {
        &self.allowed_orientations
    }
}

impl PartialEq for Item {
    /// Equality and identity of items is by id.
    fn eq(&self, other: &Item) -> (r: bool) {
        self.id == other.id
    }
}

impl vstd::std_specs::cmp::PartialEqSpecImpl for Item {
    open spec fn obeys_eq_spec() -> bool {
        true
    }

    open spec fn eq_spec(&self, other: &Item) -> bool {
        self.spec_id() == other.spec_id()
    }
}

/// An element-wise copy of a rotation list.
fn copy_rotations(rs: &Vec<Rotation>) -> (r: Vec<Rotation>)
    ensures
        r@ == rs@,
{
    let n = rs.len();
    let mut r: Vec<Rotation> = Vec::new();
    let mut i: usize = 0;
    while i < n
        invariant
            n == rs@.len(),
            i <= n,
            r@ == rs@.subrange(0, i as int),
        decreases n - i,
    {
        r.push(rs[i]);
        proof {
            assert(r@ =~= rs@.subrange(0, i + 1 as int));
        }
        i = i + 1;
    }
    proof {
        assert(r@ =~= rs@);
    }
    r
}

} // verus!
