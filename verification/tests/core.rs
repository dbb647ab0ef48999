use jaguars::Frac;
use jaguars::GeomError;
use jaguars::cde::CDEConfig;
use jaguars::circle::Circle;
use jaguars::color::{Color, blend_colors, change_brightness};
use jaguars::dtransform::{DTransformation, Rotation};
use jaguars::edge::Edge;
use jaguars::geo_traits::{AlmostCollidesWith, CollidesWith, DistanceFrom};
use jaguars::hazard::{Hazard, HazardEntity, PlacedItemUID, QZHazardFilter, ignored_entities};
use jaguars::item::{AllowedOrients, Item};
use jaguars::layout::{Bin, Layout};
use jaguars::point::Point;
use jaguars::polygon::SimplePolygon;
use jaguars::problem::SPProblem;
use jaguars::rect::AARectangle;
use jaguars::surrogate::SPSurrogateConfig;

fn fr(n: i64, d: i64) -> Frac {
    Frac::new(n, d).unwrap()
}

fn pt(x: i32, y: i32) -> Point {
    Point::new_int(x, y).unwrap()
}

fn square(x0: i32, y0: i32, side: i32) -> SimplePolygon {
    let pts = vec![
        pt(x0, y0),
        pt(x0 + side, y0),
        pt(x0 + side, y0 + side),
        pt(x0, y0 + side),
    ];
    SimplePolygon::new(pts).unwrap()
}

fn config() -> CDEConfig {
    CDEConfig {
        quadtree_depth: 5,
        hpg_n_cells: 2000,
        item_surrogate_config: SPSurrogateConfig {
            pole_coverage_goal: fr(9, 10),
            max_poles: 10,
            n_ff_poles: 4,
            n_ff_piers: 0,
        },
    }
}

#[test]
fn frac_arithmetic_is_exact() {
    let a = fr(1, 2);
    let b = fr(1, 3);
    let s = a.checked_add(&b).unwrap();
    assert_eq!(s.numerator(), 5);
    assert_eq!(s.denominator(), 6);
    let p = a.checked_mul(&b).unwrap();
    assert_eq!(p.numerator(), 1);
    assert_eq!(p.denominator(), 6);
    let q = a.checked_div(&b).unwrap();
    assert_eq!(q.numerator(), 3);
    assert_eq!(q.denominator(), 2);
    let d = a.checked_sub(&b).unwrap();
    assert_eq!(d.numerator(), 1);
    assert_eq!(d.denominator(), 6);
    assert!(b.lt(&a));
    assert!(b.le(&a));
    assert!(fr(2, 4).eq_val(&fr(1, 2)));
    assert_eq!(
        Frac::new(1, 0).unwrap_err(),
        GeomError::ZeroDenominator
    );
    // reduced on construction, sign on the numerator
    let c = fr(4, -6);
    assert_eq!(c.numerator(), -2);
    assert_eq!(c.denominator(), 3);
}

#[test]
fn frac_sqrt_upper_bound() {
    let two = Frac::from_int(2);
    let u = two.sqrt_ub().unwrap();
    // u * u >= 2
    let sq = u.checked_mul(&u).unwrap();
    assert!(two.le(&sq));
}

#[test]
fn point_rejects_out_of_range() {
    assert_eq!(Point::new_int(300, 0).unwrap_err(), GeomError::OutOfRange);
    let p = Point::new(&fr(1, 2), &fr(-3, 4)).unwrap();
    assert_eq!(p.x().numerator(), 2);
    assert_eq!(p.x().denominator(), 4);
    let q = Point::new(&fr(2, 4), &fr(-6, 8)).unwrap();
    assert!(p.eq_point(&q));
}

#[test]
fn point_squared_distance() {
    let a = pt(0, 0);
    let b = pt(3, 4);
    let d = a.sq_distance(&b);
    assert!(d.eq_val(&Frac::from_int(25)));
}

#[test]
fn edge_rejects_degenerate() {
    let a = pt(1, 1);
    let b = Point::new(&fr(2, 2), &fr(3, 3)).unwrap();
    assert_eq!(Edge::new(a, b).unwrap_err(), GeomError::DegenerateEdge);
}

#[test]
fn edge_intersection_reports_exact_point() {
    let e1 = Edge::new(pt(0, 0), pt(2, 2)).unwrap();
    let e2 = Edge::new(pt(0, 2), pt(2, 0)).unwrap();
    assert!(e1.collides_with(&e2));
    let p = e1.collides_at(&e2).unwrap().unwrap();
    assert!(p.eq_point(&pt(1, 1)));
    // parallel segments never collide, collinear overlap included
    let e3 = Edge::new(pt(0, 1), pt(2, 3)).unwrap();
    assert!(!e1.collides_with(&e3));
    assert!(e1.collides_at(&e3).unwrap().is_none());
    let r = e1.reverse();
    assert!(r.start().eq_point(&pt(2, 2)));
    assert!(r.end().eq_point(&pt(0, 0)));
    assert!(e1.x_min().eq_val(&Frac::from_int(0)));
    assert!(e1.x_max().eq_val(&Frac::from_int(2)));
    assert!(e1.y_min().eq_val(&Frac::from_int(0)));
    assert!(e1.y_max().eq_val(&Frac::from_int(2)));
}

#[test]
fn rect_collisions_and_area() {
    let r1 = AARectangle::new(fr(0, 1), fr(0, 1), fr(4, 1), fr(2, 1)).unwrap();
    let r2 = AARectangle::new(fr(3, 1), fr(1, 1), fr(6, 1), fr(5, 1)).unwrap();
    let r3 = AARectangle::new(fr(5, 1), fr(3, 1), fr(8, 1), fr(6, 1)).unwrap();
    assert!(r1.collides_with(&r2));
    assert!(r1.almost_collides_with(&r2));
    assert!(!r1.collides_with(&r3));
    assert!(r1.area().eq_val(&Frac::from_int(8)));
    assert!(r1.collides_with(&pt(1, 1)));
    assert!(!r1.collides_with(&pt(5, 5)));
    assert_eq!(
        AARectangle::new(fr(4, 1), fr(0, 1), fr(0, 1), fr(2, 1)).unwrap_err(),
        GeomError::InvalidRectangle
    );
    let c = r1.centroid().unwrap();
    assert!(c.eq_point(&Point::new(&fr(2, 1), &fr(1, 1)).unwrap()));
    let (tl, tr, bl, br) = r1.quadrants().unwrap();
    assert!(tl.get_x_max().eq_val(&fr(2, 1)));
    assert!(tr.get_x_min().eq_val(&fr(2, 1)));
    assert!(bl.get_y_max().eq_val(&fr(1, 1)));
    assert!(br.get_y_max().eq_val(&fr(1, 1)));
}

#[test]
fn circle_collisions() {
    let c1 = Circle::new(pt(0, 0), fr(2, 1)).unwrap();
    let c2 = Circle::new(pt(5, 0), fr(3, 1)).unwrap();
    let c3 = Circle::new(pt(10, 0), fr(1, 1)).unwrap();
    assert!(c1.collides_with(&c2)); // touching counts
    assert!(!c1.collides_with(&c3));
    assert!(c1.collides_with(&pt(1, 1)));
    assert!(!c1.collides_with(&pt(2, 2)));
    let e = Edge::new(pt(-3, 1), pt(3, 1)).unwrap();
    assert!(c1.collides_with(&e));
    let far = Edge::new(pt(-3, 5), pt(3, 5)).unwrap();
    assert!(!c1.collides_with(&far));
    let r = AARectangle::new(fr(1, 1), fr(1, 1), fr(4, 1), fr(4, 1)).unwrap();
    assert!(c1.collides_with(&r));
    let far_rect = AARectangle::new(fr(3, 1), fr(3, 1), fr(4, 1), fr(4, 1)).unwrap();
    assert!(!c1.collides_with(&far_rect));
    assert_eq!(
        Circle::new(pt(0, 0), fr(-1, 1)).unwrap_err(),
        GeomError::InvalidRadius
    );
}

#[test]
fn polygon_validity() {
    // fewer than three points
    let two = vec![pt(0, 0), pt(1, 0)];
    assert_eq!(
        SimplePolygon::new(two).unwrap_err(),
        GeomError::InvalidPolygon
    );
    // self-intersecting bowtie
    let bowtie = vec![pt(0, 0), pt(2, 2), pt(2, 0), pt(0, 2)];
    assert_eq!(
        SimplePolygon::new(bowtie).unwrap_err(),
        GeomError::InvalidPolygon
    );
    // repeated consecutive vertex
    let repeated = vec![pt(0, 0), pt(0, 0), pt(1, 0), pt(1, 1)];
    assert_eq!(
        SimplePolygon::new(repeated).unwrap_err(),
        GeomError::InvalidPolygon
    );
    let sq = square(0, 0, 2);
    assert_eq!(sq.number_of_points(), 4);
    assert!(sq.area_cached().eq_val(&Frac::from_int(4)));
    let b = sq.bbox_cached();
    assert!(b.get_x_max().eq_val(&Frac::from_int(2)));
    assert!(sq.contains_point(&pt(1, 1)));
    assert!(!sq.contains_point(&pt(3, 1)));
}

#[test]
fn polygon_collisions() {
    let a = square(0, 0, 2);
    let b = square(1, 1, 2);
    let c = square(5, 5, 2);
    let inner = square(0, 0, 4); // contains a? no: shares corner; use real containment below
    assert!(a.collides_with(&b));
    assert!(!a.collides_with(&c));
    assert!(inner.collides_with(&a));
    // full containment, no edge contact
    let tiny = square(1, 1, 1);
    let big = square(0, 0, 4);
    assert!(big.collides_with(&tiny));
    assert!(tiny.collides_with(&big));
    // circle against polygon
    let circ = Circle::new(pt(1, 1), fr(1, 2)).unwrap();
    assert!(big.collides_with(&circ));
    let far = Circle::new(pt(10, 10), fr(1, 2)).unwrap();
    assert!(!big.collides_with(&far));
}

#[test]
fn polygon_transform() {
    let sq = square(0, 0, 2);
    // rotate by the exact rotation (3/5, 4/5) and translate by (1, 0)
    let rot = Rotation::new(fr(3, 5), fr(4, 5)).unwrap();
    let dt = DTransformation::new(rot, (fr(1, 1), fr(0, 1))).unwrap();
    let moved = sq.transform_clone(&dt).unwrap();
    // (2, 0) maps to (3/5 * 2 + 1, 4/5 * 2) = (11/5, 8/5)
    let img = moved.point_at(1);
    let expect = Point::new(&fr(11, 5), &fr(8, 5)).unwrap();
    assert!(img.eq_point(&expect));
    // rotation preserves the area
    assert!(moved.area_cached().eq_val(&sq.area_cached()));
}

#[test]
fn rotation_must_lie_on_unit_circle() {
    assert_eq!(
        Rotation::new(fr(1, 1), fr(1, 1)).unwrap_err(),
        GeomError::NotOnUnitCircle
    );
    let r = Rotation::new(fr(5, 13), fr(-12, 13)).unwrap();
    assert_eq!(r.get_cos().numerator(), 5);
    assert_eq!(r.get_sin().numerator(), -12);
}

#[test]
fn pose_maps_points_exactly() {
    let rot = Rotation::new(fr(3, 5), fr(4, 5)).unwrap();
    let dt = DTransformation::new(rot, (fr(0, 1), fr(0, 1))).unwrap();
    let p = pt(5, 0);
    let q = dt.transform_point(&p).unwrap();
    assert!(q.eq_point(&pt(3, 4)));
    let idp = DTransformation::empty().transform_point(&p).unwrap();
    assert!(idp.eq_point(&p));
}

#[test]
fn surrogate_covers_vertices() {
    let mut sq = square(0, 0, 2);
    assert!(!sq.has_surrogate());
    sq.generate_surrogate(config().item_surrogate_config).unwrap();
    assert!(sq.has_surrogate());
    let s = sq.surrogate();
    let poles = s.get_poles();
    assert!(poles.len() >= 1);
    // the covering pole contains every vertex
    for i in 0..sq.number_of_points() {
        assert!(poles[0].collides_with(&sq.point_at(i)));
    }
}

#[test]
fn hazard_filter_ignores_inferior_zones() {
    let zone = Hazard::new(
        HazardEntity::QualityZoneInferior { quality: 3, id: 0 },
        square(0, 0, 1),
    );
    let strong_zone = Hazard::new(
        HazardEntity::QualityZoneInferior { quality: 1, id: 1 },
        square(1, 1, 1),
    );
    let boundary = Hazard::new(HazardEntity::BinExterior, square(0, 0, 8));
    let hazards = vec![zone, strong_zone, boundary];
    let filter = QZHazardFilter { base_quality: 2 };
    let ignored = ignored_entities(&filter, &hazards);
    assert_eq!(ignored.len(), 1);
    assert_eq!(
        ignored[0],
        HazardEntity::QualityZoneInferior { quality: 3, id: 0 }
    );
}

#[test]
fn bin_from_strip() {
    let bin = Bin::from_strip(0, 10, 10, config()).unwrap();
    assert_eq!(bin.get_id(), 0);
    assert!(bin.outer().area_cached().eq_val(&Frac::from_int(100)));
}

// Example scenario: a unit square in a 10 x 10 bin uses 1% of the bin; a
// small piece placed inside the square must collide with it.
#[test]
fn scenario_unit_square_in_strip_bin() {
    let bin = Bin::from_strip(0, 10, 10, config()).unwrap();
    let mut layout = Layout::new(0, bin);
    assert!(layout.is_empty());
    let item = Item::new(
        0,
        square(0, 0, 1),
        1,
        AllowedOrients::full_range(),
        DTransformation::empty(),
        None,
        config().item_surrogate_config,
    )
    .unwrap();
    layout.place_item(&item, &DTransformation::empty()).unwrap();
    assert!(!layout.is_empty());
    let usage = layout.usage().unwrap();
    assert_eq!(usage.numerator(), 1);
    assert_eq!(usage.denominator(), 100);

    // a second item placed around (5, 5), overlapping nothing
    let item2 = Item::new(
        1,
        square(-1, -1, 2),
        1,
        AllowedOrients::full_range(),
        DTransformation::empty(),
        None,
        config().item_surrogate_config,
    )
    .unwrap();
    let at_5_5 = DTransformation::new(Rotation::identity(), (fr(5, 1), fr(5, 1))).unwrap();
    let moved2 = item2.shape().transform_clone(&at_5_5).unwrap();
    assert!(!layout.cde().poly_collides(&moved2, &vec![]));
    layout.place_item(&item2, &at_5_5).unwrap();

    // a third small piece at (0.4, 0.4)-(0.6, 0.6), inside the unit square,
    // must collide, ignoring no entities at all
    let tiny_pts = vec![
        Point::new(&fr(2, 5), &fr(2, 5)).unwrap(),
        Point::new(&fr(3, 5), &fr(2, 5)).unwrap(),
        Point::new(&fr(3, 5), &fr(3, 5)).unwrap(),
        Point::new(&fr(2, 5), &fr(3, 5)).unwrap(),
    ];
    let tiny_piece = SimplePolygon::new(tiny_pts).unwrap();
    assert!(layout.cde().poly_collides(&tiny_piece, &vec![]));

    // surrogate fast path must also report the collision for the tiny piece
    let mut tiny_item_shape = tiny_piece.deep_copy();
    tiny_item_shape
        .generate_surrogate(config().item_surrogate_config)
        .unwrap();
    let hit = layout
        .cde()
        .surrogate_collides(
            tiny_item_shape.surrogate(),
            &DTransformation::empty(),
            &vec![],
        )
        .unwrap();
    assert!(hit);
}

// Removal exactness: removing an absent identity fails; removing a present
// one decreases the count by exactly one and frees its area in usage().
#[test]
fn removal_exactness() {
    let bin = Bin::from_strip(0, 10, 10, config()).unwrap();
    let mut layout = Layout::new(0, bin);
    let item = Item::new(
        0,
        square(0, 0, 1),
        1,
        AllowedOrients::full_range(),
        DTransformation::empty(),
        None,
        config().item_surrogate_config,
    )
    .unwrap();
    layout.place_item(&item, &DTransformation::empty()).unwrap();
    assert_eq!(layout.placed_items().len(), 1);

    let absent = PlacedItemUID {
        item_id: 77,
        d_transformation: DTransformation::empty(),
    };
    assert_eq!(
        layout.remove_item(&absent, true).unwrap_err(),
        GeomError::NotFound
    );
    assert_eq!(layout.placed_items().len(), 1);

    let present = PlacedItemUID {
        item_id: 0,
        d_transformation: DTransformation::empty(),
    };
    layout.remove_item(&present, true).unwrap();
    assert_eq!(layout.placed_items().len(), 0);
    let usage = layout.usage().unwrap();
    assert_eq!(usage.numerator(), 0);
}

// Round-trip snapshot: restoring a snapshot brings every query answer back.
#[test]
fn snapshot_round_trip() {
    let bin = Bin::from_strip(0, 10, 10, config()).unwrap();
    let mut layout = Layout::new(0, bin);
    let item = Item::new(
        0,
        square(0, 0, 2),
        1,
        AllowedOrients::full_range(),
        DTransformation::empty(),
        None,
        config().item_surrogate_config,
    )
    .unwrap();
    layout.place_item(&item, &DTransformation::empty()).unwrap();

    let probe = square(1, 1, 1);
    let before = layout.cde().poly_collides(&probe, &vec![]);
    let snapshot = layout.create_snapshot();

    // mutate: remove the item, the probe answer flips
    let uid = PlacedItemUID {
        item_id: 0,
        d_transformation: DTransformation::empty(),
    };
    layout.remove_item(&uid, true).unwrap();
    assert!(layout.cde().poly_collides(&probe, &vec![]) != before);

    // restore: the answer and the count come back
    layout.restore(&snapshot).unwrap();
    assert_eq!(layout.placed_items().len(), 1);
    assert_eq!(layout.cde().poly_collides(&probe, &vec![]), before);

    // a rebuilt layout answers the same
    let rebuilt = Layout::from_snapshot(&snapshot);
    assert_eq!(rebuilt.cde().poly_collides(&probe, &vec![]), before);

    // restoring onto a layout with another identity is rejected
    let bin2 = Bin::from_strip(9, 10, 10, config()).unwrap();
    let mut other = Layout::new(9, bin2);
    assert_eq!(
        other.restore(&snapshot).unwrap_err(),
        GeomError::IdMismatch
    );
}

#[test]
fn layout_flush_and_clone() {
    let bin = Bin::from_strip(0, 10, 10, config()).unwrap();
    let mut layout = Layout::new(0, bin);
    let item = Item::new(
        0,
        square(0, 0, 1),
        1,
        AllowedOrients::full_range(),
        DTransformation::empty(),
        None,
        config().item_surrogate_config,
    )
    .unwrap();
    layout.place_item(&item, &DTransformation::empty()).unwrap();
    assert!(layout.cde().is_dirty());
    layout.flush_changes();
    assert!(!layout.cde().is_dirty());
    let twin = layout.clone_with_id(4);
    assert_eq!(twin.id(), 4);
    assert_eq!(twin.placed_items().len(), 1);
    let c2 = item.clone_with_id(8);
    assert_eq!(c2.id(), 8);
    assert_eq!(c2.value(), item.value());
}

#[test]
fn colors_blend_and_parse() {
    let c1 = Color::new(0x10, 0x20, 0x31);
    let c2 = Color::new(0x20, 0x40, 0x60);
    let b = blend_colors(c1, c2);
    assert_eq!(b.red(), 0x18);
    assert_eq!(b.green(), 0x30);
    assert_eq!(b.blue(), 0x48);
    let dimmed = change_brightness(Color::new(100, 200, 50), fr(1, 2));
    assert_eq!(dimmed.red(), 50);
    assert_eq!(dimmed.green(), 100);
    assert_eq!(dimmed.blue(), 25);
    let parsed = Color::from_hex(b"#CC824A").unwrap();
    assert_eq!(parsed.red(), 0xCC);
    assert_eq!(parsed.green(), 0x82);
    assert_eq!(parsed.blue(), 0x4A);
    let bare = Color::from_hex(b"ffc879").unwrap();
    assert_eq!(bare.red(), 0xFF);
    assert_eq!(bare.green(), 0xC8);
    assert_eq!(bare.blue(), 0x79);
    assert_eq!(
        Color::from_hex(b"#XYZ").unwrap_err(),
        GeomError::OutOfRange
    );
}

// Transform composition: composing two poses and applying the result is the
// same as applying the two poses one after the other, and the composed pose
// is already decomposed — rotation and translation can be read off exactly.
#[test]
fn pose_composition_decomposes_exactly() {
    let r = Rotation::new(fr(3, 5), fr(4, 5)).unwrap();
    let a = DTransformation::new(r, (fr(1, 1), fr(2, 1))).unwrap();
    let b = DTransformation::new(r, (fr(-1, 1), fr(1, 2))).unwrap();
    let ab = a.compose(&b).unwrap();
    // the doubled rotation of (3/5, 4/5) is (-7/25, 24/25)
    let rot = ab.get_rotation();
    assert!(rot.get_cos().eq_val(&fr(-7, 25)));
    assert!(rot.get_sin().eq_val(&fr(24, 25)));
    // applying the composition equals applying b, then a
    let p = pt(2, 1);
    let via_two = a.transform_point(&b.transform_point(&p).unwrap()).unwrap();
    let via_one = ab.transform_point(&p).unwrap();
    assert!(via_two.eq_point(&via_one));
    // composing with the identity pose changes nothing
    let id = DTransformation::empty();
    let same = id.compose(&a).unwrap();
    let q1 = same.transform_point(&p).unwrap();
    let q2 = a.transform_point(&p).unwrap();
    assert!(q1.eq_point(&q2));
}

// Inverting a pose undoes it exactly, point by point.
#[test]
fn pose_inverse_round_trip() {
    let r = Rotation::new(fr(3, 5), fr(4, 5)).unwrap();
    let a = DTransformation::new(r, (fr(1, 1), fr(2, 1))).unwrap();
    let inv = a.inverse().unwrap();
    let p = pt(2, 1);
    let there = a.transform_point(&p).unwrap();
    let back = inv.transform_point(&there).unwrap();
    assert!(back.eq_point(&p));
    // composing with the inverse gives the pose that leaves points in place
    let id = a.compose(&inv).unwrap();
    let q = id.transform_point(&p).unwrap();
    assert!(q.eq_point(&p));
}

// Item equality and identity is by id.
#[test]
fn item_identity_is_by_id() {
    let a = Item::new(
        7,
        square(0, 0, 1),
        1,
        AllowedOrients::full_range(),
        DTransformation::empty(),
        None,
        config().item_surrogate_config,
    )
    .unwrap();
    let b = Item::new(
        7,
        square(0, 0, 2),
        9,
        AllowedOrients::full_range(),
        DTransformation::empty(),
        Some(3),
        config().item_surrogate_config,
    )
    .unwrap();
    let c = a.clone_with_id(8);
    assert!(a == b);
    assert!(!(a == c));
}

// Degenerate and oversized strips are rejected with the exact reason.
#[test]
fn strip_dimensions_are_checked() {
    assert_eq!(
        Bin::from_strip(0, 0, 10, config()).unwrap_err(),
        GeomError::InvalidRectangle
    );
    assert_eq!(
        Bin::from_strip(0, 10, -3, config()).unwrap_err(),
        GeomError::InvalidRectangle
    );
    assert_eq!(
        Bin::from_strip(0, 10000, 10, config()).unwrap_err(),
        GeomError::OutOfRange
    );
}

// Exact squared point-to-segment distances, for all three projection cases.
#[test]
fn edge_point_squared_distance() {
    let e = Edge::new(pt(0, 0), pt(4, 0)).unwrap();
    // projection inside the segment
    let d = e.sq_distance(&pt(2, 3)).unwrap();
    assert!(d.eq_val(&Frac::from_int(9)));
    // nearest point is the start
    let d0 = e.sq_distance(&pt(-3, 4)).unwrap();
    assert!(d0.eq_val(&Frac::from_int(25)));
    // nearest point is the end
    let d1 = e.sq_distance(&pt(7, 4)).unwrap();
    assert!(d1.eq_val(&Frac::from_int(25)));
    let (pos, db) = e.sq_distance_from_border(&pt(2, 3)).unwrap();
    assert_eq!(pos, jaguars::geo_traits::GeoPosition::Exterior);
    assert!(db.eq_val(&Frac::from_int(9)));
    // point-to-point distances through the same trait
    let pp = pt(0, 0).sq_distance(&pt(3, 4));
    assert!(pp.eq_val(&Frac::from_int(25)));
}

// Formatting a color and parsing the result gives the color back.
#[test]
fn color_hex_round_trip() {
    let c = Color::new(0xCC, 0x82, 0x4A);
    let hex = c.to_hex();
    assert_eq!(hex, b"#CC824A".to_vec());
    let back = Color::from_hex(&hex).unwrap();
    assert_eq!(back.red(), 0xCC);
    assert_eq!(back.green(), 0x82);
    assert_eq!(back.blue(), 0x4A);
}

// The empty pose is recognised, a real one is not.
#[test]
fn empty_pose_is_detected() {
    assert!(DTransformation::empty().is_empty());
    let r = Rotation::new(fr(3, 5), fr(4, 5)).unwrap();
    let moved = DTransformation::new(r, (fr(0, 1), fr(0, 1))).unwrap();
    assert!(!moved.is_empty());
    let shifted = DTransformation::new(
        Rotation::identity(),
        (fr(1, 2), fr(0, 1)),
    )
    .unwrap();
    assert!(!shifted.is_empty());
}

// Removing a placement frees exactly its bin area in usage().
#[test]
fn removal_frees_area_in_usage() {
    let bin = Bin::from_strip(0, 10, 10, config()).unwrap();
    let mut layout = Layout::new(0, bin);
    let small = Item::new(
        0,
        square(0, 0, 1),
        1,
        AllowedOrients::full_range(),
        DTransformation::empty(),
        None,
        config().item_surrogate_config,
    )
    .unwrap();
    let big = Item::new(
        1,
        square(2, 2, 3),
        1,
        AllowedOrients::full_range(),
        DTransformation::empty(),
        None,
        config().item_surrogate_config,
    )
    .unwrap();
    layout.place_item(&small, &DTransformation::empty()).unwrap();
    layout.place_item(&big, &DTransformation::empty()).unwrap();
    let both = layout.usage().unwrap();
    assert!(both.eq_val(&fr(10, 100))); // (1 + 9) / 100
    let uid = PlacedItemUID {
        item_id: 1,
        d_transformation: DTransformation::empty(),
    };
    layout.remove_item(&uid, true).unwrap();
    let after = layout.usage().unwrap();
    assert!(after.eq_val(&fr(1, 100))); // the big item's area is freed
}

// The bounding circle contains every input circle.
#[test]
fn bounding_circle_covers_all() {
    let c1 = Circle::new(pt(0, 0), fr(2, 1)).unwrap();
    let c2 = Circle::new(pt(5, 0), fr(3, 1)).unwrap();
    let circles = vec![c1, c2];
    let bound = Circle::bounding_circle(&circles).unwrap();
    assert!(bound.center().eq_point(&pt(0, 0)));
    // the exact center distance is 5, its rational upper bound 6, plus the
    // radius 3
    assert!(bound.radius().eq_val(&fr(9, 1)));
    // every input circle collides with (indeed lies within) the cover
    assert!(bound.collides_with(&c1));
    assert!(bound.collides_with(&c2));
    let lone = vec![c1];
    let only = Circle::bounding_circle(&lone).unwrap();
    assert!(only.center().eq_point(&pt(0, 0)));
    // distance zero still rounds up to one before the radius is added
    assert!(only.radius().eq_val(&fr(3, 1)));
}

// Strip packing: inserting tracks quantities; narrowing the strip rebuilds
// the layout and keeps exactly the placements that still fit.
#[test]
fn strip_packing_resize() {
    let item = Item::new(
        0,
        square(0, 0, 1),
        1,
        AllowedOrients::full_range(),
        DTransformation::empty(),
        None,
        config().item_surrogate_config,
    )
    .unwrap();
    let mut p = SPProblem::new(vec![item], vec![2], 10, 10, config()).unwrap();
    assert_eq!(p.strip_width(), 10);
    assert_eq!(p.strip_height(), 10);

    let near = DTransformation::new(Rotation::identity(), (fr(1, 1), fr(1, 1))).unwrap();
    let far = DTransformation::new(Rotation::identity(), (fr(8, 1), fr(1, 1))).unwrap();
    p.insert_item(0, &near).unwrap();
    p.insert_item(0, &far).unwrap();
    assert_eq!(p.layout().placed_items().len(), 2);
    assert_eq!(p.missing_item_qtys()[0], 0);

    // narrowing to width 5 drops the far placement and frees its quantity
    p.modify_strip_width(5).unwrap();
    assert_eq!(p.strip_width(), 5);
    assert_eq!(p.layout().id(), 1);
    assert_eq!(p.layout().placed_items().len(), 1);
    assert_eq!(p.missing_item_qtys()[0], 1);

    // a degenerate strip is rejected and nothing changes
    assert_eq!(
        p.modify_strip_width(0).unwrap_err(),
        GeomError::InvalidRectangle
    );
    assert_eq!(p.strip_width(), 5);

    // removing the kept placement frees the last quantity
    let uid = PlacedItemUID {
        item_id: 0,
        d_transformation: near,
    };
    p.remove_item(&uid, true).unwrap();
    assert!(p.layout().is_empty());
    assert_eq!(p.missing_item_qtys()[0], 2);
    assert_eq!(
        p.remove_item(&uid, true).unwrap_err(),
        GeomError::NotFound
    );
}

// Fitting the strip shrinks it to the smallest width past every placement.
#[test]
fn fit_strip_width_shrinks() {
    let item = Item::new(
        0,
        square(0, 0, 1),
        1,
        AllowedOrients::full_range(),
        DTransformation::empty(),
        None,
        config().item_surrogate_config,
    )
    .unwrap();
    let mut p = SPProblem::new(vec![item], vec![1], 10, 10, config()).unwrap();
    let near = DTransformation::new(Rotation::identity(), (fr(1, 1), fr(1, 1))).unwrap();
    p.insert_item(0, &near).unwrap();
    // the placement spans x in [1, 2], so the fitted width is 2 — but then
    // the square touches the new boundary exactly and is dropped by the
    // exact check
    p.fit_strip_width().unwrap();
    assert_eq!(p.strip_width(), 2);
    assert_eq!(p.layout().placed_items().len(), 0);
    assert_eq!(p.missing_item_qtys()[0], 1);
}
