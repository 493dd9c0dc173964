//! Board items: footprints, margins, routing that goes with a footprint,
//! and the stroke font.

use pcb::board::{
    Board, CopperLayer, Footprint, FootprintSilk, Id, Keepout, LayerStackup, Pad, Pour, SilkAnchor,
    SilkLayer, SilkText, StitchPolicy, ThermalRelief, Trace, Via,
};
use pcb::geometry::{Point, Rect};
use pcb::hershey::{glyph, text_advance_units, text_polylines, text_segments, text_width_units};
use pcb::library::PlacementMargin;
use pcb::rotation::Rotation;
use pcb::units::Length;

fn mm(v: f64) -> Length {
    Length((v * 1e6).round() as i64)
}

fn to_mm(l: Length) -> f64 {
    l.0 as f64 / 1e6
}

fn at(x: f64, y: f64) -> Point {
    Point::new(mm(x), mm(y))
}

fn pad(number: &str, x: f64, y: f64, w: f64, h: f64, net: Option<&str>) -> Pad {
    Pad {
        number: number.into(),
        name: String::new(),
        offset: at(x, y),
        size: (mm(w), mm(h)),
        layer: CopperLayer::Top,
        net: net.map(str::to_string),
        drill: None,
    }
}

fn part(reference: &str, x: f64, y: f64, pads: Vec<Pad>) -> Footprint {
    Footprint {
        id: Id::new(),
        reference: reference.into(),
        value: "test".into(),
        library: "lib".into(),
        position: at(x, y),
        rotation: Rotation::zero(),
        layer: CopperLayer::Top,
        pads,
        key: String::new(),
        description: String::new(),
        edge_mounted: false,
        silk: vec![],
    }
}

#[test]
fn remove_footprint_and_routing_drops_connected_traces_and_vias() {
    let mut b = Board::new();
    let u1 = part(
        "U1",
        0.0,
        0.0,
        vec![
            pad("1", 0.0, 0.0, 1.0, 1.0, Some("SIG")),
            pad("2", 5.0, 0.0, 1.0, 1.0, Some("SIG")),
        ],
    );
    let fp_id = u1.id;
    b.add_footprint(u1);
    let mut r1 = part("R1", 20.0, 20.0, vec![pad("1", 0.0, 0.0, 1.0, 1.0, Some("OTHER"))]);
    r1.value = "10k".into();
    let other_id = r1.id;
    b.add_footprint(r1);

    let connected = Trace {
        id: Id::new(),
        layer: CopperLayer::Top,
        start: at(0.0, 0.0),
        end: at(2.5, 0.0),
        width: mm(0.25),
        net: "SIG".into(),
    };
    let unrelated = Trace {
        id: Id::new(),
        layer: CopperLayer::Top,
        start: at(20.0, 20.0),
        end: at(25.0, 20.0),
        width: mm(0.25),
        net: "OTHER".into(),
    };
    let connected_id = connected.id;
    let unrelated_id = unrelated.id;
    b.add_trace(connected);
    b.add_trace(unrelated);
    b.add_via(Via {
        id: Id::new(),
        position: at(5.0, 0.0),
        drill: mm(0.3),
        diameter: mm(0.6),
        net: "SIG".into(),
    });

    let (removed, traces_removed, vias_removed, orphaned) =
        b.remove_footprint_and_routing(fp_id).expect("removed");
    assert_eq!(removed.reference, "U1");
    assert_eq!(traces_removed, 1);
    assert_eq!(vias_removed, 1);
    assert_eq!(orphaned, vec!["SIG".to_string()]);
    assert!(b.index_of(fp_id).is_none());
    assert!(b.index_of(other_id).is_some());
    assert!(b.traces.iter().any(|t| t.id == unrelated_id));
    assert!(!b.traces.iter().any(|t| t.id == connected_id));
    assert!(b.vias.is_empty());
}

fn make_two_pad_fp(pos: Point, rotation: Rotation) -> Footprint {
    let mut fp = part(
        "J1",
        0.0,
        0.0,
        vec![pad("1", -1.0, 0.0, 0.5, 0.5, None), pad("2", 1.0, 0.0, 0.5, 0.5, None)],
    );
    fp.position = pos;
    fp.rotation = rotation;
    fp.key = "test_part".into();
    fp
}

fn lopsided() -> PlacementMargin {
    PlacementMargin { top: mm(1.0), right: mm(2.0), bottom: mm(0.5), left: mm(3.0) }
}

#[test]
fn inflated_bbox_asymmetric_margin_at_zero_rotation() {
    // Pad bbox: x in [-1.25, 1.25], y in [-0.25, 0.25].
    let fp = make_two_pad_fp(Point::origin(), Rotation::zero());
    let bb = fp.inflated_bbox(lopsided()).expect("bbox");
    assert!((to_mm(bb.min.x) - (-1.25 - 3.0)).abs() < 1e-6, "left");
    assert!((to_mm(bb.max.x) - (1.25 + 2.0)).abs() < 1e-6, "right");
    assert!((to_mm(bb.min.y) - (-0.25 - 0.5)).abs() < 1e-6, "bottom");
    assert!((to_mm(bb.max.y) - (0.25 + 1.0)).abs() < 1e-6, "top");
}

#[test]
fn inflated_bbox_rotates_margins_with_footprint() {
    // 90 degrees counter-clockwise: local +Y (top, 1 mm margin) becomes
    // world -X (left).
    let fp = make_two_pad_fp(Point::origin(), Rotation::degrees(90));
    let bb = fp.inflated_bbox(lopsided()).expect("bbox");
    assert!((to_mm(bb.min.x) - (-0.25 - 1.0)).abs() < 1e-6, "left");
    assert!((to_mm(bb.max.x) - (0.25 + 0.5)).abs() < 1e-6, "right");
    assert!((to_mm(bb.min.y) - (-1.25 - 3.0)).abs() < 1e-6, "bottom");
    assert!((to_mm(bb.max.y) - (1.25 + 2.0)).abs() < 1e-6, "top");
}

#[test]
fn inflated_bbox_zero_margin_matches_bounds() {
    let fp = make_two_pad_fp(at(5.0, -2.0), Rotation::zero());
    let bb = fp.inflated_bbox(PlacementMargin::default()).expect("bbox");
    let raw = fp.bounds().expect("bounds");
    assert_eq!(bb.min.x.0, raw.min.x.0);
    assert_eq!(bb.max.x.0, raw.max.x.0);
    assert_eq!(bb.min.y.0, raw.min.y.0);
    assert_eq!(bb.max.y.0, raw.max.y.0);
}

#[test]
fn pcb_renders_some_segments() {
    let segs =
        text_segments("PCB", Point::origin(), mm(2.0), Rotation::zero(), SilkAnchor::Start);
    assert!(!segs.is_empty(), "PCB should render at least one segment");
}

#[test]
fn ab_wider_than_a() {
    assert!(text_width_units("AB") > text_width_units("A"));
}

#[test]
fn unknown_char_falls_back() {
    // Box-drawing character outside ASCII: placeholder rectangle.
    let segs = text_segments("═", Point::origin(), mm(2.0), Rotation::zero(), SilkAnchor::Start);
    assert!(!segs.is_empty());
}

#[test]
fn a_space_has_no_strokes_but_takes_room() {
    assert!(glyph(' ').strokes.is_empty());
    let lines = text_polylines(" ", Point::origin(), mm(1.0), Rotation::zero(), SilkAnchor::Start);
    assert!(lines.is_empty());
    assert!(text_advance_units("A B") > text_advance_units("AB"));
    assert_eq!(text_width_units(""), 0);
}

#[test]
fn anchors_shift_text_along_its_baseline() {
    let left = |anchor| {
        text_segments("M", Point::origin(), mm(2.0), Rotation::zero(), anchor)
            .iter()
            .map(|(a, b)| a.x.0.min(b.x.0))
            .min()
            .unwrap()
    };
    let start = left(SilkAnchor::Start);
    let middle = left(SilkAnchor::Middle);
    let end = left(SilkAnchor::End);
    assert!(end < middle && middle < start);
}

#[test]
fn adding_an_id_again_replaces_the_footprint_in_place() {
    let mut b = Board::new();
    let first = part("R1", 0.0, 0.0, vec![]);
    let id = first.id;
    b.add_footprint(first);
    b.add_footprint(part("R2", 1.0, 0.0, vec![]));
    let mut again = part("R9", 2.0, 0.0, vec![]);
    again.id = id;
    assert_eq!(b.add_footprint(again), id);
    assert_eq!(b.footprints.len(), 2);
    assert_eq!(b.footprints[0].reference, "R9");
    assert_eq!(b.footprints[1].reference, "R2");
}

#[test]
fn removal_undoes_an_addition() {
    let mut b = Board::new();
    let fp = part("R1", 0.0, 0.0, vec![]);
    let id = fp.id;
    b.add_footprint(fp);
    assert!(b.move_footprint(id, at(3.0, 4.0)));
    assert_eq!(b.footprints[0].position, at(3.0, 4.0));
    assert_eq!(b.remove_footprint(id).unwrap().reference, "R1");
    assert!(b.footprints.is_empty());
    assert!(b.remove_footprint(id).is_none());
    assert!(!b.move_footprint(id, at(0.0, 0.0)));
}

#[test]
fn a_quarter_turn_swaps_a_pads_sides() {
    let mut fp = part("R1", 10.0, 20.0, vec![pad("1", 2.0, 0.0, 1.0, 3.0, None)]);
    fp.rotation = Rotation::degrees(90);
    let p = &fp.pads[0];
    assert_eq!(fp.pad_world_center(p), at(10.0, 22.0));
    assert_eq!(fp.pad_world_size(p), (mm(3.0), mm(1.0)));
    assert_eq!(fp.pad_rect(p), Rect::from_corners(at(8.5, 21.5), at(11.5, 22.5)));
}

#[test]
fn silk_placeholders_are_filled_in() {
    let mut fp = part("U7", 0.0, 0.0, vec![]);
    fp.value = "74HC00".into();
    assert_eq!(fp.resolve_silk_text("{REF}={VAL}"), "U7=74HC00");
    assert_eq!(fp.resolve_silk_text("plain"), "plain");
}

#[test]
fn plated_holes_reach_every_layer() {
    let mut p = pad("1", 0.0, 0.0, 1.0, 1.0, None);
    assert!(p.occupies_layer(CopperLayer::Top));
    assert!(!p.occupies_layer(CopperLayer::Bottom));
    p.drill = Some(mm(0.8));
    assert!(p.occupies_layer(CopperLayer::Bottom));
    assert!(p.occupies_layer(CopperLayer::Inner(3)));
}

#[test]
fn content_bounds_cover_the_parts() {
    let mut b = Board::new();
    b.outline = Some(Rect::from_corners(at(0.0, 0.0), at(4.0, 4.0)));
    assert!(b.content_bounds().is_none());
    b.add_footprint(part("R1", 5.0, 5.0, vec![pad("1", 0.0, 0.0, 2.0, 2.0, None)]));
    b.add_footprint(part("R2", 9.0, 5.0, vec![pad("1", 0.0, 0.0, 2.0, 2.0, None)]));
    let all = b.content_bounds().unwrap();
    let each = b.footprints[0].bounds().unwrap().union(b.footprints[1].bounds().unwrap());
    assert_eq!(all, each);
}

#[test]
fn a_pour_on_the_same_net_and_layer_replaces_the_last() {
    let pour = |relief| Pour {
        net: "GND".into(),
        layer: CopperLayer::Bottom,
        thermal_relief: relief,
        stitching: StitchPolicy::default(),
    };
    let mut b = Board::new();
    b.add_pour(pour(ThermalRelief::Solid));
    b.add_pour(pour(ThermalRelief::default()));
    assert_eq!(b.pours.len(), 1);
    assert!(matches!(b.pours[0].thermal_relief, ThermalRelief::Spokes4 { .. }));
    assert!(!b.remove_pour("GND", CopperLayer::Top));
    assert!(b.remove_pour("GND", CopperLayer::Bottom));
    assert!(b.pours.is_empty());
}

#[test]
fn keepouts_go_by_their_id() {
    let mut b = Board::new();
    let id = b.add_keepout(Keepout {
        id: Id::new(),
        polygon: vec![at(0.0, 0.0), at(1.0, 0.0), at(1.0, 1.0)],
        layers: vec![],
        nets_allowed: vec![],
        label: "k".into(),
    });
    assert!(b.remove_keepout(id));
    assert!(!b.remove_keepout(id));
}

#[test]
fn stackups_name_their_layers_from_top_to_bottom() {
    let s = LayerStackup::fr4(4);
    assert_eq!(s.layer_count(), 4);
    assert_eq!(pcb::board::layer_at(0, 4), CopperLayer::Top);
    assert_eq!(pcb::board::layer_at(1, 4), CopperLayer::Inner(1));
    assert_eq!(pcb::board::layer_at(3, 4), CopperLayer::Bottom);
}

#[test]
fn clearing_routing_leaves_parts_and_silk() {
    let mut b = Board::new();
    b.add_footprint(part("R1", 0.0, 0.0, vec![]));
    b.add_trace(Trace {
        id: Id::new(),
        layer: CopperLayer::Top,
        start: at(0.0, 0.0),
        end: at(1.0, 0.0),
        width: mm(0.25),
        net: "A".into(),
    });
    b.add_silk_text(SilkText {
        layer: SilkLayer::Top,
        position: at(0.0, 0.0),
        text: "x".into(),
        size: mm(1.0),
        rotation: Rotation::zero(),
        anchor: SilkAnchor::default(),
        width: SilkText::default_stroke(mm(1.0)),
    });
    b.clear_routing();
    assert!(b.traces.is_empty() && b.vias.is_empty());
    assert_eq!(b.footprints.len(), 1);
    assert_eq!(b.silk_texts.len(), 1);
}

#[test]
fn a_copied_footprint_keeps_its_silk() {
    let mut fp = part("R1", 0.0, 0.0, vec![]);
    fp.silk.push(FootprintSilk::Line {
        layer: SilkLayer::Top,
        start: Point::origin(),
        end: at(1.0, 0.0),
        width: mm(0.15),
    });
    let back = fp.clone();
    assert_eq!(back.silk.len(), 1);
    assert_eq!(back.id, fp.id);
}

#[test]
fn unrouted_copper_is_listed_as_orphaned() {
    let mut b = Board::new();
    b.add_footprint(part("R1", 0.0, 0.0, vec![pad("1", 0.0, 0.0, 1.0, 1.0, Some("A"))]));
    let tied = b.add_trace(Trace {
        id: Id::new(),
        layer: CopperLayer::Top,
        start: at(0.0, 0.0),
        end: at(5.0, 0.0),
        width: mm(0.25),
        net: "A".into(),
    });
    let loose = b.add_trace(Trace {
        id: Id::new(),
        layer: CopperLayer::Top,
        start: at(20.0, 20.0),
        end: at(25.0, 20.0),
        width: mm(0.25),
        net: "A".into(),
    });
    let via = b.add_via(Via {
        id: Id::new(),
        position: at(40.0, 40.0),
        drill: mm(0.3),
        diameter: mm(0.6),
        net: "A".into(),
    });
    let orphans = b.orphan_trace_ids();
    assert!(orphans.contains(&loose));
    assert!(!orphans.contains(&tied));
    assert_eq!(b.orphan_via_ids(), vec![via]);
}

#[test]
fn the_placeholder_is_a_closed_box() {
    let strokes = glyph('═').strokes;
    assert_eq!(strokes, vec![vec![(6, 0), (18, 0), (18, 24), (6, 24), (6, 0)]]);
    assert_eq!(glyph('\u{1}').strokes, strokes);
    assert_ne!(glyph('~').strokes, strokes);
}

#[test]
fn a_drilled_pad_holds_copper_on_every_layer() {
    let mut b = Board::new();
    let mut pin = pad("1", 0.0, 0.0, 1.0, 1.0, Some("A"));
    pin.drill = Some(mm(0.6));
    b.add_footprint(part("J1", 0.0, 0.0, vec![pin]));
    b.add_footprint(part("R1", 5.0, 0.0, vec![pad("1", 0.0, 0.0, 1.0, 1.0, Some("A"))]));
    let under = b.add_trace(Trace {
        id: Id::new(),
        layer: CopperLayer::Bottom,
        start: at(0.0, 0.0),
        end: at(5.0, 0.0),
        width: mm(0.25),
        net: "A".into(),
    });
    assert!(!b.orphan_trace_ids().contains(&under));
    b.footprints[0].pads[0].drill = None;
    assert!(b.orphan_trace_ids().contains(&under));
}

#[test]
fn a_new_board_has_two_named_layers() {
    let names: Vec<String> = Board::new().stackup.layers.iter().map(|l| l.name.clone()).collect();
    assert_eq!(names, vec!["F.Cu".to_string(), "B.Cu".to_string()]);
}
