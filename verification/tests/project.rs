//! The project: board, schematic, palette, library and the record of
//! events.

use pcb::board::{
    Board, CopperLayer, Footprint, Id, Keepout, LayerStackup, Pad, Pour, SilkAnchor, SilkLayer, SilkLine,
    SilkText, StitchPolicy, ThermalRelief, Trace, Via,
};
use pcb::event::{ActivityLevel, Event};
use pcb::geometry::{Point, Rect};
use pcb::library::{Library, LibraryEntry, LibraryPad, PlacementMargin, ViewTransform};
use pcb::pending::{PendingAttachment, PendingLibraryEntry};
use pcb::profiles::jlcpcb_2layer;
use pcb::project::Project;
use pcb::rotation::Rotation;
use pcb::schematic::{Net, NetClass, NetConnection, Symbol, SymbolKind};
use pcb::units::Length;

fn mm(v: f64) -> Length {
    Length((v * 1e6).round() as i64)
}

fn at(x: f64, y: f64) -> Point {
    Point::new(mm(x), mm(y))
}

fn project() -> Project {
    Project::new("test".into(), Library::new())
}

fn part(reference: &str, x: f64, y: f64) -> Footprint {
    Footprint {
        id: Id::new(),
        reference: reference.into(),
        value: "10k".into(),
        library: "lib".into(),
        position: at(x, y),
        rotation: Rotation::zero(),
        layer: CopperLayer::Top,
        pads: vec![Pad {
            number: "1".into(),
            name: String::new(),
            offset: Point::origin(),
            size: (mm(1.0), mm(2.0)),
            layer: CopperLayer::Top,
            net: Some("A".into()),
            drill: None,
        }],
        key: String::new(),
        description: String::new(),
        edge_mounted: false,
        silk: vec![],
    }
}

fn trace(net: &str, x0: f64, x1: f64) -> Trace {
    Trace {
        id: Id::new(),
        layer: CopperLayer::Top,
        start: at(x0, 0.0),
        end: at(x1, 0.0),
        width: mm(0.25),
        net: net.into(),
    }
}

fn via(net: &str, x: f64) -> Via {
    Via { id: Id::new(), position: at(x, 0.0), drill: mm(0.3), diameter: mm(0.6), net: net.into() }
}

fn sheet(p: &mut Project, w: f64, h: f64) {
    p.set_outline(Rect::from_corners(at(0.0, 0.0), at(w, h)));
}

#[test]
fn every_change_is_on_record() {
    let mut p = project();
    sheet(&mut p, 50.0, 50.0);
    let id = p.add_footprint(part("R1", 5.0, 5.0));
    assert!(p.move_footprint(id, at(6.0, 5.0)));
    assert!(p.remove_footprint(id));
    assert!(!p.remove_footprint(id));
    p.log(ActivityLevel::Warn, "careful".into());
    let kinds: Vec<bool> = p
        .events
        .iter()
        .skip(1)
        .zip([0, 1, 2, 3, 4])
        .map(|(e, i)| match i {
            0 => matches!(e, Event::OutlineChanged),
            1 => matches!(e, Event::FootprintAdded { .. }),
            2 => matches!(e, Event::FootprintMoved { .. }),
            3 => matches!(e, Event::FootprintRemoved { .. }),
            _ => matches!(e, Event::Activity { level: ActivityLevel::Warn, .. }),
        })
        .collect();
    assert_eq!(kinds, vec![true; 5], "{:?}", p.events);
    assert!(matches!(p.events[0], Event::ProjectChanged));
    assert_eq!(p.events.len(), 6);
}

#[test]
fn placing_takes_a_part_off_the_palette() {
    let mut p = project();
    sheet(&mut p, 50.0, 50.0);
    p.palette_add(part("R1", 0.0, 0.0)).unwrap();
    assert!(p.palette_add(part("R1", 0.0, 0.0)).is_err());
    assert!(p.place_from_palette("R2", at(5.0, 5.0)).is_err());
    let id = p.place_from_palette("R1", at(5.0, 5.0)).unwrap();
    assert!(p.palette.is_empty());
    assert_eq!(p.board.footprints[0].id, id);
    assert_eq!(p.board.footprints[0].position, at(5.0, 5.0));
}

#[test]
fn parts_do_not_land_on_each_other() {
    let mut p = project();
    sheet(&mut p, 50.0, 50.0);
    p.add_footprint(part("R1", 5.0, 5.0));
    p.palette_add(part("R2", 0.0, 0.0)).unwrap();
    let e = p.place_from_palette("R2", at(5.5, 5.0)).unwrap_err();
    assert_eq!(e, "R2 at (5.50, 5.00) mm would overlap R1 — pick another position");
    assert_eq!(p.palette.len(), 1);
    p.place_from_palette("R2", at(15.0, 5.0)).unwrap();
    let e = p.move_footprint_to("R2", at(5.5, 5.0)).unwrap_err();
    assert_eq!(e, "moving R2 to (5.50, 5.00) mm would overlap R1");
    assert!(p.move_footprint_to("R9", at(1.0, 1.0)).is_err());
    p.move_footprint_to("R2", at(8.0, 5.0)).unwrap();
    // A quarter turn makes the part two wide.
    p.rotate_footprint("R2", Rotation::degrees(90)).unwrap();
    assert_eq!(p.board.footprints[1].rotation, Rotation::degrees(90));
}

#[test]
fn a_turn_into_a_neighbour_is_refused() {
    let mut p = project();
    sheet(&mut p, 50.0, 50.0);
    p.add_footprint(part("R1", 5.0, 5.0));
    p.add_footprint(part("R2", 6.6, 5.0));
    let e = p.rotate_footprint("R2", Rotation::degrees(90)).unwrap_err();
    assert_eq!(e, "R2 rotated to 90° would overlap R1");
    assert_eq!(p.board.footprints[1].rotation, Rotation::zero());
}

#[test]
fn a_body_stays_on_the_board() {
    let mut lib = Library::new();
    let mut e = entry("big");
    e.placement_margin =
        PlacementMargin { top: mm(0.0), right: mm(3.0), bottom: mm(0.0), left: mm(0.0) };
    lib.upsert(e, 1).unwrap();
    let mut p = Project::new("t".into(), lib);
    sheet(&mut p, 20.0, 20.0);
    let mut big = part("J1", 0.0, 0.0);
    big.key = "big".into();
    p.palette_add(big).unwrap();
    let e = p.place_from_palette("J1", at(18.0, 10.0)).unwrap_err();
    assert_eq!(e, "J1 inflated body extends 1.50 mm past the right board outline");
    p.place_from_palette("J1", at(10.0, 10.0)).unwrap();
}

#[test]
fn an_edge_part_belongs_on_the_edge() {
    let mut p = project();
    sheet(&mut p, 20.0, 20.0);
    let mut usb = part("J1", 0.0, 0.0);
    usb.edge_mounted = true;
    p.palette_add(usb).unwrap();
    let e = p.place_from_palette("J1", at(10.0, 10.0)).unwrap_err();
    assert!(e.starts_with("J1 is edge-mounted but the bbox is "), "{e}");
    p.place_from_palette("J1", at(0.5, 10.0)).unwrap();
}

#[test]
fn resetting_the_board_keeps_every_part() {
    let mut p = project();
    sheet(&mut p, 50.0, 50.0);
    p.add_footprint(part("R1", 5.0, 5.0));
    p.palette_add(part("R2", 0.0, 0.0)).unwrap();
    p.add_trace(trace("A", 0.0, 5.0));
    p.reset_board();
    assert!(p.board.footprints.is_empty() && p.board.traces.is_empty());
    let mut names: Vec<&str> = p.palette.iter().map(|f| f.reference.as_str()).collect();
    names.sort();
    assert_eq!(names, vec!["R1", "R2"]);
    p.reset();
    assert!(p.palette.is_empty());
}

#[test]
fn parts_off_the_board_go_back_to_the_palette() {
    let mut p = project();
    sheet(&mut p, 20.0, 20.0);
    p.add_footprint(part("R1", 5.0, 5.0));
    p.add_footprint(part("R2", 30.0, 5.0));
    assert_eq!(p.unplace_out_of_bounds(), vec!["R2".to_string()]);
    assert_eq!(p.board.footprints.len(), 1);
    assert_eq!(p.palette[0].reference, "R2");
    assert!(p.unplace_out_of_bounds().is_empty());
}

#[test]
fn clearing_placements_names_the_parts() {
    let mut p = project();
    p.add_footprint(part("R1", 5.0, 5.0));
    p.add_footprint(part("R2", 15.0, 5.0));
    assert_eq!(p.clear_board_placements(), vec!["R1".to_string(), "R2".to_string()]);
    assert!(p.board.footprints.is_empty());
}

#[test]
fn deleting_by_reference_takes_the_routing_along() {
    let mut p = project();
    p.add_footprint(part("R1", 0.0, 0.0));
    p.add_trace(trace("A", 0.0, 5.0));
    let gone = p.delete_footprint_by_ref("R1").unwrap();
    assert_eq!(gone.reference, "R1");
    assert_eq!(gone.traces_removed, 1);
    assert_eq!(gone.trace_count, 0);
    assert_eq!(gone.orphaned_nets, vec!["A".to_string()]);
    assert!(p.delete_footprint_by_ref("R1").is_err());
}

#[test]
fn routing_is_cleared_net_by_net() {
    let mut p = project();
    p.add_trace(trace("A", 0.0, 5.0));
    p.add_trace(trace("B", 0.0, 5.0));
    p.add_via(via("A", 5.0));
    assert_eq!(p.clear_net_routing("A"), 2);
    assert_eq!(p.clear_net_routing("A"), 0);
    assert_eq!(p.board.traces.len(), 1);
    let id = p.board.traces[0].id;
    assert!(p.delete_trace(id));
    assert!(!p.delete_trace(id));
    let v = p.add_via(via("A", 1.0));
    assert!(p.delete_via(v));
    assert!(!p.delete_via(v));
    p.replace_routing(vec![trace("C", 0.0, 1.0)], vec![via("C", 1.0)]);
    assert!(matches!(
        p.events.last(),
        Some(Event::RoutingChanged { trace_count: 1, via_count: 1 })
    ));
    p.clear_routing();
    assert!(p.board.traces.is_empty() && p.board.vias.is_empty());
}

#[test]
fn rotations_follow_another_board() {
    let mut p = project();
    let id = p.add_footprint(part("R1", 5.0, 5.0));
    let mut other = Board::new();
    let mut turned = part("R1", 0.0, 0.0);
    turned.id = id;
    turned.rotation = Rotation::degrees(90);
    other.add_footprint(turned);
    p.sync_footprint_rotations(&other);
    assert_eq!(p.board.footprints[0].rotation, Rotation::degrees(90));
    assert_eq!(p.board.footprints[0].position, at(5.0, 5.0));
    assert!(p.set_footprint_rotation(id, Rotation::zero()));
}

#[test]
fn pours_keepouts_and_silk() {
    let mut p = project();
    p.add_pour(Pour {
        net: "GND".into(),
        layer: CopperLayer::Top,
        thermal_relief: ThermalRelief::default(),
        stitching: StitchPolicy::default(),
    });
    assert_eq!(p.set_pour_relief("GND", ThermalRelief::Solid), 1);
    assert_eq!(p.set_pour_relief("VCC", ThermalRelief::Solid), 0);
    assert_eq!(
        p.set_pour_stitching("GND", StitchPolicy::Grid { pitch: mm(2.0), clearance: mm(0.2) }),
        1
    );
    assert_eq!(p.board.pours[0].thermal_relief, ThermalRelief::Solid);
    assert!(p.remove_pour("GND", CopperLayer::Top));
    let k = p.add_keepout(Keepout {
        id: Id::new(),
        polygon: vec![at(0.0, 0.0), at(1.0, 0.0), at(0.0, 1.0)],
        layers: vec![],
        nets_allowed: vec![],
        label: String::new(),
    });
    assert!(p.remove_keepout(k));
    p.add_silk_line(SilkLine {
        layer: SilkLayer::Top,
        start: at(0.0, 0.0),
        end: at(1.0, 0.0),
        width: mm(0.15),
    });
    let text = SilkText {
        layer: SilkLayer::Bottom,
        position: at(3.0, 7.0),
        text: "PCB v1".into(),
        size: mm(1.5),
        rotation: Rotation::degrees(90),
        anchor: SilkAnchor::Middle,
        width: SilkText::default_stroke(mm(1.5)),
    };
    p.add_silk_text(text.clone());
    p.set_silk_texts(vec![text.clone(), text]);
    assert_eq!(p.board.silk_lines.len(), 1);
    assert_eq!(p.board.silk_texts.len(), 2);
    p.set_outline_with_radius(Rect::from_corners(at(0.0, 0.0), at(9.0, 9.0)), mm(2.0));
    assert_eq!(p.board.outline_corner_radius, mm(2.0));
    p.set_fab_profile(Some(jlcpcb_2layer()));
    assert!(p.fab_profile.is_some());
    p.notify_library_changed();
    assert!(matches!(p.events.last(), Some(Event::LibraryChanged { count: 0 })));
    p.palette_clear();
}

fn resistor(reference: &str) -> Symbol {
    Symbol {
        id: Id::new(),
        reference: reference.into(),
        value: "10k".into(),
        kind: SymbolKind::Resistor,
        position: Point::origin(),
        rotation: Rotation::zero(),
        key: String::new(),
        description: String::new(),
    }
}

#[test]
fn wiring_reaches_pads_on_board_and_palette() {
    let mut p = project();
    let r1 = p.add_symbol(resistor("R1"));
    let mut placed = part("R1", 5.0, 5.0);
    placed.pads[0].net = None;
    p.add_footprint(placed);
    let net = || Net {
        name: "VCC".into(),
        connections: vec![NetConnection { symbol_id: r1, pin_number: "1".into() }],
        class: None,
    };
    p.set_net(net()).unwrap();
    assert_eq!(p.board.footprints[0].pads[0].net.as_deref(), Some("VCC"));
    assert_eq!(p.schematic.net_for_pin(r1, "1"), Some("VCC"));
    p.set_net(net()).unwrap();
    assert_eq!(p.schematic.nets.entries.len(), 1);
}

#[test]
fn classes_must_exist_before_nets_join_them() {
    let mut p = project();
    assert!(p.assign_net_to_class("A".into(), "fast".into()).is_err());
    p.set_net_class(NetClass { name: "fast".into(), ..NetClass::default() });
    p.assign_net_to_class("A".into(), "fast".into()).unwrap();
    assert_eq!(p.schematic.class_for_net("A").unwrap().name, "fast");
}

fn entry(key: &str) -> LibraryEntry {
    LibraryEntry {
        key: key.into(),
        description: String::new(),
        default_value: String::new(),
        default_rotation: Rotation::zero(),
        edge_mounted: false,
        pads: vec![LibraryPad {
            number: "1".into(),
            name: String::new(),
            x: mm(0.0),
            y: mm(0.0),
            w: mm(1.0),
            h: mm(1.0),
            drill: None,
        }],
        silk: vec![],
        lcsc_id: None,
        mpn: None,
        attachments: vec![],
        created_at: 0,
        footprint_view_transform: ViewTransform::default(),
        placement_margin: PlacementMargin::default(),
        body_rect: None,
    }
}

#[test]
fn pending_entries_wait_for_a_decision() {
    let mut p = project();
    let pending = |key: &str| PendingLibraryEntry {
        entry: entry(key),
        attachments: vec![PendingAttachment {
            kind: "photo".into(),
            filename: "top.png".into(),
            mime: "image/png".into(),
            data: vec![1, 2, 3],
        }],
    };
    assert_eq!(p.queue_pending_library_entry(pending("a")), 1);
    assert_eq!(p.queue_pending_library_entry(pending("a")), 1);
    assert_eq!(p.queue_pending_library_entry(pending("b")), 2);
    assert!(p.find_pending_library_entry("a").is_some());
    assert!(p.discard_pending_library_entry("b"));
    assert!(!p.discard_pending_library_entry("b"));
    let files = p.confirm_pending_library_entry("a", 5).unwrap().unwrap();
    assert_eq!(files.len(), 1);
    assert_eq!(files[0].data, vec![1, 2, 3]);
    assert!(files[0].name.ends_with(".png"));
    let kept = p.library.find("a").unwrap();
    assert_eq!(kept.attachments.len(), 1);
    assert_eq!(kept.created_at, 5);
    assert!(p.pending_library_entries().is_empty());
    assert!(p.confirm_pending_library_entry("a", 6).unwrap().is_none());
}

#[test]
fn references_stay_distinct() {
    let mut p = project();
    p.add_footprint(part("R1", 5.0, 5.0));
    p.palette_add(part("R2", 0.0, 0.0)).unwrap();
    for taken in ["R1", "R2"] {
        let e = p.palette_add(part(taken, 0.0, 0.0)).unwrap_err();
        assert_eq!(e, format!("reference {taken} already in palette or board"));
    }
    p.palette_add(part("R3", 0.0, 0.0)).unwrap();
    let names: Vec<&str> = p.palette.iter().map(|f| f.reference.as_str()).collect();
    assert_eq!(names, ["R2", "R3"]);
}

#[test]
fn overlapping_parts_are_named_in_order() {
    let mut b = Board::new();
    b.add_footprint(part("R2", 5.0, 5.0));
    b.add_footprint(part("R1", 5.5, 5.0));
    b.add_footprint(part("R3", 15.0, 5.0));
    assert_eq!(b.footprint_overlaps(), vec![("R1".to_string(), "R2".to_string())]);
}

#[test]
fn placed_parts_keep_apart() {
    let mut p = project();
    sheet(&mut p, 50.0, 50.0);
    for (name, x) in [("R1", 5.0), ("R2", 5.4), ("R3", 6.6), ("R4", 9.0)] {
        p.palette_add(part(name, 0.0, 0.0)).unwrap();
        let _ = p.place_from_palette(name, at(x, 5.0));
    }
    let _ = p.move_footprint_to("R4", at(7.0, 5.0));
    let _ = p.rotate_footprint("R3", Rotation::degrees(90));
    assert!(p.board.footprint_overlaps().is_empty());
    assert_eq!(p.board.footprints.len() + p.palette.len(), 4);
}

#[test]
fn the_stackup_is_replaced() {
    let mut p = project();
    p.update_stackup(LayerStackup::fr4(4));
    assert_eq!(p.board.stackup.layers.len(), 4);
    assert_eq!(p.name_owned(), "test");
}

#[test]
fn pins_go_by_pad_number_before_pad_name() {
    let mut p = project();
    let r1 = p.add_symbol(resistor("R1"));
    let mut placed = part("R1", 5.0, 5.0);
    placed.pads[0].net = None;
    placed.pads[0].name = "2".into();
    let mut second = placed.pads[0].clone();
    second.number = "2".into();
    second.name = String::new();
    placed.pads.push(second);
    p.add_footprint(placed);
    p.set_net(Net {
        name: "VCC".into(),
        connections: vec![NetConnection { symbol_id: r1, pin_number: "2".into() }],
        class: None,
    })
    .unwrap();
    assert_eq!(p.board.footprints[0].pads[0].net, None);
    assert_eq!(p.board.footprints[0].pads[1].net.as_deref(), Some("VCC"));
}
