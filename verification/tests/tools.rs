//! The tools that a client calls, and how requests are answered.

use pcb::board::{CopperLayer, Id, Pad, StitchPolicy, ThermalRelief, Trace, Via};
use pcb::event::Event;
use pcb::geometry::{Point, Rect};
use pcb::library::{Library, LibraryEntry, LibraryPad, PlacementMargin, ViewTransform};
use pcb::project::Project;
use pcb::rotation::Rotation;
use pcb::schematic::{PinRole, PinSide, SchPin, SymbolKind};
use pcb::tools::{
    drc_options, handle_line, layer_label, layer_to_str, nested_batch, parse_id, tally, tool_named,
    DrcInput, Method, RouteReport, Step, Tool, INVALID_PARAMS, METHOD_NOT_FOUND, PARSE_ERROR,
};
use pcb::tools_parts::{PalettePlan, SpawnInput};
use pcb::tools_place::{normalise, BatchItem, Outcome};
use pcb::tools_schematic::{auto_place, split_dot, SymbolInput};
use pcb::tools_view::snapshot;
use pcb::units::Length;

fn mm(v: f64) -> Length {
    Length((v * 1e6).round() as i64)
}

fn at(x: f64, y: f64) -> Point {
    Point::new(mm(x), mm(y))
}

fn project() -> Project {
    Project::new("test".into(), Library::new())
}

fn last_message(p: &Project) -> String {
    p.events
        .iter()
        .rev()
        .find_map(|e| match e {
            Event::Activity { message, .. } => Some(message.clone()),
            _ => None,
        })
        .unwrap()
}

fn pad(number: &str, x: f64, w: f64, h: f64) -> Pad {
    Pad {
        number: number.into(),
        name: String::new(),
        offset: at(x, 0.0),
        size: (mm(w), mm(h)),
        layer: CopperLayer::Top,
        net: None,
        drill: None,
    }
}

fn ask(method: &str, has_id: bool) -> Step {
    handle_line("{}", Ok((method.to_string(), has_id)))
}

#[test]
fn a_session_changes_the_project() {
    assert!(matches!(ask("initialize", true), Step::Run(Method::Initialize)));
    assert!(matches!(ask("tools/call", true), Step::Run(Method::CallTool)));
    assert_eq!(tool_named("placement.add").unwrap(), Tool::PlacementAdd);
    let mut p = project();
    let (reply, id) = p.tool_placement_add(
        "U1".into(),
        "MCU".into(),
        "Package_QFP:LQFP-32_7x7mm_P0.8mm".into(),
        at(25.0, 25.0),
        Rotation::zero(),
        CopperLayer::Top,
        vec![pad("1", -3.0, 0.6, 1.5), pad("2", 3.0, 0.6, 1.5)],
    );
    assert!(reply.starts_with("Placed U1"));
    assert!(reply.contains(&id.text()));
    assert_eq!(p.board.footprints.len(), 1);
    assert_eq!(last_message(&p), "placement.add: U1 at (25.00, 25.00) mm");
    let (status, _) = p.tool_project_status();
    assert_eq!(status, "project test: 1 footprint(s)");
}

#[test]
fn requests_are_sorted_out() {
    assert!(matches!(handle_line("   ", Err("x".into())), Step::Silent));
    match handle_line("{", Err("EOF".into())) {
        Step::Refuse(e) => {
            assert_eq!(e.code, PARSE_ERROR);
            assert_eq!(e.message, "parse error: EOF");
        }
        other => panic!("{other:?}"),
    }
    assert!(matches!(ask("tools/list", true), Step::Run(Method::ListTools)));
    assert!(matches!(ask("ping", true), Step::Run(Method::Acknowledge)));
    match ask("nonsense", true) {
        Step::Refuse(e) => {
            assert_eq!(e.code, METHOD_NOT_FOUND);
            assert_eq!(e.message, "method not implemented: nonsense");
        }
        other => panic!("{other:?}"),
    }
}

#[test]
fn unknown_tools_are_refused() {
    let e = tool_named("board.explode").unwrap_err();
    assert_eq!(e.code, METHOD_NOT_FOUND);
    assert_eq!(e.message, "unknown tool: board.explode");
    assert!(nested_batch("drc.run").is_none());
    assert_eq!(nested_batch("batch").unwrap().message, "batch cannot call itself");
}

#[test]
fn batches_are_summed_up() {
    let t = tally(&vec![true, false, true]);
    assert_eq!((t.ok, t.failed), (2, 1));
    let mut p = project();
    let (words, _) = p.sum_up("batch", &vec![true, false, true]);
    assert_eq!(words, "batch: 2 ok, 1 failed");
    assert_eq!(last_message(&p), words);
}

#[test]
fn layers_have_two_spellings() {
    assert_eq!(layer_label(CopperLayer::Bottom), "Bottom");
    assert_eq!(layer_to_str(CopperLayer::Bottom), "bottom");
    assert_eq!(layer_to_str(CopperLayer::Inner(2)), "inner2");
}

#[test]
fn ids_are_checked() {
    let id = Id::new();
    assert_eq!(parse_id(&id.text()).unwrap(), id);
    let e = parse_id("zz").unwrap_err();
    assert_eq!(e.code, INVALID_PARAMS);
    assert!(e.message.starts_with("invalid id zz: "));
}

#[test]
fn outlines_are_set_in_millimetres() {
    let mut p = project();
    assert_eq!(p.tool_board_set_outline(mm(50.0), mm(30.5)), "Board outline set to 50.0 × 30.5 mm");
    assert_eq!(p.board.outline, Some(Rect::from_corners(at(0.0, 0.0), at(50.0, 30.5))));
    assert_eq!(p.tool_project_reset(), "Project reset");
    assert_eq!(p.board.outline, None);
}

#[test]
fn copper_is_added_and_removed() {
    let mut p = project();
    let (reply, id) =
        p.tool_route_add_trace("A".into(), CopperLayer::Top, at(0.0, 0.0), at(5.0, 0.0), mm(0.25));
    assert_eq!(reply, format!("trace {} on Top (A)", id.text()));
    let (reply, v) = p.tool_route_add_via("A".into(), at(5.0, 0.0), mm(0.3), mm(0.6));
    assert_eq!(reply, format!("via {} (A)", v.text()));
    assert_eq!(
        p.tool_route_delete_trace(&id.text()).unwrap(),
        ("Trace removed".to_string(), true)
    );
    assert_eq!(
        p.tool_route_delete_trace(&id.text()).unwrap(),
        ("Trace not found".to_string(), false)
    );
    assert!(p.tool_route_delete_via("x").is_err());
    assert_eq!(p.tool_route_clear_net("A"), ("Cleared 1 item(s) from net A".to_string(), 1));
    assert_eq!(p.tool_route_clear(), "Cleared all traces and vias");
    assert_eq!(
        p.tool_pour_add("GND".into(), CopperLayer::Bottom),
        "Pour added: net=GND layer=Bottom"
    );
    assert_eq!(
        p.tool_pour_remove("GND", CopperLayer::Bottom),
        ("Pour removed: net=GND layer=Bottom".to_string(), true)
    );
    assert_eq!(
        p.tool_pour_remove("GND", CopperLayer::Bottom),
        ("No pour for net=GND layer=Bottom".to_string(), false)
    );
}

#[test]
fn a_routing_is_laid_step_by_step() {
    let mut p = project();
    let t = |x: f64| Trace {
        id: Id::new(),
        layer: CopperLayer::Top,
        start: at(x, 0.0),
        end: at(x, 5.0),
        width: mm(0.25),
        net: "A".into(),
    };
    let v = Via {
        id: Id::new(),
        position: at(0.0, 5.0),
        drill: mm(0.3),
        diameter: mm(0.6),
        net: "A".into(),
    };
    let traces = vec![t(0.0), t(1.0)];
    let first = traces[0].id;
    let report = RouteReport { trace_count: 2, via_count: 1, failed: vec!["B".into()] };
    let (reply, drc) = p.tool_route_run(traces, vec![v], &report);
    assert!(reply.starts_with("Routed: 2 traces, 1 vias (1 failed: B); DRC: "), "{reply}");
    assert!(reply.ends_with(&format!(
        "{} error(s), {} warning(s)",
        drc.error_count, drc.warning_count
    )));
    assert_eq!(p.board.traces[0].id, first);
    let counts: Vec<(usize, usize)> = p
        .events
        .iter()
        .filter_map(|e| match e {
            Event::RoutingChanged { trace_count, via_count } => Some((*trace_count, *via_count)),
            _ => None,
        })
        .collect();
    assert_eq!(counts, vec![(0, 0), (1, 0), (2, 0), (2, 1)]);
}

#[test]
fn rules_fall_back_to_the_usual() {
    let none =
        DrcInput { min_clearance: None, edge_clearance: None, min_trace_width: None, min_drill: None };
    let o = drc_options(none);
    assert_eq!(o.min_clearance, mm(0.2));
    let o = drc_options(DrcInput { min_clearance: Some(mm(0.5)), ..none });
    assert_eq!(o.min_clearance, mm(0.5));
    let mut p = project();
    let (words, report) = p.tool_drc_run(none);
    assert_eq!(words, "DRC: 0 error(s), 0 warning(s)");
    assert!(report.violations.is_empty());
}

fn resistor(reference: &str) -> SymbolInput {
    SymbolInput {
        reference: reference.into(),
        value: "10k".into(),
        kind: SymbolKind::Resistor,
        position: None,
        rotation: Rotation::zero(),
        key: String::new(),
        description: String::new(),
    }
}

#[test]
fn symbols_without_a_place_go_on_a_grid() {
    let mut p = project();
    p.tool_schematic_add_symbol(resistor("R1")).unwrap();
    let next = auto_place(&p.schematic);
    assert_ne!(p.schematic.symbols[0].position, next);
    let none = SymbolInput { kind: SymbolKind::GenericIc { pins: vec![] }, ..resistor("U1") };
    let e = p.tool_schematic_add_symbol(none).unwrap_err();
    assert_eq!(e.message, "schematic.add_symbol: kind=generic_ic requires a non-empty pins array");
    let pins = vec![SchPin {
        number: "1".into(),
        name: "IO".into(),
        side: PinSide::Left,
        role: PinRole::Passive,
    }];
    let ic = SymbolInput { kind: SymbolKind::GenericIc { pins }, ..resistor("U1") };
    p.tool_schematic_add_symbol(ic).unwrap();
    let (words, loose) = p.tool_schematic_status();
    assert_eq!(words, "schematic: 2 symbol(s), 0 net(s), 3 unconnected pin(s)");
    assert_eq!(loose, vec!["R1.1".to_string(), "R1.2".to_string(), "U1.1".to_string()]);
}

#[test]
fn pins_are_connected_by_address() {
    let mut p = project();
    p.tool_schematic_add_symbol(resistor("R1")).unwrap();
    p.tool_schematic_add_symbol(resistor("R2")).unwrap();
    let (words, n) =
        p.tool_schematic_connect("N1".into(), &vec!["R1.1".into(), "R2.2".into()]).unwrap();
    assert_eq!(words, "Net N1 now has 2 connection(s)");
    assert_eq!(n, 2);
    let e = p.tool_schematic_connect("N2".into(), &vec!["R1\t".into()]).unwrap_err();
    assert!(e.message.ends_with("expected REF.PIN format, got \"R1\\t\""), "{}", e.message);
    let e = p.tool_schematic_connect("N2".into(), &vec!["R9.1".into()]).unwrap_err();
    assert!(e.message.ends_with("unknown symbol R9"), "{}", e.message);
    assert_eq!(split_dot("U1.GND"), Some(("U1".to_string(), "GND".to_string())));
    assert_eq!(split_dot("U1"), None);
    let (words, nets) = p.tool_net_status();
    assert_eq!(words, "1 nets total, 0 with unconnected pads (all clean)");
    assert_eq!(nets[0].net, "N1");
    assert_eq!(nets[0].pad_count, 2);
    let (words, _, _) = p.tool_view_summary();
    assert_eq!(words, "2 symbols, 1 nets (1 fully connected), 0 placed, 0 in palette; DRC 0E 0W");
}

fn plan(reference: &str) -> PalettePlan {
    PalettePlan {
        reference: reference.into(),
        library: "lib".into(),
        rotation: Rotation::zero(),
        layer: CopperLayer::Top,
        pads: vec![LibraryPad {
            number: "1".into(),
            name: String::new(),
            x: mm(0.0),
            y: mm(0.0),
            w: mm(1.0),
            h: mm(2.0),
            drill: None,
        }],
        pad_layers: vec![CopperLayer::Top],
        edge_mounted: false,
    }
}

#[test]
fn parts_come_from_the_schematic() {
    let mut p = project();
    let e = p.tool_palette_add(vec![plan("R1")]).unwrap_err();
    assert_eq!(e.message, "palette.add: no schematic symbol named R1");
    p.tool_schematic_add_symbol(resistor("R1")).unwrap();
    assert_eq!(p.tool_palette_add(vec![plan("R1")]).unwrap(), "Added 1 item(s) to palette");
    assert!(p.tool_palette_add(vec![plan("R1")]).is_err());
    let (words, items) = p.tool_palette_list();
    assert_eq!(words, "1 item(s) waiting in the palette");
    assert_eq!(items[0].reference, "R1");
    assert_eq!(items[0].value, "10k");
    assert_eq!(items[0].pad_count, 1);
    assert_eq!(p.tool_palette_clear(), "Palette cleared");
}

fn entry(key: &str) -> LibraryEntry {
    LibraryEntry {
        key: key.into(),
        description: "a part".into(),
        default_value: "22k".into(),
        default_rotation: Rotation::zero(),
        edge_mounted: false,
        pads: plan("x").pads,
        silk: vec![],
        lcsc_id: None,
        mpn: None,
        attachments: vec![],
        created_at: 0,
        footprint_view_transform: ViewTransform::default(),
        placement_margin: PlacementMargin::default(),
        body_rect: None,
    }
}

#[test]
fn library_tools() {
    let mut p = project();
    let (words, stored) = p.tool_library_create(entry("res"), 9).unwrap();
    assert_eq!(words, "Saved res");
    assert_eq!(stored.created_at, 9);
    assert_eq!(last_message(&p), "library.create: res (1 pads)");
    assert_eq!(p.tool_library_find("res").unwrap().0, "Found res");
    let e = p.tool_library_find("cap").unwrap_err();
    assert_eq!(e.message, "library.find: no entry with key cap");
    let (words, record, file) = p
        .tool_library_attach("res", "note".into(), "n.txt".into(), "text/plain".into(), "aGVsbG8=", 3)
        .unwrap();
    assert_eq!(words, "Attached n.txt");
    assert_eq!(file.data, b"hello".to_vec());
    assert_eq!(file.name, format!("{}.txt", record.id));
    assert_eq!(last_message(&p), "library.attach: res ← n.txt (5 bytes)");
    let e = p
        .tool_library_attach("res", "n".into(), "n".into(), "text/plain".into(), "a", 3)
        .unwrap_err();
    assert!(e.message.starts_with("library.attach: invalid base64: "), "{}", e.message);
    assert_eq!(
        p.tool_library_delete_attachment("res", &record.id).unwrap().0,
        "Attachment removed"
    );
    assert_eq!(
        p.tool_library_delete_attachment("res", &record.id).unwrap().0,
        "No matching attachment"
    );
    assert_eq!(p.tool_library_delete("res").0, "Entry removed");
    assert_eq!(p.tool_library_delete("res").0, "No matching entry");
    let mut nameless = entry("");
    nameless.key = String::new();
    let e = p.tool_library_create(nameless, 1).unwrap_err();
    assert_eq!(e.message, "library: key must not be empty");
}

fn spawn(key: &str) -> SpawnInput {
    SpawnInput {
        reference: "R1".into(),
        key: key.into(),
        value: String::new(),
        rotation: None,
        layer: CopperLayer::Top,
    }
}

#[test]
fn library_parts_are_spawned() {
    let mut p = project();
    let e = p.tool_palette_add_from_library(spawn("res")).unwrap_err();
    assert_eq!(e.message, "palette.add_from_library: no library entry with key res");
    p.tool_library_create(entry("res"), 9).unwrap();
    let e = p.tool_palette_add_from_library(spawn("res")).unwrap_err();
    assert_eq!(e.message, "palette.add_from_library: no schematic symbol named R1");
    p.tool_schematic_add_symbol(resistor("R1")).unwrap();
    assert_eq!(p.tool_palette_add_from_library(spawn("res")).unwrap(), "Spawned R1 from res");
    assert_eq!(p.palette[0].library, "library:res");
    assert_eq!(p.palette[0].key, "res");
}

#[test]
fn placements_go_one_by_one_or_in_batches() {
    let mut p = project();
    p.tool_board_set_outline(mm(50.0), mm(50.0));
    for r in ["R1", "R2"] {
        p.tool_schematic_add_symbol(resistor(r)).unwrap();
        p.tool_palette_add(vec![plan(r)]).unwrap();
    }
    let (words, id) = p.tool_place_from_palette("R1", at(10.0, 10.0)).unwrap();
    assert_eq!(words, "Placed R1");
    assert_eq!(p.board.footprints[0].id, id);
    let items = vec![
        BatchItem {
            reference: "R2".into(),
            position: at(20.0, 10.0),
            rotation: Some(Rotation::degrees(90)),
        },
        BatchItem { reference: "R3".into(), position: at(30.0, 10.0), rotation: None },
    ];
    let (words, outcomes) = p.tool_placement_batch(&items);
    assert!(words.contains("1 placed, 1 failed"), "{words}");
    assert!(matches!(outcomes[0], Outcome::Placed(_)));
    assert!(matches!(outcomes[1], Outcome::NotPlaced(_)));
    assert_eq!(
        p.tool_placement_move("R1", at(12.0, 10.0)).unwrap(),
        "Moved R1 to (12.00, 10.00) mm"
    );
    assert_eq!(
        p.tool_placement_rotate("R1", Rotation::degrees(450)).unwrap(),
        "Rotated R1 to 90°"
    );
    assert!(p.tool_placement_rotate("R7", Rotation::zero()).is_err());
    let views = snapshot(&p.board);
    assert_eq!(views.len(), 2);
    assert_eq!(views[0].reference, "R1");
    assert_eq!(views[0].pads[0].center, at(12.0, 10.0));
}

#[test]
fn angles_are_brought_into_one_turn() {
    assert_eq!(normalise(Rotation::degrees(-90)).udeg, 270_000_000);
    assert_eq!(normalise(Rotation::degrees(720)).udeg, 0);
}

#[test]
fn a_bad_id_is_quoted_with_the_reason() {
    let mut p = project();
    let e = p.tool_route_delete_trace("x").unwrap_err();
    assert_eq!(e.code, INVALID_PARAMS);
    assert!(e.message.starts_with("invalid id x: "), "{}", e.message);
    let before = p.events.len();
    assert_eq!(p.tool_route_delete_via(&Id::new().text()).unwrap().1, false);
    assert_eq!(p.events.len(), before);
    let via = p.add_via(Via {
        id: Id::new(),
        position: at(1.0, 1.0),
        drill: mm(0.3),
        diameter: mm(0.6),
        net: "A".into(),
    });
    let before = p.events.len();
    assert_eq!(p.tool_route_delete_via(&via.text()).unwrap().1, true);
    assert_eq!(p.events.len(), before + 1);
}

#[test]
fn a_new_pour_has_four_spokes_and_no_stitching() {
    let mut p = project();
    p.tool_pour_add("GND".into(), CopperLayer::Top);
    let pour = p.board.pours.last().unwrap();
    assert_eq!(
        pour.thermal_relief,
        ThermalRelief::Spokes4 { spoke_width: mm(0.4), gap: mm(0.4) }
    );
    assert_eq!(pour.stitching, StitchPolicy::Off);
}
