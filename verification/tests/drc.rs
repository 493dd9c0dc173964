//! Design rule checks.

use pcb::board::{Board, CopperLayer, Footprint, Id, Keepout, Pad, Trace, Via};
use pcb::drc::{impedance_targets, run, DrcOptions, FabProfile, ImpedanceReading, NetOverride};
use pcb::geometry::{Point, Rect};
use pcb::islands::UnionFind;
use pcb::library::{MarginTable, PlacementMargin};
use pcb::profiles::by_name;
use pcb::rotation::Rotation;
use pcb::schematic::{Net, NetClass, Schematic};
use pcb::units::Length;
use pcb::violation::{DrcReport, Severity, ViolationKind};

fn mm(v: f64) -> Length {
    Length((v * 1e6).round() as i64)
}

fn at(x: f64, y: f64) -> Point {
    Point::new(mm(x), mm(y))
}

fn has(report: &DrcReport, kind: ViolationKind) -> bool {
    report.violations.iter().any(|v| v.kind == kind)
}

/// Microstrip impedance in ohms (IPC-2141), 1.5 mm FR-4 with 1 oz copper.
fn microstrip(width_mm: f64) -> f64 {
    let arg = 5.98 * 1.5 / (0.8 * width_mm + 0.035);
    87.0 / (4.5f64 + 1.41).sqrt() * arg.ln()
}

fn width_for(target: f64) -> f64 {
    let (mut lo, mut hi) = (0.05, 5.0);
    for _ in 0..60 {
        let mid = (lo + hi) / 2.0;
        if microstrip(mid) > target {
            lo = mid;
        } else {
            hi = mid;
        }
    }
    (lo + hi) / 2.0
}

fn rf_schematic(width: f64) -> Schematic {
    let mut sch = Schematic::new();
    sch.set_net_class(NetClass {
        name: "rf50".into(),
        trace_width: Some(mm(width)),
        target_impedance: Some(50_000),
        ..NetClass::default()
    });
    sch.assign_net_to_class("RFOUT".into(), "rf50".into());
    sch.set_net(Net { name: "RFOUT".into(), connections: vec![], class: Some("rf50".into()) });
    sch
}

fn with_impedances(sch: Schematic) -> DrcOptions {
    let usual = DrcOptions::default();
    let impedances = impedance_targets(&sch, usual.min_trace_width)
        .into_iter()
        .map(|t| ImpedanceReading {
            actual: (microstrip(t.width.0 as f64 / 1e6) * 1000.0).round() as i64,
            net: t.net,
            width: t.width,
            target: t.target,
        })
        .collect();
    DrcOptions { schematic: Some(sch), impedances, ..usual }
}

#[test]
fn impedance_within_tolerance_passes_drc() {
    // The width that matches is computed first, so the test does not rest
    // on the constants of the formula.
    let report = run(&Board::new(), &with_impedances(rf_schematic(width_for(50.0))));
    assert!(
        !has(&report, ViolationKind::ImpedanceMismatch),
        "expected no impedance mismatch, got {:?}",
        report.violations
    );
}

#[test]
fn impedance_too_wide_flags_drc() {
    // 0.25 mm trace on 1.5 mm FR-4: over 100 ohms, far from the 50 ohm target.
    let report = run(&Board::new(), &with_impedances(rf_schematic(0.25)));
    assert!(
        has(&report, ViolationKind::ImpedanceMismatch),
        "expected impedance mismatch for narrow trace, got {:?}",
        report.violations
    );
}

fn pad_fp_at(reference: &str, net: &str, x: f64, y: f64) -> Footprint {
    Footprint {
        id: Id::new(),
        reference: reference.into(),
        value: String::new(),
        library: "lib".into(),
        position: at(x, y),
        rotation: Rotation::zero(),
        layer: CopperLayer::Top,
        pads: vec![Pad {
            number: "1".into(),
            name: String::new(),
            offset: Point::origin(),
            size: (mm(1.0), mm(1.0)),
            layer: CopperLayer::Top,
            net: Some(net.into()),
            drill: None,
        }],
        key: String::new(),
        description: String::new(),
        edge_mounted: false,
        silk: vec![],
    }
}

fn jlc_profile() -> FabProfile {
    FabProfile {
        name: "jlcpcb".into(),
        min_trace_width: mm(0.127),
        min_clearance: mm(0.127),
        min_drill: mm(0.20),
        min_annular_ring: mm(0.13),
        min_via_diameter: mm(0.45),
        min_edge_clearance: mm(0.20),
        max_board_size: (mm(100.0), mm(100.0)),
    }
}

fn routed(width: f64) -> Board {
    let mut board = Board::new();
    board.add_footprint(pad_fp_at("U1", "SIG", 0.0, 0.0));
    board.add_trace(Trace {
        id: Id::new(),
        layer: CopperLayer::Top,
        start: at(0.0, 0.0),
        end: at(2.0, 0.0),
        width: mm(width),
        net: "SIG".into(),
    });
    board
}

fn with_profile() -> DrcOptions {
    DrcOptions { fab_profile: Some(jlc_profile()), ..DrcOptions::default() }
}

#[test]
fn jlcpcb_profile_flags_subminimum_trace() {
    // 0.10 mm is below the 0.127 mm minimum.
    let report = run(&routed(0.10), &with_profile());
    assert!(
        has(&report, ViolationKind::FabProfileMin),
        "expected FabProfileMin, got {:?}",
        report.violations
    );
}

#[test]
fn jlcpcb_profile_accepts_default_trace() {
    // 0.25 mm is well above the 0.127 mm minimum.
    let report = run(&routed(0.25), &with_profile());
    assert!(
        !has(&report, ViolationKind::FabProfileMin),
        "should not flag a 0.25 mm trace; got {:?}",
        report.violations
    );
}

#[test]
fn clear_profile_drops_violations() {
    let board = routed(0.10);
    assert!(has(&run(&board, &with_profile()), ViolationKind::FabProfileMin));
    let without = run(&board, &DrcOptions::default());
    assert!(
        !has(&without, ViolationKind::FabProfileMin),
        "clearing the profile should drop FabProfileMin violations"
    );
}

#[test]
fn a_small_via_breaks_the_profile() {
    let mut board = Board::new();
    board.add_via(Via {
        id: Id::new(),
        position: at(0.0, 0.0),
        drill: mm(0.25),
        diameter: mm(0.40),
        net: "A".into(),
    });
    assert!(has(&run(&board, &with_profile()), ViolationKind::FabProfileMin));
}

fn trace(net: &str, x0: f64, y0: f64, x1: f64, y1: f64) -> Trace {
    Trace {
        id: Id::new(),
        layer: CopperLayer::Top,
        start: at(x0, y0),
        end: at(x1, y1),
        width: mm(0.25),
        net: net.into(),
    }
}

#[test]
fn net_split_into_two_islands_flags_open() {
    // Two GND pads 10 mm apart, each with its own stub; the stubs never meet.
    let mut board = Board::new();
    board.add_footprint(pad_fp_at("R1", "GND", 0.0, 0.0));
    board.add_footprint(pad_fp_at("R2", "GND", 10.0, 0.0));
    board.add_trace(trace("GND", 0.0, 0.0, 4.0, 0.0));
    board.add_trace(trace("GND", 6.0, 0.0, 10.0, 0.0));

    let report = run(&board, &DrcOptions::default());
    assert!(
        has(&report, ViolationKind::NetSplit),
        "expected NetSplit, got {:?}",
        report.violations
    );
    assert!(
        !has(&report, ViolationKind::UnconnectedPad),
        "split with local copper must not double-report as UnconnectedPad"
    );
}

#[test]
fn fully_routed_net_has_no_split() {
    let mut board = Board::new();
    board.add_footprint(pad_fp_at("R1", "GND", 0.0, 0.0));
    board.add_footprint(pad_fp_at("R2", "GND", 10.0, 0.0));
    board.add_trace(trace("GND", 0.0, 0.0, 10.0, 0.0));

    let report = run(&board, &DrcOptions::default());
    assert!(
        !has(&report, ViolationKind::NetSplit),
        "a continuously routed net must not flag NetSplit, got {:?}",
        report.violations
    );
}

#[test]
fn crossing_nets_flag_short() {
    // VCC runs horizontally, GND vertically; they cross at (2.5, 0).
    let mut board = Board::new();
    board.add_footprint(pad_fp_at("U1", "VCC", -5.0, 0.0));
    board.add_footprint(pad_fp_at("U2", "GND", 2.5, -5.0));
    board.add_trace(trace("VCC", 0.0, 0.0, 5.0, 0.0));
    board.add_trace(trace("GND", 2.5, -2.0, 2.5, 2.0));

    let report = run(&board, &DrcOptions::default());
    let short = report.violations.iter().find(|v| v.kind == ViolationKind::NetShort);
    let short = short.expect("expected a NetShort for crossing VCC/GND traces");
    assert!(
        short.involved.contains(&"VCC".to_string()) && short.involved.contains(&"GND".to_string()),
        "short should name both nets, got {:?}",
        short.involved
    );
}

#[test]
fn parallel_clear_nets_have_no_short() {
    // Same two nets, 3 mm apart, never touching.
    let mut board = Board::new();
    board.add_footprint(pad_fp_at("U1", "VCC", -5.0, 0.0));
    board.add_footprint(pad_fp_at("U2", "GND", -5.0, 3.0));
    board.add_trace(trace("VCC", 0.0, 0.0, 5.0, 0.0));
    board.add_trace(trace("GND", 0.0, 3.0, 5.0, 3.0));

    let report = run(&board, &DrcOptions::default());
    assert!(
        !has(&report, ViolationKind::NetShort),
        "well-separated nets must not flag NetShort, got {:?}",
        report.violations
    );
}

fn pad(num: &str, off_x: f64, off_y: f64, net: Option<&str>) -> Pad {
    Pad {
        number: num.into(),
        name: String::new(),
        offset: at(off_x, off_y),
        size: (mm(1.0), mm(1.2)),
        layer: CopperLayer::Top,
        net: net.map(str::to_string),
        drill: None,
    }
}

fn fp(reference: &str, x: f64, y: f64, pads: Vec<Pad>) -> Footprint {
    Footprint {
        id: Id::new(),
        reference: reference.into(),
        value: String::new(),
        library: "demo".into(),
        position: at(x, y),
        rotation: Rotation::zero(),
        layer: CopperLayer::Top,
        pads,
        key: String::new(),
        description: String::new(),
        edge_mounted: false,
        silk: Vec::new(),
    }
}

fn sheet(w: f64, h: f64) -> Board {
    let mut board = Board::new();
    board.outline = Some(Rect::from_corners(at(0.0, 0.0), at(w, h)));
    board
}

#[test]
fn pad_pad_clearance_violation() {
    let mut board = sheet(50.0, 20.0);
    // Two pads 0.05 mm apart at the edges: way under 0.2 mm clearance.
    board.add_footprint(fp("R1", 10.0, 10.0, vec![pad("1", 0.0, 0.0, Some("A"))]));
    board.add_footprint(fp("R2", 11.05, 10.0, vec![pad("1", 0.0, 0.0, Some("B"))]));
    assert!(has(&run(&board, &DrcOptions::default()), ViolationKind::PadPadClearance));
}

#[test]
fn unconnected_pad_is_flagged() {
    let mut board = sheet(50.0, 20.0);
    board.add_footprint(fp("R1", 10.0, 10.0, vec![pad("1", 0.0, 0.0, Some("VCC"))]));
    assert!(has(&run(&board, &DrcOptions::default()), ViolationKind::UnconnectedPad));
}

#[test]
fn trace_touching_pad_marks_pad_as_connected() {
    let mut board = sheet(50.0, 20.0);
    board.add_footprint(fp("R1", 10.0, 10.0, vec![pad("1", 0.0, 0.0, Some("VCC"))]));
    board.add_trace(trace("VCC", 10.0, 10.0, 20.0, 10.0));
    assert!(!has(&run(&board, &DrcOptions::default()), ViolationKind::UnconnectedPad));
}

fn two_pads() -> Board {
    let mut board = sheet(50.0, 50.0);
    // Two pads on net "S" 10 mm apart on the X axis.
    board.add_footprint(fp("R1", 5.0, 25.0, vec![pad("1", 0.0, 0.0, Some("S"))]));
    board.add_footprint(fp("R2", 15.0, 25.0, vec![pad("1", 0.0, 0.0, Some("S"))]));
    board
}

#[test]
fn routing_inefficient_fires_when_actual_far_exceeds_hpwl() {
    let mut board = two_pads();
    // The trace snakes over 30 mm, three times the half perimeter.
    board.add_trace(trace("S", 5.0, 25.0, 5.0, 35.0));
    board.add_trace(trace("S", 5.0, 35.0, 15.0, 35.0));
    board.add_trace(trace("S", 15.0, 35.0, 15.0, 25.0));
    assert!(has(&run(&board, &DrcOptions::default()), ViolationKind::RoutingInefficient));
}

#[test]
fn routing_inefficient_silent_when_close_to_hpwl() {
    let mut board = two_pads();
    board.add_trace(trace("S", 5.0, 25.0, 15.0, 25.0));
    assert!(!has(&run(&board, &DrcOptions::default()), ViolationKind::RoutingInefficient));
}

#[test]
fn body_off_board_is_error_even_for_edge_mounted() {
    let mut board = sheet(20.0, 20.0);
    // Edge-mounted connector flush against the right edge: the pads fit on
    // the board, the placement margin pushes the body 3 mm past the outline.
    let mut connector = fp("J1", 18.75, 10.0, vec![pad("1", 0.0, 0.0, Some("D+"))]);
    connector.key = "usb_c".into();
    connector.edge_mounted = true;
    board.add_footprint(connector);

    let margin =
        PlacementMargin { top: mm(0.0), right: mm(3.0), bottom: mm(0.0), left: mm(0.0) };
    let opts = DrcOptions {
        placement_margins: MarginTable { entries: vec![("usb_c".to_string(), margin)] },
        ..DrcOptions::default()
    };
    let report = run(&board, &opts);
    let off_board: Vec<_> =
        report.violations.iter().filter(|v| v.kind == ViolationKind::BodyOffBoard).collect();
    assert_eq!(
        off_board.len(),
        1,
        "expected exactly one BodyOffBoard violation, got: {:#?}",
        report.violations
    );
    assert_eq!(
        off_board[0].severity,
        Severity::Error,
        "BodyOffBoard must be a hard error, not a warning"
    );
}

#[test]
fn edge_clearance_violation() {
    let mut board = sheet(20.0, 20.0);
    // Pad sitting flush on the left edge.
    board.add_footprint(fp("R1", 0.5, 10.0, vec![pad("1", 0.0, 0.0, None)]));
    assert!(has(&run(&board, &DrcOptions::default()), ViolationKind::EdgeClearance));
}

fn fenced() -> Board {
    let mut board = sheet(40.0, 20.0);
    board.keepouts.push(Keepout {
        id: Id::new(),
        polygon: vec![at(10.0, 5.0), at(30.0, 5.0), at(30.0, 15.0), at(10.0, 15.0)],
        layers: vec![],
        nets_allowed: vec![],
        label: "test".into(),
    });
    board
}

#[test]
fn keepout_visible_in_drc_report() {
    let mut board = fenced();
    // A trace running right through the keepout.
    board.traces.push(trace("FOO", 5.0, 10.0, 35.0, 10.0));
    let report = run(&board, &DrcOptions::default());
    assert!(
        has(&report, ViolationKind::KeepoutViolation),
        "expected at least one KeepoutViolation, got: {:#?}",
        report.violations
    );
}

#[test]
fn a_keepout_binds_the_nets_on_its_list_too() {
    let mut board = fenced();
    board.keepouts[0].nets_allowed.push("FOO".into());
    board.traces.push(trace("FOO", 5.0, 10.0, 35.0, 10.0));
    assert!(has(&run(&board, &DrcOptions::default()), ViolationKind::KeepoutViolation));
}

#[test]
fn counts_match_the_findings() {
    let mut board = sheet(20.0, 20.0);
    board.add_footprint(fp("R1", 0.5, 10.0, vec![pad("1", 0.0, 0.0, Some("A"))]));
    board.add_trace(Trace { width: mm(0.05), ..trace("B", 5.0, 5.0, 10.0, 5.0) });
    let report = run(&board, &DrcOptions::default());
    let errors = report.violations.iter().filter(|v| v.severity == Severity::Error).count();
    assert_eq!(report.error_count, errors);
    assert_eq!(report.error_count + report.warning_count, report.violations.len());
    assert!(has(&report, ViolationKind::NarrowTrace));
    assert!(!has(&run(&Board::new(), &DrcOptions::default()), ViolationKind::NarrowTrace));
}

#[test]
fn small_drills_are_flagged() {
    let mut board = Board::new();
    board.add_via(Via {
        id: Id::new(),
        position: at(5.0, 5.0),
        drill: mm(0.1),
        diameter: mm(0.5),
        net: "A".into(),
    });
    assert!(has(&run(&board, &DrcOptions::default()), ViolationKind::SmallDrill));
}

#[test]
fn close_traces_of_two_nets_are_flagged() {
    let mut board = Board::new();
    board.add_trace(trace("A", 0.0, 0.0, 5.0, 0.0));
    board.add_trace(trace("B", 0.0, 0.4, 5.0, 0.4));
    let report = run(&board, &DrcOptions::default());
    assert!(has(&report, ViolationKind::TraceTraceClearance));
    // Only 0.15 mm of room: a smaller rule accepts it.
    let relaxed = DrcOptions { min_clearance: mm(0.1), ..DrcOptions::default() };
    assert!(!has(&run(&board, &relaxed), ViolationKind::TraceTraceClearance));
}

#[test]
fn a_net_of_its_own_rule_keeps_more_distance() {
    let mut board = Board::new();
    board.add_trace(trace("A", 0.0, 0.0, 5.0, 0.0));
    board.add_trace(trace("B", 0.0, 0.6, 5.0, 0.6));
    assert!(!has(&run(&board, &DrcOptions::default()), ViolationKind::TraceTraceClearance));
    let mut opts = DrcOptions::default();
    opts.net_overrides.insert("A".into(), NetOverride { clearance: Some(mm(0.5)) });
    assert!(has(&run(&board, &opts), ViolationKind::TraceTraceClearance));
}

#[test]
fn a_foreign_trace_close_to_a_pad_is_flagged() {
    let mut board = Board::new();
    board.add_footprint(fp("R1", 0.0, 0.0, vec![pad("1", 0.0, 0.0, Some("A"))]));
    board.add_trace(trace("B", 0.7, -3.0, 0.7, 3.0));
    assert!(has(&run(&board, &DrcOptions::default()), ViolationKind::TracePadClearance));
}

#[test]
fn overlapping_bodies_are_flagged() {
    let mut board = sheet(50.0, 50.0);
    for (r, x) in [("U1", 10.0), ("U2", 12.0)] {
        let mut part = fp(r, x, 10.0, vec![pad("1", 0.0, 0.0, None)]);
        part.key = "big".into();
        board.add_footprint(part);
    }
    let margin =
        PlacementMargin { top: mm(1.0), right: mm(1.0), bottom: mm(1.0), left: mm(1.0) };
    let opts = DrcOptions {
        placement_margins: MarginTable { entries: vec![("big".to_string(), margin)] },
        ..DrcOptions::default()
    };
    assert!(has(&run(&board, &opts), ViolationKind::BodyOverlap));
    assert!(!has(&run(&board, &DrcOptions::default()), ViolationKind::BodyOverlap));
}

#[test]
fn merged_islands_share_a_root() {
    let mut uf = UnionFind::new(5);
    uf.union(0, 1);
    uf.union(3, 4);
    assert_eq!(uf.find(0), uf.find(1));
    assert_ne!(uf.find(1), uf.find(3));
    uf.union(1, 4);
    assert_eq!(uf.find(0), uf.find(3));
    assert_ne!(uf.find(2), uf.find(3));
}

#[test]
fn profiles_go_by_name_in_any_case() {
    assert!(by_name("JLCPCB").is_some());
    assert!(by_name("pcbway").is_some());
    assert!(by_name("nobody").is_none());
}

#[test]
fn a_short_is_flagged_once_for_two_nets() {
    // Two crossings of the same two nets.
    let mut board = Board::new();
    board.add_trace(trace("VCC", 0.0, 0.0, 5.0, 0.0));
    board.add_trace(trace("GND", 1.5, -2.0, 1.5, 2.0));
    board.add_trace(trace("GND", 3.5, -2.0, 3.5, 2.0));
    let report = run(&board, &DrcOptions::default());
    let shorts = report.violations.iter().filter(|v| v.kind == ViolationKind::NetShort).count();
    assert_eq!(shorts, 1);
}

#[test]
fn copper_at_the_edge_breaks_the_profile() {
    let mut board = sheet(20.0, 20.0);
    board.add_trace(trace("A", 5.0, 0.25, 9.0, 0.25));
    board.add_via(Via {
        id: Id::new(),
        position: at(10.0, 10.0),
        drill: mm(0.3),
        diameter: mm(0.6),
        net: "A".into(),
    });
    let report = run(&board, &with_profile());
    let messages: Vec<&str> = report
        .violations
        .iter()
        .filter(|v| v.kind == ViolationKind::FabProfileMin)
        .map(|v| v.message.as_str())
        .collect();
    assert_eq!(messages, ["trace A edge clearance 0.125 mm < jlcpcb min 0.200 mm"]);
}

#[test]
fn the_class_of_a_net_wins_over_its_override() {
    let mut board = Board::new();
    board.add_trace(trace("A", 0.0, 0.0, 5.0, 0.0));
    board.add_trace(trace("B", 0.0, 0.6, 5.0, 0.6));
    let mut opts = DrcOptions::default();
    opts.net_overrides.insert("A".into(), NetOverride { clearance: Some(mm(0.5)) });
    let mut sch = Schematic::new();
    sch.set_net_class(NetClass { name: "tight".into(), ..NetClass::default() });
    sch.assign_net_to_class("A".into(), "tight".into());
    opts.schematic = Some(sch);
    // A class that says nothing of clearance leaves the override alone.
    assert!(has(&run(&board, &opts), ViolationKind::TraceTraceClearance));
    let sch = opts.schematic.as_mut().unwrap();
    sch.set_net_class(NetClass {
        name: "tight".into(),
        clearance: Some(mm(0.3)),
        ..NetClass::default()
    });
    assert!(!has(&run(&board, &opts), ViolationKind::TraceTraceClearance));
}

#[test]
fn pads_without_a_net_may_be_close() {
    let mut board = Board::new();
    board.add_footprint(fp("R1", 10.0, 10.0, vec![pad("1", 0.0, 0.0, None)]));
    board.add_footprint(fp("R2", 11.05, 10.0, vec![pad("1", 0.0, 0.0, None)]));
    assert!(!has(&run(&board, &DrcOptions::default()), ViolationKind::PadPadClearance));
    board.footprints[1].pads[0].net = Some("A".into());
    assert!(has(&run(&board, &DrcOptions::default()), ViolationKind::PadPadClearance));
}

#[test]
fn copper_that_meets_by_less_than_a_nanometre_is_a_short() {
    let mut board = Board::new();
    board.add_trace(trace("VCC", 0.0, 0.0, 10.0, 3.0));
    board.traces[0].width = mm(0.25);
    board.add_via(Via {
        id: Id::new(),
        position: Point::new(Length(3_877_879), Length(1_607_081)),
        drill: mm(0.3),
        diameter: Length(600_007),
        net: "GND".into(),
    });
    let report = run(&board, &DrcOptions::default());
    assert!(has(&report, ViolationKind::NetShort), "{:?}", report.violations);
}

#[test]
fn a_profile_adds_its_findings_behind_the_others() {
    let words = |r: &DrcReport| -> Vec<String> {
        r.violations.iter().map(|v| v.message.clone()).collect()
    };
    let board = routed(0.10);
    let plain = words(&run(&board, &DrcOptions::default()));
    let with = words(&run(&board, &with_profile()));
    assert!(with.len() > plain.len());
    assert_eq!(with[..plain.len()].to_vec(), plain);
}
