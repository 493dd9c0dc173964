//! Electrical rule checks: small schematics that trigger one rule each.

use pcb::board::{Board, CopperLayer, Footprint, Id, Pad, Pour, StitchPolicy, ThermalRelief};
use pcb::erc::{run, ErcKind, ErcOptions, Violation};
use pcb::geometry::Point;
use pcb::rotation::Rotation;
use pcb::schematic::{Net, NetConnection, PinRole, PinSide, SchPin, Schematic, Symbol, SymbolKind};
use pcb::units::Length;
use pcb::violation::Severity;

fn mm(v: f64) -> Length {
    Length((v * 1e6).round() as i64)
}

fn ic_symbol(reference: &str, pin_count: usize) -> Symbol {
    ic_symbol_with_roles(reference, &(1..=pin_count).map(|_| PinRole::Passive).collect::<Vec<_>>())
}

fn ic_symbol_with_roles(reference: &str, roles: &[PinRole]) -> Symbol {
    let pins: Vec<SchPin> = roles
        .iter()
        .enumerate()
        .map(|(i, role)| SchPin {
            number: (i + 1).to_string(),
            name: String::new(),
            side: PinSide::Left,
            role: *role,
        })
        .collect();
    Symbol {
        id: Id::new(),
        reference: reference.into(),
        value: String::new(),
        kind: SymbolKind::GenericIc { pins },
        position: Point::origin(),
        rotation: Rotation::zero(),
        key: String::new(),
        description: String::new(),
    }
}

fn to(symbol_id: Id, pin: &str) -> NetConnection {
    NetConnection { symbol_id, pin_number: pin.into() }
}

fn net(name: &str, connections: Vec<NetConnection>) -> Net {
    Net { name: name.into(), connections, class: None }
}

fn board_with_phantom_pad(net: &str) -> Board {
    let mut board = Board::new();
    board.add_footprint(Footprint {
        id: Id::new(),
        reference: "R1".into(),
        value: String::new(),
        library: "demo".into(),
        position: Point::new(mm(10.0), mm(10.0)),
        rotation: Rotation::zero(),
        layer: CopperLayer::Top,
        pads: vec![Pad {
            number: "1".into(),
            name: String::new(),
            offset: Point::origin(),
            size: (mm(1.0), mm(1.0)),
            layer: CopperLayer::Top,
            net: Some(net.to_string()),
            drill: None,
        }],
        key: String::new(),
        description: String::new(),
        edge_mounted: false,
        silk: Vec::new(),
    });
    board
}

#[test]
fn floating_pin_fires_when_pin_is_unconnected() {
    let mut sch = Schematic::new();
    let u = ic_symbol("U1", 3);
    let u_id = u.id;
    sch.add_symbol(u);
    // Pin 1 alone is wired, twice so that the net does not count as
    // floating itself.
    sch.set_net(net("S", vec![to(u_id, "1"), to(u_id, "1")]));
    let report = run(&Board::new(), &sch, &ErcOptions::default());
    let floating: Vec<&Violation> =
        report.violations.iter().filter(|v| v.kind == ErcKind::FloatingPin).collect();
    assert_eq!(floating.len(), 2, "expected pin 2 and pin 3 floating, got {floating:?}");
}

#[test]
fn floating_net_fires_when_only_one_pin() {
    let mut sch = Schematic::new();
    let u = ic_symbol("U1", 2);
    let u_id = u.id;
    sch.add_symbol(u);
    sch.set_net(net("S", vec![to(u_id, "1")]));
    let report = run(&Board::new(), &sch, &ErcOptions::default());
    assert!(report
        .violations
        .iter()
        .any(|v| v.kind == ErcKind::FloatingNet && v.involved.contains(&"S".to_string())));
}

#[test]
fn duplicate_pin_fires_when_same_pin_in_two_nets() {
    let mut sch = Schematic::new();
    let u = ic_symbol("U1", 2);
    let u_id = u.id;
    sch.add_symbol(u);
    sch.set_net(net("A", vec![to(u_id, "1")]));
    sch.set_net(net("B", vec![to(u_id, "1")]));
    let report = run(&Board::new(), &sch, &ErcOptions::default());
    let dup = report
        .violations
        .iter()
        .find(|v| v.kind == ErcKind::DuplicatePin)
        .expect("expected DuplicatePin");
    assert_eq!(dup.severity, Severity::Error);
    assert!(dup.involved.contains(&"U1.1".to_string()));
}

#[test]
fn empty_net_fires_when_no_connections() {
    let mut sch = Schematic::new();
    sch.set_net(net("ORPHAN", Vec::new()));
    let report = run(&Board::new(), &sch, &ErcOptions::default());
    assert!(report
        .violations
        .iter()
        .any(|v| v.kind == ErcKind::EmptyNet && v.involved.contains(&"ORPHAN".to_string())));
}

#[test]
fn orphan_symbol_fires_when_no_pin_is_in_any_net() {
    let mut sch = Schematic::new();
    sch.add_symbol(ic_symbol("U1", 4));
    let report = run(&Board::new(), &sch, &ErcOptions::default());
    assert!(report
        .violations
        .iter()
        .any(|v| v.kind == ErcKind::OrphanSymbol && v.involved.contains(&"U1".to_string())));
}

#[test]
fn phantom_net_fires_when_pad_references_unknown_net() {
    let board = board_with_phantom_pad("MYSTERY");
    let report = run(&board, &Schematic::new(), &ErcOptions::default());
    let phantom = report
        .violations
        .iter()
        .find(|v| v.kind == ErcKind::PhantomNet)
        .expect("expected PhantomNet");
    assert_eq!(phantom.severity, Severity::Error);
    assert!(phantom.involved.iter().any(|s| s == "MYSTERY"));
}

#[test]
fn multiple_drivers_fires_when_two_outputs_share_a_net() {
    let mut sch = Schematic::new();
    let u1 = ic_symbol_with_roles("U1", &[PinRole::Output, PinRole::Passive]);
    let u2 = ic_symbol_with_roles("U2", &[PinRole::Output, PinRole::Passive]);
    let (u1_id, u2_id) = (u1.id, u2.id);
    sch.add_symbol(u1);
    sch.add_symbol(u2);
    sch.set_net(net("S", vec![to(u1_id, "1"), to(u2_id, "1")]));
    let report = run(&Board::new(), &sch, &ErcOptions::default());
    let drivers = report
        .violations
        .iter()
        .find(|v| v.kind == ErcKind::MultipleDrivers)
        .expect("expected MultipleDrivers");
    assert_eq!(drivers.severity, Severity::Error);
    assert!(drivers.involved.contains(&"U1.1".to_string()));
    assert!(drivers.involved.contains(&"U2.1".to_string()));
}

#[test]
fn unpowered_power_net_fires_when_only_consumers() {
    let mut sch = Schematic::new();
    let u = ic_symbol_with_roles("U1", &[PinRole::PowerIn]);
    let u_id = u.id;
    sch.add_symbol(u);
    sch.set_net(net("+3V3", vec![to(u_id, "1")]));
    let report = run(&Board::new(), &sch, &ErcOptions::default());
    assert!(report.violations.iter().any(|v| v.kind == ErcKind::UnpoweredPowerNet));
}

#[test]
fn unpowered_power_net_silent_when_pour_supplies_it() {
    let mut sch = Schematic::new();
    let u = ic_symbol_with_roles("U1", &[PinRole::PowerIn]);
    let u_id = u.id;
    sch.add_symbol(u);
    sch.set_net(net("GND", vec![to(u_id, "1")]));
    let mut board = Board::new();
    board.add_pour(Pour {
        net: "GND".into(),
        layer: CopperLayer::Bottom,
        thermal_relief: ThermalRelief::default(),
        stitching: StitchPolicy::default(),
    });
    let report = run(&board, &sch, &ErcOptions::default());
    assert!(!report.violations.iter().any(|v| v.kind == ErcKind::UnpoweredPowerNet));
}

#[test]
fn unconnected_input_fires_when_no_driver() {
    let mut sch = Schematic::new();
    let u1 = ic_symbol_with_roles("U1", &[PinRole::Input]);
    let u2 = ic_symbol_with_roles("U2", &[PinRole::Passive]);
    let (u1_id, u2_id) = (u1.id, u2.id);
    sch.add_symbol(u1);
    sch.add_symbol(u2);
    sch.set_net(net("S", vec![to(u1_id, "1"), to(u2_id, "1")]));
    let report = run(&Board::new(), &sch, &ErcOptions::default());
    assert!(report.violations.iter().any(|v| v.kind == ErcKind::UnconnectedInput));
}

#[test]
fn clean_schematic_produces_zero_violations() {
    let mut sch = Schematic::new();
    let u1 = ic_symbol("U1", 2);
    let u2 = ic_symbol("U2", 2);
    let (u1_id, u2_id) = (u1.id, u2.id);
    sch.add_symbol(u1);
    sch.add_symbol(u2);
    // Two nets, both with two endpoints, every pin covered.
    sch.set_net(net("A", vec![to(u1_id, "1"), to(u2_id, "1")]));
    sch.set_net(net("B", vec![to(u1_id, "2"), to(u2_id, "2")]));
    let report = run(&Board::new(), &sch, &ErcOptions::default());
    assert_eq!(report.error_count, 0, "{:?}", report.violations);
    assert_eq!(report.warning_count, 0, "{:?}", report.violations);
}

#[test]
fn heuristics_only_add_findings() {
    let mut sch = Schematic::new();
    let u = ic_symbol_with_roles("U1", &[PinRole::PowerIn, PinRole::Bidir]);
    let u_id = u.id;
    sch.add_symbol(u);
    sch.set_net(net("+3V3", vec![to(u_id, "1")]));
    sch.set_net(net("I2C_SDA", vec![to(u_id, "2")]));
    let board = Board::new();
    let usual = ErcOptions::default();
    let strict = run(&board, &sch, &ErcOptions { heuristics: true, ..usual });
    let plain = run(&board, &sch, &ErcOptions { heuristics: false, ..usual });
    assert!(strict.violations.len() >= plain.violations.len());
    for (a, b) in plain.violations.iter().zip(strict.violations.iter()) {
        assert_eq!(a.message, b.message);
    }
}
