//! Symbols, nets and net classes.

use pcb::board::Id;
use pcb::geometry::Point;
use pcb::name_map::NameMap;
use pcb::rotation::Rotation;
use pcb::schematic::{Net, NetClass, NetConnection, PinRole, PinSide, SchPin, Schematic, Symbol, SymbolKind};
use pcb::units::Length;

fn mm(v: f64) -> Length {
    Length((v * 1e6).round() as i64)
}

fn to_mm(l: Length) -> f64 {
    l.0 as f64 / 1e6
}

#[test]
fn class_lookup_uses_default_when_unassigned() {
    let sch = Schematic::new();
    let class = sch.class_for("FOO");
    assert!(class.name.is_empty());
    assert!(class.trace_width.is_none());
    assert!(class.clearance.is_none());
}

#[test]
fn resolved_rules_inherit_from_options_when_class_silent() {
    let mut sch = Schematic::new();
    // Class with width set, clearance silent.
    sch.set_net_class(NetClass {
        name: "signals".into(),
        trace_width: Some(mm(0.30)),
        ..NetClass::default()
    });
    sch.assign_net_to_class("DATA".into(), "signals".into());

    let res = sch.resolved_for_net("DATA", mm(0.25), mm(0.20), mm(0.60), mm(0.30));
    // Class supplies trace width, clearance falls back to default.
    assert!((to_mm(res.trace_width) - 0.30).abs() < 1e-9);
    assert!((to_mm(res.clearance) - 0.20).abs() < 1e-9);
    assert!((to_mm(res.via_diameter) - 0.60).abs() < 1e-9);
    assert!((to_mm(res.via_drill) - 0.30).abs() < 1e-9);

    // Unrelated net falls back fully to options.
    let res2 = sch.resolved_for_net("SOMETHING_ELSE", mm(0.25), mm(0.20), mm(0.60), mm(0.30));
    assert!((to_mm(res2.trace_width) - 0.25).abs() < 1e-9);
}

fn resistor(reference: &str) -> Symbol {
    Symbol {
        id: Id::new(),
        reference: reference.into(),
        value: "10k".into(),
        kind: SymbolKind::Resistor,
        position: Point::origin(),
        rotation: Rotation::zero(),
        key: String::new(),
        description: String::new(),
    }
}

#[test]
fn the_assignment_wins_over_the_nets_own_class() {
    let mut sch = Schematic::new();
    for (name, width) in [("thin", 0.1), ("fat", 0.9)] {
        sch.set_net_class(NetClass {
            name: name.into(),
            trace_width: Some(mm(width)),
            ..NetClass::default()
        });
    }
    sch.set_net(Net { name: "N".into(), connections: vec![], class: Some("thin".into()) });
    assert_eq!(sch.class_for_net("N").unwrap().name, "thin");
    sch.assign_net_to_class("N".into(), "fat".into());
    assert_eq!(sch.class_for_net("N").unwrap().name, "fat");
}

#[test]
fn pins_find_their_net() {
    let mut sch = Schematic::new();
    let r = resistor("R1");
    let id = sch.add_symbol(r);
    sch.set_net(Net {
        name: "VCC".into(),
        connections: vec![NetConnection { symbol_id: id, pin_number: "1".into() }],
        class: None,
    });
    assert_eq!(sch.net_for_pin(id, "1"), Some("VCC"));
    assert_eq!(sch.net_for_pin(id, "2"), None);
    assert_eq!(sch.find_by_reference("R1").unwrap().id, id);
    assert!(sch.find_by_reference("R2").is_none());
    assert_eq!(sch.symbols_in_order().len(), 1);
}

#[test]
fn symbols_have_the_pins_of_their_kind() {
    assert_eq!(SymbolKind::Resistor.pins().len(), 2);
    assert_eq!(SymbolKind::Led.pins().len(), 2);
    assert_eq!(SymbolKind::Resistor.label(), "R");
    let pins = vec![SchPin {
        number: "7".into(),
        name: "IO".into(),
        side: PinSide::Left,
        role: PinRole::Bidir,
    }];
    let ic = SymbolKind::GenericIc { pins };
    assert_eq!(ic.pins()[0].number, "7");
}

#[test]
fn a_name_map_keeps_first_places() {
    let mut m: NameMap<u32> = NameMap::new();
    m.insert("a".into(), 1);
    m.insert("b".into(), 2);
    m.insert("a".into(), 3);
    assert_eq!(m.get("a"), Some(&3));
    assert_eq!(m.entries.len(), 2);
    assert_eq!(m.entries[0].0, "a");
    assert_eq!(m.remove("a"), Some(3));
    assert_eq!(m.get("a"), None);
    assert_eq!(m.remove("a"), None);
    assert_eq!(m.get("b"), Some(&2));
}
