//! Stitching vias for pads that a pour cannot reach.

use pcb::board::{Board, CopperLayer, Footprint, Id, Pad, Pour, StitchPolicy, ThermalRelief};
use pcb::geometry::{Point, Rect};
use pcb::rotation::Rotation;
use pcb::stitch::{apply_stitches, plan_stitches, StitchParams};
use pcb::units::Length;

fn mm(v: f64) -> Length {
    Length((v * 1e6).round() as i64)
}

fn pad(num: &str, ox: f64, oy: f64, w: f64, h: f64, net: &str) -> Pad {
    Pad {
        number: num.into(),
        name: String::new(),
        offset: Point::new(mm(ox), mm(oy)),
        size: (mm(w), mm(h)),
        layer: CopperLayer::Top,
        net: Some(net.into()),
        drill: None,
    }
}

fn fp(reference: &str, x: f64, y: f64, pads: Vec<Pad>) -> Footprint {
    Footprint {
        id: Id::new(),
        reference: reference.into(),
        value: String::new(),
        library: "test".into(),
        position: Point::new(mm(x), mm(y)),
        rotation: Rotation::zero(),
        layer: CopperLayer::Top,
        pads,
        key: String::new(),
        description: String::new(),
        edge_mounted: false,
        silk: Vec::new(),
    }
}

fn field() -> Board {
    let mut b = Board::new();
    b.outline = Some(Rect::from_corners(
        Point::new(mm(0.0), mm(0.0)),
        Point::new(mm(40.0), mm(20.0)),
    ));
    b
}

fn spokes() -> ThermalRelief {
    ThermalRelief::Spokes4 { spoke_width: mm(0.4), gap: mm(0.4) }
}

fn boxed_in() -> Board {
    let mut b = field();
    // Isolated GND pad at the board centre.
    b.add_footprint(fp("U1", 20.0, 10.0, vec![pad("10", 0.0, 0.0, 1.5, 1.5, "GND")]));
    // Four 3 mm foreign pads at 2.4 mm overlap at the corners and leave
    // only a narrow ring around the GND pad.
    for (i, (dx, dy)) in [(2.4, 0.0), (-2.4, 0.0), (0.0, 2.4), (0.0, -2.4)].into_iter().enumerate()
    {
        b.add_footprint(fp(
            &format!("B{i}"),
            20.0 + dx,
            10.0 + dy,
            vec![pad("1", 0.0, 0.0, 3.0, 3.0, "SIG")],
        ));
    }
    b.add_pour(Pour {
        net: "GND".into(),
        layer: CopperLayer::Top,
        thermal_relief: spokes(),
        stitching: StitchPolicy::Off,
    });
    b
}

#[test]
fn boxed_in_gnd_pad_gets_via_in_pad() {
    let mut b = boxed_in();
    // The bottom pour has room directly under the pad.
    b.add_pour(Pour {
        net: "GND".into(),
        layer: CopperLayer::Bottom,
        thermal_relief: ThermalRelief::Solid,
        stitching: StitchPolicy::Off,
    });

    let plan = plan_stitches(&b, StitchParams::default());
    assert_eq!(plan.proposals.len(), 1, "expected one stitch");
    assert!(plan.unreachable.is_empty(), "should be reachable via Bottom");
    let s = &plan.proposals[0];
    assert_eq!(s.pad_ref, "U1.10");
    assert!(s.via_in_pad, "fully boxed: via-in-pad");
    assert!(s.stub.is_none());
    assert_eq!(s.via.net, "GND");

    // After applying, nothing is isolated any more.
    assert_eq!(apply_stitches(&mut b, &plan), 1);
    let after = plan_stitches(&b, StitchParams::default());
    assert!(after.proposals.is_empty());
    assert!(after.unreachable.is_empty());
}

#[test]
fn connected_pad_is_not_stitched() {
    let mut b = field();
    b.add_footprint(fp("U1", 20.0, 10.0, vec![pad("1", 0.0, 0.0, 1.5, 1.5, "GND")]));
    b.add_pour(Pour {
        net: "GND".into(),
        layer: CopperLayer::Top,
        thermal_relief: spokes(),
        stitching: StitchPolicy::Off,
    });
    let plan = plan_stitches(&b, StitchParams::default());
    assert!(plan.proposals.is_empty());
    assert!(plan.unreachable.is_empty());
}

#[test]
fn a_pad_on_a_board_without_outline_is_unreachable() {
    let mut b = boxed_in();
    b.outline = None;
    let plan = plan_stitches(&b, StitchParams::default());
    assert!(plan.proposals.is_empty());
    assert_eq!(plan.unreachable, vec!["U1.10".to_string()]);
}

#[test]
fn a_stitch_keeps_clear_and_inside() {
    let mut b = boxed_in();
    b.add_pour(Pour {
        net: "GND".into(),
        layer: CopperLayer::Bottom,
        thermal_relief: ThermalRelief::Solid,
        stitching: StitchPolicy::Off,
    });
    // A foreign pad right under the pad leaves no room for a via.
    let mut under = pad("1", 0.0, 0.0, 1.0, 1.0, "SIG");
    under.layer = CopperLayer::Bottom;
    b.add_footprint(fp("B9", 20.0, 10.0, vec![under]));
    let plan = plan_stitches(&b, StitchParams::default());
    assert!(plan.proposals.is_empty());
    assert_eq!(plan.unreachable, vec!["U1.10".to_string()]);
}
