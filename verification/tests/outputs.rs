//! Manufacturing outputs: Gerber and drill files, lists, archives.

use pcb::board::{
    Board, CopperLayer, Footprint, Id, LayerStackup, Pad, Pour, SilkAnchor, SilkLayer, SilkText,
    StitchPolicy, ThermalRelief, Trace, Via,
};
use pcb::bundle::{write_fab_pack, PackFile};
use pcb::csv::{csv_field, sanitize};
use pcb::fab::{manufacturing_drc, pack, write_bom, write_cpl, FabViolationKind, Provider};
use pcb::geometry::{Point, Rect};
use pcb::gerber::{write_copper, write_edge_cuts, Side};
use pcb::library::Library;
use pcb::odb::{build_tree, sanitize_name, write_odb_tgz};
use pcb::odb_features::parse_l_line;
use pcb::rotation::Rotation;
use pcb::schematic::Schematic;
use pcb::tar::write_archive;
use pcb::units::Length;

fn mm(v: f64) -> Length {
    Length((v * 1e6).round() as i64)
}

fn at(x: f64, y: f64) -> Point {
    Point::new(mm(x), mm(y))
}

fn pad(number: &str, x: f64, w: f64, h: f64, net: Option<&str>) -> Pad {
    Pad {
        number: number.into(),
        name: String::new(),
        offset: at(x, 0.0),
        size: (mm(w), mm(h)),
        layer: CopperLayer::Top,
        net: net.map(str::to_string),
        drill: None,
    }
}

fn part(reference: &str, value: &str, library: &str, x: f64, y: f64, pads: Vec<Pad>) -> Footprint {
    Footprint {
        id: Id::new(),
        reference: reference.into(),
        value: value.into(),
        library: library.into(),
        position: at(x, y),
        rotation: Rotation::zero(),
        layer: CopperLayer::Top,
        pads,
        key: String::new(),
        description: String::new(),
        edge_mounted: false,
        silk: Vec::new(),
    }
}

fn sheet(w: f64, h: f64) -> Board {
    let mut b = Board::new();
    b.outline = Some(Rect::from_corners(at(0.0, 0.0), at(w, h)));
    b
}

fn board_with_pour(relief: ThermalRelief) -> Board {
    let mut b = sheet(40.0, 20.0);
    b.add_footprint(part("R1", "", "test", 10.0, 10.0, vec![pad("1", 0.0, 1.5, 1.5, Some("GND"))]));
    b.add_pour(Pour {
        net: "GND".into(),
        layer: CopperLayer::Top,
        thermal_relief: relief,
        stitching: StitchPolicy::Off,
    });
    b
}

fn draws_after_dark(text: &str) -> usize {
    let lpd = text.rfind("%LPD*%").expect("missing LPD section");
    text[lpd..].matches("D01*").count()
}

#[test]
fn pour_with_spokes_generates_4_bridges_per_pad() {
    let b = board_with_pour(ThermalRelief::Spokes4 { spoke_width: mm(0.4), gap: mm(0.4) });
    let text = write_copper(&b, Side::Top);
    let d01_count = draws_after_dark(&text);
    assert!(
        d01_count >= 4,
        "expected >=4 D01 ops post-LPD for 4 thermal spokes, got {d01_count}\n{text}"
    );
}

#[test]
fn pour_solid_unchanged() {
    let b = board_with_pour(ThermalRelief::Solid);
    let text = write_copper(&b, Side::Top);
    let d01_count = draws_after_dark(&text);
    assert_eq!(
        d01_count, 0,
        "solid relief should not emit any D01 line draws after LPD, got {d01_count}\n{text}"
    );
}

fn footprint(reference: &str, value: &str, x: f64, y: f64) -> Footprint {
    part(
        reference,
        value,
        "Resistor_SMD:R_0805",
        x,
        y,
        vec![pad("1", -1.0, 1.0, 1.2, None), pad("2", 1.0, 1.0, 1.2, None)],
    )
}

fn build_board() -> Board {
    let mut board = sheet(40.0, 30.0);
    board.add_footprint(footprint("R1", "10k", 10.0, 15.0));
    board.add_footprint(footprint("R2", "10k", 16.0, 15.0));
    board.add_footprint(footprint("R3", "1k", 22.0, 15.0));
    // Board-level silk text beside the labels of the footprints.
    board.add_silk_text(SilkText {
        layer: SilkLayer::Top,
        position: at(20.0, 3.0),
        text: "PCB".into(),
        size: mm(2.0),
        rotation: Rotation::zero(),
        anchor: SilkAnchor::Middle,
        width: SilkText::default_stroke(mm(2.0)),
    });
    board
}

fn body<'a>(files: &'a [PackFile], name: &str) -> &'a str {
    &files.iter().find(|f| f.name == name).expect("file in the pack").body
}

#[test]
fn fab_pack_writes_every_expected_file_and_each_is_well_formed() {
    let files = write_fab_pack(&build_board(), "demo");
    let names: Vec<&str> = files.iter().map(|f| f.name.as_str()).collect();
    assert_eq!(
        names,
        vec![
            "demo-F_Cu.gbr",
            "demo-B_Cu.gbr",
            "demo-F_Mask.gbr",
            "demo-B_Mask.gbr",
            "demo-F_SilkS.gbr",
            "demo-B_SilkS.gbr",
            "demo-Edge_Cuts.gbr",
            "demo-PTH.drl",
            "demo-NPTH.drl",
            "demo-bom.csv",
            "demo-pos.csv",
        ]
    );

    // Every gerber must start with a comment + format spec and end with M02*.
    for name in [
        "demo-F_Cu.gbr",
        "demo-B_Cu.gbr",
        "demo-F_Mask.gbr",
        "demo-B_Mask.gbr",
        "demo-F_SilkS.gbr",
        "demo-B_SilkS.gbr",
        "demo-Edge_Cuts.gbr",
    ] {
        let body = body(&files, name);
        assert!(body.starts_with("G04 pcb"), "{name}: missing header comment");
        assert!(body.contains("%FSLAX46Y46*%"), "{name}: missing format spec");
        assert!(body.contains("%MOMM*%"), "{name}: missing units");
        assert!(body.trim_end().ends_with("M02*"), "{name}: missing M02 footer");
    }

    // 3 footprints with 2 pads on the top side, none on the bottom.
    assert_eq!(body(&files, "demo-F_Cu.gbr").matches("D03*").count(), 6);
    assert_eq!(body(&files, "demo-B_Cu.gbr").matches("D03*").count(), 0);

    // F.Mask uses one larger aperture covering all six pads:
    // 1.0 + 2*0.05 = 1.10 mm wide; 1.2 + 2*0.05 = 1.30 mm tall.
    let f_mask = body(&files, "demo-F_Mask.gbr");
    assert_eq!(f_mask.matches("D03*").count(), 6);
    assert!(
        f_mask.contains("R,1.100000X1.300000"),
        "expected expanded mask aperture, got:\n{f_mask}"
    );

    let f_silk = body(&files, "demo-F_SilkS.gbr");
    assert!(f_silk.contains("Legend,Top"), "expected X2 Legend,Top attribute");
    assert!(f_silk.matches("D01*").count() > 0, "F.SilkS missing D01 lines: {f_silk}");
    assert!(f_silk.matches("D02*").count() > 0, "F.SilkS missing D02 lines: {f_silk}");
    assert!(body(&files, "demo-B_SilkS.gbr").contains("Legend,Bot"));

    // Edge cuts traces the 40x30 outline, four interpolations.
    assert_eq!(body(&files, "demo-Edge_Cuts.gbr").matches("D01*").count(), 4);

    // BOM: 1 header + 2 groups (10k: R1 and R2; 1k: R3).
    let bom_lines: Vec<&str> = body(&files, "demo-bom.csv").lines().collect();
    assert_eq!(bom_lines[0], "Reference,Value,Footprint,Quantity");
    assert_eq!(bom_lines.len(), 3);
    assert!(bom_lines.iter().any(|l| l.contains("R1 R2") && l.ends_with(",2")));
    assert!(bom_lines.iter().any(|l| l.contains("R3") && l.ends_with(",1")));

    // Positions: 1 header + 3 footprints.
    let pos_lines: Vec<&str> = body(&files, "demo-pos.csv").lines().collect();
    assert_eq!(pos_lines[0], "Reference,Value,Footprint,X,Y,Rotation,Side");
    assert_eq!(pos_lines.len(), 4);
    assert!(pos_lines[1].starts_with("R1,10k,Resistor_SMD:R_0805,10.0000,15.0000,0.00,top"));
}

fn one_pad(reference: &str, x: f64, y: f64) -> Footprint {
    part(reference, "10k", "Resistor_SMD:R_0805", x, y, vec![pad("1", 0.0, 1.0, 1.2, None)])
}

#[test]
fn gerber_emits_one_file_per_layer() {
    let mut board = sheet(40.0, 30.0);
    board.stackup = LayerStackup::fr4(4);
    board.add_footprint(one_pad("R1", 10.0, 15.0));

    let files = write_fab_pack(&board, "demo4");
    let names: Vec<String> = files.iter().map(|f| f.name.clone()).collect();
    assert!(names.contains(&"demo4-F_Cu.gbr".to_string()), "{names:?}");
    assert!(names.contains(&"demo4-In1_Cu.gbr".to_string()), "{names:?}");
    assert!(names.contains(&"demo4-In2_Cu.gbr".to_string()), "{names:?}");
    assert!(names.contains(&"demo4-B_Cu.gbr".to_string()), "{names:?}");

    for name in ["demo4-F_Cu.gbr", "demo4-In1_Cu.gbr", "demo4-In2_Cu.gbr", "demo4-B_Cu.gbr"] {
        let body = body(&files, name);
        assert!(body.starts_with("G04 pcb"), "{name}: missing header");
        assert!(body.contains("%FSLAX46Y46*%"), "{name}: missing format");
        assert!(body.trim_end().ends_with("M02*"), "{name}: missing footer");
    }
}

#[test]
fn pth_pad_emits_copper_and_mask_on_every_layer() {
    let mut board = sheet(40.0, 30.0);
    // 4 copper layers so that top, bottom and inner are covered.
    board.stackup = LayerStackup::fr4(4);
    let mut fp = one_pad("U1", 20.0, 15.0);
    fp.pads[0].size = (mm(1.6), mm(1.6));
    fp.pads[0].drill = Some(mm(0.8));
    board.add_footprint(fp);

    let files = write_fab_pack(&board, "pth");
    for name in ["pth-F_Cu.gbr", "pth-In1_Cu.gbr", "pth-In2_Cu.gbr", "pth-B_Cu.gbr"] {
        assert!(
            body(&files, name).contains("D03*"),
            "{name}: PTH pad has no copper flash — only the mount side got copper"
        );
    }
    for name in ["pth-F_Mask.gbr", "pth-B_Mask.gbr"] {
        assert!(
            body(&files, name).contains("D03*"),
            "{name}: PTH pad has no mask opening — fab would cover the bottom ring"
        );
    }
}

#[test]
fn legacy_two_layer_pack_keeps_historical_filenames() {
    let mut board = sheet(40.0, 30.0);
    board.add_footprint(one_pad("R1", 10.0, 15.0));

    let files = write_fab_pack(&board, "demo2");
    let names: Vec<String> = files.iter().map(|f| f.name.clone()).collect();
    assert!(names.contains(&"demo2-F_Cu.gbr".to_string()), "{names:?}");
    assert!(names.contains(&"demo2-B_Cu.gbr".to_string()), "{names:?}");
    for n in &names {
        assert!(
            !n.contains("In1_Cu") && !n.contains("In2_Cu"),
            "unexpected inner-layer file on 2-layer board: {n}"
        );
    }
}

#[test]
fn holes_are_listed_by_tool() {
    let mut board = minimal_board();
    board.add_via(Via {
        id: Id::new(),
        position: at(10.0, 5.0),
        drill: mm(0.3),
        diameter: mm(0.6),
        net: "FOO".into(),
    });
    // A via that no trace comes near is not drilled.
    board.add_via(Via {
        id: Id::new(),
        position: at(15.0, 12.0),
        drill: mm(0.4),
        diameter: mm(0.6),
        net: "FOO".into(),
    });
    let drill = pcb::excellon::write(&board, true);
    assert!(drill.contains("T1C0.300"), "{drill}");
    assert!(drill.contains("X10.000Y5.000"), "{drill}");
    assert!(drill.trim_end().ends_with("M30"));
    assert!(!pcb::excellon::write(&board, false).contains("X10.000"));
    assert!(!drill.contains("X15.000"), "{drill}");
}

#[test]
fn an_empty_board_has_no_edge() {
    let text = write_edge_cuts(&Board::new());
    assert!(text.starts_with("G04 pcb"));
    assert_eq!(text.matches("D01*").count(), 0);
}

#[test]
fn csv_fields_are_quoted_where_needed() {
    assert_eq!(csv_field("plain"), "plain");
    assert_eq!(csv_field("a,b"), "\"a,b\"");
    assert_eq!(csv_field("say \"x\""), "\"say \"\"x\"\"\"");
}

#[test]
fn file_stems_are_tame() {
    assert_eq!(sanitize("my board/1"), "my_board_1");
    assert_eq!(sanitize(&sanitize("a b:c")), sanitize("a b:c"));
    assert!(!sanitize("").is_empty());
}

fn minimal_board() -> Board {
    let mut b = sheet(20.0, 15.0);
    b.add_footprint(part("R1", "10k", "test", 5.0, 5.0, vec![pad("1", 0.0, 1.0, 1.0, Some("FOO"))]));
    b.add_trace(Trace {
        id: Id::new(),
        layer: CopperLayer::Top,
        start: at(5.0, 5.0),
        end: at(10.0, 5.0),
        width: mm(0.25),
        net: "FOO".into(),
    });
    b
}

#[test]
fn odb_emits_basic_tree() {
    let b = minimal_board();
    let tgz = write_odb_tgz(&b, "demo").expect("write_odb_tgz");
    assert!(!tgz.is_empty(), "expected non-empty tarball");
    // gzip magic.
    assert_eq!(&tgz[0..2], &[0x1f, 0x8b]);
    let tree = build_tree(&b, "demo");
    let names: Vec<&str> = tree.iter().map(|(n, _)| n.as_str()).collect();
    for expected in [
        "demo/misc/info",
        "demo/misc/matrix",
        "demo/steps/pcb/eda/data",
        "demo/steps/pcb/layers/comp_+_top/features",
        "demo/steps/pcb/layers/comp_+_bot/features",
        "demo/steps/pcb/layers/drill/features",
        "demo/steps/pcb/layers/outline/features",
        "demo/steps/pcb/layers/silk_top/features",
        "demo/steps/pcb/layers/silk_bot/features",
        "demo/steps/pcb/layers/soldermask_top/features",
        "demo/steps/pcb/layers/soldermask_bot/features",
        "demo/steps/pcb/profile",
        "demo/steps/pcb/stephdr",
    ] {
        assert!(names.contains(&expected), "expected `{expected}` in tree, got {:?}", names);
    }
}

#[test]
fn odb_features_format_round_trips() {
    let b = minimal_board();
    let tree = build_tree(&b, "demo");
    let (_, features) = tree
        .iter()
        .find(|(n, _)| n == "demo/steps/pcb/layers/comp_+_top/features")
        .expect("comp_+_top features");
    let text = std::str::from_utf8(features).expect("utf8");
    // The trace from (5,5) to (10,5) on the top layer emits an `L` line
    // with both endpoints and its net.
    let line = text
        .lines()
        .find(|l| l.starts_with("L "))
        .expect("expected at least one L line for the trace");
    let parsed = parse_l_line(line).expect("parse L line");
    let x1: f64 = parsed.x1.parse().unwrap();
    let x2: f64 = parsed.x2.parse().unwrap();
    assert!(
        (x1 - 5.0).abs() < 1e-3 && (x2 - 10.0).abs() < 1e-3,
        "endpoints: {:?}",
        parsed
    );
    assert_eq!(parsed.net, "FOO");
    assert!(parse_l_line("P 1 2 3").is_none());
}

#[test]
fn the_gzip_stream_holds_the_archive() {
    let b = minimal_board();
    let tgz = write_odb_tgz(&b, "demo").unwrap();
    let mut tar = Vec::new();
    let mut decoder = flate2::read::GzDecoder::new(&tgz[..]);
    std::io::Read::read_to_end(&mut decoder, &mut tar).unwrap();
    assert_eq!(tar, write_archive(&build_tree(&b, "demo")));
}

#[test]
fn archive_headers_read_back() {
    let tar = write_archive(&vec![("a/b.txt".to_string(), b"hello".to_vec())]);
    assert_eq!(tar.len() % 512, 0);
    assert!(tar.starts_with(b"a/b.txt\0"));
    assert_eq!(&tar[124..135], b"00000000005");
    assert_eq!(&tar[257..262], b"ustar");
    assert_eq!(&tar[512..517], b"hello");
    let stored = std::str::from_utf8(&tar[148..154]).unwrap();
    let sum: u32 = tar[0..512]
        .iter()
        .enumerate()
        .map(|(i, b)| if (148..156).contains(&i) { 32 } else { u32::from(*b) })
        .sum();
    assert_eq!(u32::from_str_radix(stored, 8).unwrap(), sum);
}

#[test]
fn step_names_are_tame() {
    assert_eq!(sanitize_name("My Board"), "My_Board");
    assert!(!sanitize_name("").is_empty());
}

#[test]
fn providers_go_by_name() {
    for p in [Provider::Jlcpcb, Provider::Pcbway, Provider::Generic] {
        assert_eq!(Provider::from_name(p.name()), Some(p));
    }
    assert_eq!(Provider::from_name("nobody"), None);
}

#[test]
fn a_thin_trace_is_no_good_for_the_fab() {
    let mut b = minimal_board();
    assert_eq!(manufacturing_drc(&b, Provider::Jlcpcb).error_count, 0);
    b.traces[0].width = mm(0.05);
    let report = manufacturing_drc(&b, Provider::Jlcpcb);
    assert!(report.violations.iter().any(|v| v.kind == FabViolationKind::NarrowTraceForFab));
    b.outline = Some(Rect::from_corners(at(0.0, 0.0), at(900.0, 10.0)));
    let report = manufacturing_drc(&b, Provider::Jlcpcb);
    assert!(report.violations.iter().any(|v| v.kind == FabViolationKind::BoardOversize));
    b.add_via(Via {
        id: Id::new(),
        position: at(5.0, 5.0),
        drill: mm(0.05),
        diameter: mm(0.08),
        net: "FOO".into(),
    });
    let report = manufacturing_drc(&b, Provider::Generic);
    assert!(report.violations.iter().any(|v| v.kind == FabViolationKind::SmallDrillForFab));
    assert!(report.violations.iter().any(|v| v.kind == FabViolationKind::ThinAnnularRing));
}

#[test]
fn each_provider_has_its_own_lists() {
    let b = build_board();
    let lib = Library::new();
    assert!(write_bom(&b, &lib, Provider::Jlcpcb).starts_with("Comment,Designator,Footprint"));
    assert!(write_cpl(&b, Provider::Jlcpcb).starts_with("Designator,Mid X,Mid Y,Layer,Rotation"));
    assert_ne!(write_bom(&b, &lib, Provider::Pcbway), write_bom(&b, &lib, Provider::Jlcpcb));
}

#[test]
fn the_zip_holds_the_planned_files() {
    let (report, bytes) =
        pack(&build_board(), &Schematic::new(), &Library::new(), "demo", Provider::Jlcpcb);
    let bytes = bytes.expect("zip");
    let mut archive = zip::ZipArchive::new(std::io::Cursor::new(bytes)).expect("archive");
    assert_eq!(archive.len(), report.files.len());
    for (i, f) in report.files.iter().enumerate() {
        let mut entry = archive.by_index(i).expect("entry");
        assert_eq!(entry.name(), f.name);
        let mut text = String::new();
        std::io::Read::read_to_string(&mut entry, &mut text).unwrap();
        assert_eq!(text, f.body);
    }
    assert_eq!(report.blocking, !report.blocking_reasons.is_empty());
    assert!(report.zip_name.ends_with(".zip"));
}

#[test]
fn parts_of_two_libraries_are_two_rows() {
    let mut b = sheet(50.0, 50.0);
    for (reference, library) in [("R1", "A:R"), ("R2", "B:R")] {
        let mut fp = part(reference, "10k", library, 5.0, 5.0, vec![]);
        fp.key = "r".into();
        b.add_footprint(fp);
    }
    assert_eq!(
        write_bom(&b, &Library::new(), Provider::Jlcpcb),
        "Comment,Designator,Footprint,LCSC Part #\n10k,R1,A:R,\n10k,R2,B:R,\n"
    );
}

#[test]
fn four_layers_are_too_many_for_a_two_layer_tier() {
    let mut b = sheet(50.0, 50.0);
    assert!(manufacturing_drc(&b, Provider::Jlcpcb).violations.is_empty());
    b.stackup = LayerStackup::fr4(4);
    let report = manufacturing_drc(&b, Provider::Jlcpcb);
    assert_eq!(report.error_count, 1);
    assert_eq!(report.violations[0].kind, FabViolationKind::LayerCountUnsupported);
    assert_eq!(report.violations[0].message, "board has 4 copper layers; jlcpcb supports 2");
}

#[test]
fn copper_must_keep_the_clearance_of_the_fab() {
    let mut b = sheet(50.0, 50.0);
    for (net, y) in [("A", 5.0), ("B", 5.37)] {
        b.add_trace(Trace {
            id: Id::new(),
            layer: CopperLayer::Top,
            start: at(5.0, y),
            end: at(20.0, y),
            width: mm(0.25),
            net: net.into(),
        });
    }
    // 0.12 mm apart.
    let report = manufacturing_drc(&b, Provider::Jlcpcb);
    assert_eq!(report.error_count, 1);
    assert_eq!(report.violations[0].kind, FabViolationKind::TightClearanceForFab);
    assert_eq!(
        report.violations[0].message,
        "trace A – trace B: 0.120 mm < 0.127 mm; jlcpcb requires ≥ 0.127 mm"
    );
    assert_eq!(report.violations[0].involved, vec!["A".to_string(), "B".to_string()]);
    assert!(manufacturing_drc(&b, Provider::Generic).violations.is_empty());
    // The same for a pad beside a trace, and for two pads.
    b.traces.pop();
    b.add_footprint(part("R1", "", "", 10.0, 5.62, vec![pad("1", 0.0, 0.75, 0.75, Some("B"))]));
    assert_eq!(manufacturing_drc(&b, Provider::Jlcpcb).error_count, 1);
    b.traces.clear();
    assert_eq!(manufacturing_drc(&b, Provider::Jlcpcb).error_count, 0);
    b.add_footprint(part("R2", "", "", 10.85, 5.62, vec![pad("1", 0.0, 0.75, 0.75, Some("A"))]));
    assert_eq!(manufacturing_drc(&b, Provider::Jlcpcb).error_count, 1);
}

#[test]
fn a_blocked_spoke_is_not_drawn() {
    let relief = ThermalRelief::Spokes4 { spoke_width: mm(0.4), gap: mm(0.4) };
    let mut b = board_with_pour(relief);
    assert_eq!(draws_after_dark(&write_copper(&b, Side::Top)), 4);
    // Foreign copper to the east.
    b.add_footprint(part("R2", "", "", 11.9, 10.0, vec![pad("1", 0.0, 1.0, 1.0, Some("A"))]));
    let text = write_copper(&b, Side::Top);
    assert_eq!(draws_after_dark(&text), 3, "{text}");
    let dark = &text[text.rfind("%LPD*%").unwrap()..];
    assert!(!dark.lines().any(|l| l.starts_with("X11") && l.ends_with("D01*")), "{dark}");
}

#[test]
fn holes_print_halves_as_machine_fractions_do() {
    let mut b = sheet(40.0, 20.0);
    b.add_footprint(part("R1", "", "", 1.0, 1.0, vec![pad("1", 0.0, 1.0, 1.0, Some("A"))]));
    b.add_trace(Trace {
        id: Id::new(),
        layer: CopperLayer::Top,
        start: at(1.0, 1.0),
        end: at(1.0625, 5.0),
        width: mm(0.25),
        net: "A".into(),
    });
    b.add_via(Via {
        id: Id::new(),
        position: at(1.0625, 5.0),
        drill: mm(0.3125),
        diameter: mm(0.6),
        net: "A".into(),
    });
    let text = pcb::excellon::write(&b, true);
    assert!(text.contains("T1C0.312\n"), "{text}");
    assert!(text.contains("X1.062Y5.000\n"), "{text}");
}
