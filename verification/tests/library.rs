//! The part library: view transforms, margins, entries and attachments.

use pcb::library::{
    ext_for_mime, Attachment, BodyRect, Library, LibraryEntry, LibraryPad, PhotoCalibration,
    PlacementMargin, ViewTransform,
};
use pcb::geometry::Point;
use pcb::photo::{derive_photo_transform, SimilarityTransform};
use pcb::rectify::{output_resolution, output_size, rectified_record, validate_quad, Quad};
use pcb::rotation::{Rotation, UNIT};
use pcb::units::Length;

fn mm(v: f64) -> Length {
    Length((v * 1e6).round() as i64)
}

fn approx(a: Length, b: f64) {
    assert!((a.0 as f64 / 1e6 - b).abs() < 1e-9, "{a:?} vs {b}");
}

#[test]
fn view_transform_identity_is_a_noop() {
    let vt = ViewTransform::default();
    assert!(vt.is_identity());
    let (x, y) = vt.apply_point_mm(mm(1.25), mm(-3.5));
    approx(x, 1.25);
    approx(y, -3.5);
    let (w, h) = vt.apply_size_mm(mm(2.0), mm(0.5));
    approx(w, 2.0);
    approx(h, 0.5);
    assert_eq!(vt.apply_angle_deg(45_000_000), 45_000_000);
}

#[test]
fn view_transform_flip_h_mirrors_x_only() {
    let vt = ViewTransform { rotation_deg: 0, flip_h: true, flip_v: false };
    let (x, y) = vt.apply_point_mm(mm(2.0), mm(3.0));
    approx(x, -2.0);
    approx(y, 3.0);
    // Sizes are symmetric: a flip alone never swaps width and height.
    let (w, h) = vt.apply_size_mm(mm(2.0), mm(0.5));
    approx(w, 2.0);
    approx(h, 0.5);
    assert_eq!(vt.apply_angle_deg(30_000_000), -30_000_000);
}

#[test]
fn view_transform_flip_v_mirrors_y_only() {
    let vt = ViewTransform { rotation_deg: 0, flip_h: false, flip_v: true };
    let (x, y) = vt.apply_point_mm(mm(2.0), mm(3.0));
    approx(x, 2.0);
    approx(y, -3.0);
}

fn turned(rotation_deg: u16) -> ViewTransform {
    ViewTransform { rotation_deg, ..Default::default() }
}

#[test]
fn view_transform_pure_rotations_are_ccw_in_y_up() {
    // (1, 0) rotated 90 degrees counter-clockwise is (0, 1).
    let (x, y) = turned(90).apply_point_mm(mm(1.0), mm(0.0));
    approx(x, 0.0);
    approx(y, 1.0);
    let (x, y) = turned(180).apply_point_mm(mm(1.0), mm(0.0));
    approx(x, -1.0);
    approx(y, 0.0);
    let (x, y) = turned(270).apply_point_mm(mm(1.0), mm(0.0));
    approx(x, 0.0);
    approx(y, -1.0);
}

#[test]
fn view_transform_90_or_270_swaps_w_h() {
    let (w, h) = turned(90).apply_size_mm(mm(2.0), mm(0.5));
    approx(w, 0.5);
    approx(h, 2.0);
    let (w, h) = turned(270).apply_size_mm(mm(2.0), mm(0.5));
    approx(w, 0.5);
    approx(h, 2.0);
    let (w, h) = turned(180).apply_size_mm(mm(2.0), mm(0.5));
    approx(w, 2.0);
    approx(h, 0.5);
}

#[test]
fn view_transform_flip_then_rotate_order_matches_css() {
    // rotate(R) scaleX(-1) applies right to left: pad (1, 0) goes to
    // (-1, 0) by the flip, then to (0, -1) by the quarter turn.
    let vt = ViewTransform { rotation_deg: 90, flip_h: true, flip_v: false };
    let (x, y) = vt.apply_point_mm(mm(1.0), mm(0.0));
    approx(x, 0.0);
    approx(y, -1.0);
}

fn apply_affine(m: [i64; 6], x: Length, y: Length) -> (Length, Length) {
    (
        Length((m[0] * x.0 + m[2] * y.0) / UNIT + m[4]),
        Length((m[1] * x.0 + m[3] * y.0) / UNIT + m[5]),
    )
}

#[test]
fn view_transform_affine_matches_apply_point() {
    for vt in [
        ViewTransform { rotation_deg: 90, flip_h: false, flip_v: false },
        ViewTransform { rotation_deg: 0, flip_h: true, flip_v: false },
        ViewTransform { rotation_deg: 270, flip_h: false, flip_v: true },
    ] {
        let m = vt.to_affine_mm();
        for (x, y) in [(1.0, 0.0), (0.0, 1.0), (2.5, -3.5)] {
            let expected = vt.apply_point_mm(mm(x), mm(y));
            assert_eq!(apply_affine(m, mm(x), mm(y)), expected);
        }
    }
}

#[test]
fn a_half_turn_twice_is_no_turn() {
    let vt = turned(180);
    let (x, y) = vt.apply_point_mm(mm(1.5), mm(-2.0));
    assert_eq!(vt.apply_point_mm(x, y), (mm(1.5), mm(-2.0)));
    assert!(!vt.is_identity());
}

fn entry_with_pads(pads: Vec<LibraryPad>) -> LibraryEntry {
    LibraryEntry {
        key: "e".into(),
        description: String::new(),
        default_value: String::new(),
        default_rotation: Rotation::zero(),
        edge_mounted: false,
        pads,
        silk: Vec::new(),
        lcsc_id: None,
        mpn: None,
        attachments: Vec::new(),
        created_at: 0,
        footprint_view_transform: ViewTransform::default(),
        placement_margin: PlacementMargin::default(),
        body_rect: None,
    }
}

fn pad(number: &str, x: f64, y: f64, w: f64, h: f64) -> LibraryPad {
    LibraryPad {
        number: number.into(),
        name: String::new(),
        x: mm(x),
        y: mm(y),
        w: mm(w),
        h: mm(h),
        drill: None,
    }
}

#[test]
fn margin_from_body_smaller_than_pads_is_all_zero() {
    // Pads span x in [-2, 2], y in [-2, 2]; the body is inside that.
    let e = entry_with_pads(vec![pad("1", -1.5, 0.0, 1.0, 4.0), pad("2", 1.5, 0.0, 1.0, 4.0)]);
    let m = e.margin_from_body_rect(&BodyRect {
        min_x: mm(-1.0),
        min_y: mm(-1.0),
        max_x: mm(1.0),
        max_y: mm(1.0),
    });
    approx(m.top, 0.0);
    approx(m.right, 0.0);
    approx(m.bottom, 0.0);
    approx(m.left, 0.0);
}

#[test]
fn margin_from_asymmetric_body_is_per_side() {
    // Pad bbox: x in [-1, 1], y in [-1, 1]. The body overhangs 3 right,
    // 0.5 left, 2 top, and ends inside the pads at the bottom.
    let e = entry_with_pads(vec![pad("1", 0.0, 0.0, 2.0, 2.0)]);
    let m = e.margin_from_body_rect(&BodyRect {
        min_x: mm(-1.5),
        min_y: mm(0.0),
        max_x: mm(4.0),
        max_y: mm(3.0),
    });
    approx(m.left, 0.5);
    approx(m.right, 3.0);
    approx(m.top, 2.0);
    approx(m.bottom, 0.0);
}

#[test]
fn pads_give_centres_and_a_box() {
    let e = entry_with_pads(vec![pad("1", -1.5, 0.0, 1.0, 4.0), pad("2", 1.5, 0.5, 1.0, 4.0)]);
    let c = e.pad_center_mm("2").unwrap();
    approx(c.x, 1.5);
    approx(c.y, 0.5);
    assert!(e.pad_center_mm("3").is_none());
    let b = e.pads_bbox_mm().unwrap();
    approx(b.min.x, -2.0);
    approx(b.max.y, 2.5);
    assert!(entry_with_pads(vec![]).pads_bbox_mm().is_none());
}

#[test]
fn upserting_keeps_attachments_and_stamps_the_time() {
    let mut lib = Library::new();
    let first = lib.upsert(entry_with_pads(vec![]), 42).unwrap();
    assert_eq!(first.created_at, 42);
    lib.attach("e", photo("a1")).unwrap();
    let again = lib.upsert(entry_with_pads(vec![]), 99).unwrap();
    assert_eq!(again.attachments.len(), 1);
    assert_eq!(lib.list().len(), 1);
    let mut nameless = entry_with_pads(vec![]);
    nameless.key = String::new();
    assert!(lib.upsert(nameless, 1).is_err());
}

fn photo(id: &str) -> Attachment {
    Attachment {
        id: id.into(),
        kind: "photo".into(),
        filename: "top.png".into(),
        mime: "image/png".into(),
        added_at: 7,
        view_transform: ViewTransform::default(),
        calibration: None,
    }
}

#[test]
fn attachments_come_and_go_by_id() {
    let mut lib = Library::new();
    assert!(lib.attach("e", photo("a1")).is_err());
    lib.upsert(entry_with_pads(vec![]), 1).unwrap();
    lib.attach("e", photo("a1")).unwrap();
    assert_eq!(lib.attachment("e", "a1").unwrap().file_name(), "a1.png");
    assert_eq!(lib.set_attachment_view_transform("e", "a1", turned(90)).unwrap(), true);
    assert_eq!(lib.attachment("e", "a1").unwrap().view_transform.rotation_deg, 90);
    assert_eq!(lib.set_attachment_view_transform("e", "zz", turned(90)).unwrap(), false);
    assert_eq!(lib.delete_attachment("e", "a1").unwrap().unwrap().id, "a1");
    assert!(lib.delete_attachment("e", "a1").unwrap().is_none());
    assert!(lib.delete("e").is_some());
    assert!(lib.delete("e").is_none());
}

fn marks(a: (f64, f64), b: (f64, f64)) -> ((i64, i64), (i64, i64)) {
    let px = |v: f64| (v * 1e6).round() as i64;
    ((px(a.0), px(a.1)), (px(b.0), px(b.1)))
}

fn derive(
    a_mm: (f64, f64),
    b_mm: (f64, f64),
    a_px: (f64, f64),
    b_px: (f64, f64),
) -> Result<SimilarityTransform, String> {
    let (a, b) = marks(a_px, b_px);
    derive_photo_transform(
        Point::new(mm(a_mm.0), mm(a_mm.1)),
        Point::new(mm(b_mm.0), mm(b_mm.1)),
        a,
        b,
    )
}

/// Millimetres for a pixel.
fn scale(t: &SimilarityTransform) -> f64 {
    let (c, s) = (t.m[0] as f64 / t.den as f64, t.m[1] as f64 / t.den as f64);
    (c * c + s * s).sqrt()
}

/// Where a pixel lands, in millimetres.
fn land(t: &SimilarityTransform, px: (f64, f64)) -> (f64, f64) {
    let (x, y) = ((px.0 * 1e6).round() as i128, (px.1 * 1e6).round() as i128);
    let m = &t.m;
    let over = |n: i128| n as f64 / t.den as f64 / 1e6;
    (over(m[0] * x + m[2] * y + m[4]), over(m[1] * x + m[3] * y + m[5]))
}

fn near(a: f64, b: f64) {
    assert!((a - b).abs() < 1e-9, "{a} vs {b}");
}

#[test]
fn photo_transform_round_trips_the_two_anchors() {
    // Two pads 10 mm apart on X; pixel marks 100 px apart on X.
    let t = derive((-5.0, 0.0), (5.0, 0.0), (100.0, 200.0), (200.0, 200.0)).expect("derive");
    near(scale(&t), 10.0 / 100.0);
    let (ax, ay) = land(&t, (100.0, 200.0));
    near(ax, -5.0);
    near(ay, 0.0);
    let (bx, by) = land(&t, (200.0, 200.0));
    near(bx, 5.0);
    near(by, 0.0);
}

#[test]
fn photo_transform_gets_the_y_flip_right_asymmetric() {
    // In the photo B is up and right of A: smaller pixel-y is higher up.
    let a_px = (10.0, 90.0);
    let b_px = (50.0, 30.0);
    let t = derive((0.0, 0.0), (4.0, 3.0), a_px, b_px).expect("derive");
    let (ax, ay) = land(&t, a_px);
    near(ax, 0.0);
    near(ay, 0.0);
    let (bx, by) = land(&t, b_px);
    near(bx, 4.0);
    near(by, 3.0);
    // A pixel below A on screen maps to negative board Y.
    let (_, below_y) = land(&t, (10.0, 140.0));
    assert!(below_y < 0.0, "screen-down should be board-down: {below_y}");
    let (m, _) = t.to_affine();
    let f = |i: usize| m[i] as f64;
    let det = f(0) * f(3) - f(1) * f(2);
    assert!(det < 0.0, "photo to board map must be a reflection: {det}");
}

#[test]
fn photo_transform_handles_a_rotated_photo() {
    // Pads on the board X axis appear along the photo's y axis.
    let t = derive((0.0, 0.0), (10.0, 0.0), (50.0, 50.0), (50.0, 150.0)).expect("derive");
    near(scale(&t), 0.1);
    let (bx, by) = land(&t, (50.0, 150.0));
    near(bx, 10.0);
    near(by, 0.0);
}

#[test]
fn photo_transform_rejects_degenerate_input() {
    // Coincident pixel marks.
    assert!(derive((0.0, 0.0), (5.0, 0.0), (10.0, 10.0), (10.0, 10.0)).is_err());
    // Coincident pads.
    assert!(derive((1.0, 1.0), (1.0, 1.0), (0.0, 0.0), (30.0, 0.0)).is_err());
}

fn calibration(b_pad: &str) -> PhotoCalibration {
    let (a_px, b_px) = marks((100.0, 200.0), (200.0, 200.0));
    PhotoCalibration { a_px, b_px, a_pad: "1".into(), b_pad: b_pad.into() }
}

#[test]
fn calibration_is_checked_stored_and_cleared() {
    let mut lib = Library::new();
    let why = |r: Result<SimilarityTransform, String>| r.err().unwrap();
    assert_eq!(
        why(lib.calibrate_photo("e", "a1", calibration("1"))),
        "photo calibration: pick two different pads"
    );
    assert_eq!(
        why(lib.calibrate_photo("e", "a1", calibration("2"))),
        "no library entry with key e"
    );
    lib.upsert(
        entry_with_pads(vec![pad("1", -5.0, 0.0, 1.0, 1.0), pad("2", 5.0, 0.0, 1.0, 1.0)]),
        1,
    )
    .unwrap();
    assert_eq!(
        why(lib.calibrate_photo("e", "a1", calibration("9"))),
        "photo calibration: pad 9 not found"
    );
    assert_eq!(
        why(lib.calibrate_photo("e", "a1", calibration("2"))),
        "photo calibration: no attachment a1 on e"
    );
    lib.attach("e", photo("a1")).unwrap();
    let mut same = calibration("2");
    same.b_px = same.a_px;
    assert_eq!(
        why(lib.calibrate_photo("e", "a1", same)),
        "photo calibration: the two pin marks are at the same point"
    );
    assert!(lib.attachment("e", "a1").unwrap().calibration.is_none());
    let t = lib.calibrate_photo("e", "a1", calibration("2")).ok().unwrap();
    near(scale(&t), 0.1);
    assert!(lib.attachment("e", "a1").unwrap().calibration.is_some());
    assert_eq!(lib.clear_photo_calibration("e", "a1").unwrap(), true);
    assert!(lib.attachment("e", "a1").unwrap().calibration.is_none());
    assert_eq!(lib.set_photo_calibration("e", "zz", calibration("2")).unwrap(), false);
}

fn quad(corners: [(f64, f64); 4]) -> Quad {
    Quad {
        corners: corners
            .map(|(x, y)| ((x * 1e3).round() as i64, (y * 1e3).round() as i64)),
    }
}

#[test]
fn proper_quads_are_accepted() {
    assert!(validate_quad(&quad([(12.0, 20.0), (180.0, 8.0), (195.0, 160.0), (30.0, 175.0)]))
        .is_ok());
}

#[test]
fn bad_quads_say_why() {
    let why = |c| validate_quad(&quad(c)).unwrap_err();
    assert!(why([(0.0, 0.0), (1.0, 1.0), (2.0, 2.0), (3.0, 3.0)]).contains("degenerate"));
    assert!(why([(0.0, 0.0), (0.0, 0.0), (9.0, 9.0), (0.0, 9.0)]).contains("zero-length"));
    assert!(why([(0.0, 0.0), (5.0, 0.0), (10.0, 0.0), (5.0, 8.0)]).contains("collinear vertex"));
    // A crossing order of the corners.
    assert!(why([(0.0, 0.0), (10.0, 0.0), (0.0, 10.0), (12.0, 10.0)]).contains("not convex"));
}

#[test]
fn straightened_photos_have_a_fixed_resolution() {
    assert_eq!(output_size(mm(10.0), mm(8.0)).unwrap(), (400, 320));
    // The long side of a large board is brought down to 4000 pixels.
    assert_eq!(output_size(mm(200.0), mm(20.0)).unwrap(), (4000, 400));
    assert!(output_size(mm(0.0), mm(8.0)).is_err());
    assert_eq!(output_size(mm(0.001), mm(50.0)).unwrap().0, 1);
}

#[test]
fn long_side_is_capped() {
    // 200 mm long side at 40 px/mm is 8000 px: capped to 4000.
    let (width, height) = output_size(mm(200.0), mm(100.0)).expect("size");
    assert_eq!(width, 4000);
    near(f64::from(width) / 200.0, 20.0);
    assert_eq!(height, 2000);
}

#[test]
fn degenerate_quads_are_rejected() {
    // Three collinear points (top edge) and one off.
    let collinear = [(0.0, 0.0), (100.0, 0.0), (200.0, 0.0), (100.0, 100.0)];
    assert!(validate_quad(&quad(collinear)).is_err());
    // Self-intersecting order (TL, BR, TR, BL).
    let bowtie = [(0.0, 0.0), (200.0, 160.0), (200.0, 0.0), (0.0, 160.0)];
    assert!(validate_quad(&quad(bowtie)).is_err());
}

#[test]
fn only_images_are_straightened() {
    let mut lib = Library::new();
    let why = |r: Result<&Attachment, String>| r.err().unwrap();
    assert_eq!(why(lib.rectify_source("e", "a1")), "no library entry with key e");
    lib.upsert(entry_with_pads(vec![]), 1).unwrap();
    assert_eq!(why(lib.rectify_source("e", "a1")), "rectify: no attachment a1 on e");
    let mut sheet = photo("d1");
    sheet.mime = "application/pdf".into();
    sheet.filename = "d.pdf".into();
    lib.attach("e", sheet).unwrap();
    lib.attach("e", photo("a1")).unwrap();
    assert_eq!(
        why(lib.rectify_source("e", "d1")),
        "rectify: attachment d.pdf is application/pdf — not an image"
    );
    assert_eq!(lib.rectify_source("e", "a1").unwrap().filename, "top.png");
    let record = rectified_record("n1".into(), "top", 3);
    assert_eq!(record.filename, "top-rect.jpg");
    assert_eq!(record.kind, "photo-rectified");
}

#[test]
fn a_body_sets_the_margin_of_its_entry() {
    let mut lib = Library::new();
    lib.upsert(entry_with_pads(vec![pad("1", 0.0, 0.0, 2.0, 2.0)]), 1).unwrap();
    let body = BodyRect { min_x: mm(-1.5), min_y: mm(0.0), max_x: mm(4.0), max_y: mm(3.0) };
    assert_eq!(lib.set_body_rect("e", body).unwrap(), true);
    approx(lib.find("e").unwrap().placement_margin.right, 3.0);
    approx(lib.margins().margin_for("e").top, 2.0);
    assert!(lib.margins().margin_for("nothing").is_zero());
    assert_eq!(lib.clear_body_rect("e").unwrap(), true);
    assert!(lib.find("e").unwrap().body_rect.is_none());
    assert!(lib.set_footprint_view_transform("x", turned(90)).is_err());
    assert_eq!(lib.set_placement_margin("e", PlacementMargin::default()).unwrap(), true);
}

#[test]
fn extensions_follow_the_media_type() {
    assert_eq!(ext_for_mime("image/png"), "png");
    assert_eq!(ext_for_mime("image/jpeg"), "jpg");
    assert_eq!(ext_for_mime("application/pdf"), "pdf");
    assert_eq!(ext_for_mime("whatever"), "bin");
}

#[test]
fn the_identity_leaves_the_largest_coordinates_alone() {
    let vt = ViewTransform::default();
    assert_eq!(
        vt.apply_point_mm(Length(i64::MAX), Length(i64::MIN)),
        (Length(i64::MAX), Length(i64::MIN))
    );
    assert_eq!(vt.apply_angle_deg(i64::MAX), i64::MAX);
}

#[test]
fn the_resolution_is_exact() {
    // Forty pixels to a millimetre, whatever the sides round to.
    assert_eq!(output_resolution(mm(10.01), mm(3.333)), (40, 1_000_000));
    assert_eq!(output_resolution(mm(100.0), mm(1.0)), (40, 1_000_000));
    assert_eq!(output_resolution(mm(200.0), mm(20.0)), (4000, 200_000_000));
}
