//! Lengths, rectangles, rotations, clipping and distances.

use pcb::arith::isqrt;
use pcb::geometry::{Point, Rect};
use pcb::rotation::Rotation;
use pcb::silk_clip::{clip_segment, subtract_rect};
use pcb::silkscreen::polyline_misses_all;
use pcb::thermal::{seg_pt_dist2, seg_rect_dist2, seg_seg_dist2, segs_intersect};
use pcb::units::Length;

fn mm(v: f64) -> Length {
    Length((v * 1e6).round() as i64)
}

fn to_mm(l: Length) -> f64 {
    l.0 as f64 / 1e6
}

fn p(x: f64, y: f64) -> Point {
    Point::new(mm(x), mm(y))
}

fn r(x0: f64, y0: f64, x1: f64, y1: f64) -> Rect {
    Rect::from_corners(p(x0, y0), p(x1, y1))
}

#[test]
fn no_rects_passes_through() {
    let pieces = clip_segment(p(0.0, 0.0), p(10.0, 0.0), &[]);
    assert_eq!(pieces.len(), 1);
}

#[test]
fn segment_outside_unchanged() {
    let pieces = clip_segment(p(0.0, 0.0), p(10.0, 0.0), &[r(20.0, -5.0, 30.0, 5.0)]);
    assert_eq!(pieces.len(), 1);
}

#[test]
fn segment_through_pad_splits_in_two() {
    // Horizontal segment crossing a pad centred at x = 5.
    let pieces = clip_segment(p(0.0, 0.0), p(10.0, 0.0), &[r(4.0, -1.0, 6.0, 1.0)]);
    assert_eq!(pieces.len(), 2);
    // The entry stub ends at x = 4, the exit stub starts at x = 6.
    let (a0, b0) = pieces[0];
    let (a1, b1) = pieces[1];
    assert!((to_mm(a0.x) - 0.0).abs() < 1e-3);
    assert!((to_mm(b0.x) - 4.0).abs() < 1e-3);
    assert!((to_mm(a1.x) - 6.0).abs() < 1e-3);
    assert!((to_mm(b1.x) - 10.0).abs() < 1e-3);
}

#[test]
fn segment_inside_dropped() {
    let pieces = clip_segment(p(4.5, 0.0), p(5.5, 0.0), &[r(4.0, -1.0, 6.0, 1.0)]);
    assert!(pieces.is_empty());
}

#[test]
fn segment_starts_inside_emits_only_exit() {
    let pieces = clip_segment(p(5.0, 0.0), p(10.0, 0.0), &[r(4.0, -1.0, 6.0, 1.0)]);
    assert_eq!(pieces.len(), 1);
    let (a, b) = pieces[0];
    assert!((to_mm(a.x) - 6.0).abs() < 1e-3);
    assert!((to_mm(b.x) - 10.0).abs() < 1e-3);
}

#[test]
fn two_pads_leave_three_pieces() {
    let pieces =
        clip_segment(p(0.0, 0.0), p(10.0, 0.0), &[r(2.0, -1.0, 3.0, 1.0), r(6.0, -1.0, 7.0, 1.0)]);
    assert_eq!(pieces.len(), 3);
}

#[test]
fn expand_by_one() {
    let e = r(0.0, 0.0, 2.0, 4.0).expand(mm(1.0));
    assert_eq!(e, r(-1.0, -1.0, 3.0, 5.0));
    assert_eq!(e.width(), mm(4.0));
    assert_eq!(e.height(), mm(6.0));
    assert_eq!(r(0.0, 0.0, 2.0, 4.0).expand(mm(0.4)).expand(mm(0.6)), e);
}

#[test]
fn touching_boxes_do_not_intersect() {
    let a = r(0.0, 0.0, 2.0, 2.0);
    let b = r(2.0, 0.0, 4.0, 2.0);
    let c = r(1.0, 1.0, 3.0, 3.0);
    assert!(!a.intersects(&b) && !b.intersects(&a));
    assert!(a.intersects(&c) && c.intersects(&a));
    assert_eq!(a.union(b), r(0.0, 0.0, 4.0, 2.0));
    assert_eq!(a.union(b), b.union(a));
    assert_eq!(Rect::from_center(p(1.0, 1.0), mm(2.0), mm(2.0)), a);
}

#[test]
fn corners_come_in_any_order() {
    assert_eq!(Rect::from_corners(p(3.0, 0.0), p(1.0, 5.0)), r(1.0, 0.0, 3.0, 5.0));
    assert_eq!(p(1.0, 2.0).translate(mm(0.5), mm(-1.0)), p(1.5, 1.0));
}

#[test]
fn lengths_add_up() {
    assert_eq!(mm(1.5) + mm(0.5), mm(2.0));
    assert_eq!(mm(1.5) - mm(2.0), mm(-0.5));
    assert_eq!((mm(1.5) - mm(2.0)).abs(), mm(0.5));
    assert_eq!(-mm(1.0), mm(-1.0));
    assert_eq!(mm(1.0) * 3, mm(3.0));
    assert_eq!(mm(1.0) / 4, mm(0.25));
    assert_eq!(mm(1.0).min(mm(2.0)), mm(1.0));
    assert_eq!(mm(1.0).max(mm(2.0)), mm(2.0));
    assert_eq!(Length::zero(), Length(0));
}

#[test]
fn quarter_turns_land_exactly() {
    let o = Point::origin();
    assert_eq!(Rotation::degrees(90).turn(o, p(1.0, 0.0)), p(0.0, 1.0));
    assert_eq!(Rotation::degrees(180).turn(o, p(1.0, 0.0)), p(-1.0, 0.0));
    assert_eq!(Rotation::degrees(-90).turn(o, p(1.0, 0.0)), p(0.0, -1.0));
    assert_eq!(Rotation::degrees(90).quarter_turns(), 1);
    assert_eq!(Rotation::degrees(270).quarter_turns(), 3);
}

#[test]
fn other_angles_round_to_the_nearest_nanometre() {
    let q = Rotation::degrees(30).turn(Point::origin(), p(10.0, 0.0));
    assert!((q.x.0 as f64 - 1e7 * 30f64.to_radians().cos()).abs() <= 1.0);
    assert!((q.y.0 as f64 - 1e7 * 30f64.to_radians().sin()).abs() <= 1.0);
    let half = Rotation::degrees(45).plus(Rotation::degrees(45));
    assert_eq!(half.quarter_turns(), 1);
}

#[test]
fn distances_between_segments() {
    assert_eq!(seg_pt_dist2(p(0.0, 0.0), p(10.0, 0.0), p(5.0, 3.0)), 9_000_000_000_000);
    assert_eq!(seg_pt_dist2(p(0.0, 0.0), p(10.0, 0.0), p(13.0, 4.0)), 25_000_000_000_000);
    assert!(segs_intersect(p(0.0, 0.0), p(2.0, 2.0), p(0.0, 2.0), p(2.0, 0.0)));
    assert_eq!(seg_seg_dist2(p(0.0, 0.0), p(2.0, 2.0), p(0.0, 2.0), p(2.0, 0.0)), 0);
    assert_eq!(
        seg_seg_dist2(p(0.0, 0.0), p(2.0, 0.0), p(0.0, 1.0), p(2.0, 1.0)),
        1_000_000_000_000
    );
}

#[test]
fn integer_roots_round_down() {
    assert_eq!(isqrt(0), 0);
    assert_eq!(isqrt(24), 4);
    assert_eq!(isqrt(25), 5);
    assert_eq!(isqrt(1_000_000_000_000_000_000), 1_000_000_000);
}

#[test]
fn a_missing_polyline_is_clear() {
    let pads = vec![r(0.0, 0.0, 1.0, 1.0)];
    assert!(polyline_misses_all(&vec![p(2.0, 0.0), p(2.0, 3.0)], &pads));
    assert!(!polyline_misses_all(&vec![p(-1.0, 0.5), p(2.0, 0.5)], &pads));
    // Only the box of the segment touches the pad.
    assert!(!polyline_misses_all(&vec![p(-1.0, 0.5), p(0.5, 3.0)], &pads));
    assert!(polyline_misses_all(&vec![], &pads));
}

fn q(x: i64, y: i64) -> Point {
    Point::new(Length(x), Length(y))
}

#[test]
fn squared_distances_are_rounded_up_once() {
    // The exact value is 169/109.
    assert_eq!(seg_pt_dist2(q(0, 0), q(10, 3), q(9, 4)), 2);
    assert_eq!(seg_pt_dist2(q(0, 0), q(10, 3), q(10, 3)), 0);
    assert_eq!(seg_pt_dist2(q(i64::MAX, 0), q(-2, 0), q(i64::MAX, 0)), 0);
}

#[test]
fn distance_is_the_same_both_ways_and_zero_on_contact() {
    let (a, b, c, d) = (q(0, 0), q(10, 3), q(9, 4), q(30, 40));
    assert_eq!(seg_seg_dist2(a, b, c, d), 2);
    assert_eq!(seg_seg_dist2(c, d, a, b), 2);
    assert_eq!(seg_seg_dist2(a, b, b, d), 0);
    assert_eq!(seg_seg_dist2(b, d, a, b), 0);
}

#[test]
fn a_box_without_area_intersects_nothing() {
    let line = r(1.0, 0.0, 1.0, 2.0);
    let area = r(0.0, 0.0, 2.0, 2.0);
    assert!(!line.intersects(&area) && !area.intersects(&line));
    assert!(!line.intersects(&line));
    assert!(area.intersects(&area));
}

#[test]
fn cutting_appends_what_clipping_gives() {
    let pad = r(2.0, -1.0, 3.0, 1.0);
    let (a, b) = (p(0.0, 0.0), p(5.0, 0.0));
    let mut out = vec![(b, a)];
    subtract_rect(a, b, pad, &mut out);
    assert_eq!(out[0], (b, a));
    assert_eq!(out[1..].to_vec(), clip_segment(a, b, &[pad]));
    assert_eq!(out.len(), 3);
    assert_eq!(out[1], (a, p(2.0, 0.0)));
    assert_eq!(out[2], (p(3.0, 0.0), b));
}

#[test]
fn a_missing_polyline_is_left_whole() {
    let pads = vec![r(0.0, 0.0, 1.0, 1.0), r(5.0, 5.0, 6.0, 6.0)];
    let line = vec![p(2.0, 0.0), p(2.0, 3.0), p(4.0, 9.0)];
    assert!(polyline_misses_all(&line, &pads));
    for k in 1..line.len() {
        assert_eq!(clip_segment(line[k - 1], line[k], &pads), vec![(line[k - 1], line[k])]);
    }
    assert!(polyline_misses_all(&line, &vec![]));
    assert!(!polyline_misses_all(&vec![p(1.0, 1.0)], &pads));
}

#[test]
fn distances_between_segments_and_boxes() {
    let pad = r(0.0, 0.0, 1.0, 1.0);
    assert_eq!(seg_rect_dist2(p(3.0, -2.0), p(3.0, 5.0), pad), 4_000_000_000_000);
    assert_eq!(seg_rect_dist2(p(4.0, 5.0), p(9.0, 9.0), pad), 25_000_000_000_000);
    // A segment inside the box, and one across it.
    assert_eq!(seg_rect_dist2(p(0.2, 0.2), p(0.8, 0.8), pad), 0);
    assert_eq!(seg_rect_dist2(p(-1.0, 0.5), p(2.0, 0.5), pad), 0);
}

#[test]
fn clipping_by_several_boxes_leaves_the_rest() {
    // A slanted stroke through two boxes: three pieces in order, along the
    // stroke, and outside the boxes but for the rounding.
    let (a, b) = (p(0.0, 0.0), p(10.0, 3.0));
    let boxes = [r(2.0, 0.0, 3.0, 2.0), r(6.0, 1.0, 7.0, 4.0)];
    let pieces = clip_segment(a, b, &boxes);
    assert_eq!(pieces.len(), 3);
    assert_eq!(pieces[0], (a, p(2.0, 0.6)));
    assert_eq!(pieces[1], (p(3.0, 0.9), p(6.0, 1.8)));
    assert_eq!(pieces[2], (p(7.0, 2.1), b));
    // An end that is not a whole number of nanometres is rounded.
    let cut = clip_segment(q(0, 0), q(10, 3), &[Rect::from_corners(q(4, -9), q(5, 9))]);
    assert_eq!(cut, vec![(q(0, 0), q(4, 1)), (q(5, 2), q(10, 3))]);
}
