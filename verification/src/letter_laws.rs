//! How a text is lettered on the silkscreen, and how high a body is.

use vstd::prelude::*;

use crate::board::{Footprint, SilkAnchor};
use crate::drc_laws;
use crate::geometry::Point;
use crate::hershey;
use crate::hershey::Layout;
use crate::rotation;
use crate::rotation::UNIT;
use crate::silkscreen;
use crate::units;

verus! {

/// The polyline is stroke `m` of the glyph of character `k`, as far to the
/// right as the characters before it are wide.
pub open spec fn is_stroke(l: Layout, text: Seq<char>, k: int, m: int, poly: Seq<Point>) -> bool {
    let s = hershey::strokes_of(text[k]);
    &&& 0 <= k < text.len()
    &&& 0 <= m < s.len()
    &&& s[m].len() >= 2
    &&& poly.len() == s[m].len()
    &&& forall|i: int|
        0 <= i < poly.len() ==> #[trigger] poly[i] == l.place(
            24 * k + s[m][i].0,
            s[m][i].1 as int,
        )
}

proof fn glyph_lines_hold(l: Layout, text: Seq<char>, k: int, n: int, poly: Seq<Point>)
    requires
        0 <= k < text.len(),
        0 <= n <= hershey::strokes_of(text[k]).len(),
    ensures
        l.glyph_lines(hershey::strokes_of(text[k]), k * hershey::ADVANCE_UNITS, n).contains(poly)
            <==> exists|m: int| m < n && #[trigger] is_stroke(l, text, k, m, poly),
    decreases n,
{
    let s = hershey::strokes_of(text[k]);
    let pen = k * hershey::ADVANCE_UNITS;
    if n > 0 {
        glyph_lines_hold(l, text, k, n - 1, poly);
        let rest = l.glyph_lines(s, pen, n - 1);
        let last = l.polyline(s[n - 1], pen);
        if is_stroke(l, text, k, n - 1, poly) {
            assert(poly =~= last);
            let w = rest.push(last);
            assert(w[rest.len() as int] == poly);
        }
        if s[n - 1].len() >= 2 {
            drc_laws::joined_holds(rest, seq![last], poly);
            assert(rest + seq![last] =~= rest.push(last));
            assert(seq![last].contains(poly) <==> poly == last) by {
                assert(seq![last][0] == last);
            }
            if poly == last {
                assert(is_stroke(l, text, k, n - 1, poly));
            }
        }
        if exists|m: int| m < n && #[trigger] is_stroke(l, text, k, m, poly) {
            let m = choose|m: int| m < n && #[trigger] is_stroke(l, text, k, m, poly);
            assert(m == n - 1 || m < n - 1);
        }
    }
}

proof fn lines_hold(l: Layout, text: Seq<char>, n: int, poly: Seq<Point>)
    requires
        0 <= n <= text.len(),
    ensures
        l.lines(text, n).contains(poly) <==> exists|k: int, m: int|
            k < n && #[trigger] is_stroke(l, text, k, m, poly),
    decreases n,
{
    if n > 0 {
        lines_hold(l, text, n - 1, poly);
        let s = hershey::strokes_of(text[n - 1]);
        let last = l.glyph_lines(s, (n - 1) * hershey::ADVANCE_UNITS, s.len() as int);
        glyph_lines_hold(l, text, n - 1, s.len() as int, poly);
        drc_laws::joined_holds(l.lines(text, n - 1), last, poly);
        if last.contains(poly) {
            let m = choose|m: int| m < s.len() && #[trigger] is_stroke(l, text, n - 1, m, poly);
            assert(is_stroke(l, text, n - 1, m, poly));
        }
        if exists|k: int, m: int| k < n && #[trigger] is_stroke(l, text, k, m, poly) {
            let (k, m) = choose|k: int, m: int|
                k < n && #[trigger] is_stroke(l, text, k, m, poly);
            if k == n - 1 {
                assert(m < s.len());
            }
        }
    }
}

/// A text is lettered with every stroke of every one of its characters, each
/// character behind those before it, and with nothing else; strokes of a
/// single point are left out.
pub proof fn every_stroke_is_lettered(l: Layout, text: Seq<char>, poly: Seq<Point>)
    ensures
        l.lines(text, text.len() as int).contains(poly) <==> exists|k: int, m: int| #[trigger]
            is_stroke(l, text, k, m, poly),
{
    lines_hold(l, text, text.len() as int, poly);
    if exists|k: int, m: int| #[trigger] is_stroke(l, text, k, m, poly) {
        let (k, m) = choose|k: int, m: int| #[trigger] is_stroke(l, text, k, m, poly);
        assert(k < text.len());
    }
}

/// A text that is not turned stands upright: a point of the grid is as far
/// to the right of the start as it is in the grid, and as far up, with the
/// cap height for 32 units. Centred, the text starts half its width to the
/// left of the origin; at its end, all of it.
pub proof fn upright_text_is_not_turned(l: Layout, x: int, y: int)
    requires
        l.rotation.cos == UNIT,
        l.rotation.sin == 0,
        l.size.0 >= 0,
    ensures
        ({
            let width = 24 * l.len;
            let lead = match l.anchor {
                SilkAnchor::Start => 0,
                SilkAnchor::Middle => width,
                SilkAnchor::End => 2 * width,
            };
            &&& l.lead() == lead
            &&& l.place(x, y).x.0 == rotation::rounded(
                l.origin.x.0 * 64 + l.size.0 * (2 * x - lead),
                64,
            ) as i64
            &&& l.place(x, y).y.0 == rotation::rounded(l.origin.y.0 * 64 + l.size.0 * (2 * y), 64) as i64
        }),
{
    let u = UNIT as int;
    let lx = l.size.0 * (2 * x - l.lead());
    let ly = l.size.0 * (2 * y);
    let (ox, oy) = (l.origin.x.0 as int, l.origin.y.0 as int);
    assert(ox * (64 * u) + (lx * u - ly * 0) == (ox * 64 + lx) * u) by (nonlinear_arith);
    assert(oy * (64 * u) + (lx * 0 + ly * u) == (oy * 64 + ly) * u) by (nonlinear_arith);
    scaled_rounds_alike(ox * 64 + lx, u);
    scaled_rounds_alike(oy * 64 + ly, u);
}

proof fn scaled_rounds_alike(a: int, u: int)
    requires
        u > 0,
    ensures
        rotation::rounded(a * u, 64 * u) == rotation::rounded(a, 64),
{
    let m = if a >= 0 {
        a
    } else {
        -a
    };
    assert((a >= 0 <==> a * u >= 0) && (a < 0 ==> -(a * u) == m * u) && (a >= 0 ==> a * u == m * u))
        by (nonlinear_arith)
        requires
            u > 0,
            m == (if a >= 0 {
                a
            } else {
                -a
            }),
    ;
    let q = (2 * m + 64) / 128;
    let r = (2 * m + 64) % 128;
    assert(2 * (m * u) + 64 * u == (2 * m + 64) * u) by (nonlinear_arith);
    assert((2 * m + 64) * u == q * (128 * u) + r * u) by (nonlinear_arith)
        requires
            2 * m + 64 == 128 * q + r,
    ;
    assert(0 <= r * u < 128 * u) by (nonlinear_arith)
        requires
            0 <= r < 128,
            u > 0,
    ;
    let k = 128 * u;
    let n = (2 * m + 64) * u;
    assert(n / k == q) by (nonlinear_arith)
        requires
            n == q * k + r * u,
            0 <= r * u < k,
    ;
}

/// The lower end of pad `j` in the frame of the footprint.
pub open spec fn bottom_of(fp: Footprint, j: int) -> int {
    fp.pads@[j].offset.y.0 - units::quot(fp.pads@[j].size.1.0 as int, 2)
}

/// The upper end of pad `j` in the frame of the footprint.
pub open spec fn top_of(fp: Footprint, j: int) -> int {
    fp.pads@[j].offset.y.0 + units::quot(fp.pads@[j].size.1.0 as int, 2)
}

/// Every one of the first `n` pads is between the two heights, and some pad
/// reaches each.
pub open spec fn spans(fp: Footprint, lo: int, hi: int, n: int) -> bool {
    &&& forall|j: int| 0 <= j < n ==> lo <= #[trigger] bottom_of(fp, j)
    &&& forall|j: int| 0 <= j < n ==> #[trigger] top_of(fp, j) <= hi
    &&& exists|j: int| 0 <= j < n && #[trigger] bottom_of(fp, j) == lo
    &&& exists|j: int| 0 <= j < n && #[trigger] top_of(fp, j) == hi
}

proof fn one_more_pad(fp: Footprint, a: int, b: int, lo: int, hi: int, n: int)
    requires
        0 <= n,
        n > 0 ==> spans(fp, a, b, n),
        lo == if n > 0 && a <= bottom_of(fp, n) {
            a
        } else {
            bottom_of(fp, n)
        },
        hi == if n > 0 && b >= top_of(fp, n) {
            b
        } else {
            top_of(fp, n)
        },
    ensures
        spans(fp, lo, hi, n + 1),
{
    if n > 0 {
        let p = choose|j: int| 0 <= j < n && #[trigger] bottom_of(fp, j) == a;
        let q = choose|j: int| 0 <= j < n && #[trigger] top_of(fp, j) == b;
        assert(bottom_of(fp, p) == a && top_of(fp, q) == b);
    }
    assert(bottom_of(fp, n) >= lo && top_of(fp, n) <= hi);
}

/// The height of a body, in the frame of the footprint, is that of its pads.
pub proof fn bodies_are_as_high_as_their_pads(fp: Footprint, n: int)
    requires
        0 <= n <= fp.pads@.len(),
    ensures
        silkscreen::extent_upto(fp, n) is None <==> n == 0,
        silkscreen::extent_upto(fp, n) is Some ==> spans(
            fp,
            (silkscreen::extent_upto(fp, n)->0).0,
            (silkscreen::extent_upto(fp, n)->0).1,
            n,
        ),
    decreases n,
{
    if n > 0 {
        bodies_are_as_high_as_their_pads(fp, n - 1);
        let (lo, hi) = silkscreen::extent_upto(fp, n)->0;
        let (a, b) = silkscreen::extent_upto(fp, n - 1)->0;
        one_more_pad(fp, a, b, lo, hi, n - 1);
    }
}

} // verus!
