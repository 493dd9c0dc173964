//! What is drawn on a copper layer and in the solder mask, mark by mark.

use vstd::prelude::*;

use crate::board::{Board, CopperLayer, Footprint, Pad, ThermalRelief, Trace, Via};
use crate::geometry::Point;
use crate::gerber;
use crate::gerber::{Aperture, Ink, Side};
use crate::list;
use crate::units::Length;

verus! {

/// Pour `k` is on the layer and of the net.
pub open spec fn is_pour_of(b: Board, layer: CopperLayer, net: Seq<char>, k: int) -> bool {
    0 <= k < b.pours@.len() && b.pours@[k].layer == layer && b.pours@[k].net@ == net
}

/// Some pour of the layer carries the net.
pub open spec fn has_pour(b: Board, layer: CopperLayer, net: Seq<char>) -> bool {
    exists|k: int| #[trigger] is_pour_of(b, layer, net, k)
}

/// Pour `k` is the last on the layer that carries the net.
pub open spec fn is_last_pour(b: Board, layer: CopperLayer, net: Seq<char>, k: int) -> bool {
    is_pour_of(b, layer, net, k) && forall|m: int| #[trigger]
        is_pour_of(b, layer, net, m) ==> m <= k
}

/// Some pour is on the layer.
pub open spec fn is_poured(b: Board, layer: CopperLayer) -> bool {
    exists|k: int| 0 <= k < b.pours@.len() && (#[trigger] b.pours@[k]).layer == layer
}

/// A trace widened by `m` on both sides.
pub open spec fn stroke(t: Trace, m: int) -> Ink {
    Ink::Draw(Aperture::Round { d: Length((t.width.0 + 2 * m) as i64) }, t.start, t.end)
}

/// A via widened by `m` all around.
pub open spec fn dot(v: Via, m: int) -> Ink {
    Ink::Flash(Aperture::Round { d: Length((v.diameter.0 + 2 * m) as i64) }, v.position)
}

/// A pad widened by `m` on all sides.
pub open spec fn patch(fp: Footprint, pad: Pad, m: int) -> Ink {
    Ink::Flash(
        Aperture::Rect {
            w: Length((fp.size_of(pad).0.0 + 2 * m) as i64),
            h: Length((fp.size_of(pad).1.0 + 2 * m) as i64),
        },
        fp.center_of(pad),
    )
}

/// The pad has copper on the layer.
pub open spec fn pad_is_on(pad: Pad, layer: CopperLayer) -> bool {
    pad.drill is Some || pad.layer == layer
}

/// Trace `k` is live and on the layer.
pub open spec fn trace_is_on(b: Board, layer: CopperLayer, k: int) -> bool {
    b.traces@[k].layer == layer && !b.orphan_trace(b.traces@[k].id)
}

/// No pour of the layer carries the net of the pad.
pub open spec fn is_foreign(b: Board, layer: CopperLayer, pad: Pad) -> bool {
    pad.net matches Some(n) ==> !has_pour(b, layer, n@)
}

/// The relief has spokes across that gap.
pub open spec fn has_gap(relief: ThermalRelief, gap: Length) -> bool {
    relief matches ThermalRelief::Spokes4 { spoke_width: _, gap: g } && g == gap
}

/// The last pour of the layer that carries the net of the pad has spokes
/// across that gap.
pub open spec fn is_spoked(b: Board, layer: CopperLayer, pad: Pad, gap: Length) -> bool {
    pad.net matches Some(n) && exists|k: int| #[trigger]
        is_last_pour(b, layer, n@, k) && has_gap(b.pours@[k].thermal_relief, gap)
}

/// The mark is what is cleared around a pad: the clearance of 0.2 mm around
/// a foreign one, the gap around one with spokes, nothing around a solid one.
pub open spec fn is_pad_void(b: Board, layer: CopperLayer, i: int, j: int, x: Ink) -> bool {
    let fp = b.footprints@[i];
    let pad = fp.pads@[j];
    &&& pad_is_on(pad, layer)
    &&& {
        ||| is_foreign(b, layer, pad) && x == patch(fp, pad, 200_000)
        ||| exists|gap: Length| #[trigger]
            is_spoked(b, layer, pad, gap) && x == patch(fp, pad, gap.0 as int)
    }
}

/// The mark is what is cleared around a foreign trace: the trace with 0.2 mm
/// on both sides.
pub open spec fn is_trace_void(b: Board, layer: CopperLayer, k: int, x: Ink) -> bool {
    &&& trace_is_on(b, layer, k)
    &&& !has_pour(b, layer, b.traces@[k].net@)
    &&& x == stroke(b.traces@[k], 200_000)
}

/// The mark is what is cleared around a foreign via: the via with 0.2 mm all
/// around.
pub open spec fn is_via_void(b: Board, layer: CopperLayer, k: int, x: Ink) -> bool {
    &&& !b.orphan_via(b.vias@[k].id)
    &&& !has_pour(b, layer, b.vias@[k].net@)
    &&& x == dot(b.vias@[k], 200_000)
}

/// How many pads have the property.
pub open spec fn pads_like(b: Board, p: spec_fn(int, int) -> bool) -> nat {
    list::total(
        |i: int| list::how_many(|j: int| p(i, j), b.footprints@[i].pads@.len() as int),
        b.footprints@.len() as int,
    )
}

pub proof fn once<T>(y: T, x: T)
    ensures
        list::how_often(seq![y], x) == (if y == x {
            1nat
        } else {
            0nat
        }),
        list::how_often(Seq::<T>::empty(), x) == 0,
{
    reveal_with_fuel(list::how_often, 2);
    assert(seq![y].drop_last() =~= Seq::empty());
}

proof fn over_is_counted<S, T>(
    s: Seq<S>,
    f: spec_fn(S) -> Seq<T>,
    p: spec_fn(int) -> bool,
    n: int,
    x: T,
)
    requires
        0 <= n <= s.len(),
        forall|k: int|
            0 <= k < n ==> list::how_often(f(#[trigger] s[k]), x) == (if p(k) {
                1nat
            } else {
                0nat
            }),
    ensures
        list::how_often(gerber::over(s, f, n), x) == list::how_many(p, n),
    decreases n,
{
    if n > 0 {
        over_is_counted(s, f, p, n - 1, x);
        list::how_often_joined(gerber::over(s, f, n - 1), f(s[n - 1]), x);
    }
}

proof fn over_fp_is_counted<T>(
    fp: Footprint,
    f: spec_fn(Footprint, Pad) -> Seq<T>,
    p: spec_fn(int) -> bool,
    n: int,
    x: T,
)
    requires
        0 <= n <= fp.pads@.len(),
        forall|j: int|
            0 <= j < n ==> list::how_often(f(fp, #[trigger] fp.pads@[j]), x) == (if p(j) {
                1nat
            } else {
                0nat
            }),
    ensures
        list::how_often(gerber::over_fp(fp, f, n), x) == list::how_many(p, n),
    decreases n,
{
    if n > 0 {
        over_fp_is_counted(fp, f, p, n - 1, x);
        list::how_often_joined(gerber::over_fp(fp, f, n - 1), f(fp, fp.pads@[n - 1]), x);
    }
}

pub proof fn over_pads_is_counted<T>(
    fps: Seq<Footprint>,
    f: spec_fn(Footprint, Pad) -> Seq<T>,
    p: spec_fn(int, int) -> bool,
    n: int,
    x: T,
)
    requires
        0 <= n <= fps.len(),
        forall|i: int, j: int|
            0 <= i < n && 0 <= j < fps[i].pads@.len() ==> list::how_often(
                f(fps[i], #[trigger] fps[i].pads@[j]),
                x,
            ) == (if p(i, j) {
                1nat
            } else {
                0nat
            }),
    ensures
        list::how_often(gerber::over_pads(fps, f, n), x) == list::total(
            |i: int| list::how_many(|j: int| p(i, j), fps[i].pads@.len() as int),
            n,
        ),
    decreases n,
{
    let g = |i: int| list::how_many(|j: int| p(i, j), fps[i].pads@.len() as int);
    if n > 0 {
        over_pads_is_counted(fps, f, p, n - 1, x);
        let fp = fps[n - 1];
        let m = fp.pads@.len() as int;
        let q = |j: int| p(n - 1, j);
        assert forall|j: int| 0 <= j < m implies list::how_often(f(fp, #[trigger] fp.pads@[j]), x)
            == (if q(j) {
            1nat
        } else {
            0nat
        }) by {
            assert(fps[n - 1].pads@[j] == fp.pads@[j]);
        }
        over_fp_is_counted(fp, f, q, m, x);
        list::how_often_joined(gerber::over_pads(fps, f, n - 1), gerber::over_fp(fp, f, m), x);
        assert(g(n - 1) == list::how_many(q, m));
        assert(list::total(g, n) == list::total(g, n - 1) + g(n - 1));
    }
}

proof fn last_pour(b: Board, layer: CopperLayer, net: Seq<char>, n: int) -> (k: int)
    requires
        0 <= n <= b.pours@.len(),
    ensures
        gerber::relief_upto(b, layer, net, n) is Some ==> is_pour_of(b, layer, net, k) && k < n
            && gerber::relief_upto(b, layer, net, n) == Some(b.pours@[k].thermal_relief),
        gerber::relief_upto(b, layer, net, n) is None ==> k == -1,
        forall|m: int| m < n && #[trigger] is_pour_of(b, layer, net, m) ==> m <= k,
    decreases n,
{
    if n <= 0 {
        -1
    } else if is_pour_of(b, layer, net, n - 1) {
        n - 1
    } else {
        last_pour(b, layer, net, n - 1)
    }
}

/// A net has a relief on a layer exactly if some pour of the layer carries
/// it, and then it is that of the last such pour.
pub proof fn relief_is_that_of_the_pour(b: Board, layer: CopperLayer, net: Seq<char>)
    ensures
        gerber::relief_of(b, layer, net) is Some <==> has_pour(b, layer, net),
        forall|k: int| #[trigger]
            is_last_pour(b, layer, net, k) ==> gerber::relief_of(b, layer, net) == Some(
                b.pours@[k].thermal_relief,
            ),
        has_pour(b, layer, net) ==> exists|k: int| #[trigger] is_last_pour(b, layer, net, k),
{
    let k = last_pour(b, layer, net, b.pours@.len() as int);
    if gerber::relief_of(b, layer, net) is Some {
        assert(is_last_pour(b, layer, net, k));
    } else {
        assert(forall|m: int| !#[trigger] is_pour_of(b, layer, net, m));
    }
}

proof fn pad_void_is_cleared(b: Board, layer: CopperLayer, i: int, j: int, x: Ink)
    ensures
        list::how_often(
            gerber::void_ink(b, layer)(b.footprints@[i], b.footprints@[i].pads@[j]),
            x,
        ) == (if is_pad_void(b, layer, i, j, x) {
            1nat
        } else {
            0nat
        }),
{
    let fp = b.footprints@[i];
    let pad = fp.pads@[j];
    let f = gerber::void_ink(b, layer)(fp, pad);
    if let Some(n) = pad.net {
        relief_is_that_of_the_pour(b, layer, n@);
    }
    once(patch(fp, pad, 200_000), x);
    match gerber::pad_relief(b, layer, pad) {
        None => {
            assert(is_foreign(b, layer, pad));
        },
        Some(ThermalRelief::Solid) => {},
        Some(ThermalRelief::Spokes4 { spoke_width, gap }) => {
            let net = pad.net->0@;
            let k = choose|k: int| #[trigger] is_last_pour(b, layer, net, k);
            assert(is_last_pour(b, layer, net, k));
            assert(is_spoked(b, layer, pad, gap));
            once(patch(fp, pad, gap.0 as int), x);
        },
    }
}

/// On a poured layer the clear pass holds what is cleared around the foreign
/// pads, the pads with spokes, the live foreign traces of the layer and the
/// live foreign vias, each as often as the board has it, and nothing else.
pub proof fn clear_pass_is_exact(b: Board, layer: CopperLayer, x: Ink)
    ensures
        list::how_often(gerber::copper(b, layer).voids, x) == (if is_poured(b, layer) {
            pads_like(b, |i: int, j: int| is_pad_void(b, layer, i, j, x)) + list::how_many(
                |k: int| is_via_void(b, layer, k, x),
                b.vias@.len() as int,
            ) + list::how_many(|k: int| is_trace_void(b, layer, k, x), b.traces@.len() as int)
        } else {
            0
        }),
{
    if is_poured(b, layer) {
        let np = b.footprints@.len() as int;
        let nt = b.traces@.len() as int;
        let nv = b.vias@.len() as int;
        let (fp, fv, ft) = (
            gerber::void_ink(b, layer),
            gerber::via_ink(b, layer, true, 200_000),
            gerber::trace_ink(b, layer, true, 200_000),
        );
        let p = |i: int, j: int| is_pad_void(b, layer, i, j, x);
        let v = |k: int| is_via_void(b, layer, k, x);
        let t = |k: int| is_trace_void(b, layer, k, x);
        assert forall|i: int, j: int|
            0 <= i < np && 0 <= j < b.footprints@[i].pads@.len() implies list::how_often(
            fp(b.footprints@[i], #[trigger] b.footprints@[i].pads@[j]),
            x,
        ) == (if p(i, j) {
            1nat
        } else {
            0nat
        }) by {
            pad_void_is_cleared(b, layer, i, j, x);
        }
        over_pads_is_counted(b.footprints@, fp, p, np, x);
        assert forall|k: int| 0 <= k < nv implies list::how_often(fv(#[trigger] b.vias@[k]), x)
            == (if v(k) {
            1nat
        } else {
            0nat
        }) by {
            relief_is_that_of_the_pour(b, layer, b.vias@[k].net@);
            once(dot(b.vias@[k], 200_000), x);
        }
        over_is_counted(b.vias@, fv, v, nv, x);
        assert forall|k: int| 0 <= k < nt implies list::how_often(ft(#[trigger] b.traces@[k]), x)
            == (if t(k) {
            1nat
        } else {
            0nat
        }) by {
            relief_is_that_of_the_pour(b, layer, b.traces@[k].net@);
            once(stroke(b.traces@[k], 200_000), x);
        }
        over_is_counted(b.traces@, ft, t, nt, x);
        let a = gerber::over_pads(b.footprints@, fp, np);
        let c = gerber::over(b.vias@, fv, nv);
        let d = gerber::over(b.traces@, ft, nt);
        list::how_often_joined(a + c, d, x);
        list::how_often_joined(a, c, x);
        assert(gerber::copper(b, layer).voids == a + c + d);
    } else {
        once(x, x);
    }
}

proof fn counted_is_there(p: spec_fn(int) -> bool, n: int)
    ensures
        list::how_many(p, n) > 0 <==> exists|k: int| 0 <= k < n && #[trigger] p(k),
    decreases n,
{
    if n > 0 {
        counted_is_there(p, n - 1);
        if p(n - 1) {
            assert(0 <= n - 1 < n && p(n - 1));
        }
    }
}

proof fn summed_is_there(g: spec_fn(int) -> nat, n: int)
    ensures
        list::total(g, n) > 0 <==> exists|k: int| 0 <= k < n && #[trigger] g(k) > 0,
    decreases n,
{
    if n > 0 {
        summed_is_there(g, n - 1);
        if g(n - 1) > 0 {
            assert(0 <= n - 1 < n && g(n - 1) > 0);
        }
    }
}

proof fn often_is_there<T>(s: Seq<T>, x: T)
    ensures
        list::how_often(s, x) > 0 <==> s.contains(x),
    decreases s.len(),
{
    if s.len() > 0 {
        let t = s.drop_last();
        often_is_there(t, x);
        if t.contains(x) {
            let k = choose|k: int| 0 <= k < t.len() && t[k] == x;
            assert(s[k] == x);
        }
        if s.last() == x {
            assert(s[s.len() - 1] == x);
        }
        if s.contains(x) && s.last() != x {
            let k = choose|k: int| 0 <= k < s.len() && s[k] == x;
            assert(t[k] == x);
        }
    }
}

/// On a poured layer, a draw is in the clear pass exactly if it is a live
/// trace of the layer whose net has no pour there, with its width and twice
/// the clearance of 0.2 mm. So every such trace is cleared, and no trace of a
/// poured net is.
pub proof fn foreign_traces_are_cleared(
    b: Board,
    layer: CopperLayer,
    ap: Aperture,
    start: Point,
    end: Point,
)
    requires
        is_poured(b, layer),
    ensures
        gerber::copper(b, layer).voids.contains(Ink::Draw(ap, start, end)) <==> exists|k: int|
            0 <= k < b.traces@.len() && (#[trigger] b.traces@[k]).layer == layer
                && !b.orphan_trace(b.traces@[k].id) && !has_pour(b, layer, b.traces@[k].net@)
                && ap == (Aperture::Round { d: Length((b.traces@[k].width.0 + 400_000) as i64) })
                && start == b.traces@[k].start && end == b.traces@[k].end,
{
    let x = Ink::Draw(ap, start, end);
    let nt = b.traces@.len() as int;
    let nv = b.vias@.len() as int;
    let p = |i: int, j: int| is_pad_void(b, layer, i, j, x);
    let v = |k: int| is_via_void(b, layer, k, x);
    let t = |k: int| is_trace_void(b, layer, k, x);
    let g = |i: int| list::how_many(|j: int| p(i, j), b.footprints@[i].pads@.len() as int);
    clear_pass_is_exact(b, layer, x);
    often_is_there(gerber::copper(b, layer).voids, x);
    counted_is_there(t, nt);
    counted_is_there(v, nv);
    assert(list::how_many(v, nv) == 0);
    summed_is_there(g, b.footprints@.len() as int);
    assert forall|i: int| 0 <= i < b.footprints@.len() implies #[trigger] g(i) == 0 by {
        counted_is_there(|j: int| p(i, j), b.footprints@[i].pads@.len() as int);
    }
    assert(pads_like(b, p) == list::total(g, b.footprints@.len() as int));
    if list::how_many(t, nt) > 0 {
        let k = choose|k: int| 0 <= k < nt && #[trigger] t(k);
        assert(is_trace_void(b, layer, k, x));
        assert(b.traces@[k].layer == layer);
    }
    if exists|k: int|
        0 <= k < b.traces@.len() && (#[trigger] b.traces@[k]).layer == layer && !b.orphan_trace(
            b.traces@[k].id,
        ) && !has_pour(b, layer, b.traces@[k].net@) && ap == (Aperture::Round {
            d: Length((b.traces@[k].width.0 + 400_000) as i64),
        }) && start == b.traces@[k].start && end == b.traces@[k].end {
        let k = choose|k: int|
            0 <= k < b.traces@.len() && (#[trigger] b.traces@[k]).layer == layer
                && !b.orphan_trace(b.traces@[k].id) && !has_pour(b, layer, b.traces@[k].net@)
                && ap == (Aperture::Round { d: Length((b.traces@[k].width.0 + 400_000) as i64) })
                && start == b.traces@[k].start && end == b.traces@[k].end;
        assert(t(k));
    }
}

/// How often the board has a mark on the layer: as a pad, widened by `m`, as
/// a live trace or as a live via.
pub open spec fn copper_like(b: Board, layer: CopperLayer, x: Ink) -> nat {
    pads_like(b, |i: int, j: int| is_pad_mark(b, layer, i, j, 0, x)) + list::how_many(
        |k: int| !b.orphan_via(b.vias@[k].id) && x == dot(b.vias@[k], 0),
        b.vias@.len() as int,
    ) + list::how_many(
        |k: int| trace_is_on(b, layer, k) && x == stroke(b.traces@[k], 0),
        b.traces@.len() as int,
    )
}

/// The mark is pad `j` of footprint `i`, which has copper on the layer,
/// widened by `m`.
pub open spec fn is_pad_mark(b: Board, layer: CopperLayer, i: int, j: int, m: int, x: Ink) -> bool {
    pad_is_on(b.footprints@[i].pads@[j], layer) && x == patch(
        b.footprints@[i],
        b.footprints@[i].pads@[j],
        m,
    )
}

proof fn pad_marks_are_counted(b: Board, layer: CopperLayer, m: int, x: Ink)
    ensures
        list::how_often(
            gerber::over_pads(
                b.footprints@,
                gerber::pad_ink(layer, m),
                b.footprints@.len() as int,
            ),
            x,
        ) == pads_like(b, |i: int, j: int| is_pad_mark(b, layer, i, j, m, x)),
{
    let f = gerber::pad_ink(layer, m);
    let p = |i: int, j: int| is_pad_mark(b, layer, i, j, m, x);
    assert forall|i: int, j: int|
        0 <= i < b.footprints@.len() && 0 <= j < b.footprints@[i].pads@.len() implies list::how_often(
        f(b.footprints@[i], #[trigger] b.footprints@[i].pads@[j]),
        x,
    ) == (if p(i, j) {
        1nat
    } else {
        0nat
    }) by {
        once(patch(b.footprints@[i], b.footprints@[i].pads@[j], m), x);
    }
    over_pads_is_counted(b.footprints@, f, p, b.footprints@.len() as int, x);
}

proof fn lines_are_counted(b: Board, layer: CopperLayer, x: Ink)
    ensures
        list::how_often(
            gerber::over(b.vias@, gerber::via_ink(b, layer, false, 0), b.vias@.len() as int),
            x,
        ) == list::how_many(
            |k: int| !b.orphan_via(b.vias@[k].id) && x == dot(b.vias@[k], 0),
            b.vias@.len() as int,
        ),
        list::how_often(
            gerber::over(b.traces@, gerber::trace_ink(b, layer, false, 0), b.traces@.len() as int),
            x,
        ) == list::how_many(
            |k: int| trace_is_on(b, layer, k) && x == stroke(b.traces@[k], 0),
            b.traces@.len() as int,
        ),
{
    let (fv, ft) = (gerber::via_ink(b, layer, false, 0), gerber::trace_ink(b, layer, false, 0));
    let v = |k: int| !b.orphan_via(b.vias@[k].id) && x == dot(b.vias@[k], 0);
    let t = |k: int| trace_is_on(b, layer, k) && x == stroke(b.traces@[k], 0);
    assert forall|k: int| 0 <= k < b.vias@.len() implies list::how_often(
        fv(#[trigger] b.vias@[k]),
        x,
    ) == (if v(k) {
        1nat
    } else {
        0nat
    }) by {
        once(dot(b.vias@[k], 0), x);
    }
    over_is_counted(b.vias@, fv, v, b.vias@.len() as int, x);
    assert forall|k: int| 0 <= k < b.traces@.len() implies list::how_often(
        ft(#[trigger] b.traces@[k]),
        x,
    ) == (if t(k) {
        1nat
    } else {
        0nat
    }) by {
        once(stroke(b.traces@[k], 0), x);
    }
    over_is_counted(b.traces@, ft, t, b.traces@.len() as int, x);
}

/// The copper of a layer, outer or inner, poured or not, is every pad with
/// copper there, every live trace of the layer and every live via, each in
/// its own size and as often as the board has it, and nothing else.
pub proof fn copper_is_exact(b: Board, layer: CopperLayer, x: Ink)
    ensures
        list::how_often(gerber::copper(b, layer).dark, x) == copper_like(b, layer, x),
        list::how_often(gerber::inner_marks(b, layer), x) == copper_like(b, layer, x),
{
    pad_marks_are_counted(b, layer, 0, x);
    lines_are_counted(b, layer, x);
    let a = gerber::over_pads(
        b.footprints@,
        gerber::pad_ink(layer, 0),
        b.footprints@.len() as int,
    );
    let v = gerber::over(b.vias@, gerber::via_ink(b, layer, false, 0), b.vias@.len() as int);
    let t = gerber::over(b.traces@, gerber::trace_ink(b, layer, false, 0), b.traces@.len() as int);
    list::how_often_joined(a + v, t, x);
    list::how_often_joined(a, v, x);
    list::how_often_joined(a + t, v, x);
    list::how_often_joined(a, t, x);
    assert(gerber::copper(b, layer).dark == a + v + t);
}

/// The solder mask of a side is open over every pad with copper there, by
/// 0.05 mm on all sides, and nowhere else.
pub proof fn mask_is_exact(b: Board, side: Side, x: Ink)
    ensures
        list::how_often(gerber::mask_marks(b, side.copper()), x) == pads_like(
            b,
            |i: int, j: int| is_pad_mark(b, side.copper(), i, j, 50_000, x),
        ),
{
    pad_marks_are_counted(b, side.copper(), 50_000, x);
}

/// On a poured layer the file fills the outline, then clears what is to be
/// cleared, then lays the spokes and the copper in dark over it. On another
/// it draws the copper alone.
pub proof fn clearing_comes_before_copper(b: Board, side: Side) -> (r: (Seq<char>, Seq<Aperture>))
    ensures
        ({
            let c = gerber::copper(b, side.copper());
            gerber::copper_text(b, side) == if is_poured(b, side.copper()) {
                r.0 + gerber::region(b.outline) + "%LPC*%\n"@ + gerber::all_drawn(c.voids, r.1)
                    + "%LPD*%\n"@ + gerber::all_drawn(c.spokes, r.1) + gerber::all_drawn(
                    c.dark,
                    r.1,
                ) + "M02*\n"@
            } else {
                r.0 + gerber::all_drawn(c.dark, r.1) + "M02*\n"@
            }
        }),
        r.1.no_duplicates(),
        forall|k: int|
            0 <= k < gerber::copper(b, side.copper()).uses.len() ==> r.1.contains(
                #[trigger] gerber::copper(b, side.copper()).uses[k],
            ),
{
    let c = gerber::copper(b, side.copper());
    let t = gerber::table_of(c.uses, c.uses.len() as int);
    gerber::table_is_exact(c.uses, c.uses.len() as int);
    let head = gerber::header(side.copper_name()) + gerber::definitions(t, t.len() as int);
    let pour = gerber::region(b.outline) + "%LPC*%\n"@ + gerber::all_drawn(c.voids, t)
        + "%LPD*%\n"@ + gerber::all_drawn(c.spokes, t);
    if is_poured(b, side.copper()) {
        assert(head + pour =~= head + gerber::region(b.outline) + "%LPC*%\n"@ + gerber::all_drawn(
            c.voids,
            t,
        ) + "%LPD*%\n"@ + gerber::all_drawn(c.spokes, t));
    } else {
        assert(head + Seq::<char>::empty() =~= head);
    }
    (head, t)
}

} // verus!
