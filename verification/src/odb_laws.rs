//! What the layers of an ODB++ job hold: each pad, trace, via and hole of the
//! board once.

use vstd::prelude::*;

use crate::board::{Board, CopperLayer, Footprint, Pad, Trace};
use crate::copper_laws;
use crate::geometry::Point;
use crate::gerber;
use crate::list;
use crate::odb_features;

verus! {

/// A hole: its place and its diameter.
pub ghost struct Bore {
    pub at: Point,
    pub diameter: int,
}

/// The lines of holes.
pub open spec fn bored(v: Seq<Bore>) -> Seq<char>
    decreases v.len(),
{
    if v.len() == 0 {
        Seq::empty()
    } else {
        bored(v.drop_last()) + odb_features::hole_line(v.last().at, v.last().diameter)
    }
}

proof fn bored_joined(a: Seq<Bore>, b: Seq<Bore>)
    ensures
        bored(a + b) == bored(a) + bored(b),
    decreases b.len(),
{
    if b.len() == 0 {
        assert(a + b =~= a);
        assert(bored(a) + bored(b) =~= bored(a));
    } else {
        assert((a + b).drop_last() =~= a + b.drop_last());
        bored_joined(a, b.drop_last());
        assert(bored(a + b) =~= bored(a) + bored(b));
    }
}

/// The hole of a pad, if it has one.
spec fn bore_of(fp: Footprint, pad: Pad) -> Seq<Bore> {
    match pad.drill {
        Some(d) => seq![Bore { at: fp.center_of(pad), diameter: d.0 as int }],
        None => Seq::empty(),
    }
}

spec fn pad_bores() -> spec_fn(Footprint, Pad) -> Seq<Bore> {
    |fp: Footprint, pad: Pad| bore_of(fp, pad)
}

spec fn via_bores(b: Board) -> Seq<Bore> {
    Seq::new(
        b.vias@.len(),
        |i: int| Bore { at: b.vias@[i].position, diameter: b.vias@[i].drill.0 as int },
    )
}

proof fn via_bores_written(b: Board, n: int)
    requires
        0 <= n <= b.vias@.len(),
    ensures
        bored(via_bores(b).take(n)) == gerber::over(b.vias@, odb_features::via_hole(), n),
    decreases n,
{
    let v = via_bores(b);
    if n > 0 {
        via_bores_written(b, n - 1);
        assert(v.take(n).drop_last() =~= v.take(n - 1));
        assert(v.take(n).last() == v[n - 1]);
    }
}

proof fn footprint_bores_written(fp: Footprint, n: int)
    requires
        0 <= n <= fp.pads@.len(),
    ensures
        bored(gerber::over_fp(fp, pad_bores(), n)) == gerber::over_fp(
            fp,
            odb_features::pad_hole(),
            n,
        ),
    decreases n,
{
    reveal_with_fuel(bored, 2);
    if n > 0 {
        footprint_bores_written(fp, n - 1);
        let x = bore_of(fp, fp.pads@[n - 1]);
        bored_joined(gerber::over_fp(fp, pad_bores(), n - 1), x);
        if x.len() == 1 {
            assert(x.drop_last().len() == 0);
            assert(bored(x) =~= odb_features::hole_line(x[0].at, x[0].diameter));
        }
    }
}

proof fn pad_bores_written(b: Board, n: int)
    requires
        0 <= n <= b.footprints@.len(),
    ensures
        bored(gerber::over_pads(b.footprints@, pad_bores(), n)) == gerber::over_pads(
            b.footprints@,
            odb_features::pad_hole(),
            n,
        ),
    decreases n,
{
    if n > 0 {
        pad_bores_written(b, n - 1);
        let fp = b.footprints@[n - 1];
        let m = fp.pads@.len() as int;
        footprint_bores_written(fp, m);
        bored_joined(
            gerber::over_pads(b.footprints@, pad_bores(), n - 1),
            gerber::over_fp(fp, pad_bores(), m),
        );
    }
}

proof fn via_bores_counted(b: Board, x: Bore, n: int)
    requires
        0 <= n <= b.vias@.len(),
    ensures
        list::how_often(via_bores(b).take(n), x) == list::how_many(
            |i: int| b.vias@[i].position == x.at && b.vias@[i].drill.0 == x.diameter,
            n,
        ),
    decreases n,
{
    let v = via_bores(b);
    let p = |i: int| b.vias@[i].position == x.at && b.vias@[i].drill.0 == x.diameter;
    if n > 0 {
        via_bores_counted(b, x, n - 1);
        assert(v.take(n).drop_last() =~= v.take(n - 1));
        assert(v.take(n).last() == v[n - 1]);
        assert(p(n - 1) == (v[n - 1] == x));
        assert(list::how_many(p, n) == list::how_many(p, n - 1) + if p(n - 1) {
            1nat
        } else {
            0nat
        });
    }
}

/// The pad has a hole of that diameter at that place.
pub open spec fn has_bore(fp: Footprint, pad: Pad, x: Bore) -> bool {
    pad.drill matches Some(d) && d.0 == x.diameter && fp.center_of(pad) == x.at
}

/// The drill layer holds the hole of each via and of each drilled pad, each
/// as often as the board has it, and no other.
pub proof fn every_hole_is_listed_once(b: Board) -> (v: Seq<Bore>)
    ensures
        odb_features::drill_features(b) == bored(v),
        forall|x: Bore| #[trigger]
            list::how_often(v, x) == list::how_many(
                |i: int| b.vias@[i].position == x.at && b.vias@[i].drill.0 == x.diameter,
                b.vias@.len() as int,
            ) + copper_laws::pads_like(
                b,
                |i: int, j: int| has_bore(b.footprints@[i], b.footprints@[i].pads@[j], x),
            ),
{
    let (nv, nf) = (b.vias@.len() as int, b.footprints@.len() as int);
    let a = via_bores(b);
    let c = gerber::over_pads(b.footprints@, pad_bores(), nf);
    via_bores_written(b, nv);
    assert(a.take(nv) =~= a);
    pad_bores_written(b, nf);
    bored_joined(a, c);
    assert forall|x: Bore| #[trigger] list::how_often(a + c, x) == list::how_many(
        |i: int| b.vias@[i].position == x.at && b.vias@[i].drill.0 == x.diameter,
        b.vias@.len() as int,
    ) + copper_laws::pads_like(
        b,
        |i: int, j: int| has_bore(b.footprints@[i], b.footprints@[i].pads@[j], x),
    ) by {
        let p = |i: int, j: int| has_bore(b.footprints@[i], b.footprints@[i].pads@[j], x);
        via_bores_counted(b, x, nv);
        list::how_often_joined(a, c, x);
        assert forall|i: int, j: int|
            0 <= i < nf && 0 <= j < b.footprints@[i].pads@.len() implies list::how_often(
            pad_bores()(b.footprints@[i], #[trigger] b.footprints@[i].pads@[j]),
            x,
        ) == (if p(i, j) {
            1nat
        } else {
            0nat
        }) by {
            let fp = b.footprints@[i];
            let pad = fp.pads@[j];
            if let Some(d) = pad.drill {
                copper_laws::once(Bore { at: fp.center_of(pad), diameter: d.0 as int }, x);
            } else {
                copper_laws::once(x, x);
            }
        }
        copper_laws::over_pads_is_counted(b.footprints@, pad_bores(), p, nf, x);
    }
    a + c
}

/// The copper of a layer lists each pad that has copper there, as often as
/// the board has it, and no other.
pub proof fn pads_of_a_layer_are_listed_once(b: Board, layer: CopperLayer, x: (Footprint, Pad))
    ensures
        list::how_often(
            gerber::over_pads(
                b.footprints@,
                odb_features::on_layer(layer),
                b.footprints@.len() as int,
            ),
            x,
        ) == copper_laws::pads_like(
            b,
            |i: int, j: int|
                copper_laws::pad_is_on(b.footprints@[i].pads@[j], layer) && x == (
                    b.footprints@[i],
                    b.footprints@[i].pads@[j],
                ),
        ),
{
    let f = odb_features::on_layer(layer);
    let n = b.footprints@.len() as int;
    let p = |i: int, j: int|
        copper_laws::pad_is_on(b.footprints@[i].pads@[j], layer) && x == (
            b.footprints@[i],
            b.footprints@[i].pads@[j],
        );
    assert forall|i: int, j: int|
        0 <= i < n && 0 <= j < b.footprints@[i].pads@.len() implies list::how_often(
        f(b.footprints@[i], #[trigger] b.footprints@[i].pads@[j]),
        x,
    ) == (if p(i, j) {
        1nat
    } else {
        0nat
    }) by {
        copper_laws::once((b.footprints@[i], b.footprints@[i].pads@[j]), x);
    }
    copper_laws::over_pads_is_counted(b.footprints@, f, p, n, x);
}

/// The traces on the layer, in order.
pub open spec fn on_layer(ts: Seq<Trace>, layer: CopperLayer, n: int) -> Seq<Trace>
    decreases n,
{
    if n <= 0 {
        Seq::empty()
    } else if ts[n - 1].layer == layer {
        on_layer(ts, layer, n - 1).push(ts[n - 1])
    } else {
        on_layer(ts, layer, n - 1)
    }
}

/// The lines of traces, each with its number.
pub open spec fn traced(ts: Seq<Trace>, ids: Seq<nat>) -> Seq<char>
    decreases ts.len(),
{
    if ts.len() == 0 {
        Seq::empty()
    } else {
        traced(ts.drop_last(), ids.drop_last()) + odb_features::trace_line(ts.last(), ids.last())
    }
}

proof fn trace_lines_written(
    nets: Seq<Seq<char>>,
    ts: Seq<Trace>,
    layer: CopperLayer,
    n: int,
) -> (ids: Seq<nat>)
    requires
        0 <= n <= ts.len(),
    ensures
        ids.len() == on_layer(ts, layer, n).len(),
        odb_features::trace_lines(nets, ts, layer, n) == traced(on_layer(ts, layer, n), ids),
    decreases n,
{
    if n <= 0 {
        Seq::empty()
    } else {
        let ids = trace_lines_written(nets, ts, layer, n - 1);
        let before = on_layer(ts, layer, n - 1);
        if ts[n - 1].layer == layer {
            let k = odb_features::place_of(
                odb_features::trace_nets(nets, ts, layer, n),
                ts[n - 1].net@,
                0,
            ) as nat;
            let all = before.push(ts[n - 1]);
            assert(all.drop_last() =~= before);
            assert(ids.push(k).drop_last() =~= ids);
            ids.push(k)
        } else {
            ids
        }
    }
}

proof fn traces_counted(ts: Seq<Trace>, layer: CopperLayer, n: int, x: Trace)
    requires
        0 <= n <= ts.len(),
    ensures
        list::how_often(on_layer(ts, layer, n), x) == list::how_many(
            |i: int| ts[i].layer == layer && ts[i] == x,
            n,
        ),
    decreases n,
{
    let p = |i: int| ts[i].layer == layer && ts[i] == x;
    if n > 0 {
        traces_counted(ts, layer, n - 1, x);
        let before = on_layer(ts, layer, n - 1);
        assert(before.push(ts[n - 1]).drop_last() =~= before);
        assert(p(n - 1) == (ts[n - 1].layer == layer && ts[n - 1] == x));
        assert(list::how_many(p, n) == list::how_many(p, n - 1) + if p(n - 1) {
            1nat
        } else {
            0nat
        });
    }
}

/// The copper of a layer has a line for each trace of the layer, as often as
/// the board has it, and for no other.
pub proof fn traces_of_a_layer_are_listed_once(b: Board, layer: CopperLayer, x: Trace) -> (r: (
    Seq<Trace>,
    Seq<nat>,
))
    ensures
        odb_features::trace_lines(
            odb_features::pad_nets(b),
            b.traces@,
            layer,
            b.traces@.len() as int,
        ) == traced(r.0, r.1),
        list::how_often(r.0, x) == list::how_many(
            |i: int| b.traces@[i].layer == layer && b.traces@[i] == x,
            b.traces@.len() as int,
        ),
{
    let n = b.traces@.len() as int;
    let ids = trace_lines_written(odb_features::pad_nets(b), b.traces@, layer, n);
    traces_counted(b.traces@, layer, n, x);
    (on_layer(b.traces@, layer, n), ids)
}

} // verus!
