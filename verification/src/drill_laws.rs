//! What a drill file holds: every hole of the board once, under the tool of
//! its size.

use vstd::prelude::*;

use crate::board::{Board, Footprint};
use crate::excellon;
use crate::excellon::Hole;
use crate::gerber;
use crate::list;
use crate::text;

verus! {

/// The lines of the holes in a list.
pub open spec fn lines_of(g: Seq<Hole>) -> Seq<char>
    decreases g.len(),
{
    if g.len() == 0 {
        Seq::empty()
    } else {
        lines_of(g.drop_last()) + ("X"@ + text::fixed(g.last().at.x.0 as int, 3) + "Y"@
            + text::fixed(g.last().at.y.0 as int, 3) + "\n"@)
    }
}

/// The definitions of the tools with those diameters, from the first.
pub open spec fn defined(diameters: Seq<int>) -> Seq<char>
    decreases diameters.len(),
{
    if diameters.len() == 0 {
        Seq::empty()
    } else {
        defined(diameters.drop_last()) + ("T"@ + text::dec(diameters.len()) + "C"@ + text::fixed(
            diameters.last(),
            3,
        ) + "\n"@)
    }
}

/// The tools in turn, each with the holes that it punches.
pub open spec fn punched(groups: Seq<Seq<Hole>>) -> Seq<char>
    decreases groups.len(),
{
    if groups.len() == 0 {
        Seq::empty()
    } else {
        punched(groups.drop_last()) + ("T"@ + text::dec(groups.len()) + "\n"@ + lines_of(
            groups.last(),
        ))
    }
}

/// How often a hole is punched by all tools together.
pub open spec fn punches(groups: Seq<Seq<Hole>>, h: Hole) -> nat {
    list::total(|i: int| list::how_often(groups[i], h), groups.len() as int)
}

/// Via `i` is live and is that hole.
pub open spec fn via_is(b: Board, i: int, h: Hole) -> bool {
    &&& !b.orphan_via(b.vias@[i].id)
    &&& b.vias@[i].drill == h.drill
    &&& b.vias@[i].position == h.at
}

/// Pad `j` of the footprint is drilled and is that hole.
pub open spec fn pad_is(fp: Footprint, j: int, h: Hole) -> bool {
    fp.pads@[j].drill == Some(h.drill) && fp.center_of(fp.pads@[j]) == h.at
}

/// How many live vias and drilled pads of the board are that hole.
pub open spec fn holes_like(b: Board, h: Hole) -> nat {
    list::how_many(|i: int| via_is(b, i, h), b.vias@.len() as int) + list::total(
        |i: int|
            list::how_many(
                |j: int| pad_is(b.footprints@[i], j, h),
                b.footprints@[i].pads@.len() as int,
            ),
        b.footprints@.len() as int,
    )
}

spec fn picked(hs: Seq<Hole>, d: int, n: int) -> Seq<Hole>
    decreases n,
{
    if n <= 0 {
        Seq::empty()
    } else if hs[n - 1].drill.0 == d {
        picked(hs, d, n - 1).push(hs[n - 1])
    } else {
        picked(hs, d, n - 1)
    }
}

proof fn picked_is_of_its_size(hs: Seq<Hole>, d: int, n: int)
    requires
        n <= hs.len(),
    ensures
        lines_of(picked(hs, d, n)) == excellon::hits(hs, d, n),
        forall|k: int|
            0 <= k < picked(hs, d, n).len() ==> (#[trigger] picked(hs, d, n)[k]).drill.0 == d,
    decreases n,
{
    if n > 0 {
        picked_is_of_its_size(hs, d, n - 1);
        let g = picked(hs, d, n);
        if hs[n - 1].drill.0 == d {
            assert(g.drop_last() =~= picked(hs, d, n - 1));
            assert(g.last() == hs[n - 1]);
        }
    }
}

proof fn picked_is_complete(hs: Seq<Hole>, d: int, n: int, h: Hole)
    requires
        0 <= n <= hs.len(),
    ensures
        list::how_often(picked(hs, d, n), h) == (if h.drill.0 == d {
            list::how_often(hs.take(n), h)
        } else {
            0
        }),
    decreases n,
{
    if n > 0 {
        picked_is_complete(hs, d, n - 1, h);
        assert(hs.take(n).drop_last() =~= hs.take(n - 1));
        assert(hs.take(n).last() == hs[n - 1]);
        let g = picked(hs, d, n);
        if hs[n - 1].drill.0 == d {
            assert(g.drop_last() =~= picked(hs, d, n - 1));
            assert(g.last() == hs[n - 1]);
        }
    }
}

proof fn total_of_one(g: spec_fn(int) -> nat, n: int, at: int)
    requires
        forall|i: int| 0 <= i < n && i != at ==> #[trigger] g(i) == 0,
    ensures
        list::total(g, n) == (if 0 <= at < n {
            g(at)
        } else {
            0
        }),
    decreases n,
{
    if n > 0 {
        total_of_one(g, n - 1, at);
        assert(n - 1 != at ==> g(n - 1) == 0);
    }
}

proof fn absent_is_never<T>(s: Seq<T>, x: T)
    requires
        !s.contains(x),
    ensures
        list::how_often(s, x) == 0,
    decreases s.len(),
{
    if s.len() > 0 {
        assert(s.contains(s[s.len() - 1]));
        assert forall|k: int| 0 <= k < s.drop_last().len() implies s.drop_last()[k] != x by {
            assert(s.contains(s[k]));
        }
        absent_is_never(s.drop_last(), x);
    }
}

/// The groups of holes, by tool.
spec fn grouped(hs: Seq<Hole>, ss: Seq<int>) -> Seq<Seq<Hole>> {
    Seq::new(ss.len(), |i: int| picked(hs, ss[i], hs.len() as int))
}

proof fn groups_are_written(hs: Seq<Hole>, ss: Seq<int>, n: int)
    requires
        0 <= n <= ss.len(),
    ensures
        defined(ss.take(n)) == excellon::tool_lines(ss, n),
        punched(grouped(hs, ss).take(n)) == excellon::tool_hits(hs, ss, n),
    decreases n,
{
    if n > 0 {
        groups_are_written(hs, ss, n - 1);
        let (s, g) = (ss.take(n), grouped(hs, ss).take(n));
        assert(s.drop_last() =~= ss.take(n - 1));
        assert(s.last() == ss[n - 1]);
        assert(g.drop_last() =~= grouped(hs, ss).take(n - 1));
        assert(g.last() == picked(hs, ss[n - 1], hs.len() as int));
        picked_is_of_its_size(hs, ss[n - 1], hs.len() as int);
    }
}

proof fn groups_are_complete(hs: Seq<Hole>, h: Hole)
    ensures
        punches(grouped(hs, excellon::sizes(hs, hs.len() as int)), h) == list::how_often(hs, h),
{
    let n = hs.len() as int;
    let ss = excellon::sizes(hs, n);
    let groups = grouped(hs, ss);
    let g = |i: int| list::how_often(groups[i], h);
    let d = h.drill.0 as int;
    excellon::tools_are_sorted_and_complete(hs, n);
    assert(hs.take(n) =~= hs);
    if !hs.contains(h) {
        absent_is_never(hs, h);
    }
    let at = if ss.contains(d) {
        choose|i: int| 0 <= i < ss.len() && ss[i] == d
    } else {
        -1
    };
    assert forall|i: int| 0 <= i < ss.len() && i != at implies #[trigger] g(i) == 0 by {
        picked_is_complete(hs, ss[i], n, h);
        if ss[i] == d {
            assert(ss.contains(d));
            assert(ss[at] == ss[i]);
        }
    }
    total_of_one(g, ss.len() as int, at);
    if ss.contains(d) {
        picked_is_complete(hs, ss[at], n, h);
        assert(g(at) == list::how_often(hs, h));
    } else {
        assert(!hs.contains(h)) by {
            if hs.contains(h) {
                let k = choose|k: int| 0 <= k < n && hs[k] == h;
                assert(ss.contains(hs[k].drill.0 as int));
            }
        }
    }
}

proof fn via_holes_are_counted(b: Board, h: Hole, n: int)
    requires
        0 <= n <= b.vias@.len(),
    ensures
        list::how_often(gerber::over(b.vias@, excellon::via_hole(b), n), h) == list::how_many(
            |i: int| via_is(b, i, h),
            n,
        ),
    decreases n,
{
    reveal_with_fuel(list::how_often, 3);
    let p = |i: int| via_is(b, i, h);
    if n > 0 {
        via_holes_are_counted(b, h, n - 1);
        let f = excellon::via_hole(b);
        list::how_often_joined(gerber::over(b.vias@, f, n - 1), f(b.vias@[n - 1]), h);
        assert(p(n - 1) == via_is(b, n - 1, h));
        assert(list::how_many(p, n) == list::how_many(p, n - 1) + if p(n - 1) {
            1nat
        } else {
            0nat
        });
    }
}

proof fn footprint_holes_are_counted(fp: Footprint, h: Hole, n: int)
    requires
        0 <= n <= fp.pads@.len(),
    ensures
        list::how_often(gerber::over_fp(fp, excellon::pad_hole(), n), h) == list::how_many(
            |j: int| pad_is(fp, j, h),
            n,
        ),
    decreases n,
{
    reveal_with_fuel(list::how_often, 3);
    let p = |j: int| pad_is(fp, j, h);
    if n > 0 {
        footprint_holes_are_counted(fp, h, n - 1);
        let f = excellon::pad_hole();
        list::how_often_joined(gerber::over_fp(fp, f, n - 1), f(fp, fp.pads@[n - 1]), h);
        assert(p(n - 1) == pad_is(fp, n - 1, h));
        assert(list::how_many(p, n) == list::how_many(p, n - 1) + if p(n - 1) {
            1nat
        } else {
            0nat
        });
    }
}

proof fn pad_holes_are_counted(b: Board, h: Hole, n: int)
    requires
        0 <= n <= b.footprints@.len(),
    ensures
        list::how_often(gerber::over_pads(b.footprints@, excellon::pad_hole(), n), h)
            == list::total(
            |i: int|
                list::how_many(
                    |j: int| pad_is(b.footprints@[i], j, h),
                    b.footprints@[i].pads@.len() as int,
                ),
            n,
        ),
    decreases n,
{
    let g = |i: int|
        list::how_many(
            |j: int| pad_is(b.footprints@[i], j, h),
            b.footprints@[i].pads@.len() as int,
        );
    if n > 0 {
        pad_holes_are_counted(b, h, n - 1);
        let f = excellon::pad_hole();
        let fp = b.footprints@[n - 1];
        footprint_holes_are_counted(fp, h, fp.pads@.len() as int);
        list::how_often_joined(
            gerber::over_pads(b.footprints@, f, n - 1),
            gerber::over_fp(fp, f, fp.pads@.len() as int),
            h,
        );
        assert(g(n - 1) == list::how_many(|j: int| pad_is(fp, j, h), fp.pads@.len() as int));
        assert(list::total(g, n) == list::total(g, n - 1) + g(n - 1));
    }
}

/// The plated drill file defines tools of increasing diameter, and each tool
/// punches holes of its own diameter alone. All tools together punch each
/// hole as often as the board has it, as a live via or as a drilled pad: no
/// hole is left out and none is punched again.
pub proof fn every_hole_is_punched_once(b: Board) -> (r: (Seq<int>, Seq<Seq<Hole>>))
    ensures
        excellon::drill_text(b, true)
            == "M48\n; pcb PTH drills\nFMAT,2\nMETRIC,LZ,000.000\n"@ + defined(r.0)
            + "%\nG90\n"@ + punched(r.1) + "M30\n"@,
        r.0.len() == r.1.len(),
        forall|i: int, j: int| 0 <= i < j < r.0.len() ==> #[trigger] r.0[i] < #[trigger] r.0[j],
        forall|i: int, k: int|
            0 <= i < r.1.len() && 0 <= k < r.1[i].len() ==> (#[trigger] r.1[i][k]).drill.0
                == r.0[i],
        forall|h: Hole| #[trigger] punches(r.1, h) == holes_like(b, h),
{
    let hs = excellon::holes(b);
    let n = hs.len() as int;
    let ss = excellon::sizes(hs, n);
    let groups = grouped(hs, ss);
    groups_are_written(hs, ss, ss.len() as int);
    assert(ss.take(ss.len() as int) =~= ss);
    assert(groups.take(ss.len() as int) =~= groups);
    excellon::tools_are_sorted_and_complete(hs, n);
    assert forall|i: int, k: int| 0 <= i < groups.len() && 0 <= k < groups[i].len() implies (
    #[trigger] groups[i][k]).drill.0 == ss[i] by {
        picked_is_of_its_size(hs, ss[i], n);
    }
    assert forall|h: Hole| #[trigger] punches(groups, h) == holes_like(b, h) by {
        groups_are_complete(hs, h);
        via_holes_are_counted(b, h, b.vias@.len() as int);
        pad_holes_are_counted(b, h, b.footprints@.len() as int);
        list::how_often_joined(
            gerber::over(b.vias@, excellon::via_hole(b), b.vias@.len() as int),
            gerber::over_pads(b.footprints@, excellon::pad_hole(), b.footprints@.len() as int),
            h,
        );
    }
    (ss, groups)
}

} // verus!
