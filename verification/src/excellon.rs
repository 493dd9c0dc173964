//! Excellon drill files.
//!
//! One tool per drill size, smallest first; then the holes of each tool:
//! the vias that are not dangling, and behind them the drilled pads.

use vstd::prelude::*;

use crate::board::{Board, Footprint, Id, Pad, Via};
use crate::geometry::Point;
use crate::gerber;
use crate::routing::has_id;
use crate::text;
use crate::text::{fixed_text, uint_text};
use crate::units::Length;

verus! {

/// A hole: its diameter and its position.
#[derive(Debug, Clone, Copy, PartialEq, Eq, Structural)]
pub struct Hole {
    pub drill: Length,
    pub at: Point,
}

pub open spec fn via_hole(b: Board) -> spec_fn(Via) -> Seq<Hole> {
    |v: Via|
        if b.orphan_via(v.id) {
            Seq::empty()
        } else {
            seq![Hole { drill: v.drill, at: v.position }]
        }
}

pub open spec fn pad_hole() -> spec_fn(Footprint, Pad) -> Seq<Hole> {
    |fp: Footprint, pad: Pad|
        match pad.drill {
            Some(d) => seq![Hole { drill: d, at: fp.center_of(pad) }],
            None => Seq::empty(),
        }
}

/// The plated holes of a board.
pub open spec fn holes(b: Board) -> Seq<Hole> {
    gerber::over(b.vias@, via_hole(b), b.vias@.len() as int) + gerber::over_pads(
        b.footprints@,
        pad_hole(),
        b.footprints@.len() as int,
    )
}

/// The list with `x` in its place, unless it is there.
pub open spec fn with_size(s: Seq<int>, x: int) -> Seq<int>
    decreases s.len(),
{
    if s.len() == 0 {
        seq![x]
    } else if s[0] == x {
        s
    } else if x < s[0] {
        seq![x] + s
    } else {
        seq![s[0]] + with_size(s.skip(1), x)
    }
}

/// The drill sizes of the first `n` holes, smallest first.
pub open spec fn sizes(hs: Seq<Hole>, n: int) -> Seq<int>
    decreases n,
{
    if n <= 0 {
        Seq::empty()
    } else {
        with_size(sizes(hs, n - 1), hs[n - 1].drill.0 as int)
    }
}

pub open spec fn increasing(s: Seq<int>) -> bool {
    forall|i: int, j: int| 0 <= i < j < s.len() ==> #[trigger] s[i] < #[trigger] s[j]
}

proof fn with_size_sorted(s: Seq<int>, x: int)
    requires
        increasing(s),
    ensures
        increasing(with_size(s, x)),
        with_size(s, x).contains(x),
        forall|y: int| s.contains(y) ==> #[trigger] with_size(s, x).contains(y),
        forall|y: int| #[trigger] with_size(s, x).contains(y) ==> s.contains(y) || y == x,
    decreases s.len(),
{
    let w = with_size(s, x);
    if s.len() == 0 {
        assert(w[0] == x);
    } else if s[0] == x {
    } else if x < s[0] {
        assert(w[0] == x);
        assert forall|y: int| s.contains(y) implies #[trigger] w.contains(y) by {
            let i = choose|i: int| 0 <= i < s.len() && s[i] == y;
            assert(w[i + 1] == y);
        }
        assert forall|i: int, j: int| 0 <= i < j < w.len() implies #[trigger] w[i] < #[trigger] w[j] by {
            if i == 0 {
                assert(w[j] == s[j - 1]);
                if j > 1 {
                    assert(s[0] < s[j - 1]);
                }
            } else {
                assert(s[i - 1] < s[j - 1]);
            }
        }
    } else {
        let t = s.skip(1);
        assert forall|i: int, j: int| 0 <= i < j < t.len() implies #[trigger] t[i] < #[trigger] t[j] by {
            assert(s[i + 1] < s[j + 1]);
        }
        with_size_sorted(t, x);
        let q = with_size(t, x);
        assert forall|i: int, j: int| 0 <= i < j < w.len() implies #[trigger] w[i] < #[trigger] w[j] by {
            assert(w[j] == q[j - 1]);
            assert(q.contains(q[j - 1]));
            if i == 0 {
                if q[j - 1] != x {
                    let k = choose|k: int| 0 <= k < t.len() && t[k] == q[j - 1];
                    assert(s[0] < s[k + 1]);
                }
            } else {
                assert(q[i - 1] < q[j - 1]);
            }
        }
        assert(q.contains(x));
        let jx = choose|j: int| 0 <= j < q.len() && q[j] == x;
        assert(w[jx + 1] == x);
        assert forall|y: int| s.contains(y) implies #[trigger] w.contains(y) by {
            let i = choose|i: int| 0 <= i < s.len() && s[i] == y;
            if i == 0 {
                assert(w[0] == y);
            } else {
                assert(t[i - 1] == y);
                assert(q.contains(y));
                let j = choose|j: int| 0 <= j < q.len() && q[j] == y;
                assert(w[j + 1] == y);
            }
        }
        assert forall|y: int| #[trigger] w.contains(y) implies s.contains(y) || y == x by {
            let i = choose|i: int| 0 <= i < w.len() && w[i] == y;
            if i == 0 {
                assert(s[0] == y);
            } else {
                assert(q[i - 1] == y);
                assert(q.contains(y));
                if t.contains(y) {
                    let j = choose|j: int| 0 <= j < t.len() && t[j] == y;
                    assert(s[j + 1] == y);
                }
            }
        }
    }
}

/// The tools are in strictly increasing size, and every hole has one.
pub proof fn tools_are_sorted_and_complete(hs: Seq<Hole>, n: int)
    requires
        0 <= n <= hs.len(),
    ensures
        increasing(sizes(hs, n)),
        forall|i: int| 0 <= i < n ==> sizes(hs, n).contains((#[trigger] hs[i]).drill.0 as int),
    decreases n,
{
    if n > 0 {
        tools_are_sorted_and_complete(hs, n - 1);
        with_size_sorted(sizes(hs, n - 1), hs[n - 1].drill.0 as int);
    }
}

/// The definitions of the first `n` tools.
pub open spec fn tool_lines(ss: Seq<int>, n: int) -> Seq<char>
    decreases n,
{
    if n <= 0 {
        Seq::empty()
    } else {
        tool_lines(ss, n - 1) + ("T"@ + text::dec(n as nat) + "C"@ + text::fixed(ss[n - 1], 3)
            + "\n"@)
    }
}

pub open spec fn hole_line(h: Hole) -> Seq<char> {
    "X"@ + text::fixed(h.at.x.0 as int, 3) + "Y"@ + text::fixed(h.at.y.0 as int, 3) + "\n"@
}

/// The lines of the holes of size `d` among the first `n`.
pub open spec fn hits(hs: Seq<Hole>, d: int, n: int) -> Seq<char>
    decreases n,
{
    if n <= 0 {
        Seq::empty()
    } else if hs[n - 1].drill.0 == d {
        hits(hs, d, n - 1) + hole_line(hs[n - 1])
    } else {
        hits(hs, d, n - 1)
    }
}

/// The first `n` tools with their holes.
pub open spec fn tool_hits(hs: Seq<Hole>, ss: Seq<int>, n: int) -> Seq<char>
    decreases n,
{
    if n <= 0 {
        Seq::empty()
    } else {
        tool_hits(hs, ss, n - 1) + ("T"@ + text::dec(n as nat) + "\n"@ + hits(
            hs,
            ss[n - 1],
            hs.len() as int,
        ))
    }
}

/// A drill file.
pub open spec fn drill_text(b: Board, plated: bool) -> Seq<char> {
    if plated {
        let hs = holes(b);
        let ss = sizes(hs, hs.len() as int);
        "M48\n; pcb PTH drills\nFMAT,2\nMETRIC,LZ,000.000\n"@ + tool_lines(ss, ss.len() as int)
            + "%\nG90\n"@ + tool_hits(hs, ss, ss.len() as int) + "M30\n"@
    } else {
        "M48\n; pcb NPTH drills\nFMAT,2\nMETRIC,LZ,000.000\n%\nM30\n"@
    }
}

fn list_holes(b: &Board) -> (r: Vec<Hole>)
    requires
        b.in_range(),
    ensures
        r@ == holes(*b),
{
    let orphans = b.orphan_via_ids();
    let ghost f = via_hole(*b);
    let ghost g = pad_hole();
    let mut out: Vec<Hole> = Vec::new();
    let mut i: usize = 0;
    while i < b.vias.len()
        invariant
            i <= b.vias@.len(),
            f == via_hole(*b),
            forall|id: Id| #[trigger] orphans@.contains(id) <==> b.orphan_via(id),
            out@ == gerber::over(b.vias@, f, i as int),
        decreases b.vias@.len() - i,
    {
        let v = &b.vias[i];
        let ghost before = out@;
        if !has_id(&orphans, v.id) {
            out.push(Hole { drill: v.drill, at: v.position });
        }
        assert(out@ =~= before + f(*v));
        i += 1;
    }
    let ghost vias = out@;
    assert(out@ =~= vias + gerber::over_pads(b.footprints@, g, 0));
    let mut i: usize = 0;
    while i < b.footprints.len()
        invariant
            i <= b.footprints@.len(),
            b.in_range(),
            g == pad_hole(),
            out@ == vias + gerber::over_pads(b.footprints@, g, i as int),
        decreases b.footprints@.len() - i,
    {
        let fp = &b.footprints[i];
        let mut j: usize = 0;
        assert(out@ =~= vias + (gerber::over_pads(b.footprints@, g, i as int) + gerber::over_fp(
            *fp,
            g,
            0,
        )));
        while j < fp.pads.len()
            invariant
                j <= fp.pads@.len(),
                fp.in_range(),
                g == pad_hole(),
                out@ == vias + (gerber::over_pads(b.footprints@, g, i as int) + gerber::over_fp(
                    *fp,
                    g,
                    j as int,
                )),
            decreases fp.pads@.len() - j,
        {
            let pad = &fp.pads[j];
            let ghost before = out@;
            if let Some(d) = pad.drill {
                out.push(Hole { drill: d, at: fp.pad_world_center(pad) });
            }
            assert(out@ =~= before + g(*fp, *pad));
            assert(out@ =~= vias + (gerber::over_pads(b.footprints@, g, i as int)
                + gerber::over_fp(*fp, g, j + 1)));
            j += 1;
        }
        i += 1;
    }
    out
}

pub open spec fn as_ints(v: Seq<i64>) -> Seq<int> {
    Seq::new(v.len(), |i: int| v[i] as int)
}

proof fn with_size_at(s: Seq<int>, x: int, i: int)
    requires
        0 <= i <= s.len(),
        forall|j: int| 0 <= j < i ==> #[trigger] s[j] < x,
        i < s.len() ==> x <= s[i],
    ensures
        i < s.len() && s[i] == x ==> with_size(s, x) == s,
        i == s.len() || s[i] != x ==> with_size(s, x) == s.take(i) + seq![x] + s.skip(i),
    decreases s.len(),
{
    if s.len() == 0 || i == 0 {
        assert(seq![x] + s =~= s.take(0) + seq![x] + s.skip(0));
        if s.len() == 0 {
            assert(with_size(s, x) =~= s.take(i) + seq![x] + s.skip(i));
        }
    } else {
        let t = s.skip(1);
        assert forall|j: int| 0 <= j < i - 1 implies #[trigger] t[j] < x by {
            assert(t[j] == s[j + 1]);
        }
        with_size_at(t, x, i - 1);
        if i < s.len() && s[i] == x {
            assert(seq![s[0]] + t =~= s);
        } else {
            assert(seq![s[0]] + (t.take(i - 1) + seq![x] + t.skip(i - 1)) =~= s.take(i) + seq![x]
                + s.skip(i));
        }
    }
}

fn list_sizes(hs: &Vec<Hole>) -> (r: Vec<i64>)
    ensures
        as_ints(r@) == sizes(hs@, hs@.len() as int),
{
    let mut out: Vec<i64> = Vec::new();
    assert(as_ints(out@) =~= Seq::empty());
    let mut i: usize = 0;
    while i < hs.len()
        invariant
            i <= hs@.len(),
            as_ints(out@) == sizes(hs@, i as int),
        decreases hs@.len() - i,
    {
        let x: i64 = hs[i].drill.0;
        let ghost s = as_ints(out@);
        let mut k: usize = 0;
        while k < out.len() && out[k] < x
            invariant
                k <= out@.len(),
                s == as_ints(out@),
                forall|j: int| 0 <= j < k ==> #[trigger] s[j] < x,
            decreases out@.len() - k,
        {
            k += 1;
        }
        proof {
            if k < out@.len() {
                assert(s[k as int] == out@[k as int]);
            }
            with_size_at(s, x as int, k as int);
        }
        if k == out.len() || out[k] != x {
            out.insert(k, x);
            assert(as_ints(out@) =~= s.take(k as int) + seq![x as int] + s.skip(k as int));
        }
        i += 1;
    }
    out
}

/// Writes the plated or the non-plated drill file. There are no
/// non-plated holes.
pub fn write(b: &Board, plated: bool) -> (r: String)
    requires
        b.in_range(),
    ensures
        r@ == drill_text(*b, plated),
{
    if !plated {
        return "M48\n; pcb NPTH drills\nFMAT,2\nMETRIC,LZ,000.000\n%\nM30\n".to_owned();
    }
    let hs = list_holes(b);
    let ss = list_sizes(&hs);
    let ghost si = as_ints(ss@);
    let mut tools = String::new();
    let mut body = String::new();
    let mut i: usize = 0;
    while i < ss.len()
        invariant
            i <= ss@.len(),
            si == as_ints(ss@),
            tools@ == tool_lines(si, i as int),
            body@ == tool_hits(hs@, si, i as int),
        decreases ss@.len() - i,
    {
        let number = uint_text(i as u128 + 1);
        let line = "T".to_owned().concat(number.as_str()).concat("C").concat(
            fixed_text(ss[i], 3).as_str(),
        ).concat("\n");
        tools.append(line.as_str());
        let mut lines = String::new();
        let mut k: usize = 0;
        while k < hs.len()
            invariant
                k <= hs@.len(),
                i < ss@.len(),
                lines@ == hits(hs@, ss@[i as int] as int, k as int),
            decreases hs@.len() - k,
        {
            let h = hs[k];
            if h.drill.0 == ss[i] {
                let line = "X".to_owned().concat(fixed_text(h.at.x.0, 3).as_str()).concat(
                    "Y",
                ).concat(fixed_text(h.at.y.0, 3).as_str()).concat("\n");
                lines.append(line.as_str());
            }
            k += 1;
        }
        let piece = "T".to_owned().concat(number.as_str()).concat("\n").concat(lines.as_str());
        body.append(piece.as_str());
        i += 1;
    }
    "M48\n; pcb PTH drills\nFMAT,2\nMETRIC,LZ,000.000\n".to_owned().concat(
        tools.as_str(),
    ).concat("%\nG90\n").concat(body.as_str()).concat("M30\n")
}

} // verus!
