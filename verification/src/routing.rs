//! Dangling routing, and removing a footprint together with its routing.

use vstd::prelude::*;

use crate::board;
use crate::board::{Board, CopperLayer, Footprint, Id, SNAP_TWICE, Trace, Via, footprint_catches, has_net, is_near_point};
use crate::geometry::Point;
use crate::list;
use crate::list::keep_marked;
use crate::rotation::COORD_MAX;
use crate::text;
use crate::text::{insert_sorted, str_eq};

verus! {

/// Twice the reach of a trace end: the trace's width plus the snap
/// tolerance.
pub open spec fn trace_reach2(t: Trace) -> int {
    t.width.0 + SNAP_TWICE
}

/// Twice the reach of a via: its diameter plus the snap tolerance.
pub open spec fn via_reach2(v: Via) -> int {
    v.diameter.0 + SNAP_TWICE
}

/// A via of the trace's net reaches `p`.
pub open spec fn via_catches(v: Via, t: Trace, p: Point) -> bool {
    &&& v.net@ == t.net@
    &&& board::near_point(p, v.position, v.diameter.0 + trace_reach2(t))
}

/// An end of another trace of the same net and layer reaches `p`.
pub open spec fn trace_catches(o: Trace, t: Trace, p: Point) -> bool {
    &&& o.id != t.id
    &&& o.net@ == t.net@
    &&& o.layer == t.layer
    &&& board::near_point(p, o.start, trace_reach2(t)) || board::near_point(
        p,
        o.end,
        trace_reach2(t),
    )
}

impl Board {
    /// Some pad of `net`, on the given layer if one is given, reaches `p`
    /// within half of `tol2`.
    pub open spec fn pad_at(
        self,
        layer: Option<CopperLayer>,
        net: Seq<char>,
        p: Point,
        tol2: int,
    ) -> bool {
        exists|i: int|
            0 <= i < self.footprints@.len() && #[trigger] board::fp_catches(
                self.footprints@[i],
                layer,
                net,
                p,
                tol2,
            )
    }

    /// The end `p` of trace `t` lands on a pad, a via or the end of
    /// another trace of its net.
    pub open spec fn anchored(self, t: Trace, p: Point) -> bool {
        ||| self.pad_at(Some(t.layer), t.net@, p, trace_reach2(t))
        ||| exists|k: int| 0 <= k < self.vias@.len() && #[trigger] via_catches(self.vias@[k], t, p)
        ||| exists|k: int|
            0 <= k < self.traces@.len() && #[trigger] trace_catches(self.traces@[k], t, p)
    }

    /// Neither end of the trace lands on anything of its net.
    pub open spec fn dangling_trace(self, t: Trace) -> bool {
        !self.anchored(t, t.start) && !self.anchored(t, t.end)
    }

    /// Some dangling trace has the id `id`.
    pub open spec fn orphan_trace(self, id: Id) -> bool {
        exists|k: int|
            0 <= k < self.traces@.len() && (#[trigger] self.traces@[k]).id == id
                && self.dangling_trace(self.traces@[k])
    }

    /// The trace is not an orphan, belongs to the via's net and has an end
    /// on the via.
    pub open spec fn feeds(self, t: Trace, v: Via) -> bool {
        &&& !self.orphan_trace(t.id)
        &&& t.net@ == v.net@
        &&& board::near_point(v.position, t.start, via_reach2(v)) || board::near_point(
            v.position,
            t.end,
            via_reach2(v),
        )
    }

    /// No surviving trace ends on the via, and it sits on no pad of its
    /// net.
    pub open spec fn dangling_via(self, v: Via) -> bool {
        &&& forall|k: int| 0 <= k < self.traces@.len() ==> !self.feeds(#[trigger] self.traces@[k], v)
        &&& !self.pad_at(None, v.net@, v.position, via_reach2(v))
    }

    /// Some dangling via has the id `id`.
    pub open spec fn orphan_via(self, id: Id) -> bool {
        exists|k: int|
            0 <= k < self.vias@.len() && (#[trigger] self.vias@[k]).id == id && self.dangling_via(
                self.vias@[k],
            )
    }

    fn on_some_pad(&self, layer: Option<CopperLayer>, net: &str, p: Point, tol2: i128) -> (r: bool)
        requires
            self.in_range(),
            p.within(COORD_MAX as int),
        ensures
            r == self.pad_at(layer, net@, p, tol2 as int),
    {
        let mut i: usize = 0;
        while i < self.footprints.len()
            invariant
                i <= self.footprints@.len(),
                self.in_range(),
                p.within(COORD_MAX as int),
                forall|k: int|
                    0 <= k < i ==> !#[trigger] board::fp_catches(
                        self.footprints@[k],
                        layer,
                        net@,
                        p,
                        tol2 as int,
                    ),
            decreases self.footprints@.len() - i,
        {
            if footprint_catches(&self.footprints[i], layer, net, p, tol2) {
                assert(board::fp_catches(self.footprints@[i as int], layer, net@, p, tol2 as int));
                return true;
            }
            i += 1;
        }
        false
    }

    fn is_anchored(&self, t: &Trace, p: Point) -> (r: bool)
        requires
            self.in_range(),
            t.in_range(),
            p.within(COORD_MAX as int),
        ensures
            r == self.anchored(*t, p),
    {
        let reach: i128 = t.width.0 as i128 + SNAP_TWICE as i128;
        if self.on_some_pad(Some(t.layer), t.net.as_str(), p, reach) {
            return true;
        }
        let mut k: usize = 0;
        while k < self.vias.len()
            invariant
                k <= self.vias@.len(),
                self.in_range(),
                t.in_range(),
                p.within(COORD_MAX as int),
                reach == trace_reach2(*t),
                forall|m: int| 0 <= m < k ==> !#[trigger] via_catches(self.vias@[m], *t, p),
            decreases self.vias@.len() - k,
        {
            let v = &self.vias[k];
            if str_eq(v.net.as_str(), t.net.as_str()) && is_near_point(
                p,
                v.position,
                v.diameter.0 as i128 + reach,
            ) {
                assert(via_catches(self.vias@[k as int], *t, p));
                return true;
            }
            k += 1;
        }
        let mut k: usize = 0;
        while k < self.traces.len()
            invariant
                k <= self.traces@.len(),
                self.in_range(),
                t.in_range(),
                p.within(COORD_MAX as int),
                reach == trace_reach2(*t),
                forall|m: int| 0 <= m < k ==> !#[trigger] trace_catches(self.traces@[m], *t, p),
            decreases self.traces@.len() - k,
        {
            let o = &self.traces[k];
            if o.id != t.id && str_eq(o.net.as_str(), t.net.as_str()) && o.layer == t.layer && (
            is_near_point(p, o.start, reach) || is_near_point(p, o.end, reach)) {
                assert(trace_catches(self.traces@[k as int], *t, p));
                return true;
            }
            k += 1;
        }
        false
    }

    /// Ids of the traces neither of whose ends touches a pad, a via or
    /// another trace of the same net.
    pub fn orphan_trace_ids(&self) -> (r: Vec<Id>)
        requires
            self.in_range(),
        ensures
            forall|id: Id| #[trigger] r@.contains(id) <==> self.orphan_trace(id),
            r@.no_duplicates(),
    {
        let mut out: Vec<Id> = Vec::new();
        let mut i: usize = 0;
        while i < self.traces.len()
            invariant
                i <= self.traces@.len(),
                self.in_range(),
                out@.no_duplicates(),
                forall|id: Id| #[trigger]
                    out@.contains(id) <==> exists|k: int|
                        0 <= k < i && (#[trigger] self.traces@[k]).id == id && self.dangling_trace(
                            self.traces@[k],
                        ),
            decreases self.traces@.len() - i,
        {
            let t = &self.traces[i];
            let ghost before = out@;
            if !self.is_anchored(t, t.start) && !self.is_anchored(t, t.end) {
                push_id(&mut out, t.id);
            }
            assert forall|id: Id| #[trigger]
                out@.contains(id) implies exists|k: int|
                0 <= k < i + 1 && (#[trigger] self.traces@[k]).id == id && self.dangling_trace(
                    self.traces@[k],
                ) by {
                if before.contains(id) {
                    let k = choose|k: int|
                        0 <= k < i && (#[trigger] self.traces@[k]).id == id && self.dangling_trace(
                            self.traces@[k],
                        );
                    assert(self.traces@[k].id == id);
                } else {
                    assert(self.traces@[i as int].id == id);
                }
            }
            assert forall|id: Id|
                (exists|k: int|
                    0 <= k < i + 1 && (#[trigger] self.traces@[k]).id == id && self.dangling_trace(
                        self.traces@[k],
                    )) implies #[trigger] out@.contains(id) by {
                let k = choose|k: int|
                    0 <= k < i + 1 && (#[trigger] self.traces@[k]).id == id && self.dangling_trace(
                        self.traces@[k],
                    );
                if k < i {
                    assert(before.contains(id));
                }
            }
            i += 1;
        }
        out
    }

    /// Ids of the vias that no surviving trace of their net approaches and
    /// that sit on no pad of their net.
    pub fn orphan_via_ids(&self) -> (r: Vec<Id>)
        requires
            self.in_range(),
        ensures
            forall|id: Id| #[trigger] r@.contains(id) <==> self.orphan_via(id),
            r@.no_duplicates(),
    {
        let dropped = self.orphan_trace_ids();
        let mut out: Vec<Id> = Vec::new();
        let mut i: usize = 0;
        while i < self.vias.len()
            invariant
                i <= self.vias@.len(),
                self.in_range(),
                forall|id: Id| #[trigger] dropped@.contains(id) <==> self.orphan_trace(id),
                out@.no_duplicates(),
                forall|id: Id| #[trigger]
                    out@.contains(id) <==> exists|k: int|
                        0 <= k < i && (#[trigger] self.vias@[k]).id == id && self.dangling_via(
                            self.vias@[k],
                        ),
            decreases self.vias@.len() - i,
        {
            let ghost before = out@;
            let v = &self.vias[i];
            if self.is_dangling_via(v, &dropped) {
                push_id(&mut out, v.id);
            }
            assert forall|id: Id| #[trigger]
                out@.contains(id) implies exists|k: int|
                0 <= k < i + 1 && (#[trigger] self.vias@[k]).id == id && self.dangling_via(
                    self.vias@[k],
                ) by {
                if before.contains(id) {
                    let k = choose|k: int|
                        0 <= k < i && (#[trigger] self.vias@[k]).id == id && self.dangling_via(
                            self.vias@[k],
                        );
                    assert(self.vias@[k].id == id);
                } else {
                    assert(self.vias@[i as int].id == id);
                }
            }
            assert forall|id: Id|
                (exists|k: int|
                    0 <= k < i + 1 && (#[trigger] self.vias@[k]).id == id && self.dangling_via(
                        self.vias@[k],
                    )) implies #[trigger] out@.contains(id) by {
                let k = choose|k: int|
                    0 <= k < i + 1 && (#[trigger] self.vias@[k]).id == id && self.dangling_via(
                        self.vias@[k],
                    );
                if k < i {
                    assert(before.contains(id));
                }
            }
            i += 1;
        }
        out
    }

    fn is_dangling_via(&self, v: &Via, dropped: &Vec<Id>) -> (r: bool)
        requires
            self.in_range(),
            v.in_range(),
            forall|id: Id| #[trigger] dropped@.contains(id) <==> self.orphan_trace(id),
        ensures
            r == self.dangling_via(*v),
    {
        let reach: i128 = v.diameter.0 as i128 + SNAP_TWICE as i128;
        let mut k: usize = 0;
        while k < self.traces.len()
            invariant
                k <= self.traces@.len(),
                self.in_range(),
                v.in_range(),
                reach == via_reach2(*v),
                forall|id: Id| #[trigger] dropped@.contains(id) <==> self.orphan_trace(id),
                forall|m: int| 0 <= m < k ==> !self.feeds(#[trigger] self.traces@[m], *v),
            decreases self.traces@.len() - k,
        {
            let t = &self.traces[k];
            if !has_id(dropped, t.id) && str_eq(t.net.as_str(), v.net.as_str()) && (is_near_point(
                v.position,
                t.start,
                reach,
            ) || is_near_point(v.position, t.end, reach)) {
                assert(self.feeds(self.traces@[k as int], *v));
                return false;
            }
            k += 1;
        }
        !self.on_some_pad(None, v.net.as_str(), v.position, reach)
    }
}

/// Whether `id` is in the list.
pub fn has_id(ids: &Vec<Id>, id: Id) -> (r: bool)
    ensures
        r == ids@.contains(id),
{
    let mut i: usize = 0;
    while i < ids.len()
        invariant
            i <= ids@.len(),
            forall|k: int| 0 <= k < i ==> ids@[k] != id,
        decreases ids@.len() - i,
    {
        if ids[i] == id {
            return true;
        }
        i += 1;
    }
    false
}

/// Adds `id` to the list unless it is there.
fn push_id(ids: &mut Vec<Id>, id: Id)
    requires
        old(ids)@.no_duplicates(),
    ensures
        final(ids)@.no_duplicates(),
        forall|x: Id| #[trigger] final(ids)@.contains(x) <==> old(ids)@.contains(x) || x == id,
{
    if !has_id(ids, id) {
        let ghost before = ids@;
        ids.push(id);
        assert forall|x: Id| #[trigger] ids@.contains(x) <==> before.contains(x) || x == id by {
            if before.contains(x) {
                let k = choose|k: int| 0 <= k < before.len() && before[k] == x;
                assert(ids@[k] == x);
            }
            if x == id {
                assert(ids@[before.len() as int] == x);
            }
        }
    }
}

/// An end of the trace lands on a pad of the footprint.
pub open spec fn touches_trace(fp: Footprint, t: Trace) -> bool {
    ||| board::fp_catches(fp, Some(t.layer), t.net@, t.start, trace_reach2(t))
    ||| board::fp_catches(fp, Some(t.layer), t.net@, t.end, trace_reach2(t))
}

/// The via sits on an outer pad of the footprint.
pub open spec fn touches_via(fp: Footprint, v: Via) -> bool {
    ||| board::fp_catches(fp, Some(CopperLayer::Top), v.net@, v.position, via_reach2(v))
    ||| board::fp_catches(fp, Some(CopperLayer::Bottom), v.net@, v.position, via_reach2(v))
}

/// The traces that do not end on the footprint.
pub open spec fn other_traces(fp: Footprint) -> spec_fn(Trace) -> bool {
    |t: Trace| !touches_trace(fp, t)
}

/// The vias that do not sit on the footprint.
pub open spec fn other_vias(fp: Footprint) -> spec_fn(Via) -> bool {
    |v: Via| !touches_via(fp, v)
}

/// Some pad of the footprint belongs to `net`.
pub open spec fn fp_uses(fp: Footprint, net: Seq<char>) -> bool {
    exists|j: int| 0 <= j < fp.pads@.len() && board::net_is(#[trigger] fp.pads@[j].net, net)
}

/// Whether some pad of the footprint belongs to `net`.
fn footprint_uses(fp: &Footprint, net: &str) -> (r: bool)
    ensures
        r == fp_uses(*fp, net@),
{
    let mut j: usize = 0;
    while j < fp.pads.len()
        invariant
            j <= fp.pads@.len(),
            forall|k: int| 0 <= k < j ==> !board::net_is(#[trigger] fp.pads@[k].net, net@),
        decreases fp.pads@.len() - j,
    {
        if has_net(&fp.pads[j].net, net) {
            return true;
        }
        j += 1;
    }
    false
}

impl Board {
    /// Some pad on the board belongs to `net`.
    pub open spec fn uses_net(self, net: Seq<char>) -> bool {
        exists|i: int|
            0 <= i < self.footprints@.len() && #[trigger] fp_uses(self.footprints@[i], net)
    }

    fn has_pad_on(&self, net: &str) -> (r: bool)
        ensures
            r == self.uses_net(net@),
    {
        let mut i: usize = 0;
        while i < self.footprints.len()
            invariant
                i <= self.footprints@.len(),
                forall|k: int| 0 <= k < i ==> !#[trigger] fp_uses(self.footprints@[k], net@),
            decreases self.footprints@.len() - i,
        {
            if footprint_uses(&self.footprints[i], net) {
                assert(fp_uses(self.footprints@[i as int], net@));
                return true;
            }
            i += 1;
        }
        false
    }

    /// The nets of `fp` that no pad on the board belongs to, sorted.
    fn lost_nets(&self, fp: &Footprint) -> (r: Vec<String>)
        ensures
            text::strictly_sorted(r@),
            forall|c: Seq<char>| #[trigger]
                text::lists(r@, c) <==> fp_uses(*fp, c) && !self.uses_net(c),
    {
        let mut out: Vec<String> = Vec::new();
        let mut j: usize = 0;
        while j < fp.pads.len()
            invariant
                j <= fp.pads@.len(),
                text::strictly_sorted(out@),
                forall|c: Seq<char>| #[trigger]
                    text::lists(out@, c) <==> (exists|k: int|
                        0 <= k < j && board::net_is(#[trigger] fp.pads@[k].net, c))
                        && !self.uses_net(c),
            decreases fp.pads@.len() - j,
        {
            let ghost before = out@;
            if let Some(n) = &fp.pads[j].net {
                if !self.has_pad_on(n.as_str()) {
                    insert_sorted(&mut out, n.clone());
                }
            }
            assert forall|c: Seq<char>| #[trigger]
                text::lists(out@, c) <==> (exists|k: int|
                    0 <= k < j + 1 && board::net_is(#[trigger] fp.pads@[k].net, c))
                    && !self.uses_net(c) by {
                assert(board::net_is(fp.pads@[j as int].net, c) || !board::net_is(
                    fp.pads@[j as int].net,
                    c,
                ));
                if text::lists(out@, c) {
                    if text::lists(before, c) {
                        let k = choose|k: int|
                            0 <= k < j && board::net_is(#[trigger] fp.pads@[k].net, c);
                        assert(board::net_is(fp.pads@[k].net, c));
                    } else {
                        assert(board::net_is(fp.pads@[j as int].net, c));
                    }
                }
                if (exists|k: int| 0 <= k < j + 1 && board::net_is(#[trigger] fp.pads@[k].net, c))
                    && !self.uses_net(c) {
                    let k = choose|k: int|
                        0 <= k < j + 1 && board::net_is(#[trigger] fp.pads@[k].net, c);
                    if k < j {
                        assert(text::lists(before, c));
                    }
                }
            }
            j += 1;
        }
        out
    }

    /// Removes a footprint and every trace and via that ends on one of its
    /// pads. Returns the footprint, the number of traces and of vias that
    /// went with it, and the nets that have no pad left, sorted.
    pub fn remove_footprint_and_routing(&mut self, id: Id) -> (r: Option<
        (Footprint, usize, usize, Vec<String>),
    >)
        requires
            old(self).ids_unique(),
            old(self).in_range(),
        ensures
            r is Some <==> old(self).has(id),
            r is None ==> *final(self) == *old(self),
            final(self).ids_unique(),
            !final(self).has(id),
            r matches Some((fp, traces, vias, lost)) ==> {
                &&& forall|k: int|
                    0 <= k < old(self).footprints@.len() && #[trigger] old(self).footprints@[k].id
                        == id ==> fp == old(self).footprints@[k] && final(self).footprints@ == old(
                        self,
                    ).footprints@.remove(k)
                &&& final(self).traces@ == old(self).traces@.filter(other_traces(fp))
                &&& traces == old(self).traces@.len() - final(self).traces@.len()
                &&& final(self).vias@ == old(self).vias@.filter(other_vias(fp))
                &&& vias == old(self).vias@.len() - final(self).vias@.len()
                &&& text::strictly_sorted(lost@)
                &&& forall|c: Seq<char>| #[trigger]
                    text::lists(lost@, c) <==> fp_uses(fp, c) && !final(self).uses_net(c)
            },
            *final(self) == (Board {
                footprints: final(self).footprints,
                traces: final(self).traces,
                vias: final(self).vias,
                ..*old(self)
            }),
    {
        let at: usize = match self.index_of(id) {
            None => {
                return None;
            },
            Some(i) => i,
        };
        let ghost start = *self;
        let ghost fp0 = self.footprints@[at as int];
        let mut keep_t: Vec<bool> = Vec::new();
        let mut i: usize = 0;
        while i < self.traces.len()
            invariant
                i <= self.traces@.len(),
                *self == start,
                self.in_range(),
                at < self.footprints@.len(),
                fp0 == self.footprints@[at as int],
                keep_t@.len() == i,
                forall|k: int|
                    0 <= k < i ==> #[trigger] keep_t@[k] == other_traces(fp0)(self.traces@[k]),
            decreases self.traces@.len() - i,
        {
            let t = &self.traces[i];
            let fp = &self.footprints[at];
            let reach: i128 = t.width.0 as i128 + SNAP_TWICE as i128;
            let hit = footprint_catches(fp, Some(t.layer), t.net.as_str(), t.start, reach)
                || footprint_catches(fp, Some(t.layer), t.net.as_str(), t.end, reach);
            keep_t.push(!hit);
            i += 1;
        }
        let mut keep_v: Vec<bool> = Vec::new();
        let mut i: usize = 0;
        while i < self.vias.len()
            invariant
                i <= self.vias@.len(),
                *self == start,
                self.in_range(),
                at < self.footprints@.len(),
                fp0 == self.footprints@[at as int],
                keep_v@.len() == i,
                forall|k: int|
                    0 <= k < i ==> #[trigger] keep_v@[k] == other_vias(fp0)(self.vias@[k]),
            decreases self.vias@.len() - i,
        {
            let v = &self.vias[i];
            let fp = &self.footprints[at];
            let reach: i128 = v.diameter.0 as i128 + SNAP_TWICE as i128;
            let hit = footprint_catches(
                fp,
                Some(CopperLayer::Top),
                v.net.as_str(),
                v.position,
                reach,
            ) || footprint_catches(
                fp,
                Some(CopperLayer::Bottom),
                v.net.as_str(),
                v.position,
                reach,
            );
            keep_v.push(!hit);
            i += 1;
        }
        let traces_before: usize = self.traces.len();
        let vias_before: usize = self.vias.len();
        proof {
            list::kept_is_filter(self.traces@, keep_t@, other_traces(fp0));
            list::kept_is_filter(self.vias@, keep_v@, other_vias(fp0));
            list::filter_len(self.traces@, other_traces(fp0));
            list::filter_len(self.vias@, other_vias(fp0));
        }
        keep_marked(&mut self.traces, &keep_t);
        keep_marked(&mut self.vias, &keep_v);
        let removed = self.footprints.remove(at);
        let lost = self.lost_nets(&removed);
        Some((removed, traces_before - self.traces.len(), vias_before - self.vias.len(), lost))
    }
}

} // verus!
