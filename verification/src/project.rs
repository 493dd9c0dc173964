//! A project: the board and the schematic that are worked on, the parts
//! that wait to be placed, and the record of what happened.

use vstd::prelude::*;

use crate::arith::min_i64;
use crate::board;
use crate::board::{
    Board, CopperLayer, Footprint, Id, Keepout, LayerStackup, Pour, SilkLine, SilkText,
    StitchPolicy, ThermalRelief, Trace, Via,
};
use crate::drc::FabProfile;
use crate::event::{ActivityLevel, Event};
use crate::geometry::{Point, Rect};
use crate::library::Library;
use crate::list;
use crate::list::keep_marked;
use crate::name_map;
use crate::pending::PendingLibraryEntry;
use crate::rotation::Rotation;
use crate::routing;
use crate::schematic;
use crate::schematic::{NetClass, Schematic, Symbol};
use crate::text;
use crate::text::str_eq;
use crate::units;
use crate::units::Length;

verus! {

/// The state of a project.
pub struct Project {
    pub name: String,
    pub board: Board,
    pub schematic: Schematic,
    /// Footprints that are declared and not yet placed.
    pub palette: Vec<Footprint>,
    pub library: Library,
    /// Library entries that wait for review.
    pub pending_library: Vec<PendingLibraryEntry>,
    /// The fab profile that the design rules follow, if any.
    pub fab_profile: Option<FabProfile>,
    /// What happened so far, in order.
    pub events: Vec<Event>,
}

/// The references of footprints, in order.
pub open spec fn refs(v: Seq<Footprint>) -> Seq<Seq<char>> {
    v.map_values(|f: Footprint| f.reference@)
}

/// The index of the first footprint from `i` on with that reference; the
/// length where there is none.
pub open spec fn ref_from(v: Seq<Footprint>, reference: Seq<char>, i: int) -> int
    decreases v.len() - i,
{
    if i < 0 || i >= v.len() {
        v.len() as int
    } else if v[i].reference@ == reference {
        i
    } else {
        ref_from(v, reference, i + 1)
    }
}

/// What the search finds: the first footprint of that reference.
pub proof fn ref_is_first(v: Seq<Footprint>, reference: Seq<char>, i: int)
    requires
        0 <= i <= v.len(),
    ensures
        i <= ref_from(v, reference, i) <= v.len(),
        ref_from(v, reference, i) < v.len() ==> v[ref_from(v, reference, i)].reference@
            == reference,
        forall|k: int|
            i <= k < ref_from(v, reference, i) ==> (#[trigger] v[k]).reference@ != reference,
    decreases v.len() - i,
{
    if i < v.len() && v[i].reference@ != reference {
        ref_is_first(v, reference, i + 1);
    }
}

/// Where the first footprint with that reference stands.
pub fn find_ref(v: &Vec<Footprint>, reference: &str) -> (r: usize)
    ensures
        r == ref_from(v@, reference@, 0),
        r <= v@.len(),
        r < v@.len() ==> v@[r as int].reference@ == reference@,
{
    let mut i: usize = 0;
    while i < v.len()
        invariant
            i <= v@.len(),
            ref_from(v@, reference@, 0) == ref_from(v@, reference@, i as int),
        decreases v@.len() - i,
    {
        if str_eq(v[i].reference.as_str(), reference) {
            return i;
        }
        i += 1;
    }
    i
}

/// What a delete by reference took with it.
#[derive(Debug)]
pub struct DeletedFootprint {
    pub id: Id,
    pub reference: String,
    pub library: String,
    pub key: String,
    pub pad_count: usize,
    pub traces_removed: usize,
    pub vias_removed: usize,
    /// Traces left on the board.
    pub trace_count: usize,
    /// Vias left on the board.
    pub via_count: usize,
    /// Nets that have no pad left, sorted.
    pub orphaned_nets: Vec<String>,
}

/// The corner radius that an outline can have: not below zero, and at most
/// half the shorter side.
pub open spec fn radius_within(outline: Rect, radius: int) -> int {
    let w = outline.max.x.0 - outline.min.x.0;
    let h = outline.max.y.0 - outline.min.y.0;
    let cap = units::quot(
        if w < h {
            w
        } else {
            h
        },
        2,
    );
    let r = if radius > 0 {
        radius
    } else {
        0
    };
    if r < cap {
        r
    } else {
        cap
    }
}

/// Traces of other nets.
pub open spec fn traces_off(net: Seq<char>) -> spec_fn(Trace) -> bool {
    |t: Trace| t.net@ != net
}

/// Vias of other nets.
pub open spec fn vias_off(net: Seq<char>) -> spec_fn(Via) -> bool {
    |v: Via| v.net@ != net
}

/// Traces other than `id`.
pub open spec fn traces_but(id: Id) -> spec_fn(Trace) -> bool {
    |t: Trace| t.id != id
}

/// Vias other than `id`.
pub open spec fn vias_but(id: Id) -> spec_fn(Via) -> bool {
    |v: Via| v.id != id
}

/// The pours of `net`.
pub open spec fn pours_of(net: Seq<char>) -> spec_fn(Pour) -> bool {
    |p: Pour| p.net@ == net
}

/// The pads of the footprint reach over the outline.
pub open spec fn pokes_out(outline: Rect) -> spec_fn(Footprint) -> bool {
    |f: Footprint|
        match f.pad_bounds() {
            Some(b) => b.min.x.0 < outline.min.x.0 || b.max.x.0 > outline.max.x.0 || b.min.y.0
                < outline.min.y.0 || b.max.y.0 > outline.max.y.0,
            None => false,
        }
}

pub open spec fn stays_in(outline: Rect) -> spec_fn(Footprint) -> bool {
    |f: Footprint| !pokes_out(outline)(f)
}

/// The events of the removal of these footprints.
pub open spec fn removals(v: Seq<Footprint>) -> Seq<Event> {
    v.map_values(|f: Footprint| Event::FootprintRemoved { id: f.id })
}

/// Where footprints wait that were taken off the board.
pub const PARKING: i64 = -100_000_000;

/// A footprint that was taken off the board.
pub open spec fn parked(f: Footprint) -> Footprint {
    Footprint { position: Point { x: Length(PARKING), y: Length(PARKING) }, ..f }
}

/// The event of a change of the routing.
pub open spec fn routing_event(b: Board) -> Event {
    Event::RoutingChanged {
        trace_count: b.traces@.len() as usize,
        via_count: b.vias@.len() as usize,
    }
}

pub open spec fn silk_event(b: Board) -> Event {
    Event::SilkChanged {
        line_count: b.silk_lines@.len() as usize,
        text_count: b.silk_texts@.len() as usize,
    }
}

/// A board without anything on it.
pub open spec fn is_bare(b: Board) -> bool {
    &&& b.outline_corner_radius.0 == 0
    &&& b.footprints@.len() == 0
    &&& b.traces@.len() == 0
    &&& b.vias@.len() == 0
    &&& b.pours@.len() == 0
    &&& b.keepouts@.len() == 0
    &&& b.silk_lines@.len() == 0
    &&& b.silk_texts@.len() == 0
    &&& b.stackup.layers@.len() == 2
    &&& b.stackup.layers@[0].name@ == board::copper_name(0, 2)
    &&& b.stackup.layers@[1].name@ == board::copper_name(1, 2)
}

/// A schematic without anything on it.
pub open spec fn is_blank(s: Schematic) -> bool {
    &&& s.symbols@.len() == 0
    &&& s.nets.entries@.len() == 0
    &&& s.net_classes.entries@.len() == 0
    &&& s.net_to_class.entries@.len() == 0
}

/// Footprints with different ids keep them different when some are
/// dropped.
pub proof fn filter_keeps_ids(s: Seq<Footprint>, p: spec_fn(Footprint) -> bool)
    requires
        forall|i: int, j: int|
            0 <= i < j < s.len() ==> (#[trigger] s[i]).id != (#[trigger] s[j]).id,
    ensures
        forall|i: int, j: int|
            0 <= i < j < s.filter(p).len() ==> (#[trigger] s.filter(p)[i]).id != (
            #[trigger] s.filter(p)[j]).id,
    decreases s.len(),
{
    reveal(Seq::filter);
    if s.len() > 0 {
        let t = s.drop_last();
        filter_keeps_ids(t, p);
        list::filter_sound(t, p);
        let f = s.filter(p);
        assert forall|i: int, j: int| 0 <= i < j < f.len() implies (#[trigger] f[i]).id != (
        #[trigger] f[j]).id by {
            assert(t.filter(p)[i] == f[i]);
            if j == t.filter(p).len() {
                assert(t.contains(t.filter(p)[i]));
                let k = choose|k: int| 0 <= k < t.len() && t[k] == t.filter(p)[i];
                assert(s[k] == t[k]);
                assert(f[j] == s[s.len() - 1]);
            } else {
                assert(t.filter(p)[j] == f[j]);
            }
        }
    }
}

/// Footprints that are split in two parts have the same references as
/// before.
proof fn split_refs(s: Seq<Footprint>, p: spec_fn(Footprint) -> bool, q: spec_fn(Footprint) -> bool)
    requires
        forall|f: Footprint| #[trigger] p(f) == !q(f),
    ensures
        refs(s).to_multiset() == refs(s.filter(q)).to_multiset().add(
            refs(s.filter(p)).to_multiset(),
        ),
    decreases s.len(),
{
    broadcast use vstd::seq_lib::group_to_multiset_ensures;

    reveal(Seq::filter);
    if s.len() > 0 {
        let t = s.drop_last();
        let x = s.last();
        split_refs(t, p, q);
        assert(refs(s) =~= refs(t).push(x.reference@));
        assert(p(x) == !q(x));
        if p(x) {
            assert(refs(s.filter(p)) =~= refs(t.filter(p)).push(x.reference@));
        } else {
            assert(refs(s.filter(q)) =~= refs(t.filter(q)).push(x.reference@));
        }
        assert(refs(s).to_multiset() =~= refs(s.filter(q)).to_multiset().add(
            refs(s.filter(p)).to_multiset(),
        ));
    } else {
        assert(refs(s) =~= Seq::empty());
        assert(refs(s.filter(p)) =~= Seq::empty());
        assert(refs(s.filter(q)) =~= Seq::empty());
        assert(refs(s).to_multiset() =~= refs(s.filter(q)).to_multiset().add(
            refs(s.filter(p)).to_multiset(),
        ));
    }
}

/// What comes of putting a footprint into the palette: it stands behind the
/// others, or its reference is in use and nothing changes.
pub open spec fn is_palette_add(
    a: Project,
    footprint: Footprint,
    b: Project,
    r: Result<(), String>,
) -> bool {
    let fps = a.board.footprints@;
    let reference = footprint.reference@;
    let used = ref_from(fps, reference, 0) < fps.len() || ref_from(a.palette@, reference, 0)
        < a.palette@.len();
    &&& r is Err <==> used
    &&& r matches Err(e) ==> e@ == "reference "@ + reference + " already in palette or board"@
        && b == a
    &&& r is Ok ==> b.palette@ == a.palette@.push(footprint) && b.events@ == a.events@.push(
        Event::PaletteChanged { count: b.palette@.len() as usize },
    )
    &&& b == (Project { palette: b.palette, events: b.events, ..a })
}

impl Project {
    /// No id, name or key occurs twice where it identifies something.
    pub open spec fn wf(self) -> bool {
        &&& self.board.ids_unique()
        &&& self.schematic.wf()
        &&& self.library.wf()
        &&& forall|i: int, j: int|
            0 <= i < j < self.pending_library@.len() ==> (
            #[trigger] self.pending_library@[i]).entry.key@ != (
            #[trigger] self.pending_library@[j]).entry.key@
    }

    /// Everything is inside the range that the arithmetic is made for.
    pub open spec fn in_range(self) -> bool {
        &&& self.board.in_range()
        &&& forall|i: int|
            0 <= i < self.palette@.len() ==> (#[trigger] self.palette@[i]).in_range()
        &&& self.library.margins_in_range()
    }

    /// The references of all components, on the board or not.
    pub open spec fn components(self) -> vstd::multiset::Multiset<Seq<char>> {
        (refs(self.board.footprints@) + refs(self.palette@)).to_multiset()
    }

    /// A project without anything in it, around a library.
    pub fn new(name: String, library: Library) -> (r: Self)
        requires
            library.wf(),
        ensures
            r.wf(),
            r.name == name,
            is_bare(r.board),
            r.board.outline is None,
            is_blank(r.schematic),
            r.palette@.len() == 0,
            r.library == library,
            r.pending_library@.len() == 0,
            r.fab_profile is None,
            r.events@ == seq![Event::ProjectChanged],
    {
        let mut p = Project {
            name,
            board: Board::new(),
            schematic: Schematic::new(),
            palette: Vec::new(),
            library,
            pending_library: Vec::new(),
            fab_profile: None,
            events: Vec::new(),
        };
        p.publish(Event::ProjectChanged);
        assert(p.events@ =~= seq![Event::ProjectChanged]);
        p
    }

    /// Records that something happened.
    pub fn publish(&mut self, e: Event)
        ensures
            final(self).events@ == old(self).events@.push(e),
            *final(self) == (Project { events: final(self).events, ..*old(self) }),
    {
        self.events.push(e);
    }

    /// Records a line for the activity panel.
    pub fn log(&mut self, level: ActivityLevel, message: String)
        ensures
            final(self).events@ == old(self).events@.push(Event::Activity { level, message }),
            *final(self) == (Project { events: final(self).events, ..*old(self) }),
    {
        self.publish(Event::Activity { level, message });
    }

    /// Records that the library changed.
    pub fn notify_library_changed(&mut self)
        ensures
            final(self).events@ == old(self).events@.push(
                Event::LibraryChanged { count: old(self).library.entries@.len() as usize },
            ),
            *final(self) == (Project { events: final(self).events, ..*old(self) }),
    {
        let count: usize = self.library.entries.len();
        self.publish(Event::LibraryChanged { count });
    }

    /// Adopts a fab profile, or drops it.
    pub fn set_fab_profile(&mut self, profile: Option<FabProfile>)
        ensures
            *final(self) == (Project { fab_profile: profile, ..*old(self) }),
    {
        self.fab_profile = profile;
    }

    /// Replaces the copper layers of the board.
    pub fn update_stackup(&mut self, stackup: LayerStackup)
        ensures
            *final(self) == (Project { board: Board { stackup, ..old(self).board }, ..*old(self) }),
    {
        self.board.stackup = stackup;
    }

    /// A copy of the project's name.
    pub fn name_owned(&self) -> (r: String)
        ensures
            r@ == self.name@,
    {
        self.name.clone()
    }

    /// Adds a footprint to the board.
    pub fn add_footprint(&mut self, footprint: Footprint) -> (r: Id)
        requires
            old(self).wf(),
        ensures
            final(self).wf(),
            r == footprint.id,
            !old(self).board.has(footprint.id) ==> final(self).board.footprints@ == old(self).board.footprints@.push(footprint),
            forall|k: int|
                0 <= k < old(self).board.footprints@.len() && #[trigger] old(self).board.footprints@[k].id == footprint.id ==> final(self).board.footprints@ == old(self).board.footprints@.update(k, footprint),
            final(self).events@ == old(self).events@.push(
                Event::FootprintAdded { id: footprint.id, reference: footprint.reference },
            ),
            *final(self) == (Project {
                board: Board {
                    footprints: final(self).board.footprints,
                    ..old(self).board
                },
                events: final(self).events,
                ..*old(self)
            }),
    {
        let reference = footprint.reference.clone();
        let id = self.board.add_footprint(footprint);
        self.publish(Event::FootprintAdded { id, reference });
        id
    }

    /// Moves a footprint, whatever stands in its way.
    pub fn move_footprint(&mut self, id: Id, position: Point) -> (r: bool)
        requires
            old(self).wf(),
        ensures
            final(self).wf(),
            r == old(self).board.has(id),
            !r ==> *final(self) == *old(self),
            forall|k: int|
                0 <= k < old(self).board.footprints@.len() && #[trigger] old(self).board.footprints@[k].id == id ==> final(self).board.footprints@ == old(self).board.footprints@.update(
                    k,
                    Footprint { position, ..old(self).board.footprints@[k] },
                ),
            r ==> final(self).events@ == old(self).events@.push(
                Event::FootprintMoved { id, position },
            ),
            *final(self) == (Project {
                board: Board {
                    footprints: final(self).board.footprints,
                    ..old(self).board
                },
                events: final(self).events,
                ..*old(self)
            }),
    {
        let moved = self.board.move_footprint(id, position);
        if moved {
            self.publish(Event::FootprintMoved { id, position });
        }
        moved
    }

    /// Turns a footprint, whatever stands in its way.
    pub fn set_footprint_rotation(&mut self, id: Id, rotation: Rotation) -> (r: bool)
        requires
            old(self).wf(),
        ensures
            final(self).wf(),
            r == old(self).board.has(id),
            !r ==> *final(self) == *old(self),
            forall|k: int|
                0 <= k < old(self).board.footprints@.len() && #[trigger] old(self).board.footprints@[k].id == id ==> final(self).board.footprints@ == old(self).board.footprints@.update(
                    k,
                    Footprint { rotation, ..old(self).board.footprints@[k] },
                ) && final(self).events@ == old(self).events@.push(
                    Event::FootprintMoved { id, position: old(self).board.footprints@[k].position },
                ),
            *final(self) == (Project {
                board: Board {
                    footprints: final(self).board.footprints,
                    ..old(self).board
                },
                events: final(self).events,
                ..*old(self)
            }),
    {
        match self.board.index_of(id) {
            None => false,
            Some(i) => {
                let position = self.board.footprints[i].position;
                self.board.footprints[i].rotation = rotation;
                self.publish(Event::FootprintMoved { id, position });
                true
            },
        }
    }

    /// Removes a footprint from the board.
    pub fn remove_footprint(&mut self, id: Id) -> (r: bool)
        requires
            old(self).wf(),
        ensures
            final(self).wf(),
            r == old(self).board.has(id),
            !final(self).board.has(id),
            !r ==> *final(self) == *old(self),
            forall|k: int|
                0 <= k < old(self).board.footprints@.len() && #[trigger] old(self).board.footprints@[k].id == id ==> final(self).board.footprints@ == old(self).board.footprints@.remove(k),
            r ==> final(self).events@ == old(self).events@.push(Event::FootprintRemoved { id }),
            *final(self) == (Project {
                board: Board {
                    footprints: final(self).board.footprints,
                    ..old(self).board
                },
                events: final(self).events,
                ..*old(self)
            }),
    {
        let removed = self.board.remove_footprint(id).is_some();
        if removed {
            self.publish(Event::FootprintRemoved { id });
        }
        removed
    }

    /// Removes the footprint with that reference, with the traces and vias
    /// that end on its pads.
    pub fn delete_footprint_by_ref(&mut self, reference: &str) -> (r: Result<
        DeletedFootprint,
        String,
    >)
        requires
            old(self).wf(),
            old(self).board.in_range(),
        ensures
            final(self).wf(),
            ({
                let fps = old(self).board.footprints@;
                let k = ref_from(fps, reference@, 0);
                &&& r is Ok <==> k < fps.len()
                &&& r matches Err(e) ==> e@ == "no footprint with ref '"@ + reference@ + "'"@
                    && *final(self) == *old(self)
                &&& r matches Ok(d) ==> {
                    let fp = fps[k];
                    let b = final(self).board;
                    &&& d.id == fp.id
                    &&& d.reference == fp.reference
                    &&& d.library == fp.library
                    &&& d.key == fp.key
                    &&& d.pad_count == fp.pads@.len()
                    &&& b.footprints@ == fps.remove(k)
                    &&& b.traces@ == old(self).board.traces@.filter(routing::other_traces(fp))
                    &&& b.vias@ == old(self).board.vias@.filter(routing::other_vias(fp))
                    &&& d.traces_removed == old(self).board.traces@.len() - b.traces@.len()
                    &&& d.vias_removed == old(self).board.vias@.len() - b.vias@.len()
                    &&& d.trace_count == b.traces@.len()
                    &&& d.via_count == b.vias@.len()
                    &&& text::strictly_sorted(d.orphaned_nets@)
                    &&& forall|c: Seq<char>| #[trigger]
                        text::lists(d.orphaned_nets@, c) <==> routing::fp_uses(fp, c)
                            && !b.uses_net(c)
                    &&& final(self).events@ == if d.traces_removed > 0 || d.vias_removed > 0 {
                        old(self).events@.push(Event::FootprintRemoved { id: fp.id }).push(
                            routing_event(b),
                        )
                    } else {
                        old(self).events@.push(Event::FootprintRemoved { id: fp.id })
                    }
                }
            }),
            *final(self) == (Project {
                board: Board {
                    footprints: final(self).board.footprints,
                    traces: final(self).board.traces,
                    vias: final(self).board.vias,
                    ..old(self).board
                },
                events: final(self).events,
                ..*old(self)
            }),
    {
        let ghost fps = self.board.footprints@;
        let k: usize = find_ref(&self.board.footprints, reference);
        if k >= self.board.footprints.len() {
            return Err("no footprint with ref '".to_owned().concat(reference).concat("'"));
        }
        let id = self.board.footprints[k].id;
        assert(fps[k as int].id == id);
        assert(self.board.has(id));
        match self.board.remove_footprint_and_routing(id) {
            Some((fp, traces, vias, lost)) => {
                let outcome = DeletedFootprint {
                    id,
                    reference: fp.reference,
                    library: fp.library,
                    key: fp.key,
                    pad_count: fp.pads.len(),
                    traces_removed: traces,
                    vias_removed: vias,
                    trace_count: self.board.traces.len(),
                    via_count: self.board.vias.len(),
                    orphaned_nets: lost,
                };
                self.publish(Event::FootprintRemoved { id });
                if traces > 0 || vias > 0 {
                    self.publish_routing();
                }
                Ok(outcome)
            },
            None => Err("no footprint with ref '".to_owned().concat(reference).concat("'")),
        }
    }

    /// Records the removal of these footprints.
    fn publish_removals(&mut self, ids: &Vec<Id>)
        ensures
            final(self).events@ == old(self).events@ + ids@.map_values(
                |id: Id| Event::FootprintRemoved { id },
            ),
            *final(self) == (Project { events: final(self).events, ..*old(self) }),
    {
        let ghost start = self.events@;
        let ghost all = ids@.map_values(|id: Id| Event::FootprintRemoved { id });
        let mut i: usize = 0;
        assert(start + all.take(0) =~= start);
        while i < ids.len()
            invariant
                i <= ids@.len(),
                all == ids@.map_values(|id: Id| Event::FootprintRemoved { id }),
                *self == (Project { events: self.events, ..*old(self) }),
                self.events@ == start + all.take(i as int),
            decreases ids@.len() - i,
        {
            self.publish(Event::FootprintRemoved { id: ids[i] });
            assert(self.events@ =~= start + all.take(i + 1));
            i += 1;
        }
        assert(all.take(all.len() as int) =~= all);
    }

    /// Records the number of traces and vias.
    fn publish_routing(&mut self)
        ensures
            final(self).events@ == old(self).events@.push(routing_event(old(self).board)),
            *final(self) == (Project { events: final(self).events, ..*old(self) }),
    {
        let trace_count: usize = self.board.traces.len();
        let via_count: usize = self.board.vias.len();
        self.publish(Event::RoutingChanged { trace_count, via_count });
    }

    fn publish_silk(&mut self)
        ensures
            final(self).events@ == old(self).events@.push(silk_event(old(self).board)),
            *final(self) == (Project { events: final(self).events, ..*old(self) }),
    {
        let line_count: usize = self.board.silk_lines.len();
        let text_count: usize = self.board.silk_texts.len();
        self.publish(Event::SilkChanged { line_count, text_count });
    }

    fn publish_pours(&mut self)
        ensures
            final(self).events@ == old(self).events@.push(
                Event::PoursChanged { count: old(self).board.pours@.len() as usize },
            ),
            *final(self) == (Project { events: final(self).events, ..*old(self) }),
    {
        let count: usize = self.board.pours.len();
        self.publish(Event::PoursChanged { count });
    }

    fn publish_keepouts(&mut self)
        ensures
            final(self).events@ == old(self).events@.push(
                Event::KeepoutsChanged { count: old(self).board.keepouts@.len() as usize },
            ),
            *final(self) == (Project { events: final(self).events, ..*old(self) }),
    {
        let count: usize = self.board.keepouts.len();
        self.publish(Event::KeepoutsChanged { count });
    }

    /// Takes every footprint, trace and via off the board. Returns the
    /// references of the footprints.
    pub fn clear_board_placements(&mut self) -> (r: Vec<String>)
        requires
            old(self).wf(),
        ensures
            final(self).wf(),
            text::views(r@) == refs(old(self).board.footprints@),
            final(self).board.footprints@.len() == 0,
            final(self).board.traces@.len() == 0,
            final(self).board.vias@.len() == 0,
            final(self).events@ == if old(self).board.footprints@.len() > 0 {
                (old(self).events@ + removals(old(self).board.footprints@)).push(
                    Event::RoutingChanged { trace_count: 0, via_count: 0 },
                )
            } else {
                old(self).events@
            },
            *final(self) == (Project {
                board: Board {
                    footprints: final(self).board.footprints,
                    traces: final(self).board.traces,
                    vias: final(self).board.vias,
                    ..old(self).board
                },
                events: final(self).events,
                ..*old(self)
            }),
    {
        let ghost fps = self.board.footprints@;
        let ghost start = self.events@;
        let mut out: Vec<String> = Vec::new();
        let mut i: usize = 0;
        assert(removals(fps).take(0) =~= Seq::empty());
        while i < self.board.footprints.len()
            invariant
                i <= fps.len(),
                fps == self.board.footprints@,
                *self == (Project { events: self.events, ..*old(self) }),
                text::views(out@) == refs(fps).take(i as int),
                self.events@ == start + removals(fps).take(i as int),
            decreases fps.len() - i,
        {
            let ghost before = out@;
            let id = self.board.footprints[i].id;
            out.push(self.board.footprints[i].reference.clone());
            assert(text::views(out@) =~= text::views(before).push(fps[i as int].reference@));
            assert(refs(fps).take(i + 1) =~= refs(fps).take(i as int).push(
                fps[i as int].reference@,
            ));
            self.publish(Event::FootprintRemoved { id });
            assert(removals(fps).take(i + 1) =~= removals(fps).take(i as int).push(
                Event::FootprintRemoved { id },
            ));
            assert(self.events@ =~= start + removals(fps).take(i + 1));
            i += 1;
        }
        assert(refs(fps).take(fps.len() as int) =~= refs(fps));
        assert(removals(fps).take(fps.len() as int) =~= removals(fps));
        self.board.footprints.clear();
        self.board.clear_routing();
        if i > 0 {
            self.publish(Event::RoutingChanged { trace_count: 0, via_count: 0 });
        } else {
            assert(self.events@ =~= start);
        }
        out
    }

    /// Sets the outline, with sharp corners.
    pub fn set_outline(&mut self, outline: Rect)
        ensures
            *final(self) == (Project {
                board: Board {
                    outline: Some(outline),
                    outline_corner_radius: Length(radius_within(outline, 0) as i64),
                    ..old(self).board
                },
                events: final(self).events,
                ..*old(self)
            }),
            final(self).events@ == old(self).events@.push(Event::OutlineChanged),
    {
        self.set_outline_with_radius(outline, Length(0));
    }

    /// Sets the outline and its corner radius, as far as the outline can
    /// have it.
    pub fn set_outline_with_radius(&mut self, outline: Rect, corner_radius: Length)
        ensures
            *final(self) == (Project {
                board: Board {
                    outline: Some(outline),
                    outline_corner_radius: Length(
                        radius_within(outline, corner_radius.0 as int) as i64,
                    ),
                    ..old(self).board
                },
                events: final(self).events,
                ..*old(self)
            }),
            final(self).events@ == old(self).events@.push(Event::OutlineChanged),
    {
        let w: i128 = outline.max.x.0 as i128 - outline.min.x.0 as i128;
        let h: i128 = outline.max.y.0 as i128 - outline.min.y.0 as i128;
        let shorter: i128 = if w < h {
            w
        } else {
            h
        };
        let cap: i64 = (shorter / 2) as i64;
        let r: i64 = if corner_radius.0 > 0 {
            corner_radius.0
        } else {
            0
        };
        self.board.outline = Some(outline);
        self.board.outline_corner_radius = Length(min_i64(r, cap));
        self.publish(Event::OutlineChanged);
    }

    pub fn add_trace(&mut self, trace: Trace) -> (r: Id)
        ensures
            r == trace.id,
            final(self).board.traces@ == old(self).board.traces@.push(trace),
            final(self).events@ == old(self).events@.push(routing_event(final(self).board)),
            *final(self) == (Project {
                board: Board { traces: final(self).board.traces, ..old(self).board },
                events: final(self).events,
                ..*old(self)
            }),
    {
        let id = self.board.add_trace(trace);
        self.publish_routing();
        id
    }

    pub fn add_via(&mut self, via: Via) -> (r: Id)
        ensures
            r == via.id,
            final(self).board.vias@ == old(self).board.vias@.push(via),
            final(self).events@ == old(self).events@.push(routing_event(final(self).board)),
            *final(self) == (Project {
                board: Board { vias: final(self).board.vias, ..old(self).board },
                events: final(self).events,
                ..*old(self)
            }),
    {
        let id = self.board.add_via(via);
        self.publish_routing();
        id
    }

    /// Adds a pour in place of any with the same net and layer.
    pub fn add_pour(&mut self, pour: Pour)
        ensures
            final(self).board.pours@ == old(self).board.pours@.filter(
                board::other_pours(pour.net@, pour.layer),
            ).push(pour),
            final(self).events@ == old(self).events@.push(
                Event::PoursChanged { count: final(self).board.pours@.len() as usize },
            ),
            *final(self) == (Project {
                board: Board { pours: final(self).board.pours, ..old(self).board },
                events: final(self).events,
                ..*old(self)
            }),
    {
        self.board.add_pour(pour);
        self.publish_pours();
    }

    pub fn add_silk_line(&mut self, line: SilkLine)
        ensures
            final(self).board.silk_lines@ == old(self).board.silk_lines@.push(line),
            final(self).events@ == old(self).events@.push(silk_event(final(self).board)),
            *final(self) == (Project {
                board: Board { silk_lines: final(self).board.silk_lines, ..old(self).board },
                events: final(self).events,
                ..*old(self)
            }),
    {
        self.board.add_silk_line(line);
        self.publish_silk();
    }

    pub fn add_silk_text(&mut self, text: SilkText)
        ensures
            final(self).board.silk_texts@ == old(self).board.silk_texts@.push(text),
            final(self).events@ == old(self).events@.push(silk_event(final(self).board)),
            *final(self) == (Project {
                board: Board { silk_texts: final(self).board.silk_texts, ..old(self).board },
                events: final(self).events,
                ..*old(self)
            }),
    {
        self.board.add_silk_text(text);
        self.publish_silk();
    }

    /// Puts these texts in place of all others.
    pub fn set_silk_texts(&mut self, texts: Vec<SilkText>)
        ensures
            *final(self) == (Project {
                board: Board { silk_texts: texts, ..old(self).board },
                events: final(self).events,
                ..*old(self)
            }),
            final(self).events@ == old(self).events@.push(silk_event(final(self).board)),
    {
        self.board.silk_texts = texts;
        self.publish_silk();
    }

    /// Gives every pour of `net` that thermal relief. Returns their
    /// number.
    pub fn set_pour_relief(&mut self, net: &str, relief: ThermalRelief) -> (r: usize)
        ensures
            final(self).board.pours@ == old(self).board.pours@.map_values(
                |p: Pour|
                    if p.net@ == net@ {
                        Pour { thermal_relief: relief, ..p }
                    } else {
                        p
                    },
            ),
            r == old(self).board.pours@.filter(pours_of(net@)).len(),
            final(self).events@ == if r > 0 {
                old(self).events@.push(
                    Event::PoursChanged { count: old(self).board.pours@.len() as usize },
                )
            } else {
                old(self).events@
            },
            *final(self) == (Project {
                board: Board { pours: final(self).board.pours, ..old(self).board },
                events: final(self).events,
                ..*old(self)
            }),
    {
        let ghost all = self.board.pours@;
        let mut changed: usize = 0;
        let mut i: usize = 0;
        proof {
            reveal(Seq::filter);
            assert(all.take(0).filter(pours_of(net@)).len() == 0);
        }
        while i < self.board.pours.len()
            invariant
                i <= all.len(),
                self.board.pours@.len() == all.len(),
                *self == (Project {
                    board: Board { pours: self.board.pours, ..old(self).board },
                    ..*old(self)
                }),
                changed == all.take(i as int).filter(pours_of(net@)).len(),
                changed <= i,
                forall|k: int|
                    0 <= k < all.len() ==> #[trigger] self.board.pours@[k] == if k < i && all[k].net@
                        == net@ {
                        Pour { thermal_relief: relief, ..all[k] }
                    } else {
                        all[k]
                    },
            decreases all.len() - i,
        {
            proof {
                list::filter_step(all, pours_of(net@), i as int);
            }
            assert(self.board.pours@[i as int] == all[i as int]);
            if str_eq(self.board.pours[i].net.as_str(), net) {
                self.board.pours[i].thermal_relief = relief;
                changed += 1;
            }
            i += 1;
        }
        assert(all.take(all.len() as int) =~= all);
        assert(self.board.pours@ =~= all.map_values(
            |p: Pour|
                if p.net@ == net@ {
                    Pour { thermal_relief: relief, ..p }
                } else {
                    p
                },
        ));
        if changed > 0 {
            self.publish_pours();
        }
        changed
    }

    /// Gives every pour of `net` that stitching. Returns their number.
    pub fn set_pour_stitching(&mut self, net: &str, policy: StitchPolicy) -> (r: usize)
        ensures
            final(self).board.pours@ == old(self).board.pours@.map_values(
                |p: Pour|
                    if p.net@ == net@ {
                        Pour { stitching: policy, ..p }
                    } else {
                        p
                    },
            ),
            r == old(self).board.pours@.filter(pours_of(net@)).len(),
            final(self).events@ == if r > 0 {
                old(self).events@.push(
                    Event::PoursChanged { count: old(self).board.pours@.len() as usize },
                )
            } else {
                old(self).events@
            },
            *final(self) == (Project {
                board: Board { pours: final(self).board.pours, ..old(self).board },
                events: final(self).events,
                ..*old(self)
            }),
    {
        let ghost all = self.board.pours@;
        let mut changed: usize = 0;
        let mut i: usize = 0;
        proof {
            reveal(Seq::filter);
            assert(all.take(0).filter(pours_of(net@)).len() == 0);
        }
        while i < self.board.pours.len()
            invariant
                i <= all.len(),
                self.board.pours@.len() == all.len(),
                *self == (Project {
                    board: Board { pours: self.board.pours, ..old(self).board },
                    ..*old(self)
                }),
                changed == all.take(i as int).filter(pours_of(net@)).len(),
                changed <= i,
                forall|k: int|
                    0 <= k < all.len() ==> #[trigger] self.board.pours@[k] == if k < i && all[k].net@
                        == net@ {
                        Pour { stitching: policy, ..all[k] }
                    } else {
                        all[k]
                    },
            decreases all.len() - i,
        {
            proof {
                list::filter_step(all, pours_of(net@), i as int);
            }
            assert(self.board.pours@[i as int] == all[i as int]);
            if str_eq(self.board.pours[i].net.as_str(), net) {
                self.board.pours[i].stitching = policy;
                changed += 1;
            }
            i += 1;
        }
        assert(all.take(all.len() as int) =~= all);
        assert(self.board.pours@ =~= all.map_values(
            |p: Pour|
                if p.net@ == net@ {
                    Pour { stitching: policy, ..p }
                } else {
                    p
                },
        ));
        if changed > 0 {
            self.publish_pours();
        }
        changed
    }

    pub fn add_keepout(&mut self, keepout: Keepout) -> (r: Id)
        ensures
            r == keepout.id,
            final(self).board.keepouts@ == old(self).board.keepouts@.push(keepout),
            final(self).events@ == old(self).events@.push(
                Event::KeepoutsChanged { count: final(self).board.keepouts@.len() as usize },
            ),
            *final(self) == (Project {
                board: Board { keepouts: final(self).board.keepouts, ..old(self).board },
                events: final(self).events,
                ..*old(self)
            }),
    {
        let id = self.board.add_keepout(keepout);
        self.publish_keepouts();
        id
    }

    /// Removes the keepout `id`; true if there was one.
    pub fn remove_keepout(&mut self, id: Id) -> (r: bool)
        ensures
            final(self).board.keepouts@ == old(self).board.keepouts@.filter(
                board::other_keepouts(id),
            ),
            r == (final(self).board.keepouts@.len() != old(self).board.keepouts@.len()),
            final(self).events@ == if r {
                old(self).events@.push(
                    Event::KeepoutsChanged { count: final(self).board.keepouts@.len() as usize },
                )
            } else {
                old(self).events@
            },
            *final(self) == (Project {
                board: Board { keepouts: final(self).board.keepouts, ..old(self).board },
                events: final(self).events,
                ..*old(self)
            }),
    {
        let removed = self.board.remove_keepout(id);
        if removed {
            self.publish_keepouts();
        }
        removed
    }

    /// Removes the pour of `net` on `layer`; true if there was one.
    pub fn remove_pour(&mut self, net: &str, layer: CopperLayer) -> (r: bool)
        ensures
            final(self).board.pours@ == old(self).board.pours@.filter(
                board::other_pours(net@, layer),
            ),
            r == (final(self).board.pours@.len() < old(self).board.pours@.len()),
            final(self).events@ == if r {
                old(self).events@.push(
                    Event::PoursChanged { count: final(self).board.pours@.len() as usize },
                )
            } else {
                old(self).events@
            },
            *final(self) == (Project {
                board: Board { pours: final(self).board.pours, ..old(self).board },
                events: final(self).events,
                ..*old(self)
            }),
    {
        let removed = self.board.remove_pour(net, layer);
        if removed {
            self.publish_pours();
        }
        removed
    }

    /// Drops the board, the schematic and the palette.
    pub fn reset(&mut self)
        requires
            old(self).wf(),
        ensures
            final(self).wf(),
            is_bare(final(self).board),
            final(self).board.outline is None,
            is_blank(final(self).schematic),
            final(self).palette@.len() == 0,
            final(self).events@ == old(self).events@.push(Event::ProjectChanged),
            *final(self) == (Project {
                board: final(self).board,
                schematic: final(self).schematic,
                palette: final(self).palette,
                events: final(self).events,
                ..*old(self)
            }),
    {
        self.board = Board::new();
        self.schematic = Schematic::new();
        self.palette.clear();
        self.publish(Event::ProjectChanged);
    }

    /// Sends every footprint back to the palette and drops the routing. Of
    /// the board only the outline stays.
    pub fn reset_board(&mut self)
        requires
            old(self).wf(),
        ensures
            final(self).wf(),
            is_bare(final(self).board),
            final(self).board.outline == old(self).board.outline,
            final(self).palette@ == old(self).palette@ + old(self).board.footprints@.map_values(
                |f: Footprint| parked(f),
            ),
            final(self).components() == old(self).components(),
            final(self).events@ == old(self).events@.push(Event::ProjectChanged),
            *final(self) == (Project {
                board: final(self).board,
                palette: final(self).palette,
                events: final(self).events,
                ..*old(self)
            }),
    {
        let ghost all = self.board.footprints@;
        let ghost start = self.palette@;
        let ghost f = |f: Footprint| parked(f);
        let outline = self.board.outline;
        let mut fresh = Board::new();
        fresh.outline = outline;
        let mut rest = Board::new();
        std::mem::swap(&mut rest, &mut self.board);
        self.board = fresh;
        let mut fps = rest.footprints;
        let mut i: usize = 0;
        while i < fps.len()
            invariant
                i <= all.len(),
                fps@.len() == all.len(),
                forall|k: int|
                    0 <= k < all.len() ==> #[trigger] fps@[k] == if k < i {
                        parked(all[k])
                    } else {
                        all[k]
                    },
            decreases all.len() - i,
        {
            assert(fps@[i as int] == all[i as int]);
            fps[i].position = Point { x: Length(PARKING), y: Length(PARKING) };
            i += 1;
        }
        assert(fps@ =~= all.map_values(|f: Footprint| parked(f)));
        self.palette.append(&mut fps);
        assert(self.palette@ == start + all.map_values(|f: Footprint| parked(f)));
        proof {
            assert(refs(self.palette@) =~= refs(start) + refs(all));
            assert(refs(self.board.footprints@) + refs(self.palette@) =~= refs(start) + refs(all));
            vstd::seq_lib::lemma_multiset_commutative(refs(start), refs(all));
            vstd::seq_lib::lemma_multiset_commutative(refs(all), refs(start));
            assert(self.components() =~= old(self).components());
        }
        self.publish(Event::ProjectChanged);
    }

    /// Puts a footprint into the palette, unless its reference is in use.
    pub fn palette_add(&mut self, footprint: Footprint) -> (r: Result<(), String>)
        ensures
            is_palette_add(*old(self), footprint, *final(self), r),
    {
        let reference = footprint.reference.as_str();
        if find_ref(&self.board.footprints, reference) < self.board.footprints.len() || find_ref(
            &self.palette,
            reference,
        ) < self.palette.len() {
            return Err(
                "reference ".to_owned().concat(reference).concat(" already in palette or board"),
            );
        }
        self.palette.push(footprint);
        let count: usize = self.palette.len();
        self.publish(Event::PaletteChanged { count });
        Ok(())
    }

    pub fn palette_clear(&mut self)
        ensures
            final(self).palette@.len() == 0,
            final(self).events@ == old(self).events@.push(Event::PaletteChanged { count: 0 }),
            *final(self) == (Project {
                palette: final(self).palette,
                events: final(self).events,
                ..*old(self)
            }),
    {
        self.palette.clear();
        self.publish(Event::PaletteChanged { count: 0 });
    }

    /// Sends every footprint whose pads reach over the outline back to the
    /// palette. Returns their references.
    pub fn unplace_out_of_bounds(&mut self) -> (r: Vec<String>)
        requires
            old(self).wf(),
            old(self).board.footprints_in_range(),
        ensures
            final(self).wf(),
            final(self).components() == old(self).components(),
            match old(self).board.outline {
                None => r@.len() == 0 && *final(self) == *old(self),
                Some(o) => {
                    let moved = old(self).board.footprints@.filter(pokes_out(o));
                    &&& text::views(r@) == refs(moved)
                    &&& final(self).board.footprints@ == old(self).board.footprints@.filter(
                        stays_in(o),
                    )
                    &&& final(self).palette@ == old(self).palette@ + moved
                    &&& final(self).events@ == if moved.len() > 0 {
                        (old(self).events@ + removals(moved)).push(
                            Event::PaletteChanged { count: final(self).palette@.len() as usize },
                        )
                    } else {
                        old(self).events@
                    }
                },
            },
            *final(self) == (Project {
                board: Board { footprints: final(self).board.footprints, ..old(self).board },
                palette: final(self).palette,
                events: final(self).events,
                ..*old(self)
            }),
    {
        let outline = match self.board.outline {
            None => {
                return Vec::new();
            },
            Some(o) => o,
        };
        let ghost all = self.board.footprints@;
        let ghost start = self.palette@;
        let ghost out_of = pokes_out(outline);
        let ghost inside = stays_in(outline);
        let mut out: Vec<String> = Vec::new();
        let mut ids: Vec<Id> = Vec::new();
        let mut i: usize = 0;
        let ghost mut done: int = 0;
        proof {
            reveal(Seq::filter);
            assert(all.take(0).filter(out_of) =~= Seq::empty());
            assert(all.take(0).filter(inside) =~= Seq::empty());
            assert(all.take(0).filter(inside) + all.skip(0) =~= all);
            assert(start + all.take(0).filter(out_of) =~= start);
            assert(text::views(out@) =~= refs(all.take(0).filter(out_of)));
        }
        while i < self.board.footprints.len()
            invariant
                0 <= done <= all.len(),
                outline == old(self).board.outline->0,
                old(self).board.outline is Some,
                old(self).wf(),
                old(self).board.footprints_in_range(),
                all == old(self).board.footprints@,
                start == old(self).palette@,
                out_of == pokes_out(outline),
                inside == stays_in(outline),
                i == all.take(done).filter(inside).len(),
                self.board.footprints@ == all.take(done).filter(inside) + all.skip(done),
                self.palette@ == start + all.take(done).filter(out_of),
                text::views(out@) == refs(all.take(done).filter(out_of)),
                ids@ == all.take(done).filter(out_of).map_values(|f: Footprint| f.id),
                *self == (Project {
                    board: Board { footprints: self.board.footprints, ..old(self).board },
                    palette: self.palette,
                    ..*old(self)
                }),
            decreases all.len() - done,
        {
            assert(self.board.footprints@[i as int] == all[done]);
            proof {
                list::filter_step(all, out_of, done);
                list::filter_step(all, inside, done);
            }
            let ghost kept = all.take(done).filter(inside);
            let ghost gone = all.take(done).filter(out_of);
            let ghost f = all[done];
            let outside = match self.board.footprints[i].bounds() {
                None => false,
                Some(b) => b.min.x.0 < outline.min.x.0 || b.max.x.0 > outline.max.x.0 || b.min.y.0
                    < outline.min.y.0 || b.max.y.0 > outline.max.y.0,
            };
            if outside {
                let fp = self.board.footprints.remove(i);
                let ghost names = out@;
                out.push(fp.reference.clone());
                ids.push(fp.id);
                self.palette.push(fp);
                assert(self.board.footprints@ =~= kept + all.skip(done + 1));
                assert(text::views(out@) =~= text::views(names).push(f.reference@));
                assert(refs(gone.push(f)) =~= refs(gone).push(f.reference@));
                assert(gone.push(f).map_values(|f: Footprint| f.id) =~= gone.map_values(
                    |f: Footprint| f.id,
                ).push(f.id));
                assert(self.palette@ =~= start + gone.push(f));
            } else {
                i += 1;
                assert(self.board.footprints@ =~= kept.push(f) + all.skip(done + 1));
            }
            proof {
                done = done + 1;
            }
        }
        assert(done == all.len()) by {
            assert(all.skip(done).len() == 0);
        }
        assert(all.take(done) =~= all);
        let ghost moved = all.filter(out_of);
        assert(self.board.footprints@ =~= all.filter(inside));
        proof {
            filter_keeps_ids(all, inside);
            split_refs(all, out_of, inside);
            let a = refs(all.filter(inside));
            let c = refs(moved);
            let d = refs(start);
            assert(refs(self.palette@) =~= d + c);
            vstd::seq_lib::lemma_multiset_commutative(a, d + c);
            vstd::seq_lib::lemma_multiset_commutative(d, c);
            vstd::seq_lib::lemma_multiset_commutative(refs(all), d);
            assert(self.components() =~= old(self).components());
        }
        let ghost noted = self.events@;
        self.publish_removals(&ids);
        assert(self.events@ =~= noted + removals(moved));
        if out.len() > 0 {
            let count: usize = self.palette.len();
            self.publish(Event::PaletteChanged { count });
        } else {
            assert(moved.len() == 0) by {
                assert(refs(moved).len() == moved.len());
            }
            assert(self.events@ =~= old(self).events@);
        }
        assert(text::views(out@).len() == out@.len());
        out
    }

    /// Drops every trace and via of a net. Returns their number.
    pub fn clear_net_routing(&mut self, net: &str) -> (r: usize)
        requires
            old(self).board.traces@.len() + old(self).board.vias@.len() <= usize::MAX,
        ensures
            final(self).board.traces@ == old(self).board.traces@.filter(traces_off(net@)),
            final(self).board.vias@ == old(self).board.vias@.filter(vias_off(net@)),
            r == old(self).board.traces@.len() + old(self).board.vias@.len() - final(self).board.traces@.len() - final(self).board.vias@.len(),
            final(self).events@ == if r > 0 {
                old(self).events@.push(routing_event(final(self).board))
            } else {
                old(self).events@
            },
            *final(self) == (Project {
                board: Board {
                    traces: final(self).board.traces,
                    vias: final(self).board.vias,
                    ..old(self).board
                },
                events: final(self).events,
                ..*old(self)
            }),
    {
        let ghost ts = self.board.traces@;
        let ghost vs = self.board.vias@;
        let before: usize = self.board.traces.len() + self.board.vias.len();
        let mut keep: Vec<bool> = Vec::new();
        let mut i: usize = 0;
        while i < self.board.traces.len()
            invariant
                i <= ts.len(),
                ts == self.board.traces@,
                keep@.len() == i,
                forall|k: int| 0 <= k < i ==> #[trigger] keep@[k] == traces_off(net@)(ts[k]),
            decreases ts.len() - i,
        {
            keep.push(!str_eq(self.board.traces[i].net.as_str(), net));
            i += 1;
        }
        proof {
            list::kept_is_filter(ts, keep@, traces_off(net@));
            list::filter_len(ts, traces_off(net@));
        }
        keep_marked(&mut self.board.traces, &keep);
        let mut keep: Vec<bool> = Vec::new();
        let mut i: usize = 0;
        while i < self.board.vias.len()
            invariant
                i <= vs.len(),
                vs == self.board.vias@,
                keep@.len() == i,
                forall|k: int| 0 <= k < i ==> #[trigger] keep@[k] == vias_off(net@)(vs[k]),
            decreases vs.len() - i,
        {
            keep.push(!str_eq(self.board.vias[i].net.as_str(), net));
            i += 1;
        }
        proof {
            list::kept_is_filter(vs, keep@, vias_off(net@));
            list::filter_len(vs, vias_off(net@));
        }
        keep_marked(&mut self.board.vias, &keep);
        let removed: usize = before - (self.board.traces.len() + self.board.vias.len());
        if removed > 0 {
            self.publish_routing();
        }
        removed
    }

    /// Removes a trace; true if there was one.
    pub fn delete_trace(&mut self, id: Id) -> (r: bool)
        ensures
            final(self).board.traces@ == old(self).board.traces@.filter(traces_but(id)),
            r == (final(self).board.traces@.len() != old(self).board.traces@.len()),
            final(self).events@ == if r {
                old(self).events@.push(routing_event(final(self).board))
            } else {
                old(self).events@
            },
            *final(self) == (Project {
                board: Board { traces: final(self).board.traces, ..old(self).board },
                events: final(self).events,
                ..*old(self)
            }),
    {
        let ghost ts = self.board.traces@;
        let before: usize = self.board.traces.len();
        let mut keep: Vec<bool> = Vec::new();
        let mut i: usize = 0;
        while i < self.board.traces.len()
            invariant
                i <= ts.len(),
                ts == self.board.traces@,
                keep@.len() == i,
                forall|k: int| 0 <= k < i ==> #[trigger] keep@[k] == traces_but(id)(ts[k]),
            decreases ts.len() - i,
        {
            keep.push(self.board.traces[i].id != id);
            i += 1;
        }
        proof {
            list::kept_is_filter(ts, keep@, traces_but(id));
        }
        keep_marked(&mut self.board.traces, &keep);
        let removed = self.board.traces.len() != before;
        if removed {
            self.publish_routing();
        }
        removed
    }

    /// Removes a via; true if there was one.
    pub fn delete_via(&mut self, id: Id) -> (r: bool)
        ensures
            final(self).board.vias@ == old(self).board.vias@.filter(vias_but(id)),
            r == (final(self).board.vias@.len() != old(self).board.vias@.len()),
            final(self).events@ == if r {
                old(self).events@.push(routing_event(final(self).board))
            } else {
                old(self).events@
            },
            *final(self) == (Project {
                board: Board { vias: final(self).board.vias, ..old(self).board },
                events: final(self).events,
                ..*old(self)
            }),
    {
        let ghost vs = self.board.vias@;
        let before: usize = self.board.vias.len();
        let mut keep: Vec<bool> = Vec::new();
        let mut i: usize = 0;
        while i < self.board.vias.len()
            invariant
                i <= vs.len(),
                vs == self.board.vias@,
                keep@.len() == i,
                forall|k: int| 0 <= k < i ==> #[trigger] keep@[k] == vias_but(id)(vs[k]),
            decreases vs.len() - i,
        {
            keep.push(self.board.vias[i].id != id);
            i += 1;
        }
        proof {
            list::kept_is_filter(vs, keep@, vias_but(id));
        }
        keep_marked(&mut self.board.vias, &keep);
        let removed = self.board.vias.len() != before;
        if removed {
            self.publish_routing();
        }
        removed
    }

    /// Drops every trace and via.
    pub fn clear_routing(&mut self)
        ensures
            final(self).board.traces@.len() == 0,
            final(self).board.vias@.len() == 0,
            final(self).events@ == old(self).events@.push(
                Event::RoutingChanged { trace_count: 0, via_count: 0 },
            ),
            *final(self) == (Project {
                board: Board {
                    traces: final(self).board.traces,
                    vias: final(self).board.vias,
                    ..old(self).board
                },
                events: final(self).events,
                ..*old(self)
            }),
    {
        self.board.clear_routing();
        self.publish(Event::RoutingChanged { trace_count: 0, via_count: 0 });
    }

    /// Turns each footprint as the one with its id on another board is
    /// turned.
    pub fn sync_footprint_rotations(&mut self, from: &Board)
        requires
            old(self).wf(),
            from.ids_unique(),
        ensures
            final(self).wf(),
            final(self).board.footprints@.len() == old(self).board.footprints@.len(),
            forall|k: int, j: int|
                0 <= k < old(self).board.footprints@.len() && 0 <= j < from.footprints@.len()
                    && #[trigger] old(self).board.footprints@[k].id
                    == #[trigger] from.footprints@[j].id ==> final(self).board.footprints@[k] == (
                Footprint {
                    rotation: from.footprints@[j].rotation,
                    ..old(self).board.footprints@[k]
                }),
            forall|k: int|
                0 <= k < old(self).board.footprints@.len() && !from.has(
                    #[trigger] old(self).board.footprints@[k].id,
                ) ==> final(self).board.footprints@[k] == old(self).board.footprints@[k],
            *final(self) == (Project {
                board: Board { footprints: final(self).board.footprints, ..old(self).board },
                ..*old(self)
            }),
    {
        let ghost all = self.board.footprints@;
        let mut i: usize = 0;
        while i < self.board.footprints.len()
            invariant
                i <= all.len(),
                all == old(self).board.footprints@,
                old(self).wf(),
                from.ids_unique(),
                self.board.footprints@.len() == all.len(),
                forall|k: int|
                    i <= k < all.len() ==> #[trigger] self.board.footprints@[k] == all[k],
                forall|k: int|
                    0 <= k < i ==> #[trigger] self.board.footprints@[k] == (Footprint {
                        rotation: self.board.footprints@[k].rotation,
                        ..all[k]
                    }),
                forall|k: int, j: int|
                    0 <= k < i && 0 <= j < from.footprints@.len() && #[trigger] all[k].id
                        == #[trigger] from.footprints@[j].id
                        ==> self.board.footprints@[k].rotation == from.footprints@[j].rotation,
                forall|k: int|
                    0 <= k < i && !from.has(#[trigger] all[k].id) ==> self.board.footprints@[k]
                        == all[k],
                *self == (Project {
                    board: Board { footprints: self.board.footprints, ..old(self).board },
                    ..*old(self)
                }),
            decreases all.len() - i,
        {
            assert(self.board.footprints@[i as int] == all[i as int]);
            match from.index_of(self.board.footprints[i].id) {
                Some(j) => {
                    self.board.footprints[i].rotation = from.footprints[j].rotation;
                    assert(from.has(all[i as int].id));
                },
                None => {},
            }
            i += 1;
        }
        assert forall|k: int, j: int| 0 <= k < j < all.len() implies (
        #[trigger] self.board.footprints@[k]).id != (#[trigger] self.board.footprints@[j]).id by {
            assert(all[k].id != all[j].id);
        }
    }

    /// Puts these traces and vias in place of all others.
    pub fn replace_routing(&mut self, traces: Vec<Trace>, vias: Vec<Via>)
        ensures
            *final(self) == (Project {
                board: Board { traces, vias, ..old(self).board },
                events: final(self).events,
                ..*old(self)
            }),
            final(self).events@ == old(self).events@.push(routing_event(final(self).board)),
    {
        self.board.traces = traces;
        self.board.vias = vias;
        self.publish_routing();
    }

    /// Adds a symbol to the schematic.
    pub fn add_symbol(&mut self, symbol: Symbol) -> (r: Id)
        requires
            old(self).wf(),
        ensures
            final(self).wf(),
            r == symbol.id,
            final(self).schematic.symbols@ == schematic::with_symbol(
                old(self).schematic.symbols@,
                symbol,
                0,
            ),
            final(self).events@ == old(self).events@.push(
                Event::SymbolAdded { id: symbol.id, reference: symbol.reference },
            ),
            *final(self) == (Project {
                schematic: Schematic {
                    symbols: final(self).schematic.symbols,
                    ..old(self).schematic
                },
                events: final(self).events,
                ..*old(self)
            }),
    {
        let reference = symbol.reference.clone();
        let id = self.schematic.add_symbol(symbol);
        self.publish(Event::SymbolAdded { id, reference });
        id
    }

    /// Adds a net class, or replaces the one of its name.
    pub fn set_net_class(&mut self, class: NetClass)
        requires
            old(self).wf(),
        ensures
            final(self).wf(),
            final(self).schematic.net_classes.entries@ == name_map::with_entry(
                old(self).schematic.net_classes.entries@,
                class.name,
                class,
            ),
            logged(
                old(self).events@,
                final(self).events@,
                "schematic.set_class: "@ + class.name@,
            ),
            *final(self) == (Project {
                schematic: Schematic {
                    net_classes: final(self).schematic.net_classes,
                    ..old(self).schematic
                },
                events: final(self).events,
                ..*old(self)
            }),
    {
        let message = "schematic.set_class: ".to_owned().concat(class.name.as_str());
        let ghost start = self.events@;
        self.schematic.set_net_class(class);
        self.log(ActivityLevel::Info, message);
        assert(self.events@.drop_last() =~= start);
    }

    /// Puts a net into a class that was declared.
    pub fn assign_net_to_class(&mut self, net_name: String, class_name: String) -> (r: Result<
        (),
        String,
    >)
        requires
            old(self).wf(),
        ensures
            final(self).wf(),
            r is Ok <==> name_map::looked_up(
                old(self).schematic.net_classes.entries@,
                class_name@,
            ) is Some,
            r matches Err(e) ==> e@ == "net class `"@ + class_name@
                + "` not declared — define it with `class "@ + class_name@ + " ...` first"@
                && *final(self) == *old(self),
            r is Ok ==> final(self).schematic.net_to_class.entries@ == name_map::with_entry(
                old(self).schematic.net_to_class.entries@,
                net_name,
                class_name,
            ) && logged(
                old(self).events@,
                final(self).events@,
                "schematic.assign_net_class: "@ + net_name@ + " -> "@ + class_name@,
            ),
            *final(self) == (Project {
                schematic: Schematic {
                    net_to_class: final(self).schematic.net_to_class,
                    ..old(self).schematic
                },
                events: final(self).events,
                ..*old(self)
            }),
    {
        let ghost start = self.events@;
        if self.schematic.net_classes.get(class_name.as_str()).is_none() {
            return Err(
                "net class `".to_owned().concat(class_name.as_str()).concat(
                    "` not declared — define it with `class ",
                ).concat(class_name.as_str()).concat(" ...` first"),
            );
        }
        let message = "schematic.assign_net_class: ".to_owned().concat(net_name.as_str()).concat(
            " -> ",
        ).concat(class_name.as_str());
        self.schematic.assign_net_to_class(net_name, class_name);
        self.log(ActivityLevel::Info, message);
        assert(self.events@.drop_last() =~= start);
        Ok(())
    }
}

/// The events grew by a line for the activity panel.
pub open spec fn logged(before: Seq<Event>, after: Seq<Event>, message: Seq<char>) -> bool {
    &&& after.len() == before.len() + 1
    &&& after.drop_last() == before
    &&& after.last() matches Event::Activity { level, message: m } && level == ActivityLevel::Info
        && m@ == message
}

/// Dropping the routing of a net a second time changes nothing, and nothing
/// of that net is left.
pub proof fn net_routing_clears_once(ts: Seq<Trace>, vs: Seq<Via>, net: Seq<char>)
    ensures
        ts.filter(traces_off(net)).filter(traces_off(net)) == ts.filter(traces_off(net)),
        vs.filter(vias_off(net)).filter(vias_off(net)) == vs.filter(vias_off(net)),
        forall|i: int|
            0 <= i < ts.filter(traces_off(net)).len() ==> (
            #[trigger] ts.filter(traces_off(net))[i]).net@ != net,
        forall|i: int|
            0 <= i < vs.filter(vias_off(net)).len() ==> (
            #[trigger] vs.filter(vias_off(net))[i]).net@ != net,
{
    list::filter_sound(ts, traces_off(net));
    list::filter_sound(vs, vias_off(net));
    list::filter_all(ts.filter(traces_off(net)), traces_off(net));
    list::filter_all(vs.filter(vias_off(net)), vias_off(net));
}

/// A second pour of the same net and layer takes the place of the first:
/// one pour of each net and layer stays one, and adding the same pour again
/// changes nothing.
pub proof fn pours_do_not_pile_up(pours: Seq<Pour>, pour: Pour)
    ensures
        ({
            let other = board::other_pours(pour.net@, pour.layer);
            let once = pours.filter(other).push(pour);
            once.filter(other).push(pour) == once
        }),
{
    let other = board::other_pours(pour.net@, pour.layer);
    let rest = pours.filter(other);
    let once = rest.push(pour);
    list::filter_sound(pours, other);
    list::filter_all(rest, other);
    reveal(Seq::filter);
    assert(once.drop_last() =~= rest);
}

/// No reference is in use twice, on the board and in the palette.
pub open spec fn references_distinct(p: Project) -> bool {
    forall|c: Seq<char>| #[trigger] p.components().count(c) <= 1
}

/// Where no reference is in use twice, putting a footprint into the palette
/// does not change that.
pub proof fn palette_keeps_references_distinct(
    a: Project,
    footprint: Footprint,
    b: Project,
    r: Result<(), String>,
)
    requires
        references_distinct(a),
        is_palette_add(a, footprint, b, r),
    ensures
        references_distinct(b),
{
    let fps = a.board.footprints@;
    let reference = footprint.reference@;
    if r is Ok {
        ref_is_first(fps, reference, 0);
        ref_is_first(a.palette@, reference, 0);
        let all = refs(fps) + refs(a.palette@);
        assert(!all.contains(reference)) by {
            if all.contains(reference) {
                let k = choose|k: int| 0 <= k < all.len() && all[k] == reference;
                if k < fps.len() {
                    assert(fps[k].reference@ == reference);
                } else {
                    assert(a.palette@[k - fps.len()].reference@ == reference);
                }
            }
        }
        all.to_multiset_ensures();
        assert(refs(fps) + refs(b.palette@) =~= all.push(reference));
        assert(b.components() =~= a.components().insert(reference));
        assert(a.components().count(reference) == 0);
        assert forall|c: Seq<char>| #[trigger] b.components().count(c) <= 1 by {
            assert(a.components().count(c) <= 1);
        }
    }
}

} // verus!
