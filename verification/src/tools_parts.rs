//! Tools that work on the palette and the library.

use vstd::prelude::*;

use base64::Engine;

use crate::board;
use crate::board::{CopperLayer, Footprint, Id, Pad};
use crate::event::{ActivityLevel, Event};
use crate::geometry::Point;
use crate::library;
use crate::library::{Attachment, LibraryEntry, LibraryPad, ViewTransform};
use crate::pending::StoredFile;
use crate::project;
use crate::project::{PARKING, Project};
use crate::rotation::Rotation;
use crate::routing;
use crate::schematic;
use crate::schematic::{Schematic, Symbol};
use crate::text;
use crate::text::{insert_sorted, uint_text};
use crate::tools;
use crate::tools::{INVALID_PARAMS, ToolError};
use crate::units::Length;

verus! {

/// What base64 text stands for, or why it stands for nothing.
pub uninterp spec fn base64_read(text: Seq<u8>) -> Result<Seq<u8>, Seq<char>>;

/// `base64::engine::general_purpose::STANDARD.decode`: the standard
/// alphabet with padding.
#[verifier::external_body]
fn base64_decode(text: &[u8]) -> (r: Result<Vec<u8>, String>)
    ensures
        match r {
            Ok(b) => base64_read(text@) == Ok::<Seq<u8>, Seq<char>>(b@),
            Err(e) => base64_read(text@) == Err::<Seq<u8>, Seq<char>>(e@),
        },
{
    base64::engine::general_purpose::STANDARD.decode(text).map_err(|e| e.to_string())
}

/// The net of the pad with that number, else of that name.
pub open spec fn pad_net(s: Schematic, id: Id, number: Seq<char>, name: Seq<char>) -> Option<
    Seq<char>,
> {
    match s.pin_net(id, number, 0) {
        Some(n) => Some(n),
        None => if name.len() == 0 {
            None
        } else {
            s.pin_net(id, name, 0)
        },
    }
}

fn find_pad_net(s: &Schematic, id: Id, number: &str, name: &str) -> (r: Option<String>)
    ensures
        r is Some <==> pad_net(*s, id, number@, name@) is Some,
        r matches Some(n) ==> pad_net(*s, id, number@, name@) == Some(n@),
{
    if let Some(n) = s.net_for_pin(id, number) {
        return Some(n.to_owned());
    }
    if name.unicode_len() == 0 {
        return None;
    }
    match s.net_for_pin(id, name) {
        Some(n) => Some(n.to_owned()),
        None => None,
    }
}

/// The pad of a part on that layer, on the net that its symbol has there.
pub open spec fn is_pad_of(p: Pad, l: LibraryPad, layer: CopperLayer, s: Schematic, id: Id) -> bool {
    &&& p.number == l.number
    &&& p.name == l.name
    &&& p.offset == l.center()
    &&& p.size == (l.w, l.h)
    &&& p.layer == layer
    &&& p.drill == l.drill
    &&& match pad_net(s, id, l.number@, l.name@) {
        Some(n) => p.net matches Some(m) && m@ == n,
        None => p.net is None,
    }
}

/// The pads of a part.
pub open spec fn are_pads_of(
    ps: Seq<Pad>,
    ls: Seq<LibraryPad>,
    layers: Seq<CopperLayer>,
    s: Schematic,
    id: Id,
) -> bool {
    &&& ps.len() == ls.len()
    &&& forall|i: int| 0 <= i < ps.len() ==> is_pad_of(#[trigger] ps[i], ls[i], layers[i], s, id)
}

fn spawn_pads(ls: &Vec<LibraryPad>, layers: &Vec<CopperLayer>, s: &Schematic, id: Id) -> (r: Vec<Pad>)
    requires
        ls@.len() == layers@.len(),
    ensures
        are_pads_of(r@, ls@, layers@, *s, id),
{
    let mut out: Vec<Pad> = Vec::new();
    let mut i: usize = 0;
    while i < ls.len()
        invariant
            i <= ls@.len(),
            ls@.len() == layers@.len(),
            out@.len() == i,
            forall|k: int|
                0 <= k < i ==> is_pad_of(#[trigger] out@[k], ls@[k], layers@[k], *s, id),
        decreases ls@.len() - i,
    {
        let l = &ls[i];
        let net = find_pad_net(s, id, l.number.as_str(), l.name.as_str());
        out.push(
            Pad {
                number: l.number.clone(),
                name: l.name.clone(),
                offset: Point { x: l.x, y: l.y },
                size: (l.w, l.h),
                layer: layers[i],
                net,
                drill: l.drill,
            },
        );
        i += 1;
    }
    out
}

/// A palette item as a caller describes it: pads with the layer of each.
#[derive(Debug)]
pub struct PalettePlan {
    pub reference: String,
    pub library: String,
    pub rotation: Rotation,
    pub layer: CopperLayer,
    pub pads: Vec<LibraryPad>,
    pub pad_layers: Vec<CopperLayer>,
    pub edge_mounted: bool,
}

/// The footprint is the one that was described, with what its symbol says
/// of it.
pub open spec fn is_planned(fp: Footprint, plan: PalettePlan, s: Schematic) -> bool {
    schematic::referenced(s.symbols@, plan.reference@, 0) matches Some(sym) && {
        &&& fp.reference == plan.reference
        &&& fp.value == sym.value
        &&& fp.library == plan.library
        &&& fp.position == Point { x: Length(PARKING), y: Length(PARKING) }
        &&& fp.rotation == plan.rotation
        &&& fp.layer == plan.layer
        &&& are_pads_of(fp.pads@, plan.pads@, plan.pad_layers@, s, sym.id)
        &&& fp.key == sym.key
        &&& fp.description == sym.description
        &&& fp.edge_mounted == plan.edge_mounted
        &&& fp.silk@.len() == 0
    }
}

/// The reference is in use.
pub open spec fn is_used(fps: Seq<Footprint>, palette: Seq<Footprint>, reference: Seq<char>) -> bool {
    project::ref_from(fps, reference, 0) < fps.len() || project::ref_from(palette, reference, 0)
        < palette.len()
}

/// The message about a reference that is in use.
pub open spec fn used_message(reference: Seq<char>) -> Seq<char> {
    "reference "@ + reference + " already in palette or board"@
}

/// Why an item cannot be put into the palette.
pub open spec fn plan_fault(
    s: Schematic,
    fps: Seq<Footprint>,
    palette: Seq<Footprint>,
    reference: Seq<char>,
) -> Option<Seq<char>> {
    if schematic::referenced(s.symbols@, reference, 0) is None {
        Some("palette.add: no schematic symbol named "@ + reference)
    } else if is_used(fps, palette, reference) {
        Some(used_message(reference))
    } else {
        None
    }
}

/// The `n` last items of the palette are the first `n` that were described,
/// and each could be put there.
pub open spec fn are_planned(
    s: Schematic,
    fps: Seq<Footprint>,
    palette: Seq<Footprint>,
    from: int,
    plans: Seq<PalettePlan>,
    n: int,
) -> bool {
    &&& palette.len() == from + n
    &&& forall|i: int|
        0 <= i < n ==> is_planned(#[trigger] palette[from + i], plans[i], s) && plan_fault(
            s,
            fps,
            palette.take(from + i),
            plans[i].reference@,
        ) is None
}

/// The events of a palette that grew by `n` items, one at a time.
pub open spec fn growth(from: int, n: int) -> Seq<Event> {
    Seq::new(n as nat, |i: int| Event::PaletteChanged { count: (from + i + 1) as usize })
}

/// A part that is to be taken from the library.
#[derive(Debug)]
pub struct SpawnInput {
    pub reference: String,
    pub key: String,
    /// The value; that of the symbol or of the part where it is empty.
    pub value: String,
    /// The rotation; that of the part where it is not set.
    pub rotation: Option<Rotation>,
    pub layer: CopperLayer,
}

/// The first of the texts that is not empty; the last where all are.
pub open spec fn first_filled(a: String, b: String, c: String) -> String {
    if a@.len() > 0 {
        a
    } else if b@.len() > 0 {
        b
    } else {
        c
    }
}

fn pick_filled(a: &String, b: &String, c: &String) -> (r: String)
    ensures
        r == first_filled(*a, *b, *c),
{
    if a.as_str().unicode_len() > 0 {
        a.clone()
    } else if b.as_str().unicode_len() > 0 {
        b.clone()
    } else {
        c.clone()
    }
}

/// The layer of every pad.
pub open spec fn all_on(layer: CopperLayer, n: nat) -> Seq<CopperLayer> {
    Seq::new(n, |i: int| layer)
}

/// The footprint is that part under that reference: what the caller leaves
/// open comes from the symbol, and what the symbol leaves open from the
/// part.
pub open spec fn is_spawned(fp: Footprint, input: SpawnInput, sym: Symbol, e: LibraryEntry, s: Schematic) -> bool {
    &&& fp.reference == input.reference
    &&& fp.value == first_filled(input.value, sym.value, e.default_value)
    &&& fp.library@ == "library:"@ + input.key@
    &&& fp.position == Point { x: Length(PARKING), y: Length(PARKING) }
    &&& fp.rotation == match input.rotation {
        Some(r) => r,
        None => e.default_rotation,
    }
    &&& fp.layer == input.layer
    &&& are_pads_of(fp.pads@, e.pads@, all_on(input.layer, e.pads@.len()), s, sym.id)
    &&& fp.key == first_filled(sym.key, input.key, input.key)
    &&& fp.description == first_filled(sym.description, e.description, e.description)
    &&& fp.edge_mounted == e.edge_mounted
    &&& fp.silk@.len() == 0
}

/// Why a part cannot be taken from the library.
pub open spec fn spawn_fault(p: Project, reference: Seq<char>, key: Seq<char>) -> Option<Seq<char>> {
    if !p.library.has(key) {
        Some("palette.add_from_library: no library entry with key "@ + key)
    } else if schematic::referenced(p.schematic.symbols@, reference, 0) is None {
        Some("palette.add_from_library: no schematic symbol named "@ + reference)
    } else if is_used(p.board.footprints@, p.palette@, reference) {
        Some(used_message(reference))
    } else {
        None
    }
}

fn repeat_layer(layer: CopperLayer, n: usize) -> (r: Vec<CopperLayer>)
    ensures
        r@ == all_on(layer, n as nat),
{
    let mut out: Vec<CopperLayer> = Vec::new();
    let mut i: usize = 0;
    while i < n
        invariant
            i <= n,
            out@ == all_on(layer, i as nat),
        decreases n - i,
    {
        out.push(layer);
        i += 1;
        assert(out@ =~= all_on(layer, i as nat));
    }
    assert(out@ =~= all_on(layer, n as nat));
    out
}

impl Project {
    /// Puts one item into the palette, under a new id.
    fn add_planned(&mut self, plan: PalettePlan) -> (r: Result<(), String>)
        requires
            old(self).wf(),
            plan.pads@.len() == plan.pad_layers@.len(),
        ensures
            final(self).wf(),
            ({
                let fault = plan_fault(
                    old(self).schematic,
                    old(self).board.footprints@,
                    old(self).palette@,
                    plan.reference@,
                );
                &&& r is Ok <==> fault is None
                &&& r matches Err(e) ==> e@ == fault->0 && *final(self) == *old(self)
                &&& r is Ok ==> {
                    &&& final(self).palette@.len() == old(self).palette@.len() + 1
                    &&& final(self).palette@.drop_last() == old(self).palette@
                    &&& is_planned(final(self).palette@.last(), plan, old(self).schematic)
                    &&& final(self).events@ == old(self).events@.push(
                        Event::PaletteChanged { count: final(self).palette@.len() as usize },
                    )
                }
            }),
            *final(self) == (Project {
                palette: final(self).palette,
                events: final(self).events,
                ..*old(self)
            }),
    {
        let ghost start = self.palette@;
        let fp = match self.schematic.find_by_reference(plan.reference.as_str()) {
            None => {
                return Err(
                    "palette.add: no schematic symbol named ".to_owned().concat(
                        plan.reference.as_str(),
                    ),
                );
            },
            Some(sym) => {
                let pads = spawn_pads(&plan.pads, &plan.pad_layers, &self.schematic, sym.id);
                Footprint {
                    id: Id::new(),
                    reference: plan.reference.clone(),
                    value: sym.value.clone(),
                    library: plan.library.clone(),
                    position: Point { x: Length(PARKING), y: Length(PARKING) },
                    rotation: plan.rotation,
                    layer: plan.layer,
                    pads,
                    key: sym.key.clone(),
                    description: sym.description.clone(),
                    edge_mounted: plan.edge_mounted,
                    silk: Vec::new(),
                }
            },
        };
        let ghost made = fp;
        match self.palette_add(fp) {
            Ok(()) => {
                assert(self.palette@.drop_last() =~= start);
                Ok(())
            },
            Err(e) => Err(e),
        }
    }

    /// Puts items into the palette, in their order, up to the first that
    /// cannot be put there.
    pub fn tool_palette_add(&mut self, plans: Vec<PalettePlan>) -> (r: Result<String, ToolError>)
        requires
            old(self).wf(),
            forall|i: int|
                0 <= i < plans@.len() ==> (#[trigger] plans@[i]).pads@.len()
                    == plans@[i].pad_layers@.len(),
        ensures
            final(self).wf(),
            ({
                let s = old(self).schematic;
                let fps = old(self).board.footprints@;
                let from = old(self).palette@.len() as int;
                let n = final(self).palette@.len() - from;
                &&& 0 <= n <= plans@.len()
                &&& final(self).palette@.take(from) == old(self).palette@
                &&& are_planned(s, fps, final(self).palette@, from, plans@, n)
                &&& r is Ok <==> n == plans@.len()
                &&& r matches Err(e) ==> e.code == INVALID_PARAMS && plan_fault(
                    s,
                    fps,
                    final(self).palette@,
                    plans@[n].reference@,
                ) == Some(e.message@) && final(self).events@ == old(self).events@ + growth(from, n)
                &&& r matches Ok(reply) ==> reply@ == "Added "@ + text::dec(n as nat)
                    + " item(s) to palette"@ && tools::reported(
                    old(self).events@,
                    growth(from, n),
                    final(self).events@,
                    "palette.add: "@ + text::dec(n as nat) + " component(s)"@,
                )
            }),
            *final(self) == (Project {
                palette: final(self).palette,
                events: final(self).events,
                ..*old(self)
            }),
    {
        let ghost s = self.schematic;
        let ghost fps = self.board.footprints@;
        let ghost from = self.palette@.len() as int;
        let ghost all = plans@;
        let ghost start = self.events@;
        let total: usize = plans.len();
        let mut rest = plans;
        let mut n: usize = 0;
        assert(self.palette@.take(from) =~= self.palette@);
        assert(start + growth(from, 0) =~= start);
        assert(rest@ =~= all.skip(0));
        while rest.len() > 0
            invariant
                self.wf(),
                n <= all.len(),
                all == plans@,
                total == all.len(),
                rest@ == all.skip(n as int),
                s == old(self).schematic,
                fps == old(self).board.footprints@,
                from == old(self).palette@.len(),
                start == old(self).events@,
                forall|i: int|
                    0 <= i < all.len() ==> (#[trigger] all[i]).pads@.len()
                        == all[i].pad_layers@.len(),
                self.palette@.len() == from + n,
                self.palette@.take(from) == old(self).palette@,
                are_planned(s, fps, self.palette@, from, all, n as int),
                self.events@ == start + growth(from, n as int),
                *self == (Project {
                    palette: self.palette,
                    events: self.events,
                    ..*old(self)
                }),
            decreases rest@.len(),
        {
            assert(rest@[0] == all[n as int]);
            assert(all[n as int].pads@.len() == all[n as int].pad_layers@.len());
            let ghost before = self.palette@;
            let plan = rest.remove(0);
            assert(rest@ =~= all.skip(n + 1));
            match self.add_planned(plan) {
                Ok(()) => {},
                Err(e) => {
                    return Err(ToolError::invalid_params(e));
                },
            }
            let ghost now = self.palette@;
            proof {
                assert(now.take(from) =~= before.take(from));
                assert forall|i: int| 0 <= i < n + 1 implies is_planned(
                    #[trigger] now[from + i],
                    all[i],
                    s,
                ) && plan_fault(s, fps, now.take(from + i), all[i].reference@) is None by {
                    if i < n {
                        assert(now[from + i] == before[from + i]);
                        assert(now.take(from + i) =~= before.take(from + i));
                    } else {
                        assert(now.take(from + i) =~= before);
                        assert(now[from + i] == now.last());
                    }
                }
                assert(start + growth(from, n + 1) =~= (start + growth(from, n as int)).push(
                    Event::PaletteChanged { count: (from + n + 1) as usize },
                ));
            }
            n += 1;
        }
        let words = uint_text(n as u128);
        self.log(
            ActivityLevel::Info,
            "palette.add: ".to_owned().concat(words.as_str()).concat(" component(s)"),
        );
        assert(self.events@.drop_last() =~= start + growth(from, n as int));
        Ok("Added ".to_owned().concat(words.as_str()).concat(" item(s) to palette"))
    }

    /// Takes a part from the library and puts it into the palette.
    pub fn tool_palette_add_from_library(&mut self, input: SpawnInput) -> (r: Result<
        String,
        ToolError,
    >)
        requires
            old(self).wf(),
        ensures
            final(self).wf(),
            ({
                let fault = spawn_fault(*old(self), input.reference@, input.key@);
                &&& r is Ok <==> fault is None
                &&& r matches Err(e) ==> e.code == INVALID_PARAMS && e.message@ == fault->0
                    && *final(self) == *old(self)
                &&& r matches Ok(reply) ==> {
                    let sym = schematic::referenced(
                        old(self).schematic.symbols@,
                        input.reference@,
                        0,
                    )->0;
                    let e = old(self).library.entries@[old(self).library.at(input.key@)];
                    &&& reply@ == "Spawned "@ + input.reference@ + " from "@ + input.key@
                    &&& final(self).palette@.len() == old(self).palette@.len() + 1
                    &&& final(self).palette@.drop_last() == old(self).palette@
                    &&& is_spawned(final(self).palette@.last(), input, sym, e, old(self).schematic)
                    &&& tools::reported(
                        old(self).events@,
                        seq![Event::PaletteChanged { count: final(self).palette@.len() as usize }],
                        final(self).events@,
                        "palette.add_from_library: "@ + input.reference@ + " ← "@ + input.key@,
                    )
                }
            }),
            *final(self) == (Project {
                palette: final(self).palette,
                events: final(self).events,
                ..*old(self)
            }),
    {
        let ghost start = self.palette@;
        let ghost noted = self.events@;
        let fp = match self.library.find(input.key.as_str()) {
            None => {
                return Err(
                    ToolError::invalid_params(
                        "palette.add_from_library: no library entry with key ".to_owned().concat(
                            input.key.as_str(),
                        ),
                    ),
                );
            },
            Some(e) => match self.schematic.find_by_reference(input.reference.as_str()) {
                None => {
                    return Err(
                        ToolError::invalid_params(
                            "palette.add_from_library: no schematic symbol named ".to_owned().concat(
                                input.reference.as_str(),
                            ),
                        ),
                    );
                },
                Some(sym) => {
                    let layers = repeat_layer(input.layer, e.pads.len());
                    let pads = spawn_pads(&e.pads, &layers, &self.schematic, sym.id);
                    let rotation = match input.rotation {
                        Some(r) => r,
                        None => e.default_rotation,
                    };
                    Footprint {
                        id: Id::new(),
                        reference: input.reference.clone(),
                        value: pick_filled(&input.value, &sym.value, &e.default_value),
                        library: "library:".to_owned().concat(input.key.as_str()),
                        position: Point { x: Length(PARKING), y: Length(PARKING) },
                        rotation,
                        layer: input.layer,
                        pads,
                        key: pick_filled(&sym.key, &input.key, &input.key),
                        description: pick_filled(&sym.description, &e.description, &e.description),
                        edge_mounted: e.edge_mounted,
                        silk: Vec::new(),
                    }
                },
            },
        };
        match self.palette_add(fp) {
            Ok(()) => {},
            Err(e) => {
                return Err(ToolError::invalid_params(e));
            },
        }
        assert(self.palette@.drop_last() =~= start);
        let ghost count = self.palette@.len() as usize;
        self.log(
            ActivityLevel::Info,
            "palette.add_from_library: ".to_owned().concat(input.reference.as_str()).concat(
                " ← ",
            ).concat(input.key.as_str()),
        );
        assert(self.events@.drop_last() =~= noted + seq![Event::PaletteChanged { count }]);
        Ok(
            "Spawned ".to_owned().concat(input.reference.as_str()).concat(" from ").concat(
                input.key.as_str(),
            ),
        )
    }
}

/// An item of the palette, as it is listed.
#[derive(Debug)]
pub struct PaletteItem {
    pub reference: String,
    pub value: String,
    pub library: String,
    pub rotation: Rotation,
    /// Width and height around the pads; zero without pads.
    pub size: (Length, Length),
    pub pad_count: usize,
    /// The nets of the pads, sorted, each once.
    pub nets: Vec<String>,
}

/// The size of the rectangle around the pads.
pub open spec fn pads_size(fp: Footprint) -> (int, int) {
    match fp.pad_bounds() {
        Some(b) => (b.max.x.0 - b.min.x.0, b.max.y.0 - b.min.y.0),
        None => (0, 0),
    }
}

/// The size of the rectangle around the pads.
pub fn size_of_pads(fp: &Footprint) -> (r: (Length, Length))
    requires
        fp.in_range(),
    ensures
        (r.0.0 as int, r.1.0 as int) == pads_size(*fp),
{
    match fp.bounds() {
        Some(b) => (Length(b.max.x.0 - b.min.x.0), Length(b.max.y.0 - b.min.y.0)),
        None => (Length(0), Length(0)),
    }
}

/// The item is how that footprint is listed.
pub open spec fn is_listed(item: PaletteItem, fp: Footprint) -> bool {
    &&& item.reference == fp.reference
    &&& item.value == fp.value
    &&& item.library == fp.library
    &&& item.rotation == fp.rotation
    &&& (item.size.0.0 as int, item.size.1.0 as int) == pads_size(fp)
    &&& item.pad_count == fp.pads@.len()
    &&& text::strictly_sorted(item.nets@)
    &&& forall|c: Seq<char>| #[trigger]
        text::lists(item.nets@, c) <==> routing::fp_uses(fp, c)
}

fn nets_of(fp: &Footprint) -> (r: Vec<String>)
    ensures
        text::strictly_sorted(r@),
        forall|c: Seq<char>| #[trigger] text::lists(r@, c) <==> routing::fp_uses(*fp, c),
{
    let mut out: Vec<String> = Vec::new();
    let mut j: usize = 0;
    while j < fp.pads.len()
        invariant
            j <= fp.pads@.len(),
            text::strictly_sorted(out@),
            forall|c: Seq<char>| #[trigger]
                text::lists(out@, c) <==> exists|k: int|
                    0 <= k < j && board::net_is(#[trigger] fp.pads@[k].net, c),
        decreases fp.pads@.len() - j,
    {
        let ghost before = out@;
        if let Some(n) = &fp.pads[j].net {
            insert_sorted(&mut out, n.clone());
        }
        assert forall|c: Seq<char>| #[trigger]
            text::lists(out@, c) <==> exists|k: int|
                0 <= k < j + 1 && board::net_is(#[trigger] fp.pads@[k].net, c) by {
            assert(board::net_is(fp.pads@[j as int].net, c) || !board::net_is(
                fp.pads@[j as int].net,
                c,
            ));
            if text::lists(out@, c) && text::lists(before, c) {
                let k = choose|k: int| 0 <= k < j && board::net_is(#[trigger] fp.pads@[k].net, c);
                assert(board::net_is(fp.pads@[k].net, c));
            }
            if exists|k: int| 0 <= k < j + 1 && board::net_is(#[trigger] fp.pads@[k].net, c) {
                let k = choose|k: int|
                    0 <= k < j + 1 && board::net_is(#[trigger] fp.pads@[k].net, c);
                if k < j {
                    assert(text::lists(before, c));
                }
            }
        }
        j += 1;
    }
    out
}

impl Project {
    /// Lists the palette.
    pub fn tool_palette_list(&self) -> (r: (String, Vec<PaletteItem>))
        requires
            self.in_range(),
        ensures
            r.0@ == text::dec(self.palette@.len()) + " item(s) waiting in the palette"@,
            r.1@.len() == self.palette@.len(),
            forall|i: int|
                0 <= i < self.palette@.len() ==> is_listed(#[trigger] r.1@[i], self.palette@[i]),
    {
        let mut out: Vec<PaletteItem> = Vec::new();
        let mut i: usize = 0;
        while i < self.palette.len()
            invariant
                i <= self.palette@.len(),
                self.in_range(),
                out@.len() == i,
                forall|k: int|
                    0 <= k < i ==> is_listed(#[trigger] out@[k], self.palette@[k]),
            decreases self.palette@.len() - i,
        {
            let fp = &self.palette[i];
            assert(fp.in_range());
            let item = PaletteItem {
                reference: fp.reference.clone(),
                value: fp.value.clone(),
                library: fp.library.clone(),
                rotation: fp.rotation,
                size: size_of_pads(fp),
                pad_count: fp.pads.len(),
                nets: nets_of(fp),
            };
            out.push(item);
            i += 1;
        }
        (uint_text(out.len() as u128).concat(" item(s) waiting in the palette"), out)
    }

    /// The part with that key.
    pub fn tool_library_find(&self, key: &str) -> (r: Result<(String, &LibraryEntry), ToolError>)
        ensures
            match r {
                Ok((reply, e)) => self.library.has(key@) && *e == self.library.entries@[self.library.at(
                    key@,
                )] && reply@ == "Found "@ + e.key@,
                Err(e) => !self.library.has(key@) && e.code == INVALID_PARAMS && e.message@
                    == "library.find: no entry with key "@ + key@,
            },
    {
        match self.library.find(key) {
            Some(e) => Ok(("Found ".to_owned().concat(e.key.as_str()), e)),
            None => Err(
                ToolError::invalid_params(
                    "library.find: no entry with key ".to_owned().concat(key),
                ),
            ),
        }
    }

    /// Stores a part in the library.
    pub fn tool_library_create(&mut self, entry: LibraryEntry, now: u64) -> (r: Result<
        (String, LibraryEntry),
        ToolError,
    >)
        requires
            old(self).wf(),
        ensures
            final(self).wf(),
            r is Ok <==> entry.key@.len() > 0,
            r matches Err(e) ==> e.code == INVALID_PARAMS && e.message@
                == "library: key must not be empty"@ && *final(self) == *old(self),
            r matches Ok((reply, e)) ==> {
                let i = old(self).library.at(entry.key@);
                let lib = final(self).library;
                &&& reply@ == "Saved "@ + entry.key@
                &&& library::stored(old(self).library.entries@, entry, now, e)
                &&& lib.has(entry.key@) && lib.at(entry.key@) == i
                &&& e.same(lib.entries@[i])
                &&& lib.entries@ == if old(self).library.has(entry.key@) {
                    old(self).library.entries@.update(i, lib.entries@[i])
                } else {
                    old(self).library.entries@.push(lib.entries@[i])
                }
                &&& tools::reported(
                    old(self).events@,
                    seq![Event::LibraryChanged { count: lib.entries@.len() as usize }],
                    final(self).events@,
                    "library.create: "@ + entry.key@ + " ("@ + text::dec(entry.pads@.len())
                        + " pads)"@,
                )
            },
            *final(self) == (Project {
                library: final(self).library,
                events: final(self).events,
                ..*old(self)
            }),
    {
        let ghost start = self.events@;
        let stored = match self.library.upsert(entry, now) {
            Ok(e) => e,
            Err(e) => {
                return Err(ToolError::invalid_params(e));
            },
        };
        self.notify_library_changed();
        let ghost count = self.library.entries@.len() as usize;
        self.log(
            ActivityLevel::Info,
            "library.create: ".to_owned().concat(stored.key.as_str()).concat(" (").concat(
                uint_text(stored.pads.len() as u128).as_str(),
            ).concat(" pads)"),
        );
        assert(self.events@.drop_last() =~= start + seq![Event::LibraryChanged { count }]);
        Ok(("Saved ".to_owned().concat(stored.key.as_str()), stored))
    }

    /// Records a file of a part under a new id. Returns the record and the
    /// file to be stored.
    pub fn record_attachment(
        &mut self,
        key: &str,
        kind: String,
        filename: String,
        mime: String,
        data: Vec<u8>,
        now: u64,
    ) -> (r: Result<(String, Attachment, StoredFile), ToolError>)
        requires
            old(self).wf(),
        ensures
            final(self).wf(),
            is_recording(*old(self), key@, kind, filename, mime, data@, now, *final(self), r),
    {
        let ghost start = self.events@;
        let a = Attachment {
            id: Id::new().text(),
            kind,
            filename,
            mime,
            added_at: now,
            view_transform: ViewTransform::default(),
            calibration: None,
        };
        let record = a.clone();
        match self.library.attach(key, a) {
            Ok(()) => {},
            Err(e) => {
                return Err(ToolError::invalid_params(e));
            },
        }
        self.notify_library_changed();
        let ghost count = self.library.entries@.len() as usize;
        self.log(
            ActivityLevel::Info,
            "library.attach: ".to_owned().concat(key).concat(" ← ").concat(
                record.filename.as_str(),
            ).concat(" (").concat(uint_text(data.len() as u128).as_str()).concat(" bytes)"),
        );
        assert(self.events@.drop_last() =~= start + seq![Event::LibraryChanged { count }]);
        let reply = "Attached ".to_owned().concat(record.filename.as_str());
        let file = StoredFile { name: record.file_name(), data };
        Ok((reply, record, file))
    }

    /// Attaches a file to a part, from its base64 text.
    pub fn tool_library_attach(
        &mut self,
        key: &str,
        kind: String,
        filename: String,
        mime: String,
        data_base64: &str,
        now: u64,
    ) -> (r: Result<(String, Attachment, StoredFile), ToolError>)
        requires
            old(self).wf(),
        ensures
            final(self).wf(),
            match base64_read(vstd::utf8::encode_utf8(data_base64@)) {
                Err(e) => (r matches Err(t) && t.code == INVALID_PARAMS && t.message@
                    == "library.attach: invalid base64: "@ + e) && *final(self) == *old(self),
                Ok(data) => is_recording(
                    *old(self),
                    key@,
                    kind,
                    filename,
                    mime,
                    data,
                    now,
                    *final(self),
                    r,
                ),
            },
    {
        let data = match base64_decode(data_base64.as_bytes()) {
            Ok(d) => d,
            Err(e) => {
                return Err(
                    ToolError::invalid_params(
                        "library.attach: invalid base64: ".to_owned().concat(e.as_str()),
                    ),
                );
            },
        };
        self.record_attachment(key, kind, filename, mime, data, now)
    }

    /// Takes a file off a part. Returns its record, where there was one.
    pub fn tool_library_delete_attachment(&mut self, key: &str, attachment_id: &str) -> (r: Result<
        (String, Option<Attachment>),
        ToolError,
    >)
        requires
            old(self).wf(),
        ensures
            final(self).wf(),
            r is Ok <==> old(self).library.has(key@),
            r matches Err(e) ==> e.code == INVALID_PARAMS && e.message@ == library::no_entry(key@)
                && *final(self) == *old(self),
            r matches Ok((reply, gone)) ==> {
                let i = old(self).library.at(key@);
                let e = old(self).library.entries@[i];
                let j = library::attachment_from(e.attachments@, attachment_id@, 0);
                let lib = final(self).library;
                &&& gone is Some <==> j < e.attachments@.len()
                &&& gone is None ==> reply@ == "No matching attachment"@ && *final(self) == *old(
                    self)
                &&& gone matches Some(a) ==> {
                    &&& reply@ == "Attachment removed"@
                    &&& a == e.attachments@[j]
                    &&& lib.entries@ == old(self).library.entries@.update(i, lib.entries@[i])
                    &&& lib.entries@[i].attachments@ == e.attachments@.remove(j)
                    &&& lib.entries@[i] == (LibraryEntry {
                        attachments: lib.entries@[i].attachments,
                        ..e
                    })
                    &&& final(self).events@ == old(self).events@.push(
                        Event::LibraryChanged { count: lib.entries@.len() as usize },
                    )
                }
            },
            *final(self) == (Project {
                library: final(self).library,
                events: final(self).events,
                ..*old(self)
            }),
    {
        match self.library.delete_attachment(key, attachment_id) {
            Err(e) => Err(ToolError::invalid_params(e)),
            Ok(None) => Ok(("No matching attachment".to_owned(), None)),
            Ok(Some(a)) => {
                self.notify_library_changed();
                Ok(("Attachment removed".to_owned(), Some(a)))
            },
        }
    }

    /// Removes a part from the library. Returns it, where there was one.
    pub fn tool_library_delete(&mut self, key: &str) -> (r: (String, Option<LibraryEntry>))
        requires
            old(self).wf(),
        ensures
            final(self).wf(),
            r.1 is Some <==> old(self).library.has(key@),
            r.1 is None ==> r.0@ == "No matching entry"@ && *final(self) == *old(self),
            r.1 matches Some(e) ==> {
                let i = old(self).library.at(key@);
                &&& r.0@ == "Entry removed"@
                &&& e == old(self).library.entries@[i]
                &&& final(self).library.entries@ == old(self).library.entries@.remove(i)
                &&& !final(self).library.has(key@)
                &&& tools::reported(
                    old(self).events@,
                    seq![
                        Event::LibraryChanged {
                            count: final(self).library.entries@.len() as usize,
                        },
                    ],
                    final(self).events@,
                    "library.delete: "@ + key@,
                )
            },
            *final(self) == (Project {
                library: final(self).library,
                events: final(self).events,
                ..*old(self)
            }),
    {
        let ghost start = self.events@;
        match self.library.delete(key) {
            None => ("No matching entry".to_owned(), None),
            Some(e) => {
                self.notify_library_changed();
                let ghost count = self.library.entries@.len() as usize;
                self.log(ActivityLevel::Info, "library.delete: ".to_owned().concat(key));
                assert(self.events@.drop_last() =~= start + seq![Event::LibraryChanged { count }]);
                ("Entry removed".to_owned(), Some(e))
            },
        }
    }
}

/// What comes of recording a file of a part: the part has it behind its
/// other files, or there is no such part.
pub open spec fn is_recording(
    a: Project,
    key: Seq<char>,
    kind: String,
    filename: String,
    mime: String,
    data: Seq<u8>,
    now: u64,
    b: Project,
    r: Result<(String, Attachment, StoredFile), ToolError>,
) -> bool {
    &&& r is Ok <==> a.library.has(key)
    &&& r matches Err(e) ==> e.code == INVALID_PARAMS && e.message@ == library::no_entry(key) && b
        == a
    &&& r matches Ok((reply, record, file)) ==> {
        let i = a.library.at(key);
        let e = a.library.entries@[i];
        let f = b.library.entries@[i];
        &&& reply@ == "Attached "@ + filename@
        &&& record.kind == kind && record.filename == filename && record.mime == mime
        &&& record.added_at == now && record.view_transform.plain() && record.calibration is None
        &&& file.name@ == record.id@ + "."@ + library::extension(mime@)
        &&& file.data@ == data
        &&& b.library.entries@ == a.library.entries@.update(i, f)
        &&& f.attachments@ == e.attachments@.push(record)
        &&& f == (LibraryEntry { attachments: f.attachments, ..e })
        &&& tools::reported(
            a.events@,
            seq![Event::LibraryChanged { count: b.library.entries@.len() as usize }],
            b.events@,
            "library.attach: "@ + key + " ← "@ + filename@ + " ("@ + text::dec(data.len())
                + " bytes)"@,
        )
    }
    &&& b == (Project { library: b.library, events: b.events, ..a })
}

} // verus!
