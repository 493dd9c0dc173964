//! Tools that look at a project.

use vstd::prelude::*;

use crate::board::{Board, Footprint};
use crate::drc;
use crate::drc::DrcOptions;
use crate::geometry::{Point, Rect};
use crate::ids;
use crate::project::Project;
use crate::schematic;
use crate::schematic::{Net, NetConnection, Pin, Schematic, Symbol, SymbolKind};
use crate::text;
use crate::text::{join, str_eq, uint_text};
use crate::tools_schematic;
use crate::tools_schematic::split_dot;
use crate::units::Length;
use crate::violation;
use crate::violation::{DrcReport, Finding, Violation, ViolationKind};
use crate::wiring;
use crate::wiring::find_symbol;

verus! {

/// The finding is about the pad `reference.pin` that is not connected.
pub open spec fn names_pad(f: Finding, reference: Seq<char>, pin: Seq<char>) -> bool {
    &&& f.kind == ViolationKind::UnconnectedPad
    &&& f.involved.len() > 0
    &&& tools_schematic::dot_from(f.involved[0], 0) < f.involved[0].len()
    &&& tools_schematic::before_dot(f.involved[0]) == reference
    &&& tools_schematic::behind_dot(f.involved[0]) == pin
}

/// Some finding is about that pad.
pub open spec fn is_loose(fs: Seq<Finding>, reference: Seq<char>, pin: Seq<char>) -> bool {
    exists|i: int| 0 <= i < fs.len() && names_pad(#[trigger] fs[i], reference, pin)
}

fn pad_is_loose(v: &Vec<Violation>, reference: &str, pin: &str) -> (r: bool)
    ensures
        r == is_loose(violation::findings(v@), reference@, pin@),
{
    let ghost fs = violation::findings(v@);
    assert(fs.len() == v@.len());
    let mut i: usize = 0;
    while i < v.len()
        invariant
            i <= v@.len(),
            fs == violation::findings(v@),
            fs.len() == v@.len(),
            forall|k: int| 0 <= k < i ==> !names_pad(#[trigger] fs[k], reference@, pin@),
        decreases v@.len() - i,
    {
        assert(fs[i as int] == v@[i as int].finding());
        assert(text::views(v@[i as int].involved@).len() == v@[i as int].involved@.len());
        if v[i].kind == ViolationKind::UnconnectedPad && v[i].involved.len() > 0 {
            assert(fs[i as int].involved[0] == v@[i as int].involved@[0]@);
            if let Some((a, b)) = split_dot(v[i].involved[0].as_str()) {
                if str_eq(a.as_str(), reference) && str_eq(b.as_str(), pin) {
                    assert(names_pad(fs[i as int], reference@, pin@));
                    return true;
                }
            }
        }
        i += 1;
    }
    false
}

/// The name of the first pin from `i` on with that number; empty where
/// there is none.
pub open spec fn pin_name(pins: Seq<Pin>, number: Seq<char>, i: int) -> Seq<char>
    decreases pins.len() - i,
{
    if i < 0 || i >= pins.len() {
        Seq::empty()
    } else if pins[i].number == number {
        pins[i].name
    } else {
        pin_name(pins, number, i + 1)
    }
}

fn find_pin_name(kind: &SymbolKind, number: &str) -> (r: String)
    ensures
        r@ == pin_name(kind.pinout(), number@, 0),
{
    let pins = kind.pins();
    let ghost p = kind.pinout();
    assert(p.len() == pins@.len());
    let mut i: usize = 0;
    while i < pins.len()
        invariant
            i <= pins@.len(),
            p == kind.pinout(),
            p == schematic::pin_views(pins@),
            pin_name(p, number@, 0) == pin_name(p, number@, i as int),
        decreases pins@.len() - i,
    {
        assert(p[i as int] == pins@[i as int].pin());
        if str_eq(pins[i].number.as_str(), number) {
            return pins[i].name.clone();
        }
        i += 1;
    }
    let r = String::new();
    assert(r@ =~= Seq::empty());
    r
}

/// How a pad of a net is.
#[derive(Debug)]
pub struct PadStatus {
    /// `reference.pin`.
    pub address: String,
    pub pin_name: String,
    pub connected: bool,
}

/// How a pad of a net is, by value.
#[verifier::ext_equal]
pub ghost struct PadState {
    pub address: Seq<char>,
    pub pin_name: Seq<char>,
    pub connected: bool,
}

impl PadStatus {
    pub open spec fn state(self) -> PadState {
        PadState {
            address: self.address@,
            pin_name: self.pin_name@,
            connected: self.connected,
        }
    }
}

pub open spec fn states(v: Seq<PadStatus>) -> Seq<PadState> {
    Seq::new(v.len(), |i: int| v[i].state())
}

/// How the pad is that a connection leads to.
pub open spec fn state_of(sym: Symbol, pin: Seq<char>, fs: Seq<Finding>) -> PadState {
    PadState {
        address: sym.reference@ + "."@ + pin,
        pin_name: pin_name(sym.kind.pinout(), pin, 0),
        connected: !is_loose(fs, sym.reference@, pin),
    }
}

/// How the pads are that the first `n` connections lead to.
pub open spec fn pad_states(
    symbols: Seq<Symbol>,
    cs: Seq<NetConnection>,
    fs: Seq<Finding>,
    n: int,
) -> Seq<PadState>
    decreases n,
{
    if n <= 0 {
        Seq::empty()
    } else {
        let before = pad_states(symbols, cs, fs, n - 1);
        let k = wiring::symbol_from(symbols, cs[n - 1].symbol_id, 0);
        if k < symbols.len() {
            before.push(state_of(symbols[k], cs[n - 1].pin_number@, fs))
        } else {
            before
        }
    }
}

/// The addresses of the first `n` pads that are not connected.
pub open spec fn loose_pads(ps: Seq<PadState>, n: int) -> Seq<Seq<char>>
    decreases n,
{
    if n <= 0 {
        Seq::empty()
    } else if ps[n - 1].connected {
        loose_pads(ps, n - 1)
    } else {
        loose_pads(ps, n - 1).push(ps[n - 1].address)
    }
}

/// How a net is.
#[derive(Debug)]
pub struct NetStatus {
    pub net: String,
    pub pad_count: usize,
    pub connected_count: usize,
    /// Whether any trace or via belongs to it.
    pub has_copper: bool,
    pub pads: Vec<PadStatus>,
    /// The addresses of the pads that are not connected.
    pub unconnected_pads: Vec<String>,
}

/// Some trace or via belongs to the net.
pub open spec fn has_copper(b: Board, net: Seq<char>) -> bool {
    ||| exists|i: int| 0 <= i < b.traces@.len() && (#[trigger] b.traces@[i]).net@ == net
    ||| exists|i: int| 0 <= i < b.vias@.len() && (#[trigger] b.vias@[i]).net@ == net
}

fn net_has_copper(b: &Board, net: &str) -> (r: bool)
    ensures
        r == has_copper(*b, net@),
{
    let mut i: usize = 0;
    while i < b.traces.len()
        invariant
            i <= b.traces@.len(),
            forall|k: int| 0 <= k < i ==> (#[trigger] b.traces@[k]).net@ != net@,
        decreases b.traces@.len() - i,
    {
        if str_eq(b.traces[i].net.as_str(), net) {
            return true;
        }
        i += 1;
    }
    let mut i: usize = 0;
    while i < b.vias.len()
        invariant
            i <= b.vias@.len(),
            forall|k: int| 0 <= k < i ==> (#[trigger] b.vias@[k]).net@ != net@,
        decreases b.vias@.len() - i,
    {
        if str_eq(b.vias[i].net.as_str(), net) {
            return true;
        }
        i += 1;
    }
    false
}

/// The status is that of the net under that name.
pub open spec fn is_status(
    st: NetStatus,
    name: String,
    net: Net,
    b: Board,
    symbols: Seq<Symbol>,
    fs: Seq<Finding>,
) -> bool {
    let ps = pad_states(symbols, net.connections@, fs, net.connections@.len() as int);
    let loose = loose_pads(ps, ps.len() as int);
    &&& st.net == name
    &&& st.pad_count == net.connections@.len()
    &&& st.has_copper == has_copper(b, name@)
    &&& states(st.pads@) == ps
    &&& text::views(st.unconnected_pads@) == loose
    &&& st.connected_count == ps.len() - loose.len()
}

fn net_status(b: &Board, s: &Schematic, name: &String, net: &Net, found: &Vec<Violation>) -> (r: NetStatus)
    ensures
        is_status(r, *name, *net, *b, s.symbols@, violation::findings(found@)),
{
    let ghost fs = violation::findings(found@);
    let ghost cs = net.connections@;
    let ghost symbols = s.symbols@;
    let mut pads: Vec<PadStatus> = Vec::new();
    let mut loose: Vec<String> = Vec::new();
    let mut connected: usize = 0;
    let mut i: usize = 0;
    assert(states(pads@) =~= Seq::empty());
    assert(text::views(loose@) =~= Seq::empty());
    while i < net.connections.len()
        invariant
            i <= cs.len(),
            cs == net.connections@,
            symbols == s.symbols@,
            fs == violation::findings(found@),
            states(pads@) == pad_states(symbols, cs, fs, i as int),
            text::views(loose@) == loose_pads(states(pads@), pads@.len() as int),
            connected <= i,
            connected == pads@.len() - loose@.len(),
        decreases cs.len() - i,
    {
        let c = &net.connections[i];
        let k: usize = find_symbol(&s.symbols, c.symbol_id);
        if k < s.symbols.len() {
            let sym = &s.symbols[k];
            let pin = c.pin_number.as_str();
            let address = sym.reference.clone().concat(".").concat(pin);
            let is_connected = !pad_is_loose(found, sym.reference.as_str(), pin);
            let ghost before = states(pads@);
            let ghost names = loose@;
            if is_connected {
                connected += 1;
            } else {
                loose.push(address.clone());
                assert(text::views(loose@) =~= text::views(names).push(address@));
            }
            let st = PadStatus {
                address,
                pin_name: find_pin_name(&sym.kind, pin),
                connected: is_connected,
            };
            pads.push(st);
            assert(states(pads@) =~= before.push(st.state()));
            proof {
                loose_prefix(before, states(pads@), before.len() as int);
            }
        }
        i += 1;
    }
    assert(states(pads@).len() == pads@.len());
    assert(text::views(loose@).len() == loose@.len());
    NetStatus {
        net: name.clone(),
        pad_count: net.connections.len(),
        connected_count: connected,
        has_copper: net_has_copper(b, name.as_str()),
        pads,
        unconnected_pads: loose,
    }
}

proof fn loose_prefix(a: Seq<PadState>, b: Seq<PadState>, n: int)
    requires
        0 <= n <= a.len() <= b.len(),
        forall|i: int| 0 <= i < a.len() ==> #[trigger] a[i] == b[i],
    ensures
        loose_pads(a, n) == loose_pads(b, n),
    decreases n,
{
    if n > 0 {
        loose_prefix(a, b, n - 1);
        assert(a[n - 1] == b[n - 1]);
    }
}

/// The statuses are those of the nets, in their order.
pub open spec fn are_statuses(v: Seq<NetStatus>, b: Board, s: Schematic, fs: Seq<Finding>) -> bool {
    &&& v.len() == s.nets.entries@.len()
    &&& forall|i: int|
        0 <= i < v.len() ==> is_status(
            #[trigger] v[i],
            s.nets.entries@[i].0,
            s.nets.entries@[i].1,
            b,
            s.symbols@,
            fs,
        )
}

/// How the nets are, by the findings of the design rules.
pub fn collect_net_status(b: &Board, s: &Schematic, found: &Vec<Violation>) -> (r: Vec<NetStatus>)
    ensures
        are_statuses(r@, *b, *s, violation::findings(found@)),
{
    let ghost fs = violation::findings(found@);
    let mut out: Vec<NetStatus> = Vec::new();
    let mut i: usize = 0;
    while i < s.nets.entries.len()
        invariant
            i <= s.nets.entries@.len(),
            fs == violation::findings(found@),
            out@.len() == i,
            forall|k: int|
                0 <= k < i ==> is_status(
                    #[trigger] out@[k],
                    s.nets.entries@[k].0,
                    s.nets.entries@[k].1,
                    *b,
                    s.symbols@,
                    fs,
                ),
        decreases s.nets.entries@.len() - i,
    {
        let st = net_status(b, s, &s.nets.entries[i].0, &s.nets.entries[i].1, found);
        out.push(st);
        i += 1;
    }
    out
}

/// The names of those of the first `n` nets that have pads that are not
/// connected.
pub open spec fn open_nets(v: Seq<NetStatus>, n: int) -> Seq<Seq<char>>
    decreases n,
{
    if n <= 0 {
        Seq::empty()
    } else if v[n - 1].unconnected_pads@.len() > 0 {
        open_nets(v, n - 1).push(v[n - 1].net@)
    } else {
        open_nets(v, n - 1)
    }
}

fn open_net_names(v: &Vec<NetStatus>) -> (r: Vec<String>)
    ensures
        text::views(r@) == open_nets(v@, v@.len() as int),
        r@.len() <= v@.len(),
{
    let mut out: Vec<String> = Vec::new();
    let mut i: usize = 0;
    assert(text::views(out@) =~= Seq::empty());
    while i < v.len()
        invariant
            i <= v@.len(),
            out@.len() <= i,
            text::views(out@) == open_nets(v@, i as int),
        decreases v@.len() - i,
    {
        let ghost before = out@;
        if v[i].unconnected_pads.len() > 0 {
            out.push(v[i].net.clone());
            assert(text::views(out@) =~= text::views(before).push(v@[i as int].net@));
        }
        i += 1;
    }
    out
}

/// A pad as it lies on the board.
#[derive(Debug)]
pub struct PadView {
    pub number: String,
    pub net: Option<String>,
    pub center: Point,
    pub size: (Length, Length),
}

/// A footprint as it lies on the board.
#[derive(Debug)]
pub struct FootprintView {
    pub id: String,
    pub reference: String,
    /// The rectangle around the pads, turned as the footprint is.
    pub bbox: Option<Rect>,
    pub pads: Vec<PadView>,
}

/// The view is that of the footprint.
pub open spec fn is_view(v: FootprintView, fp: Footprint) -> bool {
    &&& v.id@ == ids::hyphenated(fp.id.0 as nat)
    &&& v.reference == fp.reference
    &&& v.bbox == fp.pad_bounds()
    &&& v.pads@.len() == fp.pads@.len()
    &&& forall|j: int|
        0 <= j < fp.pads@.len() ==> {
            let p = #[trigger] v.pads@[j];
            &&& p.number == fp.pads@[j].number
            &&& p.net == fp.pads@[j].net
            &&& p.center == fp.center_of(fp.pads@[j])
            &&& p.size == fp.size_of(fp.pads@[j])
        }
}

fn view_footprint(fp: &Footprint) -> (r: FootprintView)
    requires
        fp.in_range(),
    ensures
        is_view(r, *fp),
{
    let mut pads: Vec<PadView> = Vec::new();
    let mut j: usize = 0;
    while j < fp.pads.len()
        invariant
            j <= fp.pads@.len(),
            fp.in_range(),
            pads@.len() == j,
            forall|k: int|
                0 <= k < j ==> {
                    let p = #[trigger] pads@[k];
                    &&& p.number == fp.pads@[k].number
                    &&& p.net == fp.pads@[k].net
                    &&& p.center == fp.center_of(fp.pads@[k])
                    &&& p.size == fp.size_of(fp.pads@[k])
                },
        decreases fp.pads@.len() - j,
    {
        let pad = &fp.pads[j];
        let net = match &pad.net {
            Some(n) => Some(n.clone()),
            None => None,
        };
        pads.push(
            PadView {
                number: pad.number.clone(),
                net,
                center: fp.pad_world_center(pad),
                size: fp.pad_world_size(pad),
            },
        );
        j += 1;
    }
    FootprintView {
        id: fp.id.text(),
        reference: fp.reference.clone(),
        bbox: fp.bounds(),
        pads,
    }
}

/// The footprints as they lie on the board.
pub fn snapshot(b: &Board) -> (r: Vec<FootprintView>)
    requires
        b.footprints_in_range(),
    ensures
        r@.len() == b.footprints@.len(),
        forall|i: int| 0 <= i < r@.len() ==> is_view(#[trigger] r@[i], b.footprints@[i]),
{
    let mut out: Vec<FootprintView> = Vec::new();
    let mut i: usize = 0;
    while i < b.footprints.len()
        invariant
            i <= b.footprints@.len(),
            b.footprints_in_range(),
            out@.len() == i,
            forall|k: int| 0 <= k < i ==> is_view(#[trigger] out@[k], b.footprints@[k]),
        decreases b.footprints@.len() - i,
    {
        out.push(view_footprint(&b.footprints[i]));
        i += 1;
    }
    out
}

impl Project {
    /// How the nets are.
    pub fn tool_net_status(&self) -> (r: (String, Vec<NetStatus>))
        requires
            self.board.in_range(),
            drc::keepouts_in_range(self.board),
        ensures
            exists|o: DrcOptions| #[trigger]
                o.is_usual() && are_statuses(
                    r.1@,
                    self.board,
                    self.schematic,
                    drc::findings_of(self.board, o),
                ),
            ({
                let n = r.1@.len();
                let open = open_nets(r.1@, n as int);
                r.0@ == text::dec(n) + " nets total, "@ + text::dec(open.len())
                    + " with unconnected pads ("@ + (if open.len() == 0 {
                    "all clean"@
                } else {
                    text::joined(open, ", "@)
                }) + ")"@
            }),
    {
        let o = DrcOptions::default();
        let report = drc::run(&self.board, &o);
        let nets = collect_net_status(&self.board, &self.schematic, &report.violations);
        assert(o.is_usual() && are_statuses(
            nets@,
            self.board,
            self.schematic,
            drc::findings_of(self.board, o),
        ));
        let open = open_net_names(&nets);
        assert(text::views(open@).len() == open@.len());
        let names = if open.len() == 0 {
            "all clean".to_owned()
        } else {
            join(&open, ", ")
        };
        (
            uint_text(nets.len() as u128).concat(" nets total, ").concat(
                uint_text(open.len() as u128).as_str(),
            ).concat(" with unconnected pads (").concat(names.as_str()).concat(")"),
            nets,
        )
    }

    /// Where the project stands, in one line, with the status of the nets
    /// and the outcome of the design rules.
    pub fn tool_view_summary(&self) -> (r: (String, Vec<NetStatus>, DrcReport))
        requires
            self.board.in_range(),
            drc::keepouts_in_range(self.board),
        ensures
            exists|o: DrcOptions| #[trigger]
                o.is_usual() && r.2.found() == drc::findings_of(self.board, o) && are_statuses(
                    r.1@,
                    self.board,
                    self.schematic,
                    drc::findings_of(self.board, o),
                ),
            r.2.wf(),
            r.0@ == text::dec(self.schematic.symbols@.len()) + " symbols, "@ + text::dec(
                r.1@.len(),
            ) + " nets ("@ + text::dec(
                (r.1@.len() - open_nets(r.1@, r.1@.len() as int).len()) as nat,
            ) + " fully connected), "@ + text::dec(self.board.footprints@.len()) + " placed, "@
                + text::dec(self.palette@.len()) + " in palette; DRC "@ + text::dec(
                r.2.error_count as nat,
            ) + "E "@ + text::dec(r.2.warning_count as nat) + "W"@,
    {
        let o = DrcOptions::default();
        let report = drc::run(&self.board, &o);
        let nets = collect_net_status(&self.board, &self.schematic, &report.violations);
        assert(o.is_usual() && report.found() == drc::findings_of(self.board, o) && are_statuses(
            nets@,
            self.board,
            self.schematic,
            drc::findings_of(self.board, o),
        ));
        let open = open_net_names(&nets);
        assert(text::views(open@).len() == open@.len());
        let line = uint_text(self.schematic.symbols.len() as u128).concat(" symbols, ").concat(
            uint_text(nets.len() as u128).as_str(),
        ).concat(" nets (").concat(uint_text((nets.len() - open.len()) as u128).as_str()).concat(
            " fully connected), ",
        ).concat(uint_text(self.board.footprints.len() as u128).as_str()).concat(
            " placed, ",
        ).concat(uint_text(self.palette.len() as u128).as_str()).concat(" in palette; DRC ").concat(
            uint_text(report.error_count as u128).as_str(),
        ).concat("E ").concat(uint_text(report.warning_count as u128).as_str()).concat("W");
        (line, nets, report)
    }
}

} // verus!
