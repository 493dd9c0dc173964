//! Electrical rule check: is the netlist coherent?

use vstd::prelude::*;

use crate::board;
use crate::board::{Board, Footprint, Id, Pad, has_net};
use crate::csv;
use crate::csv::sort_strings;
use crate::drc;
use crate::drc::{one, two};
use crate::geometry::Point;
use crate::list;
use crate::rotation::COORD_MAX;
use crate::schematic;
use crate::schematic::{Net, Pin, PinRole, Schematic, Symbol, SymbolKind};
use crate::text;
use crate::text::{begins_with, ends_with, fixed_text, join, str_eq, trim_start, uint_text, upper_chars};
use crate::units::Length;
use crate::violation;
use crate::violation::Severity;

verus! {

#[derive(Debug, Clone, Copy)]
pub struct ErcOptions {
    /// Also apply the rules of thumb.
    pub heuristics: bool,
    /// How far a decoupling capacitor may be from its chip.
    pub decoupling_max_dist: Length,
}

/// The options of a check that says nothing about them.
pub open spec fn usual_options() -> ErcOptions {
    ErcOptions { heuristics: true, decoupling_max_dist: Length(5_000_000) }
}

impl Default for ErcOptions {
    fn default() -> (r: Self)
        ensures
            r == usual_options(),
    {
        ErcOptions { heuristics: true, decoupling_max_dist: Length(5_000_000) }
    }
}

#[derive(Debug, Clone, Copy, PartialEq, Eq, Structural)]
pub enum ErcKind {
    /// A pin is on no net.
    FloatingPin,
    /// A net has a single endpoint.
    FloatingNet,
    /// A pin is listed more than once.
    DuplicatePin,
    /// A net has no endpoint.
    EmptyNet,
    /// A pad is on a net that the schematic does not declare.
    PhantomNet,
    /// A symbol has no pin on any net.
    OrphanSymbol,
    /// Several outputs drive one net.
    MultipleDrivers,
    /// A net has power sinks but no source.
    UnpoweredPowerNet,
    /// An input is on a net without a driver.
    UnconnectedInput,
    /// No capacitor is near the power pin of a chip.
    MissingDecouplingCap,
    /// An I2C line has no resistor.
    MissingPullup,
}

#[derive(Debug)]
pub struct Violation {
    pub kind: ErcKind,
    pub severity: Severity,
    pub message: String,
    pub involved: Vec<String>,
}

/// A violation by value.
#[verifier::ext_equal]
pub ghost struct Note {
    pub kind: ErcKind,
    pub severity: Severity,
    pub message: Seq<char>,
    pub involved: Seq<Seq<char>>,
}

impl Violation {
    pub open spec fn note(self) -> Note {
        Note {
            kind: self.kind,
            severity: self.severity,
            message: self.message@,
            involved: text::views(self.involved@),
        }
    }
}

/// The violations by value.
pub open spec fn notes(v: Seq<Violation>) -> Seq<Note> {
    Seq::new(v.len(), |i: int| v[i].note())
}

/// The severities of the notes.
pub open spec fn severities(n: Seq<Note>) -> Seq<Severity> {
    Seq::new(n.len(), |i: int| n[i].severity)
}

/// What an optional violation contributes to a list.
pub open spec fn given(v: Option<Violation>) -> Seq<Note> {
    match v {
        Some(x) => seq![x.note()],
        None => Seq::empty(),
    }
}

/// `n` where `cond` holds, else nothing.
pub open spec fn only_if(cond: bool, n: Note) -> Seq<Note> {
    if cond {
        seq![n]
    } else {
        Seq::empty()
    }
}

#[derive(Debug)]
pub struct ErcReport {
    pub violations: Vec<Violation>,
    pub error_count: usize,
    pub warning_count: usize,
}

impl ErcReport {
    /// The violations by value.
    pub open spec fn found(self) -> Seq<Note> {
        notes(self.violations@)
    }

    /// The counts are those of the violations.
    pub open spec fn wf(self) -> bool {
        &&& self.error_count == violation::tally(severities(self.found()), Severity::Error)
        &&& self.warning_count == violation::tally(severities(self.found()), Severity::Warning)
    }

    pub fn new() -> (r: Self)
        ensures
            r.wf(),
            r.found() == Seq::<Note>::empty(),
    {
        let r = ErcReport { violations: Vec::new(), error_count: 0, warning_count: 0 };
        assert(r.found() =~= Seq::<Note>::empty());
        r
    }

    pub fn push(&mut self, v: Violation)
        requires
            old(self).wf(),
        ensures
            final(self).wf(),
            final(self).found() == old(self).found().push(v.note()),
    {
        let severity = v.severity;
        let ghost f = self.found();
        let ghost more = v.note();
        proof {
            violation::tallies_add_up(severities(f));
        }
        self.violations.push(v);
        let total: usize = self.violations.len();
        proof {
            assert(self.found() =~= f.push(more));
            assert(severities(f.push(more)).drop_last() =~= severities(f));
            assert(total == f.len() + 1);
        }
        match severity {
            Severity::Error => {
                self.error_count += 1;
            },
            Severity::Warning => {
                self.warning_count += 1;
            },
        }
    }

    /// Pushes the violation if there is one.
    pub fn take(&mut self, v: Option<Violation>)
        requires
            old(self).wf(),
        ensures
            final(self).wf(),
            final(self).found() == old(self).found() + given(v),
    {
        let ghost f = self.found();
        let ghost more = given(v);
        match v {
            Some(x) => {
                let ghost n = x.note();
                self.push(x);
                assert(f + more =~= f.push(n));
            },
            None => {
                assert(f + more =~= f);
            },
        }
    }
}

/// An error by value.
pub open spec fn error(kind: ErcKind, message: Seq<char>, involved: Seq<Seq<char>>) -> Note {
    Note { kind, severity: Severity::Error, message, involved }
}

/// A warning by value.
pub open spec fn warning(kind: ErcKind, message: Seq<char>, involved: Seq<Seq<char>>) -> Note {
    Note { kind, severity: Severity::Warning, message, involved }
}

fn raise(kind: ErcKind, severity: Severity, message: String, involved: Vec<String>) -> (r: Option<
    Violation,
>)
    ensures
        given(r) == seq![
            Note { kind, severity, message: message@, involved: text::views(involved@) },
        ],
{
    Some(Violation { kind, severity, message, involved })
}

/// One endpoint of a net: the name of the net, the symbol, the pin.
pub ghost struct Endpoint {
    pub net: Seq<char>,
    pub id: Id,
    pub pin: Seq<char>,
}

/// The endpoints of net `i`.
pub open spec fn net_endpoints(s: Schematic) -> spec_fn(int) -> Seq<Endpoint> {
    |i: int|
        {
            let e = s.nets.entries@[i];
            Seq::new(
                e.1.connections@.len(),
                |j: int|
                    Endpoint {
                        net: e.0@,
                        id: e.1.connections@[j].symbol_id,
                        pin: e.1.connections@[j].pin_number@,
                    },
            )
        }
}

/// The endpoints of all nets.
pub open spec fn endpoints(s: Schematic) -> Seq<Endpoint> {
    list::upto(net_endpoints(s), s.nets.entries@.len() as int)
}

/// An endpoint in the netlist.
struct End<'a> {
    net: &'a str,
    id: Id,
    pin: &'a str,
}

/// The endpoints by value.
spec fn end_views(v: Seq<End>) -> Seq<Endpoint> {
    Seq::new(v.len(), |i: int| Endpoint { net: v[i].net@, id: v[i].id, pin: v[i].pin@ })
}

fn collect_endpoints(s: &Schematic) -> (r: Vec<End<'_>>)
    ensures
        end_views(r@) == endpoints(*s),
{
    let ghost f = net_endpoints(*s);
    let mut out: Vec<End<'_>> = Vec::new();
    assert(end_views(out@) =~= list::upto(f, 0));
    let mut i: usize = 0;
    while i < s.nets.entries.len()
        invariant
            i <= s.nets.entries@.len(),
            f == net_endpoints(*s),
            end_views(out@) == list::upto(f, i as int),
        decreases s.nets.entries@.len() - i,
    {
        let name = s.nets.entries[i].0.as_str();
        let conns = &s.nets.entries[i].1.connections;
        let ghost head = end_views(out@);
        let ghost all = f(i as int);
        assert(head + all.take(0) =~= head);
        let mut j: usize = 0;
        while j < conns.len()
            invariant
                j <= conns@.len(),
                i < s.nets.entries@.len(),
                conns@ == s.nets.entries@[i as int].1.connections@,
                name@ == s.nets.entries@[i as int].0@,
                all == net_endpoints(*s)(i as int),
                end_views(out@) == head + all.take(j as int),
            decreases conns@.len() - j,
        {
            let ghost before = out@;
            out.push(End { net: name, id: conns[j].symbol_id, pin: conns[j].pin_number.as_str() });
            assert(end_views(out@) =~= end_views(before).push(all[j as int]));
            assert(head + all.take(j + 1) =~= (head + all.take(j as int)).push(all[j as int]));
            j += 1;
        }
        assert(all.take(conns@.len() as int) =~= all);
        assert(list::upto(f, i + 1) =~= head + all);
        i += 1;
    }
    out
}

/// The symbol with an id.
pub open spec fn symbol_of(v: Seq<Symbol>, id: Id, i: int) -> Option<Symbol>
    decreases v.len() - i,
{
    if i < 0 || i >= v.len() {
        None
    } else if v[i].id == id {
        Some(v[i])
    } else {
        symbol_of(v, id, i + 1)
    }
}

fn find_symbol(s: &Schematic, id: Id) -> (r: Option<&Symbol>)
    ensures
        match r {
            Some(x) => symbol_of(s.symbols@, id, 0) == Some(*x),
            None => symbol_of(s.symbols@, id, 0) is None,
        },
{
    let mut i: usize = 0;
    while i < s.symbols.len()
        invariant
            i <= s.symbols@.len(),
            symbol_of(s.symbols@, id, 0) == symbol_of(s.symbols@, id, i as int),
        decreases s.symbols@.len() - i,
    {
        if s.symbols[i].id == id {
            return Some(&s.symbols[i]);
        }
        i += 1;
    }
    None
}

/// How a pin is called: reference and number, or a question mark for an
/// unknown symbol.
pub open spec fn label(s: Schematic, id: Id, pin: Seq<char>) -> Seq<char> {
    match symbol_of(s.symbols@, id, 0) {
        Some(x) => x.reference@ + "."@ + pin,
        None => "?."@ + pin,
    }
}

fn pin_label(s: &Schematic, id: Id, pin: &str) -> (r: String)
    ensures
        r@ == label(*s, id, pin@),
{
    match find_symbol(s, id) {
        Some(x) => x.reference.clone().concat(".").concat(pin),
        None => "?.".to_owned().concat(pin),
    }
}

/// The two endpoints are one pin.
pub open spec fn same_pin(a: Endpoint, b: Endpoint) -> bool {
    a.id == b.id && a.pin == b.pin
}

/// The net of each endpoint at the pin of endpoint `i`.
pub open spec fn home(e: Seq<Endpoint>, i: int) -> spec_fn(int) -> Seq<Seq<char>> {
    |k: int|
        if same_pin(e[k], e[i]) {
            seq![e[k].net]
        } else {
            Seq::empty()
        }
}

/// The nets at the pin of endpoint `i`.
pub open spec fn homes(e: Seq<Endpoint>, i: int) -> Seq<Seq<char>> {
    list::upto(home(e, i), e.len() as int)
}

/// No endpoint before `i` is at its pin.
pub open spec fn leads_pin(e: Seq<Endpoint>, i: int) -> bool {
    forall|k: int| 0 <= k < i ==> !same_pin(#[trigger] e[k], e[i])
}

/// The list without repeated neighbours.
pub open spec fn deduped(s: Seq<Seq<char>>) -> Seq<Seq<char>>
    decreases s.len(),
{
    if s.len() == 0 {
        s
    } else if s.len() >= 2 && s[s.len() - 2] == s.last() {
        deduped(s.drop_last())
    } else {
        deduped(s.drop_last()).push(s.last())
    }
}

/// The finding about each pin that is listed more than once.
pub open spec fn duplicates(s: Schematic) -> spec_fn(int) -> Seq<Note> {
    |i: int|
        {
            let e = endpoints(s);
            let nets = deduped(csv::sorted(homes(e, i)));
            let name = label(s, e[i].id, e[i].pin);
            only_if(
                leads_pin(e, i) && homes(e, i).len() >= 2,
                error(
                    ErcKind::DuplicatePin,
                    name + " appears in "@ + text::dec(nets.len()) + " nets ("@ + text::joined(
                        nets,
                        ", "@,
                    ) + "); the router will see ambiguous connectivity"@,
                    seq![name] + nets,
                ),
            )
        }
}

fn dedup(v: &Vec<String>) -> (r: Vec<String>)
    ensures
        text::views(r@) == deduped(text::views(v@)),
{
    let ghost s = text::views(v@);
    let mut out: Vec<String> = Vec::new();
    let mut i: usize = 0;
    assert(text::views(out@) =~= deduped(s.take(0)));
    while i < v.len()
        invariant
            i <= v@.len(),
            s == text::views(v@),
            text::views(out@) == deduped(s.take(i as int)),
        decreases v@.len() - i,
    {
        let repeated = i > 0 && str_eq(v[i - 1].as_str(), v[i].as_str());
        let ghost before = out@;
        let ghost t = s.take(i + 1);
        assert(t.drop_last() =~= s.take(i as int));
        assert(i > 0 ==> t[t.len() - 2] == v@[i - 1]@);
        if !repeated {
            out.push(v[i].clone());
            assert(text::views(out@) =~= text::views(before).push(v@[i as int]@));
        }
        i += 1;
    }
    assert(s.take(v@.len() as int) =~= s);
    out
}

fn is_pin_lead(v: &Vec<End>, i: usize) -> (r: bool)
    requires
        i < v@.len(),
    ensures
        r == leads_pin(end_views(v@), i as int),
{
    let ghost e = end_views(v@);
    let mut k: usize = 0;
    while k < i
        invariant
            k <= i < v@.len(),
            e == end_views(v@),
            forall|m: int| 0 <= m < k ==> !same_pin(#[trigger] e[m], e[i as int]),
        decreases i - k,
    {
        if v[k].id == v[i].id && str_eq(v[k].pin, v[i].pin) {
            assert(same_pin(e[k as int], e[i as int]));
            return false;
        }
        k += 1;
    }
    true
}

fn duplicate_at(s: &Schematic, v: &Vec<End>, i: usize) -> (r: Option<Violation>)
    requires
        end_views(v@) == endpoints(*s),
        i < v@.len(),
    ensures
        given(r) == duplicates(*s)(i as int),
{
    let ghost e = end_views(v@);
    if !is_pin_lead(v, i) {
        return None;
    }
    let ghost f = home(e, i as int);
    let mut nets: Vec<String> = Vec::new();
    let mut k: usize = 0;
    assert(text::views(nets@) =~= list::upto(f, 0));
    while k < v.len()
        invariant
            i < v@.len(),
            k <= v@.len(),
            e == end_views(v@),
            f == home(e, i as int),
            text::views(nets@) == list::upto(f, k as int),
        decreases v@.len() - k,
    {
        let ghost before = nets@;
        if v[k].id == v[i].id && str_eq(v[k].pin, v[i].pin) {
            nets.push(v[k].net.to_owned());
            assert(text::views(nets@) =~= text::views(before).push(e[k as int].net));
        }
        assert(text::views(nets@) =~= list::upto(f, k + 1));
        k += 1;
    }
    assert(text::views(nets@).len() == nets@.len());
    if nets.len() < 2 {
        return None;
    }
    let sorted = sort_strings(&nets);
    let names = dedup(&sorted);
    let name = pin_label(s, v[i].id, v[i].pin);
    let message = name.clone().concat(" appears in ").concat(
        uint_text(names.len() as u128).as_str(),
    ).concat(" nets (").concat(join(&names, ", ").as_str()).concat(
        "); the router will see ambiguous connectivity",
    );
    let ghost rest = text::views(names@);
    assert(rest.len() == names@.len());
    let mut involved: Vec<String> = Vec::new();
    involved.push(name);
    let mut names = names;
    let ghost tail = names@;
    let ghost first = involved@;
    involved.append(&mut names);
    assert(text::views(involved@) =~= seq![name@] + rest);
    raise(ErcKind::DuplicatePin, Severity::Error, message, involved)
}

fn check_duplicates(s: &Schematic, v: &Vec<End>, report: &mut ErcReport)
    requires
        end_views(v@) == endpoints(*s),
        old(report).wf(),
    ensures
        final(report).wf(),
        final(report).found() == old(report).found() + list::upto(
            duplicates(*s),
            endpoints(*s).len() as int,
        ),
{
    let ghost base = report.found();
    let ghost f = duplicates(*s);
    proof {
        list::upto_next(base, f, 0);
    }
    let mut i: usize = 0;
    while i < v.len()
        invariant
            i <= endpoints(*s).len() as int,
            end_views(v@).len() == v@.len(),
            end_views(v@) == endpoints(*s),
            f == duplicates(*s),
            report.wf(),
            report.found() == base + list::upto(f, i as int),
        decreases endpoints(*s).len() as int - i,
    {
        let v = duplicate_at(s, v, i);
        report.take(v);
        proof {
            list::upto_next(base, f, i as int);
        }
        i += 1;
    }
}

/// Some net reaches the symbol.
pub open spec fn covered(s: Schematic, id: Id) -> bool {
    exists|i: int| 0 <= i < endpoints(s).len() && (#[trigger] endpoints(s)[i]).id == id
}

fn is_covered(Ghost(s): Ghost<Schematic>, v: &Vec<End>, id: Id) -> (r: bool)
    requires
        end_views(v@) == endpoints(s),
    ensures
        r == covered(s, id),
{
    let ghost e = endpoints(s);
    assert(e.len() == v@.len());
    let mut i: usize = 0;
    while i < v.len()
        invariant
            i <= v@.len(),
            e == end_views(v@),
            e == endpoints(s),
            forall|k: int| 0 <= k < i ==> (#[trigger] e[k]).id != id,
        decreases v@.len() - i,
    {
        if v[i].id == id {
            assert(e[i as int].id == id);
            return true;
        }
        i += 1;
    }
    false
}

/// The finding about each pin of a symbol that is on no net.
pub open spec fn floating_pin(s: Schematic, sym: Symbol) -> spec_fn(int) -> Seq<Note> {
    |j: int|
        {
            let pin = sym.kind.pinout()[j].number;
            let name = sym.reference@ + "."@ + pin;
            only_if(
                s.pin_net(sym.id, pin, 0) is None,
                warning(
                    ErcKind::FloatingPin,
                    name + " is not connected to any net"@,
                    seq![name],
                ),
            )
        }
}

/// The findings about the pins of each symbol; a symbol that is on no net
/// at all is left to another rule.
pub open spec fn floating_pins(s: Schematic) -> spec_fn(int) -> Seq<Note> {
    |i: int|
        {
            let sym = s.symbols@[i];
            if covered(s, sym.id) {
                list::upto(floating_pin(s, sym), sym.kind.pinout().len() as int)
            } else {
                Seq::empty()
            }
        }
}

fn floating_pins_of(s: &Schematic, sym: &Symbol, report: &mut ErcReport)
    requires
        old(report).wf(),
    ensures
        final(report).wf(),
        final(report).found() == old(report).found() + list::upto(
            floating_pin(*s, *sym),
            sym.kind.pinout().len() as int,
        ),
{
    let ghost base = report.found();
    let ghost f = floating_pin(*s, *sym);
    proof {
        list::upto_next(base, f, 0);
    }
    let pins = sym.kind.pins();
    assert(schematic::pin_views(pins@).len() == pins@.len());
    let mut j: usize = 0;
    while j < pins.len()
        invariant
            j <= pins@.len(),
            schematic::pin_views(pins@) == sym.kind.pinout(),
            f == floating_pin(*s, *sym),
            report.wf(),
            report.found() == base + list::upto(f, j as int),
        decreases pins@.len() - j,
    {
        let number = pins[j].number.as_str();
        assert(sym.kind.pinout()[j as int] == pins@[j as int].pin());
        let v = if s.net_for_pin(sym.id, number).is_none() {
            let name = sym.reference.clone().concat(".").concat(number);
            let message = name.clone().concat(" is not connected to any net");
            raise(ErcKind::FloatingPin, Severity::Warning, message, one(name.as_str()))
        } else {
            None
        };
        report.take(v);
        proof {
            list::upto_next(base, f, j as int);
        }
        j += 1;
    }
}

fn check_floating(s: &Schematic, v: &Vec<End>, report: &mut ErcReport)
    requires
        end_views(v@) == endpoints(*s),
        old(report).wf(),
    ensures
        final(report).wf(),
        final(report).found() == old(report).found() + list::upto(
            floating_pins(*s),
            s.symbols@.len() as int,
        ),
{
    let ghost base = report.found();
    let ghost f = floating_pins(*s);
    proof {
        list::upto_next(base, f, 0);
    }
    let mut i: usize = 0;
    while i < s.symbols.len()
        invariant
            i <= s.symbols@.len() as int,
            end_views(v@) == endpoints(*s),
            f == floating_pins(*s),
            report.wf(),
            report.found() == base + list::upto(f, i as int),
        decreases s.symbols@.len() as int - i,
    {
        let sym = &s.symbols[i];
        if is_covered(Ghost(*s), v, sym.id) {
            floating_pins_of(s, sym, report);
        } else {
            assert(report.found() + f(i as int) =~= report.found());
        }
        proof {
            list::upto_next(base, f, i as int);
        }
        i += 1;
    }
}

/// All connections of the net are to one pin.
pub open spec fn single_pin(net: Net) -> bool {
    &&& net.connections@.len() > 0
    &&& forall|k: int|
        0 <= k < net.connections@.len() ==> schematic::is_pin(
            #[trigger] net.connections@[k],
            net.connections@[0].symbol_id,
            net.connections@[0].pin_number@,
        )
}

/// The finding about a net with no endpoint or a single one.
pub open spec fn thin_net(s: Schematic, net: Net) -> Seq<Note> {
    let name = label(s, net.connections@[0].symbol_id, net.connections@[0].pin_number@);
    if net.connections@.len() == 0 {
        seq![
            warning(
                ErcKind::EmptyNet,
                "net "@ + net.name@ + " has no connections"@,
                seq![net.name@],
            ),
        ]
    } else {
        only_if(
            single_pin(net),
            warning(
                ErcKind::FloatingNet,
                "net "@ + net.name@ + " only touches "@ + name
                    + " — needs at least 2 endpoints to conduct"@,
                seq![net.name@, name],
            ),
        )
    }
}

pub open spec fn thin_nets(s: Schematic) -> spec_fn(int) -> Seq<Note> {
    |i: int| thin_net(s, s.nets.entries@[i].1)
}

fn has_single_pin(net: &Net) -> (r: bool)
    requires
        net.connections@.len() > 0,
    ensures
        r == single_pin(*net),
{
    let first = &net.connections[0];
    let mut k: usize = 0;
    while k < net.connections.len()
        invariant
            k <= net.connections@.len(),
            net.connections@.len() > 0,
            *first == net.connections@[0],
            forall|m: int|
                0 <= m < k ==> schematic::is_pin(
                    #[trigger] net.connections@[m],
                    net.connections@[0].symbol_id,
                    net.connections@[0].pin_number@,
                ),
        decreases net.connections@.len() - k,
    {
        let c = &net.connections[k];
        if c.symbol_id != first.symbol_id || !str_eq(
            c.pin_number.as_str(),
            first.pin_number.as_str(),
        ) {
            return false;
        }
        k += 1;
    }
    true
}

fn thin_net_at(s: &Schematic, net: &Net) -> (r: Option<Violation>)
    ensures
        given(r) == thin_net(*s, *net),
{
    if net.connections.len() == 0 {
        return raise(
            ErcKind::EmptyNet,
            Severity::Warning,
            "net ".to_owned().concat(net.name.as_str()).concat(" has no connections"),
            one(net.name.as_str()),
        );
    }
    if !has_single_pin(net) {
        return None;
    }
    let first = &net.connections[0];
    let name = pin_label(s, first.symbol_id, first.pin_number.as_str());
    raise(
        ErcKind::FloatingNet,
        Severity::Warning,
        "net ".to_owned().concat(net.name.as_str()).concat(" only touches ").concat(
            name.as_str(),
        ).concat(" — needs at least 2 endpoints to conduct"),
        two(net.name.as_str(), name.as_str()),
    )
}

fn check_thin_nets(s: &Schematic, report: &mut ErcReport)
    requires
        old(report).wf(),
    ensures
        final(report).wf(),
        final(report).found() == old(report).found() + list::upto(
            thin_nets(*s),
            s.nets.entries@.len() as int,
        ),
{
    let ghost base = report.found();
    let ghost f = thin_nets(*s);
    proof {
        list::upto_next(base, f, 0);
    }
    let mut i: usize = 0;
    while i < s.nets.entries.len()
        invariant
            i <= s.nets.entries@.len() as int,
            f == thin_nets(*s),
            report.wf(),
            report.found() == base + list::upto(f, i as int),
        decreases s.nets.entries@.len() as int - i,
    {
        let v = thin_net_at(s, &s.nets.entries[i].1);
        report.take(v);
        proof {
            list::upto_next(base, f, i as int);
        }
        i += 1;
    }
}

/// The finding about each symbol that has pins but none on a net.
pub open spec fn orphans(s: Schematic) -> spec_fn(int) -> Seq<Note> {
    |i: int|
        {
            let sym = s.symbols@[i];
            only_if(
                !covered(s, sym.id) && sym.kind.pinout().len() > 0,
                warning(
                    ErcKind::OrphanSymbol,
                    "symbol "@ + sym.reference@ + " ("@ + sym.kind.short_name()
                        + ") has no pins on any net"@,
                    seq![sym.reference@],
                ),
            )
        }
}

fn orphan_at(s: &Schematic, v: &Vec<End>, i: usize) -> (r: Option<Violation>)
    requires
        end_views(v@) == endpoints(*s),
        i < s.symbols@.len(),
    ensures
        given(r) == orphans(*s)(i as int),
{
    let sym = &s.symbols[i];
    let pins = sym.kind.pins();
    assert(schematic::pin_views(pins@).len() == pins@.len());
    if is_covered(Ghost(*s), v, sym.id) || pins.len() == 0 {
        return None;
    }
    raise(
        ErcKind::OrphanSymbol,
        Severity::Warning,
        "symbol ".to_owned().concat(sym.reference.as_str()).concat(" (").concat(
            sym.kind.label(),
        ).concat(") has no pins on any net"),
        one(sym.reference.as_str()),
    )
}

fn check_orphans(s: &Schematic, v: &Vec<End>, report: &mut ErcReport)
    requires
        end_views(v@) == endpoints(*s),
        old(report).wf(),
    ensures
        final(report).wf(),
        final(report).found() == old(report).found() + list::upto(
            orphans(*s),
            s.symbols@.len() as int,
        ),
{
    let ghost base = report.found();
    let ghost f = orphans(*s);
    proof {
        list::upto_next(base, f, 0);
    }
    let mut i: usize = 0;
    while i < s.symbols.len()
        invariant
            i <= s.symbols@.len() as int,
            end_views(v@) == endpoints(*s),
            f == orphans(*s),
            report.wf(),
            report.found() == base + list::upto(f, i as int),
        decreases s.symbols@.len() as int - i,
    {
        let v = orphan_at(s, v, i);
        report.take(v);
        proof {
            list::upto_next(base, f, i as int);
        }
        i += 1;
    }
}

/// A pad before `i` has its label and its net.
pub open spec fn repeats_pad(p: Seq<(Footprint, Pad)>, i: int) -> bool {
    exists|k: int|
        0 <= k < i && drc::net_of(#[trigger] p[k]) == drc::net_of(p[i]) && drc::label_of(p[k])
            == drc::label_of(p[i])
}

/// The finding about each pad on a net that neither the schematic nor a
/// pour knows.
pub open spec fn phantoms(b: Board, s: Schematic) -> spec_fn(int) -> Seq<Note> {
    |i: int|
        {
            let p = drc::pads_of(b);
            match drc::net_of(p[i]) {
                None => Seq::empty(),
                Some(n) => only_if(
                    s.nets.of(n) is None && !drc::has_pour(b, n) && !repeats_pad(p, i),
                    error(
                        ErcKind::PhantomNet,
                        "footprint pad "@ + drc::label_of(p[i]) + " is on net `"@ + n
                            + "` but the schematic doesn't declare that net"@,
                        seq![drc::label_of(p[i]), n],
                    ),
                ),
            }
        }
}

fn is_repeated(b: &Board, pads: &Vec<drc::PadGeom>, i: usize) -> (r: bool)
    requires
        drc::lists_pads(pads@, *b),
        i < pads@.len(),
        drc::net_of(drc::pads_of(*b)[i as int]) is Some,
    ensures
        r == repeats_pad(drc::pads_of(*b), i as int),
{
    let ghost p = drc::pads_of(*b);
    let name = pads[i].label();
    assert(pads@[i as int].at() == p[i as int]);
    let mut k: usize = 0;
    while k < i
        invariant
            k <= i < pads@.len(),
            drc::lists_pads(pads@, *b),
            p == drc::pads_of(*b),
            name@ == drc::label_of(p[i as int]),
            drc::net_of(p[i as int]) is Some,
            forall|m: int|
                0 <= m < k ==> !(drc::net_of(#[trigger] p[m]) == drc::net_of(p[i as int])
                    && drc::label_of(p[m]) == drc::label_of(p[i as int])),
        decreases i - k,
    {
        assert(pads@[k as int].at() == p[k as int]);
        assert(pads@[i as int].at() == p[i as int]);
        let same = match &pads[i].pad.net {
            Some(n) => has_net(&pads[k].pad.net, n.as_str()),
            None => false,
        };
        if same && str_eq(pads[k].label().as_str(), name.as_str()) {
            return true;
        }
        k += 1;
    }
    false
}

fn phantom_at(b: &Board, s: &Schematic, pads: &Vec<drc::PadGeom>, i: usize) -> (r: Option<Violation>)
    requires
        drc::lists_pads(pads@, *b),
        i < pads@.len(),
    ensures
        given(r) == phantoms(*b, *s)(i as int),
{
    let p = &pads[i];
    assert(p.at() == drc::pads_of(*b)[i as int]);
    let net = match &p.pad.net {
        None => {
            return None;
        },
        Some(n) => n.as_str(),
    };
    if s.nets.get(net).is_some() || drc::is_poured(b, net) || is_repeated(b, pads, i) {
        return None;
    }
    let name = p.label();
    raise(
        ErcKind::PhantomNet,
        Severity::Error,
        "footprint pad ".to_owned().concat(name.as_str()).concat(" is on net `").concat(
            net,
        ).concat("` but the schematic doesn't declare that net"),
        two(name.as_str(), net),
    )
}

fn check_phantoms(b: &Board, s: &Schematic, pads: &Vec<drc::PadGeom>, report: &mut ErcReport)
    requires
        drc::lists_pads(pads@, *b),
        old(report).wf(),
    ensures
        final(report).wf(),
        final(report).found() == old(report).found() + list::upto(
            phantoms(*b, *s),
            drc::pads_of(*b).len() as int,
        ),
{
    let ghost base = report.found();
    let ghost f = phantoms(*b, *s);
    proof {
        list::upto_next(base, f, 0);
    }
    let mut i: usize = 0;
    while i < pads.len()
        invariant
            i <= drc::pads_of(*b).len() as int,
            drc::lists_pads(pads@, *b),
            f == phantoms(*b, *s),
            report.wf(),
            report.found() == base + list::upto(f, i as int),
        decreases drc::pads_of(*b).len() as int - i,
    {
        let v = phantom_at(b, s, pads, i);
        report.take(v);
        proof {
            list::upto_next(base, f, i as int);
        }
        i += 1;
    }
}

/// The role of the first pin from `i` on with that number; passive where
/// there is none.
pub open spec fn role_of(pins: Seq<Pin>, number: Seq<char>, i: int) -> PinRole
    decreases pins.len() - i,
{
    if i < 0 || i >= pins.len() {
        PinRole::Passive
    } else if pins[i].number == number {
        pins[i].role
    } else {
        role_of(pins, number, i + 1)
    }
}

/// The name and the role of each pin of a net whose symbol is known.
pub open spec fn net_role(s: Schematic, net: Net) -> spec_fn(int) -> Seq<(Seq<char>, PinRole)> {
    |j: int|
        {
            let c = net.connections@[j];
            match symbol_of(s.symbols@, c.symbol_id, 0) {
                None => Seq::empty(),
                Some(x) => seq![
                    (
                        x.reference@ + "."@ + c.pin_number@,
                        role_of(x.kind.pinout(), c.pin_number@, 0),
                    ),
                ],
            }
        }
}

/// The names and the roles of the pins of a net.
pub open spec fn net_roles(s: Schematic, net: Net) -> Seq<(Seq<char>, PinRole)> {
    list::upto(net_role(s, net), net.connections@.len() as int)
}

/// The name of each output.
pub open spec fn output_of(r: Seq<(Seq<char>, PinRole)>) -> spec_fn(int) -> Seq<Seq<char>> {
    |i: int|
        if r[i].1 == PinRole::Output {
            seq![r[i].0]
        } else {
            Seq::empty()
        }
}

/// The names of the outputs.
pub open spec fn outputs(r: Seq<(Seq<char>, PinRole)>) -> Seq<Seq<char>> {
    list::upto(output_of(r), r.len() as int)
}

/// Some pin has the role.
pub open spec fn has_role(r: Seq<(Seq<char>, PinRole)>, role: PinRole) -> bool {
    exists|i: int| 0 <= i < r.len() && (#[trigger] r[i]).1 == role
}

/// The net has a source: a power output or a pour.
pub open spec fn powered(b: Board, net: Seq<char>, r: Seq<(Seq<char>, PinRole)>) -> bool {
    has_role(r, PinRole::PowerOut) || drc::has_pour(b, net)
}

/// The net has something that drives it.
pub open spec fn driven(b: Board, net: Seq<char>, r: Seq<(Seq<char>, PinRole)>) -> bool {
    has_role(r, PinRole::Output) || has_role(r, PinRole::Bidir) || powered(b, net, r)
}

/// The finding about a net with several outputs.
pub open spec fn many_drivers(net: Seq<char>, r: Seq<(Seq<char>, PinRole)>) -> Seq<Note> {
    let out = outputs(r);
    only_if(
        out.len() >= 2,
        error(
            ErcKind::MultipleDrivers,
            "net "@ + net + " has "@ + text::dec(out.len()) + " Output drivers ("@ + text::joined(
                out,
                ", "@,
            ) + "); only one Output pin may drive a net"@,
            seq![net] + out,
        ),
    )
}

/// The finding about a net that draws power from nowhere.
pub open spec fn unpowered(b: Board, net: Seq<char>, r: Seq<(Seq<char>, PinRole)>) -> Seq<Note> {
    only_if(
        has_role(r, PinRole::PowerIn) && !powered(b, net, r),
        warning(
            ErcKind::UnpoweredPowerNet,
            "net "@ + net
                + " has PowerIn pin(s) but no PowerOut source — did you forget to wire the supply?"@,
            seq![net],
        ),
    )
}

/// The finding about each input of a net without a driver.
pub open spec fn undriven(b: Board, net: Seq<char>, r: Seq<(Seq<char>, PinRole)>) -> spec_fn(int) -> Seq<
    Note,
> {
    |i: int|
        only_if(
            r[i].1 == PinRole::Input && !driven(b, net, r),
            warning(
                ErcKind::UnconnectedInput,
                "input pin "@ + r[i].0 + " on net "@ + net
                    + " has no driver (no Output, Bidir, or PowerOut)"@,
                seq![net, r[i].0],
            ),
        )
}

/// The findings about the roles on each net.
pub open spec fn role_rules(b: Board, s: Schematic) -> spec_fn(int) -> Seq<Note> {
    |i: int|
        {
            let net = s.nets.entries@[i].0@;
            let r = net_roles(s, s.nets.entries@[i].1);
            many_drivers(net, r) + unpowered(b, net, r) + list::upto(
                undriven(b, net, r),
                r.len() as int,
            )
        }
}

/// A pin with its role by value.
pub open spec fn role_views(v: Seq<(String, PinRole)>) -> Seq<(Seq<char>, PinRole)> {
    Seq::new(v.len(), |i: int| (v[i].0@, v[i].1))
}

fn find_role(sym: &Symbol, number: &str) -> (r: PinRole)
    ensures
        r == role_of(sym.kind.pinout(), number@, 0),
{
    let pins = sym.kind.pins();
    let ghost p = sym.kind.pinout();
    assert(schematic::pin_views(pins@).len() == pins@.len());
    let mut i: usize = 0;
    while i < pins.len()
        invariant
            i <= pins@.len(),
            p == schematic::pin_views(pins@),
            p == sym.kind.pinout(),
            role_of(p, number@, 0) == role_of(p, number@, i as int),
        decreases pins@.len() - i,
    {
        assert(p[i as int] == pins@[i as int].pin());
        if str_eq(pins[i].number.as_str(), number) {
            return pins[i].role;
        }
        i += 1;
    }
    PinRole::Passive
}

fn roles_on(s: &Schematic, net: &Net) -> (r: Vec<(String, PinRole)>)
    ensures
        role_views(r@) == net_roles(*s, *net),
{
    let ghost f = net_role(*s, *net);
    let mut out: Vec<(String, PinRole)> = Vec::new();
    assert(role_views(out@) =~= list::upto(f, 0));
    let mut j: usize = 0;
    while j < net.connections.len()
        invariant
            j <= net.connections@.len(),
            f == net_role(*s, *net),
            role_views(out@) == list::upto(f, j as int),
        decreases net.connections@.len() - j,
    {
        let c = &net.connections[j];
        let ghost before = out@;
        match find_symbol(s, c.symbol_id) {
            Some(x) => {
                let role = find_role(x, c.pin_number.as_str());
                let name = x.reference.clone().concat(".").concat(c.pin_number.as_str());
                out.push((name, role));
                assert(role_views(out@) =~= role_views(before) + f(j as int));
            },
            None => {
                assert(role_views(out@) =~= role_views(before) + f(j as int));
            },
        }
        assert(list::upto(f, j + 1) =~= list::upto(f, j as int) + f(j as int));
        j += 1;
    }
    out
}

fn some_role(v: &Vec<(String, PinRole)>, role: PinRole) -> (r: bool)
    ensures
        r == has_role(role_views(v@), role),
{
    let ghost w = role_views(v@);
    let mut i: usize = 0;
    while i < v.len()
        invariant
            i <= v@.len(),
            w == role_views(v@),
            forall|k: int| 0 <= k < i ==> (#[trigger] w[k]).1 != role,
        decreases v@.len() - i,
    {
        if v[i].1 == role {
            assert(w[i as int].1 == role);
            return true;
        }
        i += 1;
    }
    false
}

fn many_drivers_at(net: &str, v: &Vec<(String, PinRole)>) -> (r: Option<Violation>)
    ensures
        given(r) == many_drivers(net@, role_views(v@)),
{
    let ghost w = role_views(v@);
    let ghost f = output_of(w);
    let mut out: Vec<String> = Vec::new();
    assert(text::views(out@) =~= list::upto(f, 0));
    let mut i: usize = 0;
    while i < v.len()
        invariant
            i <= v@.len(),
            w == role_views(v@),
            f == output_of(w),
            text::views(out@) == list::upto(f, i as int),
        decreases v@.len() - i,
    {
        let ghost before = out@;
        if v[i].1 == PinRole::Output {
            out.push(v[i].0.clone());
            assert(text::views(out@) =~= text::views(before).push(w[i as int].0));
        }
        assert(text::views(out@) =~= list::upto(f, i + 1));
        i += 1;
    }
    assert(text::views(out@).len() == out@.len());
    if out.len() < 2 {
        return None;
    }
    let message = "net ".to_owned().concat(net).concat(" has ").concat(
        uint_text(out.len() as u128).as_str(),
    ).concat(" Output drivers (").concat(join(&out, ", ").as_str()).concat(
        "); only one Output pin may drive a net",
    );
    let ghost names = text::views(out@);
    let mut involved: Vec<String> = Vec::new();
    involved.push(net.to_owned());
    involved.append(&mut out);
    assert(text::views(involved@) =~= seq![net@] + names);
    raise(ErcKind::MultipleDrivers, Severity::Error, message, involved)
}

fn unpowered_at(b: &Board, net: &str, v: &Vec<(String, PinRole)>) -> (r: Option<Violation>)
    ensures
        given(r) == unpowered(*b, net@, role_views(v@)),
{
    if !some_role(v, PinRole::PowerIn) || some_role(v, PinRole::PowerOut) || drc::is_poured(b, net) {
        return None;
    }
    raise(
        ErcKind::UnpoweredPowerNet,
        Severity::Warning,
        "net ".to_owned().concat(net).concat(
            " has PowerIn pin(s) but no PowerOut source — did you forget to wire the supply?",
        ),
        one(net),
    )
}

fn check_inputs(b: &Board, net: &str, v: &Vec<(String, PinRole)>, report: &mut ErcReport)
    requires
        old(report).wf(),
    ensures
        final(report).wf(),
        final(report).found() == old(report).found() + list::upto(
            undriven(*b, net@, role_views(v@)),
            role_views(v@).len() as int,
        ),
{
    let ghost w = role_views(v@);
    let ghost base = report.found();
    let ghost f = undriven(*b, net@, w);
    proof {
        list::upto_next(base, f, 0);
    }
    let has_driver = some_role(v, PinRole::Output) || some_role(v, PinRole::Bidir) || some_role(
        v,
        PinRole::PowerOut,
    ) || drc::is_poured(b, net);
    let mut i: usize = 0;
    while i < v.len()
        invariant
            i <= v@.len(),
            w == role_views(v@),
            f == undriven(*b, net@, w),
            has_driver == driven(*b, net@, w),
            report.wf(),
            report.found() == base + list::upto(f, i as int),
        decreases v@.len() - i,
    {
        let x = if v[i].1 == PinRole::Input && !has_driver {
            raise(
                ErcKind::UnconnectedInput,
                Severity::Warning,
                "input pin ".to_owned().concat(v[i].0.as_str()).concat(" on net ").concat(
                    net,
                ).concat(" has no driver (no Output, Bidir, or PowerOut)"),
                two(net, v[i].0.as_str()),
            )
        } else {
            None
        };
        report.take(x);
        proof {
            list::upto_next(base, f, i as int);
        }
        i += 1;
    }
}

fn check_role_based_rules(b: &Board, s: &Schematic, report: &mut ErcReport)
    requires
        old(report).wf(),
    ensures
        final(report).wf(),
        final(report).found() == old(report).found() + list::upto(
            role_rules(*b, *s),
            s.nets.entries@.len() as int,
        ),
{
    let ghost base = report.found();
    let ghost f = role_rules(*b, *s);
    proof {
        list::upto_next(base, f, 0);
    }
    let mut i: usize = 0;
    while i < s.nets.entries.len()
        invariant
            i <= s.nets.entries@.len() as int,
            f == role_rules(*b, *s),
            report.wf(),
            report.found() == base + list::upto(f, i as int),
        decreases s.nets.entries@.len() as int - i,
    {
        let net = s.nets.entries[i].0.as_str();
        let roles = roles_on(s, &s.nets.entries[i].1);
        let ghost head = report.found();
        report.take(many_drivers_at(net, &roles));
        report.take(unpowered_at(b, net, &roles));
        check_inputs(b, net, &roles, report);
        assert(report.found() =~= head + f(i as int));
        proof {
            list::upto_next(base, f, i as int);
        }
        i += 1;
    }
}

/// The position of the first footprint from `i` on with that reference.
pub open spec fn placed_at(f: Seq<Footprint>, reference: Seq<char>, i: int) -> Option<Point>
    decreases f.len() - i,
{
    if i < 0 || i >= f.len() {
        None
    } else if f[i].reference@ == reference {
        Some(f[i].position)
    } else {
        placed_at(f, reference, i + 1)
    }
}

/// Where a symbol stands on the board.
pub open spec fn position_of(b: Board, sym: Symbol) -> Option<Point> {
    placed_at(b.footprints@, sym.reference@, 0)
}

/// The net reaches some pin of the symbol.
pub open spec fn joins(net: Net, id: Id) -> bool {
    exists|j: int|
        0 <= j < net.connections@.len() && (#[trigger] net.connections@[j]).symbol_id == id
}

/// Some net of that name reaches the symbol.
pub open spec fn is_on(s: Schematic, net: Seq<char>, id: Id) -> bool {
    exists|i: int|
        0 <= i < s.nets.entries@.len() && (#[trigger] s.nets.entries@[i]).1.name@ == net && joins(
            s.nets.entries@[i].1,
            id,
        )
}

/// The points are no farther apart than `max`.
pub open spec fn within_reach(a: Point, b: Point, max: int) -> bool {
    max >= 0 && board::sq(a.x.0 - b.x.0) + board::sq(a.y.0 - b.y.0) <= max * max
}

/// A placed capacitor on the net is near the point.
pub open spec fn serves(b: Board, s: Schematic, cap: Symbol, net: Seq<char>, at: Point, max: int) -> bool {
    &&& cap.kind is Capacitor
    &&& position_of(b, cap) is Some
    &&& is_on(s, net, cap.id)
    &&& within_reach(position_of(b, cap)->0, at, max)
}

/// Some capacitor decouples the net near the point.
pub open spec fn decoupled(b: Board, s: Schematic, net: Seq<char>, at: Point, max: int) -> bool {
    exists|i: int|
        0 <= i < s.symbols@.len() && serves(b, s, #[trigger] s.symbols@[i], net, at, max)
}

/// The finding about each power pin of a chip at `at` that no capacitor
/// decouples.
pub open spec fn uncoupled(b: Board, s: Schematic, sym: Symbol, at: Point, max: int) -> spec_fn(int) -> Seq<
    Note,
> {
    |j: int|
        {
            let pin = sym.kind.pinout()[j];
            let name = sym.reference@ + "."@ + pin.number;
            match s.pin_net(sym.id, pin.number, 0) {
                None => Seq::empty(),
                Some(n) => only_if(
                    pin.role == PinRole::PowerIn && !drc::has_pour(b, n) && !decoupled(
                        b,
                        s,
                        n,
                        at,
                        max,
                    ),
                    warning(
                        ErcKind::MissingDecouplingCap,
                        "no decoupling cap within "@ + text::fixed(max, 1) + " mm of "@ + name
                            + " (net "@ + n
                            + "); add e.g. 100 nF on the same net close to the pin"@,
                        seq![name, n],
                    ),
                ),
            }
        }
}

/// The findings about the power pins of each placed chip.
pub open spec fn decoupling(b: Board, s: Schematic, max: int) -> spec_fn(int) -> Seq<Note> {
    |i: int|
        {
            let sym = s.symbols@[i];
            match position_of(b, sym) {
                Some(at) => if sym.kind is GenericIc {
                    list::upto(uncoupled(b, s, sym, at, max), sym.kind.pinout().len() as int)
                } else {
                    Seq::empty()
                },
                None => Seq::empty(),
            }
        }
}

fn find_position(b: &Board, reference: &str) -> (r: Option<Point>)
    ensures
        r == placed_at(b.footprints@, reference@, 0),
{
    let mut i: usize = 0;
    while i < b.footprints.len()
        invariant
            i <= b.footprints@.len(),
            placed_at(b.footprints@, reference@, 0) == placed_at(
                b.footprints@,
                reference@,
                i as int,
            ),
        decreases b.footprints@.len() - i,
    {
        if str_eq(b.footprints[i].reference.as_str(), reference) {
            return Some(b.footprints[i].position);
        }
        i += 1;
    }
    None
}

proof fn placed_in_range(b: Board, reference: Seq<char>, i: int)
    requires
        b.footprints_in_range(),
        0 <= i,
    ensures
        placed_at(b.footprints@, reference, i) matches Some(p) ==> p.within(COORD_MAX as int),
    decreases b.footprints@.len() - i,
{
    if i < b.footprints@.len() && b.footprints@[i].reference@ != reference {
        placed_in_range(b, reference, i + 1);
    }
}

fn net_joins(net: &Net, id: Id) -> (r: bool)
    ensures
        r == joins(*net, id),
{
    let mut j: usize = 0;
    while j < net.connections.len()
        invariant
            j <= net.connections@.len(),
            forall|k: int| 0 <= k < j ==> (#[trigger] net.connections@[k]).symbol_id != id,
        decreases net.connections@.len() - j,
    {
        if net.connections[j].symbol_id == id {
            return true;
        }
        j += 1;
    }
    false
}

fn is_symbol_on(s: &Schematic, net: &str, id: Id) -> (r: bool)
    ensures
        r == is_on(*s, net@, id),
{
    let mut i: usize = 0;
    while i < s.nets.entries.len()
        invariant
            i <= s.nets.entries@.len(),
            forall|k: int|
                0 <= k < i ==> !((#[trigger] s.nets.entries@[k]).1.name@ == net@ && joins(
                    s.nets.entries@[k].1,
                    id,
                )),
        decreases s.nets.entries@.len() - i,
    {
        let n = &s.nets.entries[i].1;
        if str_eq(n.name.as_str(), net) && net_joins(n, id) {
            return true;
        }
        i += 1;
    }
    false
}

fn is_within_reach(a: Point, b: Point, max: Length) -> (r: bool)
    requires
        a.within(COORD_MAX as int),
        b.within(COORD_MAX as int),
    ensures
        r == within_reach(a, b, max.0 as int),
{
    let dx: i128 = (a.x.0 - b.x.0) as i128;
    let dy: i128 = (a.y.0 - b.y.0) as i128;
    let m: i128 = max.0 as i128;
    proof {
        board::sq_bound(dx as int, 2 * COORD_MAX);
        board::sq_bound(dy as int, 2 * COORD_MAX);
        assert(board::sq(2 * COORD_MAX) == 0x40_0000_0000_0000_0000) by (nonlinear_arith)
            requires
                COORD_MAX == 0x4_0000_0000,
        ;
        board::sq_bound(m as int, 0x8000_0000_0000_0000);
        assert(board::sq(0x8000_0000_0000_0000) == 0x4000_0000_0000_0000_0000_0000_0000_0000)
            by (nonlinear_arith);
    }
    m >= 0 && dx * dx + dy * dy <= m * m
}

fn is_decoupled(b: &Board, s: &Schematic, net: &str, at: Point, max: Length) -> (r: bool)
    requires
        b.footprints_in_range(),
        at.within(COORD_MAX as int),
    ensures
        r == decoupled(*b, *s, net@, at, max.0 as int),
{
    let mut i: usize = 0;
    while i < s.symbols.len()
        invariant
            i <= s.symbols@.len(),
            b.footprints_in_range(),
            at.within(COORD_MAX as int),
            forall|k: int|
                0 <= k < i ==> !serves(
                    *b,
                    *s,
                    #[trigger] s.symbols@[k],
                    net@,
                    at,
                    max.0 as int,
                ),
        decreases s.symbols@.len() - i,
    {
        let sym = &s.symbols[i];
        let cap = match &sym.kind {
            SymbolKind::Capacitor => true,
            _ => false,
        };
        if cap {
            proof {
                placed_in_range(*b, sym.reference@, 0);
            }
            if let Some(p) = find_position(b, sym.reference.as_str()) {
                if is_symbol_on(s, net, sym.id) && is_within_reach(p, at, max) {
                    assert(serves(*b, *s, s.symbols@[i as int], net@, at, max.0 as int));
                    return true;
                }
            }
        }
        i += 1;
    }
    false
}

fn check_chip(b: &Board, s: &Schematic, sym: &Symbol, at: Point, max: Length, report: &mut ErcReport)
    requires
        b.footprints_in_range(),
        at.within(COORD_MAX as int),
        old(report).wf(),
    ensures
        final(report).wf(),
        final(report).found() == old(report).found() + list::upto(
            uncoupled(*b, *s, *sym, at, max.0 as int),
            sym.kind.pinout().len() as int,
        ),
{
    let ghost base = report.found();
    let ghost f = uncoupled(*b, *s, *sym, at, max.0 as int);
    proof {
        list::upto_next(base, f, 0);
    }
    let pins = sym.kind.pins();
    assert(schematic::pin_views(pins@).len() == pins@.len());
    let mut j: usize = 0;
    while j < pins.len()
        invariant
            j <= pins@.len(),
            b.footprints_in_range(),
            at.within(COORD_MAX as int),
            schematic::pin_views(pins@) == sym.kind.pinout(),
            f == uncoupled(*b, *s, *sym, at, max.0 as int),
            report.wf(),
            report.found() == base + list::upto(f, j as int),
        decreases pins@.len() - j,
    {
        let pin = &pins[j];
        assert(sym.kind.pinout()[j as int] == pins@[j as int].pin());
        let v = match s.net_for_pin(sym.id, pin.number.as_str()) {
            None => None,
            Some(n) => if pin.role == PinRole::PowerIn && !drc::is_poured(b, n) && !is_decoupled(
                b,
                s,
                n,
                at,
                max,
            ) {
                let name = sym.reference.clone().concat(".").concat(pin.number.as_str());
                raise(
                    ErcKind::MissingDecouplingCap,
                    Severity::Warning,
                    "no decoupling cap within ".to_owned().concat(
                        fixed_text(max.0, 1).as_str(),
                    ).concat(" mm of ").concat(name.as_str()).concat(" (net ").concat(n).concat(
                        "); add e.g. 100 nF on the same net close to the pin",
                    ),
                    two(name.as_str(), n),
                )
            } else {
                None
            },
        };
        report.take(v);
        proof {
            list::upto_next(base, f, j as int);
        }
        j += 1;
    }
}

fn check_decoupling(b: &Board, s: &Schematic, max: Length, report: &mut ErcReport)
    requires
        b.footprints_in_range(),
        old(report).wf(),
    ensures
        final(report).wf(),
        final(report).found() == old(report).found() + list::upto(
            decoupling(*b, *s, max.0 as int),
            s.symbols@.len() as int,
        ),
{
    let ghost base = report.found();
    let ghost f = decoupling(*b, *s, max.0 as int);
    proof {
        list::upto_next(base, f, 0);
    }
    let mut i: usize = 0;
    while i < s.symbols.len()
        invariant
            i <= s.symbols@.len() as int,
            b.footprints_in_range(),
            f == decoupling(*b, *s, max.0 as int),
            report.wf(),
            report.found() == base + list::upto(f, i as int),
        decreases s.symbols@.len() as int - i,
    {
        let sym = &s.symbols[i];
        let ghost head = report.found();
        proof {
            placed_in_range(*b, sym.reference@, 0);
            assert(head + Seq::<Note>::empty() =~= head);
        }
        let chip = match &sym.kind {
            SymbolKind::GenericIc { .. } => true,
            _ => false,
        };
        if let Some(at) = find_position(b, sym.reference.as_str()) {
            if chip {
                check_chip(b, s, sym, at, max, report);
            }
        }
        assert(report.found() == head + f(i as int));
        proof {
            list::upto_next(base, f, i as int);
        }
        i += 1;
    }
}

/// The name in capitals, without leading signs and without an `I2C`
/// prefix.
pub open spec fn bus_name(name: Seq<char>) -> Seq<char> {
    let n = name.map_values(|c: char| text::upper(c));
    let n = text::trimmed(text::trimmed(n, "+"@), "-"@);
    text::trimmed(text::trimmed(n, "I2C_"@), "I2C"@)
}

/// The name is that of an I2C line.
pub open spec fn is_i2c(name: Seq<char>) -> bool {
    let n = bus_name(name);
    text::ends(n, "_SDA"@) || text::ends(n, "_SCL"@) || text::begins(n, "SDA"@) || text::begins(
        n,
        "SCL"@,
    )
}

/// The net reaches a resistor.
pub open spec fn has_resistor(s: Schematic, net: Net) -> bool {
    exists|j: int|
        0 <= j < net.connections@.len() && is_resistor(
            s,
            (#[trigger] net.connections@[j]).symbol_id,
        )
}

/// Some resistor has the id.
pub open spec fn is_resistor(s: Schematic, id: Id) -> bool {
    exists|i: int|
        0 <= i < s.symbols@.len() && (#[trigger] s.symbols@[i]).id == id && s.symbols@[i].kind
            is Resistor
}

/// The finding about each I2C line without a resistor.
pub open spec fn pullups(s: Schematic) -> spec_fn(int) -> Seq<Note> {
    |i: int|
        {
            let net = s.nets.entries@[i].1;
            only_if(
                is_i2c(net.name@) && !has_resistor(s, net),
                warning(
                    ErcKind::MissingPullup,
                    "I²C net "@ + net.name@
                        + " has no pull-up resistor; add one to VCC (typical 4.7 kΩ)"@,
                    seq![net.name@],
                ),
            )
        }
}

fn is_i2c_name(name: &str) -> (r: bool)
    ensures
        r == is_i2c(name@),
{
    proof {
        reveal_strlit("+");
        reveal_strlit("-");
        reveal_strlit("I2C_");
        reveal_strlit("I2C");
    }
    let n = upper_chars(name);
    let n = trim_start(trim_start(n, "+"), "-");
    let n = trim_start(trim_start(n, "I2C_"), "I2C");
    ends_with(&n, "_SDA") || ends_with(&n, "_SCL") || begins_with(&n, "SDA") || begins_with(
        &n,
        "SCL",
    )
}

fn is_resistor_id(s: &Schematic, id: Id) -> (r: bool)
    ensures
        r == is_resistor(*s, id),
{
    let mut i: usize = 0;
    while i < s.symbols.len()
        invariant
            i <= s.symbols@.len(),
            forall|k: int|
                0 <= k < i ==> !((#[trigger] s.symbols@[k]).id == id && s.symbols@[k].kind
                    is Resistor),
        decreases s.symbols@.len() - i,
    {
        let sym = &s.symbols[i];
        let resistor = match &sym.kind {
            SymbolKind::Resistor => true,
            _ => false,
        };
        if resistor && sym.id == id {
            return true;
        }
        i += 1;
    }
    false
}

fn reaches_resistor(s: &Schematic, net: &Net) -> (r: bool)
    ensures
        r == has_resistor(*s, *net),
{
    let mut j: usize = 0;
    while j < net.connections.len()
        invariant
            j <= net.connections@.len(),
            forall|k: int|
                0 <= k < j ==> !is_resistor(*s, (#[trigger] net.connections@[k]).symbol_id),
        decreases net.connections@.len() - j,
    {
        if is_resistor_id(s, net.connections[j].symbol_id) {
            return true;
        }
        j += 1;
    }
    false
}

fn pullup_at(s: &Schematic, net: &Net) -> (r: Option<Violation>)
    ensures
        given(r) == only_if(
            is_i2c(net.name@) && !has_resistor(*s, *net),
            warning(
                ErcKind::MissingPullup,
                "I²C net "@ + net.name@
                    + " has no pull-up resistor; add one to VCC (typical 4.7 kΩ)"@,
                seq![net.name@],
            ),
        ),
{
    if !is_i2c_name(net.name.as_str()) || reaches_resistor(s, net) {
        return None;
    }
    raise(
        ErcKind::MissingPullup,
        Severity::Warning,
        "I²C net ".to_owned().concat(net.name.as_str()).concat(
            " has no pull-up resistor; add one to VCC (typical 4.7 kΩ)",
        ),
        one(net.name.as_str()),
    )
}

fn check_i2c_pullups(s: &Schematic, report: &mut ErcReport)
    requires
        old(report).wf(),
    ensures
        final(report).wf(),
        final(report).found() == old(report).found() + list::upto(
            pullups(*s),
            s.nets.entries@.len() as int,
        ),
{
    let ghost base = report.found();
    let ghost f = pullups(*s);
    proof {
        list::upto_next(base, f, 0);
    }
    let mut i: usize = 0;
    while i < s.nets.entries.len()
        invariant
            i <= s.nets.entries@.len() as int,
            f == pullups(*s),
            report.wf(),
            report.found() == base + list::upto(f, i as int),
        decreases s.nets.entries@.len() as int - i,
    {
        let v = pullup_at(s, &s.nets.entries[i].1);
        report.take(v);
        proof {
            list::upto_next(base, f, i as int);
        }
        i += 1;
    }
}

/// All findings of the electrical rule check, in the order of the checks.
pub open spec fn notes_of(b: Board, s: Schematic, opts: ErcOptions) -> Seq<Note> {
    let nets = s.nets.entries@.len() as int;
    let symbols = s.symbols@.len() as int;
    list::upto(duplicates(s), endpoints(s).len() as int) + list::upto(floating_pins(s), symbols)
        + list::upto(thin_nets(s), nets) + list::upto(orphans(s), symbols) + list::upto(
        phantoms(b, s),
        drc::pads_of(b).len() as int,
    ) + list::upto(role_rules(b, s), nets) + if opts.heuristics {
        list::upto(decoupling(b, s, opts.decoupling_max_dist.0 as int), symbols) + list::upto(
            pullups(s),
            nets,
        )
    } else {
        Seq::empty()
    }
}

/// Checks the netlist, and the board against it.
pub fn run(b: &Board, s: &Schematic, opts: &ErcOptions) -> (r: ErcReport)
    requires
        b.footprints_in_range(),
    ensures
        r.found() == notes_of(*b, *s, *opts),
        r.wf(),
{
    let mut report = ErcReport::new();
    let ends = collect_endpoints(s);
    assert(end_views(ends@).len() == ends@.len());
    let pads = drc::collect_pad_geometry(b);
    check_duplicates(s, &ends, &mut report);
    assert(report.found() =~= list::upto(duplicates(*s), endpoints(*s).len() as int));
    check_floating(s, &ends, &mut report);
    check_thin_nets(s, &mut report);
    check_orphans(s, &ends, &mut report);
    check_phantoms(b, s, &pads, &mut report);
    check_role_based_rules(b, s, &mut report);
    let ghost head = report.found();
    if opts.heuristics {
        check_decoupling(b, s, opts.decoupling_max_dist, &mut report);
        check_i2c_pullups(s, &mut report);
    }
    assert(report.found() =~= notes_of(*b, *s, *opts));
    report
}

/// Leaving out the rules of thumb leaves the other findings as they are,
/// in the same order.
pub proof fn heuristics_only_append(b: Board, s: Schematic, max: Length)
    ensures
        notes_of(
            b,
            s,
            (ErcOptions { heuristics: false, decoupling_max_dist: max }),
        ).is_prefix_of(
            notes_of(b, s, (ErcOptions { heuristics: true, decoupling_max_dist: max })),
        ),
{
}

} // verus!
