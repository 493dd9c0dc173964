//! Tools that work on the schematic.

use vstd::prelude::*;

use crate::board::{Board, Id};
use crate::event::{ActivityLevel, Event};
use crate::geometry::Point;
use crate::ids;
use crate::name_map;
use crate::project::Project;
use crate::rotation::Rotation;
use crate::schematic;
use crate::schematic::{Net, NetConnection, Pin, Schematic, Symbol, SymbolKind};
use crate::text;
use crate::text::{fixed_text, from_chars, lower_text, str_eq, to_chars, uint_text};
use crate::tools;
use crate::tools::{INVALID_PARAMS, ToolError};
use crate::units::Length;
use crate::wiring;
use crate::words::piece;

verus! {

/// A text in quotes, with what cannot be printed escaped.
pub uninterp spec fn quoted(s: Seq<char>) -> Seq<char>;

/// `std::fmt::Debug` of a string.
#[verifier::external_body]
fn quote(s: &str) -> (r: String)
    ensures
        r@ == quoted(s@),
{
    format!("{s:?}")
}

/// Where the symbol with number `n` is put that was given no place: rows
/// of six.
pub open spec fn grid_place(n: int) -> (int, int) {
    (15_000_000 + (n % 6) * 25_000_000, 15_000_000 + (n / 6) * 20_000_000)
}

/// Where a symbol is put that was given no place.
pub fn auto_place(s: &Schematic) -> (r: Point)
    requires
        s.symbols@.len() <= 0xffff_ffff,
    ensures
        (r.x.0 as int, r.y.0 as int) == grid_place(s.symbols@.len() as int),
{
    let n: i64 = s.symbols.len() as i64;
    let col: i64 = n % 6;
    let row: i64 = n / 6;
    Point { x: Length(15_000_000 + col * 25_000_000), y: Length(15_000_000 + row * 20_000_000) }
}

/// No two of the places of the first symbols coincide.
pub proof fn grid_places_differ(a: int, b: int)
    requires
        0 <= a < b,
    ensures
        grid_place(a) != grid_place(b),
{
    assert(a == 6 * (a / 6) + a % 6);
    assert(b == 6 * (b / 6) + b % 6);
}

/// The index of the first dot from `i` on; the length where there is none.
pub open spec fn dot_from(s: Seq<char>, i: int) -> int
    decreases s.len() - i,
{
    if i < 0 || i >= s.len() {
        s.len() as int
    } else if s[i] == '.' {
        i
    } else {
        dot_from(s, i + 1)
    }
}

/// The text before the first dot.
pub open spec fn before_dot(s: Seq<char>) -> Seq<char> {
    s.take(dot_from(s, 0))
}

/// The text behind the first dot.
pub open spec fn behind_dot(s: Seq<char>) -> Seq<char> {
    s.skip(dot_from(s, 0) + 1)
}

proof fn dot_bound(s: Seq<char>, i: int)
    requires
        0 <= i <= s.len(),
    ensures
        i <= dot_from(s, i) <= s.len(),
    decreases s.len() - i,
{
    if i < s.len() && s[i] != '.' {
        dot_bound(s, i + 1);
    }
}

/// Splits a text at its first dot.
pub fn split_dot(s: &str) -> (r: Option<(String, String)>)
    ensures
        r is Some <==> dot_from(s@, 0) < s@.len(),
        r matches Some((a, b)) ==> a@ == before_dot(s@) && b@ == behind_dot(s@),
{
    let chars = to_chars(s);
    let mut i: usize = 0;
    while i < chars.len() && chars[i] != '.'
        invariant
            i <= chars@.len(),
            chars@ == s@,
            dot_from(s@, 0) == dot_from(s@, i as int),
        decreases chars@.len() - i,
    {
        i += 1;
    }
    if i >= chars.len() {
        return None;
    }
    let a = piece(&chars, 0, i);
    let b = piece(&chars, i + 1, chars.len());
    assert(a@ =~= before_dot(s@));
    assert(b@ =~= behind_dot(s@));
    Some((from_chars(&a), from_chars(&b)))
}

/// The letters in small form.
pub open spec fn folded(s: Seq<char>) -> Seq<char> {
    s.map_values(|c: char| text::lower(c))
}

/// The pin goes by that number, or by that name whatever the case.
pub open spec fn goes_by(p: Pin, token: Seq<char>) -> bool {
    p.number == token || folded(p.name) == folded(token)
}

/// The number of the first pin from `i` on that goes by a token; the token
/// itself where there is none.
pub open spec fn pin_number(pins: Seq<Pin>, token: Seq<char>, i: int) -> Seq<char>
    decreases pins.len() - i,
{
    if i < 0 || i >= pins.len() {
        token
    } else if goes_by(pins[i], token) {
        pins[i].number
    } else {
        pin_number(pins, token, i + 1)
    }
}

fn resolve_pin(kind: &SymbolKind, token: &str) -> (r: String)
    ensures
        r@ == pin_number(kind.pinout(), token@, 0),
{
    let pins = kind.pins();
    let ghost p = kind.pinout();
    assert(p.len() == pins@.len());
    let small = lower_text(token);
    let mut i: usize = 0;
    while i < pins.len()
        invariant
            i <= pins@.len(),
            p == kind.pinout(),
            p == schematic::pin_views(pins@),
            small@ == folded(token@),
            pin_number(p, token@, 0) == pin_number(p, token@, i as int),
        decreases pins@.len() - i,
    {
        assert(p[i as int] == pins@[i as int].pin());
        if str_eq(pins[i].number.as_str(), token) || str_eq(
            lower_text(pins[i].name.as_str()).as_str(),
            small.as_str(),
        ) {
            return pins[i].number.clone();
        }
        i += 1;
    }
    token.to_owned()
}

/// What is wrong with a pin address.
pub open spec fn address_fault(v: Seq<Symbol>, s: Seq<char>) -> Option<Seq<char>> {
    if dot_from(s, 0) >= s.len() {
        Some("expected REF.PIN format, got "@ + quoted(s))
    } else if schematic::referenced(v, before_dot(s), 0) is None {
        Some("unknown symbol "@ + before_dot(s))
    } else {
        None
    }
}

/// What is wrong with the first of the addresses from `i` on that is wrong.
pub open spec fn addresses_fault(v: Seq<Symbol>, pins: Seq<Seq<char>>, i: int) -> Option<Seq<char>>
    decreases pins.len() - i,
{
    if i < 0 || i >= pins.len() {
        None
    } else {
        match address_fault(v, pins[i]) {
            Some(e) => Some(e),
            None => addresses_fault(v, pins, i + 1),
        }
    }
}

/// The connection is to the pin with that address.
pub open spec fn is_target(v: Seq<Symbol>, c: NetConnection, s: Seq<char>) -> bool {
    schematic::referenced(v, before_dot(s), 0) matches Some(sym) && c.symbol_id == sym.id
        && c.pin_number@ == pin_number(sym.kind.pinout(), behind_dot(s), 0)
}

/// The connections are to the pins with these addresses.
pub open spec fn are_targets(v: Seq<Symbol>, cs: Seq<NetConnection>, pins: Seq<Seq<char>>) -> bool {
    &&& cs.len() == pins.len()
    &&& forall|i: int| 0 <= i < cs.len() ==> is_target(v, #[trigger] cs[i], pins[i])
}

/// Finds the pins with these addresses.
pub fn resolve_pins(s: &Schematic, pins: &Vec<String>) -> (r: Result<Vec<NetConnection>, String>)
    ensures
        match r {
            Ok(cs) => addresses_fault(s.symbols@, text::views(pins@), 0) is None && are_targets(
                s.symbols@,
                cs@,
                text::views(pins@),
            ),
            Err(e) => addresses_fault(s.symbols@, text::views(pins@), 0) == Some(e@),
        },
{
    let ghost v = s.symbols@;
    let ghost l = text::views(pins@);
    assert(l.len() == pins@.len());
    let mut out: Vec<NetConnection> = Vec::new();
    let mut i: usize = 0;
    while i < pins.len()
        invariant
            i <= pins@.len(),
            v == s.symbols@,
            l == text::views(pins@),
            l.len() == pins@.len(),
            out@.len() == i,
            addresses_fault(v, l, 0) == addresses_fault(v, l, i as int),
            forall|k: int| 0 <= k < i ==> is_target(v, #[trigger] out@[k], l[k]),
        decreases pins@.len() - i,
    {
        assert(l[i as int] == pins@[i as int]@);
        let address = pins[i].as_str();
        let (name, token) = match split_dot(address) {
            None => {
                return Err(
                    "expected REF.PIN format, got ".to_owned().concat(quote(address).as_str()),
                );
            },
            Some(x) => x,
        };
        match s.find_by_reference(name.as_str()) {
            None => {
                return Err("unknown symbol ".to_owned().concat(name.as_str()));
            },
            Some(sym) => {
                let pin_number = resolve_pin(&sym.kind, token.as_str());
                let c = NetConnection { symbol_id: sym.id, pin_number };
                assert(is_target(v, c, l[i as int]));
                out.push(c);
            },
        }
        i += 1;
    }
    Ok(out)
}

/// The pins of the first `n` pins of a symbol that no net reaches.
pub open spec fn loose_of(s: Schematic, sym: Symbol, n: int) -> Seq<Seq<char>>
    decreases n,
{
    if n <= 0 {
        Seq::empty()
    } else {
        let pin = sym.kind.pinout()[n - 1].number;
        let before = loose_of(s, sym, n - 1);
        if s.pin_net(sym.id, pin, 0) is None {
            before.push(sym.reference@ + "."@ + pin)
        } else {
            before
        }
    }
}

/// The pins of the first `n` symbols that no net reaches.
pub open spec fn loose_upto(s: Schematic, n: int) -> Seq<Seq<char>>
    decreases n,
{
    if n <= 0 {
        Seq::empty()
    } else {
        let sym = s.symbols@[n - 1];
        loose_upto(s, n - 1) + loose_of(s, sym, sym.kind.pinout().len() as int)
    }
}

fn loose_pins(s: &Schematic) -> (r: Vec<String>)
    ensures
        text::views(r@) == loose_upto(*s, s.symbols@.len() as int),
{
    let mut out: Vec<String> = Vec::new();
    assert(text::views(out@) =~= Seq::empty());
    let mut i: usize = 0;
    while i < s.symbols.len()
        invariant
            i <= s.symbols@.len(),
            text::views(out@) == loose_upto(*s, i as int),
        decreases s.symbols@.len() - i,
    {
        let sym = &s.symbols[i];
        let pins = sym.kind.pins();
        let ghost base = text::views(out@);
        let ghost p = sym.kind.pinout();
        assert(p.len() == pins@.len());
        let mut j: usize = 0;
        assert(text::views(out@) =~= base + loose_of(*s, *sym, 0));
        while j < pins.len()
            invariant
                j <= pins@.len(),
                p == sym.kind.pinout(),
                p == schematic::pin_views(pins@),
                text::views(out@) == base + loose_of(*s, *sym, j as int),
            decreases pins@.len() - j,
        {
            assert(p[j as int].number == pins@[j as int].number@);
            let ghost before = out@;
            if s.net_for_pin(sym.id, pins[j].number.as_str()).is_none() {
                let name = sym.reference.clone().concat(".").concat(pins[j].number.as_str());
                out.push(name);
                assert(text::views(out@) =~= text::views(before).push(name@));
            }
            assert(text::views(out@) =~= base + loose_of(*s, *sym, j + 1));
            j += 1;
        }
        i += 1;
    }
    out
}

/// A symbol as a caller describes it.
#[derive(Debug)]
pub struct SymbolInput {
    pub reference: String,
    pub value: String,
    pub kind: SymbolKind,
    /// Where it is put; a place is chosen where this is not set.
    pub position: Option<Point>,
    pub rotation: Rotation,
    pub key: String,
    pub description: String,
}

/// Where the symbol is put.
pub open spec fn symbol_place(s: Schematic, input: SymbolInput) -> (int, int) {
    match input.position {
        Some(p) => (p.x.0 as int, p.y.0 as int),
        None => grid_place(s.symbols@.len() as int),
    }
}

/// The symbol is the one that was described.
pub open spec fn is_described(sym: Symbol, id: Id, input: SymbolInput, at: (int, int)) -> bool {
    &&& sym.id == id
    &&& sym.reference == input.reference
    &&& sym.value == input.value
    &&& sym.kind == input.kind
    &&& (sym.position.x.0 as int, sym.position.y.0 as int) == at
    &&& sym.rotation == input.rotation
    &&& sym.key == input.key
    &&& sym.description == input.description
}

/// `(x, y) mm`.
pub open spec fn place_mm(at: (int, int)) -> Seq<char> {
    "("@ + text::fixed(at.0, 2) + ", "@ + text::fixed(at.1, 2) + ") mm"@
}

impl Project {
    /// Adds a symbol under a new id. A circuit without pins is refused.
    pub fn tool_schematic_add_symbol(&mut self, input: SymbolInput) -> (r: Result<
        (String, Id),
        ToolError,
    >)
        requires
            old(self).wf(),
            old(self).schematic.symbols@.len() <= 0xffff_ffff,
        ensures
            final(self).wf(),
            r is Err <==> (input.kind matches SymbolKind::GenericIc { pins } && pins@.len() == 0),
            r matches Err(e) ==> *final(self) == *old(self) && e.code == INVALID_PARAMS
                && e.message@
                == "schematic.add_symbol: kind=generic_ic requires a non-empty pins array"@,
            r matches Ok((reply, id)) ==> {
                let at = symbol_place(old(self).schematic, input);
                &&& reply@ == "Added "@ + input.reference@ + " ("@ + ids::hyphenated(id.0 as nat)
                    + ")"@
                &&& exists|sym: Symbol| #[trigger]
                    is_described(sym, id, input, at) && final(self).schematic.symbols@
                        == schematic::with_symbol(old(self).schematic.symbols@, sym, 0)
                &&& tools::reported(
                    old(self).events@,
                    seq![Event::SymbolAdded { id, reference: input.reference }],
                    final(self).events@,
                    "schematic.add_symbol: "@ + input.reference@ + " at "@ + place_mm(at),
                )
            },
            *final(self) == (Project {
                schematic: Schematic {
                    symbols: final(self).schematic.symbols,
                    ..old(self).schematic
                },
                events: final(self).events,
                ..*old(self)
            }),
    {
        let ghost start = self.events@;
        if let SymbolKind::GenericIc { pins } = &input.kind {
            if pins.len() == 0 {
                return Err(
                    ToolError::invalid_params(
                        "schematic.add_symbol: kind=generic_ic requires a non-empty pins array".to_owned(),
                    ),
                );
            }
        }
        let position = match input.position {
            Some(p) => p,
            None => auto_place(&self.schematic),
        };
        let id = Id::new();
        let ghost given = input;
        let reference = input.reference.clone();
        let reply = "Added ".to_owned().concat(reference.as_str()).concat(" (").concat(
            id.text().as_str(),
        ).concat(")");
        let line = "schematic.add_symbol: ".to_owned().concat(reference.as_str()).concat(
            " at ",
        ).concat(
            "(".to_owned().concat(fixed_text(position.x.0, 2).as_str()).concat(", ").concat(
                fixed_text(position.y.0, 2).as_str(),
            ).concat(") mm").as_str(),
        );
        let sym = Symbol {
            id,
            reference: input.reference,
            value: input.value,
            kind: input.kind,
            position,
            rotation: input.rotation,
            key: input.key,
            description: input.description,
        };
        assert(is_described(sym, id, given, symbol_place(old(self).schematic, given)));
        let _id = self.add_symbol(sym);
        self.log(ActivityLevel::Info, line);
        assert(self.events@.drop_last() =~= start + seq![Event::SymbolAdded { id, reference }]);
        Ok((reply, id))
    }

    /// Puts the pins with these addresses on a net, in place of those that
    /// are on it.
    pub fn tool_schematic_connect(&mut self, net: String, pins: &Vec<String>) -> (r: Result<
        (String, usize),
        ToolError,
    >)
        requires
            old(self).wf(),
        ensures
            final(self).wf(),
            ({
                let symbols = old(self).schematic.symbols@;
                let l = text::views(pins@);
                let fault = addresses_fault(symbols, l, 0);
                &&& fault is Some ==> r is Err
                &&& r matches Err(e) ==> *final(self) == *old(self) && e.code == INVALID_PARAMS
                &&& r matches Err(e) ==> (fault is Some ==> e.message@ == fault->0)
                &&& fault is None ==> exists|n: Net| #[trigger]
                    are_targets(symbols, n.connections@, l) && n.name == net && n.class is None
                        && match wiring::net_fault(symbols, n.connections@, 0) {
                        Some(m) => r matches Err(e) && e.message@ == m,
                        None => is_connected(*old(self), *final(self), n) && (r matches Ok(
                            (reply, count),
                        ) && count == pins@.len() && reply@ == "Net "@ + net@ + " now has "@
                            + text::dec(count as nat) + " connection(s)"@),
                    }
            }),
            *final(self) == (Project {
                board: Board { footprints: final(self).board.footprints, ..old(self).board },
                schematic: Schematic {
                    nets: final(self).schematic.nets,
                    ..old(self).schematic
                },
                events: final(self).events,
                ..*old(self)
            }),
    {
        let ghost start = self.events@;
        let connections = match resolve_pins(&self.schematic, pins) {
            Ok(cs) => cs,
            Err(e) => {
                return Err(ToolError::invalid_params(e));
            },
        };
        let count: usize = connections.len();
        let n = uint_text(count as u128);
        let line = "schematic.connect: ".to_owned().concat(net.as_str()).concat(" (").concat(
            n.as_str(),
        ).concat(" pin(s))");
        let reply = "Net ".to_owned().concat(net.as_str()).concat(" now has ").concat(
            n.as_str(),
        ).concat(" connection(s)");
        let whole = Net { name: net, connections, class: None };
        let ghost made = whole;
        assert(are_targets(self.schematic.symbols@, made.connections@, text::views(pins@)));
        assert(text::views(pins@).len() == pins@.len());
        match self.set_net(whole) {
            Ok(()) => {},
            Err(e) => {
                return Err(ToolError::invalid_params(e));
            },
        }
        self.log(ActivityLevel::Info, line);
        assert(self.events@.drop_last() =~= start + seq![
            Event::NetChanged { name: made.name, connection_count: count },
        ]);
        assert(is_connected(*old(self), *self, made));
        Ok((reply, count))
    }

    /// The pins that no net reaches, and the counts in words.
    pub fn tool_schematic_status(&self) -> (r: (String, Vec<String>))
        ensures
            text::views(r.1@) == loose_upto(self.schematic, self.schematic.symbols@.len() as int),
            r.0@ == "schematic: "@ + text::dec(self.schematic.symbols@.len()) + " symbol(s), "@
                + text::dec(self.schematic.nets.entries@.len()) + " net(s), "@ + text::dec(
                r.1@.len(),
            ) + " unconnected pin(s)"@,
    {
        let loose = loose_pins(&self.schematic);
        let s = uint_text(self.schematic.symbols.len() as u128);
        let n = uint_text(self.schematic.nets.entries.len() as u128);
        (
            "schematic: ".to_owned().concat(s.as_str()).concat(" symbol(s), ").concat(
                n.as_str(),
            ).concat(" net(s), ").concat(uint_text(loose.len() as u128).as_str()).concat(
                " unconnected pin(s)",
            ),
            loose,
        )
    }
}

/// The net was set, its pads were wired, and this was recorded.
pub open spec fn is_connected(before: Project, after: Project, net: Net) -> bool {
    let fps = before.board.footprints@;
    &&& after.schematic.nets.entries@ == name_map::with_entry(
        before.schematic.nets.entries@,
        net.name,
        net,
    )
    &&& after.board.footprints@.len() == fps.len()
    &&& forall|i: int|
        0 <= i < fps.len() ==> wiring::is_wired(
            before.schematic.symbols@,
            net,
            fps[i],
            #[trigger] after.board.footprints@[i],
        )
    &&& tools::reported(
        before.events@,
        seq![
            Event::NetChanged {
                name: net.name,
                connection_count: net.connections@.len() as usize,
            },
        ],
        after.events@,
        "schematic.connect: "@ + net.name@ + " ("@ + text::dec(net.connections@.len())
            + " pin(s))"@,
    )
}

} // verus!
