//! The schematic: symbols, nets between their pins, and net classes.

use vstd::prelude::*;

use crate::board::{CopperLayer, Id};
use crate::geometry::Point;
use crate::name_map;
use crate::name_map::NameMap;
use crate::rotation::Rotation;
use crate::text::str_eq;
use crate::units::Length;

verus! {

/// Side of a symbol body where a pin stub points outwards.
#[derive(Debug, Clone, Copy, PartialEq, Eq, Hash, Structural)]
pub enum PinSide {
    Left,
    Right,
    Top,
    Bottom,
}

/// Electrical role of a pin.
#[derive(Debug, Clone, Copy, PartialEq, Eq, Hash, Structural)]
pub enum PinRole {
    /// Neither drives nor sinks.
    Passive,
    /// Sinks a signal.
    Input,
    /// Drives a signal.
    Output,
    Bidir,
    /// Supplies a net with power.
    PowerOut,
    /// Draws power from a net.
    PowerIn,
}

impl Default for PinRole {
    fn default() -> (r: Self)
        ensures
            r == PinRole::Passive,
    {
        PinRole::Passive
    }
}

/// One pin of a symbol.
#[derive(Debug)]
pub struct SchPin {
    pub number: String,
    /// Readable name, possibly empty.
    pub name: String,
    pub side: PinSide,
    pub role: PinRole,
}

impl Clone for SchPin {
    fn clone(&self) -> (r: Self)
        ensures
            r == *self,
    {
        SchPin {
            number: self.number.clone(),
            name: self.name.clone(),
            side: self.side,
            role: self.role,
        }
    }
}

/// A pin by value.
pub ghost struct Pin {
    pub number: Seq<char>,
    pub name: Seq<char>,
    pub side: PinSide,
    pub role: PinRole,
}

impl SchPin {
    pub open spec fn pin(self) -> Pin {
        Pin { number: self.number@, name: self.name@, side: self.side, role: self.role }
    }
}

/// A list of pins by value.
pub open spec fn pin_views(v: Seq<SchPin>) -> Seq<Pin> {
    Seq::new(v.len(), |i: int| v[i].pin())
}

/// A passive pin on the given side.
pub open spec fn passive(number: Seq<char>, name: Seq<char>, side: PinSide) -> Pin {
    Pin { number, name, side, role: PinRole::Passive }
}

/// What a symbol is. Discrete parts have a fixed pinout.
#[derive(Debug)]
pub enum SymbolKind {
    Resistor,
    Capacitor,
    Inductor,
    Led,
    Diode,
    GenericIc { pins: Vec<SchPin> },
}

impl SymbolKind {
    /// The pins of the symbol, by value.
    pub open spec fn pinout(self) -> Seq<Pin> {
        match self {
            SymbolKind::Resistor | SymbolKind::Capacitor | SymbolKind::Inductor => seq![
                passive("1"@, Seq::empty(), PinSide::Left),
                passive("2"@, Seq::empty(), PinSide::Right),
            ],
            SymbolKind::Led | SymbolKind::Diode => seq![
                passive("A"@, "A"@, PinSide::Left),
                passive("K"@, "K"@, PinSide::Right),
            ],
            SymbolKind::GenericIc { pins } => pin_views(pins@),
        }
    }

    /// The two kinds agree, down to the pins.
    pub open spec fn same(self, o: SymbolKind) -> bool {
        match (self, o) {
            (SymbolKind::GenericIc { pins: a }, SymbolKind::GenericIc { pins: b }) => a@ == b@,
            _ => self == o,
        }
    }

    pub fn pins(&self) -> (r: Vec<SchPin>)
        ensures
            pin_views(r@) == self.pinout(),
    {
        match self {
            SymbolKind::Resistor | SymbolKind::Capacitor | SymbolKind::Inductor => {
                let mut v: Vec<SchPin> = Vec::new();
                v.push(fixed_pin("1", "", PinSide::Left));
                v.push(fixed_pin("2", "", PinSide::Right));
                proof {
                    reveal_strlit("");
                }
                assert(""@ =~= Seq::<char>::empty());
                assert(pin_views(v@) =~= self.pinout());
                v
            },
            SymbolKind::Led | SymbolKind::Diode => {
                let mut v: Vec<SchPin> = Vec::new();
                v.push(fixed_pin("A", "A", PinSide::Left));
                v.push(fixed_pin("K", "K", PinSide::Right));
                assert(pin_views(v@) =~= self.pinout());
                v
            },
            SymbolKind::GenericIc { pins } => {
                let v = pins.clone();
                assert(v@ =~= pins@);
                v
            },
        }
    }

    pub open spec fn short_name(self) -> Seq<char> {
        match self {
            SymbolKind::Resistor => "R"@,
            SymbolKind::Capacitor => "C"@,
            SymbolKind::Inductor => "L"@,
            SymbolKind::Led => "LED"@,
            SymbolKind::Diode => "D"@,
            SymbolKind::GenericIc { pins } => "IC"@,
        }
    }

    pub fn label(&self) -> (r: &'static str)
        ensures
            r@ == self.short_name(),
    {
        match self {
            SymbolKind::Resistor => "R",
            SymbolKind::Capacitor => "C",
            SymbolKind::Inductor => "L",
            SymbolKind::Led => "LED",
            SymbolKind::Diode => "D",
            SymbolKind::GenericIc { .. } => "IC",
        }
    }
}

fn fixed_pin(number: &str, name: &str, side: PinSide) -> (r: SchPin)
    ensures
        r.pin() == passive(number@, name@, side),
{
    SchPin { number: number.to_owned(), name: name.to_owned(), side, role: PinRole::Passive }
}

impl Clone for SymbolKind {
    fn clone(&self) -> (r: Self)
        ensures
            r.same(*self),
    {
        match self {
            SymbolKind::Resistor => SymbolKind::Resistor,
            SymbolKind::Capacitor => SymbolKind::Capacitor,
            SymbolKind::Inductor => SymbolKind::Inductor,
            SymbolKind::Led => SymbolKind::Led,
            SymbolKind::Diode => SymbolKind::Diode,
            SymbolKind::GenericIc { pins } => {
                let v = pins.clone();
                assert(v@ =~= pins@);
                SymbolKind::GenericIc { pins: v }
            },
        }
    }
}

/// A symbol on the schematic page.
#[derive(Debug)]
pub struct Symbol {
    pub id: Id,
    pub reference: String,
    pub value: String,
    pub kind: SymbolKind,
    pub position: Point,
    pub rotation: Rotation,
    /// Library key, empty if there is none.
    pub key: String,
    pub description: String,
}

/// One end of a net: a pin of a symbol.
#[derive(Debug)]
pub struct NetConnection {
    pub symbol_id: Id,
    pub pin_number: String,
}

impl Clone for NetConnection {
    fn clone(&self) -> (r: Self)
        ensures
            r == *self,
    {
        NetConnection { symbol_id: self.symbol_id, pin_number: self.pin_number.clone() }
    }
}

/// A named set of pins that are one electrical node.
#[derive(Debug)]
pub struct Net {
    pub name: String,
    pub connections: Vec<NetConnection>,
    /// The class that governs the physical rules of the net.
    pub class: Option<String>,
}

/// A named bundle of physical rules. A rule that is not set falls back to
/// the caller's default.
#[derive(Debug)]
pub struct NetClass {
    pub name: String,
    pub trace_width: Option<Length>,
    pub clearance: Option<Length>,
    pub via_diameter: Option<Length>,
    pub via_drill: Option<Length>,
    /// Single-ended impedance target in milliohms.
    pub target_impedance: Option<i64>,
    /// The partner net of a differential pair.
    pub diff_pair_with: Option<String>,
    pub diff_gap: Option<Length>,
    /// Copper layers on which nets of this class ride a pour.
    pub pour_layers: Vec<CopperLayer>,
    pub target_length: Option<Length>,
    pub length_tolerance: Length,
}

impl NetClass {
    /// The two classes agree in every rule.
    pub open spec fn same(self, o: NetClass) -> bool {
        &&& self.name == o.name
        &&& self.trace_width == o.trace_width
        &&& self.clearance == o.clearance
        &&& self.via_diameter == o.via_diameter
        &&& self.via_drill == o.via_drill
        &&& self.target_impedance == o.target_impedance
        &&& self.diff_pair_with == o.diff_pair_with
        &&& self.diff_gap == o.diff_gap
        &&& self.pour_layers@ == o.pour_layers@
        &&& self.target_length == o.target_length
        &&& self.length_tolerance == o.length_tolerance
    }

    /// The class without a name and without rules.
    pub open spec fn is_blank(self) -> bool {
        &&& self.name@.len() == 0
        &&& self.trace_width is None
        &&& self.clearance is None
        &&& self.via_diameter is None
        &&& self.via_drill is None
        &&& self.target_impedance is None
        &&& self.diff_pair_with is None
        &&& self.diff_gap is None
        &&& self.pour_layers@.len() == 0
        &&& self.target_length is None
        &&& self.length_tolerance.0 == 500_000
    }
}

impl Default for NetClass {
    fn default() -> (r: Self)
        ensures
            r.is_blank(),
    {
        NetClass {
            name: String::new(),
            trace_width: None,
            clearance: None,
            via_diameter: None,
            via_drill: None,
            target_impedance: None,
            diff_pair_with: None,
            diff_gap: None,
            pour_layers: Vec::new(),
            target_length: None,
            length_tolerance: Length(500_000),
        }
    }
}

fn clone_name(s: &Option<String>) -> (r: Option<String>)
    ensures
        r == *s,
{
    match s {
        Some(n) => Some(n.clone()),
        None => None,
    }
}

impl Clone for Net {
    fn clone(&self) -> (r: Self)
        ensures
            r.name == self.name,
            r.connections@ == self.connections@,
            r.class == self.class,
    {
        let r = Net {
            name: self.name.clone(),
            connections: self.connections.clone(),
            class: clone_name(&self.class),
        };
        assert(r.connections@ =~= self.connections@);
        r
    }
}

impl Clone for NetClass {
    fn clone(&self) -> (r: Self)
        ensures
            r.same(*self),
    {
        let r = NetClass {
            name: self.name.clone(),
            trace_width: self.trace_width,
            clearance: self.clearance,
            via_diameter: self.via_diameter,
            via_drill: self.via_drill,
            target_impedance: self.target_impedance,
            diff_pair_with: clone_name(&self.diff_pair_with),
            diff_gap: self.diff_gap,
            pour_layers: self.pour_layers.clone(),
            target_length: self.target_length,
            length_tolerance: self.length_tolerance,
        };
        assert(r.pour_layers@ =~= self.pour_layers@);
        r
    }
}

/// The routing rules of one net, each with a value.
#[derive(Debug, Clone, Copy)]
pub struct ResolvedNetRules {
    pub trace_width: Length,
    pub clearance: Length,
    pub via_diameter: Length,
    pub via_drill: Length,
}

/// Symbols in the order of insertion, nets by name, and net classes.
#[derive(Debug)]
pub struct Schematic {
    pub symbols: Vec<Symbol>,
    pub nets: NameMap<Net>,
    pub net_classes: NameMap<NetClass>,
    /// Class names by net name; wins over the class a net names itself.
    pub net_to_class: NameMap<String>,
}

/// The connection is to that pin.
pub open spec fn is_pin(c: NetConnection, id: Id, pin: Seq<char>) -> bool {
    c.symbol_id == id && c.pin_number@ == pin
}

/// The net reaches that pin.
pub open spec fn reaches(net: Net, id: Id, pin: Seq<char>) -> bool {
    exists|j: int|
        0 <= j < net.connections@.len() && #[trigger] is_pin(net.connections@[j], id, pin)
}

fn net_reaches(net: &Net, id: Id, pin: &str) -> (r: bool)
    ensures
        r == reaches(*net, id, pin@),
{
    let mut j: usize = 0;
    while j < net.connections.len()
        invariant
            j <= net.connections@.len(),
            forall|k: int|
                0 <= k < j ==> !#[trigger] is_pin(net.connections@[k], id, pin@),
        decreases net.connections@.len() - j,
    {
        let c = &net.connections[j];
        if c.symbol_id == id && str_eq(c.pin_number.as_str(), pin) {
            assert(is_pin(net.connections@[j as int], id, pin@));
            return true;
        }
        j += 1;
    }
    false
}

/// The symbols after `s` was added: in its old place where the id is
/// known, else behind the others.
pub open spec fn with_symbol(v: Seq<Symbol>, s: Symbol, i: int) -> Seq<Symbol>
    decreases v.len() - i,
{
    if i < 0 || i >= v.len() {
        v.push(s)
    } else if v[i].id == s.id {
        v.update(i, s)
    } else {
        with_symbol(v, s, i + 1)
    }
}

/// The first symbol from `i` on with that reference designator.
pub open spec fn referenced(v: Seq<Symbol>, reference: Seq<char>, i: int) -> Option<Symbol>
    decreases v.len() - i,
{
    if i < 0 || i >= v.len() {
        None
    } else if v[i].reference@ == reference {
        Some(v[i])
    } else {
        referenced(v, reference, i + 1)
    }
}

/// `set` where it is there, else `default`.
pub open spec fn or_default(set: Option<Length>, default: Length) -> Length {
    match set {
        Some(l) => l,
        None => default,
    }
}

fn pick(set: Option<Length>, default: Length) -> (r: Length)
    ensures
        r == or_default(set, default),
{
    match set {
        Some(l) => l,
        None => default,
    }
}

impl Schematic {
    /// No symbol id, net name or class name occurs twice.
    pub open spec fn wf(self) -> bool {
        &&& forall|i: int, j: int|
            0 <= i < j < self.symbols@.len() ==> (#[trigger] self.symbols@[i]).id
                != (#[trigger] self.symbols@[j]).id
        &&& self.nets.wf()
        &&& self.net_classes.wf()
        &&& self.net_to_class.wf()
    }

    pub fn new() -> (r: Self)
        ensures
            r.wf(),
            r.symbols@.len() == 0,
            r.nets.entries@.len() == 0,
            r.net_classes.entries@.len() == 0,
            r.net_to_class.entries@.len() == 0,
    {
        Schematic {
            symbols: Vec::new(),
            nets: NameMap::new(),
            net_classes: NameMap::new(),
            net_to_class: NameMap::new(),
        }
    }

    /// Adds a symbol behind the others; one that has its id already is
    /// replaced where it stands.
    pub fn add_symbol(&mut self, symbol: Symbol) -> (r: Id)
        requires
            old(self).wf(),
        ensures
            r == symbol.id,
            final(self).wf(),
            final(self).symbols@ == with_symbol(old(self).symbols@, symbol, 0),
            *final(self) == (Schematic { symbols: final(self).symbols, ..*old(self) }),
    {
        let id = symbol.id;
        let ghost v = self.symbols@;
        let mut i: usize = 0;
        while i < self.symbols.len()
            invariant
                i <= self.symbols@.len(),
                id == symbol.id,
                v == self.symbols@,
                *self == *old(self),
                old(self).wf(),
                forall|k: int| 0 <= k < i ==> (#[trigger] v[k]).id != id,
                with_symbol(v, symbol, 0) == with_symbol(v, symbol, i as int),
            decreases self.symbols@.len() - i,
        {
            if self.symbols[i].id == id {
                self.symbols.set(i, symbol);
                return id;
            }
            i += 1;
        }
        self.symbols.push(symbol);
        id
    }

    /// The first symbol with that reference designator.
    pub fn find_by_reference(&self, reference: &str) -> (r: Option<&Symbol>)
        ensures
            r is Some <==> referenced(self.symbols@, reference@, 0) is Some,
            r matches Some(s) ==> referenced(self.symbols@, reference@, 0) == Some(*s),
    {
        let mut i: usize = 0;
        while i < self.symbols.len()
            invariant
                i <= self.symbols@.len(),
                referenced(self.symbols@, reference@, 0) == referenced(
                    self.symbols@,
                    reference@,
                    i as int,
                ),
            decreases self.symbols@.len() - i,
        {
            if str_eq(self.symbols[i].reference.as_str(), reference) {
                return Some(&self.symbols[i]);
            }
            i += 1;
        }
        None
    }

    /// Adds a net or replaces the one of its name.
    pub fn set_net(&mut self, net: Net)
        ensures
            final(self).nets.entries@ == name_map::with_entry(
                old(self).nets.entries@,
                net.name,
                net,
            ),
            old(self).wf() ==> final(self).wf(),
            *final(self) == (Schematic { nets: final(self).nets, ..*old(self) }),
    {
        let name = net.name.clone();
        self.nets.insert(name, net);
    }

    pub fn symbols_in_order(&self) -> (r: &Vec<Symbol>)
        ensures
            r@ == self.symbols@,
    {
        &self.symbols
    }

    /// Adds a class or replaces the one of its name.
    pub fn set_net_class(&mut self, class: NetClass)
        ensures
            final(self).net_classes.entries@ == name_map::with_entry(
                old(self).net_classes.entries@,
                class.name,
                class,
            ),
            old(self).wf() ==> final(self).wf(),
            *final(self) == (Schematic { net_classes: final(self).net_classes, ..*old(self) }),
    {
        let name = class.name.clone();
        self.net_classes.insert(name, class);
    }

    /// Puts a net into a class; neither has to be declared yet.
    pub fn assign_net_to_class(&mut self, net_name: String, class_name: String)
        ensures
            final(self).net_to_class.entries@ == name_map::with_entry(
                old(self).net_to_class.entries@,
                net_name,
                class_name,
            ),
            old(self).wf() ==> final(self).wf(),
            *final(self) == (Schematic { net_to_class: final(self).net_to_class, ..*old(self) }),
    {
        self.net_to_class.insert(net_name, class_name);
    }

    /// The class that the assignment gives to a net.
    pub open spec fn assigned_class(self, net: Seq<char>) -> Option<NetClass> {
        match self.net_to_class.of(net) {
            Some(c) => self.net_classes.of(c@),
            None => None,
        }
    }

    /// The class that a net names itself.
    pub open spec fn own_class(self, net: Seq<char>) -> Option<NetClass> {
        match self.nets.of(net) {
            Some(n) => match n.class {
                Some(c) => self.net_classes.of(c@),
                None => None,
            },
            None => None,
        }
    }

    /// The declared class that governs a net.
    pub open spec fn class_of(self, net: Seq<char>) -> Option<NetClass> {
        match self.assigned_class(net) {
            Some(c) => Some(c),
            None => self.own_class(net),
        }
    }

    /// The declared class that governs a net: the assigned one, or else
    /// the one that the net names.
    pub fn class_for_net(&self, net_name: &str) -> (r: Option<&NetClass>)
        ensures
            r is Some <==> self.class_of(net_name@) is Some,
            r matches Some(c) ==> self.class_of(net_name@) == Some(*c),
    {
        if let Some(c) = self.net_to_class.get(net_name) {
            if let Some(k) = self.net_classes.get(c.as_str()) {
                return Some(k);
            }
        }
        match self.nets.get(net_name) {
            Some(n) => match &n.class {
                Some(c) => self.net_classes.get(c.as_str()),
                None => None,
            },
            None => None,
        }
    }

    /// The class that governs a net, or one without rules.
    pub fn class_for(&self, net_name: &str) -> (r: NetClass)
        ensures
            self.class_of(net_name@) matches Some(c) ==> r.same(c),
            self.class_of(net_name@) is None ==> r.is_blank(),
    {
        match self.class_for_net(net_name) {
            Some(c) => c.clone(),
            None => NetClass::default(),
        }
    }

    /// The rules of a net, with the caller's values where its class is
    /// silent or missing.
    pub open spec fn rules_of(
        self,
        net: Seq<char>,
        trace_width: Length,
        clearance: Length,
        via_diameter: Length,
        via_drill: Length,
    ) -> ResolvedNetRules {
        match self.class_of(net) {
            None => ResolvedNetRules { trace_width, clearance, via_diameter, via_drill },
            Some(c) => ResolvedNetRules {
                trace_width: or_default(c.trace_width, trace_width),
                clearance: or_default(c.clearance, clearance),
                via_diameter: or_default(c.via_diameter, via_diameter),
                via_drill: or_default(c.via_drill, via_drill),
            },
        }
    }

    pub fn resolved_for_net(
        &self,
        net_name: &str,
        default_trace_width: Length,
        default_clearance: Length,
        default_via_diameter: Length,
        default_via_drill: Length,
    ) -> (r: ResolvedNetRules)
        ensures
            r == self.rules_of(
                net_name@,
                default_trace_width,
                default_clearance,
                default_via_diameter,
                default_via_drill,
            ),
    {
        let class = self.class_for(net_name);
        ResolvedNetRules {
            trace_width: pick(class.trace_width, default_trace_width),
            clearance: pick(class.clearance, default_clearance),
            via_diameter: pick(class.via_diameter, default_via_diameter),
            via_drill: pick(class.via_drill, default_via_drill),
        }
    }

    /// The name of the first net from `i` on that reaches the pin.
    pub open spec fn pin_net(self, id: Id, pin: Seq<char>, i: int) -> Option<Seq<char>>
        decreases self.nets.entries@.len() - i,
    {
        if i < 0 || i >= self.nets.entries@.len() {
            None
        } else if reaches(self.nets.entries@[i].1, id, pin) {
            Some(self.nets.entries@[i].1.name@)
        } else {
            self.pin_net(id, pin, i + 1)
        }
    }

    /// The net that a pin is on; the first, where there are several.
    pub fn net_for_pin(&self, symbol_id: Id, pin_number: &str) -> (r: Option<&str>)
        ensures
            r is Some <==> self.pin_net(symbol_id, pin_number@, 0) is Some,
            r matches Some(n) ==> self.pin_net(symbol_id, pin_number@, 0) == Some(n@),
    {
        let mut i: usize = 0;
        while i < self.nets.entries.len()
            invariant
                i <= self.nets.entries@.len(),
                self.pin_net(symbol_id, pin_number@, 0) == self.pin_net(
                    symbol_id,
                    pin_number@,
                    i as int,
                ),
            decreases self.nets.entries@.len() - i,
        {
            let net = &self.nets.entries[i].1;
            if net_reaches(net, symbol_id, pin_number) {
                return Some(net.name.as_str());
            }
            i += 1;
        }
        None
    }
}

/// An assignment to a declared class governs the net, whatever class the
/// net names itself.
pub proof fn assignment_wins(sch: Schematic, net: Seq<char>, class: Seq<char>, rules: NetClass)
    requires
        sch.net_to_class.of(net) matches Some(c) && c@ == class,
        sch.net_classes.of(class) == Some(rules),
    ensures
        sch.class_of(net) == Some(rules),
{
}

} // verus!
