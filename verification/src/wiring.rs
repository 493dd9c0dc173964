//! Nets of the schematic, and the pads that they reach on the board.

use vstd::prelude::*;

use crate::board;
use crate::board::{Board, Footprint, Id, Pad};
use crate::event::Event;
use crate::ids;
use crate::name_map;
use crate::project::Project;
use crate::schematic;
use crate::schematic::{Net, NetConnection, Schematic, Symbol};
use crate::text::str_eq;

verus! {

/// The index of the first symbol from `i` on with that id; the length where
/// there is none.
pub open spec fn symbol_from(v: Seq<Symbol>, id: Id, i: int) -> int
    decreases v.len() - i,
{
    if i < 0 || i >= v.len() {
        v.len() as int
    } else if v[i].id == id {
        i
    } else {
        symbol_from(v, id, i + 1)
    }
}

pub fn find_symbol(v: &Vec<Symbol>, id: Id) -> (r: usize)
    ensures
        r == symbol_from(v@, id, 0),
        r <= v@.len(),
{
    let mut i: usize = 0;
    while i < v.len()
        invariant
            i <= v@.len(),
            symbol_from(v@, id, 0) == symbol_from(v@, id, i as int),
        decreases v@.len() - i,
    {
        if v[i].id == id {
            return i;
        }
        i += 1;
    }
    i
}

/// The symbol has a pin with that number.
pub open spec fn has_pin(s: Symbol, number: Seq<char>) -> bool {
    exists|i: int|
        0 <= i < s.kind.pinout().len() && #[trigger] s.kind.pinout()[i].number == number
}

fn symbol_has_pin(s: &Symbol, number: &str) -> (r: bool)
    ensures
        r == has_pin(*s, number@),
{
    let pins = s.kind.pins();
    let ghost p = s.kind.pinout();
    assert(p.len() == pins@.len());
    let mut i: usize = 0;
    while i < pins.len()
        invariant
            i <= pins@.len(),
            p == s.kind.pinout(),
            p == schematic::pin_views(pins@),
            forall|k: int| 0 <= k < i ==> (#[trigger] p[k]).number != number@,
        decreases pins@.len() - i,
    {
        assert(p[i as int].number == pins@[i as int].number@);
        if str_eq(pins[i].number.as_str(), number) {
            return true;
        }
        i += 1;
    }
    false
}

/// What is wrong with the first connection from `i` on that leads nowhere.
pub open spec fn net_fault(v: Seq<Symbol>, cs: Seq<NetConnection>, i: int) -> Option<Seq<char>>
    decreases cs.len() - i,
{
    if i < 0 || i >= cs.len() {
        None
    } else {
        let k = symbol_from(v, cs[i].symbol_id, 0);
        if k >= v.len() {
            Some("unknown symbol "@ + ids::hyphenated(cs[i].symbol_id.0 as nat))
        } else if !has_pin(v[k], cs[i].pin_number@) {
            Some("symbol "@ + v[k].reference@ + " has no pin "@ + cs[i].pin_number@)
        } else {
            net_fault(v, cs, i + 1)
        }
    }
}

fn check_net(v: &Vec<Symbol>, cs: &Vec<NetConnection>) -> (r: Option<String>)
    ensures
        match r {
            Some(e) => net_fault(v@, cs@, 0) == Some(e@),
            None => net_fault(v@, cs@, 0) is None,
        },
{
    let mut i: usize = 0;
    while i < cs.len()
        invariant
            i <= cs@.len(),
            net_fault(v@, cs@, 0) == net_fault(v@, cs@, i as int),
        decreases cs@.len() - i,
    {
        let c = &cs[i];
        let k: usize = find_symbol(v, c.symbol_id);
        if k >= v.len() {
            return Some("unknown symbol ".to_owned().concat(c.symbol_id.text().as_str()));
        }
        if !symbol_has_pin(&v[k], c.pin_number.as_str()) {
            return Some(
                "symbol ".to_owned().concat(v[k].reference.as_str()).concat(
                    " has no pin ",
                ).concat(c.pin_number.as_str()),
            );
        }
        i += 1;
    }
    None
}

/// The index of the first pad from `i` on with that number; the length
/// where there is none.
pub open spec fn number_from(v: Seq<Pad>, number: Seq<char>, i: int) -> int
    decreases v.len() - i,
{
    if i < 0 || i >= v.len() {
        v.len() as int
    } else if v[i].number@ == number {
        i
    } else {
        number_from(v, number, i + 1)
    }
}

/// The index of the first pad from `i` on of that name; the length where
/// there is none.
pub open spec fn name_from(v: Seq<Pad>, name: Seq<char>, i: int) -> int
    decreases v.len() - i,
{
    if i < 0 || i >= v.len() {
        v.len() as int
    } else if v[i].name@ == name {
        i
    } else {
        name_from(v, name, i + 1)
    }
}

/// The index of the pad that `pin` addresses: the first with that number, or
/// where no pad has it the first of that name; the length where there is
/// none.
pub open spec fn pad_at(v: Seq<Pad>, pin: Seq<char>) -> int {
    let k = number_from(v, pin, 0);
    if k < v.len() {
        k
    } else {
        name_from(v, pin, 0)
    }
}

/// The pads after the one that `pin` addresses was put on the net.
pub open spec fn wired(v: Seq<Pad>, pin: Seq<char>, net: String) -> Seq<Pad> {
    let k = pad_at(v, pin);
    if k < v.len() {
        v.update(k, Pad { net: Some(net), ..v[k] })
    } else {
        v
    }
}

/// The connection leads to the symbol with that reference.
pub open spec fn leads_to(v: Seq<Symbol>, c: NetConnection, reference: Seq<char>) -> bool {
    let k = symbol_from(v, c.symbol_id, 0);
    k < v.len() && v[k].reference@ == reference
}

/// The pads of the footprint with that reference after the first `n`
/// connections were followed.
pub open spec fn wired_by(
    symbols: Seq<Symbol>,
    cs: Seq<NetConnection>,
    net: String,
    reference: Seq<char>,
    pads: Seq<Pad>,
    n: int,
) -> Seq<Pad>
    decreases n,
{
    if n <= 0 {
        pads
    } else {
        let before = wired_by(symbols, cs, net, reference, pads, n - 1);
        if leads_to(symbols, cs[n - 1], reference) {
            wired(before, cs[n - 1].pin_number@, net)
        } else {
            before
        }
    }
}

/// The pads of a footprint after the net was followed.
pub open spec fn pads_after(symbols: Seq<Symbol>, net: Net, fp: Footprint) -> Seq<Pad> {
    wired_by(
        symbols,
        net.connections@,
        net.name,
        fp.reference@,
        fp.pads@,
        net.connections@.len() as int,
    )
}

fn find_pad(v: &Vec<Pad>, pin: &str) -> (r: usize)
    ensures
        r == pad_at(v@, pin@),
        r <= v@.len(),
{
    let mut i: usize = 0;
    while i < v.len()
        invariant
            i <= v@.len(),
            number_from(v@, pin@, 0) == number_from(v@, pin@, i as int),
        decreases v@.len() - i,
    {
        if str_eq(v[i].number.as_str(), pin) {
            return i;
        }
        i += 1;
    }
    let mut i: usize = 0;
    while i < v.len()
        invariant
            i <= v@.len(),
            number_from(v@, pin@, 0) == v@.len(),
            name_from(v@, pin@, 0) == name_from(v@, pin@, i as int),
        decreases v@.len() - i,
    {
        if str_eq(v[i].name.as_str(), pin) {
            return i;
        }
        i += 1;
    }
    i
}

fn wire_footprint(fp: &mut Footprint, symbols: &Vec<Symbol>, net: &Net)
    ensures
        final(fp).pads@ == pads_after(symbols@, *net, *old(fp)),
        *final(fp) == (Footprint { pads: final(fp).pads, ..*old(fp) }),
{
    let ghost start = *fp;
    let mut i: usize = 0;
    while i < net.connections.len()
        invariant
            i <= net.connections@.len(),
            *fp == (Footprint { pads: fp.pads, ..start }),
            fp.pads@ == wired_by(
                symbols@,
                net.connections@,
                net.name,
                start.reference@,
                start.pads@,
                i as int,
            ),
        decreases net.connections@.len() - i,
    {
        let c = &net.connections[i];
        let k: usize = find_symbol(symbols, c.symbol_id);
        if k < symbols.len() && str_eq(symbols[k].reference.as_str(), fp.reference.as_str()) {
            let j: usize = find_pad(&fp.pads, c.pin_number.as_str());
            if j < fp.pads.len() {
                let ghost before = fp.pads@;
                fp.pads[j].net = Some(net.name.clone());
                assert(fp.pads@ =~= before.update(
                    j as int,
                    Pad { net: Some(net.name), ..before[j as int] },
                ));
            }
        }
        i += 1;
    }
}

/// The footprint after the net was followed: its pads, and nothing else,
/// may have changed.
pub open spec fn is_wired(symbols: Seq<Symbol>, net: Net, before: Footprint, after: Footprint) -> bool {
    &&& after.pads@ == pads_after(symbols, net, before)
    &&& after == (Footprint { pads: after.pads, ..before })
}

impl Project {
    /// Puts the pads that a net reaches on it.
    fn propagate_net_to_pads(&mut self, net: &Net)
        requires
            old(self).board.ids_unique(),
        ensures
            final(self).board.ids_unique(),
            final(self).board.footprints@.len() == old(self).board.footprints@.len(),
            forall|i: int|
                0 <= i < old(self).board.footprints@.len() ==> is_wired(
                    old(self).schematic.symbols@,
                    *net,
                    old(self).board.footprints@[i],
                    #[trigger] final(self).board.footprints@[i],
                ),
            *final(self) == (Project {
                board: Board { footprints: final(self).board.footprints, ..old(self).board },
                ..*old(self)
            }),
    {
        let ghost all = self.board.footprints@;
        let ghost symbols = self.schematic.symbols@;
        let mut i: usize = 0;
        while i < self.board.footprints.len()
            invariant
                i <= all.len(),
                all == old(self).board.footprints@,
                symbols == old(self).schematic.symbols@,
                old(self).board.ids_unique(),
                self.board.footprints@.len() == all.len(),
                forall|k: int|
                    0 <= k < i ==> is_wired(
                        symbols,
                        *net,
                        all[k],
                        #[trigger] self.board.footprints@[k],
                    ),
                forall|k: int|
                    i <= k < all.len() ==> #[trigger] self.board.footprints@[k] == all[k],
                *self == (Project {
                    board: Board { footprints: self.board.footprints, ..old(self).board },
                    ..*old(self)
                }),
            decreases all.len() - i,
        {
            let ghost before = self.board.footprints@;
            wire_footprint(&mut self.board.footprints[i], &self.schematic.symbols, net);
            assert(self.board.footprints@ =~= before.update(
                i as int,
                self.board.footprints@[i as int],
            ));
            i += 1;
        }
        assert forall|a: int, b: int| 0 <= a < b < all.len() implies #[trigger] self.board.footprints@[a].id
            != #[trigger] self.board.footprints@[b].id by {
            assert(all[a].id != all[b].id);
            assert(is_wired(symbols, *net, all[a], self.board.footprints@[a]));
            assert(is_wired(symbols, *net, all[b], self.board.footprints@[b]));
        }
    }

    /// Adds a net or replaces the one of its name, and puts the pads that
    /// it reaches on it. An error where a connection leads nowhere.
    pub fn set_net(&mut self, net: Net) -> (r: Result<(), String>)
        requires
            old(self).wf(),
        ensures
            final(self).wf(),
            ({
                let symbols = old(self).schematic.symbols@;
                let fault = net_fault(symbols, net.connections@, 0);
                &&& r is Ok <==> fault is None
                &&& r matches Err(e) ==> e@ == fault->0 && *final(self) == *old(self)
                &&& r is Ok ==> {
                    let fps = old(self).board.footprints@;
                    &&& final(self).schematic.nets.entries@ == name_map::with_entry(
                        old(self).schematic.nets.entries@,
                        net.name,
                        net,
                    )
                    &&& final(self).board.footprints@.len() == fps.len()
                    &&& forall|i: int|
                        0 <= i < fps.len() ==> is_wired(
                            symbols,
                            net,
                            fps[i],
                            #[trigger] final(self).board.footprints@[i],
                        )
                    &&& final(self).events@ == old(self).events@.push(
                        Event::NetChanged {
                            name: net.name,
                            connection_count: net.connections@.len() as usize,
                        },
                    )
                }
            }),
            *final(self) == (Project {
                board: Board { footprints: final(self).board.footprints, ..old(self).board },
                schematic: Schematic {
                    nets: final(self).schematic.nets,
                    ..old(self).schematic
                },
                events: final(self).events,
                ..*old(self)
            }),
    {
        if let Some(e) = check_net(&self.schematic.symbols, &net.connections) {
            return Err(e);
        }
        self.propagate_net_to_pads(&net);
        let name = net.name.clone();
        let connection_count: usize = net.connections.len();
        self.schematic.set_net(net);
        self.publish(Event::NetChanged { name, connection_count });
        Ok(())
    }
}

pub proof fn number_is_first(v: Seq<Pad>, number: Seq<char>, i: int)
    requires
        0 <= i <= v.len(),
    ensures
        i <= number_from(v, number, i) <= v.len(),
        number_from(v, number, i) < v.len() ==> v[number_from(v, number, i)].number@ == number,
        forall|k: int| i <= k < number_from(v, number, i) ==> (#[trigger] v[k]).number@ != number,
    decreases v.len() - i,
{
    if i < v.len() && v[i].number@ != number {
        number_is_first(v, number, i + 1);
    }
}

pub proof fn name_is_first(v: Seq<Pad>, name: Seq<char>, i: int)
    requires
        0 <= i <= v.len(),
    ensures
        i <= name_from(v, name, i) <= v.len(),
        name_from(v, name, i) < v.len() ==> v[name_from(v, name, i)].name@ == name,
        forall|k: int| i <= k < name_from(v, name, i) ==> (#[trigger] v[k]).name@ != name,
    decreases v.len() - i,
{
    if i < v.len() && v[i].name@ != name {
        name_is_first(v, name, i + 1);
    }
}

pub proof fn pad_at_range(v: Seq<Pad>, pin: Seq<char>)
    ensures
        0 <= pad_at(v, pin) <= v.len(),
{
    number_is_first(v, pin, 0);
    name_is_first(v, pin, 0);
}

/// A pin addresses a pad by its number, and by its name only where no pad
/// has the number.
pub proof fn numbers_come_first(v: Seq<Pad>, pin: Seq<char>)
    ensures
        ({
            let k = pad_at(v, pin);
            k < v.len() ==> {
                ||| v[k].number@ == pin
                ||| v[k].name@ == pin && forall|i: int|
                    0 <= i < v.len() ==> (#[trigger] v[i]).number@ != pin
            }
        }),
{
    number_is_first(v, pin, 0);
    name_is_first(v, pin, 0);
}

/// Two lists of pads that differ at most in their nets.
pub open spec fn same_pins(a: Seq<Pad>, b: Seq<Pad>) -> bool {
    &&& a.len() == b.len()
    &&& forall|i: int|
        0 <= i < a.len() ==> (#[trigger] a[i]).number == b[i].number && a[i].name == b[i].name
}

proof fn same_pins_from(a: Seq<Pad>, b: Seq<Pad>, pin: Seq<char>, i: int)
    requires
        same_pins(a, b),
        0 <= i <= a.len(),
    ensures
        number_from(a, pin, i) == number_from(b, pin, i),
        name_from(a, pin, i) == name_from(b, pin, i),
    decreases a.len() - i,
{
    if i < a.len() {
        assert(a[i].number == b[i].number && a[i].name == b[i].name);
        same_pins_from(a, b, pin, i + 1);
    }
}

pub proof fn same_pins_same_place(a: Seq<Pad>, b: Seq<Pad>, pin: Seq<char>)
    requires
        same_pins(a, b),
    ensures
        pad_at(a, pin) == pad_at(b, pin),
{
    same_pins_from(a, b, pin, 0);
}

pub proof fn wiring_keeps_pins(
    symbols: Seq<Symbol>,
    cs: Seq<NetConnection>,
    net: String,
    reference: Seq<char>,
    pads: Seq<Pad>,
    n: int,
)
    ensures
        same_pins(pads, wired_by(symbols, cs, net, reference, pads, n)),
    decreases n,
{
    if n > 0 {
        wiring_keeps_pins(symbols, cs, net, reference, pads, n - 1);
        let w = wired_by(symbols, cs, net, reference, pads, n - 1);
        pad_at_range(w, cs[n - 1].pin_number@);
    }
}

/// Every pad that one of the first `m` connections leads to is on the net
/// after the first `n` of them were followed.
proof fn reached_pads_are_on_the_net(
    symbols: Seq<Symbol>,
    cs: Seq<NetConnection>,
    net: String,
    reference: Seq<char>,
    pads: Seq<Pad>,
    m: int,
    n: int,
)
    requires
        0 < m <= n <= cs.len(),
        leads_to(symbols, cs[m - 1], reference),
    ensures
        ({
            let w = wired_by(symbols, cs, net, reference, pads, n);
            let k = pad_at(w, cs[m - 1].pin_number@);
            k < w.len() ==> w[k].net == Some(net)
        }),
    decreases n,
{
    let pin = cs[m - 1].pin_number@;
    let w = wired_by(symbols, cs, net, reference, pads, n);
    let before = wired_by(symbols, cs, net, reference, pads, n - 1);
    wiring_keeps_pins(symbols, cs, net, reference, pads, n);
    wiring_keeps_pins(symbols, cs, net, reference, pads, n - 1);
    same_pins_same_place(pads, w, pin);
    same_pins_same_place(pads, before, pin);
    pad_at_range(w, pin);
    pad_at_range(before, cs[n - 1].pin_number@);
    if m < n {
        reached_pads_are_on_the_net(symbols, cs, net, reference, pads, m, n - 1);
    }
}

/// Following a net a second time changes no pad.
pub proof fn wiring_is_idempotent(symbols: Seq<Symbol>, net: Net, fp: Footprint, again: Footprint)
    requires
        is_wired(symbols, net, fp, again),
    ensures
        pads_after(symbols, net, again) == again.pads@,
{
    let cs = net.connections@;
    second_pass(symbols, cs, net.name, fp.reference@, fp.pads@, cs.len() as int);
}

proof fn second_pass(
    symbols: Seq<Symbol>,
    cs: Seq<NetConnection>,
    net: String,
    reference: Seq<char>,
    pads: Seq<Pad>,
    n: int,
)
    requires
        0 <= n <= cs.len(),
    ensures
        ({
            let w = wired_by(symbols, cs, net, reference, pads, cs.len() as int);
            wired_by(symbols, cs, net, reference, w, n) == w
        }),
    decreases n,
{
    let w = wired_by(symbols, cs, net, reference, pads, cs.len() as int);
    if n > 0 {
        second_pass(symbols, cs, net, reference, pads, n - 1);
        if leads_to(symbols, cs[n - 1], reference) {
            reached_pads_are_on_the_net(
                symbols,
                cs,
                net,
                reference,
                pads,
                n,
                cs.len() as int,
            );
            pad_at_range(w, cs[n - 1].pin_number@);
            assert(wired(w, cs[n - 1].pin_number@, net) =~= w);
        }
    }
}

/// A net that was set reads back under its name, and every other net reads
/// as before.
pub proof fn set_net_reads_back(s: Schematic, net: Net, other: Seq<char>)
    ensures
        ({
            let nets = name_map::with_entry(s.nets.entries@, net.name, net);
            &&& name_map::looked_up(nets, net.name@) == Some(net)
            &&& other != net.name@ ==> name_map::looked_up(nets, other) == name_map::looked_up(
                s.nets.entries@,
                other,
            )
        }),
{
    name_map::insert_reads_back(s.nets.entries@, net.name, net, other);
}

} // verus!
