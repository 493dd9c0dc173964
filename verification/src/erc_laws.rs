//! What the electrical rule check finds, in terms of the schematic and the
//! board: for each kind of finding, when there is one and whom it names.

use vstd::prelude::*;

use crate::board::Board;
use crate::drc;
use crate::erc;
use crate::erc::{ErcKind, ErcOptions, Note};
use crate::list;
use crate::schematic::{Net, NetConnection, Pin, PinRole, Schematic};
use crate::violation::Severity;

verus! {

/// The list holds a note of that kind and severity that names exactly those.
pub open spec fn noted(
    f: Seq<Note>,
    kind: ErcKind,
    severity: Severity,
    involved: Seq<Seq<char>>,
) -> bool {
    exists|k: int|
        0 <= k < f.len() && (#[trigger] f[k]).kind == kind && f[k].severity == severity
            && f[k].involved == involved
}

/// How many notes are of the kind.
pub open spec fn tally_of(f: Seq<Note>, kind: ErcKind) -> nat
    decreases f.len(),
{
    if f.len() == 0 {
        0
    } else {
        tally_of(f.drop_last(), kind) + if f.last().kind == kind {
            1nat
        } else {
            0nat
        }
    }
}

/// The symbol at place `i` is the first with the id that the connection
/// names.
pub open spec fn leads_to(s: Schematic, c: NetConnection, i: int) -> bool {
    &&& 0 <= i < s.symbols@.len()
    &&& s.symbols@[i].id == c.symbol_id
    &&& forall|k: int| 0 <= k < i ==> (#[trigger] s.symbols@[k]).id != c.symbol_id
}

/// The connection goes to pin `j` of the symbol at place `i`, the first with
/// its number.
pub open spec fn leads_to_pin(s: Schematic, c: NetConnection, i: int, j: int) -> bool {
    &&& leads_to(s, c, i)
    &&& 0 <= j < s.symbols@[i].kind.pinout().len()
    &&& s.symbols@[i].kind.pinout()[j].number == c.pin_number@
    &&& forall|k: int|
        0 <= k < j ==> (#[trigger] s.symbols@[i].kind.pinout()[k]).number != c.pin_number@
}

/// The connection goes to a pin with that role.
pub open spec fn plays(s: Schematic, c: NetConnection, role: PinRole) -> bool {
    exists|i: int, j: int| #[trigger]
        leads_to_pin(s, c, i, j) && s.symbols@[i].kind.pinout()[j].role == role
}

/// Some pin of the net has the role.
pub open spec fn some_plays(s: Schematic, net: Net, role: PinRole) -> bool {
    exists|j: int| 0 <= j < net.connections@.len() && plays(s, #[trigger] net.connections@[j], role)
}

/// Some pour of the board carries the net.
pub open spec fn is_poured(b: Board, net: Seq<char>) -> bool {
    exists|k: int| 0 <= k < b.pours@.len() && (#[trigger] b.pours@[k]).net@ == net
}

/// The net has a supply: a power output or a pour.
pub open spec fn has_supply(b: Board, s: Schematic, i: int) -> bool {
    some_plays(s, s.nets.entries@[i].1, PinRole::PowerOut) || is_poured(b, s.nets.entries@[i].0@)
}

/// Something drives the net: a pin that is an output, goes both ways or
/// supplies power, or a pour.
pub open spec fn has_driver(b: Board, s: Schematic, i: int) -> bool {
    ||| some_plays(s, s.nets.entries@[i].1, PinRole::Output)
    ||| some_plays(s, s.nets.entries@[i].1, PinRole::Bidir)
    ||| has_supply(b, s, i)
}

/// What a connection is called: the reference of its symbol and the number
/// of its pin.
pub open spec fn pin_name(s: Schematic, c: NetConnection) -> Seq<char> {
    erc::label(s, c.symbol_id, c.pin_number@)
}

/// A known symbol gives its reference, a dot and the number of the pin.
pub proof fn pins_are_named_after_their_symbol(s: Schematic, c: NetConnection, i: int)
    requires
        leads_to(s, c, i),
    ensures
        pin_name(s, c) == s.symbols@[i].reference@ + "."@ + c.pin_number@,
{
    symbol_is_first(s, c, i, 0);
}

proof fn symbol_is_first(s: Schematic, c: NetConnection, i: int, k: int)
    requires
        leads_to(s, c, i),
        0 <= k <= i,
    ensures
        erc::symbol_of(s.symbols@, c.symbol_id, k) == Some(s.symbols@[i]),
    decreases i - k,
{
    if k < i {
        symbol_is_first(s, c, i, k + 1);
    }
}

proof fn symbol_leads(s: Schematic, c: NetConnection, k: int) -> (i: int)
    requires
        0 <= k,
        erc::symbol_of(s.symbols@, c.symbol_id, k) is Some,
        forall|m: int| 0 <= m < k ==> (#[trigger] s.symbols@[m]).id != c.symbol_id,
    ensures
        leads_to(s, c, i),
        erc::symbol_of(s.symbols@, c.symbol_id, k) == Some(s.symbols@[i]),
    decreases s.symbols@.len() - k,
{
    if s.symbols@[k].id == c.symbol_id {
        k
    } else {
        symbol_leads(s, c, k + 1)
    }
}

proof fn role_is_first(pins: Seq<Pin>, number: Seq<char>, j: int, k: int)
    requires
        0 <= k <= j < pins.len(),
        pins[j].number == number,
        forall|m: int| 0 <= m < j ==> (#[trigger] pins[m]).number != number,
    ensures
        erc::role_of(pins, number, k) == pins[j].role,
    decreases j - k,
{
    if k < j {
        role_is_first(pins, number, j, k + 1);
    }
}

proof fn role_leads(pins: Seq<Pin>, number: Seq<char>, k: int) -> (j: int)
    requires
        0 <= k,
        erc::role_of(pins, number, k) != PinRole::Passive,
        forall|m: int| 0 <= m < k ==> (#[trigger] pins[m]).number != number,
    ensures
        0 <= j < pins.len(),
        pins[j].number == number,
        forall|m: int| 0 <= m < j ==> (#[trigger] pins[m]).number != number,
        erc::role_of(pins, number, k) == pins[j].role,
    decreases pins.len() - k,
{
    if pins[k].number == number {
        k
    } else {
        role_leads(pins, number, k + 1)
    }
}

/// What the check gathers of one connection.
pub proof fn gathered(s: Schematic, net: Net, j: int)
    requires
        0 <= j < net.connections@.len(),
    ensures
        ({
            let c = net.connections@[j];
            let g = erc::net_role(s, net)(j);
            &&& g.len() <= 1
            &&& g.len() == 1 ==> g[0].0 == pin_name(s, c)
            &&& forall|role: PinRole| #![trigger plays(s, c, role)]
                role != PinRole::Passive ==> (plays(s, c, role) <==> g.len() == 1 && g[0].1 == role)
        }),
{
    let c = net.connections@[j];
    let g = erc::net_role(s, net)(j);
    assert forall|role: PinRole| #![trigger plays(s, c, role)]
        role != PinRole::Passive implies (plays(s, c, role) <==> g.len() == 1 && g[0].1 == role) by {
        if plays(s, c, role) {
            let (i, p) = choose|i: int, p: int| #[trigger]
                leads_to_pin(s, c, i, p) && s.symbols@[i].kind.pinout()[p].role == role;
            symbol_is_first(s, c, i, 0);
            role_is_first(s.symbols@[i].kind.pinout(), c.pin_number@, p, 0);
        }
        if g.len() == 1 && g[0].1 == role {
            let i = symbol_leads(s, c, 0);
            let p = role_leads(s.symbols@[i].kind.pinout(), c.pin_number@, 0);
            assert(leads_to_pin(s, c, i, p));
        }
    }
}

pub proof fn roles_are_played(s: Schematic, net: Net, role: PinRole)
    requires
        role != PinRole::Passive,
    ensures
        erc::has_role(erc::net_roles(s, net), role) <==> some_plays(s, net, role),
{
    let r = erc::net_roles(s, net);
    let g = erc::net_role(s, net);
    let n = net.connections@.len() as int;
    if erc::has_role(r, role) {
        let k = choose|k: int| 0 <= k < r.len() && (#[trigger] r[k]).1 == role;
        list::upto_holds(g, n, r[k]);
        assert(r.contains(r[k]));
        let j = choose|j: int| 0 <= j < n && #[trigger] g(j).contains(r[k]);
        gathered(s, net, j);
        assert(plays(s, net.connections@[j], role));
    }
    if some_plays(s, net, role) {
        let j = choose|j: int| 0 <= j < n && plays(s, #[trigger] net.connections@[j], role);
        gathered(s, net, j);
        let x = g(j)[0];
        assert(g(j).contains(x));
        list::upto_holds(g, n, x);
        let k = choose|k: int| 0 <= k < r.len() && r[k] == x;
        assert(r[k].1 == role);
    }
}

pub proof fn drivers_are_exact(b: Board, s: Schematic, i: int)
    ensures
        ({
            let r = erc::net_roles(s, s.nets.entries@[i].1);
            let name = s.nets.entries@[i].0@;
            &&& erc::powered(b, name, r) <==> has_supply(b, s, i)
            &&& erc::driven(b, name, r) <==> has_driver(b, s, i)
        }),
{
    let net = s.nets.entries@[i].1;
    roles_are_played(s, net, PinRole::PowerOut);
    roles_are_played(s, net, PinRole::Output);
    roles_are_played(s, net, PinRole::Bidir);
}

pub proof fn joined_holds<T>(a: Seq<T>, b: Seq<T>, x: T)
    ensures
        (a + b).contains(x) <==> a.contains(x) || b.contains(x),
{
    if a.contains(x) {
        let k = choose|k: int| 0 <= k < a.len() && a[k] == x;
        assert((a + b)[k] == x);
    }
    if b.contains(x) {
        let k = choose|k: int| 0 <= k < b.len() && b[k] == x;
        assert((a + b)[a.len() + k] == x);
    }
    if (a + b).contains(x) {
        let k = choose|k: int| 0 <= k < (a + b).len() && (a + b)[k] == x;
        if k < a.len() {
            assert(a[k] == x);
        } else {
            assert(b[k - a.len()] == x);
        }
    }
}

/// The part of the check that finds a kind.
pub open spec fn part(b: Board, s: Schematic, opts: ErcOptions, kind: ErcKind) -> Seq<Note> {
    let nets = s.nets.entries@.len() as int;
    let symbols = s.symbols@.len() as int;
    match kind {
        ErcKind::DuplicatePin => list::upto(erc::duplicates(s), erc::endpoints(s).len() as int),
        ErcKind::FloatingPin => list::upto(erc::floating_pins(s), symbols),
        ErcKind::EmptyNet => list::upto(erc::thin_nets(s), nets),
        ErcKind::FloatingNet => list::upto(erc::thin_nets(s), nets),
        ErcKind::OrphanSymbol => list::upto(erc::orphans(s), symbols),
        ErcKind::PhantomNet => list::upto(erc::phantoms(b, s), drc::pads_of(b).len() as int),
        ErcKind::MultipleDrivers => list::upto(erc::role_rules(b, s), nets),
        ErcKind::UnpoweredPowerNet => list::upto(erc::role_rules(b, s), nets),
        ErcKind::UnconnectedInput => list::upto(erc::role_rules(b, s), nets),
        ErcKind::MissingDecouplingCap => if opts.heuristics {
            list::upto(erc::decoupling(b, s, opts.decoupling_max_dist.0 as int), symbols)
        } else {
            Seq::empty()
        },
        ErcKind::MissingPullup => if opts.heuristics {
            list::upto(erc::pullups(s), nets)
        } else {
            Seq::empty()
        },
    }
}

/// Each part gives notes of its kinds alone.
proof fn parts_have_their_kinds(b: Board, s: Schematic, opts: ErcOptions, x: Note)
    ensures
        part(b, s, opts, ErcKind::DuplicatePin).contains(x) ==> x.kind == ErcKind::DuplicatePin,
        part(b, s, opts, ErcKind::EmptyNet).contains(x) ==> x.kind == ErcKind::EmptyNet || x.kind
            == ErcKind::FloatingNet,
        part(b, s, opts, ErcKind::OrphanSymbol).contains(x) ==> x.kind == ErcKind::OrphanSymbol,
        part(b, s, opts, ErcKind::PhantomNet).contains(x) ==> x.kind == ErcKind::PhantomNet,
        part(b, s, opts, ErcKind::MissingPullup).contains(x) ==> x.kind == ErcKind::MissingPullup,
{
    let nets = s.nets.entries@.len() as int;
    let symbols = s.symbols@.len() as int;
    list::upto_holds(erc::duplicates(s), erc::endpoints(s).len() as int, x);
    list::upto_holds(erc::thin_nets(s), nets, x);
    list::upto_holds(erc::orphans(s), symbols, x);
    list::upto_holds(erc::phantoms(b, s), drc::pads_of(b).len() as int, x);
    list::upto_holds(erc::pullups(s), nets, x);
}

proof fn nested_parts_have_their_kinds(b: Board, s: Schematic, opts: ErcOptions, x: Note)
    ensures
        part(b, s, opts, ErcKind::FloatingPin).contains(x) ==> x.kind == ErcKind::FloatingPin,
        part(b, s, opts, ErcKind::UnconnectedInput).contains(x) ==> x.kind
            == ErcKind::MultipleDrivers || x.kind == ErcKind::UnpoweredPowerNet || x.kind
            == ErcKind::UnconnectedInput,
        part(b, s, opts, ErcKind::MissingDecouplingCap).contains(x) ==> x.kind
            == ErcKind::MissingDecouplingCap,
{
    let nets = s.nets.entries@.len() as int;
    let symbols = s.symbols@.len() as int;
    let max = opts.decoupling_max_dist.0 as int;
    list::upto_holds(erc::floating_pins(s), symbols, x);
    if part(b, s, opts, ErcKind::FloatingPin).contains(x) {
        let i = choose|i: int| 0 <= i < symbols && #[trigger] erc::floating_pins(s)(i).contains(x);
        let sym = s.symbols@[i];
        list::upto_holds(erc::floating_pin(s, sym), sym.kind.pinout().len() as int, x);
    }
    list::upto_holds(erc::role_rules(b, s), nets, x);
    if part(b, s, opts, ErcKind::UnconnectedInput).contains(x) {
        let i = choose|i: int| 0 <= i < nets && #[trigger] erc::role_rules(b, s)(i).contains(x);
        role_rule_holds(b, s, i, x);
    }
    list::upto_holds(erc::decoupling(b, s, max), symbols, x);
    if part(b, s, opts, ErcKind::MissingDecouplingCap).contains(x) {
        let i = choose|i: int| 0 <= i < symbols && #[trigger] erc::decoupling(b, s, max)(i).contains(x);
        let sym = s.symbols@[i];
        let at = erc::position_of(b, sym)->0;
        list::upto_holds(
            erc::uncoupled(b, s, sym, at, max),
            sym.kind.pinout().len() as int,
            x,
        );
    }
}

/// What the rules about roles say of net `i`.
pub proof fn role_rule_holds(b: Board, s: Schematic, i: int, x: Note)
    ensures
        ({
            let name = s.nets.entries@[i].0@;
            let r = erc::net_roles(s, s.nets.entries@[i].1);
            &&& erc::role_rules(b, s)(i).contains(x) <==> erc::many_drivers(name, r).contains(x)
                || erc::unpowered(b, name, r).contains(x) || exists|k: int|
                0 <= k < r.len() && #[trigger] erc::undriven(b, name, r)(k).contains(x)
            &&& erc::many_drivers(name, r).contains(x) ==> x.kind == ErcKind::MultipleDrivers
            &&& erc::unpowered(b, name, r).contains(x) ==> x.kind == ErcKind::UnpoweredPowerNet
            &&& forall|k: int| #[trigger]
                erc::undriven(b, name, r)(k).contains(x) ==> x.kind == ErcKind::UnconnectedInput
            &&& erc::role_rules(b, s)(i).contains(x) ==> x.kind == ErcKind::MultipleDrivers
                || x.kind == ErcKind::UnpoweredPowerNet || x.kind == ErcKind::UnconnectedInput
        }),
{
    let name = s.nets.entries@[i].0@;
    let r = erc::net_roles(s, s.nets.entries@[i].1);
    let a1 = erc::many_drivers(name, r);
    let a2 = erc::unpowered(b, name, r);
    let a3 = list::upto(erc::undriven(b, name, r), r.len() as int);
    joined_holds(a1 + a2, a3, x);
    joined_holds(a1, a2, x);
    list::upto_holds(erc::undriven(b, name, r), r.len() as int, x);
    assert(erc::role_rules(b, s)(i) == a1 + a2 + a3);
}

/// A note is among all notes exactly if the part for its kind gives it.
proof fn note_is_in_its_part(b: Board, s: Schematic, opts: ErcOptions, x: Note)
    ensures
        erc::notes_of(b, s, opts).contains(x) <==> part(b, s, opts, x.kind).contains(x),
{
    parts_have_their_kinds(b, s, opts, x);
    nested_parts_have_their_kinds(b, s, opts, x);
    let a1 = part(b, s, opts, ErcKind::DuplicatePin);
    let a2 = part(b, s, opts, ErcKind::FloatingPin);
    let a3 = part(b, s, opts, ErcKind::EmptyNet);
    let a4 = part(b, s, opts, ErcKind::OrphanSymbol);
    let a5 = part(b, s, opts, ErcKind::PhantomNet);
    let a6 = part(b, s, opts, ErcKind::UnconnectedInput);
    let a7 = part(b, s, opts, ErcKind::MissingDecouplingCap);
    let a8 = part(b, s, opts, ErcKind::MissingPullup);
    let s2 = a1 + a2;
    let s3 = s2 + a3;
    let s4 = s3 + a4;
    let s5 = s4 + a5;
    let s6 = s5 + a6;
    joined_holds(a1, a2, x);
    joined_holds(s2, a3, x);
    joined_holds(s3, a4, x);
    joined_holds(s4, a5, x);
    joined_holds(s5, a6, x);
    joined_holds(s6, a7 + a8, x);
    joined_holds(a7, a8, x);
    assert(erc::notes_of(b, s, opts) =~= s6 + (a7 + a8));
}

/// The list holds what the part for a kind gives of that kind, and no other
/// note of the kind.
pub open spec fn holds_part(
    b: Board,
    s: Schematic,
    opts: ErcOptions,
    kind: ErcKind,
    f: Seq<Note>,
) -> bool {
    &&& forall|x: Note|
        x.kind == kind ==> (#[trigger] f.contains(x) <==> part(b, s, opts, kind).contains(x))
    &&& tally_of(f, kind) == tally_of(part(b, s, opts, kind), kind)
}

pub proof fn notes_hold_parts(b: Board, s: Schematic, opts: ErcOptions, kind: ErcKind)
    ensures
        holds_part(b, s, opts, kind, erc::notes_of(b, s, opts)),
{
    let f = erc::notes_of(b, s, opts);
    noted_as_often(b, s, opts, kind);
    assert forall|x: Note| x.kind == kind implies (#[trigger] f.contains(x) <==> part(
        b,
        s,
        opts,
        kind,
    ).contains(x)) by {
        note_is_in_its_part(b, s, opts, x);
    }
}

pub proof fn held_is_noted(f: Seq<Note>, x: Note)
    requires
        f.contains(x),
    ensures
        noted(f, x.kind, x.severity, x.involved),
{
    let k = choose|k: int| 0 <= k < f.len() && f[k] == x;
    assert(f[k].kind == x.kind);
}

/// Pin `j` of net `i` is an input that nothing drives.
pub open spec fn waits(b: Board, s: Schematic, i: int, j: int) -> bool {
    &&& 0 <= i < s.nets.entries@.len()
    &&& 0 <= j < s.nets.entries@[i].1.connections@.len()
    &&& plays(s, s.nets.entries@[i].1.connections@[j], PinRole::Input)
    &&& !has_driver(b, s, i)
}

/// Each input that nothing drives has a note.
pub open spec fn waiting_inputs_are_noted(b: Board, s: Schematic, f: Seq<Note>) -> bool {
    forall|i: int, j: int| #[trigger]
        waits(b, s, i, j) ==> noted(
            f,
            ErcKind::UnconnectedInput,
            Severity::Warning,
            seq![s.nets.entries@[i].0@, pin_name(s, s.nets.entries@[i].1.connections@[j])],
        )
}

/// A note about an input without a driver is about one that nothing drives.
pub open spec fn noted_inputs_wait(b: Board, s: Schematic, f: Seq<Note>) -> bool {
    forall|k: int|
        0 <= k < f.len() && (#[trigger] f[k]).kind == ErcKind::UnconnectedInput ==> exists|
            i: int,
            j: int,
        | #[trigger]
            waits(b, s, i, j) && f[k].severity == Severity::Warning && f[k].involved == seq![
                s.nets.entries@[i].0@,
                pin_name(s, s.nets.entries@[i].1.connections@[j]),
            ]
}

proof fn inputs_without_driver_in(b: Board, s: Schematic, opts: ErcOptions, f: Seq<Note>)
    requires
        holds_part(b, s, opts, ErcKind::UnconnectedInput, f),
    ensures
        waiting_inputs_are_noted(b, s, f),
        noted_inputs_wait(b, s, f),
{
    let nets = s.nets.entries@.len() as int;
    assert forall|i: int, j: int| #[trigger] waits(b, s, i, j) implies noted(
        f,
        ErcKind::UnconnectedInput,
        Severity::Warning,
        seq![s.nets.entries@[i].0@, pin_name(s, s.nets.entries@[i].1.connections@[j])],
    ) by {
        let net = s.nets.entries@[i].1;
        let name = s.nets.entries@[i].0@;
        let r = erc::net_roles(s, net);
        let g = erc::net_role(s, net);
        drivers_are_exact(b, s, i);
        gathered(s, net, j);
        let y = g(j)[0];
        assert(g(j).contains(y));
        list::upto_holds(g, net.connections@.len() as int, y);
        let k = choose|k: int| 0 <= k < r.len() && r[k] == y;
        let x = erc::undriven(b, name, r)(k)[0];
        assert(erc::undriven(b, name, r)(k).contains(x));
        role_rule_holds(b, s, i, x);
        list::upto_holds(erc::role_rules(b, s), nets, x);
        held_is_noted(f, x);
    }
    assert forall|k: int|
        0 <= k < f.len() && (#[trigger] f[k]).kind == ErcKind::UnconnectedInput implies exists|
        i: int,
        j: int,
    | #[trigger]
        waits(b, s, i, j) && f[k].severity == Severity::Warning && f[k].involved == seq![
            s.nets.entries@[i].0@,
            pin_name(s, s.nets.entries@[i].1.connections@[j]),
        ] by {
        let x = f[k];
        assert(f.contains(x));
        list::upto_holds(erc::role_rules(b, s), nets, x);
        let i = choose|i: int| 0 <= i < nets && #[trigger] erc::role_rules(b, s)(i).contains(x);
        role_rule_holds(b, s, i, x);
        let net = s.nets.entries@[i].1;
        let name = s.nets.entries@[i].0@;
        let r = erc::net_roles(s, net);
        let g = erc::net_role(s, net);
        let m = choose|m: int|
            0 <= m < r.len() && #[trigger] erc::undriven(b, name, r)(m).contains(x);
        drivers_are_exact(b, s, i);
        assert(r.contains(r[m]));
        list::upto_holds(g, net.connections@.len() as int, r[m]);
        let j = choose|j: int|
            0 <= j < net.connections@.len() && #[trigger] g(j).contains(r[m]);
        gathered(s, net, j);
        assert(plays(s, net.connections@[j], PinRole::Input));
        assert(waits(b, s, i, j));
    }
}

/// The check warns of each input on a net that nothing drives: no output,
/// no pin that goes both ways, no power output and no pour. It warns of no
/// other pin.
pub proof fn inputs_without_driver_are_noted(b: Board, s: Schematic, opts: ErcOptions)
    ensures
        waiting_inputs_are_noted(b, s, erc::notes_of(b, s, opts)),
        noted_inputs_wait(b, s, erc::notes_of(b, s, opts)),
{
    notes_hold_parts(b, s, opts, ErcKind::UnconnectedInput);
    inputs_without_driver_in(b, s, opts, erc::notes_of(b, s, opts));
}

/// Every net of that name has a driver.
pub open spec fn is_driven(b: Board, s: Schematic, net: Seq<char>) -> bool {
    forall|i: int|
        0 <= i < s.nets.entries@.len() && (#[trigger] s.nets.entries@[i]).0@ == net ==> has_driver(
            b,
            s,
            i,
        )
}

/// Some note is about an input of the net.
pub open spec fn complains(f: Seq<Note>, net: Seq<char>) -> bool {
    exists|k: int|
        0 <= k < f.len() && (#[trigger] f[k]).kind == ErcKind::UnconnectedInput && f[k].involved[0]
            == net
}

proof fn driven_is_quiet(b: Board, s: Schematic, f: Seq<Note>, net: Seq<char>)
    requires
        noted_inputs_wait(b, s, f),
        is_driven(b, s, net),
    ensures
        !complains(f, net),
{
    if complains(f, net) {
        let k = choose|k: int|
            0 <= k < f.len() && (#[trigger] f[k]).kind == ErcKind::UnconnectedInput
                && f[k].involved[0] == net;
        let (i, j) = choose|i: int, j: int| #[trigger]
            waits(b, s, i, j) && f[k].severity == Severity::Warning && f[k].involved == seq![
                s.nets.entries@[i].0@,
                pin_name(s, s.nets.entries@[i].1.connections@[j]),
            ];
        assert(s.nets.entries@[i].0@ == net);
    }
}

/// A net that something drives gets no note about its inputs.
pub proof fn driven_inputs_are_not_noted(
    b: Board,
    s: Schematic,
    opts: ErcOptions,
    net: Seq<char>,
)
    requires
        is_driven(b, s, net),
    ensures
        !complains(erc::notes_of(b, s, opts), net),
{
    inputs_without_driver_are_noted(b, s, opts);
    driven_is_quiet(b, s, erc::notes_of(b, s, opts), net);
}

pub proof fn tally_joined(a: Seq<Note>, b: Seq<Note>, kind: ErcKind)
    ensures
        tally_of(a + b, kind) == tally_of(a, kind) + tally_of(b, kind),
    decreases b.len(),
{
    if b.len() == 0 {
        assert(a + b =~= a);
    } else {
        assert((a + b).drop_last() =~= a + b.drop_last());
        assert((a + b).last() == b.last());
        tally_joined(a, b.drop_last(), kind);
    }
}

proof fn tally_upto(f: spec_fn(int) -> Seq<Note>, g: spec_fn(int) -> nat, n: int, kind: ErcKind)
    requires
        forall|i: int| 0 <= i < n ==> tally_of(#[trigger] f(i), kind) == g(i),
    ensures
        tally_of(list::upto(f, n), kind) == list::total(g, n),
    decreases n,
{
    if n > 0 {
        tally_upto(f, g, n - 1, kind);
        tally_joined(list::upto(f, n - 1), f(n - 1), kind);
    }
}

pub proof fn tally_none(f: Seq<Note>, kind: ErcKind)
    requires
        forall|x: Note| #[trigger] f.contains(x) ==> x.kind != kind,
    ensures
        tally_of(f, kind) == 0,
    decreases f.len(),
{
    if f.len() > 0 {
        let g = f.drop_last();
        assert(f.contains(f[f.len() - 1]));
        assert forall|x: Note| #[trigger] g.contains(x) implies x.kind != kind by {
            let k = choose|k: int| 0 <= k < g.len() && g[k] == x;
            assert(f[k] == x);
            assert(f.contains(x));
        }
        tally_none(g, kind);
    }
}

/// One note for each input, where nothing drives them.
proof fn inputs_are_counted(b: Board, s: Schematic, i: int, n: int)
    requires
        0 <= n <= s.nets.entries@[i].1.connections@.len(),
    ensures
        ({
            let net = s.nets.entries@[i].1;
            let r = list::upto(erc::net_role(s, net), n);
            list::how_many(|k: int| r[k].1 == PinRole::Input, r.len() as int) == list::how_many(
                |j: int| plays(s, net.connections@[j], PinRole::Input),
                n,
            )
        }),
    decreases n,
{
    let net = s.nets.entries@[i].1;
    let q = |j: int| plays(s, net.connections@[j], PinRole::Input);
    let r = list::upto(erc::net_role(s, net), n);
    let p = |k: int| r[k].1 == PinRole::Input;
    if n > 0 {
        let h = list::upto(erc::net_role(s, net), n - 1);
        let ph = |k: int| h[k].1 == PinRole::Input;
        inputs_are_counted(b, s, i, n - 1);
        gathered(s, net, n - 1);
        assert(plays(s, net.connections@[n - 1], PinRole::Input) == q(n - 1));
        list::how_many_same(p, ph, h.len() as int);
        if r.len() > h.len() {
            assert(r[h.len() as int] == erc::net_role(s, net)(n - 1)[0]);
            assert(list::how_many(p, r.len() as int) == list::how_many(p, h.len() as int) + if p(h.len() as int) {
                1nat
            } else {
                0nat
            });
        }
        assert(list::how_many(p, r.len() as int) == list::how_many(q, n));
    } else {
        assert(list::how_many(p, r.len() as int) == list::how_many(q, n));
    }
}

/// The inputs of net `i` that wait for a driver.
pub open spec fn waiting(b: Board, s: Schematic) -> spec_fn(int) -> nat {
    |i: int|
        if has_driver(b, s, i) {
            0
        } else {
            list::how_many(
                |j: int| plays(s, s.nets.entries@[i].1.connections@[j], PinRole::Input),
                s.nets.entries@[i].1.connections@.len() as int,
            )
        }
}

proof fn undriven_is_counted(b: Board, name: Seq<char>, r: Seq<(Seq<char>, PinRole)>, n: int)
    requires
        0 <= n <= r.len(),
    ensures
        tally_of(list::upto(erc::undriven(b, name, r), n), ErcKind::UnconnectedInput) == (
        if erc::driven(b, name, r) {
            0
        } else {
            list::how_many(|k: int| r[k].1 == PinRole::Input, n)
        }),
    decreases n,
{
    reveal_with_fuel(tally_of, 2);
    let f = erc::undriven(b, name, r);
    let p = |k: int| r[k].1 == PinRole::Input;
    if n > 0 {
        undriven_is_counted(b, name, r, n - 1);
        tally_joined(list::upto(f, n - 1), f(n - 1), ErcKind::UnconnectedInput);
        let g = f(n - 1);
        if g.len() == 1 {
            assert(g.drop_last().len() == 0);
        }
        assert(p(n - 1) == (r[n - 1].1 == PinRole::Input));
        assert(list::how_many(p, n) == list::how_many(p, n - 1) + if p(n - 1) {
            1nat
        } else {
            0nat
        });
    }
}

proof fn net_is_counted(b: Board, s: Schematic, i: int)
    ensures
        tally_of(erc::role_rules(b, s)(i), ErcKind::UnconnectedInput) == waiting(b, s)(i),
{
    let net = s.nets.entries@[i].1;
    let name = s.nets.entries@[i].0@;
    let r = erc::net_roles(s, net);
    let a1 = erc::many_drivers(name, r);
    let a2 = erc::unpowered(b, name, r);
    let a3 = list::upto(erc::undriven(b, name, r), r.len() as int);
    let kind = ErcKind::UnconnectedInput;
    tally_none(a1, kind);
    tally_none(a2, kind);
    tally_joined(a1 + a2, a3, kind);
    tally_joined(a1, a2, kind);
    undriven_is_counted(b, name, r, r.len() as int);
    inputs_are_counted(b, s, i, net.connections@.len() as int);
    drivers_are_exact(b, s, i);
    assert(erc::role_rules(b, s)(i) == a1 + a2 + a3);
}

/// The kinds that one part finds.
spec fn together(a: ErcKind, b: ErcKind) -> bool {
    ||| a == b
    ||| (a == ErcKind::EmptyNet || a == ErcKind::FloatingNet) && (b == ErcKind::EmptyNet || b
        == ErcKind::FloatingNet)
    ||| (a == ErcKind::MultipleDrivers || a == ErcKind::UnpoweredPowerNet || a
        == ErcKind::UnconnectedInput) && (b == ErcKind::MultipleDrivers || b
        == ErcKind::UnpoweredPowerNet || b == ErcKind::UnconnectedInput)
}

proof fn part_tally(b: Board, s: Schematic, opts: ErcOptions, at: ErcKind, kind: ErcKind)
    ensures
        !together(at, kind) ==> tally_of(part(b, s, opts, at), kind) == 0,
{
    if !together(at, kind) {
        let f = part(b, s, opts, at);
        assert forall|x: Note| #[trigger] f.contains(x) implies x.kind != kind by {
            parts_have_their_kinds(b, s, opts, x);
            nested_parts_have_their_kinds(b, s, opts, x);
        }
        tally_none(f, kind);
    }
}

/// Among all notes there are as many of a kind as its part gives.
proof fn noted_as_often(b: Board, s: Schematic, opts: ErcOptions, kind: ErcKind)
    ensures
        tally_of(erc::notes_of(b, s, opts), kind) == tally_of(part(b, s, opts, kind), kind),
{
    let a1 = part(b, s, opts, ErcKind::DuplicatePin);
    let a2 = part(b, s, opts, ErcKind::FloatingPin);
    let a3 = part(b, s, opts, ErcKind::EmptyNet);
    let a4 = part(b, s, opts, ErcKind::OrphanSymbol);
    let a5 = part(b, s, opts, ErcKind::PhantomNet);
    let a6 = part(b, s, opts, ErcKind::UnconnectedInput);
    let a7 = part(b, s, opts, ErcKind::MissingDecouplingCap);
    let a8 = part(b, s, opts, ErcKind::MissingPullup);
    part_tally(b, s, opts, ErcKind::DuplicatePin, kind);
    part_tally(b, s, opts, ErcKind::FloatingPin, kind);
    part_tally(b, s, opts, ErcKind::EmptyNet, kind);
    part_tally(b, s, opts, ErcKind::OrphanSymbol, kind);
    part_tally(b, s, opts, ErcKind::PhantomNet, kind);
    part_tally(b, s, opts, ErcKind::UnconnectedInput, kind);
    part_tally(b, s, opts, ErcKind::MissingDecouplingCap, kind);
    part_tally(b, s, opts, ErcKind::MissingPullup, kind);
    let s2 = a1 + a2;
    let s3 = s2 + a3;
    let s4 = s3 + a4;
    let s5 = s4 + a5;
    let s6 = s5 + a6;
    tally_joined(a1, a2, kind);
    tally_joined(s2, a3, kind);
    tally_joined(s3, a4, kind);
    tally_joined(s4, a5, kind);
    tally_joined(s5, a6, kind);
    tally_joined(s6, a7 + a8, kind);
    tally_joined(a7, a8, kind);
    assert(erc::notes_of(b, s, opts) =~= s6 + (a7 + a8));
}

/// The check gives one note for each input of each net without a driver,
/// and no more.
pub proof fn inputs_without_driver_are_counted(b: Board, s: Schematic, opts: ErcOptions)
    ensures
        tally_of(erc::notes_of(b, s, opts), ErcKind::UnconnectedInput) == list::total(
            waiting(b, s),
            s.nets.entries@.len() as int,
        ),
{
    let kind = ErcKind::UnconnectedInput;
    noted_as_often(b, s, opts, kind);
    assert forall|i: int| 0 <= i < s.nets.entries@.len() implies tally_of(
        #[trigger] erc::role_rules(b, s)(i),
        kind,
    ) == waiting(b, s)(i) by {
        net_is_counted(b, s, i);
    }
    tally_upto(erc::role_rules(b, s), waiting(b, s), s.nets.entries@.len() as int, kind);
}

} // verus!
