//! What the electrical rule check finds of pins, nets, symbols and pads.

use vstd::prelude::*;

use crate::board::{Board, Id};
use crate::csv;
use crate::drc;
use crate::drc_laws;
use crate::erc;
use crate::erc::{ErcKind, ErcOptions, Note};
use crate::erc_laws;
use crate::geometry::Point;
use crate::list;
use crate::name_map;
use crate::schematic;
use crate::schematic::{Net, PinRole, Schematic};
use crate::violation::Severity;

verus! {

/// The notes of a kind are one for each number below `n` that has the
/// property: of that severity, and naming those.
pub open spec fn exactly(
    f: Seq<Note>,
    kind: ErcKind,
    severity: Severity,
    n: int,
    p: spec_fn(int) -> bool,
    who: spec_fn(int) -> Seq<Seq<char>>,
) -> bool {
    &&& erc_laws::tally_of(f, kind) == list::how_many(p, n)
    &&& forall|i: int|
        0 <= i < n && #[trigger] p(i) ==> erc_laws::noted(f, kind, severity, who(i))
    &&& forall|k: int|
        0 <= k < f.len() && (#[trigger] f[k]).kind == kind ==> noted_for(f[k], severity, n, p, who)
}

/// The note is about some number below `n` that has the property.
pub open spec fn noted_for(
    x: Note,
    severity: Severity,
    n: int,
    p: spec_fn(int) -> bool,
    who: spec_fn(int) -> Seq<Seq<char>>,
) -> bool {
    exists|i: int|
        0 <= i < n && #[trigger] p(i) && x.severity == severity && x.involved == who(i)
}

/// The notes of a kind are one for each pair of numbers, the first below `m`
/// and the second below what `n` gives for it, that has the property.
pub open spec fn exactly_pairs(
    f: Seq<Note>,
    kind: ErcKind,
    severity: Severity,
    m: int,
    n: spec_fn(int) -> int,
    p: spec_fn(int, int) -> bool,
    who: spec_fn(int, int) -> Seq<Seq<char>>,
) -> bool {
    &&& erc_laws::tally_of(f, kind) == list::total(
        |i: int| list::how_many(|j: int| p(i, j), n(i)),
        m,
    )
    &&& forall|i: int, j: int|
        0 <= i < m && 0 <= j < n(i) && #[trigger] p(i, j) ==> erc_laws::noted(
            f,
            kind,
            severity,
            who(i, j),
        )
    &&& forall|k: int|
        0 <= k < f.len() && (#[trigger] f[k]).kind == kind ==> noted_for_pair(
            f[k],
            severity,
            m,
            n,
            p,
            who,
        )
}

/// The note is about some pair that has the property.
pub open spec fn noted_for_pair(
    x: Note,
    severity: Severity,
    m: int,
    n: spec_fn(int) -> int,
    p: spec_fn(int, int) -> bool,
    who: spec_fn(int, int) -> Seq<Seq<char>>,
) -> bool {
    exists|i: int, j: int|
        0 <= i < m && 0 <= j < n(i) && #[trigger] p(i, j) && x.severity == severity && x.involved
            == who(i, j)
}

/// What is given for a number: one note of the kind where it has the
/// property, else none.
spec fn gives(
    g: Seq<Note>,
    kind: ErcKind,
    severity: Severity,
    holds: bool,
    who: Seq<Seq<char>>,
) -> bool {
    &&& erc_laws::tally_of(g, kind) == (if holds {
        1nat
    } else {
        0nat
    })
    &&& forall|x: Note| #[trigger]
        g.contains(x) && x.kind == kind ==> holds && x.severity == severity && x.involved == who
}

proof fn tallied_is_there(g: Seq<Note>, kind: ErcKind) -> (x: Note)
    requires
        erc_laws::tally_of(g, kind) > 0,
    ensures
        g.contains(x),
        x.kind == kind,
    decreases g.len(),
{
    if g.last().kind == kind {
        assert(g[g.len() - 1] == g.last());
        g.last()
    } else {
        let h = g.drop_last();
        let x = tallied_is_there(h, kind);
        let k = choose|k: int| 0 <= k < h.len() && h[k] == x;
        assert(g[k] == x);
        x
    }
}

/// One note, or none.
proof fn one_gives(g: Seq<Note>, kind: ErcKind, severity: Severity, holds: bool, who: Seq<Seq<char>>)
    requires
        g.len() == (if holds {
            1nat
        } else {
            0nat
        }),
        holds ==> g[0].kind == kind && g[0].severity == severity && g[0].involved == who,
    ensures
        gives(g, kind, severity, holds, who),
{
    reveal_with_fuel(erc_laws::tally_of, 2);
    if holds {
        assert(g.drop_last().len() == 0);
        assert(g.last() == g[0]);
    }
}

proof fn tally_is_counted(
    g: spec_fn(int) -> Seq<Note>,
    kind: ErcKind,
    severity: Severity,
    n: int,
    p: spec_fn(int) -> bool,
    who: spec_fn(int) -> Seq<Seq<char>>,
)
    requires
        forall|i: int| 0 <= i < n ==> gives(#[trigger] g(i), kind, severity, p(i), who(i)),
    ensures
        erc_laws::tally_of(list::upto(g, n), kind) == list::how_many(p, n),
    decreases n,
{
    if n > 0 {
        tally_is_counted(g, kind, severity, n - 1, p, who);
        erc_laws::tally_joined(list::upto(g, n - 1), g(n - 1), kind);
        assert(gives(g(n - 1), kind, severity, p(n - 1), who(n - 1)));
    }
}

proof fn single_notes(
    f: Seq<Note>,
    kind: ErcKind,
    severity: Severity,
    n: int,
    p: spec_fn(int) -> bool,
    who: spec_fn(int) -> Seq<Seq<char>>,
    g: spec_fn(int) -> Seq<Note>,
)
    requires
        forall|x: Note|
            x.kind == kind ==> (#[trigger] f.contains(x) <==> list::upto(g, n).contains(x)),
        erc_laws::tally_of(f, kind) == erc_laws::tally_of(list::upto(g, n), kind),
        forall|i: int| 0 <= i < n ==> gives(#[trigger] g(i), kind, severity, p(i), who(i)),
    ensures
        exactly(f, kind, severity, n, p, who),
{
    tally_is_counted(g, kind, severity, n, p, who);
    assert forall|i: int| 0 <= i < n && #[trigger] p(i) implies erc_laws::noted(
        f,
        kind,
        severity,
        who(i),
    ) by {
        assert(gives(g(i), kind, severity, p(i), who(i)));
        let x = tallied_is_there(g(i), kind);
        list::upto_holds(g, n, x);
        assert(f.contains(x));
        erc_laws::held_is_noted(f, x);
    }
    assert forall|k: int| 0 <= k < f.len() && (#[trigger] f[k]).kind == kind implies noted_for(
        f[k],
        severity,
        n,
        p,
        who,
    ) by {
        let x = f[k];
        assert(f.contains(x));
        list::upto_holds(g, n, x);
        let i = choose|i: int| 0 <= i < n && #[trigger] g(i).contains(x);
        assert(gives(g(i), kind, severity, p(i), who(i)));
        assert(p(i));
    }
}

proof fn pair_tally_is_counted(
    g: spec_fn(int) -> Seq<Note>,
    h: spec_fn(int, int) -> Seq<Note>,
    kind: ErcKind,
    severity: Severity,
    m: int,
    n: spec_fn(int) -> int,
    p: spec_fn(int, int) -> bool,
    who: spec_fn(int, int) -> Seq<Seq<char>>,
)
    requires
        forall|i: int| 0 <= i < m ==> #[trigger] g(i) == list::upto(|j: int| h(i, j), n(i)),
        forall|i: int, j: int|
            0 <= i < m && 0 <= j < n(i) ==> gives(
                #[trigger] h(i, j),
                kind,
                severity,
                p(i, j),
                who(i, j),
            ),
    ensures
        erc_laws::tally_of(list::upto(g, m), kind) == list::total(
            |i: int| list::how_many(|j: int| p(i, j), n(i)),
            m,
        ),
    decreases m,
{
    let s = |i: int| list::how_many(|j: int| p(i, j), n(i));
    if m > 0 {
        pair_tally_is_counted(g, h, kind, severity, m - 1, n, p, who);
        erc_laws::tally_joined(list::upto(g, m - 1), g(m - 1), kind);
        let (q, w) = (|j: int| p(m - 1, j), |j: int| who(m - 1, j));
        let r = |j: int| h(m - 1, j);
        assert forall|j: int| 0 <= j < n(m - 1) implies gives(
            #[trigger] r(j),
            kind,
            severity,
            q(j),
            w(j),
        ) by {
            assert(gives(h(m - 1, j), kind, severity, p(m - 1, j), who(m - 1, j)));
        }
        tally_is_counted(r, kind, severity, n(m - 1), q, w);
        assert(s(m - 1) == list::how_many(q, n(m - 1)));
        assert(list::total(s, m) == list::total(s, m - 1) + s(m - 1));
    }
}

proof fn pair_notes(
    f: Seq<Note>,
    kind: ErcKind,
    severity: Severity,
    m: int,
    n: spec_fn(int) -> int,
    p: spec_fn(int, int) -> bool,
    who: spec_fn(int, int) -> Seq<Seq<char>>,
    g: spec_fn(int) -> Seq<Note>,
    h: spec_fn(int, int) -> Seq<Note>,
)
    requires
        forall|x: Note|
            x.kind == kind ==> (#[trigger] f.contains(x) <==> list::upto(g, m).contains(x)),
        erc_laws::tally_of(f, kind) == erc_laws::tally_of(list::upto(g, m), kind),
        forall|i: int| 0 <= i < m ==> #[trigger] g(i) == list::upto(|j: int| h(i, j), n(i)),
        forall|i: int, j: int|
            0 <= i < m && 0 <= j < n(i) ==> gives(
                #[trigger] h(i, j),
                kind,
                severity,
                p(i, j),
                who(i, j),
            ),
    ensures
        exactly_pairs(f, kind, severity, m, n, p, who),
{
    pair_tally_is_counted(g, h, kind, severity, m, n, p, who);
    assert forall|i: int, j: int|
        0 <= i < m && 0 <= j < n(i) && #[trigger] p(i, j) implies erc_laws::noted(
        f,
        kind,
        severity,
        who(i, j),
    ) by {
        assert(gives(h(i, j), kind, severity, p(i, j), who(i, j)));
        let x = tallied_is_there(h(i, j), kind);
        let r = |j: int| h(i, j);
        assert(r(j).contains(x));
        list::upto_holds(r, n(i), x);
        assert(g(i).contains(x));
        list::upto_holds(g, m, x);
        assert(f.contains(x));
        erc_laws::held_is_noted(f, x);
    }
    assert forall|k: int| 0 <= k < f.len() && (#[trigger] f[k]).kind == kind implies noted_for_pair(
        f[k],
        severity,
        m,
        n,
        p,
        who,
    ) by {
        let x = f[k];
        assert(f.contains(x));
        list::upto_holds(g, m, x);
        let i = choose|i: int| 0 <= i < m && #[trigger] g(i).contains(x);
        let r = |j: int| h(i, j);
        list::upto_holds(r, n(i), x);
        let j = choose|j: int| 0 <= j < n(i) && #[trigger] r(j).contains(x);
        assert(gives(h(i, j), kind, severity, p(i, j), who(i, j)));
        assert(p(i, j));
    }
}

/// Connection `j` of net `i` is to the symbol.
pub open spec fn is_connection(s: Schematic, id: Id, i: int, j: int) -> bool {
    &&& 0 <= i < s.nets.entries@.len()
    &&& 0 <= j < s.nets.entries@[i].1.connections@.len()
    &&& s.nets.entries@[i].1.connections@[j].symbol_id == id
}

/// Some net reaches the symbol.
pub open spec fn is_wired(s: Schematic, id: Id) -> bool {
    exists|i: int, j: int| #[trigger] is_connection(s, id, i, j)
}

/// Connection `j` of net `i` is to the pin of the symbol.
pub open spec fn is_pin_connection(s: Schematic, id: Id, pin: Seq<char>, i: int, j: int) -> bool {
    is_connection(s, id, i, j) && s.nets.entries@[i].1.connections@[j].pin_number@ == pin
}

/// Some net reaches the pin.
pub open spec fn is_pin_wired(s: Schematic, id: Id, pin: Seq<char>) -> bool {
    exists|i: int, j: int| #[trigger] is_pin_connection(s, id, pin, i, j)
}

/// The endpoint is connection `j` of net `i`.
pub open spec fn is_end(s: Schematic, e: erc::Endpoint, i: int, j: int) -> bool {
    &&& is_pin_connection(s, e.id, e.pin, i, j)
    &&& e.net == s.nets.entries@[i].0@
}

/// The endpoints are the connections of all nets.
pub proof fn endpoints_are_the_connections(s: Schematic, e: erc::Endpoint)
    ensures
        erc::endpoints(s).contains(e) <==> exists|i: int, j: int| #[trigger] is_end(s, e, i, j),
{
    let f = erc::net_endpoints(s);
    let n = s.nets.entries@.len() as int;
    list::upto_holds(f, n, e);
    if erc::endpoints(s).contains(e) {
        let i = choose|i: int| 0 <= i < n && #[trigger] f(i).contains(e);
        let ends = f(i);
        let j = choose|j: int| 0 <= j < ends.len() && ends[j] == e;
        assert(is_end(s, e, i, j));
    }
    if exists|i: int, j: int| #[trigger] is_end(s, e, i, j) {
        let (i, j) = choose|i: int, j: int| #[trigger] is_end(s, e, i, j);
        assert(f(i)[j] == e);
        assert(f(i).contains(e));
    }
}

proof fn covered_is_wired(s: Schematic, id: Id)
    ensures
        erc::covered(s, id) <==> is_wired(s, id),
{
    if erc::covered(s, id) {
        let k = choose|k: int|
            0 <= k < erc::endpoints(s).len() && (#[trigger] erc::endpoints(s)[k]).id == id;
        let e = erc::endpoints(s)[k];
        assert(erc::endpoints(s).contains(e));
        endpoints_are_the_connections(s, e);
        let (i, j) = choose|i: int, j: int| #[trigger] is_end(s, e, i, j);
        assert(is_connection(s, id, i, j));
    }
    if is_wired(s, id) {
        let (i, j) = choose|i: int, j: int| #[trigger] is_connection(s, id, i, j);
        let e = erc::Endpoint {
            net: s.nets.entries@[i].0@,
            id,
            pin: s.nets.entries@[i].1.connections@[j].pin_number@,
        };
        assert(is_end(s, e, i, j));
        endpoints_are_the_connections(s, e);
        let k = choose|k: int| 0 <= k < erc::endpoints(s).len() && erc::endpoints(s)[k] == e;
        assert(erc::endpoints(s)[k].id == id);
    }
}

proof fn pin_net_is_wired(s: Schematic, id: Id, pin: Seq<char>, i: int)
    requires
        0 <= i,
    ensures
        s.pin_net(id, pin, i) is Some <==> exists|k: int, j: int|
            i <= k && #[trigger] is_pin_connection(s, id, pin, k, j),
    decreases s.nets.entries@.len() - i,
{
    if i < s.nets.entries@.len() {
        pin_net_is_wired(s, id, pin, i + 1);
        let net = s.nets.entries@[i].1;
        if schematic::reaches(net, id, pin) {
            let j = choose|j: int|
                0 <= j < net.connections@.len() && #[trigger] schematic::is_pin(
                    net.connections@[j],
                    id,
                    pin,
                );
            assert(is_pin_connection(s, id, pin, i, j));
        } else {
            assert forall|k: int, j: int|
                i <= k && #[trigger] is_pin_connection(s, id, pin, k, j) implies i + 1 <= k by {
                if k == i {
                    assert(schematic::is_pin(net.connections@[j], id, pin));
                }
            }
        }
    }
}

/// A pin is on a net exactly if some net reaches it.
pub proof fn pins_are_on_the_nets_that_reach_them(s: Schematic, id: Id, pin: Seq<char>)
    ensures
        s.pin_net(id, pin, 0) is Some <==> is_pin_wired(s, id, pin),
{
    pin_net_is_wired(s, id, pin, 0);
    if is_pin_wired(s, id, pin) {
        let (k, j) = choose|k: int, j: int| #[trigger] is_pin_connection(s, id, pin, k, j);
        assert(0 <= k);
    }
}

/// Pin `j` of symbol `i` floats: some net reaches the symbol, but none the
/// pin.
pub open spec fn floats(s: Schematic, i: int, j: int) -> bool {
    let sym = s.symbols@[i];
    is_wired(s, sym.id) && !is_pin_wired(s, sym.id, sym.kind.pinout()[j].number)
}

/// The check warns of each pin that floats, and of no other.
pub proof fn floating_pins_are_noted(b: Board, s: Schematic, opts: ErcOptions)
    ensures
        exactly_pairs(
            erc::notes_of(b, s, opts),
            ErcKind::FloatingPin,
            Severity::Warning,
            s.symbols@.len() as int,
            |i: int| s.symbols@[i].kind.pinout().len() as int,
            |i: int, j: int| floats(s, i, j),
            |i: int, j: int|
                seq![s.symbols@[i].reference@ + "."@ + s.symbols@[i].kind.pinout()[j].number],
        ),
{
    let kind = ErcKind::FloatingPin;
    let m = s.symbols@.len() as int;
    let n = |i: int| s.symbols@[i].kind.pinout().len() as int;
    let p = |i: int, j: int| floats(s, i, j);
    let who = |i: int, j: int|
        seq![s.symbols@[i].reference@ + "."@ + s.symbols@[i].kind.pinout()[j].number];
    let g = erc::floating_pins(s);
    let h = |i: int, j: int|
        if is_wired(s, s.symbols@[i].id) {
            erc::floating_pin(s, s.symbols@[i])(j)
        } else {
            Seq::<Note>::empty()
        };
    erc_laws::notes_hold_parts(b, s, opts, kind);
    assert forall|i: int| 0 <= i < m implies #[trigger] g(i) == list::upto(|j: int| h(i, j), n(i)) by {
        let sym = s.symbols@[i];
        let r = |j: int| h(i, j);
        covered_is_wired(s, sym.id);
        if is_wired(s, sym.id) {
            assert(r =~= erc::floating_pin(s, sym));
        } else {
            empty_upto(r, n(i));
        }
    }
    assert forall|i: int, j: int| 0 <= i < m && 0 <= j < n(i) implies gives(
        #[trigger] h(i, j),
        kind,
        Severity::Warning,
        p(i, j),
        who(i, j),
    ) by {
        pins_are_on_the_nets_that_reach_them(
            s,
            s.symbols@[i].id,
            s.symbols@[i].kind.pinout()[j].number,
        );
        one_gives(h(i, j), kind, Severity::Warning, p(i, j), who(i, j));
    }
    pair_notes(erc::notes_of(b, s, opts), kind, Severity::Warning, m, n, p, who, g, h);
}

proof fn empty_upto(g: spec_fn(int) -> Seq<Note>, n: int)
    requires
        forall|i: int| 0 <= i < n ==> #[trigger] g(i) == Seq::<Note>::empty(),
    ensures
        list::upto(g, n) == Seq::<Note>::empty(),
    decreases n,
{
    if n > 0 {
        empty_upto(g, n - 1);
        assert(g(n - 1) == Seq::<Note>::empty());
        assert(list::upto(g, n) =~= Seq::<Note>::empty());
    }
}

/// Net `i` has connections, and all are to one pin.
pub open spec fn has_one_pin(s: Schematic, i: int) -> bool {
    let c = s.nets.entries@[i].1.connections@;
    c.len() > 0 && forall|j: int|
        0 <= j < c.len() ==> (#[trigger] c[j]).symbol_id == c[0].symbol_id && c[j].pin_number@
            == c[0].pin_number@
}

/// The check warns of each net without a connection, and of no other.
pub proof fn empty_nets_are_noted(b: Board, s: Schematic, opts: ErcOptions)
    ensures
        exactly(
            erc::notes_of(b, s, opts),
            ErcKind::EmptyNet,
            Severity::Warning,
            s.nets.entries@.len() as int,
            |i: int| s.nets.entries@[i].1.connections@.len() == 0,
            |i: int| seq![s.nets.entries@[i].1.name@],
        ),
{
    let kind = ErcKind::EmptyNet;
    let n = s.nets.entries@.len() as int;
    let p = |i: int| s.nets.entries@[i].1.connections@.len() == 0;
    let who = |i: int| seq![s.nets.entries@[i].1.name@];
    let g = erc::thin_nets(s);
    erc_laws::notes_hold_parts(b, s, opts, kind);
    assert forall|i: int| 0 <= i < n implies gives(
        #[trigger] g(i),
        kind,
        Severity::Warning,
        p(i),
        who(i),
    ) by {
        reveal_with_fuel(erc_laws::tally_of, 3);
        if g(i).len() == 1 {
            assert(g(i).drop_last().len() == 0);
        }
    }
    single_notes(erc::notes_of(b, s, opts), kind, Severity::Warning, n, p, who, g);
}

/// The check warns of each net that reaches a single pin, and of no other.
pub proof fn single_pin_nets_are_noted(b: Board, s: Schematic, opts: ErcOptions)
    ensures
        exactly(
            erc::notes_of(b, s, opts),
            ErcKind::FloatingNet,
            Severity::Warning,
            s.nets.entries@.len() as int,
            |i: int| has_one_pin(s, i),
            |i: int|
                seq![
                    s.nets.entries@[i].1.name@,
                    erc_laws::pin_name(s, s.nets.entries@[i].1.connections@[0]),
                ],
        ),
{
    let kind = ErcKind::FloatingNet;
    let n = s.nets.entries@.len() as int;
    let p = |i: int| has_one_pin(s, i);
    let who = |i: int|
        seq![
            s.nets.entries@[i].1.name@,
            erc_laws::pin_name(s, s.nets.entries@[i].1.connections@[0]),
        ];
    let g = erc::thin_nets(s);
    erc_laws::notes_hold_parts(b, s, opts, kind);
    assert forall|i: int| 0 <= i < n implies gives(
        #[trigger] g(i),
        kind,
        Severity::Warning,
        p(i),
        who(i),
    ) by {
        reveal_with_fuel(erc_laws::tally_of, 3);
        if g(i).len() == 1 {
            assert(g(i).drop_last().len() == 0);
        }
        let net = s.nets.entries@[i].1;
        if net.connections@.len() > 0 {
            assert(erc::single_pin(net) == has_one_pin(s, i));
        }
    }
    single_notes(erc::notes_of(b, s, opts), kind, Severity::Warning, n, p, who, g);
}

/// The check warns of each symbol with pins that no net reaches, and of no
/// other.
pub proof fn orphan_symbols_are_noted(b: Board, s: Schematic, opts: ErcOptions)
    ensures
        exactly(
            erc::notes_of(b, s, opts),
            ErcKind::OrphanSymbol,
            Severity::Warning,
            s.symbols@.len() as int,
            |i: int| s.symbols@[i].kind.pinout().len() > 0 && !is_wired(s, s.symbols@[i].id),
            |i: int| seq![s.symbols@[i].reference@],
        ),
{
    let kind = ErcKind::OrphanSymbol;
    let n = s.symbols@.len() as int;
    let p = |i: int| s.symbols@[i].kind.pinout().len() > 0 && !is_wired(s, s.symbols@[i].id);
    let who = |i: int| seq![s.symbols@[i].reference@];
    let g = erc::orphans(s);
    erc_laws::notes_hold_parts(b, s, opts, kind);
    assert forall|i: int| 0 <= i < n implies gives(
        #[trigger] g(i),
        kind,
        Severity::Warning,
        p(i),
        who(i),
    ) by {
        covered_is_wired(s, s.symbols@[i].id);
        one_gives(g(i), kind, Severity::Warning, p(i), who(i));
    }
    single_notes(erc::notes_of(b, s, opts), kind, Severity::Warning, n, p, who, g);
}

/// The schematic declares the net.
pub open spec fn is_declared(s: Schematic, net: Seq<char>) -> bool {
    exists|i: int| 0 <= i < s.nets.entries@.len() && (#[trigger] s.nets.entries@[i]).0@ == net
}

/// Pad `i` is on a net that neither the schematic nor a pour knows, and no
/// pad before it has its label and its net.
pub open spec fn is_phantom(b: Board, s: Schematic, i: int) -> bool {
    let p = drc::pads_of(b);
    p[i].1.net matches Some(n) && !is_declared(s, n@) && !erc_laws::is_poured(b, n@) && !(exists|
        k: int,
    |
        0 <= k < i && drc::label_of(#[trigger] p[k]) == drc::label_of(p[i])
            && drc_laws::name_of(p[k].1.net) == Some(n@))
}

/// The check raises an error for each pad on a net that nothing knows, once
/// for each label and net, and for no other.
pub proof fn phantom_nets_are_noted(b: Board, s: Schematic, opts: ErcOptions)
    ensures
        exactly(
            erc::notes_of(b, s, opts),
            ErcKind::PhantomNet,
            Severity::Error,
            drc::pads_of(b).len() as int,
            |i: int| is_phantom(b, s, i),
            |i: int|
                seq![
                    drc::label_of(drc::pads_of(b)[i]),
                    drc_laws::name_of(drc::pads_of(b)[i].1.net)->0,
                ],
        ),
{
    let kind = ErcKind::PhantomNet;
    let q = drc::pads_of(b);
    let n = q.len() as int;
    let p = |i: int| is_phantom(b, s, i);
    let who = |i: int|
        seq![
            drc::label_of(drc::pads_of(b)[i]),
            drc_laws::name_of(drc::pads_of(b)[i].1.net)->0,
        ];
    let g = erc::phantoms(b, s);
    erc_laws::notes_hold_parts(b, s, opts, kind);
    assert forall|i: int| 0 <= i < n implies gives(
        #[trigger] g(i),
        kind,
        Severity::Error,
        p(i),
        who(i),
    ) by {
        if let Some(net) = q[i].1.net {
            name_map::find_is_first(s.nets.entries@, net@, 0);
            assert(s.nets.of(net@) is None <==> !is_declared(s, net@)) by {
                let k = name_map::find_from(s.nets.entries@, net@, 0);
                if k < s.nets.entries@.len() {
                    assert(s.nets.entries@[k].0@ == net@);
                }
            }
        }
        one_gives(g(i), kind, Severity::Error, p(i), who(i));
    }
    single_notes(erc::notes_of(b, s, opts), kind, Severity::Error, n, p, who, g);
}

proof fn role_rules_tally(b: Board, s: Schematic, i: int, kind: ErcKind)
    ensures
        ({
            let r = erc::net_roles(s, s.nets.entries@[i].1);
            let name = s.nets.entries@[i].0@;
            &&& kind == ErcKind::MultipleDrivers ==> erc_laws::tally_of(
                erc::role_rules(b, s)(i),
                kind,
            ) == erc_laws::tally_of(erc::many_drivers(name, r), kind)
            &&& kind == ErcKind::UnpoweredPowerNet ==> erc_laws::tally_of(
                erc::role_rules(b, s)(i),
                kind,
            ) == erc_laws::tally_of(erc::unpowered(b, name, r), kind)
        }),
{
    let r = erc::net_roles(s, s.nets.entries@[i].1);
    let name = s.nets.entries@[i].0@;
    let a1 = erc::many_drivers(name, r);
    let a2 = erc::unpowered(b, name, r);
    let a3 = list::upto(erc::undriven(b, name, r), r.len() as int);
    erc_laws::tally_joined(a1 + a2, a3, kind);
    erc_laws::tally_joined(a1, a2, kind);
    assert(erc::role_rules(b, s)(i) == a1 + a2 + a3);
    if kind == ErcKind::MultipleDrivers || kind == ErcKind::UnpoweredPowerNet {
        assert forall|x: Note| #[trigger] a3.contains(x) implies x.kind != kind by {
            list::upto_holds(erc::undriven(b, name, r), r.len() as int, x);
        }
        erc_laws::tally_none(a3, kind);
    }
    if kind == ErcKind::MultipleDrivers {
        erc_laws::tally_none(a2, kind);
    }
    if kind == ErcKind::UnpoweredPowerNet {
        erc_laws::tally_none(a1, kind);
    }
}

/// The check warns of each net that draws power but has no supply, and of no
/// other.
pub proof fn unpowered_nets_are_noted(b: Board, s: Schematic, opts: ErcOptions)
    ensures
        exactly(
            erc::notes_of(b, s, opts),
            ErcKind::UnpoweredPowerNet,
            Severity::Warning,
            s.nets.entries@.len() as int,
            |i: int|
                erc_laws::some_plays(s, s.nets.entries@[i].1, PinRole::PowerIn)
                    && !erc_laws::has_supply(b, s, i),
            |i: int| seq![s.nets.entries@[i].0@],
        ),
{
    let kind = ErcKind::UnpoweredPowerNet;
    let n = s.nets.entries@.len() as int;
    let p = |i: int|
        erc_laws::some_plays(s, s.nets.entries@[i].1, PinRole::PowerIn) && !erc_laws::has_supply(
            b,
            s,
            i,
        );
    let who = |i: int| seq![s.nets.entries@[i].0@];
    let g = erc::role_rules(b, s);
    erc_laws::notes_hold_parts(b, s, opts, kind);
    assert forall|i: int| 0 <= i < n implies gives(
        #[trigger] g(i),
        kind,
        Severity::Warning,
        p(i),
        who(i),
    ) by {
        let r = erc::net_roles(s, s.nets.entries@[i].1);
        let name = s.nets.entries@[i].0@;
        erc_laws::drivers_are_exact(b, s, i);
        erc_laws::roles_are_played(s, s.nets.entries@[i].1, PinRole::PowerIn);
        role_rules_tally(b, s, i, kind);
        one_gives(erc::unpowered(b, name, r), kind, Severity::Warning, p(i), who(i));
        assert forall|x: Note| #[trigger] g(i).contains(x) && x.kind == kind implies p(i)
            && x.severity == Severity::Warning && x.involved == who(i) by {
            erc_laws::role_rule_holds(b, s, i, x);
        }
    }
    single_notes(erc::notes_of(b, s, opts), kind, Severity::Warning, n, p, who, g);
}

/// The net has no fewer than two connections to outputs.
pub open spec fn has_two_outputs(s: Schematic, net: Net) -> bool {
    list::how_many(
        |j: int| erc_laws::plays(s, net.connections@[j], PinRole::Output),
        net.connections@.len() as int,
    ) >= 2
}

proof fn outputs_joined(
    r: Seq<(Seq<char>, PinRole)>,
    t: Seq<(Seq<char>, PinRole)>,
    n: int,
)
    requires
        0 <= n <= r.len() <= t.len(),
        forall|k: int| 0 <= k < r.len() ==> r[k] == #[trigger] t[k],
    ensures
        list::upto(erc::output_of(r), n) == list::upto(erc::output_of(t), n),
    decreases n,
{
    if n > 0 {
        outputs_joined(r, t, n - 1);
        assert(t[n - 1] == r[n - 1]);
    }
}

/// The outputs of a net, by name, in the order of its connections.
pub open spec fn output_names(s: Schematic, net: Net, n: int) -> Seq<Seq<char>>
    decreases n,
{
    if n <= 0 {
        Seq::empty()
    } else if erc_laws::plays(s, net.connections@[n - 1], PinRole::Output) {
        output_names(s, net, n - 1).push(erc_laws::pin_name(s, net.connections@[n - 1]))
    } else {
        output_names(s, net, n - 1)
    }
}

proof fn outputs_are_named(s: Schematic, net: Net, n: int)
    requires
        0 <= n <= net.connections@.len(),
    ensures
        ({
            let r = list::upto(erc::net_role(s, net), n);
            &&& list::upto(erc::output_of(r), r.len() as int) == output_names(s, net, n)
            &&& output_names(s, net, n).len() == list::how_many(
                |j: int| erc_laws::plays(s, net.connections@[j], PinRole::Output),
                n,
            )
        }),
    decreases n,
{
    let q = |j: int| erc_laws::plays(s, net.connections@[j], PinRole::Output);
    let r = list::upto(erc::net_role(s, net), n);
    if n > 0 {
        let h = list::upto(erc::net_role(s, net), n - 1);
        let g = erc::net_role(s, net)(n - 1);
        outputs_are_named(s, net, n - 1);
        erc_laws::gathered(s, net, n - 1);
        outputs_joined(h, r, h.len() as int);
        assert(erc_laws::plays(s, net.connections@[n - 1], PinRole::Output) == q(n - 1));
        assert(list::how_many(q, n) == list::how_many(q, n - 1) + if q(n - 1) {
            1nat
        } else {
            0nat
        });
        if g.len() == 1 {
            let k = h.len() as int;
            assert(r[k] == g[0]);
            assert(list::upto(erc::output_of(r), k + 1) == list::upto(erc::output_of(r), k)
                + erc::output_of(r)(k));
        } else {
            assert(r =~= h);
        }
        assert(list::upto(erc::output_of(r), r.len() as int) =~= output_names(s, net, n));
    }
}

/// The check raises an error for each net with two outputs or more, naming
/// the net and its outputs, and for no other.
pub proof fn competing_outputs_are_noted(b: Board, s: Schematic, opts: ErcOptions)
    ensures
        exactly(
            erc::notes_of(b, s, opts),
            ErcKind::MultipleDrivers,
            Severity::Error,
            s.nets.entries@.len() as int,
            |i: int| has_two_outputs(s, s.nets.entries@[i].1),
            |i: int|
                seq![s.nets.entries@[i].0@] + output_names(
                    s,
                    s.nets.entries@[i].1,
                    s.nets.entries@[i].1.connections@.len() as int,
                ),
        ),
{
    let kind = ErcKind::MultipleDrivers;
    let n = s.nets.entries@.len() as int;
    let p = |i: int| has_two_outputs(s, s.nets.entries@[i].1);
    let who = |i: int|
        seq![s.nets.entries@[i].0@] + output_names(
            s,
            s.nets.entries@[i].1,
            s.nets.entries@[i].1.connections@.len() as int,
        );
    let g = erc::role_rules(b, s);
    erc_laws::notes_hold_parts(b, s, opts, kind);
    assert forall|i: int| 0 <= i < n implies gives(
        #[trigger] g(i),
        kind,
        Severity::Error,
        p(i),
        who(i),
    ) by {
        let net = s.nets.entries@[i].1;
        let r = erc::net_roles(s, net);
        let name = s.nets.entries@[i].0@;
        outputs_are_named(s, net, net.connections@.len() as int);
        role_rules_tally(b, s, i, kind);
        one_gives(erc::many_drivers(name, r), kind, Severity::Error, p(i), who(i));
        assert forall|x: Note| #[trigger] g(i).contains(x) && x.kind == kind implies p(i)
            && x.severity == Severity::Error && x.involved == who(i) by {
            erc_laws::role_rule_holds(b, s, i, x);
        }
    }
    single_notes(erc::notes_of(b, s, opts), kind, Severity::Error, n, p, who, g);
}

/// The net reaches a resistor.
pub open spec fn reaches_resistor(s: Schematic, net: Net) -> bool {
    exists|j: int, k: int|
        0 <= j < net.connections@.len() && 0 <= k < s.symbols@.len() && (
        #[trigger] s.symbols@[k]).kind is Resistor && s.symbols@[k].id == (
        #[trigger] net.connections@[j]).symbol_id
}

/// With the rules of thumb the check warns of each I2C line without a
/// resistor, and of no other net. Without them it warns of none.
pub proof fn missing_pullups_are_noted(b: Board, s: Schematic, opts: ErcOptions)
    ensures
        exactly(
            erc::notes_of(b, s, opts),
            ErcKind::MissingPullup,
            Severity::Warning,
            s.nets.entries@.len() as int,
            |i: int|
                opts.heuristics && erc::is_i2c(s.nets.entries@[i].1.name@) && !reaches_resistor(
                    s,
                    s.nets.entries@[i].1,
                ),
            |i: int| seq![s.nets.entries@[i].1.name@],
        ),
{
    let kind = ErcKind::MissingPullup;
    let n = s.nets.entries@.len() as int;
    let p = |i: int|
        opts.heuristics && erc::is_i2c(s.nets.entries@[i].1.name@) && !reaches_resistor(
            s,
            s.nets.entries@[i].1,
        );
    let who = |i: int| seq![s.nets.entries@[i].1.name@];
    let g = if opts.heuristics {
        erc::pullups(s)
    } else {
        |i: int| Seq::<Note>::empty()
    };
    erc_laws::notes_hold_parts(b, s, opts, kind);
    if !opts.heuristics {
        empty_upto(g, n);
    }
    assert forall|i: int| 0 <= i < n implies gives(
        #[trigger] g(i),
        kind,
        Severity::Warning,
        p(i),
        who(i),
    ) by {
        let net = s.nets.entries@[i].1;
        assert(erc::has_resistor(s, net) == reaches_resistor(s, net)) by {
            if erc::has_resistor(s, net) {
                let j = choose|j: int|
                    0 <= j < net.connections@.len() && erc::is_resistor(
                        s,
                        (#[trigger] net.connections@[j]).symbol_id,
                    );
                let k = choose|k: int|
                    0 <= k < s.symbols@.len() && (#[trigger] s.symbols@[k]).id
                        == net.connections@[j].symbol_id && s.symbols@[k].kind is Resistor;
                assert(s.symbols@[k].id == net.connections@[j].symbol_id);
            }
            if reaches_resistor(s, net) {
                let (j, k) = choose|j: int, k: int|
                    0 <= j < net.connections@.len() && 0 <= k < s.symbols@.len() && (
                    #[trigger] s.symbols@[k]).kind is Resistor && s.symbols@[k].id == (
                    #[trigger] net.connections@[j]).symbol_id;
                assert(erc::is_resistor(s, net.connections@[j].symbol_id));
            }
        }
        one_gives(g(i), kind, Severity::Warning, p(i), who(i));
    }
    single_notes(erc::notes_of(b, s, opts), kind, Severity::Warning, n, p, who, g);
}

/// The first footprint with the reference stands at the point.
pub open spec fn is_placed(b: Board, reference: Seq<char>, at: Point) -> bool {
    exists|k: int| #[trigger] is_first_footprint(b, reference, k) && b.footprints@[k].position == at
}

/// Footprint `k` is the first with the reference.
pub open spec fn is_first_footprint(b: Board, reference: Seq<char>, k: int) -> bool {
    &&& 0 <= k < b.footprints@.len()
    &&& b.footprints@[k].reference@ == reference
    &&& forall|m: int| 0 <= m < k ==> (#[trigger] b.footprints@[m]).reference@ != reference
}

proof fn position_is_first(b: Board, reference: Seq<char>, i: int)
    requires
        0 <= i,
        forall|m: int|
            0 <= m < i && m < b.footprints@.len() ==> (#[trigger] b.footprints@[m]).reference@
                != reference,
    ensures
        forall|at: Point| #[trigger]
            is_placed(b, reference, at) <==> erc::placed_at(b.footprints@, reference, i) == Some(
                at,
            ),
    decreases b.footprints@.len() - i,
{
    let f = b.footprints@;
    if i < f.len() {
        if f[i].reference@ == reference {
            assert(is_first_footprint(b, reference, i));
            assert forall|at: Point| #[trigger] is_placed(b, reference, at) <==> erc::placed_at(
                f,
                reference,
                i,
            ) == Some(at) by {
                if is_placed(b, reference, at) {
                    let k = choose|k: int| #[trigger]
                        is_first_footprint(b, reference, k) && f[k].position == at;
                    assert(k == i) by {
                        if k < i {
                            assert(f[k].reference@ != reference);
                        } else if k > i {
                            assert(f[i].reference@ != reference);
                        }
                    }
                }
            }
        } else {
            position_is_first(b, reference, i + 1);
        }
    } else {
        assert forall|at: Point| !#[trigger] is_placed(b, reference, at) by {
            if is_placed(b, reference, at) {
                let k = choose|k: int| #[trigger]
                    is_first_footprint(b, reference, k) && f[k].position == at;
                assert(f[k].reference@ != reference);
            }
        }
    }
}

/// Some net of that name reaches the symbol.
pub open spec fn is_on_net(s: Schematic, net: Seq<char>, id: Id) -> bool {
    exists|i: int, j: int| #[trigger]
        is_connection(s, id, i, j) && s.nets.entries@[i].1.name@ == net
}

/// Symbol `k` is a capacitor on the net that is placed no farther than `max`
/// from the point.
pub open spec fn is_near_capacitor(
    b: Board,
    s: Schematic,
    net: Seq<char>,
    at: Point,
    max: int,
    k: int,
) -> bool {
    let c = s.symbols@[k];
    &&& 0 <= k < s.symbols@.len()
    &&& c.kind is Capacitor
    &&& is_on_net(s, net, c.id)
    &&& exists|q: Point| #[trigger]
        is_placed(b, c.reference@, q) && max >= 0 && (q.x.0 - at.x.0) * (q.x.0 - at.x.0) + (q.y.0
            - at.y.0) * (q.y.0 - at.y.0) <= max * max
}

/// Pin `j` of symbol `i`, a placed chip, draws power from a net without a
/// pour, and no capacitor on the net is near the chip.
pub open spec fn lacks_capacitor(b: Board, s: Schematic, max: int, i: int, j: int) -> bool {
    let sym = s.symbols@[i];
    let pin = sym.kind.pinout()[j];
    &&& sym.kind is GenericIc
    &&& pin.role == PinRole::PowerIn
    &&& s.pin_net(sym.id, pin.number, 0) matches Some(net) && !erc_laws::is_poured(b, net)
        && exists|at: Point| #[trigger]
        is_placed(b, sym.reference@, at) && !(exists|k: int| #[trigger]
            is_near_capacitor(b, s, net, at, max, k))
}

proof fn serving_is_near(b: Board, s: Schematic, net: Seq<char>, at: Point, max: int)
    ensures
        erc::decoupled(b, s, net, at, max) <==> exists|k: int| #[trigger]
            is_near_capacitor(b, s, net, at, max, k),
{
    assert forall|k: int| 0 <= k < s.symbols@.len() implies (erc::serves(
        b,
        s,
        #[trigger] s.symbols@[k],
        net,
        at,
        max,
    ) <==> is_near_capacitor(b, s, net, at, max, k)) by {
        let c = s.symbols@[k];
        position_is_first(b, c.reference@, 0);
        assert(erc::is_on(s, net, c.id) <==> is_on_net(s, net, c.id)) by {
            if erc::is_on(s, net, c.id) {
                let i = choose|i: int|
                    0 <= i < s.nets.entries@.len() && (#[trigger] s.nets.entries@[i]).1.name@ == net
                        && erc::joins(s.nets.entries@[i].1, c.id);
                let n = s.nets.entries@[i].1;
                let j = choose|j: int|
                    0 <= j < n.connections@.len() && (#[trigger] n.connections@[j]).symbol_id
                        == c.id;
                assert(is_connection(s, c.id, i, j));
            }
            if is_on_net(s, net, c.id) {
                let (i, j) = choose|i: int, j: int| #[trigger]
                    is_connection(s, c.id, i, j) && s.nets.entries@[i].1.name@ == net;
                assert(s.nets.entries@[i].1.connections@[j].symbol_id == c.id);
                assert(erc::joins(s.nets.entries@[i].1, c.id));
            }
        }
        if let Some(q) = erc::position_of(b, c) {
            assert(is_placed(b, c.reference@, q));
        }
    }
    if erc::decoupled(b, s, net, at, max) {
        let k = choose|k: int|
            0 <= k < s.symbols@.len() && erc::serves(b, s, #[trigger] s.symbols@[k], net, at, max);
        assert(is_near_capacitor(b, s, net, at, max, k));
    }
    if exists|k: int| #[trigger] is_near_capacitor(b, s, net, at, max, k) {
        let k = choose|k: int| #[trigger] is_near_capacitor(b, s, net, at, max, k);
        assert(erc::serves(b, s, s.symbols@[k], net, at, max));
    }
}

/// With the rules of thumb the check warns of each power pin of a placed
/// chip that no capacitor decouples, and of no other. Without them it warns
/// of none.
pub proof fn missing_capacitors_are_noted(b: Board, s: Schematic, opts: ErcOptions)
    ensures
        exactly_pairs(
            erc::notes_of(b, s, opts),
            ErcKind::MissingDecouplingCap,
            Severity::Warning,
            s.symbols@.len() as int,
            |i: int| s.symbols@[i].kind.pinout().len() as int,
            |i: int, j: int|
                opts.heuristics && lacks_capacitor(
                    b,
                    s,
                    opts.decoupling_max_dist.0 as int,
                    i,
                    j,
                ),
            |i: int, j: int|
                seq![
                    s.symbols@[i].reference@ + "."@ + s.symbols@[i].kind.pinout()[j].number,
                    s.pin_net(s.symbols@[i].id, s.symbols@[i].kind.pinout()[j].number, 0)->0,
                ],
        ),
{
    let kind = ErcKind::MissingDecouplingCap;
    let max = opts.decoupling_max_dist.0 as int;
    let m = s.symbols@.len() as int;
    let n = |i: int| s.symbols@[i].kind.pinout().len() as int;
    let p = |i: int, j: int| opts.heuristics && lacks_capacitor(b, s, max, i, j);
    let who = |i: int, j: int|
        seq![
            s.symbols@[i].reference@ + "."@ + s.symbols@[i].kind.pinout()[j].number,
            s.pin_net(s.symbols@[i].id, s.symbols@[i].kind.pinout()[j].number, 0)->0,
        ];
    let g = if opts.heuristics {
        erc::decoupling(b, s, max)
    } else {
        |i: int| Seq::<Note>::empty()
    };
    let h = |i: int, j: int|
        if opts.heuristics && s.symbols@[i].kind is GenericIc && erc::position_of(
            b,
            s.symbols@[i],
        ) is Some {
            erc::uncoupled(
                b,
                s,
                s.symbols@[i],
                erc::position_of(b, s.symbols@[i])->0,
                max,
            )(j)
        } else {
            Seq::<Note>::empty()
        };
    erc_laws::notes_hold_parts(b, s, opts, kind);
    if !opts.heuristics {
        empty_upto(g, m);
    }
    assert forall|i: int| 0 <= i < m implies #[trigger] g(i) == list::upto(|j: int| h(i, j), n(i)) by {
        let sym = s.symbols@[i];
        let r = |j: int| h(i, j);
        if opts.heuristics && sym.kind is GenericIc && erc::position_of(b, sym) is Some {
            assert(r =~= erc::uncoupled(b, s, sym, erc::position_of(b, sym)->0, max));
        } else {
            empty_upto(r, n(i));
        }
    }
    assert forall|i: int, j: int| 0 <= i < m && 0 <= j < n(i) implies gives(
        #[trigger] h(i, j),
        kind,
        Severity::Warning,
        p(i, j),
        who(i, j),
    ) by {
        let sym = s.symbols@[i];
        let pin = sym.kind.pinout()[j];
        position_is_first(b, sym.reference@, 0);
        if let Some(at) = erc::position_of(b, sym) {
            assert(is_placed(b, sym.reference@, at));
            if let Some(net) = s.pin_net(sym.id, pin.number, 0) {
                serving_is_near(b, s, net, at, max);
            }
        }
        one_gives(h(i, j), kind, Severity::Warning, p(i, j), who(i, j));
    }
    pair_notes(erc::notes_of(b, s, opts), kind, Severity::Warning, m, n, p, who, g, h);
}

/// Endpoint `i` is the first at its pin, and another is at it too.
pub open spec fn is_repeated(e: Seq<erc::Endpoint>, i: int) -> bool {
    &&& forall|k: int| 0 <= k < i ==> !((#[trigger] e[k]).id == e[i].id && e[k].pin == e[i].pin)
    &&& exists|k: int|
        i < k < e.len() && (#[trigger] e[k]).id == e[i].id && e[k].pin == e[i].pin
}

/// The names of the nets of the pin of endpoint `i`, as the check lists
/// them.
pub open spec fn nets_at(e: Seq<erc::Endpoint>, i: int) -> Seq<Seq<char>> {
    erc::deduped(csv::sorted(erc::homes(e, i)))
}

proof fn deduped_keeps(s: Seq<Seq<char>>, x: Seq<char>)
    ensures
        erc::deduped(s).contains(x) <==> s.contains(x),
    decreases s.len(),
{
    if s.len() > 0 {
        let t = s.drop_last();
        let d = erc::deduped(t);
        deduped_keeps(t, x);
        if s.contains(x) {
            let k = choose|k: int| 0 <= k < s.len() && s[k] == x;
            if k < t.len() {
                assert(t[k] == x);
            } else if s.len() >= 2 && s[s.len() - 2] == s.last() {
                assert(t[s.len() - 2] == x);
            }
        }
        if t.contains(x) {
            let k = choose|k: int| 0 <= k < t.len() && t[k] == x;
            assert(s[k] == x);
        }
        assert(s[s.len() - 1] == s.last());
        if !(s.len() >= 2 && s[s.len() - 2] == s.last()) {
            let w = d.push(s.last());
            if d.contains(x) {
                let k = choose|k: int| 0 <= k < d.len() && d[k] == x;
                assert(w[k] == x);
            }
            assert(w[d.len() as int] == s.last());
            if w.contains(x) {
                let k = choose|k: int| 0 <= k < w.len() && w[k] == x;
                if k < d.len() {
                    assert(d[k] == x);
                }
            }
        }
    }
}

/// The nets that are named with a repeated pin are those that list it.
pub proof fn repeated_pins_name_their_nets(s: Schematic, i: int, net: Seq<char>)
    requires
        0 <= i < erc::endpoints(s).len(),
    ensures
        ({
            let e = erc::endpoints(s);
            nets_at(e, i).contains(net) <==> exists|k: int|
                0 <= k < e.len() && (#[trigger] e[k]).id == e[i].id && e[k].pin == e[i].pin
                    && e[k].net == net
        }),
{
    let e = erc::endpoints(s);
    let h = erc::homes(e, i);
    let f = erc::home(e, i);
    deduped_keeps(csv::sorted(h), net);
    csv::sorting_is_a_permutation(h);
    sorted_holds(h, net);
    list::upto_holds(f, e.len() as int, net);
    if h.contains(net) {
        let k = choose|k: int| 0 <= k < e.len() && #[trigger] f(k).contains(net);
        assert(e[k].net == net);
    }
    if exists|k: int|
        0 <= k < e.len() && (#[trigger] e[k]).id == e[i].id && e[k].pin == e[i].pin && e[k].net
            == net {
        let k = choose|k: int|
            0 <= k < e.len() && (#[trigger] e[k]).id == e[i].id && e[k].pin == e[i].pin && e[k].net
                == net;
        assert(f(k)[0] == net);
        assert(f(k).contains(net));
    }
}

proof fn sorted_holds(s: Seq<Seq<char>>, x: Seq<char>)
    ensures
        csv::sorted(s).contains(x) <==> s.contains(x),
{
    csv::sorting_is_a_permutation(s);
    vstd::seq_lib::to_multiset_contains(s, x);
    vstd::seq_lib::to_multiset_contains(csv::sorted(s), x);
}

/// The check raises an error for each pin that is listed more than once, and
/// for no other.
pub proof fn repeated_pins_are_noted(b: Board, s: Schematic, opts: ErcOptions)
    ensures
        exactly(
            erc::notes_of(b, s, opts),
            ErcKind::DuplicatePin,
            Severity::Error,
            erc::endpoints(s).len() as int,
            |i: int| is_repeated(erc::endpoints(s), i),
            |i: int|
                seq![
                    erc::label(s, erc::endpoints(s)[i].id, erc::endpoints(s)[i].pin),
                ] + nets_at(erc::endpoints(s), i),
        ),
{
    let kind = ErcKind::DuplicatePin;
    let e = erc::endpoints(s);
    let n = e.len() as int;
    let p = |i: int| is_repeated(erc::endpoints(s), i);
    let who = |i: int|
        seq![erc::label(s, erc::endpoints(s)[i].id, erc::endpoints(s)[i].pin)] + nets_at(
            erc::endpoints(s),
            i,
        );
    let g = erc::duplicates(s);
    erc_laws::notes_hold_parts(b, s, opts, kind);
    assert forall|i: int| 0 <= i < n implies gives(
        #[trigger] g(i),
        kind,
        Severity::Error,
        p(i),
        who(i),
    ) by {
        let f = erc::home(e, i);
        assert forall|k: int| (#[trigger] f(k)).len() <= 1 by {}
        list::upto_two(f, n);
        assert(erc::leads_pin(e, i) && erc::homes(e, i).len() >= 2 <==> is_repeated(e, i)) by {
            assert(f(i).len() == 1);
            if erc::leads_pin(e, i) && erc::homes(e, i).len() >= 2 {
                let (k, l) = choose|k: int, l: int|
                    0 <= k < l < n && (#[trigger] f(k)).len() == 1 && (#[trigger] f(l)).len() == 1;
                assert(erc::same_pin(e[k], e[i]) && erc::same_pin(e[l], e[i]));
                if l <= i {
                    assert(!erc::same_pin(e[k], e[i]));
                }
                assert(e[l].id == e[i].id);
            }
            if is_repeated(e, i) {
                let k = choose|k: int|
                    i < k < e.len() && (#[trigger] e[k]).id == e[i].id && e[k].pin == e[i].pin;
                assert(f(k).len() == 1);
            }
        }
        one_gives(g(i), kind, Severity::Error, p(i), who(i));
    }
    single_notes(erc::notes_of(b, s, opts), kind, Severity::Error, n, p, who, g);
}

} // verus!
