//! Which pads a net reaches, which rules govern a net, and what is listed of
//! each part.

use vstd::prelude::*;

use crate::board::{Board, CopperLayer, Footprint, Pad};
use crate::csv;
use crate::drc::DrcOptions;
use crate::fab;
use crate::fab::Provider;
use crate::library::{BodyRect, LibraryEntry};
use crate::name_map;
use crate::name_map::NameMap;
use crate::pick_place;
use crate::schematic::{Net, NetClass, NetConnection, Schematic, Symbol};
use crate::text;
use crate::wiring;

verus! {

/// The connection leads to the part with that reference: it is that of the
/// first symbol with its id.
pub open spec fn leads_to_part(v: Seq<Symbol>, c: NetConnection, reference: Seq<char>) -> bool {
    exists|i: int| #[trigger] is_first_symbol(v, c, i) && v[i].reference@ == reference
}

pub open spec fn is_first_symbol(v: Seq<Symbol>, c: NetConnection, i: int) -> bool {
    &&& 0 <= i < v.len()
    &&& v[i].id == c.symbol_id
    &&& forall|k: int| 0 <= k < i ==> (#[trigger] v[k]).id != c.symbol_id
}

/// The pin addresses pad `k`: the first with that number, or where no pad
/// has the number the first of that name.
pub open spec fn addresses(v: Seq<Pad>, pin: Seq<char>, k: int) -> bool {
    &&& 0 <= k < v.len()
    &&& {
        ||| v[k].number@ == pin && forall|m: int| 0 <= m < k ==> (#[trigger] v[m]).number@ != pin
        ||| v[k].name@ == pin && (forall|m: int|
            0 <= m < v.len() ==> (#[trigger] v[m]).number@ != pin) && (forall|m: int|
            0 <= m < k ==> (#[trigger] v[m]).name@ != pin)
    }
}

/// Connection `m` of the net leads to pad `k` of the footprint.
pub open spec fn is_reached_by(symbols: Seq<Symbol>, net: Net, fp: Footprint, k: int, m: int) -> bool {
    &&& 0 <= m < net.connections@.len()
    &&& leads_to_part(symbols, net.connections@[m], fp.reference@)
    &&& addresses(fp.pads@, net.connections@[m].pin_number@, k)
}

proof fn symbol_is_first(v: Seq<Symbol>, c: NetConnection, i: int)
    requires
        0 <= i,
        forall|k: int| 0 <= k < i && k < v.len() ==> (#[trigger] v[k]).id != c.symbol_id,
    ensures
        ({
            let k = wiring::symbol_from(v, c.symbol_id, i);
            &&& k < v.len() ==> is_first_symbol(v, c, k)
            &&& forall|m: int| #[trigger] is_first_symbol(v, c, m) ==> m == k
        }),
    decreases v.len() - i,
{
    if i < v.len() {
        if v[i].id == c.symbol_id {
            assert(is_first_symbol(v, c, i));
        } else {
            symbol_is_first(v, c, i + 1);
        }
    }
}

proof fn leading_is_leading(v: Seq<Symbol>, c: NetConnection, reference: Seq<char>)
    ensures
        wiring::leads_to(v, c, reference) <==> leads_to_part(v, c, reference),
{
    symbol_is_first(v, c, 0);
}

proof fn address_is_exact(v: Seq<Pad>, pin: Seq<char>, k: int)
    ensures
        0 <= k < v.len() && wiring::pad_at(v, pin) == k <==> addresses(v, pin, k),
{
    wiring::number_is_first(v, pin, 0);
    wiring::name_is_first(v, pin, 0);
    let n = wiring::number_from(v, pin, 0);
    let m = wiring::name_from(v, pin, 0);
    if addresses(v, pin, k) {
        if n < v.len() {
            assert(v[n].number@ == pin);
            assert(k == n);
        } else if m < v.len() {
            assert(v[m].name@ == pin);
            assert(v[k].number@ != pin);
            assert(k == m);
        } else {
            assert(v[k].number@ != pin);
            assert(v[k].name@ != pin);
        }
    }
}

proof fn wired_upto(symbols: Seq<Symbol>, net: Net, fp: Footprint, n: int, k: int)
    requires
        0 <= n <= net.connections@.len(),
        0 <= k < fp.pads@.len(),
    ensures
        ({
            let w = wiring::wired_by(
                symbols,
                net.connections@,
                net.name,
                fp.reference@,
                fp.pads@,
                n,
            );
            &&& w.len() == fp.pads@.len()
            &&& w[k] == (Pad {
                net: if exists|m: int| m < n && #[trigger] is_reached_by(symbols, net, fp, k, m) {
                    Some(net.name)
                } else {
                    fp.pads@[k].net
                },
                ..fp.pads@[k]
            })
        }),
    decreases n,
{
    if n > 0 {
        let cs = net.connections@;
        wired_upto(symbols, net, fp, n - 1, k);
        let before = wiring::wired_by(symbols, cs, net.name, fp.reference@, fp.pads@, n - 1);
        let c = cs[n - 1];
        let pin = c.pin_number@;
        leading_is_leading(symbols, c, fp.reference@);
        wiring::wiring_keeps_pins(symbols, cs, net.name, fp.reference@, fp.pads@, n - 1);
        wiring::same_pins_same_place(fp.pads@, before, pin);
        wiring::pad_at_range(before, pin);
        address_is_exact(fp.pads@, pin, k);
        if is_reached_by(symbols, net, fp, k, n - 1) {
        } else {
            assert forall|m: int| m < n && #[trigger] is_reached_by(
                symbols,
                net,
                fp,
                k,
                m,
            ) implies m < n - 1 by {}
        }
    }
}

/// Following a net puts on it each pad that one of its connections leads to,
/// and leaves every other pad as it was.
pub proof fn nets_reach_the_pads_of_their_pins(
    symbols: Seq<Symbol>,
    net: Net,
    fp: Footprint,
    k: int,
)
    requires
        0 <= k < fp.pads@.len(),
    ensures
        wiring::pads_after(symbols, net, fp).len() == fp.pads@.len(),
        wiring::pads_after(symbols, net, fp)[k] == (Pad {
            net: if exists|m: int| #[trigger] is_reached_by(symbols, net, fp, k, m) {
                Some(net.name)
            } else {
                fp.pads@[k].net
            },
            ..fp.pads@[k]
        }),
{
    wired_upto(symbols, net, fp, net.connections@.len() as int, k);
    assert((exists|m: int| #[trigger] is_reached_by(symbols, net, fp, k, m)) <==> exists|m: int|
        m < net.connections@.len() && #[trigger] is_reached_by(symbols, net, fp, k, m)) by {
        if exists|m: int| #[trigger] is_reached_by(symbols, net, fp, k, m) {
            let m = choose|m: int| #[trigger] is_reached_by(symbols, net, fp, k, m);
            assert(m < net.connections@.len());
        }
    }
}

/// Entry `k` is the first under the name.
pub open spec fn is_entry<V>(m: NameMap<V>, name: Seq<char>, k: int) -> bool {
    &&& 0 <= k < m.entries@.len()
    &&& m.entries@[k].0@ == name
    &&& forall|i: int| 0 <= i < k ==> (#[trigger] m.entries@[i]).0@ != name
}

proof fn lookup_is_entry<V>(m: NameMap<V>, name: Seq<char>)
    ensures
        forall|k: int| #[trigger] is_entry(m, name, k) ==> m.of(name) == Some(m.entries@[k].1),
        m.of(name) is Some ==> exists|k: int| #[trigger] is_entry(m, name, k),
{
    name_map::find_is_first(m.entries@, name, 0);
    let j = name_map::find_from(m.entries@, name, 0);
    if m.of(name) is Some {
        assert(is_entry(m, name, j));
    }
    assert forall|k: int| #[trigger] is_entry(m, name, k) implies m.of(name) == Some(
        m.entries@[k].1,
    ) by {
        if k < j {
            assert(m.entries@[k].0@ != name);
        } else if j < k {
            assert(m.entries@[j].0@ != name);
        }
    }
}

/// The class is declared under that name.
pub open spec fn is_class(s: Schematic, name: Seq<char>, c: NetClass) -> bool {
    exists|k: int| #[trigger] is_entry(s.net_classes, name, k) && s.net_classes.entries@[k].1 == c
}

/// A class that is assigned to the net by name is declared.
pub open spec fn has_assigned(s: Schematic, net: Seq<char>, c: NetClass) -> bool {
    exists|k: int| #[trigger]
        is_entry(s.net_to_class, net, k) && is_class(s, s.net_to_class.entries@[k].1@, c)
}

/// The net itself names a class that is declared.
pub open spec fn has_own(s: Schematic, net: Seq<char>, c: NetClass) -> bool {
    exists|k: int| #[trigger]
        is_entry(s.nets, net, k) && (s.nets.entries@[k].1.class matches Some(n) && is_class(
            s,
            n@,
            c,
        ))
}

/// The class of a net is the one that is assigned to it, if that is
/// declared, and else the one that the net names, if that is.
pub proof fn assigned_classes_come_first(s: Schematic, net: Seq<char>, c: NetClass)
    ensures
        has_assigned(s, net, c) ==> s.class_of(net) == Some(c),
        has_own(s, net, c) && !(exists|d: NetClass| #[trigger] has_assigned(s, net, d))
            ==> s.class_of(net) == Some(c),
        s.class_of(net) == Some(c) ==> has_assigned(s, net, c) || has_own(s, net, c),
{
    lookup_is_entry(s.net_to_class, net);
    lookup_is_entry(s.nets, net);
    if let Some(n) = s.net_to_class.of(net) {
        lookup_is_entry(s.net_classes, n@);
    }
    if let Some(n) = s.nets.of(net) {
        if let Some(m) = n.class {
            lookup_is_entry(s.net_classes, m@);
        }
    }
    if s.assigned_class(net) is Some {
        let d = s.assigned_class(net)->0;
        let k = choose|k: int| #[trigger] is_entry(s.net_to_class, net, k);
        let n = s.net_to_class.entries@[k].1;
        let j = choose|j: int| #[trigger] is_entry(s.net_classes, n@, j);
        assert(is_class(s, n@, d));
        assert(has_assigned(s, net, d));
    }
    if s.own_class(net) is Some {
        let d = s.own_class(net)->0;
        let k = choose|k: int| #[trigger] is_entry(s.nets, net, k);
        let n = s.nets.entries@[k].1.class->0;
        let j = choose|j: int| #[trigger] is_entry(s.net_classes, n@, j);
        assert(is_class(s, n@, d));
        assert(has_own(s, net, d));
    }
}

/// The clearance that a net calls for is that of its class, where the class
/// sets one, and else its own, where that is set.
pub proof fn class_clearance_comes_first(opts: DrcOptions, net: Seq<char>)
    ensures
        ({
            let by_class = match opts.schematic {
                Some(s) => match s.class_of(net) {
                    Some(c) => c.clearance,
                    None => None,
                },
                None => None,
            };
            &&& by_class is Some ==> opts.called_for(net) == by_class
            &&& by_class is None ==> (opts.called_for(net) matches Some(l) ==> exists|k: int|
             #[trigger]
                is_entry(opts.net_overrides, net, k) && opts.net_overrides.entries@[k].1.clearance
                    == Some(l))
            &&& by_class is None ==> forall|k: int| #[trigger]
                is_entry(opts.net_overrides, net, k) ==> opts.called_for(net)
                    == opts.net_overrides.entries@[k].1.clearance
        }),
{
    lookup_is_entry(opts.net_overrides, net);
}

/// The margin of a library part is how far its body extends past its pads:
/// grown by it, the box around the pads covers the body, and a side that the
/// body does not extend past has none.
pub proof fn margins_reach_around_the_body(e: LibraryEntry, body: BodyRect)
    requires
        e.in_range(),
        body.in_range(),
        e.bounds(e.pads@.len() as int) matches Some(r) ==> r.within(0x1000_0000_0000),
    ensures
        e.bounds(e.pads@.len() as int) matches Some(r) ==> {
            let m = e.body_margin(body);
            &&& r.max.y.0 + m.top.0 >= body.max_y.0 && (m.top.0 == 0 || r.max.y.0 + m.top.0
                == body.max_y.0)
            &&& r.max.x.0 + m.right.0 >= body.max_x.0 && (m.right.0 == 0 || r.max.x.0 + m.right.0
                == body.max_x.0)
            &&& r.min.y.0 - m.bottom.0 <= body.min_y.0 && (m.bottom.0 == 0 || r.min.y.0
                - m.bottom.0 == body.min_y.0)
            &&& r.min.x.0 - m.left.0 <= body.min_x.0 && (m.left.0 == 0 || r.min.x.0 - m.left.0
                == body.min_x.0)
            &&& m.top.0 >= 0 && m.right.0 >= 0 && m.bottom.0 >= 0 && m.left.0 >= 0
        },
{
}

/// The lines one after the other.
pub open spec fn all_lines(v: Seq<Seq<char>>) -> Seq<char>
    decreases v.len(),
{
    if v.len() == 0 {
        Seq::empty()
    } else {
        all_lines(v.drop_last()) + v.last()
    }
}

/// The side of a part, by one of two words.
pub open spec fn side(fp: Footprint, top: Seq<char>, bottom: Seq<char>) -> Seq<char> {
    if fp.layer == CopperLayer::Top {
        top
    } else {
        bottom
    }
}

/// A position file line: reference, value, library, place in millimetres,
/// angle in degrees, side.
pub open spec fn position_line(fp: Footprint) -> Seq<char> {
    csv::field(fp.reference@) + ","@ + csv::field(fp.value@) + ","@ + csv::field(fp.library@)
        + ","@ + text::fixed(fp.position.x.0 as int, 4) + ","@ + text::fixed(
        fp.position.y.0 as int,
        4,
    ) + ","@ + text::fixed(fp.rotation.udeg as int, 2) + ","@ + side(fp, "top"@, "bottom"@) + "\n"@
}

proof fn positions_written(fps: Seq<Footprint>, n: int)
    requires
        0 <= n <= fps.len(),
    ensures
        pick_place::rows(fps, n) == all_lines(
            Seq::new(n as nat, |i: int| position_line(fps[i])),
        ),
    decreases n,
{
    let v = Seq::new(n as nat, |i: int| position_line(fps[i]));
    if n > 0 {
        positions_written(fps, n - 1);
        assert(v.drop_last() =~= Seq::new((n - 1) as nat, |i: int| position_line(fps[i])));
        assert(v.last() == position_line(fps[n - 1]));
    }
}

/// The position file has one line for each part, in order, behind its
/// header.
pub proof fn every_part_has_a_position(b: Board)
    ensures
        pick_place::pos_text(b) == "Reference,Value,Footprint,X,Y,Rotation,Side\n"@ + all_lines(
            Seq::new(b.footprints@.len(), |i: int| position_line(b.footprints@[i])),
        ),
{
    positions_written(b.footprints@, b.footprints@.len() as int);
}

proof fn placements_written(fps: Seq<Footprint>, p: Provider, n: int)
    requires
        0 <= n <= fps.len(),
    ensures
        fab::cpl_rows(fps, p, n) == all_lines(Seq::new(n as nat, |i: int| fab::cpl_row(fps[i], p))),
    decreases n,
{
    let v = Seq::new(n as nat, |i: int| fab::cpl_row(fps[i], p));
    if n > 0 {
        placements_written(fps, p, n - 1);
        assert(v.drop_last() =~= Seq::new((n - 1) as nat, |i: int| fab::cpl_row(fps[i], p)));
        assert(v.last() == fab::cpl_row(fps[n - 1], p));
    }
}

/// The placement list of a provider has one line for each part, in order.
/// The line of the one provider has the reference, the place, the side by
/// its letter and the angle; that of another is the line of the position
/// file.
pub proof fn every_part_has_a_placement(b: Board, p: Provider, i: int)
    requires
        0 <= i < b.footprints@.len(),
    ensures
        fab::cpl_rows(b.footprints@, p, b.footprints@.len() as int) == all_lines(
            Seq::new(b.footprints@.len(), |i: int| fab::cpl_row(b.footprints@[i], p)),
        ),
        p != Provider::Jlcpcb ==> fab::cpl_row(b.footprints@[i], p) == position_line(
            b.footprints@[i],
        ),
        p == Provider::Jlcpcb ==> fab::cpl_row(b.footprints@[i], p) == csv::field(
            b.footprints@[i].reference@,
        ) + ","@ + text::fixed(b.footprints@[i].position.x.0 as int, 4) + "mm,"@ + text::fixed(
            b.footprints@[i].position.y.0 as int,
            4,
        ) + "mm,"@ + side(b.footprints@[i], "T"@, "B"@) + ","@ + text::fixed(
            b.footprints@[i].rotation.udeg as int,
            2,
        ) + "\n"@,
{
    placements_written(b.footprints@, p, b.footprints@.len() as int);
}

} // verus!
