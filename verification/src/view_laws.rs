//! What the views of a project say of its pins, nets and parts.

use vstd::prelude::*;

use crate::board::Footprint;
use crate::bom;
use crate::bom::GroupBy;
use crate::list;
use crate::note_laws;
use crate::schematic::Schematic;
use crate::tools_schematic;
use crate::tools_view;
use crate::tools_view::{NetStatus, PadState};

verus! {

/// Pin `j` of symbol `i` is that one, and no net reaches it.
pub open spec fn is_loose_pin(s: Schematic, i: int, j: int, name: Seq<char>) -> bool {
    let sym = s.symbols@[i];
    let pin = sym.kind.pinout()[j].number;
    !note_laws::is_pin_wired(s, sym.id, pin) && name == sym.reference@ + "."@ + pin
}

proof fn loose_pins_of_one(s: Schematic, i: int, n: int, name: Seq<char>)
    requires
        0 <= n <= s.symbols@[i].kind.pinout().len(),
    ensures
        list::how_often(tools_schematic::loose_of(s, s.symbols@[i], n), name) == list::how_many(
            |j: int| is_loose_pin(s, i, j, name),
            n,
        ),
    decreases n,
{
    let p = |j: int| is_loose_pin(s, i, j, name);
    let sym = s.symbols@[i];
    if n > 0 {
        loose_pins_of_one(s, i, n - 1, name);
        let pin = sym.kind.pinout()[n - 1].number;
        note_laws::pins_are_on_the_nets_that_reach_them(s, sym.id, pin);
        let before = tools_schematic::loose_of(s, sym, n - 1);
        let x = sym.reference@ + "."@ + pin;
        assert(before.push(x).drop_last() =~= before);
        assert(p(n - 1) == is_loose_pin(s, i, n - 1, name));
        assert(list::how_many(p, n) == list::how_many(p, n - 1) + if p(n - 1) {
            1nat
        } else {
            0nat
        });
    }
}

proof fn loose_pins_of_all(s: Schematic, n: int, name: Seq<char>)
    requires
        0 <= n <= s.symbols@.len(),
    ensures
        list::how_often(tools_schematic::loose_upto(s, n), name) == list::total(
            |i: int|
                list::how_many(
                    |j: int| is_loose_pin(s, i, j, name),
                    s.symbols@[i].kind.pinout().len() as int,
                ),
            n,
        ),
    decreases n,
{
    let g = |i: int|
        list::how_many(
            |j: int| is_loose_pin(s, i, j, name),
            s.symbols@[i].kind.pinout().len() as int,
        );
    if n > 0 {
        loose_pins_of_all(s, n - 1, name);
        let sym = s.symbols@[n - 1];
        let m = sym.kind.pinout().len() as int;
        loose_pins_of_one(s, n - 1, m, name);
        list::how_often_joined(
            tools_schematic::loose_upto(s, n - 1),
            tools_schematic::loose_of(s, sym, m),
            name,
        );
        assert(g(n - 1) == list::how_many(|j: int| is_loose_pin(s, n - 1, j, name), m));
        assert(list::total(g, n) == list::total(g, n - 1) + g(n - 1));
    }
}

/// The list of loose pins names each pin that no net reaches, once, and no
/// other.
pub proof fn loose_pins_are_listed_once(s: Schematic, name: Seq<char>)
    ensures
        list::how_often(tools_schematic::loose_upto(s, s.symbols@.len() as int), name)
            == list::total(
            |i: int|
                list::how_many(
                    |j: int| is_loose_pin(s, i, j, name),
                    s.symbols@[i].kind.pinout().len() as int,
                ),
            s.symbols@.len() as int,
        ),
{
    loose_pins_of_all(s, s.symbols@.len() as int, name);
}

/// The pads of a net that are not connected are named, each once, and no
/// other.
pub proof fn loose_pads_are_listed_once(ps: Seq<PadState>, n: int, name: Seq<char>)
    requires
        0 <= n <= ps.len(),
    ensures
        list::how_often(tools_view::loose_pads(ps, n), name) == list::how_many(
            |i: int| !ps[i].connected && ps[i].address == name,
            n,
        ),
        tools_view::loose_pads(ps, n).len() == list::how_many(|i: int| !ps[i].connected, n),
    decreases n,
{
    let p = |i: int| !ps[i].connected && ps[i].address == name;
    let q = |i: int| !ps[i].connected;
    if n > 0 {
        loose_pads_are_listed_once(ps, n - 1, name);
        let before = tools_view::loose_pads(ps, n - 1);
        assert(before.push(ps[n - 1].address).drop_last() =~= before);
        assert(p(n - 1) == (!ps[n - 1].connected && ps[n - 1].address == name));
        assert(q(n - 1) == !ps[n - 1].connected);
        assert(list::how_many(p, n) == list::how_many(p, n - 1) + if p(n - 1) {
            1nat
        } else {
            0nat
        });
        assert(list::how_many(q, n) == list::how_many(q, n - 1) + if q(n - 1) {
            1nat
        } else {
            0nat
        });
    }
}

/// The nets with pads that are not connected are named, each once, and no
/// other.
pub proof fn open_nets_are_listed_once(v: Seq<NetStatus>, n: int, name: Seq<char>)
    requires
        0 <= n <= v.len(),
    ensures
        list::how_often(tools_view::open_nets(v, n), name) == list::how_many(
            |i: int| v[i].unconnected_pads@.len() > 0 && v[i].net@ == name,
            n,
        ),
    decreases n,
{
    let p = |i: int| v[i].unconnected_pads@.len() > 0 && v[i].net@ == name;
    if n > 0 {
        open_nets_are_listed_once(v, n - 1, name);
        let before = tools_view::open_nets(v, n - 1);
        assert(before.push(v[n - 1].net@).drop_last() =~= before);
        assert(p(n - 1) == (v[n - 1].unconnected_pads@.len() > 0 && v[n - 1].net@ == name));
        assert(list::how_many(p, n) == list::how_many(p, n - 1) + if p(n - 1) {
            1nat
        } else {
            0nat
        });
    }
}

/// The footprint has the value and the library name, and is grouped under
/// that number.
pub open spec fn is_in_group(fp: Footprint, by: GroupBy, k: bom::PartKey) -> bool {
    &&& fp.value@ == k.0
    &&& fp.library@ == k.1
    &&& match by {
        GroupBy::Library => k.2.len() == 0,
        GroupBy::Part(lib) => k.2 == bom::part_ids(*lib, fp.key@).0,
    }
}

proof fn group_is_group(fp: Footprint, by: GroupBy, k: bom::PartKey)
    ensures
        bom::group_of(fp, by) == k <==> is_in_group(fp, by, k),
{
    if is_in_group(fp, by, k) {
        assert(bom::group_of(fp, by).2 =~= k.2);
    }
}

proof fn members_are_counted(
    fps: Seq<Footprint>,
    by: GroupBy,
    k: bom::PartKey,
    n: int,
    name: Seq<char>,
)
    requires
        0 <= n <= fps.len(),
    ensures
        list::how_often(bom::members(fps, by, k, n), name) == list::how_many(
            |i: int| is_in_group(fps[i], by, k) && fps[i].reference@ == name,
            n,
        ),
        bom::members(fps, by, k, n).len() == list::how_many(|i: int| is_in_group(fps[i], by, k), n),
    decreases n,
{
    let p = |i: int| is_in_group(fps[i], by, k) && fps[i].reference@ == name;
    let q = |i: int| is_in_group(fps[i], by, k);
    if n > 0 {
        members_are_counted(fps, by, k, n - 1, name);
        group_is_group(fps[n - 1], by, k);
        let before = bom::members(fps, by, k, n - 1);
        assert(before.push(fps[n - 1].reference@).drop_last() =~= before);
        assert(p(n - 1) == (is_in_group(fps[n - 1], by, k) && fps[n - 1].reference@ == name));
        assert(q(n - 1) == is_in_group(fps[n - 1], by, k));
        assert(list::how_many(p, n) == list::how_many(p, n - 1) + if p(n - 1) {
            1nat
        } else {
            0nat
        });
        assert(list::how_many(q, n) == list::how_many(q, n - 1) + if q(n - 1) {
            1nat
        } else {
            0nat
        });
    }
}

/// A line of the bill of materials lists the references of the parts of its
/// group, each as often as the board has it, and the quantity is the number
/// of these parts.
pub proof fn lines_list_their_parts(
    fps: Seq<Footprint>,
    by: GroupBy,
    k: bom::PartKey,
    name: Seq<char>,
)
    ensures
        list::how_often(bom::refs_of(fps, by, k), name) == list::how_many(
            |i: int| is_in_group(fps[i], by, k) && fps[i].reference@ == name,
            fps.len() as int,
        ),
        bom::refs_of(fps, by, k).len() == list::how_many(
            |i: int| is_in_group(fps[i], by, k),
            fps.len() as int,
        ),
{
    members_are_counted(fps, by, k, fps.len() as int, name);
}

} // verus!
