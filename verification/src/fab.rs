//! Fab houses: their rules, their file formats, and the pack that is sent
//! to them.

use vstd::prelude::*;
use vstd::utf8;

use crate::board::{Board, CopperLayer, Footprint, Trace, Via};
use crate::bom;
use crate::bom::{GroupBy, group_key, group_keys, group_refs, ids_of};
use crate::bundle;
use crate::bundle::{PackFile, add_file, write_layers};
use crate::csv;
use crate::csv::{csv_field, sanitize, sort_strings};
use crate::drc;
use crate::drc::{DrcOptions, one};
use crate::erc;
use crate::erc::ErcOptions;
use crate::gerber;
use crate::gerber::{Side, write_copper};
use crate::library::Library;
use crate::list;
use crate::profiles;
use crate::schematic::Schematic;
use crate::silkscreen;
use crate::spacing;
use crate::spacing::check_spacing;
use crate::text;
use crate::text::{fixed_text, half_difference_text, join, lower_text, str_eq, uint_text};
use crate::units;
use crate::units::Length;
use crate::violation;
use crate::violation::Severity;
use crate::zip_pack;
use crate::zip_pack::{ZipFault, zip_files};

verus! {

/// Fab houses with a format of their own.
#[derive(Debug, Clone, Copy, PartialEq, Eq, Structural)]
pub enum Provider {
    Jlcpcb,
    Pcbway,
    Generic,
}

/// Limits of a fab house.
#[derive(Debug, Clone, Copy, PartialEq, Eq, Structural)]
pub struct FabRules {
    pub min_trace_width: Length,
    pub min_clearance: Length,
    pub min_drill: Length,
    pub min_annular_ring: Length,
    pub max_board_w: Length,
    pub max_board_h: Length,
    pub supported_layers: u8,
}

impl Provider {
    pub open spec fn id(self) -> Seq<char> {
        match self {
            Provider::Jlcpcb => "jlcpcb"@,
            Provider::Pcbway => "pcbway"@,
            Provider::Generic => "generic"@,
        }
    }

    pub fn name(self) -> (r: &'static str)
        ensures
            r@ == self.id(),
    {
        match self {
            Provider::Jlcpcb => "jlcpcb",
            Provider::Pcbway => "pcbway",
            Provider::Generic => "generic",
        }
    }

    /// The provider of a name in small letters.
    pub open spec fn named(n: Seq<char>) -> Option<Provider> {
        if n == "jlcpcb"@ || n == "jlc"@ {
            Some(Provider::Jlcpcb)
        } else if n == "pcbway"@ || n == "pcb_way"@ {
            Some(Provider::Pcbway)
        } else if n == "generic"@ || n == "kicad"@ || n == "default"@ {
            Some(Provider::Generic)
        } else {
            None
        }
    }

    /// The provider of a name, whatever the case of its letters.
    pub fn from_name(s: &str) -> (r: Option<Self>)
        ensures
            r == Provider::named(profiles::small_letters(s@)),
    {
        let n = lower_text(s);
        let n = n.as_str();
        if str_eq(n, "jlcpcb") || str_eq(n, "jlc") {
            Some(Provider::Jlcpcb)
        } else if str_eq(n, "pcbway") || str_eq(n, "pcb_way") {
            Some(Provider::Pcbway)
        } else if str_eq(n, "generic") || str_eq(n, "kicad") || str_eq(n, "default") {
            Some(Provider::Generic)
        } else {
            None
        }
    }

    /// The limits of the provider.
    pub open spec fn limits(self) -> FabRules {
        match self {
            Provider::Jlcpcb => FabRules {
                min_trace_width: Length(127_000),
                min_clearance: Length(127_000),
                min_drill: Length(200_000),
                min_annular_ring: Length(130_000),
                max_board_w: Length(100_000_000),
                max_board_h: Length(100_000_000),
                supported_layers: 2,
            },
            Provider::Pcbway => FabRules {
                min_trace_width: Length(152_000),
                min_clearance: Length(152_000),
                min_drill: Length(300_000),
                min_annular_ring: Length(150_000),
                max_board_w: Length(200_000_000),
                max_board_h: Length(200_000_000),
                supported_layers: 2,
            },
            Provider::Generic => FabRules {
                min_trace_width: Length(100_000),
                min_clearance: Length(100_000),
                min_drill: Length(200_000),
                min_annular_ring: Length(100_000),
                max_board_w: Length(300_000_000),
                max_board_h: Length(300_000_000),
                supported_layers: 2,
            },
        }
    }

    pub fn rules(self) -> (r: FabRules)
        ensures
            r == self.limits(),
    {
        match self {
            Provider::Jlcpcb => FabRules {
                min_trace_width: Length(127_000),
                min_clearance: Length(127_000),
                min_drill: Length(200_000),
                min_annular_ring: Length(130_000),
                max_board_w: Length(100_000_000),
                max_board_h: Length(100_000_000),
                supported_layers: 2,
            },
            Provider::Pcbway => FabRules {
                min_trace_width: Length(152_000),
                min_clearance: Length(152_000),
                min_drill: Length(300_000),
                min_annular_ring: Length(150_000),
                max_board_w: Length(200_000_000),
                max_board_h: Length(200_000_000),
                supported_layers: 2,
            },
            Provider::Generic => FabRules {
                min_trace_width: Length(100_000),
                min_clearance: Length(100_000),
                min_drill: Length(200_000),
                min_annular_ring: Length(100_000),
                max_board_w: Length(300_000_000),
                max_board_h: Length(300_000_000),
                supported_layers: 2,
            },
        }
    }
}

/// Looking a provider up by its own name finds it.
pub proof fn names_read_back(p: Provider)
    ensures
        Provider::named(profiles::small_letters(p.id())) == Some(p),
{
    reveal_strlit("jlcpcb");
    reveal_strlit("jlc");
    reveal_strlit("pcbway");
    reveal_strlit("pcb_way");
    reveal_strlit("generic");
    reveal_strlit("kicad");
    reveal_strlit("default");
    assert(profiles::small_letters(p.id()) =~= p.id());
    assert("jlcpcb"@[0] != "pcbway"@[0] && "jlc"@[0] != "pcbway"@[0]);
    assert("jlcpcb"@[0] != "generic"@[0] && "jlc"@[0] != "generic"@[0]);
    assert("pcbway"@[0] != "generic"@[0] && "pcb_way"@[0] != "generic"@[0]);
}

#[derive(Debug, Clone, Copy, PartialEq, Eq, Structural)]
pub enum FabViolationKind {
    NarrowTraceForFab,
    SmallDrillForFab,
    ThinAnnularRing,
    BoardOversize,
    LayerCountUnsupported,
    TightClearanceForFab,
}

#[derive(Debug)]
pub struct FabViolation {
    pub kind: FabViolationKind,
    pub severity: Severity,
    pub message: String,
    pub involved: Vec<String>,
}

/// A violation by value.
#[verifier::ext_equal]
pub ghost struct Issue {
    pub kind: FabViolationKind,
    pub severity: Severity,
    pub message: Seq<char>,
    pub involved: Seq<Seq<char>>,
}

impl FabViolation {
    pub open spec fn issue(self) -> Issue {
        Issue {
            kind: self.kind,
            severity: self.severity,
            message: self.message@,
            involved: text::views(self.involved@),
        }
    }
}

/// The violations by value.
pub open spec fn issues(v: Seq<FabViolation>) -> Seq<Issue> {
    Seq::new(v.len(), |i: int| v[i].issue())
}

/// The severities of the violations.
pub open spec fn severities(n: Seq<Issue>) -> Seq<Severity> {
    Seq::new(n.len(), |i: int| n[i].severity)
}

/// What an optional violation contributes to a list.
pub open spec fn given(v: Option<FabViolation>) -> Seq<Issue> {
    match v {
        Some(x) => seq![x.issue()],
        None => Seq::empty(),
    }
}

/// `n` where `cond` holds, else nothing.
pub open spec fn only_if(cond: bool, n: Issue) -> Seq<Issue> {
    if cond {
        seq![n]
    } else {
        Seq::empty()
    }
}

#[derive(Debug)]
pub struct FabReport {
    pub provider: String,
    pub violations: Vec<FabViolation>,
    pub error_count: usize,
    pub warning_count: usize,
}

impl FabReport {
    /// The violations by value.
    pub open spec fn found(self) -> Seq<Issue> {
        issues(self.violations@)
    }

    /// The counts are those of the violations.
    pub open spec fn wf(self) -> bool {
        &&& self.error_count == violation::tally(severities(self.found()), Severity::Error)
        &&& self.warning_count == violation::tally(severities(self.found()), Severity::Warning)
    }

    pub fn new(provider: Provider) -> (r: Self)
        ensures
            r.wf(),
            r.provider@ == provider.id(),
            r.found() == Seq::<Issue>::empty(),
    {
        let r = FabReport {
            provider: provider.name().to_owned(),
            violations: Vec::new(),
            error_count: 0,
            warning_count: 0,
        };
        assert(r.found() =~= Seq::<Issue>::empty());
        r
    }

    pub fn push(&mut self, v: FabViolation)
        requires
            old(self).wf(),
        ensures
            final(self).wf(),
            final(self).provider == old(self).provider,
            final(self).found() == old(self).found().push(v.issue()),
    {
        let severity = v.severity;
        let ghost f = self.found();
        let ghost more = v.issue();
        proof {
            violation::tallies_add_up(severities(f));
        }
        self.violations.push(v);
        let total: usize = self.violations.len();
        proof {
            assert(self.found() =~= f.push(more));
            assert(severities(f.push(more)).drop_last() =~= severities(f));
            assert(total == f.len() + 1);
        }
        match severity {
            Severity::Error => {
                self.error_count += 1;
            },
            Severity::Warning => {
                self.warning_count += 1;
            },
        }
    }

    /// Pushes the violation if there is one.
    pub fn take(&mut self, v: Option<FabViolation>)
        requires
            old(self).wf(),
        ensures
            final(self).wf(),
            final(self).provider == old(self).provider,
            final(self).found() == old(self).found() + given(v),
    {
        let ghost f = self.found();
        let ghost more = given(v);
        match v {
            Some(x) => {
                let ghost n = x.issue();
                self.push(x);
                assert(f + more =~= f.push(n));
            },
            None => {
                assert(f + more =~= f);
            },
        }
    }
}

/// The end of a message about something below a limit.
pub open spec fn required(p: Provider, min: Length) -> Seq<char> {
    "; "@ + p.id() + " requires ≥ "@ + drc::mm(min.0 as int) + " mm"@
}

pub fn required_text(p: Provider, min: Length) -> (r: String)
    ensures
        r@ == required(p, min),
{
    "; ".to_owned().concat(p.name()).concat(" requires ≥ ").concat(
        fixed_text(min.0, 3).as_str(),
    ).concat(" mm")
}

/// The issue about a narrow trace.
pub open spec fn narrow(t: Trace, p: Provider) -> Seq<Issue> {
    only_if(
        t.width.0 + 1 < p.limits().min_trace_width.0,
        Issue {
            kind: FabViolationKind::NarrowTraceForFab,
            severity: Severity::Error,
            message: "trace on net "@ + t.net@ + " is "@ + drc::mm(t.width.0 as int) + " mm wide"@
                + required(p, p.limits().min_trace_width),
            involved: seq![t.net@],
        },
    )
}

/// The issue about a small hole.
pub open spec fn small(v: Via, p: Provider) -> Seq<Issue> {
    only_if(
        v.drill.0 + 1 < p.limits().min_drill.0,
        Issue {
            kind: FabViolationKind::SmallDrillForFab,
            severity: Severity::Error,
            message: "via on net "@ + v.net@ + " drilled at "@ + drc::mm(v.drill.0 as int) + " mm"@
                + required(p, p.limits().min_drill),
            involved: seq![v.net@],
        },
    )
}

/// The issue about a thin ring.
pub open spec fn thin(v: Via, p: Provider) -> Seq<Issue> {
    only_if(
        v.diameter.0 - v.drill.0 + 2 < 2 * p.limits().min_annular_ring.0,
        Issue {
            kind: FabViolationKind::ThinAnnularRing,
            severity: Severity::Error,
            message: "via on net "@ + v.net@ + " has "@ + text::half_difference(
                v.diameter.0 as int,
                v.drill.0 as int,
                3,
            ) + " mm annular ring (drill "@ + drc::mm(v.drill.0 as int) + " / diameter "@ + drc::mm(
                v.diameter.0 as int,
            ) + ")"@ + required(p, p.limits().min_annular_ring),
            involved: seq![v.net@],
        },
    )
}

/// The issue about a large board.
pub open spec fn oversize(b: Board, p: Provider) -> Seq<Issue> {
    match b.outline {
        None => Seq::empty(),
        Some(o) => {
            let w = o.max.x.0 - o.min.x.0;
            let h = o.max.y.0 - o.min.y.0;
            let l = p.limits();
            only_if(
                w > l.max_board_w.0 + 1 || h > l.max_board_h.0 + 1,
                Issue {
                    kind: FabViolationKind::BoardOversize,
                    severity: Severity::Warning,
                    message: "board is "@ + text::fixed(w, 1) + " × "@ + text::fixed(h, 1)
                        + " mm; "@ + p.id() + " standard tier caps at "@ + text::fixed(
                        l.max_board_w.0 as int,
                        0,
                    ) + " × "@ + text::fixed(l.max_board_h.0 as int, 0)
                        + " mm — order will be priced as oversized"@,
                    involved: Seq::empty(),
                },
            )
        },
    }
}

/// The issue about too many copper layers.
pub open spec fn crowded(b: Board, p: Provider) -> Seq<Issue> {
    only_if(
        b.stackup.layers@.len() > p.limits().supported_layers,
        Issue {
            kind: FabViolationKind::LayerCountUnsupported,
            severity: Severity::Error,
            message: "board has "@ + text::dec(b.stackup.layers@.len()) + " copper layers; "@
                + p.id() + " supports "@ + text::dec(p.limits().supported_layers as nat),
            involved: Seq::empty(),
        },
    )
}

pub open spec fn narrow_ones(t: Seq<Trace>, p: Provider) -> spec_fn(int) -> Seq<Issue> {
    |i: int| narrow(t[i], p)
}

/// The issues about a via: hole, ring.
pub open spec fn via_ones(v: Seq<Via>, p: Provider) -> spec_fn(int) -> Seq<Issue> {
    |i: int| small(v[i], p) + thin(v[i], p)
}

/// All issues with the limits of a provider: traces, vias, board size, layer
/// count, clearances.
pub open spec fn issues_of(b: Board, p: Provider) -> Seq<Issue> {
    list::upto(narrow_ones(b.traces@, p), b.traces@.len() as int) + list::upto(
        via_ones(b.vias@, p),
        b.vias@.len() as int,
    ) + oversize(b, p) + crowded(b, p) + spacing::spacing(b, p)
}

fn raise(kind: FabViolationKind, severity: Severity, message: String, involved: Vec<String>) -> (r:
    Option<FabViolation>)
    ensures
        given(r) == seq![
            Issue { kind, severity, message: message@, involved: text::views(involved@) },
        ],
{
    Some(FabViolation { kind, severity, message, involved })
}

fn narrow_at(t: &Trace, p: Provider) -> (r: Option<FabViolation>)
    requires
        t.in_range(),
    ensures
        given(r) == narrow(*t, p),
{
    let min = p.rules().min_trace_width;
    if t.width.0 + 1 >= min.0 {
        return None;
    }
    raise(
        FabViolationKind::NarrowTraceForFab,
        Severity::Error,
        "trace on net ".to_owned().concat(t.net.as_str()).concat(" is ").concat(
            fixed_text(t.width.0, 3).as_str(),
        ).concat(" mm wide").concat(required_text(p, min).as_str()),
        one(t.net.as_str()),
    )
}

fn small_at(v: &Via, p: Provider) -> (r: Option<FabViolation>)
    requires
        v.in_range(),
    ensures
        given(r) == small(*v, p),
{
    let min = p.rules().min_drill;
    if v.drill.0 + 1 >= min.0 {
        return None;
    }
    raise(
        FabViolationKind::SmallDrillForFab,
        Severity::Error,
        "via on net ".to_owned().concat(v.net.as_str()).concat(" drilled at ").concat(
            fixed_text(v.drill.0, 3).as_str(),
        ).concat(" mm").concat(required_text(p, min).as_str()),
        one(v.net.as_str()),
    )
}

fn thin_at(v: &Via, p: Provider) -> (r: Option<FabViolation>)
    requires
        v.in_range(),
    ensures
        given(r) == thin(*v, p),
{
    let min = p.rules().min_annular_ring;
    let copper: i64 = v.diameter.0 - v.drill.0;
    if copper + 2 >= 2 * min.0 {
        return None;
    }
    raise(
        FabViolationKind::ThinAnnularRing,
        Severity::Error,
        "via on net ".to_owned().concat(v.net.as_str()).concat(" has ").concat(
            half_difference_text(v.diameter.0, v.drill.0, 3).as_str(),
        ).concat(" mm annular ring (drill ").concat(fixed_text(v.drill.0, 3).as_str()).concat(
            " / diameter ",
        ).concat(fixed_text(v.diameter.0, 3).as_str()).concat(")").concat(
            required_text(p, min).as_str(),
        ),
        one(v.net.as_str()),
    )
}

fn oversize_at(b: &Board, p: Provider) -> (r: Option<FabViolation>)
    requires
        b.in_range(),
    ensures
        given(r) == oversize(*b, p),
{
    let o = match b.outline {
        None => {
            return None;
        },
        Some(o) => o,
    };
    let w: i64 = o.max.x.0 - o.min.x.0;
    let h: i64 = o.max.y.0 - o.min.y.0;
    let l = p.rules();
    if w <= l.max_board_w.0 + 1 && h <= l.max_board_h.0 + 1 {
        return None;
    }
    let involved: Vec<String> = Vec::new();
    assert(text::views(involved@) =~= Seq::empty());
    raise(
        FabViolationKind::BoardOversize,
        Severity::Warning,
        "board is ".to_owned().concat(fixed_text(w, 1).as_str()).concat(" × ").concat(
            fixed_text(h, 1).as_str(),
        ).concat(" mm; ").concat(p.name()).concat(" standard tier caps at ").concat(
            fixed_text(l.max_board_w.0, 0).as_str(),
        ).concat(" × ").concat(fixed_text(l.max_board_h.0, 0).as_str()).concat(
            " mm — order will be priced as oversized",
        ),
        involved,
    )
}

fn crowded_at(b: &Board, p: Provider) -> (r: Option<FabViolation>)
    ensures
        given(r) == crowded(*b, p),
{
    let n: usize = b.stackup.layer_count();
    let most: u8 = p.rules().supported_layers;
    if n <= most as usize {
        return None;
    }
    let involved: Vec<String> = Vec::new();
    assert(text::views(involved@) =~= Seq::empty());
    raise(
        FabViolationKind::LayerCountUnsupported,
        Severity::Error,
        "board has ".to_owned().concat(uint_text(n as u128).as_str()).concat(
            " copper layers; ",
        ).concat(p.name()).concat(" supports ").concat(uint_text(most as u128).as_str()),
        involved,
    )
}

/// Holds a board against the limits of a provider.
pub fn manufacturing_drc(b: &Board, provider: Provider) -> (r: FabReport)
    requires
        b.in_range(),
    ensures
        r.provider@ == provider.id(),
        r.found() == issues_of(*b, provider),
        r.wf(),
{
    let mut report = FabReport::new(provider);
    let ghost base = report.found();
    let ghost f = narrow_ones(b.traces@, provider);
    proof {
        list::upto_next(base, f, 0);
    }
    let mut i: usize = 0;
    while i < b.traces.len()
        invariant
            i <= b.traces@.len(),
            b.in_range(),
            f == narrow_ones(b.traces@, provider),
            report.wf(),
            report.provider@ == provider.id(),
            report.found() == base + list::upto(f, i as int),
        decreases b.traces@.len() - i,
    {
        let v = narrow_at(&b.traces[i], provider);
        report.take(v);
        proof {
            list::upto_next(base, f, i as int);
        }
        i += 1;
    }
    let ghost head = report.found();
    let ghost g = via_ones(b.vias@, provider);
    proof {
        list::upto_next(head, g, 0);
    }
    let mut i: usize = 0;
    while i < b.vias.len()
        invariant
            i <= b.vias@.len(),
            b.in_range(),
            g == via_ones(b.vias@, provider),
            report.wf(),
            report.provider@ == provider.id(),
            report.found() == head + list::upto(g, i as int),
        decreases b.vias@.len() - i,
    {
        let v = &b.vias[i];
        let ghost before = report.found();
        report.take(small_at(v, provider));
        report.take(thin_at(v, provider));
        assert(report.found() =~= before + g(i as int));
        proof {
            list::upto_next(head, g, i as int);
        }
        i += 1;
    }
    report.take(oversize_at(b, provider));
    report.take(crowded_at(b, provider));
    check_spacing(b, provider, &mut report);
    assert(report.found() =~= issues_of(*b, provider));
    report
}

/// A board that passes the limits of one provider passes those of another
/// that asks for no more.
pub proof fn looser_limits_pass(b: Board, strict: Provider, loose: Provider)
    requires
        issues_of(b, strict).len() == 0,
        loose.limits().min_trace_width.0 <= strict.limits().min_trace_width.0,
        loose.limits().min_drill.0 <= strict.limits().min_drill.0,
        loose.limits().min_annular_ring.0 <= strict.limits().min_annular_ring.0,
        loose.limits().max_board_w.0 >= strict.limits().max_board_w.0,
        loose.limits().max_board_h.0 >= strict.limits().max_board_h.0,
        loose.limits().supported_layers >= strict.limits().supported_layers,
        loose.limits().min_clearance.0 <= strict.limits().min_clearance.0,
    ensures
        issues_of(b, loose).len() == 0,
{
    spacing::wider_spacing_is_enough(b, strict, loose);
    no_issue(narrow_ones(b.traces@, strict), b.traces@.len() as int);
    no_issue(via_ones(b.vias@, strict), b.vias@.len() as int);
    let t = narrow_ones(b.traces@, loose);
    let v = via_ones(b.vias@, loose);
    assert forall|i: int| 0 <= i < b.traces@.len() implies (#[trigger] t(i)).len() == 0 by {
        assert(narrow_ones(b.traces@, strict)(i).len() == 0);
    }
    assert forall|i: int| 0 <= i < b.vias@.len() implies (#[trigger] v(i)).len() == 0 by {
        assert(via_ones(b.vias@, strict)(i).len() == 0);
    }
    still_no_issue(t, b.traces@.len() as int);
    still_no_issue(v, b.vias@.len() as int);
}

pub proof fn no_issue(f: spec_fn(int) -> Seq<Issue>, n: int)
    requires
        list::upto(f, n).len() == 0,
    ensures
        forall|i: int| 0 <= i < n ==> (#[trigger] f(i)).len() == 0,
    decreases n,
{
    if n > 0 {
        no_issue(f, n - 1);
    }
}

pub proof fn still_no_issue(f: spec_fn(int) -> Seq<Issue>, n: int)
    requires
        forall|i: int| 0 <= i < n ==> (#[trigger] f(i)).len() == 0,
    ensures
        list::upto(f, n).len() == 0,
    decreases n,
{
    if n > 0 {
        still_no_issue(f, n - 1);
        assert(f(n - 1).len() == 0);
    }
}

/// The line of a group in the bill of materials of a provider. The part
/// number is that of the group's first footprint.
pub open spec fn bom_row(fps: Seq<Footprint>, lib: Library, p: Provider, k: bom::PartKey) -> Seq<char> {
    let refs = bom::refs_of(fps, GroupBy::Part(&lib), k);
    let footprint = k.1;
    let lcsc = k.2;
    let mpn = bom::part_ids(lib, bom::first_key(fps, GroupBy::Part(&lib), k, 0)).1;
    if p == Provider::Jlcpcb {
        let comment = if mpn.len() == 0 {
            k.0
        } else {
            k.0 + " ("@ + mpn + ")"@
        };
        csv::field(comment) + ","@ + csv::field(text::joined(csv::sorted(refs), ","@)) + ","@
            + csv::field(footprint) + ","@ + csv::field(lcsc) + "\n"@
    } else {
        csv::field(text::joined(csv::sorted(refs), " "@)) + ","@ + csv::field(k.0) + ","@
            + csv::field(footprint) + ","@ + text::dec(refs.len()) + ","@ + csv::field(lcsc) + ","@
            + csv::field(mpn) + "\n"@
    }
}

/// The lines of the first `n` groups.
pub open spec fn bom_rows(
    fps: Seq<Footprint>,
    lib: Library,
    p: Provider,
    ks: Seq<bom::PartKey>,
    n: int,
) -> Seq<char>
    decreases n,
{
    if n <= 0 {
        Seq::empty()
    } else {
        bom_rows(fps, lib, p, ks, n - 1) + bom_row(fps, lib, p, ks[n - 1])
    }
}

/// The bill of materials in the format of a provider.
pub open spec fn bom_text(b: Board, lib: Library, p: Provider) -> Seq<char> {
    let ks = bom::keys(b.footprints@, GroupBy::Part(&lib));
    (if p == Provider::Jlcpcb {
        "Comment,Designator,Footprint,LCSC Part #\n"@
    } else {
        "Reference,Value,Footprint,Quantity,LCSC,MPN\n"@
    }) + bom_rows(b.footprints@, lib, p, ks, ks.len() as int)
}

fn bom_row_text(
    fps: &Vec<Footprint>,
    lib: &Library,
    p: Provider,
    value: &str,
    footprint: &str,
    lcsc: &str,
) -> (r: String)
    ensures
        r@ == bom_row(fps@, *lib, p, (value@, footprint@, lcsc@)),
{
    let refs = group_refs(fps, GroupBy::Part(lib), value, footprint, lcsc);
    let sorted = sort_strings(&refs);
    let key = group_key(fps, GroupBy::Part(lib), value, footprint, lcsc);
    let (_, mpn) = ids_of(lib, key.as_str());
    assert(text::views(refs@).len() == refs@.len());
    match p {
        Provider::Jlcpcb => {
            let comment = if mpn.unicode_len() == 0 {
                value.to_owned()
            } else {
                value.to_owned().concat(" (").concat(mpn).concat(")")
            };
            csv_field(comment.as_str()).concat(",").concat(
                csv_field(join(&sorted, ",").as_str()).as_str(),
            ).concat(",").concat(csv_field(footprint).as_str()).concat(",").concat(
                csv_field(lcsc).as_str(),
            ).concat("\n")
        },
        _ => {
            csv_field(join(&sorted, " ").as_str()).concat(",").concat(
                csv_field(value).as_str(),
            ).concat(",").concat(csv_field(footprint).as_str()).concat(",").concat(
                uint_text(refs.len() as u128).as_str(),
            ).concat(",").concat(csv_field(lcsc).as_str()).concat(",").concat(
                csv_field(mpn).as_str(),
            ).concat("\n")
        },
    }
}

/// Writes the bill of materials in the format of a provider.
pub fn write_bom(b: &Board, lib: &Library, provider: Provider) -> (r: String)
    ensures
        r@ == bom_text(*b, *lib, provider),
{
    let fps = &b.footprints;
    let ks = group_keys(fps, GroupBy::Part(lib));
    let ghost kv = bom::key_views(ks@);
    let mut body = String::new();
    let mut i: usize = 0;
    while i < ks.len()
        invariant
            i <= ks@.len(),
            fps@ == b.footprints@,
            kv == bom::key_views(ks@),
            body@ == bom_rows(fps@, *lib, provider, kv, i as int),
        decreases ks@.len() - i,
    {
        let (value, footprint, lcsc) = &ks[i];
        let line = bom_row_text(
            fps,
            lib,
            provider,
            value.as_str(),
            footprint.as_str(),
            lcsc.as_str(),
        );
        body.append(line.as_str());
        i += 1;
    }
    let head = match provider {
        Provider::Jlcpcb => "Comment,Designator,Footprint,LCSC Part #\n",
        _ => "Reference,Value,Footprint,Quantity,LCSC,MPN\n",
    };
    head.to_owned().concat(body.as_str())
}

/// The line of a footprint in the placement list of a provider.
pub open spec fn cpl_row(fp: Footprint, p: Provider) -> Seq<char> {
    let x = text::fixed(fp.position.x.0 as int, 4);
    let y = text::fixed(fp.position.y.0 as int, 4);
    let rot = text::fixed(fp.rotation.udeg as int, 2);
    let top = fp.layer == CopperLayer::Top;
    if p == Provider::Jlcpcb {
        csv::field(fp.reference@) + ","@ + x + "mm,"@ + y + "mm,"@ + (if top {
            "T"@
        } else {
            "B"@
        }) + ","@ + rot + "\n"@
    } else {
        csv::field(fp.reference@) + ","@ + csv::field(fp.value@) + ","@ + csv::field(fp.library@)
            + ","@ + x + ","@ + y + ","@ + rot + ","@ + (if top {
            "top"@
        } else {
            "bottom"@
        }) + "\n"@
    }
}

/// The lines of the first `n` footprints.
pub open spec fn cpl_rows(fps: Seq<Footprint>, p: Provider, n: int) -> Seq<char>
    decreases n,
{
    if n <= 0 {
        Seq::empty()
    } else {
        cpl_rows(fps, p, n - 1) + cpl_row(fps[n - 1], p)
    }
}

/// The placement list in the format of a provider.
pub open spec fn cpl_text(b: Board, p: Provider) -> Seq<char> {
    (if p == Provider::Jlcpcb {
        "Designator,Mid X,Mid Y,Layer,Rotation\n"@
    } else {
        "Reference,Value,Footprint,X,Y,Rotation,Side\n"@
    }) + cpl_rows(b.footprints@, p, b.footprints@.len() as int)
}

fn cpl_row_text(fp: &Footprint, p: Provider) -> (r: String)
    ensures
        r@ == cpl_row(*fp, p),
{
    let x = fixed_text(fp.position.x.0, 4);
    let y = fixed_text(fp.position.y.0, 4);
    let rot = fixed_text(fp.rotation.udeg, 2);
    let top = fp.layer.is_top();
    match p {
        Provider::Jlcpcb => {
            let side = if top {
                "T"
            } else {
                "B"
            };
            csv_field(fp.reference.as_str()).concat(",").concat(x.as_str()).concat("mm,").concat(
                y.as_str(),
            ).concat("mm,").concat(side).concat(",").concat(rot.as_str()).concat("\n")
        },
        _ => {
            let side = if top {
                "top"
            } else {
                "bottom"
            };
            csv_field(fp.reference.as_str()).concat(",").concat(
                csv_field(fp.value.as_str()).as_str(),
            ).concat(",").concat(csv_field(fp.library.as_str()).as_str()).concat(",").concat(
                x.as_str(),
            ).concat(",").concat(y.as_str()).concat(",").concat(rot.as_str()).concat(",").concat(
                side,
            ).concat("\n")
        },
    }
}

/// Writes the placement list in the format of a provider.
pub fn write_cpl(b: &Board, provider: Provider) -> (r: String)
    ensures
        r@ == cpl_text(*b, provider),
{
    let mut body = String::new();
    let mut i: usize = 0;
    while i < b.footprints.len()
        invariant
            i <= b.footprints@.len(),
            body@ == cpl_rows(b.footprints@, provider, i as int),
        decreases b.footprints@.len() - i,
    {
        let line = cpl_row_text(&b.footprints[i], provider);
        body.append(line.as_str());
        i += 1;
    }
    let head = match provider {
        Provider::Jlcpcb => "Designator,Mid X,Mid Y,Layer,Rotation\n",
        _ => "Reference,Value,Footprint,X,Y,Rotation,Side\n",
    };
    head.to_owned().concat(body.as_str())
}

/// One line about the provider.
pub open spec fn description(p: Provider) -> Seq<char> {
    match p {
        Provider::Jlcpcb => "JLCPCB.com — std 2-layer 5/5 mil"@,
        Provider::Pcbway => "PCBWay.com — std 2-layer 6/6 mil"@,
        Provider::Generic => "fab-agnostic, KiCad default outputs"@,
    }
}

fn describe_provider(p: Provider) -> (r: &'static str)
    ensures
        r@ == description(p),
{
    match p {
        Provider::Jlcpcb => "JLCPCB.com — std 2-layer 5/5 mil",
        Provider::Pcbway => "PCBWay.com — std 2-layer 6/6 mil",
        Provider::Generic => "fab-agnostic, KiCad default outputs",
    }
}

/// The number of errors and of warnings of a check.
#[derive(Debug, Clone, Copy)]
pub struct Counts {
    pub errors: usize,
    pub warnings: usize,
}

/// What stands in the way of production, one line per check with errors.
pub open spec fn reasons(p: Provider, drc: int, erc: int, fab: int) -> Seq<Seq<char>> {
    (if drc > 0 {
        seq!["DRC: "@ + text::dec(drc as nat) + " error(s)"@]
    } else {
        Seq::empty()
    }) + (if erc > 0 {
        seq!["ERC: "@ + text::dec(erc as nat) + " error(s)"@]
    } else {
        Seq::empty()
    }) + (if fab > 0 {
        seq![p.id() + ": "@ + text::dec(fab as nat) + " manufacturing error(s)"@]
    } else {
        Seq::empty()
    })
}

/// What stands in the way of production.
pub fn blocking_reasons(p: Provider, drc: usize, erc: usize, fab: usize) -> (r: Vec<String>)
    ensures
        text::views(r@) == reasons(p, drc as int, erc as int, fab as int),
{
    let mut out: Vec<String> = Vec::new();
    if drc > 0 {
        out.push("DRC: ".to_owned().concat(uint_text(drc as u128).as_str()).concat(" error(s)"));
    }
    if erc > 0 {
        out.push("ERC: ".to_owned().concat(uint_text(erc as u128).as_str()).concat(" error(s)"));
    }
    if fab > 0 {
        out.push(
            p.name().to_owned().concat(": ").concat(uint_text(fab as u128).as_str()).concat(
                " manufacturing error(s)",
            ),
        );
    }
    assert(text::views(out@) =~= reasons(p, drc as int, erc as int, fab as int));
    out
}

/// Nothing stands in the way exactly if no check has an error.
pub proof fn ready_means_no_errors(p: Provider, drc: int, erc: int, fab: int)
    requires
        drc >= 0,
        erc >= 0,
        fab >= 0,
    ensures
        reasons(p, drc, erc, fab).len() == 0 <==> drc == 0 && erc == 0 && fab == 0,
{
}

/// The line about the size of the board.
pub open spec fn size_line(b: Board) -> Seq<char> {
    match b.outline {
        None => Seq::empty(),
        Some(o) => "Board: "@ + text::fixed(o.max.x.0 - o.min.x.0, 1) + " × "@ + text::fixed(
            o.max.y.0 - o.min.y.0,
            1,
        ) + " mm"@ + (if b.outline_corner_radius.0 > 0 {
            ", corner radius "@ + text::fixed(b.outline_corner_radius.0 as int, 2) + " mm"@
        } else {
            Seq::empty()
        }) + "\n"@,
    }
}

fn size_line_text(b: &Board) -> (r: String)
    requires
        b.in_range(),
    ensures
        r@ == size_line(*b),
{
    match b.outline {
        None => {
            let r = String::new();
            assert(r@ =~= size_line(*b));
            r
        },
        Some(o) => {
            let radius = if b.outline_corner_radius.0 > 0 {
                ", corner radius ".to_owned().concat(
                    fixed_text(b.outline_corner_radius.0, 2).as_str(),
                ).concat(" mm")
            } else {
                String::new()
            };
            assert(radius@ =~= if b.outline_corner_radius.0 > 0 {
                ", corner radius "@ + text::fixed(b.outline_corner_radius.0 as int, 2) + " mm"@
            } else {
                Seq::empty()
            });
            "Board: ".to_owned().concat(fixed_text(o.max.x.0 - o.min.x.0, 1).as_str()).concat(
                " × ",
            ).concat(fixed_text(o.max.y.0 - o.min.y.0, 1).as_str()).concat(" mm").concat(
                radius.as_str(),
            ).concat("\n")
        },
    }
}

/// A line about the outcome of a check.
pub open spec fn count_line(name: Seq<char>, c: Counts) -> Seq<char> {
    name + " : "@ + text::dec(c.errors as nat) + " error(s), "@ + text::dec(c.warnings as nat)
        + " warning(s)"@
}

fn count_line_text(name: &str, c: Counts) -> (r: String)
    ensures
        r@ == count_line(name@, c),
{
    name.to_owned().concat(" : ").concat(uint_text(c.errors as u128).as_str()).concat(
        " error(s), ",
    ).concat(uint_text(c.warnings as u128).as_str()).concat(" warning(s)")
}

/// The line that says whether the pack is ready.
pub open spec fn verdict(reasons: Seq<Seq<char>>) -> Seq<char> {
    if reasons.len() == 0 {
        "→ READY: no blocking errors. Upload the zip to the fab portal.\n"@
    } else {
        "→ NOT READY: "@ + text::joined(reasons, "; "@)
            + "\n  Fix the errors first, then re-run `pack`.\n"@
    }
}

/// How to order from the provider.
pub open spec fn ordering(p: Provider) -> Seq<char> {
    match p {
        Provider::Jlcpcb => "1. Go to https://cart.jlcpcb.com/quote and upload this zip.\n2. JLCPCB auto-detects the layers from the Gerber filenames.\n3. To enable SMT assembly, tick \"PCB Assembly\" and upload\n   *-bom.csv as the BOM and *-cpl.csv as the CPL.\n"@,
        Provider::Pcbway => "1. Go to https://www.pcbway.com/orderonline.aspx and upload this zip.\n2. PCBWay accepts the KiCad-default Gerber filenames.\n3. For assembly, attach *-bom.csv and *-cpl.csv at the SMT step.\n"@,
        Provider::Generic => "Generic / KiCad-style outputs. Upload the zip to your fab of\nchoice; almost all houses accept this layout. Adjust column\nnames in *-bom.csv if your assembler requires a specific format.\n"@,
    }
}

fn ordering_text(p: Provider) -> (r: &'static str)
    ensures
        r@ == ordering(p),
{
    match p {
        Provider::Jlcpcb => "1. Go to https://cart.jlcpcb.com/quote and upload this zip.\n2. JLCPCB auto-detects the layers from the Gerber filenames.\n3. To enable SMT assembly, tick \"PCB Assembly\" and upload\n   *-bom.csv as the BOM and *-cpl.csv as the CPL.\n",
        Provider::Pcbway => "1. Go to https://www.pcbway.com/orderonline.aspx and upload this zip.\n2. PCBWay accepts the KiCad-default Gerber filenames.\n3. For assembly, attach *-bom.csv and *-cpl.csv at the SMT step.\n",
        Provider::Generic => "Generic / KiCad-style outputs. Upload the zip to your fab of\nchoice; almost all houses accept this layout. Adjust column\nnames in *-bom.csv if your assembler requires a specific format.\n",
    }
}

/// The text that explains the pack.
pub open spec fn readme(
    project: Seq<char>,
    p: Provider,
    b: Board,
    drc: Counts,
    erc: Counts,
    fab: Counts,
    blocking: Seq<Seq<char>>,
) -> Seq<char> {
    "Project: "@ + project + "\nTarget fab: "@ + p.id() + " ("@ + description(p) + ")\n"@ + size_line(
        b,
    ) + "\n── Validation ──────────────────────────────────────\n"@ + count_line(
        "DRC"@,
        drc,
    ) + "\n"@ + count_line("ERC"@, erc) + "\n"@ + count_line("Fab"@, fab) + " — checked against "@
        + p.id() + " rules\n"@ + verdict(blocking)
        + "\n── Files ───────────────────────────────────────────\n  *.gbr  Gerber files (copper, soldermask, silk, edge cuts)\n  *-PTH.drl, *-NPTH.drl  Excellon drill files\n  *-bom.csv  Bill of materials in "@
        + p.id()
        + " format\n  *-cpl.csv  Component placement / pick-and-place list\n\n── How to order ────────────────────────────────────\n"@
        + ordering(p)
}

fn build_readme(
    project: &str,
    p: Provider,
    b: &Board,
    drc: Counts,
    erc: Counts,
    fab: Counts,
    blocking: &Vec<String>,
) -> (r: String)
    requires
        b.in_range(),
    ensures
        r@ == readme(project@, p, *b, drc, erc, fab, text::views(blocking@)),
{
    assert(text::views(blocking@).len() == blocking@.len());
    let verdict = if blocking.len() == 0 {
        "→ READY: no blocking errors. Upload the zip to the fab portal.\n".to_owned()
    } else {
        "→ NOT READY: ".to_owned().concat(join(blocking, "; ").as_str()).concat(
            "\n  Fix the errors first, then re-run `pack`.\n",
        )
    };
    "Project: ".to_owned().concat(project).concat("\nTarget fab: ").concat(p.name()).concat(
        " (",
    ).concat(describe_provider(p)).concat(")\n").concat(size_line_text(b).as_str()).concat(
        "\n── Validation ──────────────────────────────────────\n",
    ).concat(count_line_text("DRC", drc).as_str()).concat("\n").concat(
        count_line_text("ERC", erc).as_str(),
    ).concat("\n").concat(count_line_text("Fab", fab).as_str()).concat(
        " — checked against ",
    ).concat(p.name()).concat(" rules\n").concat(verdict.as_str()).concat(
        "\n── Files ───────────────────────────────────────────\n  *.gbr  Gerber files (copper, soldermask, silk, edge cuts)\n  *-PTH.drl, *-NPTH.drl  Excellon drill files\n  *-bom.csv  Bill of materials in ",
    ).concat(p.name()).concat(
        " format\n  *-cpl.csv  Component placement / pick-and-place list\n\n── How to order ────────────────────────────────────\n",
    ).concat(ordering_text(p))
}

/// What packing a project for a provider gives, but for the archive.
#[derive(Debug)]
pub struct PackReport {
    pub provider: String,
    /// Name of the archive.
    pub zip_name: String,
    pub files: Vec<PackFile>,
    pub manufacturing_report: FabReport,
    /// Width and height, where the board has an outline.
    pub board_size: Option<(Length, Length)>,
    /// Whether something stands in the way of production.
    pub blocking: bool,
    pub blocking_reasons: Vec<String>,
}

/// The outcome of the three checks of a pack.
pub ghost struct Checks {
    pub drc: Seq<violation::Finding>,
    pub erc: Seq<erc::Note>,
    pub fab: Seq<Issue>,
}

/// The checks that a pack is put through.
#[verifier::opaque]
pub open spec fn checks(b: Board, s: Schematic, p: Provider, opts: DrcOptions, e: ErcOptions) -> Checks {
    Checks {
        drc: drc::findings_of(b, opts),
        erc: erc::notes_of(b, s, e),
        fab: issues_of(b, p),
    }
}

impl Checks {
    pub open spec fn drc_counts(self) -> (int, int) {
        (
            violation::count(self.drc, Severity::Error) as int,
            violation::count(self.drc, Severity::Warning) as int,
        )
    }

    pub open spec fn erc_counts(self) -> (int, int) {
        let s = erc::severities(self.erc);
        (
            violation::tally(s, Severity::Error) as int,
            violation::tally(s, Severity::Warning) as int,
        )
    }

    pub open spec fn fab_counts(self) -> (int, int) {
        let s = severities(self.fab);
        (
            violation::tally(s, Severity::Error) as int,
            violation::tally(s, Severity::Warning) as int,
        )
    }

    /// What stands in the way of production.
    pub open spec fn blocking(self, p: Provider) -> Seq<Seq<char>> {
        reasons(p, self.drc_counts().0, self.erc_counts().0, self.fab_counts().0)
    }
}

/// The counts as a pair.
pub open spec fn counted(c: (int, int)) -> Counts {
    Counts { errors: c.0 as usize, warnings: c.1 as usize }
}

/// The files that the provider works from: copper, other layers, lists.
#[verifier::opaque]
pub open spec fn production_files(b: Board, lib: Library, p: Provider, stem: Seq<char>) -> Seq<
    (Seq<char>, Seq<char>),
> {
    seq![
        (stem + "-F_Cu.gbr"@, gerber::copper_text(b, Side::Top)),
        (stem + "-B_Cu.gbr"@, gerber::copper_text(b, Side::Bottom)),
    ] + bundle::layer_files(b, stem) + seq![
        (stem + "-bom.csv"@, bom_text(b, lib, p)),
        (stem + "-cpl.csv"@, cpl_text(b, p)),
    ]
}

/// The text that explains a pack with these checks.
#[verifier::opaque]
pub open spec fn pack_readme(b: Board, p: Provider, name: Seq<char>, c: Checks) -> Seq<char> {
    readme(
        name,
        p,
        b,
        counted(c.drc_counts()),
        counted(c.erc_counts()),
        counted(c.fab_counts()),
        c.blocking(p),
    )
}

/// The files of a pack, the explanation last.
pub open spec fn pack_files(
    b: Board,
    lib: Library,
    p: Provider,
    name: Seq<char>,
    c: Checks,
) -> Seq<(Seq<char>, Seq<char>)> {
    production_files(b, lib, p, csv::sanitized(name, "untitled"@)).push(
        ("README.txt"@, pack_readme(b, p, name, c)),
    )
}

/// The size of the board, where it has an outline.
pub open spec fn size_of(b: Board) -> Option<(int, int)> {
    match b.outline {
        None => None,
        Some(o) => Some((o.max.x.0 - o.min.x.0, o.max.y.0 - o.min.y.0)),
    }
}


impl PackReport {
    /// The report is that of a project with these checks.
    pub open spec fn reports(self, b: Board, lib: Library, p: Provider, name: Seq<char>, c: Checks) -> bool {
        &&& self.provider@ == p.id()
        &&& self.zip_name@ == csv::sanitized(name, "untitled"@) + "-"@ + p.id() + ".zip"@
        &&& bundle::file_views(self.files@) == pack_files(b, lib, p, name, c)
        &&& self.manufacturing_report.provider@ == p.id()
        &&& self.manufacturing_report.found() == c.fab
        &&& self.manufacturing_report.wf()
        &&& match (self.board_size, size_of(b)) {
            (Some(s), Some(w)) => s.0.0 == w.0 && s.1.0 == w.1,
            (None, None) => true,
            _ => false,
        }
        &&& self.blocking == (c.blocking(p).len() > 0)
        &&& text::views(self.blocking_reasons@) == c.blocking(p)
    }
}

/// The board is small enough for every check and every file.
pub open spec fn packable(b: Board) -> bool {
    &&& b.in_range()
    &&& drc::keepouts_in_range(b)
    &&& silkscreen::silk_in_range(b)
}

/// Writes the files that the provider works from.
fn write_files(b: &Board, lib: &Library, p: Provider, stem: &str) -> (r: Vec<PackFile>)
    requires
        packable(*b),
    ensures
        bundle::file_views(r@) == production_files(*b, *lib, p, stem@),
{
    let mut files: Vec<PackFile> = Vec::new();
    assert(bundle::file_views(files@) =~= Seq::empty());
    add_file(&mut files, stem, "-F_Cu.gbr", write_copper(b, Side::Top));
    add_file(&mut files, stem, "-B_Cu.gbr", write_copper(b, Side::Bottom));
    let mut layers = write_layers(b, stem);
    let ghost copper = files@;
    let ghost rest = layers@;
    files.append(&mut layers);
    assert(bundle::file_views(files@) =~= bundle::file_views(copper) + bundle::file_views(rest));
    add_file(&mut files, stem, "-bom.csv", write_bom(b, lib, p));
    add_file(&mut files, stem, "-cpl.csv", write_cpl(b, p));
    proof {
        reveal(production_files);
    }
    assert(bundle::file_views(files@) =~= production_files(*b, *lib, p, stem@));
    files
}

/// Puts a project through the checks: the counts of the design and of the
/// electrical rules, and the report on the provider's.
fn run_checks(
    b: &Board,
    s: &Schematic,
    p: Provider,
    opts: &DrcOptions,
    erc_opts: &ErcOptions,
) -> (r: (Counts, Counts, FabReport))
    requires
        packable(*b),
        opts.in_range(),
    ensures
        ({
            let c = checks(*b, *s, p, *opts, *erc_opts);
            &&& (r.0.errors as int, r.0.warnings as int) == c.drc_counts()
            &&& (r.1.errors as int, r.1.warnings as int) == c.erc_counts()
            &&& (r.2.error_count as int, r.2.warning_count as int) == c.fab_counts()
            &&& r.2.found() == c.fab
            &&& r.2.provider@ == p.id()
            &&& r.2.wf()
        }),
{
    let drc_report = drc::run(b, opts);
    let erc_report = erc::run(b, s, erc_opts);
    let fab_report = manufacturing_drc(b, p);
    proof {
        reveal(checks);
    }
    (
        Counts { errors: drc_report.error_count, warnings: drc_report.warning_count },
        Counts { errors: erc_report.error_count, warnings: erc_report.warning_count },
        fab_report,
    )
}

/// Checks a project and writes the files of its pack.
pub fn plan_pack(
    b: &Board,
    s: &Schematic,
    lib: &Library,
    name: &str,
    provider: Provider,
    opts: &DrcOptions,
    erc_opts: &ErcOptions,
) -> (r: PackReport)
    requires
        packable(*b),
        opts.in_range(),
    ensures
        r.reports(*b, *lib, provider, name@, checks(*b, *s, provider, *opts, *erc_opts)),
{
    let ghost c = checks(*b, *s, provider, *opts, *erc_opts);
    let stem = sanitize(name);
    let stem = stem.as_str();
    let (drc_counts, erc_counts, report) = run_checks(b, s, provider, opts, erc_opts);
    let fab_counts = Counts { errors: report.error_count, warnings: report.warning_count };
    let reasons = blocking_reasons(
        provider,
        drc_counts.errors,
        erc_counts.errors,
        fab_counts.errors,
    );
    let mut files = write_files(b, lib, provider, stem);
    let ghost before = files@;
    let readme = build_readme(name, provider, b, drc_counts, erc_counts, fab_counts, &reasons);
    assert(readme@ == pack_readme(*b, provider, name@, c)) by {
        reveal(pack_readme);
    }
    files.push(PackFile { name: "README.txt".to_owned(), body: readme });
    assert(bundle::file_views(files@) =~= bundle::file_views(before).push(
        ("README.txt"@, pack_readme(*b, provider, name@, c)),
    ));
    assert(text::views(reasons@).len() == reasons@.len());
    let board_size = match b.outline {
        None => None,
        Some(o) => Some((Length(o.max.x.0 - o.min.x.0), Length(o.max.y.0 - o.min.y.0))),
    };
    PackReport {
        provider: provider.name().to_owned(),
        zip_name: stem.to_owned().concat("-").concat(provider.name()).concat(".zip"),
        files,
        manufacturing_report: report,
        board_size,
        blocking: reasons.len() > 0,
        blocking_reasons: reasons,
    }
}

/// A plain stem with a short ASCII end takes one byte for each character.
proof fn name_is_short(stem: Seq<char>, suffix: Seq<char>)
    requires
        forall|i: int| 0 <= i < stem.len() ==> csv::is_plain(#[trigger] stem[i]),
        stem.len() <= 65521,
        utf8::is_ascii_chars(suffix),
        suffix.len() <= 14,
    ensures
        utf8::encode_utf8(stem + suffix).len() <= 65535,
{
    let s = stem + suffix;
    assert forall|i: int| 0 <= i < s.len() implies '\0' <= #[trigger] s[i] <= '\u{7f}' by {
        if i < stem.len() {
            assert(csv::is_plain(stem[i]));
        } else {
            assert(s[i] == suffix[i - stem.len()]);
        }
    }
    utf8::is_ascii_chars_encode_utf8(s);
}

proof fn readme_name()
    ensures
        utf8::encode_utf8("README.txt"@).len() <= 65535,
{
    reveal_strlit("README.txt");
    assert(Seq::<char>::empty() + "README.txt"@ =~= "README.txt"@);
    name_is_short(Seq::empty(), "README.txt"@);
}

/// The names of the files of a pack are short.
proof fn names_are_short(b: Board, lib: Library, p: Provider, name: Seq<char>, c: Checks, files: Seq<PackFile>)
    requires
        bundle::file_views(files) == pack_files(b, lib, p, name, c),
        csv::sanitized(name, "untitled"@).len() <= 65521,
    ensures
        zip_pack::names_fit(files),
{
    let stem = csv::sanitized(name, "untitled"@);
    reveal_strlit("untitled");
    csv::sanitizing_is_idempotent(name, "untitled"@);
    let v = bundle::file_views(files);
    let all = production_files(b, lib, p, stem);
    let last = ("README.txt"@, pack_readme(b, p, name, c));
    assert(v == all.push(last));
    assert(v.len() == files.len());
    assert forall|i: int| 0 <= i < files.len() implies utf8::encode_utf8(
        (#[trigger] files[i]).name@,
    ).len() <= 65535 by {
        assert(v[i].0 == files[i].name@);
        if i < files.len() - 1 {
            assert(v[i] == all[i]);
            production_name(b, lib, p, stem, i);
        } else {
            readme_name();
        }
    }
}

/// The names of the files that the provider works from.
#[verifier::spinoff_prover]
proof fn production_names(b: Board, lib: Library, p: Provider, stem: Seq<char>)
    ensures
        production_files(b, lib, p, stem).len() == 11,
        production_files(b, lib, p, stem)[0].0 == stem + "-F_Cu.gbr"@,
        production_files(b, lib, p, stem)[1].0 == stem + "-B_Cu.gbr"@,
        forall|i: int|
            2 <= i < 9 ==> #[trigger] production_files(b, lib, p, stem)[i] == bundle::layer_files(
                b,
                stem,
            )[i - 2],
        production_files(b, lib, p, stem)[9].0 == stem + "-bom.csv"@,
        production_files(b, lib, p, stem)[10].0 == stem + "-cpl.csv"@,
{
    bundle::layer_names(b, stem);
    reveal(production_files);
}

/// The name of a file that the provider works from is short.
#[verifier::spinoff_prover]
proof fn production_name(b: Board, lib: Library, p: Provider, stem: Seq<char>, i: int)
    requires
        0 <= i < production_files(b, lib, p, stem).len(),
        forall|i: int| 0 <= i < stem.len() ==> csv::is_plain(#[trigger] stem[i]),
        stem.len() <= 65521,
    ensures
        utf8::encode_utf8(production_files(b, lib, p, stem)[i].0).len() <= 65535,
{
    production_names(b, lib, p, stem);
    if i < 2 {
        reveal_strlit("-F_Cu.gbr");
        reveal_strlit("-B_Cu.gbr");
        name_is_short(stem, if i == 0 { "-F_Cu.gbr"@ } else { "-B_Cu.gbr"@ });
    } else if i < 9 {
        layer_name(b, stem, i - 2);
    } else {
        reveal_strlit("-bom.csv");
        reveal_strlit("-cpl.csv");
        name_is_short(stem, if i == 9 { "-bom.csv"@ } else { "-cpl.csv"@ });
    }
}

proof fn layer_name(b: Board, stem: Seq<char>, i: int)
    requires
        0 <= i < 7,
        forall|i: int| 0 <= i < stem.len() ==> csv::is_plain(#[trigger] stem[i]),
        stem.len() <= 65521,
    ensures
        utf8::encode_utf8(bundle::layer_files(b, stem)[i].0).len() <= 65535,
{
    bundle::layer_names(b, stem);
    if i == 0 {
        reveal_strlit("-F_Mask.gbr");
        name_is_short(stem, "-F_Mask.gbr"@);
    } else if i == 1 {
        reveal_strlit("-B_Mask.gbr");
        name_is_short(stem, "-B_Mask.gbr"@);
    } else if i == 2 {
        reveal_strlit("-F_SilkS.gbr");
        name_is_short(stem, "-F_SilkS.gbr"@);
    } else if i == 3 {
        reveal_strlit("-B_SilkS.gbr");
        name_is_short(stem, "-B_SilkS.gbr"@);
    } else if i == 4 {
        reveal_strlit("-Edge_Cuts.gbr");
        name_is_short(stem, "-Edge_Cuts.gbr"@);
    } else if i == 5 {
        reveal_strlit("-PTH.drl");
        name_is_short(stem, "-PTH.drl"@);
    } else {
        reveal_strlit("-NPTH.drl");
        name_is_short(stem, "-NPTH.drl"@);
    }
}

/// Packs a project for a provider: checks it with the usual options, writes
/// its files, and puts them into a zip archive.
pub fn pack(b: &Board, s: &Schematic, lib: &Library, name: &str, provider: Provider) -> (r: (
    PackReport,
    Result<Vec<u8>, ZipFault>,
))
    requires
        packable(*b),
        csv::sanitized(name@, "untitled"@).len() <= 65521,
    ensures
        exists|o: DrcOptions| #[trigger]
            o.is_usual() && r.0.reports(
                *b,
                *lib,
                provider,
                name@,
                checks(*b, *s, provider, o, erc::usual_options()),
            ),
        zip_pack::is_packing(zip_pack::contents(r.0.files@), r.1),
{
    let opts = DrcOptions::default();
    let report = plan_pack(b, s, lib, name, provider, &opts, &ErcOptions::default());
    proof {
        names_are_short(*b, *lib, provider, name@, checks(*b, *s, provider, opts, erc::usual_options()), report.files@);
    }
    let zip = zip_files(&report.files);
    (report, zip)
}

} // verus!
