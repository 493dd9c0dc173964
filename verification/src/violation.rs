//! Findings of the design rule check and the report that counts them.

use vstd::prelude::*;

use crate::text;
use crate::units::Length;

verus! {

#[derive(Debug, Clone, Copy, PartialEq, Eq, Structural)]
pub enum Severity {
    Error,
    Warning,
}

#[derive(Debug, Clone, Copy, PartialEq, Eq, Structural)]
pub enum ViolationKind {
    PadPadClearance,
    TraceTraceClearance,
    TracePadClearance,
    EdgeClearance,
    UnconnectedPad,
    NarrowTrace,
    SmallDrill,
    SmallComponentDangling,
    /// A routed net is much longer than its pads call for.
    RoutingInefficient,
    /// Two bodies overlap.
    BodyOverlap,
    /// A body extends past the outline.
    BodyOffBoard,
    /// A trace crosses a keepout or a via sits in one.
    KeepoutViolation,
    /// A trace width misses the impedance target of its class.
    ImpedanceMismatch,
    /// Something is below a minimum of the fab profile.
    FabProfileMin,
    /// The copper of a net falls into islands.
    NetSplit,
    /// Copper of two nets touches.
    NetShort,
}

#[derive(Debug)]
pub struct Violation {
    pub kind: ViolationKind,
    pub severity: Severity,
    pub message: String,
    /// Where to draw the marker.
    pub x: Length,
    pub y: Length,
    /// Names of the items involved.
    pub involved: Vec<String>,
}

/// A violation by value.
#[verifier::ext_equal]
pub ghost struct Finding {
    pub kind: ViolationKind,
    pub severity: Severity,
    pub message: Seq<char>,
    pub x: int,
    pub y: int,
    pub involved: Seq<Seq<char>>,
}

impl Violation {
    pub open spec fn finding(self) -> Finding {
        Finding {
            kind: self.kind,
            severity: self.severity,
            message: self.message@,
            x: self.x.0 as int,
            y: self.y.0 as int,
            involved: text::views(self.involved@),
        }
    }
}

/// The violations by value.
pub open spec fn findings(v: Seq<Violation>) -> Seq<Finding> {
    Seq::new(v.len(), |i: int| v[i].finding())
}

/// What an optional violation contributes to a list.
pub open spec fn given(v: Option<Violation>) -> Seq<Finding> {
    match v {
        Some(x) => seq![x.finding()],
        None => Seq::empty(),
    }
}

/// `f` where `cond` holds, else nothing.
pub open spec fn only_if(cond: bool, f: Finding) -> Seq<Finding> {
    if cond {
        seq![f]
    } else {
        Seq::empty()
    }
}

/// The number of findings of a severity.
pub open spec fn count(f: Seq<Finding>, s: Severity) -> nat
    decreases f.len(),
{
    if f.len() == 0 {
        0
    } else {
        count(f.drop_last(), s) + if f.last().severity == s {
            1nat
        } else {
            0nat
        }
    }
}

/// Errors and warnings together are all findings.
pub proof fn counts_add_up(f: Seq<Finding>)
    ensures
        count(f, Severity::Error) + count(f, Severity::Warning) == f.len(),
    decreases f.len(),
{
    if f.len() > 0 {
        counts_add_up(f.drop_last());
    }
}

/// There is an error in the list exactly if the count is not zero.
pub proof fn count_finds(f: Seq<Finding>, s: Severity)
    ensures
        count(f, s) > 0 <==> exists|i: int| 0 <= i < f.len() && (#[trigger] f[i]).severity == s,
    decreases f.len(),
{
    if f.len() > 0 {
        let g = f.drop_last();
        count_finds(g, s);
        if count(g, s) > 0 {
            let i = choose|i: int| 0 <= i < g.len() && (#[trigger] g[i]).severity == s;
            assert(f[i].severity == s);
        }
        if f.last().severity == s {
            assert(f[f.len() - 1].severity == s);
        }
        if exists|i: int| 0 <= i < f.len() && (#[trigger] f[i]).severity == s {
            let i = choose|i: int| 0 <= i < f.len() && (#[trigger] f[i]).severity == s;
            if i < g.len() {
                assert(g[i].severity == s);
            }
        }
    }
}

#[derive(Debug)]
pub struct DrcReport {
    pub violations: Vec<Violation>,
    pub error_count: usize,
    pub warning_count: usize,
}

impl DrcReport {
    /// The violations by value.
    pub open spec fn found(self) -> Seq<Finding> {
        findings(self.violations@)
    }

    /// The counts are those of the violations.
    pub open spec fn wf(self) -> bool {
        &&& self.error_count == count(self.found(), Severity::Error)
        &&& self.warning_count == count(self.found(), Severity::Warning)
    }

    pub fn new() -> (r: Self)
        ensures
            r.wf(),
            r.found() == Seq::<Finding>::empty(),
    {
        let r = DrcReport { violations: Vec::new(), error_count: 0, warning_count: 0 };
        assert(r.found() =~= Seq::<Finding>::empty());
        r
    }

    pub fn push(&mut self, v: Violation)
        requires
            old(self).wf(),
        ensures
            final(self).wf(),
            final(self).found() == old(self).found().push(v.finding()),
    {
        let severity = v.severity;
        let ghost f = self.found();
        let ghost one = v.finding();
        proof {
            counts_add_up(f);
        }
        self.violations.push(v);
        let total: usize = self.violations.len();
        proof {
            assert(self.found() =~= f.push(one));
            assert(f.push(one).drop_last() =~= f);
            assert(total == f.len() + 1);
        }
        match severity {
            Severity::Error => {
                self.error_count += 1;
            },
            Severity::Warning => {
                self.warning_count += 1;
            },
        }
    }

    /// Pushes the violation if there is one.
    pub fn take(&mut self, v: Option<Violation>)
        requires
            old(self).wf(),
        ensures
            final(self).wf(),
            final(self).found() == old(self).found() + given(v),
    {
        let ghost f = self.found();
        let ghost more = given(v);
        match v {
            Some(x) => {
                let ghost one = x.finding();
                self.push(x);
                assert(f + more =~= f.push(one));
            },
            None => {
                assert(f + more =~= f);
            },
        }
    }
}

/// How often a severity occurs.
pub open spec fn tally(s: Seq<Severity>, which: Severity) -> nat
    decreases s.len(),
{
    if s.len() == 0 {
        0
    } else {
        tally(s.drop_last(), which) + if s.last() == which {
            1nat
        } else {
            0nat
        }
    }
}

/// Every severity is an error or a warning.
pub proof fn tallies_add_up(s: Seq<Severity>)
    ensures
        tally(s, Severity::Error) + tally(s, Severity::Warning) == s.len(),
    decreases s.len(),
{
    if s.len() > 0 {
        tallies_add_up(s.drop_last());
    }
}

} // verus!
