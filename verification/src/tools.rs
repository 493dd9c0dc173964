//! The tool surface: which tools there are, and what the plain ones do to
//! a project.

use vstd::prelude::*;

use crate::board;
use crate::board::{
    Board, CopperLayer, Footprint, Id, Pad, Pour, StitchPolicy, ThermalRelief, Trace, Via,
};
use crate::drc;
use crate::drc::DrcOptions;
use crate::event::{ActivityLevel, Event};
use crate::geometry::{Point, Rect};
use crate::ids;
use crate::list;
use crate::project;
use crate::project::Project;
use crate::rotation::Rotation;
use crate::text;
use crate::text::{fixed_text, join, str_eq, uint_text};
use crate::units::Length;
use crate::violation::DrcReport;
use crate::words;
use crate::words::blank;

verus! {

/// The code of a request that cannot be read.
pub const PARSE_ERROR: i64 = -32700;

/// The code of an unknown method or tool.
pub const METHOD_NOT_FOUND: i64 = -32601;

/// The code of arguments that a tool does not take.
pub const INVALID_PARAMS: i64 = -32602;

/// The code of a failure that is not the caller's.
pub const INTERNAL_ERROR: i64 = -32603;

/// Why a tool did nothing.
#[derive(Debug)]
pub struct ToolError {
    pub code: i64,
    pub message: String,
}

impl ToolError {
    pub fn invalid_params(msg: String) -> (r: Self)
        ensures
            r.code == INVALID_PARAMS,
            r.message == msg,
    {
        ToolError { code: INVALID_PARAMS, message: msg }
    }
}

/// The tools.
#[derive(Debug, Clone, Copy, PartialEq, Eq, Structural)]
pub enum Tool {
    Script,
    Batch,
    ProjectStatus,
    ProjectReset,
    BoardSetOutline,
    PlacementAdd,
    ViewSnapshot,
    ViewSummary,
    NetStatus,
    SchematicAddSymbol,
    SchematicConnect,
    SchematicStatus,
    SchematicSnapshot,
    PaletteAdd,
    PaletteList,
    PaletteClear,
    PaletteAddFromLibrary,
    LibraryList,
    LibraryFind,
    LibraryCreate,
    LibraryAttach,
    LibraryDeleteAttachment,
    LibraryDelete,
    PlaceFromPalette,
    PlacementBatch,
    PlacementMove,
    PlacementRotate,
    RouteClearNet,
    RouteDeleteTrace,
    RouteDeleteVia,
    RouteAddTrace,
    RouteAddVia,
    RouteClear,
    RouteRun,
    PourAdd,
    PourRemove,
    DrcRun,
    OutputFabPack,
}

impl Tool {
    /// The name under which a tool is called.
    pub open spec fn id(self) -> Seq<char> {
        match self {
            Tool::Script => "script"@,
            Tool::Batch => "batch"@,
            Tool::ProjectStatus => "project.status"@,
            Tool::ProjectReset => "project.reset"@,
            Tool::BoardSetOutline => "board.set_outline"@,
            Tool::PlacementAdd => "placement.add"@,
            Tool::ViewSnapshot => "view.snapshot"@,
            Tool::ViewSummary => "view.summary"@,
            Tool::NetStatus => "net.status"@,
            Tool::SchematicAddSymbol => "schematic.add_symbol"@,
            Tool::SchematicConnect => "schematic.connect"@,
            Tool::SchematicStatus => "schematic.status"@,
            Tool::SchematicSnapshot => "schematic.snapshot"@,
            Tool::PaletteAdd => "palette.add"@,
            Tool::PaletteList => "palette.list"@,
            Tool::PaletteClear => "palette.clear"@,
            Tool::PaletteAddFromLibrary => "palette.add_from_library"@,
            Tool::LibraryList => "library.list"@,
            Tool::LibraryFind => "library.find"@,
            Tool::LibraryCreate => "library.create"@,
            Tool::LibraryAttach => "library.attach"@,
            Tool::LibraryDeleteAttachment => "library.delete_attachment"@,
            Tool::LibraryDelete => "library.delete"@,
            Tool::PlaceFromPalette => "placement.place_from_palette"@,
            Tool::PlacementBatch => "placement.batch"@,
            Tool::PlacementMove => "placement.move"@,
            Tool::PlacementRotate => "placement.rotate"@,
            Tool::RouteClearNet => "route.clear_net"@,
            Tool::RouteDeleteTrace => "route.delete_trace"@,
            Tool::RouteDeleteVia => "route.delete_via"@,
            Tool::RouteAddTrace => "route.add_trace"@,
            Tool::RouteAddVia => "route.add_via"@,
            Tool::RouteClear => "route.clear"@,
            Tool::RouteRun => "route.run"@,
            Tool::PourAdd => "pour.add"@,
            Tool::PourRemove => "pour.remove"@,
            Tool::DrcRun => "drc.run"@,
            Tool::OutputFabPack => "output.fab_pack"@,
        }
    }
}

/// The tool that is called by a name.
pub fn tool_named(name: &str) -> (r: Result<Tool, ToolError>)
    ensures
        r matches Ok(t) ==> t.id() == name@,
        r is Err ==> forall|t: Tool| (#[trigger] t.id()) != name@,
        r matches Err(e) ==> e.code == METHOD_NOT_FOUND && e.message@ == "unknown tool: "@ + name@,
{
    if str_eq(name, "script") {
        Ok(Tool::Script)
    } else if str_eq(name, "batch") {
        Ok(Tool::Batch)
    } else if str_eq(name, "project.status") {
        Ok(Tool::ProjectStatus)
    } else if str_eq(name, "project.reset") {
        Ok(Tool::ProjectReset)
    } else if str_eq(name, "board.set_outline") {
        Ok(Tool::BoardSetOutline)
    } else if str_eq(name, "placement.add") {
        Ok(Tool::PlacementAdd)
    } else if str_eq(name, "view.snapshot") {
        Ok(Tool::ViewSnapshot)
    } else if str_eq(name, "view.summary") {
        Ok(Tool::ViewSummary)
    } else if str_eq(name, "net.status") {
        Ok(Tool::NetStatus)
    } else if str_eq(name, "schematic.add_symbol") {
        Ok(Tool::SchematicAddSymbol)
    } else if str_eq(name, "schematic.connect") {
        Ok(Tool::SchematicConnect)
    } else if str_eq(name, "schematic.status") {
        Ok(Tool::SchematicStatus)
    } else if str_eq(name, "schematic.snapshot") {
        Ok(Tool::SchematicSnapshot)
    } else if str_eq(name, "palette.add") {
        Ok(Tool::PaletteAdd)
    } else if str_eq(name, "palette.list") {
        Ok(Tool::PaletteList)
    } else if str_eq(name, "palette.clear") {
        Ok(Tool::PaletteClear)
    } else if str_eq(name, "palette.add_from_library") {
        Ok(Tool::PaletteAddFromLibrary)
    } else if str_eq(name, "library.list") {
        Ok(Tool::LibraryList)
    } else if str_eq(name, "library.find") {
        Ok(Tool::LibraryFind)
    } else if str_eq(name, "library.create") {
        Ok(Tool::LibraryCreate)
    } else if str_eq(name, "library.attach") {
        Ok(Tool::LibraryAttach)
    } else if str_eq(name, "library.delete_attachment") {
        Ok(Tool::LibraryDeleteAttachment)
    } else if str_eq(name, "library.delete") {
        Ok(Tool::LibraryDelete)
    } else if str_eq(name, "placement.place_from_palette") {
        Ok(Tool::PlaceFromPalette)
    } else if str_eq(name, "placement.batch") {
        Ok(Tool::PlacementBatch)
    } else if str_eq(name, "placement.move") {
        Ok(Tool::PlacementMove)
    } else if str_eq(name, "placement.rotate") {
        Ok(Tool::PlacementRotate)
    } else if str_eq(name, "route.clear_net") {
        Ok(Tool::RouteClearNet)
    } else if str_eq(name, "route.delete_trace") {
        Ok(Tool::RouteDeleteTrace)
    } else if str_eq(name, "route.delete_via") {
        Ok(Tool::RouteDeleteVia)
    } else if str_eq(name, "route.add_trace") {
        Ok(Tool::RouteAddTrace)
    } else if str_eq(name, "route.add_via") {
        Ok(Tool::RouteAddVia)
    } else if str_eq(name, "route.clear") {
        Ok(Tool::RouteClear)
    } else if str_eq(name, "route.run") {
        Ok(Tool::RouteRun)
    } else if str_eq(name, "pour.add") {
        Ok(Tool::PourAdd)
    } else if str_eq(name, "pour.remove") {
        Ok(Tool::PourRemove)
    } else if str_eq(name, "drc.run") {
        Ok(Tool::DrcRun)
    } else if str_eq(name, "output.fab_pack") {
        Ok(Tool::OutputFabPack)
    } else {
        assert forall|t: Tool| (#[trigger] t.id()) != name@ by {}
        Err(
            ToolError {
                code: METHOD_NOT_FOUND,
                message: "unknown tool: ".to_owned().concat(name),
            },
        )
    }
}

/// What a server does on a request.
#[derive(Debug, Clone, Copy, PartialEq, Eq, Structural)]
pub enum Method {
    Initialize,
    /// Answered with an empty result.
    Acknowledge,
    ListTools,
    CallTool,
}

/// What a server does on a method.
pub open spec fn method_of(name: Seq<char>) -> Option<Method> {
    if name == "initialize"@ {
        Some(Method::Initialize)
    } else if name == "notifications/initialized"@ || name == "initialized"@ || name == "ping"@ {
        Some(Method::Acknowledge)
    } else if name == "tools/list"@ {
        Some(Method::ListTools)
    } else if name == "tools/call"@ {
        Some(Method::CallTool)
    } else {
        None
    }
}

/// What to do with a line that was received.
#[derive(Debug)]
pub enum Step {
    /// Nothing is answered.
    Silent,
    /// The error is answered.
    Refuse(ToolError),
    /// The method is carried out and answered.
    Run(Method),
}

/// Decides what to do with a line: a blank one is passed over, one that
/// cannot be read is refused with the reason, one without an id is a
/// notification and gets no answer, and an unknown method is refused.
/// `request` holds the method and whether there is an id, or why the line
/// cannot be read.
pub fn handle_line(line: &str, request: Result<(String, bool), String>) -> (r: Step)
    ensures
        words::is_blank(line@) ==> r is Silent,
        !words::is_blank(line@) ==> match request {
            Err(e) => r matches Step::Refuse(t) && t.code == PARSE_ERROR && t.message@
                == "parse error: "@ + e@,
            Ok((method, false)) => r is Silent,
            Ok((method, true)) => match method_of(method@) {
                Some(m) => r matches Step::Run(n) && n == m,
                None => r matches Step::Refuse(t) && t.code == METHOD_NOT_FOUND && t.message@
                    == "method not implemented: "@ + method@,
            },
        },
{
    if blank(line) {
        return Step::Silent;
    }
    match request {
        Err(e) => Step::Refuse(
            ToolError {
                code: PARSE_ERROR,
                message: "parse error: ".to_owned().concat(e.as_str()),
            },
        ),
        Ok((method, has_id)) => {
            if !has_id {
                return Step::Silent;
            }
            let m = method.as_str();
            if str_eq(m, "initialize") {
                Step::Run(Method::Initialize)
            } else if str_eq(m, "notifications/initialized") || str_eq(m, "initialized") || str_eq(
                m,
                "ping",
            ) {
                Step::Run(Method::Acknowledge)
            } else if str_eq(m, "tools/list") {
                Step::Run(Method::ListTools)
            } else if str_eq(m, "tools/call") {
                Step::Run(Method::CallTool)
            } else {
                Step::Refuse(
                    ToolError {
                        code: METHOD_NOT_FOUND,
                        message: "method not implemented: ".to_owned().concat(m),
                    },
                )
            }
        },
    }
}

/// The outcomes of many calls.
#[derive(Debug, Clone, Copy, PartialEq, Eq, Structural)]
pub struct Tally {
    pub ok: usize,
    pub failed: usize,
}

/// How many of the outcomes are good.
pub open spec fn good(outcomes: Seq<bool>) -> int {
    outcomes.filter(|b: bool| b).len() as int
}

/// What a run of many calls is summed up to.
pub open spec fn summary(what: Seq<char>, ok: int, failed: int) -> Seq<char> {
    what + ": "@ + text::dec(ok as nat) + " ok, "@ + text::dec(failed as nat) + " failed"@
}

/// Counts the outcomes of many calls.
pub fn tally(outcomes: &Vec<bool>) -> (r: Tally)
    ensures
        r.ok == good(outcomes@),
        r.ok + r.failed == outcomes@.len(),
{
    let ghost p = |b: bool| b;
    let mut ok: usize = 0;
    let mut i: usize = 0;
    proof {
        reveal(Seq::filter);
        assert(outcomes@.take(0).filter(p).len() == 0);
    }
    while i < outcomes.len()
        invariant
            i <= outcomes@.len(),
            p == (|b: bool| b),
            ok <= i,
            ok == outcomes@.take(i as int).filter(p).len(),
        decreases outcomes@.len() - i,
    {
        proof {
            list::filter_step(outcomes@, p, i as int);
        }
        if outcomes[i] {
            ok += 1;
        }
        i += 1;
    }
    assert(outcomes@.take(outcomes@.len() as int) =~= outcomes@);
    Tally { ok, failed: outcomes.len() - ok }
}

fn summary_text(what: &str, t: Tally) -> (r: String)
    ensures
        r@ == summary(what@, t.ok as int, t.failed as int),
{
    what.to_owned().concat(": ").concat(uint_text(t.ok as u128).as_str()).concat(" ok, ").concat(
        uint_text(t.failed as u128).as_str(),
    ).concat(" failed")
}

/// The error of a batch that calls itself.
pub fn nested_batch(tool: &str) -> (r: Option<ToolError>)
    ensures
        r is Some <==> tool@ == "batch"@,
        r matches Some(e) ==> e.code == INVALID_PARAMS && e.message@ == "batch cannot call itself"@,
{
    if str_eq(tool, "batch") {
        Some(ToolError::invalid_params("batch cannot call itself".to_owned()))
    } else {
        None
    }
}

/// The name of an outer layer.
pub open spec fn layer_name(layer: CopperLayer) -> Seq<char> {
    match layer {
        CopperLayer::Top => "Top"@,
        CopperLayer::Bottom => "Bottom"@,
        CopperLayer::Inner(i) => "Inner("@ + text::dec(i as nat) + ")"@,
    }
}

pub fn layer_label(layer: CopperLayer) -> (r: String)
    ensures
        r@ == layer_name(layer),
{
    match layer {
        CopperLayer::Top => "Top".to_owned(),
        CopperLayer::Bottom => "Bottom".to_owned(),
        CopperLayer::Inner(i) => "Inner(".to_owned().concat(uint_text(i as u128).as_str()).concat(
            ")",
        ),
    }
}

/// The name of a layer in data: `top`, `bottom`, or the number of an inner
/// layer.
pub open spec fn layer_word(layer: CopperLayer) -> Seq<char> {
    match layer {
        CopperLayer::Top => "top"@,
        CopperLayer::Bottom => "bottom"@,
        CopperLayer::Inner(i) => "inner"@ + text::dec(i as nat),
    }
}

pub fn layer_to_str(layer: CopperLayer) -> (r: String)
    ensures
        r@ == layer_word(layer),
{
    match layer {
        CopperLayer::Top => "top".to_owned(),
        CopperLayer::Bottom => "bottom".to_owned(),
        CopperLayer::Inner(i) => "inner".to_owned().concat(uint_text(i as u128).as_str()),
    }
}

/// Reads an id that a caller gave.
pub fn parse_id(s: &str) -> (r: Result<Id, ToolError>)
    ensures
        r is Ok <==> ids::uuid_value(s@) is Some,
        r matches Ok(id) ==> ids::uuid_value(s@) == Some(id.0 as nat),
        r matches Err(e) ==> e.code == INVALID_PARAMS && e.message@ == "invalid id "@ + s@ + ": "@
            + ids::uuid_error(s@),
{
    match Id::parse(s) {
        Ok(id) => Ok(id),
        Err(e) => Err(
            ToolError::invalid_params(
                "invalid id ".to_owned().concat(s).concat(": ").concat(e.as_str()),
            ),
        ),
    }
}

/// The events grew by these and a line for the activity panel.
pub open spec fn reported(
    before: Seq<Event>,
    more: Seq<Event>,
    after: Seq<Event>,
    message: Seq<char>,
) -> bool {
    project::logged(before + more, after, message)
}

/// The events of a routing that is cleared and laid anew, `t` traces and
/// then `v` vias.
pub open spec fn laying(t: nat, v: nat) -> Seq<Event> {
    seq![Event::RoutingChanged { trace_count: 0, via_count: 0 }] + Seq::new(
        t,
        |i: int| Event::RoutingChanged { trace_count: (i + 1) as usize, via_count: 0 },
    ) + Seq::new(
        v,
        |i: int| Event::RoutingChanged { trace_count: t as usize, via_count: (i + 1) as usize },
    )
}

/// The items in reverse order.
fn back_to_front<T>(v: Vec<T>) -> (r: Vec<T>)
    ensures
        r@ == v@.reverse(),
{
    let ghost all = v@;
    let mut v = v;
    let mut out: Vec<T> = Vec::new();
    assert(v@ =~= all.take(all.len() as int));
    while v.len() > 0
        invariant
            v@.len() <= all.len(),
            v@ == all.take(v@.len() as int),
            out@ == all.skip(v@.len() as int).reverse(),
        decreases v@.len(),
    {
        let ghost n = v@.len();
        if let Some(x) = v.pop() {
            out.push(x);
        }
        assert(v@ =~= all.take(n - 1));
        assert(out@ =~= all.skip(n - 1).reverse());
    }
    assert(all.skip(0) =~= all);
    out
}

/// `w × h mm`.
pub open spec fn size_mm(w: int, h: int) -> Seq<char> {
    text::fixed(w, 1) + " × "@ + text::fixed(h, 1) + " mm"@
}

/// The design rules that a caller may set.
#[derive(Debug, Clone, Copy)]
pub struct DrcInput {
    pub min_clearance: Option<Length>,
    pub edge_clearance: Option<Length>,
    pub min_trace_width: Option<Length>,
    pub min_drill: Option<Length>,
}

impl DrcInput {
    pub open spec fn in_range(self) -> bool {
        &&& drc::small(self.min_clearance)
        &&& drc::small(self.edge_clearance)
    }
}

/// The value, or another where it is not set.
pub open spec fn value_or(v: Option<Length>, other: int) -> int {
    match v {
        Some(l) => l.0 as int,
        None => other,
    }
}

/// The options with the rules that were set, and the usual ones for the
/// rest.
pub open spec fn is_chosen(o: DrcOptions, input: DrcInput) -> bool {
    &&& o.min_clearance.0 == value_or(input.min_clearance, 200_000)
    &&& o.edge_clearance.0 == value_or(input.edge_clearance, 300_000)
    &&& o.min_trace_width.0 == value_or(input.min_trace_width, 100_000)
    &&& o.min_drill.0 == value_or(input.min_drill, 200_000)
    &&& o.routing_inefficient_ratio == 1500
    &&& o.net_overrides.entries@.len() == 0
    &&& o.schematic is None
    &&& o.placement_margins.entries@.len() == 0
    &&& o.fab_profile is None
    &&& o.impedances@.len() == 0
}

/// The options with the rules that a caller set.
pub fn drc_options(input: DrcInput) -> (r: DrcOptions)
    ensures
        is_chosen(r, input),
        input.in_range() ==> r.in_range(),
{
    let mut o = DrcOptions::default();
    if let Some(v) = input.min_clearance {
        o.min_clearance = v;
    }
    if let Some(v) = input.edge_clearance {
        o.edge_clearance = v;
    }
    if let Some(v) = input.min_trace_width {
        o.min_trace_width = v;
    }
    if let Some(v) = input.min_drill {
        o.min_drill = v;
    }
    o
}

/// `N error(s), M warning(s)`.
pub open spec fn counts(errors: int, warnings: int) -> Seq<char> {
    text::dec(errors as nat) + " error(s), "@ + text::dec(warnings as nat) + " warning(s)"@
}

fn counts_text(errors: usize, warnings: usize) -> (r: String)
    ensures
        r@ == counts(errors as int, warnings as int),
{
    uint_text(errors as u128).concat(" error(s), ").concat(
        uint_text(warnings as u128).as_str(),
    ).concat(" warning(s)")
}

/// What a router reports.
#[derive(Debug)]
pub struct RouteReport {
    pub trace_count: usize,
    pub via_count: usize,
    /// The nets that could not be routed.
    pub failed: Vec<String>,
}

/// The answer to a routing run.
pub open spec fn route_reply(
    traces: nat,
    vias: nat,
    failed: Seq<Seq<char>>,
    errors: int,
    warnings: int,
) -> Seq<char> {
    "Routed: "@ + text::dec(traces) + " traces, "@ + text::dec(vias) + " vias"@ + (if failed.len()
        == 0 {
        Seq::empty()
    } else {
        " ("@ + text::dec(failed.len()) + " failed: "@ + text::joined(failed, ", "@) + ")"@
    }) + "; DRC: "@ + counts(errors, warnings)
}

/// The line for the activity panel of a routing run.
pub open spec fn route_line(
    traces: nat,
    vias: nat,
    failed: nat,
    errors: int,
    warnings: int,
) -> Seq<char> {
    "route.run: "@ + text::dec(traces) + " traces, "@ + text::dec(vias) + " vias, "@ + text::dec(
        failed,
    ) + " net(s) failed; DRC "@ + text::dec(errors as nat) + "E "@ + text::dec(warnings as nat)
        + "W"@
}

impl Project {
    /// Drops everything.
    pub fn tool_project_reset(&mut self) -> (r: String)
        requires
            old(self).wf(),
        ensures
            r@ == "Project reset"@,
            final(self).wf(),
            project::is_bare(final(self).board),
            final(self).board.outline is None,
            project::is_blank(final(self).schematic),
            final(self).palette@.len() == 0,
            reported(
                old(self).events@,
                seq![Event::ProjectChanged],
                final(self).events@,
                "project.reset"@,
            ),
            *final(self) == (Project {
                board: final(self).board,
                schematic: final(self).schematic,
                palette: final(self).palette,
                events: final(self).events,
                ..*old(self)
            }),
    {
        let ghost start = self.events@;
        self.reset();
        self.log(ActivityLevel::Info, "project.reset".to_owned());
        assert(self.events@.drop_last() =~= start + seq![Event::ProjectChanged]);
        "Project reset".to_owned()
    }

    /// Sets an outline of that size, with its corner in the origin.
    pub fn tool_board_set_outline(&mut self, w: Length, h: Length) -> (r: String)
        requires
            old(self).wf(),
        ensures
            final(self).wf(),
            r@ == "Board outline set to "@ + size_mm(w.0 as int, h.0 as int),
            final(self).board.outline matches Some(o) && o.min.x.0 == (if w.0 < 0 {
                w.0
            } else {
                0
            }) && o.min.y.0 == (if h.0 < 0 {
                h.0
            } else {
                0
            }) && o.max.x.0 == (if w.0 < 0 {
                0
            } else {
                w.0
            }) && o.max.y.0 == (if h.0 < 0 {
                0
            } else {
                h.0
            }),
            final(self).board.outline_corner_radius.0 == 0,
            reported(
                old(self).events@,
                seq![Event::OutlineChanged],
                final(self).events@,
                "board.set_outline: "@ + size_mm(w.0 as int, h.0 as int),
            ),
            *final(self) == (Project {
                board: Board {
                    outline: final(self).board.outline,
                    outline_corner_radius: final(self).board.outline_corner_radius,
                    ..old(self).board
                },
                events: final(self).events,
                ..*old(self)
            }),
    {
        let ghost start = self.events@;
        let outline = Rect::from_corners(
            Point { x: Length(0), y: Length(0) },
            Point { x: w, y: h },
        );
        self.set_outline(outline);
        let size = fixed_text(w.0, 1).concat(" × ").concat(fixed_text(h.0, 1).as_str()).concat(
            " mm",
        );
        self.log(ActivityLevel::Info, "board.set_outline: ".to_owned().concat(size.as_str()));
        assert(self.events@.drop_last() =~= start + seq![Event::OutlineChanged]);
        "Board outline set to ".to_owned().concat(size.as_str())
    }

    /// The number of footprints, in words, and the rectangle around them.
    pub fn tool_project_status(&self) -> (r: (String, Option<Rect>))
        requires
            self.board.footprints_in_range(),
        ensures
            r.0@ == "project "@ + self.name@ + ": "@ + text::dec(self.board.footprints@.len())
                + " footprint(s)"@,
            r.1 == self.board.content_upto(self.board.footprints@.len() as int),
    {
        let n: usize = self.board.footprints.len();
        (
            "project ".to_owned().concat(self.name.as_str()).concat(": ").concat(
                uint_text(n as u128).as_str(),
            ).concat(" footprint(s)"),
            self.board.content_bounds(),
        )
    }

    /// Adds a footprint to the board, under a new id.
    pub fn tool_placement_add(
        &mut self,
        reference: String,
        value: String,
        library: String,
        position: Point,
        rotation: Rotation,
        layer: CopperLayer,
        pads: Vec<Pad>,
    ) -> (r: (String, Id))
        requires
            old(self).wf(),
        ensures
            final(self).wf(),
            r.0@ == "Placed "@ + reference@ + " ("@ + ids::hyphenated(r.1.0 as nat) + ")"@,
            ({
                let fps = final(self).board.footprints@;
                &&& !old(self).board.has(r.1) ==> fps.len() == old(self).board.footprints@.len() + 1
                    && fps.drop_last() == old(self).board.footprints@ && is_added(
                    fps.last(),
                    r.1,
                    reference,
                    value,
                    library,
                    position,
                    rotation,
                    layer,
                    pads@,
                )
            }),
            reported(
                old(self).events@,
                seq![Event::FootprintAdded { id: r.1, reference }],
                final(self).events@,
                "placement.add: "@ + reference@ + " at ("@ + text::fixed(position.x.0 as int, 2)
                    + ", "@ + text::fixed(position.y.0 as int, 2) + ") mm"@,
            ),
            *final(self) == (Project {
                board: Board { footprints: final(self).board.footprints, ..old(self).board },
                events: final(self).events,
                ..*old(self)
            }),
    {
        let ghost start = self.events@;
        let ghost fps = self.board.footprints@;
        let id = Id::new();
        let line = "placement.add: ".to_owned().concat(reference.as_str()).concat(" at (").concat(
            fixed_text(position.x.0, 2).as_str(),
        ).concat(", ").concat(fixed_text(position.y.0, 2).as_str()).concat(") mm");
        let reply = "Placed ".to_owned().concat(reference.as_str()).concat(" (").concat(
            id.text().as_str(),
        ).concat(")");
        let fp = Footprint {
            id,
            reference,
            value,
            library,
            position,
            rotation,
            layer,
            pads,
            key: String::new(),
            description: String::new(),
            edge_mounted: false,
            silk: Vec::new(),
        };
        let ghost added = fp;
        let _id = self.add_footprint(fp);
        assert(!old(self).board.has(id) ==> self.board.footprints@.drop_last() =~= fps);
        self.log(ActivityLevel::Info, line);
        assert(self.events@.drop_last() =~= start + seq![
            Event::FootprintAdded { id, reference },
        ]);
        (reply, id)
    }

    /// Empties the palette.
    pub fn tool_palette_clear(&mut self) -> (r: String)
        ensures
            r@ == "Palette cleared"@,
            final(self).palette@.len() == 0,
            reported(
                old(self).events@,
                seq![Event::PaletteChanged { count: 0 }],
                final(self).events@,
                "palette.clear"@,
            ),
            *final(self) == (Project {
                palette: final(self).palette,
                events: final(self).events,
                ..*old(self)
            }),
    {
        let ghost start = self.events@;
        self.palette_clear();
        self.log(ActivityLevel::Info, "palette.clear".to_owned());
        assert(self.events@.drop_last() =~= start + seq![Event::PaletteChanged { count: 0 }]);
        "Palette cleared".to_owned()
    }

    /// Drops the routing of a net.
    pub fn tool_route_clear_net(&mut self, net: &str) -> (r: (String, usize))
        requires
            old(self).board.traces@.len() + old(self).board.vias@.len() <= usize::MAX,
        ensures
            final(self).board.traces@ == old(self).board.traces@.filter(project::traces_off(net@)),
            final(self).board.vias@ == old(self).board.vias@.filter(project::vias_off(net@)),
            r.1 == old(self).board.traces@.len() + old(self).board.vias@.len() - final(
                self).board.traces@.len() - final(self).board.vias@.len(),
            r.0@ == "Cleared "@ + text::dec(r.1 as nat) + " item(s) from net "@ + net@,
            reported(
                old(self).events@,
                if r.1 > 0 {
                    seq![project::routing_event(final(self).board)]
                } else {
                    Seq::empty()
                },
                final(self).events@,
                "route.clear_net: "@ + net@ + " ("@ + text::dec(r.1 as nat) + " item(s))"@,
            ),
            *final(self) == (Project {
                board: Board {
                    traces: final(self).board.traces,
                    vias: final(self).board.vias,
                    ..old(self).board
                },
                events: final(self).events,
                ..*old(self)
            }),
    {
        let ghost start = self.events@;
        let removed: usize = self.clear_net_routing(net);
        let n = uint_text(removed as u128);
        self.log(
            ActivityLevel::Info,
            "route.clear_net: ".to_owned().concat(net).concat(" (").concat(n.as_str()).concat(
                " item(s))",
            ),
        );
        assert(self.events@.drop_last() =~= start + if removed > 0 {
            seq![project::routing_event(self.board)]
        } else {
            Seq::empty()
        });
        (
            "Cleared ".to_owned().concat(n.as_str()).concat(" item(s) from net ").concat(net),
            removed,
        )
    }

    /// Removes the trace with that id.
    pub fn tool_route_delete_trace(&mut self, id: &str) -> (r: Result<(String, bool), ToolError>)
        ensures
            match ids::uuid_value(id@) {
                None => r matches Err(e) && e.code == INVALID_PARAMS && e.message@ == "invalid id "@
                    + id@ + ": "@ + ids::uuid_error(id@) && *final(self) == *old(self),
                Some(v) => r matches Ok((reply, removed)) && final(self).board.traces@ == old(
                    self).board.traces@.filter(project::traces_but(Id(v as u128))) && removed == (
                final(self).board.traces@.len() != old(self).board.traces@.len()) && reply@ == (
                if removed {
                    "Trace removed"@
                } else {
                    "Trace not found"@
                }) && final(self).events@ == (if removed {
                    old(self).events@.push(project::routing_event(final(self).board))
                } else {
                    old(self).events@
                }),
            },
            *final(self) == (Project {
                board: Board { traces: final(self).board.traces, ..old(self).board },
                events: final(self).events,
                ..*old(self)
            }),
    {
        let id = match parse_id(id) {
            Ok(v) => v,
            Err(e) => {
                return Err(e);
            },
        };
        let removed = self.delete_trace(id);
        let reply = if removed {
            "Trace removed"
        } else {
            "Trace not found"
        };
        Ok((reply.to_owned(), removed))
    }

    /// Removes the via with that id.
    pub fn tool_route_delete_via(&mut self, id: &str) -> (r: Result<(String, bool), ToolError>)
        ensures
            match ids::uuid_value(id@) {
                None => r matches Err(e) && e.code == INVALID_PARAMS && e.message@ == "invalid id "@
                    + id@ + ": "@ + ids::uuid_error(id@) && *final(self) == *old(self),
                Some(v) => r matches Ok((reply, removed)) && final(self).board.vias@ == old(
                    self).board.vias@.filter(project::vias_but(Id(v as u128))) && removed == (
                final(self).board.vias@.len() != old(self).board.vias@.len()) && reply@ == (
                if removed {
                    "Via removed"@
                } else {
                    "Via not found"@
                }) && final(self).events@ == (if removed {
                    old(self).events@.push(project::routing_event(final(self).board))
                } else {
                    old(self).events@
                }),
            },
            *final(self) == (Project {
                board: Board { vias: final(self).board.vias, ..old(self).board },
                events: final(self).events,
                ..*old(self)
            }),
    {
        let id = match parse_id(id) {
            Ok(v) => v,
            Err(e) => {
                return Err(e);
            },
        };
        let removed = self.delete_via(id);
        let reply = if removed {
            "Via removed"
        } else {
            "Via not found"
        };
        Ok((reply.to_owned(), removed))
    }

    /// Adds a trace, under a new id.
    pub fn tool_route_add_trace(
        &mut self,
        net: String,
        layer: CopperLayer,
        start: Point,
        end: Point,
        width: Length,
    ) -> (r: (String, Id))
        ensures
            final(self).board.traces@ == old(self).board.traces@.push(
                Trace { id: r.1, layer, start, end, width, net },
            ),
            r.0@ == "trace "@ + ids::hyphenated(r.1.0 as nat) + " on "@ + layer_name(layer) + " ("@
                + net@ + ")"@,
            final(self).events@ == old(self).events@.push(
                project::routing_event(final(self).board),
            ),
            *final(self) == (Project {
                board: Board { traces: final(self).board.traces, ..old(self).board },
                events: final(self).events,
                ..*old(self)
            }),
    {
        let id = Id::new();
        let reply = "trace ".to_owned().concat(id.text().as_str()).concat(" on ").concat(
            layer_label(layer).as_str(),
        ).concat(" (").concat(net.as_str()).concat(")");
        let _id = self.add_trace(Trace { id, layer, start, end, width, net });
        (reply, id)
    }

    /// Adds a via, under a new id.
    pub fn tool_route_add_via(
        &mut self,
        net: String,
        position: Point,
        drill: Length,
        diameter: Length,
    ) -> (r: (String, Id))
        ensures
            final(self).board.vias@ == old(self).board.vias@.push(
                Via { id: r.1, position, drill, diameter, net },
            ),
            r.0@ == "via "@ + ids::hyphenated(r.1.0 as nat) + " ("@ + net@ + ")"@,
            final(self).events@ == old(self).events@.push(
                project::routing_event(final(self).board),
            ),
            *final(self) == (Project {
                board: Board { vias: final(self).board.vias, ..old(self).board },
                events: final(self).events,
                ..*old(self)
            }),
    {
        let id = Id::new();
        let reply = "via ".to_owned().concat(id.text().as_str()).concat(" (").concat(
            net.as_str(),
        ).concat(")");
        let _id = self.add_via(Via { id, position, drill, diameter, net });
        (reply, id)
    }

    /// Drops the routing.
    pub fn tool_route_clear(&mut self) -> (r: String)
        ensures
            r@ == "Cleared all traces and vias"@,
            final(self).board.traces@.len() == 0,
            final(self).board.vias@.len() == 0,
            reported(
                old(self).events@,
                seq![Event::RoutingChanged { trace_count: 0, via_count: 0 }],
                final(self).events@,
                "route.clear"@,
            ),
            *final(self) == (Project {
                board: Board {
                    traces: final(self).board.traces,
                    vias: final(self).board.vias,
                    ..old(self).board
                },
                events: final(self).events,
                ..*old(self)
            }),
    {
        let ghost start = self.events@;
        self.clear_routing();
        self.log(ActivityLevel::Info, "route.clear".to_owned());
        assert(self.events@.drop_last() =~= start + seq![
            Event::RoutingChanged { trace_count: 0, via_count: 0 },
        ]);
        "Cleared all traces and vias".to_owned()
    }

    /// Declares a pour with the usual relief and no stitching.
    pub fn tool_pour_add(&mut self, net: String, layer: CopperLayer) -> (r: String)
        ensures
            r@ == "Pour added: net="@ + net@ + " layer="@ + layer_name(layer),
            final(self).board.pours@.len() > 0,
            final(self).board.pours@.last().net == net,
            final(self).board.pours@.last().layer == layer,
            final(self).board.pours@.last().thermal_relief == (ThermalRelief::Spokes4 {
                spoke_width: Length(400_000),
                gap: Length(400_000),
            }),
            final(self).board.pours@.last().stitching == StitchPolicy::Off,
            final(self).board.pours@.drop_last() == old(self).board.pours@.filter(
                board::other_pours(net@, layer),
            ),
            reported(
                old(self).events@,
                seq![Event::PoursChanged { count: final(self).board.pours@.len() as usize }],
                final(self).events@,
                "pour.add "@ + net@ + " on "@ + layer_name(layer),
            ),
            *final(self) == (Project {
                board: Board { pours: final(self).board.pours, ..old(self).board },
                events: final(self).events,
                ..*old(self)
            }),
    {
        let ghost start = self.events@;
        let ghost kept = self.board.pours@.filter(board::other_pours(net@, layer));
        let name = layer_label(layer);
        let line = "pour.add ".to_owned().concat(net.as_str()).concat(" on ").concat(
            name.as_str(),
        );
        let reply = "Pour added: net=".to_owned().concat(net.as_str()).concat(" layer=").concat(
            name.as_str(),
        );
        self.add_pour(
            Pour {
                net,
                layer,
                thermal_relief: ThermalRelief::default(),
                stitching: StitchPolicy::default(),
            },
        );
        assert(self.board.pours@.drop_last() =~= kept);
        let ghost count = self.board.pours@.len() as usize;
        self.log(ActivityLevel::Info, line);
        assert(self.events@.drop_last() =~= start + seq![Event::PoursChanged { count }]);
        reply
    }

    /// Removes a pour.
    pub fn tool_pour_remove(&mut self, net: &str, layer: CopperLayer) -> (r: (String, bool))
        ensures
            final(self).board.pours@ == old(self).board.pours@.filter(
                board::other_pours(net@, layer),
            ),
            r.1 == (final(self).board.pours@.len() < old(self).board.pours@.len()),
            r.0@ == (if r.1 {
                "Pour removed: net="@
            } else {
                "No pour for net="@
            }) + net@ + " layer="@ + layer_name(layer),
            final(self).events@ == if r.1 {
                old(self).events@.push(
                    Event::PoursChanged { count: final(self).board.pours@.len() as usize },
                )
            } else {
                old(self).events@
            },
            *final(self) == (Project {
                board: Board { pours: final(self).board.pours, ..old(self).board },
                events: final(self).events,
                ..*old(self)
            }),
    {
        let removed = self.remove_pour(net, layer);
        let head = if removed {
            "Pour removed: net="
        } else {
            "No pour for net="
        };
        (
            head.to_owned().concat(net).concat(" layer=").concat(layer_label(layer).as_str()),
            removed,
        )
    }

    /// Runs the design rules with those that were set.
    pub fn tool_drc_run(&mut self, input: DrcInput) -> (r: (String, DrcReport))
        requires
            old(self).board.in_range(),
            drc::keepouts_in_range(old(self).board),
            input.in_range(),
        ensures
            exists|o: DrcOptions| #[trigger]
                is_chosen(o, input) && r.1.found() == drc::findings_of(old(self).board, o),
            r.1.wf(),
            r.0@ == "DRC: "@ + counts(r.1.error_count as int, r.1.warning_count as int),
            project::logged(
                old(self).events@,
                final(self).events@,
                "drc.run: "@ + counts(r.1.error_count as int, r.1.warning_count as int),
            ),
            *final(self) == (Project { events: final(self).events, ..*old(self) }),
    {
        let ghost start = self.events@;
        let o = drc_options(input);
        let report = drc::run(&self.board, &o);
        let words = counts_text(report.error_count, report.warning_count);
        self.log(ActivityLevel::Info, "drc.run: ".to_owned().concat(words.as_str()));
        assert(self.events@.drop_last() =~= start);
        ("DRC: ".to_owned().concat(words.as_str()), report)
    }

    /// Clears the routing and lays these traces and vias one by one.
    fn lay_routing(&mut self, traces: Vec<Trace>, vias: Vec<Via>)
        ensures
            final(self).board.traces@ == traces@,
            final(self).board.vias@ == vias@,
            final(self).events@ == old(self).events@ + laying(traces@.len(), vias@.len()),
            *final(self) == (Project {
                board: Board {
                    traces: final(self).board.traces,
                    vias: final(self).board.vias,
                    ..old(self).board
                },
                events: final(self).events,
                ..*old(self)
            }),
    {
        let ghost start = *self;
        let ghost ts = traces@;
        let ghost vs = vias@;
        self.clear_routing();
        assert(self.events@ =~= start.events@ + laying(0, 0));
        assert(self.board.traces@ =~= ts.take(0));
        assert(self.board.vias@ =~= vs.take(0));
        let mut left = back_to_front(traces);
        while left.len() > 0
            invariant
                left@ == ts.skip(self.board.traces@.len() as int).reverse(),
                self.board.traces@.len() <= ts.len(),
                self.board.traces@ == ts.take(self.board.traces@.len() as int),
                self.board.vias@ == vs.take(0),
                self.events@ == start.events@ + laying(self.board.traces@.len(), 0),
                *self == (Project {
                    board: Board {
                        traces: self.board.traces,
                        vias: self.board.vias,
                        ..start.board
                    },
                    events: self.events,
                    ..start
                }),
            decreases left@.len(),
        {
            let ghost n = self.board.traces@.len() as int;
            let ghost was = left@;
            assert(was.last() == ts[n]);
            if let Some(t) = left.pop() {
                self.add_trace(t);
            }
            assert(self.board.traces@ =~= ts.take(n + 1));
            assert(left@ =~= ts.skip(n + 1).reverse());
            assert(self.events@ =~= start.events@ + laying((n + 1) as nat, 0));
        }
        assert(self.board.traces@ =~= ts);
        let mut left = back_to_front(vias);
        while left.len() > 0
            invariant
                left@ == vs.skip(self.board.vias@.len() as int).reverse(),
                self.board.vias@.len() <= vs.len(),
                self.board.vias@ == vs.take(self.board.vias@.len() as int),
                self.board.traces@ == ts,
                self.events@ == start.events@ + laying(ts.len(), self.board.vias@.len()),
                *self == (Project {
                    board: Board {
                        traces: self.board.traces,
                        vias: self.board.vias,
                        ..start.board
                    },
                    events: self.events,
                    ..start
                }),
            decreases left@.len(),
        {
            let ghost n = self.board.vias@.len() as int;
            let ghost was = left@;
            assert(was.last() == vs[n]);
            if let Some(v) = left.pop() {
                self.add_via(v);
            }
            assert(self.board.vias@ =~= vs.take(n + 1));
            assert(left@ =~= vs.skip(n + 1).reverse());
            assert(self.events@ =~= start.events@ + laying(ts.len(), (n + 1) as nat));
        }
        assert(self.board.vias@ =~= vs);
    }

    /// Puts what a router laid in place of all routing, runs the design
    /// rules, and says how it went.
    pub fn tool_route_run(&mut self, traces: Vec<Trace>, vias: Vec<Via>, report: &RouteReport) -> (r: (
        String,
        DrcReport,
    ))
        requires
            old(self).wf(),
            ({
                let b = Board { traces, vias, ..old(self).board };
                b.in_range() && drc::keepouts_in_range(b)
            }),
        ensures
            final(self).wf(),
            exists|o: DrcOptions| #[trigger]
                o.is_usual() && r.1.found() == drc::findings_of(final(self).board, o),
            r.1.wf(),
            r.0@ == route_reply(
                report.trace_count as nat,
                report.via_count as nat,
                text::views(report.failed@),
                r.1.error_count as int,
                r.1.warning_count as int,
            ),
            reported(
                old(self).events@,
                laying(traces@.len(), vias@.len()),
                final(self).events@,
                route_line(
                    report.trace_count as nat,
                    report.via_count as nat,
                    report.failed@.len(),
                    r.1.error_count as int,
                    r.1.warning_count as int,
                ),
            ),
            final(self).board.traces@ == traces@,
            final(self).board.vias@ == vias@,
            *final(self) == (Project {
                board: Board {
                    traces: final(self).board.traces,
                    vias: final(self).board.vias,
                    ..old(self).board
                },
                events: final(self).events,
                ..*old(self)
            }),
    {
        let ghost start = self.events@;
        let ghost more = laying(traces@.len(), vias@.len());
        let ghost laid = Board { traces, vias, ..self.board };
        self.lay_routing(traces, vias);
        assert forall|i: int| 0 <= i < self.board.traces@.len() implies (
        #[trigger] self.board.traces@[i]).in_range() by {
            assert(laid.traces@[i].in_range());
        }
        assert forall|i: int| 0 <= i < self.board.vias@.len() implies (
        #[trigger] self.board.vias@[i]).in_range() by {
            assert(laid.vias@[i].in_range());
        }
        assert(laid.footprints_in_range());
        assert(self.board.footprints == laid.footprints && self.board.pours == laid.pours
            && self.board.keepouts == laid.keepouts);
        assert(drc::keepouts_in_range(laid));
        let o = DrcOptions::default();
        let drc_report = drc::run(&self.board, &o);
        let t = uint_text(report.trace_count as u128);
        let v = uint_text(report.via_count as u128);
        let n: usize = report.failed.len();
        assert(text::views(report.failed@).len() == n);
        let lost = if n == 0 {
            let s = String::new();
            assert(s@ =~= Seq::empty());
            s
        } else {
            " (".to_owned().concat(uint_text(n as u128).as_str()).concat(" failed: ").concat(
                join(&report.failed, ", ").as_str(),
            ).concat(")")
        };
        let line = "route.run: ".to_owned().concat(t.as_str()).concat(" traces, ").concat(
            v.as_str(),
        ).concat(" vias, ").concat(uint_text(n as u128).as_str()).concat(
            " net(s) failed; DRC ",
        ).concat(uint_text(drc_report.error_count as u128).as_str()).concat("E ").concat(
            uint_text(drc_report.warning_count as u128).as_str(),
        ).concat("W");
        self.log(ActivityLevel::Info, line);
        assert(self.events@.drop_last() =~= start + more);
        let reply = "Routed: ".to_owned().concat(t.as_str()).concat(" traces, ").concat(
            v.as_str(),
        ).concat(" vias").concat(lost.as_str()).concat("; DRC: ").concat(
            counts_text(drc_report.error_count, drc_report.warning_count).as_str(),
        );
        (reply, drc_report)
    }

    /// Sums up a script or a batch whose calls had these outcomes.
    pub fn sum_up(&mut self, what: &str, outcomes: &Vec<bool>) -> (r: (String, Tally))
        ensures
            r.1.ok == good(outcomes@),
            r.1.ok + r.1.failed == outcomes@.len(),
            r.0@ == summary(what@, r.1.ok as int, r.1.failed as int),
            project::logged(old(self).events@, final(self).events@, r.0@),
            *final(self) == (Project { events: final(self).events, ..*old(self) }),
    {
        let ghost start = self.events@;
        let t = tally(outcomes);
        let words = summary_text(what, t);
        self.log(ActivityLevel::Info, words.clone());
        assert(self.events@.drop_last() =~= start);
        (words, t)
    }
}

/// The footprint has these properties, and none that are not set.
pub open spec fn is_added(
    fp: Footprint,
    id: Id,
    reference: String,
    value: String,
    library: String,
    position: Point,
    rotation: Rotation,
    layer: CopperLayer,
    pads: Seq<Pad>,
) -> bool {
    &&& fp.id == id
    &&& fp.reference == reference
    &&& fp.value == value
    &&& fp.library == library
    &&& fp.position == position
    &&& fp.rotation == rotation
    &&& fp.layer == layer
    &&& fp.pads@ == pads
    &&& fp.key@.len() == 0
    &&& fp.description@.len() == 0
    &&& !fp.edge_mounted
    &&& fp.silk@.len() == 0
}

} // verus!
