//! What happened to a project.

use vstd::prelude::*;

use crate::board::Id;
use crate::geometry::Point;

verus! {

/// Anything observable that changes the project.
#[derive(Debug)]
pub enum Event {
    ProjectChanged,
    FootprintAdded { id: Id, reference: String },
    FootprintMoved { id: Id, position: Point },
    FootprintRemoved { id: Id },
    OutlineChanged,
    SymbolAdded { id: Id, reference: String },
    NetChanged { name: String, connection_count: usize },
    RoutingChanged { trace_count: usize, via_count: usize },
    /// One frame of an automatic placement.
    PlacementProgress { iteration: u32 },
    PaletteChanged { count: usize },
    LibraryChanged { count: usize },
    PendingLibraryChanged { count: usize },
    PoursChanged { count: usize },
    SilkChanged { line_count: usize, text_count: usize },
    KeepoutsChanged { count: usize },
    /// A line for the activity panel.
    Activity { level: ActivityLevel, message: String },
}

#[derive(Debug, Clone, Copy, PartialEq, Eq, Structural)]
pub enum ActivityLevel {
    Info,
    Warn,
    Error,
}

impl Clone for Event {
    fn clone(&self) -> (r: Self)
        ensures
            r == *self,
    {
        match self {
            Event::ProjectChanged => Event::ProjectChanged,
            Event::FootprintAdded { id, reference } => Event::FootprintAdded {
                id: *id,
                reference: reference.clone(),
            },
            Event::FootprintMoved { id, position } => Event::FootprintMoved {
                id: *id,
                position: *position,
            },
            Event::FootprintRemoved { id } => Event::FootprintRemoved { id: *id },
            Event::OutlineChanged => Event::OutlineChanged,
            Event::SymbolAdded { id, reference } => Event::SymbolAdded {
                id: *id,
                reference: reference.clone(),
            },
            Event::NetChanged { name, connection_count } => Event::NetChanged {
                name: name.clone(),
                connection_count: *connection_count,
            },
            Event::RoutingChanged { trace_count, via_count } => Event::RoutingChanged {
                trace_count: *trace_count,
                via_count: *via_count,
            },
            Event::PlacementProgress { iteration } => Event::PlacementProgress {
                iteration: *iteration,
            },
            Event::PaletteChanged { count } => Event::PaletteChanged { count: *count },
            Event::LibraryChanged { count } => Event::LibraryChanged { count: *count },
            Event::PendingLibraryChanged { count } => Event::PendingLibraryChanged {
                count: *count,
            },
            Event::PoursChanged { count } => Event::PoursChanged { count: *count },
            Event::SilkChanged { line_count, text_count } => Event::SilkChanged {
                line_count: *line_count,
                text_count: *text_count,
            },
            Event::KeepoutsChanged { count } => Event::KeepoutsChanged { count: *count },
            Event::Activity { level, message } => Event::Activity {
                level: *level,
                message: message.clone(),
            },
        }
    }
}

} // verus!
