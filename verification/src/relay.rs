//! The decisions of the relay between standard input and output and a
//! server: it keeps its input open while the server is away, connects again,
//! and gives up when the server stays away for too long.

use vstd::prelude::*;

use crate::text;
use crate::text::uint_text;

verus! {

/// How long to wait for the server to come up at the start, in
/// milliseconds.
pub const INITIAL_CONNECT_MS: u64 = 60_000;

/// How long to wait for the server to come back, in milliseconds.
pub const RECONNECT_MS: u64 = 180_000;

/// The pause between two tries, in milliseconds.
pub const RECONNECT_BACKOFF_MS: u64 = 500;

/// How long to go on trying to connect.
pub fn retry_window_ms(first: bool) -> (r: u64)
    ensures
        r == (if first {
            60_000u64
        } else {
            180_000u64
        }),
{
    if first {
        INITIAL_CONNECT_MS
    } else {
        RECONNECT_MS
    }
}

/// What follows a try that failed.
#[derive(Debug, Clone, Copy, PartialEq, Eq, Structural)]
pub struct RetryStep {
    /// Whether to say that the server is waited for.
    pub announce: bool,
    /// How long to wait for the next try; none where there is to be none.
    pub wait_ms: Option<u64>,
}

/// What follows a try that failed, so long after the first.
pub fn retry_step(elapsed_ms: u64, window_ms: u64, announced: bool) -> (r: RetryStep)
    ensures
        r.announce == !announced,
        r.wait_ms == (if elapsed_ms >= window_ms {
            None
        } else {
            Some(500u64)
        }),
{
    let wait_ms = if elapsed_ms >= window_ms {
        None
    } else {
        Some(RECONNECT_BACKOFF_MS)
    };
    RetryStep { announce: !announced, wait_ms }
}

/// Where the relay stands.
#[derive(Debug, Clone, Copy, PartialEq, Eq, Structural)]
pub enum RelayStage {
    /// It was never connected.
    Starting,
    /// It is connected.
    Open,
    /// It was connected, and the server is gone.
    Away,
}

/// What can happen to the relay.
#[derive(Debug, Clone, Copy, PartialEq, Eq, Structural)]
pub enum RelayEvent {
    /// A try to connect succeeded.
    Opened,
    /// The last try failed.
    WindowUsedUp,
    /// Standard input ended or failed.
    InputClosed,
    /// A line came in.
    InputLine,
    /// The server sent a line.
    ServerLine,
    /// The server closed the connection, or reading or writing failed.
    ServerGone,
}

/// What the relay does next.
#[derive(Debug, Clone, Copy, PartialEq, Eq, Structural)]
pub enum RelayAction {
    /// Wait for a line from either side.
    Listen,
    /// Send the line to the server.
    SendUp,
    /// Write the line to standard output.
    SendDown,
    /// Try to connect.
    Connect,
    Exit,
}

/// Stage, action and notice that follow an event.
#[derive(Debug)]
pub struct RelayStep {
    pub stage: RelayStage,
    pub action: RelayAction,
    pub notice: Option<String>,
}

/// The stage that follows an event.
pub open spec fn stage_after(stage: RelayStage, event: RelayEvent) -> RelayStage {
    match (stage, event) {
        (_, RelayEvent::Opened) => RelayStage::Open,
        (RelayStage::Open, RelayEvent::ServerGone) => RelayStage::Away,
        _ => stage,
    }
}

/// What to do after an event.
pub open spec fn action_after(stage: RelayStage, event: RelayEvent) -> RelayAction {
    match (stage, event) {
        (_, RelayEvent::InputClosed) => RelayAction::Exit,
        (RelayStage::Open, RelayEvent::InputLine) => RelayAction::SendUp,
        (RelayStage::Open, RelayEvent::ServerLine) => RelayAction::SendDown,
        (RelayStage::Open, RelayEvent::ServerGone) => RelayAction::Connect,
        (RelayStage::Open, _) => RelayAction::Listen,
        (_, RelayEvent::Opened) => RelayAction::Listen,
        (_, RelayEvent::WindowUsedUp) => RelayAction::Exit,
        _ => RelayAction::Connect,
    }
}

/// What to say after an event.
pub open spec fn notice_after(stage: RelayStage, event: RelayEvent, addr: Seq<char>) -> Option<
    Seq<char>,
> {
    match (stage, event) {
        (RelayStage::Starting, RelayEvent::WindowUsedUp) => Some(
            "[pcb-bridge] timed out connecting to "@ + addr + " after "@ + text::dec(60) + "s"@,
        ),
        (RelayStage::Open, RelayEvent::ServerGone) => Some(
            "[pcb-bridge] connection to "@ + addr + " dropped, reconnecting…"@,
        ),
        (RelayStage::Away, RelayEvent::Opened) => Some("[pcb-bridge] reconnected to "@ + addr),
        (RelayStage::Away, RelayEvent::WindowUsedUp) => Some(
            "[pcb-bridge] reconnect window of "@ + text::dec(180) + "s exhausted, exiting"@,
        ),
        _ => None,
    }
}

/// What follows an event.
pub fn relay_step(stage: RelayStage, event: RelayEvent, addr: &str) -> (r: RelayStep)
    ensures
        r.stage == stage_after(stage, event),
        r.action == action_after(stage, event),
        match r.notice {
            Some(n) => notice_after(stage, event, addr@) == Some(n@),
            None => notice_after(stage, event, addr@) is None,
        },
{
    let next = match (stage, event) {
        (_, RelayEvent::Opened) => RelayStage::Open,
        (RelayStage::Open, RelayEvent::ServerGone) => RelayStage::Away,
        _ => stage,
    };
    let action = match (stage, event) {
        (_, RelayEvent::InputClosed) => RelayAction::Exit,
        (RelayStage::Open, RelayEvent::InputLine) => RelayAction::SendUp,
        (RelayStage::Open, RelayEvent::ServerLine) => RelayAction::SendDown,
        (RelayStage::Open, RelayEvent::ServerGone) => RelayAction::Connect,
        (RelayStage::Open, _) => RelayAction::Listen,
        (_, RelayEvent::Opened) => RelayAction::Listen,
        (_, RelayEvent::WindowUsedUp) => RelayAction::Exit,
        _ => RelayAction::Connect,
    };
    let notice = match (stage, event) {
        (RelayStage::Starting, RelayEvent::WindowUsedUp) => Some(
            "[pcb-bridge] timed out connecting to ".to_owned().concat(addr).concat(
                " after ",
            ).concat(uint_text(60).as_str()).concat("s"),
        ),
        (RelayStage::Open, RelayEvent::ServerGone) => Some(
            "[pcb-bridge] connection to ".to_owned().concat(addr).concat(
                " dropped, reconnecting…",
            ),
        ),
        (RelayStage::Away, RelayEvent::Opened) => Some(
            "[pcb-bridge] reconnected to ".to_owned().concat(addr),
        ),
        (RelayStage::Away, RelayEvent::WindowUsedUp) => Some(
            "[pcb-bridge] reconnect window of ".to_owned().concat(uint_text(180).as_str()).concat(
                "s exhausted, exiting",
            ),
        ),
        _ => None,
    };
    RelayStep { stage: next, action, notice }
}

/// The notice that the server is waited for.
pub fn waiting_notice(addr: &str) -> (r: String)
    ensures
        r@ == "[pcb-bridge] waiting for "@ + addr@ + "…"@,
{
    "[pcb-bridge] waiting for ".to_owned().concat(addr).concat("…")
}

/// The relay ends only where its input ends or the server stays away for the
/// whole window; a server that goes away is tried again.
pub proof fn relay_outlives_its_server(stage: RelayStage, event: RelayEvent)
    ensures
        action_after(stage, event) == RelayAction::Exit <==> event == RelayEvent::InputClosed || (
        event == RelayEvent::WindowUsedUp && stage != RelayStage::Open),
        stage == RelayStage::Open && event == RelayEvent::ServerGone ==> action_after(stage, event)
            == RelayAction::Connect && stage_after(stage, event) == RelayStage::Away,
{
}

} // verus!
