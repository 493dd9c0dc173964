//! The relay between standard input and the server.

use pcb::relay::{
    relay_step, retry_step, retry_window_ms, waiting_notice, RelayAction, RelayEvent, RelayStage,
};

#[test]
fn tries_go_on_until_the_window_is_used_up() {
    assert_eq!(retry_window_ms(true), 60_000);
    assert_eq!(retry_window_ms(false), 180_000);
    let step = retry_step(0, 60_000, false);
    assert!(step.announce);
    assert_eq!(step.wait_ms, Some(500));
    let step = retry_step(59_999, 60_000, true);
    assert!(!step.announce);
    assert_eq!(step.wait_ms, Some(500));
    assert_eq!(retry_step(60_000, 60_000, true).wait_ms, None);
    assert_eq!(waiting_notice("host:1"), "[pcb-bridge] waiting for host:1…");
}

#[test]
fn the_relay_outlives_its_server() {
    let step = |stage, event| relay_step(stage, event, "host:1");
    let s = step(RelayStage::Starting, RelayEvent::Opened);
    assert_eq!((s.stage, s.action), (RelayStage::Open, RelayAction::Listen));
    assert_eq!(s.notice, None);
    assert_eq!(step(RelayStage::Open, RelayEvent::InputLine).action, RelayAction::SendUp);
    assert_eq!(step(RelayStage::Open, RelayEvent::ServerLine).action, RelayAction::SendDown);
    let s = step(RelayStage::Open, RelayEvent::ServerGone);
    assert_eq!((s.stage, s.action), (RelayStage::Away, RelayAction::Connect));
    assert_eq!(
        s.notice.as_deref(),
        Some("[pcb-bridge] connection to host:1 dropped, reconnecting…")
    );
    let s = step(RelayStage::Away, RelayEvent::Opened);
    assert_eq!((s.stage, s.action), (RelayStage::Open, RelayAction::Listen));
    assert_eq!(s.notice.as_deref(), Some("[pcb-bridge] reconnected to host:1"));
}

#[test]
fn the_relay_ends_with_its_input_or_its_window() {
    let step = |stage, event| relay_step(stage, event, "host:1");
    for stage in [RelayStage::Starting, RelayStage::Open, RelayStage::Away] {
        assert_eq!(step(stage, RelayEvent::InputClosed).action, RelayAction::Exit);
    }
    let s = step(RelayStage::Starting, RelayEvent::WindowUsedUp);
    assert_eq!(s.action, RelayAction::Exit);
    assert_eq!(
        s.notice.as_deref(),
        Some("[pcb-bridge] timed out connecting to host:1 after 60s")
    );
    let s = step(RelayStage::Away, RelayEvent::WindowUsedUp);
    assert_eq!(s.action, RelayAction::Exit);
    assert_eq!(
        s.notice.as_deref(),
        Some("[pcb-bridge] reconnect window of 180s exhausted, exiting")
    );
}
