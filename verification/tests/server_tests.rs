use rustmux::server::{
    poll_timeout, read_step, server_step, tick_actions, PollEvent, ReadOutcome, ReadStep, ServerAction,
    ServerEvent, ServerState, TickAction, IDLE_POLL_MS, MAX_PTY_READS_PER_TICK,
};

fn event(readable: bool, hangup: bool, error: bool) -> PollEvent {
    PollEvent { readable, hangup, error }
}

#[test]
fn poll_timeout_follows_the_earliest_deadline() {
    assert_eq!(poll_timeout(&[], 50), IDLE_POLL_MS);
    assert_eq!(poll_timeout(&[None, None], 50), 100);
    assert_eq!(poll_timeout(&[Some(80), None, Some(60)], 50), 10);
    assert_eq!(poll_timeout(&[Some(51)], 50), 1);
    assert_eq!(poll_timeout(&[Some(50)], 50), 0);
    assert_eq!(poll_timeout(&[Some(10), Some(500)], 50), 0);
    assert_eq!(poll_timeout(&[Some(5_000)], 50), 100);
    assert_eq!(poll_timeout(&[Some(150)], 50), 100);
    assert_eq!(poll_timeout(&[Some(149)], 50), 99);
}

#[test]
fn ticks_service_panes_then_children_then_client_then_listener() {
    let panes = [event(true, false, false), event(false, false, true), event(false, true, false)];
    assert_eq!(
        tick_actions(true, Some(event(true, true, false)), &panes),
        vec![
            TickAction::ReadPane(0),
            TickAction::ReadPane(2),
            TickAction::ReapChildren,
            TickAction::ReadClient,
            TickAction::DetachClient,
            TickAction::Accept,
        ]
    );
    assert_eq!(tick_actions(false, None, &[]), vec![TickAction::ReapChildren]);
    assert_eq!(
        tick_actions(false, Some(event(false, false, true)), &[event(false, false, false)]),
        vec![TickAction::ReapChildren, TickAction::DetachClient]
    );
}

#[test]
fn a_pane_is_read_at_most_a_fixed_number_of_times_per_tick() {
    assert_eq!(MAX_PTY_READS_PER_TICK, 32);
    assert_eq!(read_step(1, ReadOutcome::Data(10)), ReadStep::Process { again: true });
    assert_eq!(read_step(31, ReadOutcome::Data(10)), ReadStep::Process { again: true });
    assert_eq!(read_step(32, ReadOutcome::Data(10)), ReadStep::Process { again: false });
    assert_eq!(read_step(3, ReadOutcome::Data(0)), ReadStep::Stop);
    assert_eq!(read_step(3, ReadOutcome::Closed), ReadStep::Stop);
    assert_eq!(read_step(3, ReadOutcome::WouldBlock), ReadStep::Stop);
    assert_eq!(read_step(3, ReadOutcome::Failed), ReadStep::Fail);
}

#[test]
fn client_failures_detach_and_requests_stop() {
    let mut state = ServerState { client_attached: true, running: true, windows: 2 };
    assert_eq!(server_step(&mut state, ServerEvent::ClientMessages(Some(true))), vec![]);
    assert_eq!(server_step(&mut state, ServerEvent::ClientMessages(None)), vec![ServerAction::Detach]);
    assert!(!state.client_attached && state.running);
    assert_eq!(server_step(&mut state, ServerEvent::ClientHangup), vec![]);
    assert_eq!(server_step(&mut state, ServerEvent::Accepted(None)), vec![]);
    assert_eq!(server_step(&mut state, ServerEvent::ClientAttached), vec![]);
    assert!(state.client_attached);
    assert_eq!(server_step(&mut state, ServerEvent::InputHandled(false)), vec![ServerAction::Detach]);
    assert_eq!(server_step(&mut state, ServerEvent::WindowsLeft(1)), vec![]);
    assert_eq!(state.windows, 1);
    assert_eq!(server_step(&mut state, ServerEvent::Accepted(Some(false))), vec![ServerAction::Stop]);
    assert!(!state.running);
    assert_eq!(server_step(&mut state, ServerEvent::ClientHangup), vec![]);
    let mut last = ServerState { client_attached: false, running: true, windows: 1 };
    assert_eq!(server_step(&mut last, ServerEvent::WindowsLeft(0)), vec![ServerAction::Stop]);
    assert_eq!(last, ServerState { client_attached: false, running: false, windows: 0 });
}
