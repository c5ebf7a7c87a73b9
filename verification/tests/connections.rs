use picana::picana_core::connections::{
    finish_code, kill_outcome, listen_action, KillOutcome, poll_action, ListenAction, Listener, PollAction, PollEvent, Received,
};

#[test]
fn poll_actions() {
    for listener in [Listener::DartPort, Listener::Channel] {
        for paused in [false, true] {
            assert_eq!(poll_action(listener, paused, PollEvent::Wake), PollAction::Exit);
            assert_eq!(poll_action(listener, paused, PollEvent::FrameRead), PollAction::Deliver);
            assert_eq!(poll_action(listener, paused, PollEvent::ReadFailed), PollAction::EndBatch);
        }
        assert_eq!(poll_action(listener, true, PollEvent::TogglePause), PollAction::Unpause);
        assert_eq!(poll_action(listener, false, PollEvent::TogglePause), PollAction::Pause);
    }
    assert_eq!(poll_action(Listener::DartPort, false, PollEvent::WouldBlock), PollAction::ReportIdle);
    assert_eq!(poll_action(Listener::Channel, false, PollEvent::WouldBlock), PollAction::EndBatch);
}

#[test]
fn listen_actions() {
    assert_eq!(listen_action(Received::Frame), ListenAction::Deliver);
    assert_eq!(listen_action(Received::Failed), ListenAction::Continue);
    assert_eq!(listen_action(Received::Stop), ListenAction::Return(0));
    assert_eq!(listen_action(Received::Unexpected), ListenAction::Return(0));
}

#[test]
fn finish_codes() {
    assert_eq!(finish_code(true, true), 0);
    assert_eq!(finish_code(true, false), -1);
    assert_eq!(finish_code(false, false), -99);
    assert_eq!(finish_code(false, true), -99);
}

#[test]
fn kill_outcomes() {
    assert_eq!(kill_outcome(true, true), KillOutcome::Removed);
    assert_eq!(kill_outcome(true, false), KillOutcome::WakeFailed);
    assert_eq!(kill_outcome(false, true), KillOutcome::NotListening);
    assert_eq!(kill_outcome(false, false), KillOutcome::NotListening);
}
