//! Calls.

use rtpsip::session::{
    CallDirection, CallEvent, CallSession, CallState, CallTiming, SessionManager, StateValidator,
};

#[test]
fn test_event_call_id() {
    let event = CallEvent::Ringing {
        call_id: "test-123".to_string(),
    };
    assert_eq!(event.call_id(), "test-123");
}

#[test]
fn test_event_type() {
    let event = CallEvent::Answered {
        call_id: "test".to_string(),
    };
    assert_eq!(event.event_type(), "answered");
}

#[test]
fn test_state_changed_event() {
    let event = CallEvent::state_changed("call-1", CallState::Ringing, CallState::Answered);
    if let CallEvent::StateChanged {
        old_state,
        new_state,
        ..
    } = event
    {
        assert_eq!(old_state, "ringing");
        assert_eq!(new_state, "answered");
    } else {
        panic!("Wrong event type");
    }
}

#[test]
fn test_call_state_terminal() {
    assert!(!CallState::Active.is_terminal());
    assert!(CallState::Terminated.is_terminal());
    assert!(CallState::Failed.is_terminal());
}

#[test]
fn test_call_state_can_media() {
    assert!(CallState::Active.can_media());
    assert!(CallState::Answered.can_media());
    assert!(!CallState::Ringing.can_media());
    assert!(!CallState::Terminated.can_media());
}

#[test]
fn test_valid_transitions() {
    assert!(StateValidator::can_transition(
        CallState::Initializing,
        CallState::Calling
    ));
    assert!(StateValidator::can_transition(
        CallState::Calling,
        CallState::Ringing
    ));
    assert!(StateValidator::can_transition(
        CallState::Ringing,
        CallState::Answered
    ));
    assert!(StateValidator::can_transition(
        CallState::Active,
        CallState::Terminating
    ));
}

#[test]
fn test_invalid_transitions() {
    assert!(!StateValidator::can_transition(
        CallState::Terminated,
        CallState::Active
    ));
    assert!(!StateValidator::can_transition(
        CallState::Initializing,
        CallState::Active
    ));
}

#[test]
fn test_unified_call_state_has_all_variants() {
    // Verify all variants exist and are distinct
    let states = vec![
        CallState::Initializing,
        CallState::Trying,
        CallState::Calling,
        CallState::Ringing,
        CallState::EarlyMedia,
        CallState::Answered,
        CallState::Active,
        CallState::Hold,
        CallState::Terminating,
        CallState::Terminated,
        CallState::Ended,
        CallState::Failed,
    ];
    assert_eq!(states.len(), 12);
    // Verify all state names
    assert_eq!(CallState::Trying.as_str(), "trying");
    assert_eq!(CallState::EarlyMedia.as_str(), "early_media");
    assert_eq!(CallState::Hold.as_str(), "hold");
    assert_eq!(CallState::Ended.as_str(), "ended");
}

#[test]
fn test_terminal_states() {
    assert!(CallState::Terminated.is_terminal());
    assert!(CallState::Failed.is_terminal());
    assert!(CallState::Ended.is_terminal());
    assert!(!CallState::Active.is_terminal());
    assert!(!CallState::Hold.is_terminal());
}

#[test]
fn test_can_media_states() {
    assert!(CallState::Active.can_media());
    assert!(CallState::Answered.can_media());
    assert!(CallState::EarlyMedia.can_media());
    assert!(CallState::Hold.can_media());
    assert!(!CallState::Ringing.can_media());
    assert!(!CallState::Trying.can_media());
    assert!(!CallState::Terminated.can_media());
}

#[test]
fn test_p1_state3_missing_transitions() {
    // Ringing -> Terminated
    assert!(StateValidator::can_transition(
        CallState::Ringing,
        CallState::Terminated
    ));
    // Calling -> Terminated
    assert!(StateValidator::can_transition(
        CallState::Calling,
        CallState::Terminated
    ));
    // Terminating -> Failed
    assert!(StateValidator::can_transition(
        CallState::Terminating,
        CallState::Failed
    ));
    // Failed -> Terminated
    assert!(StateValidator::can_transition(
        CallState::Failed,
        CallState::Terminated
    ));
    // EarlyMedia transitions
    assert!(StateValidator::can_transition(
        CallState::EarlyMedia,
        CallState::Active
    ));
    assert!(StateValidator::can_transition(
        CallState::EarlyMedia,
        CallState::Ended
    ));
    // Hold transitions
    assert!(StateValidator::can_transition(
        CallState::Active,
        CallState::Hold
    ));
    assert!(StateValidator::can_transition(
        CallState::Hold,
        CallState::Active
    ));
    assert!(StateValidator::can_transition(
        CallState::Hold,
        CallState::Ended
    ));
}

#[test]
fn test_add_get_session() {
    let mut manager = SessionManager::new();

    let session = CallSession::new_outbound(
        "call-1",
        "+14155551234",
        "+14155550000",
        "test", 0);

    manager.add_session(session);

    let retrieved = manager.get_session("call-1");
    assert!(retrieved.is_some());

    let sess = retrieved.unwrap();
    assert_eq!(manager.lock(sess).unwrap().call_id, "call-1");
}

#[test]
fn test_remove_session() {
    let mut manager = SessionManager::new();

    let session = CallSession::new_outbound("call-1", "to", "from", "test", 0);
    manager.add_session(session);

    assert_eq!(manager.active_call_count(), 1);

    manager.remove_session("call-1");

    assert_eq!(manager.active_call_count(), 0);
    assert!(manager.get_session("call-1").is_none());
}

#[test]
fn test_active_calls() {
    let mut manager = SessionManager::new();

    manager.add_session(CallSession::new_outbound("call-1", "to", "from", "test", 0));
    manager.add_session(CallSession::new_outbound("call-2", "to", "from", "test", 0));

    let active = manager.active_calls();
    assert_eq!(active.len(), 2);
    assert!(active.contains(&"call-1".to_string()));
    assert!(active.contains(&"call-2".to_string()));
}

#[test]
fn test_state_update() {
    let mut manager = SessionManager::new();

    let session = CallSession::new_outbound("call-1", "to", "from", "test", 0);
    manager.add_session(session);

    manager.update_state("call-1", CallState::Ringing, 5);

    let sess = manager.get_session("call-1").unwrap();
    assert_eq!(manager.lock(sess).unwrap().state, CallState::Ringing);
}

#[test]
fn test_timing() {
    let mut timing = CallTiming::new(0);
    timing.answered_at = Some(10_000_000);
    timing.ended_at = Some(20_000_000);

    assert!(timing.setup_time_ms().unwrap() >= 10);
    assert!(timing.duration_ms().unwrap() >= 10);
}

#[test]
fn times_are_exact() {
    let mut timing = CallTiming::new(1_000_000_000);
    assert!(timing.setup_time_ms().is_none());
    timing.ringing_at = Some(1_250_000_000);
    timing.answered_at = Some(3_750_000_000);
    timing.ended_at = Some(64_000_000_000);
    assert_eq!(timing.setup_time_ms(), Some(2750));
    assert_eq!(timing.ring_time_ms(), Some(2500));
    assert_eq!(timing.duration_ms(), Some(60_250));
}

#[test]
fn a_change_of_state_is_told_and_dated() {
    let mut manager = SessionManager::new();
    manager.add_session(CallSession::new_inbound("call-9", "to", "from", "test", 7));
    let change = manager.update_state("call-9", CallState::Answered, 50).unwrap();
    assert_eq!(change.event.event_type(), "state_changed");
    assert_eq!(change.event.call_id(), "call-9");
    let sess = manager.session(manager.get_session("call-9").unwrap()).unwrap();
    assert_eq!(sess.timing.answered_at, Some(50));
    assert!(sess.direction == CallDirection::Inbound);
    assert!(manager.update_state("nobody", CallState::Answered, 50).is_none());
}

#[test]
fn a_change_through_a_share_shows_everywhere() {
    let mut manager = SessionManager::new();
    manager.add_session(CallSession::new_outbound("call-1", "to", "from", "test", 0));
    manager.add_session(CallSession::new_outbound("call-2", "to", "from", "test", 0));
    let one = manager.get_session("call-1").unwrap();
    let same = manager.get_session("call-1").unwrap();
    assert_eq!(one, same);

    manager.lock(one).unwrap().local_sdp = Some("v=0".to_string());
    assert_eq!(manager.session(same).unwrap().local_sdp, Some("v=0".to_string()));
    let other = manager.get_session("call-2").unwrap();
    assert_eq!(manager.session(other).unwrap().local_sdp, None);

    manager.update_state("call-1", CallState::Ringing, 5);
    assert_eq!(manager.session(one).unwrap().state, CallState::Ringing);
    assert_eq!(manager.session(one).unwrap().timing.ringing_at, Some(5));
}

#[test]
fn a_replaced_call_lives_on_for_its_shares() {
    let mut manager = SessionManager::new();
    assert!(manager.can_add());
    manager.add_session(CallSession::new_outbound("call-1", "first", "from", "test", 0));
    let first = manager.get_session("call-1").unwrap();
    manager.add_session(CallSession::new_outbound("call-1", "second", "from", "test", 0));
    assert_eq!(manager.active_call_count(), 1);
    let second = manager.get_session("call-1").unwrap();
    assert_ne!(first, second);
    assert_eq!(manager.session(first).unwrap().remote_party, "first");
    assert_eq!(manager.session(second).unwrap().remote_party, "second");

    // Only what is not in progress is released.
    manager.release(first);
    manager.release(second);
    assert!(manager.session(first).is_none());
    assert!(manager.lock(first).is_none());
    assert_eq!(manager.session(second).unwrap().remote_party, "second");
}

#[test]
fn a_removed_call_is_handed_out_once() {
    let mut manager = SessionManager::new();
    manager.add_session(CallSession::new_outbound("call-1", "to", "from", "test", 0));
    let share = manager.get_session("call-1").unwrap();
    let removed = manager.remove_session("call-1").unwrap();
    assert_eq!(share, removed);
    assert!(manager.remove_session("call-1").is_none());

    manager.lock(removed).unwrap().set_state(CallState::Ended, 9);
    assert_eq!(manager.session(share).unwrap().timing.ended_at, Some(9));
    manager.release(removed);
    assert!(manager.session(share).is_none());
}

#[test]
fn every_state_can_still_end() {
    for s in [CallState::Calling, CallState::Ringing, CallState::Active, CallState::Hold] {
        assert!(
            StateValidator::can_transition(s, CallState::Failed)
                || StateValidator::can_transition(s, CallState::Terminated)
                || StateValidator::can_transition(s, CallState::Ended)
                || StateValidator::can_transition(s, CallState::Terminating)
        );
    }
}
