use service_api::lock::LocksController;

#[test]
fn initial_state_unlocked() {
    let ctl = LocksController::new();
    let state = ctl.get_lock_state();
    assert!(!state.write);
    assert!(state.error_message.is_none());
}

#[test]
fn set_and_get_round_trip() {
    // set lock {true, "maintenance"} -> get lock returns {true, "maintenance"}
    // -> set lock {false, None} -> get lock returns {false, None}.
    let mut ctl = LocksController::new();
    ctl.set_lock_state(true, Some("maintenance".to_string()));
    let state = ctl.get_lock_state();
    assert!(state.write);
    assert_eq!(state.error_message, Some("maintenance".to_string()));
    ctl.set_lock_state(false, None);
    let state = ctl.get_lock_state();
    assert!(!state.write);
    assert_eq!(state.error_message, None);
}

#[test]
fn set_reports_previous_state() {
    let mut ctl = LocksController::new();
    let prev = ctl.set_lock_state(true, Some("first".to_string()));
    assert!(!prev.write);
    assert_eq!(prev.error_message, None);
    let prev = ctl.set_lock_state(true, Some("second".to_string()));
    assert!(prev.write);
    assert_eq!(prev.error_message, Some("first".to_string()));
    let prev = ctl.set_lock_state(false, None);
    assert!(prev.write);
    assert_eq!(prev.error_message, Some("second".to_string()));
}

#[test]
fn last_write_wins() {
    let mut ctl = LocksController::new();
    ctl.set_lock_state(true, Some("a".to_string()));
    ctl.set_lock_state(false, Some("b".to_string()));
    ctl.set_lock_state(true, Some("c".to_string()));
    let state = ctl.get_lock_state();
    assert!(state.write);
    assert_eq!(state.error_message, Some("c".to_string()));
}
