use mcp_rust_analyzer::daemon_state::DaemonState;

#[test]
fn register_and_find_daemon() {
    let mut state = DaemonState::new();
    state.register_daemon_at("/proj/a", 3001, Some(12), 1000);
    let found = state.find_daemon("/proj/a").expect("registered daemon found");
    assert_eq!(found.port, 3001);
    assert_eq!(found.pid, Some(12));
    assert_eq!(found.started_at, 1000);
    assert_eq!(found.project_path, "/proj/a");
    assert!(state.find_daemon("/proj/b").is_none());
}

#[test]
fn register_replaces_existing_entry() {
    let mut state = DaemonState::new();
    state.register_daemon_at("/proj", 3001, None, 1);
    state.register_daemon_at("/proj", 4001, Some(9), 2);
    assert_eq!(state.get_all_daemons().len(), 1);
    let found = state.find_daemon("/proj").unwrap();
    assert_eq!(found.port, 4001);
    assert_eq!(found.started_at, 2);
}

#[test]
fn register_with_clock_succeeds() {
    let mut state = DaemonState::new();
    state
        .register_daemon("/proj", 3005, None)
        .expect("the system clock reads after the epoch");
    assert_eq!(state.find_daemon("/proj").unwrap().port, 3005);
}

#[test]
fn unregister_returns_the_entry() {
    let mut state = DaemonState::new();
    state.register_daemon_at("/proj/a", 3001, None, 1);
    state.register_daemon_at("/proj/b", 3002, None, 2);
    let gone = state.unregister_daemon("/proj/a").expect("entry was present");
    assert_eq!(gone.port, 3001);
    assert!(state.find_daemon("/proj/a").is_none());
    assert_eq!(state.find_daemon("/proj/b").unwrap().port, 3002);
    assert!(state.unregister_daemon("/proj/a").is_none());
}

#[test]
fn cleanup_drops_only_dead_daemons() {
    let mut state = DaemonState::new();
    state.register_daemon_at("/a", 1, None, 1);
    state.register_daemon_at("/b", 2, None, 1);
    state.register_daemon_at("/c", 3, None, 1);
    let dead = vec!["/a".to_string(), "/c".to_string(), "/never".to_string()];
    state.cleanup_dead_daemons(&dead);
    assert!(state.find_daemon("/a").is_none());
    assert!(state.find_daemon("/c").is_none());
    assert_eq!(state.find_daemon("/b").unwrap().port, 2);
    assert_eq!(state.get_all_daemons().len(), 1);
}

#[test]
fn first_free_port_is_picked_in_order() {
    assert_eq!(DaemonState::find_available_port(&vec![]), Some(3000));
    assert_eq!(DaemonState::find_available_port(&vec![3000, 3001]), Some(3002));
    assert_eq!(DaemonState::find_available_port(&vec![3001]), Some(3000));
}

#[test]
fn no_port_available_when_range_is_full() {
    let occupied: Vec<u16> = (3000..=9999).collect();
    assert_eq!(DaemonState::find_available_port(&occupied), None);
}
