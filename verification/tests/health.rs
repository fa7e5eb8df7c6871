use opentunnel::config::TunnelConfig;
use opentunnel::tunnel::{
    check_tunnel_health, get_all_states, mark_reconnecting, new_manager, probe_message_string,
    start_tunnel, stop_tunnel, ProbeOutcome, TunnelStatus,
};

fn def(id: &str) -> TunnelConfig {
    let mut t = TunnelConfig::new(id.to_string(), "example.com".to_string(), "user".to_string());
    t.id = id.to_string();
    t
}

#[test]
fn scan_marks_exited_running_tunnel_error() {
    let mut m = new_manager();
    start_tunnel(&mut m, &def("a"), 1);
    let outcomes = vec![ProbeOutcome::Exited(Some(255))];
    let dead = check_tunnel_health(&mut m, &outcomes);
    assert_eq!(dead, vec!["a".to_string()]);
    let states = get_all_states(&m);
    assert_eq!(states[0].status, TunnelStatus::Error);
    assert_eq!(
        states[0].last_error.as_deref(),
        Some("Process exited with code: 255")
    );
}

#[test]
fn scan_keeps_alive_tunnel_untouched() {
    let mut m = new_manager();
    start_tunnel(&mut m, &def("a"), 1);
    let outcomes = vec![ProbeOutcome::StillRunning];
    let dead = check_tunnel_health(&mut m, &outcomes);
    assert!(dead.is_empty());
    let states = get_all_states(&m);
    assert_eq!(states[0].status, TunnelStatus::Running);
    assert!(states[0].last_error.is_none());
}

#[test]
fn scan_treats_probe_failure_as_death() {
    let mut m = new_manager();
    start_tunnel(&mut m, &def("a"), 1);
    let outcomes = vec![ProbeOutcome::ProbeError("no such process".to_string())];
    let dead = check_tunnel_health(&mut m, &outcomes);
    assert_eq!(dead, vec!["a".to_string()]);
    let states = get_all_states(&m);
    assert_eq!(states[0].status, TunnelStatus::Error);
    assert_eq!(
        states[0].last_error.as_deref(),
        Some("Health check error: no such process")
    );
}

#[test]
fn scan_never_reclassifies_non_running() {
    // a tunnel already Reconnecting (or otherwise not Running) is untouched
    // by a scan, even when its probe slot claims the process exited
    let mut m = new_manager();
    start_tunnel(&mut m, &def("a"), 1);
    mark_reconnecting(&mut m, &"a".to_string(), 2);
    let outcomes = vec![ProbeOutcome::Exited(Some(1))];
    let dead = check_tunnel_health(&mut m, &outcomes);
    assert!(dead.is_empty());
    let states = get_all_states(&m);
    assert_eq!(states[0].status, TunnelStatus::Reconnecting);
    assert_eq!(states[0].reconnect_count, 2);
    assert!(states[0].last_error.is_none());
}

#[test]
fn scan_handles_mixed_registry() {
    let mut m = new_manager();
    start_tunnel(&mut m, &def("a"), 1);
    start_tunnel(&mut m, &def("b"), 2);
    start_tunnel(&mut m, &def("c"), 3);
    let outcomes = vec![
        ProbeOutcome::Exited(None),
        ProbeOutcome::StillRunning,
        ProbeOutcome::Exited(Some(9)),
    ];
    let dead = check_tunnel_health(&mut m, &outcomes);
    assert_eq!(dead, vec!["a".to_string(), "c".to_string()]);
    let states = get_all_states(&m);
    assert_eq!(states[0].status, TunnelStatus::Error);
    assert_eq!(
        states[0].last_error.as_deref(),
        Some("Process exited with code: unknown")
    );
    assert_eq!(states[1].status, TunnelStatus::Running);
    assert_eq!(states[2].status, TunnelStatus::Error);
}

#[test]
fn probe_messages_render_exit_codes() {
    assert_eq!(
        probe_message_string(&ProbeOutcome::Exited(Some(-1))),
        "Process exited with code: -1"
    );
    assert_eq!(
        probe_message_string(&ProbeOutcome::Exited(Some(0))),
        "Process exited with code: 0"
    );
    assert_eq!(
        probe_message_string(&ProbeOutcome::Exited(None)),
        "Process exited with code: unknown"
    );
}

#[test]
fn mark_reconnecting_sets_status_and_count() {
    let mut m = new_manager();
    start_tunnel(&mut m, &def("a"), 1);
    mark_reconnecting(&mut m, &"a".to_string(), 4);
    let states = get_all_states(&m);
    assert_eq!(states[0].status, TunnelStatus::Reconnecting);
    assert_eq!(states[0].reconnect_count, 4);
    // unknown identifier: no-op
    mark_reconnecting(&mut m, &"ghost".to_string(), 1);
    assert_eq!(get_all_states(&m).len(), 1);
    // a stopped record later: untouched by scans
    let _ = stop_tunnel(&mut m, &"a".to_string());
    assert_eq!(get_all_states(&m).len(), 0);
}
