use opentunnel::config::{AppConfig, TunnelConfig};
use opentunnel::monitor::{
    clear_attempts, giveup_notification_body, new_monitor, plan_reconnect,
    reconnect_failed_notification_body, reconnected_notification_body, ReconnectPlan,
};
use opentunnel::tunnel::{
    check_tunnel_health, get_all_states, mark_reconnecting, new_manager, remove_tunnel,
    start_tunnel, ProbeOutcome, TunnelStatus,
};

fn cfg_with(tunnels: Vec<TunnelConfig>, base_delay: u64, max_attempts: u32) -> AppConfig {
    let mut cfg = AppConfig::default();
    cfg.tunnels = tunnels;
    cfg.settings.reconnect_delay_sec = base_delay;
    cfg.settings.max_reconnect_attempts = max_attempts;
    cfg
}

fn def(id: &str, auto_connect: bool, enabled: bool) -> TunnelConfig {
    let mut t = TunnelConfig::new(id.to_string(), "example.com".to_string(), "user".to_string());
    t.id = id.to_string();
    t.auto_connect = auto_connect;
    t.enabled = enabled;
    t
}

#[test]
fn unknown_definition_is_skipped() {
    let mut mon = new_monitor();
    let cfg = cfg_with(vec![], 5, 0);
    let plan = plan_reconnect(&mut mon, &cfg, &"ghost".to_string());
    assert_eq!(plan, ReconnectPlan::Skip);
    assert!(mon.reconnect_attempts.is_empty());
}

#[test]
fn disabled_or_manual_tunnel_is_skipped() {
    let mut mon = new_monitor();
    let cfg = cfg_with(vec![def("a", false, true), def("b", true, false)], 5, 0);
    assert_eq!(plan_reconnect(&mut mon, &cfg, &"a".to_string()), ReconnectPlan::Skip);
    assert_eq!(plan_reconnect(&mut mon, &cfg, &"b".to_string()), ReconnectPlan::Skip);
    // skipping records no attempt
    assert!(mon.reconnect_attempts.is_empty());
}

#[test]
fn eligible_tunnel_retries_with_growing_backoff() {
    let mut mon = new_monitor();
    let cfg = cfg_with(vec![def("a", true, true)], 5, 0);
    let id = "a".to_string();
    assert_eq!(
        plan_reconnect(&mut mon, &cfg, &id),
        ReconnectPlan::Retry { attempts: 1, delay_sec: 5 }
    );
    assert_eq!(
        plan_reconnect(&mut mon, &cfg, &id),
        ReconnectPlan::Retry { attempts: 2, delay_sec: 10 }
    );
    assert_eq!(
        plan_reconnect(&mut mon, &cfg, &id),
        ReconnectPlan::Retry { attempts: 3, delay_sec: 20 }
    );
}

#[test]
fn attempt_limit_boundary_gives_up_on_fourth_failure() {
    // with maxAttempts=3 the fourth consecutive failure must not relaunch
    let mut mon = new_monitor();
    let cfg = cfg_with(vec![def("a", true, true)], 5, 3);
    let id = "a".to_string();
    assert!(matches!(plan_reconnect(&mut mon, &cfg, &id), ReconnectPlan::Retry { attempts: 1, .. }));
    assert!(matches!(plan_reconnect(&mut mon, &cfg, &id), ReconnectPlan::Retry { attempts: 2, .. }));
    assert!(matches!(plan_reconnect(&mut mon, &cfg, &id), ReconnectPlan::Retry { attempts: 3, .. }));
    assert_eq!(plan_reconnect(&mut mon, &cfg, &id), ReconnectPlan::GiveUp { attempts: 4 });
}

#[test]
fn successful_relaunch_resets_backoff() {
    // once the counter is cleared, the next failure starts over at the
    // base delay
    let mut mon = new_monitor();
    let cfg = cfg_with(vec![def("a", true, true)], 5, 0);
    let id = "a".to_string();
    let _ = plan_reconnect(&mut mon, &cfg, &id);
    let _ = plan_reconnect(&mut mon, &cfg, &id);
    let _ = plan_reconnect(&mut mon, &cfg, &id);
    clear_attempts(&mut mon, &id);
    assert_eq!(
        plan_reconnect(&mut mon, &cfg, &id),
        ReconnectPlan::Retry { attempts: 1, delay_sec: 5 }
    );
}

#[test]
fn end_to_end_autoconnect_tunnel_recovers() {
    // tunnel T1: autoConnect, enabled, baseDelay 5, unlimited attempts.
    // Its process exits; the scan marks it Error; the monitor plans attempt
    // 1 with delay 5 and transitions it to Reconnecting; after the wait the
    // stale record is removed and the relaunch succeeds; the counter is
    // cleared, so the tunnel is back at a clean slate.
    let t1 = def("T1", true, true);
    let cfg = cfg_with(vec![t1.clone()], 5, 0);
    let mut m = new_manager();
    let mut mon = new_monitor();
    let id = "T1".to_string();

    start_tunnel(&mut m, &t1, 1);
    assert_eq!(get_all_states(&m)[0].status, TunnelStatus::Running);

    // the process dies
    let dead = check_tunnel_health(&mut m, &vec![ProbeOutcome::Exited(Some(1))]);
    assert_eq!(dead, vec![id.clone()]);
    assert_eq!(get_all_states(&m)[0].status, TunnelStatus::Error);

    // the monitor decides: attempt 1, delay 5
    let plan = plan_reconnect(&mut mon, &cfg, &id);
    assert_eq!(plan, ReconnectPlan::Retry { attempts: 1, delay_sec: 5 });

    mark_reconnecting(&mut m, &id, 1);
    let states = get_all_states(&m);
    assert_eq!(states[0].status, TunnelStatus::Reconnecting);
    assert_eq!(states[0].reconnect_count, 1);

    // after the wait: drop the stale record, relaunch, reset the counter
    let stale = remove_tunnel(&mut m, &id);
    assert!(stale.is_some());
    start_tunnel(&mut m, &t1, 2);
    clear_attempts(&mut mon, &id);

    let states = get_all_states(&m);
    assert_eq!(states.len(), 1);
    assert_eq!(states[0].status, TunnelStatus::Running);
    assert_eq!(states[0].reconnect_count, 0);
    assert!(mon.reconnect_attempts.is_empty());
}

#[test]
fn end_to_end_manual_tunnel_stays_error() {
    // tunnel T2: autoConnect off. Its process exits; the scan marks it
    // Error; the monitor skips it permanently, leaving its state alone.
    let t2 = def("T2", false, true);
    let cfg = cfg_with(vec![t2.clone()], 5, 0);
    let mut m = new_manager();
    let mut mon = new_monitor();
    let id = "T2".to_string();

    start_tunnel(&mut m, &t2, 1);
    let dead = check_tunnel_health(&mut m, &vec![ProbeOutcome::Exited(Some(1))]);
    assert_eq!(dead, vec![id.clone()]);
    assert_eq!(get_all_states(&m)[0].status, TunnelStatus::Error);

    let plan = plan_reconnect(&mut mon, &cfg, &id);
    assert_eq!(plan, ReconnectPlan::Skip);
    assert!(mon.reconnect_attempts.is_empty());

    // nothing rescans it: the record is not Running any more
    let dead = check_tunnel_health(&mut m, &vec![ProbeOutcome::Exited(Some(1))]);
    assert!(dead.is_empty());
    assert_eq!(get_all_states(&m)[0].status, TunnelStatus::Error);
}

#[test]
fn notification_bodies() {
    assert_eq!(
        giveup_notification_body(&"office".to_string(), 4),
        "Tunnel 'office' failed after 4 attempts"
    );
    assert_eq!(
        reconnected_notification_body(&"office".to_string()),
        "Tunnel 'office' reconnected"
    );
    assert_eq!(
        reconnect_failed_notification_body(&"office".to_string(), &"spawn failed".to_string()),
        "Tunnel 'office' reconnect failed: spawn failed"
    );
}
