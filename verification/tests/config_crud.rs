use opentunnel::config::{
    add_tunnel, config_path, default_plink_path, default_reconnect_delay, default_theme,
    default_true, delete_tunnel, enabled_tunnels, autoconnect_tunnels, find_tunnel, update_tunnel,
    AppConfig, AuthMethod, Settings, TunnelConfig, TunnelType,
};

fn def(id: &str) -> TunnelConfig {
    let mut t = TunnelConfig::new(id.to_string(), "example.com".to_string(), "user".to_string());
    t.id = id.to_string();
    t
}

#[test]
fn defaults() {
    assert!(default_true());
    assert_eq!(default_plink_path(), "plink.exe");
    assert_eq!(default_reconnect_delay(), 5);
    assert_eq!(default_theme(), "dark");
    let s = Settings::default();
    assert_eq!(s.plink_path, "plink.exe");
    assert!(!s.start_with_windows);
    assert!(s.start_minimized);
    assert_eq!(s.reconnect_delay_sec, 5);
    assert_eq!(s.max_reconnect_attempts, 0);
    assert_eq!(s.theme, "dark");
    assert!(s.notify_on_disconnect);
    assert!(s.notify_on_reconnect);
    let c = AppConfig::default();
    assert!(c.tunnels.is_empty());
}

#[test]
fn new_definition_gets_fresh_identifier() {
    let t = TunnelConfig::new("n".to_string(), "h".to_string(), "u".to_string());
    assert_eq!(t.id.chars().count(), 36);
    assert_eq!(t.port, 22);
    assert_eq!(t.auth_method, AuthMethod::Key);
    assert!(t.key_path.is_none());
    assert_eq!(t.tunnel_type, TunnelType::Local);
    assert_eq!(t.remote_host, "127.0.0.1");
    assert!(!t.auto_connect);
    assert!(t.enabled);
}

#[test]
fn add_assigns_id_only_when_empty() {
    let mut cfg = AppConfig::default();
    let mut t = def("");
    t.id = String::new();
    let stored = add_tunnel(&mut cfg, t);
    assert_eq!(stored.id.chars().count(), 36);
    assert_eq!(cfg.tunnels.len(), 1);
    assert_eq!(cfg.tunnels[0].id, stored.id);

    let t2 = def("keep-me");
    let stored2 = add_tunnel(&mut cfg, t2);
    assert_eq!(stored2.id, "keep-me");
    assert_eq!(cfg.tunnels.len(), 2);
}

#[test]
fn update_replaces_or_reports_missing() {
    let mut cfg = AppConfig::default();
    add_tunnel(&mut cfg, def("a"));
    let mut changed = def("a");
    changed.host = "other.example".to_string();
    assert!(update_tunnel(&mut cfg, changed).is_ok());
    assert_eq!(cfg.tunnels[0].host, "other.example");

    let err = update_tunnel(&mut cfg, def("ghost"));
    assert_eq!(err.unwrap_err(), "Tunnel not found");
    assert_eq!(cfg.tunnels.len(), 1);
}

#[test]
fn delete_removes_matching_definitions() {
    let mut cfg = AppConfig::default();
    add_tunnel(&mut cfg, def("a"));
    add_tunnel(&mut cfg, def("b"));
    add_tunnel(&mut cfg, def("c"));
    delete_tunnel(&mut cfg, &"b".to_string());
    let ids: Vec<&str> = cfg.tunnels.iter().map(|t| t.id.as_str()).collect();
    assert_eq!(ids, vec!["a", "c"]);
    delete_tunnel(&mut cfg, &"ghost".to_string());
    assert_eq!(cfg.tunnels.len(), 2);
}

#[test]
fn find_returns_first_match() {
    let mut cfg = AppConfig::default();
    add_tunnel(&mut cfg, def("a"));
    add_tunnel(&mut cfg, def("b"));
    assert_eq!(find_tunnel(&cfg.tunnels, &"b".to_string()).unwrap().id, "b");
    assert!(find_tunnel(&cfg.tunnels, &"ghost".to_string()).is_none());
}

#[test]
fn filters_pick_enabled_and_autoconnect() {
    let mut cfg = AppConfig::default();
    let mut a = def("a");
    a.enabled = true;
    a.auto_connect = true;
    let mut b = def("b");
    b.enabled = false;
    b.auto_connect = true;
    let mut c = def("c");
    c.enabled = true;
    c.auto_connect = false;
    add_tunnel(&mut cfg, a);
    add_tunnel(&mut cfg, b);
    add_tunnel(&mut cfg, c);
    let en: Vec<String> = enabled_tunnels(&cfg).into_iter().map(|t| t.id).collect();
    assert_eq!(en, vec!["a".to_string(), "c".to_string()]);
    let auto: Vec<String> = autoconnect_tunnels(&cfg).into_iter().map(|t| t.id).collect();
    assert_eq!(auto, vec!["a".to_string()]);
}

#[test]
fn config_path_ends_with_store_file() {
    let p = config_path();
    assert!(p.ends_with("/.opentunnel/config.json"));
}
