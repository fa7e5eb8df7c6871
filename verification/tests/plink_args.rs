use opentunnel::config::{AuthMethod, TunnelConfig, TunnelType};
use opentunnel::strutil::{i32_to_string, parse_u16, u64_to_string};
use opentunnel::tunnel::build_plink_args;

fn base_def() -> TunnelConfig {
    let mut t = TunnelConfig::new("n".to_string(), "host.example".to_string(), "alice".to_string());
    t.id = "t".to_string();
    t.local_port = 8080;
    t.remote_host = "127.0.0.1".to_string();
    t.remote_port = 80;
    t
}

#[test]
fn local_forwarding_default_port_no_key() {
    let t = base_def();
    let (cmd, args) = build_plink_args(&t, "plink.exe");
    assert_eq!(cmd, "plink.exe");
    assert_eq!(
        args,
        vec!["-N", "-batch", "-ssh", "-L", "8080:127.0.0.1:80", "alice@host.example"]
    );
}

#[test]
fn nondefault_port_adds_port_flag() {
    let mut t = base_def();
    t.port = 2222;
    let (_, args) = build_plink_args(&t, "plink");
    assert_eq!(
        args,
        vec!["-N", "-batch", "-ssh", "-P", "2222", "-L", "8080:127.0.0.1:80", "alice@host.example"]
    );
}

#[test]
fn key_auth_names_the_key_file() {
    let mut t = base_def();
    t.auth_method = AuthMethod::Key;
    t.key_path = Some("C:/keys/id.ppk".to_string());
    let (_, args) = build_plink_args(&t, "plink");
    assert_eq!(
        args,
        vec![
            "-N",
            "-batch",
            "-ssh",
            "-i",
            "C:/keys/id.ppk",
            "-L",
            "8080:127.0.0.1:80",
            "alice@host.example"
        ]
    );
}

#[test]
fn password_auth_adds_nothing_even_with_key_path() {
    let mut t = base_def();
    t.auth_method = AuthMethod::Password;
    t.key_path = Some("ignored.ppk".to_string());
    let (_, args) = build_plink_args(&t, "plink");
    assert_eq!(
        args,
        vec!["-N", "-batch", "-ssh", "-L", "8080:127.0.0.1:80", "alice@host.example"]
    );
}

#[test]
fn remote_forwarding_swaps_ports() {
    let mut t = base_def();
    t.tunnel_type = TunnelType::Remote;
    let (_, args) = build_plink_args(&t, "plink");
    assert_eq!(
        args,
        vec!["-N", "-batch", "-ssh", "-R", "80:127.0.0.1:8080", "alice@host.example"]
    );
}

#[test]
fn dynamic_forwarding_takes_local_port_alone() {
    let mut t = base_def();
    t.tunnel_type = TunnelType::Dynamic;
    t.local_port = 1080;
    let (_, args) = build_plink_args(&t, "plink");
    assert_eq!(args, vec!["-N", "-batch", "-ssh", "-D", "1080", "alice@host.example"]);
}

#[test]
fn decimal_rendering() {
    assert_eq!(u64_to_string(0), "0");
    assert_eq!(u64_to_string(7), "7");
    assert_eq!(u64_to_string(65535), "65535");
    assert_eq!(u64_to_string(18446744073709551615), "18446744073709551615");
    assert_eq!(i32_to_string(-1), "-1");
    assert_eq!(i32_to_string(-2147483648), "-2147483648");
    assert_eq!(i32_to_string(42), "42");
}

#[test]
fn u16_parsing() {
    let cs: Vec<char> = "8080".chars().collect();
    assert_eq!(parse_u16(&cs, 0, 4), Some(8080));
    let cs: Vec<char> = "65535".chars().collect();
    assert_eq!(parse_u16(&cs, 0, 5), Some(65535));
    let cs: Vec<char> = "65536".chars().collect();
    assert_eq!(parse_u16(&cs, 0, 5), None);
    let cs: Vec<char> = "00042".chars().collect();
    assert_eq!(parse_u16(&cs, 0, 5), Some(42));
    let cs: Vec<char> = "12a".chars().collect();
    assert_eq!(parse_u16(&cs, 0, 3), None);
    let cs: Vec<char> = "".chars().collect();
    assert_eq!(parse_u16(&cs, 0, 0), None);
}
