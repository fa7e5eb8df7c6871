use vstd::prelude::*;
use vstd::string::*;
use crate::ext::{fresh_id, home_dir_string};

verus! {

/// How the SSH client authenticates against the remote host.
#[derive(Debug, Clone, Copy, PartialEq, Eq, Structural)]
pub enum AuthMethod {
    Password,
    Key,
}

/// The direction of the port forwarding a tunnel establishes.
#[derive(Debug, Clone, Copy, PartialEq, Eq, Structural)]
pub enum TunnelType {
    Local,
    Remote,
    Dynamic,
}

/// One stored tunnel definition. The identifier is an opaque stable string,
/// unique across the definitions known to the system.
#[derive(Debug, Clone)]
pub struct TunnelConfig {
    pub id: String,
    pub name: String,
    pub host: String,
    pub port: u16,
    pub username: String,
    pub auth_method: AuthMethod,
    pub key_path: Option<String>,
    pub tunnel_type: TunnelType,
    pub local_port: u16,
    pub remote_host: String,
    pub remote_port: u16,
    pub auto_connect: bool,
    pub enabled: bool,
}

/// Global settings the supervisor reads.
#[derive(Debug, Clone)]
pub struct Settings {
    pub plink_path: String,
    pub start_with_windows: bool,
    pub start_minimized: bool,
    pub reconnect_delay_sec: u64,
    pub max_reconnect_attempts: u32,
    pub theme: String,
    pub notify_on_disconnect: bool,
    pub notify_on_reconnect: bool,
}

/// The whole stored configuration: the definitions and the settings.
#[derive(Debug, Clone)]
pub struct AppConfig {
    pub tunnels: Vec<TunnelConfig>,
    pub settings: Settings,
}

pub fn default_true() -> (r: bool)
    ensures
        r,
{
    true
}

pub fn default_plink_path() -> (r: String)
    ensures
        r@ == "plink.exe"@,
{
    "plink.exe".to_owned()
}

pub fn default_reconnect_delay() -> (r: u64)
    ensures
        r == 5,
{
    5
}

pub fn default_theme() -> (r: String)
    ensures
        r@ == "dark"@,
{
    "dark".to_owned()
}

/// What a freshly made settings value holds.
pub open spec fn is_default_settings(s: Settings) -> bool {
    &&& s.plink_path@ == "plink.exe"@
    &&& !s.start_with_windows
    &&& s.start_minimized
    &&& s.reconnect_delay_sec == 5
    &&& s.max_reconnect_attempts == 0
    &&& s.theme@ == "dark"@
    &&& s.notify_on_disconnect
    &&& s.notify_on_reconnect
}

impl Default for Settings {
    fn default() -> (r: Settings)
        ensures
            is_default_settings(r),
    {
        Settings {
            plink_path: default_plink_path(),
            start_with_windows: false,
            start_minimized: true,
            reconnect_delay_sec: default_reconnect_delay(),
            max_reconnect_attempts: 0,
            theme: default_theme(),
            notify_on_disconnect: true,
            notify_on_reconnect: true,
        }
    }
}

impl Default for AppConfig {
    fn default() -> (r: AppConfig)
        ensures
            r.tunnels@.len() == 0,
            is_default_settings(r.settings),
    {
        AppConfig { tunnels: Vec::new(), settings: Settings::default() }
    }
}

/// Copies a tunnel definition field by field.
pub fn copy_config(t: &TunnelConfig) -> (r: TunnelConfig)
    ensures
        r == *t,
{
    TunnelConfig {
        id: t.id.clone(),
        name: t.name.clone(),
        host: t.host.clone(),
        port: t.port,
        username: t.username.clone(),
        auth_method: t.auth_method,
        key_path: match &t.key_path {
            Some(k) => Some(k.clone()),
            None => None,
        },
        tunnel_type: t.tunnel_type,
        local_port: t.local_port,
        remote_host: t.remote_host.clone(),
        remote_port: t.remote_port,
        auto_connect: t.auto_connect,
        enabled: t.enabled,
    }
}

impl TunnelConfig {
    /// A new definition with a fresh identifier and the usual defaults:
    /// SSH port 22, key authentication, a local forwarding.
    pub fn new(name: String, host: String, username: String) -> (t: TunnelConfig)
        ensures
            t.id@.len() == 36,
            t.name == name,
            t.host == host,
            t.port == 22,
            t.username == username,
            t.auth_method == AuthMethod::Key,
            t.key_path is None,
            t.tunnel_type == TunnelType::Local,
            t.local_port == 0,
            t.remote_host@ == "127.0.0.1"@,
            t.remote_port == 0,
            !t.auto_connect,
            t.enabled,
    {
        TunnelConfig {
            id: fresh_id(),
            name,
            host,
            port: 22,
            username,
            auth_method: AuthMethod::Key,
            key_path: None,
            tunnel_type: TunnelType::Local,
            local_port: 0,
            remote_host: "127.0.0.1".to_owned(),
            remote_port: 0,
            auto_connect: false,
            enabled: true,
        }
    }
}

/// The directory that holds the stored configuration: `.opentunnel` under
/// the user's home directory, or under the current directory when the
/// platform reports no home.
pub fn config_dir() -> (r: String)
    ensures
        exists|base: Seq<char>| r@ == base + "/.opentunnel"@,
{
    let base = match home_dir_string() {
        Some(h) => h,
        None => ".".to_owned(),
    };
    let ghost b = base@;
    let r = base.concat("/.opentunnel");
    proof {
        assert(r@ == b + "/.opentunnel"@);
    }
    r
}

/// The path of the stored configuration file.
pub fn config_path() -> (r: String)
    ensures
        exists|base: Seq<char>| r@ == base + "/.opentunnel/config.json"@,
{
    let d = config_dir();
    let ghost base = choose|b: Seq<char>| d@ == b + "/.opentunnel"@;
    let r = d.concat("/config.json");
    proof {
        reveal_strlit("/.opentunnel");
        reveal_strlit("/config.json");
        reveal_strlit("/.opentunnel/config.json");
        assert(r@ =~= base + "/.opentunnel/config.json"@);
    }
    r
}

/// The index in `defs` of the first definition whose identifier is `id`,
/// or -1 when none carries it.
pub open spec fn first_def_index(defs: Seq<TunnelConfig>, id: Seq<char>) -> int
    decreases defs.len(),
{
    if defs.len() == 0 {
        -1
    } else if defs[0].id@ == id {
        0
    } else {
        let rest = first_def_index(defs.drop_first(), id);
        if rest == -1 {
            -1
        } else {
            rest + 1
        }
    }
}

/// The first definition in `defs` whose identifier is `id`.
pub open spec fn find_def(defs: Seq<TunnelConfig>, id: Seq<char>) -> Option<TunnelConfig> {
    let i = first_def_index(defs, id);
    if i == -1 {
        None
    } else {
        Some(defs[i])
    }
}

/// `first_def_index` finds the first match: nothing before it matches, and
/// -1 means nothing matches at all.
pub proof fn lemma_first_def_index(defs: Seq<TunnelConfig>, id: Seq<char>)
    ensures
        first_def_index(defs, id) == -1 ==> forall|j: int|
            0 <= j < defs.len() ==> (#[trigger] defs[j]).id@ != id,
        first_def_index(defs, id) != -1 ==> {
            let i = first_def_index(defs, id);
            &&& 0 <= i < defs.len()
            &&& defs[i].id@ == id
            &&& forall|j: int| 0 <= j < i ==> (#[trigger] defs[j]).id@ != id
        },
    decreases defs.len(),
{
    if defs.len() > 0 && defs[0].id@ != id {
        lemma_first_def_index(defs.drop_first(), id);
        assert(forall|j: int|
            1 <= j < defs.len() ==> (#[trigger] defs[j]) == defs.drop_first()[j - 1]);
    }
}

/// Looks up a tunnel definition by identifier.
pub fn find_tunnel<'a>(defs: &'a Vec<TunnelConfig>, id: &String) -> (r: Option<&'a TunnelConfig>)
    ensures
        match r {
            Some(t) => find_def(defs@, id@) == Some(*t),
            None => find_def(defs@, id@) is None,
        },
{
    let mut i: usize = 0;
    while i < defs.len()
        invariant
            i <= defs@.len(),
            forall|j: int| 0 <= j < i ==> (#[trigger] defs@[j]).id@ != id@,
        decreases defs@.len() - i,
    {
        if defs[i].id == *id {
            proof {
                lemma_first_def_index(defs@, id@);
            }
            return Some(&defs[i]);
        }
        i += 1;
    }
    proof {
        lemma_first_def_index(defs@, id@);
    }
    None
}

/// Adds a definition to the configuration, giving it a fresh identifier
/// when the one it carries is empty, and returns the definition as stored.
pub fn add_tunnel(cfg: &mut AppConfig, tunnel: TunnelConfig) -> (t: TunnelConfig)
    ensures
        final(cfg).settings == old(cfg).settings,
        final(cfg).tunnels@ == old(cfg).tunnels@.push(t),
        tunnel.id@.len() == 0 ==> t.id@.len() == 36,
        tunnel.id@.len() != 0 ==> t.id == tunnel.id,
        t == (TunnelConfig { id: t.id, ..tunnel }),
{
    let mut t = tunnel;
    if t.id.as_str().is_empty() {
        t.id = fresh_id();
    }
    let stored = copy_config(&t);
    cfg.tunnels.push(stored);
    t
}

/// Replaces the stored definition that carries the same identifier as
/// `tunnel`; an unknown identifier is reported as an error.
pub fn update_tunnel(cfg: &mut AppConfig, tunnel: TunnelConfig) -> (r: Result<(), String>)
    ensures
        final(cfg).settings == old(cfg).settings,
        match r {
            Ok(()) => {
                let i = first_def_index(old(cfg).tunnels@, tunnel.id@);
                &&& i != -1
                &&& final(cfg).tunnels@ == old(cfg).tunnels@.update(i, tunnel)
            },
            Err(e) => {
                &&& find_def(old(cfg).tunnels@, tunnel.id@) is None
                &&& final(cfg).tunnels == old(cfg).tunnels
                &&& e@ == "Tunnel not found"@
            },
        },
{
    let n = cfg.tunnels.len();
    let mut i: usize = 0;
    while i < n
        invariant
            i <= n,
            n == cfg.tunnels@.len(),
            cfg.tunnels == old(cfg).tunnels,
            cfg.settings == old(cfg).settings,
            forall|j: int| 0 <= j < i ==> (#[trigger] cfg.tunnels@[j]).id@ != tunnel.id@,
        decreases n - i,
    {
        if cfg.tunnels[i].id == tunnel.id {
            proof {
                lemma_first_def_index(old(cfg).tunnels@, tunnel.id@);
            }
            let _ = cfg.tunnels.remove(i);
            cfg.tunnels.insert(i, tunnel);
            proof {
                assert(cfg.tunnels@ =~= old(cfg).tunnels@.update(i as int, tunnel));
            }
            return Ok(());
        }
        i += 1;
    }
    proof {
        lemma_first_def_index(old(cfg).tunnels@, tunnel.id@);
    }
    Err("Tunnel not found".to_owned())
}

/// Removes every stored definition that carries the identifier `id`.
pub fn delete_tunnel(cfg: &mut AppConfig, id: &String)
    ensures
        final(cfg).settings == old(cfg).settings,
        final(cfg).tunnels@ == old(cfg).tunnels@.filter(|t: TunnelConfig| t.id@ != id@),
{
    let n = cfg.tunnels.len();
    let mut kept: Vec<TunnelConfig> = Vec::new();
    let mut i: usize = 0;
    while i < n
        invariant
            i <= n,
            n == cfg.tunnels@.len(),
            cfg.tunnels == old(cfg).tunnels,
            cfg.settings == old(cfg).settings,
            kept@ == cfg.tunnels@.take(i as int).filter(|t: TunnelConfig| t.id@ != id@),
        decreases n - i,
    {
        proof {
            let p = |t: TunnelConfig| t.id@ != id@;
            assert(cfg.tunnels@.take((i + 1) as int).drop_last() =~= cfg.tunnels@.take(i as int));
            reveal_with_fuel(Seq::filter, 2);
            assert(cfg.tunnels@.take((i + 1) as int).last() == cfg.tunnels@[i as int]);
        }
        if !(cfg.tunnels[i].id == *id) {
            let t = copy_config(&cfg.tunnels[i]);
            kept.push(t);
        }
        i += 1;
    }
    proof {
        assert(cfg.tunnels@.take(n as int) =~= cfg.tunnels@);
    }
    cfg.tunnels = kept;
}

/// The definitions marked enabled, in their stored order.
pub fn enabled_tunnels(cfg: &AppConfig) -> (r: Vec<TunnelConfig>)
    ensures
        r@ == cfg.tunnels@.filter(|t: TunnelConfig| t.enabled),
{
    let n = cfg.tunnels.len();
    let mut r: Vec<TunnelConfig> = Vec::new();
    let mut i: usize = 0;
    while i < n
        invariant
            i <= n,
            n == cfg.tunnels@.len(),
            r@ == cfg.tunnels@.take(i as int).filter(|t: TunnelConfig| t.enabled),
        decreases n - i,
    {
        proof {
            assert(cfg.tunnels@.take((i + 1) as int).drop_last() =~= cfg.tunnels@.take(i as int));
            reveal_with_fuel(Seq::filter, 2);
            assert(cfg.tunnels@.take((i + 1) as int).last() == cfg.tunnels@[i as int]);
        }
        if cfg.tunnels[i].enabled {
            let t = copy_config(&cfg.tunnels[i]);
            r.push(t);
        }
        i += 1;
    }
    proof {
        assert(cfg.tunnels@.take(n as int) =~= cfg.tunnels@);
    }
    r
}

/// The definitions the supervisor keeps alive: enabled and marked for
/// automatic connection, in their stored order.
pub fn autoconnect_tunnels(cfg: &AppConfig) -> (r: Vec<TunnelConfig>)
    ensures
        r@ == cfg.tunnels@.filter(|t: TunnelConfig| t.auto_connect && t.enabled),
{
    let n = cfg.tunnels.len();
    let mut r: Vec<TunnelConfig> = Vec::new();
    let mut i: usize = 0;
    while i < n
        invariant
            i <= n,
            n == cfg.tunnels@.len(),
            r@ == cfg.tunnels@.take(i as int).filter(|t: TunnelConfig| t.auto_connect && t.enabled),
        decreases n - i,
    {
        proof {
            assert(cfg.tunnels@.take((i + 1) as int).drop_last() =~= cfg.tunnels@.take(i as int));
            reveal_with_fuel(Seq::filter, 2);
            assert(cfg.tunnels@.take((i + 1) as int).last() == cfg.tunnels@[i as int]);
        }
        if cfg.tunnels[i].auto_connect && cfg.tunnels[i].enabled {
            let t = copy_config(&cfg.tunnels[i]);
            r.push(t);
        }
        i += 1;
    }
    proof {
        assert(cfg.tunnels@.take(n as int) =~= cfg.tunnels@);
    }
    r
}

} // verus!
