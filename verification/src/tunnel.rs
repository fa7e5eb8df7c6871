use vstd::prelude::*;
use vstd::string::*;
use crate::config::{AuthMethod, TunnelConfig, TunnelType, copy_config};
use crate::ext::{now_rfc3339, push_char};
use crate::strutil::{dec_digits, int_digits, u64_to_string, i32_to_string};

verus! {

/// The lifecycle state of one tunnel. Each tunnel is in exactly one of
/// these states at any time.
#[derive(Debug, Clone, Copy, PartialEq, Eq, Structural)]
pub enum TunnelStatus {
    Stopped,
    Starting,
    Running,
    Reconnecting,
    Error,
}

/// The supervisor's view of one tunnel: its status, the last error seen,
/// when it was started, and the reconnect attempt it is on.
#[derive(Debug, Clone)]
pub struct TunnelState {
    pub id: String,
    pub status: TunnelStatus,
    pub last_error: Option<String>,
    pub started_at: Option<String>,
    pub reconnect_count: u32,
}

/// One line of diagnostic output relayed from a tunnel process.
#[derive(Debug, Clone)]
pub struct LogEntry {
    pub timestamp: String,
    pub tunnel_id: String,
    pub tunnel_name: String,
    pub level: String,
    pub message: String,
}

/// The registry's bookkeeping entry for one running tunnel: the handle of
/// its external process (an opaque token the embedder maps to the real
/// child), its live state, and a snapshot of the definition it was started
/// from.
#[derive(Debug)]
pub struct TunnelProcess {
    pub child: u64,
    pub state: TunnelState,
    pub config: TunnelConfig,
}

/// The tunnel registry: the single source of truth for what is currently
/// running.
#[derive(Debug)]
pub struct TunnelManager {
    pub records: Vec<TunnelProcess>,
}

impl TunnelManager {
    /// The registry holds at most one record per identifier, and each
    /// record sits under the identifier of the definition it was started
    /// from.
    pub open spec fn wf(self) -> bool {
        records_wf(self.records@)
    }

    /// Whether a record is registered under `id`.
    pub open spec fn contains_id(self, id: Seq<char>) -> bool {
        exists|i: int|
            0 <= i < self.records@.len() && (#[trigger] self.records@[i]).state.id@ == id
    }
}

/// A fresh, empty registry.
pub fn new_manager() -> (m: TunnelManager)
    ensures
        m.wf(),
        m.records@.len() == 0,
{
    TunnelManager { records: Vec::new() }
}

/// Copies a tunnel state field by field.
pub fn copy_state(s: &TunnelState) -> (r: TunnelState)
    ensures
        r == *s,
{
    TunnelState {
        id: s.id.clone(),
        status: s.status,
        last_error: match &s.last_error {
            Some(e) => Some(e.clone()),
            None => None,
        },
        started_at: match &s.started_at {
            Some(t) => Some(t.clone()),
            None => None,
        },
        reconnect_count: s.reconnect_count,
    }
}

/// The index of the record registered under `id`, if any.
fn find_record(m: &TunnelManager, id: &String) -> (r: Option<usize>)
    ensures
        match r {
            Some(k) => k < m.records@.len() && m.records@[k as int].state.id@ == id@,
            None => !m.contains_id(id@),
        },
{
    let n = m.records.len();
    let mut i: usize = 0;
    while i < n
        invariant
            i <= n,
            n == m.records@.len(),
            forall|j: int| 0 <= j < i ==> (#[trigger] m.records@[j]).state.id@ != id@,
        decreases n - i,
    {
        if m.records[i].state.id == *id {
            return Some(i);
        }
        i += 1;
    }
    None
}

/// The two well-formedness conditions of a registry's record sequence.
pub open spec fn records_wf(recs: Seq<TunnelProcess>) -> bool {
    &&& forall|i: int, j: int|
        0 <= i < j < recs.len() ==> (#[trigger] recs[i]).state.id@ != (
        #[trigger] recs[j]).state.id@
    &&& forall|i: int|
        0 <= i < recs.len() ==> (#[trigger] recs[i]).state.id@ == recs[i].config.id@
}

/// Detaching one record keeps the rest well-formed and drops the detached
/// identifier entirely.
proof fn lemma_registry_remove(pre: Seq<TunnelProcess>, post: Seq<TunnelProcess>, k: int)
    requires
        0 <= k < pre.len(),
        post == pre.remove(k),
        records_wf(pre),
    ensures
        post.len() == pre.len() - 1,
        records_wf(post),
        forall|i: int|
            0 <= i < post.len() ==> (#[trigger] post[i]).state.id@ != pre[k].state.id@,
{
    pre.remove_ensures(k);
    assert forall|i: int|
        0 <= i < post.len() implies (#[trigger] post[i]).state.id@ != pre[k].state.id@
        && post[i].state.id@ == post[i].config.id@ by {
        if i < k {
            assert(post[i] == pre[i]);
        } else {
            assert(post[i] == pre[i + 1]);
        }
    }
    assert forall|i: int, j: int|
        0 <= i < j < post.len() implies (#[trigger] post[i]).state.id@ != (
    #[trigger] post[j]).state.id@ by {
        let pi: int = if i < k {
            i
        } else {
            i + 1
        };
        let pj: int = if j < k {
            j
        } else {
            j + 1
        };
        assert(post[i] == pre[pi]);
        assert(post[j] == pre[pj]);
    }
}

/// Appending a record under a fresh identifier keeps the registry
/// well-formed.
proof fn lemma_registry_push(pre: Seq<TunnelProcess>, rec: TunnelProcess)
    requires
        records_wf(pre),
        forall|i: int| 0 <= i < pre.len() ==> (#[trigger] pre[i]).state.id@ != rec.state.id@,
        rec.state.id@ == rec.config.id@,
    ensures
        records_wf(pre.push(rec)),
{
    let post = pre.push(rec);
    assert forall|i: int, j: int|
        0 <= i < j < post.len() implies (#[trigger] post[i]).state.id@ != (
    #[trigger] post[j]).state.id@ by {
        if j == post.len() - 1 {
            assert(post[i] == pre[i]);
            assert(post[j] == rec);
        } else {
            assert(post[i] == pre[i]);
            assert(post[j] == pre[j]);
        }
    }
    assert forall|i: int|
        0 <= i < post.len() implies (#[trigger] post[i]).state.id@ == post[i].config.id@ by {
        if i < post.len() - 1 {
            assert(post[i] == pre[i]);
        } else {
            assert(post[i] == rec);
        }
    }
}

/// Registers a tunnel process just launched from `tunnel`: the new record
/// starts Running, on attempt zero, with no error and a fresh start
/// timestamp. A prior record under the same identifier is detached and
/// handed back, not closed: stopping the old process is the caller's duty.
pub fn start_tunnel(m: &mut TunnelManager, tunnel: &TunnelConfig, child: u64) -> (prior: Option<
    TunnelProcess,
>)
    requires
        old(m).wf(),
    ensures
        final(m).wf(),
        final(m).contains_id(tunnel.id@),
        final(m).records@.len() >= 1,
        ({
            let rec = final(m).records@.last();
            &&& rec.child == child
            &&& rec.config == *tunnel
            &&& rec.state.id == tunnel.id
            &&& rec.state.status == TunnelStatus::Running
            &&& rec.state.last_error is None
            &&& rec.state.started_at is Some
            &&& rec.state.reconnect_count == 0
        }),
        match prior {
            Some(p) => exists|k: int|
                0 <= k < old(m).records@.len() && (#[trigger] old(m).records@[k]) == p
                    && p.state.id@ == tunnel.id@ && final(m).records@.drop_last() == old(
                m,
                ).records@.remove(k),
            None => !old(m).contains_id(tunnel.id@) && final(m).records@.drop_last() == old(
                m,
            ).records@,
        },
{
    let ghost orig = m.records@;
    let prior = match find_record(m, &tunnel.id) {
        Some(k) => {
            let p = m.records.remove(k);
            proof {
                lemma_registry_remove(orig, m.records@, k as int);
            }
            Some(p)
        },
        None => None,
    };
    proof {
        assert(forall|i: int|
            0 <= i < m.records@.len() ==> (#[trigger] m.records@[i]).state.id@ != tunnel.id@);
    }
    let ghost trimmed = m.records@;
    let state = TunnelState {
        id: tunnel.id.clone(),
        status: TunnelStatus::Running,
        last_error: None,
        started_at: Some(now_rfc3339()),
        reconnect_count: 0,
    };
    let rec = TunnelProcess { child, state, config: copy_config(tunnel) };
    proof {
        lemma_registry_push(trimmed, rec);
    }
    m.records.push(rec);
    proof {
        assert(m.records@.drop_last() =~= trimmed);
        assert(m.records@.last() == rec);
    }
    prior
}

/// Detaches the record for `id`, marks the handed-back state Stopped with
/// the last error cleared, and leaves the registry without the identifier,
/// whatever the prior status was. The caller kills the process: the
/// registry never closes one itself.
pub fn stop_tunnel(m: &mut TunnelManager, id: &String) -> (r: Option<TunnelProcess>)
    requires
        old(m).wf(),
    ensures
        final(m).wf(),
        !final(m).contains_id(id@),
        match r {
            Some(p) => {
                &&& exists|k: int|
                    0 <= k < old(m).records@.len() && (#[trigger] old(m).records@[k]).state.id@
                        == id@ && final(m).records@ == old(m).records@.remove(k) && p.child == old(
                        m,
                    ).records@[k].child && p.config == old(m).records@[k].config && p.state.id
                        == old(m).records@[k].state.id && p.state.started_at == old(
                        m,
                    ).records@[k].state.started_at && p.state.reconnect_count == old(
                        m,
                    ).records@[k].state.reconnect_count
                &&& p.state.status == TunnelStatus::Stopped
                &&& p.state.last_error is None
            },
            None => !old(m).contains_id(id@) && *final(m) == *old(m),
        },
{
    let ghost orig = m.records@;
    match find_record(m, id) {
        Some(k) => {
            let mut p = m.records.remove(k);
            p.state.status = TunnelStatus::Stopped;
            p.state.last_error = None;
            proof {
                lemma_registry_remove(orig, m.records@, k as int);
            }
            Some(p)
        },
        None => None,
    }
}

/// Detaches the record for `id` without touching its state; the caller
/// owns the handed-back process.
pub fn remove_tunnel(m: &mut TunnelManager, id: &String) -> (r: Option<TunnelProcess>)
    requires
        old(m).wf(),
    ensures
        final(m).wf(),
        !final(m).contains_id(id@),
        match r {
            Some(p) => exists|k: int|
                0 <= k < old(m).records@.len() && (#[trigger] old(m).records@[k]) == p
                    && p.state.id@ == id@ && final(m).records@ == old(m).records@.remove(k),
            None => !old(m).contains_id(id@) && *final(m) == *old(m),
        },
{
    let ghost orig = m.records@;
    match find_record(m, id) {
        Some(k) => {
            let p = m.records.remove(k);
            proof {
                lemma_registry_remove(orig, m.records@, k as int);
            }
            Some(p)
        },
        None => None,
    }
}

/// A point-in-time copy of every tunnel state, in registry order; callers
/// must not rely on the order.
pub fn get_all_states(m: &TunnelManager) -> (r: Vec<TunnelState>)
    ensures
        r@.len() == m.records@.len(),
        forall|i: int| 0 <= i < r@.len() ==> r@[i] == (#[trigger] m.records@[i]).state,
{
    let n = m.records.len();
    let mut r: Vec<TunnelState> = Vec::new();
    let mut i: usize = 0;
    while i < n
        invariant
            i <= n,
            n == m.records@.len(),
            r@.len() == i,
            forall|j: int| 0 <= j < i ==> r@[j] == (#[trigger] m.records@[j]).state,
        decreases n - i,
    {
        let s = copy_state(&m.records[i].state);
        r.push(s);
        i += 1;
    }
    r
}

/// What a non-blocking liveness probe of a process handle reported.
#[derive(Debug, Clone)]
pub enum ProbeOutcome {
    /// The process is still running.
    StillRunning,
    /// The process exited, with its exit code when the platform reports
    /// one.
    Exited(Option<i32>),
    /// The probe itself failed, with a rendering of the failure.
    ProbeError(String),
}

/// The error message recorded for a tunnel whose probe reported `o`.
pub open spec fn probe_message(o: ProbeOutcome) -> Seq<char> {
    match o {
        ProbeOutcome::StillRunning => Seq::empty(),
        ProbeOutcome::Exited(Some(c)) => "Process exited with code: "@ + int_digits(c as int),
        ProbeOutcome::Exited(None) => "Process exited with code: unknown"@,
        ProbeOutcome::ProbeError(e) => "Health check error: "@ + e@,
    }
}

/// Renders the error message recorded for a dead tunnel.
pub fn probe_message_string(o: &ProbeOutcome) -> (r: String)
    requires
        !(o is StillRunning),
    ensures
        r@ == probe_message(*o),
{
    match o {
        ProbeOutcome::StillRunning => String::new(),
        ProbeOutcome::Exited(Some(c)) => {
            let s = "Process exited with code: ".to_owned();
            let d = i32_to_string(*c);
            s.concat(d.as_str())
        },
        ProbeOutcome::Exited(None) => "Process exited with code: unknown".to_owned(),
        ProbeOutcome::ProbeError(e) => {
            let s = "Health check error: ".to_owned();
            s.concat(e.as_str())
        },
    }
}

/// Whether the scan marks this record dead: it was Running and its probe
/// did not report the process alive.
pub open spec fn scan_dead(pre: TunnelProcess, o: ProbeOutcome) -> bool {
    pre.state.status == TunnelStatus::Running && !(o is StillRunning)
}

/// How one scan step rewrites a record: a Running record whose probe says
/// the process is gone, or whose probe failed, becomes Error carrying the
/// probe's message; every other record is untouched.
pub open spec fn scanned(pre: TunnelProcess, o: ProbeOutcome, post: TunnelProcess) -> bool {
    if scan_dead(pre, o) {
        &&& post.child == pre.child
        &&& post.config == pre.config
        &&& post.state.id == pre.state.id
        &&& post.state.status == TunnelStatus::Error
        &&& post.state.last_error matches Some(e) && e@ == probe_message(o)
        &&& post.state.started_at == pre.state.started_at
        &&& post.state.reconnect_count == pre.state.reconnect_count
    } else {
        post == pre
    }
}

/// The identifiers a scan of `recs` against `outs` newly marks dead, in
/// registry order.
pub open spec fn dead_ids(recs: Seq<TunnelProcess>, outs: Seq<ProbeOutcome>) -> Seq<Seq<char>>
    recommends
        recs.len() == outs.len(),
    decreases recs.len(),
{
    if recs.len() == 0 {
        Seq::empty()
    } else {
        let rest = dead_ids(recs.drop_last(), outs.drop_last());
        if scan_dead(recs.last(), outs.last()) {
            rest.push(recs.last().state.id@)
        } else {
            rest
        }
    }
}

/// Scans the registry against the probe outcomes, one per record in
/// registry order. A Running record whose process exited, or whose probe
/// failed, is reclassified Error with a message naming the cause, and its
/// identifier joins the returned dead set. A record not currently Running
/// is untouched, whatever its probe slot says.
pub fn check_tunnel_health(m: &mut TunnelManager, outcomes: &Vec<ProbeOutcome>) -> (dead: Vec<
    String,
>)
    requires
        old(m).wf(),
        outcomes@.len() == old(m).records@.len(),
    ensures
        final(m).wf(),
        final(m).records@.len() == old(m).records@.len(),
        forall|i: int|
            0 <= i < final(m).records@.len() ==> scanned(
                old(m).records@[i],
                outcomes@[i],
                #[trigger] final(m).records@[i],
            ),
        dead@.map_values(|s: String| s@) == dead_ids(old(m).records@, outcomes@),
{
    let ghost orig = m.records@;
    let n = m.records.len();
    let mut dead: Vec<String> = Vec::new();
    let mut i: usize = 0;
    while i < n
        invariant
            i <= n,
            n == m.records@.len(),
            outcomes@.len() == n,
            orig.len() == n,
            orig == old(m).records@,
            forall|j: int| i <= j < n ==> (#[trigger] m.records@[j]) == orig[j],
            forall|j: int| 0 <= j < i ==> scanned(orig[j], outcomes@[j], #[trigger] m.records@[j]),
            dead@.map_values(|s: String| s@) == dead_ids(
                orig.take(i as int),
                outcomes@.take(i as int),
            ),
        decreases n - i,
    {
        let ghost pre_dead = dead@;
        let is_running = m.records[i].state.status == TunnelStatus::Running;
        let still = match &outcomes[i] {
            ProbeOutcome::StillRunning => true,
            _ => false,
        };
        if is_running && !still {
            let msg = probe_message_string(&outcomes[i]);
            let mut rec = m.records.remove(i);
            rec.state.status = TunnelStatus::Error;
            rec.state.last_error = Some(msg);
            let idc = rec.state.id.clone();
            m.records.insert(i, rec);
            dead.push(idc);
        }
        proof {
            assert(orig.take((i + 1) as int).drop_last() =~= orig.take(i as int));
            assert(outcomes@.take((i + 1) as int).drop_last() =~= outcomes@.take(i as int));
            assert(orig.take((i + 1) as int).last() == orig[i as int]);
            assert(outcomes@.take((i + 1) as int).last() == outcomes@[i as int]);
            if scan_dead(orig[i as int], outcomes@[i as int]) {
                assert(dead@.map_values(|s: String| s@) =~= pre_dead.map_values(
                    |s: String| s@,
                ).push(orig[i as int].state.id@));
            }
        }
        i += 1;
    }
    proof {
        assert(orig.take(n as int) =~= orig);
        assert(outcomes@.take(n as int) =~= outcomes@);
        assert(m.wf()) by {
            assert(forall|j: int|
                0 <= j < n ==> (#[trigger] m.records@[j]).state.id@ == orig[j].state.id@
                    && m.records@[j].config.id@ == orig[j].config.id@);
        }
    }
    dead
}

/// Records that a reconnect attempt is under way: the tunnel's status
/// becomes Reconnecting and its state carries the attempt number. An
/// identifier without a record is a no-op.
pub fn mark_reconnecting(m: &mut TunnelManager, id: &String, attempts: u32)
    requires
        old(m).wf(),
    ensures
        final(m).wf(),
        old(m).contains_id(id@) ==> exists|k: int|
            0 <= k < old(m).records@.len() && (#[trigger] old(m).records@[k]).state.id@ == id@
                && final(m).records@ == old(m).records@.update(
                k,
                (TunnelProcess {
                    state: (TunnelState {
                        status: TunnelStatus::Reconnecting,
                        reconnect_count: attempts,
                        ..old(m).records@[k].state
                    }),
                    ..old(m).records@[k]
                }),
            ),
        !old(m).contains_id(id@) ==> *final(m) == *old(m),
{
    let ghost orig = m.records@;
    match find_record(m, id) {
        Some(k) => {
            let mut rec = m.records.remove(k);
            rec.state.status = TunnelStatus::Reconnecting;
            rec.state.reconnect_count = attempts;
            m.records.insert(k, rec);
            proof {
                assert(m.records@ =~= orig.update(
                    k as int,
                    (TunnelProcess {
                        state: (TunnelState {
                            status: TunnelStatus::Reconnecting,
                            reconnect_count: attempts,
                            ..orig[k as int].state
                        }),
                        ..orig[k as int]
                    }),
                ));
            }
        },
        None => {
        },
    }
}

/// A log entry for one relayed line of a tunnel's diagnostic output,
/// stamped with the current time, at severity "info".
pub fn new_log_entry(tunnel_id: &String, tunnel_name: &String, message: String) -> (e: LogEntry)
    ensures
        e.tunnel_id@ == tunnel_id@,
        e.tunnel_name@ == tunnel_name@,
        e.level@ == "info"@,
        e.message == message,
{
    LogEntry {
        timestamp: now_rfc3339(),
        tunnel_id: tunnel_id.clone(),
        tunnel_name: tunnel_name.clone(),
        level: "info".to_owned(),
        message,
    }
}

/// The views of a sequence of strings.
pub open spec fn views_of(s: Seq<String>) -> Seq<Seq<char>> {
    s.map_values(|x: String| x@)
}

/// The flag naming the forwarding direction.
pub open spec fn forward_flag(t: TunnelConfig) -> Seq<char> {
    match t.tunnel_type {
        TunnelType::Local => "-L"@,
        TunnelType::Remote => "-R"@,
        TunnelType::Dynamic => "-D"@,
    }
}

/// The forwarding argument that follows the direction flag:
/// `listen:host:port` for local and remote forwardings, the listening port
/// alone for a dynamic one.
pub open spec fn forward_arg(t: TunnelConfig) -> Seq<char> {
    match t.tunnel_type {
        TunnelType::Local => dec_digits(t.local_port as nat) + seq![':'] + t.remote_host@
            + seq![':'] + dec_digits(t.remote_port as nat),
        TunnelType::Remote => dec_digits(t.remote_port as nat) + seq![':'] + t.remote_host@
            + seq![':'] + dec_digits(t.local_port as nat),
        TunnelType::Dynamic => dec_digits(t.local_port as nat),
    }
}

/// The argument list handed to the SSH client for `t`: no shell, batch
/// mode, forced SSH; the port when it is not 22; the key file when key
/// authentication names one (password authentication adds nothing and
/// fails non-interactively, a known limitation that is kept); the
/// forwarding; then user@host.
pub open spec fn plink_args(t: TunnelConfig) -> Seq<Seq<char>> {
    let base = seq!["-N"@, "-batch"@, "-ssh"@];
    let with_port = if t.port != 22 {
        base + seq!["-P"@, dec_digits(t.port as nat)]
    } else {
        base
    };
    let with_auth = match t.key_path {
        Some(k) => if t.auth_method == AuthMethod::Key {
            with_port + seq!["-i"@, k@]
        } else {
            with_port
        },
        None => with_port,
    };
    with_auth + seq![forward_flag(t), forward_arg(t)] + seq![
        t.username@ + seq!['@'] + t.host@,
    ]
}

/// Builds the command and argument list that launches the SSH client for
/// `tunnel`.
pub fn build_plink_args(tunnel: &TunnelConfig, plink_path: &str) -> (r: (String, Vec<String>))
    ensures
        r.0@ == plink_path@,
        views_of(r.1@) == plink_args(*tunnel),
{
    let mut args: Vec<String> = Vec::new();
    args.push("-N".to_owned());
    args.push("-batch".to_owned());
    args.push("-ssh".to_owned());
    if tunnel.port != 22 {
        args.push("-P".to_owned());
        args.push(u64_to_string(tunnel.port as u64));
    }
    match &tunnel.auth_method {
        AuthMethod::Key => {
            match &tunnel.key_path {
                Some(key) => {
                    args.push("-i".to_owned());
                    args.push(key.clone());
                },
                None => {
                },
            }
        },
        AuthMethod::Password => {
        },
    }
    match tunnel.tunnel_type {
        TunnelType::Local => {
            args.push("-L".to_owned());
            let mut a = u64_to_string(tunnel.local_port as u64);
            push_char(&mut a, ':');
            let mut b = a.concat(tunnel.remote_host.as_str());
            push_char(&mut b, ':');
            let tail = u64_to_string(tunnel.remote_port as u64);
            let full = b.concat(tail.as_str());
            proof {
                assert(full@ =~= forward_arg(*tunnel));
            }
            args.push(full);
        },
        TunnelType::Remote => {
            args.push("-R".to_owned());
            let mut a = u64_to_string(tunnel.remote_port as u64);
            push_char(&mut a, ':');
            let mut b = a.concat(tunnel.remote_host.as_str());
            push_char(&mut b, ':');
            let tail = u64_to_string(tunnel.local_port as u64);
            let full = b.concat(tail.as_str());
            proof {
                assert(full@ =~= forward_arg(*tunnel));
            }
            args.push(full);
        },
        TunnelType::Dynamic => {
            args.push("-D".to_owned());
            args.push(u64_to_string(tunnel.local_port as u64));
        },
    }
    let mut user_host = tunnel.username.clone();
    push_char(&mut user_host, '@');
    let user_host = user_host.concat(tunnel.host.as_str());
    proof {
        assert(user_host@ =~= tunnel.username@ + seq!['@'] + tunnel.host@);
    }
    args.push(user_host);
    proof {
        assert(views_of(args@) =~~= plink_args(*tunnel));
    }
    (plink_path.to_owned(), args)
}

} // verus!
