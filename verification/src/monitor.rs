use vstd::prelude::*;
use vstd::string::*;
use vstd::arithmetic::power2::{pow2, lemma_pow2_pos, lemma_pow2_unfold, lemma_pow2_strictly_increases};
use vstd::arithmetic::mul::lemma_mul_inequality;
use crate::config::{AppConfig, Settings, TunnelConfig, find_def};
use crate::strutil::{dec_digits, u64_to_string};

verus! {

/// One per-tunnel reconnect attempt counter.
#[derive(Debug, Clone)]
pub struct AttemptEntry {
    pub id: String,
    pub count: u32,
}

/// The reconnect monitor's own state: whether its loop runs, and the
/// attempt counter per tunnel identifier. The table is independent of the
/// registry: an identifier present here but absent there is a tunnel
/// waiting out its backoff.
#[derive(Debug)]
pub struct MonitorState {
    pub running: bool,
    pub reconnect_attempts: Vec<AttemptEntry>,
}

/// At most one counter per identifier.
pub open spec fn attempts_wf(s: Seq<AttemptEntry>) -> bool {
    forall|i: int, j: int|
        0 <= i < j < s.len() ==> (#[trigger] s[i]).id@ != (#[trigger] s[j]).id@
}

/// The attempt count recorded for `id`: the entry's count, or zero when
/// the table holds none (a tunnel that never failed, or one whose last
/// relaunch succeeded).
pub open spec fn count_of(s: Seq<AttemptEntry>, id: Seq<char>) -> u32 {
    if exists|i: int| 0 <= i < s.len() && (#[trigger] s[i]).id@ == id {
        s[choose|i: int| 0 <= i < s.len() && (#[trigger] s[i]).id@ == id].count
    } else {
        0
    }
}

impl MonitorState {
    pub open spec fn wf(self) -> bool {
        attempts_wf(self.reconnect_attempts@)
    }
}

/// A fresh monitor: not yet running, with no attempts recorded.
pub fn new_monitor() -> (m: MonitorState)
    ensures
        m.wf(),
        !m.running,
        m.reconnect_attempts@.len() == 0,
{
    MonitorState { running: false, reconnect_attempts: Vec::new() }
}

/// Claims the monitor loop: the flag is set, and the result says whether
/// this call claimed it. A second start while one runs is a no-op.
pub fn try_begin_monitor(m: &mut MonitorState) -> (claimed: bool)
    ensures
        final(m).running,
        claimed == !old(m).running,
        final(m).reconnect_attempts == old(m).reconnect_attempts,
{
    if m.running {
        false
    } else {
        m.running = true;
        true
    }
}

/// Clears the monitor's running flag; its loop ends at the next check.
pub fn request_monitor_stop(m: &mut MonitorState)
    ensures
        !final(m).running,
        final(m).reconnect_attempts == old(m).reconnect_attempts,
{
    m.running = false;
}

/// The index of the counter for `id`, if one exists.
fn find_attempt(m: &MonitorState, id: &String) -> (r: Option<usize>)
    requires
        m.wf(),
    ensures
        match r {
            Some(k) => k < m.reconnect_attempts@.len() && m.reconnect_attempts@[k as int].id@
                == id@ && count_of(m.reconnect_attempts@, id@) == m.reconnect_attempts@[
                k as int
            ].count,
            None => count_of(m.reconnect_attempts@, id@) == 0 && forall|j: int|
                0 <= j < m.reconnect_attempts@.len() ==> (#[trigger] m.reconnect_attempts@[j]).id@
                    != id@,
        },
{
    let n = m.reconnect_attempts.len();
    let mut i: usize = 0;
    while i < n
        invariant
            i <= n,
            n == m.reconnect_attempts@.len(),
            attempts_wf(m.reconnect_attempts@),
            forall|j: int| 0 <= j < i ==> (#[trigger] m.reconnect_attempts@[j]).id@ != id@,
        decreases n - i,
    {
        if m.reconnect_attempts[i].id == *id {
            proof {
                let s = m.reconnect_attempts@;
                let w = choose|x: int| 0 <= x < s.len() && (#[trigger] s[x]).id@ == id@;
                assert(s[w].id@ == id@ && s[i as int].id@ == id@);
                if w != i as int {
                    if w < i as int {
                        assert(s[w].id@ != s[i as int].id@);
                    } else {
                        assert(s[i as int].id@ != s[w].id@);
                    }
                }
            }
            return Some(i);
        }
        i += 1;
    }
    None
}

/// The attempt number a new failure of `id` runs under: one more than the
/// recorded count (kept at the ceiling if the counter is saturated).
pub open spec fn next_count(s: Seq<AttemptEntry>, id: Seq<char>) -> u32 {
    if count_of(s, id) == u32::MAX {
        u32::MAX
    } else {
        (count_of(s, id) + 1) as u32
    }
}

/// Records one more failed attempt for `id` and returns the attempt number
/// it runs under. Counters of other identifiers are untouched.
pub fn record_attempt(m: &mut MonitorState, id: &String) -> (n: u32)
    requires
        old(m).wf(),
    ensures
        final(m).wf(),
        final(m).running == old(m).running,
        n == next_count(old(m).reconnect_attempts@, id@),
        count_of(final(m).reconnect_attempts@, id@) == n,
        forall|other: Seq<char>|
            other != id@ ==> #[trigger] count_of(final(m).reconnect_attempts@, other) == count_of(
                old(m).reconnect_attempts@,
                other,
            ),
{
    let ghost orig = m.reconnect_attempts@;
    match find_attempt(m, id) {
        Some(k) => {
            let prior = m.reconnect_attempts.remove(k);
            let bumped: u32 = if prior.count == u32::MAX {
                u32::MAX
            } else {
                prior.count + 1
            };
            let entry = AttemptEntry { id: prior.id, count: bumped };
            m.reconnect_attempts.insert(k, entry);
            proof {
                let cur = m.reconnect_attempts@;
                assert(cur =~= orig.update(k as int, entry));
                lemma_attempts_update(orig, cur, k as int, entry);
            }
            bumped
        },
        None => {
            let entry = AttemptEntry { id: id.clone(), count: 1 };
            m.reconnect_attempts.push(entry);
            proof {
                lemma_attempts_push(orig, m.reconnect_attempts@, entry);
            }
            1
        },
    }
}

/// Updating the entry at `k` in place, keeping its identifier, moves only
/// that identifier's count.
proof fn lemma_attempts_update(pre: Seq<AttemptEntry>, post: Seq<AttemptEntry>, k: int, entry: AttemptEntry)
    requires
        attempts_wf(pre),
        0 <= k < pre.len(),
        post == pre.update(k, entry),
        entry.id@ == pre[k].id@,
    ensures
        attempts_wf(post),
        count_of(post, entry.id@) == entry.count,
        forall|other: Seq<char>|
            other != entry.id@ ==> #[trigger] count_of(post, other) == count_of(pre, other),
{
    assert forall|i: int, j: int|
        0 <= i < j < post.len() implies (#[trigger] post[i]).id@ != (#[trigger] post[j]).id@ by {
        assert(pre[i].id@ != pre[j].id@);
    }
    assert(post[k] == entry);
    assert(count_of(post, entry.id@) == entry.count) by {
        let w = choose|x: int| 0 <= x < post.len() && (#[trigger] post[x]).id@ == entry.id@;
        if w != k {
            assert(post[w].id@ == pre[w].id@ && pre[k].id@ == entry.id@);
        }
    }
    assert forall|other: Seq<char>|
        other != entry.id@ implies #[trigger] count_of(post, other) == count_of(pre, other) by {
        if exists|x: int| 0 <= x < post.len() && (#[trigger] post[x]).id@ == other {
            let w = choose|x: int| 0 <= x < post.len() && (#[trigger] post[x]).id@ == other;
            assert(w != k);
            assert(pre[w].id@ == other);
            let v = choose|x: int| 0 <= x < pre.len() && (#[trigger] pre[x]).id@ == other;
            if v != w {
                assert(pre[v].id@ != pre[w].id@ || pre[w].id@ != pre[v].id@);
            }
            assert(count_of(pre, other) == pre[w].count);
        } else {
            if exists|x: int| 0 <= x < pre.len() && (#[trigger] pre[x]).id@ == other {
                let v = choose|x: int| 0 <= x < pre.len() && (#[trigger] pre[x]).id@ == other;
                assert(post[v].id@ == other);
            }
        }
    }
}

/// Appending a counter under a fresh identifier moves only that
/// identifier's count.
proof fn lemma_attempts_push(pre: Seq<AttemptEntry>, post: Seq<AttemptEntry>, entry: AttemptEntry)
    requires
        attempts_wf(pre),
        post == pre.push(entry),
        forall|j: int| 0 <= j < pre.len() ==> (#[trigger] pre[j]).id@ != entry.id@,
    ensures
        attempts_wf(post),
        count_of(post, entry.id@) == entry.count,
        forall|other: Seq<char>|
            other != entry.id@ ==> #[trigger] count_of(post, other) == count_of(pre, other),
{
    assert forall|i: int, j: int|
        0 <= i < j < post.len() implies (#[trigger] post[i]).id@ != (#[trigger] post[j]).id@ by {
        if j == post.len() - 1 {
            assert(post[i] == pre[i] && post[j] == entry);
        } else {
            assert(post[i] == pre[i] && post[j] == pre[j]);
        }
    }
    assert(post[post.len() - 1] == entry);
    assert(count_of(post, entry.id@) == entry.count) by {
        let w = choose|x: int| 0 <= x < post.len() && (#[trigger] post[x]).id@ == entry.id@;
        if w != post.len() - 1 {
            assert(pre[w].id@ == entry.id@);
        }
    }
    assert forall|other: Seq<char>|
        other != entry.id@ implies #[trigger] count_of(post, other) == count_of(pre, other) by {
        if exists|x: int| 0 <= x < post.len() && (#[trigger] post[x]).id@ == other {
            let w = choose|x: int| 0 <= x < post.len() && (#[trigger] post[x]).id@ == other;
            assert(w != post.len() - 1);
            assert(pre[w].id@ == other);
            let v = choose|x: int| 0 <= x < pre.len() && (#[trigger] pre[x]).id@ == other;
            if v != w {
                assert(pre[v].id@ != pre[w].id@ || pre[w].id@ != pre[v].id@);
            }
            assert(count_of(pre, other) == pre[w].count);
        } else {
            if exists|x: int| 0 <= x < pre.len() && (#[trigger] pre[x]).id@ == other {
                let v = choose|x: int| 0 <= x < pre.len() && (#[trigger] pre[x]).id@ == other;
                assert(post[v].id@ == other);
            }
        }
    }
}

/// Forgets the counter for `id`: a confirmed successful relaunch resets
/// the tunnel to a clean slate, so its next failure starts over at attempt
/// one. Counters of other identifiers are untouched.
pub fn clear_attempts(m: &mut MonitorState, id: &String)
    requires
        old(m).wf(),
    ensures
        final(m).wf(),
        final(m).running == old(m).running,
        count_of(final(m).reconnect_attempts@, id@) == 0,
        forall|other: Seq<char>|
            other != id@ ==> #[trigger] count_of(final(m).reconnect_attempts@, other) == count_of(
                old(m).reconnect_attempts@,
                other,
            ),
{
    let ghost orig = m.reconnect_attempts@;
    match find_attempt(m, id) {
        Some(k) => {
            let _removed = m.reconnect_attempts.remove(k);
            proof {
                lemma_attempts_remove(orig, m.reconnect_attempts@, k as int);
            }
        },
        None => {
        },
    }
}

/// Detaching the entry at `k` zeroes its identifier's count and moves no
/// other.
proof fn lemma_attempts_remove(pre: Seq<AttemptEntry>, post: Seq<AttemptEntry>, k: int)
    requires
        attempts_wf(pre),
        0 <= k < pre.len(),
        post == pre.remove(k),
    ensures
        attempts_wf(post),
        count_of(post, pre[k].id@) == 0,
        forall|other: Seq<char>|
            other != pre[k].id@ ==> #[trigger] count_of(post, other) == count_of(pre, other),
{
    pre.remove_ensures(k);
    assert forall|i: int, j: int|
        0 <= i < j < post.len() implies (#[trigger] post[i]).id@ != (#[trigger] post[j]).id@ by {
        let pi: int = if i < k {
            i
        } else {
            i + 1
        };
        let pj: int = if j < k {
            j
        } else {
            j + 1
        };
        assert(post[i] == pre[pi] && post[j] == pre[pj]);
    }
    assert(count_of(post, pre[k].id@) == 0) by {
        if exists|x: int| 0 <= x < post.len() && (#[trigger] post[x]).id@ == pre[k].id@ {
            let w = choose|x: int| 0 <= x < post.len() && (#[trigger] post[x]).id@ == pre[k].id@;
            let pw: int = if w < k {
                w
            } else {
                w + 1
            };
            assert(post[w] == pre[pw] && pw != k);
        }
    }
    assert forall|other: Seq<char>|
        other != pre[k].id@ implies #[trigger] count_of(post, other) == count_of(pre, other) by {
        if exists|x: int| 0 <= x < post.len() && (#[trigger] post[x]).id@ == other {
            let w = choose|x: int| 0 <= x < post.len() && (#[trigger] post[x]).id@ == other;
            let pw: int = if w < k {
                w
            } else {
                w + 1
            };
            assert(post[w] == pre[pw]);
            let v = choose|x: int| 0 <= x < pre.len() && (#[trigger] pre[x]).id@ == other;
            if v != pw {
                assert(pre[v].id@ != pre[pw].id@ || pre[pw].id@ != pre[v].id@);
            }
            assert(count_of(pre, other) == pre[pw].count);
        } else {
            if exists|x: int| 0 <= x < pre.len() && (#[trigger] pre[x]).id@ == other {
                let v = choose|x: int| 0 <= x < pre.len() && (#[trigger] pre[x]).id@ == other;
                assert(v != k);
                let pv: int = if v < k {
                    v
                } else {
                    v - 1
                };
                assert(post[pv] == pre[v]);
            }
        }
    }
}

/// The backoff delay, in seconds, before reconnect attempt `n`: the base
/// delay doubled per prior failure, capped at five minutes. Attempt one
/// waits the base delay itself.
pub open spec fn backoff_spec(base: u64, n: u32) -> u64
    recommends
        n >= 1,
{
    if base * pow2((n - 1) as nat) <= 300 {
        (base * pow2((n - 1) as nat)) as u64
    } else {
        300u64
    }
}

/// Computes the backoff delay before attempt `n`.
pub fn backoff_delay(base: u64, n: u32) -> (d: u64)
    requires
        n >= 1,
    ensures
        d == backoff_spec(base, n),
{
    proof {
        lemma_pow2_pos((n - 1) as nat);
    }
    if base == 0 {
        proof {
            assert(0 * pow2((n - 1) as nat) == 0) by (nonlinear_arith);
        }
        return 0;
    }
    if base >= 300 {
        proof {
            lemma_mul_inequality(1, pow2((n - 1) as nat) as int, base as int);
            assert(base * 1 == base) by (nonlinear_arith);
        }
        return 300;
    }
    proof {
        vstd::arithmetic::power::lemma_pow0(2);
        assert(base * pow2(0) == base) by (nonlinear_arith)
            requires pow2(0) == 1,
        ;
    }
    let mut d: u64 = base;
    let mut i: u32 = 1;
    while i < n
        invariant
            1 <= i <= n,
            d == backoff_spec(base, i),
            d <= 300,
            base >= 1,
        decreases n - i,
    {
        proof {
            lemma_pow2_unfold(i as nat);
            lemma_pow2_pos((i - 1) as nat);
            assert(base * pow2(i as nat) == 2 * (base * pow2((i - 1) as nat)))
                by (nonlinear_arith)
                requires pow2(i as nat) == 2 * pow2((i - 1) as nat),
            ;
            if base * pow2((i - 1) as nat) > 300 {
                lemma_mul_inequality(
                    pow2((i - 1) as nat) as int,
                    pow2(i as nat) as int,
                    base as int,
                );
                lemma_pow2_strictly_increases((i - 1) as nat, i as nat);
                assert(base * pow2((i - 1) as nat) <= base * pow2(i as nat)) by (nonlinear_arith)
                    requires
                        base >= 1,
                        pow2((i - 1) as nat) <= pow2(i as nat),
                ;
            }
        }
        d = d * 2;
        if d > 300 {
            d = 300;
        }
        i += 1;
    }
    d
}

/// What one monitor iteration decides for one dead tunnel.
#[derive(Debug, Clone, Copy, PartialEq, Eq, Structural)]
pub enum ReconnectPlan {
    /// Unknown definition, or not marked for automatic connection, or
    /// disabled: the tunnel stays in Error, permanently, by design.
    Skip,
    /// The attempt limit is exhausted: no relaunch; the tunnel stays in
    /// Error and a failure notification is owed (gated on the
    /// notify-on-disconnect setting).
    GiveUp { attempts: u32 },
    /// Relaunch after the backoff delay, as this attempt number.
    Retry { attempts: u32, delay_sec: u64 },
}

/// The decision for a dead tunnel: skip it unless its definition is known,
/// auto-connect and enabled; then count the new attempt, give up when a
/// nonzero attempt limit is exceeded, and otherwise retry after the
/// backoff delay.
pub open spec fn plan_spec(
    found: Option<TunnelConfig>,
    settings: Settings,
    attempts: Seq<AttemptEntry>,
    id: Seq<char>,
) -> ReconnectPlan {
    match found {
        None => ReconnectPlan::Skip,
        Some(t) => if !(t.auto_connect && t.enabled) {
            ReconnectPlan::Skip
        } else {
            let n = next_count(attempts, id);
            if settings.max_reconnect_attempts > 0 && n > settings.max_reconnect_attempts {
                ReconnectPlan::GiveUp { attempts: n }
            } else {
                ReconnectPlan::Retry {
                    attempts: n,
                    delay_sec: backoff_spec(settings.reconnect_delay_sec, n),
                }
            }
        },
    }
}

/// Decides what to do about one dead tunnel, as `plan_spec` says, reading
/// the definition list and settings fresh from `cfg`. The tunnel's counter
/// is bumped exactly when the tunnel is eligible (its definition is known,
/// auto-connect and enabled); other counters are untouched.
pub fn plan_reconnect(m: &mut MonitorState, cfg: &AppConfig, tunnel_id: &String) -> (p:
    ReconnectPlan)
    requires
        old(m).wf(),
    ensures
        final(m).wf(),
        final(m).running == old(m).running,
        p == plan_spec(
            find_def(cfg.tunnels@, tunnel_id@),
            cfg.settings,
            old(m).reconnect_attempts@,
            tunnel_id@,
        ),
        p is Skip ==> final(m).reconnect_attempts == old(m).reconnect_attempts,
        !(p is Skip) ==> count_of(final(m).reconnect_attempts@, tunnel_id@) == next_count(
            old(m).reconnect_attempts@,
            tunnel_id@,
        ),
        forall|other: Seq<char>|
            other != tunnel_id@ ==> #[trigger] count_of(final(m).reconnect_attempts@, other)
                == count_of(old(m).reconnect_attempts@, other),
{
    let found = crate::config::find_tunnel(&cfg.tunnels, tunnel_id);
    let eligible = match found {
        Some(t) => t.auto_connect && t.enabled,
        None => false,
    };
    if !eligible {
        return ReconnectPlan::Skip;
    }
    let n = record_attempt(m, tunnel_id);
    if cfg.settings.max_reconnect_attempts > 0 && n > cfg.settings.max_reconnect_attempts {
        ReconnectPlan::GiveUp { attempts: n }
    } else {
        let delay = backoff_delay(cfg.settings.reconnect_delay_sec, n);
        ReconnectPlan::Retry { attempts: n, delay_sec: delay }
    }
}

/// Backoff monotonicity: for consecutive failures of the same tunnel, the
/// computed delay never shrinks as the attempt number grows.
pub proof fn lemma_backoff_monotone(base: u64, n: u32)
    requires
        1 <= n < u32::MAX,
    ensures
        backoff_spec(base, n) <= backoff_spec(base, (n + 1) as u32),
{
    lemma_pow2_strictly_increases((n - 1) as nat, n as nat);
    lemma_pow2_pos((n - 1) as nat);
    assert(base * pow2((n - 1) as nat) <= base * pow2(n as nat)) by (nonlinear_arith)
        requires
            pow2((n - 1) as nat) <= pow2(n as nat),
            base >= 0,
    ;
}

/// The attempt-limit boundary: with a limit of three, the fourth
/// consecutive failure of an eligible tunnel is not relaunched; the plan
/// gives up (leaving the tunnel's status Error).
pub proof fn lemma_attempt_limit_boundary(
    t: TunnelConfig,
    settings: Settings,
    attempts: Seq<AttemptEntry>,
    id: Seq<char>,
)
    requires
        t.auto_connect,
        t.enabled,
        settings.max_reconnect_attempts == 3,
        count_of(attempts, id) == 3,
    ensures
        plan_spec(Some(t), settings, attempts, id) == (ReconnectPlan::GiveUp { attempts: 4u32 }),
{
}

/// A successful relaunch resets the slate: once the counter is gone, the
/// next failure of an eligible tunnel runs as attempt one and waits the
/// base delay (capped at five minutes), whatever the attempt limit is.
pub proof fn lemma_reset_restarts_backoff(
    t: TunnelConfig,
    settings: Settings,
    attempts: Seq<AttemptEntry>,
    id: Seq<char>,
)
    requires
        t.auto_connect,
        t.enabled,
        count_of(attempts, id) == 0,
    ensures
        plan_spec(Some(t), settings, attempts, id) == (ReconnectPlan::Retry {
            attempts: 1u32,
            delay_sec: backoff_spec(settings.reconnect_delay_sec, 1),
        }),
        backoff_spec(settings.reconnect_delay_sec, 1) == if settings.reconnect_delay_sec <= 300 {
            settings.reconnect_delay_sec
        } else {
            300u64
        },
{
    assert(pow2(0) == 1) by {
        vstd::arithmetic::power::lemma_pow0(2);
    }
    assert(settings.reconnect_delay_sec * pow2(0) == settings.reconnect_delay_sec)
        by (nonlinear_arith)
        requires pow2(0) == 1,
    ;
}

/// The body of a failure notification after the attempt limit is reached.
pub fn giveup_notification_body(name: &String, attempts: u32) -> (r: String)
    ensures
        r@ == "Tunnel '"@ + name@ + "' failed after "@ + dec_digits(attempts as nat)
            + " attempts"@,
{
    let s = "Tunnel '".to_owned();
    let s = s.concat(name.as_str());
    let s = s.concat("' failed after ");
    let d = u64_to_string(attempts as u64);
    let s = s.concat(d.as_str());
    let s = s.concat(" attempts");
    s
}

/// The body of a success notification after a reconnect.
pub fn reconnected_notification_body(name: &String) -> (r: String)
    ensures
        r@ == "Tunnel '"@ + name@ + "' reconnected"@,
{
    let s = "Tunnel '".to_owned();
    let s = s.concat(name.as_str());
    let s = s.concat("' reconnected");
    s
}

/// The body of a failure notification after a relaunch attempt failed.
pub fn reconnect_failed_notification_body(name: &String, error: &String) -> (r: String)
    ensures
        r@ == "Tunnel '"@ + name@ + "' reconnect failed: "@ + error@,
{
    let s = "Tunnel '".to_owned();
    let s = s.concat(name.as_str());
    let s = s.concat("' reconnect failed: ");
    let s = s.concat(error.as_str());
    s
}

} // verus!
