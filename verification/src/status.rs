//! The status the controller reports, how readiness is decided, the
//! configuration-update epoch that readiness depends on, and the guard
//! that blocks profile switches while forwarding runs.
use vstd::prelude::*;

use crate::helper::HelperRecord;
use crate::listeners::{managed_listener_loaded, section_items, items_loaded, RuntimeListeners};
use crate::rules::{enabled_groups, AppProxyRule};
use crate::sorted::{insert_sorted, names, strictly_sorted};
use crate::text::{
    after_last_colon, all_digits, decimal, decimal_string, digit_value, digits_value, is_digit,
    lemma_decimal_parses, parse_u16_spec, to_chars, concat,
};

verus! {

/// The controller's report on application forwarding.
#[derive(Debug, PartialEq, Eq)]
pub struct AppProxyStatus {
    /// `stopped`, `failed`, `running` or `degraded`.
    pub state: String,
    pub helper_ready: bool,
    pub proxy_ready: bool,
    pub effective_rules_version: Option<u64>,
    pub pid: Option<u32>,
    pub strategy_group: Option<String>,
    pub runtime_id: Option<String>,
    pub last_startup_error: Option<String>,
}

/// The status reported while no helper runs.
pub open spec fn is_stopped_status(
    r: AppProxyStatus,
    runtime_id: Option<String>,
    last_startup_error: Option<String>,
) -> bool {
    &&& r.state@ == "stopped"@
    &&& !r.helper_ready
    &&& !r.proxy_ready
    &&& r.effective_rules_version is None
    &&& r.pid is None
    &&& r.strategy_group is None
    &&& r.runtime_id == runtime_id
    &&& r.last_startup_error == last_startup_error
}

/// The status without a helper.
pub fn stopped_status(runtime_id: Option<String>, last_startup_error: Option<String>) -> (r: AppProxyStatus)
    ensures
        is_stopped_status(r, runtime_id, last_startup_error),
{
    AppProxyStatus {
        state: String::from_str("stopped"),
        helper_ready: false,
        proxy_ready: false,
        effective_rules_version: None,
        pid: None,
        strategy_group: None,
        runtime_id,
        last_startup_error,
    }
}

/// The status after a helper that was found dead has been cleaned up.
pub fn crashed_status(runtime_id: Option<String>, crash_error: String) -> (r: AppProxyStatus)
    ensures
        r.state@ == "failed"@,
        !r.helper_ready,
        !r.proxy_ready,
        r.effective_rules_version is None,
        r.pid is None,
        r.strategy_group is None,
        r.runtime_id == runtime_id,
        r.last_startup_error == Some(crash_error),
{
    AppProxyStatus {
        state: String::from_str("failed"),
        helper_ready: false,
        proxy_ready: false,
        effective_rules_version: None,
        pid: None,
        strategy_group: None,
        runtime_id,
        last_startup_error: Some(crash_error),
    }
}

/// The status after a helper was stopped: the revision and primary group
/// it last had.
pub fn stopped_after(
    effective_rules_version: u64,
    strategy_group: String,
    runtime_id: Option<String>,
    last_startup_error: Option<String>,
) -> (r: AppProxyStatus)
    ensures
        r.state@ == "stopped"@,
        !r.helper_ready,
        !r.proxy_ready,
        r.effective_rules_version == Some(effective_rules_version),
        r.pid is None,
        r.strategy_group == Some(strategy_group),
        r.runtime_id == runtime_id,
        r.last_startup_error == last_startup_error,
{
    AppProxyStatus {
        state: String::from_str("stopped"),
        helper_ready: false,
        proxy_ready: false,
        effective_rules_version: Some(effective_rules_version),
        pid: None,
        strategy_group: Some(strategy_group),
        runtime_id,
        last_startup_error,
    }
}

/// The group a status shows: `multiple` when enabled rules use more than
/// one group, the single group they use, or the primary group when no
/// rule is enabled.
pub fn displayed_group(rules: &Vec<AppProxyRule>, strategy_group: &String) -> (r: String)
    ensures
        (exists|a: Seq<char>, b: Seq<char>|
            enabled_groups(rules@).contains(a) && enabled_groups(rules@).contains(b) && a != b)
            ==> r@ == "multiple"@,
        forall|g: Seq<char>|
            enabled_groups(rules@).contains(g) && (forall|h: Seq<char>|
                enabled_groups(rules@).contains(h) ==> h == g) ==> r@ == g,
        (forall|h: Seq<char>| !enabled_groups(rules@).contains(h)) ==> r@ == strategy_group@,
{
    let mut active: Vec<String> = Vec::new();
    let mut i: usize = 0;
    while i < rules.len()
        invariant
            i <= rules.len(),
            strictly_sorted(names(active@)),
            forall|g: Seq<char>|
                #![trigger names(active@).contains(g)]
                names(active@).contains(g) <==> exists|j: int|
                    0 <= j < i && (#[trigger] rules@[j]).enabled && rules@[j].strategy_group@ == g,
        decreases rules.len() - i,
    {
        if rules[i].enabled {
            insert_sorted(&mut active, &rules[i].strategy_group);
        }
        proof {
            assert forall|g: Seq<char>| #![trigger names(active@).contains(g)]
                names(active@).contains(g) <==> exists|j: int|
                    0 <= j < i + 1 && (#[trigger] rules@[j]).enabled && rules@[j].strategy_group@
                        == g by {
                if exists|j: int|
                    0 <= j < i + 1 && (#[trigger] rules@[j]).enabled && rules@[j].strategy_group@
                        == g {
                    let j = choose|j: int|
                        0 <= j < i + 1 && (#[trigger] rules@[j]).enabled
                            && rules@[j].strategy_group@ == g;
                    if j < i {
                        assert(exists|j: int|
                            0 <= j < i && (#[trigger] rules@[j]).enabled
                                && rules@[j].strategy_group@ == g);
                    }
                }
            }
        }
        i = i + 1;
    }
    let ghost n = names(active@);
    proof {
        assert forall|g: Seq<char>| enabled_groups(rules@).contains(g) <==> n.contains(g) by {
            if enabled_groups(rules@).contains(g) {
                let j = choose|j: int|
                    0 <= j < rules@.len() && (#[trigger] rules@[j]).enabled
                        && rules@[j].strategy_group@ == g;
                assert(exists|j: int|
                    0 <= j < rules@.len() && (#[trigger] rules@[j]).enabled
                        && rules@[j].strategy_group@ == g);
            }
        }
    }
    if active.len() > 1 {
        proof {
            assert(n.contains(n[0]) && n.contains(n[1]));
            crate::text::lemma_lex_irreflexive(n[0]);
            assert(crate::text::lex_lt(n[0], n[1]));
            assert forall|g: Seq<char>|
                enabled_groups(rules@).contains(g) implies !(forall|h: Seq<char>|
                enabled_groups(rules@).contains(h) ==> h == g) by {
                if n[0] == g {
                    assert(enabled_groups(rules@).contains(n[1]));
                } else {
                    assert(enabled_groups(rules@).contains(n[0]));
                }
            }
        }
        String::from_str("multiple")
    } else if active.len() == 1 {
        proof {
            assert(n.contains(n[0]));
            assert forall|a: Seq<char>, b: Seq<char>|
                enabled_groups(rules@).contains(a) && enabled_groups(rules@).contains(b) implies a
                == b by {
                assert(n.contains(a) && n.contains(b));
            }
        }
        active[0].clone()
    } else {
        proof {
            assert forall|h: Seq<char>| !enabled_groups(rules@).contains(h) by {
                if enabled_groups(rules@).contains(h) {
                    assert(n.contains(h));
                }
            }
        }
        strategy_group.clone()
    }
}

/// The port of a listener address: the text after its last `:`, parsed
/// as a `u16` (`listener.rsplit(':').next().and_then(|p| p.parse().ok())`).
pub open spec fn listener_port(listener: Seq<char>) -> Option<u16> {
    parse_u16_spec(after_last_colon(listener))
}

/// The address of a managed loopback listener.
pub open spec fn listener_address_spec(port: u16) -> Seq<char> {
    "127.0.0.1:"@ + decimal(port as nat)
}

/// The address of the managed loopback listener on `port`.
pub fn listener_address(port: u16) -> (r: String)
    ensures
        r@ == listener_address_spec(port),
{
    concat(&String::from_str("127.0.0.1:"), decimal_string(port as u64).as_str())
}

proof fn lemma_after_colon(s: Seq<char>, k: int)
    requires
        0 <= k < s.len(),
        s[k] == ':',
        forall|j: int| k < j < s.len() ==> s[j] != ':',
    ensures
        after_last_colon(s) == s.subrange(k + 1, s.len() as int),
    decreases s.len(),
{
    if s.last() == ':' {
        assert(k == s.len() - 1);
    } else {
        lemma_after_colon(s.drop_last(), k);
        assert(s.drop_last().subrange(k + 1, s.len() - 1).push(s.last()) =~= s.subrange(
            k + 1,
            s.len() as int,
        ));
    }
}

proof fn lemma_no_colon(s: Seq<char>)
    requires
        forall|j: int| 0 <= j < s.len() ==> s[j] != ':',
    ensures
        after_last_colon(s) == s,
    decreases s.len(),
{
    if s.len() > 0 {
        lemma_no_colon(s.drop_last());
        assert(s.drop_last().push(s.last()) =~= s);
    }
}

/// Parses the port of a listener address.
pub fn parse_listener_port(listener: &String) -> (r: Option<u16>)
    ensures
        r == listener_port(listener@),
{
    let s = to_chars(listener.as_str());
    let n = s.len();
    // start of the text after the last ':'
    let mut k: usize = n;
    while k > 0 && s[k - 1] != ':'
        invariant
            k <= n,
            n == s@.len(),
            forall|j: int| k <= j < n ==> s@[j] != ':',
        decreases k,
    {
        k = k - 1;
    }
    let ghost tail = s@.subrange(k as int, n as int);
    proof {
        if k > 0 {
            lemma_after_colon(s@, k - 1);
        } else {
            lemma_no_colon(s@);
            assert(s@.subrange(0, n as int) =~= s@);
        }
        assert(after_last_colon(listener@) == tail);
    }
    let mut start = k;
    if start < n && s[start] == '+' {
        start = start + 1;
    }
    let ghost body = s@.subrange(start as int, n as int);
    proof {
        if k < n && s@[k as int] == '+' {
            assert(tail[0] == s@[k as int]);
            assert(tail.drop_first() =~= body);
        } else {
            if k < n {
                assert(tail[0] == s@[k as int]);
            }
            assert(tail =~= body);
        }
        assert(body == (if tail.len() > 0 && tail[0] == '+' { tail.drop_first() } else { tail }));
    }
    if start == n {
        return None;
    }
    let mut value: u32 = 0;
    let mut i = start;
    while i < n
        invariant
            start <= i <= n,
            n == s@.len(),
            body == s@.subrange(start as int, n as int),
            after_last_colon(listener@) == tail,
            body == (if tail.len() > 0 && tail[0] == '+' { tail.drop_first() } else { tail }),
            all_digits(s@.subrange(start as int, i as int)),
            value == digits_value(s@.subrange(start as int, i as int)),
            value <= 65535,
        decreases n - i,
    {
        let c = s[i];
        let ghost pre = s@.subrange(start as int, i as int);
        let ghost next = s@.subrange(start as int, i + 1);
        proof {
            assert(next.drop_last() =~= pre);
            assert(next.last() == c);
        }
        if !('0' <= c && c <= '9') {
            proof {
                assert(body[i - start] == c);
                assert(!all_digits(body));
            }
            return None;
        }
        let d: u32 = (c as u32) - ('0' as u32);
        value = value * 10 + d;
        proof {
            assert(digit_value(c) == d);
            assert forall|j: int| 0 <= j < next.len() implies is_digit(#[trigger] next[j]) by {
                if j < pre.len() {
                    assert(next[j] == pre[j]);
                }
            }
        }
        if value > 65535 {
            proof {
                lemma_digits_value_grows(body, (i + 1 - start) as int);
                assert(body.subrange(0, (i + 1 - start) as int) =~= next);
            }
            return None;
        }
        i = i + 1;
    }
    assert(body =~= s@.subrange(start as int, n as int));
    Some(value as u16)
}

/// The value of a run of digits only grows as digits are appended.
proof fn lemma_digits_value_grows(s: Seq<char>, k: int)
    requires
        0 <= k <= s.len(),
    ensures
        digits_value(s.subrange(0, k)) <= digits_value(s),
    decreases s.len() - k,
{
    if k < s.len() {
        lemma_digits_value_grows(s, k + 1);
        let t = s.subrange(0, k + 1);
        assert(t.drop_last() =~= s.subrange(0, k));
    } else {
        assert(s.subrange(0, k) =~= s);
    }
}

/// The address recorded for a managed listener parses back to its port.
pub proof fn lemma_listener_address_round_trip(port: u16)
    ensures
        listener_port(listener_address_spec(port)) == Some(port),
{
    let prefix = "127.0.0.1:"@;
    reveal_strlit("127.0.0.1:");
    let s = listener_address_spec(port);
    let d = decimal(port as nat);
    lemma_decimal_parses(port);
    lemma_decimal_all_digits(port as nat);
    assert(s[prefix.len() - 1] == ':');
    assert forall|j: int| prefix.len() <= j < s.len() implies s[j] != ':' by {
        assert(s[j] == d[j - prefix.len()]);
        assert(is_digit(d[j - prefix.len()]));
    }
    lemma_after_colon(s, prefix.len() - 1);
    assert(s.subrange(prefix.len() as int, s.len() as int) =~= d);
}

proof fn lemma_decimal_all_digits(n: nat)
    ensures
        all_digits(decimal(n)),
    decreases n,
{
    if n >= 10 {
        lemma_decimal_all_digits(n / 10);
        let e = decimal(n / 10).push(crate::text::digit_char(n % 10));
        assert forall|i: int| 0 <= i < e.len() implies is_digit(#[trigger] e[i]) by {
            if i < e.len() - 1 {
                assert(e[i] == decimal(n / 10)[i]);
            }
        }
    }
}

/// Configuration updates in progress and an epoch that moves whenever the
/// first update begins or the last one finishes (odd while updates run).
#[derive(Debug)]
pub struct ConfigUpdateTracker {
    depth: usize,
    epoch: u64,
}

pub open spec fn wrap_inc_usize(x: usize) -> usize {
    if x == usize::MAX { 0 } else { (x + 1) as usize }
}

pub open spec fn wrap_dec_usize(x: usize) -> usize {
    if x == 0 { usize::MAX } else { (x - 1) as usize }
}

pub open spec fn wrap_inc_u64(x: u64) -> u64 {
    if x == u64::MAX { 0 } else { (x + 1) as u64 }
}

impl ConfigUpdateTracker {
    pub closed spec fn spec_depth(self) -> usize {
        self.depth
    }

    pub closed spec fn spec_epoch(self) -> u64 {
        self.epoch
    }

    pub fn new() -> (r: Self)
        ensures
            r.spec_depth() == 0,
            r.spec_epoch() == 0,
    {
        ConfigUpdateTracker { depth: 0, epoch: 0 }
    }

    /// A configuration update begins.
    pub fn begin_config_update(&mut self)
        ensures
            (final(self).spec_depth(), final(self).spec_epoch()) == begun(old(self).spec_depth(), old(self).spec_epoch()),
    {
        let before = self.depth;
        self.depth = before.wrapping_add(1);
        if before == 0 {
            self.epoch = self.epoch.wrapping_add(1);
        }
    }

    /// A configuration update finishes.
    pub fn finish_config_update(&mut self)
        ensures
            (final(self).spec_depth(), final(self).spec_epoch()) == finished(old(self).spec_depth(), old(self).spec_epoch()),
    {
        let before = self.depth;
        self.depth = before.wrapping_sub(1);
        if before == 1 {
            self.epoch = self.epoch.wrapping_add(1);
        }
    }

    /// The epoch, to be checked later with `config_update_is_current`.
    pub fn config_update_snapshot(&self) -> (r: u64)
        ensures
            r == self.spec_epoch(),
    {
        self.epoch
    }

    /// No update runs now, none ran while the snapshot `epoch` was taken,
    /// and none began since.
    pub fn config_update_is_current(&self, epoch: u64) -> (r: bool)
        ensures
            r == current_at(self.spec_depth(), self.spec_epoch(), epoch),
    {
        epoch.is_multiple_of(2) && self.depth == 0 && self.epoch == epoch
    }
}

/// A snapshot `epoch` is current for depth `depth` and epoch `now`.
pub open spec fn current_at(depth: usize, now: u64, epoch: u64) -> bool {
    epoch % 2 == 0 && depth == 0 && now == epoch
}

/// Depth and epoch after an update begins (`begin_config_update`).
pub open spec fn begun(depth: usize, epoch: u64) -> (usize, u64) {
    (wrap_inc_usize(depth), if depth == 0 { wrap_inc_u64(epoch) } else { epoch })
}

/// Depth and epoch after an update finishes (`finish_config_update`).
pub open spec fn finished(depth: usize, epoch: u64) -> (usize, u64) {
    (wrap_dec_usize(depth), if depth == 1 { wrap_inc_u64(epoch) } else { epoch })
}

/// Depth and epoch after a trace of updates beginning (`true`) and
/// finishing (`false`).
pub open spec fn after_updates(depth: usize, epoch: u64, ops: Seq<bool>) -> (usize, u64)
    decreases ops.len(),
{
    if ops.len() == 0 {
        (depth, epoch)
    } else {
        let next = if ops[0] { begun(depth, epoch) } else { finished(depth, epoch) };
        after_updates(next.0, next.1, ops.drop_first())
    }
}

/// No update of the trace finishes while none runs.
pub open spec fn balanced_from(depth: usize, epoch: u64, ops: Seq<bool>) -> bool
    decreases ops.len(),
{
    if ops.len() == 0 {
        true
    } else {
        let next = if ops[0] { begun(depth, epoch) } else { finished(depth, epoch) };
        (ops[0] || depth > 0) && balanced_from(next.0, next.1, ops.drop_first())
    }
}

proof fn lemma_epoch_grows(depth: usize, epoch: u64, ops: Seq<bool>)
    requires
        epoch + ops.len() < u64::MAX,
    ensures
        after_updates(depth, epoch, ops).1 >= epoch,
    decreases ops.len(),
{
    if ops.len() > 0 {
        let next = if ops[0] { begun(depth, epoch) } else { finished(depth, epoch) };
        lemma_epoch_grows(next.0, next.1, ops.drop_first());
    }
}

/// A snapshot stays current exactly as long as no configuration update
/// begins: any update begun since, finished or not, makes it stale for
/// good. Holds while the epoch is odd exactly when updates run, no update
/// finishes that did not begin, and the epoch does not wrap.
pub proof fn lemma_snapshot_current_until_update(depth: usize, epoch: u64, ops: Seq<bool>)
    requires
        (epoch % 2 == 1) == (depth > 0),
        balanced_from(depth, epoch, ops),
        epoch + ops.len() < u64::MAX,
    ensures
        current_at(after_updates(depth, epoch, ops).0, after_updates(depth, epoch, ops).1, epoch) <==> (
        epoch % 2 == 0 && !ops.contains(true)),
{
    if ops.len() > 0 && epoch % 2 == 0 {
        assert(depth == 0);
        assert(ops[0]);
        assert(ops.contains(true));
        let next = begun(depth, epoch);
        assert(next.1 == epoch + 1);
        lemma_epoch_grows(next.0, next.1, ops.drop_first());
    }
    if ops.len() == 0 {
        assert(!ops.contains(true));
    }
}

/// Once a configuration update begins, no earlier snapshot is current
/// (short of 2^64 wrap-arounds of the update depth).
pub proof fn lemma_update_invalidates_snapshots(before: ConfigUpdateTracker, after: ConfigUpdateTracker, epoch: u64)
    requires
        before.spec_depth() < usize::MAX,
        after.spec_depth() == wrap_inc_usize(before.spec_depth()),
    ensures
        !(epoch % 2 == 0 && after.spec_depth() == 0 && after.spec_epoch() == epoch),
{
}

/// A completed update (begin then finish from idle) moves the epoch on by
/// two, so a snapshot taken before it is no longer current.
pub proof fn lemma_completed_update_is_noticed(
    t0: ConfigUpdateTracker,
    t1: ConfigUpdateTracker,
    t2: ConfigUpdateTracker,
)
    requires
        t0.spec_depth() == 0,
        t1.spec_depth() == wrap_inc_usize(t0.spec_depth()),
        t1.spec_epoch() == wrap_inc_u64(t0.spec_epoch()),
        t2.spec_depth() == wrap_dec_usize(t1.spec_depth()),
        t2.spec_epoch() == (if t1.spec_depth() == 1 { wrap_inc_u64(t1.spec_epoch()) } else { t1.spec_epoch() }),
    ensures
        t2.spec_depth() == 0,
        t2.spec_epoch() != t0.spec_epoch(),
        t0.spec_epoch() % 2 == t2.spec_epoch() % 2,
{
}

/// Why a profile or subscription switch is refused.
#[derive(Clone, Copy, Debug, PartialEq, Eq, Structural)]
pub enum ProfileSwitchError {
    /// Application forwarding runs; it must be stopped first.
    AppProxyRunning,
}

/// Profile and subscription switches are refused while application
/// forwarding runs.
pub fn ensure_profile_switch_allowed(app_proxy_running: bool) -> (r: Result<(), ProfileSwitchError>)
    ensures
        (r is Err) == app_proxy_running,
{
    if app_proxy_running {
        Err(ProfileSwitchError::AppProxyRunning)
    } else {
        Ok(())
    }
}

/// What changes whether application forwarding runs.
#[derive(Clone, Copy, Debug, PartialEq, Eq, Structural)]
pub enum LifecycleEvent {
    /// A start recorded its helper.
    Started,
    /// A stop or shutdown ran, whatever it returned.
    Stopped,
    /// A status query found the helper dead.
    HelperDied,
}

/// Whether forwarding runs after `event`: only a recorded start sets it
/// running; a stop, a shutdown or a dead helper ends it.
pub fn running_after(event: LifecycleEvent) -> (r: bool)
    ensures
        r == (event == LifecycleEvent::Started),
{
    match event {
        LifecycleEvent::Started => true,
        _ => false,
    }
}

/// Whether forwarding runs after a trace of lifecycle events from an idle
/// controller.
pub open spec fn running_after_all(events: Seq<LifecycleEvent>) -> bool {
    events.len() > 0 && events.last() == LifecycleEvent::Started
}

/// Some start in the trace is followed by no stop and no dead helper.
pub open spec fn started_and_not_ended(events: Seq<LifecycleEvent>) -> bool {
    exists|i: int|
        0 <= i < events.len() && events[i] == LifecycleEvent::Started && forall|j: int|
            i < j < events.len() ==> #[trigger] events[j] == LifecycleEvent::Started
}

/// Profile and subscription switches are refused exactly while a start has
/// recorded its helper and no stop, shutdown or dead helper came after it.
pub proof fn lemma_profile_switch_follows_lifecycle(events: Seq<LifecycleEvent>)
    ensures
        running_after_all(events) <==> started_and_not_ended(events),
{
    if started_and_not_ended(events) {
        let i = choose|i: int|
            0 <= i < events.len() && events[i] == LifecycleEvent::Started && forall|j: int|
                i < j < events.len() ==> #[trigger] events[j] == LifecycleEvent::Started;
        if i < events.len() - 1 {
            assert(events[events.len() - 1] == LifecycleEvent::Started);
        }
    }
    if running_after_all(events) {
        assert(events[events.len() - 1] == LifecycleEvent::Started);
    }
}

/// Stopping is safe to repeat: after a stop nothing runs, a second stop
/// changes nothing, and two stops without a helper report the same status
/// for the same runtime id and last error.
pub proof fn lemma_stop_repeat_safe(
    events: Seq<LifecycleEvent>,
    first: AppProxyStatus,
    second: AppProxyStatus,
    runtime_id: Option<String>,
    last_startup_error: Option<String>,
)
    requires
        is_stopped_status(first, runtime_id, last_startup_error),
        is_stopped_status(second, runtime_id, last_startup_error),
    ensures
        !running_after_all(events.push(LifecycleEvent::Stopped)),
        !running_after_all(events.push(LifecycleEvent::Stopped).push(LifecycleEvent::Stopped)),
        first.state@ == second.state@ && first.helper_ready == second.helper_ready && first.proxy_ready
            == second.proxy_ready && first.effective_rules_version == second.effective_rules_version && first.pid
            == second.pid && first.strategy_group == second.strategy_group && first.runtime_id == second.runtime_id
            && first.last_startup_error == second.last_startup_error,
{
}

/// What one status query observed besides the controller's own record.
#[derive(Debug)]
pub struct StatusProbe {
    /// `helper_ready` of the helper's status reply (false without one).
    pub helper_ready: bool,
    /// `rules_revision` of the helper's status reply.
    pub observed_revision: Option<u64>,
    /// The binding of the primary group, if it could be resolved.
    pub primary_binding: Option<Option<String>>,
    /// The runtime config's `listeners` section.
    pub runtime: RuntimeListeners,
    /// Whether the primary listener accepts connections.
    pub primary_reachable: bool,
    /// For each extra listener in group order: its group still resolves
    /// and the listener accepts connections.
    pub extras: Vec<ExtraListenerProbe>,
    /// No configuration update disturbed the query.
    pub update_stable: bool,
}

#[derive(Debug, Clone, Copy)]
pub struct ExtraListenerProbe {
    pub binding_ok: bool,
    pub reachable: bool,
}

pub open spec fn flatten_binding(b: Option<Option<String>>) -> Option<String> {
    match b {
        Some(Some(g)) => Some(g),
        _ => None,
    }
}

pub open spec fn loaded_in(rl: RuntimeListeners, name: Seq<char>, port: u16, group: Option<String>) -> bool {
    match section_items(rl) {
        Some(items) => items_loaded(items, name, port, group),
        None => false,
    }
}

/// Every managed listener is loaded: the primary one on the port of the
/// recorded address, and each extra listener, whose group must also
/// resolve and whose port must accept connections.
pub open spec fn all_listeners_loaded(record: HelperRecord, probe: StatusProbe) -> bool {
    &&& match listener_port(record.listener@) {
        Some(port) => loaded_in(
            probe.runtime,
            record.listener_name@,
            port,
            flatten_binding(probe.primary_binding),
        ),
        None => false,
    }
    &&& probe.extras@.len() == record.extra_listeners.spec_values().len()
    &&& forall|i: int|
        0 <= i < probe.extras@.len() ==> {
            let spec = record.extra_listeners.spec_values()[i];
            &&& (#[trigger] probe.extras@[i]).binding_ok
            &&& probe.extras@[i].reachable
            &&& loaded_in(probe.runtime, spec.name@, spec.port, spec.group)
        }
}

/// Full readiness: nothing failed, the primary group resolves, no config
/// update interfered, the helper is ready, every managed listener is
/// loaded and the primary one reachable, and the helper runs the recorded
/// (nonzero) revision.
pub open spec fn proxy_ready_spec(record: HelperRecord, probe: StatusProbe) -> bool {
    &&& !record.failed
    &&& probe.primary_binding is Some
    &&& probe.update_stable
    &&& probe.helper_ready
    &&& all_listeners_loaded(record, probe)
    &&& probe.primary_reachable
    &&& probe.observed_revision == Some(record.effective_rules_version)
    &&& record.effective_rules_version > 0
}

/// The status of a live helper, from its record, the stored rules and what
/// one status query observed.
pub fn assess_status(
    record: &HelperRecord,
    rules: &Vec<AppProxyRule>,
    probe: &StatusProbe,
    pid: Option<u32>,
    runtime_id: Option<String>,
    last_startup_error: Option<String>,
) -> (r: AppProxyStatus)
    requires
        record.extra_listeners.wf(),
    ensures
        r.proxy_ready == proxy_ready_spec(*record, *probe),
        r.state@ == (if r.proxy_ready { "running"@ } else { "degraded"@ }),
        r.helper_ready == probe.helper_ready,
        r.proxy_ready ==> {
            &&& probe.helper_ready
            &&& !record.failed
            &&& probe.update_stable
            &&& probe.primary_binding is Some
            &&& probe.primary_reachable
            &&& probe.observed_revision == Some(record.effective_rules_version)
            &&& record.effective_rules_version > 0
        },
        !probe.helper_ready ==> !r.proxy_ready && r.state@ == "degraded"@,
        r.state@ == "running"@ ==> r.helper_ready && r.proxy_ready,
        r.effective_rules_version == Some(record.effective_rules_version),
        r.pid == pid,
        r.strategy_group matches Some(g) && g@ == (if exists|a: Seq<char>, b: Seq<char>|
            enabled_groups(rules@).contains(a) && enabled_groups(rules@).contains(b) && a != b {
            "multiple"@
        } else if exists|g: Seq<char>| enabled_groups(rules@).contains(g) {
            (choose|g: Seq<char>| enabled_groups(rules@).contains(g))
        } else {
            record.strategy_group@
        }),
        r.runtime_id == runtime_id,
        r.last_startup_error == last_startup_error,
{
    let shown = displayed_group(rules, &record.strategy_group);
    proof {
        if !(exists|a: Seq<char>, b: Seq<char>|
            enabled_groups(rules@).contains(a) && enabled_groups(rules@).contains(b) && a != b)
            && exists|g: Seq<char>| enabled_groups(rules@).contains(g) {
            let g = choose|g: Seq<char>| enabled_groups(rules@).contains(g);
            assert forall|h: Seq<char>| enabled_groups(rules@).contains(h) implies h == g by {
                if h != g {
                    assert(enabled_groups(rules@).contains(g) && enabled_groups(rules@).contains(h)
                        && g != h);
                }
            }
        }
    }
    let primary_group = match &probe.primary_binding {
        Some(Some(g)) => Some(g.clone()),
        _ => None,
    };
    let primary_loaded = match parse_listener_port(&record.listener) {
        Some(port) => managed_listener_loaded(&probe.runtime, &record.listener_name, port, &primary_group),
        None => false,
    };
    let extras = record.extra_listeners.values();
    let mut extras_ok = probe.extras.len() == extras.len();
    if extras_ok {
        let mut i: usize = 0;
        while i < extras.len()
            invariant
                i <= extras.len(),
                extras@ == record.extra_listeners.spec_values(),
                probe.extras@.len() == extras@.len(),
                extras_ok == forall|j: int|
                    0 <= j < i ==> {
                        let spec = extras@[j];
                        &&& (#[trigger] probe.extras@[j]).binding_ok
                        &&& probe.extras@[j].reachable
                        &&& loaded_in(probe.runtime, spec.name@, spec.port, spec.group)
                    },
            decreases extras.len() - i,
        {
            let ok = probe.extras[i].binding_ok && probe.extras[i].reachable
                && managed_listener_loaded(
                &probe.runtime,
                &extras[i].name,
                extras[i].port,
                &extras[i].group,
            );
            extras_ok = extras_ok && ok;
            i = i + 1;
        }
    }
    let all_loaded = primary_loaded && extras_ok;
    proof {
        assert(all_loaded == all_listeners_loaded(*record, *probe));
    }
    let proxy_ready = !record.failed && probe.primary_binding.is_some() && probe.update_stable
        && probe.helper_ready && all_loaded && probe.primary_reachable && probe.observed_revision
        == Some(record.effective_rules_version) && record.effective_rules_version > 0;
    proof {
        reveal_strlit("running");
        reveal_strlit("degraded");
        assert("running"@ != "degraded"@) by {
            assert("running"@[0] != "degraded"@[0]);
        }
    }
    AppProxyStatus {
        state: if proxy_ready {
            String::from_str("running")
        } else {
            String::from_str("degraded")
        },
        helper_ready: probe.helper_ready,
        proxy_ready,
        effective_rules_version: Some(record.effective_rules_version),
        pid,
        strategy_group: Some(shown),
        runtime_id,
        last_startup_error,
    }
}

/// A helper is reported ready for proxying only when it says it is ready
/// itself, nothing failed, the primary group resolves, no update
/// interfered, the primary listener is reachable and the helper runs the
/// recorded, nonzero rules revision.
pub proof fn lemma_ready_needs_everything(record: HelperRecord, probe: StatusProbe)
    requires
        proxy_ready_spec(record, probe),
    ensures
        probe.helper_ready,
        !record.failed,
        probe.update_stable,
        probe.primary_binding is Some,
        probe.primary_reachable,
        probe.observed_revision == Some(record.effective_rules_version),
        record.effective_rules_version > 0,
{
}

} // verus!
