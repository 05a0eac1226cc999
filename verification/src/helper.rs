//! The controller's view of a running Clew helper and the decisions it
//! takes on the helper's replies: strategy-group bindings, rule
//! publication results, readiness, and confirmation of applied rules.
use vstd::prelude::*;

use crate::compile::{ListenerTable, ProxyGroupEntry};
use crate::rules::AppProxyRule;
use crate::sorted::{insert_sorted, names, strictly_sorted};

verus! {

/// What the controller records of the helper it started (besides the
/// process handle and the credential file, which the runtime holds).
#[derive(Debug)]
pub struct HelperRecord {
    /// Bearer token of this helper instance.
    pub token: String,
    /// The application command line the start request named.
    pub process_cmdline: String,
    /// The compiled rules the helper was last confirmed to run.
    pub rules: Vec<AppProxyRule>,
    /// `127.0.0.1:<port>` of the primary managed listener.
    pub listener: String,
    /// Name of the primary managed listener.
    pub listener_name: String,
    /// Managed listeners of the groups other than the primary one.
    pub extra_listeners: ListenerTable,
    /// The primary strategy group.
    pub strategy_group: String,
    /// The helper's confirmed rule revision.
    pub effective_rules_version: u64,
    /// Set when the helper's state became uncertain.
    pub failed: bool,
}

/// Kinds of Mihomo proxies, as far as the controller distinguishes them.
#[derive(Clone, Copy, Debug, PartialEq, Eq, Structural)]
pub enum ProxyKind {
    Selector,
    URLTest,
    Fallback,
    LoadBalance,
    Other,
}

pub open spec fn is_strategy_kind(k: ProxyKind) -> bool {
    !(k is Other)
}

/// Why a strategy group cannot be bound.
#[derive(Debug, PartialEq, Eq)]
pub enum BindingError {
    /// No proxy of that name exists in the active configuration.
    NotFound { name: String },
    /// The proxy of that name is not a strategy group.
    NotStrategyGroup { name: String },
}

/// `regular` binds to Mihomo's regular rules without a lookup.
pub open spec fn is_regular(name: Seq<char>) -> bool {
    name == "regular"@
}

/// Whether binding `name` needs a lookup of Mihomo's proxies.
pub fn binding_needs_lookup(name: &String) -> (r: bool)
    ensures
        r == !is_regular(name@),
{
    let regular = String::from_str("regular");
    !(*name == regular)
}

/// The binding of strategy group `name`, given what Mihomo reports for
/// that name (`None`: no such proxy): `None` forwards by regular rules,
/// `Some(name)` through the group.
pub fn strategy_binding(name: &String, found: Option<ProxyKind>) -> (r: Result<Option<String>, BindingError>)
    ensures
        is_regular(name@) ==> r == Ok::<Option<String>, BindingError>(None),
        !is_regular(name@) ==> match found {
            None => r matches Err(BindingError::NotFound { name: n }) && n@ == name@,
            Some(k) => if is_strategy_kind(k) {
                r matches Ok(Some(g)) && g@ == name@
            } else {
                r matches Err(BindingError::NotStrategyGroup { name: n }) && n@ == name@
            },
        },
{
    if !binding_needs_lookup(name) {
        return Ok(None);
    }
    match found {
        None => Err(BindingError::NotFound { name: name.clone() }),
        Some(ProxyKind::Other) => Err(BindingError::NotStrategyGroup { name: name.clone() }),
        Some(_) => Ok(Some(name.clone())),
    }
}

/// One proxy of Mihomo's active configuration.
#[derive(Debug)]
pub struct ProxyEntry {
    pub name: String,
    pub kind: ProxyKind,
}

/// The names of the strategy groups among `proxies`, in ascending order.
pub fn list_strategy_groups(proxies: &Vec<ProxyEntry>) -> (r: Vec<String>)
    ensures
        strictly_sorted(names(r@)),
        forall|g: Seq<char>|
            #![trigger names(r@).contains(g)]
            names(r@).contains(g) <==> exists|i: int|
                0 <= i < proxies@.len() && (#[trigger] proxies@[i]).name@ == g && is_strategy_kind(
                    proxies@[i].kind,
                ),
{
    let mut groups: Vec<String> = Vec::new();
    let mut i: usize = 0;
    while i < proxies.len()
        invariant
            i <= proxies.len(),
            strictly_sorted(names(groups@)),
            forall|g: Seq<char>|
                #![trigger names(groups@).contains(g)]
                names(groups@).contains(g) <==> exists|j: int|
                    0 <= j < i && (#[trigger] proxies@[j]).name@ == g && is_strategy_kind(
                        proxies@[j].kind,
                    ),
        decreases proxies.len() - i,
    {
        let is_group = match proxies[i].kind {
            ProxyKind::Other => false,
            _ => true,
        };
        if is_group {
            insert_sorted(&mut groups, &proxies[i].name);
        }
        proof {
            assert forall|g: Seq<char>| #![trigger names(groups@).contains(g)]
                names(groups@).contains(g) <==> exists|j: int|
                    0 <= j < i + 1 && (#[trigger] proxies@[j]).name@ == g && is_strategy_kind(
                        proxies@[j].kind,
                    ) by {
                if exists|j: int|
                    0 <= j < i + 1 && (#[trigger] proxies@[j]).name@ == g && is_strategy_kind(
                        proxies@[j].kind,
                    ) {
                    let j = choose|j: int|
                        0 <= j < i + 1 && (#[trigger] proxies@[j]).name@ == g && is_strategy_kind(
                            proxies@[j].kind,
                        );
                    if j < i {
                        assert(exists|j: int|
                            0 <= j < i && (#[trigger] proxies@[j]).name@ == g && is_strategy_kind(
                                proxies@[j].kind,
                            ));
                    }
                }
            }
        }
        i = i + 1;
    }
    groups
}

/// The body of a rule replacement request to the helper.
#[derive(Debug)]
pub struct RulesPayload {
    pub expected_version: u64,
    pub rules: Vec<AppProxyRule>,
    pub proxy_groups: Vec<ProxyGroupEntry>,
}

/// What came back from a rule replacement request.
#[derive(Debug)]
pub enum PublishReply {
    /// The request was not delivered.
    SendFailed,
    /// A non-success HTTP status.
    HttpStatus { code: u16 },
    /// A success status whose body did not decode as JSON.
    Undecodable,
    /// A success status with a JSON body and its `effective_version`, if
    /// that is an unsigned integer.
    Accepted { effective_version: Option<u64> },
}

/// How a rule publication failed.
#[derive(Clone, Copy, Debug, PartialEq, Eq, Structural)]
pub enum PublishFailure {
    /// The helper refused the rules (HTTP 400); its previous rules stand.
    Rejected,
    /// The outcome is unknown.
    Uncertain,
}

/// The published revision, or how publication failed: only an HTTP 400
/// is a definite rejection.
pub fn classify_publish(reply: &PublishReply) -> (r: Result<u64, PublishFailure>)
    ensures
        match *reply {
            PublishReply::Accepted { effective_version: Some(v) } => r == Ok::<u64, PublishFailure>(v),
            PublishReply::HttpStatus { code } => r == Err::<u64, PublishFailure>(
                if code == 400 {
                    PublishFailure::Rejected
                } else {
                    PublishFailure::Uncertain
                },
            ),
            _ => r == Err::<u64, PublishFailure>(PublishFailure::Uncertain),
        },
{
    match reply {
        PublishReply::Accepted { effective_version: Some(v) } => Ok(*v),
        PublishReply::HttpStatus { code } => {
            if *code == 400 {
                Err(PublishFailure::Rejected)
            } else {
                Err(PublishFailure::Uncertain)
            }
        },
        _ => Err(PublishFailure::Uncertain),
    }
}

/// What to do after the helper rejected new rules.
#[derive(Clone, Copy, Debug, PartialEq, Eq, Structural)]
pub enum RejectionRecovery {
    /// The helper still runs the previous revision: retire the staged
    /// listeners and keep going.
    RestoreListeners,
    /// The helper's revision is unknown: mark the helper failed.
    MarkFailed,
}

/// A rejection is confirmed only when the helper reports the revision
/// that was current before the request.
pub fn recovery_after_rejection(observed_revision: Option<u64>, current_version: u64) -> (r:
    RejectionRecovery)
    ensures
        (r == RejectionRecovery::RestoreListeners) <==> (observed_revision == Some(current_version)),
{
    match observed_revision {
        Some(v) => if v == current_version {
            RejectionRecovery::RestoreListeners
        } else {
            RejectionRecovery::MarkFailed
        },
        None => RejectionRecovery::MarkFailed,
    }
}

/// A proxy group as the helper's `/api/config` reports it: each field
/// present when it holds a value of the expected JSON type.
#[derive(Debug)]
pub struct ObservedGroup {
    pub id: Option<u64>,
    pub port: Option<u64>,
    pub host: Option<String>,
}

/// A rule as the helper's `/api/config` reports it.
#[derive(Debug)]
pub struct ObservedRule {
    pub id: Option<String>,
    pub cmdline_pattern: Option<String>,
    pub proxy_group_id: Option<u64>,
    pub enabled: Option<bool>,
    pub protocol: Option<String>,
    pub hack_tree: Option<bool>,
}

/// The helper's running configuration (`None`: the array is missing).
#[derive(Debug)]
pub struct ObservedConfig {
    pub proxy_groups: Option<Vec<ObservedGroup>>,
    pub auto_rules: Option<Vec<ObservedRule>>,
}

pub open spec fn text_matches(o: Option<String>, s: Seq<char>) -> bool {
    match o {
        Some(x) => x@ == s,
        None => false,
    }
}

pub open spec fn group_matches(o: ObservedGroup, e: ProxyGroupEntry) -> bool {
    &&& o.id == Some(e.id as u64)
    &&& o.port == Some(e.port as u64)
    &&& text_matches(o.host, e.host@)
}

pub open spec fn rule_matches(o: ObservedRule, e: AppProxyRule) -> bool {
    &&& text_matches(o.id, e.id@)
    &&& text_matches(o.cmdline_pattern, e.cmdline_pattern@)
    &&& o.proxy_group_id == Some(e.proxy_group_id as u64)
    &&& o.enabled == Some(e.enabled)
    &&& text_matches(o.protocol, e.protocol@)
    &&& o.hack_tree == Some(e.hack_tree)
}

/// The helper runs exactly as many groups as expected, each expected
/// group matched by some running group on id, port and host.
pub open spec fn groups_applied(observed: Option<Seq<ObservedGroup>>, expected: Seq<ProxyGroupEntry>) -> bool {
    match observed {
        Some(gs) => gs.len() == expected.len() && forall|j: int|
            0 <= j < expected.len() ==> group_found(gs, #[trigger] expected[j]),
        None => false,
    }
}

/// Some running group matches `e`.
pub open spec fn group_found(gs: Seq<ObservedGroup>, e: ProxyGroupEntry) -> bool {
    exists|i: int| 0 <= i < gs.len() && group_matches(#[trigger] gs[i], e)
}

/// Some running rule matches `e`.
pub open spec fn rule_found(rs: Seq<ObservedRule>, e: AppProxyRule) -> bool {
    exists|i: int| 0 <= i < rs.len() && rule_matches(#[trigger] rs[i], e)
}

/// The helper runs exactly as many rules as expected, each expected rule
/// matched by some running rule; nothing is required when no rules are
/// expected.
pub open spec fn rules_applied(observed: Option<Seq<ObservedRule>>, expected: Option<Seq<AppProxyRule>>) -> bool {
    match observed {
        Some(rs) => match expected {
            Some(ex) => rs.len() == ex.len() && forall|j: int|
                0 <= j < ex.len() ==> rule_found(rs, #[trigger] ex[j]),
            None => true,
        },
        None => false,
    }
}

pub open spec fn opt_seq<T>(v: Option<Vec<T>>) -> Option<Seq<T>> {
    match v {
        Some(x) => Some(x@),
        None => None,
    }
}

fn opt_text_is(o: &Option<String>, s: &String) -> (r: bool)
    ensures
        r == text_matches(*o, s@),
{
    match o {
        Some(x) => *x == *s,
        None => false,
    }
}

fn group_match(o: &ObservedGroup, e: &ProxyGroupEntry) -> (r: bool)
    ensures
        r == group_matches(*o, *e),
{
    o.id == Some(e.id as u64) && o.port == Some(e.port as u64) && opt_text_is(&o.host, &e.host)
}

fn rule_match(o: &ObservedRule, e: &AppProxyRule) -> (r: bool)
    ensures
        r == rule_matches(*o, *e),
{
    opt_text_is(&o.id, &e.id) && opt_text_is(&o.cmdline_pattern, &e.cmdline_pattern)
        && o.proxy_group_id == Some(e.proxy_group_id as u64) && o.enabled == Some(e.enabled)
        && opt_text_is(&o.protocol, &e.protocol) && o.hack_tree == Some(e.hack_tree)
}

fn all_groups_found(gs: &Vec<ObservedGroup>, expected: &Vec<ProxyGroupEntry>) -> (r: bool)
    ensures
        r == forall|j: int| 0 <= j < expected@.len() ==> group_found(gs@, #[trigger] expected@[j]),
{
    let mut j: usize = 0;
    while j < expected.len()
        invariant
            j <= expected.len(),
            forall|k: int| 0 <= k < j ==> group_found(gs@, #[trigger] expected@[k]),
        decreases expected.len() - j,
    {
        let mut i: usize = 0;
        let mut found = false;
        while i < gs.len() && !found
            invariant
                i <= gs.len(),
                j < expected.len(),
                found ==> group_found(gs@, expected@[j as int]),
                !found ==> forall|m: int| 0 <= m < i ==> !group_matches(#[trigger] gs@[m], expected@[j as int]),
            decreases gs.len() - i + (if found { 0int } else { 1int }),
        {
            if group_match(&gs[i], &expected[j]) {
                found = true;
            } else {
                i = i + 1;
            }
        }
        if !found {
            proof {
                assert(!group_found(gs@, expected@[j as int]));
            }
            return false;
        }
        j = j + 1;
    }
    true
}

fn all_rules_found(rs: &Vec<ObservedRule>, expected: &Vec<AppProxyRule>) -> (r: bool)
    ensures
        r == forall|j: int| 0 <= j < expected@.len() ==> rule_found(rs@, #[trigger] expected@[j]),
{
    let mut j: usize = 0;
    while j < expected.len()
        invariant
            j <= expected.len(),
            forall|k: int| 0 <= k < j ==> rule_found(rs@, #[trigger] expected@[k]),
        decreases expected.len() - j,
    {
        let mut i: usize = 0;
        let mut found = false;
        while i < rs.len() && !found
            invariant
                i <= rs.len(),
                j < expected.len(),
                found ==> rule_found(rs@, expected@[j as int]),
                !found ==> forall|m: int| 0 <= m < i ==> !rule_matches(#[trigger] rs@[m], expected@[j as int]),
            decreases rs.len() - i + (if found { 0int } else { 1int }),
        {
            if rule_match(&rs[i], &expected[j]) {
                found = true;
            } else {
                i = i + 1;
            }
        }
        if !found {
            proof {
                assert(!rule_found(rs@, expected@[j as int]));
            }
            return false;
        }
        j = j + 1;
    }
    true
}

/// Whether the helper runs the expected groups and rules at the expected
/// revision (one confirmation poll).
pub fn rules_confirmed(
    config: &ObservedConfig,
    expected_rules: Option<&Vec<AppProxyRule>>,
    expected_groups: &Vec<ProxyGroupEntry>,
    observed_revision: Option<u64>,
    expected_version: u64,
) -> (r: bool)
    ensures
        r == (groups_applied(opt_seq(config.proxy_groups), expected_groups@) && rules_applied(
            opt_seq(config.auto_rules),
            match expected_rules {
                Some(v) => Some(v@),
                None => None,
            },
        ) && observed_revision == Some(expected_version)),
        r ==> observed_revision == Some(expected_version),
        r ==> config.proxy_groups is Some && config.auto_rules is Some,
        r ==> config.proxy_groups.unwrap()@.len() == expected_groups@.len() && forall|j: int|
            0 <= j < expected_groups@.len() ==> #[trigger] runs_group(
                config.proxy_groups.unwrap()@,
                expected_groups@[j],
            ),
        (r && expected_rules is Some) ==> config.auto_rules.unwrap()@.len() == expected_rules.unwrap()@.len()
            && forall|j: int|
            0 <= j < expected_rules.unwrap()@.len() ==> #[trigger] runs_rule(
                config.auto_rules.unwrap()@,
                expected_rules.unwrap()@[j],
            ),
{
    let group_ready = match &config.proxy_groups {
        Some(gs) => gs.len() == expected_groups.len() && all_groups_found(gs, expected_groups),
        None => false,
    };
    let rule_ready = match &config.auto_rules {
        Some(rs) => match expected_rules {
            Some(ex) => rs.len() == ex.len() && all_rules_found(rs, ex),
            None => true,
        },
        None => false,
    };
    let revision_ready = observed_revision == Some(expected_version);
    proof {
        if group_ready && rule_ready && revision_ready {
            lemma_groups_applied_fieldwise(config.proxy_groups.unwrap()@, expected_groups@);
            if expected_rules is Some {
                lemma_rules_applied_fieldwise(config.auto_rules.unwrap()@, expected_rules.unwrap()@);
            }
        }
    }
    group_ready && rule_ready && revision_ready
}

/// Some running group has the id, port and host of `e`.
pub open spec fn runs_group(gs: Seq<ObservedGroup>, e: ProxyGroupEntry) -> bool {
    exists|i: int|
        #![trigger gs[i]]
        0 <= i < gs.len() && {
            &&& gs[i].id == Some(e.id as u64)
            &&& gs[i].port == Some(e.port as u64)
            &&& gs[i].host is Some && gs[i].host.unwrap()@ == e.host@
        }
}

/// Some running rule has the id, pattern, proxy group, enablement,
/// protocol and tree hack of `e`.
pub open spec fn runs_rule(rs: Seq<ObservedRule>, e: AppProxyRule) -> bool {
    exists|i: int|
        #![trigger rs[i]]
        0 <= i < rs.len() && {
            &&& rs[i].id is Some && rs[i].id.unwrap()@ == e.id@
            &&& rs[i].cmdline_pattern is Some && rs[i].cmdline_pattern.unwrap()@ == e.cmdline_pattern@
            &&& rs[i].proxy_group_id == Some(e.proxy_group_id as u64)
            &&& rs[i].enabled == Some(e.enabled)
            &&& rs[i].protocol is Some && rs[i].protocol.unwrap()@ == e.protocol@
            &&& rs[i].hack_tree == Some(e.hack_tree)
        }
}

/// When the helper counts as running the expected groups, it runs exactly
/// as many, and each expected group has a running group with the same id,
/// port and host.
pub proof fn lemma_groups_applied_fieldwise(gs: Seq<ObservedGroup>, eg: Seq<ProxyGroupEntry>)
    requires
        groups_applied(Some(gs), eg),
    ensures
        gs.len() == eg.len(),
        forall|j: int| 0 <= j < eg.len() ==> #[trigger] runs_group(gs, eg[j]),
{
    assert forall|j: int| 0 <= j < eg.len() implies #[trigger] runs_group(gs, eg[j]) by {
        assert(group_found(gs, eg[j]));
        let i = choose|i: int| 0 <= i < gs.len() && group_matches(#[trigger] gs[i], eg[j]);
        assert(gs[i].id == Some(eg[j].id as u64));
    }
}

/// When the helper counts as running the expected rules, it runs exactly
/// as many, and each expected rule has a running rule that agrees with it
/// on id, pattern, proxy group, enablement, protocol and tree hack.
pub proof fn lemma_rules_applied_fieldwise(rs: Seq<ObservedRule>, ex: Seq<AppProxyRule>)
    requires
        rules_applied(Some(rs), Some(ex)),
    ensures
        rs.len() == ex.len(),
        forall|j: int| 0 <= j < ex.len() ==> #[trigger] runs_rule(rs, ex[j]),
{
    assert forall|j: int| 0 <= j < ex.len() implies #[trigger] runs_rule(rs, ex[j]) by {
        assert(rule_found(rs, ex[j]));
        let i = choose|i: int| 0 <= i < rs.len() && rule_matches(#[trigger] rs[i], ex[j]);
        assert(rs[i].proxy_group_id == Some(ex[j].proxy_group_id as u64));
    }
}

/// The state of one helper process as polled.
#[derive(Debug)]
pub enum ProcessPoll {
    Running,
    Exited { code: u32 },
    /// The exit status could not be read.
    QueryFailed { message: String },
}

/// Diagnostics kept while waiting for the helper to become ready.
#[derive(Debug)]
pub struct ReadinessState {
    pub last_http_status: Option<u16>,
    pub last_helper_ready: Option<bool>,
    pub last_protocol_version: Option<u64>,
    pub last_headless: Option<bool>,
    pub last_status_protocol_version: Option<u64>,
    pub last_status_headless: Option<bool>,
    pub last_handshake_error: Option<String>,
    pub last_status_error: Option<String>,
}

/// Result of the unauthenticated handshake request.
#[derive(Debug)]
pub enum HandshakeOutcome {
    /// Success status with a JSON body.
    Body { protocol_version: Option<u64>, headless: Option<bool> },
    /// Failure, with the message to record.
    Failed { message: String },
}

/// Result of the authenticated status request.
#[derive(Debug)]
pub enum StatusOutcome {
    /// Success status with a JSON body.
    Body { http_status: u16, helper_ready: Option<bool>, protocol_version: Option<u64>, headless: Option<bool> },
    /// Success status whose body did not decode; the message to record.
    Undecodable { http_status: u16, message: String },
    /// A non-success status; the message to record.
    HttpError { http_status: u16, message: String },
    /// The request failed; the message to record.
    RequestFailed { message: String },
}

/// Why the helper never became ready.
#[derive(Debug)]
pub enum ReadinessFailure {
    Exited { code: u32, state: ReadinessState },
    TimedOut { state: ReadinessState },
}

fn clone_opt_text(s: &Option<String>) -> (r: Option<String>)
    ensures
        r == *s,
{
    match s {
        Some(x) => Some(x.clone()),
        None => None,
    }
}

impl Clone for ReadinessState {
    fn clone(&self) -> (r: Self)
        ensures
            r == *self,
    {
        ReadinessState {
            last_http_status: self.last_http_status,
            last_helper_ready: self.last_helper_ready,
            last_protocol_version: self.last_protocol_version,
            last_headless: self.last_headless,
            last_status_protocol_version: self.last_status_protocol_version,
            last_status_headless: self.last_status_headless,
            last_handshake_error: clone_opt_text(&self.last_handshake_error),
            last_status_error: clone_opt_text(&self.last_status_error),
        }
    }
}

/// The diagnostics after recording a handshake reply.
pub open spec fn after_handshake(s: ReadinessState, handshake: HandshakeOutcome) -> ReadinessState {
    match handshake {
        HandshakeOutcome::Body { protocol_version, headless } => ReadinessState {
            last_protocol_version: protocol_version,
            last_headless: headless,
            last_handshake_error: None,
            ..s
        },
        HandshakeOutcome::Failed { message } => ReadinessState { last_handshake_error: Some(message), ..s },
    }
}

/// `after` is `s` with a status reply recorded: a success body that does
/// not report readiness is recorded as an error too.
pub open spec fn status_recorded(s: ReadinessState, status: StatusOutcome, after: ReadinessState) -> bool {
    match status {
        StatusOutcome::Body { http_status, helper_ready, protocol_version, headless } => {
            let recorded = ReadinessState {
                last_http_status: Some(http_status),
                last_helper_ready: helper_ready,
                last_status_protocol_version: protocol_version,
                last_status_headless: headless,
                ..s
            };
            if helper_ready == Some(true) {
                after == recorded
            } else {
                &&& after.last_status_error matches Some(m) && m@ == "status response reported helper_ready=false"@
                &&& after == (ReadinessState { last_status_error: after.last_status_error, ..recorded })
            }
        },
        StatusOutcome::Undecodable { http_status, message } => after == (ReadinessState {
            last_http_status: Some(http_status),
            last_status_error: Some(message),
            ..s
        }),
        StatusOutcome::HttpError { http_status, message } => after == (ReadinessState {
            last_http_status: Some(http_status),
            last_status_error: Some(message),
            ..s
        }),
        StatusOutcome::RequestFailed { message } => after == (ReadinessState {
            last_status_error: Some(message),
            ..s
        }),
    }
}

impl ReadinessState {
    pub fn new() -> (r: Self)
        ensures
            r.last_http_status is None && r.last_helper_ready is None && r.last_protocol_version is None
                && r.last_headless is None && r.last_status_protocol_version is None
                && r.last_status_headless is None && r.last_handshake_error is None
                && r.last_status_error is None,
    {
        ReadinessState {
            last_http_status: None,
            last_helper_ready: None,
            last_protocol_version: None,
            last_headless: None,
            last_status_protocol_version: None,
            last_status_headless: None,
            last_handshake_error: None,
            last_status_error: None,
        }
    }

    /// First step of a readiness poll: an exited helper or a passed
    /// deadline ends the wait; a failed exit-status query is recorded.
    pub fn check_process(&mut self, poll: ProcessPoll, deadline_passed: bool) -> (r: Result<(), ReadinessFailure>)
        ensures
            match poll {
                ProcessPoll::Exited { code } => r matches Err(ReadinessFailure::Exited { code: c, state })
                    && c == code && state == *old(self) && *final(self) == *old(self),
                ProcessPoll::QueryFailed { message } => *final(self) == (ReadinessState {
                    last_status_error: Some(message),
                    ..*old(self)
                }) && (if deadline_passed {
                    r matches Err(ReadinessFailure::TimedOut { state }) && state == *final(self)
                } else {
                    r is Ok
                }),
                ProcessPoll::Running => *final(self) == *old(self) && (if deadline_passed {
                    r matches Err(ReadinessFailure::TimedOut { state }) && state == *old(self)
                } else {
                    r is Ok
                }),
            },
    {
        match poll {
            ProcessPoll::Exited { code } => {
                return Err(ReadinessFailure::Exited { code, state: self.clone() });
            },
            ProcessPoll::Running => {},
            ProcessPoll::QueryFailed { message } => {
                self.last_status_error = Some(message);
            },
        }
        if deadline_passed {
            return Err(ReadinessFailure::TimedOut { state: self.clone() });
        }
        Ok(())
    }

    /// Second step of a readiness poll: records the handshake and status
    /// replies; returns whether the helper reported `helper_ready: true`.
    pub fn record_probes(&mut self, handshake: HandshakeOutcome, status: StatusOutcome) -> (ready: bool)
        ensures
            ready == (status matches StatusOutcome::Body { helper_ready: Some(true), .. }),
            status_recorded(after_handshake(*old(self), handshake), status, *final(self)),
    {
        match handshake {
            HandshakeOutcome::Body { protocol_version, headless } => {
                self.last_protocol_version = protocol_version;
                self.last_headless = headless;
                self.last_handshake_error = None;
            },
            HandshakeOutcome::Failed { message } => {
                self.last_handshake_error = Some(message);
            },
        }
        match status {
            StatusOutcome::Body { http_status, helper_ready, protocol_version, headless } => {
                self.last_http_status = Some(http_status);
                self.last_helper_ready = helper_ready;
                self.last_status_protocol_version = protocol_version;
                self.last_status_headless = headless;
                match helper_ready {
                    Some(true) => {
                        return true;
                    },
                    _ => {},
                }
                self.last_status_error = Some(
                    String::from_str("status response reported helper_ready=false"),
                );
                false
            },
            StatusOutcome::Undecodable { http_status, message } => {
                self.last_http_status = Some(http_status);
                self.last_status_error = Some(message);
                false
            },
            StatusOutcome::HttpError { http_status, message } => {
                self.last_http_status = Some(http_status);
                self.last_status_error = Some(message);
                false
            },
            StatusOutcome::RequestFailed { message } => {
                self.last_status_error = Some(message);
                false
            },
        }
    }
}

} // verus!
