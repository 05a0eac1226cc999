//! Decisions of the controller's start, rule-update and stop sequences,
//! taken between the runtime's steps (port allocation, Mihomo reloads,
//! helper requests): which rules a start runs, how listeners are named,
//! which listeners a committed update keeps, retires and publishes.
use vstd::prelude::*;

use crate::compile::{
    all_valid, compile_rules, first_fault, CompileError, ListenerBinding, ListenerTable,
    ManagedListenerSpec,
};
use crate::helper::HelperRecord;
use crate::rules::{required_group_set, required_groups, AppProxyRule};
use crate::sorted::{lemma_names_contains, names, strictly_sorted};
use crate::status::{listener_port, parse_listener_port};
use crate::text::{concat, decimal, decimal_string, strip, to_chars, trim, CharClass};

verus! {

/// A request to start application forwarding.
#[derive(Debug)]
pub struct AppProxyStartRequest {
    /// A command-line pattern to forward when no rule list is given.
    pub process_cmdline: String,
    /// Backend-owned strategy group name, not an arbitrary port or path.
    pub strategy_group: String,
    pub correlation_id: Option<String>,
    /// Rules to run instead of the stored ones.
    pub rules: Option<Vec<AppProxyRule>>,
}

/// The single rule a start request with only a command line asks for.
pub open spec fn single_rule_ok(r: AppProxyRule, request: AppProxyStartRequest) -> bool {
    &&& r.id@ == "verge-app-proxy"@
    &&& r.name@ == "Verge selected application"@
    &&& r.enabled
    &&& r.process_name@ == "*"@
    &&& r.cmdline_pattern == request.process_cmdline
    &&& !r.hack_tree
    &&& r.proxy_group_id == 0
    &&& r.strategy_group == request.strategy_group
    &&& r.protocol@ == "tcp"@
}

/// The rules a start runs: the request's rules when it has a nonempty
/// list; the stored rules when it has an empty one; otherwise a single
/// rule for its command line when that is not blank, else the stored rules.
pub fn start_rules(request: &AppProxyStartRequest, stored: &Vec<AppProxyRule>) -> (r: Vec<AppProxyRule>)
    ensures
        match request.rules {
            Some(v) => if v@.len() > 0 {
                r@ == v@
            } else {
                r@ == stored@
            },
            None => if trim(request.process_cmdline@).len() > 0 {
                r@.len() == 1 && single_rule_ok(r@[0], *request)
            } else {
                r@ == stored@
            },
        },
{
    match &request.rules {
        Some(v) => {
            if v.len() > 0 {
                v.clone()
            } else {
                stored.clone()
            }
        },
        None => {
            let cmd = to_chars(request.process_cmdline.as_str());
            if strip(&cmd, CharClass::WhiteSpace, true, true).len() > 0 {
                let mut out: Vec<AppProxyRule> = Vec::new();
                out.push(
                    AppProxyRule {
                        id: String::from_str("verge-app-proxy"),
                        name: String::from_str("Verge selected application"),
                        enabled: true,
                        process_name: String::from_str("*"),
                        cmdline_pattern: request.process_cmdline.clone(),
                        hack_tree: false,
                        proxy_group_id: 0,
                        strategy_group: request.strategy_group.clone(),
                        protocol: String::from_str("tcp"),
                    },
                );
                out
            } else {
                stored.clone()
            }
        },
    }
}

/// Why a start is refused before any listener or helper is touched.
#[derive(Clone, Copy, Debug, PartialEq, Eq, Structural)]
pub enum StartRefusal {
    /// A helper of this controller already runs.
    AlreadyRunning,
    /// None of the rules to run is enabled.
    NoEnabledRules,
    /// The helper API port is taken by another process.
    ApiPortOccupied,
}

/// Refuses a start while a helper runs or when no rule is enabled.
pub fn check_can_start(running: bool, rules: &Vec<AppProxyRule>) -> (r: Result<(), StartRefusal>)
    ensures
        running ==> r == Err::<(), StartRefusal>(StartRefusal::AlreadyRunning),
        !running ==> (r == Err::<(), StartRefusal>(StartRefusal::NoEnabledRules) <==> forall|i: int|
            0 <= i < rules@.len() ==> !(#[trigger] rules@[i]).enabled),
        !running ==> (r is Ok <==> exists|i: int| 0 <= i < rules@.len() && (#[trigger] rules@[i]).enabled),
{
    if running {
        return Err(StartRefusal::AlreadyRunning);
    }
    let mut i: usize = 0;
    while i < rules.len()
        invariant
            !running,
            i <= rules.len(),
            forall|j: int| 0 <= j < i ==> !(#[trigger] rules@[j]).enabled,
        decreases rules.len() - i,
    {
        if rules[i].enabled {
            return Ok(());
        }
        i = i + 1;
    }
    Err(StartRefusal::NoEnabledRules)
}

/// The group every helper keeps a listener for: Mihomo's regular rules.
pub fn primary_group() -> (r: String)
    ensures
        r@ == "regular"@,
{
    String::from_str("regular")
}

pub open spec fn listener_prefix(pid: u32) -> Seq<char> {
    "clash-verge-app-proxy-"@ + decimal(pid as nat)
}

/// The name of this instance's primary managed listener.
pub fn primary_listener_name(pid: u32) -> (r: String)
    ensures
        r@ == listener_prefix(pid),
{
    concat(&String::from_str("clash-verge-app-proxy-"), decimal_string(pid as u64).as_str())
}

/// The characters of nanoid's URL-safe alphabet.
pub open spec fn is_id_char(c: char) -> bool {
    ||| c == '_'
    ||| c == '-'
    ||| ('0' <= c && c <= '9')
    ||| ('a' <= c && c <= 'z')
    ||| ('A' <= c && c <= 'Z')
}

/// Wraps `nanoid::format(nanoid::rngs::default, &nanoid::alphabet::SAFE,
/// size)`, which `nanoid!(size)` expands to. Claimed, as its source shows:
/// the result has `size` characters, each from the 64-character URL-safe
/// alphabet (ASCII, so `format`'s byte count is the character count).
/// Which characters come out is random and not stated. `size` must be
/// positive: `format` returns only right after pushing a character. The
/// random source panics if the operating system's entropy source fails,
/// which no argument can rule out.
#[verifier::external_body]
pub(crate) fn random_id(size: usize) -> (r: String)
    requires
        size > 0,
    ensures
        r@.len() == size,
        forall|i: int| 0 <= i < r@.len() ==> is_id_char(#[trigger] r@[i]),
{
    nanoid::format(nanoid::rngs::default, &nanoid::alphabet::SAFE, size)
}

/// A fresh name for an extra managed listener: the instance prefix, a
/// dash and 8 random id characters.
pub fn extra_listener_name(pid: u32) -> (r: String)
    ensures
        exists|suffix: Seq<char>|
            r@ == listener_prefix(pid) + "-"@ + suffix && suffix.len() == 8 && forall|i: int|
                0 <= i < suffix.len() ==> is_id_char(#[trigger] suffix[i]),
{
    let prefix = concat(&primary_listener_name(pid), "-");
    let suffix = random_id(8);
    let r = concat(&prefix, suffix.as_str());
    assert(r@ == listener_prefix(pid) + "-"@ + suffix@);
    r
}

/// Whether no listener of the table uses `port`.
pub fn port_is_unused(listeners: &ListenerTable, port: u16) -> (r: bool)
    ensures
        r == forall|i: int|
            0 <= i < listeners.spec_values().len() ==> (#[trigger] listeners.spec_values()[i]).port
                != port,
{
    let values = listeners.values();
    let mut i: usize = 0;
    while i < values.len()
        invariant
            i <= values.len(),
            values@ == listeners.spec_values(),
            forall|j: int| 0 <= j < i ==> (#[trigger] values@[j]).port != port,
        decreases values.len() - i,
    {
        if values[i].port == port {
            return false;
        }
        i = i + 1;
    }
    true
}

/// The table without the binding of `group`.
pub fn without_group(listeners: &ListenerTable, group: &String) -> (r: ListenerTable)
    requires
        listeners.wf(),
    ensures
        r.wf(),
        forall|g: Seq<char>| #[trigger] r.has(g) <==> (listeners.has(g) && g != group@),
        forall|g: Seq<char>| #![trigger r.lookup(g)] r.has(g) ==> r.lookup(g) == listeners.lookup(g),
{
    filter_groups(listeners, group, None)
}

/// The bindings of groups other than `primary` that are still required
/// (`keep: Some(required)`), or of every group other than `primary`
/// (`keep: None`).
fn filter_groups(listeners: &ListenerTable, primary: &String, keep: Option<&Vec<String>>) -> (r: ListenerTable)
    requires
        listeners.wf(),
    ensures
        r.wf(),
        forall|g: Seq<char>|
            #[trigger] r.has(g) <==> (listeners.has(g) && g != primary@ && match keep {
                Some(k) => names(k@).contains(g),
                None => true,
            }),
        forall|g: Seq<char>| #![trigger r.lookup(g)] r.has(g) ==> r.lookup(g) == listeners.lookup(g),
{
    let entries = listeners.bindings();
    let mut out = ListenerTable::new();
    let mut i: usize = 0;
    while i < entries.len()
        invariant
            i <= entries.len(),
            listeners.wf(),
            entries@ == listeners.spec_entries(),
            out.wf(),
            forall|g: Seq<char>|
                #[trigger] out.has(g) <==> (exists|j: int|
                    0 <= j < i && (#[trigger] entries@[j]).group@ == g) && g != primary@ && match keep {
                    Some(k) => names(k@).contains(g),
                    None => true,
                },
            forall|g: Seq<char>| #![trigger out.lookup(g)] out.has(g) ==> out.lookup(g) == listeners.lookup(g),
        decreases entries.len() - i,
    {
        let b = entries[i].clone();
        let keep_it = b.group != *primary && match keep {
            Some(k) => crate::sorted::position_of(k, &b.group).is_some(),
            None => true,
        };
        proof {
            match keep {
                Some(k) => lemma_names_contains(k@, b.group@),
                None => {},
            }
            listeners.lemma_index(i as int);
        }
        let ghost before = out;
        if keep_it {
            out.insert(b.group, b.spec);
        }
        proof {
            assert forall|g: Seq<char>|
                #[trigger] out.has(g) <==> (exists|j: int|
                    0 <= j < i + 1 && (#[trigger] entries@[j]).group@ == g) && g != primary@ && match keep {
                    Some(k) => names(k@).contains(g),
                    None => true,
                } by {
                if exists|j: int| 0 <= j < i + 1 && (#[trigger] entries@[j]).group@ == g {
                    let j = choose|j: int| 0 <= j < i + 1 && (#[trigger] entries@[j]).group@ == g;
                    if j < i {
                        assert(exists|j: int| 0 <= j < i && (#[trigger] entries@[j]).group@ == g);
                    }
                }
            }
        }
        i = i + 1;
    }
    proof {
        assert forall|g: Seq<char>|
            #[trigger] out.has(g) <==> (listeners.has(g) && g != primary@ && match keep {
                Some(k) => names(k@).contains(g),
                None => true,
            }) by {
            if listeners.has(g) {
                let j = choose|j: int| 0 <= j < listeners.spec_groups().len() && listeners.spec_groups()[j] == g;
                assert(entries@[j].group@ == g);
            }
            if exists|j: int| 0 <= j < entries@.len() && (#[trigger] entries@[j]).group@ == g {
                let j = choose|j: int| 0 <= j < entries@.len() && (#[trigger] entries@[j]).group@ == g;
                assert(listeners.spec_groups()[j] == g);
            }
        }
    }
    out
}

/// Why the controller cannot reconstruct its listener table.
#[derive(Clone, Copy, Debug, PartialEq, Eq, Structural)]
pub enum ListenerStateError {
    /// The recorded primary listener address has no parsable port.
    InvalidPrimaryListener,
}

/// The managed listeners of a running helper, keyed by group: the primary
/// listener (its port taken from the recorded address, its forwarding
/// group from the current binding) and the extra listeners.
pub fn current_listener_table(record: &HelperRecord, primary_binding: &Option<String>) -> (r: Result<
    ListenerTable,
    ListenerStateError,
>)
    requires
        record.extra_listeners.wf(),
    ensures
        match listener_port(record.listener@) {
            None => r == Err::<ListenerTable, ListenerStateError>(
                ListenerStateError::InvalidPrimaryListener,
            ),
            Some(port) => r matches Ok(t) && t.wf() && (forall|g: Seq<char>|
                #[trigger] t.has(g) <==> (g == record.strategy_group@ || record.extra_listeners.has(g)))
                && (forall|g: Seq<char>|
                #![trigger t.lookup(g)]
                record.extra_listeners.has(g) ==> t.lookup(g) == record.extra_listeners.lookup(g))
                && (!record.extra_listeners.has(record.strategy_group@) ==> t.lookup(
                record.strategy_group@,
            ) == (ManagedListenerSpec {
                name: record.listener_name,
                port,
                group: *primary_binding,
            })),
        },
{
    let port = match parse_listener_port(&record.listener) {
        Some(p) => p,
        None => {
            return Err(ListenerStateError::InvalidPrimaryListener);
        },
    };
    let mut t = ListenerTable::new();
    t.insert(
        record.strategy_group.clone(),
        ManagedListenerSpec {
            name: record.listener_name.clone(),
            port,
            group: crate::compile::clone_opt_string(primary_binding),
        },
    );
    let entries = record.extra_listeners.bindings();
    let mut i: usize = 0;
    while i < entries.len()
        invariant
            i <= entries.len(),
            record.extra_listeners.wf(),
            entries@ == record.extra_listeners.spec_entries(),
            t.wf(),
            forall|g: Seq<char>|
                #[trigger] t.has(g) <==> (g == record.strategy_group@ || exists|j: int|
                    0 <= j < i && (#[trigger] entries@[j]).group@ == g),
            forall|j: int|
                0 <= j < i ==> t.lookup((#[trigger] entries@[j]).group@) == entries@[j].spec,
            (forall|j: int| 0 <= j < i ==> (#[trigger] entries@[j]).group@ != record.strategy_group@)
                ==> t.lookup(record.strategy_group@) == (ManagedListenerSpec {
                name: record.listener_name,
                port,
                group: *primary_binding,
            }),
        decreases entries.len() - i,
    {
        let b = entries[i].clone();
        let ghost before = t;
        let ghost gi = b.group@;
        t.insert(b.group, b.spec);
        proof {
            record.extra_listeners.lemma_index(i as int);
            assert forall|j: int| 0 <= j < i + 1 implies t.lookup((#[trigger] entries@[j]).group@)
                == entries@[j].spec by {
                if j < i {
                    if entries@[j].group@ == gi {
                        assert(record.extra_listeners.spec_groups()[j] == record.extra_listeners.spec_groups()[i as int]);
                        if j < i {
                            assert(crate::text::lex_lt(record.extra_listeners.spec_groups()[j], record.extra_listeners.spec_groups()[i as int]));
                            crate::text::lemma_lex_irreflexive(gi);
                        }
                    }
                }
            }
            assert forall|g: Seq<char>|
                #[trigger] t.has(g) <==> (g == record.strategy_group@ || exists|j: int|
                    0 <= j < i + 1 && (#[trigger] entries@[j]).group@ == g) by {
                if exists|j: int| 0 <= j < i + 1 && (#[trigger] entries@[j]).group@ == g {
                    let j = choose|j: int| 0 <= j < i + 1 && (#[trigger] entries@[j]).group@ == g;
                    if j < i {
                        assert(exists|j: int| 0 <= j < i && (#[trigger] entries@[j]).group@ == g);
                    }
                }
            }
        }
        i = i + 1;
    }
    proof {
        assert forall|g: Seq<char>|
            #[trigger] t.has(g) <==> (g == record.strategy_group@ || record.extra_listeners.has(g)) by {
            if record.extra_listeners.has(g) {
                let j = choose|j: int| 0 <= j < record.extra_listeners.spec_groups().len() && record.extra_listeners.spec_groups()[j] == g;
                assert(entries@[j].group@ == g);
            }
            if exists|j: int| 0 <= j < entries@.len() && (#[trigger] entries@[j]).group@ == g {
                let j = choose|j: int| 0 <= j < entries@.len() && (#[trigger] entries@[j]).group@ == g;
                assert(record.extra_listeners.spec_groups()[j] == g);
            }
        }
        assert forall|g: Seq<char>| #![trigger t.lookup(g)]
            record.extra_listeners.has(g) implies t.lookup(g) == record.extra_listeners.lookup(g) by {
            let j = choose|j: int| 0 <= j < record.extra_listeners.spec_groups().len() && record.extra_listeners.spec_groups()[j] == g;
            record.extra_listeners.lemma_index(j);
            assert(entries@[j].group@ == g);
        }
        if !record.extra_listeners.has(record.strategy_group@) {
            assert forall|j: int| 0 <= j < entries@.len() implies (#[trigger] entries@[j]).group@ != record.strategy_group@ by {
                assert(record.extra_listeners.spec_groups()[j] == entries@[j].group@);
            }
        }
    }
    Ok(t)
}

/// Why a rule update against the running helper is refused.
#[derive(Clone, Copy, Debug, PartialEq, Eq, Structural)]
pub enum UpdateRefusal {
    /// The helper's state is uncertain or its process has ended.
    NotReady,
}

/// A rule update needs a helper that is not marked failed and still runs.
pub fn check_can_update(failed: bool, alive: bool) -> (r: Result<(), UpdateRefusal>)
    ensures
        r is Ok <==> (!failed && alive),
        r is Err ==> r == Err::<(), UpdateRefusal>(UpdateRefusal::NotReady),
{
    if !failed && alive {
        Ok(())
    } else {
        Err(UpdateRefusal::NotReady)
    }
}

/// The groups an update must stage a new listener for: the groups the new
/// rules require that have no listener yet, in ascending order.
pub fn groups_to_stage(rules: &Vec<AppProxyRule>, primary: &String, listeners: &ListenerTable) -> (r: Vec<String>)
    requires
        listeners.wf(),
    ensures
        strictly_sorted(names(r@)),
        forall|g: Seq<char>|
            #![trigger names(r@).contains(g)]
            names(r@).contains(g) <==> (required_group_set(rules@, primary@).contains(g) && !listeners.has(g)),
{
    let required = required_groups(rules, primary);
    let mut out: Vec<String> = Vec::new();
    let mut i: usize = 0;
    while i < required.len()
        invariant
            i <= required.len(),
            listeners.wf(),
            strictly_sorted(names(required@)),
            strictly_sorted(names(out@)),
            forall|a: int| 0 <= a < out@.len() ==> exists|j: int| 0 <= j < i && (#[trigger] out@[a])@ == required@[j]@,
            forall|g: Seq<char>|
                #![trigger names(out@).contains(g)]
                names(out@).contains(g) <==> (exists|j: int| 0 <= j < i && (#[trigger] required@[j])@ == g)
                    && !listeners.has(g),
        decreases required.len() - i,
    {
        let ghost before = out@;
        if !listeners.contains_group(&required[i]) {
            out.push(required[i].clone());
            proof {
                let n = names(out@);
                assert forall|a: int, b: int| 0 <= a < b < n.len() implies crate::text::lex_lt(#[trigger] n[a], #[trigger] n[b]) by {
                    if b == n.len() - 1 {
                        let j = choose|j: int| 0 <= j < i && (#[trigger] before[a])@ == required@[j]@;
                        assert(names(required@)[j] == required@[j]@);
                        assert(names(required@)[i as int] == required@[i as int]@);
                    } else {
                        assert(names(before)[a] == n[a] && names(before)[b] == n[b]);
                    }
                }
            }
        }
        proof {
            assert forall|a: int| 0 <= a < out@.len() implies exists|j: int| 0 <= j < i + 1 && (#[trigger] out@[a])@
                == required@[j]@ by {
                if a < before.len() {
                    let j = choose|j: int| 0 <= j < i && (#[trigger] before[a])@ == required@[j]@;
                    assert(out@[a] == before[a]);
                } else {
                    assert(out@[a]@ == required@[i as int]@);
                }
            }
            assert forall|g: Seq<char>| #![trigger names(out@).contains(g)]
                names(out@).contains(g) <==> (exists|j: int| 0 <= j < i + 1 && (#[trigger] required@[j])@ == g)
                    && !listeners.has(g) by {
                lemma_names_contains(out@, g);
                lemma_names_contains(before, g);
                if names(out@).contains(g) {
                    let a = choose|a: int| 0 <= a < out@.len() && out@[a]@ == g;
                    if a < before.len() {
                        assert(before[a] == out@[a]);
                        assert(names(before).contains(g));
                        let j = choose|j: int| 0 <= j < i && (#[trigger] required@[j])@ == g;
                    }
                }
                if (exists|j: int| 0 <= j < i + 1 && (#[trigger] required@[j])@ == g) && !listeners.has(g) {
                    let j = choose|j: int| 0 <= j < i + 1 && (#[trigger] required@[j])@ == g;
                    if j < i {
                        assert(names(before).contains(g));
                        let a = choose|a: int| 0 <= a < before.len() && before[a]@ == g;
                        assert(out@[a] == before[a]);
                    } else {
                        assert(out@[out@.len() - 1]@ == g);
                    }
                }
            }
        }
        i = i + 1;
    }
    proof {
        assert forall|g: Seq<char>| #![trigger names(out@).contains(g)]
            names(out@).contains(g) <==> (required_group_set(rules@, primary@).contains(g) && !listeners.has(g)) by {
            lemma_names_contains(required@, g);
        }
    }
    out
}

/// Listeners kept after a committed rule update: those of groups other
/// than the primary one that the new rules still require.
pub fn retained_extra_listeners(listeners: &ListenerTable, primary: &String, new_rules: &Vec<AppProxyRule>) -> (r:
    ListenerTable)
    requires
        listeners.wf(),
    ensures
        r.wf(),
        forall|g: Seq<char>|
            #[trigger] r.has(g) <==> (listeners.has(g) && g != primary@ && required_group_set(
                new_rules@,
                primary@,
            ).contains(g)),
        forall|g: Seq<char>| #![trigger r.lookup(g)] r.has(g) ==> r.lookup(g) == listeners.lookup(g),
{
    let required = required_groups(new_rules, primary);
    filter_groups(listeners, primary, Some(&required))
}

/// Whether a committed update retires the listener of `b`: its group is
/// not the primary one and is no longer kept.
pub open spec fn retired(b: ListenerBinding, primary: Seq<char>, kept: ListenerTable) -> bool {
    b.group@ != primary && !kept.has(b.group@)
}

/// The names of the retired listeners among `entries`, in order.
pub open spec fn retired_names(entries: Seq<ListenerBinding>, primary: Seq<char>, kept: ListenerTable) -> Seq<String>
    decreases entries.len(),
{
    if entries.len() == 0 {
        Seq::empty()
    } else {
        let rest = retired_names(entries.drop_last(), primary, kept);
        if retired(entries.last(), primary, kept) {
            rest.push(entries.last().spec.name)
        } else {
            rest
        }
    }
}

/// Names of the listeners a committed update retires, in group order.
pub fn obsolete_listener_names(old_listeners: &ListenerTable, primary: &String, kept: &ListenerTable) -> (r: Vec<
    String,
>)
    requires
        kept.wf(),
    ensures
        r@ == retired_names(old_listeners.spec_entries(), primary@, *kept),
{
    let entries = old_listeners.bindings();
    let mut out: Vec<String> = Vec::new();
    let mut i: usize = 0;
    while i < entries.len()
        invariant
            i <= entries.len(),
            kept.wf(),
            entries@ == old_listeners.spec_entries(),
            out@ == retired_names(entries@.take(i as int), primary@, *kept),
        decreases entries.len() - i,
    {
        proof {
            let t = entries@.take(i + 1);
            assert(t.drop_last() =~= entries@.take(i as int));
            assert(t.last() == entries@[i as int]);
        }
        if entries[i].group != *primary && !kept.contains_group(&entries[i].group) {
            out.push(entries[i].spec.name.clone());
        }
        i = i + 1;
    }
    assert(entries@.take(entries.len() as int) =~= entries@);
    out
}

/// The desired managed listeners after an update: the primary listener
/// first, then the kept extra listeners in group order.
pub fn desired_listeners(primary_spec: &ManagedListenerSpec, extras: &ListenerTable) -> (r: Vec<ManagedListenerSpec>)
    ensures
        r@ == seq![*primary_spec] + extras.spec_values(),
{
    let mut out: Vec<ManagedListenerSpec> = Vec::new();
    out.push(primary_spec.clone());
    let mut rest = extras.values();
    out.append(&mut rest);
    out
}

/// The names of every managed listener of a helper: the primary one, then
/// the extra ones in group order.
pub fn helper_listener_names(record: &HelperRecord) -> (r: Vec<String>)
    ensures
        r@.len() == record.extra_listeners.spec_values().len() + 1,
        r@[0] == record.listener_name,
        forall|i: int|
            0 <= i < record.extra_listeners.spec_values().len() ==> (#[trigger] r@[i + 1])
                == record.extra_listeners.spec_values()[i].name,
{
    let mut out: Vec<String> = Vec::new();
    out.push(record.listener_name.clone());
    let values = record.extra_listeners.values();
    let mut i: usize = 0;
    while i < values.len()
        invariant
            i <= values.len(),
            values@ == record.extra_listeners.spec_values(),
            out@.len() == i + 1,
            out@[0] == record.listener_name,
            forall|j: int| 0 <= j < i ==> (#[trigger] out@[j + 1]) == values@[j].name,
        decreases values.len() - i,
    {
        out.push(values[i].name.clone());
        i = i + 1;
    }
    out
}

/// Placeholder listeners (port 0) for every group `rules` require with
/// `regular` as primary group: used to validate rules while no helper runs.
pub fn validation_listeners(rules: &Vec<AppProxyRule>) -> (r: ListenerTable)
    ensures
        r.wf(),
        forall|g: Seq<char>| #[trigger] r.has(g) <==> required_group_set(rules@, "regular"@).contains(g),
        forall|g: Seq<char>|
            #![trigger r.lookup(g)]
            r.has(g) ==> r.lookup(g).name@ == g && r.lookup(g).port == 0 && r.lookup(g).group is None,
{
    let groups = required_groups(rules, &primary_group());
    let mut t = ListenerTable::new();
    let mut i: usize = 0;
    while i < groups.len()
        invariant
            i <= groups.len(),
            t.wf(),
            forall|g: Seq<char>|
                #[trigger] t.has(g) <==> exists|j: int| 0 <= j < i && (#[trigger] groups@[j])@ == g,
            forall|g: Seq<char>|
                #![trigger t.lookup(g)]
                t.has(g) ==> t.lookup(g).name@ == g && t.lookup(g).port == 0 && t.lookup(g).group is None,
        decreases groups.len() - i,
    {
        t.insert(
            groups[i].clone(),
            ManagedListenerSpec { name: groups[i].clone(), port: 0, group: None },
        );
        proof {
            assert forall|g: Seq<char>|
                #[trigger] t.has(g) <==> exists|j: int| 0 <= j < i + 1 && (#[trigger] groups@[j])@ == g by {
                if exists|j: int| 0 <= j < i + 1 && (#[trigger] groups@[j])@ == g {
                    let j = choose|j: int| 0 <= j < i + 1 && (#[trigger] groups@[j])@ == g;
                    if j < i {
                        assert(exists|j: int| 0 <= j < i && (#[trigger] groups@[j])@ == g);
                    }
                }
            }
        }
        i = i + 1;
    }
    proof {
        assert forall|g: Seq<char>| #[trigger] t.has(g) <==> required_group_set(rules@, "regular"@).contains(g) by {
            lemma_names_contains(groups@, g);
        }
    }
    t
}

/// Validates rules while no helper runs: every rule must pass; listeners
/// are not needed yet.
pub fn validate_rules(rules: &Vec<AppProxyRule>) -> (r: Result<(), CompileError>)
    ensures
        (r is Ok) <==> all_valid(rules@),
        match r {
            Err(CompileError::InvalidRule { index, fault }) => first_fault(rules@, index as int, fault),
            Err(CompileError::MissingListener { .. }) => false,
            Ok(()) => true,
        },
{
    let listeners = validation_listeners(rules);
    match compile_rules(rules, &primary_group(), &listeners) {
        Ok(_) => Ok(()),
        Err(e) => Err(e),
    }
}

/// `rule` routed to `group`.
pub open spec fn regrouped(rule: AppProxyRule, group: String) -> AppProxyRule {
    AppProxyRule { strategy_group: group, ..rule }
}

/// Every rule with its strategy group replaced by `group` (the strategy
/// command's edit).
pub fn with_strategy_group(rules: &Vec<AppProxyRule>, group: &String) -> (r: Vec<AppProxyRule>)
    ensures
        r@.len() == rules@.len(),
        forall|i: int|
            0 <= i < rules@.len() ==> (#[trigger] r@[i]) == regrouped(rules@[i], *group),
{
    let mut out: Vec<AppProxyRule> = Vec::new();
    let mut i: usize = 0;
    while i < rules.len()
        invariant
            i <= rules.len(),
            out@.len() == i,
            forall|j: int|
                0 <= j < i ==> (#[trigger] out@[j]) == regrouped(rules@[j], *group),
        decreases rules.len() - i,
    {
        let mut r = rules[i].clone();
        r.strategy_group = group.clone();
        out.push(r);
        i = i + 1;
    }
    out
}

} // verus!
