use app_proxy::compile::{ListenerTable, ManagedListenerSpec, ProxyGroupEntry};
use app_proxy::controller::{
    check_can_start, check_can_update, current_listener_table, groups_to_stage, UpdateRefusal, desired_listeners, extra_listener_name, helper_listener_names,
    obsolete_listener_names, port_is_unused, primary_group, primary_listener_name, retained_extra_listeners,
    start_rules, validate_rules, validation_listeners, with_strategy_group, without_group,
    AppProxyStartRequest, ListenerStateError, StartRefusal,
};
use app_proxy::helper::{
    classify_publish, list_strategy_groups, recovery_after_rejection, rules_confirmed, strategy_binding,
    BindingError, HandshakeOutcome, HelperRecord, ObservedConfig, ObservedGroup, ObservedRule, ProcessPoll,
    ProxyEntry, ProxyKind, PublishFailure, PublishReply, ReadinessFailure, ReadinessState, RejectionRecovery,
    StatusOutcome,
};
use app_proxy::listeners::{
    clear_desired_listener, configure_listener, managed_listener_loaded, merge_managed_listener,
    remove_listener, ListenerItem, RuntimeListeners,
};
use app_proxy::rules::AppProxyRule;
use app_proxy::status::{
    assess_status, crashed_status, displayed_group, ensure_profile_switch_allowed, listener_address,
    parse_listener_port, running_after, stopped_after, stopped_status, ConfigUpdateTracker, ExtraListenerProbe,
    LifecycleEvent, ProfileSwitchError, StatusProbe,
};

fn rule(id: &str, group: &str, enabled: bool) -> AppProxyRule {
    AppProxyRule {
        id: id.into(),
        name: id.into(),
        enabled,
        process_name: "*".into(),
        cmdline_pattern: format!("*{id}.exe*"),
        hack_tree: false,
        proxy_group_id: 0,
        strategy_group: group.into(),
        protocol: "tcp".into(),
    }
}

fn spec(name: &str, port: u16, group: Option<&str>) -> ManagedListenerSpec {
    ManagedListenerSpec { name: name.into(), port, group: group.map(|g| g.to_string()) }
}

fn item(name: &str, port: u64, proxy: Option<&str>) -> ListenerItem {
    ListenerItem { origin: Some(0), name: Some(name.into()), port: Some(port), proxy: proxy.map(|p| p.to_string()) }
}

fn names_of(items: &RuntimeListeners) -> Vec<String> {
    match items {
        RuntimeListeners::Items(v) => v.iter().map(|i| i.name.clone().unwrap_or_default()).collect(),
        _ => Vec::new(),
    }
}

fn record(extra: ListenerTable) -> HelperRecord {
    HelperRecord {
        token: "t".into(),
        process_cmdline: String::new(),
        rules: Vec::new(),
        listener: "127.0.0.1:7001".into(),
        listener_name: "clash-verge-app-proxy-9".into(),
        extra_listeners: extra,
        strategy_group: "regular".into(),
        effective_rules_version: 3,
        failed: false,
    }
}

#[test]
fn configured_listener_is_loaded_and_removed_one_is_not() {
    let name = "clash-verge-app-proxy-1".to_string();
    let group = Some("G".to_string());
    let rl = configure_listener(RuntimeListeners::Absent, &name, 7890, &group);
    assert!(managed_listener_loaded(&rl, &name, 7890, &group));
    assert!(!managed_listener_loaded(&rl, &name, 7890, &None));
    assert!(!managed_listener_loaded(&rl, &name, 7891, &group));
    let rl = remove_listener(rl, &name);
    assert!(!managed_listener_loaded(&rl, &name, 7890, &group));
    assert_eq!(rl, RuntimeListeners::Items(Vec::new()));
}

#[test]
fn configuring_replaces_entries_of_the_same_name() {
    let rl = RuntimeListeners::Items(vec![item("a", 1, None), item("other", 2, None), item("a", 3, None)]);
    let rl = configure_listener(rl, &"a".to_string(), 9000, &None);
    assert_eq!(names_of(&rl), vec!["other".to_string(), "a".to_string()]);
    assert!(managed_listener_loaded(&rl, &"a".to_string(), 9000, &None));
    assert!(!managed_listener_loaded(&rl, &"a".to_string(), 1, &None));
}

#[test]
fn listener_sections_that_are_not_sequences_are_left_alone() {
    let name = "a".to_string();
    assert_eq!(configure_listener(RuntimeListeners::NoConfig, &name, 1, &None), RuntimeListeners::NoConfig);
    assert_eq!(configure_listener(RuntimeListeners::NotSequence, &name, 1, &None), RuntimeListeners::NotSequence);
    assert_eq!(remove_listener(RuntimeListeners::Absent, &name), RuntimeListeners::Absent);
    assert!(!managed_listener_loaded(&RuntimeListeners::NotSequence, &name, 1, &None));
}

#[test]
fn merging_desired_listeners_and_clearing_one() {
    let desired = vec![spec("p", 7001, None), spec("x", 7002, Some("G"))];
    let rl = RuntimeListeners::Items(vec![item("x", 1, None), item("user", 2, None)]);
    let merged = merge_managed_listener(rl, &desired);
    assert_eq!(names_of(&merged), vec!["user".to_string(), "p".to_string(), "x".to_string()]);
    assert!(managed_listener_loaded(&merged, &"x".to_string(), 7002, &Some("G".to_string())));
    let merged_absent = merge_managed_listener(RuntimeListeners::Absent, &desired);
    assert_eq!(names_of(&merged_absent), vec!["p".to_string(), "x".to_string()]);
    let left = clear_desired_listener(&desired, &"p".to_string());
    assert_eq!(left, vec![spec("x", 7002, Some("G"))]);
}

#[test]
fn listener_addresses_round_trip() {
    assert_eq!(listener_address(7890), "127.0.0.1:7890");
    assert_eq!(parse_listener_port(&listener_address(65535)), Some(65535));
    assert_eq!(parse_listener_port(&"127.0.0.1:+80".to_string()), Some(80));
    assert_eq!(parse_listener_port(&"8080".to_string()), Some(8080));
    assert_eq!(parse_listener_port(&"127.0.0.1:70000".to_string()), None);
    assert_eq!(parse_listener_port(&"127.0.0.1:".to_string()), None);
    assert_eq!(parse_listener_port(&"host:12a".to_string()), None);
}

#[test]
fn config_update_epochs() {
    let mut t = ConfigUpdateTracker::new();
    let before = t.config_update_snapshot();
    assert!(t.config_update_is_current(before));
    t.begin_config_update();
    assert!(!t.config_update_is_current(before));
    let during = t.config_update_snapshot();
    assert_eq!(during % 2, 1);
    t.begin_config_update();
    t.finish_config_update();
    assert!(!t.config_update_is_current(t.config_update_snapshot()));
    t.finish_config_update();
    let after = t.config_update_snapshot();
    assert_eq!(after, 2);
    assert!(t.config_update_is_current(after));
    assert!(!t.config_update_is_current(before));
}

#[test]
fn profile_switch_refused_while_running() {
    assert_eq!(ensure_profile_switch_allowed(true), Err(ProfileSwitchError::AppProxyRunning));
    assert_eq!(ensure_profile_switch_allowed(false), Ok(()));
}

#[test]
fn stopped_and_failed_statuses() {
    let s = stopped_status(None, Some("boom".into()));
    assert_eq!(s.state, "stopped");
    assert!(!s.helper_ready && !s.proxy_ready && s.pid.is_none() && s.effective_rules_version.is_none());
    assert_eq!(s.last_startup_error.as_deref(), Some("boom"));
    let f = crashed_status(Some("run".into()), "gone".into());
    assert_eq!((f.state.as_str(), f.last_startup_error.as_deref()), ("failed", Some("gone")));
    let a = stopped_after(4, "regular".into(), None, None);
    assert_eq!((a.state.as_str(), a.effective_rules_version), ("stopped", Some(4)));
    assert_eq!(a.strategy_group.as_deref(), Some("regular"));
}

#[test]
fn displayed_strategy_group() {
    let primary = "regular".to_string();
    assert_eq!(displayed_group(&vec![rule("a", "G", true), rule("b", "H", true)], &primary), "multiple");
    assert_eq!(displayed_group(&vec![rule("a", "G", true), rule("b", "G", true), rule("c", "H", false)], &primary), "G");
    assert_eq!(displayed_group(&vec![rule("a", "G", false)], &primary), "regular");
}

fn ready_probe(runtime: RuntimeListeners, extras: Vec<ExtraListenerProbe>) -> StatusProbe {
    StatusProbe {
        helper_ready: true,
        observed_revision: Some(3),
        primary_binding: Some(None),
        runtime,
        primary_reachable: true,
        extras,
        update_stable: true,
    }
}

#[test]
fn status_running_only_when_everything_is_ready() {
    let mut extra = ListenerTable::new();
    extra.insert("G".to_string(), spec("clash-verge-app-proxy-9-aaaaaaaa", 7002, Some("G")));
    let rec = record(extra);
    let rules = vec![rule("a", "G", true)];
    let runtime = || {
        RuntimeListeners::Items(vec![
            item("clash-verge-app-proxy-9", 7001, None),
            item("clash-verge-app-proxy-9-aaaaaaaa", 7002, Some("G")),
        ])
    };
    let ok_extra = vec![ExtraListenerProbe { binding_ok: true, reachable: true }];
    let s = assess_status(&rec, &rules, &ready_probe(runtime(), ok_extra.clone()), Some(42), None, None);
    assert!(s.proxy_ready);
    assert_eq!(s.state, "running");
    assert_eq!((s.pid, s.effective_rules_version), (Some(42), Some(3)));
    assert_eq!(s.strategy_group.as_deref(), Some("G"));

    let mut stale = ready_probe(runtime(), ok_extra.clone());
    stale.observed_revision = Some(2);
    assert_eq!(assess_status(&rec, &rules, &stale, None, None, None).state, "degraded");
    let mut unstable = ready_probe(runtime(), ok_extra.clone());
    unstable.update_stable = false;
    assert!(!assess_status(&rec, &rules, &unstable, None, None, None).proxy_ready);
    let unreachable_extra = vec![ExtraListenerProbe { binding_ok: true, reachable: false }];
    assert!(!assess_status(&rec, &rules, &ready_probe(runtime(), unreachable_extra), None, None, None).proxy_ready);
    let missing = RuntimeListeners::Items(vec![item("clash-verge-app-proxy-9", 7001, None)]);
    assert!(!assess_status(&rec, &rules, &ready_probe(missing, ok_extra.clone()), None, None, None).proxy_ready);
    let mut failed = record(ListenerTable::new());
    failed.failed = true;
    let only_primary = RuntimeListeners::Items(vec![item("clash-verge-app-proxy-9", 7001, None)]);
    assert!(!assess_status(&failed, &rules, &ready_probe(only_primary, Vec::new()), None, None, None).proxy_ready);
}

#[test]
fn strategy_bindings() {
    let regular = "regular".to_string();
    let g = "Proxy".to_string();
    assert_eq!(strategy_binding(&regular, None), Ok(None));
    assert_eq!(strategy_binding(&g, None), Err(BindingError::NotFound { name: "Proxy".into() }));
    assert_eq!(strategy_binding(&g, Some(ProxyKind::Other)), Err(BindingError::NotStrategyGroup { name: "Proxy".into() }));
    assert_eq!(strategy_binding(&g, Some(ProxyKind::URLTest)), Ok(Some("Proxy".into())));
}

#[test]
fn strategy_groups_are_listed_in_order() {
    let proxies = vec![
        ProxyEntry { name: "Zed".into(), kind: ProxyKind::Selector },
        ProxyEntry { name: "DIRECT".into(), kind: ProxyKind::Other },
        ProxyEntry { name: "Auto".into(), kind: ProxyKind::URLTest },
        ProxyEntry { name: "Balance".into(), kind: ProxyKind::LoadBalance },
        ProxyEntry { name: "Backup".into(), kind: ProxyKind::Fallback },
    ];
    assert_eq!(list_strategy_groups(&proxies), vec!["Auto", "Backup", "Balance", "Zed"]);
}

#[test]
fn publication_replies_are_classified() {
    assert_eq!(classify_publish(&PublishReply::Accepted { effective_version: Some(5) }), Ok(5));
    assert_eq!(classify_publish(&PublishReply::Accepted { effective_version: None }), Err(PublishFailure::Uncertain));
    assert_eq!(classify_publish(&PublishReply::HttpStatus { code: 400 }), Err(PublishFailure::Rejected));
    assert_eq!(classify_publish(&PublishReply::HttpStatus { code: 409 }), Err(PublishFailure::Uncertain));
    assert_eq!(classify_publish(&PublishReply::Undecodable), Err(PublishFailure::Uncertain));
    assert_eq!(classify_publish(&PublishReply::SendFailed), Err(PublishFailure::Uncertain));
    assert_eq!(recovery_after_rejection(Some(3), 3), RejectionRecovery::RestoreListeners);
    assert_eq!(recovery_after_rejection(Some(4), 3), RejectionRecovery::MarkFailed);
    assert_eq!(recovery_after_rejection(None, 3), RejectionRecovery::MarkFailed);
}

#[test]
fn applied_rules_are_confirmed() {
    let expected_groups = vec![ProxyGroupEntry { id: 0, name: "regular".into(), host: "127.0.0.1".into(), port: 7001 }];
    let mut compiled = rule("a", "regular", true);
    compiled.proxy_group_id = 0;
    let expected_rules = vec![compiled];
    let config = ObservedConfig {
        proxy_groups: Some(vec![ObservedGroup { id: Some(0), port: Some(7001), host: Some("127.0.0.1".into()) }]),
        auto_rules: Some(vec![ObservedRule {
            id: Some("a".into()),
            cmdline_pattern: Some("*a.exe*".into()),
            proxy_group_id: Some(0),
            enabled: Some(true),
            protocol: Some("tcp".into()),
            hack_tree: Some(false),
        }]),
    };
    assert!(rules_confirmed(&config, Some(&expected_rules), &expected_groups, Some(2), 2));
    assert!(!rules_confirmed(&config, Some(&expected_rules), &expected_groups, Some(1), 2));
    assert!(rules_confirmed(&config, None, &expected_groups, Some(2), 2));
    let wrong_port = ObservedConfig {
        proxy_groups: Some(vec![ObservedGroup { id: Some(0), port: Some(7002), host: Some("127.0.0.1".into()) }]),
        auto_rules: Some(Vec::new()),
    };
    assert!(!rules_confirmed(&wrong_port, None, &expected_groups, Some(2), 2));
    let no_rules = ObservedConfig { proxy_groups: config.proxy_groups, auto_rules: None };
    assert!(!rules_confirmed(&no_rules, None, &expected_groups, Some(2), 2));
}

#[test]
fn readiness_polls() {
    let mut state = ReadinessState::new();
    assert!(state.check_process(ProcessPoll::Running, false).is_ok());
    let ready = state.record_probes(
        HandshakeOutcome::Body { protocol_version: Some(1), headless: Some(true) },
        StatusOutcome::Body { http_status: 200, helper_ready: Some(false), protocol_version: Some(1), headless: Some(true) },
    );
    assert!(!ready);
    assert_eq!(state.last_status_error.as_deref(), Some("status response reported helper_ready=false"));
    assert_eq!(state.last_http_status, Some(200));
    let ready = state.record_probes(
        HandshakeOutcome::Failed { message: "handshake returned HTTP 503".into() },
        StatusOutcome::Body { http_status: 200, helper_ready: Some(true), protocol_version: Some(1), headless: Some(true) },
    );
    assert!(ready);
    assert_eq!(state.last_protocol_version, Some(1));
    assert_eq!(state.last_handshake_error.as_deref(), Some("handshake returned HTTP 503"));
    match state.check_process(ProcessPoll::Exited { code: 3 }, false) {
        Err(ReadinessFailure::Exited { code, .. }) => assert_eq!(code, 3),
        other => panic!("unexpected {other:?}"),
    }
    match state.check_process(ProcessPoll::QueryFailed { message: "q".into() }, true) {
        Err(ReadinessFailure::TimedOut { state: s }) => assert_eq!(s.last_status_error.as_deref(), Some("q")),
        other => panic!("unexpected {other:?}"),
    }
}

#[test]
fn start_rule_selection() {
    let stored = vec![rule("s", "regular", true)];
    let given = vec![rule("g", "G", true)];
    let req = |rules: Option<Vec<AppProxyRule>>, cmd: &str| AppProxyStartRequest {
        process_cmdline: cmd.into(),
        strategy_group: "G".into(),
        correlation_id: None,
        rules,
    };
    assert_eq!(start_rules(&req(Some(given.clone()), "x"), &stored), given);
    assert_eq!(start_rules(&req(Some(Vec::new()), "x"), &stored), stored);
    assert_eq!(start_rules(&req(None, "   "), &stored), stored);
    let single = start_rules(&req(None, "*app.exe*"), &stored);
    assert_eq!(single.len(), 1);
    assert_eq!(single[0].id, "verge-app-proxy");
    assert_eq!(single[0].name, "Verge selected application");
    assert_eq!((single[0].cmdline_pattern.as_str(), single[0].strategy_group.as_str()), ("*app.exe*", "G"));
    assert!(single[0].enabled && !single[0].hack_tree);
    assert_eq!((single[0].process_name.as_str(), single[0].protocol.as_str()), ("*", "tcp"));
}

#[test]
fn start_refusals() {
    assert_eq!(check_can_start(true, &vec![rule("a", "regular", true)]), Err(StartRefusal::AlreadyRunning));
    assert_eq!(check_can_start(false, &vec![rule("a", "regular", false)]), Err(StartRefusal::NoEnabledRules));
    assert_eq!(check_can_start(false, &Vec::new()), Err(StartRefusal::NoEnabledRules));
    assert_eq!(check_can_start(false, &vec![rule("a", "regular", false), rule("b", "G", true)]), Ok(()));
}

#[test]
fn listener_names_belong_to_this_instance() {
    assert_eq!(primary_group(), "regular");
    assert_eq!(primary_listener_name(1234), "clash-verge-app-proxy-1234");
    let a = extra_listener_name(1234);
    let b = extra_listener_name(1234);
    let prefix = "clash-verge-app-proxy-1234-";
    assert!(a.starts_with(prefix));
    assert_eq!(a.len(), prefix.len() + 8);
    assert!(a[prefix.len()..].chars().all(|c| c.is_ascii_alphanumeric() || c == '_' || c == '-'));
    assert_ne!(a, b);
}

#[test]
fn listener_table_bookkeeping() {
    let mut t = ListenerTable::new();
    t.insert("regular".to_string(), spec("p", 7001, None));
    t.insert("G".to_string(), spec("g", 7002, Some("G")));
    t.insert("H".to_string(), spec("h", 7003, Some("H")));
    assert!(!port_is_unused(&t, 7002));
    assert!(port_is_unused(&t, 7004));
    let w = without_group(&t, &"G".to_string());
    assert_eq!(w.len(), 2);
    assert!(!w.contains_group(&"G".to_string()));
    let kept = retained_extra_listeners(&t, &"regular".to_string(), &vec![rule("a", "H", true), rule("b", "G", false)]);
    assert_eq!(kept.len(), 1);
    assert_eq!(kept.get(&"H".to_string()).map(|s| s.port), Some(7003));
    let gone = obsolete_listener_names(&t, &"regular".to_string(), &kept);
    assert_eq!(gone, vec!["g".to_string()]);
    let desired = desired_listeners(&spec("p", 7001, None), &kept);
    assert_eq!(desired, vec![spec("p", 7001, None), spec("h", 7003, Some("H"))]);
}

#[test]
fn helper_listener_table_and_names() {
    let mut extra = ListenerTable::new();
    extra.insert("G".to_string(), spec("g", 7002, Some("G")));
    let rec = record(extra);
    let t = current_listener_table(&rec, &None).unwrap();
    assert_eq!(t.len(), 2);
    assert_eq!(t.get(&"regular".to_string()), Some(&spec("clash-verge-app-proxy-9", 7001, None)));
    assert_eq!(helper_listener_names(&rec), vec!["clash-verge-app-proxy-9".to_string(), "g".to_string()]);
    let mut broken = record(ListenerTable::new());
    broken.listener = "127.0.0.1:bad".into();
    assert_eq!(current_listener_table(&broken, &None).unwrap_err(), ListenerStateError::InvalidPrimaryListener);
}

#[test]
fn validation_without_a_helper() {
    let rules = vec![rule("a", "G", true), rule("b", "H", false)];
    let v = validation_listeners(&rules);
    assert_eq!(v.len(), 2);
    assert!(v.contains_group(&"G".to_string()) && v.contains_group(&"regular".to_string()));
    assert!(validate_rules(&rules).is_ok());
    assert!(validate_rules(&vec![rule("a", "G", true), rule("a", "G", true)]).is_err());
}

#[test]
fn strategy_command_regroups_every_rule() {
    let rules = vec![rule("a", "G", true), rule("b", "regular", false)];
    let out = with_strategy_group(&rules, &"Proxy".to_string());
    assert!(out.iter().all(|r| r.strategy_group == "Proxy"));
    assert_eq!(out[1].enabled, false);
    assert_eq!(out[0].id, "a");
}

#[test]
fn update_needs_a_live_unfailed_helper() {
    assert_eq!(check_can_update(false, true), Ok(()));
    assert_eq!(check_can_update(true, true), Err(UpdateRefusal::NotReady));
    assert_eq!(check_can_update(false, false), Err(UpdateRefusal::NotReady));
}

#[test]
fn groups_to_stage_are_the_missing_required_groups() {
    let mut t = ListenerTable::new();
    t.insert("regular".to_string(), spec("p", 7001, None));
    t.insert("G".to_string(), spec("g", 7002, Some("G")));
    let rules = vec![rule("a", "Zed", true), rule("b", "G", true), rule("c", "Alpha", true), rule("d", "Off", false)];
    assert_eq!(groups_to_stage(&rules, &"regular".to_string(), &t), vec!["Alpha".to_string(), "Zed".to_string()]);
    assert!(groups_to_stage(&vec![rule("a", "G", true)], &"regular".to_string(), &t).is_empty());
    assert_eq!(groups_to_stage(&Vec::new(), &"regular".to_string(), &ListenerTable::new()), vec!["regular".to_string()]);
}

#[test]
fn lifecycle_sets_and_clears_running() {
    assert!(running_after(LifecycleEvent::Started));
    assert!(!running_after(LifecycleEvent::Stopped));
    assert!(!running_after(LifecycleEvent::HelperDied));
    assert!(ensure_profile_switch_allowed(running_after(LifecycleEvent::Started)).is_err());
    assert!(ensure_profile_switch_allowed(running_after(LifecycleEvent::Stopped)).is_ok());
    let first = stopped_status(None, Some("e".into()));
    let second = stopped_status(None, Some("e".into()));
    assert_eq!(first, second);
}

#[test]
fn merging_twice_equals_merging_once() {
    let desired = vec![spec("p", 7001, None), spec("x", 7002, Some("G"))];
    let rl = RuntimeListeners::Items(vec![item("x", 1, None), item("user", 2, None), item("p", 3, None)]);
    let once = merge_managed_listener(rl, &desired);
    let once_names = names_of(&once);
    assert_eq!(once_names, vec!["user".to_string(), "p".to_string(), "x".to_string()]);
    let RuntimeListeners::Items(items) = once else { panic!("items expected") };
    let again = merge_managed_listener(RuntimeListeners::Items(items.clone()), &desired);
    assert_eq!(again, RuntimeListeners::Items(items));
}

#[test]
fn epoch_trace_makes_earlier_snapshots_stale() {
    let mut t = ConfigUpdateTracker::new();
    let snap = t.config_update_snapshot();
    t.begin_config_update();
    t.begin_config_update();
    t.finish_config_update();
    t.finish_config_update();
    t.begin_config_update();
    t.finish_config_update();
    assert!(!t.config_update_is_current(snap));
    assert!(t.config_update_is_current(t.config_update_snapshot()));
}
