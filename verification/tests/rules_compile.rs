use app_proxy::compile::{compile_rules, CompileError, ListenerTable, ManagedListenerSpec, RuleFault};
use app_proxy::rules::{
    default_process_name, default_protocol, default_strategy_group, default_true, remove_rule_by_id,
    required_groups, toggle_rule_by_id, upsert_rule, AppProxyRule,
};

fn make_rule(id: &str, group: &str) -> AppProxyRule {
    AppProxyRule {
        id: id.into(),
        name: id.into(),
        enabled: true,
        process_name: "*".into(),
        cmdline_pattern: format!("*{id}.exe*"),
        hack_tree: false,
        proxy_group_id: 0,
        strategy_group: group.into(),
        protocol: "tcp".into(),
    }
}

fn rule_with_pattern(id: &str, pattern: &str) -> AppProxyRule {
    AppProxyRule { cmdline_pattern: pattern.into(), ..make_rule(id, "regular") }
}

fn spec(name: &str, port: u16, group: Option<&str>) -> ManagedListenerSpec {
    ManagedListenerSpec { name: name.into(), port, group: group.map(|g| g.to_string()) }
}

fn regular_only() -> ListenerTable {
    let mut listeners = ListenerTable::new();
    listeners.insert("regular".to_string(), spec("regular-listener", 12001, None));
    listeners
}

#[test]
fn compiles_independent_application_outlets() {
    let rules = vec![make_rule("one", "regular"), make_rule("two", "GROUP_B")];
    let mut listeners = ListenerTable::new();
    listeners.insert("regular".to_string(), spec("regular-listener", 12001, None));
    listeners.insert("GROUP_B".to_string(), spec("fixed-listener", 12002, Some("GROUP_B")));
    let (compiled, groups) = compile_rules(&rules, &"regular".to_string(), &listeners).unwrap();
    assert_eq!((compiled[0].proxy_group_id, compiled[1].proxy_group_id), (0, 1));
    assert_eq!((Some(groups[0].port as u64), Some(groups[1].port as u64)), (Some(12001), Some(12002)));
    assert_eq!(required_groups(&rules, &"regular".to_string()).len(), 2);
}

#[test]
fn rejects_broad_interpreter_rules() {
    let rule = AppProxyRule {
        id: "node".into(),
        name: "Node".into(),
        enabled: true,
        process_name: "*".into(),
        cmdline_pattern: "*node.exe*".into(),
        hack_tree: false,
        proxy_group_id: 0,
        strategy_group: "regular".into(),
        protocol: "tcp".into(),
    };
    let listeners = regular_only();
    assert!(compile_rules(&vec![rule], &"regular".to_string(), &listeners).is_err());
}

#[test]
fn rule_field_defaults() {
    assert!(default_true());
    assert_eq!(default_process_name(), "*");
    assert_eq!(default_protocol(), "tcp");
    assert_eq!(default_strategy_group(), "regular");
}

#[test]
fn shared_strategy_shares_a_group_and_groups_are_ordered() {
    let rules = vec![
        make_rule("a", "Zeta"),
        make_rule("b", "Alpha"),
        make_rule("c", "Zeta"),
        make_rule("d", "regular"),
    ];
    let mut listeners = regular_only();
    listeners.insert("Zeta".to_string(), spec("z", 12003, Some("Zeta")));
    listeners.insert("Alpha".to_string(), spec("a", 12002, Some("Alpha")));
    let (compiled, groups) = compile_rules(&rules, &"regular".to_string(), &listeners).unwrap();
    let names: Vec<&str> = groups.iter().map(|g| g.name.as_str()).collect();
    assert_eq!(names, vec!["regular", "Alpha", "Zeta"]);
    let ids: Vec<usize> = groups.iter().map(|g| g.id).collect();
    assert_eq!(ids, vec![0, 1, 2]);
    assert!(groups.iter().all(|g| g.host == "127.0.0.1"));
    assert_eq!(groups[1].port, 12002);
    let group_ids: Vec<u32> = compiled.iter().map(|r| r.proxy_group_id).collect();
    assert_eq!(group_ids, vec![2, 1, 2, 0]);
}

#[test]
fn disabled_rules_keep_their_group_id_and_need_no_listener() {
    let mut off = make_rule("off", "Missing");
    off.enabled = false;
    off.proxy_group_id = 7;
    let rules = vec![make_rule("on", "regular"), off];
    let (compiled, groups) = compile_rules(&rules, &"regular".to_string(), &regular_only()).unwrap();
    assert_eq!(groups.len(), 1);
    assert_eq!(compiled[1].proxy_group_id, 7);
    assert_eq!(compiled[1], rules[1]);
}

#[test]
fn compile_reports_each_rule_fault() {
    let listeners = regular_only();
    let regular = "regular".to_string();
    let cases: Vec<(AppProxyRule, RuleFault)> = vec![
        (rule_with_pattern("   ", "*a.exe*"), RuleFault::InvalidId),
        (rule_with_pattern("x", "   "), RuleFault::EmptyMatch),
        (rule_with_pattern("x", "*"), RuleFault::TooBroad),
        (rule_with_pattern("x", "  *Clash-Verge.EXE* "), RuleFault::TooBroad),
        (rule_with_pattern("x", "\"C:\\nodejs\\node.exe\""), RuleFault::ScriptInterpreter),
        (rule_with_pattern("x", "C:\\Python\\pythonw.exe  "), RuleFault::ScriptInterpreter),
        (AppProxyRule { protocol: "udp".into(), ..make_rule("x", "regular") }, RuleFault::UnsupportedProtocol),
    ];
    for (rule, fault) in cases {
        let got = compile_rules(&vec![rule], &regular, &listeners);
        assert_eq!(got.unwrap_err(), CompileError::InvalidRule { index: 0, fault });
    }
}

#[test]
fn compile_reports_the_first_faulty_rule_and_duplicate_ids() {
    let rules = vec![make_rule("a", "regular"), make_rule("b", "regular"), make_rule("a", "regular")];
    let got = compile_rules(&rules, &"regular".to_string(), &regular_only());
    assert_eq!(got.unwrap_err(), CompileError::InvalidRule { index: 2, fault: RuleFault::InvalidId });
}

#[test]
fn specific_script_command_lines_are_accepted() {
    let rules = vec![rule_with_pattern("srv", "node.exe C:\\app\\server.js")];
    assert!(compile_rules(&rules, &"regular".to_string(), &regular_only()).is_ok());
}

#[test]
fn compile_reports_a_missing_listener() {
    let rules = vec![make_rule("a", "GroupB"), make_rule("b", "GroupA")];
    let got = compile_rules(&rules, &"regular".to_string(), &regular_only());
    assert_eq!(got.unwrap_err(), CompileError::MissingListener { group: "GroupA".into() });
    let got = compile_rules(&rules, &"regular".to_string(), &ListenerTable::new());
    assert_eq!(got.unwrap_err(), CompileError::MissingListener { group: "regular".into() });
}

#[test]
fn required_groups_are_sorted_and_distinct() {
    let mut off = make_rule("c", "Other");
    off.enabled = false;
    let rules = vec![make_rule("a", "Zeta"), make_rule("b", "Alpha"), make_rule("d", "Zeta"), off];
    let groups = required_groups(&rules, &"regular".to_string());
    assert_eq!(groups, vec!["Alpha".to_string(), "Zeta".to_string(), "regular".to_string()]);
}

#[test]
fn rule_list_edits() {
    let mut rules = vec![make_rule("a", "regular"), make_rule("b", "regular")];
    upsert_rule(&mut rules, make_rule("b", "G"));
    assert_eq!(rules.len(), 2);
    assert_eq!(rules[1].strategy_group, "G");
    upsert_rule(&mut rules, make_rule("c", "H"));
    assert_eq!(rules.len(), 3);
    assert_eq!(rules[2].id, "c");
    toggle_rule_by_id(&mut rules, &"a".to_string(), false);
    assert!(!rules[0].enabled);
    toggle_rule_by_id(&mut rules, &"zz".to_string(), false);
    assert!(rules[1].enabled && rules[2].enabled);
    let kept = remove_rule_by_id(&rules, &"b".to_string());
    let ids: Vec<&str> = kept.iter().map(|r| r.id.as_str()).collect();
    assert_eq!(ids, vec!["a", "c"]);
}
