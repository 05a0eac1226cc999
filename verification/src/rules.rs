//! Application proxy rules: the persisted rule record, its field defaults,
//! and the edits that the controller applies to the rule list.
use vstd::prelude::*;

use crate::sorted::{insert_sorted, names, strictly_sorted};

verus! {

/// One application rule: which command lines to intercept and which
/// strategy group (`regular` or a Mihomo group) their TCP traffic follows.
#[derive(Debug, PartialEq, Eq)]
pub struct AppProxyRule {
    pub id: String,
    pub name: String,
    pub enabled: bool,
    pub process_name: String,
    pub cmdline_pattern: String,
    pub hack_tree: bool,
    pub proxy_group_id: u32,
    pub strategy_group: String,
    pub protocol: String,
}

impl Clone for AppProxyRule {
    fn clone(&self) -> (r: Self)
        ensures
            r == *self,
    {
        AppProxyRule {
            id: self.id.clone(),
            name: self.name.clone(),
            enabled: self.enabled,
            process_name: self.process_name.clone(),
            cmdline_pattern: self.cmdline_pattern.clone(),
            hack_tree: self.hack_tree,
            proxy_group_id: self.proxy_group_id,
            strategy_group: self.strategy_group.clone(),
            protocol: self.protocol.clone(),
        }
    }
}

/// Default of `enabled` for a stored rule that omits it.
pub fn default_true() -> (r: bool)
    ensures
        r,
{
    true
}

/// Default of `process_name`: any process.
pub fn default_process_name() -> (r: String)
    ensures
        r@ == "*"@,
{
    String::from_str("*")
}

/// Default of `protocol`: TCP, the only protocol that is intercepted.
pub fn default_protocol() -> (r: String)
    ensures
        r@ == "tcp"@,
{
    String::from_str("tcp")
}

/// Default of `strategy_group`: follow Mihomo's regular rules.
pub fn default_strategy_group() -> (r: String)
    ensures
        r@ == "regular"@,
{
    String::from_str("regular")
}

/// The strategy groups that enabled rules route to.
pub open spec fn enabled_groups(rules: Seq<AppProxyRule>) -> Set<Seq<char>> {
    Set::new(
        |g: Seq<char>|
            exists|i: int|
                0 <= i < rules.len() && (#[trigger] rules[i]).enabled && rules[i].strategy_group@
                    == g,
    )
}

/// The groups that need a managed listener: the primary group and every
/// group that an enabled rule uses.
pub open spec fn required_group_set(rules: Seq<AppProxyRule>, primary: Seq<char>) -> Set<
    Seq<char>,
> {
    enabled_groups(rules).insert(primary)
}

/// The groups that need a managed listener, in ascending order without
/// duplicates.
pub fn required_groups(rules: &Vec<AppProxyRule>, primary_group: &String) -> (r: Vec<String>)
    ensures
        strictly_sorted(names(r@)),
        forall|g: Seq<char>|
            #![trigger names(r@).contains(g)]
            names(r@).contains(g) <==> required_group_set(rules@, primary_group@).contains(g),
{
    let mut groups: Vec<String> = Vec::new();
    insert_sorted(&mut groups, primary_group);
    let mut i: usize = 0;
    while i < rules.len()
        invariant
            i <= rules.len(),
            strictly_sorted(names(groups@)),
            forall|g: Seq<char>|
                #![trigger names(groups@).contains(g)]
                names(groups@).contains(g) <==> (g == primary_group@ || exists|j: int|
                    0 <= j < i && (#[trigger] rules@[j]).enabled && rules@[j].strategy_group@ == g),
        decreases rules.len() - i,
    {
        if rules[i].enabled {
            insert_sorted(&mut groups, &rules[i].strategy_group);
        }
        proof {
            assert forall|g: Seq<char>| #![trigger names(groups@).contains(g)]
                names(groups@).contains(g) <==> (g == primary_group@ || exists|j: int|
                    0 <= j < i + 1 && (#[trigger] rules@[j]).enabled && rules@[j].strategy_group@
                        == g) by {
                if exists|j: int|
                    0 <= j < i + 1 && (#[trigger] rules@[j]).enabled && rules@[j].strategy_group@
                        == g {
                    let j = choose|j: int|
                        0 <= j < i + 1 && (#[trigger] rules@[j]).enabled
                            && rules@[j].strategy_group@ == g;
                    if j < i {
                        assert(exists|j: int|
                            0 <= j < i && (#[trigger] rules@[j]).enabled
                                && rules@[j].strategy_group@ == g);
                    }
                }
            }
        }
        i = i + 1;
    }
    proof {
        assert forall|g: Seq<char>| #![trigger names(groups@).contains(g)]
            names(groups@).contains(g) <==> required_group_set(rules@, primary_group@).contains(
                g,
            ) by {
            if enabled_groups(rules@).contains(g) {
                let j = choose|j: int|
                    0 <= j < rules@.len() && (#[trigger] rules@[j]).enabled
                        && rules@[j].strategy_group@ == g;
                assert(exists|j: int|
                    0 <= j < rules.len() && (#[trigger] rules@[j]).enabled
                        && rules@[j].strategy_group@ == g);
            }
        }
    }
    groups
}

/// The rule list after adding `rule`, or replacing the first rule with
/// the same id.
pub open spec fn upserted(rules: Seq<AppProxyRule>, rule: AppProxyRule) -> Seq<AppProxyRule> {
    if exists|k: int| 0 <= k < rules.len() && (#[trigger] rules[k]).id@ == rule.id@ {
        let k = choose|k: int|
            0 <= k < rules.len() && (#[trigger] rules[k]).id@ == rule.id@ && forall|j: int|
                0 <= j < k ==> (#[trigger] rules[j]).id@ != rule.id@;
        rules.update(k, rule)
    } else {
        rules.push(rule)
    }
}

/// Index of the first rule whose id is `id`.
fn find_rule(rules: &Vec<AppProxyRule>, id: &String) -> (r: Option<usize>)
    ensures
        match r {
            Some(k) => k < rules.len() && rules@[k as int].id@ == id@ && forall|j: int|
                0 <= j < k ==> (#[trigger] rules@[j]).id@ != id@,
            None => forall|j: int| 0 <= j < rules.len() ==> (#[trigger] rules@[j]).id@ != id@,
        },
{
    let mut i: usize = 0;
    while i < rules.len()
        invariant
            i <= rules.len(),
            forall|j: int| 0 <= j < i ==> (#[trigger] rules@[j]).id@ != id@,
        decreases rules.len() - i,
    {
        if rules[i].id == *id {
            return Some(i);
        }
        i = i + 1;
    }
    None
}

proof fn lemma_first_index_unique(rules: Seq<AppProxyRule>, id: Seq<char>, k: int, m: int)
    requires
        0 <= k < rules.len(),
        rules[k].id@ == id,
        forall|j: int| 0 <= j < k ==> (#[trigger] rules[j]).id@ != id,
        0 <= m < rules.len(),
        rules[m].id@ == id,
        forall|j: int| 0 <= j < m ==> (#[trigger] rules[j]).id@ != id,
    ensures
        k == m,
{
    if k < m {
        assert(rules[k].id@ != id);
    } else if m < k {
        assert(rules[m].id@ != id);
    }
}

/// Adds a rule, or replaces the first rule that has its id
/// (the edit of an add-or-update request).
pub fn upsert_rule(rules: &mut Vec<AppProxyRule>, rule: AppProxyRule)
    ensures
        final(rules)@ == upserted(old(rules)@, rule),
{
    let ghost old_rules = rules@;
    match find_rule(rules, &rule.id) {
        Some(pos) => {
            proof {
                let k = choose|k: int|
                    0 <= k < old_rules.len() && (#[trigger] old_rules[k]).id@ == rule.id@
                        && forall|j: int| 0 <= j < k ==> (#[trigger] old_rules[j]).id@ != rule.id@;
                lemma_first_index_unique(old_rules, rule.id@, k, pos as int);
            }
            rules.set(pos, rule);
        },
        None => {
            rules.push(rule);
        },
    }
}

/// The rules whose id differs from `id`, in their order.
pub open spec fn without_id(rules: Seq<AppProxyRule>, id: Seq<char>) -> Seq<AppProxyRule> {
    rules.filter(id_differs(id))
}

/// Whether a rule's id differs from `id`.
pub open spec fn id_differs(id: Seq<char>) -> spec_fn(AppProxyRule) -> bool {
    |r: AppProxyRule| r.id@ != id
}

/// Removes every rule whose id is `id`.
pub fn remove_rule_by_id(rules: &Vec<AppProxyRule>, id: &String) -> (r: Vec<AppProxyRule>)
    ensures
        r@ == without_id(rules@, id@),
{
    let mut out: Vec<AppProxyRule> = Vec::new();
    let mut i: usize = 0;
    proof {
        reveal(Seq::filter);
        assert(rules@.take(0).len() == 0);
    }
    while i < rules.len()
        invariant
            i <= rules.len(),
            out@ == without_id(rules@.take(i as int), id@),
        decreases rules.len() - i,
    {
        proof {
            reveal(Seq::filter);
            let t = rules@.take(i + 1);
            assert(t.drop_last() =~= rules@.take(i as int));
            assert(t.last() == rules@[i as int]);
            assert(without_id(t, id@) == (if rules@[i as int].id@ != id@ {
                without_id(rules@.take(i as int), id@).push(rules@[i as int])
            } else {
                without_id(rules@.take(i as int), id@)
            }));
        }
        if rules[i].id != *id {
            out.push(rules[i].clone());
        }
        i = i + 1;
    }
    assert(rules@.take(rules.len() as int) =~= rules@);
    out
}

/// The rule list with the first rule whose id is `id` set to `enabled`
/// (unchanged when no rule has that id).
pub open spec fn toggled(rules: Seq<AppProxyRule>, id: Seq<char>, enabled: bool) -> Seq<
    AppProxyRule,
> {
    if exists|k: int| 0 <= k < rules.len() && (#[trigger] rules[k]).id@ == id {
        let k = choose|k: int|
            0 <= k < rules.len() && (#[trigger] rules[k]).id@ == id && forall|j: int|
                0 <= j < k ==> (#[trigger] rules[j]).id@ != id;
        rules.update(k, AppProxyRule { enabled, ..rules[k] })
    } else {
        rules
    }
}

/// Sets `enabled` on the first rule whose id is `id`.
pub fn toggle_rule_by_id(rules: &mut Vec<AppProxyRule>, id: &String, enabled: bool)
    ensures
        final(rules)@ == toggled(old(rules)@, id@, enabled),
        final(rules)@.len() == old(rules)@.len(),
        forall|k: int|
            0 <= k < old(rules)@.len() && old(rules)@[k].id@ == id@ && (forall|j: int|
                0 <= j < k ==> (#[trigger] old(rules)@[j]).id@ != id@) ==> (#[trigger] final(rules)@[k]).enabled
                == enabled,
        (forall|k: int| 0 <= k < old(rules)@.len() ==> (#[trigger] old(rules)@[k]).id@ != id@) ==> final(rules)@
            == old(rules)@,
{
    let ghost old_rules = rules@;
    proof {
        assert forall|k: int|
            0 <= k < old_rules.len() && old_rules[k].id@ == id@ && (forall|j: int|
                0 <= j < k ==> (#[trigger] old_rules[j]).id@ != id@) implies (#[trigger] toggled(
            old_rules,
            id@,
            enabled,
        )[k]).enabled == enabled by {
            lemma_toggle_sets_flag(old_rules, id@, enabled, k);
        }
        lemma_toggle_length(old_rules, id@, enabled);
    }
    match find_rule(rules, id) {
        Some(pos) => {
            proof {
                let k = choose|k: int|
                    0 <= k < old_rules.len() && (#[trigger] old_rules[k]).id@ == id@ && forall|
                        j: int,
                    | 0 <= j < k ==> (#[trigger] old_rules[j]).id@ != id@;
                lemma_first_index_unique(old_rules, id@, k, pos as int);
            }
            let mut r = rules[pos].clone();
            r.enabled = enabled;
            rules.set(pos, r);
        },
        None => {},
    }
}

/// The index of the first rule whose id is `id`, when there is one.
proof fn lemma_first_with_id(rules: Seq<AppProxyRule>, id: Seq<char>) -> (k: int)
    requires
        exists|m: int| 0 <= m < rules.len() && (#[trigger] rules[m]).id@ == id,
    ensures
        0 <= k < rules.len(),
        rules[k].id@ == id,
        forall|j: int| 0 <= j < k ==> (#[trigger] rules[j]).id@ != id,
    decreases rules.len(),
{
    let rest = rules.drop_last();
    if exists|m: int| 0 <= m < rest.len() && (#[trigger] rest[m]).id@ == id {
        let k = lemma_first_with_id(rest, id);
        assert forall|j: int| 0 <= j < k implies (#[trigger] rules[j]).id@ != id by {
            assert(rules[j] == rest[j]);
        }
        assert(rules[k] == rest[k]);
        k
    } else {
        let m = choose|m: int| 0 <= m < rules.len() && (#[trigger] rules[m]).id@ == id;
        assert forall|j: int| 0 <= j < rules.len() - 1 implies (#[trigger] rules[j]).id@ != id by {
            assert(rules[j] == rest[j]);
        }
        rules.len() - 1
    }
}

/// After adding or updating a rule, the first rule with its id is that
/// rule; an update keeps the number of rules, an addition adds one.
pub proof fn lemma_upserted_rule_found(rules: Seq<AppProxyRule>, rule: AppProxyRule)
    ensures
        exists|k: int|
            0 <= k < upserted(rules, rule).len() && upserted(rules, rule)[k] == rule && forall|j: int|
                0 <= j < k ==> (#[trigger] upserted(rules, rule)[j]).id@ != rule.id@,
        upserted(rules, rule).len() == rules.len() + if exists|m: int|
            0 <= m < rules.len() && (#[trigger] rules[m]).id@ == rule.id@ {
            0int
        } else {
            1int
        },
{
    let r = upserted(rules, rule);
    if exists|m: int| 0 <= m < rules.len() && (#[trigger] rules[m]).id@ == rule.id@ {
        let first = lemma_first_with_id(rules, rule.id@);
        let k = choose|k: int|
            0 <= k < rules.len() && (#[trigger] rules[k]).id@ == rule.id@ && forall|j: int|
                0 <= j < k ==> (#[trigger] rules[j]).id@ != rule.id@;
        assert(r[k] == rule);
        assert forall|j: int| 0 <= j < k implies (#[trigger] r[j]).id@ != rule.id@ by {
            assert(r[j] == rules[j]);
        }
    } else {
        let k = rules.len() as int;
        assert(r[k] == rule);
        assert forall|j: int| 0 <= j < k implies (#[trigger] r[j]).id@ != rule.id@ by {
            assert(r[j] == rules[j]);
        }
    }
}

/// After removing a rule id, no rule with that id is left.
pub proof fn lemma_removed_rule_gone(rules: Seq<AppProxyRule>, id: Seq<char>)
    ensures
        forall|k: int| 0 <= k < without_id(rules, id).len() ==> (#[trigger] without_id(rules, id)[k]).id@ != id,
{
    assert forall|k: int| 0 <= k < without_id(rules, id).len() implies (#[trigger] without_id(rules, id)[k]).id@
        != id by {
        rules.lemma_filter_pred(id_differs(id), k);
    }
}

/// Toggling keeps the number of rules; with no rule of that id it changes
/// nothing.
pub proof fn lemma_toggle_length(rules: Seq<AppProxyRule>, id: Seq<char>, enabled: bool)
    ensures
        toggled(rules, id, enabled).len() == rules.len(),
        (forall|k: int| 0 <= k < rules.len() ==> (#[trigger] rules[k]).id@ != id) ==> toggled(rules, id, enabled)
            == rules,
{
    if exists|m: int| 0 <= m < rules.len() && (#[trigger] rules[m]).id@ == id {
        lemma_first_with_id(rules, id);
    }
}

/// Toggling sets `enabled` on the first rule with the id, to exactly the
/// requested value, keeps every other field of that rule, and leaves every
/// other rule as it was.
pub proof fn lemma_toggle_sets_flag(rules: Seq<AppProxyRule>, id: Seq<char>, enabled: bool, k: int)
    requires
        0 <= k < rules.len(),
        rules[k].id@ == id,
        forall|j: int| 0 <= j < k ==> (#[trigger] rules[j]).id@ != id,
    ensures
        toggled(rules, id, enabled).len() == rules.len(),
        toggled(rules, id, enabled)[k].enabled == enabled,
        toggled(rules, id, enabled)[k].id == rules[k].id,
        toggled(rules, id, enabled)[k].name == rules[k].name,
        toggled(rules, id, enabled)[k].process_name == rules[k].process_name,
        toggled(rules, id, enabled)[k].cmdline_pattern == rules[k].cmdline_pattern,
        toggled(rules, id, enabled)[k].hack_tree == rules[k].hack_tree,
        toggled(rules, id, enabled)[k].proxy_group_id == rules[k].proxy_group_id,
        toggled(rules, id, enabled)[k].strategy_group == rules[k].strategy_group,
        toggled(rules, id, enabled)[k].protocol == rules[k].protocol,
        forall|j: int| 0 <= j < rules.len() && j != k ==> #[trigger] toggled(rules, id, enabled)[j] == rules[j],
{
    assert(exists|m: int| 0 <= m < rules.len() && (#[trigger] rules[m]).id@ == id);
    let c = choose|c: int|
        0 <= c < rules.len() && (#[trigger] rules[c]).id@ == id && forall|j: int|
            0 <= j < c ==> (#[trigger] rules[j]).id@ != id;
    lemma_first_with_id(rules, id);
    lemma_first_index_unique(rules, id, k, c);
}

} // verus!
