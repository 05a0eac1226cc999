//! Rule validation and compilation: which rules are accepted, and how each
//! enabled rule is bound to a backend-owned helper proxy group backed by a
//! managed loopback listener.
use vstd::prelude::*;

use crate::rules::{enabled_groups, required_group_set, AppProxyRule};
use crate::sorted::{insert_sorted, lemma_names_contains, names, position_of, strictly_sorted};
use crate::text::{
    ascii_lower, chars_end_with, chars_eq, ends_with, lemma_lex_irreflexive, lemma_lex_total,
    lemma_lex_transitive, lex_lt, lower_ascii, string_lt, strip, strip_both, to_chars, trim,
    trim_end, CharClass,
};

verus! {

/// Why a single rule is refused.
#[derive(Clone, Copy, Debug, PartialEq, Eq, Structural)]
pub enum RuleFault {
    /// The id is blank or repeats an earlier rule's id.
    InvalidId,
    /// The command-line pattern is blank.
    EmptyMatch,
    /// The pattern matches everything or targets proxy infrastructure.
    TooBroad,
    /// The pattern names a script interpreter without a specific script.
    ScriptInterpreter,
    /// The rule asks for a protocol other than TCP.
    UnsupportedProtocol,
}

/// Why a rule set cannot be compiled.
#[derive(Debug, PartialEq, Eq)]
pub enum CompileError {
    /// `rules[index]` is the first refused rule.
    InvalidRule { index: usize, fault: RuleFault },
    /// No managed listener is bound to `group`.
    MissingListener { group: String },
}

/// The pattern as the breadth check sees it: trimmed, stripped of `*`
/// at both ends, ASCII-lowercased.
pub open spec fn broad_match(pattern: Seq<char>) -> Seq<char> {
    ascii_lower(strip_both(trim(pattern), CharClass::Exactly('*')))
}

/// The executable part the interpreter check sees: the broad match
/// stripped of quotes at both ends and of trailing whitespace.
pub open spec fn executable_only(pattern: Seq<char>) -> Seq<char> {
    trim_end(strip_both(broad_match(pattern), CharClass::Exactly('"')))
}

/// Broad matches that would capture everything or the proxy stack itself.
pub open spec fn targets_infrastructure(b: Seq<char>) -> bool {
    ||| b.len() == 0
    ||| b == "node.exe"@
    ||| b == "python.exe"@
    ||| b == "pythonw.exe"@
    ||| b == "clew.exe"@
    ||| b == "verge-mihomo.exe"@
    ||| b == "clash-verge.exe"@
    ||| b == "clash-verge-clew-internal.exe"@
}

/// Executables that run arbitrary scripts.
pub open spec fn names_interpreter(e: Seq<char>) -> bool {
    ||| ends_with(e, "node.exe"@)
    ||| ends_with(e, "python.exe"@)
    ||| ends_with(e, "pythonw.exe"@)
}

/// The pattern's executable part ends with `node.exe`, `python.exe` or
/// `pythonw.exe`: a script interpreter, whatever script it runs.
pub open spec fn names_script_interpreter(pattern: Seq<char>) -> bool {
    let e = executable_only(pattern);
    ||| ends_with(e, seq!['n', 'o', 'd', 'e', '.', 'e', 'x', 'e'])
    ||| ends_with(e, seq!['p', 'y', 't', 'h', 'o', 'n', '.', 'e', 'x', 'e'])
    ||| ends_with(e, seq!['p', 'y', 't', 'h', 'o', 'n', 'w', '.', 'e', 'x', 'e'])
}

/// The first check that `rule` fails, given the ids of the rules before it.
pub open spec fn rule_fault(rule: AppProxyRule, earlier_ids: Seq<Seq<char>>) -> Option<RuleFault> {
    if trim(rule.id@).len() == 0 || earlier_ids.contains(rule.id@) {
        Some(RuleFault::InvalidId)
    } else if trim(rule.cmdline_pattern@).len() == 0 {
        Some(RuleFault::EmptyMatch)
    } else if targets_infrastructure(broad_match(rule.cmdline_pattern@)) {
        Some(RuleFault::TooBroad)
    } else if names_interpreter(executable_only(rule.cmdline_pattern@)) {
        Some(RuleFault::ScriptInterpreter)
    } else if rule.protocol@ != "tcp"@ {
        Some(RuleFault::UnsupportedProtocol)
    } else {
        None
    }
}

pub open spec fn rule_ids(rules: Seq<AppProxyRule>) -> Seq<Seq<char>> {
    Seq::new(rules.len(), |i: int| rules[i].id@)
}

/// The fault of `rules[i]` within the list.
pub open spec fn fault_of(rules: Seq<AppProxyRule>, i: int) -> Option<RuleFault> {
    rule_fault(rules[i], rule_ids(rules).take(i))
}

/// Every rule passes validation.
pub open spec fn all_valid(rules: Seq<AppProxyRule>) -> bool {
    forall|i: int| 0 <= i < rules.len() ==> (#[trigger] fault_of(rules, i)) is None
}

/// `rules[index]` is the first rule to fail, with `fault`.
pub open spec fn first_fault(rules: Seq<AppProxyRule>, index: int, fault: RuleFault) -> bool {
    &&& 0 <= index < rules.len()
    &&& fault_of(rules, index) == Some(fault)
    &&& forall|j: int| 0 <= j < index ==> (#[trigger] fault_of(rules, j)) is None
}

fn is_infrastructure(b: &Vec<char>) -> (r: bool)
    ensures
        r == targets_infrastructure(b@),
{
    b.len() == 0 || chars_eq(b, &to_chars("node.exe")) || chars_eq(b, &to_chars("python.exe"))
        || chars_eq(b, &to_chars("pythonw.exe")) || chars_eq(b, &to_chars("clew.exe")) || chars_eq(
        b,
        &to_chars("verge-mihomo.exe"),
    ) || chars_eq(b, &to_chars("clash-verge.exe")) || chars_eq(
        b,
        &to_chars("clash-verge-clew-internal.exe"),
    )
}

fn is_interpreter(e: &Vec<char>) -> (r: bool)
    ensures
        r == names_interpreter(e@),
{
    chars_end_with(e, &to_chars("node.exe")) || chars_end_with(e, &to_chars("python.exe"))
        || chars_end_with(e, &to_chars("pythonw.exe"))
}

/// Checks one rule against the ids of the rules before it.
pub fn check_rule(rule: &AppProxyRule, earlier_ids: &Vec<String>) -> (r: Option<RuleFault>)
    ensures
        r == rule_fault(*rule, names(earlier_ids@)),
        names_script_interpreter(rule.cmdline_pattern@) ==> (r matches Some(f) && f != RuleFault::UnsupportedProtocol),
{
    let id = to_chars(rule.id.as_str());
    let trimmed_id = strip(&id, CharClass::WhiteSpace, true, true);
    proof {
        lemma_names_contains(earlier_ids@, rule.id@);
    }
    if trimmed_id.len() == 0 || position_of(earlier_ids, &rule.id).is_some() {
        return Some(RuleFault::InvalidId);
    }
    let pattern = to_chars(rule.cmdline_pattern.as_str());
    let trimmed = strip(&pattern, CharClass::WhiteSpace, true, true);
    if trimmed.len() == 0 {
        return Some(RuleFault::EmptyMatch);
    }
    let unstarred = strip(&trimmed, CharClass::Exactly('*'), true, true);
    let broad = lower_ascii(&unstarred);
    if is_infrastructure(&broad) {
        return Some(RuleFault::TooBroad);
    }
    let unquoted = strip(&broad, CharClass::Exactly('"'), true, true);
    let executable = strip(&unquoted, CharClass::WhiteSpace, false, true);
    if is_interpreter(&executable) {
        return Some(RuleFault::ScriptInterpreter);
    }
    proof {
        lemma_interpreter_literals();
    }
    if !chars_eq(&to_chars(rule.protocol.as_str()), &to_chars("tcp")) {
        return Some(RuleFault::UnsupportedProtocol);
    }
    None
}

/// A managed loopback Mihomo listener: its name in the runtime config, its
/// port, and the strategy group it forwards to (`None`: regular rules).
#[derive(Debug, PartialEq, Eq)]
pub struct ManagedListenerSpec {
    pub name: String,
    pub port: u16,
    pub group: Option<String>,
}

pub fn clone_opt_string(s: &Option<String>) -> (r: Option<String>)
    ensures
        r == *s,
{
    match s {
        Some(x) => Some(x.clone()),
        None => None,
    }
}

impl Clone for ManagedListenerSpec {
    fn clone(&self) -> (r: Self)
        ensures
            r == *self,
    {
        ManagedListenerSpec {
            name: self.name.clone(),
            port: self.port,
            group: clone_opt_string(&self.group),
        }
    }
}

/// One entry of a listener table: the strategy group and its listener.
#[derive(Debug)]
pub struct ListenerBinding {
    pub group: String,
    pub spec: ManagedListenerSpec,
}

impl Clone for ListenerBinding {
    fn clone(&self) -> (r: Self)
        ensures
            r == *self,
    {
        ListenerBinding { group: self.group.clone(), spec: self.spec.clone() }
    }
}

/// Managed listeners keyed by strategy group, kept in ascending group
/// order: a map from strategy group to listener.
#[derive(Debug)]
pub struct ListenerTable {
    entries: Vec<ListenerBinding>,
}

pub open spec fn binding_groups(entries: Seq<ListenerBinding>) -> Seq<Seq<char>> {
    Seq::new(entries.len(), |i: int| entries[i].group@)
}

impl ListenerTable {
    /// The bindings in ascending group order.
    pub closed spec fn spec_entries(self) -> Seq<ListenerBinding> {
        self.entries@
    }

    /// The bound groups in ascending order.
    pub open spec fn spec_groups(self) -> Seq<Seq<char>> {
        binding_groups(self.spec_entries())
    }

    pub open spec fn wf(self) -> bool {
        strictly_sorted(self.spec_groups())
    }

    /// Whether `group` has a listener.
    pub open spec fn has(self, group: Seq<char>) -> bool {
        self.spec_groups().contains(group)
    }

    /// The position of `group`'s binding.
    pub open spec fn index_of(self, group: Seq<char>) -> int {
        choose|i: int| 0 <= i < self.spec_entries().len() && self.spec_entries()[i].group@ == group
    }

    /// The listener bound to `group` (meaningful when `has(group)`).
    pub open spec fn lookup(self, group: Seq<char>) -> ManagedListenerSpec {
        self.spec_entries()[self.index_of(group)].spec
    }

    /// The listeners in ascending group order.
    pub open spec fn spec_values(self) -> Seq<ManagedListenerSpec> {
        Seq::new(self.spec_entries().len(), |i: int| self.spec_entries()[i].spec)
    }

    pub proof fn lemma_index(self, i: int)
        requires
            self.wf(),
            0 <= i < self.spec_entries().len(),
        ensures
            self.has(self.spec_entries()[i].group@),
            self.index_of(self.spec_entries()[i].group@) == i,
            self.lookup(self.spec_entries()[i].group@) == self.spec_entries()[i].spec,
    {
        let g = self.spec_entries()[i].group@;
        assert(self.spec_groups()[i] == g);
        let k = self.index_of(g);
        assert(0 <= k < self.spec_entries().len() && self.spec_entries()[k].group@ == g);
        if k < i {
            assert(lex_lt(self.spec_groups()[k], self.spec_groups()[i]));
            lemma_lex_irreflexive(g);
        } else if i < k {
            assert(lex_lt(self.spec_groups()[i], self.spec_groups()[k]));
            lemma_lex_irreflexive(g);
        }
    }

    pub fn new() -> (r: Self)
        ensures
            r.wf(),
            r.spec_entries().len() == 0,
            forall|g: Seq<char>| !r.has(g),
    {
        ListenerTable { entries: Vec::new() }
    }

    pub fn len(&self) -> (r: usize)
        ensures
            r == self.spec_entries().len(),
    {
        self.entries.len()
    }

    /// Binds `group` to `spec`, replacing an earlier binding of `group`.
    pub fn insert(&mut self, group: String, spec: ManagedListenerSpec)
        requires
            old(self).wf(),
        ensures
            final(self).wf(),
            forall|g: Seq<char>| #[trigger] final(self).has(g) <==> (old(self).has(g) || g == group@),
            final(self).lookup(group@) == spec,
            forall|g: Seq<char>|
                #![trigger final(self).lookup(g)]
                old(self).has(g) && g != group@ ==> final(self).lookup(g) == old(self).lookup(g),
    {
        let ghost old_t = *self;
        let mut p: usize = 0;
        while p < self.entries.len() && string_lt(&self.entries[p].group, &group)
            invariant
                *self == old_t,
                p <= self.entries.len(),
                forall|j: int| 0 <= j < p ==> lex_lt((#[trigger] self.entries@[j]).group@, group@),
            decreases self.entries.len() - p,
        {
            p = p + 1;
        }
        let replace = p < self.entries.len() && self.entries[p].group == group;
        let ghost g0 = group@;
        let ghost s0 = spec;
        if replace {
            self.entries.set(p, ListenerBinding { group, spec });
            proof {
                assert(self.spec_groups() =~= old_t.spec_groups());
            }
        } else {
            proof {
                if p < old_t.entries.len() {
                    lemma_lex_total(old_t.entries@[p as int].group@, g0);
                }
            }
            self.entries.insert(p, ListenerBinding { group, spec });
            proof {
                let n = self.spec_groups();
                let m = old_t.spec_groups();
                assert forall|i: int, j: int| 0 <= i < j < n.len() implies lex_lt(
                    #[trigger] n[i],
                    #[trigger] n[j],
                ) by {
                    if j < p {
                        assert(n[i] == m[i] && n[j] == m[j]);
                    } else if j == p {
                        assert(n[i] == m[i]);
                    } else if i == p {
                        assert(n[j] == m[j - 1]);
                        if j - 1 > p {
                            assert(lex_lt(m[p as int], m[j - 1]));
                            lemma_lex_transitive(g0, m[p as int], m[j - 1]);
                        }
                    } else if i < p {
                        assert(n[i] == m[i] && n[j] == m[j - 1]);
                    } else {
                        assert(n[i] == m[i - 1] && n[j] == m[j - 1]);
                    }
                }
            }
        }
        proof {
            let n = self.spec_groups();
            let m = old_t.spec_groups();
            assert forall|g: Seq<char>| #[trigger] self.has(g) <==> (old_t.has(g) || g == g0) by {
                if self.has(g) {
                    let k = choose|k: int| 0 <= k < n.len() && n[k] == g;
                    if !replace {
                        if k < p {
                            assert(m[k] == g);
                        } else if k > p {
                            assert(m[k - 1] == g);
                        }
                    } else {
                        if k != p {
                            assert(m[k] == g);
                        }
                    }
                }
                if old_t.has(g) {
                    let k = choose|k: int| 0 <= k < m.len() && m[k] == g;
                    if replace || k < p {
                        assert(n[k] == g);
                    } else {
                        assert(n[k + 1] == g);
                    }
                }
                if g == g0 {
                    assert(n[p as int] == g);
                }
            }
            self.lemma_index(p as int);
            assert forall|g: Seq<char>| #![trigger self.lookup(g)]
                old_t.has(g) && g != g0 implies self.lookup(g) == old_t.lookup(g) by {
                let k = choose|k: int| 0 <= k < m.len() && m[k] == g;
                assert(old_t.spec_entries()[k].group@ == g);
                old_t.lemma_index(k);
                if replace || k < p {
                    assert(self.spec_entries()[k] == old_t.spec_entries()[k]);
                    self.lemma_index(k);
                } else {
                    assert(self.spec_entries()[k + 1] == old_t.spec_entries()[k]);
                    self.lemma_index(k + 1);
                }
            }
        }
    }

    /// The listener bound to `group`, if any.
    pub fn get(&self, group: &String) -> (r: Option<&ManagedListenerSpec>)
        requires
            self.wf(),
        ensures
            match r {
                Some(s) => self.has(group@) && *s == self.lookup(group@),
                None => !self.has(group@),
            },
    {
        let mut i: usize = 0;
        while i < self.entries.len()
            invariant
                self.wf(),
                i <= self.entries.len(),
                forall|j: int| 0 <= j < i ==> (#[trigger] self.entries@[j]).group@ != group@,
            decreases self.entries.len() - i,
        {
            if self.entries[i].group == *group {
                proof {
                    self.lemma_index(i as int);
                }
                return Some(&self.entries[i].spec);
            }
            i = i + 1;
        }
        proof {
            if self.has(group@) {
                let k = choose|k: int| 0 <= k < self.spec_groups().len() && self.spec_groups()[k] == group@;
                assert(self.entries@[k].group@ == group@);
            }
        }
        None
    }

    /// Whether `group` has a listener.
    pub fn contains_group(&self, group: &String) -> (r: bool)
        requires
            self.wf(),
        ensures
            r == self.has(group@),
    {
        self.get(group).is_some()
    }

    /// The listeners in ascending group order.
    pub fn values(&self) -> (r: Vec<ManagedListenerSpec>)
        ensures
            r@ == self.spec_values(),
    {
        let mut out: Vec<ManagedListenerSpec> = Vec::new();
        let mut i: usize = 0;
        while i < self.entries.len()
            invariant
                i <= self.entries.len(),
                out@ == self.spec_values().take(i as int),
            decreases self.entries.len() - i,
        {
            out.push(self.entries[i].spec.clone());
            i = i + 1;
            assert(out@ =~= self.spec_values().take(i as int));
        }
        assert(out@ =~= self.spec_values());
        out
    }

    /// The bindings in ascending group order.
    pub fn bindings(&self) -> (r: Vec<ListenerBinding>)
        ensures
            r@ == self.spec_entries(),
    {
        self.entries.clone()
    }
}

/// A helper proxy group: id, name, and the loopback endpoint that its
/// rules' connections are forwarded to.
#[derive(Debug, PartialEq, Eq)]
pub struct ProxyGroupEntry {
    pub id: usize,
    pub name: String,
    pub host: String,
    pub port: u16,
}

/// Every required group has a listener.
pub open spec fn covers(listeners: ListenerTable, rules: Seq<AppProxyRule>, primary: Seq<char>) -> bool {
    forall|g: Seq<char>| #[trigger] required_group_set(rules, primary).contains(g) ==> listeners.has(g)
}

/// `group` is the missing listener reported first: the primary group when
/// it is missing, otherwise the least missing group.
pub open spec fn reported_missing(
    rules: Seq<AppProxyRule>,
    primary: Seq<char>,
    listeners: ListenerTable,
    group: Seq<char>,
) -> bool {
    &&& required_group_set(rules, primary).contains(group)
    &&& !listeners.has(group)
    &&& group != primary ==> listeners.has(primary) && forall|h: Seq<char>|
        #[trigger] required_group_set(rules, primary).contains(h) && !listeners.has(h) && h
            != primary ==> h == group || lex_lt(group, h)
}

/// The group list sent to the helper: the primary group first with id 0,
/// then every other group of an enabled rule in ascending order, each
/// with the port of its managed listener.
pub open spec fn group_table_ok(
    groups: Seq<ProxyGroupEntry>,
    rules: Seq<AppProxyRule>,
    primary: Seq<char>,
    listeners: ListenerTable,
) -> bool {
    &&& groups.len() >= 1
    &&& groups[0].name@ == primary
    &&& strictly_sorted(Seq::new((groups.len() - 1) as nat, |k: int| groups[k + 1].name@))
    &&& forall|k: int|
        1 <= k < groups.len() ==> enabled_groups(rules).contains((#[trigger] groups[k]).name@)
            && groups[k].name@ != primary
    &&& forall|g: Seq<char>|
        enabled_groups(rules).contains(g) && g != primary ==> exists|k: int|
            1 <= k < groups.len() && (#[trigger] groups[k]).name@ == g
    &&& forall|k: int|
        #![trigger groups[k]]
        0 <= k < groups.len() ==> {
            &&& groups[k].id == k
            &&& groups[k].host@ == "127.0.0.1"@
            &&& listeners.has(groups[k].name@)
            &&& groups[k].port == listeners.lookup(groups[k].name@).port
        }
}

/// Each enabled rule carries the id of the group of its strategy; other
/// fields, and disabled rules, are unchanged.
pub open spec fn compiled_ok(
    compiled: Seq<AppProxyRule>,
    rules: Seq<AppProxyRule>,
    groups: Seq<ProxyGroupEntry>,
) -> bool {
    &&& compiled.len() == rules.len()
    &&& forall|i: int|
        #![trigger compiled[i]]
        0 <= i < rules.len() ==> if rules[i].enabled {
            forall|k: int|
                0 <= k < groups.len() && (#[trigger] groups[k]).name@ == rules[i].strategy_group@
                    ==> compiled[i] == with_group_id(rules[i], k as u32)
        } else {
            compiled[i] == rules[i]
        }
}

/// The groups of a group table have distinct names.
pub proof fn lemma_group_names_distinct(
    groups: Seq<ProxyGroupEntry>,
    rules: Seq<AppProxyRule>,
    primary: Seq<char>,
    listeners: ListenerTable,
    a: int,
    b: int,
)
    requires
        group_table_ok(groups, rules, primary, listeners),
        0 <= a < groups.len(),
        0 <= b < groups.len(),
        groups[a].name@ == groups[b].name@,
    ensures
        a == b,
{
    let tail = Seq::new((groups.len() - 1) as nat, |k: int| groups[k + 1].name@);
    if a != b {
        if a == 0 || b == 0 {
            let k = if a == 0 { b } else { a };
            assert(groups[k].name@ == primary);
            assert(groups[k].name@ != primary);
        } else {
            let (x, y) = if a < b { (a, b) } else { (b, a) };
            assert(lex_lt(tail[x - 1], tail[y - 1]));
            assert(tail[x - 1] == groups[x].name@);
            assert(tail[y - 1] == groups[y].name@);
            lemma_lex_irreflexive(groups[a].name@);
        }
    }
}

/// `rule` with its helper group id set to `id`.
pub open spec fn with_group_id(rule: AppProxyRule, id: u32) -> AppProxyRule {
    AppProxyRule { proxy_group_id: id, ..rule }
}

spec fn compiled_at(c: AppProxyRule, rule: AppProxyRule, groups: Seq<ProxyGroupEntry>, k: int) -> bool {
    if rule.enabled {
        &&& 0 <= k < groups.len()
        &&& groups[k].name@ == rule.strategy_group@
        &&& c == with_group_id(rule, k as u32)
    } else {
        c == rule
    }
}

/// Validates `rules` and binds each enabled rule to a helper proxy group
/// backed by the managed listener of its strategy group.
pub fn compile_rules(rules: &Vec<AppProxyRule>, primary_group: &String, listeners: &ListenerTable) -> (r:
    Result<(Vec<AppProxyRule>, Vec<ProxyGroupEntry>), CompileError>)
    requires
        listeners.wf(),
    ensures
        (r is Ok) <==> (all_valid(rules@) && covers(*listeners, rules@, primary_group@)),
        match r {
            Ok((compiled, groups)) => {
                &&& group_table_ok(groups@, rules@, primary_group@, *listeners)
                &&& compiled_ok(compiled@, rules@, groups@)
            },
            Err(CompileError::InvalidRule { index, fault }) => first_fault(rules@, index as int, fault),
            Err(CompileError::MissingListener { group }) => {
                &&& all_valid(rules@)
                &&& reported_missing(rules@, primary_group@, *listeners, group@)
            },
        },
{
    let mut seen: Vec<String> = Vec::new();
    let mut tail: Vec<String> = Vec::new();
    let mut i: usize = 0;
    while i < rules.len()
        invariant
            i <= rules.len(),
            names(seen@) == rule_ids(rules@).take(i as int),
            forall|j: int| 0 <= j < i ==> (#[trigger] fault_of(rules@, j)) is None,
            strictly_sorted(names(tail@)),
            forall|g: Seq<char>|
                #![trigger names(tail@).contains(g)]
                names(tail@).contains(g) <==> (g != primary_group@ && exists|j: int|
                    0 <= j < i && (#[trigger] rules@[j]).enabled && rules@[j].strategy_group@ == g),
        decreases rules.len() - i,
    {
        let fault = check_rule(&rules[i], &seen);
        match fault {
            Some(f) => {
                proof {
                    assert(fault_of(rules@, i as int) == Some(f));
                }
                return Err(CompileError::InvalidRule { index: i, fault: f });
            },
            None => {},
        }
        let ghost before = seen@;
        seen.push(rules[i].id.clone());
        proof {
            assert(names(before).len() == i);
            assert(seen@.len() == i + 1);
            assert(seen@[i as int]@ == rules@[i as int].id@);
            assert forall|k: int| 0 <= k < i + 1 implies names(seen@)[k] == rule_ids(rules@).take(
                i + 1,
            )[k] by {
                if k < i {
                    assert(names(before)[k] == rule_ids(rules@).take(i as int)[k]);
                }
            }
            assert(names(seen@) =~= rule_ids(rules@).take(i + 1));
        }
        if rules[i].enabled && rules[i].strategy_group != *primary_group {
            insert_sorted(&mut tail, &rules[i].strategy_group);
        }
        proof {
            assert forall|g: Seq<char>| #![trigger names(tail@).contains(g)]
                names(tail@).contains(g) <==> (g != primary_group@ && exists|j: int|
                    0 <= j < i + 1 && (#[trigger] rules@[j]).enabled && rules@[j].strategy_group@
                        == g) by {
                if g != primary_group@ && exists|j: int|
                    0 <= j < i + 1 && (#[trigger] rules@[j]).enabled && rules@[j].strategy_group@
                        == g {
                    let j = choose|j: int|
                        0 <= j < i + 1 && (#[trigger] rules@[j]).enabled
                            && rules@[j].strategy_group@ == g;
                    if j < i {
                        assert(exists|j: int|
                            0 <= j < i && (#[trigger] rules@[j]).enabled
                                && rules@[j].strategy_group@ == g);
                    }
                }
            }
        }
        i = i + 1;
    }
    // destinations: the primary group, then the other groups in order
    let mut destinations: Vec<String> = Vec::new();
    destinations.push(primary_group.clone());
    let mut t: usize = 0;
    while t < tail.len()
        invariant
            t <= tail.len(),
            destinations@.len() == t + 1,
            destinations@[0]@ == primary_group@,
            forall|k: int| 0 <= k < t ==> (#[trigger] destinations@[k + 1])@ == tail@[k]@,
        decreases tail.len() - t,
    {
        destinations.push(tail[t].clone());
        t = t + 1;
    }
    let ghost dest = names(destinations@);
    let ghost tl = names(tail@);
    proof {
        assert forall|g: Seq<char>| #![trigger tl.contains(g)]
            tl.contains(g) <==> (g != primary_group@ && exists|j: int|
                0 <= j < rules@.len() && (#[trigger] rules@[j]).enabled && rules@[j].strategy_group@ == g) by {
            assert(names(tail@).contains(g) == tl.contains(g));
        }
        assert(forall|k: int| 0 <= k < tl.len() ==> dest[k + 1] == tl[k]);
        assert forall|m: int| 1 <= m < dest.len() implies dest[m] != primary_group@ by {
            assert(tl.contains(tl[m - 1]));
        }
    }
    // group table, checking that every destination has a listener
    let mut groups: Vec<ProxyGroupEntry> = Vec::new();
    let mut k: usize = 0;
    while k < destinations.len()
        invariant
            k <= destinations.len(),
            dest == names(destinations@),
            destinations@.len() == tl.len() + 1,
            dest[0] == primary_group@,
            forall|m: int| 0 <= m < tl.len() ==> dest[m + 1] == tl[m],
            listeners.wf(),
            strictly_sorted(tl),
            forall|g: Seq<char>|
                #![trigger tl.contains(g)]
                tl.contains(g) <==> (g != primary_group@ && exists|j: int|
                    0 <= j < rules@.len() && (#[trigger] rules@[j]).enabled && rules@[j].strategy_group@ == g),
            forall|j: int| 0 <= j < rules@.len() ==> (#[trigger] fault_of(rules@, j)) is None,
            groups@.len() == k,
            forall|m: int| 0 <= m < k ==> listeners.has(#[trigger] dest[m]),
            forall|m: int|
                #![trigger groups@[m]]
                0 <= m < k ==> {
                    &&& groups@[m].id == m
                    &&& groups@[m].name@ == dest[m]
                    &&& groups@[m].host@ == "127.0.0.1"@
                    &&& groups@[m].port == listeners.lookup(dest[m]).port
                },
        decreases destinations.len() - k,
    {
        match listeners.get(&destinations[k]) {
            None => {
                proof {
                    let g = dest[k as int];
                    assert(dest[0] == primary_group@);
                    if k == 0 {
                        assert(required_group_set(rules@, primary_group@).contains(g));
                    } else {
                        assert(tl[k - 1] == g);
                        assert(tl.contains(g));
                        assert(enabled_groups(rules@).contains(g));
                        assert(required_group_set(rules@, primary_group@).contains(g));
                        assert(tl[k - 1] == g);
                        assert(tl.contains(g));
                        assert(enabled_groups(rules@).contains(g));
                        assert(listeners.has(dest[0]));
                        assert forall|h: Seq<char>|
                            #[trigger] required_group_set(rules@, primary_group@).contains(h)
                                && !listeners.has(h) && h != primary_group@ implies h == g || lex_lt(
                            g,
                            h,
                        ) by {
                            let j = choose|j: int|
                                0 <= j < rules@.len() && (#[trigger] rules@[j]).enabled
                                    && rules@[j].strategy_group@ == h;
                            assert(tl.contains(h));
                            let q = choose|q: int| 0 <= q < tl.len() && tl[q] == h;
                            if q + 1 < k {
                                assert(listeners.has(dest[q + 1]));
                            } else if q + 1 > k {
                                assert(lex_lt(tl[k - 1], tl[q]));
                            }
                        }
                        assert(g != primary_group@);
                        assert(reported_missing(rules@, primary_group@, *listeners, g));
                    }
                    assert forall|j: int| 0 <= j < rules@.len() implies (#[trigger] fault_of(
                        rules@,
                        j,
                    )) is None by {}
                }
                let missing = destinations[k].clone();
                proof {
                    assert(missing@ == dest[k as int]);
                    assert(required_group_set(rules@, primary_group@).contains(missing@));
                    assert(!listeners.has(missing@));
                    assert(missing@ != primary_group@ ==> listeners.has(primary_group@));
                    assert(reported_missing(rules@, primary_group@, *listeners, missing@));
                }
                return Err(CompileError::MissingListener { group: missing });
            },
            Some(spec) => {
                groups.push(
                    ProxyGroupEntry {
                        id: k,
                        name: destinations[k].clone(),
                        host: String::from_str("127.0.0.1"),
                        port: spec.port,
                    },
                );
            },
        }
        k = k + 1;
    }
    proof {
        let gs = groups@;
        assert(Seq::new((gs.len() - 1) as nat, |k: int| gs[k + 1].name@) =~= tl);
        assert forall|k: int| 1 <= k < gs.len() implies enabled_groups(rules@).contains((#[trigger] gs[k]).name@)
            && gs[k].name@ != primary_group@ by {
            let g = gs[k].name@;
            assert(tl[k - 1] == g);
            assert(tl.contains(g));
            let j = choose|j: int|
                0 <= j < rules@.len() && (#[trigger] rules@[j]).enabled && rules@[j].strategy_group@ == g;
        }
        assert forall|g: Seq<char>| enabled_groups(rules@).contains(g) && g != primary_group@ implies exists|k: int|
            1 <= k < gs.len() && (#[trigger] gs[k]).name@ == g by {
            let j = choose|j: int|
                0 <= j < rules@.len() && (#[trigger] rules@[j]).enabled && rules@[j].strategy_group@ == g;
            assert(tl.contains(g));
            let q = choose|q: int| 0 <= q < tl.len() && tl[q] == g;
            assert(gs[q + 1].name@ == g);
        }
        assert forall|m: int| #![trigger gs[m]] 0 <= m < gs.len() implies listeners.has(gs[m].name@) by {
            assert(listeners.has(dest[m]));
        }
        assert(group_table_ok(gs, rules@, primary_group@, *listeners));
    }
    // compiled rules
    let mut compiled: Vec<AppProxyRule> = Vec::new();
    let mut c: usize = 0;
    let ghost mut gid: Seq<int> = Seq::empty();
    while c < rules.len()
        invariant
            c <= rules.len(),
            compiled@.len() == c,
            group_table_ok(groups@, rules@, primary_group@, *listeners),
            dest == names(destinations@),
            groups@.len() == destinations@.len(),
            forall|m: int| #![trigger groups@[m]] 0 <= m < groups@.len() ==> groups@[m].name@ == dest[m],
            dest[0] == primary_group@,
            forall|m: int| 0 <= m < tl.len() ==> dest[m + 1] == tl[m],
            destinations@.len() == tl.len() + 1,
            forall|g: Seq<char>|
                #![trigger tl.contains(g)]
                tl.contains(g) <==> (g != primary_group@ && exists|j: int|
                    0 <= j < rules@.len() && (#[trigger] rules@[j]).enabled && rules@[j].strategy_group@ == g),
            gid.len() == c,
            forall|i: int| 0 <= i < c ==> compiled_at(#[trigger] compiled@[i], rules@[i], groups@, gid[i]),
        decreases rules.len() - c,
    {
        let mut rule = rules[c].clone();
        assert(rule == rules@[c as int]);
        let ghost mut witness: int = 0;
        if rule.enabled {
            let pos = position_of(&destinations, &rule.strategy_group);
            proof {
                let g = rules@[c as int].strategy_group@;
                if g != primary_group@ {
                    assert(tl.contains(g));
                    let q = choose|q: int| 0 <= q < tl.len() && tl[q] == g;
                    assert(destinations@[q + 1]@ == g);
                } else {
                    assert(destinations@[0]@ == g);
                }
            }
            match pos {
                Some(p) => {
                    rule.proxy_group_id = p as u32;
                    proof {
                        witness = p as int;
                        assert(groups@[p as int].name@ == rules@[c as int].strategy_group@);
                        assert(rule == with_group_id(rules@[c as int], (p as int) as u32));
                        assert(exists|k: int|
                            0 <= k < groups@.len() && (#[trigger] groups@[k]).name@
                                == rules@[c as int].strategy_group@ && rule == with_group_id(rules@[c as int], k as u32));
                    }
                },
                None => {
                    proof {
                        assert(false);
                    }
                },
            }
        }
        let ghost before = compiled@;
        compiled.push(rule);
        proof {
            gid = gid.push(witness);
            assert(compiled@[c as int] == rule);
            assert(compiled_at(compiled@[c as int], rules@[c as int], groups@, gid[c as int]));
            assert forall|i: int| 0 <= i < c + 1 implies compiled_at(#[trigger] compiled@[i], rules@[i], groups@, gid[i]) by {
                if i < c {
                    assert(compiled@[i] == before[i]);
                }
            }
        }
        c = c + 1;
    }
    proof {
        assert forall|g: Seq<char>| #[trigger] required_group_set(rules@, primary_group@).contains(g) implies listeners.has(g) by {
            if g == primary_group@ {
                assert(listeners.has(dest[0]));
            } else {
                assert(tl.contains(g));
                let q = choose|q: int| 0 <= q < tl.len() && tl[q] == g;
                assert(listeners.has(dest[q + 1]));
            }
        }
        assert forall|j: int| 0 <= j < rules@.len() implies (#[trigger] fault_of(rules@, j)) is None by {}
        assert forall|i: int|
            #![trigger compiled@[i]]
            0 <= i < rules@.len() implies (if rules@[i].enabled {
                forall|k: int|
                    0 <= k < groups@.len() && (#[trigger] groups@[k]).name@ == rules@[i].strategy_group@
                        ==> compiled@[i] == with_group_id(rules@[i], k as u32)
            } else {
                compiled@[i] == rules@[i]
            }) by {
            assert(compiled_at(compiled@[i], rules@[i], groups@, gid[i]));
            if rules@[i].enabled {
                assert forall|k: int|
                    0 <= k < groups@.len() && (#[trigger] groups@[k]).name@ == rules@[i].strategy_group@
                        implies compiled@[i] == with_group_id(rules@[i], k as u32) by {
                    lemma_group_names_distinct(groups@, rules@, primary_group@, *listeners, k, gid[i]);
                }
            }
        }
        assert(compiled_ok(compiled@, rules@, groups@));
        assert(group_table_ok(groups@, rules@, primary_group@, *listeners));
    }
    Ok((compiled, groups))
}

/// The interpreter names spelled out character by character.
proof fn lemma_interpreter_literals()
    ensures
        "node.exe"@ == seq!['n', 'o', 'd', 'e', '.', 'e', 'x', 'e'],
        "python.exe"@ == seq!['p', 'y', 't', 'h', 'o', 'n', '.', 'e', 'x', 'e'],
        "pythonw.exe"@ == seq!['p', 'y', 't', 'h', 'o', 'n', 'w', '.', 'e', 'x', 'e'],
{
    reveal_strlit("node.exe");
    reveal_strlit("python.exe");
    reveal_strlit("pythonw.exe");
    assert("node.exe"@ =~= seq!['n', 'o', 'd', 'e', '.', 'e', 'x', 'e']);
    assert("python.exe"@ =~= seq!['p', 'y', 't', 'h', 'o', 'n', '.', 'e', 'x', 'e']);
    assert("pythonw.exe"@ =~= seq!['p', 'y', 't', 'h', 'o', 'n', 'w', '.', 'e', 'x', 'e']);
}

/// A rule whose executable is a bare script interpreter (`node.exe`,
/// `python.exe`, `pythonw.exe`) is never accepted: it is refused as such,
/// or for an earlier fault (id, empty or too broad a match).
pub proof fn lemma_interpreter_rule_refused(rule: AppProxyRule, earlier_ids: Seq<Seq<char>>)
    requires
        names_script_interpreter(rule.cmdline_pattern@),
    ensures
        rule_fault(rule, earlier_ids) matches Some(f) && (f == RuleFault::InvalidId || f == RuleFault::EmptyMatch
            || f == RuleFault::TooBroad || f == RuleFault::ScriptInterpreter),
{
    lemma_interpreter_literals();
}

/// A rule list holding a bare script interpreter rule never compiles.
pub proof fn lemma_interpreter_rule_blocks_compile(rules: Seq<AppProxyRule>, i: int)
    requires
        0 <= i < rules.len(),
        names_script_interpreter(rules[i].cmdline_pattern@),
    ensures
        !all_valid(rules),
{
    lemma_interpreter_rule_refused(rules[i], rule_ids(rules).take(i));
    assert(fault_of(rules, i) is Some);
}

} // verus!
