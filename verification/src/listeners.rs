//! The `listeners` section of Mihomo's runtime config as the controller
//! edits it: writing, retiring and recognising the managed loopback
//! listeners, and the desired-listener list merged into generated configs.
use vstd::prelude::*;

use crate::compile::{clone_opt_string, ManagedListenerSpec};

verus! {

/// One entry of the `listeners` sequence, holding what the controller
/// reads of it.
#[derive(Debug, PartialEq, Eq)]
pub struct ListenerItem {
    /// Position in the sequence that was read; `None` for an entry written
    /// by the controller.
    pub origin: Option<usize>,
    /// The string under `name`, if the entry is a mapping that has one.
    pub name: Option<String>,
    /// The unsigned integer under `port`, if any.
    pub port: Option<u64>,
    /// The string under `proxy`, if any.
    pub proxy: Option<String>,
}

impl Clone for ListenerItem {
    fn clone(&self) -> (r: Self)
        ensures
            r == *self,
    {
        ListenerItem {
            origin: self.origin,
            name: clone_opt_string(&self.name),
            port: self.port,
            proxy: clone_opt_string(&self.proxy),
        }
    }
}

/// The `listeners` section of a runtime config.
#[derive(Debug, PartialEq, Eq)]
pub enum RuntimeListeners {
    /// No runtime config has been generated.
    NoConfig,
    /// The config has no `listeners` key.
    Absent,
    /// `listeners` holds something other than a sequence.
    NotSequence,
    /// `listeners` is a sequence.
    Items(Vec<ListenerItem>),
}

/// Option views agree.
pub open spec fn same_text(a: Option<String>, b: Option<String>) -> bool {
    match (a, b) {
        (Some(x), Some(y)) => x@ == y@,
        (None, None) => true,
        _ => false,
    }
}

pub open spec fn item_named(item: ListenerItem, name: Seq<char>) -> bool {
    match item.name {
        Some(s) => s@ == name,
        None => false,
    }
}

/// The entries not named `name`, in order.
pub open spec fn retained(items: Seq<ListenerItem>, name: Seq<char>) -> Seq<ListenerItem> {
    items.filter(|it: ListenerItem| !item_named(it, name))
}

/// The entry the controller writes for a managed listener (type `mixed`,
/// listening on 127.0.0.1; `proxy` only when a group is given).
pub open spec fn managed_item(name: String, port: u16, group: Option<String>) -> ListenerItem {
    ListenerItem { origin: None, name: Some(name), port: Some(port as u64), proxy: group }
}

/// The entries after writing a managed listener: earlier entries of that
/// name removed, the new entry last.
pub open spec fn upserted_items(items: Seq<ListenerItem>, name: String, port: u16, group: Option<String>) -> Seq<ListenerItem> {
    retained(items, name@).push(managed_item(name, port, group))
}

/// Some entry is the managed listener `name` on `port` forwarding to `group`.
pub open spec fn items_loaded(items: Seq<ListenerItem>, name: Seq<char>, port: u16, group: Option<String>) -> bool {
    exists|i: int|
        0 <= i < items.len() && item_named(#[trigger] items[i], name) && items[i].port == Some(
            port as u64,
        ) && same_text(items[i].proxy, group)
}

fn text_is(s: &Option<String>, name: &String) -> (r: bool)
    ensures
        r == match *s {
            Some(x) => x@ == name@,
            None => false,
        },
{
    match s {
        Some(x) => *x == *name,
        None => false,
    }
}

fn texts_agree(a: &Option<String>, b: &Option<String>) -> (r: bool)
    ensures
        r == same_text(*a, *b),
{
    match (a, b) {
        (Some(x), Some(y)) => *x == *y,
        (None, None) => true,
        _ => false,
    }
}

/// Removes every entry named `name`.
pub fn retain_other_items(items: &Vec<ListenerItem>, name: &String) -> (r: Vec<ListenerItem>)
    ensures
        r@ == retained(items@, name@),
{
    let mut out: Vec<ListenerItem> = Vec::new();
    let mut i: usize = 0;
    proof {
        reveal(Seq::filter);
    }
    while i < items.len()
        invariant
            i <= items.len(),
            out@ == retained(items@.take(i as int), name@),
        decreases items.len() - i,
    {
        proof {
            reveal(Seq::filter);
            let t = items@.take(i + 1);
            assert(t.drop_last() =~= items@.take(i as int));
            assert(t.last() == items@[i as int]);
        }
        if !text_is(&items[i].name, name) {
            out.push(items[i].clone());
        }
        i = i + 1;
    }
    assert(items@.take(items.len() as int) =~= items@);
    out
}

/// Writes the managed listener `name`, replacing earlier entries of that
/// name.
pub fn upsert_listener_item(items: &Vec<ListenerItem>, name: &String, port: u16, group: &Option<String>) -> (r: Vec<
    ListenerItem,
>)
    ensures
        r@ == upserted_items(items@, *name, port, *group),
{
    let mut out = retain_other_items(items, name);
    out.push(
        ListenerItem {
            origin: None,
            name: Some(name.clone()),
            port: Some(port as u64),
            proxy: clone_opt_string(group),
        },
    );
    out
}

/// Whether the entries hold the managed listener `name` on `port`
/// forwarding to `group`.
pub fn listener_items_loaded(items: &Vec<ListenerItem>, name: &String, port: u16, group: &Option<String>) -> (r: bool)
    ensures
        r == items_loaded(items@, name@, port, *group),
{
    let mut i: usize = 0;
    while i < items.len()
        invariant
            i <= items.len(),
            forall|j: int|
                0 <= j < i ==> !(item_named(#[trigger] items@[j], name@) && items@[j].port == Some(
                    port as u64,
                ) && same_text(items@[j].proxy, *group)),
        decreases items.len() - i,
    {
        if text_is(&items[i].name, name) && items[i].port == Some(port as u64) && texts_agree(
            &items[i].proxy,
            group,
        ) {
            return true;
        }
        i = i + 1;
    }
    false
}

/// The entries of a section (none unless it is a sequence).
pub open spec fn section_items(rl: RuntimeListeners) -> Option<Seq<ListenerItem>> {
    match rl {
        RuntimeListeners::Items(v) => Some(v@),
        _ => None,
    }
}

/// Writes the managed listener `name` into the runtime config's section.
pub fn configure_listener(rl: RuntimeListeners, name: &String, port: u16, group: &Option<String>) -> (r:
    RuntimeListeners)
    ensures
        match rl {
            RuntimeListeners::NoConfig => r == RuntimeListeners::NoConfig,
            RuntimeListeners::NotSequence => r == RuntimeListeners::NotSequence,
            RuntimeListeners::Absent => section_items(r) == Some(
                upserted_items(Seq::empty(), *name, port, *group),
            ),
            RuntimeListeners::Items(v) => section_items(r) == Some(
                upserted_items(v@, *name, port, *group),
            ),
        },
{
    match rl {
        RuntimeListeners::NoConfig => RuntimeListeners::NoConfig,
        RuntimeListeners::NotSequence => RuntimeListeners::NotSequence,
        RuntimeListeners::Absent => {
            let empty: Vec<ListenerItem> = Vec::new();
            RuntimeListeners::Items(upsert_listener_item(&empty, name, port, group))
        },
        RuntimeListeners::Items(v) => RuntimeListeners::Items(
            upsert_listener_item(&v, name, port, group),
        ),
    }
}

/// Retires the managed listener `name`: only an
/// existing sequence changes.
pub fn remove_listener(rl: RuntimeListeners, name: &String) -> (r: RuntimeListeners)
    ensures
        match rl {
            RuntimeListeners::Items(v) => section_items(r) == Some(retained(v@, name@)),
            _ => r == rl,
        },
{
    match rl {
        RuntimeListeners::Items(v) => RuntimeListeners::Items(retain_other_items(&v, name)),
        other => other,
    }
}

/// Whether the runtime config has loaded the managed listener `name` on
/// `port` forwarding to `group`.
pub fn managed_listener_loaded(rl: &RuntimeListeners, name: &String, port: u16, group: &Option<String>) -> (r:
    bool)
    ensures
        r == match section_items(*rl) {
            Some(items) => items_loaded(items, name@, port, *group),
            None => false,
        },
{
    match rl {
        RuntimeListeners::Items(v) => listener_items_loaded(v, name, port, group),
        _ => false,
    }
}

/// The section after merging the desired managed listeners into a
/// generated config, one after the other.
pub open spec fn merged_items(items: Seq<ListenerItem>, specs: Seq<ManagedListenerSpec>) -> Seq<ListenerItem>
    decreases specs.len(),
{
    if specs.len() == 0 {
        items
    } else {
        let last = specs.last();
        upserted_items(merged_items(items, specs.drop_last()), last.name, last.port, last.group)
    }
}

/// Merges the desired managed listeners into a generated config's section;
/// a config without a config map is left alone.
pub fn merge_managed_listener(rl: RuntimeListeners, specs: &Vec<ManagedListenerSpec>) -> (r:
    RuntimeListeners)
    ensures
        match rl {
            RuntimeListeners::NoConfig => r == RuntimeListeners::NoConfig,
            RuntimeListeners::NotSequence => r == RuntimeListeners::NotSequence,
            RuntimeListeners::Absent => section_items(r) == Some(merged_items(Seq::empty(), specs@)),
            RuntimeListeners::Items(v) => section_items(r) == Some(merged_items(v@, specs@)),
        },
{
    let mut items: Vec<ListenerItem> = match rl {
        RuntimeListeners::NoConfig => {
            return RuntimeListeners::NoConfig;
        },
        RuntimeListeners::NotSequence => {
            return RuntimeListeners::NotSequence;
        },
        RuntimeListeners::Absent => Vec::new(),
        RuntimeListeners::Items(v) => v,
    };
    let ghost start = items@;
    let mut i: usize = 0;
    while i < specs.len()
        invariant
            i <= specs.len(),
            items@ == merged_items(start, specs@.take(i as int)),
        decreases specs.len() - i,
    {
        proof {
            let t = specs@.take(i + 1);
            assert(t.drop_last() =~= specs@.take(i as int));
        }
        items = upsert_listener_item(&items, &specs[i].name, specs[i].port, &specs[i].group);
        i = i + 1;
    }
    assert(specs@.take(specs.len() as int) =~= specs@);
    RuntimeListeners::Items(items)
}

/// The desired listeners without the one named `name`.
pub fn clear_desired_listener(desired: &Vec<ManagedListenerSpec>, name: &String) -> (r: Vec<
    ManagedListenerSpec,
>)
    ensures
        r@ == desired@.filter(|s: ManagedListenerSpec| s.name@ != name@),
{
    let mut out: Vec<ManagedListenerSpec> = Vec::new();
    let mut i: usize = 0;
    proof {
        reveal(Seq::filter);
    }
    while i < desired.len()
        invariant
            i <= desired.len(),
            out@ == desired@.take(i as int).filter(|s: ManagedListenerSpec| s.name@ != name@),
        decreases desired.len() - i,
    {
        proof {
            reveal(Seq::filter);
            let t = desired@.take(i + 1);
            assert(t.drop_last() =~= desired@.take(i as int));
            assert(t.last() == desired@[i as int]);
        }
        if desired[i].name != *name {
            out.push(desired[i].clone());
        }
        i = i + 1;
    }
    assert(desired@.take(desired.len() as int) =~= desired@);
    out
}

/// After writing a managed listener, the config holds it: a read after a
/// write gives back what was written.
pub proof fn lemma_configured_is_loaded(items: Seq<ListenerItem>, name: String, port: u16, group: Option<String>)
    ensures
        items_loaded(upserted_items(items, name, port, group), name@, port, group),
{
    let r = upserted_items(items, name, port, group);
    let k = r.len() - 1;
    assert(r[k] == managed_item(name, port, group));
    assert(item_named(r[k], name@));
}

/// Writing the same managed listener twice leaves the config as writing it
/// once.
pub proof fn lemma_configure_idempotent(items: Seq<ListenerItem>, name: String, port: u16, group: Option<String>)
    ensures
        upserted_items(upserted_items(items, name, port, group), name, port, group) == upserted_items(
            items,
            name,
            port,
            group,
        ),
{
    reveal(Seq::filter);
    let once = upserted_items(items, name, port, group);
    let pred = |it: ListenerItem| !item_named(it, name@);
    lemma_filter_idempotent(items, pred);
    assert(!pred(managed_item(name, port, group)));
    assert(once.drop_last() =~= retained(items, name@));
    assert(retained(once, name@) == retained(once.drop_last(), name@));
}

/// After retiring a managed listener no entry of that name is left.
pub proof fn lemma_removed_not_loaded(items: Seq<ListenerItem>, name: Seq<char>, port: u16, group: Option<String>)
    ensures
        !items_loaded(retained(items, name), name, port, group),
{
    let r = retained(items, name);
    let pred = |it: ListenerItem| !item_named(it, name);
    assert forall|i: int| 0 <= i < r.len() implies !item_named(#[trigger] r[i], name) by {
        items.lemma_filter_pred(pred, i);
    }
}

/// No two desired listeners share a name.
pub open spec fn distinct_names(specs: Seq<ManagedListenerSpec>) -> bool {
    forall|i: int, j: int|
        0 <= i < j < specs.len() ==> (#[trigger] specs[i]).name@ != (#[trigger] specs[j]).name@
}

proof fn lemma_retained_keeps_loaded(items: Seq<ListenerItem>, keep: Seq<char>, other: Seq<char>, port: u16, group: Option<String>)
    requires
        items_loaded(items, keep, port, group),
        keep != other,
    ensures
        items_loaded(retained(items, other), keep, port, group),
{
    let i = choose|i: int|
        0 <= i < items.len() && item_named(#[trigger] items[i], keep) && items[i].port == Some(port as u64)
            && same_text(items[i].proxy, group);
    let pred = |it: ListenerItem| !item_named(it, other);
    items.lemma_filter_contains(pred, i);
    let r = retained(items, other);
    let k = choose|k: int| 0 <= k < r.len() && r[k] == items[i];
    assert(item_named(r[k], keep));
}

/// Once the desired listeners, named distinctly, are merged into a
/// generated config, each of them is loaded there: name, port and group.
pub proof fn lemma_merged_listeners_loaded(items: Seq<ListenerItem>, specs: Seq<ManagedListenerSpec>, k: int)
    requires
        distinct_names(specs),
        0 <= k < specs.len(),
    ensures
        items_loaded(merged_items(items, specs), specs[k].name@, specs[k].port, specs[k].group),
    decreases specs.len(),
{
    let last = specs.last();
    let before = merged_items(items, specs.drop_last());
    if k == specs.len() - 1 {
        lemma_configured_is_loaded(before, last.name, last.port, last.group);
    } else {
        let rest = specs.drop_last();
        assert forall|i: int, j: int| 0 <= i < j < rest.len() implies (#[trigger] rest[i]).name@
            != (#[trigger] rest[j]).name@ by {
            assert(rest[i] == specs[i] && rest[j] == specs[j]);
        }
        lemma_merged_listeners_loaded(items, rest, k);
        assert(rest[k] == specs[k]);
        assert(specs[k].name@ != last.name@);
        lemma_retained_keeps_loaded(before, specs[k].name@, last.name@, specs[k].port, specs[k].group);
        let r = retained(before, last.name@);
        let i = choose|i: int|
            0 <= i < r.len() && item_named(#[trigger] r[i], specs[k].name@) && r[i].port == Some(
                specs[k].port as u64,
            ) && same_text(r[i].proxy, specs[k].group);
        let merged = upserted_items(before, last.name, last.port, last.group);
        assert(merged[i] == r[i]);
    }
}

/// An entry that no desired listener names.
pub open spec fn kept_by(specs: Seq<ManagedListenerSpec>) -> spec_fn(ListenerItem) -> bool {
    |it: ListenerItem| !exists|k: int| 0 <= k < specs.len() && item_named(it, (#[trigger] specs[k]).name@)
}

/// The entries written for the desired listeners, in order.
pub open spec fn managed_items(specs: Seq<ManagedListenerSpec>) -> Seq<ListenerItem> {
    Seq::new(specs.len(), |k: int| managed_item(specs[k].name, specs[k].port, specs[k].group))
}

proof fn lemma_filter_filter(s: Seq<ListenerItem>, p: spec_fn(ListenerItem) -> bool, q: spec_fn(ListenerItem) -> bool, pq: spec_fn(ListenerItem) -> bool)
    requires
        forall|it: ListenerItem| #[trigger] pq(it) == (p(it) && q(it)),
    ensures
        s.filter(p).filter(q) == s.filter(pq),
    decreases s.len(),
{
    reveal(Seq::filter);
    if s.len() > 0 {
        lemma_filter_filter(s.drop_last(), p, q, pq);
        let f = s.drop_last().filter(p);
        if p(s.last()) {
            assert(f.push(s.last()).drop_last() =~= f);
        }
    }
}

proof fn lemma_filter_all(s: Seq<ListenerItem>, p: spec_fn(ListenerItem) -> bool)
    requires
        forall|i: int| 0 <= i < s.len() ==> p(#[trigger] s[i]),
    ensures
        s.filter(p) == s,
    decreases s.len(),
{
    reveal(Seq::filter);
    if s.len() > 0 {
        lemma_filter_all(s.drop_last(), p);
        assert(s.drop_last().push(s.last()) =~= s);
    }
}

proof fn lemma_filter_none(s: Seq<ListenerItem>, p: spec_fn(ListenerItem) -> bool)
    requires
        forall|i: int| 0 <= i < s.len() ==> !p(#[trigger] s[i]),
    ensures
        s.filter(p) =~= Seq::<ListenerItem>::empty(),
    decreases s.len(),
{
    reveal(Seq::filter);
    if s.len() > 0 {
        lemma_filter_none(s.drop_last(), p);
    }
}

/// Merging desired listeners of distinct names leaves the entries that none
/// of them names, in order, followed by one managed entry per desired
/// listener, in order.
pub proof fn lemma_merged_form(items: Seq<ListenerItem>, specs: Seq<ManagedListenerSpec>)
    requires
        distinct_names(specs),
    ensures
        merged_items(items, specs) == items.filter(kept_by(specs)) + managed_items(specs),
    decreases specs.len(),
{
    if specs.len() == 0 {
        lemma_filter_all(items, kept_by(specs));
        assert(managed_items(specs) =~= Seq::<ListenerItem>::empty());
        assert(items.filter(kept_by(specs)) + managed_items(specs) =~= items);
    } else {
        let rest = specs.drop_last();
        let last = specs.last();
        assert forall|i: int, j: int| 0 <= i < j < rest.len() implies (#[trigger] rest[i]).name@
            != (#[trigger] rest[j]).name@ by {
            assert(rest[i] == specs[i] && rest[j] == specs[j]);
        }
        lemma_merged_form(items, rest);
        let not_last = |it: ListenerItem| !item_named(it, last.name@);
        let x = items.filter(kept_by(rest));
        let y = managed_items(rest);
        assert(retained(x + y, last.name@) == x.filter(not_last) + y.filter(not_last)) by {
            Seq::filter_distributes_over_add(x, y, not_last);
        }
        assert forall|it: ListenerItem| #[trigger] kept_by(specs)(it) == (kept_by(rest)(it) && not_last(it)) by {
            if exists|k: int| 0 <= k < specs.len() && item_named(it, (#[trigger] specs[k]).name@) {
                let k = choose|k: int| 0 <= k < specs.len() && item_named(it, (#[trigger] specs[k]).name@);
                if k < rest.len() {
                    assert(rest[k] == specs[k]);
                }
            }
            if exists|k: int| 0 <= k < rest.len() && item_named(it, (#[trigger] rest[k]).name@) {
                let k = choose|k: int| 0 <= k < rest.len() && item_named(it, (#[trigger] rest[k]).name@);
                assert(rest[k] == specs[k]);
            }
            if !not_last(it) {
                assert(item_named(it, specs[specs.len() - 1].name@));
            }
        }
        lemma_filter_filter(items, kept_by(rest), not_last, kept_by(specs));
        assert forall|i: int| 0 <= i < y.len() implies not_last(#[trigger] y[i]) by {
            assert(rest[i] == specs[i]);
            assert(specs[i].name@ != specs[specs.len() - 1].name@);
        }
        lemma_filter_all(y, not_last);
        assert(managed_items(specs) =~= y.push(managed_item(last.name, last.port, last.group)));
        assert(merged_items(items, specs) == retained(merged_items(items, rest), last.name@).push(
            managed_item(last.name, last.port, last.group),
        ));
        assert((x.filter(not_last) + y).push(managed_item(last.name, last.port, last.group)) =~= items.filter(
            kept_by(specs),
        ) + managed_items(specs));
    }
}

/// Merging the same desired listeners twice, when their names are
/// distinct, leaves the section as merging them once.
pub proof fn lemma_merge_idempotent(items: Seq<ListenerItem>, specs: Seq<ManagedListenerSpec>)
    requires
        distinct_names(specs),
    ensures
        merged_items(merged_items(items, specs), specs) == merged_items(items, specs),
{
    let keep = kept_by(specs);
    let m = merged_items(items, specs);
    lemma_merged_form(items, specs);
    lemma_merged_form(m, specs);
    let x = items.filter(keep);
    let y = managed_items(specs);
    Seq::filter_distributes_over_add(x, y, keep);
    lemma_filter_idempotent(items, keep);
    assert forall|i: int| 0 <= i < y.len() implies !keep(#[trigger] y[i]) by {
        assert(item_named(y[i], specs[i].name@));
    }
    lemma_filter_none(y, keep);
    assert(x.filter(keep) + y.filter(keep) =~= x);
}

/// Filtering twice by one predicate filters once.
proof fn lemma_filter_idempotent(s: Seq<ListenerItem>, pred: spec_fn(ListenerItem) -> bool)
    ensures
        s.filter(pred).filter(pred) == s.filter(pred),
    decreases s.len(),
{
    reveal(Seq::filter);
    if s.len() > 0 {
        lemma_filter_idempotent(s.drop_last(), pred);
        let f = s.drop_last().filter(pred);
        if pred(s.last()) {
            assert(f.push(s.last()).drop_last() =~= f);
        }
    }
}

} // verus!
