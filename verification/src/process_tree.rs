//! The system process tree: each process of a snapshot placed once, under
//! its parent where the parent chain allows it, siblings ordered by name
//! and pid.
use vstd::prelude::*;
use vstd::multiset::Multiset;

use crate::compile::clone_opt_string;
use crate::telemetry::{distinct_pids, ProcessSnapshot, RawProcessInfo};
use crate::text::{lemma_lex_asymmetric, lemma_lex_irreflexive, lemma_lex_transitive, lex_lt, string_lt};

verus! {

broadcast use vstd::multiset::group_multiset_axioms;

/// One process and the processes started by it.
#[derive(Debug, PartialEq, Eq)]
pub struct AppProxyProcessNode {
    pub pid: u32,
    pub parent_pid: u32,
    pub name: String,
    pub hijacked: bool,
    pub hijack_source: Option<String>,
    pub children: Vec<AppProxyProcessNode>,
    pub cmdline: Option<String>,
    pub image_path: Option<String>,
}

/// The pids of a node and of all nodes below it.
pub open spec fn node_pids(n: AppProxyProcessNode) -> Multiset<u32>
    decreases n,
{
    Multiset::singleton(n.pid).add(forest_pids(n.children@))
}

/// The pids of all nodes of a list of trees.
pub open spec fn forest_pids(s: Seq<AppProxyProcessNode>) -> Multiset<u32>
    decreases s,
{
    if s.len() == 0 {
        Multiset::empty()
    } else {
        forest_pids(s.drop_last()).add(node_pids(s.last()))
    }
}


/// The pids of the processes of a snapshot, in snapshot order.
pub open spec fn entry_pids(e: Seq<RawProcessInfo>) -> Seq<u32> {
    Seq::new(e.len(), |i: int| e[i].pid)
}

/// Whether some process of `e` has `pid`.
pub open spec fn has_pid(e: Seq<RawProcessInfo>, pid: u32) -> bool {
    exists|k: int| 0 <= k < e.len() && (#[trigger] e[k]).pid == pid
}

/// A process that can only stand at the top of the tree: its parent is not
/// in the snapshot, or it names itself as its parent.
pub open spec fn must_be_root(e: Seq<RawProcessInfo>, k: int) -> bool {
    !has_pid(e, e[k].parent_pid) || e[k].parent_pid == e[k].pid
}

/// A candidate for the top of the tree: its parent pid is 0, absent from
/// the snapshot, or its own pid.
pub open spec fn is_candidate(e: Seq<RawProcessInfo>, k: int) -> bool {
    e[k].parent_pid == 0 || !has_pid(e, e[k].parent_pid) || e[k].parent_pid == e[k].pid
}

/// Process `a` is reached from process `x` by following parent links at
/// most `n` times.
pub open spec fn within(e: Seq<RawProcessInfo>, x: int, a: int, n: nat) -> bool
    decreases n,
{
    x == a || (n > 0 && exists|p: int|
        0 <= p < e.len() && (#[trigger] e[p]).pid == e[x].parent_pid && within(e, p, a, (n - 1) as nat))
}

/// Process `a` is an ancestor of process `x`: `x`'s parent or one of its
/// ancestors.
pub open spec fn reaches(e: Seq<RawProcessInfo>, x: int, a: int) -> bool {
    exists|p: int, n: nat| 0 <= p < e.len() && e[p].pid == e[x].parent_pid && #[trigger] within(e, p, a, n)
}

/// Process `j` names process `m` as its parent.
pub open spec fn child_of(e: Seq<RawProcessInfo>, j: int, m: int) -> bool {
    e[j].parent_pid == e[m].pid
}

/// The visited processes include every child of a visited process.
pub open spec fn closed(e: Seq<RawProcessInfo>, v: Seq<bool>) -> bool {
    forall|m: int, j: int|
        0 <= m < e.len() && 0 <= j < e.len() && v[m] && #[trigger] child_of(e, j, m) ==> v[j]
}

/// Some tree of the list has its root at `pid`.
pub open spec fn has_root(r: Seq<AppProxyProcessNode>, pid: u32) -> bool {
    exists|i: int| 0 <= i < r.len() && (#[trigger] r[i]).pid == pid
}

proof fn lemma_within_extend(e: Seq<RawProcessInfo>, x: int, a: int, n: nat, p2: int, b: int, m: nat) -> (k: nat)
    requires
        0 <= x < e.len(),
        0 <= p2 < e.len(),
        within(e, x, a, n),
        e[p2].pid == e[a].parent_pid,
        within(e, p2, b, m),
    ensures
        within(e, x, b, k),
    decreases n,
{
    if x == a {
        assert(within(e, x, b, m + 1));
        m + 1
    } else {
        let p = choose|p: int|
            0 <= p < e.len() && (#[trigger] e[p]).pid == e[x].parent_pid && within(e, p, a, (n - 1) as nat);
        let k1 = lemma_within_extend(e, p, a, (n - 1) as nat, p2, b, m);
        assert(within(e, x, b, k1 + 1));
        k1 + 1
    }
}

proof fn lemma_reaches_transitive(e: Seq<RawProcessInfo>, j: int, c: int, idx: int)
    requires
        0 <= c < e.len(),
        reaches(e, j, c),
        reaches(e, c, idx),
    ensures
        reaches(e, j, idx),
{
    let (p1, n1) = choose|p: int, n: nat| 0 <= p < e.len() && e[p].pid == e[j].parent_pid && #[trigger] within(e, p, c, n);
    let (p2, n2) = choose|p: int, n: nat| 0 <= p < e.len() && e[p].pid == e[c].parent_pid && #[trigger] within(e, p, idx, n);
    let k = lemma_within_extend(e, p1, c, n1, p2, idx, n2);
    assert(within(e, p1, idx, k));
}

proof fn lemma_within_visited(e: Seq<RawProcessInfo>, v: Seq<bool>, p: int, c: int, n: nat)
    requires
        v.len() == e.len(),
        closed(e, v),
        0 <= p < e.len(),
        0 <= c < e.len(),
        v[c],
        within(e, p, c, n),
    ensures
        v[p],
    decreases n,
{
    if p != c {
        let q = choose|q: int|
            0 <= q < e.len() && (#[trigger] e[q]).pid == e[p].parent_pid && within(e, q, c, (n - 1) as nat);
        lemma_within_visited(e, v, q, c, (n - 1) as nat);
        assert(child_of(e, p, q));
    }
}

/// Every descendant of a visited process is visited.
proof fn lemma_descendant_visited(e: Seq<RawProcessInfo>, v: Seq<bool>, x: int, c: int)
    requires
        v.len() == e.len(),
        closed(e, v),
        0 <= x < e.len(),
        0 <= c < e.len(),
        v[c],
        reaches(e, x, c),
    ensures
        v[x],
{
    let (p, n) = choose|p: int, n: nat| 0 <= p < e.len() && e[p].pid == e[x].parent_pid && #[trigger] within(e, p, c, n);
    lemma_within_visited(e, v, p, c, n);
    assert(child_of(e, x, p));
}

/// A process that names itself as its parent reaches only itself.
proof fn lemma_self_parent_within(e: Seq<RawProcessInfo>, x: int, a: int, n: nat)
    requires
        distinct_pids(e),
        0 <= x < e.len(),
        e[x].parent_pid == e[x].pid,
        within(e, x, a, n),
    ensures
        a == x,
    decreases n,
{
    if x != a {
        let p = choose|p: int|
            0 <= p < e.len() && (#[trigger] e[p]).pid == e[x].parent_pid && within(e, p, a, (n - 1) as nat);
        if p != x {
            if p < x {
                assert(e[p].pid != e[x].pid);
            } else {
                assert(e[x].pid != e[p].pid);
            }
        }
        lemma_self_parent_within(e, x, a, (n - 1) as nat);
    }
}

/// Sibling order: by name (code point order), then by pid.
pub open spec fn node_before(a: AppProxyProcessNode, b: AppProxyProcessNode) -> bool {
    lex_lt(a.name@, b.name@) || (a.name@ == b.name@ && a.pid < b.pid)
}

/// No node comes before an earlier one.
pub open spec fn ordered(s: Seq<AppProxyProcessNode>) -> bool {
    forall|i: int, j: int| 0 <= i < j < s.len() ==> !node_before(#[trigger] s[j], #[trigger] s[i])
}

/// A node shows process `p`, as observed without interception.
pub open spec fn describes(n: AppProxyProcessNode, p: RawProcessInfo) -> bool {
    &&& n.pid == p.pid
    &&& n.parent_pid == p.parent_pid
    &&& n.name@ == p.name@
    &&& n.image_path == p.image_path
    &&& !n.hijacked
    &&& n.hijack_source is None
    &&& n.cmdline is None
}

/// A node and everything below it show processes of `e`; every child is a
/// process started by its parent node; siblings are ordered.
pub open spec fn well_placed(n: AppProxyProcessNode, e: Seq<RawProcessInfo>) -> bool
    decreases n,
{
    &&& exists|k: int| 0 <= k < e.len() && describes(n, #[trigger] e[k])
    &&& ordered(n.children@)
    &&& forall|i: int|
        0 <= i < n.children@.len() ==> (#[trigger] n.children@[i]).parent_pid == n.pid && well_placed(
            n.children@[i],
            e,
        )
}

/// The pids of the processes among the first `n` that are marked visited.
pub open spec fn visited_pids(e: Seq<RawProcessInfo>, v: Seq<bool>, n: int) -> Multiset<u32>
    decreases n,
{
    if n <= 0 {
        Multiset::empty()
    } else {
        visited_pids(e, v, n - 1).add(
            if v[n - 1] {
                Multiset::singleton(e[n - 1].pid)
            } else {
                Multiset::empty()
            },
        )
    }
}

/// How many of the first `n` processes are not yet visited.
pub open spec fn unvisited(v: Seq<bool>, n: int) -> nat
    decreases n,
{
    if n <= 0 {
        0
    } else {
        unvisited(v, n - 1) + if v[n - 1] {
            0nat
        } else {
            1nat
        }
    }
}

proof fn lemma_mark_beyond(e: Seq<RawProcessInfo>, v: Seq<bool>, k: int, n: int)
    requires
        0 <= n <= k < v.len(),
    ensures
        visited_pids(e, v.update(k, true), n) == visited_pids(e, v, n),
        unvisited(v.update(k, true), n) == unvisited(v, n),
    decreases n,
{
    if n > 0 {
        lemma_mark_beyond(e, v, k, n - 1);
    }
}

/// Marking an unvisited process adds its pid once and leaves one fewer
/// unvisited.
proof fn lemma_mark(e: Seq<RawProcessInfo>, v: Seq<bool>, k: int, n: int)
    requires
        0 <= k < n <= v.len(),
        !v[k],
    ensures
        visited_pids(e, v.update(k, true), n) == visited_pids(e, v, n).insert(e[k].pid),
        unvisited(v.update(k, true), n) + 1 == unvisited(v, n),
    decreases n,
{
    if n - 1 == k {
        lemma_mark_beyond(e, v, k, n - 1);
    } else {
        lemma_mark(e, v, k, n - 1);
    }
}

proof fn lemma_none_visited(e: Seq<RawProcessInfo>, v: Seq<bool>, n: int)
    requires
        0 <= n <= v.len(),
        forall|i: int| 0 <= i < n ==> !v[i],
    ensures
        visited_pids(e, v, n) == Multiset::<u32>::empty(),
    decreases n,
{
    if n > 0 {
        lemma_none_visited(e, v, n - 1);
    }
}

proof fn lemma_all_visited(e: Seq<RawProcessInfo>, v: Seq<bool>, n: int)
    requires
        0 <= n <= v.len(),
        n <= e.len(),
        forall|i: int| 0 <= i < n ==> v[i],
    ensures
        visited_pids(e, v, n) == Seq::new(n as nat, |i: int| e[i].pid).to_multiset(),
    decreases n,
{
    broadcast use vstd::seq_lib::to_multiset_build;

    if n == 0 {
        assert(Seq::new(0nat, |i: int| e[i].pid) =~= Seq::<u32>::empty());
        vstd::seq_lib::to_multiset_len(Seq::<u32>::empty());
        vstd::multiset::lemma_multiset_empty_len(Seq::<u32>::empty().to_multiset());
    } else {
        lemma_all_visited(e, v, n - 1);
        assert(Seq::new(n as nat, |i: int| e[i].pid) =~= Seq::new((n - 1) as nat, |i: int| e[i].pid).push(
            e[n - 1].pid,
        ));
    }
}

/// Inserting a tree into a list adds its pids.
proof fn lemma_forest_insert(s: Seq<AppProxyProcessNode>, p: int, x: AppProxyProcessNode)
    requires
        0 <= p <= s.len(),
    ensures
        forest_pids(s.insert(p, x)) == forest_pids(s).add(node_pids(x)),
    decreases s.len(),
{
    let t = s.insert(p, x);
    if p == s.len() {
        assert(t.drop_last() =~= s);
    } else {
        assert(t.drop_last() =~= s.drop_last().insert(p, x));
        lemma_forest_insert(s.drop_last(), p, x);
    }
}

proof fn lemma_before_asymmetric(a: AppProxyProcessNode, b: AppProxyProcessNode)
    ensures
        !(node_before(a, b) && node_before(b, a)),
{
    lemma_lex_asymmetric(a.name@, b.name@);
    lemma_lex_irreflexive(a.name@);
}

proof fn lemma_before_transitive(a: AppProxyProcessNode, b: AppProxyProcessNode, c: AppProxyProcessNode)
    requires
        node_before(a, b),
        node_before(b, c),
    ensures
        node_before(a, c),
{
    if lex_lt(a.name@, b.name@) && lex_lt(b.name@, c.name@) {
        lemma_lex_transitive(a.name@, b.name@, c.name@);
    }
}


fn node_precedes(a: &AppProxyProcessNode, b: &AppProxyProcessNode) -> (r: bool)
    ensures
        r == node_before(*a, *b),
{
    string_lt(&a.name, &b.name) || (a.name == b.name && a.pid < b.pid)
}

/// Inserts `x` after every node that does not come after it; returns the
/// position it took.
fn insert_ordered(v: &mut Vec<AppProxyProcessNode>, x: AppProxyProcessNode) -> (p: usize)
    requires
        ordered(old(v)@),
    ensures
        p <= old(v)@.len(),
        final(v)@ == old(v)@.insert(p as int, x),
        ordered(final(v)@),
{
    let ghost old_v = v@;
    let mut p: usize = 0;
    while p < v.len() && !node_precedes(&x, &v[p])
        invariant
            v@ == old_v,
            p <= v.len(),
            forall|j: int| 0 <= j < p ==> !node_before(x, #[trigger] v@[j]),
        decreases v.len() - p,
    {
        p = p + 1;
    }
    let ghost stop = p < v.len();
    proof {
        if stop {
            assert(node_before(x, old_v[p as int]));
        }
    }
    v.insert(p, x);
    proof {
        let n = v@;
        assert forall|i: int, j: int| 0 <= i < j < n.len() implies !node_before(
            #[trigger] n[j],
            #[trigger] n[i],
        ) by {
            if j < p {
                assert(n[i] == old_v[i] && n[j] == old_v[j]);
            } else if j == p {
                assert(n[i] == old_v[i]);
            } else if i == p {
                assert(n[j] == old_v[j - 1]);
                lemma_before_asymmetric(old_v[p as int], x);
                if j - 1 > p && node_before(old_v[j - 1], x) {
                    lemma_before_transitive(old_v[j - 1], x, old_v[p as int]);
                }
            } else if i < p {
                assert(n[i] == old_v[i] && n[j] == old_v[j - 1]);
            } else {
                assert(n[i] == old_v[i - 1] && n[j] == old_v[j - 1]);
            }
        }
    }
    p
}


/// Builds the tree of process `idx` from the processes not yet visited,
/// marking each process it places; `None` when `idx` was visited already.
fn build_node(snapshot: &ProcessSnapshot, idx: usize, visited: &mut Vec<bool>) -> (r: Option<
    AppProxyProcessNode,
>)
    requires
        snapshot.wf(),
        old(visited)@.len() == snapshot.spec_entries().len(),
        idx < snapshot.spec_entries().len(),
    ensures
        final(visited)@.len() == old(visited)@.len(),
        unvisited(final(visited)@, final(visited)@.len() as int) <= unvisited(
            old(visited)@,
            old(visited)@.len() as int,
        ),
        forall|j: int| 0 <= j < old(visited)@.len() && old(visited)@[j] ==> final(visited)@[j],
        old(visited)@[idx as int] ==> r is None && final(visited)@ == old(visited)@,
        !old(visited)@[idx as int] ==> (r matches Some(n) && describes(n, snapshot.spec_entries()[idx as int])
            && well_placed(n, snapshot.spec_entries()) && final(visited)@[idx as int]),
        visited_pids(snapshot.spec_entries(), final(visited)@, final(visited)@.len() as int) == visited_pids(
            snapshot.spec_entries(),
            old(visited)@,
            old(visited)@.len() as int,
        ).add(
            match r {
                Some(n) => node_pids(n),
                None => Multiset::empty(),
            },
        ),
        forall|j: int|
            0 <= j < old(visited)@.len() && final(visited)@[j] && !old(visited)@[j] && j != idx ==> reaches(
                snapshot.spec_entries(),
                j,
                idx as int,
            ),
        forall|m: int, j: int|
            0 <= m < old(visited)@.len() && 0 <= j < old(visited)@.len() && final(visited)@[m] && !old(visited)@[m]
                && #[trigger] child_of(snapshot.spec_entries(), j, m) ==> final(visited)@[j],
    decreases unvisited(old(visited)@, old(visited)@.len() as int),
{
    if visited[idx] {
        return None;
    }
    let ghost e = snapshot.spec_entries();
    let ghost start = visited@;
    let n = snapshot.len();
    proof {
        lemma_mark(e, start, idx as int, n as int);
    }
    visited.set(idx, true);
    let pid = snapshot.entry(idx).pid;
    let mut children: Vec<AppProxyProcessNode> = Vec::new();
    let mut j: usize = 0;
    while j < n
        invariant
            snapshot.wf(),
            e == snapshot.spec_entries(),
            n == e.len(),
            start.len() == n,
            j <= n,
            idx < n,
            pid == e[idx as int].pid,
            !start[idx as int],
            visited@.len() == n,
            visited@[idx as int],
            unvisited(visited@, n as int) < unvisited(start, n as int),
            start == old(visited)@,
            forall|k: int| 0 <= k < n && start[k] ==> visited@[k],
            visited_pids(e, visited@, n as int) == visited_pids(e, start, n as int).insert(pid).add(
                forest_pids(children@),
            ),
            ordered(children@),
            forall|i: int|
                0 <= i < children@.len() ==> (#[trigger] children@[i]).parent_pid == pid && well_placed(
                    children@[i],
                    e,
                ),
            forall|k: int| 0 <= k < n && visited@[k] && !start[k] && k != idx ==> reaches(e, k, idx as int),
            forall|m: int, k: int|
                0 <= m < n && 0 <= k < n && visited@[m] && !start[m] && m != idx && #[trigger] child_of(e, k, m)
                    ==> visited@[k],
            forall|k: int| 0 <= k < j && #[trigger] child_of(e, k, idx as int) ==> visited@[k],
        decreases n - j,
    {
        if snapshot.entry(j).parent_pid == pid {
            let ghost before = visited@;
            let ghost before_children = children@;
            let child = build_node(snapshot, j, visited);
            match child {
                Some(c) => {
                    let ghost cn = c;
                    let p = insert_ordered(&mut children, c);
                    proof {
                        lemma_forest_insert(before_children, p as int, cn);
                        assert forall|i: int| 0 <= i < children@.len() implies (#[trigger] children@[i]).parent_pid
                            == pid && well_placed(children@[i], e) by {
                            if i < p {
                                assert(children@[i] == before_children[i]);
                            } else if i > p {
                                assert(children@[i] == before_children[i - 1]);
                            }
                        }
                    }
                },
                None => {},
            }
            proof {
                assert(within(e, idx as int, idx as int, 0));
                assert(reaches(e, j as int, idx as int));
                assert forall|k: int| 0 <= k < n && visited@[k] && !start[k] && k != idx implies reaches(
                    e,
                    k,
                    idx as int,
                ) by {
                    if !before[k] {
                        if k == j {
                            assert(within(e, idx as int, idx as int, 0));
                        } else {
                            lemma_reaches_transitive(e, k, j as int, idx as int);
                        }
                    }
                }
                assert forall|m: int, k: int|
                    0 <= m < n && 0 <= k < n && visited@[m] && !start[m] && m != idx && #[trigger] child_of(
                        e,
                        k,
                        m,
                    ) implies visited@[k] by {
                    if before[m] {
                        assert(before[k]);
                    }
                }
            }
        }
        j = j + 1;
    }
    let entry = snapshot.entry(idx);
    let node = AppProxyProcessNode {
        pid,
        parent_pid: entry.parent_pid,
        name: entry.name.clone(),
        hijacked: false,
        hijack_source: None,
        children,
        cmdline: None,
        image_path: clone_opt_string(&entry.image_path),
    };
    proof {
        assert(describes(node, e[idx as int]));
        assert(node.children@ == children@);
        assert forall|m: int, k: int|
            0 <= m < n && 0 <= k < n && visited@[m] && !start[m] && #[trigger] child_of(e, k, m) implies visited@[k] by {
            if m == idx {
                assert(child_of(e, k, idx as int));
            }
        }
    }
    Some(node)
}


/// Whether the snapshot process at `idx` is a candidate for the top of the
/// tree.
fn is_candidate_root(snapshot: &ProcessSnapshot, idx: usize) -> (r: bool)
    requires
        idx < snapshot.spec_entries().len(),
    ensures
        r == is_candidate(snapshot.spec_entries(), idx as int),
{
    let p = snapshot.entry(idx);
    p.parent_pid == 0 || snapshot.find(p.parent_pid).is_none() || p.pid == p.parent_pid
}

proof fn lemma_insert_candidate(e: Seq<RawProcessInfo>, before: Seq<usize>, q: int, i: usize, after: Seq<usize>)
    requires
        i < e.len(),
        is_candidate(e, i as int),
        0 <= q <= before.len(),
        after == before.insert(q, i),
        forall|k: int| 0 <= k < before.len() ==> #[trigger] before[k] < i && is_candidate(e, before[k] as int),
        forall|k: int| 0 <= k < i && is_candidate(e, k) ==> exists|m: int| 0 <= m < before.len() && before[m] == k,
        forall|a: int, b: int|
            0 <= a < b < before.len() ==> e[#[trigger] before[a] as int].pid < e[#[trigger] before[b] as int].pid,
        forall|k: int| 0 <= k < q ==> e[#[trigger] before[k] as int].pid < e[i as int].pid,
        q < before.len() ==> e[i as int].pid < e[before[q] as int].pid,
    ensures
        forall|k: int| 0 <= k < after.len() ==> #[trigger] after[k] < i + 1 && is_candidate(e, after[k] as int),
        forall|k: int| 0 <= k < i + 1 && is_candidate(e, k) ==> exists|m: int| 0 <= m < after.len() && after[m] == k,
        forall|a: int, b: int|
            0 <= a < b < after.len() ==> e[#[trigger] after[a] as int].pid < e[#[trigger] after[b] as int].pid,
{
    assert forall|k: int| 0 <= k < after.len() implies #[trigger] after[k] < i + 1 && is_candidate(e, after[k] as int) by {
        if k < q {
            assert(after[k] == before[k]);
        } else if k > q {
            assert(after[k] == before[k - 1]);
        }
    }
    assert forall|k: int| 0 <= k < i + 1 && is_candidate(e, k) implies exists|m: int|
        0 <= m < after.len() && after[m] == k by {
        if k < i {
            let m = choose|m: int| 0 <= m < before.len() && before[m] == k;
            if m < q {
                assert(after[m] == before[m]);
            } else {
                assert(after[m + 1] == before[m]);
            }
        } else {
            assert(after[q] as int == k);
        }
    }
    assert forall|a: int, b: int| 0 <= a < b < after.len() implies e[#[trigger] after[a] as int].pid
        < e[#[trigger] after[b] as int].pid by {
        if b < q {
            assert(after[a] == before[a] && after[b] == before[b]);
        } else if b == q {
            assert(after[a] == before[a]);
        } else if a == q {
            assert(after[b] == before[b - 1]);
            if b - 1 > q {
                assert(e[before[q] as int].pid < e[before[b - 1] as int].pid);
            }
        } else if a < q {
            assert(after[a] == before[a] && after[b] == before[b - 1]);
        } else {
            assert(after[a] == before[a - 1] && after[b] == before[b - 1]);
        }
    }
}

/// The candidate roots, in ascending pid order.
fn candidate_roots(snapshot: &ProcessSnapshot) -> (r: Vec<usize>)
    requires
        snapshot.wf(),
    ensures
        candidate_order(snapshot.spec_entries(), r@),
{
    let ghost e = snapshot.spec_entries();
    let n = snapshot.len();
    let mut out: Vec<usize> = Vec::new();
    let mut i: usize = 0;
    while i < n
        invariant
            snapshot.wf(),
            e == snapshot.spec_entries(),
            n == e.len(),
            i <= n,
            forall|k: int| 0 <= k < out@.len() ==> #[trigger] out@[k] < i && is_candidate(e, out@[k] as int),
            forall|k: int| 0 <= k < i && is_candidate(e, k) ==> exists|m: int| 0 <= m < out@.len() && out@[m] == k,
            forall|a: int, b: int|
                0 <= a < b < out@.len() ==> e[#[trigger] out@[a] as int].pid < e[#[trigger] out@[b] as int].pid,
        decreases n - i,
    {
        if is_candidate_root(snapshot, i) {
            let pid = snapshot.entry(i).pid;
            let mut q: usize = 0;
            while q < out.len() && snapshot.entry(out[q]).pid < pid
                invariant
                    e == snapshot.spec_entries(),
                    n == e.len(),
                    i < n,
                    pid == e[i as int].pid,
                    q <= out.len(),
                    forall|k: int| 0 <= k < out@.len() ==> #[trigger] out@[k] < i,
                    forall|k: int| 0 <= k < q ==> e[#[trigger] out@[k] as int].pid < pid,
                decreases out.len() - q,
            {
                q = q + 1;
            }
            let ghost before = out@;
            proof {
                if q < out.len() {
                    let o = out@[q as int] as int;
                    assert(o < i);
                    assert(e[o].pid != e[i as int].pid);
                }
            }
            out.insert(q, i);
            proof {
                lemma_insert_candidate(e, before, q as int, i, out@);
            }
        }
        i = i + 1;
    }
    out
}

/// Places the tree of process `idx`, if not yet visited, among the roots.
fn add_root(snapshot: &ProcessSnapshot, idx: usize, visited: &mut Vec<bool>, roots: &mut Vec<AppProxyProcessNode>)
    requires
        snapshot.wf(),
        idx < snapshot.spec_entries().len(),
        old(visited)@.len() == snapshot.spec_entries().len(),
        closed(snapshot.spec_entries(), old(visited)@),
        visited_pids(snapshot.spec_entries(), old(visited)@, old(visited)@.len() as int) == forest_pids(
            old(roots)@,
        ),
        ordered(old(roots)@),
        forall|i: int| 0 <= i < old(roots)@.len() ==> well_placed(#[trigger] old(roots)@[i], snapshot.spec_entries()),
        forall|k: int|
            0 <= k < old(visited)@.len() && old(visited)@[k] && must_be_root(snapshot.spec_entries(), k)
                ==> has_root(old(roots)@, snapshot.spec_entries()[k].pid),
    ensures
        final(visited)@.len() == old(visited)@.len(),
        final(visited)@[idx as int],
        old(visited)@[idx as int] ==> final(visited)@ == old(visited)@,
        forall|k: int| 0 <= k < old(visited)@.len() && old(visited)@[k] ==> final(visited)@[k],
        forall|k: int|
            0 <= k < old(visited)@.len() && final(visited)@[k] && !old(visited)@[k] && k != idx ==> reaches(
                snapshot.spec_entries(),
                k,
                idx as int,
            ),
        closed(snapshot.spec_entries(), final(visited)@),
        forall|pid: u32|
            #[trigger] has_root(final(roots)@, pid) <==> (has_root(old(roots)@, pid) || (!old(visited)@[idx as int]
                && pid == snapshot.spec_entries()[idx as int].pid)),
        visited_pids(snapshot.spec_entries(), final(visited)@, final(visited)@.len() as int) == forest_pids(
            final(roots)@,
        ),
        ordered(final(roots)@),
        forall|i: int| 0 <= i < final(roots)@.len() ==> well_placed(#[trigger] final(roots)@[i], snapshot.spec_entries()),
        forall|k: int|
            0 <= k < final(visited)@.len() && final(visited)@[k] && must_be_root(snapshot.spec_entries(), k)
                ==> has_root(final(roots)@, snapshot.spec_entries()[k].pid),
{
    let ghost e = snapshot.spec_entries();
    let ghost before = visited@;
    let ghost before_roots = roots@;
    let built = build_node(snapshot, idx, visited);
    proof {
        assert forall|m: int, j: int|
            0 <= m < e.len() && 0 <= j < e.len() && visited@[m] && #[trigger] child_of(e, j, m) implies visited@[j] by {
            if before[m] {
                assert(before[j]);
            }
        }
    }
    match built {
        Some(nd) => {
            let ghost g = nd;
            let p = insert_ordered(roots, nd);
            proof {
                lemma_forest_insert(before_roots, p as int, g);
                assert forall|i: int| 0 <= i < roots@.len() implies well_placed(#[trigger] roots@[i], e) by {
                    if i < p {
                        assert(roots@[i] == before_roots[i]);
                    } else if i > p {
                        assert(roots@[i] == before_roots[i - 1]);
                    }
                }
                assert forall|pid: u32| #[trigger] has_root(roots@, pid) <==> (has_root(before_roots, pid) || (
                !before[idx as int] && pid == e[idx as int].pid)) by {
                    if has_root(roots@, pid) {
                        let i = choose|i: int| 0 <= i < roots@.len() && (#[trigger] roots@[i]).pid == pid;
                        if i < p {
                            assert(roots@[i] == before_roots[i]);
                        } else if i > p {
                            assert(roots@[i] == before_roots[i - 1]);
                        }
                    }
                    if has_root(before_roots, pid) {
                        let i = choose|i: int| 0 <= i < before_roots.len() && (#[trigger] before_roots[i]).pid == pid;
                        if i < p {
                            assert(roots@[i] == before_roots[i]);
                        } else {
                            assert(roots@[i + 1] == before_roots[i]);
                        }
                    }
                    if pid == e[idx as int].pid {
                        assert(roots@[p as int] == g);
                    }
                }
                assert forall|k: int|
                    0 <= k < visited@.len() && visited@[k] && must_be_root(e, k) implies has_root(roots@, e[k].pid) by {
                    if !before[k] && k != idx {
                        let (q, n) = choose|q: int, n: nat|
                            0 <= q < e.len() && e[q].pid == e[k].parent_pid && #[trigger] within(e, q, idx as int, n);
                        assert(has_pid(e, e[k].parent_pid));
                        if q != k {
                            if q < k {
                                assert(e[q].pid != e[k].pid);
                            } else {
                                assert(e[k].pid != e[q].pid);
                            }
                        }
                        lemma_self_parent_within(e, k, idx as int, n);
                    }
                    if before[k] {
                        assert(has_root(before_roots, e[k].pid));
                    }
                }
            }
        },
        None => {
            proof {
                assert forall|pid: u32| #[trigger] has_root(roots@, pid) <==> (has_root(before_roots, pid) || (
                !before[idx as int] && pid == e[idx as int].pid)) by {
                }
                assert forall|k: int|
                    0 <= k < visited@.len() && visited@[k] && must_be_root(e, k) implies has_root(roots@, e[k].pid) by {
                    assert(before[k]);
                }
            }
        },
    }
}

/// The candidate roots that end up at the top: those that no candidate of
/// a smaller pid has among its ancestors.
pub open spec fn stays_root(e: Seq<RawProcessInfo>, k: int) -> bool {
    !exists|c: int| 0 <= c < e.len() && is_candidate(e, c) && e[c].pid < e[k].pid && #[trigger] reaches(e, k, c)
}

/// No candidate root is among the ancestors of process `k`.
pub open spec fn detached(e: Seq<RawProcessInfo>, k: int) -> bool {
    !exists|c: int| 0 <= c < e.len() && is_candidate(e, c) && #[trigger] reaches(e, k, c)
}

/// The candidate roots are all candidates, by ascending pid.
pub open spec fn candidate_order(e: Seq<RawProcessInfo>, cands: Seq<usize>) -> bool {
    &&& forall|k: int| 0 <= k < cands.len() ==> #[trigger] cands[k] < e.len() && is_candidate(e, cands[k] as int)
    &&& forall|k: int| 0 <= k < e.len() && is_candidate(e, k) ==> exists|m: int| 0 <= m < cands.len() && cands[m] == k
    &&& forall|a: int, b: int| 0 <= a < b < cands.len() ==> e[#[trigger] cands[a] as int].pid < e[#[trigger] cands[b] as int].pid
}

/// The visited processes are the first `c` candidate roots and their
/// descendants.
pub open spec fn visited_from(e: Seq<RawProcessInfo>, cands: Seq<usize>, c: int, v: Seq<bool>) -> bool {
    forall|j: int|
        0 <= j < e.len() ==> (v[j] <==> exists|m: int|
            0 <= m < c && (j == #[trigger] cands[m] || reaches(e, j, cands[m] as int)))
}

/// The roots are the first `c` candidate roots that stay roots.
pub open spec fn roots_from(e: Seq<RawProcessInfo>, cands: Seq<usize>, c: int, roots: Seq<AppProxyProcessNode>) -> bool {
    forall|k: int|
        0 <= k < e.len() ==> (has_root(roots, e[k].pid) <==> (is_candidate(e, k) && (exists|m: int|
            0 <= m < c && #[trigger] cands[m] == k) && stays_root(e, k)))
}

/// The next candidate root was visited already exactly when it does not
/// stay a root.
proof fn lemma_candidate_turn(e: Seq<RawProcessInfo>, cands: Seq<usize>, c: int, v: Seq<bool>)
    requires
        distinct_pids(e),
        candidate_order(e, cands),
        0 <= c < cands.len(),
        v.len() == e.len(),
        visited_from(e, cands, c, v),
    ensures
        v[cands[c] as int] <==> !stays_root(e, cands[c] as int),
{
    let idx = cands[c] as int;
    if v[idx] {
        let m = choose|m: int| 0 <= m < c && (idx == #[trigger] cands[m] || reaches(e, idx, cands[m] as int));
        assert(e[cands[m] as int].pid < e[cands[c] as int].pid);
    } else {
        assert forall|cc: int| 0 <= cc < e.len() && is_candidate(e, cc) && e[cc].pid < e[idx].pid
            implies !#[trigger] reaches(e, idx, cc) by {
            let m = choose|m: int| 0 <= m < cands.len() && cands[m] == cc;
            if m > c {
                assert(e[cands[c] as int].pid < e[cands[m] as int].pid);
            }
            if reaches(e, idx, cc) {
                assert(m < c);
                assert(exists|mm: int| 0 <= mm < c && (idx == #[trigger] cands[mm] || reaches(e, idx, cands[mm] as int)));
            }
        }
    }
}

/// Placing the next candidate root adds it and its unvisited descendants.
proof fn lemma_candidate_visits(e: Seq<RawProcessInfo>, cands: Seq<usize>, c: int, before: Seq<bool>, after: Seq<bool>)
    requires
        candidate_order(e, cands),
        0 <= c < cands.len(),
        before.len() == e.len(),
        after.len() == e.len(),
        visited_from(e, cands, c, before),
        after[cands[c] as int],
        forall|k: int| 0 <= k < e.len() && before[k] ==> after[k],
        forall|k: int|
            0 <= k < e.len() && after[k] && !before[k] && k != cands[c] ==> reaches(e, k, cands[c] as int),
        closed(e, after),
    ensures
        visited_from(e, cands, c + 1, after),
{
    let idx = cands[c] as int;
    assert forall|j: int| 0 <= j < e.len() implies (after[j] <==> exists|m: int|
        0 <= m < c + 1 && (j == #[trigger] cands[m] || reaches(e, j, cands[m] as int))) by {
        if after[j] && !before[j] {
            assert(j == cands[c] || reaches(e, j, cands[c] as int));
        }
        if exists|m: int| 0 <= m < c + 1 && (j == #[trigger] cands[m] || reaches(e, j, cands[m] as int)) {
            let m = choose|m: int| 0 <= m < c + 1 && (j == #[trigger] cands[m] || reaches(e, j, cands[m] as int));
            if m < c {
                assert(before[j]);
            } else if j != idx {
                lemma_descendant_visited(e, after, j, idx);
            }
        }
    }
}

/// Placing the next candidate root adds its pid to the roots exactly when
/// it stays a root.
proof fn lemma_candidate_roots(
    e: Seq<RawProcessInfo>,
    cands: Seq<usize>,
    c: int,
    before: Seq<bool>,
    before_roots: Seq<AppProxyProcessNode>,
    after_roots: Seq<AppProxyProcessNode>,
)
    requires
        distinct_pids(e),
        candidate_order(e, cands),
        0 <= c < cands.len(),
        before.len() == e.len(),
        visited_from(e, cands, c, before),
        roots_from(e, cands, c, before_roots),
        forall|pid: u32|
            #[trigger] has_root(after_roots, pid) <==> (has_root(before_roots, pid) || (!before[cands[c] as int] && pid
                == e[cands[c] as int].pid)),
    ensures
        roots_from(e, cands, c + 1, after_roots),
{
    let idx = cands[c] as int;
    lemma_candidate_turn(e, cands, c, before);
    assert forall|k: int| 0 <= k < e.len() implies (has_root(after_roots, e[k].pid) <==> (is_candidate(e, k) && (exists|m: int|
        0 <= m < c + 1 && #[trigger] cands[m] == k) && stays_root(e, k))) by {
        if k == idx {
            assert(cands[c] == k);
            if has_root(before_roots, e[k].pid) {
                let m = choose|m: int| 0 <= m < c && #[trigger] cands[m] == k;
                assert(e[cands[m] as int].pid < e[cands[c] as int].pid);
            }
        } else {
            if k < idx {
                assert(e[k].pid != e[idx].pid);
            } else {
                assert(e[idx].pid != e[k].pid);
            }
            if exists|m: int| 0 <= m < c + 1 && #[trigger] cands[m] == k {
                let m = choose|m: int| 0 <= m < c + 1 && #[trigger] cands[m] == k;
                assert(m < c);
            }
        }
    }
}

/// The system process tree of a snapshot: the candidate roots (parent pid
/// 0, absent, or the process itself) in pid order, each with everything
/// below it not yet placed, then every process not yet placed (those in
/// parent cycles); each node's children and the roots are ordered by name,
/// then pid. Every process appears once; a candidate stays at the top
/// exactly when no candidate of a smaller pid is among its ancestors, and
/// any other root has no candidate among its ancestors.
pub fn get_system_process_tree(snapshot: &ProcessSnapshot) -> (r: Vec<AppProxyProcessNode>)
    requires
        snapshot.wf(),
    ensures
        ordered(r@),
        forall|i: int| 0 <= i < r@.len() ==> well_placed(#[trigger] r@[i], snapshot.spec_entries()),
        forest_pids(r@) == entry_pids(snapshot.spec_entries()).to_multiset(),
        forall|k: int|
            0 <= k < snapshot.spec_entries().len() && must_be_root(snapshot.spec_entries(), k) ==> has_root(
                r@,
                snapshot.spec_entries()[k].pid,
            ),
        forall|k: int|
            0 <= k < snapshot.spec_entries().len() && is_candidate(snapshot.spec_entries(), k) ==> (has_root(
                r@,
                snapshot.spec_entries()[k].pid,
            ) <==> stays_root(snapshot.spec_entries(), k)),
        forall|k: int|
            0 <= k < snapshot.spec_entries().len() && !is_candidate(snapshot.spec_entries(), k) && has_root(
                r@,
                snapshot.spec_entries()[k].pid,
            ) ==> detached(snapshot.spec_entries(), k),
{
    let ghost e = snapshot.spec_entries();
    let n = snapshot.len();
    let mut visited: Vec<bool> = Vec::new();
    let mut i: usize = 0;
    while i < n
        invariant
            i <= n,
            visited@.len() == i,
            forall|k: int| 0 <= k < i ==> !visited@[k],
        decreases n - i,
    {
        visited.push(false);
        i = i + 1;
    }
    proof {
        lemma_none_visited(e, visited@, n as int);
    }
    let mut roots: Vec<AppProxyProcessNode> = Vec::new();
    let candidates = candidate_roots(snapshot);
    let mut c: usize = 0;
    while c < candidates.len()
        invariant
            snapshot.wf(),
            e == snapshot.spec_entries(),
            n == e.len(),
            c <= candidates.len(),
            candidate_order(e, candidates@),
            visited@.len() == n,
            closed(e, visited@),
            visited_pids(e, visited@, n as int) == forest_pids(roots@),
            ordered(roots@),
            forall|k: int| 0 <= k < roots@.len() ==> well_placed(#[trigger] roots@[k], e),
            forall|k: int| 0 <= k < n && visited@[k] && must_be_root(e, k) ==> has_root(roots@, e[k].pid),
            visited_from(e, candidates@, c as int, visited@),
            roots_from(e, candidates@, c as int, roots@),
        decreases candidates.len() - c,
    {
        let idx = candidates[c];
        let ghost before = visited@;
        let ghost before_roots = roots@;
        add_root(snapshot, idx, &mut visited, &mut roots);
        proof {
            lemma_candidate_visits(e, candidates@, c as int, before, visited@);
            lemma_candidate_roots(e, candidates@, c as int, before, before_roots, roots@);
        }
        c = c + 1;
    }
    proof {
        assert forall|k: int| 0 <= k < n && is_candidate(e, k) implies visited@[k] by {
            let m = choose|m: int| 0 <= m < candidates@.len() && candidates@[m] == k;
            assert(k == candidates@[m]);
        }
        assert forall|k: int| 0 <= k < n && is_candidate(e, k) implies (has_root(roots@, e[k].pid) <==> stays_root(e, k)) by {
            let m = choose|m: int| 0 <= m < candidates@.len() && candidates@[m] == k;
        }
    }
    let mut idx: usize = 0;
    while idx < n
        invariant
            snapshot.wf(),
            e == snapshot.spec_entries(),
            n == e.len(),
            idx <= n,
            visited@.len() == n,
            closed(e, visited@),
            forall|k: int| 0 <= k < idx ==> visited@[k],
            forall|k: int| 0 <= k < n && is_candidate(e, k) ==> visited@[k],
            visited_pids(e, visited@, n as int) == forest_pids(roots@),
            ordered(roots@),
            forall|k: int| 0 <= k < roots@.len() ==> well_placed(#[trigger] roots@[k], e),
            forall|k: int| 0 <= k < n && visited@[k] && must_be_root(e, k) ==> has_root(roots@, e[k].pid),
            forall|k: int| 0 <= k < n && is_candidate(e, k) ==> (has_root(roots@, e[k].pid) <==> stays_root(e, k)),
            forall|k: int|
                0 <= k < n && !is_candidate(e, k) && has_root(roots@, e[k].pid) ==> detached(e, k),
        decreases n - idx,
    {
        if !visited[idx] {
            let ghost before = visited@;
            let ghost before_roots = roots@;
            proof {
                assert(!is_candidate(e, idx as int));
                assert forall|cc: int| 0 <= cc < e.len() && is_candidate(e, cc) implies !#[trigger] reaches(
                    e,
                    idx as int,
                    cc,
                ) by {
                    if reaches(e, idx as int, cc) {
                        lemma_descendant_visited(e, before, idx as int, cc);
                    }
                }
            }
            add_root(snapshot, idx, &mut visited, &mut roots);
            proof {
                assert forall|k: int| 0 <= k < n && is_candidate(e, k) implies (has_root(roots@, e[k].pid)
                    <==> stays_root(e, k)) by {
                    if k < idx {
                        assert(e[k].pid != e[idx as int].pid);
                    } else if k > idx {
                        assert(e[idx as int].pid != e[k].pid);
                    }
                }
                assert forall|k: int|
                    0 <= k < n && !is_candidate(e, k) && has_root(roots@, e[k].pid) implies detached(e, k) by {
                    if k != idx {
                        if k < idx {
                            assert(e[k].pid != e[idx as int].pid);
                        } else {
                            assert(e[idx as int].pid != e[k].pid);
                        }
                        assert(has_root(before_roots, e[k].pid));
                    }
                }
            }
        }
        idx = idx + 1;
    }
    proof {
        lemma_all_visited(e, visited@, n as int);
        assert(Seq::new(n as nat, |i: int| e[i].pid) =~= entry_pids(e));
    }
    roots
}

} // verus!
