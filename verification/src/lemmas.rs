//! Proofs about the model: how the counts of owning references behave
//! when a graph changes, and that each change keeps the graph invariant.

use vstd::prelude::*;
use crate::model::{
    adopted, after_release, attach_verdict, attached, destroyed, detach_verdict, detached,
    drop_refs, fades_to, first_from, fresh, graph_ok, in_range, lemma_total_update, let_go, live,
    node_ok, occurrences, occurrences_upto, owners, owners_upto, release_verdict, released, settled,
    shape_ok, step_pending, step_state, total_strong, without_child, NodeState,
};

verus! {

/// Two sequences that agree on their first `n` items hold `c` equally often
/// among them.
pub proof fn lemma_occurrences_prefix(a: Seq<usize>, b: Seq<usize>, c: int, n: int)
    requires
        0 <= n <= a.len(),
        n <= b.len(),
        forall|k: int| 0 <= k < n ==> a[k] == b[k],
    ensures
        occurrences_upto(a, c, n) == occurrences_upto(b, c, n),
    decreases n,
{
    if n > 0 {
        lemma_occurrences_prefix(a, b, c, n - 1);
    }
}

/// One more item is one more occurrence of that item, and of no other.
pub proof fn lemma_occurrences_push(q: Seq<usize>, x: usize, c: int)
    ensures
        occurrences(q.push(x), c) == occurrences(q, c) + if x == c {
            1nat
        } else {
            0nat
        },
{
    lemma_occurrences_prefix(q.push(x), q, c, q.len() as int);
}

/// Without its last item a sequence holds that item once less.
pub proof fn lemma_occurrences_drop_last(q: Seq<usize>, c: int)
    requires
        q.len() > 0,
    ensures
        occurrences(q, c) == occurrences(q.drop_last(), c) + if q.last() == c {
            1nat
        } else {
            0nat
        },
{
    lemma_occurrences_prefix(q, q.drop_last(), c, q.len() - 1);
}

/// The occurrences in two sequences add up in their concatenation.
pub proof fn lemma_occurrences_concat(a: Seq<usize>, b: Seq<usize>, c: int)
    ensures
        occurrences(a + b, c) == occurrences(a, c) + occurrences(b, c),
    decreases b.len(),
{
    if b.len() == 0 {
        assert(a + b =~= a);
    } else {
        assert((a + b).drop_last() =~= a + b.drop_last());
        lemma_occurrences_drop_last(a + b, c);
        lemma_occurrences_drop_last(b, c);
        lemma_occurrences_concat(a, b.drop_last(), c);
    }
}

/// An item that differs from `c` throughout does not hold `c`.
pub proof fn lemma_occurrences_absent(q: Seq<usize>, c: int, n: int)
    requires
        0 <= n <= q.len(),
        forall|k: int| 0 <= k < n ==> q[k] != c,
    ensures
        occurrences_upto(q, c, n) == 0,
    decreases n,
{
    if n > 0 {
        lemma_occurrences_absent(q, c, n - 1);
    }
}

/// An item of a sequence occurs in it.
pub proof fn lemma_occurrences_present(q: Seq<usize>, k: int, n: int)
    requires
        0 <= k < n <= q.len(),
    ensures
        occurrences_upto(q, q[k] as int, n) >= 1,
    decreases n,
{
    if k < n - 1 {
        lemma_occurrences_present(q, k, n - 1);
    }
}

/// Replacing one node exchanges its references for those of the new node.
pub proof fn lemma_owners_update(s: Seq<NodeState>, i: int, x: NodeState, c: int, n: int)
    requires
        0 <= i < s.len(),
        0 <= n <= s.len(),
    ensures
        owners_upto(s.update(i, x), c, n) + (if i < n {
            occurrences(s[i].children, c)
        } else {
            0nat
        }) == owners_upto(s, c, n) + (if i < n {
            occurrences(x.children, c)
        } else {
            0nat
        }),
    decreases n,
{
    if n > 0 {
        lemma_owners_update(s, i, x, c, n - 1);
    }
}

/// A node added at the end leaves the references of the others as they are.
pub proof fn lemma_owners_push(s: Seq<NodeState>, x: NodeState, c: int, n: int)
    requires
        0 <= n <= s.len(),
    ensures
        owners_upto(s.push(x), c, n) == owners_upto(s, c, n),
    decreases n,
{
    if n > 0 {
        lemma_owners_push(s, x, c, n - 1);
    }
}

/// In a graph of the right shape nobody owns what lies outside the table.
pub proof fn lemma_owners_outside(s: Seq<NodeState>, c: int, n: int)
    requires
        shape_ok(s),
        c >= s.len(),
        0 <= n <= s.len(),
    ensures
        owners_upto(s, c, n) == 0,
    decreases n,
{
    if n > 0 {
        lemma_owners_outside(s, c, n - 1);
        assert(node_ok(s[n - 1], s.len()));
        lemma_occurrences_absent(s[n - 1].children, c, s[n - 1].children.len() as int);
    }
}

/// A node has at least as many owners as one parent holds references to it.
pub proof fn lemma_owners_include(s: Seq<NodeState>, p: int, c: int, n: int)
    requires
        0 <= p < n <= s.len(),
    ensures
        owners_upto(s, c, n) >= occurrences(s[p].children, c),
    decreases n,
{
    if p < n - 1 {
        lemma_owners_include(s, p, c, n - 1);
    }
}

/// One step of giving up references keeps the shape and the truth of the
/// counts, comes closer to the end, and changes each node only as
/// `fades_to` allows.
pub proof fn lemma_step(s: Seq<NodeState>, pending: Seq<usize>)
    requires
        shape_ok(s),
        in_range(pending, s.len()),
        pending.len() > 0,
    ensures
        step_state(s, pending).len() == s.len(),
        shape_ok(step_state(s, pending)),
        in_range(step_pending(s, pending), s.len()),
        total_strong(step_state(s, pending)) < total_strong(s) || (total_strong(
            step_state(s, pending),
        ) == total_strong(s) && step_pending(s, pending).len() < pending.len()),
        forall|i: int| 0 <= i < s.len() ==> fades_to(s[i], #[trigger] step_state(s, pending)[i]),
        forall|k: int|
            0 <= k < pending.len() - 1 ==> (#[trigger] step_pending(s, pending)[k]) == pending[k],
        step_pending(s, pending).len() >= pending.len() - 1,
        step_state(s, pending)[pending.last() as int].strong < s[pending.last() as int].strong
            || s[pending.last() as int].strong == 0,
        settled(s, pending) ==> settled(step_state(s, pending), step_pending(s, pending)),
{
    let t = pending.last() as int;
    let rest = pending.drop_last();
    let s1 = step_state(s, pending);
    let waiting = step_pending(s, pending);
    assert(node_ok(s[t], s.len()));
    if live(s, t) {
        lemma_total_update(s, t, released(s[t]));
        lemma_total_update(s, t, destroyed(s[t]));
    }
    assert(shape_ok(s1)) by {
        assert forall|i: int| 0 <= i < s1.len() implies node_ok(#[trigger] s1[i], s1.len()) by {
            assert(node_ok(s[i], s.len()));
        }
    }
    assert(in_range(waiting, s.len())) by {
        assert forall|k: int| 0 <= k < waiting.len() implies (#[trigger] waiting[k]) < s.len() by {
            if k < rest.len() {
                assert(waiting[k] == pending[k]);
            } else {
                assert(waiting[k] == s[t].children[k - rest.len()]);
            }
        }
    }
    if settled(s, pending) {
        assert forall|c: int| 0 <= c < s1.len() implies (#[trigger] s1[c]).strong == s1[c].held
            + owners(s1, c) + occurrences(waiting, c) by {
            assert(s[c].strong == s[c].held + owners(s, c) + occurrences(pending, c));
            assert(s[t].strong == s[t].held + owners(s, t) + occurrences(pending, t));
            lemma_occurrences_drop_last(pending, c);
            lemma_occurrences_drop_last(pending, t);
            if live(s, t) {
                if s[t].strong > 1 {
                    lemma_owners_update(s, t, released(s[t]), c, s.len() as int);
                } else {
                    lemma_owners_update(s, t, destroyed(s[t]), c, s.len() as int);
                    lemma_occurrences_concat(rest, s[t].children, c);
                    assert(occurrences(Seq::<usize>::empty(), c) == 0);
                }
            }
        }
    }
}

/// Giving up references keeps the table's length and the shape, changes
/// each node only as `fades_to` allows, and leaves the counts true where
/// they were true with the pending references counted in.
pub proof fn lemma_drop_refs(s: Seq<NodeState>, pending: Seq<usize>)
    requires
        shape_ok(s),
        in_range(pending, s.len()),
    ensures
        drop_refs(s, pending).len() == s.len(),
        shape_ok(drop_refs(s, pending)),
        settled(s, pending) ==> graph_ok(drop_refs(s, pending)),
        forall|i: int| 0 <= i < s.len() ==> fades_to(s[i], #[trigger] drop_refs(s, pending)[i]),
    decreases total_strong(s), pending.len(),
{
    if pending.len() > 0 {
        let s1 = step_state(s, pending);
        let waiting = step_pending(s, pending);
        lemma_step(s, pending);
        lemma_drop_refs(s1, waiting);
        assert forall|i: int| 0 <= i < s.len() implies fades_to(
            s[i],
            #[trigger] drop_refs(s, pending)[i],
        ) by {
            assert(fades_to(s[i], s1[i]));
            assert(fades_to(s1[i], drop_refs(s1, waiting)[i]));
        }
    } else {
        assert(pending =~= Seq::<usize>::empty());
    }
}

/// Each pending reference is really given up: the node that it names ends
/// with fewer owning references than it had, unless it had none.
pub proof fn lemma_pending_released(s: Seq<NodeState>, pending: Seq<usize>, k: int)
    requires
        shape_ok(s),
        in_range(pending, s.len()),
        0 <= k < pending.len(),
    ensures
        s[pending[k] as int].strong == 0 || drop_refs(s, pending)[pending[k] as int].strong
            < s[pending[k] as int].strong,
    decreases total_strong(s), pending.len(),
{
    let c = pending[k] as int;
    let s1 = step_state(s, pending);
    let waiting = step_pending(s, pending);
    lemma_step(s, pending);
    lemma_drop_refs(s1, waiting);
    assert(fades_to(s[c], s1[c]));
    assert(fades_to(s1[c], drop_refs(s1, waiting)[c]));
    if k < pending.len() - 1 {
        assert(waiting[k] == pending[k]);
        lemma_pending_released(s1, waiting, k);
    }
}

/// The graph invariant survives the replacement of one node by a node
/// that meets its own part of it, owns the same children and is owned by as
/// many parents.
pub proof fn lemma_update_ok(s: Seq<NodeState>, i: int, n: NodeState)
    requires
        graph_ok(s),
        0 <= i < s.len(),
        node_ok(n, s.len()),
        n.children == s[i].children,
        n.strong - n.held == s[i].strong - s[i].held,
    ensures
        graph_ok(s.update(i, n)),
{
    let t = s.update(i, n);
    assert forall|j: int| 0 <= j < t.len() implies node_ok(#[trigger] t[j], t.len()) by {
        if j != i {
            assert(node_ok(s[j], s.len()));
        }
    }
    assert forall|c: int| 0 <= c < t.len() implies (#[trigger] t[c]).strong == t[c].held + owners(
        t,
        c,
    ) + occurrences(Seq::<usize>::empty(), c) by {
        assert(s[c].strong == s[c].held + owners(s, c) + occurrences(Seq::<usize>::empty(), c));
        lemma_owners_update(s, i, n, c, s.len() as int);
    }
}

/// A new node keeps the graph invariant.
pub proof fn lemma_create_ok(s: Seq<NodeState>, value: i32)
    requires
        graph_ok(s),
    ensures
        graph_ok(s.push(fresh(value))),
{
    let t = s.push(fresh(value));
    let none = Seq::<usize>::empty();
    assert forall|j: int| 0 <= j < t.len() implies node_ok(#[trigger] t[j], t.len()) by {
        if j < s.len() {
            assert(node_ok(s[j], s.len()));
        }
    }
    assert forall|c: int| 0 <= c < t.len() implies (#[trigger] t[c]).strong == t[c].held + owners(
        t,
        c,
    ) + occurrences(none, c) by {
        lemma_owners_push(s, fresh(value), c, s.len() as int);
        assert(occurrences(fresh(value).children, c) == 0);
        if c < s.len() {
            assert(s[c].strong == s[c].held + owners(s, c) + occurrences(none, c));
        } else {
            lemma_owners_outside(s, c, s.len() as int);
        }
    }
}

/// An attachment that is granted keeps the graph invariant.
pub proof fn lemma_attach_ok(s: Seq<NodeState>, parent: usize, child: usize)
    requires
        graph_ok(s),
        attach_verdict(s, parent, child) is Ok,
    ensures
        graph_ok(attached(s, parent, child)),
        attached(s, parent, child).len() == s.len(),
{
    let p = parent as int;
    let c = child as int;
    let none = Seq::<usize>::empty();
    let n1 = NodeState { children: s[p].children.push(child), ..s[p] };
    let s1 = s.update(p, n1);
    let n2 = NodeState { parent: Some(parent), ..adopted(s1[c]) };
    let t = s1.update(c, n2);
    assert(t == attached(s, parent, child));
    assert(node_ok(s[p], s.len()));
    assert(node_ok(s[c], s.len()));
    assert(node_ok(n1, s.len())) by {
        assert forall|k: int| 0 <= k < n1.children.len() implies (#[trigger] n1.children[k])
            < s.len() by {
            if k < s[p].children.len() {
                assert(n1.children[k] == s[p].children[k]);
            }
        }
    }
    assert forall|j: int| 0 <= j < t.len() implies node_ok(#[trigger] t[j], t.len()) by {
        if j != p && j != c {
            assert(node_ok(s[j], s.len()));
        }
    }
    assert forall|x: int| 0 <= x < t.len() implies (#[trigger] t[x]).strong == t[x].held + owners(
        t,
        x,
    ) + occurrences(none, x) by {
        assert(s[x].strong == s[x].held + owners(s, x) + occurrences(none, x));
        lemma_owners_update(s, p, n1, x, s.len() as int);
        lemma_owners_update(s1, c, n2, x, s.len() as int);
        lemma_occurrences_push(s[p].children, child, x);
        assert(owners(s1, x) == owners(s, x) + if child == x {
            1nat
        } else {
            0nat
        });
        assert(owners(t, x) == owners(s1, x));
    }
}

/// Letting go of a node that is held from outside leaves a graph with one
/// reference to give up, and giving it up restores the invariant.
pub proof fn lemma_release_ok(s: Seq<NodeState>, h: usize)
    requires
        graph_ok(s),
        release_verdict(s, h) is Ok,
    ensures
        shape_ok(s.update(h as int, let_go(s[h as int]))),
        settled(s.update(h as int, let_go(s[h as int])), seq![h]),
        in_range(seq![h], s.len()),
        graph_ok(after_release(s, h)),
        after_release(s, h).len() == s.len(),
{
    let i = h as int;
    let none = Seq::<usize>::empty();
    let s0 = s.update(i, let_go(s[i]));
    let p = seq![h];
    assert(node_ok(s[i], s.len()));
    assert forall|j: int| 0 <= j < s0.len() implies node_ok(#[trigger] s0[j], s0.len()) by {
        if j != i {
            assert(node_ok(s[j], s.len()));
        }
    }
    assert forall|c: int| 0 <= c < s0.len() implies (#[trigger] s0[c]).strong == s0[c].held
        + owners(s0, c) + occurrences(p, c) by {
        assert(s[c].strong == s[c].held + owners(s, c) + occurrences(none, c));
        lemma_owners_update(s, i, let_go(s[i]), c, s.len() as int);
        assert(owners(s0, c) == owners(s, c));
        assert(p =~= none.push(h));
        lemma_occurrences_push(none, h, c);
        assert(occurrences(none, c) == 0);
    }
    lemma_drop_refs(s0, p);
}

/// What `first_from` finds is a position of `c`, and none lies between `i`
/// and it.
pub proof fn lemma_first_from(q: Seq<usize>, c: usize, i: int)
    requires
        0 <= i <= q.len(),
    ensures
        i <= first_from(q, c, i) <= q.len(),
        first_from(q, c, i) < q.len() ==> q[first_from(q, c, i)] == c,
        forall|j: int| i <= j < first_from(q, c, i) ==> q[j] != c,
    decreases q.len() - i,
{
    if i < q.len() && q[i] != c {
        lemma_first_from(q, c, i + 1);
    }
}

/// Taking one item out of a sequence takes one occurrence of it away.
pub proof fn lemma_occurrences_remove(q: Seq<usize>, k: int, c: int, n: int)
    requires
        0 <= k < q.len(),
        k <= n <= q.len() - 1,
    ensures
        occurrences_upto(q.remove(k), c, n) + (if q[k] == c {
            1nat
        } else {
            0nat
        }) == occurrences_upto(q, c, n + 1),
    decreases n,
{
    if n == k {
        lemma_occurrences_prefix(q.remove(k), q, c, k);
    } else {
        lemma_occurrences_remove(q, k, c, n - 1);
        assert(q.remove(k)[n - 1] == q[n]);
    }
}

/// After a parent took a child off its list, the graph has one reference
/// to give up, and giving it up restores the invariant.
pub proof fn lemma_detach_ok(s: Seq<NodeState>, parent: usize, child: usize)
    requires
        graph_ok(s),
        detach_verdict(s, parent, child) is Ok,
    ensures
        0 <= first_from(s[parent as int].children, child, 0) < s[parent as int].children.len(),
        shape_ok(
            s.update(
                parent as int,
                without_child(
                    s[parent as int],
                    first_from(s[parent as int].children, child, 0),
                ),
            ),
        ),
        settled(
            s.update(
                parent as int,
                without_child(
                    s[parent as int],
                    first_from(s[parent as int].children, child, 0),
                ),
            ),
            seq![child],
        ),
        in_range(seq![child], s.len()),
        graph_ok(detached(s, parent, child)),
        detached(s, parent, child).len() == s.len(),
{
    let p = parent as int;
    let q = s[p].children;
    let k = first_from(q, child, 0);
    let none = Seq::<usize>::empty();
    let n1 = without_child(s[p], k);
    let s1 = s.update(p, n1);
    let pending = seq![child];
    lemma_first_from(q, child, 0);
    assert(node_ok(s[p], s.len()));
    assert(q[k] == child);
    assert(node_ok(n1, s.len())) by {
        assert forall|j: int| 0 <= j < n1.children.len() implies (#[trigger] n1.children[j])
            < s.len() by {
            if j < k {
                assert(n1.children[j] == q[j]);
            } else {
                assert(n1.children[j] == q[j + 1]);
            }
        }
    }
    assert forall|j: int| 0 <= j < s1.len() implies node_ok(#[trigger] s1[j], s1.len()) by {
        if j != p {
            assert(node_ok(s[j], s.len()));
        }
    }
    assert forall|x: int| 0 <= x < s1.len() implies (#[trigger] s1[x]).strong == s1[x].held
        + owners(s1, x) + occurrences(pending, x) by {
        assert(s[x].strong == s[x].held + owners(s, x) + occurrences(none, x));
        lemma_owners_update(s, p, n1, x, s.len() as int);
        lemma_occurrences_remove(q, k, x, q.len() - 1);
        assert(pending =~= none.push(child));
        lemma_occurrences_push(none, child, x);
        assert(occurrences(none, x) == 0);
    }
    lemma_drop_refs(s1, pending);
}

} // verus!
