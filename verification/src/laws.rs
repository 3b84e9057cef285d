//! What holds of every graph, proved from the model.

use vstd::prelude::*;
use crate::lemmas::{
    lemma_detach_ok, lemma_drop_refs, lemma_first_from, lemma_occurrences_present,
    lemma_owners_include, lemma_pending_released, lemma_release_ok, lemma_step, lemma_update_ok,
};
use crate::model::{
    after_release, attach_verdict, attached, detach_verdict, detached, drop_refs, fades_to,
    first_from, graph_ok, let_go, live, node_ok, occurrences, occurrences_upto, owners, owners_upto,
    points_at, read_verdict, release_verdict, released, resolve_parent, retain_verdict, retained,
    step_pending, step_state, weak_refs, weak_refs_upto, with_access, with_reader, without_child,
    write_verdict, Access, GraphError, NodeHandle, NodeState,
};

verus! {

/// A node's count is the number of its owning holders: those outside the
/// graph and the parents that have it among their children.
pub proof fn law_count_is_holders(s: Seq<NodeState>, h: NodeHandle)
    requires
        graph_ok(s),
        h.index < s.len(),
    ensures
        s[h.index as int].strong == s[h.index as int].held + owners(s, h.index as int),
{
    let c = h.index as int;
    assert(s[c].strong == s[c].held + owners(s, c) + occurrences(
        Seq::<usize>::empty(),
        c,
    ));
}

/// Whatever a node owns is alive: an owning reference never leads to a
/// destroyed node.
pub proof fn law_children_are_alive(s: Seq<NodeState>, parent: NodeHandle, k: int)
    requires
        graph_ok(s),
        parent.index < s.len(),
        0 <= k < s[parent.index as int].children.len(),
    ensures
        live(s, s[parent.index as int].children[k] as int),
{
    let p = parent.index as int;
    let kids = s[p].children;
    let c = kids[k] as int;
    assert(node_ok(s[p], s.len()));
    lemma_occurrences_present(kids, k, kids.len() as int);
    lemma_owners_include(s, p, c, s.len() as int);
    law_count_is_holders(s, NodeHandle { index: kids[k] });
}

/// Giving up an owning reference to a node lowers its count by exactly
/// one. With references left, the node stays alive and nothing else
/// changes; without, the node is destroyed. A node is destroyed exactly
/// when its count reaches zero.
pub proof fn law_release_counts_down(s: Seq<NodeState>, h: NodeHandle)
    requires
        graph_ok(s),
        release_verdict(s, h.index) is Ok,
    ensures
        graph_ok(after_release(s, h.index)),
        after_release(s, h.index).len() == s.len(),
        after_release(s, h.index)[h.index as int].strong == s[h.index as int].strong - 1,
        s[h.index as int].strong > 1 ==> after_release(s, h.index) == s.update(
            h.index as int,
            released(let_go(s[h.index as int])),
        ),
        live(after_release(s, h.index), h.index as int) <==> s[h.index as int].strong > 1,
{
    let i = h.index as int;
    let s0 = s.update(i, let_go(s[i]));
    let p = seq![h.index];
    lemma_release_ok(s, h.index);
    lemma_pending_released(s0, p, 0);
    lemma_step(s0, p);
    if s[i].strong > 1 {
        let s1 = s0.update(i, released(s0[i]));
        assert(step_state(s0, p) == s1);
        assert(step_pending(s0, p) =~= Seq::<usize>::empty());
        assert(drop_refs(s1, step_pending(s0, p)) == s1);
    }
}

/// A back-reference to a parent that is not alive resolves to nothing.
pub proof fn law_dead_parent_is_absent(s: Seq<NodeState>, n: NodeHandle, p: NodeHandle)
    requires
        0 <= n.index < s.len(),
        s[n.index as int].parent == Some(p.index),
        !live(s, p.index as int),
    ensures
        resolve_parent(s, n.index) is None,
{
}

/// Once the last owning reference to a parent is given up, the
/// back-reference of each node that pointed to it resolves to nothing.
pub proof fn law_parent_gone_after_last_release(s: Seq<NodeState>, n: NodeHandle, p: NodeHandle)
    requires
        graph_ok(s),
        0 <= n.index < s.len(),
        s[n.index as int].parent == Some(p.index),
        release_verdict(s, p.index) is Ok,
        s[p.index as int].strong == 1,
    ensures
        resolve_parent(after_release(s, p.index), n.index) is None,
{
    let s0 = s.update(p.index as int, let_go(s[p.index as int]));
    let t = after_release(s, p.index);
    law_release_counts_down(s, p);
    lemma_release_ok(s, p.index);
    lemma_drop_refs(s0, seq![p.index]);
    assert(fades_to(s0[n.index as int], t[n.index as int]));
    assert(node_ok(t[n.index as int], t.len()));
}

/// Back-references own nothing. However many of them point to a node,
/// giving up its last owning reference destroys it, and with it each child
/// that had no owner but this node.
pub proof fn law_back_references_do_not_own(s: Seq<NodeState>, root: NodeHandle, k: int)
    requires
        graph_ok(s),
        release_verdict(s, root.index) is Ok,
        s[root.index as int].strong == 1,
        0 <= k < s[root.index as int].children.len(),
        s[root.index as int].children[k] != root.index,
        s[s[root.index as int].children[k] as int].strong == 1,
    ensures
        !live(after_release(s, root.index), root.index as int),
        !live(after_release(s, root.index), s[root.index as int].children[k] as int),
{
    let r = root.index as int;
    let s0 = s.update(r, let_go(s[r]));
    let pending = seq![root.index];
    let kids = s[r].children;
    law_release_counts_down(s, root);
    lemma_release_ok(s, root.index);
    lemma_step(s0, pending);
    let s1 = step_state(s0, pending);
    let waiting = step_pending(s0, pending);
    assert(waiting =~= kids);
    lemma_pending_released(s1, waiting, k);
}

/// While a writer holds a node's interior, a second writer and a reader
/// are both refused.
pub proof fn law_writer_excludes(s: Seq<NodeState>, h: NodeHandle)
    requires
        write_verdict(s, h.index) is Ok,
    ensures
        write_verdict(
            s.update(h.index as int, with_access(s[h.index as int], Access::Exclusive)),
            h.index,
        ) == Err::<(), GraphError>(GraphError::AliasingViolation),
        read_verdict(
            s.update(h.index as int, with_access(s[h.index as int], Access::Exclusive)),
            h.index,
        ) == Err::<i32, GraphError>(GraphError::AliasingViolation),
{
}

/// While a reader holds a node's interior, a writer is refused.
pub proof fn law_reader_excludes_writer(s: Seq<NodeState>, h: NodeHandle)
    requires
        read_verdict(s, h.index) is Ok,
    ensures
        write_verdict(s.update(h.index as int, with_reader(s[h.index as int])), h.index)
            == Err::<(), GraphError>(GraphError::AliasingViolation),
{
}

/// Among the first `n` nodes, an attachment adds one back-reference to the
/// parent: the child's, unless the child pointed to the parent before.
proof fn lemma_attach_weak_upto(s: Seq<NodeState>, p: usize, c: usize, n: int)
    requires
        attach_verdict(s, p, c) is Ok,
        p != c,
        0 <= n <= s.len(),
    ensures
        weak_refs_upto(attached(s, p, c), p as int, n) == weak_refs_upto(s, p as int, n) + if c < n
            && !points_at(s[c as int], p as int) {
            1nat
        } else {
            0nat
        },
    decreases n,
{
    if n > 0 {
        lemma_attach_weak_upto(s, p, c, n - 1);
        let t = attached(s, p, c);
        if n - 1 != c {
            assert(points_at(t[n - 1], p as int) == points_at(s[n - 1], p as int));
        } else {
            assert(points_at(t[c as int], p as int));
        }
    }
}

/// Attaching a child to another node gives the child one more owner and
/// the parent one more back-reference (none, where the child pointed to it
/// already), and leaves the parent's own count as it was: the
/// back-reference resolves to the parent and does not keep it alive.
pub proof fn law_attach_counts(s: Seq<NodeState>, parent: NodeHandle, child: NodeHandle)
    requires
        attach_verdict(s, parent.index, child.index) is Ok,
        parent.index != child.index,
    ensures
        attached(s, parent.index, child.index)[parent.index as int].strong
            == s[parent.index as int].strong,
        attached(s, parent.index, child.index)[child.index as int].strong
            == s[child.index as int].strong + 1,
        resolve_parent(attached(s, parent.index, child.index), child.index) == Some(parent),
        weak_refs(attached(s, parent.index, child.index), parent.index as int) == weak_refs(
            s,
            parent.index as int,
        ) + if s[child.index as int].parent == Some(parent.index) {
            0nat
        } else {
            1nat
        },
{
    lemma_attach_weak_upto(s, parent.index, child.index, s.len() as int);
}

/// What occurs among the first `n` items stands at one of their positions.
proof fn lemma_occurrence_found(q: Seq<usize>, c: int, n: int)
    requires
        0 <= n <= q.len(),
        occurrences_upto(q, c, n) > 0,
    ensures
        exists|k: int| 0 <= k < n && q[k] == c,
    decreases n,
{
    if q[n - 1] != c {
        lemma_occurrence_found(q, c, n - 1);
    }
}

/// A node with an owner among the first `n` nodes stands among the
/// children of one of them.
proof fn lemma_owner_found(s: Seq<NodeState>, c: int, n: int)
    requires
        0 <= n <= s.len(),
        owners_upto(s, c, n) > 0,
    ensures
        exists|p: int, k: int|
            0 <= p < n && 0 <= k < s[p].children.len() && #[trigger] s[p].children[k] == c,
    decreases n,
{
    if occurrences(s[n - 1].children, c) > 0 {
        let q = s[n - 1].children;
        lemma_occurrence_found(q, c, q.len() as int);
        let k = choose|k: int| 0 <= k < q.len() && q[k] == c;
        assert(s[n - 1].children[k] == c);
    } else {
        lemma_owner_found(s, c, n - 1);
    }
}

/// Nothing stays alive without a reason: a live node that nobody holds
/// from outside stands among the children of a live node. So a subtree
/// whose root is given up for good goes with it, down to the first nodes
/// that someone else still holds or owns.
pub proof fn law_alive_for_a_reason(s: Seq<NodeState>, h: NodeHandle)
    requires
        graph_ok(s),
        live(s, h.index as int),
        s[h.index as int].held == 0,
    ensures
        exists|p: int, k: int|
            live(s, p) && 0 <= k < s[p].children.len() && #[trigger] s[p].children[k] == h.index,
{
    let c = h.index as int;
    law_count_is_holders(s, h);
    lemma_owner_found(s, c, s.len() as int);
    let (p, k) = choose|p: int, k: int|
        0 <= p < s.len() && 0 <= k < s[p].children.len() && #[trigger] s[p].children[k] == c;
    assert(node_ok(s[p], s.len()));
    assert(live(s, p) && 0 <= k < s[p].children.len() && s[p].children[k] == h.index);
}

/// Taking a child off its parent gives up exactly one owning reference to
/// it: the child's count goes down by one, the parent stays alive with one
/// child fewer, and a child that had no other owner is destroyed.
pub proof fn law_detach_counts_down(s: Seq<NodeState>, parent: NodeHandle, child: NodeHandle)
    requires
        graph_ok(s),
        detach_verdict(s, parent.index, child.index) is Ok,
        parent.index != child.index,
    ensures
        graph_ok(detached(s, parent.index, child.index)),
        detached(s, parent.index, child.index)[child.index as int].strong
            == s[child.index as int].strong - 1,
        live(detached(s, parent.index, child.index), child.index as int)
            <==> s[child.index as int].strong > 1,
        s[child.index as int].strong > 1 ==> detached(
            s,
            parent.index,
            child.index,
        )[parent.index as int] == without_child(
            s[parent.index as int],
            first_from(s[parent.index as int].children, child.index, 0),
        ),
{
    let p = parent.index as int;
    let c = child.index as int;
    let k = first_from(s[p].children, child.index, 0);
    let s1 = s.update(p, without_child(s[p], k));
    let pending = seq![child.index];
    lemma_detach_ok(s, parent.index, child.index);
    lemma_first_from(s[p].children, child.index, 0);
    law_children_are_alive(s, parent, k);
    lemma_pending_released(s1, pending, 0);
    lemma_step(s1, pending);
    if s[c].strong > 1 {
        let s2 = s1.update(c, released(s1[c]));
        assert(step_state(s1, pending) == s2);
        assert(step_pending(s1, pending) =~= Seq::<usize>::empty());
        assert(drop_refs(s2, step_pending(s1, pending)) == s2);
    }
}

/// Taking an owning reference and giving it up again leaves the graph as
/// it was.
pub proof fn law_release_undoes_retain(s: Seq<NodeState>, h: NodeHandle)
    requires
        graph_ok(s),
        retain_verdict(s, h.index) is Ok,
    ensures
        release_verdict(s.update(h.index as int, retained(s[h.index as int])), h.index) is Ok,
        after_release(s.update(h.index as int, retained(s[h.index as int])), h.index) == s,
{
    let i = h.index as int;
    let more = s.update(i, retained(s[i]));
    assert(node_ok(s[i], s.len()));
    lemma_update_ok(s, i, retained(s[i]));
    law_release_counts_down(more, h);
    assert(released(let_go(more[i])) == s[i]);
    assert(more.update(i, s[i]) =~= s);
}

} // verus!
