//! The mathematical model of an ownership graph: a sequence of node states,
//! indexed by handle, and the pure functions that the contracts speak of.

use vstd::prelude::*;

verus! {

/// A reference to a node: its position in the graph's table.
#[derive(Clone, Copy, PartialEq, Eq, Debug, Structural)]
pub struct NodeHandle {
    pub index: usize,
}

/// Which runtime-checked accesses to a node's interior are outstanding.
#[derive(Clone, Copy, PartialEq, Eq, Debug, Structural)]
pub enum Access {
    /// Nobody reads or writes.
    Idle,
    /// This many readers, at least one.
    Shared(usize),
    /// One writer.
    Exclusive,
}

/// Why an operation on the graph was refused.
#[derive(Clone, Copy, PartialEq, Eq, Debug, Structural)]
pub enum GraphError {
    /// The handle names no live node: never created, or destroyed.
    NoSuchNode,
    /// The access asked for conflicts with one that is outstanding.
    AliasingViolation,
    /// A counter is at its machine limit.
    CountOverflow,
    /// The node is owned by parents only: nobody outside holds a reference
    /// that could be given up.
    NotHeld,
    /// The node is not among the children that it was to be taken from.
    NotAChild,
}

/// What the graph knows of one node.
pub struct NodeState {
    /// The payload, fixed at creation.
    pub value: i32,
    /// Owning references to the children, in the order of attachment.
    pub children: Seq<usize>,
    /// The non-owning back-reference.
    pub parent: Option<usize>,
    /// How many owning references are held from outside the graph.
    pub held: nat,
    /// How many owning references exist, held from outside or by a parent;
    /// zero means destroyed.
    pub strong: nat,
    /// Outstanding accesses to the interior.
    pub access: Access,
}

/// A node as `create` makes it: one holder, no children, no parent.
pub open spec fn fresh(value: i32) -> NodeState {
    NodeState {
        value,
        children: Seq::empty(),
        parent: None,
        held: 1,
        strong: 1,
        access: Access::Idle,
    }
}

/// The node after one more owning reference was taken from outside.
pub open spec fn retained(n: NodeState) -> NodeState {
    NodeState { held: n.held + 1, strong: n.strong + 1, ..n }
}

/// The node after a parent took an owning reference to it.
pub open spec fn adopted(n: NodeState) -> NodeState {
    NodeState { strong: n.strong + 1, ..n }
}

/// The node after an outside holder announced that it lets go. Its count
/// still includes that reference until `drop_refs` has given it up.
pub open spec fn let_go(n: NodeState) -> NodeState {
    NodeState { held: (n.held - 1) as nat, ..n }
}

/// The node after one of several owning references was given up.
pub open spec fn released(n: NodeState) -> NodeState {
    NodeState { strong: (n.strong - 1) as nat, ..n }
}

/// The node after its last owning reference was given up: it owns nothing,
/// points nowhere, and nobody accesses it.
pub open spec fn destroyed(n: NodeState) -> NodeState {
    NodeState {
        value: n.value,
        children: Seq::empty(),
        parent: None,
        held: 0,
        strong: 0,
        access: Access::Idle,
    }
}

/// The node at `i` exists and has at least one owning reference.
pub open spec fn live(s: Seq<NodeState>, i: int) -> bool {
    0 <= i < s.len() && s[i].strong > 0
}

/// One node's part of the graph invariant, for a table of `len` nodes.
pub open spec fn node_ok(n: NodeState, len: nat) -> bool {
    &&& forall|k: int| 0 <= k < n.children.len() ==> (#[trigger] n.children[k]) < len
    &&& (n.parent matches Some(p) ==> p < len)
    &&& (n.strong == 0 ==> n.children.len() == 0 && n.parent is None && n.access == Access::Idle)
    &&& (n.access matches Access::Shared(k) ==> k >= 1)
    &&& n.strong <= usize::MAX
}

/// Every reference stays inside the table, and a destroyed node holds no
/// reference at all.
pub open spec fn shape_ok(s: Seq<NodeState>) -> bool {
    forall|i: int| 0 <= i < s.len() ==> node_ok(#[trigger] s[i], s.len())
}

/// How often `c` occurs among the first `n` items of `q`.
pub open spec fn occurrences_upto(q: Seq<usize>, c: int, n: int) -> nat
    decreases n,
{
    if n <= 0 {
        0
    } else {
        occurrences_upto(q, c, n - 1) + if q[n - 1] == c {
            1nat
        } else {
            0nat
        }
    }
}

/// How often `c` occurs in `q`.
pub open spec fn occurrences(q: Seq<usize>, c: int) -> nat {
    occurrences_upto(q, c, q.len() as int)
}

/// How many owning references the first `n` nodes hold to node `c`.
pub open spec fn owners_upto(s: Seq<NodeState>, c: int, n: int) -> nat
    decreases n,
{
    if n <= 0 {
        0
    } else {
        owners_upto(s, c, n - 1) + occurrences(s[n - 1].children, c)
    }
}

/// How many owning references the nodes of the graph hold to node `c`: how
/// often it stands among their children.
pub open spec fn owners(s: Seq<NodeState>, c: int) -> nat {
    owners_upto(s, c, s.len() as int)
}

/// The counts are true: each node's count is the number of its outside
/// holders, of the parents' references to it, and of the references to it
/// that wait in `pending` to be given up.
pub open spec fn settled(s: Seq<NodeState>, pending: Seq<usize>) -> bool {
    forall|c: int|
        0 <= c < s.len() ==> (#[trigger] s[c]).strong == s[c].held + owners(s, c) + occurrences(
            pending,
            c,
        )
}

/// The graph invariant: the shape is right and the counts are true.
pub open spec fn graph_ok(s: Seq<NodeState>) -> bool {
    shape_ok(s) && settled(s, Seq::empty())
}

/// Every pending reference names a slot of the table.
pub open spec fn in_range(pending: Seq<usize>, len: nat) -> bool {
    forall|k: int| 0 <= k < pending.len() ==> (#[trigger] pending[k]) < len
}

/// Where the back-reference of node `i` leads, if it still leads anywhere:
/// to a parent that was set and is alive.
pub open spec fn resolve_parent(s: Seq<NodeState>, h: usize) -> Option<NodeHandle> {
    let i = h as int;
    if live(s, i) {
        match s[i].parent {
            Some(p) => if live(s, p as int) {
                Some(NodeHandle { index: p })
            } else {
                None
            },
            None => None,
        }
    } else {
        None
    }
}

/// The node is alive and its back-reference names `target`.
pub open spec fn points_at(n: NodeState, target: int) -> bool {
    n.strong > 0 && n.parent == Some(target as usize)
}

/// How many of the first `n` nodes hold a back-reference to `target`.
pub open spec fn weak_refs_upto(s: Seq<NodeState>, target: int, n: int) -> nat
    decreases n,
{
    if n <= 0 {
        0
    } else {
        weak_refs_upto(s, target, n - 1) + if points_at(s[n - 1], target) {
            1nat
        } else {
            0nat
        }
    }
}

/// How many back-references to `target` the graph holds.
pub open spec fn weak_refs(s: Seq<NodeState>, target: int) -> nat {
    weak_refs_upto(s, target, s.len() as int)
}

/// All owning references of the graph, counted together.
pub open spec fn total_strong(s: Seq<NodeState>) -> nat
    decreases s.len(),
{
    if s.len() == 0 {
        0
    } else {
        total_strong(s.drop_last()) + s.last().strong
    }
}

/// Replacing one node changes the total by the difference of the two counts.
pub proof fn lemma_total_update(s: Seq<NodeState>, i: int, n: NodeState)
    requires
        0 <= i < s.len(),
    ensures
        total_strong(s.update(i, n)) == total_strong(s) - s[i].strong + n.strong,
    decreases s.len(),
{
    let t = s.update(i, n);
    if i == s.len() - 1 {
        assert(t.drop_last() =~= s.drop_last());
    } else {
        assert(t.drop_last() =~= s.drop_last().update(i, n));
        lemma_total_update(s.drop_last(), i, n);
    }
}

/// The graph after the last of the pending references was given up. Where
/// it was the node's last, the node is destroyed.
pub open spec fn step_state(s: Seq<NodeState>, pending: Seq<usize>) -> Seq<NodeState> {
    let t = pending.last() as int;
    if !live(s, t) {
        s
    } else if s[t].strong > 1 {
        s.update(t, released(s[t]))
    } else {
        s.update(t, destroyed(s[t]))
    }
}

/// The references that wait after the last of them was given up: the
/// others and, where a node was destroyed, those that it held to its
/// children.
pub open spec fn step_pending(s: Seq<NodeState>, pending: Seq<usize>) -> Seq<usize> {
    let t = pending.last() as int;
    if live(s, t) && s[t].strong == 1 {
        pending.drop_last() + s[t].children
    } else {
        pending.drop_last()
    }
}

/// The graph after the owning references in `pending` were given up, last
/// one first. A node that loses its last reference is destroyed, and the
/// references that it held to its children are given up in turn.
pub open spec fn drop_refs(s: Seq<NodeState>, pending: Seq<usize>) -> Seq<NodeState>
    decreases total_strong(s), pending.len(),
    via drop_refs_terminates
{
    if pending.len() == 0 {
        s
    } else {
        drop_refs(step_state(s, pending), step_pending(s, pending))
    }
}

#[via_fn]
proof fn drop_refs_terminates(s: Seq<NodeState>, pending: Seq<usize>) {
    if pending.len() > 0 {
        let t = pending.last() as int;
        if live(s, t) {
            lemma_total_update(s, t, released(s[t]));
            lemma_total_update(s, t, destroyed(s[t]));
        }
    }
}

/// How a node may change while references are given up: its payload stays,
/// its count does not grow, and while it lives it keeps its outside
/// holders, its children, its back-reference and its outstanding accesses.
pub open spec fn fades_to(a: NodeState, b: NodeState) -> bool {
    &&& b.value == a.value
    &&& b.strong <= a.strong
    &&& (b.strong > 0 ==> b.children == a.children && b.parent == a.parent && b.access
        == a.access && b.held == a.held)
}

/// The graph after `p` took an owning reference to `c` and `c` a
/// back-reference to `p`. Nothing else changes: a parent that `c` had
/// before keeps `c` among its children.
pub open spec fn attached(s: Seq<NodeState>, p: usize, c: usize) -> Seq<NodeState> {
    let owner = NodeState { children: s[p as int].children.push(c), ..s[p as int] };
    let s1 = s.update(p as int, owner);
    s1.update(c as int, NodeState { parent: Some(p), ..adopted(s1[c as int]) })
}

/// Whether `p` may take `c` as a child, and if not, why not.
pub open spec fn attach_verdict(s: Seq<NodeState>, p: usize, c: usize) -> Result<
    (),
    GraphError,
> {
    if !live(s, p as int) || !live(s, c as int) {
        Err(GraphError::NoSuchNode)
    } else if s[p as int].access != Access::Idle || s[c as int].access != Access::Idle {
        Err(GraphError::AliasingViolation)
    } else if s[c as int].strong >= usize::MAX {
        Err(GraphError::CountOverflow)
    } else {
        Ok(())
    }
}

/// Whether an outside holder of node `i` may give its reference up.
pub open spec fn release_verdict(s: Seq<NodeState>, i: usize) -> Result<(), GraphError> {
    if !live(s, i as int) {
        Err(GraphError::NoSuchNode)
    } else if s[i as int].held == 0 {
        Err(GraphError::NotHeld)
    } else {
        Ok(())
    }
}

/// The graph after an outside holder gave up its reference to node `i`.
pub open spec fn after_release(s: Seq<NodeState>, i: usize) -> Seq<NodeState> {
    drop_refs(s.update(i as int, let_go(s[i as int])), seq![i])
}

/// Whether one more owning reference to node `i` may be taken.
pub open spec fn retain_verdict(s: Seq<NodeState>, h: usize) -> Result<(), GraphError> {
    let i = h as int;
    if !live(s, i) {
        Err(GraphError::NoSuchNode)
    } else if s[i].strong >= usize::MAX {
        Err(GraphError::CountOverflow)
    } else {
        Ok(())
    }
}

/// What a request for shared access to node `i` yields: the payload, unless
/// the node is gone, a writer is at work, or the readers cannot be counted.
pub open spec fn read_verdict(s: Seq<NodeState>, h: usize) -> Result<i32, GraphError> {
    let i = h as int;
    if !live(s, i) {
        Err(GraphError::NoSuchNode)
    } else {
        match s[i].access {
            Access::Exclusive => Err(GraphError::AliasingViolation),
            Access::Shared(k) => if k == usize::MAX {
                Err(GraphError::CountOverflow)
            } else {
                Ok(s[i].value)
            },
            Access::Idle => Ok(s[i].value),
        }
    }
}

/// What a request for exclusive access to node `i` yields: it is granted
/// only while no other access is outstanding.
pub open spec fn write_verdict(s: Seq<NodeState>, h: usize) -> Result<(), GraphError> {
    let i = h as int;
    if !live(s, i) {
        Err(GraphError::NoSuchNode)
    } else if s[i].access != Access::Idle {
        Err(GraphError::AliasingViolation)
    } else {
        Ok(())
    }
}

/// Whether node `i` has a reader who can leave.
pub open spec fn end_read_verdict(s: Seq<NodeState>, h: usize) -> Result<(), GraphError> {
    let i = h as int;
    if !live(s, i) {
        Err(GraphError::NoSuchNode)
    } else if s[i].access is Shared {
        Ok(())
    } else {
        Err(GraphError::AliasingViolation)
    }
}

/// Whether node `i` has a writer who can leave.
pub open spec fn end_write_verdict(s: Seq<NodeState>, h: usize) -> Result<(), GraphError> {
    let i = h as int;
    if !live(s, i) {
        Err(GraphError::NoSuchNode)
    } else if s[i].access == Access::Exclusive {
        Ok(())
    } else {
        Err(GraphError::AliasingViolation)
    }
}

/// The node with one more reader.
pub open spec fn with_reader(n: NodeState) -> NodeState {
    NodeState {
        access: match n.access {
            Access::Shared(k) => Access::Shared((k + 1) as usize),
            _ => Access::Shared(1),
        },
        ..n
    }
}

/// The node with one reader fewer.
pub open spec fn without_reader(n: NodeState) -> NodeState {
    NodeState {
        access: match n.access {
            Access::Shared(k) => if k > 1 {
                Access::Shared((k - 1) as usize)
            } else {
                Access::Idle
            },
            other => other,
        },
        ..n
    }
}

/// The node with the given outstanding access.
pub open spec fn with_access(n: NodeState, access: Access) -> NodeState {
    NodeState { access, ..n }
}

/// The first position at or behind `i` where `c` stands in `q`; the length
/// of `q` where it stands at none.
pub open spec fn first_from(q: Seq<usize>, c: usize, i: int) -> int
    decreases q.len() - i,
{
    if i < 0 || i >= q.len() {
        q.len() as int
    } else if q[i] == c {
        i
    } else {
        first_from(q, c, i + 1)
    }
}

/// Whether `p` may give up its first owning reference to `c`.
pub open spec fn detach_verdict(s: Seq<NodeState>, p: usize, c: usize) -> Result<
    (),
    GraphError,
> {
    if !live(s, p as int) {
        Err(GraphError::NoSuchNode)
    } else if s[p as int].access != Access::Idle {
        Err(GraphError::AliasingViolation)
    } else if first_from(s[p as int].children, c, 0) >= s[p as int].children.len() {
        Err(GraphError::NotAChild)
    } else {
        Ok(())
    }
}

/// The node without the child at position `k`.
pub open spec fn without_child(n: NodeState, k: int) -> NodeState {
    NodeState { children: n.children.remove(k), ..n }
}

/// The graph after `p` gave up its first owning reference to `c`. The
/// back-reference of `c` stays as it was.
pub open spec fn detached(s: Seq<NodeState>, p: usize, c: usize) -> Seq<NodeState> {
    let k = first_from(s[p as int].children, c, 0);
    drop_refs(s.update(p as int, without_child(s[p as int], k)), seq![c])
}

} // verus!
