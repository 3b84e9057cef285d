//! The graph itself: a table of nodes, each with its owning references to
//! children, its non-owning back-reference and its reference count.

use vstd::prelude::*;
use crate::laws::law_release_counts_down;
use crate::lemmas::{
    lemma_attach_ok, lemma_create_ok, lemma_detach_ok, lemma_first_from, lemma_release_ok,
    lemma_step, lemma_update_ok,
};
use crate::model::{
    after_release, attach_verdict, attached, detach_verdict, detached, drop_refs, end_read_verdict,
    end_write_verdict, first_from, fresh, graph_ok, in_range, let_go, live, node_ok, occurrences,
    owners, points_at, read_verdict, release_verdict, resolve_parent, retain_verdict, retained,
    settled, shape_ok, step_pending, step_state, total_strong, weak_refs, weak_refs_upto,
    with_access, with_reader, without_child, without_reader, write_verdict, Access, GraphError,
    NodeHandle, NodeState,
};

verus! {

struct Node {
    value: i32,
    children: Vec<usize>,
    parent: Option<usize>,
    held: usize,
    strong: usize,
    access: Access,
}

impl Node {
    spec fn state(&self) -> NodeState {
        NodeState {
            value: self.value,
            children: self.children@,
            parent: self.parent,
            held: self.held as nat,
            strong: self.strong as nat,
            access: self.access,
        }
    }
}

/// A set of nodes that own their children and know their parents without
/// owning them.
pub struct Graph {
    nodes: Vec<Node>,
}

impl View for Graph {
    type V = Seq<NodeState>;

    closed spec fn view(&self) -> Seq<NodeState> {
        Seq::new(self.nodes@.len(), |i: int| self.nodes@[i].state())
    }
}

impl Graph {
    /// The invariant that every operation keeps.
    pub open spec fn wf(&self) -> bool {
        graph_ok(self@)
    }

    /// An empty graph.
    pub fn new() -> (g: Graph)
        ensures
            g@ == Seq::<NodeState>::empty(),
            g.wf(),
    {
        let g = Graph { nodes: Vec::new() };
        assert(g@ =~= Seq::<NodeState>::empty());
        g
    }

    /// Allocates a node with the given value, no children and no parent.
    /// The handle that is returned is its one owning reference.
    pub fn create(&mut self, value: i32) -> (h: NodeHandle)
        requires
            old(self).wf(),
        ensures
            h.index == old(self)@.len(),
            final(self)@ == old(self)@.push(fresh(value)),
            final(self).wf(),
    {
        let index = self.nodes.len();
        self.nodes.push(
            Node {
                value,
                children: Vec::new(),
                parent: None,
                held: 1,
                strong: 1,
                access: Access::Idle,
            },
        );
        proof {
            assert(self@ =~= old(self)@.push(fresh(value)));
            lemma_create_ok(old(self)@, value);
        }
        NodeHandle { index }
    }

    /// Gives up the owning references in `pending`, last one first, and
    /// destroys what is left without an owner.
    fn drop_pending(&mut self, pending: Vec<usize>)
        requires
            shape_ok(old(self)@),
            settled(old(self)@, pending@),
            in_range(pending@, old(self)@.len()),
        ensures
            final(self)@ == drop_refs(old(self)@, pending@),
            final(self).wf(),
    {
        let mut pending = pending;
        let ghost start = pending@;
        while pending.len() > 0
            invariant
                shape_ok(self@),
                settled(self@, pending@),
                in_range(pending@, self@.len()),
                drop_refs(self@, pending@) == drop_refs(old(self)@, start),
            decreases total_strong(self@), pending.len(),
        {
            let ghost before = self@;
            let ghost queue = pending@;
            let t = pending.pop().unwrap();
            assert(pending@ =~= queue.drop_last());
            assert(t == queue.last());
            if self.nodes[t].strong == 0 {
            } else if self.nodes[t].strong > 1 {
                self.nodes[t].strong = self.nodes[t].strong - 1;
            } else {
                let mut kids: Vec<usize> = Vec::new();
                std::mem::swap(&mut kids, &mut self.nodes[t].children);
                self.nodes[t].held = 0;
                self.nodes[t].strong = 0;
                self.nodes[t].parent = None;
                self.nodes[t].access = Access::Idle;
                pending.append(&mut kids);
            }
            proof {
                assert(self@ =~= step_state(before, queue));
                assert(pending@ =~= step_pending(before, queue));
                lemma_step(before, queue);
            }
        }
        assert(pending@ =~= Seq::<usize>::empty());
    }

    /// Gives up one owning reference that is held from outside. When it was
    /// the node's last reference, the node is destroyed and its references
    /// to its children are given up in turn; back-references to it do not
    /// keep it alive.
    pub fn release(&mut self, h: NodeHandle) -> (r: Result<(), GraphError>)
        requires
            old(self).wf(),
        ensures
            final(self).wf(),
            final(self)@.len() == old(self)@.len(),
            r == release_verdict(old(self)@, h.index),
            r is Err ==> final(self)@ == old(self)@,
            r is Ok ==> final(self)@ == after_release(old(self)@, h.index),
            r is Ok ==> final(self)@[h.index as int].strong == old(self)@[h.index as int].strong
                - 1,
            r is Ok ==> (live(final(self)@, h.index as int) <==> old(self)@[h.index as int].strong
                > 1),
    {
        if h.index >= self.nodes.len() || self.nodes[h.index].strong == 0 {
            return Err(GraphError::NoSuchNode);
        }
        if self.nodes[h.index].held == 0 {
            return Err(GraphError::NotHeld);
        }
        self.nodes[h.index].held = self.nodes[h.index].held - 1;
        let mut pending: Vec<usize> = Vec::new();
        pending.push(h.index);
        proof {
            let s = old(self)@;
            assert(pending@ =~= seq![h.index]);
            assert(self@ =~= s.update(h.index as int, let_go(s[h.index as int])));
            lemma_release_ok(s, h.index);
            law_release_counts_down(s, h);
        }
        self.drop_pending(pending);
        Ok(())
    }
}

impl Graph {
    /// Whether the handle names a node that is alive.
    pub fn is_live(&self, h: NodeHandle) -> (r: bool)
        ensures
            r == live(self@, h.index as int),
    {
        h.index < self.nodes.len() && self.nodes[h.index].strong > 0
    }

    /// The number of owning references to the node; zero when it was
    /// destroyed or never created.
    pub fn strong_count(&self, h: NodeHandle) -> (r: usize)
        ensures
            r == if h.index < self@.len() {
                self@[h.index as int].strong
            } else {
                0
            },
    {
        if h.index < self.nodes.len() {
            self.nodes[h.index].strong
        } else {
            0
        }
    }

    /// The number of back-references that live nodes hold to the node; zero
    /// when the node itself is not alive.
    pub fn weak_count(&self, h: NodeHandle) -> (r: usize)
        ensures
            r == if live(self@, h.index as int) {
                weak_refs(self@, h.index as int)
            } else {
                0
            },
    {
        if !self.is_live(h) {
            return 0;
        }
        let mut count: usize = 0;
        let mut i: usize = 0;
        while i < self.nodes.len()
            invariant
                i <= self.nodes.len(),
                self@.len() == self.nodes.len(),
                count <= i,
                count == weak_refs_upto(self@, h.index as int, i as int),
            decreases self.nodes.len() - i,
        {
            let hit = self.nodes[i].strong > 0 && match self.nodes[i].parent {
                Some(p) => p == h.index,
                None => false,
            };
            assert(hit == points_at(self@[i as int], h.index as int));
            if hit {
                count = count + 1;
            }
            i = i + 1;
        }
        count
    }

    /// Resolves the node's back-reference: the parent, if one was set and is
    /// still alive. Takes no owning reference.
    pub fn parent_of(&self, h: NodeHandle) -> (r: Option<NodeHandle>)
        ensures
            r == resolve_parent(self@, h.index),
    {
        if !self.is_live(h) {
            return None;
        }
        match self.nodes[h.index].parent {
            Some(p) => {
                if p < self.nodes.len() && self.nodes[p].strong > 0 {
                    Some(NodeHandle { index: p })
                } else {
                    None
                }
            },
            None => None,
        }
    }

    /// The node's children, in the order of attachment; none for a node that
    /// is not alive.
    pub fn children_of(&self, h: NodeHandle) -> (r: Vec<NodeHandle>)
        ensures
            !live(self@, h.index as int) ==> r@.len() == 0,
            live(self@, h.index as int) ==> r@.len() == self@[h.index as int].children.len(),
            live(self@, h.index as int) ==> forall|k: int|
                0 <= k < r@.len() ==> (#[trigger] r@[k]).index == self@[h.index as int].children[k],
    {
        let mut out: Vec<NodeHandle> = Vec::new();
        if !self.is_live(h) {
            return out;
        }
        let ghost kids = self.nodes[h.index as int].children@;
        let mut k: usize = 0;
        while k < self.nodes[h.index].children.len()
            invariant
                h.index < self.nodes.len(),
                kids == self.nodes[h.index as int].children@,
                k <= kids.len(),
                out@.len() == k,
                forall|j: int| 0 <= j < k ==> (#[trigger] out@[j]).index == kids[j],
            decreases kids.len() - k,
        {
            out.push(NodeHandle { index: self.nodes[h.index].children[k] });
            k = k + 1;
        }
        out
    }

    /// Takes one more owning reference to the node.
    pub fn retain(&mut self, h: NodeHandle) -> (r: Result<(), GraphError>)
        requires
            old(self).wf(),
        ensures
            final(self).wf(),
            r == retain_verdict(old(self)@, h.index),
            r is Err ==> final(self)@ == old(self)@,
            r is Ok ==> final(self)@ == old(self)@.update(
                h.index as int,
                retained(old(self)@[h.index as int]),
            ),
    {
        if !self.is_live(h) {
            return Err(GraphError::NoSuchNode);
        }
        if self.nodes[h.index].strong == usize::MAX {
            return Err(GraphError::CountOverflow);
        }
        proof {
            let s = self@;
            let c = h.index as int;
            assert(s[c].strong == s[c].held + owners(s, c) + occurrences(Seq::<usize>::empty(), c));
        }
        self.nodes[h.index].held = self.nodes[h.index].held + 1;
        self.nodes[h.index].strong = self.nodes[h.index].strong + 1;
        proof {
            let s = old(self)@;
            assert(self@ =~= s.update(h.index as int, retained(s[h.index as int])));
            assert(node_ok(s[h.index as int], s.len()));
            lemma_update_ok(s, h.index as int, retained(s[h.index as int]));
        }
        Ok(())
    }

    /// Makes `parent` an owner of `child` and points `child`'s
    /// back-reference at `parent`. Both interiors are written, so neither
    /// may be under access. An owning cycle is not looked for: the nodes of
    /// one are never destroyed.
    pub fn attach_child(&mut self, parent: NodeHandle, child: NodeHandle) -> (r: Result<
        (),
        GraphError,
    >)
        requires
            old(self).wf(),
        ensures
            final(self).wf(),
            r == attach_verdict(old(self)@, parent.index, child.index),
            r is Err ==> final(self)@ == old(self)@,
            r is Ok ==> final(self)@ == attached(old(self)@, parent.index, child.index),
    {
        if !self.is_live(parent) || !self.is_live(child) {
            return Err(GraphError::NoSuchNode);
        }
        let parent_idle = match self.nodes[parent.index].access {
            Access::Idle => true,
            _ => false,
        };
        let child_idle = match self.nodes[child.index].access {
            Access::Idle => true,
            _ => false,
        };
        if !parent_idle || !child_idle {
            return Err(GraphError::AliasingViolation);
        }
        if self.nodes[child.index].strong == usize::MAX {
            return Err(GraphError::CountOverflow);
        }
        self.nodes[parent.index].children.push(child.index);
        self.nodes[child.index].strong = self.nodes[child.index].strong + 1;
        self.nodes[child.index].parent = Some(parent.index);
        proof {
            let s = old(self)@;
            assert(self@ =~= attached(s, parent.index, child.index));
            lemma_attach_ok(s, parent.index, child.index);
        }
        Ok(())
    }

    /// Asks for shared access to the node's interior and hands out the
    /// payload. Refused while a writer is at work.
    pub fn read(&mut self, h: NodeHandle) -> (r: Result<i32, GraphError>)
        requires
            old(self).wf(),
        ensures
            final(self).wf(),
            r == read_verdict(old(self)@, h.index),
            r is Err ==> final(self)@ == old(self)@,
            r is Ok ==> final(self)@ == old(self)@.update(
                h.index as int,
                with_reader(old(self)@[h.index as int]),
            ),
    {
        if !self.is_live(h) {
            return Err(GraphError::NoSuchNode);
        }
        let next = match self.nodes[h.index].access {
            Access::Exclusive => {
                return Err(GraphError::AliasingViolation);
            },
            Access::Shared(k) => {
                if k == usize::MAX {
                    return Err(GraphError::CountOverflow);
                }
                Access::Shared(k + 1)
            },
            Access::Idle => Access::Shared(1),
        };
        self.nodes[h.index].access = next;
        proof {
            let s = old(self)@;
            assert(self@ =~= s.update(h.index as int, with_reader(s[h.index as int])));
            assert(node_ok(s[h.index as int], s.len()));
            lemma_update_ok(s, h.index as int, with_reader(s[h.index as int]));
        }
        Ok(self.nodes[h.index].value)
    }

    /// Gives back one shared access.
    pub fn end_read(&mut self, h: NodeHandle) -> (r: Result<(), GraphError>)
        requires
            old(self).wf(),
        ensures
            final(self).wf(),
            r == end_read_verdict(old(self)@, h.index),
            r is Err ==> final(self)@ == old(self)@,
            r is Ok ==> final(self)@ == old(self)@.update(
                h.index as int,
                without_reader(old(self)@[h.index as int]),
            ),
    {
        if !self.is_live(h) {
            return Err(GraphError::NoSuchNode);
        }
        let next = match self.nodes[h.index].access {
            Access::Shared(k) => {
                if k > 1 {
                    Access::Shared(k - 1)
                } else {
                    Access::Idle
                }
            },
            _ => {
                return Err(GraphError::AliasingViolation);
            },
        };
        self.nodes[h.index].access = next;
        proof {
            let s = old(self)@;
            assert(self@ =~= s.update(h.index as int, without_reader(s[h.index as int])));
            assert(node_ok(s[h.index as int], s.len()));
            lemma_update_ok(s, h.index as int, without_reader(s[h.index as int]));
        }
        Ok(())
    }

    /// Asks for exclusive access to the node's interior. Refused while any
    /// other access, shared or exclusive, is outstanding.
    pub fn write(&mut self, h: NodeHandle) -> (r: Result<(), GraphError>)
        requires
            old(self).wf(),
        ensures
            final(self).wf(),
            r == write_verdict(old(self)@, h.index),
            r is Err ==> final(self)@ == old(self)@,
            r is Ok ==> final(self)@ == old(self)@.update(
                h.index as int,
                with_access(old(self)@[h.index as int], Access::Exclusive),
            ),
    {
        if !self.is_live(h) {
            return Err(GraphError::NoSuchNode);
        }
        match self.nodes[h.index].access {
            Access::Idle => {},
            _ => {
                return Err(GraphError::AliasingViolation);
            },
        }
        self.nodes[h.index].access = Access::Exclusive;
        proof {
            let s = old(self)@;
            let n = with_access(s[h.index as int], Access::Exclusive);
            assert(self@ =~= s.update(h.index as int, n));
            assert(node_ok(s[h.index as int], s.len()));
            lemma_update_ok(s, h.index as int, n);
        }
        Ok(())
    }

    /// Gives back the exclusive access.
    pub fn end_write(&mut self, h: NodeHandle) -> (r: Result<(), GraphError>)
        requires
            old(self).wf(),
        ensures
            final(self).wf(),
            r == end_write_verdict(old(self)@, h.index),
            r is Err ==> final(self)@ == old(self)@,
            r is Ok ==> final(self)@ == old(self)@.update(
                h.index as int,
                with_access(old(self)@[h.index as int], Access::Idle),
            ),
    {
        if !self.is_live(h) {
            return Err(GraphError::NoSuchNode);
        }
        match self.nodes[h.index].access {
            Access::Exclusive => {},
            _ => {
                return Err(GraphError::AliasingViolation);
            },
        }
        self.nodes[h.index].access = Access::Idle;
        proof {
            let s = old(self)@;
            let n = with_access(s[h.index as int], Access::Idle);
            assert(self@ =~= s.update(h.index as int, n));
            assert(node_ok(s[h.index as int], s.len()));
            lemma_update_ok(s, h.index as int, n);
        }
        Ok(())
    }
}

impl Graph {
    /// Takes `child` off the children of `parent`, where it stands first,
    /// and gives up the owning reference that stood there; a child without
    /// another owner is destroyed. The child's back-reference is left as it
    /// is: whoever wants the two in step sets it anew.
    pub fn detach_child(&mut self, parent: NodeHandle, child: NodeHandle) -> (r: Result<
        (),
        GraphError,
    >)
        requires
            old(self).wf(),
        ensures
            final(self).wf(),
            final(self)@.len() == old(self)@.len(),
            r == detach_verdict(old(self)@, parent.index, child.index),
            r is Err ==> final(self)@ == old(self)@,
            r is Ok ==> final(self)@ == detached(old(self)@, parent.index, child.index),
    {
        if !self.is_live(parent) {
            return Err(GraphError::NoSuchNode);
        }
        match self.nodes[parent.index].access {
            Access::Idle => {},
            _ => {
                return Err(GraphError::AliasingViolation);
            },
        }
        let ghost q = self@[parent.index as int].children;
        let n = self.nodes[parent.index].children.len();
        let mut k: usize = 0;
        while k < n && self.nodes[parent.index].children[k] != child.index
            invariant
                parent.index < self.nodes.len(),
                q == self.nodes[parent.index as int].children@,
                n == q.len(),
                k <= n,
                first_from(q, child.index, 0) == first_from(q, child.index, k as int),
            decreases n - k,
        {
            k = k + 1;
        }
        if k == n {
            return Err(GraphError::NotAChild);
        }
        proof {
            lemma_first_from(q, child.index, 0);
            lemma_detach_ok(self@, parent.index, child.index);
        }
        self.nodes[parent.index].children.remove(k);
        let mut pending: Vec<usize> = Vec::new();
        pending.push(child.index);
        proof {
            let s = old(self)@;
            assert(pending@ =~= seq![child.index]);
            assert(self@ =~= s.update(
                parent.index as int,
                without_child(s[parent.index as int], k as int),
            ));
        }
        self.drop_pending(pending);
        Ok(())
    }
}

} // verus!
