use owned_tree::graph::Graph;
use owned_tree::model::{Access, GraphError, NodeHandle};

/// Builds a node that owns a one-node chain below it, as a list 5, 10 would.
fn chain(g: &mut Graph, head: i32, next: i32) -> NodeHandle {
    let tail = g.create(next);
    let node = g.create(head);
    g.attach_child(node, tail).unwrap();
    g.release(tail).unwrap();
    node
}

#[test]
fn rc_test_1() {
    let mut g = Graph::new();
    let a = chain(&mut g, 5, 10);
    let b = g.create(3);
    g.attach_child(b, a).unwrap();
    let c = g.create(4);
    g.attach_child(c, a).unwrap();
    assert_eq!(g.strong_count(a), 3);
    assert_eq!(g.children_of(b), vec![a]);
    assert_eq!(g.children_of(c), vec![a]);
}

#[test]
fn rc_test_2() {
    let mut g = Graph::new();
    let a = chain(&mut g, 5, 10);
    println!("创建a后计数= {}", g.strong_count(a));
    assert_eq!(g.strong_count(a), 1);
    let b = g.create(3);
    g.attach_child(b, a).unwrap();
    println!("创建b后计数= {}", g.strong_count(a));
    assert_eq!(g.strong_count(a), 2);
    {
        let c = g.create(4);
        g.attach_child(c, a).unwrap();
        println!("创建c后计数= {}", g.strong_count(a));
        assert_eq!(g.strong_count(a), 3);
        g.release(c).unwrap();
        assert!(!g.is_live(c));
    }
    println!("c超出范围后计数= {}", g.strong_count(a));
    assert_eq!(g.strong_count(a), 2);
}

#[test]
fn create_circular_reference() {
    let mut g = Graph::new();
    let a = g.create(5);
    println!("a 初始化之后，rc count = {}", g.strong_count(a));
    println!("a 的第二个参数是：{:?}", g.children_of(a));
    assert_eq!(g.strong_count(a), 1);
    let b = g.create(10);
    g.attach_child(b, a).unwrap();
    println!("b 创建后 a 的 rc count = {}", g.strong_count(a));
    println!("b 初始化后的 rc count = {}", g.strong_count(b));
    println!("b 的第二个参数是：{:?}", g.children_of(b));
    assert_eq!(g.strong_count(a), 2);
    assert_eq!(g.strong_count(b), 1);

    g.attach_child(a, b).unwrap();
    println!("b rc count after changing a = {}", g.strong_count(b));
    println!("a rc count after changing a = {}", g.strong_count(a));
    assert_eq!(g.strong_count(b), 2);
    assert_eq!(g.strong_count(a), 2);
}

#[test]
fn test_weak_reference() {
    let mut g = Graph::new();
    let leaf = g.create(3);
    println!("leaf 父节点 parent = {:?}", g.parent_of(leaf));
    assert_eq!(g.parent_of(leaf), None);

    let branch = g.create(5);
    g.attach_child(branch, leaf).unwrap();
    println!("leaf 父节点 parent = {:?}", g.parent_of(leaf));
    assert_eq!(g.parent_of(leaf), Some(branch));
    assert_eq!(g.read(leaf), Ok(3));
    assert_eq!(g.read(branch), Ok(5));
}

#[test]
fn test_weak_reference_count() {
    let mut g = Graph::new();
    let leaf = g.create(3);
    println!(
        "leaf 强引用个数 = {}, 弱引用个数 = {}",
        g.strong_count(leaf),
        g.weak_count(leaf),
    );
    assert_eq!((g.strong_count(leaf), g.weak_count(leaf)), (1, 0));

    {
        let branch = g.create(5);
        g.attach_child(branch, leaf).unwrap();

        println!(
            "branch 强引用个数 = {}, 弱引用个数 = {}",
            g.strong_count(branch),
            g.weak_count(branch),
        );
        assert_eq!((g.strong_count(branch), g.weak_count(branch)), (1, 1));

        println!(
            "leaf 强引用个数 = {}, 弱引用个数 = {}",
            g.strong_count(leaf),
            g.weak_count(leaf),
        );
        assert_eq!((g.strong_count(leaf), g.weak_count(leaf)), (2, 0));
        g.release(branch).unwrap();
    }

    println!("leaf 父节点 = {:?}", g.parent_of(leaf));
    assert_eq!(g.parent_of(leaf), None);
    println!(
        "leaf 强引用 = {}, 弱引用 = {}",
        g.strong_count(leaf),
        g.weak_count(leaf),
    );
    assert_eq!((g.strong_count(leaf), g.weak_count(leaf)), (1, 0));
}

#[test]
fn attach_makes_parent_the_owner() {
    let mut g = Graph::new();
    let a = g.create(5);
    let b = g.create(3);
    assert_eq!(g.attach_child(a, b), Ok(()));
    assert_eq!(g.strong_count(a), 1);
    assert_eq!(g.strong_count(b), 2);
    assert_eq!(g.release(b), Ok(()));
    assert_eq!(g.strong_count(b), 1);
    assert!(g.is_live(b));
    assert_eq!(g.parent_of(b), Some(a));
    assert_eq!(g.children_of(a), vec![b]);
}

#[test]
fn parent_released_while_child_is_held() {
    let mut g = Graph::new();
    let a = g.create(5);
    let b = g.create(3);
    g.attach_child(a, b).unwrap();
    assert_eq!(g.weak_count(a), 1);
    assert_eq!(g.release(a), Ok(()));
    assert_eq!(g.strong_count(a), 0);
    assert!(!g.is_live(a));
    assert_eq!(g.parent_of(b), None);
    assert_eq!(g.strong_count(b), 1);
    assert!(g.is_live(b));
}

#[test]
fn branch_and_leaf_counts() {
    let mut g = Graph::new();
    let branch = g.create(5);
    let leaf = g.create(3);
    g.attach_child(branch, leaf).unwrap();
    assert_eq!(g.strong_count(branch), 1);
    assert_eq!(g.weak_count(branch), 1);
    g.release(branch).unwrap();
    assert!(!g.is_live(branch));
    assert_eq!(g.weak_count(branch), 0);
    assert_eq!(g.parent_of(leaf), None);
}

#[test]
fn owning_cycle_is_never_destroyed() {
    let mut g = Graph::new();
    let a = g.create(1);
    let b = g.create(2);
    g.attach_child(a, b).unwrap();
    g.attach_child(b, a).unwrap();
    g.release(a).unwrap();
    g.release(b).unwrap();
    assert_eq!(g.strong_count(a), 1);
    assert_eq!(g.strong_count(b), 1);
    assert!(g.is_live(a));
    assert!(g.is_live(b));
    // Nobody outside holds them any more: nothing is left to give up.
    assert_eq!(g.release(a), Err(GraphError::NotHeld));
    assert_eq!(g.release(b), Err(GraphError::NotHeld));
    assert_eq!(g.strong_count(a), 1);
    assert_eq!(g.strong_count(b), 1);
}

#[test]
fn a_parents_reference_cannot_be_given_up_from_outside() {
    let mut g = Graph::new();
    let parent = g.create(1);
    let child = g.create(2);
    g.attach_child(parent, child).unwrap();
    assert_eq!(g.release(child), Ok(()));
    assert_eq!(g.release(child), Err(GraphError::NotHeld));
    assert_eq!(g.strong_count(child), 1);
    assert!(g.is_live(child));
    assert_eq!(g.retain(child), Ok(()));
    assert_eq!(g.strong_count(child), 2);
    assert_eq!(g.release(parent), Ok(()));
    assert_eq!(g.strong_count(child), 1);
    assert_eq!(g.release(child), Ok(()));
    assert!(!g.is_live(child));
}

#[test]
fn what_a_live_node_owns_is_alive() {
    let mut g = Graph::new();
    let root = g.create(0);
    let mut made = vec![root];
    for v in 1..6 {
        let n = g.create(v);
        let owner = made[(v as usize - 1) / 2];
        g.attach_child(owner, n).unwrap();
        g.release(n).unwrap();
        made.push(n);
    }
    for &n in &made {
        if g.is_live(n) {
            for c in g.children_of(n) {
                assert!(g.is_live(c));
                assert_eq!(g.strong_count(c), 1);
                assert_eq!(g.parent_of(c), Some(n));
            }
        }
    }
    g.release(root).unwrap();
    for &n in &made {
        assert!(!g.is_live(n));
        assert_eq!(g.strong_count(n), 0);
    }
}

#[test]
fn node_owning_itself_is_never_destroyed() {
    let mut g = Graph::new();
    let a = g.create(1);
    g.attach_child(a, a).unwrap();
    assert_eq!(g.strong_count(a), 2);
    assert_eq!(g.parent_of(a), Some(a));
    g.release(a).unwrap();
    assert_eq!(g.strong_count(a), 1);
    assert!(g.is_live(a));
}

#[test]
fn release_counts_down_by_one() {
    let mut g = Graph::new();
    let a = g.create(7);
    g.retain(a).unwrap();
    g.retain(a).unwrap();
    assert_eq!(g.strong_count(a), 3);
    g.release(a).unwrap();
    assert_eq!(g.strong_count(a), 2);
    assert!(g.is_live(a));
    g.release(a).unwrap();
    assert_eq!(g.strong_count(a), 1);
    assert!(g.is_live(a));
    g.release(a).unwrap();
    assert_eq!(g.strong_count(a), 0);
    assert!(!g.is_live(a));
    assert_eq!(g.release(a), Err(GraphError::NoSuchNode));
}

#[test]
fn destruction_cascades_through_the_subtree() {
    let mut g = Graph::new();
    let root = g.create(1);
    let mid = g.create(2);
    let low = g.create(3);
    let kept = g.create(4);
    g.attach_child(root, mid).unwrap();
    g.attach_child(mid, low).unwrap();
    g.attach_child(mid, kept).unwrap();
    g.release(mid).unwrap();
    g.release(low).unwrap();
    // `kept` stays held from outside; an outsider points back into the subtree.
    let outsider = g.create(9);
    g.attach_child(outsider, kept).unwrap();
    assert_eq!(g.weak_count(root), 1);
    g.release(root).unwrap();
    assert!(!g.is_live(root));
    assert!(!g.is_live(mid));
    assert!(!g.is_live(low));
    assert!(g.is_live(kept));
    assert_eq!(g.strong_count(kept), 2);
    assert_eq!(g.children_of(root), vec![]);
    assert_eq!(g.children_of(mid), vec![]);
    assert_eq!(g.parent_of(low), None);
}

#[test]
fn back_references_do_not_keep_a_node_alive() {
    let mut g = Graph::new();
    let p = g.create(1);
    let c1 = g.create(2);
    let c2 = g.create(3);
    g.attach_child(p, c1).unwrap();
    g.attach_child(p, c2).unwrap();
    assert_eq!(g.weak_count(p), 2);
    assert_eq!(g.strong_count(p), 1);
    g.release(p).unwrap();
    assert!(!g.is_live(p));
    assert_eq!(g.parent_of(c1), None);
    assert_eq!(g.parent_of(c2), None);
    assert_eq!(g.strong_count(c1), 1);
    assert_eq!(g.strong_count(c2), 1);
}

#[test]
fn reattaching_moves_the_back_reference_only() {
    let mut g = Graph::new();
    let old_parent = g.create(1);
    let new_parent = g.create(2);
    let child = g.create(3);
    g.attach_child(old_parent, child).unwrap();
    g.attach_child(new_parent, child).unwrap();
    assert_eq!(g.parent_of(child), Some(new_parent));
    assert_eq!(g.children_of(old_parent), vec![child]);
    assert_eq!(g.children_of(new_parent), vec![child]);
    assert_eq!(g.strong_count(child), 3);
    assert_eq!(g.weak_count(old_parent), 0);
    assert_eq!(g.weak_count(new_parent), 1);
}

#[test]
fn second_writer_is_refused() {
    let mut g = Graph::new();
    let a = g.create(1);
    assert_eq!(g.write(a), Ok(()));
    assert_eq!(g.write(a), Err(GraphError::AliasingViolation));
    assert_eq!(g.read(a), Err(GraphError::AliasingViolation));
    assert_eq!(g.end_write(a), Ok(()));
    assert_eq!(g.write(a), Ok(()));
}

#[test]
fn writer_is_refused_while_readers_remain() {
    let mut g = Graph::new();
    let a = g.create(8);
    assert_eq!(g.read(a), Ok(8));
    assert_eq!(g.read(a), Ok(8));
    assert_eq!(g.write(a), Err(GraphError::AliasingViolation));
    assert_eq!(g.end_write(a), Err(GraphError::AliasingViolation));
    assert_eq!(g.end_read(a), Ok(()));
    assert_eq!(g.write(a), Err(GraphError::AliasingViolation));
    assert_eq!(g.end_read(a), Ok(()));
    assert_eq!(g.end_read(a), Err(GraphError::AliasingViolation));
    assert_eq!(g.write(a), Ok(()));
}

#[test]
fn attaching_needs_both_interiors_free() {
    let mut g = Graph::new();
    let a = g.create(1);
    let b = g.create(2);
    g.read(a).unwrap();
    assert_eq!(g.attach_child(a, b), Err(GraphError::AliasingViolation));
    g.end_read(a).unwrap();
    g.write(b).unwrap();
    assert_eq!(g.attach_child(a, b), Err(GraphError::AliasingViolation));
    g.end_write(b).unwrap();
    assert_eq!(g.attach_child(a, b), Ok(()));
    assert_eq!(g.strong_count(b), 2);
    // The attachment left no access outstanding.
    assert_eq!(g.write(a), Ok(()));
    assert_eq!(g.write(b), Ok(()));
}

#[test]
fn unknown_and_destroyed_handles_are_refused() {
    let mut g = Graph::new();
    let ghost = NodeHandle { index: 4 };
    assert_eq!(g.strong_count(ghost), 0);
    assert_eq!(g.weak_count(ghost), 0);
    assert_eq!(g.parent_of(ghost), None);
    assert_eq!(g.children_of(ghost), vec![]);
    assert_eq!(g.retain(ghost), Err(GraphError::NoSuchNode));
    assert_eq!(g.release(ghost), Err(GraphError::NoSuchNode));
    assert_eq!(g.read(ghost), Err(GraphError::NoSuchNode));
    assert_eq!(g.write(ghost), Err(GraphError::NoSuchNode));
    assert_eq!(g.end_read(ghost), Err(GraphError::NoSuchNode));
    assert_eq!(g.end_write(ghost), Err(GraphError::NoSuchNode));
    let a = g.create(1);
    assert_eq!(a, NodeHandle { index: 0 });
    assert_eq!(g.attach_child(a, ghost), Err(GraphError::NoSuchNode));
    assert_eq!(g.attach_child(ghost, a), Err(GraphError::NoSuchNode));
    g.release(a).unwrap();
    assert_eq!(g.retain(a), Err(GraphError::NoSuchNode));
    assert_eq!(g.read(a), Err(GraphError::NoSuchNode));
    let b = g.create(2);
    assert_eq!(b, NodeHandle { index: 1 });
    assert_eq!(g.attach_child(a, b), Err(GraphError::NoSuchNode));
}

#[test]
fn destruction_ends_outstanding_access() {
    let mut g = Graph::new();
    let a = g.create(1);
    g.write(a).unwrap();
    g.release(a).unwrap();
    assert_eq!(g.end_write(a), Err(GraphError::NoSuchNode));
    assert_ne!(Access::Idle, Access::Exclusive);
}

#[test]
fn detaching_gives_up_the_parents_reference() {
    let mut g = Graph::new();
    let parent = g.create(1);
    let kept = g.create(2);
    let dropped = g.create(3);
    g.attach_child(parent, kept).unwrap();
    g.attach_child(parent, dropped).unwrap();
    g.attach_child(parent, kept).unwrap();
    g.release(dropped).unwrap();
    assert_eq!(g.children_of(parent), vec![kept, dropped, kept]);
    assert_eq!(g.strong_count(kept), 3);

    assert_eq!(g.detach_child(parent, kept), Ok(()));
    assert_eq!(g.children_of(parent), vec![dropped, kept]);
    assert_eq!(g.strong_count(kept), 2);
    // The back-reference is not touched.
    assert_eq!(g.parent_of(kept), Some(parent));

    assert_eq!(g.detach_child(parent, dropped), Ok(()));
    assert_eq!(g.children_of(parent), vec![kept]);
    assert!(!g.is_live(dropped));
    assert_eq!(g.strong_count(dropped), 0);
    assert_eq!(g.detach_child(parent, dropped), Err(GraphError::NotAChild));
    assert_eq!(g.strong_count(parent), 1);
    assert_eq!(g.weak_count(parent), 1);
}

#[test]
fn detaching_is_refused_like_any_write() {
    let mut g = Graph::new();
    let parent = g.create(1);
    let child = g.create(2);
    let stranger = g.create(3);
    g.attach_child(parent, child).unwrap();
    assert_eq!(g.detach_child(parent, stranger), Err(GraphError::NotAChild));
    assert_eq!(g.detach_child(child, parent), Err(GraphError::NotAChild));
    assert_eq!(g.detach_child(NodeHandle { index: 9 }, child), Err(GraphError::NoSuchNode));
    g.read(parent).unwrap();
    assert_eq!(g.detach_child(parent, child), Err(GraphError::AliasingViolation));
    g.end_read(parent).unwrap();
    assert_eq!(g.detach_child(parent, child), Ok(()));
    assert_eq!(g.children_of(parent), vec![]);
    assert_eq!(g.strong_count(child), 1);
}

#[test]
fn detaching_a_subtree_destroys_what_nobody_else_owns() {
    let mut g = Graph::new();
    let root = g.create(1);
    let mid = g.create(2);
    let low = g.create(3);
    g.attach_child(root, mid).unwrap();
    g.attach_child(mid, low).unwrap();
    g.release(mid).unwrap();
    g.release(low).unwrap();
    assert_eq!(g.detach_child(root, mid), Ok(()));
    assert!(g.is_live(root));
    assert!(!g.is_live(mid));
    assert!(!g.is_live(low));
    assert_eq!(g.weak_count(root), 0);
}

#[test]
fn giving_up_what_was_taken_changes_nothing() {
    let mut g = Graph::new();
    let parent = g.create(1);
    let child = g.create(2);
    g.attach_child(parent, child).unwrap();
    let before = (g.strong_count(child), g.weak_count(parent), g.children_of(parent));
    g.retain(child).unwrap();
    assert_eq!(g.strong_count(child), 3);
    g.release(child).unwrap();
    let after = (g.strong_count(child), g.weak_count(parent), g.children_of(parent));
    assert_eq!(before, after);
    assert_eq!(g.parent_of(child), Some(parent));
}
