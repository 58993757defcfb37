use story_schema::tree::{ContainerId, ContentTree, LeafId, Object};
use story_schema::try_as_ref::TryAsRef;

#[test]
fn new_tree_holds_nothing() {
    let tree = ContentTree::new();
    assert!(tree.container(ContainerId(0)).is_none());
    assert!(!tree.contains(Object::Container(ContainerId(0))));
    assert!(!tree.contains(Object::Leaf(LeafId(0))));
    assert_eq!(tree.parent(Object::Leaf(LeafId(0))), None);
}

#[test]
fn ids_count_up_from_zero() {
    let mut tree = ContentTree::new();
    assert_eq!(tree.add_root(), ContainerId(0));
    assert_eq!(tree.add_root(), ContainerId(1));
    assert_eq!(tree.add_container(ContainerId(0)), Some(ContainerId(2)));
    assert_eq!(tree.add_leaf(ContainerId(2)), Some(LeafId(0)));
    assert_eq!(tree.add_leaf(ContainerId(0)), Some(LeafId(1)));
}

#[test]
fn content_keeps_insertion_order() {
    let mut tree = ContentTree::new();
    let root = tree.add_root();
    let a = tree.add_leaf(root).unwrap();
    let b = tree.add_container(root).unwrap();
    let c = tree.add_leaf(root).unwrap();
    let container = tree.container(root).unwrap();
    assert_eq!(container.len(), 3);
    assert_eq!(container.get(0), Some(Object::Leaf(a)));
    assert_eq!(container.get(1), Some(Object::Container(b)));
    assert_eq!(container.get(2), Some(Object::Leaf(c)));
    assert_eq!(container.get(3), None);
    assert_eq!(container.get(usize::MAX), None);
}

#[test]
fn index_of_finds_by_identity() {
    let mut tree = ContentTree::new();
    let root = tree.add_root();
    let other = tree.add_root();
    let a = tree.add_leaf(root).unwrap();
    let b = tree.add_leaf(root).unwrap();
    let elsewhere = tree.add_leaf(other).unwrap();
    let container = tree.container(root).unwrap();
    assert_eq!(container.index_of(Object::Leaf(a)), Some(0));
    assert_eq!(container.index_of(Object::Leaf(b)), Some(1));
    assert_eq!(container.index_of(Object::Leaf(elsewhere)), None);
    assert_eq!(container.index_of(Object::Container(root)), None);
}

#[test]
fn parent_is_the_holding_container() {
    let mut tree = ContentTree::new();
    let root = tree.add_root();
    let inner = tree.add_container(root).unwrap();
    let leaf = tree.add_leaf(inner).unwrap();
    assert_eq!(tree.parent(Object::Container(root)), None);
    assert_eq!(tree.parent(Object::Container(inner)), Some(root));
    assert_eq!(tree.parent(Object::Leaf(leaf)), Some(inner));
    assert_eq!(tree.container(inner).unwrap().parent(), Some(root));
    assert_eq!(tree.container(root).unwrap().parent(), None);
}

#[test]
fn adding_under_a_missing_container_changes_nothing() {
    let mut tree = ContentTree::new();
    let root = tree.add_root();
    assert_eq!(tree.add_container(ContainerId(5)), None);
    assert_eq!(tree.add_leaf(ContainerId(5)), None);
    assert_eq!(tree.container(root).unwrap().len(), 0);
    assert_eq!(tree.add_root(), ContainerId(1));
    assert_eq!(tree.add_leaf(root), Some(LeafId(0)));
}

#[test]
fn discard_removes_the_whole_subtree_and_nothing_else() {
    let mut tree = ContentTree::new();
    let root = tree.add_root();
    let keep = tree.add_leaf(root).unwrap();
    let mid = tree.add_container(root).unwrap();
    let after = tree.add_container(root).unwrap();
    let low = tree.add_container(mid).unwrap();
    let in_mid = tree.add_leaf(mid).unwrap();
    let in_low = tree.add_leaf(low).unwrap();
    let in_after = tree.add_leaf(after).unwrap();

    assert!(tree.discard(mid));

    for gone in [Object::Container(mid), Object::Container(low), Object::Leaf(in_mid), Object::Leaf(in_low)] {
        assert!(!tree.contains(gone));
        assert_eq!(tree.parent(gone), None);
    }
    for kept in [Object::Container(root), Object::Container(after), Object::Leaf(keep), Object::Leaf(in_after)] {
        assert!(tree.contains(kept));
    }
    let container = tree.container(root).unwrap();
    assert_eq!(container.len(), 2);
    assert_eq!(container.get(0), Some(Object::Leaf(keep)));
    assert_eq!(container.get(1), Some(Object::Container(after)));
    assert_eq!(tree.container(after).unwrap().get(0), Some(Object::Leaf(in_after)));
    assert_eq!(tree.parent(Object::Leaf(in_after)), Some(after));
}

#[test]
fn discard_of_a_root_leaves_other_roots() {
    let mut tree = ContentTree::new();
    let first = tree.add_root();
    let second = tree.add_root();
    let leaf = tree.add_leaf(second).unwrap();
    tree.add_leaf(first).unwrap();
    assert!(tree.discard(first));
    assert!(tree.container(first).is_none());
    assert_eq!(tree.container(second).unwrap().get(0), Some(Object::Leaf(leaf)));
}

#[test]
fn discard_of_what_is_not_there_does_nothing() {
    let mut tree = ContentTree::new();
    let root = tree.add_root();
    let inner = tree.add_container(root).unwrap();
    assert!(!tree.discard(ContainerId(9)));
    assert!(tree.discard(inner));
    assert!(!tree.discard(inner));
    assert!(tree.contains(Object::Container(root)));
    assert_eq!(tree.container(root).unwrap().len(), 0);
}

#[test]
fn object_is_seen_as_a_container_id_only_when_it_is_one() {
    let container = Object::Container(ContainerId(3));
    let leaf = Object::Leaf(LeafId(3));
    let seen: Option<&ContainerId> = container.try_as_ref();
    assert_eq!(seen, Some(&ContainerId(3)));
    let seen: Option<&ContainerId> = leaf.try_as_ref();
    assert_eq!(seen, None);
}

#[test]
fn equal_objects_are_the_same_node() {
    assert_eq!(Object::Leaf(LeafId(1)), Object::Leaf(LeafId(1)));
    assert_ne!(Object::Leaf(LeafId(1)), Object::Leaf(LeafId(2)));
    assert_ne!(Object::Leaf(LeafId(1)), Object::Container(ContainerId(1)));
}
