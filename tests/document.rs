use graphic_cli::document::{ElementKind, Document, TreeError};

#[test]
fn children_get_fresh_ids_in_order() {
    let mut t = Document::new();
    assert_eq!(t.len(), 1);
    let a = t.add_child(0, ElementKind::Parent).unwrap();
    let b = t.add_child(0, ElementKind::Leaf).unwrap();
    let c = t.add_child(a, ElementKind::Leaf).unwrap();
    assert_eq!((a, b, c), (1, 2, 3));
    assert_eq!(t.children(0), &vec![1, 2]);
    assert_eq!(t.children(a), &vec![3]);
    assert_eq!(t.parent(c), Some(a));
    assert_eq!(t.parent(0), None);
    assert_eq!(t.child_count(0), 2);
    assert_eq!(t.kind(b), ElementKind::Leaf);
}

#[test]
fn leaves_take_no_children() {
    let mut t = Document::new();
    let leaf = t.add_child(0, ElementKind::Leaf).unwrap();
    assert_eq!(t.add_child(leaf, ElementKind::Leaf), Err(TreeError::NoChildrenAllowed));
    assert_eq!(t.add_child(7, ElementKind::Leaf), Err(TreeError::ChildNotFound(7)));
    assert_eq!(t.len(), 2);
}

#[test]
fn contains_and_get_child_search_all_descendants() {
    let mut t = Document::new();
    let a = t.add_child(0, ElementKind::Parent).unwrap();
    let b = t.add_child(a, ElementKind::Parent).unwrap();
    let c = t.add_child(b, ElementKind::Leaf).unwrap();
    let d = t.add_child(0, ElementKind::Leaf).unwrap();
    assert!(t.contains_id(0, c));
    assert!(t.contains_id(a, c));
    assert!(!t.contains_id(a, d));
    assert!(!t.contains_id(c, a));
    assert!(!t.contains_id(a, a));
    assert!(!t.contains_id(0, 99));
    assert_eq!(t.get_child(a, c), Some(c));
    assert_eq!(t.get_child(b, d), None);
    assert_eq!(t.doc(c), 0);
}

#[test]
fn removing_a_child_detaches_its_subtree() {
    let mut t = Document::new();
    let a = t.add_child(0, ElementKind::Parent).unwrap();
    let b = t.add_child(0, ElementKind::Leaf).unwrap();
    let c = t.add_child(a, ElementKind::Leaf).unwrap();
    assert_eq!(t.remove_child(0, c), Err(TreeError::ChildNotFound(c)));
    t.remove_child(0, a).unwrap();
    assert_eq!(t.children(0), &vec![b]);
    assert_eq!(t.parent(a), None);
    assert!(!t.contains_id(0, c));
    assert!(t.contains_id(a, c));
    assert_eq!(t.doc(c), a);
    assert_eq!(t.remove_child(0, a), Err(TreeError::ChildNotFound(a)));
}
