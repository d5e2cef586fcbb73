use toy_pool::tree::{Link, Node, Tree};
use toy_pool::Slot;

#[test]
fn nodes_are_found_by_slot() {
    let mut tree: Tree<&str> = Tree::with_capacity(2);
    assert!(tree.node_by_slot(Slot::default()).is_none());
    let a = tree.insert("a");
    let b = tree.insert("b");
    assert_eq!(a.slot().to_usize(), 0);
    assert_eq!(b.slot().to_usize(), 1);
    assert_eq!(tree.node_by_slot(a.slot()), Some(&Node::root("a")));
    assert_eq!(tree.data_by_slot(b.slot()), Some(&"b"));
    assert_eq!(tree.index(&b), &Node::root("b"));

    *tree.data_mut_by_slot(a.slot()).unwrap() = "c";
    assert_eq!(tree.data_by_slot(a.slot()), Some(&"c"));
    assert!(tree.node_mut_by_slot(b.slot()).is_some());
    assert_eq!(tree.index_mut(&a), &mut Node::root("c"));
}

#[test]
fn links_are_written_by_slot() {
    let mut tree: Tree<u8> = Tree::with_capacity(2);
    let a = tree.insert(1);
    let b = tree.insert(2);
    assert_eq!(*tree.root_mut(), Link::default());
    tree.root_mut().first_child = Some(a.slot());
    tree.link_mut_by_slot(a.slot()).unwrap().next_sibling = Some(b.slot());
    {
        let (la, lb) = tree.link2_mut_by_slot(a.slot(), b.slot()).unwrap();
        assert_eq!(la.next_sibling, Some(b.slot()));
        lb.parent = Some(a.slot());
        la.first_child = Some(b.slot());
    }
    let expected = Link { parent: Some(a.slot()), first_child: None, next_sibling: None };
    assert_eq!(*tree.link_mut_by_slot(b.slot()).unwrap(), expected);
    assert_eq!(tree.root_mut().first_child, Some(a.slot()));
    assert_eq!(tree.data_by_slot(a.slot()), Some(&1));
    assert!(tree.node_by_slot(a.slot()) != Some(&Node::root(1)));
}

#[test]
fn links_are_reached_by_handle() {
    let mut tree: Tree<u8> = Tree::with_capacity(1);
    assert!(tree.has_generation_left());
    let a = tree.insert(1);
    let slot = a.slot();
    let spare = a.clone();
    {
        let link = tree.link_mut_by_id(spare).unwrap();
        assert_eq!(*link, Link::default());
        link.parent = Some(slot);
    }
    let expected = Link { parent: Some(slot), first_child: None, next_sibling: None };
    assert_eq!(*tree.link_mut_by_slot(slot).unwrap(), expected);
    assert_eq!(tree.data_by_slot(slot), Some(&1));
}
