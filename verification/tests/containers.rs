use cmkernel::avl_tree::AvlTree;
use cmkernel::avl_tree::Node;
use cmkernel::linked_list::LinkedList;
use cmkernel::linked_list::ListItem;
use cmkernel::rb_tree::Node as RbNode;
use cmkernel::rb_tree::RbTree;

#[test]
fn avl_tree_test_simple() {
    let mut btree = AvlTree::new();
    assert!(btree.get(0).is_none());
    let node1 = Node::new(1, "hello");
    btree.insert(node1);
    assert_eq!(btree.get(1).unwrap(), &"hello");
    let node2 = Node::new(2, "world");
    btree.insert(node2);
    assert_eq!(&"hello", btree.get(1).unwrap());
    assert_eq!(&"world", btree.get(2).unwrap());
}

#[test]
fn avl_tree_test_iter() {
    let mut btree = AvlTree::new();
    let node1 = Node::new(9, "third");
    let node2 = Node::new(1, "first");
    let node3 = Node::new(3, "second");
    btree.insert(node1);
    btree.insert(node2);
    btree.insert(node3);
    let expected = [(1, "first"), (3, "second"), (9, "third")];
    let mut it = btree.iter();
    let mut i = 0;
    while let Some((key, value)) = it.next() {
        assert_eq!(expected[i].0, key);
        assert_eq!(&expected[i].1, value);
        i += 1;
    }
    assert_eq!(3, i);
}

#[test]
fn avl_tree_balanced_after_every_insert() {
    // Ascending insertions are the classic worst case for an unbalanced
    // search tree; the rotations must keep every node in balance.
    let mut btree = AvlTree::new();
    for i in 0..100u32 {
        btree.insert(Node::new(i, i as u64));
        assert!(btree.check_balanced());
    }
    for i in 0..100u32 {
        assert_eq!(i as u64, *(btree.get(i).unwrap()));
    }
    assert!(btree.get(100).is_none());
    assert!(btree.get(u32::MAX).is_none());
}

#[test]
fn avl_tree_get_mut_updates_value() {
    let mut btree = AvlTree::new();
    btree.insert(Node::new(7, 70u64));
    btree.insert(Node::new(3, 30u64));
    if let Some(v) = btree.get_mut(7) {
        *v = 700;
    }
    assert_eq!(&700, btree.get(7).unwrap());
    assert_eq!(&30, btree.get(3).unwrap());
    assert!(btree.get_mut(8).is_none());
}

#[test]
fn test_list() {
    let item = ListItem::create(1);
    assert_eq!(1, item.item);
    let mut list = LinkedList::new();
    list.push(item);
    let head: &u32 = list.head_mut().unwrap();
    assert_eq!(1, *head);
    let head = list.pop().unwrap();
    assert_eq!(1, head.item);
    assert!(list.is_empty());
}

#[test]
fn linked_list_test_iter() {
    let item1 = ListItem::create(9);
    let item2 = ListItem::create(1);
    let item3 = ListItem::create(3);
    let mut list = LinkedList::new();
    list.push(item1);
    list.push(item2);
    list.push(item3);
    let expected = [9, 1, 3];
    let mut it = list.iter();
    let mut i = 0;
    while let Some(item) = it.next() {
        assert_eq!(expected[i], *item);
        i += 1;
    }
    assert_eq!(3, i);
}

#[test]
fn test_join() {
    let mut list1 = LinkedList::new();
    let mut list2 = LinkedList::new();
    let item1 = ListItem::create(1);
    list1.push(item1);
    let item2 = ListItem::create(3);
    list1.push(item2);
    let item3 = ListItem::create(5);
    list1.push(item3);
    let item4 = ListItem::create(2);
    list1.push(item4);
    let item5 = ListItem::create(4);
    list1.push(item5);
    list1.join(&mut list2);
    assert!(list2.is_empty());
    let item = list1.pop().unwrap();
    assert_eq!(1, item.item);
    let item = list1.pop().unwrap();
    assert_eq!(3, item.item);
    let item = list1.pop().unwrap();
    assert_eq!(5, item.item);
    let item = list1.pop().unwrap();
    assert_eq!(2, item.item);
    let item = list1.pop().unwrap();
    assert_eq!(4, item.item);
    assert!(list1.is_empty());
}

#[test]
fn linked_list_join_nonempty_pair() {
    let mut list1 = LinkedList::new();
    let mut list2 = LinkedList::new();
    list1.push(ListItem::create(10u32));
    list2.push(ListItem::create(20u32));
    list2.push(ListItem::create(30u32));
    list1.join(&mut list2);
    assert!(list2.is_empty());
    assert_eq!(3, list1.len());
    assert_eq!(10, list1.pop().unwrap().item);
    assert_eq!(20, list1.pop().unwrap().item);
    assert_eq!(30, list1.pop().unwrap().item);
}

#[test]
fn rb_tree_test_simple() {
    let mut rbtree = RbTree::new();
    assert!(rbtree.get(0).is_none());
    let node1 = RbNode::new(1, "hello");
    rbtree.insert(node1);
    assert_eq!(rbtree.get(1).unwrap(), &"hello");
    let node2 = RbNode::new(2, "world");
    rbtree.insert(node2);
    assert_eq!(rbtree.get(1).unwrap(), &"hello");
    assert_eq!(rbtree.get(2).unwrap(), &"world");
}
