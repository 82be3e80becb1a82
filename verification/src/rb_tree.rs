//! A second, simpler ordered map: a plain binary search tree whose nodes
//! carry the colour bookkeeping of a red-black tree.  No rebalancing is
//! performed yet; lookups and insertion are verified against the map view.

use vstd::prelude::*;

verus! {

enum Color {
    RED,
    BLACK,
}

/// One tree node: a `(key, value)` pair, a colour, and two subtrees.
pub struct Node<V> {
    key: u32,
    value: V,
    color: Color,
    left: Option<Box<Node<V>>>,
    right: Option<Box<Node<V>>>,
}

impl<V> Node<V> {
    /// The key this node holds.
    pub closed spec fn spec_key(self) -> u32 {
        self.key
    }

    /// The value this node holds.
    pub closed spec fn spec_value(self) -> V {
        self.value
    }

    /// A detached node, coloured red as every fresh insertion is.
    pub fn new(key: u32, value: V) -> (r: Node<V>)
        ensures
            r.spec_key() == key,
            r.spec_value() == value,
    {
        Node { key, value, color: Color::RED, left: None, right: None }
    }

    pub closed spec fn opt_as_map(node_opt: Option<Box<Node<V>>>) -> Map<u32, V>
        decreases node_opt,
    {
        match node_opt {
            None => Map::empty(),
            Some(node) => node.as_map(),
        }
    }

    pub closed spec fn as_map(self) -> Map<u32, V>
        decreases self,
    {
        Node::<V>::opt_as_map(self.left).union_prefer_right(
            Node::<V>::opt_as_map(self.right),
        ).insert(self.key, self.value)
    }

    /// The binary-search ordering, everywhere.
    pub closed spec fn well_formed(self) -> bool
        decreases self,
    {
        &&& (forall|elem|
            Node::<V>::opt_as_map(self.left).dom().contains(elem) ==> elem < self.key)
        &&& (forall|elem|
            Node::<V>::opt_as_map(self.right).dom().contains(elem) ==> elem > self.key)
        &&& (match self.left {
            Some(left_node) => left_node.well_formed(),
            None => true,
        })
        &&& (match self.right {
            Some(right_node) => right_node.well_formed(),
            None => true,
        })
    }

    pub closed spec fn opt_well_formed(node_opt: Option<Box<Node<V>>>) -> bool {
        match node_opt {
            None => true,
            Some(node) => node.well_formed(),
        }
    }

    fn get_from_optional(node: &Option<Box<Node<V>>>, key: u32) -> (r: Option<&V>)
        requires
            Node::<V>::opt_well_formed(*node),
        ensures
            Node::<V>::opt_as_map(*node).dom().contains(key) ==> (r matches Some(v) && *v
                == Node::<V>::opt_as_map(*node)[key]),
            !Node::<V>::opt_as_map(*node).dom().contains(key) ==> r is None,
        decreases node,
    {
        match node {
            None => None,
            Some(b) => {
                if key == b.key {
                    Some(&b.value)
                } else if key < b.key {
                    proof {
                        assert(!Node::<V>::opt_as_map(b.right).dom().contains(key));
                    }
                    Self::get_from_optional(&b.left, key)
                } else {
                    proof {
                        assert(!Node::<V>::opt_as_map(b.left).dom().contains(key));
                    }
                    Self::get_from_optional(&b.right, key)
                }
            }
        }
    }

    fn insert_into_optional(node: &mut Option<Box<Node<V>>>, ins: Node<V>)
        requires
            Node::<V>::opt_well_formed(*old(node)),
            !Node::<V>::opt_as_map(*old(node)).dom().contains(ins.spec_key()),
            ins.left is None,
            ins.right is None,
        ensures
            Node::<V>::opt_well_formed(*final(node)),
            Node::<V>::opt_as_map(*final(node)) == Node::<V>::opt_as_map(*old(node)).insert(
                ins.spec_key(),
                ins.spec_value(),
            ),
        decreases *old(node),
    {
        let taken = node.take();
        match taken {
            None => {
                proof {
                    assert(ins.as_map() =~= Map::<u32, V>::empty().insert(
                        ins.spec_key(),
                        ins.spec_value(),
                    ));
                }
                *node = Some(Box::new(ins));
            }
            Some(mut b) => {
                proof {
                    assert(b.as_map().dom().contains(b.key));
                    assert(ins.spec_key() != b.key);
                }
                if ins.key < b.key {
                    proof {
                        assert(!Node::<V>::opt_as_map(b.left).dom().contains(ins.spec_key())) by {
                            if Node::<V>::opt_as_map(b.left).dom().contains(ins.spec_key()) {
                                assert(b.as_map().dom().contains(ins.spec_key()));
                            }
                        }
                    }
                    Self::insert_into_optional(&mut b.left, ins);
                } else {
                    proof {
                        assert(!Node::<V>::opt_as_map(b.right).dom().contains(ins.spec_key())) by {
                            if Node::<V>::opt_as_map(b.right).dom().contains(ins.spec_key()) {
                                assert(b.as_map().dom().contains(ins.spec_key()));
                            }
                        }
                    }
                    Self::insert_into_optional(&mut b.right, ins);
                }
                proof {
                    assert(b.as_map() =~= Node::<V>::opt_as_map(*old(node)).insert(
                        ins.spec_key(),
                        ins.spec_value(),
                    ));
                }
                *node = Some(b);
            }
        }
    }
}

/// The tree itself; the root is recoloured black on first insertion.
pub struct RbTree<V> {
    head: Option<Box<Node<V>>>,
}

impl<V> View for RbTree<V> {
    type V = Map<u32, V>;

    closed spec fn view(&self) -> Map<u32, V> {
        Node::<V>::opt_as_map(self.head)
    }
}

impl<V> RbTree<V> {
    /// The binary-search ordering holds everywhere.
    pub closed spec fn well_formed(self) -> bool {
        Node::<V>::opt_well_formed(self.head)
    }

    /// An empty map.
    pub fn new() -> (r: RbTree<V>)
        ensures
            r@ == Map::<u32, V>::empty(),
            r.well_formed(),
    {
        RbTree { head: None }
    }

    /// Resolves a key to its value; a key never inserted yields `None`.
    pub fn get(&self, key: u32) -> (r: Option<&V>)
        requires
            self.well_formed(),
        ensures
            self@.dom().contains(key) ==> (r matches Some(v) && *v == self@[key]),
            !self@.dom().contains(key) ==> r is None,
    {
        Node::<V>::get_from_optional(&self.head, key)
    }

    /// Adds a new entry, carried in by a detached node.  The key must be
    /// fresh.
    pub fn insert(&mut self, node: Node<V>)
        requires
            old(self).well_formed(),
            !old(self)@.dom().contains(node.spec_key()),
        ensures
            final(self).well_formed(),
            final(self)@ == old(self)@.insert(node.spec_key(), node.spec_value()),
    {
        let mut node = node;
        node.left = None;
        node.right = None;
        if self.head.is_none() {
            node.color = Color::BLACK;
        }
        Node::<V>::insert_into_optional(&mut self.head, node);
    }
}

} // verus!
