//! The process table's ordered map: a height-balanced binary search tree
//! from 32-bit keys to values.
//!
//! The tree is viewed as a `Map<u32, V>`.  Well-formedness is the search
//! ordering together with correct cached heights; `balanced` states the
//! height-balance invariant that every insertion re-establishes by single or
//! double rotations.

use vstd::prelude::*;
use crate::binary_tree::BinaryTree;

verus! {

/// One tree node, holding a `(key, value)` pair, its subtrees and its cached
/// subtree height (a leaf has height 1).
pub struct Node<V> {
    item: (u32, V),
    left: Option<Box<Node<V>>>,
    right: Option<Box<Node<V>>>,
    height: usize,
}

impl<V> Node<V> {
    /// The key this node holds.
    pub closed spec fn key(self) -> u32 {
        self.item.0
    }

    /// The value this node holds.
    pub closed spec fn value(self) -> V {
        self.item.1
    }

    /// A detached leaf, ready to be inserted.
    pub fn new(key: u32, value: V) -> (r: Node<V>)
        ensures
            r.key() == key,
            r.value() == value,
            r.as_map() == Map::<u32, V>::empty().insert(key, value),
            r.well_formed(),
            r.balanced(),
            r.spec_height() == 1,
    {
        let r = Node { item: (key, value), left: None, right: None, height: 1 };
        proof {
            assert(r.as_map() =~= Map::<u32, V>::empty().insert(key, value));
        }
        r
    }

    /// Surrenders the node's value, discarding the key.
    pub fn into_value(self) -> (r: V)
        ensures
            r == self.value(),
    {
        self.item.1
    }

    pub closed spec fn opt_as_map(node_opt: Option<Box<Node<V>>>) -> Map<u32, V>
        decreases node_opt,
    {
        match node_opt {
            None => Map::empty(),
            Some(node) => node.as_map(),
        }
    }

    pub closed spec fn as_map(self) -> Map<u32, V>
        decreases self,
    {
        Node::<V>::opt_as_map(self.left).union_prefer_right(
            Node::<V>::opt_as_map(self.right),
        ).insert(self.item.0, self.item.1)
    }

    /// Height of an optional subtree; an absent subtree has height 0.
    pub closed spec fn opt_height(node_opt: Option<Box<Node<V>>>) -> nat
        decreases node_opt,
    {
        match node_opt {
            None => 0,
            Some(node) => node.spec_height(),
        }
    }

    pub closed spec fn spec_height(self) -> nat
        decreases self,
    {
        1 + if Node::<V>::opt_height(self.left) >= Node::<V>::opt_height(self.right) {
            Node::<V>::opt_height(self.left)
        } else {
            Node::<V>::opt_height(self.right)
        }
    }

    /// Search ordering everywhere, and correct cached heights everywhere
    /// below this node; this node's own cache is not constrained.  This is
    /// the state between rebuilding a subtree and refreshing the cache.
    pub closed spec fn wf_except_height(self) -> bool
        decreases self, 0int,
    {
        &&& (forall|elem|
            Node::<V>::opt_as_map(self.left).dom().contains(elem) ==> elem < self.item.0)
        &&& (forall|elem|
            Node::<V>::opt_as_map(self.right).dom().contains(elem) ==> elem > self.item.0)
        &&& Node::<V>::opt_well_formed(self.left)
        &&& Node::<V>::opt_well_formed(self.right)
    }

    /// Search ordering plus correct cached heights, everywhere.
    pub closed spec fn well_formed(self) -> bool
        decreases self, 1int,
    {
        self.wf_except_height() && self.height == self.spec_height()
    }

    /// Sibling subtree heights differ by at most one, everywhere.
    pub closed spec fn balanced(self) -> bool
        decreases self,
    {
        &&& Node::<V>::opt_height(self.left) <= Node::<V>::opt_height(self.right) + 1
        &&& Node::<V>::opt_height(self.right) <= Node::<V>::opt_height(self.left) + 1
        &&& (match self.left {
            Some(left_node) => left_node.balanced(),
            None => true,
        })
        &&& (match self.right {
            Some(right_node) => right_node.balanced(),
            None => true,
        })
    }

    pub closed spec fn opt_well_formed(node_opt: Option<Box<Node<V>>>) -> bool
        decreases node_opt, 2int,
    {
        match node_opt {
            None => true,
            Some(node) => node.well_formed(),
        }
    }

    pub closed spec fn opt_balanced(node_opt: Option<Box<Node<V>>>) -> bool {
        match node_opt {
            None => true,
            Some(node) => node.balanced(),
        }
    }

    /// Number of nodes in an optional subtree.
    pub closed spec fn opt_size(node_opt: Option<Box<Node<V>>>) -> nat
        decreases node_opt, 1int,
    {
        match node_opt {
            None => 0,
            Some(node) => node.spec_node_size(),
        }
    }

    /// Number of nodes in the subtree rooted here.
    pub closed spec fn spec_node_size(self) -> nat
        decreases self, 0int,
    {
        1 + Node::<V>::opt_size(self.left) + Node::<V>::opt_size(self.right)
    }

    /// Recomputes this node's cached height from its children's caches; the
    /// bottom-up refresh performed after a subtree has been rebuilt.
    fn update_height(&mut self)
        requires
            Node::<V>::opt_well_formed(old(self).left),
            Node::<V>::opt_well_formed(old(self).right),
            old(self).spec_height() <= usize::MAX,
        ensures
            final(self).item == old(self).item,
            final(self).left == old(self).left,
            final(self).right == old(self).right,
            final(self).height == final(self).spec_height(),
    {
        let lh: usize = match &self.left {
            Some(l) => l.height,
            None => 0,
        };
        let rh: usize = match &self.right {
            Some(r) => r.height,
            None => 0,
        };
        self.height = 1 + if lh >= rh {
            lh
        } else {
            rh
        };
    }

    /// A rotation reassociates the three subtree maps around the two keys
    /// without changing the entries: both groupings denote the same map.
    proof fn lemma_rotate_reassoc(
        ll: Map<u32, V>,
        mid: Map<u32, V>,
        rt: Map<u32, V>,
        lk: u32,
        lv: V,
        rk: u32,
        rv: V,
    )
        requires
            lk != rk,
            !rt.contains_key(lk),
        ensures
            ll.union_prefer_right(mid.union_prefer_right(rt).insert(rk, rv)).insert(lk, lv)
                == ll.union_prefer_right(mid).insert(lk, lv).union_prefer_right(rt).insert(rk, rv),
    {
        let a = ll.union_prefer_right(mid.union_prefer_right(rt).insert(rk, rv)).insert(lk, lv);
        let b = ll.union_prefer_right(mid).insert(lk, lv).union_prefer_right(rt).insert(rk, rv);
        assert(a =~= b);
    }

    /// Right rotation: the left child becomes the root of this subtree.
    /// Entries, ordering and cached heights are preserved; only the shape
    /// changes.  Does nothing and reports failure when no left child exists.
    fn rotate_right(&mut self) -> (r: bool)
        requires
            old(self).wf_except_height(),
            old(self).spec_height() < usize::MAX,
        ensures
            old(self).left is None ==> r == false && *final(self) == *old(self),
            old(self).left matches Some(l) ==> (r == true && final(self).item == l.item
                && final(self).left == l.left && (final(self).right matches Some(nr)
                && nr.item == old(self).item && nr.left == l.right && nr.right == old(
                self,
            ).right) && final(self).well_formed() && final(self).as_map() == old(self).as_map()
                && final(self).spec_node_size() == old(self).spec_node_size()),
    {
        if self.left.is_none() {
            return false;
        }
        let taken = self.left.take();
        let mut l = match taken {
            Some(l) => l,
            None => {
                proof {
                    assert(false);
                }
                return false;
            }
        };
        core::mem::swap(&mut *l, self);
        // *self is now the old left child; *l is the old root, left detached.
        let lr = self.right.take();
        l.left = lr;
        proof {
            let lb = *old(self).left.unwrap();
            assert(lb.well_formed());
            assert(l.left == lb.right);
            assert(l.right == old(self).right);
            assert(Node::<V>::opt_well_formed(l.left));
            assert(Node::<V>::opt_well_formed(l.right));
            assert(l.spec_height() <= old(self).spec_height());
        }
        l.update_height();
        proof {
            let lb = *old(self).left.unwrap();
            // The old root keeps its ordering: everything in the left child's
            // old right subtree lies between the two keys.
            assert forall|elem: u32| Node::<V>::opt_as_map(l.left).dom().contains(elem)
                implies elem < l.item.0 by {
                assert(lb.as_map().dom().contains(elem));
                assert(Node::<V>::opt_as_map(old(self).left).dom().contains(elem));
            }
            assert(l.well_formed());
        }
        self.right = Some(l);
        proof {
            let lb = *old(self).left.unwrap();
            assert(Node::<V>::opt_as_map(old(self).left) == lb.as_map());
            assert(Node::<V>::opt_as_map(old(self).left).dom().contains(lb.item.0));
            assert(lb.item.0 < old(self).item.0);
            assert forall|elem: u32| Node::<V>::opt_as_map(self.right).dom().contains(elem)
                implies elem > self.item.0 by {
                if elem != old(self).item.0 {
                    if Node::<V>::opt_as_map(lb.right).dom().contains(elem) {
                        assert(lb.as_map().dom().contains(elem));
                    } else {
                        assert(Node::<V>::opt_as_map(old(self).right).dom().contains(elem));
                        assert(elem > old(self).item.0);
                    }
                }
            }
            assert(Node::<V>::opt_well_formed(self.left));
            assert(self.spec_height() <= old(self).spec_height() + 1);
        }
        self.update_height();
        proof {
            let lb = *old(self).left.unwrap();
            assert(self.wf_except_height());
            assert(self.well_formed());
            // Same entries before and after: both sides are the three subtree
            // maps plus the two keys, reassociated.
            let ll = Node::<V>::opt_as_map(lb.left);
            let mid = Node::<V>::opt_as_map(lb.right);
            let rt = Node::<V>::opt_as_map(old(self).right);
            assert(!rt.contains_key(lb.item.0));
            Node::<V>::lemma_rotate_reassoc(
                ll,
                mid,
                rt,
                lb.item.0,
                lb.item.1,
                old(self).item.0,
                old(self).item.1,
            );
            let nr = *self.right.unwrap();
            assert(nr.as_map() == mid.union_prefer_right(rt).insert(
                old(self).item.0,
                old(self).item.1,
            ));
            assert(self.as_map() == ll.union_prefer_right(nr.as_map()).insert(
                lb.item.0,
                lb.item.1,
            ));
            assert(old(self).as_map() == lb.as_map().union_prefer_right(rt).insert(
                old(self).item.0,
                old(self).item.1,
            ));
            assert(self.as_map() == old(self).as_map());
            assert(Node::<V>::opt_size(self.right) == nr.spec_node_size());
            assert(Node::<V>::opt_size(old(self).left) == lb.spec_node_size());
            assert(self.spec_node_size() == old(self).spec_node_size());
        }
        true
    }

    /// Left rotation: the mirror image of `rotate_right`.
    fn rotate_left(&mut self) -> (r: bool)
        requires
            old(self).wf_except_height(),
            old(self).spec_height() < usize::MAX,
        ensures
            old(self).right is None ==> r == false && *final(self) == *old(self),
            old(self).right matches Some(l) ==> (r == true && final(self).item == l.item
                && final(self).right == l.right && (final(self).left matches Some(nr)
                && nr.item == old(self).item && nr.right == l.left && nr.left == old(
                self,
            ).left) && final(self).well_formed() && final(self).as_map() == old(self).as_map()
                && final(self).spec_node_size() == old(self).spec_node_size()),
    {
        if self.right.is_none() {
            return false;
        }
        let taken = self.right.take();
        let mut l = match taken {
            Some(l) => l,
            None => {
                proof {
                    assert(false);
                }
                return false;
            }
        };
        core::mem::swap(&mut *l, self);
        // *self is now the old right child; *l is the old root, right detached.
        let rl = self.left.take();
        l.right = rl;
        proof {
            let rb = *old(self).right.unwrap();
            assert(rb.well_formed());
            assert(l.right == rb.left);
            assert(l.left == old(self).left);
            assert(Node::<V>::opt_well_formed(l.left));
            assert(Node::<V>::opt_well_formed(l.right));
            assert(l.spec_height() <= old(self).spec_height());
        }
        l.update_height();
        proof {
            let rb = *old(self).right.unwrap();
            assert forall|elem: u32| Node::<V>::opt_as_map(l.right).dom().contains(elem)
                implies elem > l.item.0 by {
                assert(rb.as_map().dom().contains(elem));
                assert(Node::<V>::opt_as_map(old(self).right).dom().contains(elem));
            }
            assert(l.well_formed());
        }
        self.left = Some(l);
        proof {
            let rb = *old(self).right.unwrap();
            assert(Node::<V>::opt_as_map(old(self).right) == rb.as_map());
            assert(Node::<V>::opt_as_map(old(self).right).dom().contains(rb.item.0));
            assert(rb.item.0 > old(self).item.0);
            assert forall|elem: u32| Node::<V>::opt_as_map(self.left).dom().contains(elem)
                implies elem < self.item.0 by {
                if elem != old(self).item.0 {
                    if Node::<V>::opt_as_map(rb.left).dom().contains(elem) {
                        assert(rb.as_map().dom().contains(elem));
                    } else {
                        assert(Node::<V>::opt_as_map(old(self).left).dom().contains(elem));
                        assert(elem < old(self).item.0);
                    }
                }
            }
            assert(Node::<V>::opt_well_formed(self.right));
            assert(self.spec_height() <= old(self).spec_height() + 1);
        }
        self.update_height();
        proof {
            let rb = *old(self).right.unwrap();
            assert(self.wf_except_height());
            assert(self.well_formed());
            let ll = Node::<V>::opt_as_map(old(self).left);
            let mid = Node::<V>::opt_as_map(rb.left);
            let rr = Node::<V>::opt_as_map(rb.right);
            assert(!rr.contains_key(old(self).item.0)) by {
                if rr.contains_key(old(self).item.0) {
                    assert(rb.as_map().dom().contains(old(self).item.0));
                    assert(Node::<V>::opt_as_map(old(self).right).dom().contains(
                        old(self).item.0,
                    ));
                }
            }
            Node::<V>::lemma_rotate_reassoc(
                ll,
                mid,
                rr,
                old(self).item.0,
                old(self).item.1,
                rb.item.0,
                rb.item.1,
            );
            let nl = *self.left.unwrap();
            assert(nl.as_map() == ll.union_prefer_right(mid).insert(
                old(self).item.0,
                old(self).item.1,
            ));
            assert(self.as_map() == nl.as_map().union_prefer_right(rr).insert(
                rb.item.0,
                rb.item.1,
            ));
            assert(old(self).as_map() == ll.union_prefer_right(rb.as_map()).insert(
                old(self).item.0,
                old(self).item.1,
            ));
            assert(rb.as_map() == mid.union_prefer_right(rr).insert(rb.item.0, rb.item.1));
            assert(self.as_map() == old(self).as_map());
            assert(Node::<V>::opt_size(self.left) == nl.spec_node_size());
            assert(Node::<V>::opt_size(old(self).right) == rb.spec_node_size());
            assert(self.spec_node_size() == old(self).spec_node_size());
        }
        true
    }

    /// Restores the height balance at this node after one subtree has grown
    /// or shrunk by one: if the subtree heights differ by two, a single or
    /// double rotation (double when the heavier child leans the opposite
    /// way) re-establishes the invariant.  Already-balanced nodes are left
    /// untouched.
    #[verifier::rlimit(100)]
    fn rebalance(&mut self)
        requires
            old(self).well_formed(),
            Node::<V>::opt_balanced(old(self).left),
            Node::<V>::opt_balanced(old(self).right),
            Node::<V>::opt_height(old(self).left) <= Node::<V>::opt_height(old(self).right) + 2,
            Node::<V>::opt_height(old(self).right) <= Node::<V>::opt_height(old(self).left) + 2,
            old(self).spec_height() < usize::MAX,
        ensures
            final(self).well_formed(),
            final(self).balanced(),
            final(self).as_map() == old(self).as_map(),
            final(self).spec_node_size() == old(self).spec_node_size(),
            final(self).spec_height() <= old(self).spec_height(),
            old(self).spec_height() <= final(self).spec_height() + 1,
            (Node::<V>::opt_height(old(self).left) <= Node::<V>::opt_height(old(self).right) + 1
                && Node::<V>::opt_height(old(self).right) <= Node::<V>::opt_height(old(self).left)
                + 1) ==> *final(self) == *old(self),
    {
        let lh: usize = match &self.left {
            Some(l) => l.height,
            None => 0,
        };
        let rh: usize = match &self.right {
            Some(r) => r.height,
            None => 0,
        };
        proof {
            if old(self).left is Some {
                assert(old(self).left.unwrap().well_formed());
            }
            if old(self).right is Some {
                assert(old(self).right.unwrap().well_formed());
            }
            assert(lh == Node::<V>::opt_height(old(self).left));
            assert(rh == Node::<V>::opt_height(old(self).right));
            assert(lh + 1 <= old(self).spec_height());
            assert(rh + 1 <= old(self).spec_height());
        }
        if lh >= rh + 2 {
            let taken = self.left.take();
            let mut lchild = match taken {
                Some(b) => b,
                None => {
                    proof {
                        assert(false);
                    }
                    return ;
                }
            };
            let llh: usize = match &lchild.left {
                Some(x) => x.height,
                None => 0,
            };
            let lrh: usize = match &lchild.right {
                Some(x) => x.height,
                None => 0,
            };
            proof {
                assert(lchild.well_formed());
                assert(lchild.balanced());
                if lchild.left is Some {
                    assert(lchild.left.unwrap().well_formed());
                }
                if lchild.right is Some {
                    assert(lchild.right.unwrap().well_formed());
                }
                assert(llh == Node::<V>::opt_height(lchild.left));
                assert(lrh == Node::<V>::opt_height(lchild.right));
                assert(lchild.spec_height() == lh);
            }
            if llh < lrh {
                // The heavy child leans the opposite way: double rotation.
                proof {
                    assert(lchild.right is Some);
                    let lr = *lchild.right.unwrap();
                    assert(lr.well_formed());
                    assert(lr.balanced());
                    assert(llh + 1 == lrh);
                    assert(Node::<V>::opt_height(lr.left) + 1 <= lrh);
                    assert(Node::<V>::opt_height(lr.right) + 1 <= lrh);
                    assert(Node::<V>::opt_height(lr.left) + 2 >= lrh
                        || Node::<V>::opt_height(lr.right) + 2 >= lrh);
                }
                lchild.rotate_left();
                proof {
                    let nl = *lchild.left.unwrap();
                    assert(nl.well_formed());
                    assert(nl.spec_height() == lrh);
                    assert(lchild.spec_height() == lh);
                    assert(Node::<V>::opt_height(lchild.left) + 1 == lh);
                    assert(Node::<V>::opt_height(lchild.right) + 1 <= lh);
                    assert(Node::<V>::opt_height(lchild.right) + 3 >= lh);
                    assert(Node::<V>::opt_balanced(lchild.left));
                    assert(Node::<V>::opt_balanced(lchild.right));
                }
            } else {
                proof {
                    assert(Node::<V>::opt_height(lchild.left) + 1 == lh);
                    assert(Node::<V>::opt_height(lchild.right) + 1 <= lh);
                    assert(Node::<V>::opt_height(lchild.right) + 3 >= lh);
                    assert(Node::<V>::opt_balanced(lchild.left));
                    assert(Node::<V>::opt_balanced(lchild.right));
                }
            }
            self.left = Some(lchild);
            proof {
                let lb = *self.left.unwrap();
                assert(lb.well_formed());
                assert(lb.as_map() == Node::<V>::opt_as_map(old(self).left));
                assert forall|elem: u32| Node::<V>::opt_as_map(self.left).dom().contains(elem)
                    implies elem < self.item.0 by {
                    assert(Node::<V>::opt_as_map(old(self).left).dom().contains(elem));
                }
                assert(self.wf_except_height());
                assert(self.spec_height() == old(self).spec_height());
            }
            self.rotate_right();
            proof {
                let nr = *self.right.unwrap();
                assert(nr.well_formed());
                assert(Node::<V>::opt_height(nr.left) + 1 <= lh);
                assert(Node::<V>::opt_height(nr.left) + 3 >= lh);
                assert(nr.right == old(self).right);
                assert(nr.spec_height() + 1 <= lh + 1);
                assert(nr.spec_height() + 1 >= lh);
                assert(nr.balanced());
                assert(Node::<V>::opt_height(self.left) + 1 == lh);
                assert(self.balanced());
                assert(self.spec_height() <= old(self).spec_height());
                assert(old(self).spec_height() <= self.spec_height() + 1);
            }
        } else if rh >= lh + 2 {
            let taken = self.right.take();
            let mut rchild = match taken {
                Some(b) => b,
                None => {
                    proof {
                        assert(false);
                    }
                    return ;
                }
            };
            let rlh: usize = match &rchild.left {
                Some(x) => x.height,
                None => 0,
            };
            let rrh: usize = match &rchild.right {
                Some(x) => x.height,
                None => 0,
            };
            proof {
                assert(rchild.well_formed());
                assert(rchild.balanced());
                if rchild.left is Some {
                    assert(rchild.left.unwrap().well_formed());
                }
                if rchild.right is Some {
                    assert(rchild.right.unwrap().well_formed());
                }
                assert(rlh == Node::<V>::opt_height(rchild.left));
                assert(rrh == Node::<V>::opt_height(rchild.right));
                assert(rchild.spec_height() == rh);
            }
            if rrh < rlh {
                // The heavy child leans the opposite way: double rotation.
                proof {
                    assert(rchild.left is Some);
                    let rl = *rchild.left.unwrap();
                    assert(rl.well_formed());
                    assert(rl.balanced());
                    assert(rrh + 1 == rlh);
                    assert(Node::<V>::opt_height(rl.left) + 1 <= rlh);
                    assert(Node::<V>::opt_height(rl.right) + 1 <= rlh);
                    assert(Node::<V>::opt_height(rl.left) + 2 >= rlh
                        || Node::<V>::opt_height(rl.right) + 2 >= rlh);
                }
                rchild.rotate_right();
                proof {
                    let nr = *rchild.right.unwrap();
                    assert(nr.well_formed());
                    assert(nr.spec_height() == rlh);
                    assert(rchild.spec_height() == rh);
                    assert(Node::<V>::opt_height(rchild.right) + 1 == rh);
                    assert(Node::<V>::opt_height(rchild.left) + 1 <= rh);
                    assert(Node::<V>::opt_height(rchild.left) + 3 >= rh);
                    assert(Node::<V>::opt_balanced(rchild.left));
                    assert(Node::<V>::opt_balanced(rchild.right));
                }
            } else {
                proof {
                    assert(Node::<V>::opt_height(rchild.right) + 1 == rh);
                    assert(Node::<V>::opt_height(rchild.left) + 1 <= rh);
                    assert(Node::<V>::opt_height(rchild.left) + 3 >= rh);
                    assert(Node::<V>::opt_balanced(rchild.left));
                    assert(Node::<V>::opt_balanced(rchild.right));
                }
            }
            self.right = Some(rchild);
            proof {
                let rb = *self.right.unwrap();
                assert(rb.well_formed());
                assert(rb.as_map() == Node::<V>::opt_as_map(old(self).right));
                assert forall|elem: u32| Node::<V>::opt_as_map(self.right).dom().contains(elem)
                    implies elem > self.item.0 by {
                    assert(Node::<V>::opt_as_map(old(self).right).dom().contains(elem));
                }
                assert(self.wf_except_height());
                assert(self.spec_height() == old(self).spec_height());
            }
            self.rotate_left();
            proof {
                let nl = *self.left.unwrap();
                assert(nl.well_formed());
                assert(Node::<V>::opt_height(nl.right) + 1 <= rh);
                assert(Node::<V>::opt_height(nl.right) + 3 >= rh);
                assert(nl.left == old(self).left);
                assert(nl.spec_height() + 1 <= rh + 1);
                assert(nl.spec_height() + 1 >= rh);
                assert(nl.balanced());
                assert(Node::<V>::opt_height(self.right) + 1 == rh);
                assert(self.balanced());
                assert(self.spec_height() <= old(self).spec_height());
                assert(old(self).spec_height() <= self.spec_height() + 1);
            }
        }
    }

    /// Any subtree has at least as many nodes as its height.
    proof fn lemma_opt_height_le_size(node_opt: Option<Box<Node<V>>>)
        ensures
            Node::<V>::opt_height(node_opt) <= Node::<V>::opt_size(node_opt),
        decreases node_opt,
    {
        match node_opt {
            None => {}
            Some(node) => {
                Self::lemma_opt_height_le_size(node.left);
                Self::lemma_opt_height_le_size(node.right);
            }
        }
    }

    /// Recursive insertion of a fresh key, rebalancing on the way back up;
    /// the subtree's height grows by at most one.
    fn insert_into_optional(node: &mut Option<Box<Node<V>>>, key: u32, value: V)
        requires
            Node::<V>::opt_well_formed(*old(node)),
            Node::<V>::opt_balanced(*old(node)),
            !Node::<V>::opt_as_map(*old(node)).dom().contains(key),
            Node::<V>::opt_height(*old(node)) + 2 <= usize::MAX,
        ensures
            Node::<V>::opt_well_formed(*final(node)),
            Node::<V>::opt_balanced(*final(node)),
            Node::<V>::opt_as_map(*final(node)) == Node::<V>::opt_as_map(*old(node)).insert(
                key,
                value,
            ),
            Node::<V>::opt_height(*old(node)) <= Node::<V>::opt_height(*final(node)),
            Node::<V>::opt_height(*final(node)) <= Node::<V>::opt_height(*old(node)) + 1,
            Node::<V>::opt_size(*final(node)) == Node::<V>::opt_size(*old(node)) + 1,
        decreases *old(node),
    {
        let taken = node.take();
        match taken {
            None => {
                *node = Some(Box::new(Node {
                    item: (key, value),
                    left: None,
                    right: None,
                    height: 1,
                }));
                proof {
                    assert(Node::<V>::opt_as_map(*node) =~= Node::<V>::opt_as_map(
                        *old(node),
                    ).insert(key, value));
                }
            }
            Some(mut b) => {
                proof {
                    assert(b.well_formed());
                    assert(b.as_map().dom().contains(b.item.0));
                    assert(key != b.item.0);
                }
                if key < b.item.0 {
                    proof {
                        assert(!Node::<V>::opt_as_map(b.left).dom().contains(key)) by {
                            if Node::<V>::opt_as_map(b.left).dom().contains(key) {
                                assert(b.as_map().dom().contains(key));
                            }
                        }
                    }
                    Self::insert_into_optional(&mut b.left, key, value);
                } else {
                    proof {
                        assert(!Node::<V>::opt_as_map(b.right).dom().contains(key)) by {
                            if Node::<V>::opt_as_map(b.right).dom().contains(key) {
                                assert(b.as_map().dom().contains(key));
                            }
                        }
                    }
                    Self::insert_into_optional(&mut b.right, key, value);
                }
                b.update_height();
                proof {
                    assert(b.well_formed());
                    assert(b.as_map() =~= Node::<V>::opt_as_map(*old(node)).insert(key, value));
                }
                b.rebalance();
                *node = Some(b);
            }
        }
    }

    fn get_mut_from_optional(node: &mut Option<Box<Node<V>>>, key: u32) -> (r: Option<&mut V>)
        requires
            Node::<V>::opt_well_formed(*old(node)),
        ensures
            !Node::<V>::opt_as_map(*old(node)).dom().contains(key) ==> r is None && *final(node)
                == *old(node),
            Node::<V>::opt_as_map(*old(node)).dom().contains(key) ==> (r matches Some(v) && *v
                == Node::<V>::opt_as_map(*old(node))[key] && Node::<V>::opt_as_map(*final(node))
                == Node::<V>::opt_as_map(*old(node)).insert(key, *final(v))
                && Node::<V>::opt_well_formed(*final(node)) && Node::<V>::opt_height(*final(node))
                == Node::<V>::opt_height(*old(node)) && Node::<V>::opt_size(*final(node))
                == Node::<V>::opt_size(*old(node)) && (Node::<V>::opt_balanced(*old(node))
                ==> Node::<V>::opt_balanced(*final(node)))),
        decreases *old(node),
    {
        match node {
            None => None,
            Some(b) => {
                if key == b.item.0 {
                    proof {
                        assert(!Node::<V>::opt_as_map(b.left).dom().contains(key));
                        assert(!Node::<V>::opt_as_map(b.right).dom().contains(key));
                    }
                    Some(&mut b.item.1)
                } else if key < b.item.0 {
                    proof {
                        assert(!Node::<V>::opt_as_map(b.right).dom().contains(key));
                    }
                    Self::get_mut_from_optional(&mut b.left, key)
                } else {
                    proof {
                        assert(!Node::<V>::opt_as_map(b.left).dom().contains(key));
                    }
                    Self::get_mut_from_optional(&mut b.right, key)
                }
            }
        }
    }

    fn get(&self, key: u32) -> (r: Option<&V>)
        requires
            self.well_formed(),
        ensures
            self.as_map().dom().contains(key) ==> (r matches Some(v) && *v == self.as_map()[key]),
            !self.as_map().dom().contains(key) ==> r is None,
        decreases self,
    {
        if key == self.item.0 {
            Some(&self.item.1)
        } else if key < self.item.0 {
            proof {
                assert(!Node::<V>::opt_as_map(self.right).dom().contains(key));
            }
            Self::get_from_optional(&self.left, key)
        } else {
            proof {
                assert(!Node::<V>::opt_as_map(self.left).dom().contains(key));
            }
            Self::get_from_optional(&self.right, key)
        }
    }

    fn get_from_optional(node: &Option<Box<Node<V>>>, key: u32) -> (r: Option<&V>)
        requires
            Node::<V>::opt_well_formed(*node),
        ensures
            Node::<V>::opt_as_map(*node).dom().contains(key) ==> (r matches Some(v) && *v
                == Node::<V>::opt_as_map(*node)[key]),
            !Node::<V>::opt_as_map(*node).dom().contains(key) ==> r is None,
        decreases node,
    {
        match node {
            None => None,
            Some(node) => node.get(key),
        }
    }
}

/// The minimal node count of a height-balanced tree grows like a Fibonacci
/// number in the height; this is the source of the logarithmic height bound.
pub open spec fn fib(n: nat) -> nat
    decreases n,
{
    if n == 0 {
        0
    } else if n == 1 {
        1
    } else {
        fib((n - 1) as nat) + fib((n - 2) as nat)
    }
}

/// Fibonacci numbers are monotone.
pub proof fn lemma_fib_mono(a: nat, b: nat)
    requires
        a <= b,
    ensures
        fib(a) <= fib(b),
    decreases b - a,
{
    if a < b {
        lemma_fib_mono(a, (b - 1) as nat);
        if b >= 2 {
            assert(fib(b) == fib((b - 1) as nat) + fib((b - 2) as nat));
        } else {
            assert(b == 1 && a == 0);
        }
    }
}

impl<V> Node<V> {
    /// A height-balanced subtree of height `h` holds at least `fib(h + 2) - 1`
    /// nodes: the classical AVL minimal-size bound, which makes the height
    /// logarithmic in the number of entries.
    pub proof fn lemma_balanced_size(node_opt: Option<Box<Node<V>>>)
        requires
            Node::<V>::opt_well_formed(node_opt),
            Node::<V>::opt_balanced(node_opt),
        ensures
            fib(Node::<V>::opt_height(node_opt) + 2) <= Node::<V>::opt_size(node_opt) + 1,
        decreases node_opt,
    {
        match node_opt {
            None => {
                assert(fib(2) == fib(1) + fib(0));
            }
            Some(node) => {
                Self::lemma_balanced_size(node.left);
                Self::lemma_balanced_size(node.right);
                let h = node.spec_height();
                let hl = Node::<V>::opt_height(node.left);
                let hr = Node::<V>::opt_height(node.right);
                let sl = Node::<V>::opt_size(node.left);
                let sr = Node::<V>::opt_size(node.right);
                assert(Node::<V>::opt_size(node_opt) == 1 + sl + sr);
                assert(hl + 1 == h || hr + 1 == h);
                assert(hl + 2 >= h && hr + 2 >= h);
                assert(fib(h + 2) == fib(h + 1) + fib(h));
                if hl + 1 == h {
                    assert(fib(h + 1) == fib(hl + 2));
                    lemma_fib_mono(h, hr + 2);
                    assert(fib(h) <= fib(hr + 2));
                } else {
                    assert(fib(h + 1) == fib(hr + 2));
                    lemma_fib_mono(h, hl + 2);
                    assert(fib(h) <= fib(hl + 2));
                }
            }
        }
    }
}

impl<V> Node<V> {
    /// The in-order listing of a subtree's entries, keys ascending.
    pub closed spec fn opt_in_order(node_opt: Option<Box<Node<V>>>) -> Seq<(u32, V)>
        decreases node_opt,
    {
        match node_opt {
            None => Seq::empty(),
            Some(node) => Node::<V>::opt_in_order(node.left) + seq![(node.item.0, node.item.1)]
                + Node::<V>::opt_in_order(node.right),
        }
    }

    fn collect_in_order<'a>(node: &'a Option<Box<Node<V>>>, out: &mut Vec<(u32, &'a V)>)
        ensures
            final(out)@.len() == old(out)@.len() + Node::<V>::opt_in_order(*node).len(),
            forall|i: int| 0 <= i < old(out)@.len() ==> final(out)@[i] == old(out)@[i],
            forall|i: int|
                0 <= i < Node::<V>::opt_in_order(*node).len() ==> (final(out)@[old(out)@.len()
                    + i].0 == Node::<V>::opt_in_order(*node)[i].0 && *final(out)@[old(out)@.len()
                    + i].1 == Node::<V>::opt_in_order(*node)[i].1),
        decreases node,
    {
        match node {
            None => {}
            Some(b) => {
                Self::collect_in_order(&b.left, out);
                out.push((b.item.0, &b.item.1));
                Self::collect_in_order(&b.right, out);
            }
        }
    }

    /// The in-order listing is faithful: one entry per node, keys strictly
    /// ascending, and each entry is exactly the map's entry for its key.
    proof fn lemma_opt_in_order_props(node_opt: Option<Box<Node<V>>>)
        requires
            Node::<V>::opt_well_formed(node_opt),
        ensures
            Node::<V>::opt_in_order(node_opt).len() == Node::<V>::opt_size(node_opt),
            forall|i: int|
                #![trigger Node::<V>::opt_in_order(node_opt)[i]]
                0 <= i < Node::<V>::opt_in_order(node_opt).len() ==> Node::<V>::opt_as_map(
                    node_opt,
                ).contains_key(Node::<V>::opt_in_order(node_opt)[i].0) && Node::<V>::opt_as_map(
                    node_opt,
                )[Node::<V>::opt_in_order(node_opt)[i].0] == Node::<V>::opt_in_order(node_opt)[i].1,
            forall|i: int, j: int|
                0 <= i < j < Node::<V>::opt_in_order(node_opt).len() ==> Node::<V>::opt_in_order(
                    node_opt,
                )[i].0 < Node::<V>::opt_in_order(node_opt)[j].0,
        decreases node_opt,
    {
        match node_opt {
            None => {}
            Some(b) => {
                Self::lemma_opt_in_order_props(b.left);
                Self::lemma_opt_in_order_props(b.right);
                let li = Node::<V>::opt_in_order(b.left);
                let ri = Node::<V>::opt_in_order(b.right);
                let lm = Node::<V>::opt_as_map(b.left);
                let rm = Node::<V>::opt_as_map(b.right);
                let whole = Node::<V>::opt_in_order(node_opt);
                let m = Node::<V>::opt_as_map(node_opt);
                let k = b.item.0;
                assert(whole == li + seq![(b.item.0, b.item.1)] + ri);
                assert(whole.len() == li.len() + 1 + ri.len());
                assert(m == lm.union_prefer_right(rm).insert(k, b.item.1));
                assert forall|i: int|
                    #![trigger whole[i]]
                    0 <= i < whole.len() implies m.contains_key(whole[i].0) && m[whole[i].0]
                    == whole[i].1 by {
                    if i < li.len() {
                        assert(whole[i] == li[i]);
                        assert(lm.contains_key(li[i].0) && lm[li[i].0] == li[i].1);
                        assert(li[i].0 < k);
                        assert(!rm.contains_key(li[i].0));
                    } else if i == li.len() {
                        assert(whole[i] == (b.item.0, b.item.1));
                    } else {
                        assert(whole[i] == ri[i - li.len() - 1]);
                        let e = ri[i - li.len() - 1];
                        assert(rm.contains_key(e.0) && rm[e.0] == e.1);
                        assert(e.0 > k);
                    }
                }
                assert forall|i: int, j: int|
                    0 <= i < j < whole.len() implies whole[i].0 < whole[j].0 by {
                    if i < li.len() {
                        assert(whole[i] == li[i]);
                        assert(lm.contains_key(li[i].0));
                        assert(li[i].0 < k);
                    } else if i == li.len() {
                        assert(whole[i].0 == k);
                    } else {
                        assert(whole[i] == ri[i - li.len() - 1]);
                        assert(rm.contains_key(ri[i - li.len() - 1].0));
                        assert(whole[i].0 > k);
                    }
                    if j < li.len() {
                        assert(whole[j] == li[j]);
                        assert(lm.contains_key(li[j].0));
                        assert(li[j].0 < k);
                    } else if j == li.len() {
                        assert(whole[j].0 == k);
                    } else {
                        assert(whole[j] == ri[j - li.len() - 1]);
                        assert(rm.contains_key(ri[j - li.len() - 1].0));
                        assert(whole[j].0 > k);
                    }
                }
            }
        }
    }

    fn check_balanced_opt(node: &Option<Box<Node<V>>>) -> (r: bool)
        requires
            Node::<V>::opt_well_formed(*node),
        ensures
            r == Node::<V>::opt_balanced(*node),
        decreases node,
    {
        match node {
            None => true,
            Some(b) => {
                proof {
                    assert(b.well_formed());
                    if b.left is Some {
                        assert(b.left.unwrap().well_formed());
                    }
                    if b.right is Some {
                        assert(b.right.unwrap().well_formed());
                    }
                }
                let lh: usize = match &b.left {
                    Some(x) => x.height,
                    None => 0,
                };
                let rh: usize = match &b.right {
                    Some(x) => x.height,
                    None => 0,
                };
                if lh > rh + 1 || rh > lh + 1 {
                    false
                } else {
                    Self::check_balanced_opt(&b.left) && Self::check_balanced_opt(&b.right)
                }
            }
        }
    }
}

/// The ordered map itself.  `size` caches the number of entries.
pub struct AvlTree<V> {
    head: Option<Box<Node<V>>>,
    size: usize,
}

impl<V> View for AvlTree<V> {
    type V = Map<u32, V>;

    closed spec fn view(&self) -> Map<u32, V> {
        Node::<V>::opt_as_map(self.head)
    }
}

impl<V> AvlTree<V> {
    /// Search ordering and correct cached sizes and heights.
    pub closed spec fn well_formed(self) -> bool {
        &&& Node::<V>::opt_well_formed(self.head)
        &&& self.size == Node::<V>::opt_size(self.head)
    }

    /// The height-balance invariant.
    pub closed spec fn balanced(self) -> bool {
        Node::<V>::opt_balanced(self.head)
    }

    /// Height of the whole tree; an empty tree has height 0.
    pub closed spec fn height(self) -> nat {
        Node::<V>::opt_height(self.head)
    }

    /// Number of entries.
    pub closed spec fn spec_size(self) -> nat {
        Node::<V>::opt_size(self.head)
    }

    /// The in-order listing of all entries, keys ascending.
    pub closed spec fn in_order(self) -> Seq<(u32, V)> {
        Node::<V>::opt_in_order(self.head)
    }

    /// Walks the entries in ascending key order.
    pub fn iter(&self) -> (r: Iter<'_, V>)
        ensures
            r.elements() == self.in_order(),
            r.position() == 0,
    {
        let mut entries = Vec::new();
        Node::<V>::collect_in_order(&self.head, &mut entries);
        let it = Iter { entries, pos: 0 };
        proof {
            assert(it.elements() =~= self.in_order());
        }
        it
    }

    /// The in-order listing walks exactly the map's entries, keys strictly
    /// ascending: one entry per key ever inserted, none invented.
    pub proof fn lemma_iter_order(self)
        requires
            self.well_formed(),
        ensures
            self.in_order().len() == self.spec_size(),
            forall|i: int|
                #![trigger self.in_order()[i]]
                0 <= i < self.in_order().len() ==> self@.contains_key(self.in_order()[i].0)
                    && self@[self.in_order()[i].0] == self.in_order()[i].1,
            forall|i: int, j: int|
                0 <= i < j < self.in_order().len() ==> self.in_order()[i].0
                    < self.in_order()[j].0,
    {
        Node::<V>::lemma_opt_in_order_props(self.head);
    }

    /// Decides whether the height-balance invariant holds of every node.
    pub fn check_balanced(&self) -> (r: bool)
        requires
            self.well_formed(),
        ensures
            r == self.balanced(),
    {
        Node::<V>::check_balanced_opt(&self.head)
    }

    /// An empty map.
    pub fn new() -> (r: AvlTree<V>)
        ensures
            r@ == Map::<u32, V>::empty(),
            r.well_formed(),
            r.balanced(),
            r.height() == 0,
            r.spec_size() == 0,
    {
        AvlTree { head: None, size: 0 }
    }

    /// Adds a new entry, carried in by a detached leaf node, and rebalances.
    /// The key must be fresh: the kernel's identifiers are never reused.
    pub fn insert(&mut self, node: Node<V>)
        requires
            old(self).well_formed(),
            old(self).balanced(),
            !old(self)@.dom().contains(node.key()),
            old(self).spec_size() + 2 <= usize::MAX,
        ensures
            final(self).well_formed(),
            final(self).balanced(),
            final(self)@ == old(self)@.insert(node.key(), node.value()),
            final(self).spec_size() == old(self).spec_size() + 1,
            old(self).height() <= final(self).height(),
            final(self).height() <= old(self).height() + 1,
    {
        proof {
            Node::<V>::lemma_opt_height_le_size(old(self).head);
        }
        let key = node.item.0;
        let value = node.into_value();
        Node::<V>::insert_into_optional(&mut self.head, key, value);
        self.size = self.size + 1;
    }

    /// Resolves a key to a mutable reference.  Only the value behind the
    /// returned reference can change; keys, shape and balance stay as they
    /// are.
    pub fn get_mut(&mut self, key: u32) -> (r: Option<&mut V>)
        requires
            old(self).well_formed(),
        ensures
            !old(self)@.dom().contains(key) ==> r is None && *final(self) == *old(self),
            old(self)@.dom().contains(key) ==> (r matches Some(v) && *v == old(self)@[key]
                && final(self)@ == old(self)@.insert(key, *final(v)) && final(self).well_formed()
                && final(self).height() == old(self).height() && final(self).spec_size() == old(
                self,
            ).spec_size() && (old(self).balanced() ==> final(self).balanced())),
    {
        Node::<V>::get_mut_from_optional(&mut self.head, key)
    }

    /// The classical AVL size bound, at the level of the whole map: a
    /// balanced tree with `n` entries has height at most `log_phi(n + 2)`,
    /// about `1.44 * log2(n + 2)`; stated exactly, `fib(height + 2)` never
    /// exceeds `n + 1`.
    pub proof fn lemma_height_bound(self)
        requires
            self.well_formed(),
            self.balanced(),
        ensures
            fib(self.height() + 2) <= self.spec_size() + 1,
    {
        Node::<V>::lemma_balanced_size(self.head);
    }

    /// Resolves a key to its value in `O(log n)` by binary search; a key
    /// never inserted yields `None`, not an error.
    pub fn get(&self, key: u32) -> (r: Option<&V>)
        requires
            self.well_formed(),
        ensures
            self@.dom().contains(key) ==> (r matches Some(v) && *v == self@[key]),
            !self@.dom().contains(key) ==> r is None,
    {
        Node::<V>::get_from_optional(&self.head, key)
    }
}

/// A cursor over the entries collected in order; `next` yields them with
/// ascending keys.
pub struct Iter<'a, V> {
    entries: Vec<(u32, &'a V)>,
    pos: usize,
}

impl<'a, V> Iter<'a, V> {
    /// The full in-order listing being walked.
    pub closed spec fn elements(self) -> Seq<(u32, V)> {
        self.entries@.map_values(|p: (u32, &'a V)| (p.0, *p.1))
    }

    /// How many entries have been yielded so far.
    pub closed spec fn position(self) -> int {
        self.pos as int
    }

    pub fn next(&mut self) -> (r: Option<(u32, &'a V)>)
        ensures
            final(self).elements() == old(self).elements(),
            old(self).position() < old(self).elements().len() ==> (r matches Some(p)
                && p.0 == old(self).elements()[old(self).position()].0
                && *p.1 == old(self).elements()[old(self).position()].1
                && final(self).position() == old(self).position() + 1),
            old(self).position() >= old(self).elements().len() ==> r is None
                && final(self).position() == old(self).position(),
    {
        if self.pos < self.entries.len() {
            let p = self.entries[self.pos];
            self.pos = self.pos + 1;
            Some(p)
        } else {
            None
        }
    }
}

impl<V> BinaryTree<V, Node<V>> for AvlTree<V> {
    open spec fn entries(&self) -> Map<u32, V> {
        self@
    }

    open spec fn tree_wf(&self) -> bool {
        self.well_formed() && self.balanced()
    }

    open spec fn node_key(node: &Node<V>) -> u32 {
        node.key()
    }

    open spec fn node_value(node: &Node<V>) -> V {
        node.value()
    }

    open spec fn can_insert(&self, node: &Node<V>) -> bool {
        &&& node.well_formed()
        &&& node.spec_height() == 1
        &&& !self@.dom().contains(node.key())
        &&& self.spec_size() + 2 <= usize::MAX
    }

    fn get(&self, key: u32) -> (r: Option<&V>) {
        AvlTree::<V>::get(self, key)
    }

    fn borrow(&self, key: u32) -> (r: Option<&V>) {
        AvlTree::<V>::get(self, key)
    }

    fn get_mut(&mut self, key: u32) -> (r: Option<&mut V>) {
        AvlTree::<V>::get_mut(self, key)
    }

    fn borrow_mut(&mut self, key: u32) -> (r: Option<&mut V>) {
        AvlTree::<V>::get_mut(self, key)
    }

    fn insert(&mut self, node: Node<V>) {
        AvlTree::<V>::insert(self, node)
    }
}

} // verus!
