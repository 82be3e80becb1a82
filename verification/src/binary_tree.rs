//! The interface shared by the ordered maps: lookup by key, and insertion of
//! a caller-built node.

use vstd::prelude::*;

verus! {

/// A search tree from 32-bit keys to values, whose entries arrive as
/// detached nodes of type `N`.
pub trait BinaryTree<V, N>: Sized {
    /// The entries held, as a map.
    spec fn entries(&self) -> Map<u32, V>;

    /// The tree's structural invariant.
    spec fn tree_wf(&self) -> bool;

    /// The key a detached node carries.
    spec fn node_key(node: &N) -> u32;

    /// The value a detached node carries.
    spec fn node_value(node: &N) -> V;

    /// Whether the node may be inserted now.
    spec fn can_insert(&self, node: &N) -> bool;

    fn get(&self, key: u32) -> (r: Option<&V>)
        requires
            self.tree_wf(),
        ensures
            self.entries().dom().contains(key) ==> (r matches Some(v)
                && *v == self.entries()[key]),
            !self.entries().dom().contains(key) ==> r is None,
    ;

    fn borrow(&self, key: u32) -> (r: Option<&V>)
        requires
            self.tree_wf(),
        ensures
            self.entries().dom().contains(key) ==> (r matches Some(v)
                && *v == self.entries()[key]),
            !self.entries().dom().contains(key) ==> r is None,
    ;

    fn get_mut(&mut self, key: u32) -> (r: Option<&mut V>)
        requires
            old(self).tree_wf(),
        ensures
            !old(self).entries().dom().contains(key) ==> r is None && *final(self) == *old(self),
            old(self).entries().dom().contains(key) ==> (r matches Some(v) && *v == old(
                self,
            ).entries()[key] && final(self).entries() == old(self).entries().insert(
                key,
                *final(v),
            ) && final(self).tree_wf()),
    ;

    fn borrow_mut(&mut self, key: u32) -> (r: Option<&mut V>)
        requires
            old(self).tree_wf(),
        ensures
            !old(self).entries().dom().contains(key) ==> r is None && *final(self) == *old(self),
            old(self).entries().dom().contains(key) ==> (r matches Some(v) && *v == old(
                self,
            ).entries()[key] && final(self).entries() == old(self).entries().insert(
                key,
                *final(v),
            ) && final(self).tree_wf()),
    ;

    fn insert(&mut self, node: N)
        requires
            old(self).tree_wf(),
            old(self).can_insert(&node),
        ensures
            final(self).tree_wf(),
            final(self).entries() == old(self).entries().insert(
                Self::node_key(&node),
                Self::node_value(&node),
            ),
    ;
}

} // verus!
