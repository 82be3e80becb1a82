//! Hands out process identifiers and resolves them to process control blocks.
//!
//! Identifiers are assigned monotonically from zero and never reused, so the
//! table's keys are exactly `0 .. count`.

use vstd::prelude::*;
use crate::avl_tree::AvlTree;
use crate::avl_tree::Node;

verus! {

/// An opaque process identifier: unique per registration, assigned
/// monotonically from zero, never reused within a run.
#[derive(Clone, Copy, PartialEq, Eq, Structural, Debug)]
pub struct ProcessId(pub u32);

/// Owns every process control block, keyed by identifier in the balanced
/// ordered map.
pub struct ProcessManager<P> {
    map: AvlTree<P>,
    count: u32,
}

impl<P> ProcessManager<P> {
    /// The registered processes, by the numeric value of their identifier.
    pub closed spec fn procs(&self) -> Map<u32, P> {
        self.map@
    }

    /// How many processes have been registered.
    pub closed spec fn count(&self) -> u32 {
        self.count
    }

    /// The table is a balanced search tree whose keys are exactly the
    /// identifiers handed out so far.
    pub closed spec fn well_formed(&self) -> bool {
        &&& self.map.well_formed()
        &&& self.map.balanced()
        &&& (forall|k: u32| self.map@.dom().contains(k) <==> k < self.count)
        &&& self.map.spec_size() == self.count
    }

    /// An empty process table.
    pub fn new() -> (r: ProcessManager<P>)
        ensures
            r.well_formed(),
            r.procs() == Map::<u32, P>::empty(),
            r.count() == 0,
    {
        ProcessManager { map: AvlTree::new(), count: 0 }
    }

    /// Stores the node's process under the next identifier and returns that
    /// identifier; the node's own key is discarded, as identifiers are the
    /// manager's to assign.  The identifier space must not be exhausted.
    pub fn register(&mut self, node: Node<P>) -> (id: ProcessId)
        requires
            old(self).well_formed(),
            old(self).count() + 2 <= u32::MAX,
        ensures
            final(self).well_formed(),
            id == (ProcessId(old(self).count())),
            final(self).count() == old(self).count() + 1,
            final(self).procs() == old(self).procs().insert(old(self).count(), node.value()),
    {
        let id = self.count;
        let value = node.into_value();
        let fresh = Node::new(id, value);
        proof {
            assert(!self.map@.dom().contains(id));
            assert(u32::MAX <= usize::MAX);
        }
        self.map.insert(fresh);
        self.count = self.count + 1;
        ProcessId(id)
    }

    /// The table's keys are exactly the identifiers below `count`.
    pub proof fn lemma_dom(self)
        requires
            self.well_formed(),
        ensures
            forall|k: u32| self.procs().dom().contains(k) <==> k < self.count(),
    {
    }

    /// Resolves an identifier to its process.  An identifier never handed
    /// out yields `None`, never an error.
    pub fn get(&self, id: &ProcessId) -> (r: Option<&P>)
        requires
            self.well_formed(),
        ensures
            self.procs().dom().contains(id.0) ==> (r matches Some(p) && *p == self.procs()[id.0]),
            !self.procs().dom().contains(id.0) ==> r is None,
    {
        self.map.get(id.0)
    }

    /// Resolves an identifier to its process, mutably.  Only the resolved
    /// process can change; the table itself keeps its shape.
    pub fn get_mut(&mut self, id: &ProcessId) -> (r: Option<&mut P>)
        requires
            old(self).well_formed(),
        ensures
            !old(self).procs().dom().contains(id.0) ==> r is None && *final(self) == *old(self),
            old(self).procs().dom().contains(id.0) ==> (r matches Some(p) && *p == old(
                self,
            ).procs()[id.0] && final(self).procs() == old(self).procs().insert(id.0, *final(p))
                && final(self).well_formed() && final(self).count() == old(self).count()),
    {
        self.map.get_mut(id.0)
    }
}

} // verus!
