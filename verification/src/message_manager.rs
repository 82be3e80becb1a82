//! The message-passing mailbox: a fixed pool of message slots, drawn on send
//! and returned on receive, so that the number of slots in flight is constant.

use vstd::prelude::*;
use crate::linked_list::LinkedList;
use crate::linked_list::ListItem;
use crate::process::Process;
use crate::process::same_except_queue;

verus! {

/// Owns the free-slot pool.  A slot leaves the pool when a message is sent
/// and comes back when it is received; delivery fails (it never blocks) when
/// the pool is exhausted.
pub struct MessageManager {
    buff: LinkedList<u32>,
}

impl MessageManager {
    /// Number of slots currently free.
    pub closed spec fn free_slots(&self) -> nat {
        self.buff@.len()
    }

    /// Builds the pool from a batch of slots; their stale payloads are
    /// irrelevant, only their number matters.
    pub fn new(buff: Vec<ListItem<u32>>) -> (r: MessageManager)
        ensures
            r.free_slots() == buff@.len(),
    {
        let mut buff = buff;
        let ghost total = buff@.len();
        let mut list = LinkedList::new();
        while buff.len() > 0
            invariant
                list@.len() + buff@.len() == total,
            decreases buff@.len(),
        {
            let item = buff.pop();
            match item {
                Some(item) => {
                    list.push(item);
                }
                None => {}
            }
        }
        MessageManager { buff: list }
    }

    /// Number of slots currently free, as a value.
    pub fn free_count(&self) -> (r: usize)
        ensures
            r == self.free_slots(),
    {
        self.buff.len()
    }

    /// Draws a slot, writes `message` into it and appends it to the
    /// destination's queue.  Fails closed when the pool is empty: nothing is
    /// altered and the sender does not wait.  Either way the slots in flight
    /// are conserved: the pool and the destination queue change by the same
    /// amount.
    pub fn send_message(&mut self, process: &mut Process, message: u32) -> (r: bool)
        ensures
            r == (old(self).free_slots() > 0),
            same_except_queue(*final(process), *old(process)),
            old(self).free_slots() == 0 ==> *final(self) == *old(self)
                && *final(process) == *old(process),
            old(self).free_slots() > 0 ==> final(self).free_slots() == old(self).free_slots() - 1
                && final(process).message_queue@ == old(process).message_queue@.push(message),
            final(self).free_slots() + final(process).message_queue@.len() == old(
                self,
            ).free_slots() + old(process).message_queue@.len(),
    {
        if self.buff.is_empty() {
            return false;
        }
        let popped = self.buff.pop();
        match popped {
            Some(mut item) => {
                item.item = message;
                process.message_queue.push(item);
                true
            }
            None => false,
        }
    }

    /// Pops the oldest message from the requesting process's queue and
    /// returns its slot to the pool.  An empty queue is an ordinary "no
    /// message" result and alters nothing.
    pub fn receive_message(&mut self, process: &mut Process) -> (r: Option<u32>)
        ensures
            same_except_queue(*final(process), *old(process)),
            old(process).message_queue@.len() == 0 ==> r is None && *final(self) == *old(self)
                && *final(process) == *old(process),
            old(process).message_queue@.len() > 0 ==> (r == Some(
                old(process).message_queue@[0],
            ) && final(self).free_slots() == old(self).free_slots() + 1
                && final(process).message_queue@ == old(process).message_queue@.subrange(
                1,
                old(process).message_queue@.len() as int,
            )),
            final(self).free_slots() + final(process).message_queue@.len() == old(
                self,
            ).free_slots() + old(process).message_queue@.len(),
    {
        if process.message_queue.is_empty() {
            return None;
        }
        let popped = process.message_queue.pop();
        match popped {
            Some(item) => {
                let result = item.item;
                self.buff.push(item);
                Some(result)
            }
            None => None,
        }
    }
}

} // verus!
