//! The scheduling interface the kernel drives: a rotating active queue plus a
//! timer-wait queue, both sequences of process identifiers.

pub mod simple_scheduler;

use vstd::prelude::*;
use crate::process_list::ProcessList;
use crate::process_list::ProcessListItem;
use crate::process_manager::ProcessId;

verus! {

/// Whether the last kernel-loop iteration actually ran a process or found
/// nothing to do.
#[derive(Clone, Copy, PartialEq, Eq, Structural, Debug)]
pub enum ExecResult {
    Nothing,
    Executed,
}

/// A scheduler owns an active (ready) queue and a timer-waiting queue.  The
/// head of the active queue is the process considered "currently running".
pub trait Scheduler: Sized {
    /// The active queue, head first.
    spec fn active(&self) -> Seq<ProcessId>;

    /// The timer-waiting queue, head first.
    spec fn waiting(&self) -> Seq<ProcessId>;

    /// The identifier at the head of the active queue, without removing it.
    fn get_current_proc(&self) -> (r: Option<ProcessId>)
        ensures
            self.active().len() == 0 ==> r is None,
            self.active().len() > 0 ==> r == Some(self.active()[0]),
    ;

    /// Removes and returns the head of the active queue; used when the
    /// current process is about to block.
    fn pop_current_proc(&mut self) -> (r: Option<ProcessListItem>)
        requires
            old(self).active().len() > 0,
        ensures
            r matches Some(li) && li.item == old(self).active()[0],
            final(self).active() == old(self).active().subrange(
                1,
                old(self).active().len() as int,
            ),
            final(self).waiting() == old(self).waiting(),
    ;

    /// Rotates the active queue once: the head moves to the tail.  Strict
    /// round-robin, no priorities.
    fn schedule_next(&mut self)
        ensures
            old(self).active().len() > 0 ==> final(self).active() == old(self).active().subrange(
                1,
                old(self).active().len() as int,
            ).push(old(self).active()[0]),
            old(self).active().len() == 0 ==> final(self).active() == old(self).active(),
            final(self).waiting() == old(self).waiting(),
    ;

    /// Splices an externally produced ready list (for instance, processes
    /// woken by a satisfied interrupt wait) onto the active queue's tail,
    /// leaving it empty.
    fn resume_list(&mut self, process_list: &mut ProcessList)
        ensures
            final(self).active() == old(self).active() + old(process_list)@,
            final(self).waiting() == old(self).waiting(),
            final(process_list)@ == Seq::<ProcessId>::empty(),
    ;

    /// Appends a process to the active queue's tail.
    fn push(&mut self, proc: ProcessListItem)
        ensures
            final(self).active() == old(self).active().push(proc.item),
            final(self).waiting() == old(self).waiting(),
    ;

    /// Appends a process to the timer-waiting queue's tail.
    fn push_wait(&mut self, proc: ProcessListItem)
        ensures
            final(self).active() == old(self).active(),
            final(self).waiting() == old(self).waiting().push(proc.item),
    ;

    /// Splices the whole timer-waiting queue back onto the active queue's
    /// tail; called when the periodic tick expires.
    fn resume_waiting(&mut self)
        ensures
            final(self).active() == old(self).active() + old(self).waiting(),
            final(self).waiting() == Seq::<ProcessId>::empty(),
    ;

    /// The active queue's identifiers, head first.
    fn active_ids(&self) -> (r: Vec<ProcessId>)
        ensures
            r@ == self.active(),
    ;

    /// The timer-waiting queue's identifiers, head first.
    fn waiting_ids(&self) -> (r: Vec<ProcessId>)
        ensures
            r@ == self.waiting(),
    ;
}

} // verus!
