//! The strict round-robin scheduler: one active queue, one timer-wait queue.

use vstd::prelude::*;
use crate::linked_list::LinkedList;
use crate::process_list::ProcessList;
use crate::process_list::ProcessListItem;
use crate::process_manager::ProcessId;
use crate::scheduler::Scheduler;

verus! {

pub struct SimpleScheduler {
    active: ProcessList,
    waiting: ProcessList,
}

impl SimpleScheduler {
    /// A scheduler with no processes registered yet.
    pub fn new() -> (r: SimpleScheduler)
        ensures
            r.active() == Seq::<ProcessId>::empty(),
            r.waiting() == Seq::<ProcessId>::empty(),
    {
        SimpleScheduler { active: LinkedList::new(), waiting: LinkedList::new() }
    }
}

impl Scheduler for SimpleScheduler {
    closed spec fn active(&self) -> Seq<ProcessId> {
        self.active@
    }

    closed spec fn waiting(&self) -> Seq<ProcessId> {
        self.waiting@
    }

    fn get_current_proc(&self) -> (r: Option<ProcessId>) {
        if self.active.is_empty() {
            None
        } else {
            let mut it = self.active.iter();
            let head = it.next();
            match head {
                Some(id) => Some(*id),
                None => None,
            }
        }
    }

    fn pop_current_proc(&mut self) -> (r: Option<ProcessListItem>) {
        self.active.pop()
    }

    fn schedule_next(&mut self) {
        if !self.active.is_empty() {
            let current = self.active.pop();
            match current {
                Some(item) => {
                    self.active.push(item);
                }
                None => {}
            }
        }
    }

    fn resume_list(&mut self, process_list: &mut ProcessList) {
        self.active.join(process_list);
    }

    fn push(&mut self, proc: ProcessListItem) {
        self.active.push(proc);
    }

    fn push_wait(&mut self, proc: ProcessListItem) {
        self.waiting.push(proc);
    }

    fn resume_waiting(&mut self) {
        self.active.join(&mut self.waiting);
    }

    fn active_ids(&self) -> (r: Vec<ProcessId>) {
        Self::collect_ids(&self.active)
    }

    fn waiting_ids(&self) -> (r: Vec<ProcessId>) {
        Self::collect_ids(&self.waiting)
    }
}

impl SimpleScheduler {
    fn collect_ids(list: &ProcessList) -> (r: Vec<ProcessId>)
        ensures
            r@ == list@,
    {
        let n = list.len();
        let mut it = list.iter();
        let mut r: Vec<ProcessId> = Vec::new();
        let mut i: usize = 0;
        while i < n
            invariant
                it.elements() == list@,
                it.position() == i as int,
                i <= n,
                n == list@.len(),
                r@ == list@.subrange(0, i as int),
            decreases n - i,
        {
            match it.next() {
                Some(p) => {
                    r.push(*p);
                }
                None => {}
            }
            i = i + 1;
        }
        proof {
            assert(r@ =~= list@);
        }
        r
    }
}

} // verus!
