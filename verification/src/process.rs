//! The process control block: a private stack holding a hardware exception
//! frame, the callee-saved register array, a lifecycle state and the inbound
//! message queue.

use vstd::prelude::*;
use crate::linked_list::LinkedList;

verus! {

/// Lifecycle of a process.  Transitions are driven by the scheduler and the
/// kernel loop; a DORMANT process is parked until something re-adds it.
#[derive(Clone, Copy, PartialEq, Eq, Structural, Debug)]
pub enum ProcessState {
    DORMANT,
    READY,
    RUNNING,
    WAITING,
}

/// Number of 32-bit words in a hardware exception-return frame:
/// r0-r3, r12, lr, return address, status register.
pub const FRAME_WORDS: usize = 8;

/// The status-register word that forces Thumb execution state on resumption.
pub const INITIAL_XPSR: u32 = 0x0100_0000;

/// One cooperatively scheduled thread of execution with its own stack.
///
/// The stack is modelled as the sequence of 32-bit words the process owns,
/// low addresses first; `sp` is the index of the first word of the saved
/// exception frame.  The context-switch primitive itself is platform code and
/// lives outside this crate; it consumes and refreshes `sp` and `regs`.
pub struct Process {
    /// Saved stack pointer: index into `stack` of the exception frame.
    pub sp: usize,
    /// The process's private stack memory.
    pub stack: Vec<u32>,
    /// Callee-saved general-purpose registers, preserved across switches.
    pub regs: [u32; 8],
    pub state: ProcessState,
    /// At most one outstanding message per destination is enforced by the
    /// pool, not by this queue; the queue is FIFO.
    pub message_queue: LinkedList<u32>,
}

/// True when `a` and `b` agree on everything except the message queue.
pub open spec fn same_except_queue(a: Process, b: Process) -> bool {
    &&& a.sp == b.sp
    &&& a.stack == b.stack
    &&& a.regs == b.regs
    &&& a.state == b.state
}

impl Process {
    /// True when the saved stack pointer designates a fully formed
    /// eight-word exception frame inside the stack.
    pub open spec fn frame_in_stack(self) -> bool {
        self.sp + FRAME_WORDS <= self.stack@.len()
    }

    /// Builds a process whose first resumption enters `entry` in Thumb state
    /// with zeroed argument and scratch registers.  The initial frame sits in
    /// the top eight words of the stack.
    pub fn create(entry: u32, stack: Vec<u32>, regs: [u32; 8]) -> (r: Process)
        requires
            stack@.len() >= FRAME_WORDS,
        ensures
            r.sp == stack@.len() - FRAME_WORDS,
            r.frame_in_stack(),
            r.stack@.len() == stack@.len(),
            forall|i: int| 0 <= i < r.sp ==> r.stack@[i] == stack@[i],
            forall|i: int| r.sp <= i < r.sp + 6 ==> r.stack@[i] == 0,
            r.stack@[r.sp + 6] == entry & !1u32,
            r.stack@[r.sp + 7] == INITIAL_XPSR,
            r.regs == regs,
            r.state == ProcessState::DORMANT,
            r.message_queue@ == Seq::<u32>::empty(),
    {
        let mut stack = stack;
        let ghost orig = stack@;
        let n = stack.len();
        let sp = n - FRAME_WORDS;
        let mut i: usize = 0;
        while i < 6
            invariant
                sp + FRAME_WORDS == n,
                n == stack@.len(),
                stack@.len() == orig.len(),
                i <= 6,
                forall|j: int| 0 <= j < sp ==> stack@[j] == orig[j],
                forall|j: int| sp <= j < sp + i ==> stack@[j] == 0,
                forall|j: int| sp + 6 <= j < stack@.len() ==> stack@[j] == orig[j],
            decreases 6 - i,
        {
            stack[sp + i] = 0;  // r0-r3, r12, lr
            i = i + 1;
        }
        stack[sp + 6] = entry & !1u32;  // return address, Thumb bit masked
        stack[sp + 7] = INITIAL_XPSR;  // status register
        Process {
            sp,
            stack,
            regs,
            state: ProcessState::DORMANT,
            message_queue: LinkedList::new(),
        }
    }
}

} // verus!
