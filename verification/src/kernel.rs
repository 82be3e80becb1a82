//! The kernel driver loop's decision core.
//!
//! Each loop iteration runs with interrupts masked: it dispatches one
//! process (done by the platform runtime), decodes the trapped supervisor
//! call, routes it to the scheduler, interrupt manager or message manager,
//! then processes pending interrupts and the periodic tick, in that fixed
//! order, so a process woken by an interrupt in the same iteration can be
//! rescheduled immediately.  The context switch, the wait-for-interrupt
//! sleep and the user-memory reads stay in the runtime; they hand this core
//! plain values and carry its outputs back.

pub mod syscall_id;

use vstd::prelude::*;
use crate::arch::StackFrame;
use crate::interrupt_manager::InterruptManager;
use crate::message_manager::MessageManager;
use crate::process::Process;
use crate::process::same_except_queue;
use crate::process_manager::ProcessId;
use crate::process_manager::ProcessManager;
use crate::scheduler::ExecResult;
use crate::scheduler::Scheduler;
use crate::serial::Serial;

verus! {

/// A trapped supervisor call, as read off the saved exception frame; the
/// print call still points into the caller's memory.
#[derive(Clone, Copy, PartialEq, Eq, Structural, Debug)]
pub enum SyscallRequest {
    Print { addr: u32, len: u32 },
    Yield,
    WaitIrq(u32),
    WaitSystick,
    Dormant,
    SendMessage { target: u32, message: u32 },
    ReceiveMessage,
}

/// Reads the call id from the frame's r0 and the arguments from r1 and r2.
/// An id outside the closed enumeration yields `None`; the kernel treats
/// that as a fatal condition.
pub fn decode_syscall(frame: &StackFrame) -> (r: Option<SyscallRequest>)
    ensures
        frame.r0 == syscall_id::PRINT ==> r == Some(
            (SyscallRequest::Print { addr: frame.r1, len: frame.r2 }),
        ),
        frame.r0 == syscall_id::YIELD ==> r == Some(SyscallRequest::Yield),
        frame.r0 == syscall_id::WAIT_IRQ ==> r == Some(SyscallRequest::WaitIrq(frame.r1)),
        frame.r0 == syscall_id::WAIT_SYSTICK ==> r == Some(SyscallRequest::WaitSystick),
        frame.r0 == syscall_id::DORMANT ==> r == Some(SyscallRequest::Dormant),
        frame.r0 == syscall_id::SEND_MESSAGE ==> r == Some(
            (SyscallRequest::SendMessage { target: frame.r1, message: frame.r2 }),
        ),
        frame.r0 == syscall_id::RECEIVE_MESSAGE ==> r == Some(SyscallRequest::ReceiveMessage),
        (frame.r0 < syscall_id::PRINT || frame.r0 > syscall_id::RECEIVE_MESSAGE) ==> r is None,
{
    if frame.r0 == syscall_id::PRINT {
        Some(SyscallRequest::Print { addr: frame.r1, len: frame.r2 })
    } else if frame.r0 == syscall_id::YIELD {
        Some(SyscallRequest::Yield)
    } else if frame.r0 == syscall_id::WAIT_IRQ {
        Some(SyscallRequest::WaitIrq(frame.r1))
    } else if frame.r0 == syscall_id::WAIT_SYSTICK {
        Some(SyscallRequest::WaitSystick)
    } else if frame.r0 == syscall_id::DORMANT {
        Some(SyscallRequest::Dormant)
    } else if frame.r0 == syscall_id::SEND_MESSAGE {
        Some(SyscallRequest::SendMessage { target: frame.r1, message: frame.r2 })
    } else if frame.r0 == syscall_id::RECEIVE_MESSAGE {
        Some(SyscallRequest::ReceiveMessage)
    } else {
        None
    }
}

/// A supervisor call with its data resolved to plain values: the runtime has
/// already copied the print bytes out of the caller's buffer.
pub enum Syscall {
    Print(Vec<u8>),
    Yield,
    WaitIrq(u32),
    WaitSystick,
    Dormant,
    SendMessage(u32, u32),
    ReceiveMessage,
}

/// What one loop iteration asks the platform runtime to do and to write
/// back into the trapped frame.
pub struct RunOutput {
    /// Whether a process was dispatched this iteration.
    pub dispatched: ExecResult,
    /// Result of a send call, owed to the caller's r0.
    pub send_result: Option<bool>,
    /// Result of a receive call, owed to the caller's r0 and r1.
    pub receive_result: Option<Option<u32>>,
    /// The interrupt lines whose deferred handlers the runtime must run now.
    pub fired: Vec<u32>,
}

/// The active queue after the head has been rotated to the tail.
pub open spec fn rotated(s: Seq<ProcessId>) -> Seq<ProcessId> {
    if s.len() == 0 {
        s
    } else {
        s.subrange(1, s.len() as int).push(s[0])
    }
}

/// Rotation moves processes around; it never adds or drops one.
pub proof fn lemma_rotated_multiset(s: Seq<ProcessId>)
    ensures
        rotated(s).to_multiset() == s.to_multiset(),
{
    if s.len() > 0 {
        let rest = s.subrange(1, s.len() as int);
        assert(s =~= seq![s[0]] + rest);
        vstd::seq_lib::lemma_multiset_commutative(seq![s[0]], rest);
        vstd::seq_lib::lemma_multiset_commutative(rest, seq![s[0]]);
        assert(rotated(s) =~= rest + seq![s[0]]);
        assert(rotated(s).to_multiset() =~= s.to_multiset());
    }
}

/// The active queue after `k` single rotations.
pub open spec fn rotated_n(s: Seq<ProcessId>, k: nat) -> Seq<ProcessId>
    decreases k,
{
    if k == 0 {
        s
    } else {
        rotated(rotated_n(s, (k - 1) as nat))
    }
}

/// Round-robin fairness: after `k` voluntary yields the queue is the
/// starting one split at position `k`, so the processes run in registration
/// order, each exactly once per round.
pub proof fn lemma_round_robin(s: Seq<ProcessId>, k: nat)
    requires
        k <= s.len(),
    ensures
        rotated_n(s, k) == s.subrange(k as int, s.len() as int) + s.subrange(0, k as int),
        k < s.len() ==> rotated_n(s, k)[0] == s[k as int],
    decreases k,
{
    if k == 0 {
        assert(rotated_n(s, 0) =~= s.subrange(0, s.len() as int) + s.subrange(0, 0));
    } else {
        lemma_round_robin(s, (k - 1) as nat);
        let prev = rotated_n(s, (k - 1) as nat);
        assert(prev == s.subrange(k - 1, s.len() as int) + s.subrange(0, k - 1));
        if prev.len() == 0 {
            assert(s.len() == 0);
        } else {
            assert(prev[0] == s[k - 1]);
            assert(rotated(prev) =~= s.subrange(k as int, s.len() as int) + s.subrange(
                0,
                k as int,
            ));
        }
    }
}

/// A full round of yields among `n` ready processes returns the queue to its
/// starting order: the cycle length is exactly the number of processes.
pub proof fn lemma_round_robin_cycle(s: Seq<ProcessId>)
    ensures
        rotated_n(s, s.len()) == s,
{
    lemma_round_robin(s, s.len());
    assert(rotated_n(s, s.len()) =~= s);
}

/// The active queue once the supervisor call has been serviced: the blocking
/// calls remove the head, everything else leaves the queue alone.
pub open spec fn active_after_call(a: Seq<ProcessId>, call: Option<Syscall>) -> Seq<ProcessId> {
    match call {
        Some(Syscall::WaitIrq(_)) => a.subrange(1, a.len() as int),
        Some(Syscall::WaitSystick) => a.subrange(1, a.len() as int),
        Some(Syscall::Dormant) => a.subrange(1, a.len() as int),
        _ => a,
    }
}

/// The timer-wait queue once the supervisor call has been serviced: only the
/// timer-wait call adds the caller to it.
pub open spec fn waiting_after_call(
    w: Seq<ProcessId>,
    a: Seq<ProcessId>,
    call: Option<Syscall>,
) -> Seq<ProcessId> {
    match call {
        Some(Syscall::WaitSystick) => w.push(a[0]),
        _ => w,
    }
}

/// The queued messages of the processes with identifiers below `upto`,
/// summed.
pub open spec fn queued_upto(procs: Map<u32, Process>, upto: int) -> nat
    decreases upto,
{
    if upto <= 0 {
        0
    } else {
        queued_upto(procs, upto - 1) + procs[(upto - 1) as u32].message_queue@.len()
    }
}

/// Changing at most one process's queue changes the sum by that queue's
/// difference.
proof fn lemma_queued_change(p0: Map<u32, Process>, p1: Map<u32, Process>, t: u32, upto: int)
    requires
        upto <= u32::MAX + 1,
        forall|k: u32| k < upto && k != t ==> p1[k] == p0[k],
    ensures
        t < upto ==> queued_upto(p1, upto) + p0[t].message_queue@.len() == queued_upto(p0, upto)
            + p1[t].message_queue@.len(),
        t >= upto ==> queued_upto(p1, upto) == queued_upto(p0, upto),
    decreases upto,
{
    if upto > 0 {
        lemma_queued_change(p0, p1, t, upto - 1);
        let last = (upto - 1) as u32;
        if last != t {
            assert(p1[last] == p0[last]);
        }
    }
}

/// The kernel: the scheduler, the interrupt manager, the process table, the
/// message pool and the serial sink, composed.
pub struct Kernel<S: Scheduler> {
    scheduler: S,
    serial: Serial,
    interrupt_manager: InterruptManager,
    process_manager: ProcessManager<Process>,
    message_manager: MessageManager,
}

impl<S: Scheduler> Kernel<S> {
    /// The scheduler's active queue, head first.
    pub closed spec fn active(self) -> Seq<ProcessId> {
        self.scheduler.active()
    }

    /// The scheduler's timer-waiting queue.
    pub closed spec fn waiting(self) -> Seq<ProcessId> {
        self.scheduler.waiting()
    }

    /// The processes parked on one interrupt line.
    pub closed spec fn waiters(self, id: u32) -> Seq<ProcessId> {
        self.interrupt_manager.waiters(id)
    }

    pub closed spec fn is_registered_irq(self, id: u32) -> bool {
        self.interrupt_manager.is_registered(id)
    }

    pub closed spec fn irq_pending(self, id: u32) -> bool {
        self.interrupt_manager.pending(id)
    }

    pub closed spec fn irq_enabled(self, id: u32) -> bool {
        self.interrupt_manager.enabled(id)
    }

    /// Everything the next interrupt pass would wake, in table order.
    pub closed spec fn woken(self) -> Seq<ProcessId> {
        self.interrupt_manager.woken()
    }

    /// The registered lines that are pending, in table order.
    pub closed spec fn fired(self) -> Seq<u32> {
        self.interrupt_manager.fired()
    }

    /// Free slots in the message pool.
    pub closed spec fn free_slots(self) -> nat {
        self.message_manager.free_slots()
    }

    /// The registered processes, by identifier value.
    pub closed spec fn procs(self) -> Map<u32, Process> {
        self.process_manager.procs()
    }

    pub closed spec fn proc_count(self) -> u32 {
        self.process_manager.count()
    }

    /// The message queue of one process.
    pub closed spec fn queue(self, id: u32) -> Seq<u32> {
        self.procs()[id].message_queue@
    }

    /// The bytes printed so far.
    pub closed spec fn written(self) -> Seq<u8> {
        self.serial.spec_written()
    }

    /// The message slots in flight: the free pool plus every process's
    /// queue.  Fixed at boot, conserved by every iteration.
    pub open spec fn slots_in_flight(self) -> nat {
        self.free_slots() + queued_upto(self.procs(), self.proc_count() as int)
    }

    /// Every queue holds identifiers of registered processes, and the
    /// component invariants hold.
    pub closed spec fn well_formed(self) -> bool {
        &&& self.interrupt_manager.well_formed()
        &&& self.process_manager.well_formed()
        &&& (forall|i: int|
            0 <= i < self.active().len() ==> (#[trigger] self.active()[i]).0
                < self.process_manager.count())
        &&& (forall|i: int|
            0 <= i < self.waiting().len() ==> (#[trigger] self.waiting()[i]).0
                < self.process_manager.count())
        &&& (forall|id: u32, i: int|
            self.interrupt_manager.is_registered(id) && 0 <= i < self.waiters(id).len() ==> (
            #[trigger] self.waiters(id)[i]).0 < self.process_manager.count())
    }

    /// Composes the kernel from its parts.  Every process already queued
    /// anywhere must be registered in the process table.
    pub fn create(
        scheduler: S,
        serial: Serial,
        interrupt_manager: InterruptManager,
        process_manager: ProcessManager<Process>,
        message_manager: MessageManager,
    ) -> (r: Kernel<S>)
        requires
            interrupt_manager.well_formed(),
            process_manager.well_formed(),
            forall|i: int|
                0 <= i < scheduler.active().len() ==> (#[trigger] scheduler.active()[i]).0
                    < process_manager.count(),
            forall|i: int|
                0 <= i < scheduler.waiting().len() ==> (#[trigger] scheduler.waiting()[i]).0
                    < process_manager.count(),
            forall|id: u32, i: int|
                interrupt_manager.is_registered(id) && 0 <= i < interrupt_manager.waiters(
                    id,
                ).len() ==> (#[trigger] interrupt_manager.waiters(id)[i]).0
                    < process_manager.count(),
        ensures
            r.well_formed(),
            r.active() == scheduler.active(),
            r.waiting() == scheduler.waiting(),
            r.written() == serial.spec_written(),
            r.free_slots() == message_manager.free_slots(),
            r.procs() == process_manager.procs(),
            r.proc_count() == process_manager.count(),
            forall|id: u32| r.waiters(id) == interrupt_manager.waiters(id),
            forall|id: u32| r.is_registered_irq(id) == interrupt_manager.is_registered(id),
            forall|id: u32| id < 512 ==> r.irq_pending(id) == interrupt_manager.pending(id),
    {
        Kernel { scheduler, serial, interrupt_manager, process_manager, message_manager }
    }

    /// The active queue's identifiers, head first: the head is the process
    /// considered currently running.
    pub fn active_ids(&self) -> (r: Vec<ProcessId>)
        ensures
            r@ == self.active(),
    {
        self.scheduler.active_ids()
    }

    /// The timer-waiting queue's identifiers, head first.
    pub fn waiting_ids(&self) -> (r: Vec<ProcessId>)
        ensures
            r@ == self.waiting(),
    {
        self.scheduler.waiting_ids()
    }

    /// Surrenders the serial bytes written so far, for the runtime to drain
    /// to the wire; nothing else changes.
    pub fn take_output(&mut self) -> (r: Vec<u8>)
        ensures
            r@ == old(self).written(),
            final(self).written() == Seq::<u8>::empty(),
            final(self).active() == old(self).active(),
            final(self).waiting() == old(self).waiting(),
            final(self).procs() == old(self).procs(),
            final(self).proc_count() == old(self).proc_count(),
            final(self).free_slots() == old(self).free_slots(),
            old(self).well_formed() ==> final(self).well_formed(),
            forall|l: u32| final(self).waiters(l) == old(self).waiters(l),
            forall|l: u32| final(self).is_registered_irq(l) == old(self).is_registered_irq(l),
            forall|l: u32| final(self).irq_pending(l) == old(self).irq_pending(l),
    {
        let r = self.serial.take_written();
        proof {
            if old(self).well_formed() {
                self.lemma_same_queues_wf(*old(self));
            }
        }
        r
    }

    /// The runtime's interrupt-context entry point: records that a line
    /// fired.  The next loop iteration will wake its waiters.
    pub fn mark_irq_pending(&mut self, id: u32)
        requires
            old(self).well_formed(),
            id < 512,
        ensures
            final(self).well_formed(),
            final(self).irq_pending(id),
            forall|j: u32| j < 512 && j != id ==> final(self).irq_pending(j) == old(
                self,
            ).irq_pending(j),
            forall|l: u32| final(self).waiters(l) == old(self).waiters(l),
            forall|l: u32| final(self).is_registered_irq(l) == old(self).is_registered_irq(l),
            final(self).active() == old(self).active(),
            final(self).waiting() == old(self).waiting(),
            final(self).procs() == old(self).procs(),
            final(self).proc_count() == old(self).proc_count(),
            final(self).free_slots() == old(self).free_slots(),
            final(self).written() == old(self).written(),
    {
        self.interrupt_manager.set_pending(id);
        proof {
            let cnt = self.process_manager.count();
            assert(self.active() == old(self).active());
            assert(self.waiting() == old(self).waiting());
            assert forall|l: u32, i: int|
                self.interrupt_manager.is_registered(l) && 0 <= i < self.waiters(l).len()
                    implies (#[trigger] self.waiters(l)[i]).0 < cnt by {
                assert(self.waiters(l) == old(self).waiters(l));
                assert(old(self).is_registered_irq(l));
                assert(old(self).waiters(l)[i].0 < cnt);
            }
            assert(self.well_formed());
        }
    }

    /// The state the kernel does not touch while servicing a message call.
    spec fn same_but_messages(pre: Self, post: Self) -> bool {
        &&& post.scheduler == pre.scheduler
        &&& post.serial == pre.serial
        &&& post.interrupt_manager == pre.interrupt_manager
        &&& post.proc_count() == pre.proc_count()
    }

    /// Services the send call: draws a slot and delivers `message` to the
    /// target's queue, failing closed when the target is unknown or the pool
    /// is empty.  Slots in flight are conserved.
    fn do_send(&mut self, target: u32, message: u32) -> (r: bool)
        requires
            old(self).well_formed(),
        ensures
            final(self).well_formed(),
            Self::same_but_messages(*old(self), *final(self)),
            !old(self).procs().dom().contains(target) ==> r == false && final(self).procs() == old(
                self,
            ).procs() && final(self).free_slots() == old(self).free_slots(),
            old(self).procs().dom().contains(target) ==> (r == (old(self).free_slots() > 0) && (
            forall|k: u32|
                k != target && old(self).procs().dom().contains(k)
                    ==> final(self).procs()[k] == old(self).procs()[k]) && same_except_queue(
                final(self).procs()[target],
                old(self).procs()[target],
            ) && (r ==> final(self).queue(target) == old(self).queue(target).push(message)
                && final(self).free_slots() == old(self).free_slots() - 1) && (!r ==> final(self).queue(target) == old(self).queue(target) && final(self).free_slots() == old(
                self,
            ).free_slots()) && final(self).free_slots() + final(self).queue(target).len() == old(
                self,
            ).free_slots() + old(self).queue(target).len()),
    {
        let tid = ProcessId(target);
        let got = self.process_manager.get_mut(&tid);
        match got {
            None => {
                proof {
                    self.lemma_same_queues_wf(*old(self));
                }
                false
            }
            Some(p) => {
                let r = self.message_manager.send_message(p, message);
                proof {
                    self.lemma_same_queues_wf(*old(self));
                }
                r
            }
        }
    }

    /// A state that differs from a well-formed one only in the message pool
    /// and the processes' data is well formed too.
    proof fn lemma_same_queues_wf(self, pre: Self)
        requires
            pre.well_formed(),
            self.scheduler == pre.scheduler,
            self.interrupt_manager == pre.interrupt_manager,
            self.process_manager.well_formed(),
            self.process_manager.count() == pre.process_manager.count(),
        ensures
            self.well_formed(),
    {
        assert(self.active() == pre.active());
        assert(self.waiting() == pre.waiting());
        assert forall|id: u32, i: int|
            self.interrupt_manager.is_registered(id) && 0 <= i < self.waiters(id).len() implies (
        #[trigger] self.waiters(id)[i]).0 < self.process_manager.count() by {
            assert(pre.waiters(id)[i].0 < pre.process_manager.count());
        }
    }

    /// Services the receive call: pops the oldest message of the requesting
    /// process, returning the slot to the pool; an empty queue is a normal
    /// "no message" answer.  Slots in flight are conserved.
    fn do_receive(&mut self, current: ProcessId) -> (r: Option<u32>)
        requires
            old(self).well_formed(),
            old(self).procs().dom().contains(current.0),
        ensures
            final(self).well_formed(),
            Self::same_but_messages(*old(self), *final(self)),
            forall|k: u32|
                k != current.0 && old(self).procs().dom().contains(k)
                    ==> final(self).procs()[k] == old(self).procs()[k],
            same_except_queue(final(self).procs()[current.0], old(self).procs()[current.0]),
            old(self).queue(current.0).len() == 0 ==> r is None && final(self).procs() == old(
                self,
            ).procs() && final(self).free_slots() == old(self).free_slots(),
            old(self).queue(current.0).len() > 0 ==> (r == Some(old(self).queue(current.0)[0])
                && final(self).queue(current.0) == old(self).queue(current.0).subrange(
                1,
                old(self).queue(current.0).len() as int,
            ) && final(self).free_slots() == old(self).free_slots() + 1),
            final(self).free_slots() + final(self).queue(current.0).len() == old(
                self,
            ).free_slots() + old(self).queue(current.0).len(),
    {
        let got = self.process_manager.get_mut(&current);
        match got {
            None => {
                proof {
                    assert(false);
                }
                None
            }
            Some(p) => {
                let r = self.message_manager.receive_message(p);
                proof {
                    self.lemma_same_queues_wf(*old(self));
                }
                r
            }
        }
    }

    /// Services the print call: hands the bytes to the serial sink, in
    /// order.
    fn do_print(&mut self, bytes: &Vec<u8>)
        ensures
            final(self).written() == old(self).written() + bytes@,
            final(self).scheduler == old(self).scheduler,
            final(self).interrupt_manager == old(self).interrupt_manager,
            final(self).process_manager == old(self).process_manager,
            final(self).message_manager == old(self).message_manager,
    {
        let mut i: usize = 0;
        while i < bytes.len()
            invariant
                i <= bytes@.len(),
                self.serial.spec_written() == old(self).written() + bytes@.subrange(0, i as int),
                self.scheduler == old(self).scheduler,
                self.interrupt_manager == old(self).interrupt_manager,
                self.process_manager == old(self).process_manager,
                self.message_manager == old(self).message_manager,
            decreases bytes@.len() - i,
        {
            let _ = self.serial.write(bytes[i]);
            proof {
                assert(self.serial.spec_written() =~= old(self).written() + bytes@.subrange(
                    0,
                    i + 1,
                ));
            }
            i = i + 1;
        }
        proof {
            assert(bytes@.subrange(0, bytes@.len() as int) =~= bytes@);
        }
    }

    /// One iteration of the driver loop, entered after the runtime has
    /// dispatched the current process and decoded whatever supervisor call
    /// it trapped with: services the call, processes pending interrupts,
    /// then the periodic tick, in that fixed order, so a process woken by an
    /// interrupt fired this very iteration is rescheduled immediately.
    #[verifier::rlimit(100)]
    pub fn run_iteration(&mut self, syscall: Option<Syscall>, tick_fired: bool) -> (out: RunOutput)
        requires
            old(self).well_formed(),
            syscall is Some ==> old(self).active().len() > 0,
            (syscall matches Some(Syscall::WaitIrq(irq)) ==> old(self).is_registered_irq(irq)),
        ensures
            final(self).well_formed(),
            final(self).proc_count() == old(self).proc_count(),
            out.dispatched == (if old(self).active().len() > 0 {
                ExecResult::Executed
            } else {
                ExecResult::Nothing
            }),
            out.fired@ == old(self).fired(),
            forall|l: u32| final(self).is_registered_irq(l) == old(self).is_registered_irq(l),
            forall|l: u32|
                old(self).is_registered_irq(l) && old(self).irq_pending(l)
                    ==> final(self).waiters(l) == Seq::<ProcessId>::empty(),
            forall|l: u32|
                l < 512 && old(self).is_registered_irq(l) && old(self).irq_pending(l)
                    ==> !final(self).irq_pending(l) && final(self).irq_enabled(l),
            forall|l: u32|
                l < 512 && !(old(self).is_registered_irq(l) && old(self).irq_pending(l))
                    ==> final(self).irq_pending(l) == old(self).irq_pending(l) && final(self).irq_enabled(l) == old(self).irq_enabled(l),
            forall|l: u32|
                !(old(self).is_registered_irq(l) && old(self).irq_pending(l)) && !(syscall
                    matches Some(Syscall::WaitIrq(irq)) && l == irq)
                    ==> final(self).waiters(l) == old(self).waiters(l),
            (syscall matches Some(Syscall::WaitIrq(irq)) ==> (!old(self).irq_pending(irq)
                ==> final(self).waiters(irq) == old(self).waiters(irq).push(
                old(self).active()[0],
            ))),
            ({
                let a1 = active_after_call(old(self).active(), syscall);
                let w1 = waiting_after_call(old(self).waiting(), old(self).active(), syscall);
                let wake = (syscall matches Some(Syscall::WaitIrq(irq)) && old(self).irq_pending(
                    irq,
                ));
                &&& final(self).waiting() == (if tick_fired {
                    Seq::<ProcessId>::empty()
                } else {
                    w1
                })
                &&& (!wake ==> final(self).active() == (if tick_fired {
                    rotated(a1 + old(self).woken() + w1)
                } else if (syscall matches Some(Syscall::Yield)) {
                    rotated(a1 + old(self).woken())
                } else {
                    a1 + old(self).woken()
                }))
                &&& (wake ==> final(self).active().to_multiset() == (if tick_fired {
                    (a1 + old(self).woken() + w1).to_multiset()
                } else {
                    (a1 + old(self).woken()).to_multiset()
                }).insert(old(self).active()[0]))
            }),
            (syscall matches Some(Syscall::Print(bytes)) ==> final(self).written() == old(
                self,
            ).written() + bytes@),
            !(syscall matches Some(Syscall::Print(_))) ==> final(self).written() == old(
                self,
            ).written(),
            (out.send_result is Some) == (syscall matches Some(Syscall::SendMessage(_, _))),
            (out.receive_result is Some) == (syscall matches Some(Syscall::ReceiveMessage)),
            (syscall matches Some(Syscall::SendMessage(target, message)) ==> ({
                let b = out.send_result.unwrap();
                &&& (!old(self).procs().dom().contains(target) ==> b == false && final(self).procs() == old(self).procs() && final(self).free_slots() == old(
                    self,
                ).free_slots())
                &&& (old(self).procs().dom().contains(target) ==> (b == (old(self).free_slots()
                    > 0) && (forall|k: u32|
                    k != target && old(self).procs().dom().contains(k)
                        ==> final(self).procs()[k] == old(self).procs()[k]) && same_except_queue(
                    final(self).procs()[target],
                    old(self).procs()[target],
                ) && (b ==> final(self).queue(target) == old(self).queue(target).push(message)
                    && final(self).free_slots() == old(self).free_slots() - 1) && (!b ==> final(self).queue(target) == old(self).queue(target) && final(self).free_slots() == old(
                    self,
                ).free_slots()) && final(self).free_slots() + final(self).queue(target).len()
                    == old(self).free_slots() + old(self).queue(target).len()))
            })),
            (syscall matches Some(Syscall::ReceiveMessage) ==> ({
                let cur = old(self).active()[0].0;
                let res = out.receive_result.unwrap();
                &&& (forall|k: u32|
                    k != cur && old(self).procs().dom().contains(k) ==> final(self).procs()[k]
                        == old(self).procs()[k])
                &&& same_except_queue(final(self).procs()[cur], old(self).procs()[cur])
                &&& (old(self).queue(cur).len() == 0 ==> res is None && final(self).procs() == old(
                    self,
                ).procs() && final(self).free_slots() == old(self).free_slots())
                &&& (old(self).queue(cur).len() > 0 ==> res == Some(old(self).queue(cur)[0])
                    && final(self).queue(cur) == old(self).queue(cur).subrange(
                    1,
                    old(self).queue(cur).len() as int,
                ) && final(self).free_slots() == old(self).free_slots() + 1)
                &&& final(self).free_slots() + final(self).queue(cur).len() == old(
                    self,
                ).free_slots() + old(self).queue(cur).len()
            })),
            (!(syscall matches Some(Syscall::SendMessage(_, _))) && !(syscall matches Some(
                Syscall::ReceiveMessage,
            )) ==> final(self).procs() == old(self).procs() && final(self).free_slots() == old(
                self,
            ).free_slots()),
            final(self).slots_in_flight() == old(self).slots_in_flight(),
    {
        let dispatched: ExecResult = match self.scheduler.get_current_proc() {
            Some(_) => ExecResult::Executed,
            None => ExecResult::Nothing,
        };
        let mut send_result: Option<bool> = None;
        let mut receive_result: Option<Option<u32>> = None;
        let mut should_schedule_next = false;
        match &syscall {
            None => {}
            Some(call) => {
                match call {
                    Syscall::Print(bytes) => {
                        self.do_print(bytes);
                    }
                    Syscall::Yield => {
                        should_schedule_next = true;
                    }
                    Syscall::WaitIrq(irq_ref) => {
                        let irq = *irq_ref;
                        let popped = self.scheduler.pop_current_proc();
                        match popped {
                            Some(item) => {
                                let ghost im_pre = self.interrupt_manager;
                                let ghost parked = item.item;
                                self.interrupt_manager.push_wait(irq, item);
                                proof {
                                    InterruptManager::lemma_woken_after_park(
                                        im_pre,
                                        self.interrupt_manager,
                                        irq,
                                        parked,
                                    );
                                }
                            }
                            None => {
                                proof {
                                    assert(false);
                                }
                            }
                        }
                    }
                    Syscall::WaitSystick => {
                        let popped = self.scheduler.pop_current_proc();
                        match popped {
                            Some(item) => {
                                self.scheduler.push_wait(item);
                            }
                            None => {
                                proof {
                                    assert(false);
                                }
                            }
                        }
                    }
                    Syscall::Dormant => {
                        let _ = self.scheduler.pop_current_proc();
                    }
                    Syscall::SendMessage(target, message) => {
                        let b = self.do_send(*target, *message);
                        send_result = Some(b);
                    }
                    Syscall::ReceiveMessage => {
                        let current = match self.scheduler.get_current_proc() {
                            Some(c) => c,
                            None => {
                                proof {
                                    assert(false);
                                }
                                ProcessId(0)
                            }
                        };
                        proof {
                            assert(current == old(self).active()[0]);
                            assert(current.0 < self.process_manager.count());
                            self.process_manager.lemma_dom();
                        }
                        let res = self.do_receive(current);
                        receive_result = Some(res);
                    }
                }
            }
        }
        proof {
            let cnt = self.process_manager.count();
            let cur0 = if old(self).active().len() > 0 {
                old(self).active()[0]
            } else {
                ProcessId(0)
            };
            assert forall|id: u32, i: int|
                self.interrupt_manager.is_registered(id) && 0 <= i
                    < self.interrupt_manager.waiters(id).len() implies (
            #[trigger] self.interrupt_manager.waiters(id)[i]).0 < cnt by {
                assert(old(self).is_registered_irq(id));
                if syscall matches Some(Syscall::WaitIrq(irq)) && id == irq {
                    if i < old(self).waiters(id).len() {
                        assert(self.interrupt_manager.waiters(id)[i] == old(self).waiters(id)[i]);
                        assert(old(self).waiters(id)[i].0 < cnt);
                    } else {
                        assert(self.interrupt_manager.waiters(id)[i] == cur0);
                    }
                } else {
                    assert(self.interrupt_manager.waiters(id) == old(self).waiters(id));
                    assert(old(self).waiters(id)[i].0 < cnt);
                }
            }
            self.interrupt_manager.lemma_woken_bounded(|p: ProcessId| p.0 < cnt);
        }
        let ghost mid = *self;
        let pending_result = self.interrupt_manager.check_pending();
        let mut released = pending_result.0;
        let fired = pending_result.1;
        let ghost rel = released@;
        self.scheduler.resume_list(&mut released);
        if tick_fired {
            self.scheduler.resume_waiting();
            self.scheduler.schedule_next();
        } else if should_schedule_next {
            self.scheduler.schedule_next();
        }
        proof {
            let cnt = old(self).proc_count();
            let a1 = active_after_call(old(self).active(), syscall);
            let w1 = waiting_after_call(old(self).waiting(), old(self).active(), syscall);
            let wake = (syscall matches Some(Syscall::WaitIrq(irq)) && old(self).irq_pending(irq));
            let cur = if old(self).active().len() > 0 {
                old(self).active()[0]
            } else {
                ProcessId(0)
            };
            // The spliced queue is exactly what the interrupt pass released.
            assert(mid.scheduler.active() == a1);
            assert(mid.scheduler.waiting() == w1);
            if wake {
                assert(rel.to_multiset() == old(self).woken().to_multiset().insert(cur));
                let base_mid = if tick_fired {
                    a1 + rel + w1
                } else {
                    a1 + rel
                };
                let base_old = if tick_fired {
                    a1 + old(self).woken() + w1
                } else {
                    a1 + old(self).woken()
                };
                vstd::seq_lib::lemma_multiset_commutative(a1, rel);
                vstd::seq_lib::lemma_multiset_commutative(a1 + rel, w1);
                vstd::seq_lib::lemma_multiset_commutative(a1, old(self).woken());
                vstd::seq_lib::lemma_multiset_commutative(a1 + old(self).woken(), w1);
                assert(base_mid.to_multiset() =~= base_old.to_multiset().insert(cur));
                if tick_fired || (syscall matches Some(Syscall::Yield)) {
                    lemma_rotated_multiset(base_mid);
                }
                assert(self.active().to_multiset() == base_old.to_multiset().insert(cur));
            } else {
                assert(rel == old(self).woken());
            }
            assert forall|l: u32|
                !(old(self).is_registered_irq(l) && old(self).irq_pending(l)) && !(syscall
                    matches Some(Syscall::WaitIrq(irq)) && l == irq) implies self.waiters(l)
                == old(self).waiters(l) by {
                assert(mid.interrupt_manager.waiters(l) == old(self).waiters(l));
                assert(mid.interrupt_manager.is_registered(l) == old(self).is_registered_irq(l));
                assert(mid.interrupt_manager.pending(l) == old(self).irq_pending(l));
            }
            // Every identifier that can now stand in a queue was bounded
            // before, so the kernel invariant is preserved.
            assert forall|i: int| 0 <= i < rel.len() implies (#[trigger] rel[i]).0 < cnt by {}
            assert forall|i: int| 0 <= i < self.active().len() implies (
            #[trigger] self.active()[i]).0 < cnt by {
                let pre_rot = if tick_fired {
                    a1 + rel + w1
                } else {
                    a1 + rel
                };
                if self.active() == rotated(pre_rot) || self.active() == pre_rot {
                    let j = if self.active() == pre_rot {
                        i
                    } else {
                        if i < pre_rot.len() - 1 {
                            i + 1
                        } else {
                            0
                        }
                    };
                    assert(self.active()[i] == pre_rot[j]);
                    if j < a1.len() {
                        assert(pre_rot[j] == a1[j]);
                        assert(old(self).active().contains(a1[j]) || a1[j].0 < cnt) by {
                            if a1 == old(self).active() {
                            } else {
                                assert(a1[j] == old(self).active()[j + 1]);
                            }
                        }
                    } else if j < a1.len() + rel.len() {
                        assert(pre_rot[j] == rel[j - a1.len()]);
                    } else {
                        assert(pre_rot[j] == w1[j - a1.len() - rel.len()]);
                        if w1 == old(self).waiting() {
                        } else {
                            let jj = j - a1.len() - rel.len();
                            if jj < old(self).waiting().len() {
                                assert(w1[jj] == old(self).waiting()[jj]);
                            } else {
                                assert(w1[jj] == cur);
                            }
                        }
                    }
                }
            }
            assert forall|i: int| 0 <= i < self.waiting().len() implies (
            #[trigger] self.waiting()[i]).0 < cnt by {
                if !tick_fired {
                    if w1 == old(self).waiting() {
                    } else {
                        if i < old(self).waiting().len() {
                            assert(w1[i] == old(self).waiting()[i]);
                        } else {
                            assert(w1[i] == cur);
                        }
                    }
                }
            }
            assert forall|id: u32, i: int|
                self.interrupt_manager.is_registered(id) && 0 <= i < self.waiters(id).len()
                    implies (#[trigger] self.waiters(id)[i]).0 < cnt by {
                assert(mid.interrupt_manager.waiters(id)[i].0 < cnt);
            }
            assert(self.well_formed());
            // Message-slot conservation: only one queue and the pool can
            // have moved, and they moved together.
            old(self).process_manager.lemma_dom();
            let callv = if syscall is Some {
                syscall.unwrap()
            } else {
                Syscall::Yield
            };
            if syscall is Some && callv is SendMessage {
                let t = callv->SendMessage_0;
                if old(self).procs().dom().contains(t) {
                    lemma_queued_change(old(self).procs(), self.procs(), t, cnt as int);
                } else {
                    lemma_queued_change(old(self).procs(), self.procs(), 0, cnt as int);
                }
            } else if syscall is Some && callv is ReceiveMessage {
                lemma_queued_change(
                    old(self).procs(),
                    self.procs(),
                    old(self).active()[0].0,
                    cnt as int,
                );
            } else {
                assert(self.procs() == old(self).procs());
            }
            assert(self.slots_in_flight() == old(self).slots_in_flight());
        }
        RunOutput { dispatched, send_result, receive_result, fired }
    }
}

} // verus!
