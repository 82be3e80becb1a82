use cmkernel::allocator::Allocator;
use cmkernel::arch::nvic::Nvic;
use cmkernel::arch::StackFrame;
use cmkernel::interrupt_manager::InterruptManager;
use cmkernel::kernel::decode_syscall;
use cmkernel::kernel::syscall_id;
use cmkernel::kernel::Kernel;
use cmkernel::kernel::Syscall;
use cmkernel::kernel::SyscallRequest;
use cmkernel::linked_list::ListItem;
use cmkernel::message_manager::MessageManager;
use cmkernel::process::Process;
use cmkernel::process_manager::ProcessId;
use cmkernel::process_manager::ProcessManager;
use cmkernel::scheduler::simple_scheduler::SimpleScheduler;
use cmkernel::scheduler::Scheduler;
use cmkernel::serial::Serial;

fn make_process(entry: u32) -> Process {
    Process::create(entry, vec![0u32; 16], [0u32; 8])
}

fn make_slots(n: usize) -> Vec<ListItem<u32>> {
    let mut slots = Vec::new();
    for _ in 0..n {
        slots.push(ListItem::create(0));
    }
    slots
}

/// Boots a kernel with `n` processes in the active queue and `slots` message
/// slots; interrupt line 5 has a registered handler.
fn boot_kernel(n: u32, slots: usize) -> Kernel<SimpleScheduler> {
    let mut scheduler = SimpleScheduler::new();
    let mut process_manager = ProcessManager::new();
    for i in 0..n {
        let node = cmkernel::avl_tree::Node::new(0, make_process(0x0800_0000 + i));
        let id = process_manager.register(node);
        scheduler.push(ListItem::create(id));
    }
    let mut interrupt_manager = InterruptManager::create(Nvic::new());
    interrupt_manager.register(5);
    let message_manager = MessageManager::new(make_slots(slots));
    Kernel::create(scheduler, Serial::new(), interrupt_manager, process_manager, message_manager)
}

fn ids(v: &Vec<ProcessId>) -> Vec<u32> {
    v.iter().map(|p| p.0).collect()
}

#[test]
fn process_frame_layout() {
    // The initial frame sits in the top eight words: zeroed argument and
    // scratch registers, the entry point with the interworking bit masked,
    // and a status word that forces Thumb state.
    let p = Process::create(0x0800_1235, vec![7u32; 16], [3u32; 8]);
    assert_eq!(8, p.sp);
    for i in 0..8 {
        assert_eq!(7, p.stack[i]);
    }
    for i in 8..14 {
        assert_eq!(0, p.stack[i]);
    }
    assert_eq!(0x0800_1234, p.stack[14]);
    assert_eq!(0x0100_0000, p.stack[15]);
    assert_eq!([3u32; 8], p.regs);
    assert_eq!(0, p.message_queue.len());
}

#[test]
fn decode_covers_the_call_table() {
    let mut frame = StackFrame {
        r0: syscall_id::PRINT,
        r1: 0x2000_0000,
        r2: 2,
        r3: 0,
        r12: 0,
        lr: 0,
        return_addr: 0,
        xpsr: 0,
    };
    assert_eq!(
        Some(SyscallRequest::Print { addr: 0x2000_0000, len: 2 }),
        decode_syscall(&frame)
    );
    frame.r0 = syscall_id::YIELD;
    assert_eq!(Some(SyscallRequest::Yield), decode_syscall(&frame));
    frame.r0 = syscall_id::WAIT_IRQ;
    assert_eq!(Some(SyscallRequest::WaitIrq(0x2000_0000)), decode_syscall(&frame));
    frame.r0 = syscall_id::WAIT_SYSTICK;
    assert_eq!(Some(SyscallRequest::WaitSystick), decode_syscall(&frame));
    frame.r0 = syscall_id::DORMANT;
    assert_eq!(Some(SyscallRequest::Dormant), decode_syscall(&frame));
    frame.r0 = syscall_id::SEND_MESSAGE;
    assert_eq!(
        Some(SyscallRequest::SendMessage { target: 0x2000_0000, message: 2 }),
        decode_syscall(&frame)
    );
    frame.r0 = syscall_id::RECEIVE_MESSAGE;
    assert_eq!(Some(SyscallRequest::ReceiveMessage), decode_syscall(&frame));
    frame.r0 = 0;
    assert_eq!(None, decode_syscall(&frame));
    frame.r0 = 99;
    assert_eq!(None, decode_syscall(&frame));
}

#[test]
fn message_pool_conservation() {
    // Whatever sends and receives happen, free slots plus queued messages
    // stay equal to the pool's initial capacity.
    let mut mm = MessageManager::new(make_slots(2));
    let mut a = make_process(0x1000);
    let mut b = make_process(0x2000);
    let capacity = 2;
    let total = |mm: &MessageManager, a: &Process, b: &Process| {
        mm.free_count() + a.message_queue.len() + b.message_queue.len()
    };
    assert_eq!(capacity, total(&mm, &a, &b));
    assert!(mm.send_message(&mut a, 11));
    assert_eq!(capacity, total(&mm, &a, &b));
    assert!(mm.send_message(&mut b, 22));
    assert_eq!(capacity, total(&mm, &a, &b));
    assert_eq!(Some(11), mm.receive_message(&mut a));
    assert_eq!(capacity, total(&mm, &a, &b));
    assert!(mm.send_message(&mut b, 33));
    assert_eq!(capacity, total(&mm, &a, &b));
    assert_eq!(Some(22), mm.receive_message(&mut b));
    assert_eq!(Some(33), mm.receive_message(&mut b));
    assert_eq!(capacity, total(&mm, &a, &b));
    assert_eq!(2, mm.free_count());
}

#[test]
fn send_to_full_pool_fails_closed() {
    let mut mm = MessageManager::new(make_slots(1));
    let mut a = make_process(0x1000);
    assert!(mm.send_message(&mut a, 1));
    // The pool is exhausted: the send reports failure and neither the pool
    // nor any queue moves.
    assert!(!mm.send_message(&mut a, 2));
    assert_eq!(0, mm.free_count());
    assert_eq!(1, a.message_queue.len());
    assert_eq!(Some(1), mm.receive_message(&mut a));
    assert!(mm.send_message(&mut a, 3));
}

#[test]
fn receive_from_empty_queue_returns_none() {
    let mut mm = MessageManager::new(make_slots(3));
    let mut a = make_process(0x1000);
    assert_eq!(None, mm.receive_message(&mut a));
    assert_eq!(3, mm.free_count());
    assert_eq!(0, a.message_queue.len());
}

#[test]
fn messages_arrive_in_fifo_order() {
    let mut mm = MessageManager::new(make_slots(3));
    let mut a = make_process(0x1000);
    assert!(mm.send_message(&mut a, 10));
    assert!(mm.send_message(&mut a, 20));
    assert!(mm.send_message(&mut a, 30));
    assert_eq!(Some(10), mm.receive_message(&mut a));
    assert_eq!(Some(20), mm.receive_message(&mut a));
    assert_eq!(Some(30), mm.receive_message(&mut a));
    assert_eq!(None, mm.receive_message(&mut a));
}

#[test]
fn process_manager_assigns_monotonic_ids() {
    let mut pm: ProcessManager<u64> = ProcessManager::new();
    let a = pm.register(cmkernel::avl_tree::Node::new(0, 100));
    let b = pm.register(cmkernel::avl_tree::Node::new(0, 200));
    let c = pm.register(cmkernel::avl_tree::Node::new(0, 300));
    assert_eq!(ProcessId(0), a);
    assert_eq!(ProcessId(1), b);
    assert_eq!(ProcessId(2), c);
    assert_eq!(Some(&200), pm.get(&b));
    assert!(pm.get(&ProcessId(3)).is_none());
    if let Some(v) = pm.get_mut(&c) {
        *v = 301;
    }
    assert_eq!(Some(&301), pm.get(&c));
}

#[test]
fn nvic_bits_pack_per_line() {
    let mut nvic = Nvic::new();
    assert!(!nvic.is_pending(37));
    nvic.set_pending(37);
    nvic.set_pending(100);
    assert!(nvic.is_pending(37));
    assert!(nvic.is_pending(100));
    assert!(!nvic.is_pending(36));
    assert!(!nvic.is_pending(38));
    assert!(!nvic.is_pending(5));
    nvic.clear_pending(37);
    assert!(!nvic.is_pending(37));
    assert!(nvic.is_pending(100));
}

#[test]
fn round_robin_rotation_cycles() {
    // Three ready processes and repeated yields: the running process cycles
    // with period exactly three.
    let mut sched = SimpleScheduler::new();
    for i in 0..3u32 {
        sched.push(ListItem::create(ProcessId(i)));
    }
    let mut seen = Vec::new();
    for _ in 0..6 {
        seen.push(sched.get_current_proc().unwrap().0);
        sched.schedule_next();
    }
    assert_eq!(vec![0, 1, 2, 0, 1, 2], seen);
    assert_eq!(vec![0, 1, 2], ids(&sched.active_ids()));
}

#[test]
fn irq_wait_and_wake_exactly_once() {
    // A process waiting on a line leaves the active queue; once the line is
    // marked pending, one loop iteration brings it back exactly once and
    // reports the fired line for its deferred handler.
    let mut kernel = boot_kernel(2, 4);
    assert_eq!(vec![0, 1], ids(&kernel.active_ids()));
    let out = kernel.run_iteration(Some(Syscall::WaitIrq(5)), false);
    assert_eq!(0, out.fired.len());
    assert_eq!(vec![1], ids(&kernel.active_ids()));
    // Nothing pending yet: the waiter stays parked.
    let out = kernel.run_iteration(Some(Syscall::Yield), false);
    assert_eq!(0, out.fired.len());
    assert_eq!(vec![1], ids(&kernel.active_ids()));
    // The line fires; the next iteration wakes the waiter once.
    kernel.mark_irq_pending(5);
    let out = kernel.run_iteration(None, false);
    assert_eq!(vec![5], out.fired);
    let active = ids(&kernel.active_ids());
    assert_eq!(vec![1, 0], active);
    assert_eq!(1, active.iter().filter(|v| **v == 0).count());
    // The pending flag was cleared: no duplicate wake-up.
    let out = kernel.run_iteration(None, false);
    assert_eq!(0, out.fired.len());
    assert_eq!(vec![1, 0], ids(&kernel.active_ids()));
}

#[test]
fn systick_wait_resumes_on_tick() {
    let mut kernel = boot_kernel(2, 4);
    let _ = kernel.run_iteration(Some(Syscall::WaitSystick), false);
    assert_eq!(vec![1], ids(&kernel.active_ids()));
    assert_eq!(vec![0], ids(&kernel.waiting_ids()));
    // The tick splices the timer-waiters back and rotates once.
    let _ = kernel.run_iteration(None, true);
    assert_eq!(vec![0, 1], ids(&kernel.active_ids()));
    assert_eq!(0, kernel.waiting_ids().len());
}

#[test]
fn dormant_parks_forever() {
    let mut kernel = boot_kernel(2, 4);
    let _ = kernel.run_iteration(Some(Syscall::Dormant), false);
    assert_eq!(vec![1], ids(&kernel.active_ids()));
    assert_eq!(0, kernel.waiting_ids().len());
    let _ = kernel.run_iteration(None, true);
    assert_eq!(vec![1], ids(&kernel.active_ids()));
}

#[test]
fn kernel_send_and_receive_round_trip() {
    let mut kernel = boot_kernel(2, 1);
    // The head process sends to process 1; with one slot the second send
    // fails closed.
    let out = kernel.run_iteration(Some(Syscall::SendMessage(1, 42)), false);
    assert_eq!(Some(true), out.send_result);
    let out = kernel.run_iteration(Some(Syscall::SendMessage(1, 43)), false);
    assert_eq!(Some(false), out.send_result);
    // Sending to an identifier never handed out fails closed too.
    let out = kernel.run_iteration(Some(Syscall::SendMessage(7, 1)), false);
    assert_eq!(Some(false), out.send_result);
    // Rotate so the receiver is current, then receive the message back.
    let _ = kernel.run_iteration(Some(Syscall::Yield), false);
    assert_eq!(vec![1, 0], ids(&kernel.active_ids()));
    let out = kernel.run_iteration(Some(Syscall::ReceiveMessage), false);
    assert_eq!(Some(Some(42)), out.receive_result);
    let out = kernel.run_iteration(Some(Syscall::ReceiveMessage), false);
    assert_eq!(Some(None), out.receive_result);
}

#[test]
fn boot_scenario_prints_once_and_rotates_per_yield() {
    // Processes A (prints "hi") and B (yields three times): the output
    // appears once, and each yield rotates the active order by one.
    let mut kernel = boot_kernel(2, 4);
    assert_eq!(vec![0, 1], ids(&kernel.active_ids()));
    let _ = kernel.run_iteration(Some(Syscall::Print(b"hi".to_vec())), false);
    assert_eq!(vec![0, 1], ids(&kernel.active_ids()));
    // A hands the processor over; then B yields three times.
    let _ = kernel.run_iteration(Some(Syscall::Yield), false);
    assert_eq!(vec![1, 0], ids(&kernel.active_ids()));
    let _ = kernel.run_iteration(Some(Syscall::Yield), false);
    assert_eq!(vec![0, 1], ids(&kernel.active_ids()));
    let _ = kernel.run_iteration(Some(Syscall::Yield), false);
    assert_eq!(vec![1, 0], ids(&kernel.active_ids()));
    let _ = kernel.run_iteration(Some(Syscall::Yield), false);
    assert_eq!(vec![0, 1], ids(&kernel.active_ids()));
    assert_eq!(b"hi".to_vec(), kernel.take_output());
    assert_eq!(0, kernel.take_output().len());
}

#[test]
fn allocator_files_and_merges_areas() {
    let mut allocator = Allocator::new();
    for i in 0..5 {
        assert_eq!(0, allocator.area_count(i));
    }
    // A kilobyte starting at an aligned address becomes eight areas of the
    // largest class.
    allocator.add_area(4096, 4096 + 1024);
    assert_eq!(8, allocator.area_count(4));
    for i in 0..4 {
        assert_eq!(0, allocator.area_count(i));
    }
    // Freeing two adjacent small blocks merges them upward.
    let mut allocator = Allocator::new();
    allocator.dealloc(2048, 8);
    assert_eq!(1, allocator.area_count(0));
    allocator.dealloc(2056, 8);
    assert_eq!(0, allocator.area_count(0));
    assert_eq!(1, allocator.area_count(1));
}

#[test]
fn serial_records_bytes_in_order() {
    let mut serial = Serial::new();
    assert!(serial.write(b'o').is_ok());
    assert!(serial.write(b'k').is_ok());
    assert_eq!(b"ok".to_vec(), serial.take_written());
    assert_eq!(0, serial.take_written().len());
}
