//! The architecture-level shapes the kernel relies on: the exception-return
//! frame and the interrupt controller's register model.

pub mod nvic;

use vstd::prelude::*;

verus! {

/// One hardware exception-return frame, exactly as a trap pushes it: the
/// caller-saved registers, the link register, the return address and the
/// status register, eight 32-bit words in stack order.
pub struct StackFrame {
    pub r0: u32,
    pub r1: u32,
    pub r2: u32,
    pub r3: u32,
    pub r12: u32,
    pub lr: u32,
    pub return_addr: u32,
    pub xpsr: u32,
}

} // verus!
