//! The supervisor-call numeric protocol: the one bit-exact interface between
//! user-mode code and the kernel.  r0 carries the call id, r1 and r2 the
//! call-specific arguments; r0 and r1 carry the result back.  The ids form a
//! closed internal enumeration.

use vstd::prelude::*;

verus! {

pub const PRINT: u32 = 1;

pub const DORMANT: u32 = 2;

pub const WAIT_IRQ: u32 = 3;

pub const YIELD: u32 = 4;

pub const WAIT_SYSTICK: u32 = 5;

pub const SEND_MESSAGE: u32 = 6;

pub const RECEIVE_MESSAGE: u32 = 7;

} // verus!
