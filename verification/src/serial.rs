//! The serial byte sink the kernel prints through when servicing the print
//! supervisor call.
//!
//! The transmit register and its busy-wait live outside this crate; here the
//! port is modelled by the sequence of bytes handed over, which the
//! surrounding runtime drains to the wire in order.

use vstd::prelude::*;

verus! {

/// The one error the wire-level driver can surface.
#[derive(Clone, Copy, PartialEq, Eq, Structural, Debug)]
pub enum Error {
    Overrun,
}

/// The kernel's output port: a sink that keeps the bytes written so far.
pub struct Serial {
    written: Vec<u8>,
}

impl Serial {
    /// All bytes written so far, oldest first.
    pub closed spec fn spec_written(self) -> Seq<u8> {
        self.written@
    }

    /// A sink with nothing written yet.
    pub fn new() -> (r: Serial)
        ensures
            r.spec_written() == Seq::<u8>::empty(),
    {
        Serial { written: Vec::new() }
    }

    /// Hands one byte to the port.
    pub fn write(&mut self, c: u8) -> (r: Result<(), Error>)
        ensures
            r is Ok,
            final(self).spec_written() == old(self).spec_written().push(c),
    {
        self.written.push(c);
        Ok(())
    }

    /// Surrenders the bytes written so far, leaving the sink empty; the
    /// runtime calls this to move the kernel's output onto the wire.
    pub fn take_written(&mut self) -> (r: Vec<u8>)
        ensures
            r@ == old(self).spec_written(),
            final(self).spec_written() == Seq::<u8>::empty(),
    {
        let mut out = Vec::new();
        core::mem::swap(&mut out, &mut self.written);
        out
    }
}

} // verus!
