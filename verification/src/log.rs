//! The debug-logging interface: a sink that records one address-sized token
//! per call.  Implementations live with the platform.

use vstd::prelude::*;

verus! {

pub trait Log {
    type Error;

    fn log(&mut self, address: u8) -> Result<(), Self::Error>;
}

} // verus!
