//! Host-side connection to a tamal rig: program validation, framing of
//! control messages, and the transport seam.
use vstd::prelude::*;

pub mod device;
pub mod error;
pub mod report;
pub mod transport;

verus! {

/// A connected tamal rig (handle without a transport).
#[derive(Debug, Default)]
pub struct Device {
    _private: (),
}

impl Device {
    /// Create a handle.
    pub fn new() -> (res: Self) {
        Device { _private: () }
    }
}

} // verus!
