//! The transport seam: a byte pipe to the rig, framed on the 0x00 delimiter.
use vstd::prelude::*;

use crate::abi::wire::DELIMITER;

verus! {

#[verifier::external_type_specification]
#[verifier::external_body]
pub struct ExIoError(std::io::Error);

/// Why a transport operation failed.
#[derive(Debug)]
pub enum TransportError {
    /// The port could not be opened.
    Open(String),
    /// An underlying I/O error.
    Io(std::io::Error),
    /// No complete frame arrived within the deadline.
    Timeout,
}

/// A byte pipe to the rig. Backends frame their own reads (UART delimits on 0x00).
pub trait Transport {
    /// Send all bytes to the device.
    fn send(&mut self, bytes: &[u8]) -> Result<(), TransportError>;

    /// Read one frame — bytes up to and including the next `0x00` delimiter —
    /// or `Timeout` if none arrives within `timeout`.
    fn read_frame(&mut self, timeout: core::time::Duration) -> Result<Vec<u8>, TransportError>;
}

/// Feed one received byte into a frame accumulator. Returns the complete frame
/// (including the trailing delimiter) once a `0x00` closes a non-empty frame;
/// leading lone delimiters are skipped as resync anchors.
pub fn push_frame_byte(acc: &mut Vec<u8>, byte: u8) -> (res: Option<Vec<u8>>)
    ensures
        byte == DELIMITER && old(acc)@.len() == 0 ==> res is None && final(acc)@ == old(acc)@,
        byte == DELIMITER && old(acc)@.len() > 0 ==> (res matches Some(f) && f@ == old(acc)@.push(
            byte,
        ) && final(acc)@.len() == 0),
        byte != DELIMITER ==> res is None && final(acc)@ == old(acc)@.push(byte),
{
    if byte == DELIMITER {
        if acc.len() == 0 {
            None
        } else {
            acc.push(byte);
            let mut frame: Vec<u8> = Vec::new();
            std::mem::swap(&mut frame, acc);
            Some(frame)
        }
    } else {
        acc.push(byte);
        None
    }
}

} // verus!
