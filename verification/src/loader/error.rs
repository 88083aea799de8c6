//! The loader error taxonomy and program-input validation.
use vstd::prelude::*;

use crate::abi::trace::TraceError;
use crate::abi::wire::{le_bytes_to_words, spec_le_to_words, WireError};
use crate::loader::transport::TransportError;

verus! {

/// The maximum program size the instruction store holds.
pub const MAX_PROGRAM_WORDS: usize = 1024;

/// A loader operation failure.
#[derive(Debug)]
pub enum Error {
    /// A transport-level failure.
    Transport(TransportError),
    /// A wire-format decode failure on the drain.
    Wire(WireError),
    /// A trace-decode failure on the drain.
    Trace(TraceError),
    /// The program byte length was not a multiple of 4.
    BadProgramLength(usize),
    /// The program exceeded the instruction-store cap.
    ProgramTooLarge(usize),
    /// The run kept failing after every retry.
    RetriesExhausted {
        /// How many attempts were made in total.
        attempts: u32,
    },
}

/// Read a raw `.bin` into little-endian words, enforcing the wire/loader limits:
/// the length must be a multiple of 4 and at most 1024 words.
pub fn validate_program_bytes(bytes: &[u8]) -> (res: Result<Vec<u32>, Error>)
    ensures
        bytes@.len() % 4 != 0 <==> res matches Err(Error::BadProgramLength(n)),
        res matches Err(Error::BadProgramLength(n)) ==> n == bytes@.len(),
        bytes@.len() % 4 == 0 && bytes@.len() / 4 > MAX_PROGRAM_WORDS <==> res matches Err(
            Error::ProgramTooLarge(n),
        ),
        res matches Err(Error::ProgramTooLarge(n)) ==> n == bytes@.len() / 4,
        res is Ok || res matches Err(Error::BadProgramLength(_)) || res matches Err(
            Error::ProgramTooLarge(_),
        ),
        res matches Ok(v) ==> v@ == spec_le_to_words(bytes@),
{
    if bytes.len() % 4 != 0 {
        return Err(Error::BadProgramLength(bytes.len()));
    }
    let words = bytes.len() / 4;
    if words > MAX_PROGRAM_WORDS {
        return Err(Error::ProgramTooLarge(words));
    }
    match le_bytes_to_words(bytes) {
        Ok(v) => Ok(v),
        Err(e) => Err(Error::Wire(e)),
    }
}

} // verus!
