use std::collections::VecDeque;
use std::time::Duration;

use tamal::abi::trace::{Halt, Record, Revision, Trace, TrapReason};
use tamal::abi::wire::{encode_control, ControlMsg};
use tamal::loader::device::Device;
use tamal::loader::error::{validate_program_bytes, Error, MAX_PROGRAM_WORDS};
use tamal::loader::report::{format_halt, format_trace, reason_str, trace_exit_code};
use tamal::loader::transport::{push_frame_byte, Transport, TransportError};

struct MockTransport {
    sent: Vec<Vec<u8>>,
    responses: VecDeque<Result<Vec<u8>, TransportError>>,
}

impl MockTransport {
    fn new(responses: Vec<Result<Vec<u8>, TransportError>>) -> Self {
        Self { sent: Vec::new(), responses: responses.into() }
    }
}

impl Transport for MockTransport {
    fn send(&mut self, bytes: &[u8]) -> Result<(), TransportError> {
        self.sent.push(bytes.to_vec());
        Ok(())
    }
    fn read_frame(&mut self, _timeout: Duration) -> Result<Vec<u8>, TransportError> {
        self.responses.pop_front().unwrap_or(Err(TransportError::Timeout))
    }
}

struct BrokenTransport;

impl Transport for BrokenTransport {
    fn send(&mut self, _bytes: &[u8]) -> Result<(), TransportError> {
        Err(TransportError::Timeout)
    }
    fn read_frame(&mut self, _timeout: Duration) -> Result<Vec<u8>, TransportError> {
        Err(TransportError::Timeout)
    }
}

#[test]
fn load_and_trigger_emit_exact_wire_bytes() {
    let mut dev = Device::new(MockTransport::new(vec![]));
    let words = vec![0x0800_0064u32];
    dev.load_program(&words).unwrap();
    dev.trigger().unwrap();
    let sent = &dev.transport.sent;
    assert_eq!(sent[0], encode_control(&ControlMsg::LoadProgram(words)));
    assert_eq!(sent[1], vec![0x03, 0x02, 0x0E, 0x00]);
    assert!(dev.transport.responses.is_empty());
}

#[test]
fn a_failing_transport_surfaces_as_a_transport_error() {
    let mut dev = Device::new(BrokenTransport);
    assert!(matches!(dev.load_program(&[1, 2]), Err(Error::Transport(TransportError::Timeout))));
    assert!(matches!(dev.trigger(), Err(Error::Transport(TransportError::Timeout))));
}

#[test]
fn rejects_non_multiple_of_four() {
    assert!(matches!(validate_program_bytes(&[0x00, 0x01, 0x02]), Err(Error::BadProgramLength(3))));
}

#[test]
fn accepts_the_1024_word_cap_and_rejects_above() {
    let ok = vec![0u8; MAX_PROGRAM_WORDS * 4];
    assert_eq!(validate_program_bytes(&ok).unwrap().len(), MAX_PROGRAM_WORDS);
    let too_big = vec![0u8; (MAX_PROGRAM_WORDS + 1) * 4];
    assert!(matches!(validate_program_bytes(&too_big), Err(Error::ProgramTooLarge(1025))));
}

#[test]
fn unpacks_little_endian_words() {
    assert_eq!(validate_program_bytes(&[0xDD, 0xCC, 0xBB, 0xAA]).unwrap(), vec![0xAABB_CCDD]);
}

#[test]
fn an_empty_program_is_zero_words() {
    assert_eq!(validate_program_bytes(&[]).unwrap(), Vec::<u32>::new());
}

#[test]
fn accumulates_until_delimiter() {
    let mut acc = Vec::new();
    assert_eq!(push_frame_byte(&mut acc, 0x03), None);
    assert_eq!(push_frame_byte(&mut acc, 0x02), None);
    assert_eq!(push_frame_byte(&mut acc, 0x0E), None);
    assert_eq!(push_frame_byte(&mut acc, 0x00), Some(vec![0x03, 0x02, 0x0E, 0x00]));
    assert!(acc.is_empty(), "accumulator resets after a frame");
}

#[test]
fn skips_leading_delimiters() {
    let mut acc = Vec::new();
    assert_eq!(push_frame_byte(&mut acc, 0x00), None, "leading delimiter is a resync no-op");
    assert_eq!(push_frame_byte(&mut acc, 0x00), None);
    assert_eq!(push_frame_byte(&mut acc, 0x01), None);
    assert_eq!(push_frame_byte(&mut acc, 0x00), Some(vec![0x01, 0x00]));
}

fn ok_halt() -> Halt {
    Halt { trap: false, reason: TrapReason::NoTrap, ovf: false, status: 0 }
}

fn sample() -> Trace {
    Trace {
        revision: Revision::expected(),
        records: vec![Record::Capture { nbits: 8, byte: 0x5A }, Record::Mark { label: 1, payload: 0xDEAD_BEEF }],
        halt: ok_halt(),
    }
}

#[test]
fn formats_records_and_ok_verdict() {
    let s = format_trace(&sample());
    assert!(s.contains("REVISION 0.1.0"), "{s}");
    assert!(s.contains("CAPTURE") && s.contains("byte=0x5A"), "{s}");
    assert!(s.contains("MARK") && s.contains("payload=0xDEADBEEF"), "{s}");
    assert!(s.contains("HALT  status=0x00  (ok)"), "{s}");
}

#[test]
fn formats_trap_verdict() {
    let h = Halt { trap: true, reason: TrapReason::Decode, ovf: false, status: 0x11 };
    assert!(format_halt(&h).contains("TRAP  reason=decode"));
    assert_eq!(trace_exit_code(&h), 1);
    assert_eq!(trace_exit_code(&ok_halt()), 0);
}

#[test]
fn clean_halt_with_overflow_is_surfaced_and_nonzero_exit() {
    let h = Halt { trap: false, reason: TrapReason::NoTrap, ovf: true, status: 0 };
    let s = format_halt(&h);
    assert!(s.contains("ovf=true") && s.contains("overflow"), "{s}");
    assert!(!s.contains("(ok)"), "overflow must not read as ok: {s}");
    assert_eq!(trace_exit_code(&h), 1);
}

#[test]
fn a_clean_halt_exits_zero_whatever_its_status() {
    let h = Halt { trap: false, reason: TrapReason::NoTrap, ovf: false, status: 0x11 };
    assert_eq!(trace_exit_code(&h), 0);
    assert!(format_halt(&h).contains("status=0x11"));
}

#[test]
fn every_trap_reason_has_a_name() {
    assert_eq!(reason_str(TrapReason::Decode), "decode");
    for r in [TrapReason::NoTrap, TrapReason::Config, TrapReason::Rdsr, TrapReason::Illegal] {
        assert!(!reason_str(r).is_empty());
    }
}
