use tamal::abi::cobs::{cobs_decode, cobs_encode, CobsError};
use tamal::abi::config::{decode_config, AlertSource, Config, ConfigError, IoMode, Role, Sck};
use tamal::abi::crc8::{crc8, crc8_update};
use tamal::abi::isa::{Amt5, Cfg6, Imm11, Imm20, Reg, Sr5, Tar4, WaitCond, WaitTimeout};
use tamal::abi::trace::{decode_trace, Halt, Record, Revision, TraceError, TrapReason};
use tamal::abi::wire::{
    decode_control, decode_result, encode_control, frame_decode, frame_encode, le_bytes_to_words,
    words_to_le_bytes, ControlMsg, WireError, OP_LOAD_PROGRAM, OP_TRACE_DRAIN, OP_TRIGGER,
};

fn golden() -> Vec<(Vec<u8>, Vec<u8>)> {
    vec![
        (vec![0x00], vec![0x01, 0x01]),
        (vec![0x11, 0x22, 0x00, 0x33], vec![0x03, 0x11, 0x22, 0x02, 0x33]),
        (vec![0x11, 0x00, 0x00, 0x00], vec![0x02, 0x11, 0x01, 0x01, 0x01]),
        (vec![], vec![0x01]),
    ]
}

#[test]
fn golden_vectors_encode_and_round_trip() {
    for (raw, enc) in golden() {
        assert_eq!(cobs_encode(&raw), enc, "encode {raw:02x?}");
        assert_eq!(cobs_decode(&enc).unwrap(), raw, "decode {enc:02x?}");
    }
}

#[test]
fn boundary_254_is_single_full_group() {
    let raw: Vec<u8> = (1..=254u16).map(|x| x as u8).collect();
    let mut exp = vec![0xFFu8];
    exp.extend_from_slice(&raw);
    assert_eq!(cobs_encode(&raw), exp);
    assert_eq!(cobs_decode(&exp).unwrap(), raw);
}

#[test]
fn boundary_255_full_group_then_singleton() {
    let raw: Vec<u8> = (1..=255u16).map(|x| x as u8).collect();
    let mut exp = vec![0xFFu8];
    exp.extend_from_slice(&raw[..254]);
    exp.push(0x02);
    exp.push(raw[254]);
    assert_eq!(cobs_encode(&raw), exp);
    assert_eq!(cobs_decode(&exp).unwrap(), raw);
}

#[test]
fn boundary_254_then_zero_keeps_the_zero() {
    let mut raw: Vec<u8> = (1..=254u16).map(|x| x as u8).collect();
    raw.push(0x00);
    let mut exp: Vec<u8> = vec![0xFFu8];
    exp.extend_from_slice(&raw[..254]);
    exp.push(0x01);
    exp.push(0x01);
    assert_eq!(cobs_encode(&raw), exp);
    assert_eq!(cobs_decode(&exp).unwrap(), raw);
}

#[test]
fn malformed_inputs_classified() {
    assert!(matches!(cobs_decode(&[]), Err(CobsError::Empty)));
    assert!(matches!(cobs_decode(&[0x05, 0x11]), Err(CobsError::TruncatedGroup)));
    assert!(matches!(cobs_decode(&[0x02, 0x11, 0x00, 0x03]), Err(CobsError::InteriorZero)));
}

#[test]
fn cobs_round_trips_and_never_emits_zero_on_samples() {
    let mut seed: u32 = 12345;
    for len in [0usize, 1, 2, 253, 254, 255, 256, 509, 599] {
        let raw: Vec<u8> = (0..len)
            .map(|_| {
                seed = seed.wrapping_mul(1_103_515_245).wrapping_add(12_345);
                if seed % 7 == 0 { 0 } else { (seed >> 16) as u8 }
            })
            .collect();
        let enc = cobs_encode(&raw);
        assert!(!enc.contains(&0x00));
        assert_eq!(cobs_decode(&enc).unwrap(), raw);
    }
}

#[test]
fn single_byte_vector() {
    assert_eq!(crc8(&[0x02]), 0x0E);
}

#[test]
fn empty_is_init() {
    assert_eq!(crc8(&[]), 0x00);
}

#[test]
fn crc8_residue_is_zero_on_samples() {
    for msg in [vec![], vec![0x44, 0x00, 0x64], vec![0xFF; 17], (0..64u8).collect::<Vec<u8>>()] {
        let c = crc8(&msg);
        let mut with = msg.clone();
        with.push(c);
        assert_eq!(crc8(&with), 0x00);
    }
    assert_eq!(crc8_update(0x00, 0x02), 0x0E);
}

fn base() -> Config {
    Config {
        role: Role::Controller,
        io_mode: IoMode::X1,
        sck: Sck::Sck20,
        alert_source: AlertSource::AlertPin,
    }
}

#[test]
fn pack_places_fields_at_pinned_bits() {
    let base = base();
    assert_eq!(base.pack().bits(), 0x00);
    assert_eq!(Config { alert_source: AlertSource::AlertIo1, ..base }.pack().bits(), 0x01);
    assert_eq!(Config { sck: Sck::Sck33, ..base }.pack().bits(), 0x02);
    assert_eq!(Config { io_mode: IoMode::X2, ..base }.pack().bits(), 0x08);
    assert_eq!(Config { role: Role::Target, ..base }.pack().bits(), 0x20);
}

#[test]
fn decode_config_accepts_only_v1() {
    let c = decode_config(Cfg6::new(0x00).unwrap()).unwrap();
    assert!(matches!(c.role, Role::Controller));
    assert!(matches!(c.io_mode, IoMode::X1));
    assert!(matches!(c.sck, Sck::Sck20));
    assert!(matches!(c.alert_source, AlertSource::AlertPin));
    let c1 = decode_config(Cfg6::new(0x01).unwrap()).unwrap();
    assert!(matches!(c1.alert_source, AlertSource::AlertIo1));
}

#[test]
fn decode_config_rejects_non_v1_in_priority_order() {
    assert_eq!(decode_config(Cfg6::new(0x20).unwrap()), Err(ConfigError::UnsupportedRole));
    assert_eq!(decode_config(Cfg6::new(0x08).unwrap()), Err(ConfigError::UnsupportedIoMode));
    assert_eq!(decode_config(Cfg6::new(0x02).unwrap()), Err(ConfigError::UnsupportedSck));
}

#[test]
fn decode_config_round_trips_v1() {
    for alert in [AlertSource::AlertPin, AlertSource::AlertIo1] {
        let c = Config { alert_source: alert, ..base() };
        assert_eq!(decode_config(c.pack()), Ok(c));
    }
}

#[test]
fn newtype_new_accepts_in_range_rejects_out_of_range() {
    assert_eq!(Reg::new(31).map(|r| r.bits()), Some(31));
    assert_eq!(Reg::new(32), None);
    assert_eq!(Imm11::new(0x7FF).map(|i| i.bits()), Some(0x7FF));
    assert_eq!(Imm11::new(0x800), None);
    assert_eq!(Imm20::new(0xF_FFFF).map(|i| i.bits()), Some(0xF_FFFF));
    assert_eq!(Imm20::new(0x10_0000), None);
    assert_eq!(Tar4::new(15).map(|t| t.bits()), Some(15));
    assert_eq!(Tar4::new(16), None);
    assert_eq!(Cfg6::new(0x3F).map(|c| c.bits()), Some(0x3F));
    assert_eq!(Cfg6::new(0x40), None);
    assert_eq!(WaitTimeout::new(0x1FF).map(|t| t.bits()), Some(0x1FF));
    assert_eq!(WaitTimeout::new(0x200), None);
}

#[test]
fn from_bits_round_trips_masked_values() {
    assert_eq!(Reg::from_bits(5).bits(), 5);
    assert_eq!(Amt5::from_bits(0x1F).bits(), 0x1F);
    assert_eq!(WaitCond::from_bits(0x3).bits(), 0x3);
    assert_eq!(Sr5::from_bits(0).bits(), 0);
    assert_eq!(Reg::from_bits(0x25).bits(), 0x05);
}

#[test]
fn le_round_trip_vector() {
    assert_eq!(words_to_le_bytes(&[0xAABB_CCDD]), vec![0xDD, 0xCC, 0xBB, 0xAA]);
    assert_eq!(le_bytes_to_words(&[0xDD, 0xCC, 0xBB, 0xAA]).unwrap(), vec![0xAABB_CCDD]);
}

#[test]
fn le_bytes_len_must_be_multiple_of_four() {
    assert_eq!(le_bytes_to_words(&[0x01, 0x02, 0x03]), Err(WireError::BadPayloadLen));
}

#[test]
fn trigger_encodes_to_pinned_bytes() {
    assert_eq!(encode_control(&ControlMsg::Trigger), vec![0x03, 0x02, 0x0E, 0x00]);
}

#[test]
fn load_program_round_trips_through_frame_decode() {
    let words = vec![0x0800_0064u32, 0x0000_0000u32];
    let wire = encode_control(&ControlMsg::LoadProgram(words.clone()));
    assert_eq!(*wire.last().unwrap(), 0x00, "ends in delimiter");
    assert_eq!(wire[..wire.len() - 1].iter().filter(|&&b| b == 0).count(), 0, "no interior zero");
    let logical = frame_decode(&wire).unwrap();
    assert_eq!(logical[0], OP_LOAD_PROGRAM);
    assert_eq!(le_bytes_to_words(&logical[1..]).unwrap(), words);
}

#[test]
fn decode_result_unpacks_drain_words() {
    let words = vec![0x0001_0000u32, 0xC000_0000u32];
    let mut logical = vec![OP_TRACE_DRAIN];
    logical.extend_from_slice(&words_to_le_bytes(&words));
    let wire = frame_encode(&logical);
    assert_eq!(decode_result(&wire).unwrap(), words);
}

#[test]
fn single_byte_flip_fails_decode() {
    let wire = encode_control(&ControlMsg::LoadProgram(vec![0x1234_5678]));
    for i in 0..wire.len() - 1 {
        let mut bad = wire.clone();
        bad[i] ^= 0x01;
        let _ = frame_decode(&bad);
    }
    let mut bad = wire.clone();
    bad[2] ^= 0x01;
    assert!(matches!(frame_decode(&bad), Err(WireError::BadCrc) | Err(WireError::BadCobs)));
}

#[test]
fn error_taxonomy() {
    let logical = vec![0x7Fu8];
    let wire = frame_encode(&logical);
    assert_eq!(decode_control(&wire), Err(WireError::UnknownOpcode(0x7F)));
    let wire = encode_control(&ControlMsg::Trigger);
    assert_eq!(
        decode_result(&wire),
        Err(WireError::WrongOpcode { expected: OP_TRACE_DRAIN, found: OP_TRIGGER })
    );
    assert_eq!(frame_decode(&[0x01, 0x00]), Err(WireError::ShortFrame));
}

#[test]
fn control_messages_round_trip() {
    let words = vec![1u32, 0xFFFF_FFFF, 0];
    assert_eq!(
        decode_control(&encode_control(&ControlMsg::LoadProgram(words.clone()))),
        Ok(ControlMsg::LoadProgram(words))
    );
    assert_eq!(decode_control(&encode_control(&ControlMsg::Trigger)), Ok(ControlMsg::Trigger));
}

#[test]
fn minimal_drain_revision_and_halt() {
    let t = decode_trace(&[0x0001_0000, 0xC000_0000]).unwrap();
    assert_eq!(t.revision, Revision::expected());
    assert!(t.records.is_empty());
    assert_eq!(t.halt, Halt { trap: false, reason: TrapReason::NoTrap, ovf: false, status: 0 });
}

#[test]
fn capture_and_mark_records() {
    let words = [0x0001_0000, 0x0000_085A, 0x8000_0001, 0xDEAD_BEEF, 0xC000_0000];
    let t = decode_trace(&words).unwrap();
    assert_eq!(t.records[0], Record::Capture { nbits: 8, byte: 0x5A });
    assert_eq!(t.records[1], Record::Mark { label: 1, payload: 0xDEAD_BEEF });
    assert_eq!(t.records.len(), 2);
}

#[test]
fn trap_terminator_fields() {
    let w = (0b11u32 << 30) | (1 << 10) | (1 << 9) | (1 << 8) | 0x11;
    let t = decode_trace(&[0x0001_0000, w]).unwrap();
    assert_eq!(t.halt, Halt { trap: true, reason: TrapReason::Decode, ovf: true, status: 0x11 });
}

#[test]
fn trace_error_cases() {
    assert_eq!(decode_trace(&[]), Err(TraceError::Empty));
    assert_eq!(decode_trace(&[0x0001_0000, 0x0000_085A]), Err(TraceError::MissingTerminator));
    assert_eq!(decode_trace(&[0x0001_0000, 0x8000_0001]), Err(TraceError::TruncatedMark));
    assert_eq!(decode_trace(&[0x0001_0000, 0x4000_0000]), Err(TraceError::UnknownRecordTag(1)));
}
