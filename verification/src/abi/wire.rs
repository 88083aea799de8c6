//! The frame + message wire layer. Frame = `COBS(opcode ++ payload ++ crc8) ++
//! 0x00`, little-endian throughout.
use vstd::prelude::*;

use crate::abi::cobs::{
    cobs_decode, cobs_encode, spec_cobs_decode, spec_cobs_encode, CobsError, lemma_cobs_round_trip,
    lemma_cobs_encode_no_zero,
};
use crate::abi::crc8::{crc8, spec_crc8};

verus! {

/// `LOAD_PROGRAM` — host → FPGA.
pub const OP_LOAD_PROGRAM: u8 = 0x01;

/// `TRIGGER` — host → FPGA.
pub const OP_TRIGGER: u8 = 0x02;

/// `TRACE_DRAIN` — FPGA → host.
pub const OP_TRACE_DRAIN: u8 = 0x81;

/// The COBS frame delimiter.
pub const DELIMITER: u8 = 0x00;

/// A control-plane message (host → FPGA).
#[derive(Debug, Clone, PartialEq, Eq)]
pub enum ControlMsg {
    /// Load N instruction words into the instruction store.
    LoadProgram(Vec<u32>),
    /// Start a run of the loaded program.
    Trigger,
}

/// The mathematical content of a [`ControlMsg`].
pub enum ControlView {
    /// Load these instruction words.
    LoadProgram(Seq<u32>),
    /// Start a run.
    Trigger,
}

impl View for ControlMsg {
    type V = ControlView;

    open spec fn view(&self) -> ControlView {
        match self {
            ControlMsg::LoadProgram(w) => ControlView::LoadProgram(w@),
            ControlMsg::Trigger => ControlView::Trigger,
        }
    }
}

/// Why a frame failed to decode.
#[derive(Debug, Clone, Copy, PartialEq, Eq, Structural)]
pub enum WireError {
    /// The trailing CRC-8 did not match.
    BadCrc,
    /// The COBS layer was malformed.
    BadCobs,
    /// The opcode is not in the recognised set.
    UnknownOpcode(u8),
    /// A result decode saw an opcode other than the one expected.
    WrongOpcode {
        /// The opcode the decoder required.
        expected: u8,
        /// The opcode actually present.
        found: u8,
    },
    /// The logical frame was shorter than `[opcode]`.
    ShortFrame,
    /// A payload / word stream was not a multiple of 4 bytes.
    BadPayloadLen,
}

impl From<CobsError> for WireError {
    fn from(e: CobsError) -> (res: Self)
        ensures
            res == WireError::BadCobs,
    {
        WireError::BadCobs
    }
}

impl vstd::std_specs::convert::FromSpecImpl<CobsError> for WireError {
    open spec fn obeys_from_spec() -> bool {
        true
    }

    open spec fn from_spec(v: CobsError) -> WireError {
        WireError::BadCobs
    }
}

/// Byte `i` (0 = least significant) of a 32-bit word.
pub open spec fn word_byte(w: u32, i: int) -> u8 {
    if i == 0 {
        (w % 0x100) as u8
    } else if i == 1 {
        ((w / 0x100) % 0x100) as u8
    } else if i == 2 {
        ((w / 0x1_0000) % 0x100) as u8
    } else {
        (w / 0x100_0000) as u8
    }
}

/// The word whose little-endian bytes are `b0, b1, b2, b3`.
pub open spec fn word_from_le(b0: u8, b1: u8, b2: u8, b3: u8) -> u32 {
    (b0 + b1 * 0x100 + b2 * 0x1_0000 + b3 * 0x100_0000) as u32
}

/// Words packed little-endian, four bytes per word.
pub open spec fn spec_words_to_le(ws: Seq<u32>) -> Seq<u8> {
    Seq::new(4 * ws.len(), |j: int| word_byte(ws[j / 4], j % 4))
}

/// Little-endian bytes unpacked into words (the length is a multiple of 4).
pub open spec fn spec_le_to_words(bs: Seq<u8>) -> Seq<u32> {
    Seq::new(
        bs.len() / 4,
        |k: int| word_from_le(bs[4 * k], bs[4 * k + 1], bs[4 * k + 2], bs[4 * k + 3]),
    )
}

/// The result of unpacking `bs`: `BadPayloadLen` unless the length is a
/// multiple of 4.
pub open spec fn spec_le_bytes_to_words(bs: Seq<u8>) -> Result<Seq<u32>, WireError> {
    if bs.len() % 4 != 0 {
        Err(WireError::BadPayloadLen)
    } else {
        Ok(spec_le_to_words(bs))
    }
}

proof fn lemma_word_bytes(w: u32)
    ensures
        word_byte(w, 0) == (w & 0xFF) as u8,
        word_byte(w, 1) == ((w >> 8u32) & 0xFF) as u8,
        word_byte(w, 2) == ((w >> 16u32) & 0xFF) as u8,
        word_byte(w, 3) == ((w >> 24u32) & 0xFF) as u8,
        word_from_le(word_byte(w, 0), word_byte(w, 1), word_byte(w, 2), word_byte(w, 3)) == w,
{
    assert(w % 0x100 == w & 0xFF) by (bit_vector);
    assert((w / 0x100) % 0x100 == (w >> 8u32) & 0xFF) by (bit_vector);
    assert((w / 0x1_0000) % 0x100 == (w >> 16u32) & 0xFF) by (bit_vector);
    assert(w / 0x100_0000 == (w >> 24u32) & 0xFF) by (bit_vector);
    assert(w % 0x100 + ((w / 0x100) % 0x100) * 0x100 + ((w / 0x1_0000) % 0x100) * 0x1_0000 + (w
        / 0x100_0000) * 0x100_0000 == w) by (nonlinear_arith);
}

proof fn lemma_word_from_le(b0: u8, b1: u8, b2: u8, b3: u8)
    ensures
        word_from_le(b0, b1, b2, b3) == (b0 as u32) | ((b1 as u32) << 8u32) | ((b2 as u32)
            << 16u32) | ((b3 as u32) << 24u32),
        word_byte(word_from_le(b0, b1, b2, b3), 0) == b0,
        word_byte(word_from_le(b0, b1, b2, b3), 1) == b1,
        word_byte(word_from_le(b0, b1, b2, b3), 2) == b2,
        word_byte(word_from_le(b0, b1, b2, b3), 3) == b3,
{
    let w = (b0 as u32) | ((b1 as u32) << 8u32) | ((b2 as u32) << 16u32) | ((b3 as u32) << 24u32);
    assert(w == b0 as u32 + (b1 as u32) * 0x100 + (b2 as u32) * 0x1_0000 + (b3 as u32)
        * 0x100_0000) by (bit_vector)
        requires
            w == (b0 as u32) | ((b1 as u32) << 8u32) | ((b2 as u32) << 16u32) | ((b3 as u32)
                << 24u32),
    ;
    lemma_word_bytes(w);
}

/// Pack words little-endian: `0xAABBCCDD -> [DD, CC, BB, AA]`.
pub fn words_to_le_bytes(words: &[u32]) -> (res: Vec<u8>)
    ensures
        res@ == spec_words_to_le(words@),
{
    let mut out: Vec<u8> = Vec::new();
    let mut i: usize = 0;
    while i < words.len()
        invariant
            i <= words.len(),
            out@ =~= spec_words_to_le(words@.subrange(0, i as int)),
        decreases words.len() - i,
    {
        let w = words[i];
        proof {
            lemma_word_bytes(w);
        }
        out.push((w & 0xFF) as u8);
        out.push(((w >> 8) & 0xFF) as u8);
        out.push(((w >> 16) & 0xFF) as u8);
        out.push(((w >> 24) & 0xFF) as u8);
        i = i + 1;
        proof {
            let p = words@.subrange(0, i as int);
            assert forall|j: int| 0 <= j < 4 * p.len() implies out@[j] == word_byte(
                p[j / 4],
                j % 4,
            ) by {
                if j < 4 * (i - 1) {
                    assert(p[j / 4] == words@.subrange(0, i - 1)[j / 4]);
                }
            }
        }
    }
    assert(words@.subrange(0, i as int) =~= words@);
    out
}

fn le_words_from(bytes: &[u8]) -> (res: Vec<u32>)
    requires
        bytes@.len() % 4 == 0,
    ensures
        res@ == spec_le_to_words(bytes@),
{
    let mut out: Vec<u32> = Vec::new();
    let total = bytes.len();
    let n = total / 4;
    let mut k: usize = 0;
    while k < n
        invariant
            total == bytes@.len(),
            n == bytes@.len() / 4,
            bytes@.len() % 4 == 0,
            k <= n,
            out@.len() == k,
            forall|j: int| 0 <= j < k ==> out@[j] == word_from_le(
                bytes@[4 * j],
                bytes@[4 * j + 1],
                bytes@[4 * j + 2],
                bytes@[4 * j + 3],
            ),
        decreases n - k,
    {
        assert(4 * k + 3 < bytes@.len()) by (nonlinear_arith)
            requires
                k < n,
                n == bytes@.len() / 4,
        ;
        let base: usize = 4 * k;
        let b0 = bytes[base];
        let b1 = bytes[base + 1];
        let b2 = bytes[base + 2];
        let b3 = bytes[base + 3];
        proof {
            lemma_word_from_le(b0, b1, b2, b3);
        }
        let w: u32 = (b0 as u32) | ((b1 as u32) << 8) | ((b2 as u32) << 16) | ((b3 as u32) << 24);
        out.push(w);
        k = k + 1;
    }
    assert(out@ =~= spec_le_to_words(bytes@));
    out
}

/// Unpack little-endian words; `BadPayloadLen` if `bytes.len() % 4 != 0`.
pub fn le_bytes_to_words(bytes: &[u8]) -> (res: Result<Vec<u32>, WireError>)
    ensures
        match res {
            Ok(v) => spec_le_bytes_to_words(bytes@) == Ok::<Seq<u32>, WireError>(v@),
            Err(e) => spec_le_bytes_to_words(bytes@) == Err::<Seq<u32>, WireError>(e),
        },
{
    if bytes.len() % 4 != 0 {
        return Err(WireError::BadPayloadLen);
    }
    Ok(le_words_from(bytes))
}

/// Packing then unpacking words gives them back.
pub proof fn lemma_le_round_trip(ws: Seq<u32>)
    ensures
        spec_le_bytes_to_words(spec_words_to_le(ws)) == Ok::<Seq<u32>, WireError>(ws),
{
    let bs = spec_words_to_le(ws);
    assert(bs.len() % 4 == 0);
    assert forall|k: int| 0 <= k < ws.len() implies spec_le_to_words(bs)[k] == ws[k] by {
        assert((4 * k) / 4 == k && (4 * k) % 4 == 0);
        assert((4 * k + 1) / 4 == k && (4 * k + 1) % 4 == 1);
        assert((4 * k + 2) / 4 == k && (4 * k + 2) % 4 == 2);
        assert((4 * k + 3) / 4 == k && (4 * k + 3) % 4 == 3);
        lemma_word_bytes(ws[k]);
    }
    assert(spec_le_to_words(bs) =~= ws);
}

/// Unpacking then packing a well-sized byte stream gives it back.
pub proof fn lemma_le_round_trip_bytes(bs: Seq<u8>)
    requires
        bs.len() % 4 == 0,
    ensures
        spec_words_to_le(spec_le_to_words(bs)) == bs,
{
    let ws = spec_le_to_words(bs);
    assert forall|j: int| 0 <= j < bs.len() implies spec_words_to_le(ws)[j] == bs[j] by {
        let k = j / 4;
        assert(4 * k + j % 4 == j);
        lemma_word_from_le(bs[4 * k], bs[4 * k + 1], bs[4 * k + 2], bs[4 * k + 3]);
    }
    assert(spec_words_to_le(ws) =~= bs);
}

/// The wire bytes of a logical frame: `COBS(logical ++ crc8(logical)) ++ 0x00`.
pub open spec fn spec_frame_encode(logical: Seq<u8>) -> Seq<u8> {
    spec_cobs_encode(logical.push(spec_crc8(logical))).push(DELIMITER)
}

/// The logical bytes of a wire frame, or why it is rejected: no trailing
/// delimiter or bad COBS is `BadCobs`; fewer than two decoded bytes is
/// `ShortFrame`; a CRC mismatch is `BadCrc`.
pub open spec fn spec_frame_decode(wire: Seq<u8>) -> Result<Seq<u8>, WireError> {
    if wire.len() == 0 || wire.last() != DELIMITER {
        Err(WireError::BadCobs)
    } else {
        match spec_cobs_decode(wire.drop_last()) {
            Err(_) => Err(WireError::BadCobs),
            Ok(d) => if d.len() < 2 {
                Err(WireError::ShortFrame)
            } else if spec_crc8(d.drop_last()) != d.last() {
                Err(WireError::BadCrc)
            } else {
                Ok(d.drop_last())
            },
        }
    }
}

/// Wrap a logical frame: `COBS(logical ++ crc8(logical)) ++ 0x00`.
pub fn frame_encode(logical: &[u8]) -> (res: Vec<u8>)
    ensures
        res@ == spec_frame_encode(logical@),
{
    let mut with_crc: Vec<u8> = Vec::new();
    let mut i: usize = 0;
    while i < logical.len()
        invariant
            i <= logical.len(),
            with_crc@ == logical@.subrange(0, i as int),
        decreases logical.len() - i,
    {
        with_crc.push(logical[i]);
        i = i + 1;
        assert(with_crc@ =~= logical@.subrange(0, i as int));
    }
    assert(logical@.subrange(0, i as int) =~= logical@);
    let c = crc8(logical);
    with_crc.push(c);
    let mut wire = cobs_encode(with_crc.as_slice());
    wire.push(DELIMITER);
    wire
}

/// Unwrap a wire frame to its logical bytes (`opcode ++ payload`), verifying CRC.
pub fn frame_decode(wire: &[u8]) -> (res: Result<Vec<u8>, WireError>)
    ensures
        match res {
            Ok(v) => spec_frame_decode(wire@) == Ok::<Seq<u8>, WireError>(v@),
            Err(e) => spec_frame_decode(wire@) == Err::<Seq<u8>, WireError>(e),
        },
{
    let n = wire.len();
    if n == 0 || wire[n - 1] != DELIMITER {
        return Err(WireError::BadCobs);
    }
    let mut body: Vec<u8> = Vec::new();
    let mut i: usize = 0;
    while i < n - 1
        invariant
            n == wire@.len(),
            n >= 1,
            i <= n - 1,
            body@ == wire@.subrange(0, i as int),
        decreases n - 1 - i,
    {
        body.push(wire[i]);
        i = i + 1;
        assert(body@ =~= wire@.subrange(0, i as int));
    }
    assert(body@ =~= wire@.drop_last());
    let decoded = match cobs_decode(body.as_slice()) {
        Ok(d) => d,
        Err(_) => {
            return Err(WireError::BadCobs);
        },
    };
    let m = decoded.len();
    if m < 2 {
        return Err(WireError::ShortFrame);
    }
    let crc = decoded[m - 1];
    let mut logical: Vec<u8> = Vec::new();
    let mut j: usize = 0;
    while j < m - 1
        invariant
            m == decoded@.len(),
            m >= 2,
            j <= m - 1,
            logical@ == decoded@.subrange(0, j as int),
        decreases m - 1 - j,
    {
        logical.push(decoded[j]);
        j = j + 1;
        assert(logical@ =~= decoded@.subrange(0, j as int));
    }
    assert(logical@ =~= decoded@.drop_last());
    if crc8(logical.as_slice()) != crc {
        return Err(WireError::BadCrc);
    }
    Ok(logical)
}

/// A non-empty logical frame survives framing; an empty one is refused as
/// `ShortFrame`.
pub proof fn lemma_frame_round_trip(logical: Seq<u8>)
    ensures
        logical.len() > 0 ==> spec_frame_decode(spec_frame_encode(logical)) == Ok::<
            Seq<u8>,
            WireError,
        >(logical),
        logical.len() == 0 ==> spec_frame_decode(spec_frame_encode(logical)) == Err::<
            Seq<u8>,
            WireError,
        >(WireError::ShortFrame),
{
    let with = logical.push(spec_crc8(logical));
    let wire = spec_frame_encode(logical);
    lemma_cobs_round_trip(with);
    assert(wire.drop_last() =~= spec_cobs_encode(with));
    assert(with.drop_last() =~= logical);
}

/// A framed message ends in the delimiter, and the delimiter occurs nowhere else.
pub proof fn lemma_frame_single_delimiter(logical: Seq<u8>)
    ensures
        spec_frame_encode(logical).last() == DELIMITER,
        forall|k: int|
            0 <= k < spec_frame_encode(logical).len() - 1 ==> spec_frame_encode(logical)[k]
                != DELIMITER,
{
    let with = logical.push(spec_crc8(logical));
    lemma_cobs_encode_no_zero(with);
    assert forall|k: int| 0 <= k < spec_frame_encode(logical).len() - 1 implies spec_frame_encode(
        logical,
    )[k] != DELIMITER by {
        assert(spec_frame_encode(logical)[k] == spec_cobs_encode(with)[k]);
    }
}

/// The logical frame (`opcode ++ payload`) of a control message.
pub open spec fn spec_control_logical(msg: ControlView) -> Seq<u8> {
    match msg {
        ControlView::Trigger => seq![OP_TRIGGER],
        ControlView::LoadProgram(words) => seq![OP_LOAD_PROGRAM] + spec_words_to_le(words),
    }
}

/// The control message a non-empty logical frame carries, or why it is refused.
pub open spec fn spec_control_from_logical(l: Seq<u8>) -> Result<ControlView, WireError> {
    if l[0] == OP_LOAD_PROGRAM {
        match spec_le_bytes_to_words(l.drop_first()) {
            Ok(ws) => Ok(ControlView::LoadProgram(ws)),
            Err(e) => Err(e),
        }
    } else if l[0] == OP_TRIGGER {
        if l.len() != 1 {
            Err(WireError::BadPayloadLen)
        } else {
            Ok(ControlView::Trigger)
        }
    } else {
        Err(WireError::UnknownOpcode(l[0]))
    }
}

/// The control message carried by wire bytes, or why they are refused.
pub open spec fn spec_decode_control(wire: Seq<u8>) -> Result<ControlView, WireError> {
    match spec_frame_decode(wire) {
        Ok(l) => spec_control_from_logical(l),
        Err(e) => Err(e),
    }
}

/// The drain words carried by a `TRACE_DRAIN` frame, or why it is refused.
pub open spec fn spec_decode_result(wire: Seq<u8>) -> Result<Seq<u32>, WireError> {
    match spec_frame_decode(wire) {
        Ok(l) => if l[0] != OP_TRACE_DRAIN {
            Err(WireError::WrongOpcode { expected: OP_TRACE_DRAIN, found: l[0] })
        } else {
            spec_le_bytes_to_words(l.drop_first())
        },
        Err(e) => Err(e),
    }
}

/// Encode a control message to wire bytes.
pub fn encode_control(msg: &ControlMsg) -> (res: Vec<u8>)
    ensures
        res@ == spec_frame_encode(spec_control_logical(msg@)),
{
    let mut logical: Vec<u8> = Vec::new();
    match msg {
        ControlMsg::Trigger => {
            logical.push(OP_TRIGGER);
            assert(logical@ =~= spec_control_logical(msg@));
        },
        ControlMsg::LoadProgram(words) => {
            logical.push(OP_LOAD_PROGRAM);
            let bytes = words_to_le_bytes(words.as_slice());
            let mut i: usize = 0;
            while i < bytes.len()
                invariant
                    i <= bytes.len(),
                    logical@ == seq![OP_LOAD_PROGRAM] + bytes@.subrange(0, i as int),
                decreases bytes.len() - i,
            {
                logical.push(bytes[i]);
                i = i + 1;
                assert(logical@ =~= seq![OP_LOAD_PROGRAM] + bytes@.subrange(0, i as int));
            }
            assert(bytes@.subrange(0, i as int) =~= bytes@);
        },
    }
    frame_encode(logical.as_slice())
}

/// Copy `bytes[start..]` into a fresh vector.
fn copy_from(bytes: &Vec<u8>, start: usize) -> (res: Vec<u8>)
    requires
        start <= bytes@.len(),
    ensures
        res@ == bytes@.skip(start as int),
{
    let mut out: Vec<u8> = Vec::new();
    let mut i = start;
    while i < bytes.len()
        invariant
            start <= i <= bytes@.len(),
            out@ == bytes@.subrange(start as int, i as int),
        decreases bytes.len() - i,
    {
        out.push(bytes[i]);
        i = i + 1;
        assert(out@ =~= bytes@.subrange(start as int, i as int));
    }
    assert(out@ =~= bytes@.skip(start as int));
    out
}

/// Decode a control frame (used by tests / a future device-side simulator).
pub fn decode_control(wire: &[u8]) -> (res: Result<ControlMsg, WireError>)
    ensures
        match res {
            Ok(m) => spec_decode_control(wire@) == Ok::<ControlView, WireError>(m@),
            Err(e) => spec_decode_control(wire@) == Err::<ControlView, WireError>(e),
        },
{
    let logical = frame_decode(wire)?;
    let op = logical[0];
    if op == OP_LOAD_PROGRAM {
        let payload = copy_from(&logical, 1);
        assert(payload@ =~= logical@.drop_first());
        let words = le_bytes_to_words(payload.as_slice())?;
        Ok(ControlMsg::LoadProgram(words))
    } else if op == OP_TRIGGER {
        if logical.len() != 1 {
            return Err(WireError::BadPayloadLen);
        }
        Ok(ControlMsg::Trigger)
    } else {
        Err(WireError::UnknownOpcode(op))
    }
}

/// Decode a `TRACE_DRAIN` result frame into little-endian words.
pub fn decode_result(wire: &[u8]) -> (res: Result<Vec<u32>, WireError>)
    ensures
        match res {
            Ok(v) => spec_decode_result(wire@) == Ok::<Seq<u32>, WireError>(v@),
            Err(e) => spec_decode_result(wire@) == Err::<Seq<u32>, WireError>(e),
        },
{
    let logical = frame_decode(wire)?;
    if logical[0] != OP_TRACE_DRAIN {
        return Err(WireError::WrongOpcode { expected: OP_TRACE_DRAIN, found: logical[0] });
    }
    let payload = copy_from(&logical, 1);
    assert(payload@ =~= logical@.drop_first());
    le_bytes_to_words(payload.as_slice())
}

/// A control message survives encoding and decoding.
pub proof fn lemma_control_round_trip(msg: ControlView)
    ensures
        spec_decode_control(spec_frame_encode(spec_control_logical(msg))) == Ok::<
            ControlView,
            WireError,
        >(msg),
{
    let l = spec_control_logical(msg);
    lemma_frame_round_trip(l);
    match msg {
        ControlView::Trigger => {},
        ControlView::LoadProgram(ws) => {
            assert(l.drop_first() =~= spec_words_to_le(ws));
            lemma_le_round_trip(ws);
        },
    }
}

} // verus!
