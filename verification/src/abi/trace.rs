//! Typed decode of the drained trace ring. Record tags live in bits `[31:30]`:
//! `00`=CAPTURE, `10`=MARK, `11`=HALT terminator.
use vstd::prelude::*;

verus! {

/// The `REVISION` word (`word[0]`): `[major8 | minor8 | patch16]`.
#[derive(Debug, Clone, Copy, PartialEq, Eq, Structural)]
pub struct Revision {
    /// Major version.
    pub major: u8,
    /// Minor version.
    pub minor: u8,
    /// Patch version.
    pub patch: u16,
}

/// The revision of a `REVISION` word.
pub open spec fn spec_revision(w: u32) -> Revision {
    Revision { major: (w >> 24u32) as u8, minor: ((w >> 16u32) & 0xFF) as u8, patch: (w & 0xFFFF) as u16 }
}

impl Revision {
    /// The revision the current gateware advertises (`0x0001_0000` = 0.1.0).
    pub fn expected() -> (res: Revision)
        ensures
            res == (Revision { major: 0, minor: 1, patch: 0 }),
    {
        Revision { major: 0, minor: 1, patch: 0 }
    }

    fn from_word(w: u32) -> (res: Self)
        ensures
            res == spec_revision(w),
    {
        Revision {
            major: (w >> 24) as u8,
            minor: ((w >> 16) & 0xFF) as u8,
            patch: (w & 0xFFFF) as u16,
        }
    }
}

/// A single trace-ring record.
#[derive(Debug, Clone, Copy, PartialEq, Eq, Structural)]
pub enum Record {
    /// A sampled byte: `[00 | 18'0 | nbits(4) | byte(8)]`.
    Capture {
        /// Number of bits sampled (1..=8).
        nbits: u8,
        /// The sampled byte.
        byte: u8,
    },
    /// A program marker: `[10 | 16'0 | label(14)]` then a 32-bit payload word.
    Mark {
        /// The 14-bit label.
        label: u16,
        /// The payload word.
        payload: u32,
    },
}

/// Why the engine halted (the extended HALT terminator's `reason` field).
#[derive(Debug, Clone, Copy, PartialEq, Eq, Structural)]
pub enum TrapReason {
    /// No trap (clean HALT).
    NoTrap,
    /// Instruction decode error.
    Decode,
    /// Bad `SET_CONFIG` payload.
    Config,
    /// Bad `RDSR` selector.
    Rdsr,
    /// Illegal / reserved-group opcode.
    Illegal,
}

/// The trap reason of a 3-bit `reason` field (the engine emits only 0..=4).
pub open spec fn spec_trap_reason(v: u8) -> TrapReason {
    if v == 0 {
        TrapReason::NoTrap
    } else if v == 1 {
        TrapReason::Decode
    } else if v == 2 {
        TrapReason::Config
    } else if v == 3 {
        TrapReason::Rdsr
    } else {
        TrapReason::Illegal
    }
}

impl TrapReason {
    fn from_bits(v: u8) -> (res: Self)
        ensures
            res == spec_trap_reason(v),
    {
        match v {
            0 => TrapReason::NoTrap,
            1 => TrapReason::Decode,
            2 => TrapReason::Config,
            3 => TrapReason::Rdsr,
            _ => TrapReason::Illegal,
        }
    }
}

/// The decoded HALT terminator: `[11 | 17'0 | reason(3) | trap(1) | ovf(1) | status(8)]`.
#[derive(Debug, Clone, Copy, PartialEq, Eq, Structural)]
pub struct Halt {
    /// Whether this HALT was a trap.
    pub trap: bool,
    /// The trap reason (`None` for a clean HALT).
    pub reason: TrapReason,
    /// Whether the ring overflowed during the run.
    pub ovf: bool,
    /// The host-owned status byte from `HALT`.
    pub status: u8,
}

/// The HALT terminator of a tag-`11` word.
pub open spec fn spec_halt(w: u32) -> Halt {
    Halt {
        reason: spec_trap_reason(((w >> 10u32) & 0x7) as u8),
        trap: (w >> 9u32) & 1 == 1,
        ovf: (w >> 8u32) & 1 == 1,
        status: (w & 0xFF) as u8,
    }
}

/// A fully decoded trace drain.
#[derive(Debug, Clone, PartialEq, Eq)]
pub struct Trace {
    /// The gateware revision (`word[0]`).
    pub revision: Revision,
    /// The CAPTURE/MARK records, in order.
    pub records: Vec<Record>,
    /// The HALT terminator (verdict).
    pub halt: Halt,
}

/// The mathematical content of a [`Trace`].
pub struct TraceView {
    /// The gateware revision.
    pub revision: Revision,
    /// The records, in order.
    pub records: Seq<Record>,
    /// The terminator.
    pub halt: Halt,
}

impl View for Trace {
    type V = TraceView;

    open spec fn view(&self) -> TraceView {
        TraceView { revision: self.revision, records: self.records@, halt: self.halt }
    }
}

/// Why [`decode_trace`] rejected the drained words.
#[derive(Debug, Clone, Copy, PartialEq, Eq, Structural)]
pub enum TraceError {
    /// No words at all (not even a REVISION).
    Empty,
    /// A record word carried an unrecognised tag.
    UnknownRecordTag(u8),
    /// A MARK record was missing its payload word.
    TruncatedMark,
    /// The word stream ended without a HALT terminator.
    MissingTerminator,
}

/// The record tag of a word: bits `[31:30]`.
pub open spec fn tag(w: u32) -> u32 {
    (w >> 30u32) & 0x3
}

/// The records from word `i` on, up to the HALT terminator, and that
/// terminator; or the first problem met.
pub open spec fn spec_records_from(ws: Seq<u32>, i: int) -> Result<(Seq<Record>, Halt), TraceError>
    decreases ws.len() - i,
{
    if i < 0 || i >= ws.len() {
        Err(TraceError::MissingTerminator)
    } else {
        let w = ws[i];
        if tag(w) == 0 {
            match spec_records_from(ws, i + 1) {
                Ok((rs, h)) => Ok(
                    (
                        seq![Record::Capture { nbits: ((w >> 8u32) & 0xF) as u8, byte: (w & 0xFF) as u8 }]
                            + rs,
                        h,
                    ),
                ),
                Err(e) => Err(e),
            }
        } else if tag(w) == 2 {
            if i + 1 >= ws.len() {
                Err(TraceError::TruncatedMark)
            } else {
                match spec_records_from(ws, i + 2) {
                    Ok((rs, h)) => Ok(
                        (seq![Record::Mark { label: (w & 0x3FFF) as u16, payload: ws[i + 1] }] + rs, h),
                    ),
                    Err(e) => Err(e),
                }
            }
        } else if tag(w) == 3 {
            Ok((Seq::<Record>::empty(), spec_halt(w)))
        } else {
            Err(TraceError::UnknownRecordTag(tag(w) as u8))
        }
    }
}

/// The decoded drain: the revision word, then the records up to the HALT.
pub open spec fn spec_decode_trace(ws: Seq<u32>) -> Result<TraceView, TraceError> {
    if ws.len() == 0 {
        Err(TraceError::Empty)
    } else {
        match spec_records_from(ws, 1) {
            Ok((rs, h)) => Ok(TraceView { revision: spec_revision(ws[0]), records: rs, halt: h }),
            Err(e) => Err(e),
        }
    }
}

proof fn lemma_records_ignore_tail(ws: Seq<u32>, x: Seq<u32>, i: int)
    requires
        spec_records_from(ws, i) is Ok,
    ensures
        spec_records_from(ws + x, i) == spec_records_from(ws, i),
    decreases ws.len() - i,
{
    let wx = ws + x;
    assert(0 <= i < ws.len());
    assert(wx[i] == ws[i]);
    let w = ws[i];
    if tag(w) == 0 {
        lemma_records_ignore_tail(ws, x, i + 1);
    } else if tag(w) == 2 {
        assert(wx[i + 1] == ws[i + 1]);
        lemma_records_ignore_tail(ws, x, i + 2);
    }
}

/// Decoding stops at the HALT terminator: words drained after it change
/// nothing.
pub proof fn lemma_decode_ignores_trailing_words(ws: Seq<u32>, x: Seq<u32>)
    requires
        spec_decode_trace(ws) is Ok,
    ensures
        spec_decode_trace(ws + x) == spec_decode_trace(ws),
{
    lemma_records_ignore_tail(ws, x, 1);
    assert((ws + x)[0] == ws[0]);
}

/// The HALT terminator word that the gateware writes for a run: tag `11`,
/// then the 3-bit reason, the trap flag, the overflow flag and the status
/// byte, from high bits to low.
pub open spec fn halt_word(reason: int, trap: int, ovf: int, status: int) -> int {
    3 * 0x4000_0000 + reason * 0x400 + trap * 0x200 + ovf * 0x100 + status
}

/// A drain of a revision word followed directly by a HALT terminator
/// decodes to no records and a terminator whose flags, status and reason
/// are the fields the word was built from: the trap flag is bit 9, the
/// overflow flag bit 8, the status the low byte, and reasons 0 to 4 are
/// none, decode, config, rdsr and illegal.
pub proof fn lemma_halt_fields(rev: u32, reason: u32, trap: u32, ovf: u32, status: u32)
    requires
        reason < 8,
        trap < 2,
        ovf < 2,
        status < 256,
    ensures
        ({
            let w = halt_word(reason as int, trap as int, ovf as int, status as int) as u32;
            &&& spec_decode_trace(seq![rev, w]) matches Ok(t)
            &&& t.records.len() == 0
            &&& t.halt.trap == (trap == 1)
            &&& t.halt.ovf == (ovf == 1)
            &&& t.halt.status == status
            &&& reason == 0 ==> t.halt.reason == TrapReason::NoTrap
            &&& reason == 1 ==> t.halt.reason == TrapReason::Decode
            &&& reason == 2 ==> t.halt.reason == TrapReason::Config
            &&& reason == 3 ==> t.halt.reason == TrapReason::Rdsr
            &&& reason >= 4 ==> t.halt.reason == TrapReason::Illegal
        }),
{
    let w: u32 = (3 * 0x4000_0000 + reason * 0x400 + trap * 0x200 + ovf * 0x100 + status) as u32;
    assert(w == halt_word(reason as int, trap as int, ovf as int, status as int));
    assert(((w >> 30u32) & 0x3) == 3 && ((w >> 9u32) & 1 == 1) == (trap == 1) && ((w >> 8u32) & 1 == 1) == (ovf
        == 1) && (w & 0xFF) == status && ((w >> 10u32) & 0x7) == reason) by (bit_vector)
        requires
            reason < 8,
            trap < 2,
            ovf < 2,
            status < 256,
            w == 3 * 0x4000_0000 + reason * 0x400 + trap * 0x200 + ovf * 0x100 + status,
    ;
    let ws = seq![rev, w];
    assert(ws[1] == w);
    assert(tag(w) == 3);
}

/// The words the gateware writes for a record: a CAPTURE is `nbits` above
/// the byte under tag `00`; a MARK is its label under tag `10`, then the
/// payload word.
pub open spec fn record_words(r: Record) -> Seq<u32> {
    match r {
        Record::Capture { nbits, byte } => seq![(nbits as int * 0x100 + byte as int) as u32],
        Record::Mark { label, payload } => seq![(2 * 0x4000_0000 + label as int) as u32, payload],
    }
}

/// The words of a run of records, in order.
pub open spec fn records_words(rs: Seq<Record>) -> Seq<u32>
    decreases rs.len(),
{
    if rs.len() == 0 {
        Seq::empty()
    } else {
        record_words(rs[0]) + records_words(rs.drop_first())
    }
}

/// A record whose fields fit their places in the word layout.
pub open spec fn record_fits(r: Record) -> bool {
    match r {
        Record::Capture { nbits, .. } => nbits < 16,
        Record::Mark { label, .. } => label < 0x4000,
    }
}

proof fn lemma_records_from_words(pre: Seq<u32>, rs: Seq<Record>, hw: u32)
    requires
        forall|k: int| 0 <= k < rs.len() ==> record_fits(#[trigger] rs[k]),
        tag(hw) == 3,
    ensures
        spec_records_from(pre + records_words(rs) + seq![hw], pre.len() as int) == Ok::<(Seq<Record>, Halt), TraceError>(
            (rs, spec_halt(hw)),
        ),
    decreases rs.len(),
{
    let ws = pre + records_words(rs) + seq![hw];
    let i = pre.len() as int;
    if rs.len() == 0 {
        assert(ws[i] == hw);
        assert(rs =~= Seq::<Record>::empty());
        assert(spec_records_from(ws, i) == Ok::<(Seq<Record>, Halt), TraceError>((Seq::<Record>::empty(), spec_halt(hw))));
    } else {
        let r = rs[0];
        let rest = rs.drop_first();
        assert forall|k: int| 0 <= k < rest.len() implies record_fits(#[trigger] rest[k]) by {
            assert(rest[k] == rs[k + 1]);
        }
        let pre2 = pre + record_words(r);
        assert(ws =~= pre2 + records_words(rest) + seq![hw]);
        lemma_records_from_words(pre2, rest, hw);
        match r {
            Record::Capture { nbits, byte } => {
                let w = (nbits as int * 0x100 + byte as int) as u32;
                assert(ws[i] == w);
                let n = nbits as u32;
                let b = byte as u32;
                assert(w == n * 0x100 + b);
                assert(((w >> 30u32) & 0x3) == 0 && ((w >> 8u32) & 0xF) == n && (w & 0xFF) == b) by (bit_vector)
                    requires
                        n < 16,
                        b < 256,
                        w == n * 0x100 + b,
                ;
                assert(seq![Record::Capture { nbits: ((w >> 8u32) & 0xF) as u8, byte: (w & 0xFF) as u8 }] + rest =~= rs);
                assert(pre2.len() == i + 1);
                assert(spec_records_from(ws, i + 1) == Ok::<(Seq<Record>, Halt), TraceError>((rest, spec_halt(hw))));
                assert(tag(w) == 0);
            },
            Record::Mark { label, payload } => {
                let w = (2 * 0x4000_0000 + label as int) as u32;
                assert(ws[i] == w);
                assert(ws[i + 1] == payload);
                let l = label as u32;
                assert(w == 2 * 0x4000_0000 + l);
                assert(((w >> 30u32) & 0x3) == 2 && (w & 0x3FFF) == l) by (bit_vector)
                    requires
                        l < 0x4000,
                        w == 2 * 0x4000_0000 + l,
                ;
                assert(seq![Record::Mark { label: (w & 0x3FFF) as u16, payload: ws[i + 1] }] + rest =~= rs);
                assert(pre2.len() == i + 2);
                assert(spec_records_from(ws, i + 2) == Ok::<(Seq<Record>, Halt), TraceError>((rest, spec_halt(hw))));
                assert(tag(w) == 2);
                assert(i + 1 < ws.len());
            },
        }
    }
}

/// Decoding inverts the gateware's word layout: a drain of a revision word,
/// the words of any records whose fields fit, and a HALT terminator decodes
/// to the revision's three fields (major in the top byte, minor in the next,
/// patch in the low half), exactly those records in order, and the
/// terminator that the terminator word alone decodes to.
pub proof fn lemma_decode_round_trip(rev: u32, rs: Seq<Record>, hw: u32)
    requires
        forall|k: int| 0 <= k < rs.len() ==> record_fits(#[trigger] rs[k]),
        hw / 0x4000_0000 == 3,
    ensures
        ({
            &&& spec_decode_trace(seq![rev] + records_words(rs) + seq![hw]) matches Ok(t)
            &&& t.records == rs
            &&& t.revision == (Revision {
                major: (rev / 0x100_0000) as u8,
                minor: ((rev / 0x1_0000) % 0x100) as u8,
                patch: (rev % 0x1_0000) as u16,
            })
            &&& spec_decode_trace(seq![rev, hw]) matches Ok(t0)
            &&& t.halt == t0.halt
        }),
{
    assert(((hw >> 30u32) & 0x3) == 3) by (bit_vector)
        requires
            hw / 0x4000_0000 == 3,
    ;
    lemma_records_from_words(seq![rev], rs, hw);
    lemma_records_from_words(seq![rev], Seq::empty(), hw);
    assert(seq![rev] + records_words(Seq::<Record>::empty()) + seq![hw] =~= seq![rev, hw]);
    assert((seq![rev] + records_words(rs) + seq![hw])[0] == rev);
    assert((rev >> 24u32) as u8 == (rev / 0x100_0000) as u8 && ((rev >> 16u32) & 0xFF) as u8 == ((rev / 0x1_0000)
        % 0x100) as u8 && (rev & 0xFFFF) as u16 == (rev % 0x1_0000) as u16) by (bit_vector);
}

/// `prefix` prepended to the records of a successful result.
pub open spec fn prepend_records(
    prefix: Seq<Record>,
    r: Result<(Seq<Record>, Halt), TraceError>,
) -> Result<(Seq<Record>, Halt), TraceError> {
    match r {
        Ok((rs, h)) => Ok((prefix + rs, h)),
        Err(e) => Err(e),
    }
}

/// Decode drained ring words into a typed [`Trace`].
pub fn decode_trace(words: &[u32]) -> (res: Result<Trace, TraceError>)
    ensures
        match res {
            Ok(t) => spec_decode_trace(words@) == Ok::<TraceView, TraceError>(t@),
            Err(e) => spec_decode_trace(words@) == Err::<TraceView, TraceError>(e),
        },
{
    if words.len() == 0 {
        return Err(TraceError::Empty);
    }
    let revision = Revision::from_word(words[0]);
    let mut records: Vec<Record> = Vec::new();
    let mut i: usize = 1;
    loop
        invariant
            1 <= i,
            words@.len() > 0,
            revision == spec_revision(words@[0]),
            prepend_records(records@, spec_records_from(words@, i as int)) == spec_records_from(
                words@,
                1,
            ),
        decreases words@.len() + 1 - i,
    {
        if i >= words.len() {
            return Err(TraceError::MissingTerminator);
        }
        let w = words[i];
        let t = (w >> 30) & 0x3;
        let ghost before = records@;
        if t == 0 {
            let rec = Record::Capture { nbits: ((w >> 8) & 0xF) as u8, byte: (w & 0xFF) as u8 };
            records.push(rec);
            proof {
                match spec_records_from(words@, i + 1) {
                    Ok((rs, h)) => {
                        assert(records@ + rs =~= before + (seq![rec] + rs));
                    },
                    Err(e) => {},
                }
            }
            i = i + 1;
        } else if t == 2 {
            if i + 1 >= words.len() {
                return Err(TraceError::TruncatedMark);
            }
            let rec = Record::Mark { label: (w & 0x3FFF) as u16, payload: words[i + 1] };
            records.push(rec);
            proof {
                match spec_records_from(words@, i + 2) {
                    Ok((rs, h)) => {
                        assert(records@ + rs =~= before + (seq![rec] + rs));
                    },
                    Err(e) => {},
                }
            }
            i = i + 2;
        } else if t == 3 {
            let halt = Halt {
                reason: TrapReason::from_bits(((w >> 10) & 0x7) as u8),
                trap: (w >> 9) & 1 == 1,
                ovf: (w >> 8) & 1 == 1,
                status: (w & 0xFF) as u8,
            };
            assert(records@ + Seq::<Record>::empty() =~= records@);
            return Ok(Trace { revision, records, halt });
        } else {
            return Err(TraceError::UnknownRecordTag(t as u8));
        }
    }
}

} // verus!
