//! The loader's report of a run: the drained trace as text, with the HALT or
//! TRAP verdict, and the process exit code it implies.
use vstd::prelude::*;

use crate::abi::trace::{halt_word, lemma_halt_fields, spec_decode_trace, Halt, Record, Trace, TrapReason};
use crate::text::{push_dec, push_hex, push_hex_byte, spec_dec, spec_hex, spec_hex_byte};

verus! {

/// The spelling of a trap reason.
pub open spec fn spec_reason(r: TrapReason) -> Seq<char> {
    match r {
        TrapReason::NoTrap => "none"@,
        TrapReason::Decode => "decode"@,
        TrapReason::Config => "config"@,
        TrapReason::Rdsr => "rdsr"@,
        TrapReason::Illegal => "illegal"@,
    }
}

/// The spelling of a trap reason.
pub fn reason_str(r: TrapReason) -> (res: &'static str)
    ensures
        res@ == spec_reason(r),
{
    match r {
        TrapReason::NoTrap => "none",
        TrapReason::Decode => "decode",
        TrapReason::Config => "config",
        TrapReason::Rdsr => "rdsr",
        TrapReason::Illegal => "illegal",
    }
}

/// The spelling of a flag.
pub open spec fn spec_bool(b: bool) -> Seq<char> {
    if b {
        "true"@
    } else {
        "false"@
    }
}

/// The verdict line: a trap names its reason; a clean HALT that lost records
/// to overflow says so and never reads as ok.
pub open spec fn spec_format_halt(h: Halt) -> Seq<char> {
    if h.trap {
        "TRAP  reason="@ + spec_reason(h.reason) + "  ovf="@ + spec_bool(h.ovf) + "  status="@
            + spec_hex_byte(h.status)
    } else if h.ovf {
        "HALT  status="@ + spec_hex_byte(h.status)
            + "  ovf=true  (trace overflow \u{2014} records dropped)"@
    } else {
        "HALT  status="@ + spec_hex_byte(h.status) + "  (ok)"@
    }
}

/// Render the verdict line of a HALT terminator.
pub fn format_halt(h: &Halt) -> (res: String)
    ensures
        res@ == spec_format_halt(*h),
{
    let mut s = String::new();
    if h.trap {
        s.append("TRAP  reason=");
        s.append(reason_str(h.reason));
        s.append("  ovf=");
        if h.ovf {
            s.append("true");
        } else {
            s.append("false");
        }
        s.append("  status=");
        push_hex_byte(&mut s, h.status);
    } else if h.ovf {
        s.append("HALT  status=");
        push_hex_byte(&mut s, h.status);
        s.append("  ovf=true  (trace overflow \u{2014} records dropped)");
    } else {
        s.append("HALT  status=");
        push_hex_byte(&mut s, h.status);
        s.append("  (ok)");
    }
    assert(s@ =~= spec_format_halt(*h));
    s
}

/// The verdict line of a run that trapped names, for each value of the
/// terminator's 3-bit reason field, the reason the gateware documents for
/// it: 0 none, 1 decode, 2 config, 3 rdsr, 4 illegal (and illegal for the
/// values the engine never writes).
pub proof fn lemma_trap_line_names_reason(rev: u32, reason: u32, ovf: u32, status: u32)
    requires
        reason < 8,
        ovf < 2,
        status < 256,
    ensures
        ({
            let w = halt_word(reason as int, 1, ovf as int, status as int) as u32;
            &&& spec_decode_trace(seq![rev, w]) matches Ok(t)
            &&& spec_format_halt(t.halt) == "TRAP  reason="@ + (if reason == 0 {
                "none"@
            } else if reason == 1 {
                "decode"@
            } else if reason == 2 {
                "config"@
            } else if reason == 3 {
                "rdsr"@
            } else {
                "illegal"@
            }) + "  ovf="@ + (if ovf == 1 {
                "true"@
            } else {
                "false"@
            }) + "  status="@ + spec_hex_byte(status as u8)
        }),
{
    lemma_halt_fields(rev, reason, 1, ovf, status);
    let w = halt_word(reason as int, 1, ovf as int, status as int) as u32;
    let t = spec_decode_trace(seq![rev, w])->Ok_0;
    assert(t.halt.trap);
    assert(spec_bool(t.halt.ovf) == if ovf == 1 { "true"@ } else { "false"@ });
    assert(t.halt.status == status as u8);
}

/// The verdict line of a run that halted without a trap reports the status
/// byte, and says the run is ok exactly when the ring did not overflow.
pub proof fn lemma_halt_line(rev: u32, reason: u32, ovf: u32, status: u32)
    requires
        reason < 8,
        ovf < 2,
        status < 256,
    ensures
        ({
            let w = halt_word(reason as int, 0, ovf as int, status as int) as u32;
            &&& spec_decode_trace(seq![rev, w]) matches Ok(t)
            &&& spec_format_halt(t.halt) == if ovf == 1 {
                "HALT  status="@ + spec_hex_byte(status as u8) + "  ovf=true  (trace overflow \u{2014} records dropped)"@
            } else {
                "HALT  status="@ + spec_hex_byte(status as u8) + "  (ok)"@
            }
        }),
{
    lemma_halt_fields(rev, reason, 0, ovf, status);
    let w = halt_word(reason as int, 0, ovf as int, status as int) as u32;
    let t = spec_decode_trace(seq![rev, w])->Ok_0;
    assert(!t.halt.trap);
    assert(t.halt.ovf == (ovf == 1));
    assert(t.halt.status == status as u8);
}

/// The line of the record at index `i`.
pub open spec fn spec_record_line(i: nat, r: Record) -> Seq<char> {
    match r {
        Record::Capture { nbits, byte } => "["@ + spec_dec(i) + "] CAPTURE  nbits="@ + spec_dec(
            nbits as nat,
        ) + "  byte="@ + spec_hex_byte(byte) + "\n"@,
        Record::Mark { label, payload } => "["@ + spec_dec(i) + "] MARK     label="@ + "0x"@
            + spec_hex(label as nat, 4) + "  payload="@ + "0x"@ + spec_hex(payload as nat, 8)
            + "\n"@,
    }
}

/// The lines of a run of records, numbered from zero.
pub open spec fn spec_record_lines(rs: Seq<Record>) -> Seq<char>
    decreases rs.len(),
{
    if rs.len() == 0 {
        Seq::empty()
    } else {
        spec_record_lines(rs.drop_last()) + spec_record_line((rs.len() - 1) as nat, rs.last())
    }
}

/// The report of a run: the revision line, one line per record, then the
/// verdict line.
pub open spec fn spec_format_trace(t: Trace) -> Seq<char> {
    "REVISION "@ + spec_dec(t.revision.major as nat) + "."@ + spec_dec(t.revision.minor as nat)
        + "."@ + spec_dec(t.revision.patch as nat) + "\n"@ + spec_record_lines(t.records@)
        + spec_format_halt(t.halt) + "\n"@
}

/// Render a drained trace as the loader prints it.
pub fn format_trace(t: &Trace) -> (res: String)
    ensures
        res@ == spec_format_trace(*t),
{
    let r = &t.revision;
    let mut s = String::new();
    s.append("REVISION ");
    push_dec(&mut s, r.major as u64);
    s.append(".");
    push_dec(&mut s, r.minor as u64);
    s.append(".");
    push_dec(&mut s, r.patch as u64);
    s.append("\n");
    let ghost head = s@;
    let mut i: usize = 0;
    assert(t.records@.subrange(0, 0) =~= Seq::<Record>::empty());
    while i < t.records.len()
        invariant
            i <= t.records@.len(),
            s@ == head + spec_record_lines(t.records@.subrange(0, i as int)),
        decreases t.records@.len() - i,
    {
        let ghost before = s@;
        s.append("[");
        push_dec(&mut s, i as u64);
        match &t.records[i] {
            Record::Capture { nbits, byte } => {
                s.append("] CAPTURE  nbits=");
                push_dec(&mut s, *nbits as u64);
                s.append("  byte=");
                push_hex_byte(&mut s, *byte);
                s.append("\n");
            },
            Record::Mark { label, payload } => {
                s.append("] MARK     label=");
                push_hex(&mut s, *label as u64, 4);
                s.append("  payload=");
                push_hex(&mut s, *payload as u64, 8);
                s.append("\n");
            },
        }
        proof {
            let sub = t.records@.subrange(0, i + 1);
            assert(sub.drop_last() =~= t.records@.subrange(0, i as int));
            assert(sub.last() == t.records@[i as int]);
            reveal_strlit("0x");
            assert(s@ =~= before + spec_record_line(i as nat, t.records@[i as int]));
        }
        i = i + 1;
    }
    assert(t.records@.subrange(0, t.records@.len() as int) =~= t.records@);
    let h = format_halt(&t.halt);
    s.append(h.as_str());
    s.append("\n");
    assert(s@ =~= spec_format_trace(*t));
    s
}

/// The exit code of a run: non-zero on a trap or a trace overflow.
pub fn trace_exit_code(h: &Halt) -> (res: u8)
    ensures
        res == if h.trap || h.ovf {
            1u8
        } else {
            0u8
        },
{
    if h.trap || h.ovf {
        1
    } else {
        0
    }
}

} // verus!
