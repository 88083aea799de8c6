//! Emit: lower a `Module` to tamal-asm text, plus a source map from
//! generated-asm byte offsets back to the originating `.tam` spans. A `test`
//! becomes the entry label; `pass`/`fail`/raw become lines, `send` and
//! `crc_region` fold to `put_byte` runs (with the compile-time CRC-8), frames,
//! receives and verdicts lower to their instruction idioms, `proc` calls are
//! inlined and `repeat`s unrolled.
use vstd::prelude::*;

use crate::abi::crc8::crc8;
use crate::abi::isa::Reg;
use crate::assembler::diagnostics::{span_copy, Diagnostic, Span};
use crate::abi::crc8::spec_crc8;
use crate::lang::consteval::{chain_of, fn_index, scope_of, spec_bind, spec_eval, Env, Scope, Val, Value};
use crate::lang::parser::{Arg, Expr, FnDef, Module, ProcDef, RecvTarget, Stmt};
use crate::lang::regalloc::{clear_regs, lemma_busy_len, lemma_lowest_free, lowest_free, RegAlloc};
use crate::text::{push_dec, push_hex_byte, push_int, spec_dec, spec_hex_byte, spec_int_text, str_eq};
use vstd::string::StringSliceAdditionalSpecFns;
use vstd::utf8::encode_utf8;

verus! {

broadcast use {Reg::lemma_spec_new, Reg::lemma_value_determines};

/// The eSPI WAIT_STATE response code the `wait_state` poll spins on.
pub const WAIT_STATE_CODE: u8 = 0x0F;

/// The largest number of asm lines a single program may emit. A program is
/// at most 1024 words; labels and directives are lines but not words, so the
/// bound is looser. Its job is to stop unbounded growth.
pub const MAX_EMITTED_LINES: usize = 4096;

/// The largest number of expansions (`proc` inlines plus `repeat`
/// iterations) a single program may perform, which bounds the work of bodies
/// that emit nothing.
pub const MAX_EXPANSIONS: usize = 65536;

/// The largest `repeat` count.
pub const MAX_UNROLL: i64 = 1024;

/// What a `repeat` whose count is `n`, outside `0..=MAX_UNROLL`, is told.
pub open spec fn repeat_count_message(n: int) -> Seq<char> {
    "`repeat` count "@ + spec_int_text(n) + " is not in 0..="@ + spec_dec(MAX_UNROLL as nat)
}

/// A `repeat` statement whose count evaluates to an integer outside
/// `0..=MAX_UNROLL`: its span and what it is told.
pub open spec fn repeat_fault(consts: Scope, fns: Seq<FnDef>, locals: Scope, active: Seq<Seq<char>>, s: Stmt) -> Option<(Span, Seq<char>)> {
    match s {
        Stmt::Repeat { count, span, .. } => match spec_eval(consts, fns, locals, active, count) {
            Ok(Val::Int(n)) => if 0 <= n <= MAX_UNROLL {
                None
            } else {
                Some((span, repeat_count_message(n as int)))
            },
            _ => None,
        },
        _ => None,
    }
}

/// The `put_byte` run that sends `bs`, one line per byte.
pub open spec fn put_bytes_text(bs: Seq<u8>) -> Seq<char>
    decreases bs.len(),
{
    if bs.len() == 0 {
        Seq::empty()
    } else {
        put_bytes_text(bs.drop_last()) + "\tput_byte "@ + spec_hex_byte(bs.last()) + "\n"@
    }
}

/// The operand list of a raw instruction line: ` a, b, c`.
pub open spec fn operands_text(ops: Seq<String>) -> Seq<char>
    decreases ops.len(),
{
    if ops.len() == 0 {
        Seq::empty()
    } else if ops.len() == 1 {
        " "@ + ops[0]@
    } else {
        operands_text(ops.drop_last()) + ", "@ + ops.last()@
    }
}

/// The bytes of the `send`s of a `crc_region`, concatenated, when each one
/// folds to bytes.
pub open spec fn region_bytes(consts: Scope, fns: Seq<FnDef>, locals: Scope, active: Seq<Seq<char>>, sends: Seq<Expr>) -> Option<Seq<u8>>
    decreases sends.len(),
{
    if sends.len() == 0 {
        Some(Seq::empty())
    } else {
        match region_bytes(consts, fns, locals, active, sends.drop_last()) {
            None => None,
            Some(prefix) => match spec_eval(consts, fns, locals, active, sends.last()) {
                Ok(Val::Bytes(b)) => Some(prefix + b),
                _ => None,
            },
        }
    }
}

/// The asm a straight-line statement (one that allocates no register) lowers
/// to in the given value scope, inside a frame or not: `pass`, `fail` and
/// `config` (outside a frame), a raw instruction, `send`, `crc_region`, and
/// a `frame` (outside a frame) whose body is all straight-line. `None` for
/// every other statement, and for a `send` or `crc_region` whose operands do
/// not fold to bytes.
pub open spec fn straight_text(consts: Scope, fns: Seq<FnDef>, locals: Scope, active: Seq<Seq<char>>, s: Stmt, in_frame: bool) -> Option<Seq<char>>
    decreases s,
{
    match s {
        Stmt::Pass => if in_frame { None } else { Some("\thalt 0x00\n"@) },
        Stmt::Fail { code, .. } => if in_frame { None } else { Some("\thalt "@ + code@ + "\n"@) },
        Stmt::Raw { mnemonic, operands, .. } => Some("\t"@ + mnemonic@ + operands_text(operands@) + "\n"@),
        Stmt::Config { role, io, sck, alert, .. } => if in_frame {
            None
        } else {
            Some("\tset_config "@ + role@ + ", "@ + io@ + ", "@ + sck@ + ", "@ + alert@ + "\n"@)
        },
        Stmt::Send { bytes, append_crc, .. } => match spec_eval(consts, fns, locals, active, bytes) {
            Ok(Val::Bytes(b)) => Some(put_bytes_text(if append_crc { b.push(spec_crc8(b)) } else { b })),
            _ => None,
        },
        Stmt::CrcRegion { sends, .. } => match region_bytes(consts, fns, locals, active, sends@) {
            Some(b) => Some(put_bytes_text(b.push(spec_crc8(b)))),
            None => None,
        },
        Stmt::Frame { body, .. } => if in_frame {
            None
        } else {
            match straight_body_text(consts, fns, locals, active, body@, true) {
                Some(t) => Some("\tcs_assert\n"@ + t + "\tcs_deassert\n"@),
                None => None,
            }
        },
        _ => None,
    }
}

/// The asm a run of straight-line statements lowers to, when every one of
/// them is straight-line.
pub open spec fn straight_body_text(consts: Scope, fns: Seq<FnDef>, locals: Scope, active: Seq<Seq<char>>, stmts: Seq<Stmt>, in_frame: bool) -> Option<Seq<char>>
    decreases stmts,
{
    if stmts.len() == 0 {
        Some(Seq::empty())
    } else {
        match straight_body_text(consts, fns, locals, active, stmts.subrange(0, stmts.len() - 1), in_frame) {
            None => None,
            Some(prefix) => match straight_text(consts, fns, locals, active, stmts[stmts.len() - 1], in_frame) {
                Some(t) => Some(prefix + t),
                None => None,
            },
        }
    }
}

/// The number of asm lines a straight-line statement emits (its
/// [`straight_text`] has one line per count).
pub open spec fn straight_count(consts: Scope, fns: Seq<FnDef>, locals: Scope, active: Seq<Seq<char>>, s: Stmt, in_frame: bool) -> nat
    decreases s,
{
    match s {
        Stmt::Pass => 1,
        Stmt::Fail { .. } => 1,
        Stmt::Raw { .. } => 1,
        Stmt::Config { .. } => 1,
        Stmt::Send { bytes, append_crc, .. } => match spec_eval(consts, fns, locals, active, bytes) {
            Ok(Val::Bytes(b)) => if append_crc {
                b.len() + 1
            } else {
                b.len()
            },
            _ => 0,
        },
        Stmt::CrcRegion { sends, .. } => match region_bytes(consts, fns, locals, active, sends@) {
            Some(b) => b.len() + 1,
            None => 0,
        },
        Stmt::Frame { body, .. } => 2 + straight_body_count(consts, fns, locals, active, body@, true),
        _ => 0,
    }
}

/// The number of asm lines a run of straight-line statements emits.
pub open spec fn straight_body_count(consts: Scope, fns: Seq<FnDef>, locals: Scope, active: Seq<Seq<char>>, stmts: Seq<Stmt>, in_frame: bool) -> nat
    decreases stmts,
{
    if stmts.len() == 0 {
        0
    } else {
        straight_body_count(consts, fns, locals, active, stmts.subrange(0, stmts.len() - 1), in_frame)
            + straight_count(consts, fns, locals, active, stmts[stmts.len() - 1], in_frame)
    }
}

/// A run of `pass`, `fail` and raw instructions outside a frame is
/// straight-line, one line per statement.
pub proof fn lemma_plain_straight(consts: Scope, fns: Seq<FnDef>, locals: Scope, active: Seq<Seq<char>>, stmts: Seq<Stmt>)
    requires
        forall|q: int| 0 <= q < stmts.len() ==> (#[trigger] stmts[q] is Pass || stmts[q] is Fail || stmts[q] is Raw),
    ensures
        straight_body_text(consts, fns, locals, active, stmts, false) is Some,
        straight_body_count(consts, fns, locals, active, stmts, false) == stmts.len(),
    decreases stmts.len(),
{
    if stmts.len() > 0 {
        let p = stmts.subrange(0, stmts.len() - 1);
        assert forall|q: int| 0 <= q < p.len() implies (#[trigger] p[q] is Pass || p[q] is Fail || p[q] is Raw) by {
            assert(p[q] == stmts[q]);
        }
        lemma_plain_straight(consts, fns, locals, active, p);
        let last = stmts[stmts.len() - 1];
        assert(last is Pass || last is Fail || last is Raw);
        assert(straight_text(consts, fns, locals, active, last, false) is Some && straight_count(
            consts,
            fns,
            locals,
            active,
            last,
            false,
        ) == 1) by {
            match last {
                Stmt::Pass => {},
                Stmt::Fail { .. } => {},
                Stmt::Raw { .. } => {},
                _ => {},
            }
        }
    }
}

/// `n` lines all mapped to `sp`.
pub open spec fn span_run(n: nat, sp: Span) -> Seq<Span> {
    Seq::new(n, |k: int| sp)
}

/// The `.tam` spans of the lines of a source map, in order.
pub open spec fn tam_of(lines: Seq<(Span, Span)>) -> Seq<Span> {
    lines.map_values(|l: (Span, Span)| l.1)
}

/// The `.tam` spans the lines of a straight-line statement map to: its own
/// span (a `pass` the test's name, `entry`), and a frame's body in between
/// the frame's own lines.
pub open spec fn straight_spans(
    consts: Scope,
    fns: Seq<FnDef>,
    locals: Scope,
    active: Seq<Seq<char>>,
    s: Stmt,
    in_frame: bool,
    entry: Span,
) -> Seq<Span>
    decreases s,
{
    match s {
        Stmt::Pass => seq![entry],
        Stmt::Fail { span, .. } => seq![span],
        Stmt::Raw { span, .. } => seq![span],
        Stmt::Config { span, .. } => seq![span],
        Stmt::Send { span, .. } => span_run(straight_count(consts, fns, locals, active, s, in_frame), span),
        Stmt::CrcRegion { span, .. } => span_run(straight_count(consts, fns, locals, active, s, in_frame), span),
        Stmt::Frame { body, span } => seq![span] + straight_body_spans(consts, fns, locals, active, body@, true, entry)
            + seq![span],
        _ => Seq::empty(),
    }
}

/// The `.tam` spans the lines of a run of straight-line statements map to.
pub open spec fn straight_body_spans(
    consts: Scope,
    fns: Seq<FnDef>,
    locals: Scope,
    active: Seq<Seq<char>>,
    stmts: Seq<Stmt>,
    in_frame: bool,
    entry: Span,
) -> Seq<Span>
    decreases stmts,
{
    if stmts.len() == 0 {
        Seq::empty()
    } else {
        straight_body_spans(consts, fns, locals, active, stmts.subrange(0, stmts.len() - 1), in_frame, entry)
            + straight_spans(consts, fns, locals, active, stmts[stmts.len() - 1], in_frame, entry)
    }
}

proof fn lemma_straight_count_prefix(consts: Scope, fns: Seq<FnDef>, locals: Scope, active: Seq<Seq<char>>, stmts: Seq<Stmt>, k: int, in_frame: bool)
    requires
        0 <= k <= stmts.len(),
    ensures
        straight_body_count(consts, fns, locals, active, stmts.subrange(0, k), in_frame)
            <= straight_body_count(consts, fns, locals, active, stmts, in_frame),
    decreases stmts.len(),
{
    if k == stmts.len() {
        assert(stmts.subrange(0, k) =~= stmts);
    } else {
        let p = stmts.subrange(0, stmts.len() - 1);
        lemma_straight_count_prefix(consts, fns, locals, active, p, k, in_frame);
        assert(p.subrange(0, k) =~= stmts.subrange(0, k));
    }
}

proof fn lemma_region_prefix(consts: Scope, fns: Seq<FnDef>, locals: Scope, active: Seq<Seq<char>>, sends: Seq<Expr>, k: int)
    requires
        0 <= k <= sends.len(),
        region_bytes(consts, fns, locals, active, sends) is Some,
    ensures
        region_bytes(consts, fns, locals, active, sends.subrange(0, k)) is Some,
    decreases sends.len(),
{
    if k == sends.len() {
        assert(sends.subrange(0, k) =~= sends);
    } else {
        let p = sends.drop_last();
        lemma_region_prefix(consts, fns, locals, active, p, k);
        assert(p.subrange(0, k) =~= sends.subrange(0, k));
    }
}

proof fn lemma_straight_prefix(consts: Scope, fns: Seq<FnDef>, locals: Scope, active: Seq<Seq<char>>, stmts: Seq<Stmt>, k: int, in_frame: bool)
    requires
        0 <= k <= stmts.len(),
        straight_body_text(consts, fns, locals, active, stmts, in_frame) is Some,
    ensures
        straight_body_text(consts, fns, locals, active, stmts.subrange(0, k), in_frame) is Some,
    decreases stmts.len(),
{
    if k == stmts.len() {
        assert(stmts.subrange(0, k) =~= stmts);
    } else {
        let p = stmts.subrange(0, stmts.len() - 1);
        lemma_straight_prefix(consts, fns, locals, active, p, k, in_frame);
        assert(p.subrange(0, k) =~= stmts.subrange(0, k));
    }
}

/// The product of lowering: the tamal-asm text and a per-line source map,
/// so a backend diagnostic (whose spans index the generated asm) can be
/// re-pointed at the `.tam` span that produced the offending line.
#[derive(Debug)]
pub struct Lowering {
    /// The generated tamal-asm text.
    pub asm_text: String,
    /// `(asm byte range, originating .tam span)` per emitted line, in order.
    pub lines: Vec<(Span, Span)>,
}

/// A source map whose asm ranges follow one another from offset 0, one per
/// line, the last ending at `len`.
pub open spec fn map_ok(lines: Seq<(Span, Span)>, len: usize) -> bool {
    &&& forall|i: int| 0 <= i < lines.len() ==> (#[trigger] lines[i]).0.start <= lines[i].0.end
    &&& forall|i: int| 0 <= i < lines.len() - 1 ==> (#[trigger] lines[i]).0.end == lines[i + 1].0.start
    &&& lines.len() > 0 ==> lines[0].0.start == 0 && lines.last().0.end == len
    &&& lines.len() == 0 ==> len == 0
}

/// The index of the first line whose asm range holds offset `at`.
pub open spec fn line_of(lines: Seq<(Span, Span)>, at: usize, k: int) -> Option<int>
    decreases lines.len() - k,
{
    if k < 0 || k >= lines.len() {
        None
    } else if lines[k].0.start <= at < lines[k].0.end {
        Some(k)
    } else {
        line_of(lines, at, k + 1)
    }
}

/// The `.tam` span an asm span maps to: that of the line holding its start,
/// else that of the last line, else the empty span.
pub open spec fn spec_tam_span(lines: Seq<(Span, Span)>, at: Span) -> Span {
    match line_of(lines, at.start, 0) {
        Some(k) => lines[k].1,
        None => if lines.len() > 0 {
            lines.last().1
        } else {
            0..0
        },
    }
}

proof fn lemma_ends_before(lines: Seq<(Span, Span)>, len: usize, j: int, k: int)
    requires
        map_ok(lines, len),
        0 <= j < k < lines.len(),
    ensures
        lines[j].0.end <= lines[k].0.start,
    decreases k - j,
{
    if j + 1 < k {
        lemma_ends_before(lines, len, j + 1, k);
        assert(lines[j + 1].0.start <= lines[j + 1].0.end);
    }
}

/// In a well-formed source map, an asm span that starts inside line `k`'s
/// range maps to line `k`'s `.tam` span.
pub proof fn lemma_tam_span_of_line(lines: Seq<(Span, Span)>, len: usize, k: int, at: Span)
    requires
        map_ok(lines, len),
        0 <= k < lines.len(),
        lines[k].0.start <= at.start < lines[k].0.end,
    ensures
        spec_tam_span(lines, at) == lines[k].1,
{
    assert forall|j: int| 0 <= j <= k implies line_of(lines, at.start, j) == Some(k) by {
        lemma_line_of_from(lines, len, k, at, j);
    }
    assert(line_of(lines, at.start, 0) == Some(k));
}

proof fn lemma_line_of_from(lines: Seq<(Span, Span)>, len: usize, k: int, at: Span, j: int)
    requires
        map_ok(lines, len),
        0 <= j <= k < lines.len(),
        lines[k].0.start <= at.start < lines[k].0.end,
    ensures
        line_of(lines, at.start, j) == Some(k),
    decreases k - j,
{
    if j < k {
        lemma_ends_before(lines, len, j, k);
        lemma_line_of_from(lines, len, k, at, j + 1);
    }
}

proof fn lemma_encode_concat(a: Seq<char>, b: Seq<char>)
    ensures
        encode_utf8(a + b) == encode_utf8(a) + encode_utf8(b),
    decreases a.len(),
{
    if a.len() == 0 {
        assert(a + b =~= b);
    } else {
        lemma_encode_concat(a.drop_first(), b);
        assert((a + b).drop_first() =~= a.drop_first() + b);
        assert((a + b)[0] == a[0]);
    }
}

impl Lowering {
    /// Map a generated-asm byte span to the `.tam` span of the line holding
    /// its start; falls back to the last line, then to an empty span.
    pub fn tam_span(&self, at: &Span) -> (res: Span)
        ensures
            res == spec_tam_span(self.lines@, *at),
    {
        let mut k: usize = 0;
        while k < self.lines.len()
            invariant
                k <= self.lines@.len(),
                line_of(self.lines@, at.start, 0) == line_of(self.lines@, at.start, k as int),
            decreases self.lines@.len() - k,
        {
            let r = &self.lines[k].0;
            if r.start <= at.start && at.start < r.end {
                return span_copy(&self.lines[k].1);
            }
            k = k + 1;
        }
        if self.lines.len() > 0 {
            span_copy(&self.lines[self.lines.len() - 1].1)
        } else {
            0..0
        }
    }

    /// Re-point a batch of backend diagnostics from generated-asm offsets
    /// back to the `.tam` source spans that produced them.
    pub fn remap(&self, diags: Vec<Diagnostic>) -> (res: Vec<Diagnostic>)
        ensures
            res@.len() == diags@.len(),
            forall|i: int| 0 <= i < res@.len() ==> (#[trigger] res@[i]).primary == spec_tam_span(
                self.lines@,
                diags@[i].primary,
            ) && res@[i].message == diags@[i].message && res@[i].labels@.len()
                == diags@[i].labels@.len(),
    {
        let mut out: Vec<Diagnostic> = Vec::new();
        let mut diags = diags;
        let ghost orig = diags@;
        let n = diags.len();
        let mut rev: Vec<Diagnostic> = Vec::new();
        while diags.len() > 0
            invariant
                diags@.len() + rev@.len() == n,
                n == orig.len(),
                diags@ == orig.subrange(0, diags@.len() as int),
                forall|j: int| 0 <= j < rev@.len() ==> (#[trigger] rev@[j]) == orig[n - 1 - j],
            decreases diags@.len(),
        {
            let d = diags.pop().unwrap();
            rev.push(d);
        }
        while rev.len() > 0
            invariant
                rev@.len() + out@.len() == n,
                n == orig.len(),
                forall|j: int| 0 <= j < rev@.len() ==> (#[trigger] rev@[j]) == orig[n - 1 - j],
                forall|i: int| 0 <= i < out@.len() ==> (#[trigger] out@[i]).primary == spec_tam_span(
                    self.lines@,
                    orig[i].primary,
                ) && out@[i].message == orig[i].message && out@[i].labels@.len()
                    == orig[i].labels@.len(),
            decreases rev@.len(),
        {
            let d = rev.pop().unwrap();
            let mut d = d;
            d.primary = self.tam_span(&d.primary);
            let mut labels: Vec<(Span, String)> = Vec::new();
            std::mem::swap(&mut labels, &mut d.labels);
            let mut mapped: Vec<(Span, String)> = Vec::new();
            let mut k: usize = 0;
            while k < labels.len()
                invariant
                    k <= labels@.len(),
                    mapped@.len() == k,
                decreases labels@.len() - k,
            {
                let sp = self.tam_span(&labels[k].0);
                mapped.push((sp, labels[k].1.clone()));
                k = k + 1;
            }
            d.labels = mapped;
            out.push(d);
        }
        out
    }
}

/// A verdict branch an `expect` deferred to its enclosing `frame`: after CS
/// deasserts, `bnez <reg>, <label>`, with `<label>: halt <code>` hoisted to a
/// trailer.
#[derive(Debug)]
struct Deferred {
    reg: Reg,
    label: String,
    code: u8,
    span: Span,
}

/// The `proc`s of a table not on the chain of expansions in progress.
pub open spec fn proc_fuel(procs: Seq<ProcDef>, active: Seq<Seq<char>>) -> nat
    decreases procs.len(),
{
    if procs.len() == 0 {
        0
    } else {
        proc_fuel(procs.drop_last(), active) + if active.contains(procs.last().name@) {
            0nat
        } else {
            1nat
        }
    }
}

proof fn lemma_proc_fuel_push(procs: Seq<ProcDef>, active: Seq<Seq<char>>, n: Seq<char>, k: int)
    requires
        0 <= k < procs.len(),
        procs[k].name@ == n,
        !active.contains(n),
    ensures
        proc_fuel(procs, active.push(n)) < proc_fuel(procs, active),
    decreases procs.len(),
{
    lemma_proc_fuel_mono(procs.drop_last(), active, n);
    if k < procs.len() - 1 {
        assert(procs.drop_last()[k] == procs[k]);
        lemma_proc_fuel_push(procs.drop_last(), active, n, k);
    }
    assert(active.push(n).contains(n)) by {
        assert(active.push(n)[active.len() as int] == n);
    }
    let last = procs.last().name@;
    if active.contains(last) {
        let j = choose|j: int| 0 <= j < active.len() && active[j] == last;
        assert(active.push(n)[j] == last);
    }
}

proof fn lemma_proc_fuel_mono(procs: Seq<ProcDef>, active: Seq<Seq<char>>, n: Seq<char>)
    ensures
        proc_fuel(procs, active.push(n)) <= proc_fuel(procs, active),
    decreases procs.len(),
{
    if procs.len() > 0 {
        lemma_proc_fuel_mono(procs.drop_last(), active, n);
        let last = procs.last().name@;
        if active.contains(last) {
            let j = choose|j: int| 0 <= j < active.len() && active[j] == last;
            assert(active.push(n)[j] == last);
        }
    }
}

/// The names on a chain of expansions.
pub open spec fn names_of(v: Seq<String>) -> Seq<Seq<char>> {
    v.map_values(|s: String| s@)
}

/// The lowering state: the growing asm text and source map, the register
/// allocator, the frames and expansions in progress.
struct Emitter<'a> {
    env: Env,
    locals: Vec<(String, Value)>,
    fn_chain: Vec<String>,
    asm_text: String,
    lines: Vec<(Span, Span)>,
    alloc: RegAlloc,
    gensym: u32,
    trailers: Vec<(Span, String, u8)>,
    frames: Vec<Vec<Deferred>>,
    procs: &'a [ProcDef],
    active_procs: Vec<String>,
    expansions: usize,
    expansion_sites: Vec<Span>,
}

/// The text of an `xN` register operand.
fn reg_name(reg: Reg) -> (res: String)
    ensures
        res@ == "x"@ + spec_dec(reg.value() as nat),
{
    let mut s = String::new();
    s.append("x");
    push_dec(&mut s, reg.bits() as u64);
    s
}

/// The best source span for a statement: `pass` borrows the test's entry
/// span.
fn stmt_span(stmt: &Stmt, entry: &Span) -> (res: Span)
    ensures
        res == match *stmt {
            Stmt::Pass => *entry,
            Stmt::Fail { span, .. } => span,
            Stmt::Raw { span, .. } => span,
            Stmt::Send { span, .. } => span,
            Stmt::CrcRegion { span, .. } => span,
            Stmt::Config { span, .. } => span,
            Stmt::Frame { span, .. } => span,
            Stmt::Recv { span, .. } => span,
            Stmt::WaitState { span, .. } => span,
            Stmt::Expect { span, .. } => span,
            Stmt::Call { span, .. } => span,
            Stmt::Repeat { span, .. } => span,
        },
{
    match stmt {
        Stmt::Pass => span_copy(entry),
        Stmt::Fail { span, .. } => span_copy(span),
        Stmt::Raw { span, .. } => span_copy(span),
        Stmt::Send { span, .. } => span_copy(span),
        Stmt::CrcRegion { span, .. } => span_copy(span),
        Stmt::Config { span, .. } => span_copy(span),
        Stmt::Frame { span, .. } => span_copy(span),
        Stmt::Recv { span, .. } => span_copy(span),
        Stmt::WaitState { span, .. } => span_copy(span),
        Stmt::Expect { span, .. } => span_copy(span),
        Stmt::Call { span, .. } => span_copy(span),
        Stmt::Repeat { span, .. } => span_copy(span),
    }
}

fn err1(d: Diagnostic) -> (res: Vec<Diagnostic>)
    ensures
        res@ == seq![d],
{
    vec![d]
}

impl<'a> Emitter<'a> {
    spec fn wf(&self) -> bool {
        &&& self.alloc.wf()
        &&& map_ok(self.lines@, encode_utf8(self.asm_text@).len() as usize)
        &&& self.lines@.len() <= MAX_EMITTED_LINES
        &&& self.expansions <= MAX_EXPANSIONS
    }

    /// What a straight-line statement lowers to in this emitter's value scope.
    spec fn straight_of(&self, s: Stmt) -> Option<Seq<char>> {
        straight_text(self.env.consts_view(), self.env.fns_view(), scope_of(self.locals@), chain_of(self.fn_chain@), s, self.frames@.len() > 0)
    }

    /// The asm lines a straight-line statement emits in this emitter's scope.
    spec fn count_of(&self, s: Stmt) -> nat {
        straight_count(self.env.consts_view(), self.env.fns_view(), scope_of(self.locals@), chain_of(self.fn_chain@), s, self.frames@.len() > 0)
    }

    /// The `.tam` spans of the lines a straight-line statement emits.
    spec fn spans_of(&self, s: Stmt, entry: Span) -> Seq<Span> {
        straight_spans(self.env.consts_view(), self.env.fns_view(), scope_of(self.locals@), chain_of(self.fn_chain@), s, self.frames@.len() > 0, entry)
    }

    /// The `.tam` spans of the lines a run of straight-line statements emits.
    spec fn body_spans_of(&self, stmts: Seq<Stmt>, entry: Span) -> Seq<Span> {
        straight_body_spans(self.env.consts_view(), self.env.fns_view(), scope_of(self.locals@), chain_of(self.fn_chain@), stmts, self.frames@.len() > 0, entry)
    }

    /// The count fault of a `repeat` statement in this emitter's scope.
    spec fn fault_of(&self, s: Stmt) -> Option<(Span, Seq<char>)> {
        repeat_fault(self.env.consts_view(), self.env.fns_view(), scope_of(self.locals@), chain_of(self.fn_chain@), s)
    }

    /// The asm lines a run of straight-line statements emits.
    spec fn body_count_of(&self, stmts: Seq<Stmt>) -> nat {
        straight_body_count(self.env.consts_view(), self.env.fns_view(), scope_of(self.locals@), chain_of(self.fn_chain@), stmts, self.frames@.len() > 0)
    }

    /// What a run of straight-line statements lowers to in this emitter's
    /// value scope.
    spec fn straight_body_of(&self, stmts: Seq<Stmt>) -> Option<Seq<char>> {
        straight_body_text(self.env.consts_view(), self.env.fns_view(), scope_of(self.locals@), chain_of(self.fn_chain@), stmts, self.frames@.len() > 0)
    }

    /// Append one asm line and record its `(asm byte range, .tam span)`
    /// mapping; fails only past the line budget.
    fn push(&mut self, text: &str, span: &Span) -> (res: Result<(), Vec<Diagnostic>>)
        requires
            old(self).wf(),
        ensures
            final(self).wf(),
            final(self).procs == old(self).procs,
            final(self).active_procs == old(self).active_procs,
            final(self).frames@.len() == old(self).frames@.len(),
            res is Err ==> res->Err_0@.len() == 1,
            same_ctx(*old(self), *final(self)),
            res is Ok ==> final(self).asm_text@ == old(self).asm_text@ + text@,
            res is Err ==> final(self).asm_text == old(self).asm_text,
            res is Ok <==> old(self).lines@.len() < MAX_EMITTED_LINES,
            res is Ok ==> final(self).lines@.drop_last() == old(self).lines@ && final(self).lines@.len()
                == old(self).lines@.len() + 1 && final(self).lines@.last().1 == *span,
            res is Err ==> final(self).lines@ == old(self).lines@,
            res is Ok ==> tam_of(final(self).lines@) == tam_of(old(self).lines@).push(*span),
            final(self).alloc == old(self).alloc,
            final(self).gensym == old(self).gensym,
            final(self).expansions == old(self).expansions,
            final(self).expansion_sites == old(self).expansion_sites,
    {
        if self.lines.len() >= MAX_EMITTED_LINES {
            let mut m = String::new();
            m.append("the program emits more than ");
            m.append(MAX_EMITTED_LINES.to_string().as_str());
            m.append(" asm lines");
            return Err(self.budget_error(
                span,
                m,
                "a tamal program is at most 1024 words \u{2014} reduce a `repeat` count, or a `proc` that expands to more calls than it looks like",
            ));
        }
        let start = self.asm_text.as_str().as_bytes().len();
        let mut out = String::new();
        std::mem::swap(&mut out, &mut self.asm_text);
        out.append(text);
        let end = out.as_str().as_bytes().len();
        self.asm_text = out;
        let ghost before = self.lines@;
        self.lines.push((start..end, span_copy(span)));
        proof {
            lemma_encode_concat(old(self).asm_text@, text@);
            assert(start <= end);
            assert forall|i: int| 0 <= i < self.lines@.len() implies (#[trigger] self.lines@[i]).0.start <= self.lines@[i].0.end by {
                if i < before.len() {
                    assert(self.lines@[i] == before[i]);
                }
            }
            assert(tam_of(self.lines@) =~= tam_of(before).push(*span));
            assert(before.len() > 0 ==> before.last().0.end == start);
            assert(self.lines@.last().0.end == end);
            assert(self.lines@.drop_last() == before);
            assert forall|i: int| 0 <= i < self.lines@.len() - 1 implies (#[trigger] self.lines@[i]).0.end == self.lines@[i + 1].0.start by {
                if i < before.len() - 1 {
                    assert(self.lines@[i] == before[i] && self.lines@[i + 1] == before[i + 1]);
                } else {
                    assert(self.lines@[i] == before[i]);
                }
            }
        }
        Ok(())
    }

    spec fn fuel(&self) -> nat {
        proc_fuel(self.procs@, names_of(self.active_procs@))
    }

    /// The diagnostic for either compile-time budget: the caret on the
    /// outermost expansion in progress, every nested expansion labelled, and
    /// the place the budget ran out.
    fn budget_error(&self, site: &Span, message: String, help: &str) -> (res: Vec<Diagnostic>)
        ensures
            res@.len() == 1,
    {
        let primary = if self.expansion_sites.len() > 0 {
            span_copy(&self.expansion_sites[0])
        } else {
            span_copy(site)
        };
        let mut d = Diagnostic::error_owned(span_copy(&primary), message).with_help(help);
        let mut k: usize = 1;
        while k < self.expansion_sites.len()
            invariant
                1 <= k,
            decreases self.expansion_sites@.len() - k,
        {
            d = d.with_label(span_copy(&self.expansion_sites[k]), "nested expansion");
            k = k + 1;
        }
        if !(primary.start == site.start && primary.end == site.end) {
            d = d.with_label(span_copy(site), "the budget ran out here");
        }
        vec![d]
    }
}

/// The verdict trailers, each `<label>:` then `halt <code>`.
spec fn trailers_text(ts: Seq<(Span, String, u8)>) -> Seq<char>
    decreases ts.len(),
{
    if ts.len() == 0 {
        Seq::empty()
    } else {
        trailers_text(ts.drop_last()) + ts.last().1@ + ":\n"@ + "\thalt "@ + spec_hex_byte(ts.last().2) + "\n"@
    }
}

/// `busy` with the registers of pending verdicts marked in use.
spec fn mark_deferred(busy: Seq<bool>, ds: Seq<Deferred>) -> Seq<bool>
    decreases ds.len(),
{
    if ds.len() == 0 {
        busy
    } else {
        let b = mark_deferred(busy, ds.drop_last());
        let r = ds.last().reg.value() as int;
        if r < 16 {
            b.update(r, true)
        } else {
            b
        }
    }
}

/// What a `recv` of `targets` emits and leaves busy, from the busy set
/// `busy`: each target reads one byte into the lowest free register, a name
/// keeps its register and `_` frees it at once. `None` when the registers run
/// out.
spec fn recv_spec(busy: Seq<bool>, targets: Seq<RecvTarget>) -> Option<(Seq<char>, Seq<bool>)>
    decreases targets.len(),
{
    if targets.len() == 0 {
        Some((Seq::empty(), busy))
    } else {
        match recv_spec(busy, targets.drop_last()) {
            None => None,
            Some((t, b)) => match lowest_free(b) {
                None => None,
                Some(n) => Some(
                    (
                        t + "\tget_byte "@ + "x"@ + spec_dec(n as nat) + "\n"@,
                        if targets.last() is Name {
                            b.update(n, true)
                        } else {
                            b
                        },
                    ),
                ),
            },
        }
    }
}

/// The index of the last `proc` named `name`.
spec fn last_proc(procs: Seq<ProcDef>, name: Seq<char>) -> Option<int>
    decreases procs.len(),
{
    if procs.len() == 0 {
        None
    } else if procs.last().name@ == name {
        Some(procs.len() - 1)
    } else {
        last_proc(procs.drop_last(), name)
    }
}

/// `t` written `n` times.
spec fn repeat_text(t: Seq<char>, n: nat) -> Seq<char>
    decreases n,
{
    if n == 0 {
        Seq::empty()
    } else {
        repeat_text(t, (n - 1) as nat) + t
    }
}

/// The registers a `wait_state` uses from the busy set `busy`: the lowest
/// free one for the response byte, then the lowest free one after it for the
/// WAIT_STATE code. `None` when the registers run out.
spec fn wait_regs(busy: Seq<bool>) -> Option<(int, int)> {
    match lowest_free(busy) {
        None => None,
        Some(r) => match lowest_free(busy.update(r, true)) {
            None => None,
            Some(k) => Some((r, k)),
        },
    }
}

/// The operand text of register `xn`.
spec fn xreg(n: int) -> Seq<char> {
    "x"@ + spec_dec(n as nat)
}

/// The label of the `wait_state` poll loop numbered `c`.
spec fn wait_label(c: u32) -> Seq<char> {
    "__"@ + "wait"@ + spec_dec(c as nat)
}

/// The value scope, the pending trailers and the open frames are as they
/// were.
spec fn same_ctx<'a>(old_e: Emitter<'a>, new_e: Emitter<'a>) -> bool {
    &&& new_e.env == old_e.env
    &&& new_e.locals@ == old_e.locals@
    &&& new_e.fn_chain@ == old_e.fn_chain@
    &&& new_e.trailers@ == old_e.trailers@
    &&& new_e.frames@ == old_e.frames@
}

/// What every lowering step keeps: the emitter stays well formed, the
/// `proc` table and the chain of `proc` expansions are as they were, and an
/// error is one diagnostic.
spec fn step_kept<'a>(old_e: Emitter<'a>, new_e: Emitter<'a>, res: Result<(), Vec<Diagnostic>>) -> bool {
    &&& new_e.wf()
    &&& new_e.procs == old_e.procs
    &&& new_e.active_procs@ == old_e.active_procs@
    &&& new_e.frames@.len() == old_e.frames@.len()
    &&& res is Err ==> res->Err_0@.len() == 1
}

impl<'a> Emitter<'a> {
    fn flush_trailers(&mut self) -> (res: Result<(), Vec<Diagnostic>>)
        requires
            old(self).wf(),
        ensures
            step_kept(*old(self), *final(self), res),
            old(self).trailers@.len() == 0 ==> same_ctx(*old(self), *final(self)) && final(self).asm_text@ == old(self).asm_text@,
            res is Ok ==> final(self).asm_text@ == old(self).asm_text@ + trailers_text(old(self).trailers@),
            final(self).trailers@.len() == 0,
            old(self).trailers@.len() == 0 ==> res is Ok && final(self).lines@ == old(self).lines@,
    {
        let mut trailers: Vec<(Span, String, u8)> = Vec::new();
        std::mem::swap(&mut trailers, &mut self.trailers);
        let mut k: usize = 0;
        while k < trailers.len()
            invariant
                self.wf(),
                self.procs == old(self).procs,
                self.active_procs@ == old(self).active_procs@,
                self.frames@.len() == old(self).frames@.len(),
                old(self).trailers@.len() == 0 ==> k == 0 && trailers@.len() == 0 && self.trailers@.len() == 0,
                self.env == old(self).env,
                self.locals@ == old(self).locals@,
                self.fn_chain@ == old(self).fn_chain@,
                self.frames@ == old(self).frames@,
                old(self).trailers@.len() == 0 ==> self.asm_text@ == old(self).asm_text@ && self.lines@
                    == old(self).lines@,
                k <= trailers@.len(),
                trailers@ == old(self).trailers@,
                self.trailers@.len() == 0,
                self.asm_text@ == old(self).asm_text@ + trailers_text(trailers@.subrange(0, k as int)),
            decreases trailers@.len() - k,
        {
            let (span, label, code) = (&trailers[k].0, &trailers[k].1, trailers[k].2);
            let mut l1 = String::new();
            l1.append(label.as_str());
            l1.append(":\n");
            self.push(l1.as_str(), span)?;
            let mut l2 = String::new();
            l2.append("\thalt ");
            push_hex_byte(&mut l2, code);
            l2.append("\n");
            self.push(l2.as_str(), span)?;
            proof {
                let p = trailers@.subrange(0, k + 1);
                assert(p.drop_last() =~= trailers@.subrange(0, k as int));
                assert(l1@ =~= label@ + ":\n"@);
                assert(l2@ =~= "\thalt "@ + spec_hex_byte(code) + "\n"@);
                assert(self.asm_text@ =~= old(self).asm_text@ + trailers_text(p));
            }
            k = k + 1;
        }
        assert(trailers@.subrange(0, trailers@.len() as int) =~= trailers@);
        proof {
            if old(self).trailers@.len() == 0 {
                assert(self.trailers@ =~= old(self).trailers@);
            }
        }
        Ok(())
    }

    /// A fresh label `__<prefix><n>`.
    fn gensym(&mut self, prefix: &str) -> (res: String)
        requires
            old(self).wf(),
        ensures
            final(self).wf(),
            final(self).procs == old(self).procs,
            final(self).active_procs@ == old(self).active_procs@,
            final(self).frames@.len() == old(self).frames@.len(),
            res@ == "__"@ + prefix@ + spec_dec(old(self).gensym as nat),
            final(self).gensym == if old(self).gensym == u32::MAX {
                0
            } else {
                (old(self).gensym + 1) as u32
            },
            same_ctx(*old(self), *final(self)),
            final(self).asm_text == old(self).asm_text,
            final(self).lines == old(self).lines,
            final(self).alloc == old(self).alloc,
            final(self).expansions == old(self).expansions,
    {
        let mut label = String::new();
        label.append("__");
        label.append(prefix);
        push_dec(&mut label, self.gensym as u64);
        self.gensym = self.gensym.wrapping_add(1);
        assert(label@ =~= "__"@ + prefix@ + spec_dec(old(self).gensym as nat));
        label
    }

    /// Lower one statement. `pass`, `fail`, `config` and `frame` are refused
    /// inside a `frame`; `entry` is the test's name span.
    #[verifier::spinoff_prover]
    #[verifier::rlimit(40)]
    fn stmt(&mut self, stmt: &Stmt, entry: &Span) -> (res: Result<(), Vec<Diagnostic>>)
        requires
            old(self).wf(),
        ensures
            step_kept(*old(self), *final(self), res),
            old(self).straight_of(*stmt) is Some ==> same_ctx(*old(self), *final(self)) && (res is Ok
                ==> final(self).asm_text@ == old(self).asm_text@ + old(self).straight_of(*stmt)->0),
            old(self).straight_of(*stmt) is Some ==> (res is Ok ==> final(self).lines@.len() == old(
                self,
            ).lines@.len() + old(self).count_of(*stmt)) && (old(self).lines@.len() + old(self).count_of(*stmt)
                <= MAX_EMITTED_LINES ==> res is Ok),
            old(self).straight_of(*stmt) is Some && res is Ok ==> tam_of(final(self).lines@) == tam_of(
                old(self).lines@,
            ) + old(self).spans_of(*stmt, *entry),
            old(self).fault_of(*stmt) matches Some((sp, m)) ==> (res matches Err(ds) && ds@[0].primary == sp
                && ds@[0].message@ == m),
        decreases proc_fuel(old(self).procs@, names_of(old(self).active_procs@)), *stmt, 2nat,
    {
        let in_frame = self.frames.len() > 0;
        if in_frame && matches!(stmt, Stmt::Pass | Stmt::Fail { .. } | Stmt::Config { .. } | Stmt::Frame { .. }) {
            return Err(err1(Diagnostic::error(stmt_span(stmt, entry), "this statement is not allowed inside a `frame`")));
        }
        match stmt {
            Stmt::Pass => {
                let r = self.push("\thalt 0x00\n", entry);
                assert(tam_of(old(self).lines@) + seq![*entry] =~= tam_of(old(self).lines@).push(*entry));
                r
            },
            Stmt::Fail { code, span } => {
                let mut t = String::new();
                t.append("\thalt ");
                t.append(code.as_str());
                t.append("\n");
                assert(t@ =~= "\thalt "@ + code@ + "\n"@);
                let r = self.push(t.as_str(), span);
                assert(tam_of(old(self).lines@) + seq![*span] =~= tam_of(old(self).lines@).push(*span));
                r
            },
            Stmt::Raw { mnemonic, operands, span } => {
                let mut t = String::new();
                t.append("\t");
                t.append(mnemonic.as_str());
                let mut k: usize = 0;
                while k < operands.len()
                    invariant
                        k <= operands@.len(),
                        t@ == "\t"@ + mnemonic@ + operands_text(operands@.subrange(0, k as int)),
                    decreases operands@.len() - k,
                {
                    let ghost before = t@;
                    if k == 0 {
                        t.append(" ");
                    } else {
                        t.append(", ");
                    }
                    t.append(operands[k].as_str());
                    proof {
                        let p = operands@.subrange(0, k + 1);
                        assert(p.drop_last() =~= operands@.subrange(0, k as int));
                        assert(p.last() == operands@[k as int]);
                        if k == 0 {
                            assert(operands@.subrange(0, 0) =~= Seq::<String>::empty());
                            assert(p[0] == operands@[0]);
                        }
                        assert(t@ =~= "\t"@ + mnemonic@ + operands_text(p));
                    }
                    k = k + 1;
                }
                t.append("\n");
                assert(operands@.subrange(0, operands@.len() as int) =~= operands@);
                assert(t@ =~= "\t"@ + mnemonic@ + operands_text(operands@) + "\n"@);
                let r = self.push(t.as_str(), span);
                assert(tam_of(old(self).lines@) + seq![*span] =~= tam_of(old(self).lines@).push(*span));
                r
            },
            Stmt::Send { bytes, append_crc, span } => {
                let mut bs = match self.env.eval_scoped(&self.locals, &self.fn_chain, bytes) {
                    Ok(Value::Bytes(b)) => b,
                    Ok(Value::Int(_)) => {
                        return Err(err1(Diagnostic::error(bytes.span(), "expected bytes, found an integer")));
                    },
                    Err(d) => {
                        return Err(err1(d));
                    },
                };
                let ghost b0 = bs@;
                if *append_crc {
                    let c = crc8(bs.as_slice());
                    bs.push(c);
                }
                assert(bs@ == if *append_crc { b0.push(spec_crc8(b0)) } else { b0 });
                let r = self.put_bytes(&bs, span);
                proof {
                    if old(self).straight_of(*stmt) is Some && r is Ok {
                        assert(bs@.len() == old(self).count_of(*stmt));
                        assert(old(self).spans_of(*stmt, *entry) == span_run(bs@.len(), *span));
                    }
                }
                r
            },
            Stmt::CrcRegion { sends, span } => {
                let mut total: Vec<u8> = Vec::new();
                let mut k: usize = 0;
                while k < sends.len()
                    invariant
                        k <= sends@.len(),
                        self.wf(),
                        self.procs == old(self).procs,
                        self.active_procs@ == old(self).active_procs@,
                        self.frames@.len() == old(self).frames@.len(),
                        same_ctx(*old(self), *self),
                        self.asm_text@ == old(self).asm_text@,
                        region_bytes(
                            old(self).env.consts_view(),
                            old(self).env.fns_view(),
                            scope_of(old(self).locals@),
                            chain_of(old(self).fn_chain@),
                            sends@.subrange(0, k as int),
                        ) == Some(total@),
                        self.lines@ == old(self).lines@,
                        old(self).fault_of(*stmt) is None,
                        old(self).straight_of(*stmt) is Some ==> region_bytes(
                            old(self).env.consts_view(),
                            old(self).env.fns_view(),
                            scope_of(old(self).locals@),
                            chain_of(old(self).fn_chain@),
                            sends@,
                        ) is Some,
                    decreases sends@.len() - k,
                {
                    proof {
                        let p = sends@.subrange(0, k + 1);
                        assert(p.drop_last() =~= sends@.subrange(0, k as int));
                        assert(p.last() == sends@[k as int]);
                        if region_bytes(
                            old(self).env.consts_view(),
                            old(self).env.fns_view(),
                            scope_of(old(self).locals@),
                            chain_of(old(self).fn_chain@),
                            sends@,
                        ) is Some {
                            lemma_region_prefix(
                                old(self).env.consts_view(),
                                old(self).env.fns_view(),
                                scope_of(old(self).locals@),
                                chain_of(old(self).fn_chain@),
                                sends@,
                                k + 1,
                            );
                        }
                    }
                    let mut b = match self.env.eval_scoped(&self.locals, &self.fn_chain, &sends[k]) {
                        Ok(Value::Bytes(b)) => b,
                        Ok(Value::Int(_)) => {
                            return Err(err1(Diagnostic::error(sends[k].span(), "expected bytes, found an integer")));
                        },
                        Err(d) => {
                            return Err(err1(d));
                        },
                    };
                    let ghost before = total@;
                    let ghost bb = b@;
                    total.append(&mut b);
                    proof {
                        let p = sends@.subrange(0, k + 1);
                        assert(p.drop_last() =~= sends@.subrange(0, k as int));
                        assert(p.last() == sends@[k as int]);
                        assert(total@ =~= before + bb);
                    }
                    k = k + 1;
                }
                assert(sends@.subrange(0, sends@.len() as int) =~= sends@);
                let c = crc8(total.as_slice());
                total.push(c);
                let r = self.put_bytes(&total, span);
                proof {
                    if old(self).straight_of(*stmt) is Some && r is Ok {
                        assert(total@.len() == old(self).count_of(*stmt));
                        assert(old(self).spans_of(*stmt, *entry) == span_run(total@.len(), *span));
                    }
                }
                r
            },
            Stmt::Config { role, io, sck, alert, span } => {
                let mut t = String::new();
                t.append("\tset_config ");
                t.append(role.as_str());
                t.append(", ");
                t.append(io.as_str());
                t.append(", ");
                t.append(sck.as_str());
                t.append(", ");
                t.append(alert.as_str());
                t.append("\n");
                assert(t@ =~= "\tset_config "@ + role@ + ", "@ + io@ + ", "@ + sck@ + ", "@ + alert@ + "\n"@);
                let r = self.push(t.as_str(), span);
                assert(tam_of(old(self).lines@) + seq![*span] =~= tam_of(old(self).lines@).push(*span));
                r
            },
            Stmt::Frame { body, span } => self.lower_frame(body, span, entry),
            Stmt::Recv { targets, span } => self.lower_recv(targets, span),
            Stmt::WaitState { bind, span } => self.lower_wait_state(bind, span),
            Stmt::Expect { else_code, span } => self.lower_expect(else_code, span),
            Stmt::Call { .. } => self.lower_call(stmt, entry),
            Stmt::Repeat { count, body, span } => {
                let r = self.lower_repeat(count, body, span, entry);
                assert(old(self).fault_of(*stmt) matches Some((sp, m)) ==> (sp == *span && (spec_eval(
                    old(self).env.consts_view(),
                    old(self).env.fns_view(),
                    scope_of(old(self).locals@),
                    chain_of(old(self).fn_chain@),
                    *count,
                ) matches Ok(Val::Int(n)) && !(0 <= n <= MAX_UNROLL) && m == repeat_count_message(n as int))));
                r
            },
        }
    }

    #[verifier::spinoff_prover]
    fn put_bytes(&mut self, bs: &Vec<u8>, span: &Span) -> (res: Result<(), Vec<Diagnostic>>)
        requires
            old(self).wf(),
        ensures
            step_kept(*old(self), *final(self), res),
            same_ctx(*old(self), *final(self)),
            res is Ok ==> final(self).asm_text@ == old(self).asm_text@ + put_bytes_text(bs@),
            res is Ok ==> final(self).lines@.len() == old(self).lines@.len() + bs@.len(),
            old(self).lines@.len() + bs@.len() <= MAX_EMITTED_LINES ==> res is Ok,
            res is Ok ==> tam_of(final(self).lines@) == tam_of(old(self).lines@) + span_run(bs@.len(), *span),
    {
        let mut k: usize = 0;
        assert(tam_of(old(self).lines@) + span_run(0, *span) =~= tam_of(old(self).lines@));
        while k < bs.len()
            invariant
                k <= bs@.len(),
                self.wf(),
                self.procs == old(self).procs,
                self.active_procs@ == old(self).active_procs@,
                self.frames@.len() == old(self).frames@.len(),
                same_ctx(*old(self), *self),
                self.asm_text@ == old(self).asm_text@ + put_bytes_text(bs@.subrange(0, k as int)),
                self.lines@.len() == old(self).lines@.len() + k,
                tam_of(self.lines@) == tam_of(old(self).lines@) + span_run(k as nat, *span),
            decreases bs@.len() - k,
        {
            let mut t = String::new();
            t.append("\tput_byte ");
            push_hex_byte(&mut t, bs[k]);
            t.append("\n");
            proof {
                reveal_strlit("\tput_byte ");
                reveal_strlit("\n");
            }
            let ghost before = self.asm_text@;
            self.push(t.as_str(), span)?;
            proof {
                let p = bs@.subrange(0, k + 1);
                assert(p.drop_last() =~= bs@.subrange(0, k as int));
                assert(p.last() == bs@[k as int]);
                assert(t@ =~= "\tput_byte "@ + spec_hex_byte(bs@[k as int]) + "\n"@);
                assert(self.asm_text@ =~= old(self).asm_text@ + put_bytes_text(p));
                assert(span_run((k + 1) as nat, *span) =~= span_run(k as nat, *span).push(*span));
                assert(tam_of(old(self).lines@) + span_run((k + 1) as nat, *span) =~= (tam_of(old(self).lines@)
                    + span_run(k as nat, *span)).push(*span));
            }
            k = k + 1;
        }
        assert(bs@.subrange(0, bs@.len() as int) =~= bs@);
        Ok(())
    }

    fn body(&mut self, body: &Vec<Stmt>, entry: &Span) -> (res: Result<(), Vec<Diagnostic>>)
        requires
            old(self).wf(),
        ensures
            step_kept(*old(self), *final(self), res),
            old(self).straight_body_of(body@) is Some ==> same_ctx(*old(self), *final(self)) && (res is Ok
                ==> final(self).asm_text@ == old(self).asm_text@ + old(self).straight_body_of(body@)->0),
            old(self).straight_body_of(body@) is Some ==> (res is Ok ==> final(self).lines@.len() == old(
                self,
            ).lines@.len() + old(self).body_count_of(body@)) && (old(self).lines@.len() + old(
                self,
            ).body_count_of(body@) <= MAX_EMITTED_LINES ==> res is Ok),
            old(self).straight_body_of(body@) is Some && res is Ok ==> tam_of(final(self).lines@) == tam_of(
                old(self).lines@,
            ) + old(self).body_spans_of(body@, *entry),
            body@.len() > 0 ==> (old(self).fault_of(body@[0]) matches Some((sp, m)) ==> (res matches Err(ds)
                && ds@[0].primary == sp && ds@[0].message@ == m)),
        decreases proc_fuel(old(self).procs@, names_of(old(self).active_procs@)), body@, 1nat,
    {
        let mut k: usize = 0;
        while k < body.len()
            invariant
                k <= body@.len(),
                self.wf(),
                self.procs == old(self).procs,
                self.active_procs@ == old(self).active_procs@,
                self.frames@.len() == old(self).frames@.len(),
                old(self).straight_body_of(body@.subrange(0, k as int)) is Some ==> same_ctx(*old(self), *self)
                    && self.asm_text@ == old(self).asm_text@ + old(self).straight_body_of(body@.subrange(0, k as int))->0
                    && self.lines@.len() == old(self).lines@.len() + old(self).body_count_of(body@.subrange(0, k as int))
                    && tam_of(self.lines@) == tam_of(old(self).lines@) + old(self).body_spans_of(body@.subrange(0, k as int), *entry),
            k == 0 ==> self.env == old(self).env && self.locals@ == old(self).locals@ && self.fn_chain@ == old(self).fn_chain@,
            k > 0 ==> old(self).fault_of(body@[0]) is None,
            decreases body@.len() - k,
        {
            proof {
                let p = body@.subrange(0, k + 1);
                assert(p.drop_last() =~= body@.subrange(0, k as int));
                assert(p.last() == body@[k as int]);
                if old(self).straight_body_of(body@) is Some {
                    lemma_straight_count_prefix(
                        old(self).env.consts_view(),
                        old(self).env.fns_view(),
                        scope_of(old(self).locals@),
                        chain_of(old(self).fn_chain@),
                        body@,
                        k + 1,
                        old(self).frames@.len() > 0,
                    );
                    lemma_straight_prefix(
                        old(self).env.consts_view(),
                        old(self).env.fns_view(),
                        scope_of(old(self).locals@),
                        chain_of(old(self).fn_chain@),
                        body@,
                        k + 1,
                        old(self).frames@.len() > 0,
                    );
                }
            }
            let ghost mid = self.lines@;
            self.stmt(&body[k], entry)?;
            proof {
                let p = body@.subrange(0, k + 1);
                if old(self).straight_body_of(p) is Some {
                    assert(tam_of(old(self).lines@) + old(self).body_spans_of(p, *entry) =~= tam_of(old(self).lines@)
                        + old(self).body_spans_of(body@.subrange(0, k as int), *entry) + old(self).spans_of(body@[k as int], *entry));
                }
            }
            k = k + 1;
        }
        assert(body@.subrange(0, body@.len() as int) =~= body@);
        Ok(())
    }

    fn lower_frame(&mut self, body: &Vec<Stmt>, span: &Span, entry: &Span) -> (res: Result<(), Vec<Diagnostic>>)
        requires
            old(self).wf(),
        ensures
            step_kept(*old(self), *final(self), res),
            old(self).frames@.len() == 0 && straight_body_text(
                old(self).env.consts_view(),
                old(self).env.fns_view(),
                scope_of(old(self).locals@),
                chain_of(old(self).fn_chain@),
                body@,
                true,
            ) is Some ==> same_ctx(*old(self), *final(self)) && (res is Ok ==> final(self).asm_text@ == old(self).asm_text@
                + "\tcs_assert\n"@ + straight_body_text(
                old(self).env.consts_view(),
                old(self).env.fns_view(),
                scope_of(old(self).locals@),
                chain_of(old(self).fn_chain@),
                body@,
                true,
            )->0 + "\tcs_deassert\n"@),
            old(self).frames@.len() == 0 && straight_body_text(
                old(self).env.consts_view(),
                old(self).env.fns_view(),
                scope_of(old(self).locals@),
                chain_of(old(self).fn_chain@),
                body@,
                true,
            ) is Some ==> (res is Ok ==> final(self).lines@.len() == old(self).lines@.len() + 2 + straight_body_count(
                old(self).env.consts_view(),
                old(self).env.fns_view(),
                scope_of(old(self).locals@),
                chain_of(old(self).fn_chain@),
                body@,
                true,
            )) && (old(self).lines@.len() + 2 + straight_body_count(
                old(self).env.consts_view(),
                old(self).env.fns_view(),
                scope_of(old(self).locals@),
                chain_of(old(self).fn_chain@),
                body@,
                true,
            ) <= MAX_EMITTED_LINES ==> res is Ok),
            old(self).frames@.len() == 0 && straight_body_text(
                old(self).env.consts_view(),
                old(self).env.fns_view(),
                scope_of(old(self).locals@),
                chain_of(old(self).fn_chain@),
                body@,
                true,
            ) is Some && res is Ok ==> tam_of(final(self).lines@) == tam_of(old(self).lines@) + seq![*span]
                + straight_body_spans(
                old(self).env.consts_view(),
                old(self).env.fns_view(),
                scope_of(old(self).locals@),
                chain_of(old(self).fn_chain@),
                body@,
                true,
                *entry,
            ) + seq![*span],
        decreases proc_fuel(old(self).procs@, names_of(old(self).active_procs@)), body@, 2nat,
    {
        let ghost inner = straight_body_text(
            old(self).env.consts_view(),
            old(self).env.fns_view(),
            scope_of(old(self).locals@),
            chain_of(old(self).fn_chain@),
            body@,
            true,
        );
        let ghost straight = old(self).frames@.len() == 0 && inner is Some;
        self.push("\tcs_assert\n", span)?;
        self.alloc.enter_scope();
        let ghost frames0 = self.frames@;
        self.frames.push(Vec::new());
        let ghost a1 = self.asm_text@;
        let result = self.body(body, entry);
        let deferred = self.frames.pop().unwrap();
        proof {
            if old(self).frames@.len() == 0 && straight_body_text(
                old(self).env.consts_view(),
                old(self).env.fns_view(),
                scope_of(old(self).locals@),
                chain_of(old(self).fn_chain@),
                body@,
                true,
            ) is Some {
                assert(self.frames@ =~= frames0);
                assert(deferred@.len() == 0);
            }
        }
        result?;
        // CS deasserts unconditionally, before any verdict branch.
        let ghost t2 = tam_of(self.lines@);
        self.push("\tcs_deassert\n", span)?;
        proof {
            if straight {
                let x = straight_body_spans(
                    old(self).env.consts_view(),
                    old(self).env.fns_view(),
                    scope_of(old(self).locals@),
                    chain_of(old(self).fn_chain@),
                    body@,
                    true,
                    *entry,
                );
                assert(t2 == tam_of(old(self).lines@).push(*span) + x);
                assert(tam_of(self.lines@) =~= tam_of(old(self).lines@) + seq![*span] + x + seq![*span]);
            }
        }
        let mut k: usize = 0;
        while k < deferred.len()
            invariant
                self.wf(),
                self.procs == old(self).procs,
                self.active_procs@ == old(self).active_procs@,
                self.frames@.len() == old(self).frames@.len(),
                inner == straight_body_text(
                    old(self).env.consts_view(),
                    old(self).env.fns_view(),
                    scope_of(old(self).locals@),
                    chain_of(old(self).fn_chain@),
                    body@,
                    true,
                ),
                straight == (old(self).frames@.len() == 0 && inner is Some),
                straight ==> k == 0 && deferred@.len() == 0 && same_ctx(*old(self), *self) && self.asm_text@ == old(self).asm_text@
                    + "\tcs_assert\n"@ + inner->0 + "\tcs_deassert\n"@ && self.lines@.len() == old(self).lines@.len() + 2
                    + straight_body_count(
                    old(self).env.consts_view(),
                    old(self).env.fns_view(),
                    scope_of(old(self).locals@),
                    chain_of(old(self).fn_chain@),
                    body@,
                    true,
                ),
                straight ==> tam_of(self.lines@) == tam_of(old(self).lines@) + seq![*span] + straight_body_spans(
                    old(self).env.consts_view(),
                    old(self).env.fns_view(),
                    scope_of(old(self).locals@),
                    chain_of(old(self).fn_chain@),
                    body@,
                    true,
                    *entry,
                ) + seq![*span],
            decreases deferred@.len() - k,
        {
            let d = &deferred[k];
            let mut t = String::new();
            t.append("\tbnez ");
            t.append(reg_name(d.reg).as_str());
            t.append(", ");
            t.append(d.label.as_str());
            t.append("\n");
            self.push(t.as_str(), &d.span)?;
            self.trailers.push((span_copy(&d.span), d.label.clone(), d.code));
            k = k + 1;
        }
        self.alloc.exit_scope();
        Ok(())
    }

    #[verifier::spinoff_prover]
    #[verifier::rlimit(40)]
    fn lower_recv(&mut self, targets: &Vec<RecvTarget>, span: &Span) -> (res: Result<(), Vec<Diagnostic>>)
        requires
            old(self).wf(),
        ensures
            step_kept(*old(self), *final(self), res),
            recv_spec(old(self).alloc.busy_view(), targets@) is None ==> res is Err,
            res is Ok ==> (recv_spec(old(self).alloc.busy_view(), targets@) matches Some((t, b))
                && final(self).asm_text@ == old(self).asm_text@ + t && final(self).alloc.busy_view() == b),
            final(self).alloc.depth() == old(self).alloc.depth(),
            same_ctx(*old(self), *final(self)),
    {
        let mut k: usize = 0;
        while k < targets.len()
            invariant
                self.wf(),
                self.procs == old(self).procs,
                self.active_procs@ == old(self).active_procs@,
                self.frames@.len() == old(self).frames@.len(),
                k <= targets@.len(),
                recv_spec(old(self).alloc.busy_view(), targets@.subrange(0, k as int)) matches Some((t, b))
                    && self.asm_text@ == old(self).asm_text@ + t && self.alloc.busy_view() == b,
                self.alloc.depth() == old(self).alloc.depth(),
                same_ctx(*old(self), *self),
            decreases targets@.len() - k,
        {
            let ghost before = self.asm_text@;
            let ghost b0 = self.alloc.busy_view();
            proof {
                let p = targets@.subrange(0, k + 1);
                assert(p.drop_last() =~= targets@.subrange(0, k as int));
                assert(p.last() == targets@[k as int]);
                lemma_busy_len(&self.alloc);
                lemma_lowest_free(b0);
            }
            match &targets[k] {
                RecvTarget::Name(name) => {
                    let reg = match self.alloc.bind(name.clone(), span) {
                        Ok(r) => r,
                        Err(d) => {
                            return Err(err1(d));
                        },
                    };
                    let mut t = String::new();
                    t.append("\tget_byte ");
                    t.append(reg_name(reg).as_str());
                    t.append("\n");
                    assert(t@ =~= "\tget_byte "@ + "x"@ + spec_dec(reg.value() as nat) + "\n"@);
                    self.push(t.as_str(), span)?;
                },
                RecvTarget::Discard => {
                    let reg = match self.alloc.temp(span) {
                        Ok(r) => r,
                        Err(d) => {
                            return Err(err1(d));
                        },
                    };
                    let mut t = String::new();
                    t.append("\tget_byte ");
                    t.append(reg_name(reg).as_str());
                    t.append("\n");
                    assert(t@ =~= "\tget_byte "@ + "x"@ + spec_dec(reg.value() as nat) + "\n"@);
                    self.push(t.as_str(), span)?;
                    self.alloc.free(reg);
                    assert(self.alloc.busy_view() =~= b0);
                },
            }
            k = k + 1;
        }
        assert(targets@.subrange(0, targets@.len() as int) =~= targets@);
        Ok(())
    }

    #[verifier::spinoff_prover]
    #[verifier::rlimit(60)]
    fn lower_wait_state(&mut self, bind: &Option<String>, span: &Span) -> (res: Result<(), Vec<Diagnostic>>)
        requires
            old(self).wf(),
        ensures
            step_kept(*old(self), *final(self), res),
            wait_regs(old(self).alloc.busy_view()) is None ==> res is Err,
            res is Ok ==> (wait_regs(old(self).alloc.busy_view()) matches Some((r, k)) && final(self).asm_text@
                == old(self).asm_text@ + (wait_label(old(self).gensym) + ":\n"@) + "\tcrc_reset\n"@ + ("\tget_byte "@
                + xreg(r) + "\n"@) + ("\tli "@ + xreg(k) + ", "@ + spec_hex_byte(WAIT_STATE_CODE) + "\n"@) + ("\tbeq "@
                + xreg(r) + ", "@ + xreg(k) + ", "@ + wait_label(old(self).gensym) + "\n"@) && final(self).alloc.busy_view()
                == if bind is Some {
                old(self).alloc.busy_view().update(r, true)
            } else {
                old(self).alloc.busy_view()
            }),
            final(self).gensym == if old(self).gensym == u32::MAX {
                0
            } else {
                (old(self).gensym + 1) as u32
            },
            final(self).alloc.depth() == old(self).alloc.depth(),
            same_ctx(*old(self), *final(self)),
    {
        let ghost busy0 = self.alloc.busy_view();
        proof {
            lemma_busy_len(&self.alloc);
            lemma_lowest_free(busy0);
        }
        let label = self.gensym("wait");
        let ghost a0 = self.asm_text@;
        let mut l1 = String::new();
        l1.append(label.as_str());
        l1.append(":\n");
        self.push(l1.as_str(), span)?;
        self.push("\tcrc_reset\n", span)?;
        let resp_res = match bind {
            Some(name) => self.alloc.bind(name.clone(), span),
            None => self.alloc.temp(span),
        };
        let resp = match resp_res {
            Ok(r) => r,
            Err(d) => {
                return Err(err1(d));
            },
        };
        let ghost b1 = self.alloc.busy_view();
        proof {
            lemma_busy_len(&self.alloc);
            lemma_lowest_free(b1);
        }
        let mut l2 = String::new();
        l2.append("\tget_byte ");
        l2.append(reg_name(resp).as_str());
        l2.append("\n");
        self.push(l2.as_str(), span)?;
        let k = match self.alloc.temp(span) {
            Ok(r) => r,
            Err(d) => {
                return Err(err1(d));
            },
        };
        let mut l3 = String::new();
        l3.append("\tli ");
        l3.append(reg_name(k).as_str());
        l3.append(", ");
        push_hex_byte(&mut l3, WAIT_STATE_CODE);
        l3.append("\n");
        self.push(l3.as_str(), span)?;
        let mut l4 = String::new();
        l4.append("\tbeq ");
        l4.append(reg_name(resp).as_str());
        l4.append(", ");
        l4.append(reg_name(k).as_str());
        l4.append(", ");
        l4.append(label.as_str());
        l4.append("\n");
        self.push(l4.as_str(), span)?;
        proof {
            assert(l1@ =~= wait_label(old(self).gensym) + ":\n"@);
            assert(l2@ =~= "\tget_byte "@ + xreg(resp.value() as int) + "\n"@);
            assert(l3@ =~= "\tli "@ + xreg(k.value() as int) + ", "@ + spec_hex_byte(WAIT_STATE_CODE) + "\n"@);
            assert(l4@ =~= "\tbeq "@ + xreg(resp.value() as int) + ", "@ + xreg(k.value() as int) + ", "@ + wait_label(
                old(self).gensym,
            ) + "\n"@);
        }
        self.alloc.free(k);
        assert(self.alloc.busy_view() =~= b1);
        if bind.is_none() {
            self.alloc.free(resp);
            assert(self.alloc.busy_view() =~= busy0);
        }
        Ok(())
    }

    /// `expect crc else <byte>`: consume the trailing CRC byte, latch the RX
    /// residue, and defer the verdict branch to the enclosing frame, after
    /// `cs_deassert`.
    fn lower_expect(&mut self, else_code: &Expr, span: &Span) -> (res: Result<(), Vec<Diagnostic>>)
        requires
            old(self).wf(),
        ensures
            step_kept(*old(self), *final(self), res),
            old(self).frames@.len() == 0 ==> res is Err,
            !(spec_eval(
                old(self).env.consts_view(),
                old(self).env.fns_view(),
                scope_of(old(self).locals@),
                chain_of(old(self).fn_chain@),
                *else_code,
            ) matches Ok(Val::Int(n)) && 0 <= n <= 255) ==> res is Err,
            lowest_free(old(self).alloc.busy_view()) is None ==> res is Err,
            res is Ok ==> (lowest_free(old(self).alloc.busy_view()) matches Some(r) && spec_eval(
                old(self).env.consts_view(),
                old(self).env.fns_view(),
                scope_of(old(self).locals@),
                chain_of(old(self).fn_chain@),
                *else_code,
            ) matches Ok(Val::Int(n)) && {
                &&& final(self).asm_text@ == old(self).asm_text@ + ("\tget_byte "@ + xreg(r) + "\n"@) + ("\trdsr "@ + xreg(r)
                    + ", crc\n"@)
                &&& final(self).alloc.busy_view() == old(self).alloc.busy_view().update(r, true)
                &&& final(self).frames@.drop_last() == old(self).frames@.drop_last()
                &&& final(self).frames@.last()@.drop_last() == old(self).frames@.last()@
                &&& final(self).frames@.last()@.last().reg.value() == r
                &&& final(self).frames@.last()@.last().code == n
                &&& final(self).frames@.last()@.last().label@ == "__"@ + "fail"@ + spec_dec(old(self).gensym as nat)
                &&& final(self).frames@.last()@.last().span == *span
            }),
            final(self).env == old(self).env,
            final(self).locals@ == old(self).locals@,
            final(self).fn_chain@ == old(self).fn_chain@,
            final(self).trailers@ == old(self).trailers@,
            final(self).alloc.depth() == old(self).alloc.depth(),
    {
        let ghost busy0 = self.alloc.busy_view();
        proof {
            lemma_busy_len(&self.alloc);
            lemma_lowest_free(busy0);
        }
        if self.frames.len() == 0 {
            return Err(err1(Diagnostic::error(span_copy(span), "`expect crc` must appear inside a `frame`").with_help(
                "wrap the response phase in `frame { \u{2026} }`",
            )));
        }
        let code: u8 = match self.env.eval_scoped(&self.locals, &self.fn_chain, else_code) {
            Ok(Value::Int(n)) => {
                if 0 <= n && n <= 255 {
                    n as u8
                } else {
                    let mut m = String::new();
                    m.append("byte value ");
                    m.append(n.to_string().as_str());
                    m.append(" is out of range 0..=255");
                    return Err(err1(Diagnostic::error_owned(else_code.span(), m)));
                }
            },
            Ok(Value::Bytes(_)) => {
                return Err(err1(Diagnostic::error(else_code.span(), "expected an integer, found bytes")));
            },
            Err(d) => {
                return Err(err1(d));
            },
        };
        let discard = match self.alloc.temp(span) {
            Ok(r) => r,
            Err(d) => {
                return Err(err1(d));
            },
        };
        let mut l1 = String::new();
        l1.append("\tget_byte ");
        l1.append(reg_name(discard).as_str());
        l1.append("\n");
        assert(l1@ =~= "\tget_byte "@ + xreg(discard.value() as int) + "\n"@);
        self.push(l1.as_str(), span)?;
        self.alloc.free(discard);
        assert(self.alloc.busy_view() =~= busy0);
        let res = match self.alloc.temp(span) {
            Ok(r) => r,
            Err(d) => {
                return Err(err1(d));
            },
        };
        let mut l2 = String::new();
        l2.append("\trdsr ");
        l2.append(reg_name(res).as_str());
        l2.append(", crc\n");
        assert(l2@ =~= "\trdsr "@ + xreg(res.value() as int) + ", crc\n"@);
        self.push(l2.as_str(), span)?;
        let label = self.gensym("fail");
        let ghost f0 = self.frames@;
        let mut top = self.frames.pop().unwrap();
        top.push(Deferred { reg: res, label, code, span: span_copy(span) });
        self.frames.push(top);
        assert(self.frames@.drop_last() =~= f0.drop_last());
        assert(self.frames@.last()@.drop_last() =~= f0.last()@);
        Ok(())
    }

    /// Open one expansion's register scope, charged to the expansion budget.
    fn enter_expansion_scope(&mut self, site: &Span) -> (res: Result<(), Vec<Diagnostic>>)
        requires
            old(self).wf(),
        ensures
            step_kept(*old(self), *final(self), res),
            res is Err <==> old(self).expansions >= MAX_EXPANSIONS,
            res is Err ==> *final(self) == *old(self),
            res is Ok ==> {
                &&& final(self).expansions == old(self).expansions + 1
                &&& final(self).expansion_sites@ == old(self).expansion_sites@.push(*site)
                &&& final(self).alloc.depth() == old(self).alloc.depth() + 1
                &&& final(self).alloc.busy_view() == old(self).alloc.busy_view()
                &&& final(self).alloc.top_regs().len() == 0
                &&& forall|name: Seq<char>| #[trigger] final(self).alloc.binding(name) == old(self).alloc.binding(name)
                &&& same_ctx(*old(self), *final(self))
                &&& final(self).asm_text == old(self).asm_text
                &&& final(self).lines == old(self).lines
                &&& final(self).gensym == old(self).gensym
            },
    {
        if self.expansions >= MAX_EXPANSIONS {
            let mut m = String::new();
            m.append("the program performs more than ");
            m.append(MAX_EXPANSIONS.to_string().as_str());
            m.append(" expansions");
            return Err(self.budget_error(
                site,
                m,
                "every `repeat` iteration and every `proc` call is expanded at compile time, even when its body emits nothing \u{2014} reduce a `repeat` count, or a `proc` that expands to more calls than it looks like",
            ));
        }
        self.expansions = self.expansions + 1;
        self.expansion_sites.push(span_copy(site));
        self.alloc.enter_scope();
        Ok(())
    }

    /// Close a nested expansion's register scope, keeping the open frame's
    /// pending verdict registers alive.
    fn exit_expansion_scope(&mut self)
        requires
            old(self).wf(),
        ensures
            final(self).wf(),
            final(self).procs == old(self).procs,
            final(self).active_procs@ == old(self).active_procs@,
            final(self).frames@.len() == old(self).frames@.len(),
            final(self).expansion_sites@ == if old(self).expansion_sites@.len() > 0 {
                old(self).expansion_sites@.drop_last()
            } else {
                old(self).expansion_sites@
            },
            final(self).alloc.depth() == if old(self).alloc.depth() > 1 {
                (old(self).alloc.depth() - 1) as nat
            } else {
                old(self).alloc.depth()
            },
            final(self).alloc.busy_view() == ({
                let cleared = if old(self).alloc.depth() > 1 {
                    clear_regs(old(self).alloc.busy_view(), old(self).alloc.top_regs())
                } else {
                    old(self).alloc.busy_view()
                };
                if old(self).frames@.len() > 0 {
                    mark_deferred(cleared, old(self).frames@.last()@)
                } else {
                    cleared
                }
            }),
            same_ctx(*old(self), *final(self)),
            final(self).asm_text == old(self).asm_text,
            final(self).lines == old(self).lines,
            final(self).expansions == old(self).expansions,
            final(self).gensym == old(self).gensym,
    {
        let _ = self.expansion_sites.pop();
        self.alloc.exit_scope();
        let ghost cleared = self.alloc.busy_view();
        if self.frames.len() > 0 {
            let last = self.frames.len() - 1;
            let mut k: usize = 0;
            while k < self.frames[last].len()
                invariant
                    self.wf(),
                    self.procs == old(self).procs,
                    self.active_procs@ == old(self).active_procs@,
                    self.frames@.len() == old(self).frames@.len(),
                    last == self.frames@.len() - 1,
                    k <= self.frames@[last as int]@.len(),
                    self.alloc.busy_view() == mark_deferred(cleared, self.frames@[last as int]@.subrange(0, k as int)),
                    self.alloc.depth() == if old(self).alloc.depth() > 1 {
                        (old(self).alloc.depth() - 1) as nat
                    } else {
                        old(self).alloc.depth()
                    },
                    same_ctx(*old(self), *self),
                    self.asm_text == old(self).asm_text,
                    self.lines == old(self).lines,
                    self.expansions == old(self).expansions,
                    self.gensym == old(self).gensym,
                    self.expansion_sites@ == if old(self).expansion_sites@.len() > 0 {
                        old(self).expansion_sites@.drop_last()
                    } else {
                        old(self).expansion_sites@
                    },
                decreases self.frames@[last as int]@.len() - k,
            {
                let r = self.frames[last][k].reg;
                self.alloc.reserve(r);
                proof {
                    let p = self.frames@[last as int]@.subrange(0, k + 1);
                    assert(p.drop_last() =~= self.frames@[last as int]@.subrange(0, k as int));
                }
                k = k + 1;
            }
            assert(self.frames@[last as int]@.subrange(0, self.frames@[last as int]@.len() as int) =~= self.frames@[last as int]@);
        }
    }

    /// Expand a `proc` call inline: the body is lowered in the callee's own
    /// value scope (module `const`s and this call's parameters) and inside a
    /// fresh register scope.
    fn lower_call(&mut self, call: &Stmt, entry: &Span) -> (res: Result<(), Vec<Diagnostic>>)
        requires
            old(self).wf(),
            call is Call,
        ensures
            step_kept(*old(self), *final(self), res),
            fn_index(old(self).env.fns_view(), call->name@) is Some ==> res is Err,
            last_proc(old(self).procs@, call->name@) is None ==> res is Err,
            names_of(old(self).active_procs@).contains(call->name@) ==> res is Err,
            res is Ok ==> (last_proc(old(self).procs@, call->name@) matches Some(j) && spec_bind(
                old(self).env.consts_view(),
                old(self).env.fns_view(),
                scope_of(old(self).locals@),
                chain_of(old(self).fn_chain@),
                call->name@,
                old(self).procs@[j].params@,
                call->args@,
            ) matches Ok(sc) && (straight_body_text(
                old(self).env.consts_view(),
                old(self).env.fns_view(),
                sc,
                chain_of(old(self).fn_chain@),
                old(self).procs@[j].body@,
                old(self).frames@.len() > 0,
            ) matches Some(t) ==> final(self).asm_text@ == old(self).asm_text@ + t)),
        decreases proc_fuel(old(self).procs@, names_of(old(self).active_procs@)), *call, 1nat,
    {
        let (name, name_span, args, span) = match call {
            Stmt::Call { name, name_span, args, span } => (name.as_str(), name_span, args, span),
            _ => {
                return Ok(());
            },
        };
        if self.env.get_fn(name).is_some() {
            let mut m = String::new();
            m.append("`");
            m.append(name);
            m.append("` is a `fn`: it returns a value and cannot be called as a statement");
            return Err(err1(Diagnostic::error_owned(span_copy(span), m).with_help(
                "use a `fn` inside an expression, e.g. `send iord_hdr(0x44, 0x64)`",
            )));
        }
        let procs = self.procs;
        let mut found: Option<usize> = None;
        let mut k: usize = 0;
        while k < procs.len()
            invariant
                k <= procs@.len(),
                found matches Some(j) ==> j < procs@.len() && procs@[j as int].name@ == name@,
                match found {
                    Some(j) => Some(j as int),
                    None => None,
                } == last_proc(procs@.subrange(0, k as int), name@),
            decreases procs@.len() - k,
        {
            proof {
                let p = procs@.subrange(0, k + 1);
                assert(p.drop_last() =~= procs@.subrange(0, k as int));
            }
            if str_eq(procs[k].name.as_str(), name) {
                found = Some(k);
            }
            k = k + 1;
        }
        assert(procs@.subrange(0, procs@.len() as int) =~= procs@);
        let pi = match found {
            Some(j) => j,
            None => {
                let mut m = String::new();
                m.append("unknown `proc` `");
                m.append(name);
                m.append("`");
                return Err(err1(Diagnostic::error_owned(span_copy(name_span), m)));
            },
        };
        let p = &procs[pi];
        let mut q: usize = 0;
        while q < self.active_procs.len()
            invariant
                q <= self.active_procs@.len(),
                forall|j: int| 0 <= j < q ==> names_of(self.active_procs@)[j] != name@,
                self.wf(),
                self.procs == old(self).procs,
                self.active_procs@ == old(self).active_procs@,
                self.frames@.len() == old(self).frames@.len(),
            decreases self.active_procs@.len() - q,
        {
            if str_eq(self.active_procs[q].as_str(), name) {
                let mut m = String::new();
                m.append("`");
                m.append(name);
                m.append("` is already being expanded: recursion is not possible");
                return Err(err1(Diagnostic::error_owned(span_copy(span), m).with_help(
                    "every `proc` is inlined \u{2014} the tamal ISA has no call/ret and no stack",
                )));
            }
            q = q + 1;
        }
        let bindings = match self.env.bind_scoped(&self.locals, &self.fn_chain, name, p.params.as_slice(), args.as_slice(), span) {
            Ok(b) => b,
            Err(d) => {
                return Err(err1(d));
            },
        };
        self.enter_expansion_scope(span)?;
        let mut saved = bindings;
        std::mem::swap(&mut saved, &mut self.locals);
        let ghost before = self.active_procs@;
        self.active_procs.push(name.to_owned());
        proof {
            assert(!names_of(before).contains(name@)) by {
                if names_of(before).contains(name@) {
                    let j = choose|j: int| 0 <= j < names_of(before).len() && names_of(before)[j] == name@;
                }
            }
            assert(names_of(self.active_procs@) =~= names_of(before).push(name@));
            lemma_proc_fuel_push(procs@, names_of(before), name@, pi as int);
        }
        let result = self.body(&p.body, entry);
        std::mem::swap(&mut saved, &mut self.locals);
        let _ = self.active_procs.pop();
        assert(self.active_procs@ =~= before);
        self.exit_expansion_scope();
        result
    }

    /// `repeat N { ... }`: emit the body `N` times, each iteration in its own
    /// register scope. There is no loop counter and no branch.
    fn lower_repeat(&mut self, count: &Expr, body: &Vec<Stmt>, span: &Span, entry: &Span) -> (res: Result<(), Vec<Diagnostic>>)
        requires
            old(self).wf(),
        ensures
            step_kept(*old(self), *final(self), res),
            !(spec_eval(
                old(self).env.consts_view(),
                old(self).env.fns_view(),
                scope_of(old(self).locals@),
                chain_of(old(self).fn_chain@),
                *count,
            ) matches Ok(Val::Int(n)) && 0 <= n <= MAX_UNROLL) ==> res is Err,
            res is Ok ==> (spec_eval(
                old(self).env.consts_view(),
                old(self).env.fns_view(),
                scope_of(old(self).locals@),
                chain_of(old(self).fn_chain@),
                *count,
            ) matches Ok(Val::Int(n)) && (old(self).straight_body_of(body@) matches Some(t) ==> final(self).asm_text@
                == old(self).asm_text@ + repeat_text(t, n as nat))),
            old(self).straight_body_of(body@) is Some ==> same_ctx(*old(self), *final(self)),
            spec_eval(
                old(self).env.consts_view(),
                old(self).env.fns_view(),
                scope_of(old(self).locals@),
                chain_of(old(self).fn_chain@),
                *count,
            ) matches Ok(Val::Int(n)) ==> (!(0 <= n <= MAX_UNROLL) ==> (res matches Err(ds) && ds@[0].primary == *span
                && ds@[0].message@ == repeat_count_message(n as int))),
        decreases proc_fuel(old(self).procs@, names_of(old(self).active_procs@)), body@, 2nat,
    {
        let n: i64 = match self.env.eval_scoped(&self.locals, &self.fn_chain, count) {
            Ok(Value::Int(n)) => n,
            Ok(Value::Bytes(_)) => {
                return Err(err1(Diagnostic::error(count.span(), "expected an integer, found bytes")));
            },
            Err(d) => {
                return Err(err1(d));
            },
        };
        if !(0 <= n && n <= MAX_UNROLL) {
            let mut m = String::new();
            m.append("`repeat` count ");
            push_int(&mut m, n);
            m.append(" is not in 0..=");
            push_dec(&mut m, MAX_UNROLL as u64);
            return Err(err1(Diagnostic::error_owned(span_copy(span), m).with_help(
                "a tamal program is at most 1024 words, so a larger unroll can never assemble",
            )));
        }
        let mut i: i64 = 0;
        while i < n
            invariant
                0 <= i <= n,
                0 <= n <= MAX_UNROLL,
                spec_eval(
                    old(self).env.consts_view(),
                    old(self).env.fns_view(),
                    scope_of(old(self).locals@),
                    chain_of(old(self).fn_chain@),
                    *count,
                ) == Ok::<Val, ()>(Val::Int(n)),
                self.wf(),
                self.procs == old(self).procs,
                self.active_procs@ == old(self).active_procs@,
                self.frames@.len() == old(self).frames@.len(),
                old(self).straight_body_of(body@) is Some ==> same_ctx(*old(self), *self) && self.asm_text@
                    == old(self).asm_text@ + repeat_text(old(self).straight_body_of(body@)->0, i as nat),
            decreases n - i,
        {
            self.enter_expansion_scope(span)?;
            let result = self.body(body, entry);
            self.exit_expansion_scope();
            result?;
            i = i + 1;
        }
        Ok(())
    }
}

/// Lower a `Module` (the driver enforces exactly one test) to tamal-asm text
/// plus its source map. The source map's asm ranges follow one another from
/// offset 0, one per emitted line, and there are at most
/// [`MAX_EMITTED_LINES`] of them.
#[verifier::spinoff_prover]
#[verifier::rlimit(60)]
pub fn emit(module: &Module, env: Env) -> (res: Result<Lowering, Vec<Diagnostic>>)
    ensures
        res matches Ok(l) ==> map_ok(l.lines@, encode_utf8(l.asm_text@).len() as usize) && l.lines@.len() <= MAX_EMITTED_LINES,
        res matches Err(ds) ==> ds@.len() == 1,
        module.tests@.len() == 1 && res is Ok && straight_body_text(
            env.consts_view(),
            env.fns_view(),
            env.locals_view(),
            env.chain_view(),
            module.tests@[0].stmts@,
            false,
        ) is Some ==> res->Ok_0.asm_text@ == ".globl _start\n_start:\n"@ + straight_body_text(
            env.consts_view(),
            env.fns_view(),
            env.locals_view(),
            env.chain_view(),
            module.tests@[0].stmts@,
            false,
        )->0,
        module.tests@.len() == 1 && straight_body_text(
            env.consts_view(),
            env.fns_view(),
            env.locals_view(),
            env.chain_view(),
            module.tests@[0].stmts@,
            false,
        ) is Some ==> (res is Ok <==> 2 + straight_body_count(
            env.consts_view(),
            env.fns_view(),
            env.locals_view(),
            env.chain_view(),
            module.tests@[0].stmts@,
            false,
        ) <= MAX_EMITTED_LINES),
        module.tests@.len() == 1 && res is Ok && straight_body_text(
            env.consts_view(),
            env.fns_view(),
            env.locals_view(),
            env.chain_view(),
            module.tests@[0].stmts@,
            false,
        ) is Some ==> tam_of(res->Ok_0.lines@) == seq![module.tests@[0].name_span, module.tests@[0].name_span]
            + straight_body_spans(
            env.consts_view(),
            env.fns_view(),
            env.locals_view(),
            env.chain_view(),
            module.tests@[0].stmts@,
            false,
            module.tests@[0].name_span,
        ),
        module.tests@.len() == 1 && module.tests@[0].stmts@.len() > 0 ==> (repeat_fault(
            env.consts_view(),
            env.fns_view(),
            env.locals_view(),
            env.chain_view(),
            module.tests@[0].stmts@[0],
        ) matches Some((sp, m)) ==> (res matches Err(ds) && ds@[0].primary == sp && ds@[0].message@ == m)),
{
    let ghost env0 = env;
    let ghost cnt = straight_body_count(
        env.consts_view(),
        env.fns_view(),
        env.locals_view(),
        env.chain_view(),
        module.tests@[0].stmts@,
        false,
    );
    let fn_chain = env.chain();
    let locals = env.locals();
    let mut e = Emitter {
        env,
        locals,
        fn_chain,
        asm_text: String::new(),
        lines: Vec::new(),
        alloc: RegAlloc::new(),
        gensym: 0,
        trailers: Vec::new(),
        frames: Vec::new(),
        procs: module.procs.as_slice(),
        active_procs: Vec::new(),
        expansions: 0,
        expansion_sites: Vec::new(),
    };
    let ghost target = straight_body_text(
        env0.consts_view(),
        env0.fns_view(),
        env0.locals_view(),
        env0.chain_view(),
        module.tests@[0].stmts@,
        false,
    );
    let mut t: usize = 0;
    while t < module.tests.len()
        invariant
            e.wf(),
            e.frames@.len() == 0,
            t <= module.tests@.len(),
            target == straight_body_text(
                env0.consts_view(),
                env0.fns_view(),
                env0.locals_view(),
                env0.chain_view(),
                module.tests@[0].stmts@,
                false,
            ),
            module.tests@.len() == 1 && target is Some ==> {
                &&& e.env == env0
                &&& scope_of(e.locals@) == env0.locals_view()
                &&& chain_of(e.fn_chain@) == env0.chain_view()
                &&& e.trailers@.len() == 0
                &&& t == 0 ==> e.asm_text@ == Seq::<char>::empty() && e.lines@.len() == 0
                &&& t == 1 ==> e.asm_text@ == ".globl _start\n_start:\n"@ + target->0 && e.lines@.len() == 2 + cnt
                    && tam_of(e.lines@) == seq![module.tests@[0].name_span, module.tests@[0].name_span]
                    + straight_body_spans(
                    env0.consts_view(),
                    env0.fns_view(),
                    env0.locals_view(),
                    env0.chain_view(),
                    module.tests@[0].stmts@,
                    false,
                    module.tests@[0].name_span,
                )
            },
            env0 == env,
            module.tests@.len() == 1 && t == 0 ==> e.env == env0 && scope_of(e.locals@) == env0.locals_view() && chain_of(
                e.fn_chain@,
            ) == env0.chain_view() && e.lines@.len() == 0,
            module.tests@.len() == 1 && t > 0 && module.tests@[0].stmts@.len() > 0 ==> repeat_fault(
                env0.consts_view(),
                env0.fns_view(),
                env0.locals_view(),
                env0.chain_view(),
                module.tests@[0].stmts@[0],
            ) is None,
            cnt == straight_body_count(
                env0.consts_view(),
                env0.fns_view(),
                env0.locals_view(),
                env0.chain_view(),
                module.tests@[0].stmts@,
                false,
            ),
        decreases module.tests@.len() - t,
    {
        let test = &module.tests[t];
        e.push(".globl _start\n", &test.name_span)?;
        e.push("_start:\n", &test.name_span)?;
        proof {
            if module.tests@.len() == 1 && target is Some {
                reveal_strlit(".globl _start\n");
                reveal_strlit("_start:\n");
                reveal_strlit(".globl _start\n_start:\n");
                assert(e.asm_text@ =~= ".globl _start\n_start:\n"@);
                assert(test.stmts@ == module.tests@[0].stmts@);
                assert(e.straight_body_of(test.stmts@) == target);
                assert(e.body_count_of(test.stmts@) == cnt);
                assert(tam_of(e.lines@) =~= seq![test.name_span, test.name_span]);
            }
        }
        e.body(&test.stmts, &test.name_span)?;
        e.flush_trailers()?;
        t = t + 1;
    }
    Ok(Lowering { asm_text: e.asm_text, lines: e.lines })
}

} // verus!
