//! Lowering: mnemonics and pseudo-ops to `Instr`, with symbol resolution,
//! `li` tiling, branch offsets and range checks.
use vstd::prelude::*;
use vstd::string::StrSliceExecFns;

use crate::abi::config::{
    decode_config, spec_decode_config, spec_pack, AlertSource, Config, ConfigError, IoMode, Role,
    Sck,
};
use crate::abi::isa::{
    Amt5, BitCount, Cfg6, Imm11, Imm20, Instr, Reg, ShiftOp, Sr5, Tar4, WaitCond, WaitTimeout,
};
use crate::assembler::diagnostics::{span_copy, Diagnostic, Severity, Span};
use crate::assembler::parser::{Operand, OperandKind};
use crate::assembler::symbol::{Sym, SymbolTable};
use crate::text::{push_dec, spec_dec, spec_lower, str_eq, to_ascii_lowercase};

verus! {

broadcast use {
    Reg::lemma_spec_new,
    Reg::lemma_value_determines,
    Imm11::lemma_spec_new,
    Imm20::lemma_spec_new,
    Tar4::lemma_spec_new,
    Amt5::lemma_spec_new,
    Sr5::lemma_spec_new,
    WaitCond::lemma_spec_new,
    WaitTimeout::lemma_spec_new,
    BitCount::lemma_spec_new,
    Cfg6::lemma_value_determines,
};

/// A symbol table as the contracts see it: name to (value, defining span).
pub type SymMap = Map<Seq<char>, (Sym, Span)>;

/// `c` is an ASCII decimal digit.
pub open spec fn is_dec_char(c: char) -> bool {
    '0' <= c <= '9'
}

/// The value of a run of decimal digits, most significant first.
pub open spec fn dec_value(d: Seq<char>) -> int
    decreases d.len(),
{
    if d.len() == 0 {
        0
    } else {
        dec_value(d.drop_last()) * 10 + (d.last() as int - '0' as int)
    }
}

/// The digits of `t` after an optional leading `+`.
pub open spec fn unsigned_digits(t: Seq<char>) -> Seq<char> {
    if t.len() > 0 && t[0] == '+' {
        t.drop_first()
    } else {
        t
    }
}

/// What `u16`'s `FromStr` reads from `t`: an optional `+`, then one or more
/// decimal digits whose value fits in 16 bits.
pub open spec fn spec_parse_u16(t: Seq<char>) -> Option<int> {
    let d = unsigned_digits(t);
    if d.len() > 0 && (forall|i: int| 0 <= i < d.len() ==> is_dec_char(#[trigger] d[i]))
        && dec_value(d) <= 65535 {
        Some(dec_value(d))
    } else {
        None
    }
}

proof fn lemma_dec_value_mono(d: Seq<char>, k: int)
    requires
        forall|i: int| 0 <= i < d.len() ==> is_dec_char(#[trigger] d[i]),
        0 <= k <= d.len(),
    ensures
        0 <= dec_value(d.subrange(0, k)) <= dec_value(d),
    decreases d.len(),
{
    if d.len() > 0 {
        let p = d.drop_last();
        assert(forall|i: int| 0 <= i < p.len() ==> is_dec_char(#[trigger] p[i])) by {
            assert forall|i: int| 0 <= i < p.len() implies is_dec_char(#[trigger] p[i]) by {
                assert(p[i] == d[i]);
            }
        }
        if k == d.len() {
            assert(d.subrange(0, k) =~= d);
            lemma_dec_value_mono(p, k - 1);
        } else {
            lemma_dec_value_mono(p, k);
            assert(p.subrange(0, k) =~= d.subrange(0, k));
            lemma_dec_value_mono(p, p.len() as int);
            assert(p.subrange(0, p.len() as int) =~= p);
            assert(is_dec_char(d[d.len() - 1]));
        }
    }
}

/// Parse `t` as `u16::from_str` does.
fn parse_u16(t: &str) -> (res: Option<u16>)
    ensures
        res matches Some(v) ==> spec_parse_u16(t@) == Some(v as int),
        res is None ==> spec_parse_u16(t@) is None,
{
    let n = t.unicode_len();
    let mut i: usize = 0;
    if n > 0 && t.get_char(0) == '+' {
        i = 1;
    }
    let ghost d = unsigned_digits(t@);
    assert(d =~= t@.subrange(i as int, n as int));
    if i == n {
        return None;
    }
    let start = i;
    let mut acc: u32 = 0;
    while i < n
        invariant
            start <= i <= n,
            n == t@.len(),
            start < n,
            d == t@.subrange(start as int, n as int),
            d == unsigned_digits(t@),
            forall|j: int| 0 <= j < i - start ==> is_dec_char(#[trigger] d[j]),
            acc == dec_value(d.subrange(0, i - start)),
            acc <= 65535,
        decreases n - i,
    {
        let c = t.get_char(i);
        if !('0' <= c && c <= '9') {
            assert(d[i - start] == c);
            assert(!is_dec_char(d[i - start]));
            return None;
        }
        let ghost prev = d.subrange(0, i - start);
        let ghost next = d.subrange(0, i + 1 - start);
        assert(next.drop_last() =~= prev);
        assert(next.last() == c);
        let digit: u32 = (c as u32) - 48;
        let v: u32 = acc * 10 + digit;
        assert(dec_value(next) == v);
        i = i + 1;
        if v > 65535 {
            proof {
                // later digits only grow the value
                if forall|j: int| 0 <= j < d.len() ==> is_dec_char(#[trigger] d[j]) {
                    lemma_dec_value_mono(d, i - start);
                }
            }
            return None;
        }
        acc = v;
    }
    assert(d.subrange(0, n - start) =~= d);
    Some(acc as u16)
}

/// The x-number of an ABI register name.
pub open spec fn spec_abi_reg(name: Seq<char>) -> Option<u8> {
    if name == "zero"@ {
        Some(0u8)
    } else if name == "ra"@ {
        Some(1u8)
    } else if name == "sp"@ {
        Some(2u8)
    } else if name == "gp"@ {
        Some(3u8)
    } else if name == "tp"@ {
        Some(4u8)
    } else if name == "t0"@ {
        Some(5u8)
    } else if name == "t1"@ {
        Some(6u8)
    } else if name == "t2"@ {
        Some(7u8)
    } else if name == "s0"@ || name == "fp"@ {
        Some(8u8)
    } else if name == "s1"@ {
        Some(9u8)
    } else if name == "a0"@ {
        Some(10u8)
    } else if name == "a1"@ {
        Some(11u8)
    } else if name == "a2"@ {
        Some(12u8)
    } else if name == "a3"@ {
        Some(13u8)
    } else if name == "a4"@ {
        Some(14u8)
    } else if name == "a5"@ {
        Some(15u8)
    } else if name == "a6"@ {
        Some(16u8)
    } else if name == "a7"@ {
        Some(17u8)
    } else if name == "s2"@ {
        Some(18u8)
    } else if name == "s3"@ {
        Some(19u8)
    } else if name == "s4"@ {
        Some(20u8)
    } else if name == "s5"@ {
        Some(21u8)
    } else if name == "s6"@ {
        Some(22u8)
    } else if name == "s7"@ {
        Some(23u8)
    } else if name == "s8"@ {
        Some(24u8)
    } else if name == "s9"@ {
        Some(25u8)
    } else if name == "s10"@ {
        Some(26u8)
    } else if name == "s11"@ {
        Some(27u8)
    } else if name == "t3"@ {
        Some(28u8)
    } else if name == "t4"@ {
        Some(29u8)
    } else if name == "t5"@ {
        Some(30u8)
    } else if name == "t6"@ {
        Some(31u8)
    } else {
        None
    }
}

fn abi_reg(name: &str) -> (res: Option<u8>)
    ensures
        res == spec_abi_reg(name@),
{
    if str_eq(name, "zero") {
        Some(0)
    } else if str_eq(name, "ra") {
        Some(1)
    } else if str_eq(name, "sp") {
        Some(2)
    } else if str_eq(name, "gp") {
        Some(3)
    } else if str_eq(name, "tp") {
        Some(4)
    } else if str_eq(name, "t0") {
        Some(5)
    } else if str_eq(name, "t1") {
        Some(6)
    } else if str_eq(name, "t2") {
        Some(7)
    } else if str_eq(name, "s0") || str_eq(name, "fp") {
        Some(8)
    } else if str_eq(name, "s1") {
        Some(9)
    } else if str_eq(name, "a0") {
        Some(10)
    } else if str_eq(name, "a1") {
        Some(11)
    } else if str_eq(name, "a2") {
        Some(12)
    } else if str_eq(name, "a3") {
        Some(13)
    } else if str_eq(name, "a4") {
        Some(14)
    } else if str_eq(name, "a5") {
        Some(15)
    } else if str_eq(name, "a6") {
        Some(16)
    } else if str_eq(name, "a7") {
        Some(17)
    } else if str_eq(name, "s2") {
        Some(18)
    } else if str_eq(name, "s3") {
        Some(19)
    } else if str_eq(name, "s4") {
        Some(20)
    } else if str_eq(name, "s5") {
        Some(21)
    } else if str_eq(name, "s6") {
        Some(22)
    } else if str_eq(name, "s7") {
        Some(23)
    } else if str_eq(name, "s8") {
        Some(24)
    } else if str_eq(name, "s9") {
        Some(25)
    } else if str_eq(name, "s10") {
        Some(26)
    } else if str_eq(name, "s11") {
        Some(27)
    } else if str_eq(name, "t3") {
        Some(28)
    } else if str_eq(name, "t4") {
        Some(29)
    } else if str_eq(name, "t5") {
        Some(30)
    } else if str_eq(name, "t6") {
        Some(31)
    } else {
        None
    }
}

/// The x-number a register name denotes: `x` followed by what `u16` parses
/// (up to 31), else an ABI name.
pub open spec fn spec_reg_number(name: Seq<char>) -> Option<u8> {
    if name.len() > 0 && name[0] == 'x' && spec_parse_u16(name.drop_first()) is Some {
        let n = spec_parse_u16(name.drop_first())->0;
        if n <= 31 {
            Some(n as u8)
        } else {
            None
        }
    } else {
        spec_abi_reg(name)
    }
}

/// Map a register name (`xN` or an ABI name) to its x-number.
pub fn reg_number(name: &str) -> (res: Option<u8>)
    ensures
        res == spec_reg_number(name@),
{
    let n = name.unicode_len();
    if n > 0 && name.get_char(0) == 'x' {
        let rest = name.substring_char(1, n);
        assert(rest@ =~= name@.drop_first());
        if let Some(v) = parse_u16(rest) {
            return if v <= 31 {
                Some(v as u8)
            } else {
                None
            };
        }
    }
    abi_reg(name)
}

/// The identifier an operand spells, if it is one.
pub open spec fn spec_ident(op: Operand) -> Option<Seq<char>> {
    match op.kind {
        OperandKind::Ident(s) => Some(s@),
        OperandKind::Num(_) => None,
    }
}

/// The v1 register an operand names: `x0`..`x15` under either spelling.
pub open spec fn spec_resolve_reg(op: Operand) -> Option<Reg> {
    match spec_ident(op) {
        Some(name) => match spec_reg_number(name) {
            Some(n) => if n < 16 {
                Some(Reg::spec_new(n))
            } else {
                None
            },
            None => None,
        },
        None => None,
    }
}

/// The operand names a register (of any number).
pub open spec fn spec_is_register(op: Operand) -> bool {
    match spec_ident(op) {
        Some(name) => spec_reg_number(name) is Some,
        None => false,
    }
}

/// Resolve a register operand to a v1 `Reg` (x0-x15), else a diagnostic.
pub fn resolve_reg(op: &Operand) -> (res: Result<Reg, Diagnostic>)
    ensures
        res is Ok <==> spec_resolve_reg(*op) is Some,
        res matches Ok(r) ==> spec_resolve_reg(*op) == Some(r),
{
    let name = match &op.kind {
        OperandKind::Ident(s) => s.as_str(),
        OperandKind::Num(_) => {
            return Err(Diagnostic::error(span_copy(&op.span), "expected a register, found a number"));
        },
    };
    match reg_number(name) {
        None => {
            let mut m = String::new();
            m.append("unknown register `");
            m.append(name);
            m.append("`");
            Err(Diagnostic::error_owned(span_copy(&op.span), m))
        },
        Some(num) => {
            if num >= 16 {
                let mut m = String::new();
                m.append("register `");
                m.append(name);
                m.append("` maps to x");
                m.append(num.to_string().as_str());
                Err(
                    Diagnostic::error_owned(span_copy(&op.span), m).with_help(
                        "tamal v1 has a 16-register file (x0-x15); x16-x31 are unavailable",
                    ),
                )
            } else {
                Ok(Reg::new(num).unwrap())
            }
        },
    }
}

/// The constant an operand denotes: a number, or a `.equ` name.
pub open spec fn spec_resolve_imm(op: Operand, syms: SymMap) -> Option<i64> {
    match op.kind {
        OperandKind::Num(n) => Some(n),
        OperandKind::Ident(name) => if syms.contains_key(name@) {
            match syms[name@].0 {
                Sym::Equ(v) => Some(v),
                Sym::Label(_) => None,
            }
        } else {
            None
        },
    }
}

/// Resolve an immediate operand (number or `.equ`) to an `i64`, else a
/// diagnostic.
pub fn resolve_imm(op: &Operand, syms: &SymbolTable) -> (res: Result<i64, Diagnostic>)
    ensures
        res is Ok <==> spec_resolve_imm(*op, syms@) is Some,
        res matches Ok(v) ==> spec_resolve_imm(*op, syms@) == Some(v),
{
    match &op.kind {
        OperandKind::Num(n) => Ok(*n),
        OperandKind::Ident(name) => match syms.get(name.as_str()) {
            Some(Sym::Equ(v)) => Ok(v),
            Some(Sym::Label(_)) => {
                let mut m = String::new();
                m.append("`");
                m.append(name.as_str());
                m.append("` is a label; expected a constant");
                Err(Diagnostic::error_owned(span_copy(&op.span), m))
            },
            None => {
                let mut m = String::new();
                m.append("undefined symbol `");
                m.append(name.as_str());
                m.append("`");
                Err(Diagnostic::error_owned(span_copy(&op.span), m))
            },
        },
    }
}

/// Range-check `value` into `[lo, hi]`, else a diagnostic naming `what`.
pub fn checked(value: i64, lo: i64, hi: i64, span: &Span, what: &str) -> (res: Result<
    i64,
    Diagnostic,
>)
    ensures
        res is Ok <==> lo <= value <= hi,
        res matches Ok(v) ==> v == value,
{
    if value < lo || value > hi {
        let mut m = String::new();
        m.append(what);
        m.append(" out of range: ");
        m.append(value.to_string().as_str());
        m.append(" is not in [");
        m.append(lo.to_string().as_str());
        m.append(", ");
        m.append(hi.to_string().as_str());
        m.append("]");
        Err(Diagnostic::error_owned(span_copy(span), m))
    } else {
        Ok(value)
    }
}

/// The 11-bit two's-complement field of a value in `[-1024, 1023]`.
pub open spec fn spec_imm11_of(v: int) -> Imm11 {
    Imm11::spec_new(
        if v >= 0 {
            v as u16
        } else {
            (v + 2048) as u16
        },
    )
}

/// The value an 11-bit field holds, sign-extended.
pub open spec fn sext11(b: u16) -> int {
    if b >= 1024 {
        b - 2048
    } else {
        b as int
    }
}

/// An 11-bit immediate from a signed value in `[-1024, 1023]`.
fn imm11(v: i32) -> (res: Imm11)
    requires
        -1024 <= v <= 1023,
    ensures
        res == spec_imm11_of(v as int),
        sext11(res.value()) == v,
{
    let b: u16 = if v >= 0 {
        v as u16
    } else {
        (v + 2048) as u16
    };
    Imm11::new(b).unwrap()
}

/// `r` clamped into the signed 11-bit range.
pub open spec fn clamp11(r: int) -> int {
    if r < -1024 {
        -1024
    } else if r > 1023 {
        1023
    } else {
        r
    }
}

/// The run of `addi rd, rd, step` that adds `r` to `rd`, each step clamped to
/// the signed 11-bit range.
pub open spec fn spec_addis(rd: Reg, r: int) -> Seq<Instr>
    decreases
            (if r >= 0 {
                r
            } else {
                -r
            }),
{
    if r == 0 {
        Seq::empty()
    } else {
        seq![Instr::Addi(rd, rd, spec_imm11_of(clamp11(r)))] + spec_addis(rd, r - clamp11(r))
    }
}

/// The 32-bit pattern of a value, as a number in `[0, 2^32)`.
pub open spec fn word_of(v: int) -> int {
    if v >= 0 {
        v
    } else {
        v + 0x1_0000_0000
    }
}

/// The `li` expansion of a 32-bit value: one `load_imm` for a signed 11-bit
/// value; otherwise the high 20 bits (with the low 12 folded into
/// `[-2048, 2047]`) by `lui` when they are non-zero, else a `load_imm` seed,
/// then `addi` steps for the rest.
pub open spec fn spec_tile_li(rd: Reg, value: i32) -> Seq<Instr> {
    if -1024 <= value <= 1023 {
        seq![Instr::LoadImm(rd, spec_imm11_of(value as int))]
    } else {
        let w = word_of(value as int);
        let low12 = w % 4096;
        let hi0 = w / 4096;
        let resid = if low12 > 2047 {
            low12 - 4096
        } else {
            low12
        };
        let hi = if low12 > 2047 {
            (hi0 + 1) % 0x10_0000
        } else {
            hi0
        };
        if hi == 0 {
            let seed = clamp11(resid);
            seq![Instr::LoadImm(rd, spec_imm11_of(seed))] + spec_addis(rd, resid - seed)
        } else {
            seq![Instr::Lui(rd, Imm20::spec_new(hi as u32))] + spec_addis(rd, resid)
        }
    }
}

proof fn lemma_addis_only(rd: Reg, r: int)
    ensures
        forall|k: int| 0 <= k < spec_addis(rd, r).len() ==> (#[trigger] spec_addis(rd, r)[k] matches Instr::Addi(
            a,
            b,
            _,
        ) && a == rd && b == rd),
    decreases
            (if r >= 0 {
                r
            } else {
                -r
            }),
{
    if r != 0 {
        let rest = r - clamp11(r);
        lemma_addis_only(rd, rest);
        let head = seq![Instr::Addi(rd, rd, spec_imm11_of(clamp11(r)))];
        assert forall|k: int| 0 <= k < spec_addis(rd, r).len() implies (#[trigger] spec_addis(rd, r)[k] matches Instr::Addi(
            a,
            b,
            _,
        ) && a == rd && b == rd) by {
            if k > 0 {
                assert(spec_addis(rd, r)[k] == spec_addis(rd, rest)[k - 1]);
            }
        }
    }
}

/// The `li` expansion never holds a `lui` of zero, every word after the
/// first is an `addi rd, rd`, and it is as long on every register as the
/// word count that pass 1 reserves for it.
pub proof fn lemma_tile_li_shape(rd: Reg, value: i32)
    ensures
        forall|k: int|
            0 <= k < spec_tile_li(rd, value).len() ==> !(#[trigger] spec_tile_li(rd, value)[k] matches Instr::Lui(
                _,
                imm,
            ) && imm.value() == 0),
        spec_tile_li(rd, value).len() == spec_li_len(value),
        forall|k: int|
            1 <= k < spec_tile_li(rd, value).len() ==> (#[trigger] spec_tile_li(rd, value)[k] matches Instr::Addi(
                a,
                b,
                _,
            ) && a == rd && b == rd),
{
    let t = spec_tile_li(rd, value);
    let z = Reg::spec_new(0);
    if !(-1024 <= value <= 1023) {
        let w = word_of(value as int);
        let low12 = w % 4096;
        let hi0 = w / 4096;
        let resid = if low12 > 2047 {
            low12 - 4096
        } else {
            low12
        };
        let hi = if low12 > 2047 {
            (hi0 + 1) % 0x10_0000
        } else {
            hi0
        };
        if hi == 0 {
            let seed = clamp11(resid);
            lemma_addis_only(rd, resid - seed);
            lemma_addis_len(rd, z, resid - seed);
            assert forall|k: int| 0 <= k < t.len() implies !(#[trigger] t[k] matches Instr::Lui(_, imm) && imm.value()
                == 0) by {
                if k > 0 {
                    assert(t[k] == spec_addis(rd, resid - seed)[k - 1]);
                }
            }
        } else {
            assert(0 <= hi < 0x10_0000) by {
                assert(0 <= w < 0x1_0000_0000);
            }
            lemma_addis_only(rd, resid);
            lemma_addis_len(rd, z, resid);
            assert(Imm20::spec_new(hi as u32).value() == hi);
            assert forall|k: int| 0 <= k < t.len() implies !(#[trigger] t[k] matches Instr::Lui(_, imm) && imm.value()
                == 0) by {
                if k > 0 {
                    assert(t[k] == spec_addis(rd, resid)[k - 1]);
                }
            }
        }
    }
}

/// Build the `li` instruction sequence for any 32-bit `value` (1-4
/// instructions): one `load_imm` for signed-11 values, and never a dead
/// `lui rd, 0`.
pub fn tile_li(rd: Reg, value: i32) -> (res: Vec<Instr>)
    ensures
        res@ == spec_tile_li(rd, value),
{
    if -1024 <= value && value <= 1023 {
        return vec![Instr::LoadImm(rd, imm11(value))];
    }
    let w: u32 = if value >= 0 {
        value as u32
    } else {
        (value as i64 + 0x1_0000_0000i64) as u32
    };
    assert(w == word_of(value as int));
    let low12: i32 = (w % 4096) as i32;
    let mut hi: u32 = w / 4096;
    let mut resid: i32 = low12;
    if resid > 2047 {
        resid = resid - 4096;
        hi = (hi + 1) % 0x10_0000;
    }
    let ghost target = spec_tile_li(rd, value);
    let mut out: Vec<Instr> = Vec::new();
    if hi == 0 {
        let seed: i32 = if resid < -1024 {
            -1024
        } else if resid > 1023 {
            1023
        } else {
            resid
        };
        out.push(Instr::LoadImm(rd, imm11(seed)));
        resid = resid - seed;
    } else {
        out.push(Instr::Lui(rd, Imm20::new(hi).unwrap()));
    }
    assert(out@ + spec_addis(rd, resid as int) =~= target);
    while resid != 0
        invariant
            -2048 <= resid <= 2047,
            out@ + spec_addis(rd, resid as int) == target,
        decreases
                (if resid >= 0 {
                    resid as int
                } else {
                    -resid
                }),
    {
        let step: i32 = if resid < -1024 {
            -1024
        } else if resid > 1023 {
            1023
        } else {
            resid
        };
        let ghost before = out@;
        out.push(Instr::Addi(rd, rd, imm11(step)));
        assert(out@ + spec_addis(rd, (resid - step) as int) =~= before + spec_addis(
            rd,
            resid as int,
        ));
        resid = resid - step;
    }
    assert(out@ =~= out@ + spec_addis(rd, 0));
    out
}

/// The value a run of `li` instructions leaves in its register, starting
/// from `acc`, with 32-bit wrap-around.
pub open spec fn li_eval(instrs: Seq<Instr>, acc: int) -> int
    decreases instrs.len(),
{
    if instrs.len() == 0 {
        acc
    } else {
        let next = match instrs[0] {
            Instr::Lui(_, imm) => imm.value() * 4096,
            Instr::LoadImm(_, imm) => word_of(sext11(imm.value())),
            Instr::Addi(_, _, imm) => (acc + sext11(imm.value())) % 0x1_0000_0000,
            _ => acc,
        };
        li_eval(instrs.drop_first(), next)
    }
}

/// Every instruction of the run writes `rd` (and an `addi` reads it too).
pub open spec fn li_targets(instrs: Seq<Instr>, rd: Reg) -> bool {
    forall|i: int|
        0 <= i < instrs.len() ==> match #[trigger] instrs[i] {
            Instr::Lui(r, _) => r == rd,
            Instr::LoadImm(r, _) => r == rd,
            Instr::Addi(r, s, _) => r == rd && s == rd,
            _ => false,
        }
}

proof fn lemma_addis(rd: Reg, r: int, acc: int)
    requires
        -2048 <= r <= 2047,
        0 <= acc < 0x1_0000_0000,
    ensures
        li_eval(spec_addis(rd, r), acc) == (acc + r) % 0x1_0000_0000,
        li_targets(spec_addis(rd, r), rd),
        -1024 <= r <= 1023 ==> spec_addis(rd, r).len() <= 1,
        -1024 <= r <= 1024 ==> spec_addis(rd, r).len() <= 2,
        spec_addis(rd, r).len() <= 3,
    decreases
            (if r >= 0 {
                r
            } else {
                -r
            }),
{
    let m: int = 0x1_0000_0000;
    if r != 0 {
        let step = clamp11(r);
        let s = spec_addis(rd, r);
        let acc2 = (acc + step) % m;
        lemma_addis(rd, r - step, acc2);
        assert(s.drop_first() =~= spec_addis(rd, r - step));
        assert(sext11(spec_imm11_of(step).value()) == step);
        vstd::arithmetic::div_mod::lemma_add_mod_noop_right(r - step, acc + step, m);
        assert(li_targets(s, rd)) by {
            assert forall|i: int| 0 <= i < s.len() implies match #[trigger] s[i] {
                Instr::Lui(x, _) => x == rd,
                Instr::LoadImm(x, _) => x == rd,
                Instr::Addi(x, y, _) => x == rd && y == rd,
                _ => false,
            } by {
                if i > 0 {
                    assert(s[i] == spec_addis(rd, r - step)[i - 1]);
                }
            }
        }
    } else {
        assert(acc % m == acc);
    }
}

/// The `li` expansion of any 32-bit value is one to four instructions, all
/// on `rd`, that leave exactly the value's 32-bit pattern in `rd`.
pub proof fn lemma_tile_li(rd: Reg, value: i32)
    ensures
        1 <= spec_tile_li(rd, value).len() <= 4,
        li_targets(spec_tile_li(rd, value), rd),
        li_eval(spec_tile_li(rd, value), 0) == word_of(value as int),
{
    let t = spec_tile_li(rd, value);
    let m: int = 0x1_0000_0000;
    if -1024 <= value <= 1023 {
        assert(sext11(spec_imm11_of(value as int).value()) == value);
        assert(t.drop_first() =~= Seq::<Instr>::empty());
        assert(li_eval(t.drop_first(), word_of(value as int)) == word_of(value as int));
    } else {
        let w = word_of(value as int);
        let low12 = w % 4096;
        let hi0 = w / 4096;
        let resid = if low12 > 2047 {
            low12 - 4096
        } else {
            low12
        };
        let hi = if low12 > 2047 {
            (hi0 + 1) % 0x10_0000
        } else {
            hi0
        };
        assert(0 <= hi0 < 0x10_0000);
        assert(w == hi0 * 4096 + low12);
        if hi == 0 {
            let seed = clamp11(resid);
            let first = word_of(sext11(spec_imm11_of(seed).value()));
            assert(sext11(spec_imm11_of(seed).value()) == seed);
            lemma_addis(rd, resid - seed, first);
            assert(t.drop_first() =~= spec_addis(rd, resid - seed));
            vstd::arithmetic::div_mod::lemma_add_mod_noop_right(resid - seed, seed, m);
            assert(word_of(seed) % m == seed % m);
            assert((first + (resid - seed)) % m == w);
            assert(li_targets(t, rd)) by {
                assert forall|i: int| 0 <= i < t.len() implies match #[trigger] t[i] {
                    Instr::Lui(x, _) => x == rd,
                    Instr::LoadImm(x, _) => x == rd,
                    Instr::Addi(x, y, _) => x == rd && y == rd,
                    _ => false,
                } by {
                    if i > 0 {
                        assert(t[i] == spec_addis(rd, resid - seed)[i - 1]);
                    }
                }
            }
        } else {
            let first = hi * 4096;
            lemma_addis(rd, resid, first);
            assert(t.drop_first() =~= spec_addis(rd, resid));
            assert((first + resid) % m == w);
            assert(li_targets(t, rd)) by {
                assert forall|i: int| 0 <= i < t.len() implies match #[trigger] t[i] {
                    Instr::Lui(x, _) => x == rd,
                    Instr::LoadImm(x, _) => x == rd,
                    Instr::Addi(x, y, _) => x == rd && y == rd,
                    _ => false,
                } by {
                    if i > 0 {
                        assert(t[i] == spec_addis(rd, resid)[i - 1]);
                    }
                }
            }
        }
    }
}

/// The 32-bit pattern of an `li` operand, reinterpreted as `i32`: a
/// constant in `[i32::MIN, u32::MAX]`.
pub open spec fn spec_li_value(op: Operand, syms: SymMap) -> Option<i32> {
    match spec_resolve_imm(op, syms) {
        Some(v) => if i32::MIN <= v <= u32::MAX {
            Some(
                (if v > i32::MAX {
                    v - 0x1_0000_0000
                } else {
                    v as int
                }) as i32,
            )
        } else {
            None
        },
        None => None,
    }
}

/// Resolve and range-check an `li` value into its 32-bit pattern.
pub fn li_value(op: &Operand, syms: &SymbolTable) -> (res: Result<i32, Diagnostic>)
    ensures
        res is Ok <==> spec_li_value(*op, syms@) is Some,
        res matches Ok(v) ==> spec_li_value(*op, syms@) == Some(v),
{
    let v = resolve_imm(op, syms)?;
    if v < -0x8000_0000i64 || v > 0xFFFF_FFFFi64 {
        let mut m = String::new();
        m.append("`li` value ");
        m.append(v.to_string().as_str());
        m.append(" does not fit in 32 bits");
        return Err(Diagnostic::error_owned(span_copy(&op.span), m));
    }
    if v > 0x7FFF_FFFFi64 {
        Ok((v - 0x1_0000_0000i64) as i32)
    } else {
        Ok(v as i32)
    }
}

/// The number of words the `li` expansion of `value` takes.
pub open spec fn spec_li_len(value: i32) -> nat {
    spec_tile_li(Reg::spec_new(0), value).len()
}

proof fn lemma_addis_len(a: Reg, b: Reg, r: int)
    ensures
        spec_addis(a, r).len() == spec_addis(b, r).len(),
    decreases
            (if r >= 0 {
                r
            } else {
                -r
            }),
{
    if r != 0 {
        lemma_addis_len(a, b, r - clamp11(r));
    }
}

/// The length of an `li` expansion does not depend on its register.
pub proof fn lemma_tile_len_any_reg(rd: Reg, value: i32)
    ensures
        spec_tile_li(rd, value).len() == spec_li_len(value),
{
    let z = Reg::spec_new(0);
    if !(-1024 <= value <= 1023) {
        let w = word_of(value as int);
        let low12 = w % 4096;
        let resid = if low12 > 2047 {
            low12 - 4096
        } else {
            low12
        };
        lemma_addis_len(rd, z, resid);
        lemma_addis_len(rd, z, resid - clamp11(resid));
    }
}

/// Number of instruction words an `li` of `value` expands to (1-4).
pub fn li_word_count(value: i32) -> (res: u16)
    ensures
        res == spec_li_len(value),
        1 <= res <= 4,
{
    proof {
        lemma_tile_li(Reg::spec_new(0), value);
    }
    let t = tile_li(Reg::new(0).unwrap(), value);
    t.len() as u16
}

/// The words one instruction line takes in pass 1: an `li` with two
/// operands and a sizable value takes its expansion's length, every other
/// line one word.
pub open spec fn spec_instr_word_count(mnemonic: Seq<char>, ops: Seq<Operand>, syms: SymMap) -> nat {
    if mnemonic == "li"@ && ops.len() == 2 && spec_li_value(ops[1], syms) is Some {
        spec_li_len(spec_li_value(ops[1], syms)->0)
    } else {
        1
    }
}

/// Word count of one instruction line, for pass-1 addressing. Infallible: a
/// `li` whose value cannot be sized counts as one word, and pass 2 reports
/// the real error.
pub fn instr_word_count(mnemonic: &str, operands: &[Operand], syms: &SymbolTable) -> (res: u16)
    ensures
        res == spec_instr_word_count(mnemonic@, operands@, syms@),
        1 <= res <= 4,
{
    if str_eq(mnemonic, "li") && operands.len() == 2 {
        if let Ok(v) = li_value(&operands[1], syms) {
            return li_word_count(v);
        }
    }
    1
}

/// The constant of an operand when it lies in `[lo, hi]`.
pub open spec fn spec_in_range(op: Operand, syms: SymMap, lo: int, hi: int) -> Option<i64> {
    match spec_resolve_imm(op, syms) {
        Some(v) => if lo <= v <= hi {
            Some(v)
        } else {
            None
        },
        None => None,
    }
}

fn field_range(op: &Operand, syms: &SymbolTable, lo: i64, hi: i64, what: &str) -> (res: Result<
    i64,
    Diagnostic,
>)
    ensures
        res is Ok <==> spec_in_range(*op, syms@, lo as int, hi as int) is Some,
        res matches Ok(v) ==> spec_in_range(*op, syms@, lo as int, hi as int) == Some(v),
{
    let v = resolve_imm(op, syms)?;
    checked(v, lo, hi, &op.span, what)
}

/// A byte-valued field.
pub open spec fn spec_field_u8(op: Operand, syms: SymMap) -> Option<u8> {
    match spec_in_range(op, syms, 0, 255) {
        Some(v) => Some(v as u8),
        None => None,
    }
}

fn field_u8(op: &Operand, syms: &SymbolTable, what: &str) -> (res: Result<u8, Diagnostic>)
    ensures
        res is Ok <==> spec_field_u8(*op, syms@) is Some,
        res matches Ok(v) ==> spec_field_u8(*op, syms@) == Some(v),
{
    let v = field_range(op, syms, 0, 255, what)?;
    Ok(v as u8)
}

/// A signed 11-bit immediate field.
pub open spec fn spec_field_imm11(op: Operand, syms: SymMap) -> Option<Imm11> {
    match spec_in_range(op, syms, -1024, 1023) {
        Some(v) => Some(spec_imm11_of(v as int)),
        None => None,
    }
}

fn field_imm11(op: &Operand, syms: &SymbolTable) -> (res: Result<Imm11, Diagnostic>)
    ensures
        res is Ok <==> spec_field_imm11(*op, syms@) is Some,
        res matches Ok(v) ==> spec_field_imm11(*op, syms@) == Some(v),
{
    let v = field_range(op, syms, -1024, 1023, "immediate")?;
    Ok(imm11(v as i32))
}

/// A bit-count field (1-8).
pub open spec fn spec_field_bitcount(op: Operand, syms: SymMap) -> Option<BitCount> {
    match spec_in_range(op, syms, 1, 8) {
        Some(v) => Some(BitCount::spec_new(v as u8)),
        None => None,
    }
}

fn field_bitcount(op: &Operand, syms: &SymbolTable) -> (res: Result<BitCount, Diagnostic>)
    ensures
        res is Ok <==> spec_field_bitcount(*op, syms@) is Some,
        res matches Ok(v) ==> spec_field_bitcount(*op, syms@) == Some(v),
{
    let v = field_range(op, syms, 1, 8, "bit count")?;
    Ok(BitCount::new(v as u8).unwrap())
}

/// A turnaround-count field (0-15).
pub open spec fn spec_field_tar4(op: Operand, syms: SymMap) -> Option<Tar4> {
    match spec_in_range(op, syms, 0, 15) {
        Some(v) => Some(Tar4::spec_new(v as u8)),
        None => None,
    }
}

fn field_tar4(op: &Operand, syms: &SymbolTable) -> (res: Result<Tar4, Diagnostic>)
    ensures
        res is Ok <==> spec_field_tar4(*op, syms@) is Some,
        res matches Ok(v) ==> spec_field_tar4(*op, syms@) == Some(v),
{
    let v = field_range(op, syms, 0, 15, "TAR count")?;
    Ok(Tar4::new(v as u8).unwrap())
}

/// A shift-amount field (0-31).
pub open spec fn spec_field_amt5(op: Operand, syms: SymMap) -> Option<Amt5> {
    match spec_in_range(op, syms, 0, 31) {
        Some(v) => Some(Amt5::spec_new(v as u8)),
        None => None,
    }
}

fn field_amt5(op: &Operand, syms: &SymbolTable) -> (res: Result<Amt5, Diagnostic>)
    ensures
        res is Ok <==> spec_field_amt5(*op, syms@) is Some,
        res matches Ok(v) ==> spec_field_amt5(*op, syms@) == Some(v),
{
    let v = field_range(op, syms, 0, 31, "shift amount")?;
    Ok(Amt5::new(v as u8).unwrap())
}

/// An upper-immediate field (0-0xFFFFF).
pub open spec fn spec_field_imm20(op: Operand, syms: SymMap) -> Option<Imm20> {
    match spec_in_range(op, syms, 0, 0xF_FFFF) {
        Some(v) => Some(Imm20::spec_new(v as u32)),
        None => None,
    }
}

fn field_imm20(op: &Operand, syms: &SymbolTable) -> (res: Result<Imm20, Diagnostic>)
    ensures
        res is Ok <==> spec_field_imm20(*op, syms@) is Some,
        res matches Ok(v) ==> spec_field_imm20(*op, syms@) == Some(v),
{
    let v = field_range(op, syms, 0, 0xF_FFFF, "immediate")?;
    Ok(Imm20::new(v as u32).unwrap())
}

/// A trace-mark tag field (0-2047).
pub open spec fn spec_field_mark_tag(op: Operand, syms: SymMap) -> Option<Imm11> {
    match spec_in_range(op, syms, 0, 2047) {
        Some(v) => Some(Imm11::spec_new(v as u16)),
        None => None,
    }
}

fn field_mark_tag(op: &Operand, syms: &SymbolTable) -> (res: Result<Imm11, Diagnostic>)
    ensures
        res is Ok <==> spec_field_mark_tag(*op, syms@) is Some,
        res matches Ok(v) ==> spec_field_mark_tag(*op, syms@) == Some(v),
{
    let v = field_range(op, syms, 0, 2047, "mark tag")?;
    Ok(Imm11::new(v as u16).unwrap())
}

/// A wait-condition field (0-3).
pub open spec fn spec_field_wait_cond(op: Operand, syms: SymMap) -> Option<WaitCond> {
    match spec_in_range(op, syms, 0, 3) {
        Some(v) => Some(WaitCond::spec_new(v as u8)),
        None => None,
    }
}

fn field_wait_cond(op: &Operand, syms: &SymbolTable) -> (res: Result<WaitCond, Diagnostic>)
    ensures
        res is Ok <==> spec_field_wait_cond(*op, syms@) is Some,
        res matches Ok(v) ==> spec_field_wait_cond(*op, syms@) == Some(v),
{
    let v = field_range(op, syms, 0, 3, "wait condition")?;
    Ok(WaitCond::new(v as u8).unwrap())
}

/// A wait-timeout field (0-511).
pub open spec fn spec_field_wait_timeout(op: Operand, syms: SymMap) -> Option<WaitTimeout> {
    match spec_in_range(op, syms, 0, 511) {
        Some(v) => Some(WaitTimeout::spec_new(v as u16)),
        None => None,
    }
}

fn field_wait_timeout(op: &Operand, syms: &SymbolTable) -> (res: Result<WaitTimeout, Diagnostic>)
    ensures
        res is Ok <==> spec_field_wait_timeout(*op, syms@) is Some,
        res matches Ok(v) ==> spec_field_wait_timeout(*op, syms@) == Some(v),
{
    let v = field_range(op, syms, 0, 511, "wait timeout")?;
    Ok(WaitTimeout::new(v as u16).unwrap())
}

/// A special-register operand: the keyword `crc` (any case) is register 0,
/// else a constant in 0-31.
pub open spec fn spec_resolve_sr(op: Operand, syms: SymMap) -> Option<Sr5> {
    if spec_ident(op) matches Some(s) && spec_lower(s) == "crc"@ {
        Some(Sr5::spec_new(0))
    } else {
        match spec_in_range(op, syms, 0, 31) {
            Some(v) => Some(Sr5::spec_new(v as u8)),
            None => None,
        }
    }
}

fn resolve_sr(op: &Operand, syms: &SymbolTable) -> (res: Result<Sr5, Diagnostic>)
    ensures
        res is Ok <==> spec_resolve_sr(*op, syms@) is Some,
        res matches Ok(v) ==> spec_resolve_sr(*op, syms@) == Some(v),
{
    if let OperandKind::Ident(s) = &op.kind {
        let low = to_ascii_lowercase(s.as_str());
        if str_eq(low.as_str(), "crc") {
            return Ok(Sr5::new(0).unwrap());
        }
    }
    let v = field_range(op, syms, 0, 31, "special register")?;
    Ok(Sr5::new(v as u8).unwrap())
}

/// The offset field of a branch at `addr` to a label operand.
pub open spec fn spec_branch_target(op: Operand, addr: u16, syms: SymMap) -> Option<Imm11> {
    match spec_ident(op) {
        Some(name) => if syms.contains_key(name) {
            match syms[name].0 {
                Sym::Label(t) => {
                    let off = t - addr;
                    if -1024 <= off <= 1023 {
                        Some(spec_imm11_of(off))
                    } else {
                        None
                    }
                },
                Sym::Equ(_) => None,
            }
        } else {
            None
        },
        None => None,
    }
}

fn resolve_branch_target(op: &Operand, addr: u16, syms: &SymbolTable) -> (res: Result<
    Imm11,
    Diagnostic,
>)
    ensures
        res is Ok <==> spec_branch_target(*op, addr, syms@) is Some,
        res matches Ok(v) ==> spec_branch_target(*op, addr, syms@) == Some(v),
{
    let name = match &op.kind {
        OperandKind::Ident(s) => s.as_str(),
        OperandKind::Num(_) => {
            return Err(Diagnostic::error(span_copy(&op.span), "branch target must be a label"));
        },
    };
    let target: i32 = match syms.get(name) {
        Some(Sym::Label(t)) => t as i32,
        Some(Sym::Equ(_)) => {
            let mut m = String::new();
            m.append("`");
            m.append(name);
            m.append("` is a constant; a branch target must be a label");
            return Err(Diagnostic::error_owned(span_copy(&op.span), m));
        },
        None => {
            let mut m = String::new();
            m.append("undefined label `");
            m.append(name);
            m.append("`");
            return Err(Diagnostic::error_owned(span_copy(&op.span), m));
        },
    };
    let off: i32 = target - addr as i32;
    checked(off as i64, -1024, 1023, &op.span, "branch offset")?;
    Ok(imm11(off))
}

/// The lower-cased keyword an operand spells.
pub open spec fn spec_kw(op: Operand) -> Option<Seq<char>> {
    match spec_ident(op) {
        Some(s) => Some(spec_lower(s)),
        None => None,
    }
}

/// The role a `set_config` keyword names.
pub open spec fn spec_role_kw(k: Seq<char>) -> Option<Role> {
    if k == "controller"@ {
        Some(Role::Controller)
    } else if k == "target"@ {
        Some(Role::Target)
    } else {
        None
    }
}

/// The I/O mode a `set_config` keyword names.
pub open spec fn spec_io_kw(k: Seq<char>) -> Option<IoMode> {
    if k == "x1"@ {
        Some(IoMode::X1)
    } else if k == "x2"@ {
        Some(IoMode::X2)
    } else if k == "x4"@ {
        Some(IoMode::X4)
    } else {
        None
    }
}

/// The SCK a `set_config` keyword names.
pub open spec fn spec_sck_kw(k: Seq<char>) -> Option<Sck> {
    if k == "sck20"@ {
        Some(Sck::Sck20)
    } else if k == "sck33"@ {
        Some(Sck::Sck33)
    } else if k == "sck50"@ {
        Some(Sck::Sck50)
    } else if k == "sck66"@ {
        Some(Sck::Sck66)
    } else {
        None
    }
}

/// The alert source a `set_config` keyword names.
pub open spec fn spec_alert_kw(k: Seq<char>) -> Option<AlertSource> {
    if k == "alert_pin"@ {
        Some(AlertSource::AlertPin)
    } else if k == "alert_io1"@ {
        Some(AlertSource::AlertIo1)
    } else {
        None
    }
}

/// The configuration four `set_config` keywords name, if each is known.
pub open spec fn spec_config_of(ops: Seq<Operand>) -> Option<Config> {
    if ops.len() == 4 && spec_kw(ops[0]) is Some && spec_kw(ops[1]) is Some && spec_kw(ops[2]) is Some
        && spec_kw(ops[3]) is Some && spec_role_kw(spec_kw(ops[0])->0) is Some && spec_io_kw(
        spec_kw(ops[1])->0,
    ) is Some && spec_sck_kw(spec_kw(ops[2])->0) is Some && spec_alert_kw(spec_kw(ops[3])->0) is Some {
        Some(
            Config {
                role: spec_role_kw(spec_kw(ops[0])->0)->0,
                io_mode: spec_io_kw(spec_kw(ops[1])->0)->0,
                sck: spec_sck_kw(spec_kw(ops[2])->0)->0,
                alert_source: spec_alert_kw(spec_kw(ops[3])->0)->0,
            },
        )
    } else {
        None
    }
}

/// `set_config ROLE, IO, SCK, ALERT`: the packed payload of a configuration
/// that the v1 engine accepts.
pub open spec fn spec_set_config(ops: Seq<Operand>) -> Option<Instr> {
    match spec_config_of(ops) {
        Some(c) => if spec_decode_config(spec_pack(c)) is Ok {
            Some(Instr::SetConfig(Cfg6::spec_new(spec_pack(c))))
        } else {
            None
        },
        None => None,
    }
}

fn keyword(op: &Operand) -> (res: Result<String, Diagnostic>)
    ensures
        res is Ok <==> spec_kw(*op) is Some,
        res matches Ok(k) ==> spec_kw(*op) == Some(k@),
{
    match &op.kind {
        OperandKind::Ident(s) => Ok(to_ascii_lowercase(s.as_str())),
        OperandKind::Num(_) => Err(Diagnostic::error(span_copy(&op.span), "expected a keyword")),
    }
}

fn unknown_keyword(op: &Operand, kind: &str, word: &str, choices: &str) -> (res: Diagnostic)
    ensures
        res.severity == Severity::Error,
        res.message@ == "unknown "@ + kind@ + " `"@ + word@ + "` ("@ + choices@ + ")"@,
        res.primary == op.span,
        res.labels@.len() == 0,
        res.help is None,
{
    let mut m = String::new();
    m.append("unknown ");
    m.append(kind);
    m.append(" `");
    m.append(word);
    m.append("` (");
    m.append(choices);
    m.append(")");
    assert(m@ =~= "unknown "@ + kind@ + " `"@ + word@ + "` ("@ + choices@ + ")"@);
    Diagnostic::error_owned(span_copy(&op.span), m)
}

fn arity_error(span: &Span, mnem: &str, n: usize, got: usize) -> (res: Diagnostic)
    ensures
        res.severity == Severity::Error,
        res.message@ == "`"@ + mnem@ + "` takes "@ + spec_dec(n as nat) + " operand(s), got "@ + spec_dec(got as nat),
        res.primary == *span,
        res.labels@.len() == 0,
        res.help is None,
{
    let mut m = String::new();
    m.append("`");
    m.append(mnem);
    m.append("` takes ");
    push_dec(&mut m, n as u64);
    m.append(" operand(s), got ");
    push_dec(&mut m, got as u64);
    assert(m@ =~= "`"@ + mnem@ + "` takes "@ + spec_dec(n as nat) + " operand(s), got "@ + spec_dec(got as nat));
    Diagnostic::error_owned(span_copy(span), m)
}

fn encode_set_config(operands: &[Operand], span: &Span) -> (res: Result<Instr, Diagnostic>)
    ensures
        res is Ok <==> spec_set_config(operands@) is Some,
        res matches Ok(i) ==> spec_set_config(operands@) == Some(i),
{
    if operands.len() != 4 {
        return Err(arity_error(span, "set_config", 4, operands.len()));
    }
    let k0 = keyword(&operands[0])?;
    let role = if str_eq(k0.as_str(), "controller") {
        Role::Controller
    } else if str_eq(k0.as_str(), "target") {
        Role::Target
    } else {
        return Err(unknown_keyword(&operands[0], "role", k0.as_str(), "controller|target"));
    };
    let k1 = keyword(&operands[1])?;
    let io_mode = if str_eq(k1.as_str(), "x1") {
        IoMode::X1
    } else if str_eq(k1.as_str(), "x2") {
        IoMode::X2
    } else if str_eq(k1.as_str(), "x4") {
        IoMode::X4
    } else {
        return Err(unknown_keyword(&operands[1], "IO mode", k1.as_str(), "x1|x2|x4"));
    };
    let k2 = keyword(&operands[2])?;
    let sck = if str_eq(k2.as_str(), "sck20") {
        Sck::Sck20
    } else if str_eq(k2.as_str(), "sck33") {
        Sck::Sck33
    } else if str_eq(k2.as_str(), "sck50") {
        Sck::Sck50
    } else if str_eq(k2.as_str(), "sck66") {
        Sck::Sck66
    } else {
        return Err(unknown_keyword(&operands[2], "SCK", k2.as_str(), "sck20|sck33|sck50|sck66"));
    };
    let k3 = keyword(&operands[3])?;
    let alert_source = if str_eq(k3.as_str(), "alert_pin") {
        AlertSource::AlertPin
    } else if str_eq(k3.as_str(), "alert_io1") {
        AlertSource::AlertIo1
    } else {
        return Err(
            unknown_keyword(&operands[3], "alert source", k3.as_str(), "alert_pin|alert_io1"),
        );
    };
    let cfg = Config { role, io_mode, sck, alert_source };
    assert(spec_config_of(operands@) == Some(cfg));
    let payload = cfg.pack();
    match decode_config(payload) {
        Ok(_) => Ok(Instr::SetConfig(payload)),
        Err(e) => {
            let (sp, msg): (Span, &str) = match e {
                ConfigError::UnsupportedRole => (
                    span_copy(&operands[0].span),
                    "role `target` is not available in v1 (controller only)",
                ),
                ConfigError::UnsupportedIoMode => (
                    span_copy(&operands[1].span),
                    "IO mode `x2`/`x4` is not available in v1 (x1 only)",
                ),
                ConfigError::UnsupportedSck => (
                    span_copy(&operands[2].span),
                    "SCK `sck33`/`sck50`/`sck66` is not available in v1 (sck20 only)",
                ),
            };
            Err(Diagnostic::error(sp, msg))
        },
    }
}

/// The bus, data and configuration instructions: `None` for another
/// mnemonic, else the one instruction a line lowers to, if it is valid.
/// The `put_byte` line, lowered.
pub open spec fn spec_put_byte(ops: Seq<Operand>, syms: SymMap) -> Option<Instr> {
    let n = ops.len();
    if n != 1 {
        None
    } else if spec_is_register(ops[0]) {
        match spec_resolve_reg(ops[0]) {
            Some(r) => Some(Instr::PutByteReg(r)),
            None => None,
        }
    } else {
        match spec_field_u8(ops[0], syms) {
            Some(b) => Some(Instr::PutByteImm(b)),
            None => None,
        }
    }
}

/// The `put_bits` line, lowered.
pub open spec fn spec_put_bits(ops: Seq<Operand>, syms: SymMap) -> Option<Instr> {
    let n = ops.len();
    if n != 2 {
        None
    } else if spec_is_register(ops[0]) {
        match (spec_resolve_reg(ops[0]), spec_field_bitcount(ops[1], syms)) {
            (Some(r), Some(c)) => Some(Instr::PutBitsReg(r, c)),
            _ => None,
        }
    } else {
        match (spec_field_bitcount(ops[0], syms), spec_field_u8(ops[1], syms)) {
            (Some(c), Some(b)) => Some(Instr::PutBitsImm(c, b)),
            _ => None,
        }
    }
}

/// The `get_bits` line, lowered.
pub open spec fn spec_get_bits(ops: Seq<Operand>, syms: SymMap) -> Option<Instr> {
    let n = ops.len();
    if n != 2 {
        None
    } else {
        match (spec_resolve_reg(ops[0]), spec_field_bitcount(ops[1], syms)) {
            (Some(r), Some(c)) => Some(Instr::GetBits(r, c)),
            _ => None,
        }
    }
}

/// The `tar` line, lowered.
pub open spec fn spec_tar(ops: Seq<Operand>, syms: SymMap) -> Option<Instr> {
    let n = ops.len();
    if n != 1 {
        None
    } else if spec_is_register(ops[0]) {
        match spec_resolve_reg(ops[0]) {
            Some(r) => Some(Instr::TarReg(r)),
            None => None,
        }
    } else {
        match spec_field_tar4(ops[0], syms) {
            Some(t) => Some(Instr::TarImm(t)),
            None => None,
        }
    }
}

/// The `wait_on` line, lowered.
pub open spec fn spec_wait_on(ops: Seq<Operand>, syms: SymMap) -> Option<Instr> {
    let n = ops.len();
    if n != 3 {
        None
    } else {
        match (
            spec_resolve_reg(ops[0]),
            spec_field_wait_cond(ops[1], syms),
            spec_field_wait_timeout(ops[2], syms),
        ) {
            (Some(r), Some(c), Some(t)) => Some(Instr::WaitOn(r, c, t)),
            _ => None,
        }
    }
}

/// The `mark` line, lowered.
pub open spec fn spec_mark(ops: Seq<Operand>, syms: SymMap) -> Option<Instr> {
    let n = ops.len();
    if n != 2 {
        None
    } else {
        match (spec_field_mark_tag(ops[0], syms), spec_resolve_reg(ops[1])) {
            (Some(t), Some(r)) => Some(Instr::Mark(t, r)),
            _ => None,
        }
    }
}

pub open spec fn spec_single_bus(m: Seq<char>, ops: Seq<Operand>, syms: SymMap) -> Option<
    Option<Instr>,
> {
    let n = ops.len();
    if m == "cs_assert"@ {
        Some(if n == 0 { Some(Instr::CsAssert) } else { None })
    } else if m == "cs_deassert"@ {
        Some(if n == 0 { Some(Instr::CsDeassert) } else { None })
    } else if m == "rst_assert"@ {
        Some(if n == 0 { Some(Instr::RstAssert) } else { None })
    } else if m == "rst_deassert"@ {
        Some(if n == 0 { Some(Instr::RstDeassert) } else { None })
    } else if m == "crc_reset"@ {
        Some(if n == 0 { Some(Instr::CrcReset) } else { None })
    } else if m == "put_byte"@ {
        Some(
            spec_put_byte(ops, syms),
        )
    } else if m == "get_byte"@ {
        Some(
            if n != 1 {
                None
            } else {
                match spec_resolve_reg(ops[0]) {
                    Some(r) => Some(Instr::GetByte(r)),
                    None => None,
                }
            },
        )
    } else if m == "put_bits"@ {
        Some(
            spec_put_bits(ops, syms),
        )
    } else if m == "get_bits"@ {
        Some(
            spec_get_bits(ops, syms),
        )
    } else if m == "tar"@ {
        Some(
            spec_tar(ops, syms),
        )
    } else if m == "get_alert"@ {
        Some(
            if n != 1 {
                None
            } else {
                match spec_resolve_reg(ops[0]) {
                    Some(r) => Some(Instr::GetAlert(r)),
                    None => None,
                }
            },
        )
    } else if m == "halt"@ {
        Some(
            if n != 1 {
                None
            } else {
                match spec_field_u8(ops[0], syms) {
                    Some(b) => Some(Instr::Halt(b)),
                    None => None,
                }
            },
        )
    } else if m == "wait_on"@ {
        Some(
            spec_wait_on(ops, syms),
        )
    } else if m == "set_config"@ {
        Some(spec_set_config(ops))
    } else if m == "mark"@ {
        Some(
            spec_mark(ops, syms),
        )
    } else {
        None
    }
}

/// Three register operands.
pub open spec fn spec_regs3(ops: Seq<Operand>) -> Option<(Reg, Reg, Reg)> {
    if ops.len() != 3 {
        None
    } else {
        match (spec_resolve_reg(ops[0]), spec_resolve_reg(ops[1]), spec_resolve_reg(ops[2])) {
            (Some(a), Some(b), Some(c)) => Some((a, b, c)),
            _ => None,
        }
    }
}

/// Two registers and a signed 11-bit immediate.
pub open spec fn spec_rri(ops: Seq<Operand>, syms: SymMap) -> Option<(Reg, Reg, Imm11)> {
    if ops.len() != 3 {
        None
    } else {
        match (spec_resolve_reg(ops[0]), spec_resolve_reg(ops[1]), spec_field_imm11(ops[2], syms)) {
            (Some(a), Some(b), Some(c)) => Some((a, b, c)),
            _ => None,
        }
    }
}

/// Two registers and a shift amount.
pub open spec fn spec_shift_ops(ops: Seq<Operand>, syms: SymMap) -> Option<(Reg, Reg, Amt5)> {
    if ops.len() != 3 {
        None
    } else {
        match (spec_resolve_reg(ops[0]), spec_resolve_reg(ops[1]), spec_field_amt5(ops[2], syms)) {
            (Some(a), Some(b), Some(c)) => Some((a, b, c)),
            _ => None,
        }
    }
}

/// Two registers and a branch target at `addr`.
pub open spec fn spec_branch_ops(ops: Seq<Operand>, addr: u16, syms: SymMap) -> Option<
    (Reg, Reg, Imm11),
> {
    if ops.len() != 3 {
        None
    } else {
        match (
            spec_resolve_reg(ops[0]),
            spec_resolve_reg(ops[1]),
            spec_branch_target(ops[2], addr, syms),
        ) {
            (Some(a), Some(b), Some(c)) => Some((a, b, c)),
            _ => None,
        }
    }
}

/// A register and a signed 11-bit immediate.
pub open spec fn spec_r_imm11(ops: Seq<Operand>, syms: SymMap) -> Option<(Reg, Imm11)> {
    if ops.len() != 2 {
        None
    } else {
        match (spec_resolve_reg(ops[0]), spec_field_imm11(ops[1], syms)) {
            (Some(r), Some(i)) => Some((r, i)),
            _ => None,
        }
    }
}

/// A register and a 20-bit upper immediate.
pub open spec fn spec_r_imm20(ops: Seq<Operand>, syms: SymMap) -> Option<(Reg, Imm20)> {
    if ops.len() != 2 {
        None
    } else {
        match (spec_resolve_reg(ops[0]), spec_field_imm20(ops[1], syms)) {
            (Some(r), Some(i)) => Some((r, i)),
            _ => None,
        }
    }
}

/// Two register operands.
pub open spec fn spec_rr(ops: Seq<Operand>) -> Option<(Reg, Reg)> {
    if ops.len() != 2 {
        None
    } else {
        match (spec_resolve_reg(ops[0]), spec_resolve_reg(ops[1])) {
            (Some(a), Some(b)) => Some((a, b)),
            _ => None,
        }
    }
}

/// A register and a special register.
pub open spec fn spec_r_sr(ops: Seq<Operand>, syms: SymMap) -> Option<(Reg, Sr5)> {
    if ops.len() != 2 {
        None
    } else {
        match (spec_resolve_reg(ops[0]), spec_resolve_sr(ops[1], syms)) {
            (Some(r), Some(sr)) => Some((r, sr)),
            _ => None,
        }
    }
}

/// A register and a branch target at `addr`.
pub open spec fn spec_r_target(ops: Seq<Operand>, addr: u16, syms: SymMap) -> Option<(Reg, Imm11)> {
    if ops.len() != 2 {
        None
    } else {
        match (spec_resolve_reg(ops[0]), spec_branch_target(ops[1], addr, syms)) {
            (Some(r), Some(off)) => Some((r, off)),
            _ => None,
        }
    }
}

/// A lone branch target at `addr`.
pub open spec fn spec_target1(ops: Seq<Operand>, addr: u16, syms: SymMap) -> Option<Imm11> {
    if ops.len() != 1 {
        None
    } else {
        spec_branch_target(ops[0], addr, syms)
    }
}

/// The register, ALU and control-flow instructions (pseudo-ops included,
/// `li` excepted): `None` for another mnemonic, else the one instruction a
/// line lowers to, if it is valid.
pub open spec fn spec_single_alu(m: Seq<char>, ops: Seq<Operand>, addr: u16, syms: SymMap) -> Option<
    Option<Instr>,
> {
    let x0 = Reg::spec_new(0);
    if m == "load_imm"@ {
        Some(
            match spec_r_imm11(ops, syms) {
                Some((r, i)) => Some(Instr::LoadImm(r, i)),
                None => None,
            },
        )
    } else if m == "lui"@ {
        Some(
            match spec_r_imm20(ops, syms) {
                Some((r, i)) => Some(Instr::Lui(r, i)),
                None => None,
            },
        )
    } else if m == "mov"@ || m == "mv"@ {
        Some(
            match spec_rr(ops) {
                Some((a, b)) => Some(Instr::Mov(a, b)),
                None => None,
            },
        )
    } else if m == "add"@ {
        Some(
            match spec_regs3(ops) {
                Some((a, b, c)) => Some(Instr::Add(a, b, c)),
                None => None,
            },
        )
    } else if m == "sub"@ {
        Some(
            match spec_regs3(ops) {
                Some((a, b, c)) => Some(Instr::Sub(a, b, c)),
                None => None,
            },
        )
    } else if m == "and"@ {
        Some(
            match spec_regs3(ops) {
                Some((a, b, c)) => Some(Instr::And(a, b, c)),
                None => None,
            },
        )
    } else if m == "or"@ {
        Some(
            match spec_regs3(ops) {
                Some((a, b, c)) => Some(Instr::Or(a, b, c)),
                None => None,
            },
        )
    } else if m == "xor"@ {
        Some(
            match spec_regs3(ops) {
                Some((a, b, c)) => Some(Instr::Xor(a, b, c)),
                None => None,
            },
        )
    } else if m == "addi"@ {
        Some(
            match spec_rri(ops, syms) {
                Some((a, b, c)) => Some(Instr::Addi(a, b, c)),
                None => None,
            },
        )
    } else if m == "andi"@ {
        Some(
            match spec_rri(ops, syms) {
                Some((a, b, c)) => Some(Instr::Andi(a, b, c)),
                None => None,
            },
        )
    } else if m == "ori"@ {
        Some(
            match spec_rri(ops, syms) {
                Some((a, b, c)) => Some(Instr::Ori(a, b, c)),
                None => None,
            },
        )
    } else if m == "xori"@ {
        Some(
            match spec_rri(ops, syms) {
                Some((a, b, c)) => Some(Instr::Xori(a, b, c)),
                None => None,
            },
        )
    } else if m == "sll"@ {
        Some(
            match spec_shift_ops(ops, syms) {
                Some((a, b, c)) => Some(Instr::Shift(a, b, ShiftOp::Sll, c)),
                None => None,
            },
        )
    } else if m == "srl"@ {
        Some(
            match spec_shift_ops(ops, syms) {
                Some((a, b, c)) => Some(Instr::Shift(a, b, ShiftOp::Srl, c)),
                None => None,
            },
        )
    } else if m == "sra"@ {
        Some(
            match spec_shift_ops(ops, syms) {
                Some((a, b, c)) => Some(Instr::Shift(a, b, ShiftOp::Sra, c)),
                None => None,
            },
        )
    } else if m == "rdsr"@ {
        Some(
            match spec_r_sr(ops, syms) {
                Some((r, sr)) => Some(Instr::Rdsr(r, sr)),
                None => None,
            },
        )
    } else if m == "beq"@ {
        Some(
            match spec_branch_ops(ops, addr, syms) {
                Some((a, b, c)) => Some(Instr::Beq(a, b, c)),
                None => None,
            },
        )
    } else if m == "bne"@ {
        Some(
            match spec_branch_ops(ops, addr, syms) {
                Some((a, b, c)) => Some(Instr::Bne(a, b, c)),
                None => None,
            },
        )
    } else if m == "bltu"@ {
        Some(
            match spec_branch_ops(ops, addr, syms) {
                Some((a, b, c)) => Some(Instr::Bltu(a, b, c)),
                None => None,
            },
        )
    } else if m == "bgeu"@ {
        Some(
            match spec_branch_ops(ops, addr, syms) {
                Some((a, b, c)) => Some(Instr::Bgeu(a, b, c)),
                None => None,
            },
        )
    } else if m == "nop"@ {
        Some(
            if ops.len() == 0 {
                Some(Instr::Addi(x0, x0, Imm11::spec_new(0)))
            } else {
                None
            },
        )
    } else if m == "j"@ {
        Some(
            match spec_target1(ops, addr, syms) {
                Some(off) => Some(Instr::Beq(x0, x0, off)),
                None => None,
            },
        )
    } else if m == "beqz"@ {
        Some(
            match spec_r_target(ops, addr, syms) {
                Some((r, off)) => Some(Instr::Beq(r, x0, off)),
                None => None,
            },
        )
    } else if m == "bnez"@ {
        Some(
            match spec_r_target(ops, addr, syms) {
                Some((r, off)) => Some(Instr::Bne(r, x0, off)),
                None => None,
            },
        )
    } else {
        None
    }
}

/// The `li` pseudo-op: a register and a 32-bit constant, tiled.
pub open spec fn spec_li_line(ops: Seq<Operand>, syms: SymMap) -> Option<Seq<Instr>> {
    if ops.len() != 2 {
        None
    } else {
        match (spec_resolve_reg(ops[0]), spec_li_value(ops[1], syms)) {
            (Some(rd), Some(v)) => Some(spec_tile_li(rd, v)),
            _ => None,
        }
    }
}

/// What one instruction line lowers to at word address `addr`, or `None`
/// when the assembler reports an error for it.
pub open spec fn spec_encode_line(m: Seq<char>, ops: Seq<Operand>, addr: u16, syms: SymMap) -> Option<
    Seq<Instr>,
> {
    if m == "li"@ {
        spec_li_line(ops, syms)
    } else {
        match spec_single_bus(m, ops, syms) {
            Some(Some(i)) => Some(seq![i]),
            Some(None) => None,
            None => match spec_single_alu(m, ops, addr, syms) {
                Some(Some(i)) => Some(seq![i]),
                _ => None,
            },
        }
    }
}

fn args_exact(operands: &[Operand], n: usize, span: &Span, mnem: &str) -> (res: Result<
    (),
    Diagnostic,
>)
    ensures
        res is Ok <==> operands@.len() == n,
{
    if operands.len() == n {
        Ok(())
    } else {
        Err(arity_error(span, mnem, n, operands.len()))
    }
}

fn is_register(op: &Operand) -> (res: bool)
    ensures
        res == spec_is_register(*op),
{
    match &op.kind {
        OperandKind::Ident(s) => reg_number(s.as_str()).is_some(),
        OperandKind::Num(_) => false,
    }
}

fn encode_bus(mnemonic: &str, operands: &[Operand], span: &Span, syms: &SymbolTable) -> (res:
    Option<Result<Instr, Diagnostic>>)
    ensures
        res is None <==> spec_single_bus(mnemonic@, operands@, syms@) is None,
        res matches Some(r) ==> (r is Ok <==> spec_single_bus(mnemonic@, operands@, syms@)->0 is Some),
        res matches Some(Ok(i)) ==> spec_single_bus(mnemonic@, operands@, syms@)->0 == Some(i),
{
    let m = mnemonic;
    let ops = operands;
    if str_eq(m, "cs_assert") {
        Some(
            match args_exact(ops, 0, span, m) {
                Ok(_) => Ok(Instr::CsAssert),
                Err(e) => Err(e),
            },
        )
    } else if str_eq(m, "cs_deassert") {
        Some(
            match args_exact(ops, 0, span, m) {
                Ok(_) => Ok(Instr::CsDeassert),
                Err(e) => Err(e),
            },
        )
    } else if str_eq(m, "rst_assert") {
        Some(
            match args_exact(ops, 0, span, m) {
                Ok(_) => Ok(Instr::RstAssert),
                Err(e) => Err(e),
            },
        )
    } else if str_eq(m, "rst_deassert") {
        Some(
            match args_exact(ops, 0, span, m) {
                Ok(_) => Ok(Instr::RstDeassert),
                Err(e) => Err(e),
            },
        )
    } else if str_eq(m, "crc_reset") {
        Some(
            match args_exact(ops, 0, span, m) {
                Ok(_) => Ok(Instr::CrcReset),
                Err(e) => Err(e),
            },
        )
    } else if str_eq(m, "put_byte") {
        Some(put_byte(ops, span, syms))
    } else if str_eq(m, "get_byte") {
        Some(
            match args_exact(ops, 1, span, m) {
                Err(e) => Err(e),
                Ok(_) => match resolve_reg(&ops[0]) {
                    Ok(r) => Ok(Instr::GetByte(r)),
                    Err(e) => Err(e),
                },
            },
        )
    } else if str_eq(m, "put_bits") {
        Some(put_bits(ops, span, syms))
    } else if str_eq(m, "get_bits") {
        Some(get_bits(ops, span, syms))
    } else if str_eq(m, "tar") {
        Some(tar(ops, span, syms))
    } else if str_eq(m, "get_alert") {
        Some(
            match args_exact(ops, 1, span, m) {
                Err(e) => Err(e),
                Ok(_) => match resolve_reg(&ops[0]) {
                    Ok(r) => Ok(Instr::GetAlert(r)),
                    Err(e) => Err(e),
                },
            },
        )
    } else if str_eq(m, "halt") {
        Some(
            match args_exact(ops, 1, span, m) {
                Err(e) => Err(e),
                Ok(_) => match field_u8(&ops[0], syms, "halt status") {
                    Ok(b) => Ok(Instr::Halt(b)),
                    Err(e) => Err(e),
                },
            },
        )
    } else if str_eq(m, "wait_on") {
        Some(wait_on(ops, span, syms))
    } else if str_eq(m, "set_config") {
        Some(encode_set_config(ops, span))
    } else if str_eq(m, "mark") {
        Some(mark(ops, span, syms))
    } else {
        None
    }
}

fn put_byte(ops: &[Operand], span: &Span, syms: &SymbolTable) -> (res: Result<Instr, Diagnostic>)
    ensures
        res is Ok <==> spec_put_byte(ops@, syms@) is Some,
        res matches Ok(i) ==> spec_put_byte(ops@, syms@) == Some(i),
{
    args_exact(ops, 1, span, "put_byte")?;
    if is_register(&ops[0]) {
        Ok(Instr::PutByteReg(resolve_reg(&ops[0])?))
    } else {
        Ok(Instr::PutByteImm(field_u8(&ops[0], syms, "byte")?))
    }
}

fn put_bits(ops: &[Operand], span: &Span, syms: &SymbolTable) -> (res: Result<Instr, Diagnostic>)
    ensures
        res is Ok <==> spec_put_bits(ops@, syms@) is Some,
        res matches Ok(i) ==> spec_put_bits(ops@, syms@) == Some(i),
{
    args_exact(ops, 2, span, "put_bits")?;
    if is_register(&ops[0]) {
        let r = resolve_reg(&ops[0])?;
        let c = field_bitcount(&ops[1], syms)?;
        Ok(Instr::PutBitsReg(r, c))
    } else {
        let c = field_bitcount(&ops[0], syms)?;
        let b = field_u8(&ops[1], syms, "byte")?;
        Ok(Instr::PutBitsImm(c, b))
    }
}

fn get_bits(ops: &[Operand], span: &Span, syms: &SymbolTable) -> (res: Result<Instr, Diagnostic>)
    ensures
        res is Ok <==> spec_get_bits(ops@, syms@) is Some,
        res matches Ok(i) ==> spec_get_bits(ops@, syms@) == Some(i),
{
    args_exact(ops, 2, span, "get_bits")?;
    let r = resolve_reg(&ops[0])?;
    let c = field_bitcount(&ops[1], syms)?;
    Ok(Instr::GetBits(r, c))
}

fn tar(ops: &[Operand], span: &Span, syms: &SymbolTable) -> (res: Result<Instr, Diagnostic>)
    ensures
        res is Ok <==> spec_tar(ops@, syms@) is Some,
        res matches Ok(i) ==> spec_tar(ops@, syms@) == Some(i),
{
    args_exact(ops, 1, span, "tar")?;
    if is_register(&ops[0]) {
        Ok(Instr::TarReg(resolve_reg(&ops[0])?))
    } else {
        Ok(Instr::TarImm(field_tar4(&ops[0], syms)?))
    }
}

fn wait_on(ops: &[Operand], span: &Span, syms: &SymbolTable) -> (res: Result<Instr, Diagnostic>)
    ensures
        res is Ok <==> spec_wait_on(ops@, syms@) is Some,
        res matches Ok(i) ==> spec_wait_on(ops@, syms@) == Some(i),
{
    args_exact(ops, 3, span, "wait_on")?;
    let r = resolve_reg(&ops[0])?;
    let c = field_wait_cond(&ops[1], syms)?;
    let t = field_wait_timeout(&ops[2], syms)?;
    Ok(Instr::WaitOn(r, c, t))
}

fn mark(ops: &[Operand], span: &Span, syms: &SymbolTable) -> (res: Result<Instr, Diagnostic>)
    ensures
        res is Ok <==> spec_mark(ops@, syms@) is Some,
        res matches Ok(i) ==> spec_mark(ops@, syms@) == Some(i),
{
    args_exact(ops, 2, span, "mark")?;
    let t = field_mark_tag(&ops[0], syms)?;
    let r = resolve_reg(&ops[1])?;
    Ok(Instr::Mark(t, r))
}

fn regs3(ops: &[Operand], span: &Span, m: &str) -> (res: Result<(Reg, Reg, Reg), Diagnostic>)
    ensures
        res is Ok <==> spec_regs3(ops@) is Some,
        res matches Ok(v) ==> spec_regs3(ops@) == Some(v),
{
    args_exact(ops, 3, span, m)?;
    let a = resolve_reg(&ops[0])?;
    let b = resolve_reg(&ops[1])?;
    let c = resolve_reg(&ops[2])?;
    Ok((a, b, c))
}

fn rri(ops: &[Operand], span: &Span, m: &str, syms: &SymbolTable) -> (res: Result<
    (Reg, Reg, Imm11),
    Diagnostic,
>)
    ensures
        res is Ok <==> spec_rri(ops@, syms@) is Some,
        res matches Ok(v) ==> spec_rri(ops@, syms@) == Some(v),
{
    args_exact(ops, 3, span, m)?;
    let a = resolve_reg(&ops[0])?;
    let b = resolve_reg(&ops[1])?;
    let c = field_imm11(&ops[2], syms)?;
    Ok((a, b, c))
}

fn shift_ops(ops: &[Operand], span: &Span, m: &str, syms: &SymbolTable) -> (res: Result<
    (Reg, Reg, Amt5),
    Diagnostic,
>)
    ensures
        res is Ok <==> spec_shift_ops(ops@, syms@) is Some,
        res matches Ok(v) ==> spec_shift_ops(ops@, syms@) == Some(v),
{
    args_exact(ops, 3, span, m)?;
    let a = resolve_reg(&ops[0])?;
    let b = resolve_reg(&ops[1])?;
    let c = field_amt5(&ops[2], syms)?;
    Ok((a, b, c))
}

fn branch_ops(ops: &[Operand], span: &Span, m: &str, addr: u16, syms: &SymbolTable) -> (res:
    Result<(Reg, Reg, Imm11), Diagnostic>)
    ensures
        res is Ok <==> spec_branch_ops(ops@, addr, syms@) is Some,
        res matches Ok(v) ==> spec_branch_ops(ops@, addr, syms@) == Some(v),
{
    args_exact(ops, 3, span, m)?;
    let a = resolve_reg(&ops[0])?;
    let b = resolve_reg(&ops[1])?;
    let c = resolve_branch_target(&ops[2], addr, syms)?;
    Ok((a, b, c))
}

fn r_imm11(ops: &[Operand], span: &Span, m: &str, syms: &SymbolTable) -> (res: Result<
    (Reg, Imm11),
    Diagnostic,
>)
    ensures
        res is Ok <==> spec_r_imm11(ops@, syms@) is Some,
        res matches Ok(v) ==> spec_r_imm11(ops@, syms@) == Some(v),
{
    args_exact(ops, 2, span, m)?;
    let r = resolve_reg(&ops[0])?;
    let i = field_imm11(&ops[1], syms)?;
    Ok((r, i))
}

fn r_imm20(ops: &[Operand], span: &Span, m: &str, syms: &SymbolTable) -> (res: Result<
    (Reg, Imm20),
    Diagnostic,
>)
    ensures
        res is Ok <==> spec_r_imm20(ops@, syms@) is Some,
        res matches Ok(v) ==> spec_r_imm20(ops@, syms@) == Some(v),
{
    args_exact(ops, 2, span, m)?;
    let r = resolve_reg(&ops[0])?;
    let i = field_imm20(&ops[1], syms)?;
    Ok((r, i))
}

fn rr(ops: &[Operand], span: &Span, m: &str) -> (res: Result<(Reg, Reg), Diagnostic>)
    ensures
        res is Ok <==> spec_rr(ops@) is Some,
        res matches Ok(v) ==> spec_rr(ops@) == Some(v),
{
    args_exact(ops, 2, span, m)?;
    let a = resolve_reg(&ops[0])?;
    let b = resolve_reg(&ops[1])?;
    Ok((a, b))
}

fn r_sr(ops: &[Operand], span: &Span, m: &str, syms: &SymbolTable) -> (res: Result<
    (Reg, Sr5),
    Diagnostic,
>)
    ensures
        res is Ok <==> spec_r_sr(ops@, syms@) is Some,
        res matches Ok(v) ==> spec_r_sr(ops@, syms@) == Some(v),
{
    args_exact(ops, 2, span, m)?;
    let r = resolve_reg(&ops[0])?;
    let sr = resolve_sr(&ops[1], syms)?;
    Ok((r, sr))
}

fn r_target(ops: &[Operand], span: &Span, m: &str, addr: u16, syms: &SymbolTable) -> (res: Result<
    (Reg, Imm11),
    Diagnostic,
>)
    ensures
        res is Ok <==> spec_r_target(ops@, addr, syms@) is Some,
        res matches Ok(v) ==> spec_r_target(ops@, addr, syms@) == Some(v),
{
    args_exact(ops, 2, span, m)?;
    let r = resolve_reg(&ops[0])?;
    let off = resolve_branch_target(&ops[1], addr, syms)?;
    Ok((r, off))
}

fn target1(ops: &[Operand], span: &Span, m: &str, addr: u16, syms: &SymbolTable) -> (res: Result<
    Imm11,
    Diagnostic,
>)
    ensures
        res is Ok <==> spec_target1(ops@, addr, syms@) is Some,
        res matches Ok(v) ==> spec_target1(ops@, addr, syms@) == Some(v),
{
    args_exact(ops, 1, span, m)?;
    resolve_branch_target(&ops[0], addr, syms)
}

fn zero() -> (res: Reg)
    ensures
        res == Reg::spec_new(0),
{
    Reg::new(0).unwrap()
}

fn encode_alu(mnemonic: &str, operands: &[Operand], span: &Span, addr: u16, syms: &SymbolTable) -> (res:
    Option<Result<Instr, Diagnostic>>)
    ensures
        res is None <==> spec_single_alu(mnemonic@, operands@, addr, syms@) is None,
        res matches Some(r) ==> (r is Ok <==> spec_single_alu(
            mnemonic@,
            operands@,
            addr,
            syms@,
        )->0 is Some),
        res matches Some(Ok(i)) ==> spec_single_alu(mnemonic@, operands@, addr, syms@)->0 == Some(i),
{
    let m = mnemonic;
    let ops = operands;
    if str_eq(m, "load_imm") {
        Some(
            match r_imm11(ops, span, m, syms) {
                Ok((r, i)) => Ok(Instr::LoadImm(r, i)),
                Err(e) => Err(e),
            },
        )
    } else if str_eq(m, "lui") {
        Some(
            match r_imm20(ops, span, m, syms) {
                Ok((r, i)) => Ok(Instr::Lui(r, i)),
                Err(e) => Err(e),
            },
        )
    } else if str_eq(m, "mov") || str_eq(m, "mv") {
        Some(
            match rr(ops, span, m) {
                Ok((a, b)) => Ok(Instr::Mov(a, b)),
                Err(e) => Err(e),
            },
        )
    } else if str_eq(m, "add") {
        Some(
            match regs3(ops, span, m) {
                Ok((a, b, c)) => Ok(Instr::Add(a, b, c)),
                Err(e) => Err(e),
            },
        )
    } else if str_eq(m, "sub") {
        Some(
            match regs3(ops, span, m) {
                Ok((a, b, c)) => Ok(Instr::Sub(a, b, c)),
                Err(e) => Err(e),
            },
        )
    } else if str_eq(m, "and") {
        Some(
            match regs3(ops, span, m) {
                Ok((a, b, c)) => Ok(Instr::And(a, b, c)),
                Err(e) => Err(e),
            },
        )
    } else if str_eq(m, "or") {
        Some(
            match regs3(ops, span, m) {
                Ok((a, b, c)) => Ok(Instr::Or(a, b, c)),
                Err(e) => Err(e),
            },
        )
    } else if str_eq(m, "xor") {
        Some(
            match regs3(ops, span, m) {
                Ok((a, b, c)) => Ok(Instr::Xor(a, b, c)),
                Err(e) => Err(e),
            },
        )
    } else if str_eq(m, "addi") {
        Some(
            match rri(ops, span, m, syms) {
                Ok((a, b, c)) => Ok(Instr::Addi(a, b, c)),
                Err(e) => Err(e),
            },
        )
    } else if str_eq(m, "andi") {
        Some(
            match rri(ops, span, m, syms) {
                Ok((a, b, c)) => Ok(Instr::Andi(a, b, c)),
                Err(e) => Err(e),
            },
        )
    } else if str_eq(m, "ori") {
        Some(
            match rri(ops, span, m, syms) {
                Ok((a, b, c)) => Ok(Instr::Ori(a, b, c)),
                Err(e) => Err(e),
            },
        )
    } else if str_eq(m, "xori") {
        Some(
            match rri(ops, span, m, syms) {
                Ok((a, b, c)) => Ok(Instr::Xori(a, b, c)),
                Err(e) => Err(e),
            },
        )
    } else if str_eq(m, "sll") {
        Some(
            match shift_ops(ops, span, m, syms) {
                Ok((a, b, c)) => Ok(Instr::Shift(a, b, ShiftOp::Sll, c)),
                Err(e) => Err(e),
            },
        )
    } else if str_eq(m, "srl") {
        Some(
            match shift_ops(ops, span, m, syms) {
                Ok((a, b, c)) => Ok(Instr::Shift(a, b, ShiftOp::Srl, c)),
                Err(e) => Err(e),
            },
        )
    } else if str_eq(m, "sra") {
        Some(
            match shift_ops(ops, span, m, syms) {
                Ok((a, b, c)) => Ok(Instr::Shift(a, b, ShiftOp::Sra, c)),
                Err(e) => Err(e),
            },
        )
    } else if str_eq(m, "rdsr") {
        Some(
            match r_sr(ops, span, m, syms) {
                Ok((r, sr)) => Ok(Instr::Rdsr(r, sr)),
                Err(e) => Err(e),
            },
        )
    } else if str_eq(m, "beq") {
        Some(
            match branch_ops(ops, span, m, addr, syms) {
                Ok((a, b, c)) => Ok(Instr::Beq(a, b, c)),
                Err(e) => Err(e),
            },
        )
    } else if str_eq(m, "bne") {
        Some(
            match branch_ops(ops, span, m, addr, syms) {
                Ok((a, b, c)) => Ok(Instr::Bne(a, b, c)),
                Err(e) => Err(e),
            },
        )
    } else if str_eq(m, "bltu") {
        Some(
            match branch_ops(ops, span, m, addr, syms) {
                Ok((a, b, c)) => Ok(Instr::Bltu(a, b, c)),
                Err(e) => Err(e),
            },
        )
    } else if str_eq(m, "bgeu") {
        Some(
            match branch_ops(ops, span, m, addr, syms) {
                Ok((a, b, c)) => Ok(Instr::Bgeu(a, b, c)),
                Err(e) => Err(e),
            },
        )
    } else if str_eq(m, "nop") {
        Some(
            match args_exact(ops, 0, span, m) {
                Ok(_) => Ok(Instr::Addi(zero(), zero(), Imm11::new(0).unwrap())),
                Err(e) => Err(e),
            },
        )
    } else if str_eq(m, "j") {
        Some(
            match target1(ops, span, m, addr, syms) {
                Ok(off) => Ok(Instr::Beq(zero(), zero(), off)),
                Err(e) => Err(e),
            },
        )
    } else if str_eq(m, "beqz") {
        Some(
            match r_target(ops, span, m, addr, syms) {
                Ok((r, off)) => Ok(Instr::Beq(r, zero(), off)),
                Err(e) => Err(e),
            },
        )
    } else if str_eq(m, "bnez") {
        Some(
            match r_target(ops, span, m, addr, syms) {
                Ok((r, off)) => Ok(Instr::Bne(r, zero(), off)),
                Err(e) => Err(e),
            },
        )
    } else {
        None
    }
}

/// Lower one instruction line to its `Instr` sequence (most lines give one
/// instruction; `li` gives one to four).
pub fn encode_line(
    mnemonic: &str,
    operands: &[Operand],
    span: &Span,
    addr: u16,
    syms: &SymbolTable,
) -> (res: Result<Vec<Instr>, Diagnostic>)
    ensures
        res is Ok <==> spec_encode_line(mnemonic@, operands@, addr, syms@) is Some,
        res matches Ok(v) ==> spec_encode_line(mnemonic@, operands@, addr, syms@) == Some(v@),
{
    if str_eq(mnemonic, "li") {
        args_exact(operands, 2, span, mnemonic)?;
        let rd = resolve_reg(&operands[0])?;
        let v = li_value(&operands[1], syms)?;
        return Ok(tile_li(rd, v));
    }
    match encode_bus(mnemonic, operands, span, syms) {
        Some(Ok(i)) => {
            return Ok(vec![i]);
        },
        Some(Err(e)) => {
            return Err(e);
        },
        None => {},
    }
    match encode_alu(mnemonic, operands, span, addr, syms) {
        Some(Ok(i)) => Ok(vec![i]),
        Some(Err(e)) => Err(e),
        None => {
            if str_eq(mnemonic, "la") || str_eq(mnemonic, "call") || str_eq(mnemonic, "ret") {
                let mut m = String::new();
                m.append("`");
                m.append(mnemonic);
                m.append("` is not supported in tamal-asm v1");
                Err(
                    Diagnostic::error_owned(span_copy(span), m).with_help(
                        "v1 has no `la` or subroutine linkage (call/ret)",
                    ),
                )
            } else {
                let mut m = String::new();
                m.append("unknown instruction `");
                m.append(mnemonic);
                m.append("`");
                Err(Diagnostic::error_owned(span_copy(span), m))
            }
        },
    }
}

/// A line that lowers without error takes exactly the words that pass 1
/// counted for it, given the same symbol table.
pub proof fn lemma_encode_word_count(m: Seq<char>, ops: Seq<Operand>, addr: u16, syms: SymMap)
    requires
        spec_encode_line(m, ops, addr, syms) is Some,
    ensures
        spec_encode_line(m, ops, addr, syms)->0.len() == spec_instr_word_count(m, ops, syms),
{
    if m == "li"@ {
        let rd = spec_resolve_reg(ops[0])->0;
        let v = spec_li_value(ops[1], syms)->0;
        lemma_tile_len_any_reg(rd, v);
    }
}

/// Every line counts for one to four words.
pub proof fn lemma_word_count_bound(m: Seq<char>, ops: Seq<Operand>, syms: SymMap)
    ensures
        1 <= spec_instr_word_count(m, ops, syms) <= 4,
{
    if m == "li"@ && ops.len() == 2 && spec_li_value(ops[1], syms) is Some {
        lemma_tile_li(Reg::spec_new(0), spec_li_value(ops[1], syms)->0);
    }
}

} // verus!
