//! The canonical `Instr` to asm-text renderer (the inverse of the mnemonic
//! table), shared by disassembly and program listings.
use vstd::prelude::*;

use crate::abi::isa::{Amt5, BitCount, Cfg6, Imm11, Imm20, Instr, Reg, ShiftOp, Sr5, Tar4, WaitCond, WaitTimeout};
use crate::assembler::encoder::{
    dec_value, is_dec_char, sext11, spec_field_amt5, spec_field_imm11, spec_field_imm20, spec_imm11_of, spec_in_range,
    spec_parse_u16, spec_r_imm11, spec_r_imm20, spec_reg_number, spec_regs3, spec_resolve_imm, spec_resolve_reg, spec_rr,
    spec_rri, spec_shift_ops, spec_single_alu, spec_single_bus, spec_encode_line, spec_is_register, spec_field_u8, spec_field_tar4, spec_field_mark_tag, spec_field_bitcount,
    spec_field_wait_cond, spec_field_wait_timeout, spec_resolve_sr, spec_r_sr,
    unsigned_digits, SymMap,
};
use crate::assembler::parser::{Operand, OperandKind};
use crate::text::{push_dec, spec_dec, spec_lower};

verus! {

/// The `xN` spelling of a register.
pub open spec fn spec_rn(r: Reg) -> Seq<char> {
    "x"@ + spec_dec(r.value() as nat)
}

/// A signed decimal.
pub open spec fn spec_sdec(v: int) -> Seq<char> {
    if v < 0 {
        "-"@ + spec_dec((-v) as nat)
    } else {
        spec_dec(v as nat)
    }
}

fn push_rn(s: &mut String, r: Reg)
    ensures
        final(s)@ == old(s)@ + spec_rn(r),
{
    s.append("x");
    push_dec(s, r.bits() as u64);
    assert(final(s)@ =~= old(s)@ + spec_rn(r));
}

fn push_sdec(s: &mut String, v: i64)
    requires
        v > i64::MIN,
    ensures
        final(s)@ == old(s)@ + spec_sdec(v as int),
{
    if v < 0 {
        s.append("-");
        push_dec(s, (-v) as u64);
    } else {
        push_dec(s, v as u64);
    }
    assert(final(s)@ =~= old(s)@ + spec_sdec(v as int));
}

fn push_imm11(s: &mut String, imm: Imm11)
    ensures
        final(s)@ == old(s)@ + spec_sdec(sext11(imm.value())),
{
    let b = imm.bits();
    let v: i64 = if b >= 1024 {
        b as i64 - 2048
    } else {
        b as i64
    };
    push_sdec(s, v);
}

/// The keywords of a `SET_CONFIG` payload: role, I/O mode, SCK, alert source.
pub open spec fn spec_render_config(b: u8) -> Seq<char> {
    "set_config "@ + (if (b / 32) % 2 == 0 {
        "controller"@
    } else {
        "target"@
    }) + ", "@ + (if (b / 8) % 4 == 0 {
        "x1"@
    } else if (b / 8) % 4 == 1 {
        "x2"@
    } else if (b / 8) % 4 == 2 {
        "x4"@
    } else {
        "x?"@
    }) + ", "@ + (if (b / 2) % 4 == 0 {
        "sck20"@
    } else if (b / 2) % 4 == 1 {
        "sck33"@
    } else if (b / 2) % 4 == 2 {
        "sck50"@
    } else {
        "sck66"@
    }) + ", "@ + (if b % 2 == 0 {
        "alert_pin"@
    } else {
        "alert_io1"@
    })
}

fn render_set_config(p: Cfg6) -> (res: String)
    ensures
        res@ == spec_render_config(p.value()),
{
    let b = p.bits();
    let mut s = String::new();
    s.append("set_config ");
    s.append(if (b / 32) % 2 == 0 { "controller" } else { "target" });
    s.append(", ");
    s.append(
        if (b / 8) % 4 == 0 {
            "x1"
        } else if (b / 8) % 4 == 1 {
            "x2"
        } else if (b / 8) % 4 == 2 {
            "x4"
        } else {
            "x?"
        },
    );
    s.append(", ");
    s.append(
        if (b / 2) % 4 == 0 {
            "sck20"
        } else if (b / 2) % 4 == 1 {
            "sck33"
        } else if (b / 2) % 4 == 2 {
            "sck50"
        } else {
            "sck66"
        },
    );
    s.append(", ");
    s.append(if b % 2 == 0 { "alert_pin" } else { "alert_io1" });
    assert(s@ =~= spec_render_config(p.value()));
    s
}

/// The canonical text of an instruction. Branches render a signed numeric
/// offset.
pub open spec fn spec_render(i: Instr) -> Seq<char> {
    match i {
        Instr::CsAssert => "cs_assert"@,
        Instr::CsDeassert => "cs_deassert"@,
        Instr::RstAssert => "rst_assert"@,
        Instr::RstDeassert => "rst_deassert"@,
        Instr::CrcReset => "crc_reset"@,
        Instr::PutByteImm(b) => "put_byte "@ + spec_dec(b as nat),
        Instr::PutByteReg(r) => "put_byte "@ + spec_rn(r),
        Instr::GetByte(r) => "get_byte "@ + spec_rn(r),
        Instr::PutBitsImm(n, b) => "put_bits "@ + spec_dec(n.value() as nat) + ", "@ + spec_dec(b as nat),
        Instr::PutBitsReg(r, n) => "put_bits "@ + spec_rn(r) + ", "@ + spec_dec(n.value() as nat),
        Instr::GetBits(r, n) => "get_bits "@ + spec_rn(r) + ", "@ + spec_dec(n.value() as nat),
        Instr::TarImm(t) => "tar "@ + spec_dec(t.value() as nat),
        Instr::TarReg(r) => "tar "@ + spec_rn(r),
        Instr::GetAlert(r) => "get_alert "@ + spec_rn(r),
        Instr::Halt(s) => "halt "@ + spec_dec(s as nat),
        Instr::Beq(a, b, o) => "beq "@ + spec_rn(a) + ", "@ + spec_rn(b) + ", "@ + spec_sdec(sext11(o.value())),
        Instr::Bne(a, b, o) => "bne "@ + spec_rn(a) + ", "@ + spec_rn(b) + ", "@ + spec_sdec(sext11(o.value())),
        Instr::Bltu(a, b, o) => "bltu "@ + spec_rn(a) + ", "@ + spec_rn(b) + ", "@ + spec_sdec(sext11(o.value())),
        Instr::Bgeu(a, b, o) => "bgeu "@ + spec_rn(a) + ", "@ + spec_rn(b) + ", "@ + spec_sdec(sext11(o.value())),
        Instr::WaitOn(r, c, t) => "wait_on "@ + spec_rn(r) + ", "@ + spec_dec(c.value() as nat) + ", "@ + spec_dec(t.value() as nat),
        Instr::SetConfig(p) => spec_render_config(p.value()),
        Instr::Mark(tag, r) => "mark "@ + spec_dec(tag.value() as nat) + ", "@ + spec_rn(r),
        Instr::LoadImm(r, imm) => "load_imm "@ + spec_rn(r) + ", "@ + spec_sdec(sext11(imm.value())),
        Instr::Lui(r, imm) => "lui "@ + spec_rn(r) + ", "@ + spec_dec(imm.value() as nat),
        Instr::Mov(d, s) => "mov "@ + spec_rn(d) + ", "@ + spec_rn(s),
        Instr::Add(d, a, b) => "add "@ + spec_rn(d) + ", "@ + spec_rn(a) + ", "@ + spec_rn(b),
        Instr::Sub(d, a, b) => "sub "@ + spec_rn(d) + ", "@ + spec_rn(a) + ", "@ + spec_rn(b),
        Instr::And(d, a, b) => "and "@ + spec_rn(d) + ", "@ + spec_rn(a) + ", "@ + spec_rn(b),
        Instr::Or(d, a, b) => "or "@ + spec_rn(d) + ", "@ + spec_rn(a) + ", "@ + spec_rn(b),
        Instr::Xor(d, a, b) => "xor "@ + spec_rn(d) + ", "@ + spec_rn(a) + ", "@ + spec_rn(b),
        Instr::Addi(d, a, o) => "addi "@ + spec_rn(d) + ", "@ + spec_rn(a) + ", "@ + spec_sdec(sext11(o.value())),
        Instr::Andi(d, a, o) => "andi "@ + spec_rn(d) + ", "@ + spec_rn(a) + ", "@ + spec_sdec(sext11(o.value())),
        Instr::Ori(d, a, o) => "ori "@ + spec_rn(d) + ", "@ + spec_rn(a) + ", "@ + spec_sdec(sext11(o.value())),
        Instr::Xori(d, a, o) => "xori "@ + spec_rn(d) + ", "@ + spec_rn(a) + ", "@ + spec_sdec(sext11(o.value())),
        Instr::Shift(d, a, op, amt) => (match op {
            ShiftOp::Sll => "sll "@,
            ShiftOp::Srl => "srl "@,
            ShiftOp::Sra => "sra "@,
        }) + spec_rn(d) + ", "@ + spec_rn(a) + ", "@ + spec_dec(amt.value() as nat),
        Instr::Rdsr(r, sr) => if sr.value() == 0 {
            "rdsr "@ + spec_rn(r) + ", crc"@
        } else {
            "rdsr "@ + spec_rn(r) + ", "@ + spec_dec(sr.value() as nat)
        },
    }
}

fn rrr(s: &mut String, m: &str, d: Reg, a: Reg, b: Reg)
    ensures
        final(s)@ == old(s)@ + m@ + spec_rn(d) + ", "@ + spec_rn(a) + ", "@ + spec_rn(b),
{
    s.append(m);
    push_rn(s, d);
    s.append(", ");
    push_rn(s, a);
    s.append(", ");
    push_rn(s, b);
    assert(final(s)@ =~= old(s)@ + m@ + spec_rn(d) + ", "@ + spec_rn(a) + ", "@ + spec_rn(b));
}

fn rri(s: &mut String, m: &str, d: Reg, a: Reg, o: Imm11)
    ensures
        final(s)@ == old(s)@ + m@ + spec_rn(d) + ", "@ + spec_rn(a) + ", "@ + spec_sdec(sext11(o.value())),
{
    s.append(m);
    push_rn(s, d);
    s.append(", ");
    push_rn(s, a);
    s.append(", ");
    push_imm11(s, o);
    assert(final(s)@ =~= old(s)@ + m@ + spec_rn(d) + ", "@ + spec_rn(a) + ", "@ + spec_sdec(sext11(o.value())));
}

fn r1(s: &mut String, m: &str, r: Reg)
    ensures
        final(s)@ == old(s)@ + m@ + spec_rn(r),
{
    s.append(m);
    push_rn(s, r);
}

fn rn_dec(s: &mut String, m: &str, r: Reg, v: u64)
    ensures
        final(s)@ == old(s)@ + m@ + spec_rn(r) + ", "@ + spec_dec(v as nat),
{
    s.append(m);
    push_rn(s, r);
    s.append(", ");
    push_dec(s, v);
    assert(final(s)@ =~= old(s)@ + m@ + spec_rn(r) + ", "@ + spec_dec(v as nat));
}

/// Render an instruction as canonical asm text. Non-branch renderings
/// re-parse to the same instruction; branches render a signed numeric offset.
pub fn render_instr(i: &Instr) -> (res: String)
    ensures
        res@ == spec_render(*i),
{
    let mut s = String::new();
    match *i {
        Instr::CsAssert => s.append("cs_assert"),
        Instr::CsDeassert => s.append("cs_deassert"),
        Instr::RstAssert => s.append("rst_assert"),
        Instr::RstDeassert => s.append("rst_deassert"),
        Instr::CrcReset => s.append("crc_reset"),
        Instr::PutByteImm(b) => {
            s.append("put_byte ");
            push_dec(&mut s, b as u64);
        },
        Instr::PutByteReg(r) => r1(&mut s, "put_byte ", r),
        Instr::GetByte(r) => r1(&mut s, "get_byte ", r),
        Instr::PutBitsImm(n, b) => {
            s.append("put_bits ");
            push_dec(&mut s, n.count() as u64);
            s.append(", ");
            push_dec(&mut s, b as u64);
        },
        Instr::PutBitsReg(r, n) => rn_dec(&mut s, "put_bits ", r, n.count() as u64),
        Instr::GetBits(r, n) => rn_dec(&mut s, "get_bits ", r, n.count() as u64),
        Instr::TarImm(t) => {
            s.append("tar ");
            push_dec(&mut s, t.bits() as u64);
        },
        Instr::TarReg(r) => r1(&mut s, "tar ", r),
        Instr::GetAlert(r) => r1(&mut s, "get_alert ", r),
        Instr::Halt(st) => {
            s.append("halt ");
            push_dec(&mut s, st as u64);
        },
        Instr::Beq(a, b, o) => rri(&mut s, "beq ", a, b, o),
        Instr::Bne(a, b, o) => rri(&mut s, "bne ", a, b, o),
        Instr::Bltu(a, b, o) => rri(&mut s, "bltu ", a, b, o),
        Instr::Bgeu(a, b, o) => rri(&mut s, "bgeu ", a, b, o),
        Instr::WaitOn(r, c, t) => {
            rn_dec(&mut s, "wait_on ", r, c.bits() as u64);
            s.append(", ");
            push_dec(&mut s, t.bits() as u64);
        },
        Instr::SetConfig(p) => {
            s = render_set_config(p);
        },
        Instr::Mark(tag, r) => {
            s.append("mark ");
            push_dec(&mut s, tag.bits() as u64);
            s.append(", ");
            push_rn(&mut s, r);
        },
        Instr::LoadImm(r, imm) => {
            r1(&mut s, "load_imm ", r);
            s.append(", ");
            push_imm11(&mut s, imm);
        },
        Instr::Lui(r, imm) => rn_dec(&mut s, "lui ", r, imm.bits() as u64),
        Instr::Mov(d, a) => {
            r1(&mut s, "mov ", d);
            s.append(", ");
            push_rn(&mut s, a);
        },
        Instr::Add(d, a, b) => rrr(&mut s, "add ", d, a, b),
        Instr::Sub(d, a, b) => rrr(&mut s, "sub ", d, a, b),
        Instr::And(d, a, b) => rrr(&mut s, "and ", d, a, b),
        Instr::Or(d, a, b) => rrr(&mut s, "or ", d, a, b),
        Instr::Xor(d, a, b) => rrr(&mut s, "xor ", d, a, b),
        Instr::Addi(d, a, o) => rri(&mut s, "addi ", d, a, o),
        Instr::Andi(d, a, o) => rri(&mut s, "andi ", d, a, o),
        Instr::Ori(d, a, o) => rri(&mut s, "ori ", d, a, o),
        Instr::Xori(d, a, o) => rri(&mut s, "xori ", d, a, o),
        Instr::Shift(d, a, op, amt) => {
            let m = match op {
                ShiftOp::Sll => "sll ",
                ShiftOp::Srl => "srl ",
                ShiftOp::Sra => "sra ",
            };
            s.append(m);
            push_rn(&mut s, d);
            s.append(", ");
            push_rn(&mut s, a);
            s.append(", ");
            push_dec(&mut s, amt.bits() as u64);
        },
        Instr::Rdsr(r, sr) => {
            r1(&mut s, "rdsr ", r);
            if sr.bits() == 0 {
                s.append(", crc");
            } else {
                s.append(", ");
                push_dec(&mut s, sr.bits() as u64);
            }
        },
    }
    assert(s@ =~= spec_render(*i));
    s
}


/// The decimal spelling of a number is a non-empty run of decimal digits
/// whose value is that number.
proof fn lemma_dec_digits(v: nat)
    ensures
        spec_dec(v).len() > 0,
        forall|k: int| 0 <= k < spec_dec(v).len() ==> is_dec_char(#[trigger] spec_dec(v)[k]),
        dec_value(spec_dec(v)) == v,
    decreases v,
{
    if v >= 10 {
        lemma_dec_digits(v / 10);
        let p = spec_dec(v / 10);
        let c = (((v % 10) + 48) as u8) as char;
        assert(spec_dec(v) == p.push(c));
        assert(p.push(c).drop_last() =~= p);
        assert(c as int == (v % 10) + 48);
        assert('0' as int == 48);
        assert((v / 10) * 10 + v % 10 == v) by (nonlinear_arith);
        assert(dec_value(p.push(c)) == dec_value(p) * 10 + (c as int - '0' as int));
        assert forall|k: int| 0 <= k < spec_dec(v).len() implies is_dec_char(#[trigger] spec_dec(v)[k]) by {
            if k < p.len() {
                assert(spec_dec(v)[k] == p[k]);
            }
        }
    } else {
        let c = ((v + 48) as u8) as char;
        assert(c as int == v + 48);
        assert(seq![c].drop_last() =~= Seq::<char>::empty());
        assert('0' as int == 48);
        assert(dec_value(seq![c]) == dec_value(Seq::<char>::empty()) * 10 + (c as int - '0' as int));
    }
}

/// Splitting at the first occurrence of `sep` is unique.
proof fn lemma_split_at(x1: Seq<char>, y1: Seq<char>, x2: Seq<char>, y2: Seq<char>, sep: char)
    requires
        x1 + seq![sep] + y1 == x2 + seq![sep] + y2,
        forall|k: int| 0 <= k < x1.len() ==> x1[k] != sep,
        forall|k: int| 0 <= k < x2.len() ==> x2[k] != sep,
    ensures
        x1 == x2,
        y1 == y2,
{
    let w = x1 + seq![sep] + y1;
    let w2 = x2 + seq![sep] + y2;
    if x1.len() < x2.len() {
        assert(w[x1.len() as int] == sep);
        assert(w2[x1.len() as int] == x2[x1.len() as int]);
    } else if x2.len() < x1.len() {
        assert(w2[x2.len() as int] == sep);
        assert(w[x2.len() as int] == x1[x2.len() as int]);
    }
    assert(x1 =~= w.subrange(0, x1.len() as int));
    assert(x2 =~= w2.subrange(0, x2.len() as int));
    assert(y1 =~= w.subrange(x1.len() as int + 1, w.len() as int));
    assert(y2 =~= w2.subrange(x2.len() as int + 1, w2.len() as int));
}


/// `t` holds no operand separator (a space or a comma).
pub open spec fn no_separator(t: Seq<char>) -> bool {
    forall|k: int| 0 <= k < t.len() ==> t[k] != ' ' && t[k] != ','
}

/// An operand as it is read from text: a number, or a name that starts
/// with neither a digit nor a sign and holds no separator.
pub open spec fn plain_operand(op: Operand) -> bool {
    match op.kind {
        OperandKind::Ident(s) => s@.len() > 0 && !is_dec_char(s@[0]) && s@[0] != '-' && no_separator(s@),
        OperandKind::Num(_) => true,
    }
}

/// The text an operand is read from: a name as spelled, a number in signed
/// decimal.
pub open spec fn operand_text(op: Operand) -> Seq<char> {
    match op.kind {
        OperandKind::Ident(s) => s@,
        OperandKind::Num(v) => spec_sdec(v as int),
    }
}

/// The instructions of the v1 machine whose text is a mnemonic and two or
/// three operands, with their fields in range: registers `x0`-`x15`, an
/// 11-bit or 20-bit immediate, a five-bit shift amount.
pub open spec fn operand_form(i: Instr) -> bool {
    match i {
        Instr::Add(d, a, b) | Instr::Sub(d, a, b) | Instr::And(d, a, b) | Instr::Or(d, a, b) | Instr::Xor(d, a, b)
            => d.value() < 16 && a.value() < 16 && b.value() < 16,
        Instr::Addi(d, a, o) | Instr::Andi(d, a, o) | Instr::Ori(d, a, o) | Instr::Xori(d, a, o) => d.value() < 16
            && a.value() < 16 && o.value() <= 0x7FF,
        Instr::Shift(d, a, _, amt) => d.value() < 16 && a.value() < 16 && amt.value() <= 31,
        Instr::Mov(d, a) => d.value() < 16 && a.value() < 16,
        Instr::LoadImm(d, o) => d.value() < 16 && o.value() <= 0x7FF,
        Instr::Lui(d, o) => d.value() < 16 && o.value() <= 0xF_FFFF,
        _ => false,
    }
}

proof fn lemma_sdec_text(v: int)
    ensures
        spec_sdec(v).len() > 0,
        no_separator(spec_sdec(v)),
        (spec_sdec(v)[0] == '-') == (v < 0),
        v >= 0 ==> spec_sdec(v) == spec_dec(v as nat) && is_dec_char(spec_sdec(v)[0]),
        v < 0 ==> spec_sdec(v).drop_first() == spec_dec((-v) as nat),
{
    reveal_strlit("-");
    let n: nat = if v < 0 { (-v) as nat } else { v as nat };
    lemma_dec_digits(n);
    let d = spec_dec(n);
    if v < 0 {
        assert(spec_sdec(v) == "-"@ + d);
        assert(("-"@ + d).drop_first() =~= d);
        assert forall|k: int| 0 <= k < spec_sdec(v).len() implies spec_sdec(v)[k] != ' ' && spec_sdec(v)[k] != ',' by {
            if k > 0 {
                assert(spec_sdec(v)[k] == d[k - 1]);
                assert(is_dec_char(d[k - 1]));
            }
        }
    } else {
        assert forall|k: int| 0 <= k < spec_sdec(v).len() implies spec_sdec(v)[k] != ' ' && spec_sdec(v)[k] != ',' by {
            assert(is_dec_char(d[k]));
        }
    }
}

proof fn lemma_plain_text(op: Operand)
    requires
        plain_operand(op),
    ensures
        no_separator(operand_text(op)),
        operand_text(op).len() > 0,
{
    match op.kind {
        OperandKind::Num(v) => lemma_sdec_text(v as int),
        _ => {},
    }
}

proof fn lemma_reg_operand(r: Reg, op: Operand)
    requires
        r.value() < 16,
        plain_operand(op),
        operand_text(op) == spec_rn(r),
    ensures
        spec_resolve_reg(op) == Some(r),
{
    reveal_strlit("x");
    let n = r.value() as nat;
    lemma_dec_digits(n);
    let d = spec_dec(n);
    assert(spec_rn(r)[0] == 'x');
    match op.kind {
        OperandKind::Num(v) => {
            lemma_sdec_text(v as int);
            assert(spec_sdec(v as int)[0] == spec_rn(r)[0]);
            if v >= 0 {
                assert(is_dec_char(spec_sdec(v as int)[0]));
            }
        },
        OperandKind::Ident(s) => {
            let t = s@;
            assert(t.drop_first() =~= d);
            assert(d[0] != '+') by {
                assert(is_dec_char(d[0]));
            }
            assert(unsigned_digits(d) == d);
            assert(spec_parse_u16(d) == Some(n as int));
            assert(spec_reg_number(t) == Some(n as u8));
            Reg::lemma_value_determines(r);
        },
    }
}

proof fn lemma_num_operand(v: int, op: Operand)
    requires
        plain_operand(op),
        operand_text(op) == spec_sdec(v),
    ensures
        op.kind matches OperandKind::Num(w) && w == v,
{
    lemma_sdec_text(v);
    match op.kind {
        OperandKind::Num(w) => {
            lemma_sdec_text(w as int);
            if v >= 0 && w >= 0 {
                lemma_dec_digits(v as nat);
                lemma_dec_digits(w as nat);
            } else if v < 0 && w < 0 {
                lemma_dec_digits((-v) as nat);
                lemma_dec_digits((-(w as int)) as nat);
            }
        },
        OperandKind::Ident(s) => {
            assert(s@[0] == spec_sdec(v)[0]);
        },
    }
}

/// The decimal spelling of a register number holds no separator.
proof fn lemma_rn_plain(r: Reg)
    ensures
        no_separator(spec_rn(r)),
{
    reveal_strlit("x");
    lemma_dec_digits(r.value() as nat);
    let d = spec_dec(r.value() as nat);
    assert forall|k: int| 0 <= k < spec_rn(r).len() implies spec_rn(r)[k] != ' ' && spec_rn(r)[k] != ',' by {
        if k > 0 {
            assert(spec_rn(r)[k] == d[k - 1]);
            assert(is_dec_char(d[k - 1]));
        }
    }
}

proof fn lemma_imm11_operand(o: Imm11, op: Operand, syms: SymMap)
    requires
        o.value() <= 0x7FF,
        plain_operand(op),
        operand_text(op) == spec_sdec(sext11(o.value())),
    ensures
        spec_field_imm11(op, syms) == Some(o),
{
    lemma_num_operand(sext11(o.value()), op);
    Imm11::lemma_value_determines(o);
}

proof fn lemma_amt_operand(o: Amt5, op: Operand, syms: SymMap)
    requires
        o.value() <= 31,
        plain_operand(op),
        operand_text(op) == spec_dec(o.value() as nat),
    ensures
        spec_field_amt5(op, syms) == Some(o),
{
    lemma_sdec_text(o.value() as int);
    lemma_num_operand(o.value() as int, op);
    Amt5::lemma_value_determines(o);
}

proof fn lemma_imm20_operand(o: Imm20, op: Operand, syms: SymMap)
    requires
        o.value() <= 0xF_FFFF,
        plain_operand(op),
        operand_text(op) == spec_dec(o.value() as nat),
    ensures
        spec_field_imm20(op, syms) == Some(o),
{
    lemma_sdec_text(o.value() as int);
    lemma_num_operand(o.value() as int, op);
    Imm20::lemma_value_determines(o);
}

proof fn lemma_three_operands(
    p: Seq<char>,
    a: Seq<char>,
    b: Seq<char>,
    c: Seq<char>,
    m: Seq<char>,
    t0: Seq<char>,
    t1: Seq<char>,
    t2: Seq<char>,
)
    requires
        p + " "@ + a + ", "@ + b + ", "@ + c == m + " "@ + t0 + ", "@ + t1 + ", "@ + t2,
        no_separator(p),
        no_separator(m),
        no_separator(a),
        no_separator(t0),
        no_separator(b),
        no_separator(t1),
    ensures
        m == p,
        t0 == a,
        t1 == b,
        t2 == c,
{
    reveal_strlit(" ");
    reveal_strlit(", ");
    let sp = seq![' '];
    assert(" "@ =~= sp);
    assert(", "@ =~= seq![','] + sp);
    let r1 = a + seq![','] + (sp + b + seq![','] + (sp + c));
    let r2 = t0 + seq![','] + (sp + t1 + seq![','] + (sp + t2));
    assert(p + " "@ + a + ", "@ + b + ", "@ + c =~= p + sp + r1);
    assert(m + " "@ + t0 + ", "@ + t1 + ", "@ + t2 =~= m + sp + r2);
    lemma_split_at(p, r1, m, r2, ' ');
    lemma_split_at(a, sp + b + seq![','] + (sp + c), t0, sp + t1 + seq![','] + (sp + t2), ',');
    let q1 = sp + b + seq![','] + (sp + c);
    let q2 = sp + t1 + seq![','] + (sp + t2);
    assert(q1.drop_first() =~= b + seq![','] + (sp + c));
    assert(q2.drop_first() =~= t1 + seq![','] + (sp + t2));
    lemma_split_at(b, sp + c, t1, sp + t2, ',');
    assert((sp + c).drop_first() =~= c);
    assert((sp + t2).drop_first() =~= t2);
}

proof fn lemma_two_operands(p: Seq<char>, a: Seq<char>, b: Seq<char>, m: Seq<char>, t0: Seq<char>, t1: Seq<char>)
    requires
        p + " "@ + a + ", "@ + b == m + " "@ + t0 + ", "@ + t1,
        no_separator(p),
        no_separator(m),
        no_separator(a),
        no_separator(t0),
    ensures
        m == p,
        t0 == a,
        t1 == b,
{
    reveal_strlit(" ");
    reveal_strlit(", ");
    let sp = seq![' '];
    assert(" "@ =~= sp);
    assert(", "@ =~= seq![','] + sp);
    let r1 = a + seq![','] + (sp + b);
    let r2 = t0 + seq![','] + (sp + t1);
    assert(p + " "@ + a + ", "@ + b =~= p + sp + r1);
    assert(m + " "@ + t0 + ", "@ + t1 =~= m + sp + r2);
    lemma_split_at(p, r1, m, r2, ' ');
    lemma_split_at(a, sp + b, t0, sp + t1, ',');
    assert((sp + b).drop_first() =~= b);
    assert((sp + t1).drop_first() =~= t1);
}

/// The word an operand-form instruction is written with.
spec fn mnemonic_word(i: Instr) -> Seq<char> {
    match i {
        Instr::Add(..) => "add"@,
        Instr::Sub(..) => "sub"@,
        Instr::And(..) => "and"@,
        Instr::Or(..) => "or"@,
        Instr::Xor(..) => "xor"@,
        Instr::Addi(..) => "addi"@,
        Instr::Andi(..) => "andi"@,
        Instr::Ori(..) => "ori"@,
        Instr::Xori(..) => "xori"@,
        Instr::Shift(_, _, ShiftOp::Sll, _) => "sll"@,
        Instr::Shift(_, _, ShiftOp::Srl, _) => "srl"@,
        Instr::Shift(_, _, ShiftOp::Sra, _) => "sra"@,
        Instr::Mov(..) => "mov"@,
        Instr::LoadImm(..) => "load_imm"@,
        Instr::Lui(..) => "lui"@,
        _ => Seq::empty(),
    }
}

/// The operands an operand-form instruction takes, as the encoder's table
/// reads them.
spec fn operands_read(i: Instr, ops: Seq<Operand>, syms: SymMap) -> bool {
    match i {
        Instr::Add(d, a, b) | Instr::Sub(d, a, b) | Instr::And(d, a, b) | Instr::Or(d, a, b) | Instr::Xor(d, a, b)
            => spec_regs3(ops) == Some((d, a, b)),
        Instr::Addi(d, a, o) | Instr::Andi(d, a, o) | Instr::Ori(d, a, o) | Instr::Xori(d, a, o) => spec_rri(ops, syms)
            == Some((d, a, o)),
        Instr::Shift(d, a, _, amt) => spec_shift_ops(ops, syms) == Some((d, a, amt)),
        Instr::Mov(d, a) => spec_rr(ops) == Some((d, a)),
        Instr::LoadImm(d, o) => spec_r_imm11(ops, syms) == Some((d, o)),
        Instr::Lui(d, o) => spec_r_imm20(ops, syms) == Some((d, o)),
        _ => false,
    }
}

/// An operand-form mnemonic is none of the bus mnemonics and not `li`.
proof fn lemma_not_bus(w: Seq<char>, ops: Seq<Operand>, syms: SymMap)
    requires
        w == "load_imm"@ || w == "lui"@ || w == "mov"@ || w == "add"@ || w == "sub"@ || w == "and"@ || w == "or"@ || w == "xor"@ || w == "addi"@ || w == "andi"@ || w == "ori"@ || w == "xori"@ || w == "sll"@ || w == "srl"@ || w == "sra"@,
    ensures
        spec_single_bus(w, ops, syms) is None,
        w != "li"@,
{
    reveal_strlit("cs_assert");
    reveal_strlit("cs_deassert");
    reveal_strlit("rst_assert");
    reveal_strlit("rst_deassert");
    reveal_strlit("crc_reset");
    reveal_strlit("put_byte");
    reveal_strlit("get_byte");
    reveal_strlit("put_bits");
    reveal_strlit("get_bits");
    reveal_strlit("tar");
    reveal_strlit("get_alert");
    reveal_strlit("halt");
    reveal_strlit("wait_on");
    reveal_strlit("set_config");
    reveal_strlit("mark");
    reveal_strlit("li");
    if w == "load_imm"@ {
        reveal_strlit("load_imm");
            assert("load_imm"@.len() != "cs_assert"@.len());
            assert("load_imm"@.len() != "cs_deassert"@.len());
            assert("load_imm"@.len() != "rst_assert"@.len());
            assert("load_imm"@.len() != "rst_deassert"@.len());
            assert("load_imm"@.len() != "crc_reset"@.len());
            assert("load_imm"@[0] != "put_byte"@[0]);
            assert("load_imm"@[0] != "get_byte"@[0]);
            assert("load_imm"@[0] != "put_bits"@[0]);
            assert("load_imm"@[0] != "get_bits"@[0]);
            assert("load_imm"@.len() != "tar"@.len());
            assert("load_imm"@.len() != "get_alert"@.len());
            assert("load_imm"@.len() != "halt"@.len());
            assert("load_imm"@.len() != "wait_on"@.len());
            assert("load_imm"@.len() != "set_config"@.len());
            assert("load_imm"@.len() != "mark"@.len());
            assert("load_imm"@.len() != "li"@.len());
    }
    if w == "lui"@ {
        reveal_strlit("lui");
            assert("lui"@.len() != "cs_assert"@.len());
            assert("lui"@.len() != "cs_deassert"@.len());
            assert("lui"@.len() != "rst_assert"@.len());
            assert("lui"@.len() != "rst_deassert"@.len());
            assert("lui"@.len() != "crc_reset"@.len());
            assert("lui"@.len() != "put_byte"@.len());
            assert("lui"@.len() != "get_byte"@.len());
            assert("lui"@.len() != "put_bits"@.len());
            assert("lui"@.len() != "get_bits"@.len());
            assert("lui"@[0] != "tar"@[0]);
            assert("lui"@.len() != "get_alert"@.len());
            assert("lui"@.len() != "halt"@.len());
            assert("lui"@.len() != "wait_on"@.len());
            assert("lui"@.len() != "set_config"@.len());
            assert("lui"@.len() != "mark"@.len());
            assert("lui"@.len() != "li"@.len());
    }
    if w == "mov"@ {
        reveal_strlit("mov");
            assert("mov"@.len() != "cs_assert"@.len());
            assert("mov"@.len() != "cs_deassert"@.len());
            assert("mov"@.len() != "rst_assert"@.len());
            assert("mov"@.len() != "rst_deassert"@.len());
            assert("mov"@.len() != "crc_reset"@.len());
            assert("mov"@.len() != "put_byte"@.len());
            assert("mov"@.len() != "get_byte"@.len());
            assert("mov"@.len() != "put_bits"@.len());
            assert("mov"@.len() != "get_bits"@.len());
            assert("mov"@[0] != "tar"@[0]);
            assert("mov"@.len() != "get_alert"@.len());
            assert("mov"@.len() != "halt"@.len());
            assert("mov"@.len() != "wait_on"@.len());
            assert("mov"@.len() != "set_config"@.len());
            assert("mov"@.len() != "mark"@.len());
            assert("mov"@.len() != "li"@.len());
    }
    if w == "add"@ {
        reveal_strlit("add");
            assert("add"@.len() != "cs_assert"@.len());
            assert("add"@.len() != "cs_deassert"@.len());
            assert("add"@.len() != "rst_assert"@.len());
            assert("add"@.len() != "rst_deassert"@.len());
            assert("add"@.len() != "crc_reset"@.len());
            assert("add"@.len() != "put_byte"@.len());
            assert("add"@.len() != "get_byte"@.len());
            assert("add"@.len() != "put_bits"@.len());
            assert("add"@.len() != "get_bits"@.len());
            assert("add"@[0] != "tar"@[0]);
            assert("add"@.len() != "get_alert"@.len());
            assert("add"@.len() != "halt"@.len());
            assert("add"@.len() != "wait_on"@.len());
            assert("add"@.len() != "set_config"@.len());
            assert("add"@.len() != "mark"@.len());
            assert("add"@.len() != "li"@.len());
    }
    if w == "sub"@ {
        reveal_strlit("sub");
            assert("sub"@.len() != "cs_assert"@.len());
            assert("sub"@.len() != "cs_deassert"@.len());
            assert("sub"@.len() != "rst_assert"@.len());
            assert("sub"@.len() != "rst_deassert"@.len());
            assert("sub"@.len() != "crc_reset"@.len());
            assert("sub"@.len() != "put_byte"@.len());
            assert("sub"@.len() != "get_byte"@.len());
            assert("sub"@.len() != "put_bits"@.len());
            assert("sub"@.len() != "get_bits"@.len());
            assert("sub"@[0] != "tar"@[0]);
            assert("sub"@.len() != "get_alert"@.len());
            assert("sub"@.len() != "halt"@.len());
            assert("sub"@.len() != "wait_on"@.len());
            assert("sub"@.len() != "set_config"@.len());
            assert("sub"@.len() != "mark"@.len());
            assert("sub"@.len() != "li"@.len());
    }
    if w == "and"@ {
        reveal_strlit("and");
            assert("and"@.len() != "cs_assert"@.len());
            assert("and"@.len() != "cs_deassert"@.len());
            assert("and"@.len() != "rst_assert"@.len());
            assert("and"@.len() != "rst_deassert"@.len());
            assert("and"@.len() != "crc_reset"@.len());
            assert("and"@.len() != "put_byte"@.len());
            assert("and"@.len() != "get_byte"@.len());
            assert("and"@.len() != "put_bits"@.len());
            assert("and"@.len() != "get_bits"@.len());
            assert("and"@[0] != "tar"@[0]);
            assert("and"@.len() != "get_alert"@.len());
            assert("and"@.len() != "halt"@.len());
            assert("and"@.len() != "wait_on"@.len());
            assert("and"@.len() != "set_config"@.len());
            assert("and"@.len() != "mark"@.len());
            assert("and"@.len() != "li"@.len());
    }
    if w == "or"@ {
        reveal_strlit("or");
            assert("or"@.len() != "cs_assert"@.len());
            assert("or"@.len() != "cs_deassert"@.len());
            assert("or"@.len() != "rst_assert"@.len());
            assert("or"@.len() != "rst_deassert"@.len());
            assert("or"@.len() != "crc_reset"@.len());
            assert("or"@.len() != "put_byte"@.len());
            assert("or"@.len() != "get_byte"@.len());
            assert("or"@.len() != "put_bits"@.len());
            assert("or"@.len() != "get_bits"@.len());
            assert("or"@.len() != "tar"@.len());
            assert("or"@.len() != "get_alert"@.len());
            assert("or"@.len() != "halt"@.len());
            assert("or"@.len() != "wait_on"@.len());
            assert("or"@.len() != "set_config"@.len());
            assert("or"@.len() != "mark"@.len());
            assert("or"@[0] != "li"@[0]);
    }
    if w == "xor"@ {
        reveal_strlit("xor");
            assert("xor"@.len() != "cs_assert"@.len());
            assert("xor"@.len() != "cs_deassert"@.len());
            assert("xor"@.len() != "rst_assert"@.len());
            assert("xor"@.len() != "rst_deassert"@.len());
            assert("xor"@.len() != "crc_reset"@.len());
            assert("xor"@.len() != "put_byte"@.len());
            assert("xor"@.len() != "get_byte"@.len());
            assert("xor"@.len() != "put_bits"@.len());
            assert("xor"@.len() != "get_bits"@.len());
            assert("xor"@[0] != "tar"@[0]);
            assert("xor"@.len() != "get_alert"@.len());
            assert("xor"@.len() != "halt"@.len());
            assert("xor"@.len() != "wait_on"@.len());
            assert("xor"@.len() != "set_config"@.len());
            assert("xor"@.len() != "mark"@.len());
            assert("xor"@.len() != "li"@.len());
    }
    if w == "addi"@ {
        reveal_strlit("addi");
            assert("addi"@.len() != "cs_assert"@.len());
            assert("addi"@.len() != "cs_deassert"@.len());
            assert("addi"@.len() != "rst_assert"@.len());
            assert("addi"@.len() != "rst_deassert"@.len());
            assert("addi"@.len() != "crc_reset"@.len());
            assert("addi"@.len() != "put_byte"@.len());
            assert("addi"@.len() != "get_byte"@.len());
            assert("addi"@.len() != "put_bits"@.len());
            assert("addi"@.len() != "get_bits"@.len());
            assert("addi"@.len() != "tar"@.len());
            assert("addi"@.len() != "get_alert"@.len());
            assert("addi"@[0] != "halt"@[0]);
            assert("addi"@.len() != "wait_on"@.len());
            assert("addi"@.len() != "set_config"@.len());
            assert("addi"@[0] != "mark"@[0]);
            assert("addi"@.len() != "li"@.len());
    }
    if w == "andi"@ {
        reveal_strlit("andi");
            assert("andi"@.len() != "cs_assert"@.len());
            assert("andi"@.len() != "cs_deassert"@.len());
            assert("andi"@.len() != "rst_assert"@.len());
            assert("andi"@.len() != "rst_deassert"@.len());
            assert("andi"@.len() != "crc_reset"@.len());
            assert("andi"@.len() != "put_byte"@.len());
            assert("andi"@.len() != "get_byte"@.len());
            assert("andi"@.len() != "put_bits"@.len());
            assert("andi"@.len() != "get_bits"@.len());
            assert("andi"@.len() != "tar"@.len());
            assert("andi"@.len() != "get_alert"@.len());
            assert("andi"@[0] != "halt"@[0]);
            assert("andi"@.len() != "wait_on"@.len());
            assert("andi"@.len() != "set_config"@.len());
            assert("andi"@[0] != "mark"@[0]);
            assert("andi"@.len() != "li"@.len());
    }
    if w == "ori"@ {
        reveal_strlit("ori");
            assert("ori"@.len() != "cs_assert"@.len());
            assert("ori"@.len() != "cs_deassert"@.len());
            assert("ori"@.len() != "rst_assert"@.len());
            assert("ori"@.len() != "rst_deassert"@.len());
            assert("ori"@.len() != "crc_reset"@.len());
            assert("ori"@.len() != "put_byte"@.len());
            assert("ori"@.len() != "get_byte"@.len());
            assert("ori"@.len() != "put_bits"@.len());
            assert("ori"@.len() != "get_bits"@.len());
            assert("ori"@[0] != "tar"@[0]);
            assert("ori"@.len() != "get_alert"@.len());
            assert("ori"@.len() != "halt"@.len());
            assert("ori"@.len() != "wait_on"@.len());
            assert("ori"@.len() != "set_config"@.len());
            assert("ori"@.len() != "mark"@.len());
            assert("ori"@.len() != "li"@.len());
    }
    if w == "xori"@ {
        reveal_strlit("xori");
            assert("xori"@.len() != "cs_assert"@.len());
            assert("xori"@.len() != "cs_deassert"@.len());
            assert("xori"@.len() != "rst_assert"@.len());
            assert("xori"@.len() != "rst_deassert"@.len());
            assert("xori"@.len() != "crc_reset"@.len());
            assert("xori"@.len() != "put_byte"@.len());
            assert("xori"@.len() != "get_byte"@.len());
            assert("xori"@.len() != "put_bits"@.len());
            assert("xori"@.len() != "get_bits"@.len());
            assert("xori"@.len() != "tar"@.len());
            assert("xori"@.len() != "get_alert"@.len());
            assert("xori"@[0] != "halt"@[0]);
            assert("xori"@.len() != "wait_on"@.len());
            assert("xori"@.len() != "set_config"@.len());
            assert("xori"@[0] != "mark"@[0]);
            assert("xori"@.len() != "li"@.len());
    }
    if w == "sll"@ {
        reveal_strlit("sll");
            assert("sll"@.len() != "cs_assert"@.len());
            assert("sll"@.len() != "cs_deassert"@.len());
            assert("sll"@.len() != "rst_assert"@.len());
            assert("sll"@.len() != "rst_deassert"@.len());
            assert("sll"@.len() != "crc_reset"@.len());
            assert("sll"@.len() != "put_byte"@.len());
            assert("sll"@.len() != "get_byte"@.len());
            assert("sll"@.len() != "put_bits"@.len());
            assert("sll"@.len() != "get_bits"@.len());
            assert("sll"@[0] != "tar"@[0]);
            assert("sll"@.len() != "get_alert"@.len());
            assert("sll"@.len() != "halt"@.len());
            assert("sll"@.len() != "wait_on"@.len());
            assert("sll"@.len() != "set_config"@.len());
            assert("sll"@.len() != "mark"@.len());
            assert("sll"@.len() != "li"@.len());
    }
    if w == "srl"@ {
        reveal_strlit("srl");
            assert("srl"@.len() != "cs_assert"@.len());
            assert("srl"@.len() != "cs_deassert"@.len());
            assert("srl"@.len() != "rst_assert"@.len());
            assert("srl"@.len() != "rst_deassert"@.len());
            assert("srl"@.len() != "crc_reset"@.len());
            assert("srl"@.len() != "put_byte"@.len());
            assert("srl"@.len() != "get_byte"@.len());
            assert("srl"@.len() != "put_bits"@.len());
            assert("srl"@.len() != "get_bits"@.len());
            assert("srl"@[0] != "tar"@[0]);
            assert("srl"@.len() != "get_alert"@.len());
            assert("srl"@.len() != "halt"@.len());
            assert("srl"@.len() != "wait_on"@.len());
            assert("srl"@.len() != "set_config"@.len());
            assert("srl"@.len() != "mark"@.len());
            assert("srl"@.len() != "li"@.len());
    }
    if w == "sra"@ {
        reveal_strlit("sra");
            assert("sra"@.len() != "cs_assert"@.len());
            assert("sra"@.len() != "cs_deassert"@.len());
            assert("sra"@.len() != "rst_assert"@.len());
            assert("sra"@.len() != "rst_deassert"@.len());
            assert("sra"@.len() != "crc_reset"@.len());
            assert("sra"@.len() != "put_byte"@.len());
            assert("sra"@.len() != "get_byte"@.len());
            assert("sra"@.len() != "put_bits"@.len());
            assert("sra"@.len() != "get_bits"@.len());
            assert("sra"@[0] != "tar"@[0]);
            assert("sra"@.len() != "get_alert"@.len());
            assert("sra"@.len() != "halt"@.len());
            assert("sra"@.len() != "wait_on"@.len());
            assert("sra"@.len() != "set_config"@.len());
            assert("sra"@.len() != "mark"@.len());
            assert("sra"@.len() != "li"@.len());
    }
}

proof fn lemma_table(i: Instr, ops: Seq<Operand>, addr: u16, syms: SymMap)
    requires
        operand_form(i),
        operands_read(i, ops, syms),
    ensures
        spec_single_alu(mnemonic_word(i), ops, addr, syms) == Some(Some(i)),
        spec_encode_line(mnemonic_word(i), ops, addr, syms) == Some(seq![i]),
{
    match i {
        Instr::Add(d, a, b) => {
            reveal_strlit("load_imm");
            reveal_strlit("lui");
            reveal_strlit("mov");
            reveal_strlit("mv");
            reveal_strlit("add");
            assert("add"@.len() != "load_imm"@.len());
            assert("add"@[0] != "lui"@[0]);
            assert("add"@[0] != "mov"@[0]);
            assert("add"@.len() != "mv"@.len());
        },
        Instr::Sub(d, a, b) => {
            reveal_strlit("load_imm");
            reveal_strlit("lui");
            reveal_strlit("mov");
            reveal_strlit("mv");
            reveal_strlit("add");
            reveal_strlit("sub");
            assert("sub"@.len() != "load_imm"@.len());
            assert("sub"@[0] != "lui"@[0]);
            assert("sub"@[0] != "mov"@[0]);
            assert("sub"@.len() != "mv"@.len());
            assert("sub"@[0] != "add"@[0]);
        },
        Instr::And(d, a, b) => {
            reveal_strlit("load_imm");
            reveal_strlit("lui");
            reveal_strlit("mov");
            reveal_strlit("mv");
            reveal_strlit("add");
            reveal_strlit("sub");
            reveal_strlit("and");
            assert("and"@.len() != "load_imm"@.len());
            assert("and"@[0] != "lui"@[0]);
            assert("and"@[0] != "mov"@[0]);
            assert("and"@.len() != "mv"@.len());
            assert("and"@[1] != "add"@[1]);
            assert("and"@[0] != "sub"@[0]);
        },
        Instr::Or(d, a, b) => {
            reveal_strlit("load_imm");
            reveal_strlit("lui");
            reveal_strlit("mov");
            reveal_strlit("mv");
            reveal_strlit("add");
            reveal_strlit("sub");
            reveal_strlit("and");
            reveal_strlit("or");
            assert("or"@.len() != "load_imm"@.len());
            assert("or"@.len() != "lui"@.len());
            assert("or"@.len() != "mov"@.len());
            assert("or"@[0] != "mv"@[0]);
            assert("or"@.len() != "add"@.len());
            assert("or"@.len() != "sub"@.len());
            assert("or"@.len() != "and"@.len());
        },
        Instr::Xor(d, a, b) => {
            reveal_strlit("load_imm");
            reveal_strlit("lui");
            reveal_strlit("mov");
            reveal_strlit("mv");
            reveal_strlit("add");
            reveal_strlit("sub");
            reveal_strlit("and");
            reveal_strlit("or");
            reveal_strlit("xor");
            assert("xor"@.len() != "load_imm"@.len());
            assert("xor"@[0] != "lui"@[0]);
            assert("xor"@[0] != "mov"@[0]);
            assert("xor"@.len() != "mv"@.len());
            assert("xor"@[0] != "add"@[0]);
            assert("xor"@[0] != "sub"@[0]);
            assert("xor"@[0] != "and"@[0]);
            assert("xor"@.len() != "or"@.len());
        },
        Instr::Addi(d, a, o) => {
            reveal_strlit("load_imm");
            reveal_strlit("lui");
            reveal_strlit("mov");
            reveal_strlit("mv");
            reveal_strlit("add");
            reveal_strlit("sub");
            reveal_strlit("and");
            reveal_strlit("or");
            reveal_strlit("xor");
            reveal_strlit("addi");
            assert("addi"@.len() != "load_imm"@.len());
            assert("addi"@.len() != "lui"@.len());
            assert("addi"@.len() != "mov"@.len());
            assert("addi"@.len() != "mv"@.len());
            assert("addi"@.len() != "add"@.len());
            assert("addi"@.len() != "sub"@.len());
            assert("addi"@.len() != "and"@.len());
            assert("addi"@.len() != "or"@.len());
            assert("addi"@.len() != "xor"@.len());
        },
        Instr::Andi(d, a, o) => {
            reveal_strlit("load_imm");
            reveal_strlit("lui");
            reveal_strlit("mov");
            reveal_strlit("mv");
            reveal_strlit("add");
            reveal_strlit("sub");
            reveal_strlit("and");
            reveal_strlit("or");
            reveal_strlit("xor");
            reveal_strlit("addi");
            reveal_strlit("andi");
            assert("andi"@.len() != "load_imm"@.len());
            assert("andi"@.len() != "lui"@.len());
            assert("andi"@.len() != "mov"@.len());
            assert("andi"@.len() != "mv"@.len());
            assert("andi"@.len() != "add"@.len());
            assert("andi"@.len() != "sub"@.len());
            assert("andi"@.len() != "and"@.len());
            assert("andi"@.len() != "or"@.len());
            assert("andi"@.len() != "xor"@.len());
            assert("andi"@[1] != "addi"@[1]);
        },
        Instr::Ori(d, a, o) => {
            reveal_strlit("load_imm");
            reveal_strlit("lui");
            reveal_strlit("mov");
            reveal_strlit("mv");
            reveal_strlit("add");
            reveal_strlit("sub");
            reveal_strlit("and");
            reveal_strlit("or");
            reveal_strlit("xor");
            reveal_strlit("addi");
            reveal_strlit("andi");
            reveal_strlit("ori");
            assert("ori"@.len() != "load_imm"@.len());
            assert("ori"@[0] != "lui"@[0]);
            assert("ori"@[0] != "mov"@[0]);
            assert("ori"@.len() != "mv"@.len());
            assert("ori"@[0] != "add"@[0]);
            assert("ori"@[0] != "sub"@[0]);
            assert("ori"@[0] != "and"@[0]);
            assert("ori"@.len() != "or"@.len());
            assert("ori"@[0] != "xor"@[0]);
            assert("ori"@.len() != "addi"@.len());
            assert("ori"@.len() != "andi"@.len());
        },
        Instr::Xori(d, a, o) => {
            reveal_strlit("load_imm");
            reveal_strlit("lui");
            reveal_strlit("mov");
            reveal_strlit("mv");
            reveal_strlit("add");
            reveal_strlit("sub");
            reveal_strlit("and");
            reveal_strlit("or");
            reveal_strlit("xor");
            reveal_strlit("addi");
            reveal_strlit("andi");
            reveal_strlit("ori");
            reveal_strlit("xori");
            assert("xori"@.len() != "load_imm"@.len());
            assert("xori"@.len() != "lui"@.len());
            assert("xori"@.len() != "mov"@.len());
            assert("xori"@.len() != "mv"@.len());
            assert("xori"@.len() != "add"@.len());
            assert("xori"@.len() != "sub"@.len());
            assert("xori"@.len() != "and"@.len());
            assert("xori"@.len() != "or"@.len());
            assert("xori"@.len() != "xor"@.len());
            assert("xori"@[0] != "addi"@[0]);
            assert("xori"@[0] != "andi"@[0]);
            assert("xori"@.len() != "ori"@.len());
        },
        Instr::Shift(d, a, ShiftOp::Sll, o) => {
            reveal_strlit("load_imm");
            reveal_strlit("lui");
            reveal_strlit("mov");
            reveal_strlit("mv");
            reveal_strlit("add");
            reveal_strlit("sub");
            reveal_strlit("and");
            reveal_strlit("or");
            reveal_strlit("xor");
            reveal_strlit("addi");
            reveal_strlit("andi");
            reveal_strlit("ori");
            reveal_strlit("xori");
            reveal_strlit("sll");
            assert("sll"@.len() != "load_imm"@.len());
            assert("sll"@[0] != "lui"@[0]);
            assert("sll"@[0] != "mov"@[0]);
            assert("sll"@.len() != "mv"@.len());
            assert("sll"@[0] != "add"@[0]);
            assert("sll"@[1] != "sub"@[1]);
            assert("sll"@[0] != "and"@[0]);
            assert("sll"@.len() != "or"@.len());
            assert("sll"@[0] != "xor"@[0]);
            assert("sll"@.len() != "addi"@.len());
            assert("sll"@.len() != "andi"@.len());
            assert("sll"@[0] != "ori"@[0]);
            assert("sll"@.len() != "xori"@.len());
        },
        Instr::Shift(d, a, ShiftOp::Srl, o) => {
            reveal_strlit("load_imm");
            reveal_strlit("lui");
            reveal_strlit("mov");
            reveal_strlit("mv");
            reveal_strlit("add");
            reveal_strlit("sub");
            reveal_strlit("and");
            reveal_strlit("or");
            reveal_strlit("xor");
            reveal_strlit("addi");
            reveal_strlit("andi");
            reveal_strlit("ori");
            reveal_strlit("xori");
            reveal_strlit("sll");
            reveal_strlit("srl");
            assert("srl"@.len() != "load_imm"@.len());
            assert("srl"@[0] != "lui"@[0]);
            assert("srl"@[0] != "mov"@[0]);
            assert("srl"@.len() != "mv"@.len());
            assert("srl"@[0] != "add"@[0]);
            assert("srl"@[1] != "sub"@[1]);
            assert("srl"@[0] != "and"@[0]);
            assert("srl"@.len() != "or"@.len());
            assert("srl"@[0] != "xor"@[0]);
            assert("srl"@.len() != "addi"@.len());
            assert("srl"@.len() != "andi"@.len());
            assert("srl"@[0] != "ori"@[0]);
            assert("srl"@.len() != "xori"@.len());
            assert("srl"@[1] != "sll"@[1]);
        },
        Instr::Shift(d, a, ShiftOp::Sra, o) => {
            reveal_strlit("load_imm");
            reveal_strlit("lui");
            reveal_strlit("mov");
            reveal_strlit("mv");
            reveal_strlit("add");
            reveal_strlit("sub");
            reveal_strlit("and");
            reveal_strlit("or");
            reveal_strlit("xor");
            reveal_strlit("addi");
            reveal_strlit("andi");
            reveal_strlit("ori");
            reveal_strlit("xori");
            reveal_strlit("sll");
            reveal_strlit("srl");
            reveal_strlit("sra");
            assert("sra"@.len() != "load_imm"@.len());
            assert("sra"@[0] != "lui"@[0]);
            assert("sra"@[0] != "mov"@[0]);
            assert("sra"@.len() != "mv"@.len());
            assert("sra"@[0] != "add"@[0]);
            assert("sra"@[1] != "sub"@[1]);
            assert("sra"@[0] != "and"@[0]);
            assert("sra"@.len() != "or"@.len());
            assert("sra"@[0] != "xor"@[0]);
            assert("sra"@.len() != "addi"@.len());
            assert("sra"@.len() != "andi"@.len());
            assert("sra"@[0] != "ori"@[0]);
            assert("sra"@.len() != "xori"@.len());
            assert("sra"@[1] != "sll"@[1]);
            assert("sra"@[2] != "srl"@[2]);
        },
        Instr::Mov(d, a) => {
            reveal_strlit("load_imm");
            reveal_strlit("lui");
            reveal_strlit("mov");
            assert("mov"@.len() != "load_imm"@.len());
            assert("mov"@[0] != "lui"@[0]);
        },
        Instr::LoadImm(d, o) => {
            reveal_strlit("load_imm");

        },
        Instr::Lui(d, o) => {
            reveal_strlit("load_imm");
            reveal_strlit("lui");
            assert("lui"@.len() != "load_imm"@.len());
        },
        _ => {},
    }
    lemma_not_bus(mnemonic_word(i), ops, syms);
}

proof fn lemma_read_three(i: Instr, m: Seq<char>, ops: Seq<Operand>, a0: Seq<char>, a1: Seq<char>, a2: Seq<char>)
    requires
        ops.len() == 3,
        no_separator(m),
        plain_operand(ops[0]),
        plain_operand(ops[1]),
        plain_operand(ops[2]),
        no_separator(mnemonic_word(i)),
        no_separator(a0),
        no_separator(a1),
        mnemonic_word(i) + " "@ + a0 + ", "@ + a1 + ", "@ + a2 == m + " "@ + operand_text(ops[0]) + ", "@
            + operand_text(ops[1]) + ", "@ + operand_text(ops[2]),
    ensures
        m == mnemonic_word(i),
        operand_text(ops[0]) == a0,
        operand_text(ops[1]) == a1,
        operand_text(ops[2]) == a2,
{
    lemma_plain_text(ops[0]);
    lemma_plain_text(ops[1]);
    lemma_three_operands(
        mnemonic_word(i),
        a0,
        a1,
        a2,
        m,
        operand_text(ops[0]),
        operand_text(ops[1]),
        operand_text(ops[2]),
    );
}

proof fn lemma_read_two(i: Instr, m: Seq<char>, ops: Seq<Operand>, a0: Seq<char>, a1: Seq<char>)
    requires
        ops.len() == 2,
        no_separator(m),
        plain_operand(ops[0]),
        plain_operand(ops[1]),
        no_separator(mnemonic_word(i)),
        no_separator(a0),
        mnemonic_word(i) + " "@ + a0 + ", "@ + a1 == m + " "@ + operand_text(ops[0]) + ", "@ + operand_text(ops[1]),
    ensures
        m == mnemonic_word(i),
        operand_text(ops[0]) == a0,
        operand_text(ops[1]) == a1,
{
    lemma_plain_text(ops[0]);
    lemma_two_operands(mnemonic_word(i), a0, a1, m, operand_text(ops[0]), operand_text(ops[1]));
}

/// Assembling the canonical text of a three-operand instruction gives it
/// back: whatever mnemonic and operands its rendering is read as (a word, a
/// space, then three comma-separated operands), the encoder's table maps
/// them to the very instruction that was rendered. So each mnemonic names
/// its own operation, and `rd, rs1, rs2` (or `rd, rs1, immediate` or `rd,
/// rs1, amount`) land in the instruction's fields in the order written.
#[verifier::spinoff_prover]
#[verifier::rlimit(50)]
pub proof fn lemma_three_operand_render_reassembles(i: Instr, m: Seq<char>, ops: Seq<Operand>, addr: u16, syms: SymMap)
    requires
        operand_form(i),
        !(i is Mov || i is LoadImm || i is Lui),
        ops.len() == 3,
        no_separator(m),
        plain_operand(ops[0]),
        plain_operand(ops[1]),
        plain_operand(ops[2]),
        spec_render(i) == m + " "@ + operand_text(ops[0]) + ", "@ + operand_text(ops[1]) + ", "@ + operand_text(
            ops[2],
        ),
    ensures
        spec_single_alu(m, ops, addr, syms) == Some(Some(i)),
        spec_encode_line(m, ops, addr, syms) == Some(seq![i]),
{
    reveal_strlit(" ");
    match i {
        Instr::Add(d, a, b) => {
            reveal_strlit("add ");
            reveal_strlit("add");
            assert("add "@ =~= "add"@ + " "@);
            assert(spec_render(i) == "add "@ + spec_rn(d) + ", "@ + spec_rn(a) + ", "@ + spec_rn(b));
            assert(mnemonic_word(i) == "add"@);
            assert(no_separator("add"@));
            lemma_rn_plain(d);
            lemma_rn_plain(a);
            lemma_read_three(i, m, ops, spec_rn(d), spec_rn(a), spec_rn(b));
            lemma_reg_operand(d, ops[0]);
            lemma_reg_operand(a, ops[1]);
            lemma_reg_operand(b, ops[2]);
            lemma_table(i, ops, addr, syms);
            assert(spec_single_alu(m, ops, addr, syms) == Some(Some(i)));
            assert(spec_encode_line(m, ops, addr, syms) == Some(seq![i]));
        },
        Instr::Sub(d, a, b) => {
            reveal_strlit("sub ");
            reveal_strlit("sub");
            assert("sub "@ =~= "sub"@ + " "@);
            assert(spec_render(i) == "sub "@ + spec_rn(d) + ", "@ + spec_rn(a) + ", "@ + spec_rn(b));
            assert(mnemonic_word(i) == "sub"@);
            assert(no_separator("sub"@));
            lemma_rn_plain(d);
            lemma_rn_plain(a);
            lemma_read_three(i, m, ops, spec_rn(d), spec_rn(a), spec_rn(b));
            lemma_reg_operand(d, ops[0]);
            lemma_reg_operand(a, ops[1]);
            lemma_reg_operand(b, ops[2]);
            lemma_table(i, ops, addr, syms);
            assert(spec_single_alu(m, ops, addr, syms) == Some(Some(i)));
            assert(spec_encode_line(m, ops, addr, syms) == Some(seq![i]));
        },
        Instr::And(d, a, b) => {
            reveal_strlit("and ");
            reveal_strlit("and");
            assert("and "@ =~= "and"@ + " "@);
            assert(spec_render(i) == "and "@ + spec_rn(d) + ", "@ + spec_rn(a) + ", "@ + spec_rn(b));
            assert(mnemonic_word(i) == "and"@);
            assert(no_separator("and"@));
            lemma_rn_plain(d);
            lemma_rn_plain(a);
            lemma_read_three(i, m, ops, spec_rn(d), spec_rn(a), spec_rn(b));
            lemma_reg_operand(d, ops[0]);
            lemma_reg_operand(a, ops[1]);
            lemma_reg_operand(b, ops[2]);
            lemma_table(i, ops, addr, syms);
            assert(spec_single_alu(m, ops, addr, syms) == Some(Some(i)));
            assert(spec_encode_line(m, ops, addr, syms) == Some(seq![i]));
        },
        Instr::Or(d, a, b) => {
            reveal_strlit("or ");
            reveal_strlit("or");
            assert("or "@ =~= "or"@ + " "@);
            assert(spec_render(i) == "or "@ + spec_rn(d) + ", "@ + spec_rn(a) + ", "@ + spec_rn(b));
            assert(mnemonic_word(i) == "or"@);
            assert(no_separator("or"@));
            lemma_rn_plain(d);
            lemma_rn_plain(a);
            lemma_read_three(i, m, ops, spec_rn(d), spec_rn(a), spec_rn(b));
            lemma_reg_operand(d, ops[0]);
            lemma_reg_operand(a, ops[1]);
            lemma_reg_operand(b, ops[2]);
            lemma_table(i, ops, addr, syms);
            assert(spec_single_alu(m, ops, addr, syms) == Some(Some(i)));
            assert(spec_encode_line(m, ops, addr, syms) == Some(seq![i]));
        },
        Instr::Xor(d, a, b) => {
            reveal_strlit("xor ");
            reveal_strlit("xor");
            assert("xor "@ =~= "xor"@ + " "@);
            assert(spec_render(i) == "xor "@ + spec_rn(d) + ", "@ + spec_rn(a) + ", "@ + spec_rn(b));
            assert(mnemonic_word(i) == "xor"@);
            assert(no_separator("xor"@));
            lemma_rn_plain(d);
            lemma_rn_plain(a);
            lemma_read_three(i, m, ops, spec_rn(d), spec_rn(a), spec_rn(b));
            lemma_reg_operand(d, ops[0]);
            lemma_reg_operand(a, ops[1]);
            lemma_reg_operand(b, ops[2]);
            lemma_table(i, ops, addr, syms);
            assert(spec_single_alu(m, ops, addr, syms) == Some(Some(i)));
            assert(spec_encode_line(m, ops, addr, syms) == Some(seq![i]));
        },
        Instr::Addi(d, a, o) => {
            reveal_strlit("addi ");
            reveal_strlit("addi");
            assert("addi "@ =~= "addi"@ + " "@);
            assert(spec_render(i) == "addi "@ + spec_rn(d) + ", "@ + spec_rn(a) + ", "@ + spec_sdec(sext11(o.value())));
            assert(mnemonic_word(i) == "addi"@);
            assert(no_separator("addi"@));
            lemma_rn_plain(d);
            lemma_rn_plain(a);
            lemma_read_three(i, m, ops, spec_rn(d), spec_rn(a), spec_sdec(sext11(o.value())));
            lemma_reg_operand(d, ops[0]);
            lemma_reg_operand(a, ops[1]);
            lemma_imm11_operand(o, ops[2], syms);
            lemma_table(i, ops, addr, syms);
            assert(spec_single_alu(m, ops, addr, syms) == Some(Some(i)));
            assert(spec_encode_line(m, ops, addr, syms) == Some(seq![i]));
        },
        Instr::Andi(d, a, o) => {
            reveal_strlit("andi ");
            reveal_strlit("andi");
            assert("andi "@ =~= "andi"@ + " "@);
            assert(spec_render(i) == "andi "@ + spec_rn(d) + ", "@ + spec_rn(a) + ", "@ + spec_sdec(sext11(o.value())));
            assert(mnemonic_word(i) == "andi"@);
            assert(no_separator("andi"@));
            lemma_rn_plain(d);
            lemma_rn_plain(a);
            lemma_read_three(i, m, ops, spec_rn(d), spec_rn(a), spec_sdec(sext11(o.value())));
            lemma_reg_operand(d, ops[0]);
            lemma_reg_operand(a, ops[1]);
            lemma_imm11_operand(o, ops[2], syms);
            lemma_table(i, ops, addr, syms);
            assert(spec_single_alu(m, ops, addr, syms) == Some(Some(i)));
            assert(spec_encode_line(m, ops, addr, syms) == Some(seq![i]));
        },
        Instr::Ori(d, a, o) => {
            reveal_strlit("ori ");
            reveal_strlit("ori");
            assert("ori "@ =~= "ori"@ + " "@);
            assert(spec_render(i) == "ori "@ + spec_rn(d) + ", "@ + spec_rn(a) + ", "@ + spec_sdec(sext11(o.value())));
            assert(mnemonic_word(i) == "ori"@);
            assert(no_separator("ori"@));
            lemma_rn_plain(d);
            lemma_rn_plain(a);
            lemma_read_three(i, m, ops, spec_rn(d), spec_rn(a), spec_sdec(sext11(o.value())));
            lemma_reg_operand(d, ops[0]);
            lemma_reg_operand(a, ops[1]);
            lemma_imm11_operand(o, ops[2], syms);
            lemma_table(i, ops, addr, syms);
            assert(spec_single_alu(m, ops, addr, syms) == Some(Some(i)));
            assert(spec_encode_line(m, ops, addr, syms) == Some(seq![i]));
        },
        Instr::Xori(d, a, o) => {
            reveal_strlit("xori ");
            reveal_strlit("xori");
            assert("xori "@ =~= "xori"@ + " "@);
            assert(spec_render(i) == "xori "@ + spec_rn(d) + ", "@ + spec_rn(a) + ", "@ + spec_sdec(sext11(o.value())));
            assert(mnemonic_word(i) == "xori"@);
            assert(no_separator("xori"@));
            lemma_rn_plain(d);
            lemma_rn_plain(a);
            lemma_read_three(i, m, ops, spec_rn(d), spec_rn(a), spec_sdec(sext11(o.value())));
            lemma_reg_operand(d, ops[0]);
            lemma_reg_operand(a, ops[1]);
            lemma_imm11_operand(o, ops[2], syms);
            lemma_table(i, ops, addr, syms);
            assert(spec_single_alu(m, ops, addr, syms) == Some(Some(i)));
            assert(spec_encode_line(m, ops, addr, syms) == Some(seq![i]));
        },
        Instr::Shift(d, a, ShiftOp::Sll, o) => {
            reveal_strlit("sll ");
            reveal_strlit("sll");
            assert("sll "@ =~= "sll"@ + " "@);
            assert(spec_render(i) == "sll "@ + spec_rn(d) + ", "@ + spec_rn(a) + ", "@ + spec_dec(o.value() as nat));
            assert(mnemonic_word(i) == "sll"@);
            assert(no_separator("sll"@));
            lemma_rn_plain(d);
            lemma_rn_plain(a);
            lemma_read_three(i, m, ops, spec_rn(d), spec_rn(a), spec_dec(o.value() as nat));
            lemma_reg_operand(d, ops[0]);
            lemma_reg_operand(a, ops[1]);
            lemma_amt_operand(o, ops[2], syms);
            lemma_table(i, ops, addr, syms);
            assert(spec_single_alu(m, ops, addr, syms) == Some(Some(i)));
            assert(spec_encode_line(m, ops, addr, syms) == Some(seq![i]));
        },
        Instr::Shift(d, a, ShiftOp::Srl, o) => {
            reveal_strlit("srl ");
            reveal_strlit("srl");
            assert("srl "@ =~= "srl"@ + " "@);
            assert(spec_render(i) == "srl "@ + spec_rn(d) + ", "@ + spec_rn(a) + ", "@ + spec_dec(o.value() as nat));
            assert(mnemonic_word(i) == "srl"@);
            assert(no_separator("srl"@));
            lemma_rn_plain(d);
            lemma_rn_plain(a);
            lemma_read_three(i, m, ops, spec_rn(d), spec_rn(a), spec_dec(o.value() as nat));
            lemma_reg_operand(d, ops[0]);
            lemma_reg_operand(a, ops[1]);
            lemma_amt_operand(o, ops[2], syms);
            lemma_table(i, ops, addr, syms);
            assert(spec_single_alu(m, ops, addr, syms) == Some(Some(i)));
            assert(spec_encode_line(m, ops, addr, syms) == Some(seq![i]));
        },
        Instr::Shift(d, a, ShiftOp::Sra, o) => {
            reveal_strlit("sra ");
            reveal_strlit("sra");
            assert("sra "@ =~= "sra"@ + " "@);
            assert(spec_render(i) == "sra "@ + spec_rn(d) + ", "@ + spec_rn(a) + ", "@ + spec_dec(o.value() as nat));
            assert(mnemonic_word(i) == "sra"@);
            assert(no_separator("sra"@));
            lemma_rn_plain(d);
            lemma_rn_plain(a);
            lemma_read_three(i, m, ops, spec_rn(d), spec_rn(a), spec_dec(o.value() as nat));
            lemma_reg_operand(d, ops[0]);
            lemma_reg_operand(a, ops[1]);
            lemma_amt_operand(o, ops[2], syms);
            lemma_table(i, ops, addr, syms);
            assert(spec_single_alu(m, ops, addr, syms) == Some(Some(i)));
            assert(spec_encode_line(m, ops, addr, syms) == Some(seq![i]));
        },
        _ => {},
    }
}

/// Assembling the canonical text of a two-operand instruction (`mov`,
/// `load_imm`, `lui`) gives it back: whatever mnemonic and operands its
/// rendering is read as, the encoder's table maps them to the very
/// instruction that was rendered, its register first and its source or
/// immediate second.
#[verifier::spinoff_prover]
#[verifier::rlimit(50)]
pub proof fn lemma_two_operand_render_reassembles(i: Instr, m: Seq<char>, ops: Seq<Operand>, addr: u16, syms: SymMap)
    requires
        operand_form(i),
        i is Mov || i is LoadImm || i is Lui,
        ops.len() == 2,
        no_separator(m),
        plain_operand(ops[0]),
        plain_operand(ops[1]),
        spec_render(i) == m + " "@ + operand_text(ops[0]) + ", "@ + operand_text(ops[1]),
    ensures
        spec_single_alu(m, ops, addr, syms) == Some(Some(i)),
        spec_encode_line(m, ops, addr, syms) == Some(seq![i]),
{
    reveal_strlit(" ");
    match i {
        Instr::Mov(d, a) => {
            reveal_strlit("mov ");
            reveal_strlit("mov");
            assert("mov "@ =~= "mov"@ + " "@);
            assert(spec_render(i) == "mov "@ + spec_rn(d) + ", "@ + spec_rn(a));
            assert(mnemonic_word(i) == "mov"@);
            assert(no_separator("mov"@));
            lemma_rn_plain(d);
            lemma_read_two(i, m, ops, spec_rn(d), spec_rn(a));
            lemma_reg_operand(d, ops[0]);
            lemma_reg_operand(a, ops[1]);
            assert(spec_rr(ops) == Some((d, a)));
            lemma_table(i, ops, addr, syms);
            assert(spec_single_alu(m, ops, addr, syms) == Some(Some(i)));
            assert(spec_encode_line(m, ops, addr, syms) == Some(seq![i]));
        },
        Instr::LoadImm(d, o) => {
            reveal_strlit("load_imm ");
            reveal_strlit("load_imm");
            assert("load_imm "@ =~= "load_imm"@ + " "@);
            assert(spec_render(i) == "load_imm "@ + spec_rn(d) + ", "@ + spec_sdec(sext11(o.value())));
            assert(mnemonic_word(i) == "load_imm"@);
            assert(no_separator("load_imm"@));
            lemma_rn_plain(d);
            lemma_read_two(i, m, ops, spec_rn(d), spec_sdec(sext11(o.value())));
            lemma_reg_operand(d, ops[0]);
            lemma_imm11_operand(o, ops[1], syms);
            assert(spec_r_imm11(ops, syms) == Some((d, o)));
            lemma_table(i, ops, addr, syms);
            assert(spec_single_alu(m, ops, addr, syms) == Some(Some(i)));
            assert(spec_encode_line(m, ops, addr, syms) == Some(seq![i]));
        },
        Instr::Lui(d, o) => {
            reveal_strlit("lui ");
            reveal_strlit("lui");
            assert("lui "@ =~= "lui"@ + " "@);
            assert(spec_render(i) == "lui "@ + spec_rn(d) + ", "@ + spec_dec(o.value() as nat));
            assert(mnemonic_word(i) == "lui"@);
            assert(no_separator("lui"@));
            lemma_rn_plain(d);
            lemma_read_two(i, m, ops, spec_rn(d), spec_dec(o.value() as nat));
            lemma_reg_operand(d, ops[0]);
            lemma_imm20_operand(o, ops[1], syms);
            assert(spec_r_imm20(ops, syms) == Some((d, o)));
            lemma_table(i, ops, addr, syms);
            assert(spec_single_alu(m, ops, addr, syms) == Some(Some(i)));
            assert(spec_encode_line(m, ops, addr, syms) == Some(seq![i]));
        },
        _ => {},
    }
}


/// The bus instructions of the v1 machine, with any register among
/// `x0`-`x15`.
pub open spec fn bus_form(i: Instr) -> bool {
    match i {
        Instr::CsAssert | Instr::CsDeassert | Instr::RstAssert | Instr::RstDeassert | Instr::CrcReset => true,
        Instr::GetByte(r) | Instr::GetAlert(r) | Instr::PutByteReg(r) => r.value() < 16,
        Instr::Halt(_) | Instr::PutByteImm(_) => true,
        Instr::TarImm(t) => t.value() <= 15,
        Instr::TarReg(r) => r.value() < 16,
        Instr::Mark(tag, r) => tag.value() <= 0x7FF && r.value() < 16,
        Instr::PutBitsImm(n, _) => 1 <= n.value() <= 8,
        Instr::WaitOn(r, c, t) => r.value() < 16 && c.value() <= 3 && t.value() <= 511,
        Instr::PutBitsReg(r, n) | Instr::GetBits(r, n) => r.value() < 16 && 1 <= n.value() <= 8,
        _ => false,
    }
}

/// Assembling the text of an operand-less bus instruction gives it back:
/// the word it renders as is the mnemonic of that very instruction.
pub proof fn lemma_bare_render_reassembles(i: Instr, m: Seq<char>, addr: u16, syms: SymMap)
    requires
        i is CsAssert || i is CsDeassert || i is RstAssert || i is RstDeassert || i is CrcReset,
        spec_render(i) == m,
    ensures
        spec_encode_line(m, Seq::empty(), addr, syms) == Some(seq![i]),
{
    match i {
        Instr::CsAssert => {
            reveal_strlit("li");
            reveal_strlit("cs_assert");
            assert("cs_assert"@.len() != "li"@.len());
        },
        Instr::CsDeassert => {
            reveal_strlit("li");
            reveal_strlit("cs_assert");
            reveal_strlit("cs_deassert");
            assert("cs_deassert"@.len() != "li"@.len());
            assert("cs_deassert"@.len() != "cs_assert"@.len());
        },
        Instr::RstAssert => {
            reveal_strlit("li");
            reveal_strlit("cs_assert");
            reveal_strlit("cs_deassert");
            reveal_strlit("rst_assert");
            assert("rst_assert"@.len() != "li"@.len());
            assert("rst_assert"@.len() != "cs_assert"@.len());
            assert("rst_assert"@.len() != "cs_deassert"@.len());
        },
        Instr::RstDeassert => {
            reveal_strlit("li");
            reveal_strlit("cs_assert");
            reveal_strlit("cs_deassert");
            reveal_strlit("rst_assert");
            reveal_strlit("rst_deassert");
            assert("rst_deassert"@.len() != "li"@.len());
            assert("rst_deassert"@.len() != "cs_assert"@.len());
            assert("rst_deassert"@.len() != "cs_deassert"@.len());
            assert("rst_deassert"@.len() != "rst_assert"@.len());
        },
        Instr::CrcReset => {
            reveal_strlit("li");
            reveal_strlit("cs_assert");
            reveal_strlit("cs_deassert");
            reveal_strlit("rst_assert");
            reveal_strlit("rst_deassert");
            reveal_strlit("crc_reset");
            assert("crc_reset"@.len() != "li"@.len());
            assert("crc_reset"@[1] != "cs_assert"@[1]);
            assert("crc_reset"@.len() != "cs_deassert"@.len());
            assert("crc_reset"@.len() != "rst_assert"@.len());
            assert("crc_reset"@.len() != "rst_deassert"@.len());
        },
        _ => {},
    }
}

proof fn lemma_one_operand(p: Seq<char>, a: Seq<char>, m: Seq<char>, t: Seq<char>)
    requires
        p + " "@ + a == m + " "@ + t,
        no_separator(p),
        no_separator(m),
    ensures
        m == p,
        t == a,
{
    reveal_strlit(" ");
    assert(" "@ =~= seq![' ']);
    lemma_split_at(p, a, m, t, ' ');
}

/// Assembling the text of a one-operand bus instruction gives it back:
/// whatever mnemonic and operand its rendering is read as (a word, a space,
/// an operand), the encoder's table maps them to the very instruction that
/// was rendered; a register operand and a byte operand of `put_byte` are
/// told apart by the operand itself.
#[verifier::spinoff_prover]
#[verifier::rlimit(50)]
pub proof fn lemma_one_operand_render_reassembles(i: Instr, m: Seq<char>, ops: Seq<Operand>, addr: u16, syms: SymMap)
    requires
        bus_form(i),
        i is GetByte || i is GetAlert || i is PutByteReg || i is Halt || i is PutByteImm || i is TarImm || i is TarReg,
        ops.len() == 1,
        no_separator(m),
        plain_operand(ops[0]),
        spec_render(i) == m + " "@ + operand_text(ops[0]),
    ensures
        spec_encode_line(m, ops, addr, syms) == Some(seq![i]),
{
    match i {
        Instr::GetByte(r) => {
            reveal_strlit("get_byte ");
            reveal_strlit("get_byte");
            reveal_strlit(" ");
            assert(no_separator("get_byte"@));
            assert("get_byte "@ =~= "get_byte"@ + " "@);
            assert(spec_render(i) == "get_byte "@ + spec_rn(r));
            lemma_one_operand("get_byte"@, spec_rn(r), m, operand_text(ops[0]));
            lemma_reg_operand(r, ops[0]);
            assert(spec_is_register(ops[0]));
            reveal_strlit("li");
            reveal_strlit("cs_assert");
            reveal_strlit("cs_deassert");
            reveal_strlit("rst_assert");
            reveal_strlit("rst_deassert");
            reveal_strlit("crc_reset");
            reveal_strlit("put_byte");
            reveal_strlit("get_byte");
            assert("get_byte"@.len() != "li"@.len());
            assert("get_byte"@.len() != "cs_assert"@.len());
            assert("get_byte"@.len() != "cs_deassert"@.len());
            assert("get_byte"@.len() != "rst_assert"@.len());
            assert("get_byte"@.len() != "rst_deassert"@.len());
            assert("get_byte"@.len() != "crc_reset"@.len());
            assert("get_byte"@[0] != "put_byte"@[0]);
        },
        Instr::GetAlert(r) => {
            reveal_strlit("get_alert ");
            reveal_strlit("get_alert");
            reveal_strlit(" ");
            assert(no_separator("get_alert"@));
            assert("get_alert "@ =~= "get_alert"@ + " "@);
            assert(spec_render(i) == "get_alert "@ + spec_rn(r));
            lemma_one_operand("get_alert"@, spec_rn(r), m, operand_text(ops[0]));
            lemma_reg_operand(r, ops[0]);
            assert(spec_is_register(ops[0]));
            reveal_strlit("li");
            reveal_strlit("cs_assert");
            reveal_strlit("cs_deassert");
            reveal_strlit("rst_assert");
            reveal_strlit("rst_deassert");
            reveal_strlit("crc_reset");
            reveal_strlit("put_byte");
            reveal_strlit("get_byte");
            reveal_strlit("put_bits");
            reveal_strlit("get_bits");
            reveal_strlit("tar");
            reveal_strlit("get_alert");
            assert("get_alert"@.len() != "li"@.len());
            assert("get_alert"@[0] != "cs_assert"@[0]);
            assert("get_alert"@.len() != "cs_deassert"@.len());
            assert("get_alert"@.len() != "rst_assert"@.len());
            assert("get_alert"@.len() != "rst_deassert"@.len());
            assert("get_alert"@[0] != "crc_reset"@[0]);
            assert("get_alert"@.len() != "put_byte"@.len());
            assert("get_alert"@.len() != "get_byte"@.len());
            assert("get_alert"@.len() != "put_bits"@.len());
            assert("get_alert"@.len() != "get_bits"@.len());
            assert("get_alert"@.len() != "tar"@.len());
        },
        Instr::PutByteReg(r) => {
            reveal_strlit("put_byte ");
            reveal_strlit("put_byte");
            reveal_strlit(" ");
            assert(no_separator("put_byte"@));
            assert("put_byte "@ =~= "put_byte"@ + " "@);
            assert(spec_render(i) == "put_byte "@ + spec_rn(r));
            lemma_one_operand("put_byte"@, spec_rn(r), m, operand_text(ops[0]));
            lemma_reg_operand(r, ops[0]);
            assert(spec_is_register(ops[0]));
            reveal_strlit("li");
            reveal_strlit("cs_assert");
            reveal_strlit("cs_deassert");
            reveal_strlit("rst_assert");
            reveal_strlit("rst_deassert");
            reveal_strlit("crc_reset");
            reveal_strlit("put_byte");
            assert("put_byte"@.len() != "li"@.len());
            assert("put_byte"@.len() != "cs_assert"@.len());
            assert("put_byte"@.len() != "cs_deassert"@.len());
            assert("put_byte"@.len() != "rst_assert"@.len());
            assert("put_byte"@.len() != "rst_deassert"@.len());
            assert("put_byte"@.len() != "crc_reset"@.len());
        },
        Instr::Halt(b) => {
            reveal_strlit("halt ");
            reveal_strlit("halt");
            reveal_strlit(" ");
            assert(no_separator("halt"@));
            assert("halt "@ =~= "halt"@ + " "@);
            assert(spec_render(i) == "halt "@ + spec_dec(b as nat));
            lemma_one_operand("halt"@, spec_dec(b as nat), m, operand_text(ops[0]));
            lemma_sdec_text(b as int);
            lemma_num_operand(b as int, ops[0]);
            assert(!spec_is_register(ops[0]));
            assert(spec_field_u8(ops[0], syms) == Some(b));
            reveal_strlit("li");
            reveal_strlit("cs_assert");
            reveal_strlit("cs_deassert");
            reveal_strlit("rst_assert");
            reveal_strlit("rst_deassert");
            reveal_strlit("crc_reset");
            reveal_strlit("put_byte");
            reveal_strlit("get_byte");
            reveal_strlit("put_bits");
            reveal_strlit("get_bits");
            reveal_strlit("tar");
            reveal_strlit("get_alert");
            reveal_strlit("halt");
            assert("halt"@.len() != "li"@.len());
            assert("halt"@.len() != "cs_assert"@.len());
            assert("halt"@.len() != "cs_deassert"@.len());
            assert("halt"@.len() != "rst_assert"@.len());
            assert("halt"@.len() != "rst_deassert"@.len());
            assert("halt"@.len() != "crc_reset"@.len());
            assert("halt"@.len() != "put_byte"@.len());
            assert("halt"@.len() != "get_byte"@.len());
            assert("halt"@.len() != "put_bits"@.len());
            assert("halt"@.len() != "get_bits"@.len());
            assert("halt"@.len() != "tar"@.len());
            assert("halt"@.len() != "get_alert"@.len());
        },
        Instr::PutByteImm(b) => {
            reveal_strlit("put_byte ");
            reveal_strlit("put_byte");
            reveal_strlit(" ");
            assert(no_separator("put_byte"@));
            assert("put_byte "@ =~= "put_byte"@ + " "@);
            assert(spec_render(i) == "put_byte "@ + spec_dec(b as nat));
            lemma_one_operand("put_byte"@, spec_dec(b as nat), m, operand_text(ops[0]));
            lemma_sdec_text(b as int);
            lemma_num_operand(b as int, ops[0]);
            assert(!spec_is_register(ops[0]));
            assert(spec_field_u8(ops[0], syms) == Some(b));
            reveal_strlit("li");
            reveal_strlit("cs_assert");
            reveal_strlit("cs_deassert");
            reveal_strlit("rst_assert");
            reveal_strlit("rst_deassert");
            reveal_strlit("crc_reset");
            reveal_strlit("put_byte");
            assert("put_byte"@.len() != "li"@.len());
            assert("put_byte"@.len() != "cs_assert"@.len());
            assert("put_byte"@.len() != "cs_deassert"@.len());
            assert("put_byte"@.len() != "rst_assert"@.len());
            assert("put_byte"@.len() != "rst_deassert"@.len());
            assert("put_byte"@.len() != "crc_reset"@.len());
        },
        Instr::TarReg(r) => {
            reveal_strlit("tar ");
            reveal_strlit("tar");
            reveal_strlit(" ");
            assert(no_separator("tar"@));
            assert("tar "@ =~= "tar"@ + " "@);
            assert(spec_render(i) == "tar "@ + spec_rn(r));
            lemma_one_operand("tar"@, spec_rn(r), m, operand_text(ops[0]));
            lemma_reg_operand(r, ops[0]);
            assert(spec_is_register(ops[0]));
            reveal_strlit("li");
            reveal_strlit("cs_assert");
            reveal_strlit("cs_deassert");
            reveal_strlit("rst_assert");
            reveal_strlit("rst_deassert");
            reveal_strlit("crc_reset");
            reveal_strlit("put_byte");
            reveal_strlit("get_byte");
            reveal_strlit("put_bits");
            reveal_strlit("get_bits");
            reveal_strlit("tar");
            assert("tar"@.len() != "li"@.len());
            assert("tar"@.len() != "cs_assert"@.len());
            assert("tar"@.len() != "cs_deassert"@.len());
            assert("tar"@.len() != "rst_assert"@.len());
            assert("tar"@.len() != "rst_deassert"@.len());
            assert("tar"@.len() != "crc_reset"@.len());
            assert("tar"@.len() != "put_byte"@.len());
            assert("tar"@.len() != "get_byte"@.len());
            assert("tar"@.len() != "put_bits"@.len());
            assert("tar"@.len() != "get_bits"@.len());
        },
        Instr::TarImm(t) => {
            reveal_strlit("tar ");
            reveal_strlit("tar");
            reveal_strlit(" ");
            assert(no_separator("tar"@));
            assert("tar "@ =~= "tar"@ + " "@);
            assert(spec_render(i) == "tar "@ + spec_dec(t.value() as nat));
            lemma_one_operand("tar"@, spec_dec(t.value() as nat), m, operand_text(ops[0]));
            lemma_sdec_text(t.value() as int);
            lemma_num_operand(t.value() as int, ops[0]);
            assert(!spec_is_register(ops[0]));
            Tar4::lemma_value_determines(t);
            assert(spec_field_tar4(ops[0], syms) == Some(t));
            reveal_strlit("li");
            reveal_strlit("cs_assert");
            reveal_strlit("cs_deassert");
            reveal_strlit("rst_assert");
            reveal_strlit("rst_deassert");
            reveal_strlit("crc_reset");
            reveal_strlit("put_byte");
            reveal_strlit("get_byte");
            reveal_strlit("put_bits");
            reveal_strlit("get_bits");
            reveal_strlit("tar");
            assert("tar"@.len() != "li"@.len());
            assert("tar"@.len() != "cs_assert"@.len());
            assert("tar"@.len() != "cs_deassert"@.len());
            assert("tar"@.len() != "rst_assert"@.len());
            assert("tar"@.len() != "rst_deassert"@.len());
            assert("tar"@.len() != "crc_reset"@.len());
            assert("tar"@.len() != "put_byte"@.len());
            assert("tar"@.len() != "get_byte"@.len());
            assert("tar"@.len() != "put_bits"@.len());
            assert("tar"@.len() != "get_bits"@.len());
        },
        _ => {},
    }
}


/// Assembling the text of a two-operand bus instruction (`mark`,
/// `put_bits`, `get_bits`) gives it back: whatever mnemonic and operands its
/// rendering is read as, the encoder's table maps them to the very
/// instruction rendered, with its operands in the order written.
#[verifier::spinoff_prover]
#[verifier::rlimit(50)]
pub proof fn lemma_two_operand_bus_render_reassembles(i: Instr, m: Seq<char>, ops: Seq<Operand>, addr: u16, syms: SymMap)
    requires
        bus_form(i),
        i is Mark || i is PutBitsImm || i is PutBitsReg || i is GetBits,
        ops.len() == 2,
        no_separator(m),
        plain_operand(ops[0]),
        plain_operand(ops[1]),
        spec_render(i) == m + " "@ + operand_text(ops[0]) + ", "@ + operand_text(ops[1]),
    ensures
        spec_encode_line(m, ops, addr, syms) == Some(seq![i]),
{
    match i {
        Instr::Mark(tag, r) => {
            reveal_strlit("mark ");
            reveal_strlit("mark");
            reveal_strlit(" ");
            assert(no_separator("mark"@));
            assert("mark "@ =~= "mark"@ + " "@);
            assert(spec_render(i) == "mark "@ + spec_dec(tag.value() as nat) + ", "@ + spec_rn(r));
            lemma_plain_text(ops[0]);
            lemma_sdec_text(tag.value() as int);
            lemma_two_operands("mark"@, spec_dec(tag.value() as nat), spec_rn(r), m, operand_text(ops[0]), operand_text(ops[1]));
            lemma_num_operand(tag.value() as int, ops[0]);
            lemma_reg_operand(r, ops[1]);
            Imm11::lemma_value_determines(tag);
            assert(spec_field_mark_tag(ops[0], syms) == Some(tag));
            reveal_strlit("li");
            reveal_strlit("cs_assert");
            reveal_strlit("cs_deassert");
            reveal_strlit("rst_assert");
            reveal_strlit("rst_deassert");
            reveal_strlit("crc_reset");
            reveal_strlit("put_byte");
            reveal_strlit("get_byte");
            reveal_strlit("put_bits");
            reveal_strlit("get_bits");
            reveal_strlit("tar");
            reveal_strlit("get_alert");
            reveal_strlit("halt");
            reveal_strlit("wait_on");
            reveal_strlit("set_config");
            reveal_strlit("mark");
            assert("mark"@.len() != "li"@.len());
            assert("mark"@.len() != "cs_assert"@.len());
            assert("mark"@.len() != "cs_deassert"@.len());
            assert("mark"@.len() != "rst_assert"@.len());
            assert("mark"@.len() != "rst_deassert"@.len());
            assert("mark"@.len() != "crc_reset"@.len());
            assert("mark"@.len() != "put_byte"@.len());
            assert("mark"@.len() != "get_byte"@.len());
            assert("mark"@.len() != "put_bits"@.len());
            assert("mark"@.len() != "get_bits"@.len());
            assert("mark"@.len() != "tar"@.len());
            assert("mark"@.len() != "get_alert"@.len());
            assert("mark"@[0] != "halt"@[0]);
            assert("mark"@.len() != "wait_on"@.len());
            assert("mark"@.len() != "set_config"@.len());
        },
        Instr::PutBitsImm(n, b) => {
            reveal_strlit("put_bits ");
            reveal_strlit("put_bits");
            reveal_strlit(" ");
            assert(no_separator("put_bits"@));
            assert("put_bits "@ =~= "put_bits"@ + " "@);
            assert(spec_render(i) == "put_bits "@ + spec_dec(n.value() as nat) + ", "@ + spec_dec(b as nat));
            lemma_plain_text(ops[0]);
            lemma_sdec_text(n.value() as int);
            lemma_two_operands("put_bits"@, spec_dec(n.value() as nat), spec_dec(b as nat), m, operand_text(ops[0]), operand_text(ops[1]));
            lemma_num_operand(n.value() as int, ops[0]);
            lemma_sdec_text(b as int);
            lemma_num_operand(b as int, ops[1]);
            BitCount::lemma_value_determines(n);
            assert(!spec_is_register(ops[0]));
            assert(spec_field_bitcount(ops[0], syms) == Some(n));
            assert(spec_field_u8(ops[1], syms) == Some(b));
            reveal_strlit("li");
            reveal_strlit("cs_assert");
            reveal_strlit("cs_deassert");
            reveal_strlit("rst_assert");
            reveal_strlit("rst_deassert");
            reveal_strlit("crc_reset");
            reveal_strlit("put_byte");
            reveal_strlit("get_byte");
            reveal_strlit("put_bits");
            assert("put_bits"@.len() != "li"@.len());
            assert("put_bits"@.len() != "cs_assert"@.len());
            assert("put_bits"@.len() != "cs_deassert"@.len());
            assert("put_bits"@.len() != "rst_assert"@.len());
            assert("put_bits"@.len() != "rst_deassert"@.len());
            assert("put_bits"@.len() != "crc_reset"@.len());
            assert("put_bits"@[5] != "put_byte"@[5]);
            assert("put_bits"@[0] != "get_byte"@[0]);
        },
        Instr::PutBitsReg(r, n) => {
            reveal_strlit("put_bits ");
            reveal_strlit("put_bits");
            reveal_strlit(" ");
            assert(no_separator("put_bits"@));
            assert("put_bits "@ =~= "put_bits"@ + " "@);
            assert(spec_render(i) == "put_bits "@ + spec_rn(r) + ", "@ + spec_dec(n.value() as nat));
            lemma_plain_text(ops[0]);
            lemma_rn_plain(r);
            lemma_two_operands("put_bits"@, spec_rn(r), spec_dec(n.value() as nat), m, operand_text(ops[0]), operand_text(ops[1]));
            lemma_reg_operand(r, ops[0]);
            lemma_sdec_text(n.value() as int);
            lemma_num_operand(n.value() as int, ops[1]);
            BitCount::lemma_value_determines(n);
            assert(spec_is_register(ops[0]));
            assert(spec_field_bitcount(ops[1], syms) == Some(n));
            reveal_strlit("li");
            reveal_strlit("cs_assert");
            reveal_strlit("cs_deassert");
            reveal_strlit("rst_assert");
            reveal_strlit("rst_deassert");
            reveal_strlit("crc_reset");
            reveal_strlit("put_byte");
            reveal_strlit("get_byte");
            reveal_strlit("put_bits");
            assert("put_bits"@.len() != "li"@.len());
            assert("put_bits"@.len() != "cs_assert"@.len());
            assert("put_bits"@.len() != "cs_deassert"@.len());
            assert("put_bits"@.len() != "rst_assert"@.len());
            assert("put_bits"@.len() != "rst_deassert"@.len());
            assert("put_bits"@.len() != "crc_reset"@.len());
            assert("put_bits"@[5] != "put_byte"@[5]);
            assert("put_bits"@[0] != "get_byte"@[0]);
        },
        Instr::GetBits(r, n) => {
            reveal_strlit("get_bits ");
            reveal_strlit("get_bits");
            reveal_strlit(" ");
            assert(no_separator("get_bits"@));
            assert("get_bits "@ =~= "get_bits"@ + " "@);
            assert(spec_render(i) == "get_bits "@ + spec_rn(r) + ", "@ + spec_dec(n.value() as nat));
            lemma_plain_text(ops[0]);
            lemma_rn_plain(r);
            lemma_two_operands("get_bits"@, spec_rn(r), spec_dec(n.value() as nat), m, operand_text(ops[0]), operand_text(ops[1]));
            lemma_reg_operand(r, ops[0]);
            lemma_sdec_text(n.value() as int);
            lemma_num_operand(n.value() as int, ops[1]);
            BitCount::lemma_value_determines(n);
            assert(spec_field_bitcount(ops[1], syms) == Some(n));
            reveal_strlit("li");
            reveal_strlit("cs_assert");
            reveal_strlit("cs_deassert");
            reveal_strlit("rst_assert");
            reveal_strlit("rst_deassert");
            reveal_strlit("crc_reset");
            reveal_strlit("put_byte");
            reveal_strlit("get_byte");
            reveal_strlit("put_bits");
            reveal_strlit("get_bits");
            assert("get_bits"@.len() != "li"@.len());
            assert("get_bits"@.len() != "cs_assert"@.len());
            assert("get_bits"@.len() != "cs_deassert"@.len());
            assert("get_bits"@.len() != "rst_assert"@.len());
            assert("get_bits"@.len() != "rst_deassert"@.len());
            assert("get_bits"@.len() != "crc_reset"@.len());
            assert("get_bits"@[0] != "put_byte"@[0]);
            assert("get_bits"@[5] != "get_byte"@[5]);
            assert("get_bits"@[0] != "put_bits"@[0]);
        },
        _ => {},
    }
}


/// Assembling the text of a `wait_on` gives it back: whatever mnemonic and
/// operands its rendering is read as, the encoder's table maps them to the
/// very instruction rendered, register, condition and timeout in the order
/// written.
#[verifier::spinoff_prover]
#[verifier::rlimit(50)]
pub proof fn lemma_wait_on_render_reassembles(i: Instr, m: Seq<char>, ops: Seq<Operand>, addr: u16, syms: SymMap)
    requires
        bus_form(i),
        i is WaitOn,
        ops.len() == 3,
        no_separator(m),
        plain_operand(ops[0]),
        plain_operand(ops[1]),
        plain_operand(ops[2]),
        spec_render(i) == m + " "@ + operand_text(ops[0]) + ", "@ + operand_text(ops[1]) + ", "@ + operand_text(
            ops[2],
        ),
    ensures
        spec_encode_line(m, ops, addr, syms) == Some(seq![i]),
{
    match i {
        Instr::WaitOn(r, c, t) => {
            reveal_strlit("wait_on ");
            reveal_strlit("wait_on");
            reveal_strlit(" ");
            assert(no_separator("wait_on"@));
            assert("wait_on "@ =~= "wait_on"@ + " "@);
            let a1 = spec_dec(c.value() as nat);
            let a2 = spec_dec(t.value() as nat);
            assert(spec_render(i) == "wait_on "@ + spec_rn(r) + ", "@ + a1 + ", "@ + a2);
            lemma_rn_plain(r);
            lemma_sdec_text(c.value() as int);
            lemma_sdec_text(t.value() as int);
            lemma_plain_text(ops[0]);
            lemma_plain_text(ops[1]);
            lemma_three_operands(
                "wait_on"@,
                spec_rn(r),
                a1,
                a2,
                m,
                operand_text(ops[0]),
                operand_text(ops[1]),
                operand_text(ops[2]),
            );
            lemma_reg_operand(r, ops[0]);
            lemma_num_operand(c.value() as int, ops[1]);
            lemma_num_operand(t.value() as int, ops[2]);
            WaitCond::lemma_value_determines(c);
            WaitTimeout::lemma_value_determines(t);
            assert(spec_field_wait_cond(ops[1], syms) == Some(c));
            assert(spec_field_wait_timeout(ops[2], syms) == Some(t));
            reveal_strlit("li");
            reveal_strlit("cs_assert");
            reveal_strlit("cs_deassert");
            reveal_strlit("rst_assert");
            reveal_strlit("rst_deassert");
            reveal_strlit("crc_reset");
            reveal_strlit("put_byte");
            reveal_strlit("get_byte");
            reveal_strlit("put_bits");
            reveal_strlit("get_bits");
            reveal_strlit("tar");
            reveal_strlit("get_alert");
            reveal_strlit("halt");
            reveal_strlit("wait_on");
            assert("wait_on"@.len() != "li"@.len());
            assert("wait_on"@.len() != "cs_assert"@.len());
            assert("wait_on"@.len() != "cs_deassert"@.len());
            assert("wait_on"@.len() != "rst_assert"@.len());
            assert("wait_on"@.len() != "rst_deassert"@.len());
            assert("wait_on"@.len() != "crc_reset"@.len());
            assert("wait_on"@.len() != "put_byte"@.len());
            assert("wait_on"@.len() != "get_byte"@.len());
            assert("wait_on"@.len() != "put_bits"@.len());
            assert("wait_on"@.len() != "get_bits"@.len());
            assert("wait_on"@.len() != "tar"@.len());
            assert("wait_on"@.len() != "get_alert"@.len());
            assert("wait_on"@.len() != "halt"@.len());
        },
        _ => {},
    }
}

/// Assembling the text of an `rdsr` gives it back: the special register
/// rendered as `crc` or as its number reads back as that same register.
#[verifier::spinoff_prover]
#[verifier::rlimit(50)]
pub proof fn lemma_rdsr_render_reassembles(i: Instr, m: Seq<char>, ops: Seq<Operand>, addr: u16, syms: SymMap)
    requires
        i matches Instr::Rdsr(r, sr) && r.value() < 16 && sr.value() <= 31,
        ops.len() == 2,
        no_separator(m),
        plain_operand(ops[0]),
        plain_operand(ops[1]),
        spec_render(i) == m + " "@ + operand_text(ops[0]) + ", "@ + operand_text(ops[1]),
    ensures
        spec_single_alu(m, ops, addr, syms) == Some(Some(i)),
        spec_encode_line(m, ops, addr, syms) == Some(seq![i]),
{
    match i {
        Instr::Rdsr(r, sr) => {
            reveal_strlit("rdsr ");
            reveal_strlit("rdsr");
            reveal_strlit(" ");
            reveal_strlit(", ");
            reveal_strlit(", crc");
            reveal_strlit("crc");
            assert(no_separator("rdsr"@));
            assert("rdsr "@ =~= "rdsr"@ + " "@);
            let a1 = if sr.value() == 0 {
                "crc"@
            } else {
                spec_dec(sr.value() as nat)
            };
            assert(", crc"@ =~= ", "@ + "crc"@);
            assert(spec_render(i) =~= "rdsr "@ + spec_rn(r) + ", "@ + a1);
            lemma_rn_plain(r);
            lemma_plain_text(ops[0]);
            lemma_two_operands("rdsr"@, spec_rn(r), a1, m, operand_text(ops[0]), operand_text(ops[1]));
            lemma_reg_operand(r, ops[0]);
            Sr5::lemma_value_determines(sr);
            if sr.value() == 0 {
                match ops[1].kind {
                    OperandKind::Num(v) => {
                        lemma_sdec_text(v as int);
                        assert(operand_text(ops[1])[0] == 'c');
                        if v >= 0 {
                            assert(is_dec_char(operand_text(ops[1])[0]));
                        }
                    },
                    OperandKind::Ident(t) => {
                        assert(spec_lower(t@) =~= "crc"@);
                    },
                }
                assert(spec_resolve_sr(ops[1], syms) == Some(sr));
            } else {
                lemma_sdec_text(sr.value() as int);
                lemma_num_operand(sr.value() as int, ops[1]);
                assert(spec_resolve_sr(ops[1], syms) == Some(sr));
            }
            assert(spec_r_sr(ops, syms) == Some((r, sr)));
            reveal_strlit("load_imm");
            reveal_strlit("lui");
            reveal_strlit("mov");
            reveal_strlit("mv");
            reveal_strlit("add");
            reveal_strlit("sub");
            reveal_strlit("and");
            reveal_strlit("or");
            reveal_strlit("xor");
            reveal_strlit("addi");
            reveal_strlit("andi");
            reveal_strlit("ori");
            reveal_strlit("xori");
            reveal_strlit("sll");
            reveal_strlit("srl");
            reveal_strlit("sra");
            reveal_strlit("rdsr");
            assert("rdsr"@.len() != "load_imm"@.len());
            assert("rdsr"@.len() != "lui"@.len());
            assert("rdsr"@.len() != "mov"@.len());
            assert("rdsr"@.len() != "mv"@.len());
            assert("rdsr"@.len() != "add"@.len());
            assert("rdsr"@.len() != "sub"@.len());
            assert("rdsr"@.len() != "and"@.len());
            assert("rdsr"@.len() != "or"@.len());
            assert("rdsr"@.len() != "xor"@.len());
            assert("rdsr"@[0] != "addi"@[0]);
            assert("rdsr"@[0] != "andi"@[0]);
            assert("rdsr"@.len() != "ori"@.len());
            assert("rdsr"@[0] != "xori"@[0]);
            assert("rdsr"@.len() != "sll"@.len());
            assert("rdsr"@.len() != "srl"@.len());
            assert("rdsr"@.len() != "sra"@.len());
            lemma_not_bus_rdsr(ops, syms);
        },
        _ => {},
    }
}

proof fn lemma_not_bus_rdsr(ops: Seq<Operand>, syms: SymMap)
    ensures
        spec_single_bus("rdsr"@, ops, syms) is None,
        "rdsr"@ != "li"@,
{
    reveal_strlit("li");
    reveal_strlit("cs_assert");
    reveal_strlit("cs_deassert");
    reveal_strlit("rst_assert");
    reveal_strlit("rst_deassert");
    reveal_strlit("crc_reset");
    reveal_strlit("put_byte");
    reveal_strlit("get_byte");
    reveal_strlit("put_bits");
    reveal_strlit("get_bits");
    reveal_strlit("tar");
    reveal_strlit("get_alert");
    reveal_strlit("halt");
    reveal_strlit("wait_on");
    reveal_strlit("set_config");
    reveal_strlit("mark");
    reveal_strlit("rdsr");
    assert("rdsr"@.len() != "li"@.len());
    assert("rdsr"@.len() != "cs_assert"@.len());
    assert("rdsr"@.len() != "cs_deassert"@.len());
    assert("rdsr"@.len() != "rst_assert"@.len());
    assert("rdsr"@.len() != "rst_deassert"@.len());
    assert("rdsr"@.len() != "crc_reset"@.len());
    assert("rdsr"@.len() != "put_byte"@.len());
    assert("rdsr"@.len() != "get_byte"@.len());
    assert("rdsr"@.len() != "put_bits"@.len());
    assert("rdsr"@.len() != "get_bits"@.len());
    assert("rdsr"@.len() != "tar"@.len());
    assert("rdsr"@.len() != "get_alert"@.len());
    assert("rdsr"@[0] != "halt"@[0]);
    assert("rdsr"@.len() != "wait_on"@.len());
    assert("rdsr"@.len() != "set_config"@.len());
    assert("rdsr"@[0] != "mark"@[0]);
}

} // verus!
