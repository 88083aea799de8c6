use tamal::abi::config::{AlertSource, Config, IoMode, Role, Sck};
use tamal::abi::isa::{Amt5, BitCount, Cfg6, Imm11, Imm20, Instr, Reg, ShiftOp, Sr5, Tar4};
use tamal::assembler::diagnostics::{Diagnostic, Severity};
use tamal::assembler::encoder::{
    checked, encode_line, instr_word_count, li_word_count, resolve_imm, resolve_reg, tile_li,
};
use tamal::assembler::lexer::{lex, TokKind};
use tamal::assembler::mnemonics::render_instr;
use tamal::assembler::parser::{parse, Line, LineKind, Operand, OperandKind};
use tamal::assembler::symbol::{assign_addresses, collect_equs, Sym, SymbolTable};
use tamal::assembler::{assemble, assemble_lines};

#[test]
fn builder_sets_fields() {
    let d = Diagnostic::error(3..7, "bad thing").with_label(3..7, "here").with_help("try that");
    assert_eq!(d.severity, Severity::Error);
    assert_eq!(d.message, "bad thing");
    assert_eq!(d.primary, 3..7);
    assert_eq!(d.labels, vec![(3..7, "here".to_string())]);
    assert_eq!(d.help.as_deref(), Some("try that"));
}

fn kinds(src: &str) -> Vec<TokKind> {
    lex(src).unwrap().into_iter().map(|t| t.kind).collect()
}

#[test]
fn numbers_dec_hex_bin_neg() {
    assert_eq!(
        kinds("42 0x64 0b1010 -5"),
        vec![TokKind::Num(42), TokKind::Num(0x64), TokKind::Num(0b1010), TokKind::Num(-5), TokKind::Eof]
    );
}

#[test]
fn idents_directives_punct() {
    assert_eq!(
        kinds("_start: set_config, .equ x5"),
        vec![
            TokKind::Ident("_start".into()),
            TokKind::Colon,
            TokKind::Ident("set_config".into()),
            TokKind::Comma,
            TokKind::Directive("equ".into()),
            TokKind::Ident("x5".into()),
            TokKind::Eof,
        ]
    );
}

#[test]
fn both_comment_chars_and_newlines() {
    assert_eq!(
        kinds("cs_assert # hash comment\nhalt ; semi comment\n"),
        vec![
            TokKind::Ident("cs_assert".into()),
            TokKind::Newline,
            TokKind::Ident("halt".into()),
            TokKind::Newline,
            TokKind::Eof,
        ]
    );
}

#[test]
fn spans_point_at_source() {
    let toks = lex("  put_byte 0x64").unwrap();
    assert_eq!(toks[0].span, 2..10);
    assert_eq!(toks[1].span, 11..15);
}

#[test]
fn bad_number_is_error() {
    let err = lex("0xZZ").unwrap_err();
    assert!(err.message.contains("number"));
}

fn parse_src(src: &str) -> Vec<LineKind> {
    parse(&lex(src).unwrap()).unwrap().into_iter().map(|l| l.kind).collect()
}

#[test]
fn label_on_own_line_then_instr() {
    assert_eq!(
        parse_src("poll:\n  crc_reset\n"),
        vec![
            LineKind::Label("poll".into()),
            LineKind::Instr { mnemonic: "crc_reset".into(), operands: vec![] },
        ]
    );
}

#[test]
fn label_and_instr_same_line() {
    let ls = parse_src("_start: cs_assert\n");
    assert_eq!(ls[0], LineKind::Label("_start".into()));
    assert_eq!(ls[1], LineKind::Instr { mnemonic: "cs_assert".into(), operands: vec![] });
}

#[test]
fn instr_with_operands() {
    let ls = parse_src("beq t0, t1, poll\n");
    match &ls[0] {
        LineKind::Instr { mnemonic, operands } => {
            assert_eq!(mnemonic, "beq");
            assert_eq!(operands.len(), 3);
            assert_eq!(operands[0].kind, OperandKind::Ident("t0".into()));
            assert_eq!(operands[2].kind, OperandKind::Ident("poll".into()));
        }
        other => panic!("expected instr, got {other:?}"),
    }
}

#[test]
fn directive_equ() {
    let ls = parse_src(".equ PUT_IORD1, 0x44\n");
    match &ls[0] {
        LineKind::Directive { name, args } => {
            assert_eq!(name, "equ");
            assert_eq!(args[0].kind, OperandKind::Ident("PUT_IORD1".into()));
            assert_eq!(args[1].kind, OperandKind::Num(0x44));
        }
        other => panic!("expected directive, got {other:?}"),
    }
}

#[test]
fn trailing_comma_is_error() {
    let err = parse(&lex("put_byte 0x64,\n").unwrap()).unwrap_err();
    assert!(err.message.contains("comma"));
}

#[test]
fn number_as_mnemonic_is_error() {
    let err = parse(&lex("42\n").unwrap()).unwrap_err();
    assert!(err.message.contains("label, instruction, or directive"));
}

#[test]
fn insert_and_get() {
    let mut t = SymbolTable::new();
    assert!(t.insert("A", Sym::Equ(7), 0..1).is_ok());
    assert!(t.insert("L", Sym::Label(3), 2..3).is_ok());
    assert_eq!(t.get("A"), Some(Sym::Equ(7)));
    assert_eq!(t.get("L"), Some(Sym::Label(3)));
    assert_eq!(t.get("missing"), None);
}

#[test]
fn duplicate_insert_reports_prior_span() {
    let mut t = SymbolTable::new();
    t.insert("A", Sym::Equ(1), 0..1).unwrap();
    assert_eq!(t.insert("A", Sym::Equ(2), 5..6), Err(0..1));
    assert_eq!(t.get("A"), Some(Sym::Equ(1)));
}

fn lines(src: &str) -> Vec<Line> {
    parse(&lex(src).unwrap()).unwrap()
}

#[test]
fn collect_equs_resolves_in_order() {
    let (t, d) = collect_equs(&lines(".equ A, 0x44\n.equ B, A\n"));
    assert!(d.is_empty());
    assert_eq!(t.get("A"), Some(Sym::Equ(0x44)));
    assert_eq!(t.get("B"), Some(Sym::Equ(0x44)));
}

#[test]
fn collect_equs_reports_duplicate_and_bad_arity() {
    let (_t, d) = collect_equs(&lines(".equ A, 1\n.equ A, 2\n"));
    assert!(d.iter().any(|x| x.message.contains("duplicate")));
    let (_t2, d2) = collect_equs(&lines(".equ A\n"));
    assert!(d2.iter().any(|x| x.message.contains("NAME, VALUE")));
}

#[test]
fn addresses_account_for_li_expansion() {
    let ls = lines("a:\n  li x5, 0x1800\nb:\n  cs_assert\nc:\n");
    let (mut t, d0) = collect_equs(&ls);
    assert!(d0.is_empty());
    let (total, d) = assign_addresses(&ls, &mut t);
    assert!(d.is_empty());
    assert_eq!(t.get("a"), Some(Sym::Label(0)));
    assert_eq!(t.get("b"), Some(Sym::Label(3)));
    assert_eq!(t.get("c"), Some(Sym::Label(4)));
    assert_eq!(total, 4);
}

#[test]
fn duplicate_label_is_reported() {
    let ls = lines("a:\n  cs_assert\na:\n");
    let (mut t, _) = collect_equs(&ls);
    let (_total, d) = assign_addresses(&ls, &mut t);
    assert!(d.iter().any(|x| x.message.contains("duplicate")));
}

fn ident(s: &str) -> Operand {
    Operand { kind: OperandKind::Ident(s.into()), span: 0..s.len() }
}
fn num(n: i64) -> Operand {
    Operand { kind: OperandKind::Num(n), span: 0..1 }
}
fn r(n: u8) -> Reg {
    Reg::new(n).unwrap()
}
fn i11(v: i32) -> Imm11 {
    Imm11::new((v as u32 & 0x7FF) as u16).unwrap()
}

#[test]
fn tile_li_one_word_loadimm() {
    assert_eq!(tile_li(r(5), 0x0F), vec![Instr::LoadImm(r(5), i11(15))]);
    assert_eq!(tile_li(r(5), -1), vec![Instr::LoadImm(r(5), i11(-1))]);
}

#[test]
fn tile_li_two_words_lui_addi() {
    assert_eq!(
        tile_li(r(5), 0x1234),
        vec![Instr::Lui(r(5), Imm20::new(1).unwrap()), Instr::Addi(r(5), r(5), i11(0x234))]
    );
}

#[test]
fn tile_li_near_range_seeds_load_imm_no_lui() {
    assert_eq!(
        tile_li(r(5), 1024),
        vec![Instr::LoadImm(r(5), i11(1023)), Instr::Addi(r(5), r(5), i11(1))]
    );
}

#[test]
fn tile_li_gap_band_three_words() {
    assert_eq!(
        tile_li(r(5), 0x1800),
        vec![
            Instr::Lui(r(5), Imm20::new(2).unwrap()),
            Instr::Addi(r(5), r(5), i11(-1024)),
            Instr::Addi(r(5), r(5), i11(-1024)),
        ]
    );
}

fn reconstruct(seq: &[Instr]) -> i64 {
    let mut acc: i64 = 0;
    for ins in seq {
        match *ins {
            Instr::Lui(_, imm) => acc = (i64::from(imm.bits())) << 12,
            Instr::LoadImm(_, imm) => {
                let s = imm.bits() as i32;
                let sext = if s & 0x400 != 0 { s | !0x7FF } else { s };
                acc = i64::from(sext) & 0xFFFF_FFFF;
            }
            Instr::Addi(_, _, imm) => {
                let s = imm.bits() as i32;
                let sext = if s & 0x400 != 0 { s | !0x7FF } else { s };
                acc = (acc + i64::from(sext)) & 0xFFFF_FFFF;
            }
            _ => panic!("unexpected instr in li tiling"),
        }
    }
    acc
}

#[test]
fn tile_li_worst_case_four_words_reconstructs() {
    let seq = tile_li(r(5), 0x0012_47FF);
    assert_eq!(seq.len(), 4);
    assert_eq!(reconstruct(&seq) as u32, 0x0012_47FF);
}

#[test]
fn tile_li_reconstructs_every_sampled_value() {
    for v in [0i32, 1, -1, 1023, -1024, 1024, -1025, 2047, 2048, -2048, -2049, 4095, 0x7FFF_FFFF, i32::MIN, -0x1000, 0x000F_F800] {
        let seq = tile_li(r(3), v);
        assert!((1..=4).contains(&seq.len()), "{v}");
        assert_eq!(reconstruct(&seq) as u32, v as u32, "{v}");
    }
}

#[test]
fn li_word_count_matches() {
    assert_eq!(li_word_count(0x0F), 1);
    assert_eq!(li_word_count(1024), 2);
    assert_eq!(li_word_count(0x1234), 2);
    assert_eq!(li_word_count(0x1800), 3);
    assert_eq!(li_word_count(0x0012_47FF), 4);
}

#[test]
fn checked_range() {
    assert!(checked(255, 0, 255, &(0..1), "byte").is_ok());
    assert!(checked(256, 0, 255, &(0..1), "byte").is_err());
    assert!(checked(-1, 0, 255, &(0..1), "byte").is_err());
}

#[test]
fn resolve_reg_abi_and_numeric() {
    assert_eq!(resolve_reg(&ident("t0")).unwrap().bits(), 5);
    assert_eq!(resolve_reg(&ident("x5")).unwrap().bits(), 5);
    assert_eq!(resolve_reg(&ident("zero")).unwrap().bits(), 0);
    assert_eq!(resolve_reg(&ident("a5")).unwrap().bits(), 15);
    assert_eq!(resolve_reg(&ident("x+7")).unwrap().bits(), 7);
    assert!(resolve_reg(&ident("xyz")).is_err());
}

#[test]
fn resolve_reg_rejects_x16_plus_with_help() {
    let e = resolve_reg(&ident("a6")).unwrap_err();
    assert!(e.message.contains("x16"));
    assert!(e.help.as_deref().unwrap().contains("x0-x15"));
    assert!(resolve_reg(&ident("x20")).is_err());
    assert!(resolve_reg(&num(5)).is_err());
}

#[test]
fn resolve_imm_num_and_equ_and_errors() {
    let mut t = SymbolTable::new();
    t.insert("K", Sym::Equ(0x0F), 0..1).unwrap();
    t.insert("L", Sym::Label(2), 0..1).unwrap();
    assert_eq!(resolve_imm(&num(42), &t).unwrap(), 42);
    assert_eq!(resolve_imm(&ident("K"), &t).unwrap(), 0x0F);
    assert!(resolve_imm(&ident("L"), &t).unwrap_err().message.contains("label"));
    assert!(resolve_imm(&ident("nope"), &t).unwrap_err().message.contains("undefined"));
}

fn enc(src: &str, addr: u16, syms: &SymbolTable) -> Result<Vec<Instr>, Diagnostic> {
    let ls = parse(&lex(src).unwrap()).unwrap();
    for l in &ls {
        if let LineKind::Instr { mnemonic, operands } = &l.kind {
            return encode_line(mnemonic, operands, &l.span, addr, syms);
        }
    }
    panic!("no instruction in `{src}`");
}

fn empty() -> SymbolTable {
    SymbolTable::new()
}

#[test]
fn bus_and_data_ops() {
    assert_eq!(enc("cs_assert\n", 0, &empty()).unwrap(), vec![Instr::CsAssert]);
    assert_eq!(enc("put_byte 0x64\n", 0, &empty()).unwrap(), vec![Instr::PutByteImm(0x64)]);
    assert_eq!(enc("put_byte t0\n", 0, &empty()).unwrap(), vec![Instr::PutByteReg(r(5))]);
    assert_eq!(enc("get_byte t0\n", 0, &empty()).unwrap(), vec![Instr::GetByte(r(5))]);
    assert_eq!(enc("tar 2\n", 0, &empty()).unwrap(), vec![Instr::TarImm(Tar4::new(2).unwrap())]);
    assert_eq!(enc("halt 0x11\n", 0, &empty()).unwrap(), vec![Instr::Halt(0x11)]);
    assert_eq!(enc("addi t0, t0, 0x0F\n", 0, &empty()).unwrap(), vec![Instr::Addi(r(5), r(5), i11(15))]);
    assert_eq!(
        enc("sra x5, x6, 3\n", 0, &empty()).unwrap(),
        vec![Instr::Shift(r(5), r(6), ShiftOp::Sra, Amt5::new(3).unwrap())]
    );
    assert_eq!(enc("nop\n", 0, &empty()).unwrap(), vec![Instr::Addi(r(0), r(0), i11(0))]);
    assert_eq!(enc("mv t0, t1\n", 0, &empty()).unwrap(), vec![Instr::Mov(r(5), r(6))]);
}

#[test]
fn set_config_v1_and_rejects_non_v1() {
    // controller / x1 / sck20 / alert_pin packs to the payload 0x00.
    assert_eq!(
        enc("set_config controller, x1, sck20, alert_pin\n", 0, &empty()).unwrap(),
        vec![Instr::SetConfig(Cfg6::new(0x00).unwrap())]
    );
    let e = enc("set_config controller, x2, sck20, alert_pin\n", 0, &empty()).unwrap_err();
    assert!(e.message.contains("x2"));
}

#[test]
fn rdsr_crc() {
    assert_eq!(enc("rdsr t2, CRC\n", 0, &empty()).unwrap(), vec![Instr::Rdsr(r(7), Sr5::new(0).unwrap())]);
}

#[test]
fn branches_and_pseudo_offsets() {
    let mut t = empty();
    t.insert("here", Sym::Label(2), 0..1).unwrap();
    assert_eq!(enc("beq t0, t1, here\n", 0, &t).unwrap(), vec![Instr::Beq(r(5), r(6), i11(2))]);
    assert_eq!(enc("j here\n", 5, &t).unwrap(), vec![Instr::Beq(r(0), r(0), i11(-3))]);
    assert_eq!(enc("bnez t2, here\n", 4, &t).unwrap(), vec![Instr::Bne(r(7), r(0), i11(-2))]);
}

#[test]
fn encoder_error_cases() {
    assert!(enc("add x20, x0, x0\n", 0, &empty()).unwrap_err().message.contains("x20"));
    assert!(enc("put_byte 0x100\n", 0, &empty()).unwrap_err().message.contains("range"));
    assert!(enc("frobnicate\n", 0, &empty()).unwrap_err().message.contains("unknown instruction"));
    assert!(enc("beq t0, t1, missing\n", 0, &empty()).unwrap_err().message.contains("undefined label"));
    assert!(enc("call foo\n", 0, &empty()).unwrap_err().help.is_some());
    assert!(enc("li t0, 0x100000000\n", 0, &empty()).unwrap_err().message.contains("32 bits"));
}

#[test]
fn word_count_agrees_with_the_encoding() {
    let t = empty();
    for src in ["li t0, 0x1800\n", "li t0, 5\n", "cs_assert\n", "li t0\n"] {
        let ls = lines(src);
        if let LineKind::Instr { mnemonic, operands } = &ls[0].kind {
            let n = instr_word_count(mnemonic, operands, &t);
            if let Ok(v) = encode_line(mnemonic, operands, &ls[0].span, 0, &t) {
                assert_eq!(v.len(), n as usize);
            } else {
                assert_eq!(n, 1);
            }
        }
    }
}

#[test]
fn assembles_and_encodes_a_small_program() {
    let prog = assemble("_start:\n  cs_assert\n  put_byte 0x64\n  cs_deassert\n  halt 0x00\n").unwrap();
    assert_eq!(prog.instrs.len(), 4);
    assert_eq!(prog.instrs[0], Instr::CsAssert);
    assert_eq!(prog.instrs[1], Instr::PutByteImm(0x64));
    assert_eq!(prog.spans.len(), 4);
}

#[test]
fn collects_multiple_diagnostics() {
    let errs = assemble("  put_byte NOPE\n  add x20, x0, x0\n").unwrap_err();
    assert_eq!(errs.len(), 2);
    assert!(errs.iter().any(|d| d.message.contains("undefined")));
    assert!(errs.iter().any(|d| d.message.contains("x20")));
}

#[test]
fn unsupported_directive_diagnostic() {
    let errs = assemble(".macro foo\n").unwrap_err();
    assert!(errs[0].message.contains("not supported"));
}

#[test]
fn labels_resolve_forward_and_backward() {
    let prog = assemble("top:\n  li t0, 0x1800\n  bnez t0, top\n  beq t0, t0, end\nend:\n  halt 0\n").unwrap();
    // li takes three words, so the bnez sits at 3 and branches back by 3.
    assert_eq!(prog.instrs[3], Instr::Bne(r(5), r(0), i11(-3)));
    assert_eq!(prog.instrs[4], Instr::Beq(r(5), r(5), i11(1)));
    let direct = assemble_lines(&lines("halt 0\n")).unwrap();
    assert_eq!(direct.instrs, vec![Instr::Halt(0)]);
}

#[test]
fn too_long_a_program_is_reported() {
    let src = "cs_assert\n".repeat(1025);
    let errs = assemble(&src).unwrap_err();
    assert!(errs[0].message.contains("1025 words"));
}

#[test]
fn branch_renders_signed_numeric_offset() {
    assert_eq!(render_instr(&Instr::Beq(r(5), r(6), i11(2))), "beq x5, x6, 2");
    assert_eq!(render_instr(&Instr::Bne(r(7), r(0), i11(-2))), "bne x7, x0, -2");
}

#[test]
fn roundtrip_non_branch_mnemonics() {
    let cfg = Config {
        role: Role::Controller,
        io_mode: IoMode::X1,
        sck: Sck::Sck20,
        alert_source: AlertSource::AlertPin,
    };
    let cases = vec![
        Instr::CsAssert,
        Instr::CsDeassert,
        Instr::PutByteImm(0x64),
        Instr::PutByteReg(r(5)),
        Instr::GetByte(r(5)),
        Instr::PutBitsImm(BitCount::new(8).unwrap(), 0xAB),
        Instr::PutBitsReg(r(6), BitCount::new(3).unwrap()),
        Instr::GetBits(r(7), BitCount::new(2).unwrap()),
        Instr::TarImm(Tar4::new(2).unwrap()),
        Instr::TarReg(r(1)),
        Instr::GetAlert(r(5)),
        Instr::Halt(0x11),
        Instr::SetConfig(cfg.pack()),
        Instr::Mark(i11(42), r(5)),
        Instr::LoadImm(r(5), i11(-3)),
        Instr::Lui(r(5), Imm20::new(0x12345).unwrap()),
        Instr::Mov(r(5), r(6)),
        Instr::Add(r(5), r(6), r(7)),
        Instr::Addi(r(5), r(6), i11(-1)),
        Instr::Shift(r(5), r(6), ShiftOp::Sra, Amt5::new(3).unwrap()),
        Instr::Rdsr(r(7), Sr5::new(0).unwrap()),
        Instr::Rdsr(r(7), Sr5::new(5).unwrap()),
    ];
    for c in cases {
        let text = render_instr(&c);
        let prog = assemble(&format!("{text}\n")).unwrap();
        assert_eq!(prog.instrs, vec![c], "round trip of `{text}`");
    }
}

#[test]
fn a_bad_hex_literal_names_the_literal() {
    let e = lex("0xZZ").unwrap_err();
    assert_eq!(e.message, "invalid number literal `0xZZ`");
    assert_eq!(e.primary, 0..4);
}

#[test]
fn a_trailing_comma_points_at_the_line_end() {
    let e = parse(&lex("put_byte 0x64,\n").unwrap()).unwrap_err();
    assert_eq!(e.message, "trailing comma: expected another operand");
    assert_eq!(e.primary, 14..15);
}

#[test]
fn too_long_a_program_says_how_long() {
    let src = "crc_reset\n".repeat(1025);
    let ds = assemble(&src).unwrap_err();
    assert_eq!(
        ds.last().unwrap().message,
        "program is 1025 words; the instruction memory holds at most 1024"
    );
}

#[test]
fn a_cloned_diagnostic_is_equal() {
    let d = Diagnostic::error(1..2, "x").with_label(3..4, "y").with_help("z");
    assert_eq!(d.clone(), d);
}

#[test]
fn an_empty_token_slice_parses_to_no_lines() {
    assert!(parse(&[]).unwrap().is_empty());
}

#[test]
fn a_stream_ending_at_a_newline_parses_without_its_end_token() {
    let mut toks = lex("nop\nhalt 0x00\n").unwrap();
    toks.pop();
    let lines = parse(&toks).unwrap();
    assert_eq!(lines.len(), 2);
    assert!(matches!(&lines[0].kind, LineKind::Instr { mnemonic, operands } if mnemonic == "nop" && operands.is_empty()));
}
