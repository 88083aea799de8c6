use tamal::abi::isa::{Cfg6, Instr};
use tamal::lang::{compile, lower_to_asm};

#[test]
fn lowers_smoke_to_asm() {
    let text = lower_to_asm("test smoke {\n    pass\n}\n").unwrap();
    assert_eq!(text, ".globl _start\n_start:\n\thalt 0x00\n");
}

#[test]
fn compile_pass_is_one_halt_word() {
    let prog = compile("test smoke {\n    pass\n}\n").unwrap();
    assert_eq!(prog.instrs, vec![Instr::Halt(0)]);
}

#[test]
fn rejects_zero_tests() {
    let err = lower_to_asm("// just a comment\n").unwrap_err();
    assert!(err[0].message.contains("exactly one `test`"));
}

#[test]
fn rejects_multiple_tests() {
    let err = lower_to_asm("test a {\n pass\n}\ntest b {\n pass\n}\n").unwrap_err();
    assert!(err[0].message.contains("exactly one `test`"));
}

#[test]
fn rejects_test_with_no_statements() {
    let err = lower_to_asm("test empty {\n}\n").unwrap_err();
    assert!(err[0].message.contains("never halts"));
}

#[test]
fn rejects_test_that_never_halts() {
    let err = lower_to_asm("test t {\n cs_assert\n}\n").unwrap_err();
    assert!(err[0].message.contains("never halts"));
}

#[test]
fn accepts_raw_halt_as_terminator() {
    let prog = compile("test t {\n halt 0x05\n}\n").unwrap();
    assert_eq!(prog.instrs.len(), 1);
}

#[test]
fn compile_error_points_at_tam_for_bad_raw() {
    let source = "test t {\n bogus_op\n pass\n}\n";
    let err = compile(source).unwrap_err();
    assert_eq!(source.get(err[0].primary.clone()), Some("bogus_op"));
}

#[test]
fn compile_error_points_at_tam_for_out_of_range_fail() {
    let source = "test t {\n fail 300\n}\n";
    let err = compile(source).unwrap_err();
    let pointed = source.get(err[0].primary.clone()).unwrap_or("");
    assert!(pointed.contains("300"), "got {pointed:?}");
}

#[test]
fn resolves_const_referencing_earlier_const() {
    assert!(lower_to_asm("const A = 0x40\nconst B = A\ntest t {\n pass\n}\n").is_ok());
}

#[test]
fn rejects_duplicate_const() {
    let err = lower_to_asm("const A = 1\nconst A = 2\ntest t {\n pass\n}\n").unwrap_err();
    assert!(err[0].message.contains("duplicate const"));
}

#[test]
fn rejects_const_with_unknown_name() {
    let err = lower_to_asm("const A = NOPE\ntest t {\n pass\n}\n").unwrap_err();
    assert!(err[0].message.contains("unknown name"));
}

#[test]
fn send_lowers_to_put_byte_run() {
    let text = lower_to_asm("const OP = 0x44\ntest t {\n send [OP, 0x00, 0x64]\n pass\n}\n").unwrap();
    assert!(text.contains("put_byte 0x44"));
    assert!(text.contains("put_byte 0x00"));
    assert!(text.contains("put_byte 0x64"));
}

#[test]
fn send_plus_crc8_appends_folded_byte() {
    let text = lower_to_asm("test t {\n send [0x44, 0x00, 0x64] + crc8\n pass\n}\n").unwrap();
    assert!(text.contains("put_byte 0x16"));
}

#[test]
fn config_lowers_to_set_config() {
    let text = lower_to_asm("test t {\n config controller, x1, sck20, alert_pin\n pass\n}\n").unwrap();
    assert!(text.contains("\tset_config controller, x1, sck20, alert_pin\n"), "got:\n{text}");
}

#[test]
fn config_assembles_to_the_v1_config_word() {
    let prog = compile("test t {\n config controller, x1, sck20, alert_pin\n pass\n}\n").unwrap();
    assert_eq!(prog.instrs[0], Instr::SetConfig(Cfg6::new(0x00).unwrap()));
}

#[test]
fn crc_region_folds_over_all_emitted_bytes() {
    let text = lower_to_asm("test t {\n crc_region {\n  send [0x44]\n  send [0x00, 0x64]\n }\n pass\n}\n").unwrap();
    assert!(text.contains("put_byte 0x44"));
    assert!(text.contains("put_byte 0x64"));
    assert!(text.contains("put_byte 0x16"));
}

#[test]
fn frame_wraps_body_in_cs_assert_deassert() {
    let text = lower_to_asm("test t {\n frame {\n  tar 2\n }\n pass\n}\n").unwrap();
    assert_eq!(text, ".globl _start\n_start:\n\tcs_assert\n\ttar 2\n\tcs_deassert\n\thalt 0x00\n");
}

#[test]
fn recv_names_allocate_ascending_registers() {
    let text = lower_to_asm("test t {\n recv a, b, c\n pass\n}\n").unwrap();
    assert!(text.contains("\tget_byte x1\n"), "got:\n{text}");
    assert!(text.contains("\tget_byte x2\n"), "got:\n{text}");
    assert!(text.contains("\tget_byte x3\n"), "got:\n{text}");
}

#[test]
fn recv_discards_reuse_the_same_scratch_register() {
    let text = lower_to_asm("test t {\n recv _, _, _\n pass\n}\n").unwrap();
    assert_eq!(text, ".globl _start\n_start:\n\tget_byte x1\n\tget_byte x1\n\tget_byte x1\n\thalt 0x00\n");
}

#[test]
fn frame_scope_frees_recv_registers_on_exit() {
    let text = lower_to_asm("test t {\n frame {\n  recv a, b\n }\n recv c, d\n pass\n}\n").unwrap();
    let gets: Vec<&str> = text.lines().filter(|l| l.contains("get_byte")).collect();
    assert_eq!(gets, vec!["\tget_byte x1", "\tget_byte x2", "\tget_byte x1", "\tget_byte x2"]);
}

#[test]
fn wait_state_lowers_to_the_poll_idiom() {
    let text = lower_to_asm("test t {\n wait_state\n pass\n}\n").unwrap();
    assert_eq!(
        text,
        ".globl _start\n_start:\n\
         __wait0:\n\tcrc_reset\n\tget_byte x1\n\tli x2, 0x0F\n\tbeq x1, x2, __wait0\n\
         \thalt 0x00\n"
    );
}

#[test]
fn named_wait_state_keeps_the_terminal_byte_bound() {
    let text = lower_to_asm("test t {\n wait_state term\n recv d\n pass\n}\n").unwrap();
    let gets: Vec<&str> = text.lines().filter(|l| l.contains("get_byte")).collect();
    assert_eq!(gets, vec!["\tget_byte x1", "\tget_byte x2"]);
}

#[test]
fn expect_crc_defers_the_verdict_past_cs_deassert() {
    let text = lower_to_asm("test t {\n frame {\n  expect crc else 0x11\n }\n pass\n}\n").unwrap();
    assert_eq!(
        text,
        ".globl _start\n_start:\n\
         \tcs_assert\n\
         \tget_byte x1\n\trdsr x1, crc\n\
         \tcs_deassert\n\
         \tbnez x1, __fail0\n\
         \thalt 0x00\n\
         __fail0:\n\thalt 0x11\n"
    );
}

#[test]
fn expect_crc_outside_a_frame_is_an_error() {
    let err = lower_to_asm("test t {\n expect crc else 0x11\n pass\n}\n").unwrap_err();
    assert!(err[0].message.contains("inside a `frame`"), "got: {:?}", err[0].message);
}

#[test]
fn expect_requires_the_crc_keyword() {
    let err = lower_to_asm("test t {\n frame {\n  expect foo else 0x11\n }\n pass\n}\n").unwrap_err();
    assert!(err[0].message.contains("expected `crc`"), "got: {:?}", err[0].message);
}

#[test]
fn expect_requires_the_else_keyword() {
    let err = lower_to_asm("test t {\n frame {\n  expect crc then 0x11\n }\n pass\n}\n").unwrap_err();
    assert!(err[0].message.contains("`else <byte>`"), "got: {:?}", err[0].message);
}

#[test]
fn config_inside_a_frame_is_rejected() {
    let err = lower_to_asm("test t {\n frame {\n  config controller, x1, sck20, alert_pin\n }\n pass\n}\n").unwrap_err();
    assert!(err[0].message.contains("not allowed inside a `frame`"), "got: {:?}", err[0].message);
}

#[test]
fn fn_call_folds_to_its_returned_value() {
    let text = lower_to_asm(
        "fn iord_hdr(op: byte, addr: int) -> bytes { [op, hi(addr), lo(addr)] }\n\
         test t {\n send iord_hdr(0x44, 0x0064) + crc8\n pass\n}\n",
    )
    .unwrap();
    assert_eq!(
        text,
        ".globl _start\n_start:\n\
         \tput_byte 0x44\n\tput_byte 0x00\n\tput_byte 0x64\n\tput_byte 0x16\n\
         \thalt 0x00\n"
    );
}

#[test]
fn a_const_can_call_a_fn() {
    let text = lower_to_asm(
        "fn iord_hdr(op: byte, addr: int) -> bytes { [op, hi(addr), lo(addr)] }\n\
         const HDR = iord_hdr(0x44, 0x0064)\n\
         test t {\n send HDR + crc8\n pass\n}\n",
    )
    .unwrap();
    assert!(text.contains("\tput_byte 0x16\n"), "got:\n{text}");
}

#[test]
fn a_recursive_fn_is_rejected() {
    let err = lower_to_asm("fn f(n: int) -> int { f(n) }\ntest t {\n send [f(1)]\n pass\n}\n").unwrap_err();
    assert!(err[0].message.contains("is already being expanded"), "got: {:?}", err[0]);
}

#[test]
fn mutual_recursion_between_fns_is_rejected() {
    let err = lower_to_asm(
        "fn f(n: int) -> int { g(n) }\n\
         fn g(n: int) -> int { f(n) }\n\
         test t {\n send [f(1)]\n pass\n}\n",
    )
    .unwrap_err();
    assert!(err[0].message.contains("is already being expanded"), "got: {:?}", err[0]);
}

#[test]
fn a_self_referential_parameter_default_is_rejected() {
    let err = lower_to_asm("fn f(n: int = f()) -> int { n }\ntest t {\n send [f()]\n pass\n}\n").unwrap_err();
    assert!(err[0].message.contains("is already being expanded"), "got: {:?}", err[0]);
}

#[test]
fn a_default_cycle_between_two_fns_is_rejected() {
    let err = lower_to_asm(
        "fn f(n: int = g()) -> int { n }\n\
         fn g(m: int = f()) -> int { m }\n\
         test t {\n send [f()]\n pass\n}\n",
    )
    .unwrap_err();
    assert!(err[0].message.contains("is already being expanded"), "got: {:?}", err[0]);
}

#[test]
fn nested_calls_to_the_same_fn_are_legal() {
    let text = lower_to_asm("fn f(n: int) -> int { n ^ 0x10 }\ntest t {\n send [f(f(1))]\n pass\n}\n").unwrap();
    assert_eq!(text, ".globl _start\n_start:\n\tput_byte 0x01\n\thalt 0x00\n");
}

#[test]
fn a_default_may_call_a_different_fn() {
    let text = lower_to_asm(
        "fn base() -> int { 0x40 }\n\
         fn f(n: int = base()) -> int { n }\n\
         test t {\n send [f()]\n pass\n}\n",
    )
    .unwrap();
    assert_eq!(text, ".globl _start\n_start:\n\tput_byte 0x40\n\thalt 0x00\n");
}

#[test]
fn a_fn_body_must_produce_its_declared_type() {
    let err = lower_to_asm("fn bad(n: int) -> bytes { n }\ntest t {\n send bad(5)\n pass\n}\n").unwrap_err();
    assert!(err[0].message.contains("expects `bytes`"), "got: {:?}", err[0]);
}

#[test]
fn a_fn_may_not_shadow_a_builtin_or_repeat_a_name() {
    let shadow = lower_to_asm("fn crc8(b: bytes) -> byte { 0 }\ntest t {\n pass\n}\n").unwrap_err();
    assert!(shadow[0].message.contains("builtin"), "got: {:?}", shadow[0]);
    let dup = lower_to_asm("fn f(n: int) -> int { n }\nfn f(n: int) -> int { n }\ntest t {\n pass\n}\n").unwrap_err();
    assert!(dup[0].message.contains("duplicate fn"), "got: {:?}", dup[0]);
}

#[test]
fn a_fn_argument_resolves_in_the_calling_fns_scope() {
    let text = lower_to_asm(
        "fn lo_byte(n: int) -> byte { lo(n) }\n\
         fn hdr(addr: int) -> bytes { [0x44, hi(addr), lo_byte(addr)] }\n\
         test t {\n send hdr(0x0064)\n pass\n}\n",
    )
    .unwrap();
    assert_eq!(
        text,
        ".globl _start\n_start:\n\
         \tput_byte 0x44\n\tput_byte 0x00\n\tput_byte 0x64\n\
         \thalt 0x00\n"
    );
}

#[test]
fn a_second_test_is_pointed_at() {
    let err = lower_to_asm("test a {\n    pass\n}\ntest b {\n    pass\n}\n").unwrap_err();
    assert_eq!(err.len(), 1);
    assert_eq!(err[0].message, "a .tam file must contain exactly one `test` (found 2)");
    assert_eq!(err[0].primary, 25..26);
}

#[test]
fn an_empty_file_has_no_test() {
    let err = lower_to_asm("// nothing here\n").unwrap_err();
    assert_eq!(err[0].message, "a .tam file must contain exactly one `test` (found 0)");
    assert_eq!(err[0].primary, 0..0);
}

#[test]
fn an_unknown_item_word_is_named() {
    let err = lower_to_asm("widget w {}\n").unwrap_err();
    assert_eq!(err[0].message, "expected `const`, `fn`, `proc`, or `test`, found `widget`");
    assert_eq!(err[0].primary, 0..6);
}

#[test]
fn a_raw_li_takes_the_words_its_tiling_needs() {
    let prog = compile("test probe {\n    li x1, 0xDEAD\n    mark 1, x1\n    pass\n}\n").unwrap();
    assert_eq!(prog.instrs.len(), 4);
}
