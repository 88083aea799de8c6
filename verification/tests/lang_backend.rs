use tamal::abi::isa::Reg;
use tamal::assembler::diagnostics::Diagnostic;
use tamal::lang::consteval::Env;
use tamal::lang::emit::{emit, MAX_EMITTED_LINES, MAX_EXPANSIONS};
use tamal::lang::parser::{Expr, Module, Stmt, Test};
use tamal::lang::regalloc::RegAlloc;
use tamal::lang::MAX_UNROLL;

fn r(n: u8) -> Reg {
    Reg::new(n).unwrap()
}

#[test]
fn binds_lowest_free_first_and_reuses_after_free() {
    let mut a = RegAlloc::new();
    assert_eq!(a.bind("first".into(), &(0..0)).unwrap(), r(1));
    assert_eq!(a.bind("second".into(), &(0..0)).unwrap(), r(2));
    a.free(r(1));
    assert_eq!(a.temp(&(0..0)).unwrap(), r(1));
}

#[test]
fn lookup_finds_bound_names() {
    let mut a = RegAlloc::new();
    let reg = a.bind("data".into(), &(0..0)).unwrap();
    assert_eq!(a.lookup("data"), Some(reg));
    assert_eq!(a.lookup("nope"), None);
}

#[test]
fn exit_scope_frees_regs_and_names() {
    let mut a = RegAlloc::new();
    a.enter_scope();
    a.bind("inner".into(), &(0..0)).unwrap();
    a.bind("inner2".into(), &(0..0)).unwrap();
    a.exit_scope();
    assert_eq!(a.lookup("inner"), None);
    assert_eq!(a.temp(&(0..0)).unwrap(), r(1));
    assert_eq!(a.temp(&(0..0)).unwrap(), r(2));
}

#[test]
fn never_allocates_x0_and_caps_at_15() {
    let mut a = RegAlloc::new();
    let mut regs = Vec::new();
    for _ in 0..15 {
        regs.push(a.temp(&(0..0)).unwrap());
    }
    assert_eq!(regs.iter().map(|r| r.bits()).collect::<Vec<_>>(), (1..=15).collect::<Vec<u8>>());
    let err = a.temp(&(0..0)).unwrap_err();
    assert!(err.message.contains("out of registers"));
}

#[test]
fn nested_scope_does_not_clobber_a_live_outer_register() {
    let mut a = RegAlloc::new();
    let outer = a.temp(&(0..0)).unwrap();
    a.enter_scope();
    let inner = a.temp(&(0..0)).unwrap();
    assert_ne!(outer, inner);
    assert_eq!(inner, r(2));
    a.exit_scope();
    assert_eq!(a.temp(&(0..0)).unwrap(), r(2));
}

#[test]
fn reserve_retakes_a_register_whose_scope_has_ended() {
    let mut a = RegAlloc::new();
    a.enter_scope();
    let latched = a.temp(&(0..0)).unwrap();
    a.exit_scope();
    a.reserve(latched);
    assert_eq!(a.temp(&(0..0)).unwrap(), r(2), "must not hand out x1 again");
}

#[test]
fn a_reserved_register_is_freed_by_the_scope_that_reserved_it() {
    let mut a = RegAlloc::new();
    a.enter_scope();
    a.enter_scope();
    let latched = a.temp(&(0..0)).unwrap();
    a.exit_scope();
    a.reserve(latched);
    a.exit_scope();
    assert_eq!(a.temp(&(0..0)).unwrap(), r(1), "x1 must be reclaimed");
}

#[test]
fn freeing_an_unissued_or_already_free_register_is_harmless() {
    let mut a = RegAlloc::new();
    a.free(r(1));
    a.free(Reg::new(20).unwrap());
    assert_eq!(a.temp(&(0..0)).unwrap(), r(1));
}

fn one(stmts: Vec<Stmt>) -> Module {
    Module {
        consts: vec![],
        fns: vec![],
        procs: vec![],
        tests: vec![Test { name: "t".into(), name_span: 0..1, stmts }],
    }
}

fn raw(m: &str, ops: &[&str]) -> Stmt {
    Stmt::Raw { mnemonic: m.into(), operands: ops.iter().map(|s| s.to_string()).collect(), span: 0..1 }
}

#[test]
fn emits_entry_and_pass() {
    let text = emit(&one(vec![Stmt::Pass]), Env::new()).unwrap().asm_text;
    assert_eq!(text, ".globl _start\n_start:\n\thalt 0x00\n");
}

#[test]
fn emits_fail_code_verbatim() {
    let text = emit(&one(vec![Stmt::Fail { code: "0x11".into(), span: 0..1 }]), Env::new()).unwrap().asm_text;
    assert_eq!(text, ".globl _start\n_start:\n\thalt 0x11\n");
}

#[test]
fn emits_raw_instructions() {
    let text = emit(&one(vec![raw("cs_assert", &[]), raw("mark", &["1", "x1"]), Stmt::Pass]), Env::new())
        .unwrap()
        .asm_text;
    assert_eq!(text, ".globl _start\n_start:\n\tcs_assert\n\tmark 1, x1\n\thalt 0x00\n");
}

#[test]
fn a_negative_repeat_count_is_rejected() {
    let err = emit(
        &one(vec![Stmt::Repeat {
            count: Expr::Int { value: -1, span: 0..1 },
            body: vec![raw("cs_assert", &[])],
            span: 0..1,
        }]),
        Env::new(),
    )
    .err()
    .expect("a negative count is a diagnostic, not a lowering");
    assert!(err[0].message.contains("not in 0..=1024"), "got: {:?}", err[0]);
}

#[test]
fn a_program_of_exactly_the_budget_compiles_and_one_line_more_does_not() {
    let raws = |n: usize| -> Vec<Stmt> { (0..n).map(|_| raw("cs_assert", &[])).collect() };
    assert!(emit(&one(raws(MAX_EMITTED_LINES - 2)), Env::new()).is_ok());
    assert!(emit(&one(raws(MAX_EMITTED_LINES - 1)), Env::new()).is_err());
}

#[test]
fn exactly_the_expansion_budget_compiles_and_one_expansion_more_does_not() {
    let rep = |n: i64, body: Vec<Stmt>| Stmt::Repeat { count: Expr::Int { value: n, span: 0..1 }, body, span: 0..1 };
    let outer = MAX_UNROLL;
    let inner = MAX_EXPANSIONS as i64 / outer - 1;
    assert_eq!(outer * (1 + inner), MAX_EXPANSIONS as i64);
    assert!(emit(&one(vec![rep(outer, vec![rep(inner, vec![])])]), Env::new()).is_ok());
    assert!(emit(&one(vec![rep(outer, vec![rep(inner, vec![])]), rep(1, vec![])]), Env::new()).is_err());
}

#[test]
fn remap_points_asm_span_at_originating_tam_span() {
    let m = Module {
        consts: vec![],
        fns: vec![],
        procs: vec![],
        tests: vec![Test {
            name: "t".into(),
            name_span: 0..1,
            stmts: vec![Stmt::Raw { mnemonic: "bogus".into(), operands: vec![], span: 40..45 }, Stmt::Pass],
        }],
    };
    let low = emit(&m, Env::new()).unwrap();
    let idx = low.asm_text.find("bogus").expect("emitted the raw mnemonic");
    let d = Diagnostic::error(idx..idx + 5, "unknown instruction");
    let remapped = low.remap(vec![d]);
    assert_eq!(remapped[0].primary, 40..45);
}

#[test]
fn leaving_a_scope_drops_its_names_only() {
    let mut a = RegAlloc::new();
    let outer = a.bind("outer".to_string(), &(0..1)).unwrap();
    a.enter_scope();
    let inner = a.bind("inner".to_string(), &(2..3)).unwrap();
    assert_ne!(outer, inner);
    assert_eq!(a.lookup("inner"), Some(inner));
    a.exit_scope();
    assert_eq!(a.lookup("inner"), None);
    assert_eq!(a.lookup("outer"), Some(outer));
}

#[test]
fn a_repeat_count_past_the_unroll_limit_names_the_count_and_points_at_the_repeat() {
    let err = emit(
        &one(vec![Stmt::Repeat {
            count: Expr::Int { value: 2000, span: 7..11 },
            body: vec![raw("cs_assert", &[])],
            span: 0..20,
        }]),
        Env::new(),
    )
    .err()
    .expect("a count past the limit is a diagnostic");
    assert_eq!(err[0].message, "`repeat` count 2000 is not in 0..=1024");
    assert_eq!(err[0].primary, 0..20);
}

#[test]
fn each_emitted_line_maps_to_the_statement_that_produced_it() {
    let m = one(vec![
        Stmt::Raw { mnemonic: "cs_assert".into(), operands: vec![], span: 10..19 },
        Stmt::Fail { code: "0x11".into(), span: 20..29 },
        Stmt::Pass,
    ]);
    let low = emit(&m, Env::new()).unwrap();
    let tam: Vec<_> = low.lines.iter().map(|l| l.1.clone()).collect();
    assert_eq!(tam, vec![0..1, 0..1, 10..19, 20..29, 0..1]);
    let at = low.lines[3].0.start;
    assert_eq!(low.tam_span(&(at..at + 1)), 20..29);
}
