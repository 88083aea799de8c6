//! The compiler for tamal-lang, a small test language that lowers to tamal
//! assembly text and, through the assembler, to tamal instructions.
pub mod consteval;
pub mod emit;
pub mod lexer;
pub mod parser;
pub mod regalloc;

pub use emit::{Lowering, MAX_UNROLL};

use vstd::prelude::*;
use vstd::string::StringSliceAdditionalSpecFns;
use vstd::utf8::encode_utf8;

use crate::assembler::diagnostics::{span_copy, Diagnostic};
use crate::assembler::diagnostics::Span;
use crate::assembler::lexer::Token as AsmToken;
use crate::assembler::parser::Line;
use crate::assembler::{
    assemble, assembles_cleanly, failure_of, lexes_to, parses_to, spec_error_count, spec_program, Program,
};
use crate::lang::consteval::{
    assoc, builtin, distinct_fns, eval, fn_index, is_builtin, lemma_fn_index_found, spec_eval, Env, Scope, Val,
};
use crate::lang::emit::{
    lemma_plain_straight, map_ok, spec_tam_span, straight_body_spans, tam_of, straight_body_count, straight_body_text, MAX_EMITTED_LINES,
};
use crate::lang::parser::{
    lemma_simple_kinds, module_items, one_simple_test, one_test_stmts, parse, word_at, Const, FnDef, Module, Stmt, Test,
};
use crate::text::{push_dec, spec_dec, str_eq};

verus! {

/// A statement that ends the program: `pass`, `fail`, or a raw `halt`.
pub open spec fn is_terminator(s: Stmt) -> bool {
    match s {
        Stmt::Pass => true,
        Stmt::Fail { .. } => true,
        Stmt::Raw { mnemonic, .. } => mnemonic@ == "halt"@,
        _ => false,
    }
}

/// Some statement of a body ends the program.
pub open spec fn halts(stmts: Seq<Stmt>) -> bool {
    exists|k: int| 0 <= k < stmts.len() && is_terminator(#[trigger] stmts[k])
}

fn has_terminator(stmts: &Vec<Stmt>) -> (res: bool)
    ensures
        res == halts(stmts@),
{
    let mut k: usize = 0;
    while k < stmts.len()
        invariant
            k <= stmts@.len(),
            forall|j: int| 0 <= j < k ==> !is_terminator(#[trigger] stmts@[j]),
        decreases stmts@.len() - k,
    {
        let t = match &stmts[k] {
            Stmt::Pass => true,
            Stmt::Fail { .. } => true,
            Stmt::Raw { mnemonic, .. } => str_eq(mnemonic.as_str(), "halt"),
            _ => false,
        };
        if t {
            return true;
        }
        k = k + 1;
    }
    false
}

/// No `fn` takes a builtin's name, and no two share a name.
pub open spec fn fns_ok(fns: Seq<FnDef>) -> bool {
    &&& forall|k: int| 0 <= k < fns.len() ==> !is_builtin(#[trigger] fns[k].name@)
    &&& distinct_fns(fns)
}

/// The first `n` `const`s resolved in order against the `fn`s `fns`: each
/// name new, each value evaluated in the scope of the ones above it; `None`
/// at the first that fails.
pub open spec fn const_scope(fns: Seq<FnDef>, consts: Seq<Const>, n: int) -> Option<Scope>
    decreases n,
{
    if n <= 0 {
        Some(Seq::empty())
    } else {
        match const_scope(fns, consts, n - 1) {
            None => None,
            Some(sc) => if assoc(sc, consts[n - 1].name@) is Some {
                None
            } else {
                match spec_eval(sc, fns, Seq::empty(), Seq::empty(), consts[n - 1].value) {
                    Ok(v) => Some(sc.push((consts[n - 1].name@, v))),
                    Err(_) => None,
                }
            },
        }
    }
}

/// Once resolving the `const`s fails, it stays failed.
pub proof fn lemma_const_scope_fails(fns: Seq<FnDef>, consts: Seq<Const>, a: int, b: int)
    requires
        a <= b,
        const_scope(fns, consts, a) is None,
    ensures
        const_scope(fns, consts, b) is None,
    decreases b - a,
{
    if a < b {
        lemma_const_scope_fails(fns, consts, a, b - 1);
    }
}

/// The checks a module passes before it is emitted: its `fn`s, its
/// `const`s, and exactly one test, which reaches a terminator.
pub open spec fn module_checks(m: Module) -> bool {
    &&& fns_ok(m.fns@)
    &&& const_scope(m.fns@, m.consts@, m.consts@.len() as int) is Some
    &&& m.tests@.len() == 1
    &&& halts(m.tests@[0].stmts@)
}

/// What lowering `module` gives, as far as it is stated: it fails, with one
/// diagnostic, when a `fn` takes a builtin's name or a name twice, when a
/// `const` is defined twice or does not evaluate, when there is not exactly
/// one `test`, or when that test never halts; and when the checks pass, a
/// straight-line test lowers, exactly when its lines fit the line budget, to
/// its text after the entry label.
#[verifier::opaque]
pub open spec fn module_lowering(module: Module, res: Result<Lowering, Vec<Diagnostic>>) -> bool {
    &&& ((exists|k: int| 0 <= k < module.fns@.len() && is_builtin(#[trigger] module.fns@[k].name@))
        ==> res is Err)
    &&& (module.tests@.len() != 1 ==> res is Err)
    &&& (module.tests@.len() == 1 && !halts(module.tests@[0].stmts@) ==> res is Err)
    &&& (res is Err ==> res->Err_0@.len() == 1)
    &&& (!module_checks(module) ==> res is Err)
    &&& (module_checks(module) && straight_body_text(
        const_scope(module.fns@, module.consts@, module.consts@.len() as int)->0,
        module.fns@,
        Seq::empty(),
        Seq::empty(),
        module.tests@[0].stmts@,
        false,
    ) is Some ==> (res is Ok <==> 2 + straight_body_count(
        const_scope(module.fns@, module.consts@, module.consts@.len() as int)->0,
        module.fns@,
        Seq::empty(),
        Seq::empty(),
        module.tests@[0].stmts@,
        false,
    ) <= MAX_EMITTED_LINES))
    &&& (module_checks(module) && res is Ok && straight_body_text(
        const_scope(module.fns@, module.consts@, module.consts@.len() as int)->0,
        module.fns@,
        Seq::empty(),
        Seq::empty(),
        module.tests@[0].stmts@,
        false,
    ) is Some ==> res->Ok_0.asm_text@ == ".globl _start\n_start:\n"@ + straight_body_text(
        const_scope(module.fns@, module.consts@, module.consts@.len() as int)->0,
        module.fns@,
        Seq::empty(),
        Seq::empty(),
        module.tests@[0].stmts@,
        false,
    )->0)
    &&& (module_checks(module) && res is Ok && straight_body_text(
        const_scope(module.fns@, module.consts@, module.consts@.len() as int)->0,
        module.fns@,
        Seq::empty(),
        Seq::empty(),
        module.tests@[0].stmts@,
        false,
    ) is Some ==> tam_of(res->Ok_0.lines@) == seq![module.tests@[0].name_span, module.tests@[0].name_span]
        + straight_body_spans(
        const_scope(module.fns@, module.consts@, module.consts@.len() as int)->0,
        module.fns@,
        Seq::empty(),
        Seq::empty(),
        module.tests@[0].stmts@,
        false,
        module.tests@[0].name_span,
    ))
    &&& (res matches Ok(l) ==> map_ok(l.lines@, encode_utf8(l.asm_text@).len() as usize))
    &&& (fns_ok(module.fns@) && const_scope(module.fns@, module.consts@, module.consts@.len() as int) is Some
        && module.tests@.len() != 1 ==> (res matches Err(ds) && ds@[0].message@
        == "a .tam file must contain exactly one `test` (found "@ + spec_dec(module.tests@.len()) + ")"@
        && ds@[0].primary == if module.tests@.len() > 1 {
        module.tests@[1].name_span
    } else {
        0..0
    }))
    &&& (fns_ok(module.fns@) && const_scope(module.fns@, module.consts@, module.consts@.len() as int) is Some
        && module.tests@.len() == 1 && !halts(module.tests@[0].stmts@) ==> (res matches Err(ds)
        && ds@[0].message@ == "test `"@ + module.tests@[0].name@ + "` never halts"@ && ds@[0].primary
        == module.tests@[0].name_span))
    &&& (module.consts@.len() == 0 && module.fns@.len() == 0 && module.tests@.len() == 1 && res is Ok
        && straight_body_text(
        Seq::empty(),
        Seq::empty(),
        Seq::empty(),
        Seq::empty(),
        module.tests@[0].stmts@,
        false,
    ) is Some ==> res->Ok_0.asm_text@ == ".globl _start\n_start:\n"@ + straight_body_text(
        Seq::empty(),
        Seq::empty(),
        Seq::empty(),
        Seq::empty(),
        module.tests@[0].stmts@,
        false,
    )->0)
}

/// [`module_lowering`] holds of a result that meets each of its clauses.
proof fn lemma_module_lowering(module: Module, res: Result<Lowering, Vec<Diagnostic>>)
    requires
        ((exists|k: int| 0 <= k < module.fns@.len() && is_builtin(#[trigger] module.fns@[k].name@))
        ==> res is Err),
        (module.tests@.len() != 1 ==> res is Err),
        (module.tests@.len() == 1 && !halts(module.tests@[0].stmts@) ==> res is Err),
        (res is Err ==> res->Err_0@.len() == 1),
        (!module_checks(module) ==> res is Err),
        (module_checks(module) && straight_body_text(
        const_scope(module.fns@, module.consts@, module.consts@.len() as int)->0,
        module.fns@,
        Seq::empty(),
        Seq::empty(),
        module.tests@[0].stmts@,
        false,
    ) is Some ==> (res is Ok <==> 2 + straight_body_count(
        const_scope(module.fns@, module.consts@, module.consts@.len() as int)->0,
        module.fns@,
        Seq::empty(),
        Seq::empty(),
        module.tests@[0].stmts@,
        false,
    ) <= MAX_EMITTED_LINES)),
        (module_checks(module) && res is Ok && straight_body_text(
        const_scope(module.fns@, module.consts@, module.consts@.len() as int)->0,
        module.fns@,
        Seq::empty(),
        Seq::empty(),
        module.tests@[0].stmts@,
        false,
    ) is Some ==> res->Ok_0.asm_text@ == ".globl _start\n_start:\n"@ + straight_body_text(
        const_scope(module.fns@, module.consts@, module.consts@.len() as int)->0,
        module.fns@,
        Seq::empty(),
        Seq::empty(),
        module.tests@[0].stmts@,
        false,
    )->0),
        (module_checks(module) && res is Ok && straight_body_text(
        const_scope(module.fns@, module.consts@, module.consts@.len() as int)->0,
        module.fns@,
        Seq::empty(),
        Seq::empty(),
        module.tests@[0].stmts@,
        false,
    ) is Some ==> tam_of(res->Ok_0.lines@) == seq![module.tests@[0].name_span, module.tests@[0].name_span]
        + straight_body_spans(
        const_scope(module.fns@, module.consts@, module.consts@.len() as int)->0,
        module.fns@,
        Seq::empty(),
        Seq::empty(),
        module.tests@[0].stmts@,
        false,
        module.tests@[0].name_span,
    )),
        (res matches Ok(l) ==> map_ok(l.lines@, encode_utf8(l.asm_text@).len() as usize)),
        (fns_ok(module.fns@) && const_scope(module.fns@, module.consts@, module.consts@.len() as int) is Some
        && module.tests@.len() != 1 ==> (res matches Err(ds) && ds@[0].message@
        == "a .tam file must contain exactly one `test` (found "@ + spec_dec(module.tests@.len()) + ")"@
        && ds@[0].primary == if module.tests@.len() > 1 {
        module.tests@[1].name_span
    } else {
        0..0
    })),
        (fns_ok(module.fns@) && const_scope(module.fns@, module.consts@, module.consts@.len() as int) is Some
        && module.tests@.len() == 1 && !halts(module.tests@[0].stmts@) ==> (res matches Err(ds)
        && ds@[0].message@ == "test `"@ + module.tests@[0].name@ + "` never halts"@ && ds@[0].primary
        == module.tests@[0].name_span)),
        (module.consts@.len() == 0 && module.fns@.len() == 0 && module.tests@.len() == 1 && res is Ok
        && straight_body_text(
        Seq::empty(),
        Seq::empty(),
        Seq::empty(),
        Seq::empty(),
        module.tests@[0].stmts@,
        false,
    ) is Some ==> res->Ok_0.asm_text@ == ".globl _start\n_start:\n"@ + straight_body_text(
        Seq::empty(),
        Seq::empty(),
        Seq::empty(),
        Seq::empty(),
        module.tests@[0].stmts@,
        false,
    )->0),
    ensures
        module_lowering(module, res),
{
    reveal(module_lowering);
}

/// What lowering the source `src` can give: the lexer's first error alone
/// when it does not lex; otherwise a parse error alone, or what lowering
/// the module that its tokens parse into gives.
pub open spec fn lowers_to(src: &str, res: Result<Lowering, Vec<Diagnostic>>) -> bool {
    match lexer::spec_lex(src.spec_bytes(), 0) {
        Err(e) => res matches Err(ds) && ds@.len() == 1 && ds@[0].message@ == e.2 && ds@[0].primary.start
            == e.0 && ds@[0].primary.end == e.1,
        Ok(ts) => {
            let toks = lexed_tokens(src);
            &&& one_simple_test(src, toks) && test_halts(src, toks) && 2 + one_test_stmts(src, toks).len()
                <= MAX_EMITTED_LINES ==> res is Ok
            &&& {
                ||| (res matches Err(ds) && ds@.len() == 1 && !one_simple_test(src, toks))
                ||| exists|m: Module, ks: Seq<int>, q: (Seq<int>, Seq<int>, Seq<int>, Seq<int>)|
                    {
                        &&& #[trigger] module_items(src, toks, m, ks, q)
                        &&& module_lowering(m, res)
                    }
            }
        },
    }
}

/// The tokens `src` lexes to, the final `Eof` included (meaningful when it
/// lexes).
pub open spec fn lexed_tokens(src: &str) -> Seq<lexer::Token> {
    lexer::spec_lex(src.spec_bytes(), 0)->Ok_0.push(
        lexer::tok(lexer::Tok::Eof, src.spec_bytes().len() as int, src.spec_bytes().len() as int),
    )
}

/// Some statement of that single test is a `pass` or a `fail`.
pub open spec fn test_halts(src: &str, toks: Seq<lexer::Token>) -> bool {
    exists|q: int|
        0 <= q < one_test_stmts(src, toks).len() && (word_at(src, toks, #[trigger] one_test_stmts(src, toks)[q])
            == "pass"@ || word_at(src, toks, one_test_stmts(src, toks)[q]) == "fail"@)
}

/// Lower a parsed module: install the `fn` table (no builtin name, no
/// duplicate), resolve the `const`s in source order (no duplicate, each may
/// use the ones above it), require exactly one `test`, which must reach a
/// terminator, then emit.
pub fn lower_module(module: Module) -> (res: Result<Lowering, Vec<Diagnostic>>)
    ensures
        (exists|k: int| 0 <= k < module.fns@.len() && is_builtin(#[trigger] module.fns@[k].name@))
            ==> res is Err,
        module.tests@.len() != 1 ==> res is Err,
        module.tests@.len() == 1 && !halts(module.tests@[0].stmts@) ==> res is Err,
        res is Err ==> res->Err_0@.len() == 1,
        module.consts@.len() == 0 && module.fns@.len() == 0 && module.tests@.len() == 1 && res is Ok && straight_body_text(
            Seq::empty(),
            Seq::empty(),
            Seq::empty(),
            Seq::empty(),
            module.tests@[0].stmts@,
            false,
        ) is Some ==> res->Ok_0.asm_text@ == ".globl _start\n_start:\n"@ + straight_body_text(
            Seq::empty(),
            Seq::empty(),
            Seq::empty(),
            Seq::empty(),
            module.tests@[0].stmts@,
            false,
        )->0,
        !module_checks(module) ==> res is Err,
        module_checks(module) && res is Ok && straight_body_text(
            const_scope(module.fns@, module.consts@, module.consts@.len() as int)->0,
            module.fns@,
            Seq::empty(),
            Seq::empty(),
            module.tests@[0].stmts@,
            false,
        ) is Some ==> tam_of(res->Ok_0.lines@) == seq![module.tests@[0].name_span, module.tests@[0].name_span]
            + straight_body_spans(
            const_scope(module.fns@, module.consts@, module.consts@.len() as int)->0,
            module.fns@,
            Seq::empty(),
            Seq::empty(),
            module.tests@[0].stmts@,
            false,
            module.tests@[0].name_span,
        ),
        res matches Ok(l) ==> map_ok(l.lines@, encode_utf8(l.asm_text@).len() as usize),
        fns_ok(module.fns@) && const_scope(module.fns@, module.consts@, module.consts@.len() as int) is Some
            && module.tests@.len() != 1 ==> (res matches Err(ds) && ds@[0].message@
            == "a .tam file must contain exactly one `test` (found "@ + spec_dec(module.tests@.len()) + ")"@
            && ds@[0].primary == if module.tests@.len() > 1 {
            module.tests@[1].name_span
        } else {
            0..0
        }),
        fns_ok(module.fns@) && const_scope(module.fns@, module.consts@, module.consts@.len() as int) is Some
            && module.tests@.len() == 1 && !halts(module.tests@[0].stmts@) ==> (res matches Err(ds)
            && ds@[0].message@ == "test `"@ + module.tests@[0].name@ + "` never halts"@ && ds@[0].primary
            == module.tests@[0].name_span),
        module_checks(module) && res is Ok && straight_body_text(
            const_scope(module.fns@, module.consts@, module.consts@.len() as int)->0,
            module.fns@,
            Seq::empty(),
            Seq::empty(),
            module.tests@[0].stmts@,
            false,
        ) is Some ==> res->Ok_0.asm_text@ == ".globl _start\n_start:\n"@ + straight_body_text(
            const_scope(module.fns@, module.consts@, module.consts@.len() as int)->0,
            module.fns@,
            Seq::empty(),
            Seq::empty(),
            module.tests@[0].stmts@,
            false,
        )->0,
        module_checks(module) && straight_body_text(
            const_scope(module.fns@, module.consts@, module.consts@.len() as int)->0,
            module.fns@,
            Seq::empty(),
            Seq::empty(),
            module.tests@[0].stmts@,
            false,
        ) is Some ==> (res is Ok <==> 2 + straight_body_count(
            const_scope(module.fns@, module.consts@, module.consts@.len() as int)->0,
            module.fns@,
            Seq::empty(),
            Seq::empty(),
            module.tests@[0].stmts@,
            false,
        ) <= MAX_EMITTED_LINES),
{
    let Module { consts, fns, procs, tests } = module;
    let ghost all_fns = fns@;
    let mut fns = fns;
    let n0 = fns.len();
    assert(all_fns.len() == n0);
    let mut env = Env::new();
    let mut k: usize = 0;
    while fns.len() > 0
        invariant
            k + fns@.len() == all_fns.len(),
            all_fns.len() <= usize::MAX,
            fns@ == all_fns.subrange(k as int, all_fns.len() as int),
            forall|j: int| 0 <= j < k ==> !is_builtin(#[trigger] all_fns[j].name@),
            all_fns.len() == 0 ==> env.consts_view().len() == 0 && env.fns_view().len() == 0 && env.locals_view().len() == 0
                && env.chain_view().len() == 0,
            env.fns_view() == all_fns.subrange(0, k as int),
            distinct_fns(env.fns_view()),
            env.consts_view().len() == 0,
            env.locals_view().len() == 0,
            env.chain_view().len() == 0,
            all_fns == module.fns@,
        decreases fns@.len(),
    {
        let f = fns.remove(0);
        assert(f == all_fns[k as int]);
        if builtin(f.name.as_str()) {
            let mut m = String::new();
            m.append("`");
            m.append(f.name.as_str());
            m.append("` is a builtin and cannot be redefined");
            return Err(vec![Diagnostic::error_owned(span_copy(&f.name_span), m).with_help("the builtins are crc8, len, lo, hi")]);
        }
        let name_span = span_copy(&f.name_span);
        let name = f.name.clone();
        let ghost fns_before = env.fns_view();
        if !env.define_fn(f) {
            proof {
                lemma_fn_index_found(fns_before, name@);
                let j = fn_index(fns_before, name@)->0;
                assert(all_fns[j] == fns_before[j]);
                assert(all_fns[j].name@ == all_fns[k as int].name@);
                assert(!distinct_fns(all_fns));
            }
            let mut m = String::new();
            m.append("duplicate fn `");
            m.append(name.as_str());
            m.append("`");
            return Err(vec![Diagnostic::error_owned(name_span, m)]);
        }
        k = k + 1;
        assert(fns@ =~= all_fns.subrange(k as int, all_fns.len() as int));
        assert(env.fns_view() =~= all_fns.subrange(0, k as int));
    }
    assert(all_fns.subrange(0, all_fns.len() as int) =~= all_fns);
    assert(fns_ok(all_fns));
    let mut c: usize = 0;
    while c < consts.len()
        invariant
            c <= consts@.len(),
            consts@.len() == 0 && all_fns.len() == 0 ==> env.consts_view().len() == 0 && env.fns_view().len() == 0
                && env.locals_view().len() == 0 && env.chain_view().len() == 0,
            const_scope(all_fns, consts@, c as int) == Some(env.consts_view()),
            env.fns_view() == all_fns,
            env.locals_view().len() == 0,
            env.chain_view().len() == 0,
            all_fns == module.fns@,
            consts@ == module.consts@,
            fns_ok(all_fns),
        decreases consts@.len() - c,
    {
        let item = &consts[c];
        proof {
            assert(env.locals_view() =~= Seq::<(Seq<char>, Val)>::empty());
            assert(env.chain_view() =~= Seq::<Seq<char>>::empty());
        }
        if env.has_const(item.name.as_str()) {
            proof {
                assert(const_scope(all_fns, consts@, c + 1) is None);
                lemma_const_scope_fails(all_fns, consts@, c + 1, consts@.len() as int);
            }
            let mut m = String::new();
            m.append("duplicate const `");
            m.append(item.name.as_str());
            m.append("`");
            return Err(vec![Diagnostic::error_owned(span_copy(&item.name_span), m)]);
        }
        let v = match eval(&item.value, &env) {
            Ok(v) => v,
            Err(d) => {
                proof {
                    assert(const_scope(all_fns, consts@, c + 1) is None);
                    lemma_const_scope_fails(all_fns, consts@, c + 1, consts@.len() as int);
                }
                return Err(vec![d]);
            },
        };
        let ghost sc = env.consts_view();
        env.insert_const(item.name.clone(), v);
        proof {
            assert(const_scope(all_fns, consts@, c + 1) == Some(sc.push((item.name@, v@))));
        }
        c = c + 1;
    }
    if tests.len() != 1 {
        let span = if tests.len() > 1 {
            span_copy(&tests[1].name_span)
        } else {
            0..0
        };
        let mut m = String::new();
        m.append("a .tam file must contain exactly one `test` (found ");
        push_dec(&mut m, tests.len() as u64);
        m.append(")");
        return Err(vec![Diagnostic::error_owned(span, m)]);
    }
    let test: &Test = &tests[0];
    if !has_terminator(&test.stmts) {
        let mut m = String::new();
        m.append("test `");
        m.append(test.name.as_str());
        m.append("` never halts");
        return Err(vec![Diagnostic::error_owned(span_copy(&test.name_span), m).with_help("a test must reach `pass`, `fail`, or a `halt` instruction")]);
    }
    let rest = Module { consts: Vec::new(), fns: Vec::new(), procs, tests };
    proof {
        assert(env.locals_view() =~= Seq::empty());
        assert(env.chain_view() =~= Seq::empty());
        if all_fns.len() == 0 && consts@.len() == 0 {
            assert(env.consts_view() =~= Seq::empty());
            assert(env.fns_view() =~= Seq::empty());
        }
    }
    emit::emit(&rest, env)
}

/// Lower tamal-lang source to tamal-asm text plus its source map: lex,
/// parse, then [`lower_module`].
#[verifier::spinoff_prover]
#[verifier::rlimit(60)]
pub fn lower(source: &str) -> (res: Result<Lowering, Vec<Diagnostic>>)
    ensures
        res is Err ==> res->Err_0@.len() == 1,
        lowers_to(source, res),
{
    let toks = lexer::lex(source)?;
    proof {
        assert(toks@ =~= toks@.drop_last().push(toks@.last()));
        assert(toks@ == lexed_tokens(source));
    }
    let module = parse(source, toks.as_slice())?;
    let ghost m = module;
    let res = lower_module(module);
    proof {
        lemma_module_lowering(m, res);
        let (ks, q) = choose|ks: Seq<int>, q: (Seq<int>, Seq<int>, Seq<int>, Seq<int>)|
            module_items(source, toks@, m, ks, q);
        assert(module_lowering(m, res));
        if one_simple_test(source, toks@) && test_halts(source, toks@) {
            reveal(module_lowering);
            let stmts = m.tests@[0].stmts@;
            let pos = one_test_stmts(source, toks@);
            lemma_simple_kinds(source, toks@, pos, stmts);
            let qh = choose|qh: int|
                0 <= qh < pos.len() && (word_at(source, toks@, #[trigger] pos[qh]) == "pass"@ || word_at(
                    source,
                    toks@,
                    pos[qh],
                ) == "fail"@);
            assert(is_terminator(stmts[qh]));
            assert(halts(stmts));
            assert(const_scope(m.fns@, m.consts@, 0) == Some(Seq::<(Seq<char>, Val)>::empty()));
            lemma_plain_straight(Seq::empty(), m.fns@, Seq::empty(), Seq::empty(), stmts);
            assert(module_checks(m));
        }
    }
    res
}

/// Lower to just the tamal-asm text (the `--emit asm` artifact).
pub fn lower_to_asm(source: &str) -> (res: Result<String, Vec<Diagnostic>>)
    ensures
        res is Err ==> res->Err_0@.len() == 1,
        exists|r: Result<Lowering, Vec<Diagnostic>>| #[trigger] lowers_to(source, r) && match r {
            Ok(l) => res matches Ok(t) && t@ == l.asm_text@,
            Err(ds) => res matches Err(d2) && d2@ == ds@,
        },
{
    let r = lower(source);
    let ghost rr = r;
    assert(lowers_to(source, rr));
    match r {
        Ok(l) => Ok(l.asm_text),
        Err(e) => Err(e),
    }
}

/// `ds` is `orig` re-pointed through the source map `map`: each primary span
/// taken back to the `.tam` span of the line it falls in, the messages kept.
pub open spec fn remapped(map: Seq<(Span, Span)>, orig: Seq<Diagnostic>, ds: Seq<Diagnostic>) -> bool {
    &&& ds.len() == orig.len()
    &&& forall|i: int| 0 <= i < ds.len() ==> (#[trigger] ds[i]).primary == spec_tam_span(map, orig[i].primary)
        && ds[i].message == orig[i].message
}

/// What assembling the text `text` gives, as its contract states it: a
/// program when every reading of it assembles cleanly, built from the lines
/// it parses to; otherwise the first lexical or syntax error alone, or the
/// whole batch of the lines.
pub open spec fn assembly_of(text: Seq<u8>, res: Result<Program, Vec<Diagnostic>>) -> bool {
    &&& assembles_cleanly(text) ==> res is Ok
    &&& res matches Ok(p) ==> exists|toks: Seq<AsmToken>, lines: Seq<Line>|
        {
            &&& lexes_to(text, toks)
            &&& #[trigger] parses_to(toks, lines)
            &&& spec_error_count(lines) == 0
            &&& p.instrs@ == spec_program(lines)
        }
    &&& res matches Err(ds) ==> ds@.len() >= 1 && failure_of(text, ds@)
}

/// Compile tamal-lang source to a tamal [`Program`]: lower it, then assemble
/// the text. Backend diagnostics are re-pointed at the `.tam` source through
/// the lowering's source map.
pub fn compile(source: &str) -> (res: Result<Program, Vec<Diagnostic>>)
    ensures
        exists|r: Result<Lowering, Vec<Diagnostic>>| #[trigger] lowers_to(source, r) && match r {
            Err(ds) => res matches Err(d2) && d2@ == ds@,
            Ok(l) => {
                ||| (res is Ok && assembly_of(encode_utf8(l.asm_text@), res))
                ||| exists|orig: Vec<Diagnostic>| #[trigger] assembly_of(
                    encode_utf8(l.asm_text@),
                    Err(orig),
                ) && (res matches Err(ds) && remapped(l.lines@, orig@, ds@))
            },
        },
{
    let r = lower(source);
    let ghost rr = r;
    assert(lowers_to(source, rr));
    let lowering = match r {
        Ok(l) => l,
        Err(e) => {
            return Err(e);
        },
    };
    let text = lowering.asm_text.as_str();
    let a = assemble(text);
    assert(text.spec_bytes() == encode_utf8(lowering.asm_text@));
    match a {
        Ok(p) => {
            let res = Ok(p);
            assert(assembly_of(encode_utf8(lowering.asm_text@), res));
            res
        },
        Err(diags) => {
            let ghost orig = diags;
            assert(assembly_of(encode_utf8(lowering.asm_text@), Err(orig)));
            let out = lowering.remap(diags);
            assert(remapped(lowering.lines@, orig@, out@));
            Err(out)
        },
    }
}

} // verus!
