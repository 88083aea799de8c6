use tamal::assembler::diagnostics::{Diagnostic, Span};
use tamal::lang::consteval::{bind_args, binding, eval, Env, Value};
use tamal::lang::parser::{Arg, BinOp, Expr, Param, Type};

fn num(v: i64) -> Expr {
    Expr::Int { value: v, span: 0..0 }
}
fn bytes(vs: &[i64]) -> Expr {
    Expr::Bytes { elems: vs.iter().map(|&v| num(v)).collect(), span: 0..0 }
}
fn call(func: &str, arg: Expr) -> Expr {
    Expr::Call { func: func.into(), args: vec![Arg { name: None, value: arg, span: 0..0 }], span: 0..0 }
}

#[test]
fn folds_int_and_xor() {
    let e = Expr::Binary { op: BinOp::Xor, lhs: Box::new(num(0x16)), rhs: Box::new(num(0xFF)), span: 0..0 };
    assert_eq!(eval(&e, &Env::new()).unwrap(), Value::Int(0xE9));
}

#[test]
fn resolves_and_rejects_names() {
    let mut env = Env::new();
    env.insert_const("X".into(), Value::Int(0x44));
    assert_eq!(eval(&Expr::Name { name: "X".into(), span: 0..0 }, &env).unwrap(), Value::Int(0x44));
    assert!(eval(&Expr::Name { name: "NOPE".into(), span: 0..0 }, &env).is_err());
}

#[test]
fn folds_bytes_and_concat() {
    let e = Expr::Binary {
        op: BinOp::Concat,
        lhs: Box::new(bytes(&[0x01, 0x02])),
        rhs: Box::new(bytes(&[0x03])),
        span: 0..0,
    };
    assert_eq!(eval(&e, &Env::new()).unwrap(), Value::Bytes(vec![1, 2, 3]));
}

#[test]
fn byte_out_of_range_errors() {
    assert!(eval(&bytes(&[0x100]), &Env::new()).is_err());
}

#[test]
fn crc8_folds_peripheral_command_bytes() {
    let e = call("crc8", bytes(&[0x44, 0x00, 0x64]));
    assert_eq!(eval(&e, &Env::new()).unwrap(), Value::Int(0x16));
}

#[test]
fn len_lo_hi_builtins() {
    assert_eq!(eval(&call("len", bytes(&[1, 2, 3])), &Env::new()).unwrap(), Value::Int(3));
    assert_eq!(eval(&call("lo", num(0xDEAD)), &Env::new()).unwrap(), Value::Int(0xAD));
    assert_eq!(eval(&call("hi", num(0xDEAD)), &Env::new()).unwrap(), Value::Int(0xDE));
}

#[test]
fn type_mismatch_and_unknown_builtin_error() {
    assert!(eval(&call("crc8", num(5)), &Env::new()).is_err());
    assert!(eval(&call("nope", num(5)), &Env::new()).is_err());
}

#[test]
fn builtins_require_exactly_one_positional_argument() {
    let none = Expr::Call { func: "crc8".into(), args: vec![], span: 0..0 };
    assert!(eval(&none, &Env::new()).unwrap_err().message.contains("takes 1 argument"));
    let two = Expr::Call {
        func: "crc8".into(),
        args: vec![
            Arg { name: None, value: bytes(&[1]), span: 0..0 },
            Arg { name: None, value: bytes(&[2]), span: 0..0 },
        ],
        span: 0..0,
    };
    assert!(eval(&two, &Env::new()).unwrap_err().message.contains("takes 1 argument"));
    let named = Expr::Call {
        func: "crc8".into(),
        args: vec![Arg { name: Some("b".into()), value: bytes(&[1]), span: 0..0 }],
        span: 0..0,
    };
    assert!(eval(&named, &Env::new()).unwrap_err().message.contains("does not take named arguments"));
}

fn call_span() -> Span {
    900..901
}
fn arg_span(i: usize) -> Span {
    100 + i..101 + i
}
fn param_span(i: usize) -> Span {
    200 + i..201 + i
}

fn param(name: &str, ty: Type, default: Option<Expr>, span: Span) -> Param {
    Param { name: name.into(), ty, default, span }
}

fn pos(value: Expr) -> Arg {
    Arg { name: None, span: 0..0, value }
}

fn named(name: &str, value: Expr) -> Arg {
    Arg { name: Some(name.into()), span: 0..0, value }
}

fn stamped(mut args: Vec<Arg>) -> Vec<Arg> {
    for (i, a) in args.iter_mut().enumerate() {
        a.span = arg_span(i);
    }
    args
}

fn command_params() -> Vec<Param> {
    vec![
        param("pkt", Type::Bytes, None, param_span(0)),
        param("ndata", Type::Int, None, param_span(1)),
        param("err", Type::Byte, Some(num(0x11)), param_span(2)),
    ]
}

fn bind_ok(args: Vec<Arg>) -> Vec<(String, Value)> {
    bind_args("command", &command_params(), &stamped(args), &Env::new(), &call_span()).unwrap()
}

fn bind_diag(args: Vec<Arg>) -> Diagnostic {
    bind_args("command", &command_params(), &stamped(args), &Env::new(), &call_span()).unwrap_err()
}

fn bind_err(args: Vec<Arg>) -> String {
    bind_diag(args).message
}

fn at<'a>(b: &'a Vec<(String, Value)>, name: &str) -> &'a Value {
    binding(b, name).unwrap()
}

#[test]
fn binds_positional_arguments_in_order() {
    let b = bind_ok(vec![pos(bytes(&[0x44])), pos(num(1))]);
    assert_eq!(*at(&b, "pkt"), Value::Bytes(vec![0x44]));
    assert_eq!(*at(&b, "ndata"), Value::Int(1));
}

#[test]
fn binds_named_arguments_by_name() {
    let b = bind_ok(vec![named("ndata", num(2)), named("pkt", bytes(&[0x06]))]);
    assert_eq!(*at(&b, "pkt"), Value::Bytes(vec![0x06]));
    assert_eq!(*at(&b, "ndata"), Value::Int(2));
}

#[test]
fn unbound_parameters_take_their_default() {
    let b = bind_ok(vec![pos(bytes(&[0x44])), pos(num(0))]);
    assert_eq!(*at(&b, "err"), Value::Int(0x11));
}

#[test]
fn an_explicit_argument_overrides_a_default() {
    let b = bind_ok(vec![pos(bytes(&[0x44])), pos(num(0)), named("err", num(0x22))]);
    assert_eq!(*at(&b, "err"), Value::Int(0x22));
}

#[test]
fn a_positional_argument_may_not_follow_a_named_one() {
    let msg = bind_err(vec![named("pkt", bytes(&[0x44])), pos(num(0))]);
    assert!(msg.contains("cannot follow a named argument"), "got: {msg}");
}

#[test]
fn rejects_a_named_argument_with_no_matching_parameter() {
    let unknown = bind_err(vec![named("nope", num(0))]);
    assert!(unknown.contains("no parameter `nope`"), "got: {unknown}");
}

#[test]
fn rejects_a_parameter_bound_twice() {
    let dup = bind_diag(vec![pos(bytes(&[0x44])), named("pkt", bytes(&[0x06]))]);
    assert!(dup.message.contains("bound twice"), "got: {}", dup.message);
    assert_eq!(dup.primary, arg_span(1), "anchored on the second, offending argument");
}

#[test]
fn rejects_more_arguments_than_parameters() {
    let surplus = bind_err(vec![pos(bytes(&[0x44])), pos(num(0)), pos(num(0x11)), pos(num(9))]);
    assert!(surplus.contains("takes 3 argument"), "got: {surplus}");
    assert!(surplus.contains("got 4"), "got: {surplus}");
}

#[test]
fn the_arity_message_pluralises_like_the_builtins_do() {
    let plural = bind_err(vec![pos(bytes(&[0x44])), pos(num(0)), pos(num(0x11)), pos(num(9))]);
    assert!(plural.contains("takes 3 arguments, got 4"), "got: {plural}");
    let one = vec![param("pkt", Type::Bytes, None, param_span(0))];
    let singular = bind_args("one_arg", &one, &stamped(vec![pos(bytes(&[0x44])), pos(num(0))]), &Env::new(), &call_span())
        .unwrap_err()
        .message;
    assert!(singular.contains("takes 1 argument, got 2"), "got: {singular}");
}

#[test]
fn a_missing_required_parameter_is_reported_in_declaration_order() {
    let d = bind_diag(vec![]);
    assert!(d.message.contains("`pkt`"), "got: {}", d.message);
    assert_eq!(d.primary, call_span());
}

#[test]
fn an_argument_of_the_wrong_type_is_rejected() {
    let wrong = bind_diag(vec![pos(num(5)), pos(num(0))]);
    assert!(wrong.message.contains("expects `bytes`"), "got: {}", wrong.message);
    assert_eq!(wrong.primary, arg_span(0), "anchored on the bad argument");
}

#[test]
fn a_byte_argument_above_the_range_is_rejected() {
    let too_big = bind_diag(vec![pos(bytes(&[0x44])), pos(num(0)), named("err", num(256))]);
    assert!(too_big.message.contains("expects `byte`"), "got: {}", too_big.message);
    assert!(too_big.message.contains("out of range 0..=255"), "got: {}", too_big.message);
    assert_eq!(too_big.primary, arg_span(2), "anchored on the bad argument");
}

#[test]
fn a_byte_argument_below_the_range_is_rejected() {
    let negative = bind_diag(vec![pos(bytes(&[0x44])), pos(num(0)), named("err", num(-1))]);
    assert!(negative.message.contains("expects `byte`"), "got: {}", negative.message);
}

#[test]
fn a_child_scope_replaces_the_callers_locals() {
    let mut module = Env::new();
    module.insert_const("BASE".into(), Value::Int(1));
    let caller = module.child_for_call_values(vec![("outer".to_string(), Value::Int(7))]);
    let callee = caller.child_for_call_values(vec![("inner".to_string(), Value::Int(9))]);
    assert_eq!(callee.get("inner"), Some(&Value::Int(9)));
    assert_eq!(callee.get("outer"), None);
    assert_eq!(callee.get("BASE"), Some(&Value::Int(1)));
}

#[test]
fn an_argument_is_evaluated_in_the_callers_scope() {
    let caller = Env::new().child_for_call_values(vec![("x".to_string(), Value::Int(7))]);
    let args = stamped(vec![pos(bytes(&[0x44])), pos(Expr::Name { name: "x".into(), span: 0..0 })]);
    let b = bind_args("command", &command_params(), &args, &caller, &call_span()).unwrap();
    assert_eq!(*at(&b, "ndata"), Value::Int(7));
}

#[test]
fn a_default_is_checked_against_the_declared_type() {
    let params = vec![param("err", Type::Byte, Some(num(300)), param_span(2))];
    let d = bind_args("p", &params, &[], &Env::new(), &call_span()).unwrap_err();
    assert!(d.message.contains("the default for"), "got: {}", d.message);
    assert!(d.message.contains("expects `byte`"), "got: {}", d.message);
    assert_eq!(d.primary, param_span(2), "anchored on the parameter");
}

#[test]
fn a_default_is_evaluated_in_module_scope_not_the_callers() {
    let mut caller = Env::new();
    caller.insert_const("BASE".into(), Value::Int(1));
    let caller = caller.child_for_call_values(vec![("K".to_string(), Value::Int(0x99))]);
    let params = vec![param("err", Type::Byte, Some(Expr::Name { name: "K".into(), span: 0..0 }), param_span(0))];
    let err = bind_args("p", &params, &[], &caller, &call_span()).unwrap_err();
    assert!(err.message.contains("unknown name `K`"), "got: {}", err.message);
}

#[test]
fn a_parameter_shadows_a_module_const_of_the_same_name() {
    let mut module = Env::new();
    module.insert_const("N".into(), Value::Int(1));
    let inside_call = module.child_for_call_values(vec![("N".to_string(), Value::Int(2))]);
    let n = Expr::Name { name: "N".into(), span: 0..0 };
    assert_eq!(eval(&n, &module).unwrap(), Value::Int(1));
    assert_eq!(eval(&n, &inside_call).unwrap(), Value::Int(2));
}

#[test]
fn a_builtin_called_with_two_arguments_names_the_count() {
    let two = Expr::Call {
        func: "len".into(),
        args: vec![
            Arg { name: None, value: bytes(&[1]), span: 0..0 },
            Arg { name: None, value: bytes(&[2]), span: 0..0 },
        ],
        span: 5..9,
    };
    let d = eval(&two, &Env::new()).unwrap_err();
    assert_eq!(d.message, "`len` takes 1 argument, got 2");
    assert_eq!(d.primary, 5..9);
}
