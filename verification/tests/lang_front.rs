use tamal::lang::lexer::{lex, Tok};
use tamal::lang::parser::{parse, parse_expr, stmt_keywords, BinOp, Expr, Module, RecvTarget, Stmt, Type};

fn kinds(src: &str) -> Vec<Tok> {
    lex(src).unwrap().into_iter().map(|t| t.kind).collect()
}

#[test]
fn lexes_test_block() {
    assert_eq!(
        kinds("test smoke {\n  pass\n}\n"),
        vec![
            Tok::Ident,
            Tok::Ident,
            Tok::LBrace,
            Tok::Newline,
            Tok::Ident,
            Tok::Newline,
            Tok::RBrace,
            Tok::Newline,
            Tok::Eof,
        ]
    );
}

#[test]
fn skips_comments_and_lexes_numbers() {
    let src = "// hi\n/* block */ fail 0x11\n";
    assert_eq!(kinds(src), vec![Tok::Newline, Tok::Ident, Tok::Number, Tok::Newline, Tok::Eof]);
}

#[test]
fn number_lexeme_is_verbatim() {
    let toks = lex("mark 1, x1\n").unwrap();
    assert_eq!(&"mark 1, x1\n"[toks[1].span.clone()], "1");
    assert_eq!(&"mark 1, x1\n"[toks[3].span.clone()], "x1");
}

#[test]
fn rejects_unexpected_char() {
    let err = lex("test @\n").unwrap_err();
    assert!(err[0].message.contains("unexpected character"));
}

#[test]
fn rejects_unterminated_block_comment() {
    let err = lex("/* nope").unwrap_err();
    assert!(err[0].message.contains("unterminated"));
}

#[test]
fn lexes_bracket_paren_operator_tokens() {
    assert_eq!(
        kinds("send [a, b] + crc8\n"),
        vec![
            Tok::Ident,
            Tok::LBracket,
            Tok::Ident,
            Tok::Comma,
            Tok::Ident,
            Tok::RBracket,
            Tok::Plus,
            Tok::Ident,
            Tok::Newline,
            Tok::Eof,
        ]
    );
}

#[test]
fn distinguishes_plus_from_plusplus() {
    assert_eq!(
        kinds("a ++ b ^ (c)\n"),
        vec![
            Tok::Ident,
            Tok::PlusPlus,
            Tok::Ident,
            Tok::Caret,
            Tok::LParen,
            Tok::Ident,
            Tok::RParen,
            Tok::Newline,
            Tok::Eof,
        ]
    );
}

#[test]
fn lexes_equals() {
    assert_eq!(
        kinds("const X = 5\n"),
        vec![Tok::Ident, Tok::Ident, Tok::Eq, Tok::Number, Tok::Newline, Tok::Eof]
    );
}

#[test]
fn lexes_arrow_and_colon() {
    assert_eq!(
        kinds("f(x: int) -> byte\n"),
        vec![
            Tok::Ident,
            Tok::LParen,
            Tok::Ident,
            Tok::Colon,
            Tok::Ident,
            Tok::RParen,
            Tok::Arrow,
            Tok::Ident,
            Tok::Newline,
            Tok::Eof,
        ]
    );
}

fn parse_ok(src: &str) -> Module {
    let toks = lex(src).unwrap();
    parse(src, &toks).unwrap()
}

fn parse_err(src: &str) -> String {
    let toks = lex(src).unwrap();
    parse(src, &toks).unwrap_err()[0].message.clone()
}

#[test]
fn parses_pass() {
    let m = parse_ok("test smoke {\n  pass\n}\n");
    assert_eq!(m.tests.len(), 1);
    assert_eq!(m.tests[0].name, "smoke");
    assert!(matches!(m.tests[0].stmts.as_slice(), [Stmt::Pass]));
}

#[test]
fn parses_fail_with_code() {
    let m = parse_ok("test t {\n  fail 0x11\n}\n");
    match &m.tests[0].stmts[0] {
        Stmt::Fail { code, .. } => assert_eq!(code, "0x11"),
        other => panic!("expected Fail, got {other:?}"),
    }
}

#[test]
fn parses_raw_instruction_with_operands() {
    let m = parse_ok("test probe {\n  mark 1, x1\n  pass\n}\n");
    match &m.tests[0].stmts[0] {
        Stmt::Raw { mnemonic, operands, .. } => {
            assert_eq!(mnemonic, "mark");
            assert_eq!(operands, &["1".to_string(), "x1".to_string()]);
        }
        other => panic!("expected Raw, got {other:?}"),
    }
    assert!(matches!(m.tests[0].stmts[1], Stmt::Pass));
}

#[test]
fn parses_zero_operand_instruction() {
    let m = parse_ok("test t {\n  cs_assert\n  pass\n}\n");
    match &m.tests[0].stmts[0] {
        Stmt::Raw { mnemonic, operands, .. } => {
            assert_eq!(mnemonic, "cs_assert");
            assert!(operands.is_empty());
        }
        other => panic!("expected Raw, got {other:?}"),
    }
}

#[test]
fn missing_close_brace_is_an_error() {
    assert!(parse_err("test t {\n  pass\n").contains("missing `}`"));
}

#[test]
fn missing_test_keyword_is_an_error() {
    let msg = parse_err("smoke {\n  pass\n}\n");
    assert!(msg.contains("expected `const`, `fn`,"), "got: {}", msg);
}

#[test]
fn parses_const_item() {
    let m = parse_ok("const PUT_IORD1 = 0x44\ntest t {\n  pass\n}\n");
    assert_eq!(m.consts.len(), 1);
    assert_eq!(m.consts[0].name, "PUT_IORD1");
    assert_eq!(m.tests.len(), 1);
}

#[test]
fn parses_fn_item() {
    let m = parse_ok(
        "fn iord_hdr(op: byte, addr: int) -> bytes { [op, hi(addr), lo(addr)] }\ntest t {\n pass\n}\n",
    );
    assert_eq!(m.fns.len(), 1);
    let f = &m.fns[0];
    assert_eq!(f.name, "iord_hdr");
    assert_eq!(f.ret, Type::Bytes);
    assert_eq!(f.params.len(), 2);
    assert_eq!(f.params[0].name, "op");
    assert_eq!(f.params[0].ty, Type::Byte);
    assert_eq!(f.params[1].ty, Type::Int);
    assert!(f.params.iter().all(|p| p.default.is_none()));
}

#[test]
fn parses_fn_param_default() {
    let src = "fn f(err: byte = 0x11) -> byte { err }\ntest t {\n pass\n}\n";
    let m = parse_ok(src);
    let p = &m.fns[0].params[0];
    assert!(p.default.is_some());
    assert_eq!(&src[p.span.clone()], "err: byte = 0x11");
}

#[test]
fn rejects_an_unknown_param_type() {
    assert!(parse_err("fn f(x: word) -> byte { x }\ntest t {\n pass\n}\n").contains("unknown type `word`"));
}

#[test]
fn rejects_a_parameter_with_no_type_annotation() {
    let msg = parse_err("fn f(x int) -> byte { x }\ntest t {\n pass\n}\n");
    assert!(msg.contains("expected `:` and a type"), "got: {}", msg);
}

#[test]
fn rejects_a_fn_with_no_return_type() {
    let msg = parse_err("fn f(x: int) byte { x }\ntest t {\n pass\n}\n");
    assert!(msg.contains("expected `->` and a return type"), "got: {}", msg);
}

#[test]
fn rejects_duplicate_parameter_names() {
    let src = "fn f(x: int, x: bytes) -> int { x }\ntest t {\n pass\n}\n";
    let toks = lex(src).unwrap();
    let err = parse(src, &toks).unwrap_err();
    assert!(err[0].message.contains("duplicate parameter `x`"), "got: {}", err[0].message);
    let second_x = src.match_indices('x').nth(1).unwrap().0;
    assert_eq!(err[0].primary, second_x..second_x + 1, "anchored on the second `x`");
}

#[test]
fn rejects_a_non_adjacent_duplicate_parameter() {
    let msg = parse_err("fn f(x: int, y: int, x: bytes) -> int { y }\ntest t {\n pass\n}\n");
    assert!(msg.contains("duplicate parameter `x`"), "got: {}", msg);
}

#[test]
fn a_duplicate_parameter_is_reported_before_its_type() {
    let msg = parse_err("fn f(x: int, x: word) -> int { x }\ntest t {\n pass\n}\n");
    assert!(msg.contains("duplicate parameter `x`"), "got: {}", msg);
}

#[test]
fn parses_a_multiline_parameter_list_with_a_trailing_comma() {
    let m = parse_ok("fn f(\n  op: byte,\n  addr: int,\n) -> bytes { [op, lo(addr)] }\ntest t {\n pass\n}\n");
    assert_eq!(m.fns[0].params.len(), 2);
    assert_eq!(m.fns[0].params[1].name, "addr");
}

#[test]
fn rejects_two_items_on_one_line() {
    let msg = parse_err("fn f(n: int) -> int { n } fn g(n: int) -> int { n }\ntest t {\n pass\n}\n");
    assert!(msg.contains("expected end of statement"), "got: {}", msg);
}

#[test]
fn parses_proc_item() {
    let m = parse_ok(
        "proc command(pkt: bytes, ndata: int, err: byte = 0x11) {\n send pkt + crc8\n tar 2\n}\ntest t {\n pass\n}\n",
    );
    assert_eq!(m.procs.len(), 1);
    let p = &m.procs[0];
    assert_eq!(p.name, "command");
    assert_eq!(p.params.len(), 3);
    assert!(p.params[2].default.is_some());
    assert_eq!(p.body.len(), 2);
}

#[test]
fn parses_a_call_statement() {
    let m = parse_ok("test t {\n command(pkt = [0x44], 0)\n pass\n}\n");
    match &m.tests[0].stmts[0] {
        Stmt::Call { name, args, .. } => {
            assert_eq!(name, "command");
            assert_eq!(args.len(), 2);
            assert_eq!(args[0].name.as_deref(), Some("pkt"));
            assert!(args[1].name.is_none());
        }
        s => panic!("expected Call, got {s:?}"),
    }
}

#[test]
fn rejects_two_call_statements_on_one_line() {
    let msg = parse_err("test t {\n p() q()\n pass\n}\n");
    assert!(msg.contains("expected end of statement"), "got: {}", msg);
}

#[test]
fn stmt_keywords_shadow_a_call() {
    for kw in stmt_keywords() {
        let src = format!("test t {{\n {kw}()\n pass\n}}\n");
        let toks = lex(&src).unwrap();
        match parse(&src, &toks) {
            Err(_) => {}
            Ok(m) => assert!(!matches!(m.tests[0].stmts[0], Stmt::Call { .. }), "`{kw}` parsed as a call"),
        }
    }
}

fn parse_expr_ok(src: &str) -> Expr {
    let toks = lex(src).unwrap();
    parse_expr(src, &toks, 0).unwrap().0
}

#[test]
fn parses_int_literal() {
    match parse_expr_ok("0x44") {
        Expr::Int { value, .. } => assert_eq!(value, 0x44),
        e => panic!("expected Int, got {e:?}"),
    }
}

#[test]
fn parses_name() {
    match parse_expr_ok("PUT_IORD1") {
        Expr::Name { name, .. } => assert_eq!(name, "PUT_IORD1"),
        e => panic!("expected Name, got {e:?}"),
    }
}

#[test]
fn parses_bytes_literal() {
    match parse_expr_ok("[0x44, 0x00, 0x64]") {
        Expr::Bytes { elems, .. } => assert_eq!(elems.len(), 3),
        e => panic!("expected Bytes, got {e:?}"),
    }
}

#[test]
fn parses_call() {
    match parse_expr_ok("crc8(pkt)") {
        Expr::Call { func, .. } => assert_eq!(func, "crc8"),
        e => panic!("expected Call, got {e:?}"),
    }
}

#[test]
fn parses_call_with_several_positional_args() {
    match parse_expr_ok("iord_hdr(0x44, 0x0064)") {
        Expr::Call { func, args, .. } => {
            assert_eq!(func, "iord_hdr");
            assert_eq!(args.len(), 2);
            assert!(args.iter().all(|a| a.name.is_none()));
        }
        e => panic!("expected Call, got {e:?}"),
    }
}

#[test]
fn parses_named_arguments() {
    match parse_expr_ok("command(pkt = [0x44], ndata = 0)") {
        Expr::Call { args, .. } => {
            assert_eq!(args.len(), 2);
            assert_eq!(args[0].name.as_deref(), Some("pkt"));
            assert!(matches!(&args[0].value, Expr::Bytes { elems, .. } if elems.len() == 1));
            assert_eq!(args[1].name.as_deref(), Some("ndata"));
            assert!(matches!(args[1].value, Expr::Int { value: 0, .. }));
        }
        e => panic!("expected Call, got {e:?}"),
    }
}

#[test]
fn parses_mixed_positional_and_named_arguments() {
    match parse_expr_ok("command([0x44], ndata = 0)") {
        Expr::Call { args, .. } => {
            assert_eq!(args.len(), 2);
            assert!(args[0].name.is_none());
            assert!(matches!(&args[0].value, Expr::Bytes { elems, .. } if elems.len() == 1));
            assert_eq!(args[1].name.as_deref(), Some("ndata"));
            assert!(matches!(args[1].value, Expr::Int { value: 0, .. }));
        }
        e => panic!("expected Call, got {e:?}"),
    }
}

#[test]
fn an_argument_span_covers_its_name_and_value() {
    let src = "command(pkt = [0x44], 0x64)";
    match parse_expr_ok(src) {
        Expr::Call { args, .. } => {
            assert_eq!(&src[args[0].span.clone()], "pkt = [0x44]");
            assert_eq!(&src[args[1].span.clone()], "0x64");
        }
        e => panic!("expected Call, got {e:?}"),
    }
}

#[test]
fn parses_multiline_call_with_trailing_comma() {
    match parse_expr_ok("command(\n  pkt = [0x44],\n  ndata = 0,\n)") {
        Expr::Call { args, .. } => assert_eq!(args.len(), 2),
        e => panic!("expected Call, got {e:?}"),
    }
}

#[test]
fn parses_zero_argument_call() {
    match parse_expr_ok("controller()") {
        Expr::Call { func, args, .. } => {
            assert_eq!(func, "controller");
            assert!(args.is_empty());
        }
        e => panic!("expected Call, got {e:?}"),
    }
}

#[test]
fn parses_parenthesized() {
    match parse_expr_ok("(0x05)") {
        Expr::Int { value, .. } => assert_eq!(value, 5),
        e => panic!("expected Int, got {e:?}"),
    }
}

#[test]
fn rejects_bad_number() {
    let toks = lex("0xZZ").unwrap();
    assert!(parse_expr("0xZZ", &toks, 0).is_err());
}

#[test]
fn parses_concat() {
    match parse_expr_ok("a ++ b") {
        Expr::Binary { op: BinOp::Concat, .. } => {}
        e => panic!("expected Concat, got {e:?}"),
    }
}

#[test]
fn parses_xor() {
    match parse_expr_ok("0x16 ^ 0xFF") {
        Expr::Binary { op: BinOp::Xor, lhs, rhs, .. } => {
            assert!(matches!(*lhs, Expr::Int { value: 0x16, .. }));
            assert!(matches!(*rhs, Expr::Int { value: 0xFF, .. }));
        }
        e => panic!("expected Xor, got {e:?}"),
    }
}

#[test]
fn concat_is_lower_precedence_than_xor() {
    match parse_expr_ok("a ++ b ^ c") {
        Expr::Binary { op: BinOp::Concat, rhs, .. } => {
            assert!(matches!(*rhs, Expr::Binary { op: BinOp::Xor, .. }))
        }
        e => panic!("expected top-level Concat, got {e:?}"),
    }
}

#[test]
fn parses_send_with_crc() {
    let m = parse_ok("test t {\n  send [0x44] + crc8\n  pass\n}\n");
    match &m.tests[0].stmts[0] {
        Stmt::Send { append_crc, .. } => assert!(append_crc),
        s => panic!("expected Send, got {s:?}"),
    }
}

#[test]
fn parses_crc_region() {
    let m = parse_ok("test t {\n crc_region {\n  send [0x44]\n  send [0x00, 0x64]\n }\n pass\n}\n");
    match &m.tests[0].stmts[0] {
        Stmt::CrcRegion { sends, .. } => assert_eq!(sends.len(), 2),
        s => panic!("expected CrcRegion, got {s:?}"),
    }
}

#[test]
fn parses_config() {
    let m = parse_ok("test t {\n config controller, x1, sck20, alert_pin\n pass\n}\n");
    match &m.tests[0].stmts[0] {
        Stmt::Config { role, io, sck, alert, .. } => {
            assert_eq!(role, "controller");
            assert_eq!(io, "x1");
            assert_eq!(sck, "sck20");
            assert_eq!(alert, "alert_pin");
        }
        s => panic!("expected Config, got {s:?}"),
    }
}

#[test]
fn parses_multiline_bytes_literal() {
    match parse_expr_ok("[\n  0x44,\n  0x00,\n  0x64,\n]") {
        Expr::Bytes { elems, .. } => assert_eq!(elems.len(), 3),
        e => panic!("expected Bytes, got {e:?}"),
    }
}

#[test]
fn parses_bytes_with_trailing_comma() {
    match parse_expr_ok("[0x44, 0x00,]") {
        Expr::Bytes { elems, .. } => assert_eq!(elems.len(), 2),
        e => panic!("expected Bytes, got {e:?}"),
    }
}

#[test]
fn parses_multiline_call_arg() {
    match parse_expr_ok("crc8(\n  pkt\n)") {
        Expr::Call { func, .. } => assert_eq!(func, "crc8"),
        e => panic!("expected Call, got {e:?}"),
    }
}

#[test]
fn parses_multiline_parenthesized() {
    match parse_expr_ok("(\n  0x05\n)") {
        Expr::Int { value, .. } => assert_eq!(value, 5),
        e => panic!("expected Int, got {e:?}"),
    }
}

#[test]
fn parses_multiline_send_statement() {
    let m = parse_ok("test t {\n  send [\n    0x44,\n    0x00,\n    0x64,\n  ] + crc8\n  pass\n}\n");
    match &m.tests[0].stmts[0] {
        Stmt::Send { bytes, append_crc, .. } => {
            assert!(append_crc);
            match bytes {
                Expr::Bytes { elems, .. } => assert_eq!(elems.len(), 3),
                e => panic!("expected Bytes, got {e:?}"),
            }
        }
        s => panic!("expected Send, got {s:?}"),
    }
}

#[test]
fn parses_frame_with_body() {
    let m = parse_ok("test t {\n frame {\n  send [0x44]\n  tar 2\n }\n pass\n}\n");
    match &m.tests[0].stmts[0] {
        Stmt::Frame { body, .. } => assert_eq!(body.len(), 2),
        s => panic!("expected Frame, got {s:?}"),
    }
}

#[test]
fn parses_recv_names_and_discard() {
    let m = parse_ok("test t {\n recv data, _, status\n pass\n}\n");
    match &m.tests[0].stmts[0] {
        Stmt::Recv { targets, .. } => {
            assert!(matches!(targets[0], RecvTarget::Name(ref n) if n == "data"));
            assert!(matches!(targets[1], RecvTarget::Discard));
            assert!(matches!(targets[2], RecvTarget::Name(ref n) if n == "status"));
        }
        s => panic!("expected Recv, got {s:?}"),
    }
}

#[test]
fn parses_recv_count() {
    let m = parse_ok("test t {\n recv 3\n pass\n}\n");
    match &m.tests[0].stmts[0] {
        Stmt::Recv { targets, .. } => {
            assert_eq!(targets.len(), 3);
            assert!(targets.iter().all(|t| matches!(t, RecvTarget::Discard)));
        }
        s => panic!("expected Recv, got {s:?}"),
    }
}

#[test]
fn parses_wait_state_bare_and_named() {
    let m = parse_ok("test t {\n wait_state\n wait_state term\n pass\n}\n");
    assert!(matches!(m.tests[0].stmts[0], Stmt::WaitState { bind: None, .. }));
    match &m.tests[0].stmts[1] {
        Stmt::WaitState { bind: Some(n), .. } => assert_eq!(n, "term"),
        s => panic!("expected named WaitState, got {s:?}"),
    }
}

#[test]
fn parses_expect_crc_else() {
    let m = parse_ok("test t {\n frame {\n  expect crc else 0x11\n }\n pass\n}\n");
    match &m.tests[0].stmts[0] {
        Stmt::Frame { body, .. } => assert!(matches!(body[0], Stmt::Expect { .. })),
        s => panic!("expected Frame, got {s:?}"),
    }
}

#[test]
fn parses_repeat() {
    let m = parse_ok("test t {\n repeat 3 {\n  recv _\n }\n pass\n}\n");
    match &m.tests[0].stmts[0] {
        Stmt::Repeat { body, .. } => assert_eq!(body.len(), 1),
        s => panic!("expected Repeat, got {s:?}"),
    }
}

#[test]
fn arrow_and_colon_are_their_own_tokens() {
    assert_eq!(
        kinds("fn f(a: int) -> int"),
        vec![
            Tok::Ident,
            Tok::Ident,
            Tok::LParen,
            Tok::Ident,
            Tok::Colon,
            Tok::Ident,
            Tok::RParen,
            Tok::Arrow,
            Tok::Ident,
            Tok::Eof
        ]
    );
}

#[test]
fn the_first_bad_byte_is_reported_with_its_span() {
    let err = lex("pass $").unwrap_err();
    assert_eq!(err.len(), 1);
    assert_eq!(err[0].message, "unexpected character `$`");
    assert_eq!(err[0].primary, 5..6);
}

#[test]
fn a_non_ascii_byte_is_shown_as_that_byte() {
    let err = lex("\u{e9}").unwrap_err();
    assert_eq!(err[0].message, format!("unexpected character `{}`", 0xC3u8 as char));
    assert_eq!(err[0].primary, 0..1);
}

#[test]
fn an_unclosed_block_comment_spans_to_the_end() {
    let err = lex("pass /* open").unwrap_err();
    assert_eq!(err[0].message, "unterminated block comment");
    assert_eq!(err[0].primary, 5..12);
}
