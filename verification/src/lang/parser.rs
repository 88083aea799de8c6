//! Parser: tokens to the AST: a `Module` of `const`, `fn` and `proc` items and
//! `test`s of statements (`pass`, `fail N`, `send`/`crc_region`, frames,
//! receives, calls, `repeat`, or a verbatim raw instruction), plus the
//! compile-time `Expr` grammar (`[bytes]`, `++`, `^`, builtin and `fn` calls).
use vstd::prelude::*;
use vstd::string::StringSliceAdditionalSpecFns;

use crate::assembler::diagnostics::{span_copy, Diagnostic, Span};
use crate::lang::lexer::{tok_wf, tokens_wf, word_continue, Tok, Token};
use crate::text::{all_digits, ascii_chars, ascii_to_string, digit_value, digits_value, parse_digits, spec_parse_digits, str_eq};
use vstd::arithmetic::power::{lemma_pow_increases, pow};
use vstd::arithmetic::power2::{lemma2_to64, lemma_pow2_strictly_increases, lemma_pow2_unfold, pow2};

verus! {

/// A parsed `.tam` module: `const` items, `fn` items, `proc` items, and tests.
#[derive(Debug)]
pub struct Module {
    /// The `const` items, in source order.
    pub consts: Vec<Const>,
    /// The `fn` items, in source order.
    pub fns: Vec<FnDef>,
    /// The `proc` items, in source order.
    pub procs: Vec<ProcDef>,
    /// The tests, in source order.
    pub tests: Vec<Test>,
}

/// A `const NAME = expr` item.
#[derive(Debug)]
pub struct Const {
    /// The name.
    pub name: String,
    /// The name's span.
    pub name_span: Span,
    /// The value expression.
    pub value: Expr,
}

/// A single test: one program entry point.
#[derive(Debug)]
pub struct Test {
    /// The name.
    pub name: String,
    /// The name's span.
    pub name_span: Span,
    /// The body.
    pub stmts: Vec<Stmt>,
}

/// A statement.
#[derive(Debug)]
pub enum Stmt {
    /// `pass`: `halt 0x00`.
    Pass,
    /// `fail N`: `halt N`. `code` is the verbatim number lexeme.
    Fail { code: String, span: Span },
    /// A verbatim instruction: `mnemonic op, op, ...` emitted 1:1 to asm text.
    Raw { mnemonic: String, operands: Vec<String>, span: Span },
    /// `send <bytes-expr>` optionally followed by `+ crc8`.
    Send { bytes: Expr, append_crc: bool, span: Span },
    /// `crc_region { send <expr> ... }`: appends a CRC-8 over exactly the
    /// bytes the block emits, in order.
    CrcRegion { sends: Vec<Expr>, span: Span },
    /// `config role, io, sck, alert`: `set_config ...` (keywords pass through
    /// verbatim; the assembler validates them).
    Config { role: String, io: String, sck: String, alert: String, span: Span },
    /// `frame { ... }`: a CS scope, `cs_assert` before the body and
    /// `cs_deassert` on every exit.
    Frame { body: Vec<Stmt>, span: Span },
    /// `recv a, b, _` (names / discards) or `recv N` (N discards).
    Recv { targets: Vec<RecvTarget>, span: Span },
    /// `wait_state [name]`: poll past WAIT_STATE; `name` binds the terminal
    /// byte.
    WaitState { bind: Option<String>, span: Span },
    /// `expect crc else <byte>`: check the trailing CRC byte, failing with
    /// the byte after CS deasserts. Only legal inside a `frame`.
    Expect { else_code: Expr, span: Span },
    /// `name(args)`: a `proc` call, expanded inline at this point.
    Call { name: String, name_span: Span, args: Vec<Arg>, span: Span },
    /// `repeat N { ... }`: a compile-time unroll of the body `N` times.
    Repeat { count: Expr, body: Vec<Stmt>, span: Span },
}

/// One destination of a `recv`: a named binding or a `_` discard.
#[derive(Debug)]
pub enum RecvTarget {
    /// Bind the received byte to a named register for the enclosing scope.
    Name(String),
    /// Read and discard (a scratch register, freed immediately).
    Discard,
}

/// One argument at a call site: positional, or `name = value`.
#[derive(Debug)]
pub struct Arg {
    /// `Some(name)` for a named argument, `None` for a positional one.
    pub name: Option<String>,
    /// The argument's value expression.
    pub value: Expr,
    /// The span covering the whole argument (the name too, when named).
    pub span: Span,
}

/// A compile-time parameter or return type.
#[derive(Debug, Clone, Copy, PartialEq, Eq, Structural)]
pub enum Type {
    /// One wire byte, `0..=255`.
    Byte,
    /// A compile-time integer.
    Int,
    /// A compile-time byte string (the packet type).
    Bytes,
}

impl Type {
    /// The spelling used in source, and in diagnostics.
    pub fn name(self) -> (res: &'static str)
        ensures
            res@ == spelling_of(self),
    {
        match self {
            Type::Byte => "byte",
            Type::Int => "int",
            Type::Bytes => "bytes",
        }
    }
}

/// The spelling of a type.
pub open spec fn spelling_of(t: Type) -> Seq<char> {
    match t {
        Type::Byte => "byte"@,
        Type::Int => "int"@,
        Type::Bytes => "bytes"@,
    }
}

/// One declared parameter of a `fn`/`proc`: `name: type`, with an optional
/// default (`err: byte = 0x11`).
#[derive(Debug)]
pub struct Param {
    /// The parameter name, bound in the callee's scope.
    pub name: String,
    /// Its declared type.
    pub ty: Type,
    /// The default used when a call does not bind this parameter.
    pub default: Option<Expr>,
    /// The name, extended through the default expression when there is one.
    pub span: Span,
}

/// A `fn NAME(params) -> type { expr }` item: a pure compile-time function.
#[derive(Debug)]
pub struct FnDef {
    /// The name.
    pub name: String,
    /// The name's span.
    pub name_span: Span,
    /// The parameters.
    pub params: Vec<Param>,
    /// The declared return type.
    pub ret: Type,
    /// The body: a single expression.
    pub body: Expr,
}

/// A `proc NAME(params) { stmts }` item, inlined at every call site.
#[derive(Debug)]
pub struct ProcDef {
    /// The name.
    pub name: String,
    /// The name's span.
    pub name_span: Span,
    /// The parameters.
    pub params: Vec<Param>,
    /// The body.
    pub body: Vec<Stmt>,
}

/// A compile-time expression.
#[derive(Debug)]
pub enum Expr {
    /// An integer literal (already parsed from its lexeme).
    Int { value: i64, span: Span },
    /// A reference to a `const` or parameter by name.
    Name { name: String, span: Span },
    /// A byte-string literal `[e, e, ...]` (each element is a byte).
    Bytes { elems: Vec<Expr>, span: Span },
    /// A call: a builtin (`crc8`, `len`, `lo`, `hi`) or a user `fn`.
    Call { func: String, args: Vec<Arg>, span: Span },
    /// A binary operation (`^` on ints, `++` on bytes).
    Binary { op: BinOp, lhs: Box<Expr>, rhs: Box<Expr>, span: Span },
}

/// The binary operators.
#[derive(Debug, Clone, Copy, PartialEq, Eq, Structural)]
pub enum BinOp {
    /// `^`: bitwise xor on integers.
    Xor,
    /// `++`: bytes concatenation.
    Concat,
}

/// The source span covering an expression.
pub open spec fn expr_span(e: Expr) -> Span {
    match e {
        Expr::Int { span, .. } => span,
        Expr::Name { span, .. } => span,
        Expr::Bytes { span, .. } => span,
        Expr::Call { span, .. } => span,
        Expr::Binary { span, .. } => span,
    }
}

impl Expr {
    /// The source span covering this expression.
    pub fn span(&self) -> (res: Span)
        ensures
            res == expr_span(*self),
    {
        match self {
            Expr::Int { span, .. } => span_copy(span),
            Expr::Name { span, .. } => span_copy(span),
            Expr::Bytes { span, .. } => span_copy(span),
            Expr::Call { span, .. } => span_copy(span),
            Expr::Binary { span, .. } => span_copy(span),
        }
    }
}

/// The bytes of a numeric lexeme with its `_` separators removed.
pub open spec fn strip_underscores(s: Seq<u8>) -> Seq<u8>
    decreases s.len(),
{
    if s.len() == 0 {
        s
    } else if s.last() == 95 {
        strip_underscores(s.drop_last())
    } else {
        strip_underscores(s.drop_last()).push(s.last())
    }
}

/// The value of a numeric lexeme: `0x`/`0X` hex, `0b`/`0B` binary, or
/// decimal, with `_` separators ignored; `None` when the digits are not
/// valid or the value does not fit in `i64`.
pub open spec fn spec_parse_number(lexeme: Seq<u8>) -> Option<i64> {
    let s = strip_underscores(lexeme);
    if s.len() >= 2 && s[0] == 48 && (s[1] == 120 || s[1] == 88) {
        spec_parse_digits(s.subrange(2, s.len() as int), 16)
    } else if s.len() >= 2 && s[0] == 48 && (s[1] == 98 || s[1] == 66) {
        spec_parse_digits(s.subrange(2, s.len() as int), 2)
    } else {
        spec_parse_digits(s, 10)
    }
}

/// The number a string of binary digits (`0`/`1` bytes) denotes: each digit
/// weighted by the power of two of its place, counted from the right.
pub open spec fn binary_value(d: Seq<u8>) -> int
    decreases d.len(),
{
    if d.len() == 0 {
        0
    } else {
        (if d[0] == 49 {
            1int
        } else {
            0int
        }) * pow2((d.len() - 1) as nat) + binary_value(d.drop_first())
    }
}

proof fn lemma_binary_value_last(d: Seq<u8>)
    requires
        d.len() > 0,
        forall|k: int| 0 <= k < d.len() ==> d[k] == 48 || d[k] == 49,
    ensures
        binary_value(d) == 2 * binary_value(d.drop_last()) + (d.last() - 48),
        0 <= binary_value(d) < pow2(d.len()),
    decreases d.len(),
{
    let t = d.drop_first();
    let n = d.len();
    lemma_pow2_unfold(n);
    assert forall|k: int| 0 <= k < t.len() implies t[k] == 48 || t[k] == 49 by {
        assert(t[k] == d[k + 1]);
    }
    if t.len() == 0 {
        assert(d.drop_last() =~= Seq::<u8>::empty());
        assert(binary_value(t) == 0);
        assert(binary_value(d.drop_last()) == 0);
        assert(pow2(0) == 1) by {
            lemma2_to64();
        }
        assert(d.last() == d[0]);
        assert(pow2(1) == 2) by {
            lemma2_to64();
        }
    } else {
        lemma_binary_value_last(t);
        let dl = d.drop_last();
        assert(dl.drop_first() =~= t.drop_last());
        assert(dl[0] == d[0]);
        assert(dl.len() == n - 1);
        assert(t.last() == d.last());
        lemma_pow2_unfold((n - 1) as nat);
        let p = pow2((n - 2) as nat);
        assert(pow2((n - 1) as nat) == 2 * p);
        assert(binary_value(dl) == (if d[0] == 49 { 1int } else { 0int }) * p + binary_value(t.drop_last()));
        assert(binary_value(d) == (if d[0] == 49 { 1int } else { 0int }) * pow2((n - 1) as nat) + binary_value(t));
        if d[0] == 49 {
            assert(binary_value(d) == 2 * p + binary_value(t));
            assert(binary_value(dl) == p + binary_value(t.drop_last()));
        } else {
            assert(binary_value(d) == binary_value(t));
            assert(binary_value(dl) == binary_value(t.drop_last()));
        }
    }
}

proof fn lemma_strip_no_underscore(s: Seq<u8>)
    requires
        forall|k: int| 0 <= k < s.len() ==> s[k] != 95,
    ensures
        strip_underscores(s) == s,
    decreases s.len(),
{
    if s.len() > 0 {
        lemma_strip_no_underscore(s.drop_last());
        assert(s.drop_last().push(s.last()) =~= s);
    }
}

proof fn lemma_digits_binary(d: Seq<u8>)
    requires
        forall|k: int| 0 <= k < d.len() ==> d[k] == 48 || d[k] == 49,
    ensures
        digits_value(d, 2) == binary_value(d),
        all_digits(d, 2),
    decreases d.len(),
{
    if d.len() > 0 {
        lemma_digits_binary(d.drop_last());
        lemma_binary_value_last(d);
    }
}

/// A `0b`/`0B` literal denotes its digits in base two: for every run of up
/// to 62 binary digits, the literal's value is the sum of each digit times
/// the power of two of its place.
pub proof fn lemma_binary_literal(d: Seq<u8>, upper: bool)
    requires
        0 < d.len() <= 62,
        forall|k: int| 0 <= k < d.len() ==> d[k] == 48 || d[k] == 49,
    ensures
        spec_parse_number(seq![48u8, if upper { 66u8 } else { 98u8 }] + d) == Some(binary_value(d) as i64),
{
    let s = seq![48u8, if upper { 66u8 } else { 98u8 }] + d;
    lemma_strip_no_underscore(s);
    assert(s.subrange(2, s.len() as int) =~= d);
    lemma_digits_binary(d);
    lemma_binary_value_last(d);
    assert(pow2(d.len()) <= pow2(62)) by {
        if d.len() < 62 {
            lemma_pow2_strictly_increases(d.len(), 62);
        }
    }
    assert(pow2(64) == 4 * pow2(62)) by {
        lemma_pow2_unfold(64);
        lemma_pow2_unfold(63);
        lemma2_to64();
    }
    lemma2_to64();
}

/// The value of a digit character: `0`-`9`, then `a`-`f` (or `A`-`F`) as
/// ten to fifteen.
pub open spec fn digit_of(c: u8) -> int {
    if 48 <= c <= 57 {
        c - 48
    } else if 97 <= c <= 102 {
        c - 87
    } else if 65 <= c <= 70 {
        c - 55
    } else {
        0
    }
}

/// `c` is a digit of `radix` (at most sixteen).
pub open spec fn is_digit_of(c: u8, radix: int) -> bool {
    (48 <= c <= 57 || 97 <= c <= 102 || 65 <= c <= 70) && digit_of(c) < radix
}

/// The number a digit string denotes in `radix`: each digit weighted by the
/// power of the radix of its place, counted from the right.
pub open spec fn place_value(d: Seq<u8>, radix: int) -> int
    decreases d.len(),
{
    if d.len() == 0 {
        0
    } else {
        digit_of(d[0]) * pow(radix, (d.len() - 1) as nat) + place_value(d.drop_first(), radix)
    }
}

proof fn lemma_place_value_last(d: Seq<u8>, radix: int)
    requires
        2 <= radix <= 16,
        d.len() > 0,
        forall|k: int| 0 <= k < d.len() ==> is_digit_of(#[trigger] d[k], radix),
    ensures
        place_value(d, radix) == radix * place_value(d.drop_last(), radix) + digit_of(d.last()),
        0 <= place_value(d, radix) < pow(radix, d.len()),
    decreases d.len(),
{
    reveal(pow);
    let t = d.drop_first();
    let n = d.len();
    let f = digit_of(d[0]);
    assert(is_digit_of(d[0], radix));
    assert forall|k: int| 0 <= k < t.len() implies is_digit_of(#[trigger] t[k], radix) by {
        assert(t[k] == d[k + 1]);
    }
    assert(pow(radix, n) == radix * pow(radix, (n - 1) as nat));
    if t.len() == 0 {
        assert(d.drop_last() =~= Seq::<u8>::empty());
        assert(place_value(t, radix) == 0);
        assert(place_value(d.drop_last(), radix) == 0);
        assert(pow(radix, 0) == 1);
        assert(d.last() == d[0]);
        assert(place_value(d, radix) == f);
        assert(0 <= f < radix);
    } else {
        lemma_place_value_last(t, radix);
        let dl = d.drop_last();
        assert(dl.drop_first() =~= t.drop_last());
        assert(dl[0] == d[0]);
        assert(dl.len() == n - 1);
        assert(t.last() == d.last());
        let q = pow(radix, (n - 2) as nat);
        let p = pow(radix, (n - 1) as nat);
        assert(p == radix * q);
        let a = place_value(t.drop_last(), radix);
        let pt = place_value(t, radix);
        assert(place_value(dl, radix) == f * q + a);
        assert(place_value(d, radix) == f * p + pt);
        assert(pt == radix * a + digit_of(d.last()));
        assert(radix * (f * q + a) + digit_of(d.last()) == f * (radix * q) + (radix * a + digit_of(d.last())))
            by (nonlinear_arith);
        assert(0 <= pt < p);
        assert(0 <= f < radix);
        assert(0 <= f * p <= (radix - 1) * p) by (nonlinear_arith)
            requires
                0 <= f < radix,
                p >= 0,
        ;
        assert((radix - 1) * p + p == radix * p) by (nonlinear_arith);
    }
}

proof fn lemma_digits_place(d: Seq<u8>, radix: int)
    requires
        2 <= radix <= 16,
        forall|k: int| 0 <= k < d.len() ==> is_digit_of(#[trigger] d[k], radix),
    ensures
        digits_value(d, radix) == place_value(d, radix),
        all_digits(d, radix),
    decreases d.len(),
{
    if d.len() > 0 {
        assert forall|k: int| 0 <= k < d.drop_last().len() implies is_digit_of(#[trigger] d.drop_last()[k], radix) by {
            assert(d.drop_last()[k] == d[k]);
        }
        lemma_digits_place(d.drop_last(), radix);
        lemma_place_value_last(d, radix);
        assert(is_digit_of(d.last(), radix));
        assert(digit_value(d.last()) == digit_of(d.last()));
        let x = place_value(d.drop_last(), radix);
        assert(x * radix == radix * x) by (nonlinear_arith);
        assert forall|k: int| 0 <= k < d.len() implies digit_value(#[trigger] d[k]) < radix by {
            assert(is_digit_of(d[k], radix));
        }
    }
}

/// A decimal literal denotes its digits in base ten: for every run of up to
/// eighteen decimal digits, the literal's value is the sum of each digit
/// times the power of ten of its place.
pub proof fn lemma_decimal_literal(d: Seq<u8>)
    requires
        0 < d.len() <= 18,
        forall|k: int| 0 <= k < d.len() ==> 48 <= #[trigger] d[k] <= 57,
    ensures
        spec_parse_number(d) == Some(place_value(d, 10) as i64),
{
    assert forall|k: int| 0 <= k < d.len() implies is_digit_of(#[trigger] d[k], 10) by {
        assert(48 <= d[k] <= 57);
    }
    lemma_strip_no_underscore(d);
    lemma_digits_place(d, 10);
    lemma_place_value_last(d, 10);
    lemma_pow_increases(10, d.len(), 18);
    assert(pow(10, 18) == 1_000_000_000_000_000_000) by {
        reveal_with_fuel(pow, 19);
    }
    if d.len() >= 2 {
        assert(!(d[1] == 120 || d[1] == 88 || d[1] == 98 || d[1] == 66));
    }
}

/// A `0x`/`0X` literal denotes its digits in base sixteen (`a`-`f` and
/// `A`-`F` as ten to fifteen): for every run of up to fifteen hex digits,
/// the literal's value is the sum of each digit times the power of sixteen
/// of its place.
pub proof fn lemma_hex_literal(d: Seq<u8>, upper: bool)
    requires
        0 < d.len() <= 15,
        forall|k: int| 0 <= k < d.len() ==> is_digit_of(#[trigger] d[k], 16),
    ensures
        spec_parse_number(seq![48u8, if upper { 88u8 } else { 120u8 }] + d) == Some(place_value(d, 16) as i64),
{
    let s = seq![48u8, if upper { 88u8 } else { 120u8 }] + d;
    assert forall|k: int| 0 <= k < s.len() implies s[k] != 95 by {
        if k >= 2 {
            assert(s[k] == d[k - 2]);
            assert(is_digit_of(d[k - 2], 16));
        }
    }
    lemma_strip_no_underscore(s);
    assert(s.subrange(2, s.len() as int) =~= d);
    lemma_digits_place(d, 16);
    lemma_place_value_last(d, 16);
    lemma_pow_increases(16, d.len(), 15);
    assert(pow(16, 15) == 0x1000_0000_0000_0000) by {
        reveal_with_fuel(pow, 16);
    }
}

/// Parse a numeric lexeme (`0x..`, `0b..`, decimal, `_` separators allowed).
pub fn parse_number(lexeme: &[u8]) -> (res: Option<i64>)
    requires
        forall|k: int| 0 <= k < lexeme@.len() ==> word_continue(#[trigger] lexeme@[k]),
    ensures
        res == spec_parse_number(lexeme@),
        res matches Some(v) ==> v >= 0,
{
    let mut s: Vec<u8> = Vec::new();
    let mut i: usize = 0;
    while i < lexeme.len()
        invariant
            i <= lexeme@.len(),
            s@ == strip_underscores(lexeme@.subrange(0, i as int)),
        decreases lexeme@.len() - i,
    {
        let ghost pre = lexeme@.subrange(0, i as int);
        let c = lexeme[i];
        i = i + 1;
        assert(lexeme@.subrange(0, i as int).drop_last() =~= pre);
        if c != 95 {
            s.push(c);
        }
    }
    assert(lexeme@.subrange(0, lexeme@.len() as int) =~= lexeme@);
    let n = s.len();
    if n >= 2 && s[0] == 48 && (s[1] == 120 || s[1] == 88) {
        parse_digits(s.as_slice(), 2, n, 16)
    } else if n >= 2 && s[0] == 48 && (s[1] == 98 || s[1] == 66) {
        parse_digits(s.as_slice(), 2, n, 2)
    } else {
        assert(s@.subrange(0, n as int) =~= s@);
        parse_digits(s.as_slice(), 0, n, 10)
    }
}

/// The words `parse_stmt` matches before it would ever consider a `proc` call
/// or a raw instruction. A callable may not take one of these names: the
/// statement grammar wins, so such a callable would be definable but
/// uncallable.
pub fn stmt_keywords() -> (res: Vec<&'static str>)
    ensures
        res@.len() == 10,
{
    vec!["pass", "fail", "send", "crc_region", "config", "frame", "recv", "wait_state", "expect", "repeat"]
}

/// Is `word` one of the statement keywords?
pub fn is_stmt_keyword(word: &str) -> (res: bool)
    ensures
        res == (word@ == "pass"@ || word@ == "fail"@ || word@ == "send"@ || word@ == "crc_region"@
            || word@ == "config"@ || word@ == "frame"@ || word@ == "recv"@ || word@
            == "wait_state"@ || word@ == "expect"@ || word@ == "repeat"@),
{
    str_eq(word, "pass") || str_eq(word, "fail") || str_eq(word, "send") || str_eq(
        word,
        "crc_region",
    ) || str_eq(word, "config") || str_eq(word, "frame") || str_eq(word, "recv") || str_eq(
        word,
        "wait_state",
    ) || str_eq(word, "expect") || str_eq(word, "repeat")
}

/// The token stream and the source it was lexed from.
pub open spec fn stream_ok(src: &str, toks: Seq<Token>) -> bool {
    tokens_wf(src.spec_bytes(), toks)
}

/// A position in the stream; the `Eof` token is never consumed.
pub open spec fn pos_ok(toks: Seq<Token>, i: int) -> bool {
    0 <= i < toks.len()
}

/// The kind of the token at `i`.
fn peek(toks: &[Token], i: usize) -> (res: Tok)
    requires
        i < toks@.len(),
    ensures
        res == toks@[i as int].kind,
{
    toks[i].kind
}

/// The kind of the token `n` positions past `i`, or `Eof` beyond the end.
fn peek_at(toks: &[Token], i: usize, n: usize) -> (res: Tok)
    requires
        i < toks@.len(),
    ensures
        i + n < toks@.len() ==> res == toks@[i + n].kind,
{
    if n < toks.len() - i {
        toks[i + n].kind
    } else {
        Tok::Eof
    }
}

proof fn lemma_not_eof_next(src: &str, toks: Seq<Token>, i: int)
    requires
        stream_ok(src, toks),
        pos_ok(toks, i),
        !(toks[i].kind is Eof),
    ensures
        i + 1 < toks.len(),
{
}

/// The source text of the identifier or number token at `k`.
fn text_of(src: &str, toks: &[Token], k: usize) -> (res: String)
    requires
        stream_ok(src, toks@),
        pos_ok(toks@, k as int),
        toks@[k as int].kind is Ident || toks@[k as int].kind is Number,
    ensures
        res@ == ascii_chars(
            src.spec_bytes().subrange(
                toks@[k as int].span.start as int,
                toks@[k as int].span.end as int,
            ),
        ),
{
    let b = src.as_bytes();
    let s = toks[k].span.start;
    let e = toks[k].span.end;
    assert(tok_wf(src.spec_bytes(), toks@[k as int]));
    let part = &b[s..e];
    assert(part@ =~= b@.subrange(s as int, e as int));
    assert forall|j: int| 0 <= j < part@.len() implies part@[j] < 0x80 by {
        assert(part@[j] == b@[s + j]);
        if j > 0 {
            assert(word_continue(b@[s + j]));
        }
    }
    ascii_to_string(part)
}

fn err1(span: Span, msg: &str) -> (res: Vec<Diagnostic>)
    ensures
        res@.len() == 1,
        res@[0].message@ == msg@,
        res@[0].primary == span,
{
    vec![Diagnostic::error(span, msg)]
}

fn err1_owned(span: Span, msg: String) -> (res: Vec<Diagnostic>)
    ensures
        res@.len() == 1,
        res@[0].message == msg,
        res@[0].primary == span,
{
    vec![Diagnostic::error_owned(span, msg)]
}

/// The span of the token at `i`.
fn span_at(toks: &[Token], i: usize) -> (res: Span)
    requires
        i < toks@.len(),
    ensures
        res == toks@[i as int].span,
{
    span_copy(&toks[i].span)
}

fn skip_newlines(src: &str, toks: &[Token], i: usize) -> (res: usize)
    requires
        stream_ok(src, toks@),
        pos_ok(toks@, i as int),
    ensures
        i <= res,
        pos_ok(toks@, res as int),
        !(toks@[res as int].kind is Newline),
        res == skip_nl(toks@, i as int),
{
    let mut j = i;
    while toks[j].kind == Tok::Newline
        invariant
            stream_ok(src, toks@),
            i <= j < toks@.len(),
            skip_nl(toks@, j as int) == skip_nl(toks@, i as int),
        decreases toks@.len() - j,
    {
        j = j + 1;
    }
    j
}

/// Consume one token of `kind` (never `Eof`), else an `expected ...`
/// diagnostic.
fn expect(src: &str, toks: &[Token], i: usize, kind: Tok, what: &str) -> (res: Result<
    (Span, usize),
    Vec<Diagnostic>,
>)
    requires
        stream_ok(src, toks@),
        pos_ok(toks@, i as int),
        !(kind is Eof),
    ensures
        res matches Ok((sp, j)) ==> j == i + 1 && pos_ok(toks@, j as int) && toks@[i as int].kind
            == kind && sp == toks@[i as int].span,
        res matches Err(ds) ==> ds@.len() == 1,
        res is Ok <==> toks@[i as int].kind == kind,
{
    if toks[i].kind == kind {
        proof {
            lemma_not_eof_next(src, toks@, i as int);
        }
        Ok((span_at(toks, i), i + 1))
    } else {
        let mut m = String::new();
        m.append("expected ");
        m.append(what);
        Err(err1_owned(span_at(toks, i), m))
    }
}

fn end_stmt(src: &str, toks: &[Token], i: usize) -> (res: Result<usize, Vec<Diagnostic>>)
    requires
        stream_ok(src, toks@),
        pos_ok(toks@, i as int),
    ensures
        res matches Ok(j) ==> i <= j && pos_ok(toks@, j as int),
        res matches Err(ds) ==> ds@.len() == 1,
        res is Ok <==> (toks@[i as int].kind is Newline || toks@[i as int].kind is RBrace || toks@[i as int].kind is Eof),
        res matches Ok(j) ==> j == if toks@[i as int].kind is Newline {
            i + 1
        } else {
            i as int
        },
{
    match toks[i].kind {
        Tok::Newline => {
            proof {
                lemma_not_eof_next(src, toks@, i as int);
            }
            Ok(i + 1)
        },
        Tok::RBrace | Tok::Eof => Ok(i),
        _ => Err(err1(span_at(toks, i), "expected end of statement (newline or `}`)")),
    }
}

fn at_stmt_end(toks: &[Token], i: usize) -> (res: bool)
    requires
        i < toks@.len(),
    ensures
        res == (toks@[i as int].kind is Newline || toks@[i as int].kind is RBrace || toks@[i as int].kind is Eof),
{
    match toks[i].kind {
        Tok::Newline | Tok::RBrace | Tok::Eof => true,
        _ => false,
    }
}

/// The type a type name spells.
pub open spec fn spec_type_of(word: Seq<char>) -> Option<Type> {
    if word == "byte"@ {
        Some(Type::Byte)
    } else if word == "int"@ {
        Some(Type::Int)
    } else if word == "bytes"@ {
        Some(Type::Bytes)
    } else {
        None
    }
}

fn parse_type(src: &str, toks: &[Token], i: usize) -> (res: Result<(Type, usize), Vec<Diagnostic>>)
    requires
        stream_ok(src, toks@),
        pos_ok(toks@, i as int),
    ensures
        res matches Ok((t, j)) ==> j == i + 1 && pos_ok(toks@, j as int) && Some(t)
            == spec_type_of(
            ascii_chars(
                src.spec_bytes().subrange(
                    toks@[i as int].span.start as int,
                    toks@[i as int].span.end as int,
                ),
            ),
        ),
        res matches Err(ds) ==> ds@.len() == 1,
{
    let (sp, j) = expect(src, toks, i, Tok::Ident, "an identifier")?;
    let word = text_of(src, toks, i);
    if str_eq(word.as_str(), "byte") {
        Ok((Type::Byte, j))
    } else if str_eq(word.as_str(), "int") {
        Ok((Type::Int, j))
    } else if str_eq(word.as_str(), "bytes") {
        Ok((Type::Bytes, j))
    } else {
        let mut m = String::new();
        m.append("unknown type `");
        m.append(word.as_str());
        m.append("`");
        Err(vec![Diagnostic::error_owned(sp, m).with_help("the types are byte, int, bytes")])
    }
}

/// The common obligations of a parse step starting at `i`: a result ends at
/// a later position of the stream, and a failure is one diagnostic.
pub open spec fn step_ok<T>(toks: Seq<Token>, i: int, res: Result<(T, usize), Vec<Diagnostic>>, strict: bool) -> bool {
    &&& res matches Ok((_, j)) ==> (if strict { i < j } else { i <= j }) && pos_ok(toks, j as int)
    &&& res matches Err(ds) ==> ds@.len() == 1
}

/// Parse statements up to and including the matching `}` (the `{` is
/// already consumed); returns the body and the closing brace's end offset.
/// Parse one statement of a block: a one-line statement sure to parse comes
/// back as the statement its word starts, with parsing resumed past its line.
#[verifier::spinoff_prover]
#[verifier::rlimit(60)]
fn parse_block_stmt(src: &str, toks: &[Token], i: usize) -> (res: Result<(Stmt, usize), Vec<Diagnostic>>)
    requires
        stream_ok(src, toks@),
        pos_ok(toks@, i as int),
    ensures
        step_ok(toks@, i as int, res, true),
        simple_stmt_end(src, toks@, i as int) is Some ==> (res matches Ok((st, j)) && j == simple_stmt_end(
            src,
            toks@,
            i as int,
        )->0 && stmt_head(src, toks@, i as int, st)),
    decreases toks@.len() - i, 9nat,
{
    proof {
        lemma_stmt_words();
    }
    let res = parse_stmt(src, toks, i);
    proof {
        if simple_stmt_end(src, toks@, i as int) is Some {
            let w = word_at(src, toks@, i as int);
            let e = simple_stmt_end(src, toks@, i as int)->0;
            if w == "pass"@ {
                assert(0 <= after_end(toks@, i + 1) < toks@.len());
                assert(res->Ok_0.1 == e);
            } else if w == "fail"@ {
                assert(res->Ok_0.1 == e);
            } else {
                assert(!stmt_word(w));
                assert(res->Ok_0.1 == e);
            }
            assert(stmt_head(src, toks@, i as int, res->Ok_0.0));
        }
    }
    res
}

#[verifier::spinoff_prover]
#[verifier::rlimit(100)]
fn parse_block(src: &str, toks: &[Token], i: usize, what: &str) -> (res: Result<
    ((Vec<Stmt>, usize), usize),
    Vec<Diagnostic>,
>)
    requires
        stream_ok(src, toks@),
        pos_ok(toks@, i as int),
    ensures
        step_ok(toks@, i as int, res, true),
        simple_block_end(src, toks@, i as int) matches Some(e) ==> (res matches Ok((_, j)) && j == e),
        simple_block_end(src, toks@, i as int) is Some ==> (res matches Ok(((body, _), _)) && stmts_at(
            src,
            toks@,
            simple_block_stmts(src, toks@, i as int),
            body@,
        )),
    decreases toks@.len() - i, 10nat,
{
    let mut body: Vec<Stmt> = Vec::new();
    let mut j = i;
    let ghost mut done: Seq<int> = Seq::empty();
    assert(done + simple_block_stmts(src, toks@, i as int) =~= simple_block_stmts(src, toks@, i as int));
    loop
        invariant
            stream_ok(src, toks@),
            pos_ok(toks@, j as int),
            i <= j,
            simple_block_end(src, toks@, i as int) is Some ==> simple_block_end(src, toks@, j as int)
                == simple_block_end(src, toks@, i as int) && simple_block_stmts(src, toks@, i as int)
                == done + simple_block_stmts(src, toks@, j as int) && stmts_at(src, toks@, done, body@),
        decreases toks@.len() - j,
    {
        let ghost j0 = j;
        j = skip_newlines(src, toks, j);
        match toks[j].kind {
            Tok::Eof => {
                let mut m = String::new();
                m.append("unexpected end of file: missing `}` for `");
                m.append(what);
                m.append("`");
                return Err(err1_owned(span_at(toks, j), m));
            },
            Tok::RBrace => {
                proof {
                    if simple_block_end(src, toks@, i as int) is Some {
                        assert(simple_block_stmts(src, toks@, j0 as int) =~= Seq::<int>::empty());
                        assert(done + Seq::<int>::empty() =~= done);
                    }
                }
                let end = toks[j].span.end;
                proof {
                    lemma_not_eof_next(src, toks@, j as int);
                }
                return Ok(((body, end), j + 1));
            },
            _ => {
                let (st, k) = parse_block_stmt(src, toks, j)?;
                let ghost prev = body@;
                body.push(st);
                proof {
                    if simple_block_end(src, toks@, i as int) is Some {
                        let rest = simple_block_stmts(src, toks@, k as int);
                        assert(simple_block_stmts(src, toks@, j0 as int) == seq![j as int] + rest);
                        assert(done + (seq![j as int] + rest) =~= done.push(j as int) + rest);
                        assert forall|q: int| 0 <= q < done.push(j as int).len() implies simple_stmt_end(
                            src,
                            toks@,
                            #[trigger] done.push(j as int)[q],
                        ) is Some && stmt_head(src, toks@, done.push(j as int)[q], body@[q]) by {
                            if q < done.len() {
                                assert(body@[q] == prev[q]);
                                assert(done.push(j as int)[q] == done[q]);
                            }
                        }
                        done = done.push(j as int);
                    }
                }
                j = k;
            },
        }
    }
}

fn parse_operand(src: &str, toks: &[Token], i: usize) -> (res: Result<(Span, usize), Vec<Diagnostic>>)
    requires
        stream_ok(src, toks@),
        pos_ok(toks@, i as int),
    ensures
        step_ok(toks@, i as int, res, true),
        res matches Ok((sp, j)) ==> j == i + 1 && sp == toks@[i as int].span && (toks@[i as int].kind is Ident
            || toks@[i as int].kind is Number),
        res is Ok <==> (toks@[i as int].kind is Ident || toks@[i as int].kind is Number),
{
    match toks[i].kind {
        Tok::Number | Tok::Ident => {
            proof {
                lemma_not_eof_next(src, toks@, i as int);
            }
            Ok((span_at(toks, i), i + 1))
        },
        _ => Err(err1(span_at(toks, i), "expected an operand (number or register/name)")),
    }
}

/// A token that ends a statement.
pub open spec fn ends_stmt(k: Tok) -> bool {
    k is Newline || k is RBrace || k is Eof
}

/// Where parsing resumes after a statement that ends at token `k`: past a
/// newline, else at `k` itself.
pub open spec fn after_end(toks: Seq<Token>, k: int) -> int {
    if toks[k].kind is Newline {
        k + 1
    } else {
        k
    }
}

/// `fail` and `wait_state` are spelled unlike the keywords tried before
/// them.
pub proof fn lemma_stmt_words()
    ensures
        "pass"@ != "fail"@,
        "pass"@ != "wait_state"@,
        "fail"@ != "wait_state"@,
        "send"@ != "wait_state"@,
        "crc_region"@ != "wait_state"@,
        "config"@ != "wait_state"@,
        "frame"@ != "wait_state"@,
        "recv"@ != "wait_state"@,
{
    reveal_strlit("pass");
    reveal_strlit("fail");
    reveal_strlit("send");
    reveal_strlit("crc_region");
    reveal_strlit("config");
    reveal_strlit("frame");
    reveal_strlit("recv");
    reveal_strlit("wait_state");
    assert("pass"@[0] != "fail"@[0]);
    assert("crc_region"@[0] != "wait_state"@[0]);

}

/// The place of a statement keyword in the order the parser tries them
/// (`pass` 0 through `repeat` 9), or 10 for any other word.
pub open spec fn stmt_kind_of(w: Seq<char>) -> int {
    if w == "pass"@ {
        0
    } else if w == "fail"@ {
        1
    } else if w == "send"@ {
        2
    } else if w == "crc_region"@ {
        3
    } else if w == "config"@ {
        4
    } else if w == "frame"@ {
        5
    } else if w == "recv"@ {
        6
    } else if w == "wait_state"@ {
        7
    } else if w == "expect"@ {
        8
    } else if w == "repeat"@ {
        9
    } else {
        10
    }
}

/// A statement keyword.
pub open spec fn stmt_word(w: Seq<char>) -> bool {
    ||| w == "pass"@
    ||| w == "fail"@
    ||| w == "send"@
    ||| w == "crc_region"@
    ||| w == "config"@
    ||| w == "frame"@
    ||| w == "recv"@
    ||| w == "wait_state"@
    ||| w == "expect"@
    ||| w == "repeat"@
}

/// `st` is a statement of the kind that the word at token `i` starts: a
/// keyword gives its own statement, a name followed by `(` a `proc` call,
/// any other word a raw instruction. Each starts where the word does; the
/// fields that the head tokens alone decide are theirs.
pub open spec fn stmt_head(src: &str, toks: Seq<Token>, i: int, st: Stmt) -> bool {
    let w = word_at(src, toks, i);
    let s0 = toks[i].span.start;
    if w == "pass"@ {
        st is Pass
    } else if w == "fail"@ {
        st matches Stmt::Fail { code, span } && toks[i + 1].kind is Number && code@ == word_at(
            src,
            toks,
            i + 1,
        ) && span == (s0..toks[i + 1].span.end)
    } else if w == "send"@ {
        st matches Stmt::Send { span, .. } && span.start == s0
    } else if w == "crc_region"@ {
        st matches Stmt::CrcRegion { span, .. } && span.start == s0
    } else if w == "config"@ {
        &&& st matches Stmt::Config { role, io, sck, alert, span }
        &&& role@ == word_at(src, toks, i + 1)
        &&& io@ == word_at(src, toks, i + 3)
        &&& sck@ == word_at(src, toks, i + 5)
        &&& alert@ == word_at(src, toks, i + 7)
        &&& span == (s0..toks[i + 7].span.end)
    } else if w == "frame"@ {
        st matches Stmt::Frame { span, .. } && span.start == s0
    } else if w == "recv"@ {
        st matches Stmt::Recv { span, .. } && span.start == s0
    } else if w == "wait_state"@ {
        st matches Stmt::WaitState { bind, span } && if toks[i + 1].kind is Ident {
            bind matches Some(b) && b@ == word_at(src, toks, i + 1) && span == (s0..toks[i
                + 1].span.end)
        } else {
            bind is None && span == toks[i].span
        }
    } else if w == "expect"@ {
        st matches Stmt::Expect { span, .. } && span.start == s0
    } else if w == "repeat"@ {
        st matches Stmt::Repeat { span, .. } && span.start == s0
    } else if toks[i + 1].kind is LParen {
        st matches Stmt::Call { name, name_span, span, .. } && name@ == w && name_span
            == toks[i].span && span.start == s0
    } else {
        st matches Stmt::Raw { mnemonic, span, .. } && mnemonic@ == w && span.start == s0
    }
}

/// Where the operands of a raw instruction that start at token `k` end (the
/// statement end after the last one): numbers or names separated by single
/// commas. `None` when they do not.
pub open spec fn raw_ops_end(toks: Seq<Token>, k: int) -> Option<int>
    decreases toks.len() - k,
{
    if k < 0 || k + 1 >= toks.len() || !(toks[k].kind is Ident || toks[k].kind is Number) {
        None
    } else if toks[k + 1].kind is Comma {
        raw_ops_end(toks, k + 2)
    } else if ends_stmt(toks[k + 1].kind) {
        Some(k + 1)
    } else {
        None
    }
}

/// Where a raw instruction whose operands start at token `k` ends.
pub open spec fn raw_end(toks: Seq<Token>, k: int) -> Option<int> {
    if 0 <= k < toks.len() && ends_stmt(toks[k].kind) {
        Some(k)
    } else {
        raw_ops_end(toks, k)
    }
}

/// Where parsing resumes after a one-line statement at token `i` that is
/// sure to parse: `pass`, `fail N`, or a raw instruction with its operands,
/// each up to the end of its line. `None` for every other statement.
pub open spec fn simple_stmt_end(src: &str, toks: Seq<Token>, i: int) -> Option<int> {
    if !(0 <= i && i + 1 < toks.len() && toks[i].kind is Ident) {
        None
    } else {
        let w = word_at(src, toks, i);
        if w == "pass"@ {
            if ends_stmt(toks[i + 1].kind) {
                Some(after_end(toks, i + 1))
            } else {
                None
            }
        } else if w == "fail"@ {
            if i + 2 < toks.len() && toks[i + 1].kind is Number && ends_stmt(toks[i + 2].kind) {
                Some(after_end(toks, i + 2))
            } else {
                None
            }
        } else if !stmt_word(w) && !(toks[i + 1].kind is LParen) {
            match raw_end(toks, i + 1) {
                Some(e) => if e < toks.len() {
                    Some(after_end(toks, e))
                } else {
                    None
                },
                None => None,
            }
        } else {
            None
        }
    }
}

/// Where parsing resumes after a block body that starts at token `j` and
/// holds only one-line statements sure to parse (see [`simple_stmt_end`]),
/// blank lines between them, up to its closing `}`. `None` for any other
/// body.
pub open spec fn simple_block_end(src: &str, toks: Seq<Token>, j: int) -> Option<int>
    decreases toks.len() - j,
{
    let k = skip_nl(toks, j);
    if !(0 <= j <= k < toks.len()) {
        None
    } else if toks[k].kind is RBrace {
        Some(k + 1)
    } else {
        match simple_stmt_end(src, toks, k) {
            Some(e) => if k < e <= toks.len() {
                simple_block_end(src, toks, e)
            } else {
                None
            },
            None => None,
        }
    }
}

/// The positions of the statements of a block body that starts at token
/// `j` and holds only one-line statements sure to parse, in order.
pub open spec fn simple_block_stmts(src: &str, toks: Seq<Token>, j: int) -> Seq<int>
    decreases toks.len() - j,
{
    let k = skip_nl(toks, j);
    if !(0 <= j <= k < toks.len()) || toks[k].kind is RBrace {
        Seq::empty()
    } else {
        match simple_stmt_end(src, toks, k) {
            Some(e) => if k < e <= toks.len() {
                seq![k] + simple_block_stmts(src, toks, e)
            } else {
                Seq::empty()
            },
            None => Seq::empty(),
        }
    }
}

/// `stmts` are, one for one, the statements at the positions `pos`, each a
/// one-line statement sure to parse.
pub open spec fn stmts_at(src: &str, toks: Seq<Token>, pos: Seq<int>, stmts: Seq<Stmt>) -> bool {
    &&& stmts.len() == pos.len()
    &&& forall|q: int|
        0 <= q < pos.len() ==> simple_stmt_end(src, toks, #[trigger] pos[q]) is Some && stmt_head(
            src,
            toks,
            pos[q],
            stmts[q],
        )
}

/// The names of a `recv` list that starts at token `k`: the positions of the
/// names, separated by commas (a newline may follow a comma), and where the
/// list ends. `None` when a name is missing.
pub open spec fn recv_names(toks: Seq<Token>, k: int) -> Option<(Seq<int>, int)>
    decreases toks.len() - k,
{
    if k < 0 || k + 1 >= toks.len() || !(toks[k].kind is Ident) {
        None
    } else if toks[k + 1].kind is Comma {
        let k2 = skip_nl(toks, k + 2);
        if k + 2 <= k2 < toks.len() {
            match recv_names(toks, k2) {
                Some((ps, e)) => Some((seq![k] + ps, e)),
                None => None,
            }
        } else {
            None
        }
    } else {
        Some((seq![k], k + 1))
    }
}

/// `done` in front of the names of a `recv` list, if there is one.
pub open spec fn names_then(done: Seq<int>, o: Option<(Seq<int>, int)>) -> Option<(Seq<int>, int)> {
    match o {
        Some((ps, e)) => Some((done + ps, e)),
        None => None,
    }
}

/// Where the `recv` list that starts at token `k` ends.
pub open spec fn recv_list_end(toks: Seq<Token>, k: int) -> int {
    match recv_names(toks, k) {
        Some((_, e)) => e,
        None => k,
    }
}

/// The positions of the names of the `recv` list that starts at token `k`.
pub open spec fn recv_list_pos(toks: Seq<Token>, k: int) -> Seq<int> {
    match recv_names(toks, k) {
        Some((ps, _)) => ps,
        None => Seq::empty(),
    }
}

/// `targets` are the `recv` targets the names at `pos` spell: `_` discards,
/// any other name keeps the byte under that name.
pub open spec fn recv_targets_at(src: &str, toks: Seq<Token>, pos: Seq<int>, targets: Seq<RecvTarget>) -> bool {
    &&& targets.len() == pos.len()
    &&& forall|q: int|
        0 <= q < pos.len() ==> if word_at(src, toks, #[trigger] pos[q]) == "_"@ {
            targets[q] is Discard
        } else {
            targets[q] matches RecvTarget::Name(n) && n@ == word_at(src, toks, pos[q])
        }
}

/// Parse a `recv` name list from token `k`: the targets, the end offset of
/// the last name, and the position after the list.
#[verifier::spinoff_prover]
#[verifier::rlimit(40)]
fn parse_recv_names(src: &str, toks: &[Token], start: usize) -> (res: Result<(Vec<RecvTarget>, usize, usize), Vec<Diagnostic>>)
    requires
        stream_ok(src, toks@),
        pos_ok(toks@, start as int),
    ensures
        res is Ok <==> recv_names(toks@, start as int) is Some,
        res matches Ok((targets, end, j)) ==> recv_names(toks@, start as int) == Some((recv_list_pos(toks@, start as int), j as int))
            && recv_targets_at(src, toks@, recv_list_pos(toks@, start as int), targets@) && start < j && pos_ok(toks@, j as int)
            && end == toks@[j - 1].span.end,
        res matches Err(ds) ==> ds@.len() == 1,
{
    let mut targets: Vec<RecvTarget> = Vec::new();
    let mut end: usize = 0;
    let mut k = start;
    let ghost k_start = start;
    let ghost mut done: Seq<int> = Seq::empty();
    proof {
        match recv_names(toks@, k as int) {
            Some((ps, e)) => {
                assert(done + ps =~= ps);
            },
            None => {},
        }
        assert(recv_names(toks@, k_start as int) == names_then(done, recv_names(toks@, k as int)));
    }
    loop
        invariant_except_break
            recv_names(toks@, k_start as int) == names_then(done, recv_names(toks@, k as int)),
        invariant
            stream_ok(src, toks@),
            pos_ok(toks@, k as int),
            k_start <= k,
            k_start == start,
            recv_targets_at(src, toks@, done, targets@),
        ensures
            recv_names(toks@, k_start as int) == Some((done, k as int)),
            recv_targets_at(src, toks@, done, targets@),
            end == toks@[k - 1].span.end,
            k_start < k,
        decreases toks@.len() - k,
    {
        let ghost k0 = k;
        let (sp, k2) = expect(src, toks, k, Tok::Ident, "an identifier")?;
        end = sp.end;
        let name = text_of(src, toks, k);
        let ghost tprev = targets@;
        if str_eq(name.as_str(), "_") {
            targets.push(RecvTarget::Discard);
        } else {
            targets.push(RecvTarget::Name(name));
        }
        proof {
            let d2 = done.push(k0 as int);
            assert forall|q: int| 0 <= q < d2.len() implies if word_at(src, toks@, #[trigger] d2[q]) == "_"@ {
                targets@[q] is Discard
            } else {
                targets@[q] matches RecvTarget::Name(n) && n@ == word_at(src, toks@, d2[q])
            } by {
                if q < done.len() {
                    assert(d2[q] == done[q] && targets@[q] == tprev[q]);
                }
            }
            done = d2;
        }
        k = k2;
        if toks[k].kind == Tok::Comma {
            proof {
                lemma_not_eof_next(src, toks@, k as int);
            }
            k = skip_newlines(src, toks, k + 1);
            proof {
                assert(recv_names(toks@, k0 as int) == names_then(seq![k0 as int], recv_names(toks@, k as int)));
                match recv_names(toks@, k as int) {
                    Some((ps, e)) => {
                        assert(done.drop_last() + (seq![k0 as int] + ps) =~= done + ps);
                    },
                    None => {},
                }
            }
        } else {
            proof {
                assert(recv_names(toks@, k0 as int) == Some((seq![k0 as int], k as int)));
                assert(done.drop_last() + seq![k0 as int] =~= done);
            }
            break ;
        }
    }
    Ok((targets, end, k))
}

/// Parse one statement. The statement keywords are matched first; anything
/// else is a `proc` call (when followed by `(`) or a raw instruction.
#[verifier::spinoff_prover]
#[verifier::rlimit(60)]
fn parse_stmt(src: &str, toks: &[Token], i: usize) -> (res: Result<(Stmt, usize), Vec<Diagnostic>>)
    requires
        stream_ok(src, toks@),
        pos_ok(toks@, i as int),
    ensures
        step_ok(toks@, i as int, res, true),
        !(toks@[i as int].kind is Ident) ==> res is Err,
        res matches Ok((st, _)) ==> toks@[i as int].kind is Ident && stmt_head(src, toks@, i as int, st),
        toks@[i as int].kind is Ident && word_at(src, toks@, i as int) == "pass"@ ==> (res is Ok
            <==> ends_stmt(toks@[i + 1].kind)),
        toks@[i as int].kind is Ident && word_at(src, toks@, i as int) == "pass"@ && ends_stmt(
            toks@[i + 1].kind,
        ) ==> (res matches Ok((st, j)) && st is Pass && j == after_end(toks@, i + 1)),
        toks@[i as int].kind is Ident && word_at(src, toks@, i as int) == "fail"@ && toks@[i
            + 1].kind is Number && ends_stmt(toks@[i + 2].kind) ==> (res matches Ok((_, j)) && j
            == after_end(toks@, i + 2)),
        toks@[i as int].kind is Ident && word_at(src, toks@, i as int) == "wait_state"@ && (if toks@[i
            + 1].kind is Ident {
            ends_stmt(toks@[i + 2].kind)
        } else {
            ends_stmt(toks@[i + 1].kind)
        }) ==> res is Ok,
        toks@[i as int].kind is Ident && !stmt_word(word_at(src, toks@, i as int)) && ends_stmt(
            toks@[i + 1].kind,
        ) ==> (res matches Ok((Stmt::Raw { operands, span, .. }, j)) && operands@.len() == 0 && span
            == toks@[i as int].span && j == after_end(toks@, i + 1)),
        toks@[i as int].kind is Ident && !stmt_word(word_at(src, toks@, i as int)) && !(toks@[i
            + 1].kind is LParen) && raw_end(toks@, i + 1) is Some && raw_end(toks@, i + 1)->0 < toks@.len()
            ==> (res matches Ok((_, j)) && j == after_end(toks@, raw_end(toks@, i + 1)->0)),
        toks@[i as int].kind is Ident && stmt_kind_of(word_at(src, toks@, i as int)) == 6 && toks@[i
            + 1].kind is Ident && recv_names(toks@, i + 1) is Some && ends_stmt(toks@[recv_list_end(toks@, i + 1)].kind)
            ==> res is Ok,
        toks@[i as int].kind is Ident && stmt_kind_of(word_at(src, toks@, i as int)) == 6 && toks@[i
            + 1].kind is Ident ==> (res matches Ok((st, j)) ==> (st matches Stmt::Recv { targets, span } && recv_targets_at(
            src,
            toks@,
            recv_list_pos(toks@, i + 1),
            targets@,
        ) && j == after_end(toks@, recv_list_end(toks@, i + 1)) && span == (toks@[i as int].span.start..toks@[recv_list_end(
            toks@,
            i + 1,
        ) - 1].span.end))),
        toks@[i as int].kind is Ident && stmt_kind_of(word_at(src, toks@, i as int)) == 8 && toks@[i + 1].kind is Ident
            && word_at(src, toks@, i + 1) == "crc"@ && toks@[i + 2].kind is Ident && word_at(src, toks@, i + 2) == "else"@
            && is_atom(src, toks@, i + 3) && no_operator(toks@, i + 4) && ends_stmt(toks@[i + 4].kind) ==> (res matches Ok(
            (st, j),
        ) && j == after_end(toks@, i + 4) && (st matches Stmt::Expect { else_code, span } && atom_is(
            src,
            toks@,
            i + 3,
            else_code,
        ) && span == (toks@[i as int].span.start..toks@[i + 3].span.end))),
        toks@[i as int].kind is Ident && stmt_kind_of(word_at(src, toks@, i as int)) == 9 && is_atom(src, toks@, i + 1)
            && no_operator(toks@, i + 2) ==> (res matches Ok((st, _)) ==> (st matches Stmt::Repeat { count, .. }
            && atom_is(src, toks@, i + 1, count))),
        toks@[i as int].kind is Ident && stmt_kind_of(word_at(src, toks@, i as int)) == 2 && is_atom(src, toks@, i + 1)
            && no_operator(toks@, i + 2) && !(toks@[i + 2].kind is Plus) && ends_stmt(toks@[i + 2].kind) ==> (res matches Ok(
            (st, j),
        ) && j == after_end(toks@, i + 2) && (st matches Stmt::Send { bytes, append_crc, span } && atom_is(
            src,
            toks@,
            i + 1,
            bytes,
        ) && !append_crc && span == (toks@[i as int].span.start..toks@[i + 1].span.end))),
    decreases toks@.len() - i, 8nat,
{
    proof {
        lemma_stmt_words();
    }
    let (head, i1) = expect(src, toks, i, Tok::Ident, "an identifier")?;
    let word = text_of(src, toks, i);
    let w = word.as_str();
    if str_eq(w, "pass") {
        let j = end_stmt(src, toks, i1)?;
        Ok((Stmt::Pass, j))
    } else if str_eq(w, "fail") {
        let (nsp, i2) = expect(src, toks, i1, Tok::Number, "a verdict number")?;
        let code = text_of(src, toks, i1);
        let span = head.start..nsp.end;
        let j = end_stmt(src, toks, i2)?;
        Ok((Stmt::Fail { code, span }, j))
    } else if str_eq(w, "send") {
        let (bytes, mut k) = parse_expr(src, toks, i1)?;
        proof {
            lemma_atom(src, toks@, i1 as int, bytes);
        }
        let mut end = bytes.span().end;
        let mut append_crc = false;
        if toks[k].kind == Tok::Plus {
            proof {
                lemma_not_eof_next(src, toks@, k as int);
            }
            let (kw, k2) = expect(src, toks, k + 1, Tok::Ident, "an identifier")?;
            let t = text_of(src, toks, k + 1);
            if !str_eq(t.as_str(), "crc8") {
                return Err(err1(kw, "expected `crc8` after `+` in a `send`"));
            }
            append_crc = true;
            end = kw.end;
            k = k2;
        }
        let j = end_stmt(src, toks, k)?;
        Ok((Stmt::Send { bytes, append_crc, span: head.start..end }, j))
    } else if str_eq(w, "crc_region") {
        let (_, mut k) = expect(src, toks, i1, Tok::LBrace, "`{`")?;
        let mut sends: Vec<Expr> = Vec::new();
        let mut end: usize = 0;
        loop
            invariant
                stream_ok(src, toks@),
                pos_ok(toks@, k as int),
                i < k,
                toks@[i as int].kind is Ident,
                word_at(src, toks@, i as int) == "crc_region"@,
                stmt_kind_of(word_at(src, toks@, i as int)) == 3,
                word_at(src, toks@, i as int) != "pass"@,
                word_at(src, toks@, i as int) != "fail"@,
                word_at(src, toks@, i as int) != "wait_state"@,
            decreases toks@.len() - k,
        {
            k = skip_newlines(src, toks, k);
            match toks[k].kind {
                Tok::RBrace => {
                    end = toks[k].span.end;
                    proof {
                        lemma_not_eof_next(src, toks@, k as int);
                    }
                    k = k + 1;
                    break ;
                },
                Tok::Eof => {
                    return Err(
                        err1(span_at(toks, k), "unexpected end of file: missing `}` for `crc_region`"),
                    );
                },
                _ => {
                    let (kw, k2) = expect(src, toks, k, Tok::Ident, "an identifier")?;
                    let t = text_of(src, toks, k);
                    if !str_eq(t.as_str(), "send") {
                        return Err(err1(kw, "only `send` statements are allowed in a `crc_region`"));
                    }
                    let (e, k3) = parse_expr(src, toks, k2)?;
                    sends.push(e);
                    k = end_stmt(src, toks, k3)?;
                },
            }
        }
        let j = end_stmt(src, toks, k)?;
        Ok((Stmt::CrcRegion { sends, span: head.start..end }, j))
    } else if str_eq(w, "config") {
        let (role, k1) = expect(src, toks, i1, Tok::Ident, "an identifier")?;
        let (_, k2) = expect(src, toks, k1, Tok::Comma, "`,`")?;
        let (io, k3) = expect(src, toks, k2, Tok::Ident, "an identifier")?;
        let (_, k4) = expect(src, toks, k3, Tok::Comma, "`,`")?;
        let (sck, k5) = expect(src, toks, k4, Tok::Ident, "an identifier")?;
        let (_, k6) = expect(src, toks, k5, Tok::Comma, "`,`")?;
        let (alert, k7) = expect(src, toks, k6, Tok::Ident, "an identifier")?;
        let span = head.start..alert.end;
        let j = end_stmt(src, toks, k7)?;
        Ok(
            (
                Stmt::Config {
                    role: text_of(src, toks, i1),
                    io: text_of(src, toks, k2),
                    sck: text_of(src, toks, k4),
                    alert: text_of(src, toks, k6),
                    span,
                },
                j,
            ),
        )
    } else if str_eq(w, "frame") {
        let (_, k) = expect(src, toks, i1, Tok::LBrace, "`{`")?;
        let ((body, end), k2) = parse_block(src, toks, k, "frame")?;
        let j = end_stmt(src, toks, k2)?;
        Ok((Stmt::Frame { body, span: head.start..end }, j))
    } else if str_eq(w, "recv") {
        let mut targets: Vec<RecvTarget> = Vec::new();
        let mut end: usize = head.end;
        let mut k = i1;
        if toks[i1].kind == Tok::Number {
            let (nsp, k2) = expect(src, toks, i1, Tok::Number, "a byte count")?;
            let b = src.as_bytes();
            assert(tok_wf(src.spec_bytes(), toks@[i1 as int]));
            let lex = &b[nsp.start..nsp.end];
            assert forall|q: int| 0 <= q < lex@.len() implies word_continue(#[trigger] lex@[q]) by {
                assert(lex@[q] == b@[nsp.start + q]);
            }
            let count: i64 = match parse_number(lex) {
                Some(c) => c,
                None => {
                    return Err(err1(nsp, "invalid recv count"));
                },
            };
            let mut c: i64 = 0;
            while c < count
                invariant
                    c <= count,
                decreases count - c,
            {
                targets.push(RecvTarget::Discard);
                c = c + 1;
            }
            end = nsp.end;
            k = k2;
        } else {
            let (ts, e, k2) = parse_recv_names(src, toks, i1)?;
            targets = ts;
            end = e;
            k = k2;
        }
        let j = end_stmt(src, toks, k)?;
        Ok((Stmt::Recv { targets, span: head.start..end }, j))
    } else if str_eq(w, "wait_state") {
        let mut end = head.end;
        let mut bind: Option<String> = None;
        let mut k = i1;
        if toks[i1].kind == Tok::Ident {
            let sp = span_at(toks, i1);
            bind = Some(text_of(src, toks, i1));
            end = sp.end;
            proof {
                lemma_not_eof_next(src, toks@, i1 as int);
            }
            k = i1 + 1;
        }
        let j = end_stmt(src, toks, k)?;
        Ok((Stmt::WaitState { bind, span: head.start..end }, j))
    } else if str_eq(w, "expect") {
        let (crc, k1) = expect(src, toks, i1, Tok::Ident, "an identifier")?;
        let t1 = text_of(src, toks, i1);
        if !str_eq(t1.as_str(), "crc") {
            return Err(err1(crc, "expected `crc` after `expect` (the only check in v1)"));
        }
        let (els, k2) = expect(src, toks, k1, Tok::Ident, "an identifier")?;
        let t2 = text_of(src, toks, k1);
        if !str_eq(t2.as_str(), "else") {
            return Err(err1(els, "expected `else <byte>` after `expect crc`"));
        }
        let (else_code, k3) = parse_expr(src, toks, k2)?;
        proof {
            lemma_atom(src, toks@, k2 as int, else_code);
        }
        let span = head.start..else_code.span().end;
        let j = end_stmt(src, toks, k3)?;
        Ok((Stmt::Expect { else_code, span }, j))
    } else if str_eq(w, "repeat") {
        let (count, k1) = parse_expr(src, toks, i1)?;
        let (_, k2) = expect(src, toks, k1, Tok::LBrace, "`{`")?;
        let ((body, end), k3) = parse_block(src, toks, k2, "repeat")?;
        let j = end_stmt(src, toks, k3)?;
        Ok((Stmt::Repeat { count, body, span: head.start..end }, j))
    } else if toks[i1].kind == Tok::LParen {
        // `name(...)` is a `proc` call, not a raw instruction: an asm operand
        // never starts with `(`.
        proof {
            lemma_not_eof_next(src, toks@, i1 as int);
        }
        let (args, k1) = parse_args(src, toks, i1 + 1)?;
        let (close, k2) = expect(src, toks, k1, Tok::RParen, "`)`")?;
        let span = head.start..close.end;
        let j = end_stmt(src, toks, k2)?;
        Ok((Stmt::Call { name: word, name_span: head, args, span }, j))
    } else {
        let mut operands: Vec<String> = Vec::new();
        let mut end = head.end;
        let mut k = i1;
        if !at_stmt_end(toks, k) {
            loop
                invariant_except_break
                    raw_end(toks@, i + 1) == raw_ops_end(toks@, k as int),
                invariant
                    stream_ok(src, toks@),
                    pos_ok(toks@, k as int),
                    i < k,
                    toks@[i as int].kind is Ident,
                    !stmt_word(word_at(src, toks@, i as int)),
                    !ends_stmt(toks@[i + 1].kind),
                    !(toks@[i + 1].kind is LParen),
                ensures
                    raw_end(toks@, i + 1) == if ends_stmt(toks@[k as int].kind) {
                        Some(k as int)
                    } else {
                        None
                    },
                decreases toks@.len() - k,
            {
                let (op, k2) = parse_operand(src, toks, k)?;
                end = op.end;
                operands.push(text_of(src, toks, k));
                k = k2;
                if toks[k].kind == Tok::Comma {
                    proof {
                        lemma_not_eof_next(src, toks@, k as int);
                    }
                    k = k + 1;
                } else {
                    break ;
                }
            }
        }
        assert(raw_end(toks@, i + 1) == if ends_stmt(toks@[k as int].kind) {
            Some(k as int)
        } else {
            None
        });
        let j = end_stmt(src, toks, k)?;
        Ok((Stmt::Raw { mnemonic: word, operands, span: head.start..end }, j))
    }
}

/// The first position at or after `i` that is not a newline.
pub open spec fn skip_nl(toks: Seq<Token>, i: int) -> int
    decreases toks.len() - i,
{
    if 0 <= i < toks.len() && toks[i].kind is Newline {
        skip_nl(toks, i + 1)
    } else {
        i
    }
}

/// Token `i` spells an expression on its own: a number literal, or a name
/// not followed by `(`.
#[verifier::opaque]
pub open spec fn is_atom(src: &str, toks: Seq<Token>, i: int) -> bool {
    ||| toks[i].kind is Number && spec_parse_number(
        src.spec_bytes().subrange(toks[i].span.start as int, toks[i].span.end as int),
    ) is Some
    ||| toks[i].kind is Ident && !(toks[i + 1].kind is LParen)
}

/// `e` is the expression that the lone token `i` spells.
#[verifier::opaque]
pub open spec fn atom_is(src: &str, toks: Seq<Token>, i: int, e: Expr) -> bool {
    if toks[i].kind is Number {
        spec_parse_number(src.spec_bytes().subrange(toks[i].span.start as int, toks[i].span.end as int))
            matches Some(v) && e == Expr::Int { value: v, span: toks[i].span }
    } else {
        e matches Expr::Name { name, span } && name@ == word_at(src, toks, i) && span == toks[i].span
    }
}

/// No operator binds to the token before `i`.
pub open spec fn no_operator(toks: Seq<Token>, i: int) -> bool {
    !(toks[i].kind is Caret) && !(toks[i].kind is PlusPlus)
}

/// Where a call argument spelled by a lone token ends, from token `i`: one
/// token past a positional atom, or past `name = atom`.
#[verifier::opaque]
pub open spec fn simple_arg_end(src: &str, toks: Seq<Token>, i: int) -> Option<int> {
    if toks[i].kind is Ident && toks[i + 1].kind is Eq {
        if is_atom(src, toks, i + 2) && no_operator(toks, i + 3) {
            Some(i + 3)
        } else {
            None
        }
    } else if is_atom(src, toks, i) && no_operator(toks, i + 1) {
        Some(i + 1)
    } else {
        None
    }
}

/// `a` is the argument that starts at token `i` (see [`simple_arg_end`]).
#[verifier::opaque]
pub open spec fn arg_is(src: &str, toks: Seq<Token>, i: int, a: Arg) -> bool {
    if toks[i].kind is Ident && toks[i + 1].kind is Eq {
        &&& a.name matches Some(n) && n@ == word_at(src, toks, i)
        &&& atom_is(src, toks, i + 2, a.value)
        &&& a.span == (toks[i].span.start..toks[i + 2].span.end)
    } else {
        &&& a.name is None
        &&& atom_is(src, toks, i, a.value)
        &&& a.span == toks[i].span
    }
}

/// The closing `)` of an argument list from token `k` on whose arguments are
/// each spelled by a lone token (or `name =` one), comma-separated with an
/// optional trailing comma.
#[verifier::opaque]
pub open spec fn atom_args_close(src: &str, toks: Seq<Token>, k: int) -> Option<int>
    decreases toks.len() - k,
{
    if !(0 <= k < toks.len()) {
        None
    } else if toks[k].kind is RParen {
        Some(k)
    } else {
        match simple_arg_end(src, toks, k) {
            Some(e) => if !(k < e < toks.len()) {
                None
            } else if toks[e].kind is Comma {
                atom_args_close(src, toks, e + 1)
            } else if toks[e].kind is RParen {
                Some(e)
            } else {
                None
            },
            None => None,
        }
    }
}

/// `args` are the arguments of such a list, from token `k` on.
#[verifier::opaque]
pub open spec fn atom_args_ok(src: &str, toks: Seq<Token>, k: int, args: Seq<Arg>) -> bool
    decreases toks.len() - k,
{
    if !(0 <= k < toks.len()) {
        false
    } else if toks[k].kind is RParen {
        args.len() == 0
    } else {
        match simple_arg_end(src, toks, k) {
            Some(e) => if !(k < e < toks.len()) {
                false
            } else {
                &&& args.len() > 0
                &&& arg_is(src, toks, k, args[0])
                &&& if toks[e].kind is Comma {
                    atom_args_ok(src, toks, e + 1, args.drop_first())
                } else {
                    args.len() == 1
                }
            },
            None => false,
        }
    }
}

proof fn lemma_atom(src: &str, toks: Seq<Token>, i: int, e: Expr)
    ensures
        is_atom(src, toks, i) <==> (toks[i].kind is Number && spec_parse_number(
            src.spec_bytes().subrange(toks[i].span.start as int, toks[i].span.end as int),
        ) is Some) || (toks[i].kind is Ident && !(toks[i + 1].kind is LParen)),
        toks[i].kind is Number ==> (atom_is(src, toks, i, e) <==> (spec_parse_number(
            src.spec_bytes().subrange(toks[i].span.start as int, toks[i].span.end as int),
        ) matches Some(v) && e == Expr::Int { value: v, span: toks[i].span })),
        !(toks[i].kind is Number) ==> (atom_is(src, toks, i, e) <==> (e matches Expr::Name { name, span }
            && name@ == word_at(src, toks, i) && span == toks[i].span)),
        atom_is(src, toks, i, e) ==> expr_span(e) == toks[i].span,
{
    reveal(is_atom);
    reveal(atom_is);
}

proof fn lemma_simple_arg(src: &str, toks: Seq<Token>, i: int, a: Arg)
    ensures
        toks[i].kind is Ident && toks[i + 1].kind is Eq ==> (simple_arg_end(src, toks, i) is Some <==> (is_atom(
            src,
            toks,
            i + 2,
        ) && no_operator(toks, i + 3))) && (simple_arg_end(src, toks, i) is Some ==> simple_arg_end(src, toks, i)
            == Some(i + 3)) && (arg_is(src, toks, i, a) <==> (a.name matches Some(n) && n@ == word_at(src, toks, i)
            && atom_is(src, toks, i + 2, a.value) && a.span == (toks[i].span.start..toks[i + 2].span.end))),
        !(toks[i].kind is Ident && toks[i + 1].kind is Eq) ==> (simple_arg_end(src, toks, i) is Some <==> (is_atom(
            src,
            toks,
            i,
        ) && no_operator(toks, i + 1))) && (simple_arg_end(src, toks, i) is Some ==> simple_arg_end(src, toks, i)
            == Some(i + 1)) && (arg_is(src, toks, i, a) <==> (a.name is None && atom_is(src, toks, i, a.value)
            && a.span == toks[i].span)),
{
    reveal(simple_arg_end);
    reveal(arg_is);
}

proof fn lemma_args_close_step(src: &str, toks: Seq<Token>, k: int)
    ensures
        0 <= k < toks.len() && toks[k].kind is RParen ==> atom_args_close(src, toks, k) == Some(k) && forall|rest: Seq<Arg>|
            #[trigger] atom_args_ok(src, toks, k, rest) <==> rest.len() == 0,
        atom_args_close(src, toks, k) is Some && !(toks[k].kind is RParen) ==> (simple_arg_end(src, toks, k) matches Some(e)
            && k < e < toks.len() && (toks[e].kind is Comma ==> atom_args_close(src, toks, e + 1) == atom_args_close(
            src,
            toks,
            k,
        )) && (!(toks[e].kind is Comma) ==> toks[e].kind is RParen && atom_args_close(src, toks, k) == Some(e))),
{
    reveal(atom_args_close);
    reveal(atom_args_ok);
}

proof fn lemma_args_ok_step(src: &str, toks: Seq<Token>, k: int, a: Arg, rest: Seq<Arg>)
    ensures
        0 <= k < toks.len() && !(toks[k].kind is RParen) ==> (simple_arg_end(src, toks, k) matches Some(e) ==> (k < e
            < toks.len() && arg_is(src, toks, k, a) && (toks[e].kind is Comma ==> atom_args_ok(src, toks, e + 1, rest))
            && (!(toks[e].kind is Comma) ==> rest.len() == 0) ==> atom_args_ok(src, toks, k, seq![a] + rest))),
{
    reveal(atom_args_close);
    reveal(atom_args_ok);
    let r2 = seq![a] + rest;
    assert(r2.drop_first() =~= rest);
    assert(r2[0] == a);
}

/// Every list that continues from token `k` extends `before` to a list from
/// token `i`.
pub open spec fn args_extend(src: &str, toks: Seq<Token>, i: int, k: int, before: Seq<Arg>) -> bool {
    forall|rest: Seq<Arg>| atom_args_ok(src, toks, k, rest) ==> #[trigger] atom_args_ok(src, toks, i, before + rest)
}

proof fn lemma_args_advance(src: &str, toks: Seq<Token>, i: int, k: int, e: int, before: Seq<Arg>, a: Arg)
    requires
        args_extend(src, toks, i, k, before),
        0 <= k < toks.len(),
        !(toks[k].kind is RParen),
        simple_arg_end(src, toks, k) == Some(e),
        k < e < toks.len(),
        arg_is(src, toks, k, a),
    ensures
        toks[e].kind is Comma ==> args_extend(src, toks, i, e + 1, before.push(a)),
        !(toks[e].kind is Comma) ==> atom_args_ok(src, toks, i, before.push(a)),
{
    if toks[e].kind is Comma {
        assert forall|rest: Seq<Arg>| atom_args_ok(src, toks, e + 1, rest) implies #[trigger] atom_args_ok(
            src,
            toks,
            i,
            before.push(a) + rest,
        ) by {
            lemma_args_ok_step(src, toks, k, a, rest);
            assert(before + (seq![a] + rest) =~= before.push(a) + rest);
        }
    } else {
        lemma_args_ok_step(src, toks, k, a, Seq::empty());
        assert(seq![a] + Seq::<Arg>::empty() =~= seq![a]);
        assert(before + seq![a] =~= before.push(a));
    }
}

proof fn lemma_close_at_rparen(src: &str, toks: Seq<Token>, k: int)
    ensures
        atom_args_close(src, toks, k) matches Some(c) ==> k <= c < toks.len() && toks[c].kind is RParen,
    decreases toks.len() - k,
{
    reveal(atom_args_close);
    if 0 <= k < toks.len() && !(toks[k].kind is RParen) {
        if let Some(e) = simple_arg_end(src, toks, k) {
            if k < e < toks.len() && toks[e].kind is Comma {
                lemma_close_at_rparen(src, toks, e + 1);
            }
        }
    }
}

proof fn lemma_simple_arg_start(src: &str, toks: Seq<Token>, k: int)
    ensures
        simple_arg_end(src, toks, k) is Some ==> toks[k].kind is Ident || toks[k].kind is Number,
        atom_args_close(src, toks, k) is Some ==> 0 <= k < toks.len() && (toks[k].kind is RParen || toks[k].kind is Ident
            || toks[k].kind is Number),
{
    reveal(simple_arg_end);
    reveal(is_atom);
    reveal(atom_args_close);
}

/// Parse an expression: `++`-concat (lowest) over `^`-xor over primaries.
pub fn parse_expr(src: &str, toks: &[Token], i: usize) -> (res: Result<(Expr, usize), Vec<Diagnostic>>)
    requires
        stream_ok(src, toks@),
        pos_ok(toks@, i as int),
    ensures
        step_ok(toks@, i as int, res, true),
        is_atom(src, toks@, i as int) && no_operator(toks@, i + 1) ==> (res matches Ok((e, j)) && j == i + 1
            && atom_is(src, toks@, i as int, e)),
    decreases toks@.len() - i, 6nat,
{
    let (mut lhs, mut k) = parse_xor(src, toks, i)?;
    while toks[k].kind == Tok::PlusPlus
        invariant
            stream_ok(src, toks@),
            pos_ok(toks@, k as int),
            i < k,
            is_atom(src, toks@, i as int) && no_operator(toks@, i + 1) ==> k == i + 1 && atom_is(src, toks@, i as int, lhs),
        decreases toks@.len() - k,
    {
        proof {
            lemma_not_eof_next(src, toks@, k as int);
        }
        let (rhs, k2) = parse_xor(src, toks, k + 1)?;
        let span = lhs.span().start..rhs.span().end;
        lhs = Expr::Binary { op: BinOp::Concat, lhs: Box::new(lhs), rhs: Box::new(rhs), span };
        k = k2;
    }
    Ok((lhs, k))
}

fn parse_xor(src: &str, toks: &[Token], i: usize) -> (res: Result<(Expr, usize), Vec<Diagnostic>>)
    requires
        stream_ok(src, toks@),
        pos_ok(toks@, i as int),
    ensures
        step_ok(toks@, i as int, res, true),
        is_atom(src, toks@, i as int) && !(toks@[i + 1].kind is Caret) ==> (res matches Ok((e, j)) && j == i + 1
            && atom_is(src, toks@, i as int, e)),
    decreases toks@.len() - i, 5nat,
{
    let (mut lhs, mut k) = parse_primary(src, toks, i)?;
    while toks[k].kind == Tok::Caret
        invariant
            stream_ok(src, toks@),
            pos_ok(toks@, k as int),
            i < k,
            is_atom(src, toks@, i as int) && !(toks@[i + 1].kind is Caret) ==> k == i + 1 && atom_is(src, toks@, i as int, lhs),
        decreases toks@.len() - k,
    {
        proof {
            lemma_not_eof_next(src, toks@, k as int);
        }
        let (rhs, k2) = parse_primary(src, toks, k + 1)?;
        let span = lhs.span().start..rhs.span().end;
        lhs = Expr::Binary { op: BinOp::Xor, lhs: Box::new(lhs), rhs: Box::new(rhs), span };
        k = k2;
    }
    Ok((lhs, k))
}

#[verifier::spinoff_prover]
#[verifier::rlimit(80)]
fn parse_primary(src: &str, toks: &[Token], i: usize) -> (res: Result<(Expr, usize), Vec<Diagnostic>>)
    requires
        stream_ok(src, toks@),
        pos_ok(toks@, i as int),
    ensures
        step_ok(toks@, i as int, res, true),
        toks@[i as int].kind is Number ==> match spec_parse_number(
            src.spec_bytes().subrange(toks@[i as int].span.start as int, toks@[i as int].span.end as int),
        ) {
            Some(v) => res == Ok::<(Expr, usize), Vec<Diagnostic>>(
                (Expr::Int { value: v, span: toks@[i as int].span }, (i + 1) as usize),
            ),
            None => res matches Err(ds) && ds@[0].message@ == "invalid number literal"@ && ds@[0].primary
                == toks@[i as int].span,
        },
        toks@[i as int].kind is Ident && !(toks@[i + 1].kind is LParen) ==> (res matches Ok(
            (Expr::Name { name, span }, j),
        ) && name@ == word_at(src, toks@, i as int) && span == toks@[i as int].span && j == i + 1),
        toks@[i as int].kind is Ident && toks@[i + 1].kind is LParen ==> (res matches Ok((e, _)) ==> (
        e matches Expr::Call { func, span, .. } && func@ == word_at(src, toks@, i as int) && span.start
            == toks@[i as int].span.start)),
        is_atom(src, toks@, i as int) ==> (res matches Ok((e, j)) && j == i + 1 && atom_is(src, toks@, i as int, e)),
        toks@[i as int].kind is Ident && toks@[i + 1].kind is LParen && atom_args_close(src, toks@, i + 2) is Some
            ==> (res matches Ok((e, j)) && j == atom_args_close(src, toks@, i + 2)->0 + 1 && (e matches Expr::Call {
            func,
            args,
            span,
        } && func@ == word_at(src, toks@, i as int) && atom_args_ok(src, toks@, i + 2, args@) && span
            == (toks@[i as int].span.start..toks@[atom_args_close(src, toks@, i + 2)->0].span.end))),
        toks@[i as int].kind is LBracket ==> (res matches Ok((e, _)) ==> (e matches Expr::Bytes {
            span,
            ..
        } && span.start == toks@[i as int].span.start)),
        !(toks@[i as int].kind is Number || toks@[i as int].kind is Ident || toks@[i as int].kind is LBracket
            || toks@[i as int].kind is LParen) ==> (res matches Err(ds) && ds@[0].message@
            == "expected an expression"@ && ds@[0].primary == toks@[i as int].span),
    decreases toks@.len() - i, 4nat,
{
    match toks[i].kind {
        Tok::Number => {
            let sp = span_at(toks, i);
            proof {
                lemma_not_eof_next(src, toks@, i as int);
            }
            let b = src.as_bytes();
            assert(tok_wf(src.spec_bytes(), toks@[i as int]));
            let lex = &b[sp.start..sp.end];
            assert forall|q: int| 0 <= q < lex@.len() implies word_continue(#[trigger] lex@[q]) by {
                assert(lex@[q] == b@[sp.start + q]);
            }
            match parse_number(lex) {
                Some(value) => {
                    let e = Expr::Int { value, span: sp };
                    proof {
                        lemma_atom(src, toks@, i as int, e);
                    }
                    Ok((e, i + 1))
                },
                None => {
                    proof {
                        lemma_atom(src, toks@, i as int, Expr::Int { value: 0, span: 0..0 });
                    }
                    Err(err1(sp, "invalid number literal"))
                },
            }
        },
        Tok::Ident => {
            let sp = span_at(toks, i);
            proof {
                lemma_not_eof_next(src, toks@, i as int);
            }
            let name = text_of(src, toks, i);
            if toks[i + 1].kind == Tok::LParen {
                proof {
                    lemma_not_eof_next(src, toks@, i + 1);
                }
                proof {
                    lemma_atom(src, toks@, i as int, Expr::Int { value: 0, span: 0..0 });
                    lemma_close_at_rparen(src, toks@, i + 2);
                }
                let (args, k1) = parse_args(src, toks, i + 2)?;
                let (close, k2) = expect(src, toks, k1, Tok::RParen, "`)`")?;
                Ok((Expr::Call { func: name, args, span: sp.start..close.end }, k2))
            } else {
                let e = Expr::Name { name, span: sp };
                proof {
                    lemma_atom(src, toks@, i as int, e);
                }
                Ok((e, i + 1))
            }
        },
        Tok::LBracket => {
            proof {
                lemma_atom(src, toks@, i as int, Expr::Int { value: 0, span: 0..0 });
            }
            let start = toks[i].span.start;
            proof {
                lemma_not_eof_next(src, toks@, i as int);
            }
            let mut elems: Vec<Expr> = Vec::new();
            let mut k = skip_newlines(src, toks, i + 1);
            while toks[k].kind != Tok::RBracket
                invariant
                    stream_ok(src, toks@),
                    pos_ok(toks@, k as int),
                    i < k,
                    toks@[i as int].kind is LBracket,
                    !is_atom(src, toks@, i as int),
                decreases toks@.len() - k,
            {
                let (e, k2) = parse_expr(src, toks, k)?;
                elems.push(e);
                k = skip_newlines(src, toks, k2);
                if toks[k].kind == Tok::Comma {
                    proof {
                        lemma_not_eof_next(src, toks@, k as int);
                    }
                    k = skip_newlines(src, toks, k + 1);
                } else {
                    break ;
                }
            }
            let (close, j) = expect(src, toks, k, Tok::RBracket, "`]`")?;
            Ok((Expr::Bytes { elems, span: start..close.end }, j))
        },
        Tok::LParen => {
            proof {
                lemma_atom(src, toks@, i as int, Expr::Int { value: 0, span: 0..0 });
            }
            proof {
                lemma_not_eof_next(src, toks@, i as int);
            }
            let k = skip_newlines(src, toks, i + 1);
            let (e, k2) = parse_expr(src, toks, k)?;
            let k3 = skip_newlines(src, toks, k2);
            let (_, j) = expect(src, toks, k3, Tok::RParen, "`)`")?;
            Ok((e, j))
        },
        _ => {
            proof {
                lemma_atom(src, toks@, i as int, Expr::Int { value: 0, span: 0..0 });
            }
            Err(err1(span_at(toks, i), "expected an expression"))
        },
    }
}







/// Parse a call's argument list, up to but not including the closing `)`.
/// Newlines between arguments are not statement terminators and a trailing
/// comma is allowed.
#[verifier::spinoff_prover]
#[verifier::rlimit(80)]
fn parse_args(src: &str, toks: &[Token], i: usize) -> (res: Result<(Vec<Arg>, usize), Vec<Diagnostic>>)
    requires
        stream_ok(src, toks@),
        pos_ok(toks@, i as int),
    ensures
        step_ok(toks@, i as int, res, false),
        atom_args_close(src, toks@, i as int) matches Some(c) ==> (res matches Ok((args, j)) && j == c
            && atom_args_ok(src, toks@, i as int, args@)),
    decreases toks@.len() - i, 8nat,
{
    proof {
        lemma_simple_arg_start(src, toks@, i as int);
    }
    let mut args: Vec<Arg> = Vec::new();
    let mut k = skip_newlines(src, toks, i);
    let ghost simple = atom_args_close(src, toks@, i as int) is Some;
    proof {
        if simple {
            assert forall|rest: Seq<Arg>| atom_args_ok(src, toks@, k as int, rest) implies #[trigger] atom_args_ok(
                src,
                toks@,
                i as int,
                args@ + rest,
            ) by {
                assert(args@ + rest =~= rest);
            }
        }
    }
    while toks[k].kind != Tok::RParen
        invariant
            stream_ok(src, toks@),
            pos_ok(toks@, k as int),
            i <= k,
            simple == (atom_args_close(src, toks@, i as int) is Some),
            simple ==> atom_args_close(src, toks@, k as int) == atom_args_close(src, toks@, i as int),
            simple ==> args_extend(src, toks@, i as int, k as int, args@),
        ensures
            simple ==> toks@[k as int].kind is RParen && atom_args_close(src, toks@, k as int) == atom_args_close(src, toks@, i as int),
            simple ==> args_extend(src, toks@, i as int, k as int, args@) || atom_args_ok(src, toks@, i as int, args@),
        decreases toks@.len() - k,
    {
        let ghost k0 = k as int;
        let ghost before = args@;
        proof {
            lemma_args_close_step(src, toks@, k0);
        }
        let (a, k2) = parse_arg(src, toks, k)?;
        proof {
            if simple {
                lemma_args_advance(src, toks@, i as int, k0, k2 as int, before, a);
            }
        }
        args.push(a);
        k = skip_newlines(src, toks, k2);
        if toks[k].kind == Tok::Comma {
            proof {
                lemma_not_eof_next(src, toks@, k as int);
                lemma_simple_arg_start(src, toks@, k + 1);
            }
            k = skip_newlines(src, toks, k + 1);
        } else {
            proof {
                if simple {
                    lemma_args_close_step(src, toks@, k as int);
                }
            }
            break ;
        }
    }
    proof {
        if simple {
            lemma_args_close_step(src, toks@, k as int);
            if args_extend(src, toks@, i as int, k as int, args@) {
                assert(atom_args_ok(src, toks@, k as int, Seq::<Arg>::empty()));
                assert(args@ + Seq::<Arg>::empty() =~= args@);
            }
        }
    }
    Ok((args, k))
}

/// One argument: `name = expr` when an identifier is directly followed by
/// `=`, else a positional expression.
fn parse_arg(src: &str, toks: &[Token], i: usize) -> (res: Result<(Arg, usize), Vec<Diagnostic>>)
    requires
        stream_ok(src, toks@),
        pos_ok(toks@, i as int),
    ensures
        step_ok(toks@, i as int, res, true),
        simple_arg_end(src, toks@, i as int) matches Some(e) ==> (res matches Ok((a, j)) && j == e && arg_is(
            src,
            toks@,
            i as int,
            a,
        )),
    decreases toks@.len() - i, 7nat,
{
    if toks[i].kind == Tok::Ident && peek_at(toks, i, 1) == Tok::Eq {
        proof {
            lemma_simple_arg(src, toks@, i as int, Arg { name: None, value: Expr::Int { value: 0, span: 0..0 }, span: 0..0 });
            if simple_arg_end(src, toks@, i as int) is Some {
                lemma_atom(src, toks@, i + 2, Expr::Int { value: 0, span: 0..0 });
            }
        }
        proof {
            lemma_not_eof_next(src, toks@, i as int);
            lemma_not_eof_next(src, toks@, i + 1);
        }
        let sp = span_at(toks, i);
        let name = text_of(src, toks, i);
        let k = skip_newlines(src, toks, i + 2);
        let (value, j) = parse_expr(src, toks, k)?;
        proof {
            lemma_atom(src, toks@, k as int, value);
        }
        let span = sp.start..value.span().end;
        let a = Arg { name: Some(name), value, span };
        proof {
            lemma_simple_arg(src, toks@, i as int, a);
        }
        Ok((a, j))
    } else {
        proof {
            if toks@[i as int].kind is Ident {
                lemma_not_eof_next(src, toks@, i as int);
            }
            lemma_simple_arg(src, toks@, i as int, Arg { name: None, value: Expr::Int { value: 0, span: 0..0 }, span: 0..0 });
        }
        let (value, j) = parse_expr(src, toks, i)?;
        proof {
            lemma_atom(src, toks@, i as int, value);
        }
        let span = value.span();
        let a = Arg { name: None, value, span };
        proof {
            lemma_simple_arg(src, toks@, i as int, a);
        }
        Ok((a, j))
    }
}

/// The word that token `k` spells in `src`.
pub open spec fn word_at(src: &str, toks: Seq<Token>, k: int) -> Seq<char> {
    ascii_chars(src.spec_bytes().subrange(toks[k].span.start as int, toks[k].span.end as int))
}

/// The identifier at token `k` names an item: `name` is its text and
/// `name_span` its span.
pub open spec fn named_at(src: &str, toks: Seq<Token>, k: int, name: Seq<char>, name_span: Span) -> bool {
    &&& 0 <= k < toks.len()
    &&& toks[k].kind is Ident
    &&& name == word_at(src, toks, k)
    &&& name_span == toks[k].span
}

/// The keyword `kw` at token `k` introduces an item named by the identifier
/// after it.
pub open spec fn item_at(src: &str, toks: Seq<Token>, k: int, kw: Seq<char>, name: Seq<char>, name_span: Span) -> bool {
    &&& 0 <= k < toks.len()
    &&& toks[k].kind is Ident
    &&& word_at(src, toks, k) == kw
    &&& named_at(src, toks, k + 1, name, name_span)
}

/// The first top-level item starts at the first token that is not a
/// newline, and there is none when only newlines come before the end.
pub open spec fn item_starts(toks: Seq<Token>, ks: Seq<int>) -> bool {
    if ks.len() == 0 {
        0 <= skip_nl(toks, 0) < toks.len() && toks[skip_nl(toks, 0)].kind is Eof
    } else {
        ks[0] == skip_nl(toks, 0)
    }
}

/// The items of one kind, named by `names` in order, are those that the
/// keyword `kw` introduces at the starts `ks[q[c]]`.
#[verifier::opaque]
pub open spec fn listed_at(
    src: &str,
    toks: Seq<Token>,
    ks: Seq<int>,
    q: Seq<int>,
    kw: Seq<char>,
    names: Seq<(Seq<char>, Span)>,
) -> bool {
    &&& q.len() == names.len()
    &&& forall|c: int|
        0 <= c < q.len() ==> 0 <= #[trigger] q[c] < ks.len() && item_at(
            src,
            toks,
            ks[q[c]],
            kw,
            names[c].0,
            names[c].1,
        )
    &&& forall|c: int, d: int| 0 <= c < d < q.len() ==> #[trigger] q[c] < #[trigger] q[d]
}

/// The statements of a body of one-line statements sure to parse are
/// `pass`, `fail` and raw instructions, as their words say.
pub proof fn lemma_simple_kinds(src: &str, toks: Seq<Token>, pos: Seq<int>, stmts: Seq<Stmt>)
    requires
        stmts_at(src, toks, pos, stmts),
    ensures
        forall|q: int|
            0 <= q < stmts.len() ==> (#[trigger] stmts[q] is Pass || stmts[q] is Fail || stmts[q] is Raw),
        forall|q: int|
            0 <= q < stmts.len() && word_at(src, toks, pos[q]) == "pass"@ ==> #[trigger] stmts[q] is Pass,
        forall|q: int|
            0 <= q < stmts.len() && word_at(src, toks, pos[q]) == "fail"@ ==> #[trigger] stmts[q] is Fail,
{
    assert forall|q: int| 0 <= q < stmts.len() implies (#[trigger] stmts[q] is Pass || stmts[q] is Fail
        || stmts[q] is Raw) by {
        assert(simple_stmt_end(src, toks, pos[q]) is Some);
        assert(stmt_head(src, toks, pos[q], stmts[q]));
    }
    assert forall|q: int| 0 <= q < stmts.len() && word_at(src, toks, pos[q]) == "pass"@ implies #[trigger] stmts[q] is Pass by {
        assert(simple_stmt_end(src, toks, pos[q]) is Some);
        assert(stmt_head(src, toks, pos[q], stmts[q]));
    }
    assert forall|q: int| 0 <= q < stmts.len() && word_at(src, toks, pos[q]) == "fail"@ implies #[trigger] stmts[q] is Fail by {
        lemma_stmt_words();
        assert(simple_stmt_end(src, toks, pos[q]) is Some);
        assert(stmt_head(src, toks, pos[q], stmts[q]));
    }
}

/// The source is a single `test` whose body holds only one-line statements
/// sure to parse (blank lines around it aside).
pub open spec fn one_simple_test(src: &str, toks: Seq<Token>) -> bool {
    let k = skip_nl(toks, 0);
    &&& 0 <= k && k + 2 < toks.len()
    &&& toks[k].kind is Ident
    &&& word_at(src, toks, k) == "test"@
    &&& toks[k + 1].kind is Ident
    &&& toks[k + 2].kind is LBrace
    &&& simple_block_end(src, toks, k + 3) is Some
    &&& 0 <= skip_nl(toks, simple_block_end(src, toks, k + 3)->0) < toks.len()
    &&& toks[skip_nl(toks, simple_block_end(src, toks, k + 3)->0)].kind is Eof
}

/// The positions of the statements of that single test.
pub open spec fn one_test_stmts(src: &str, toks: Seq<Token>) -> Seq<int> {
    simple_block_stmts(src, toks, skip_nl(toks, 0) + 3)
}

/// `test` is spelled unlike the other item keywords.
pub proof fn lemma_item_words()
    ensures
        "const"@ != "test"@,
        "fn"@ != "test"@,
        "proc"@ != "test"@,
{
    reveal_strlit("const");
    reveal_strlit("fn");
    reveal_strlit("proc");
    reveal_strlit("test");
    assert("proc"@[0] != "test"@[0]);
}

/// A word that starts a top-level item.
pub open spec fn item_word(w: Seq<char>) -> bool {
    w == "const"@ || w == "fn"@ || w == "proc"@ || w == "test"@
}

/// The names of a module's consts, with their spans.
pub open spec fn const_names(v: Seq<Const>) -> Seq<(Seq<char>, Span)> {
    Seq::new(v.len(), |c: int| (v[c].name@, v[c].name_span))
}

/// The names of a module's fns, with their spans.
pub open spec fn fn_names(v: Seq<FnDef>) -> Seq<(Seq<char>, Span)> {
    Seq::new(v.len(), |c: int| (v[c].name@, v[c].name_span))
}

/// The names of a module's procs, with their spans.
pub open spec fn proc_names(v: Seq<ProcDef>) -> Seq<(Seq<char>, Span)> {
    Seq::new(v.len(), |c: int| (v[c].name@, v[c].name_span))
}

/// The names of a module's tests, with their spans.
pub open spec fn test_names(v: Seq<Test>) -> Seq<(Seq<char>, Span)> {
    Seq::new(v.len(), |c: int| (v[c].name@, v[c].name_span))
}

/// The module's items are, kind by kind and in source order, those that the
/// keywords at the starts `ks` introduce, every start giving one item.
pub open spec fn module_items(
    src: &str,
    toks: Seq<Token>,
    m: Module,
    ks: Seq<int>,
    q: (Seq<int>, Seq<int>, Seq<int>, Seq<int>),
) -> bool {
    &&& item_starts(toks, ks)
    &&& items_so_far(
        src,
        toks,
        ks,
        q,
        (const_names(m.consts@), fn_names(m.fns@), proc_names(m.procs@), test_names(m.tests@)),
    )
}

fn parse_test(src: &str, toks: &[Token], i: usize) -> (res: Result<(Test, usize), Vec<Diagnostic>>)
    requires
        stream_ok(src, toks@),
        pos_ok(toks@, i as int),
    ensures
        step_ok(toks@, i as int, res, true),
        res matches Ok((t, _)) ==> named_at(src, toks@, i as int, t.name@, t.name_span),
        toks@[i as int].kind is Ident && toks@[i + 1].kind is LBrace && simple_block_end(src, toks@, i + 2)
            is Some ==> (res matches Ok((t, j)) && j == simple_block_end(src, toks@, i + 2)->0 && stmts_at(
            src,
            toks@,
            simple_block_stmts(src, toks@, i + 2),
            t.stmts@,
        )),
{
    let (name_span, k1) = expect(src, toks, i, Tok::Ident, "an identifier")?;
    let name = text_of(src, toks, i);
    let (_, k2) = expect(src, toks, k1, Tok::LBrace, "`{`")?;
    let ((stmts, _), j) = parse_block(src, toks, k2, "test")?;
    Ok((Test { name, name_span, stmts }, j))
}

fn parse_const(src: &str, toks: &[Token], i: usize) -> (res: Result<(Const, usize), Vec<Diagnostic>>)
    requires
        stream_ok(src, toks@),
        pos_ok(toks@, i as int),
    ensures
        step_ok(toks@, i as int, res, true),
        res matches Ok((t, _)) ==> named_at(src, toks@, i as int, t.name@, t.name_span),
{
    let (name_span, k1) = expect(src, toks, i, Tok::Ident, "an identifier")?;
    let name = text_of(src, toks, i);
    let (_, k2) = expect(src, toks, k1, Tok::Eq, "`=`")?;
    let (value, k3) = parse_expr(src, toks, k2)?;
    let j = end_stmt(src, toks, k3)?;
    Ok((Const { name, name_span, value }, j))
}

fn has_param(params: &Vec<Param>, name: &str) -> (res: bool)
    ensures
        res == exists|k: int| 0 <= k < params@.len() && params@[k].name@ == name@,
{
    let mut k: usize = 0;
    while k < params.len()
        invariant
            k <= params@.len(),
            forall|q: int| 0 <= q < k ==> params@[q].name@ != name@,
        decreases params@.len() - k,
    {
        if str_eq(params[k].name.as_str(), name) {
            return true;
        }
        k = k + 1;
    }
    false
}

/// Parameter names are pairwise distinct.
pub open spec fn distinct_params(params: Seq<Param>) -> bool {
    forall|a: int, b: int|
        0 <= a < b < params.len() ==> #[trigger] params[a].name@ != #[trigger] params[b].name@
}

/// Parse a parameter list up to but not including the closing `)`. Newlines
/// inside the parens are not statement terminators and a trailing comma is
/// allowed. A repeated parameter name is rejected, at its second
/// declaration, before its type is read.
fn parse_params(src: &str, toks: &[Token], i: usize) -> (res: Result<(Vec<Param>, usize), Vec<Diagnostic>>)
    requires
        stream_ok(src, toks@),
        pos_ok(toks@, i as int),
    ensures
        step_ok(toks@, i as int, res, false),
        res matches Ok((ps, _)) ==> distinct_params(ps@),
{
    let mut params: Vec<Param> = Vec::new();
    let mut k = skip_newlines(src, toks, i);
    while toks[k].kind != Tok::RParen
        invariant
            stream_ok(src, toks@),
            pos_ok(toks@, k as int),
            i <= k,
            distinct_params(params@),
        decreases toks@.len() - k,
    {
        let (name_span, k1) = expect(src, toks, k, Tok::Ident, "an identifier")?;
        let name = text_of(src, toks, k);
        if has_param(&params, name.as_str()) {
            let mut m = String::new();
            m.append("duplicate parameter `");
            m.append(name.as_str());
            m.append("`");
            return Err(err1_owned(name_span, m));
        }
        let (_, k2) = expect(src, toks, k1, Tok::Colon, "`:` and a type")?;
        let (ty, k3) = parse_type(src, toks, k2)?;
        let mut end = name_span.end;
        let mut default: Option<Expr> = None;
        let mut k4 = k3;
        if toks[k3].kind == Tok::Eq {
            proof {
                lemma_not_eof_next(src, toks@, k3 as int);
            }
            let (e, k5) = parse_expr(src, toks, k3 + 1)?;
            end = e.span().end;
            default = Some(e);
            k4 = k5;
        }
        let ghost before = params@;
        params.push(Param { name, ty, default, span: name_span.start..end });
        assert(distinct_params(params@)) by {
            assert forall|a: int, b: int| 0 <= a < b < params@.len() implies #[trigger] params@[a].name@
                != #[trigger] params@[b].name@ by {
                if b == before.len() {
                    assert(params@[a] == before[a]);
                } else {
                    assert(params@[a] == before[a]);
                    assert(params@[b] == before[b]);
                }
            }
        }
        k = skip_newlines(src, toks, k4);
        if toks[k].kind == Tok::Comma {
            proof {
                lemma_not_eof_next(src, toks@, k as int);
            }
            k = skip_newlines(src, toks, k + 1);
        } else {
            break ;
        }
    }
    Ok((params, k))
}

fn parse_fn(src: &str, toks: &[Token], i: usize) -> (res: Result<(FnDef, usize), Vec<Diagnostic>>)
    requires
        stream_ok(src, toks@),
        pos_ok(toks@, i as int),
    ensures
        step_ok(toks@, i as int, res, true),
        res matches Ok((t, _)) ==> named_at(src, toks@, i as int, t.name@, t.name_span),
        res matches Ok((f, _)) ==> distinct_params(f.params@),
{
    let (name_span, k1) = expect(src, toks, i, Tok::Ident, "an identifier")?;
    let name = text_of(src, toks, i);
    let (_, k2) = expect(src, toks, k1, Tok::LParen, "`(`")?;
    let (params, k3) = parse_params(src, toks, k2)?;
    let (_, k4) = expect(src, toks, k3, Tok::RParen, "`)`")?;
    let (_, k5) = expect(src, toks, k4, Tok::Arrow, "`->` and a return type")?;
    let (ret, k6) = parse_type(src, toks, k5)?;
    let (_, k7) = expect(src, toks, k6, Tok::LBrace, "`{`")?;
    let k8 = skip_newlines(src, toks, k7);
    let (body, k9) = parse_expr(src, toks, k8)?;
    let k10 = skip_newlines(src, toks, k9);
    let (_, k11) = expect(src, toks, k10, Tok::RBrace, "`}`")?;
    let j = end_stmt(src, toks, k11)?;
    Ok((FnDef { name, name_span, params, ret, body }, j))
}

fn parse_proc(src: &str, toks: &[Token], i: usize) -> (res: Result<(ProcDef, usize), Vec<Diagnostic>>)
    requires
        stream_ok(src, toks@),
        pos_ok(toks@, i as int),
    ensures
        step_ok(toks@, i as int, res, true),
        res matches Ok((t, _)) ==> named_at(src, toks@, i as int, t.name@, t.name_span),
        res matches Ok((p, _)) ==> distinct_params(p.params@),
{
    let (name_span, k1) = expect(src, toks, i, Tok::Ident, "an identifier")?;
    let name = text_of(src, toks, i);
    let (_, k2) = expect(src, toks, k1, Tok::LParen, "`(`")?;
    let (params, k3) = parse_params(src, toks, k2)?;
    let (_, k4) = expect(src, toks, k3, Tok::RParen, "`)`")?;
    let (_, k5) = expect(src, toks, k4, Tok::LBrace, "`{`")?;
    let ((body, _), k6) = parse_block(src, toks, k5, "proc")?;
    let j = end_stmt(src, toks, k6)?;
    Ok((ProcDef { name, name_span, params, body }, j))
}

/// A list of items stays listed when another start is added.
proof fn lemma_listed_grow(
    src: &str,
    toks: Seq<Token>,
    ks: Seq<int>,
    q: Seq<int>,
    kw: Seq<char>,
    names: Seq<(Seq<char>, Span)>,
    k: int,
)
    requires
        listed_at(src, toks, ks, q, kw, names),
    ensures
        listed_at(src, toks, ks.push(k), q, kw, names),
{
    reveal(listed_at);
    assert forall|c: int| 0 <= c < q.len() implies 0 <= #[trigger] q[c] < ks.push(k).len() && item_at(
        src,
        toks,
        ks.push(k)[q[c]],
        kw,
        names[c].0,
        names[c].1,
    ) by {
        assert(ks.push(k)[q[c]] == ks[q[c]]);
    }
}

/// An item introduced at a new start joins the list of its kind.
proof fn lemma_listed_push(
    src: &str,
    toks: Seq<Token>,
    ks: Seq<int>,
    q: Seq<int>,
    kw: Seq<char>,
    names: Seq<(Seq<char>, Span)>,
    k: int,
    name: Seq<char>,
    name_span: Span,
)
    requires
        listed_at(src, toks, ks, q, kw, names),
        item_at(src, toks, k, kw, name, name_span),
    ensures
        listed_at(src, toks, ks.push(k), q.push(ks.len() as int), kw, names.push((name, name_span))),
{
    reveal(listed_at);
    let ks2 = ks.push(k);
    let q2 = q.push(ks.len() as int);
    let n2 = names.push((name, name_span));
    assert forall|c: int| 0 <= c < q2.len() implies 0 <= #[trigger] q2[c] < ks2.len() && item_at(
        src,
        toks,
        ks2[q2[c]],
        kw,
        n2[c].0,
        n2[c].1,
    ) by {
        if c < q.len() {
            assert(q2[c] == q[c] && n2[c] == names[c] && ks2[q[c]] == ks[q[c]]);
        }
    }
    assert forall|c: int, d: int| 0 <= c < d < q2.len() implies #[trigger] q2[c] < #[trigger] q2[d] by {
        if d < q.len() {
            assert(q2[c] == q[c] && q2[d] == q[d]);
        } else {
            assert(q2[c] == q[c]);
        }
    }
}

/// The keyword of the item kind `which`: `const`, `fn`, `proc` or `test`.
pub open spec fn kw_of(which: int) -> Seq<char> {
    if which == 0 {
        "const"@
    } else if which == 1 {
        "fn"@
    } else if which == 2 {
        "proc"@
    } else {
        "test"@
    }
}

/// The item lists named by `names`, kind by kind, are those that the
/// keywords at the increasing starts `ks` introduce, one item per start.
#[verifier::opaque]
pub open spec fn items_so_far(
    src: &str,
    toks: Seq<Token>,
    ks: Seq<int>,
    q: (Seq<int>, Seq<int>, Seq<int>, Seq<int>),
    names: (Seq<(Seq<char>, Span)>, Seq<(Seq<char>, Span)>, Seq<(Seq<char>, Span)>, Seq<(Seq<char>, Span)>),
) -> bool {
    &&& forall|a: int, b: int| 0 <= a < b < ks.len() ==> #[trigger] ks[a] < #[trigger] ks[b]
    &&& listed_at(src, toks, ks, q.0, kw_of(0), names.0)
    &&& listed_at(src, toks, ks, q.1, kw_of(1), names.1)
    &&& listed_at(src, toks, ks, q.2, kw_of(2), names.2)
    &&& listed_at(src, toks, ks, q.3, kw_of(3), names.3)
    &&& names.0.len() + names.1.len() + names.2.len() + names.3.len() == ks.len()
}

/// No items at no starts.
proof fn lemma_items_empty(src: &str, toks: Seq<Token>)
    ensures
        items_so_far(
            src,
            toks,
            Seq::empty(),
            (Seq::empty(), Seq::empty(), Seq::empty(), Seq::empty()),
            (Seq::empty(), Seq::empty(), Seq::empty(), Seq::empty()),
        ),
{
    reveal(items_so_far);
    reveal(listed_at);
}

/// One more item, of kind `which`, at a start after all the others.
proof fn lemma_items_push(
    src: &str,
    toks: Seq<Token>,
    ks: Seq<int>,
    q: (Seq<int>, Seq<int>, Seq<int>, Seq<int>),
    names: (Seq<(Seq<char>, Span)>, Seq<(Seq<char>, Span)>, Seq<(Seq<char>, Span)>, Seq<(Seq<char>, Span)>),
    k: int,
    which: int,
    name: Seq<char>,
    name_span: Span,
)
    requires
        items_so_far(src, toks, ks, q, names),
        ks.len() > 0 ==> ks.last() < k,
        0 <= which < 4,
        item_at(src, toks, k, kw_of(which), name, name_span),
    ensures
        items_so_far(
            src,
            toks,
            ks.push(k),
            (
                if which == 0 { q.0.push(ks.len() as int) } else { q.0 },
                if which == 1 { q.1.push(ks.len() as int) } else { q.1 },
                if which == 2 { q.2.push(ks.len() as int) } else { q.2 },
                if which == 3 { q.3.push(ks.len() as int) } else { q.3 },
            ),
            (
                if which == 0 { names.0.push((name, name_span)) } else { names.0 },
                if which == 1 { names.1.push((name, name_span)) } else { names.1 },
                if which == 2 { names.2.push((name, name_span)) } else { names.2 },
                if which == 3 { names.3.push((name, name_span)) } else { names.3 },
            ),
        ),
{
    reveal(items_so_far);
    let ks2 = ks.push(k);
    assert forall|a: int, b: int| 0 <= a < b < ks2.len() implies #[trigger] ks2[a] < #[trigger] ks2[b] by {
        if b < ks.len() {
            assert(ks2[a] == ks[a] && ks2[b] == ks[b]);
        } else if a < ks.len() - 1 {
            assert(ks[a] < ks[ks.len() - 1]);
        }
    }
    if which == 0 {
        lemma_listed_push(src, toks, ks, q.0, kw_of(0), names.0, k, name, name_span);
    } else {
        lemma_listed_grow(src, toks, ks, q.0, kw_of(0), names.0, k);
    }
    if which == 1 {
        lemma_listed_push(src, toks, ks, q.1, kw_of(1), names.1, k, name, name_span);
    } else {
        lemma_listed_grow(src, toks, ks, q.1, kw_of(1), names.1, k);
    }
    if which == 2 {
        lemma_listed_push(src, toks, ks, q.2, kw_of(2), names.2, k, name, name_span);
    } else {
        lemma_listed_grow(src, toks, ks, q.2, kw_of(2), names.2, k);
    }
    if which == 3 {
        lemma_listed_push(src, toks, ks, q.3, kw_of(3), names.3, k, name, name_span);
    } else {
        lemma_listed_grow(src, toks, ks, q.3, kw_of(3), names.3, k);
    }
}

/// Parse a token stream lexed from `src` into a [`Module`], or the first
/// syntax error as a single diagnostic. Every `fn` and `proc` declares its
/// parameters under distinct names.
pub fn parse(src: &str, toks: &[Token]) -> (res: Result<Module, Vec<Diagnostic>>)
    requires
        tokens_wf(src.spec_bytes(), toks@),
    ensures
        res matches Ok(m) ==> (forall|k: int| 0 <= k < m.fns@.len() ==> distinct_params(#[trigger] m.fns@[k].params@)),
        res matches Ok(m) ==> (forall|k: int| 0 <= k < m.procs@.len() ==> distinct_params(#[trigger] m.procs@[k].params@)),
        res matches Ok(m) ==> exists|ks: Seq<int>, q: (Seq<int>, Seq<int>, Seq<int>, Seq<int>)|
            module_items(src, toks@, m, ks, q),
        toks@[skip_nl(toks@, 0)].kind is Eof ==> (res matches Ok(m) && m.consts@.len() == 0
            && m.fns@.len() == 0 && m.procs@.len() == 0 && m.tests@.len() == 0),
        toks@[skip_nl(toks@, 0)].kind is Ident && !item_word(word_at(src, toks@, skip_nl(toks@, 0)))
            ==> (res matches Err(ds) && ds@[0].message@ == "expected `const`, `fn`, `proc`, or `test`, found `"@
            + word_at(src, toks@, skip_nl(toks@, 0)) + "`"@ && ds@[0].primary == toks@[skip_nl(toks@, 0)].span),
        res matches Err(ds) ==> ds@.len() == 1,
        one_simple_test(src, toks@) ==> (res matches Ok(m) && m.consts@.len() == 0 && m.fns@.len() == 0
            && m.procs@.len() == 0 && m.tests@.len() == 1 && stmts_at(
            src,
            toks@,
            one_test_stmts(src, toks@),
            m.tests@[0].stmts@,
        )),
{
    proof {
        lemma_item_words();
    }
    let mut consts: Vec<Const> = Vec::new();
    let mut fns: Vec<FnDef> = Vec::new();
    let mut procs: Vec<ProcDef> = Vec::new();
    let mut tests: Vec<Test> = Vec::new();
    let mut k = skip_newlines(src, toks, 0);
    let ghost mut ks: Seq<int> = Seq::empty();
    let ghost mut qs: (Seq<int>, Seq<int>, Seq<int>, Seq<int>) = (
        Seq::empty(),
        Seq::empty(),
        Seq::empty(),
        Seq::empty(),
    );
    proof {
        assert(const_names(consts@) =~= Seq::empty());
        assert(fn_names(fns@) =~= Seq::empty());
        assert(proc_names(procs@) =~= Seq::empty());
        assert(test_names(tests@) =~= Seq::empty());
        lemma_items_empty(src, toks@);
    }
    let ghost k0 = k;
    while toks[k].kind != Tok::Eof
        invariant
            stream_ok(src, toks@),
            pos_ok(toks@, k as int),
            k0 == skip_nl(toks@, 0),
            toks@[k0 as int].kind is Eof ==> k == k0 && consts@.len() == 0 && fns@.len() == 0
                && procs@.len() == 0 && tests@.len() == 0,
            toks@[k0 as int].kind is Ident && !item_word(word_at(src, toks@, k0 as int)) ==> k == k0,
            one_simple_test(src, toks@) ==> consts@.len() == 0 && fns@.len() == 0 && procs@.len() == 0 && (
            (k == k0 && tests@.len() == 0) || (tests@.len() == 1 && k == skip_nl(
                toks@,
                simple_block_end(src, toks@, k0 + 3)->0,
            ) && stmts_at(src, toks@, one_test_stmts(src, toks@), tests@[0].stmts@))),
            "const"@ != "test"@ && "fn"@ != "test"@ && "proc"@ != "test"@,
            forall|q: int| 0 <= q < fns@.len() ==> distinct_params(#[trigger] fns@[q].params@),
            forall|q: int| 0 <= q < procs@.len() ==> distinct_params(#[trigger] procs@[q].params@),
            ks.len() == 0 ==> k == skip_nl(toks@, 0),
            ks.len() > 0 ==> ks[0] == skip_nl(toks@, 0) && ks.last() < k,
            items_so_far(
                src,
                toks@,
                ks,
                qs,
                (const_names(consts@), fn_names(fns@), proc_names(procs@), test_names(tests@)),
            ),
        decreases toks@.len() - k,
    {
        let (kw, k1) = expect(src, toks, k, Tok::Ident, "an identifier")?;
        let word = text_of(src, toks, k);
        let w = word.as_str();
        let ghost ks0 = ks;
        let ghost nm = (const_names(consts@), fn_names(fns@), proc_names(procs@), test_names(tests@));
        if str_eq(w, "const") {
            let (c, j) = parse_const(src, toks, k1)?;
            proof {
                lemma_items_push(src, toks@, ks, qs, nm, k as int, 0, c.name@, c.name_span);
                assert(const_names(consts@.push(c)) =~= const_names(consts@).push((c.name@, c.name_span)));
                qs = (qs.0.push(ks.len() as int), qs.1, qs.2, qs.3);
                ks = ks.push(k as int);
            }
            consts.push(c);
            k = j;
        } else if str_eq(w, "fn") {
            let (f, j) = parse_fn(src, toks, k1)?;
            proof {
                lemma_items_push(src, toks@, ks, qs, nm, k as int, 1, f.name@, f.name_span);
                assert(fn_names(fns@.push(f)) =~= fn_names(fns@).push((f.name@, f.name_span)));
                qs = (qs.0, qs.1.push(ks.len() as int), qs.2, qs.3);
                ks = ks.push(k as int);
            }
            fns.push(f);
            k = j;
        } else if str_eq(w, "proc") {
            let (p, j) = parse_proc(src, toks, k1)?;
            proof {
                lemma_items_push(src, toks@, ks, qs, nm, k as int, 2, p.name@, p.name_span);
                assert(proc_names(procs@.push(p)) =~= proc_names(procs@).push((p.name@, p.name_span)));
                qs = (qs.0, qs.1, qs.2.push(ks.len() as int), qs.3);
                ks = ks.push(k as int);
            }
            procs.push(p);
            k = j;
        } else if str_eq(w, "test") {
            let (t, j) = parse_test(src, toks, k1)?;
            proof {
                lemma_items_push(src, toks@, ks, qs, nm, k as int, 3, t.name@, t.name_span);
                assert(test_names(tests@.push(t)) =~= test_names(tests@).push((t.name@, t.name_span)));
                qs = (qs.0, qs.1, qs.2, qs.3.push(ks.len() as int));
                ks = ks.push(k as int);
            }
            tests.push(t);
            k = j;
        } else {
            let mut m = String::new();
            m.append("expected `const`, `fn`, `proc`, or `test`, found `");
            m.append(w);
            m.append("`");
            return Err(err1_owned(kw, m));
        }
        k = skip_newlines(src, toks, k);
        assert(ks.len() == ks0.len() + 1 && ks.last() < k && ks[0] == skip_nl(toks@, 0)) by {
            if ks0.len() > 0 {
                assert(ks[0] == ks0[0]);
            }
        }
    }
    let m = Module { consts, fns, procs, tests };
    assert(module_items(src, toks@, m, ks, qs));
    Ok(m)
}

} // verus!
