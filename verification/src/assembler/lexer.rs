//! Tokeniser: source text -> tokens with byte spans. Skips `#` and `;` comments.
use vstd::prelude::*;
use vstd::string::StringSliceAdditionalSpecFns;

use crate::assembler::diagnostics::{Diagnostic, Span};
use crate::text::{ascii_chars, ascii_to_string, cat3, char_string, parse_digits, spec_parse_digits};

verus! {

/// A lexical token kind.
#[derive(Debug, Clone, PartialEq, Eq)]
pub enum TokKind {
    /// An identifier (mnemonic, register, label, or symbol name).
    Ident(String),
    /// A numeric literal (decimal, `0x`, or `0b`; may be negative).
    Num(i64),
    /// A directive name without the leading dot (`.equ` -> `equ`).
    Directive(String),
    /// `,`
    Comma,
    /// `:`
    Colon,
    /// End of a logical line.
    Newline,
    /// End of input.
    Eof,
}

/// A token with its source span.
#[derive(Debug, PartialEq, Eq)]
pub struct Token {
    /// The token kind.
    pub kind: TokKind,
    /// The byte span in the source.
    pub span: Span,
}

/// `[A-Za-z_]`.
pub open spec fn is_ident_start_byte(c: u8) -> bool {
    (65 <= c <= 90) || (97 <= c <= 122) || c == 95
}

/// `[A-Za-z0-9_]`.
pub open spec fn is_ident_continue_byte(c: u8) -> bool {
    is_ident_start_byte(c) || (48 <= c <= 57)
}

fn is_ident_start(c: u8) -> (res: bool)
    ensures
        res == is_ident_start_byte(c),
{
    (65 <= c && c <= 90) || (97 <= c && c <= 122) || c == 95
}

fn is_ident_continue(c: u8) -> (res: bool)
    ensures
        res == is_ident_continue_byte(c),
{
    is_ident_start(c) || (48 <= c && c <= 57)
}

/// Every byte of `b[lo..hi]` continues an identifier.
pub open spec fn all_ident_continue(b: Seq<u8>, lo: int, hi: int) -> bool {
    forall|k: int| lo <= k < hi ==> is_ident_continue_byte(b[k])
}

/// The radix of a number body: `0x`/`0X` is 16, `0b`/`0B` is 2, else 10.
pub open spec fn num_radix(b: Seq<u8>) -> int {
    if b.len() >= 2 && b[0] == 48 && (b[1] == 120 || b[1] == 88) {
        16
    } else if b.len() >= 2 && b[0] == 48 && (b[1] == 98 || b[1] == 66) {
        2
    } else {
        10
    }
}

/// The digits of a number body, after its radix prefix.
pub open spec fn num_digits(b: Seq<u8>) -> Seq<u8> {
    if num_radix(b) == 10 {
        b
    } else {
        b.skip(2)
    }
}

/// The value of a number lexeme: an optional `-`, an optional radix prefix,
/// then digits whose magnitude fits an `i64`.
pub open spec fn spec_num_lexeme(b: Seq<u8>) -> Option<i64> {
    let neg = b.len() > 0 && b[0] == 45;
    let body = if neg {
        b.drop_first()
    } else {
        b
    };
    match spec_parse_digits(num_digits(body), num_radix(body)) {
        Some(m) => Some(
            if neg {
                (-m) as i64
            } else {
                m
            },
        ),
        None => None,
    }
}

/// What a well-formed token of `src` is: a span inside the source whose
/// bytes spell the token.
pub open spec fn tok_wf(src: Seq<u8>, t: Token) -> bool {
    let (s, e) = (t.span.start as int, t.span.end as int);
    &&& s <= e <= src.len()
    &&& match t.kind {
        TokKind::Ident(name) => {
            &&& s < e
            &&& is_ident_start_byte(src[s])
            &&& all_ident_continue(src, s, e)
            &&& name@ == ascii_chars(src.subrange(s, e))
        },
        TokKind::Directive(name) => {
            &&& s + 1 < e
            &&& src[s] == 46
            &&& all_ident_continue(src, s + 1, e)
            &&& name@ == ascii_chars(src.subrange(s + 1, e))
        },
        TokKind::Num(v) => {
            &&& s < e
            &&& spec_num_lexeme(src.subrange(s, e)) == Some(v)
        },
        TokKind::Comma => e == s + 1 && src[s] == 44,
        TokKind::Colon => e == s + 1 && src[s] == 58,
        TokKind::Newline => e == s + 1 && src[s] == 10,
        TokKind::Eof => s == e && e == src.len(),
    }
}

/// A well-formed token stream: in source order, each well-formed, ending in
/// exactly one `Eof`.
pub open spec fn tokens_wf(src: Seq<u8>, toks: Seq<Token>) -> bool {
    &&& toks.len() >= 1
    &&& toks.last().kind is Eof
    &&& forall|k: int| 0 <= k < toks.len() ==> tok_wf(src, #[trigger] toks[k])
    &&& forall|k: int| 0 <= k < toks.len() - 1 ==> !(toks[k].kind is Eof)
    &&& forall|k: int|
        0 <= k < toks.len() - 1 ==> #[trigger] toks[k].span.end <= toks[k + 1].span.start
}

/// A token lexed at `i`: well-formed, not `Eof`, and spanning `i..j`.
pub open spec fn lexed_at(src: Seq<u8>, t: Token, i: int, j: int) -> bool {
    &&& tok_wf(src, t)
    &&& !(t.kind is Eof)
    &&& t.span.start == i
    &&& t.span.end == j
    &&& i < j <= src.len()
}

/// The end of the run of identifier bytes that starts at `i`.
pub open spec fn run_end(b: Seq<u8>, i: int) -> int
    decreases b.len() - i,
{
    if 0 <= i < b.len() && is_ident_continue_byte(b[i]) {
        run_end(b, i + 1)
    } else {
        i
    }
}

/// The end of a comment body that starts at `i`: the next newline, or the
/// end of the source.
pub open spec fn comment_end(b: Seq<u8>, i: int) -> int
    decreases b.len() - i,
{
    if 0 <= i < b.len() && b[i] != 10 {
        comment_end(b, i + 1)
    } else {
        i
    }
}

/// A run of identifier bytes ends inside the source, after its start, at a
/// byte that does not continue it.
pub proof fn lemma_run_end(b: Seq<u8>, i: int)
    requires
        0 <= i <= b.len(),
    ensures
        i <= run_end(b, i) <= b.len(),
        all_ident_continue(b, i, run_end(b, i)),
        run_end(b, i) < b.len() ==> !is_ident_continue_byte(b[run_end(b, i)]),
    decreases b.len() - i,
{
    if i < b.len() && is_ident_continue_byte(b[i]) {
        lemma_run_end(b, i + 1);
    }
}

/// A comment body ends inside the source, at or after its start.
pub proof fn lemma_comment_end(b: Seq<u8>, i: int)
    requires
        0 <= i <= b.len(),
    ensures
        i <= comment_end(b, i) <= b.len(),
    decreases b.len() - i,
{
    if i < b.len() && b[i] != 10 {
        lemma_comment_end(b, i + 1);
    }
}

/// Where the digits of a number lexeme that starts at `start` begin: past an
/// optional `-` and an optional `0x`/`0b` prefix.
pub open spec fn num_digits_start(b: Seq<u8>, start: int) -> int {
    let ns = if b[start] == 45 {
        start + 1
    } else {
        start
    };
    if ns + 1 < b.len() && b[ns] == 48 && (b[ns + 1] == 120 || b[ns + 1] == 88 || b[ns + 1] == 98 || b[ns + 1] == 66) {
        ns + 2
    } else {
        ns
    }
}

/// The end of the token that starts at `i` (a byte that is neither blank nor
/// a comment marker), or `None` when no token can start there.
pub open spec fn token_end(b: Seq<u8>, i: int) -> Option<int> {
    let c = b[i];
    if c == 10 || c == 44 || c == 58 {
        Some(i + 1)
    } else if c == 46 {
        if run_end(b, i + 1) == i + 1 {
            None
        } else {
            Some(run_end(b, i + 1))
        }
    } else if c == 45 || (48 <= c <= 57) {
        let ds = num_digits_start(b, i);
        let e = run_end(b, ds);
        if e == ds || spec_num_lexeme(b.subrange(i, e)) is None {
            None
        } else {
            Some(e)
        }
    } else if is_ident_start_byte(c) {
        Some(run_end(b, i + 1))
    } else {
        None
    }
}

/// The spans of the tokens lexed from `i` on (without the final `Eof`), or
/// `None` at the first lexical error: blanks are skipped, `#` and `;` start
/// comments to the end of the line, and every token is as long as it can be.
pub open spec fn spec_lex(b: Seq<u8>, i: int) -> Option<Seq<(int, int)>>
    decreases b.len() - i,
{
    if i < 0 || i >= b.len() {
        Some(Seq::empty())
    } else {
        let c = b[i];
        if c == 32 || c == 9 || c == 13 {
            spec_lex(b, i + 1)
        } else if c == 35 || c == 59 {
            proof {
                lemma_comment_end(b, i + 1);
            }
            spec_lex(b, comment_end(b, i + 1))
        } else {
            match token_end(b, i) {
                None => None,
                Some(e) => {
                    proof {
                        lemma_run_end(b, i + 1);
                        if c == 45 || (48 <= c <= 57) {
                            lemma_run_end(b, num_digits_start(b, i));
                        }
                    }
                    if e <= i || e > b.len() {
                        None
                    } else {
                        match spec_lex(b, e) {
                            None => None,
                            Some(rest) => Some(seq![(i, e)] + rest),
                        }
                    }
                },
            }
        }
    }
}

/// The error reported at `i`, where no token can start: its span and its
/// message.
pub open spec fn tok_error(b: Seq<u8>, i: int) -> (int, int, Seq<char>) {
    let c = b[i];
    if c == 46 {
        (i, i + 1, "empty directive after `.`"@)
    } else if c == 45 || (48 <= c <= 57) {
        let ds = num_digits_start(b, i);
        let e = run_end(b, ds);
        if e == ds {
            (i, e, "malformed number literal"@)
        } else {
            let ns = if c == 45 {
                i + 1
            } else {
                i
            };
            (i, e, "invalid number literal `"@ + ascii_chars(b.subrange(ns, e)) + "`"@)
        }
    } else {
        (i, i + 1, "unexpected character `"@ + seq![c as char] + "`"@)
    }
}

/// The first lexical error from `i` on (meaningful when lexing from `i`
/// fails): the span and message of the token that cannot be read.
pub open spec fn spec_lex_error(b: Seq<u8>, i: int) -> (int, int, Seq<char>)
    decreases b.len() - i,
{
    if i < 0 || i >= b.len() {
        (0, 0, Seq::empty())
    } else {
        let c = b[i];
        if c == 32 || c == 9 || c == 13 {
            spec_lex_error(b, i + 1)
        } else if c == 35 || c == 59 {
            proof {
                lemma_comment_end(b, i + 1);
            }
            spec_lex_error(b, comment_end(b, i + 1))
        } else {
            match token_end(b, i) {
                None => tok_error(b, i),
                Some(e) => {
                    proof {
                        lemma_run_end(b, i + 1);
                        if c == 45 || (48 <= c <= 57) {
                            lemma_run_end(b, num_digits_start(b, i));
                        }
                    }
                    if e <= i || e > b.len() {
                        (0, 0, Seq::empty())
                    } else {
                        spec_lex_error(b, e)
                    }
                },
            }
        }
    }
}

/// The spans of a token list.
pub open spec fn tok_spans(toks: Seq<Token>) -> Seq<(int, int)> {
    Seq::new(toks.len(), |k: int| (toks[k].span.start as int, toks[k].span.end as int))
}

/// `p` in front of the spans `o`, if there are any.
pub open spec fn prepend(p: Seq<(int, int)>, o: Option<Seq<(int, int)>>) -> Option<Seq<(int, int)>> {
    match o {
        Some(rest) => Some(p + rest),
        None => None,
    }
}

fn lex_directive(bytes: &[u8], start: usize) -> (res: Result<(Token, usize), Diagnostic>)
    requires
        start < bytes@.len(),
        bytes@[start as int] == 46,
    ensures
        res is Err <==> run_end(bytes@, start + 1) == start + 1,
        res matches Err(d) ==> (d.primary.start as int, d.primary.end as int, d.message@) == tok_error(
            bytes@,
            start as int,
        ),
        res matches Ok((t, j)) ==> lexed_at(bytes@, t, start as int, j as int) && j == run_end(
            bytes@,
            start + 1,
        ),
{
    let n = bytes.len();
    let mut i = start + 1;
    let name_start = i;
    while i < n && is_ident_continue(bytes[i])
        invariant
            name_start <= i <= n,
            n == bytes@.len(),
            all_ident_continue(bytes@, name_start as int, i as int),
            run_end(bytes@, i as int) == run_end(bytes@, name_start as int),
        decreases n - i,
    {
        i = i + 1;
    }
    if i == name_start {
        return Err(Diagnostic::error(start..i, "empty directive after `.`"));
    }
    let name = ascii_lexeme(bytes, name_start, i);
    Ok((Token { kind: TokKind::Directive(name), span: start..i }, i))
}

fn lex_number(bytes: &[u8], start: usize) -> (res: Result<(Token, usize), Diagnostic>)
    requires
        start < bytes@.len(),
        bytes@[start as int] == 45 || (48 <= bytes@[start as int] <= 57),
    ensures
        res is Err <==> ({
            let ds = num_digits_start(bytes@, start as int);
            let e = run_end(bytes@, ds);
            e == ds || spec_num_lexeme(bytes@.subrange(start as int, e)) is None
        }),
        res matches Ok((t, j)) ==> lexed_at(bytes@, t, start as int, j as int) && j == run_end(
            bytes@,
            num_digits_start(bytes@, start as int),
        ),
        res matches Err(d) ==> (d.primary.start as int, d.primary.end as int, d.message@) == tok_error(
            bytes@,
            start as int,
        ),
{
    let n = bytes.len();
    let c = bytes[start];
    let mut i = start;
    if c == 45 {
        i = i + 1;
    }
    let num_start = i;
    let mut radix: u8 = 10;
    if n - i > 1 && bytes[i] == 48 && (bytes[i + 1] == 120 || bytes[i + 1] == 88) {
        radix = 16;
        i = i + 2;
    } else if n - i > 1 && bytes[i] == 48 && (bytes[i + 1] == 98 || bytes[i + 1] == 66) {
        radix = 2;
        i = i + 2;
    }
    let digits_start = i;
    assert(digits_start == num_digits_start(bytes@, start as int));
    while i < n && is_ident_continue(bytes[i])
        invariant
            digits_start <= i <= n,
            n == bytes@.len(),
            all_ident_continue(bytes@, digits_start as int, i as int),
            run_end(bytes@, i as int) == run_end(bytes@, digits_start as int),
        decreases n - i,
    {
        i = i + 1;
    }
    if i == digits_start {
        return Err(Diagnostic::error(start..i, "malformed number literal"));
    }
    proof {
        let lex = bytes@.subrange(start as int, i as int);
        let body = bytes@.subrange(num_start as int, i as int);
        if c == 45 {
            assert(lex.drop_first() =~= body);
        } else {
            assert(lex =~= body);
        }
        assert(num_radix(body) == radix as int);
        assert(num_digits(body) =~= bytes@.subrange(digits_start as int, i as int));
    }
    let mag = match parse_digits(bytes, digits_start, i, radix) {
        Some(m) => m,
        None => {
            assert(all_ident_continue(bytes@, num_start as int, i as int));
            let text = ascii_lexeme(bytes, num_start, i);
            let msg = cat3("invalid number literal `", text.as_str(), "`");
            return Err(Diagnostic::error_owned(start..i, msg));
        },
    };
    let val = if c == 45 {
        -mag
    } else {
        mag
    };
    Ok((Token { kind: TokKind::Num(val), span: start..i }, i))
}

fn lex_ident(bytes: &[u8], start: usize) -> (res: (Token, usize))
    requires
        start < bytes@.len(),
        is_ident_start_byte(bytes@[start as int]),
    ensures
        lexed_at(bytes@, res.0, start as int, res.1 as int),
        res.1 == run_end(bytes@, start + 1),
{
    let n = bytes.len();
    let mut i = start + 1;
    while i < n && is_ident_continue(bytes[i])
        invariant
            start < i <= n,
            n == bytes@.len(),
            all_ident_continue(bytes@, start as int, i as int),
            run_end(bytes@, i as int) == run_end(bytes@, start + 1),
        decreases n - i,
    {
        i = i + 1;
    }
    let name = ascii_lexeme(bytes, start, i);
    (Token { kind: TokKind::Ident(name), span: start..i }, i)
}

/// Tokenise `source`. Fails fast on the first lexical error.
pub fn lex(source: &str) -> (res: Result<Vec<Token>, Diagnostic>)
    ensures
        res is Ok <==> spec_lex(source.spec_bytes(), 0) is Some,
        res matches Ok(toks) ==> tokens_wf(source.spec_bytes(), toks@) && spec_lex(
            source.spec_bytes(),
            0,
        ) == Some(tok_spans(toks@.drop_last())),
        res matches Err(d) ==> (d.primary.start as int, d.primary.end as int, d.message@)
            == spec_lex_error(source.spec_bytes(), 0),
{
    let bytes = source.as_bytes();
    let n = bytes.len();
    let mut toks: Vec<Token> = Vec::new();
    let mut i: usize = 0;
    while i < n
        invariant
            n == bytes@.len(),
            bytes@ == source.spec_bytes(),
            i <= n,
            forall|k: int| 0 <= k < toks@.len() ==> tok_wf(bytes@, #[trigger] toks@[k]),
            forall|k: int| 0 <= k < toks@.len() ==> !(toks@[k].kind is Eof),
            forall|k: int| 0 <= k < toks@.len() ==> #[trigger] toks@[k].span.end <= i,
            forall|k: int|
                0 <= k < toks@.len() - 1 ==> #[trigger] toks@[k].span.end <= toks@[k
                    + 1].span.start,
            spec_lex(bytes@, 0) == prepend(tok_spans(toks@), spec_lex(bytes@, i as int)),
            spec_lex_error(bytes@, 0) == spec_lex_error(bytes@, i as int),
        decreases n - i,
    {
        let c = bytes[i];
        if c == 32 || c == 9 || c == 13 {
            i = i + 1;
        } else if c == 35 || c == 59 {
            let ghost i0 = i;
            i = i + 1;
            while i < n && bytes[i] != 10
                invariant
                    i0 < i <= n,
                    n == bytes@.len(),
                    forall|k: int| 0 <= k < toks@.len() ==> #[trigger] toks@[k].span.end <= i,
                    comment_end(bytes@, i as int) == comment_end(bytes@, i0 + 1),
                decreases n - i,
            {
                i = i + 1;
            }
        } else {
            let (tok, j) = if c == 10 || c == 44 || c == 58 {
                let kind = if c == 10 {
                    TokKind::Newline
                } else if c == 44 {
                    TokKind::Comma
                } else {
                    TokKind::Colon
                };
                (Token { kind, span: i..i + 1 }, i + 1)
            } else if c == 46 {
                lex_directive(bytes, i)?
            } else if c == 45 || (48 <= c && c <= 57) {
                lex_number(bytes, i)?
            } else if is_ident_start(c) {
                lex_ident(bytes, i)
            } else {
                let ch = char_string(c as char);
                let msg = cat3("unexpected character `", ch.as_str(), "`");
                return Err(Diagnostic::error_owned(i..i + 1, msg));
            };
            assert(lexed_at(bytes@, tok, i as int, j as int));
            assert(token_end(bytes@, i as int) == Some(j as int));
            let ghost prev = toks@;
            toks.push(tok);
            proof {
                assert(tok_spans(toks@) =~= tok_spans(prev) + seq![(i as int, j as int)]);
                assert(spec_lex(bytes@, i as int) == prepend(
                    seq![(i as int, j as int)],
                    spec_lex(bytes@, j as int),
                ));
                match spec_lex(bytes@, j as int) {
                    Some(rest) => {
                        assert(tok_spans(prev) + (seq![(i as int, j as int)] + rest) =~= tok_spans(
                            toks@,
                        ) + rest);
                    },
                    None => {},
                }
                assert forall|k: int| 0 <= k < toks@.len() - 1 implies #[trigger] toks@[k].span.end
                    <= toks@[k + 1].span.start by {
                    if k == prev.len() - 1 {
                        assert(prev[k].span.end <= i);
                    } else {
                        assert(toks@[k] == prev[k] && toks@[k + 1] == prev[k + 1]);
                    }
                }
                assert forall|k: int| 0 <= k < toks@.len() implies tok_wf(bytes@, #[trigger] toks@[k]) by {
                    if k < prev.len() {
                        assert(toks@[k] == prev[k]);
                    }
                }
            }
            i = j;
        }
    }
    let ghost prev = toks@;
    toks.push(Token { kind: TokKind::Eof, span: n..n });
    proof {
        assert(toks@.drop_last() =~= prev);
        assert(tok_spans(prev) + Seq::<(int, int)>::empty() =~= tok_spans(prev));
        assert forall|k: int| 0 <= k < toks@.len() - 1 implies #[trigger] toks@[k].span.end
            <= toks@[k + 1].span.start by {
            assert(toks@[k] == prev[k]);
        }
        assert forall|k: int| 0 <= k < toks@.len() implies tok_wf(bytes@, #[trigger] toks@[k]) by {
            if k < prev.len() {
                assert(toks@[k] == prev[k]);
            }
        }
    }
    Ok(toks)
}

/// The text of `b[lo..hi]`, a run of ASCII bytes.
fn ascii_lexeme(b: &[u8], lo: usize, hi: usize) -> (res: String)
    requires
        lo <= hi <= b@.len(),
        forall|k: int| lo <= k < hi ==> is_ident_continue_byte(b@[k]),
    ensures
        res@ == ascii_chars(b@.subrange(lo as int, hi as int)),
{
    let part = &b[lo..hi];
    assert(part@ =~= b@.subrange(lo as int, hi as int));
    ascii_to_string(part)
}

} // verus!
