//! Lexer: `.tam` source text to tokens with byte spans. Skips `//` line and
//! `/* */` block comments; recognises identifiers, numbers, punctuation
//! (`{} [] () , = :`), the operators `+ ++ ^ ->`, and newlines (statement
//! separators).
use vstd::prelude::*;
use vstd::string::StringSliceAdditionalSpecFns;

use crate::assembler::diagnostics::{Diagnostic, Severity, Span};

verus! {

/// Token kinds.
#[derive(Debug, Clone, Copy, PartialEq, Eq, Structural)]
pub enum Tok {
    /// An identifier: keyword, mnemonic, register, or name.
    Ident,
    /// A numeric literal (decimal / `0x` / `0b`, `_` separators allowed).
    Number,
    /// `{`
    LBrace,
    /// `}`
    RBrace,
    /// `,`
    Comma,
    /// `[`
    LBracket,
    /// `]`
    RBracket,
    /// `(`
    LParen,
    /// `)`
    RParen,
    /// `=`
    Eq,
    /// `:` (a parameter's type annotation)
    Colon,
    /// `->` (a `fn`'s return type)
    Arrow,
    /// `+` (the `send ... + crc8` sugar)
    Plus,
    /// `++` (bytes concatenation)
    PlusPlus,
    /// `^` (bitwise xor, for deliberate-wrong CRCs)
    Caret,
    /// A newline: the statement separator.
    Newline,
    /// End of input.
    Eof,
}

/// A lexed token: its kind and the byte span it covers in the source.
#[derive(Debug)]
pub struct Token {
    /// The kind.
    pub kind: Tok,
    /// The byte span.
    pub span: Span,
}

impl Token {
    /// A copy of the token.
    pub fn copy(&self) -> (res: Token)
        ensures
            res == *self,
    {
        Token { kind: self.kind, span: self.span.start..self.span.end }
    }
}

/// `[A-Za-z_]`.
pub open spec fn ident_start(c: u8) -> bool {
    c == 95 || (65 <= c <= 90) || (97 <= c <= 122)
}

/// `[A-Za-z0-9_]`: the tail of an identifier or of a number.
pub open spec fn word_continue(c: u8) -> bool {
    ident_start(c) || (48 <= c <= 57)
}

/// The token kind a one-byte punctuation character spells.
pub open spec fn punct(c: u8) -> Option<Tok> {
    if c == 123 {
        Some(Tok::LBrace)
    } else if c == 125 {
        Some(Tok::RBrace)
    } else if c == 44 {
        Some(Tok::Comma)
    } else if c == 91 {
        Some(Tok::LBracket)
    } else if c == 93 {
        Some(Tok::RBracket)
    } else if c == 40 {
        Some(Tok::LParen)
    } else if c == 41 {
        Some(Tok::RParen)
    } else if c == 61 {
        Some(Tok::Eq)
    } else if c == 58 {
        Some(Tok::Colon)
    } else if c == 94 {
        Some(Tok::Caret)
    } else if c == 10 {
        Some(Tok::Newline)
    } else {
        None
    }
}

/// A word token: a first byte satisfying `first`, then word bytes up to the
/// first byte that is not one.
pub open spec fn word_at(src: Seq<u8>, s: int, e: int) -> bool {
    &&& s < e <= src.len()
    &&& forall|k: int| s < k < e ==> word_continue(#[trigger] src[k])
    &&& (e == src.len() || !word_continue(src[e]))
}

/// What a well-formed token of `src` is: its span lies in the source and its
/// bytes spell its kind.
pub open spec fn tok_wf(src: Seq<u8>, t: Token) -> bool {
    let (s, e) = (t.span.start as int, t.span.end as int);
    &&& s <= e <= src.len()
    &&& match t.kind {
        Tok::Ident => word_at(src, s, e) && ident_start(src[s]),
        Tok::Number => word_at(src, s, e) && 48 <= src[s] <= 57,
        Tok::PlusPlus => e == s + 2 && src[s] == 43 && src[s + 1] == 43,
        Tok::Plus => e == s + 1 && src[s] == 43 && (e == src.len() || src[e] != 43),
        Tok::Arrow => e == s + 2 && src[s] == 45 && src[s + 1] == 62,
        Tok::Eof => s == e && e == src.len(),
        _ => e == s + 1 && punct(src[s]) == Some(t.kind),
    }
}

/// A well-formed token stream: each token well-formed, in source order
/// without overlap, ending in exactly one `Eof`.
pub open spec fn tokens_wf(src: Seq<u8>, toks: Seq<Token>) -> bool {
    &&& toks.len() >= 1
    &&& toks.last().kind is Eof
    &&& forall|k: int| 0 <= k < toks.len() ==> tok_wf(src, #[trigger] toks[k])
    &&& forall|k: int| 0 <= k < toks.len() - 1 ==> !(#[trigger] toks[k].kind is Eof)
    &&& forall|k: int|
        0 <= k < toks.len() - 1 ==> #[trigger] toks[k].span.end <= toks[k + 1].span.start
}

/// The end of the run of word bytes that starts at `i`.
pub open spec fn word_run(b: Seq<u8>, i: int) -> int
    decreases b.len() - i,
{
    if 0 <= i < b.len() && word_continue(b[i]) {
        word_run(b, i + 1)
    } else {
        i
    }
}

/// The end of a line comment's body that starts at `i`: the next newline,
/// or the end of the source.
pub open spec fn line_end(b: Seq<u8>, i: int) -> int
    decreases b.len() - i,
{
    if 0 <= i < b.len() && b[i] != 10 {
        line_end(b, i + 1)
    } else {
        i
    }
}

/// Just past the `*/` that closes a block comment whose body starts at `i`,
/// or `None` when the source ends first.
pub open spec fn block_end(b: Seq<u8>, i: int) -> Option<int>
    decreases b.len() - i,
{
    if i < 0 || i >= b.len() {
        None
    } else if i + 1 < b.len() && b[i] == 42 && b[i + 1] == 47 {
        Some(i + 2)
    } else {
        block_end(b, i + 1)
    }
}

/// A run of word bytes ends inside the source, after its start.
pub proof fn lemma_word_run(b: Seq<u8>, i: int)
    requires
        0 <= i <= b.len(),
    ensures
        i <= word_run(b, i) <= b.len(),
    decreases b.len() - i,
{
    if i < b.len() && word_continue(b[i]) {
        lemma_word_run(b, i + 1);
    }
}

/// A line comment ends inside the source, at or after its start.
pub proof fn lemma_line_end(b: Seq<u8>, i: int)
    requires
        0 <= i <= b.len(),
    ensures
        i <= line_end(b, i) <= b.len(),
    decreases b.len() - i,
{
    if i < b.len() && b[i] != 10 {
        lemma_line_end(b, i + 1);
    }
}

/// A closed block comment ends inside the source, past its start.
pub proof fn lemma_block_end(b: Seq<u8>, i: int)
    requires
        0 <= i,
    ensures
        block_end(b, i) matches Some(e) ==> i + 2 <= e <= b.len(),
    decreases b.len() - i,
{
    if 0 <= i < b.len() && !(i + 1 < b.len() && b[i] == 42 && b[i + 1] == 47) {
        lemma_block_end(b, i + 1);
    }
}

/// The token of kind `k` spanning `s..e`.
pub open spec fn tok(k: Tok, s: int, e: int) -> Token {
    Token { kind: k, span: (s as usize)..(e as usize) }
}

/// `t` in front of the tokens `r`, if lexing went through.
pub open spec fn tok_then(t: Token, r: Result<Seq<Token>, (int, int, Seq<char>)>) -> Result<
    Seq<Token>,
    (int, int, Seq<char>),
> {
    match r {
        Ok(ts) => Ok(seq![t] + ts),
        Err(e) => Err(e),
    }
}

/// The tokens lexed from `i` on (without the final `Eof`), or the span and
/// message of the first lexical error. Blanks are skipped, `//` comments
/// run to the end of the line and `/* */` comments to their close, `++`
/// and `->` are read before `+` and punctuation, and words are as long as
/// they can be.
pub open spec fn spec_lex(b: Seq<u8>, i: int) -> Result<Seq<Token>, (int, int, Seq<char>)>
    decreases b.len() - i,
{
    if i < 0 || i >= b.len() {
        Ok(Seq::empty())
    } else {
        let c = b[i];
        let two = i + 1 < b.len();
        if c == 32 || c == 9 || c == 13 {
            spec_lex(b, i + 1)
        } else if c == 47 && two && b[i + 1] == 47 {
            proof {
                lemma_line_end(b, i + 2);
            }
            spec_lex(b, line_end(b, i + 2))
        } else if c == 47 && two && b[i + 1] == 42 {
            proof {
                lemma_block_end(b, i + 2);
            }
            match block_end(b, i + 2) {
                Some(e) => spec_lex(b, e),
                None => Err((i, b.len() as int, "unterminated block comment"@)),
            }
        } else if c == 43 && two && b[i + 1] == 43 {
            tok_then(tok(Tok::PlusPlus, i, i + 2), spec_lex(b, i + 2))
        } else if c == 43 {
            tok_then(tok(Tok::Plus, i, i + 1), spec_lex(b, i + 1))
        } else if c == 45 && two && b[i + 1] == 62 {
            tok_then(tok(Tok::Arrow, i, i + 2), spec_lex(b, i + 2))
        } else if punct(c) is Some {
            tok_then(tok(punct(c)->0, i, i + 1), spec_lex(b, i + 1))
        } else if ident_start(c) || (48 <= c <= 57) {
            proof {
                lemma_word_run(b, i + 1);
            }
            let e = word_run(b, i + 1);
            tok_then(
                tok(
                    if ident_start(c) {
                        Tok::Ident
                    } else {
                        Tok::Number
                    },
                    i,
                    e,
                ),
                spec_lex(b, e),
            )
        } else {
            Err((i, i + 1, "unexpected character `"@ + seq![c as char] + "`"@))
        }
    }
}

/// The tokens `p` in front of what lexing the rest gives.
pub open spec fn toks_then(p: Seq<Token>, r: Result<Seq<Token>, (int, int, Seq<char>)>) -> Result<
    Seq<Token>,
    (int, int, Seq<char>),
> {
    match r {
        Ok(ts) => Ok(p + ts),
        Err(e) => Err(e),
    }
}

fn is_ident_start(c: u8) -> (res: bool)
    ensures
        res == ident_start(c),
{
    c == 95 || (65 <= c && c <= 90) || (97 <= c && c <= 122)
}

fn is_word_continue(c: u8) -> (res: bool)
    ensures
        res == word_continue(c),
{
    is_ident_start(c) || (48 <= c && c <= 57)
}

fn punct_of(c: u8) -> (res: Option<Tok>)
    ensures
        res == punct(c),
{
    if c == 123 {
        Some(Tok::LBrace)
    } else if c == 125 {
        Some(Tok::RBrace)
    } else if c == 44 {
        Some(Tok::Comma)
    } else if c == 91 {
        Some(Tok::LBracket)
    } else if c == 93 {
        Some(Tok::RBracket)
    } else if c == 40 {
        Some(Tok::LParen)
    } else if c == 41 {
        Some(Tok::RParen)
    } else if c == 61 {
        Some(Tok::Eq)
    } else if c == 58 {
        Some(Tok::Colon)
    } else if c == 94 {
        Some(Tok::Caret)
    } else if c == 10 {
        Some(Tok::Newline)
    } else {
        None
    }
}

/// The end of the word that starts at `start`.
fn word_end(b: &[u8], start: usize) -> (res: usize)
    requires
        start < b@.len(),
    ensures
        word_at(b@, start as int, res as int),
        res == word_run(b@, start + 1),
{
    let n = b.len();
    let mut i = start + 1;
    while i < n && is_word_continue(b[i])
        invariant
            start < i <= n,
            n == b@.len(),
            forall|k: int| start < k < i ==> word_continue(#[trigger] b@[k]),
            word_run(b@, i as int) == word_run(b@, start + 1),
        decreases b@.len() - i,
    {
        i = i + 1;
    }
    i
}

fn unexpected(c: u8, at: usize) -> (res: Diagnostic)
    requires
        at < usize::MAX,
    ensures
        res.severity == Severity::Error,
        res.message@ == "unexpected character `"@ + seq![c as char] + "`"@,
        res.primary.start == at && res.primary.end == at + 1,
        res.labels@.len() == 0,
        res.help is None,
{
    let mut m = String::new();
    m.append("unexpected character `");
    let ch = crate::text::char_string(c as char);
    m.append(ch.as_str());
    m.append("`");
    Diagnostic::error_owned(at..at + 1, m)
}

/// Lex `src` into tokens, or return the first lexical error as a diagnostic.
pub fn lex(src: &str) -> (res: Result<Vec<Token>, Vec<Diagnostic>>)
    ensures
        res matches Ok(toks) ==> tokens_wf(src.spec_bytes(), toks@),
        res matches Err(ds) ==> ds@.len() == 1,
        res is Ok <==> spec_lex(src.spec_bytes(), 0) is Ok,
        res matches Ok(toks) ==> spec_lex(src.spec_bytes(), 0) == Ok::<Seq<Token>, (int, int, Seq<char>)>(
            toks@.drop_last(),
        ) && toks@.last() == tok(Tok::Eof, src.spec_bytes().len() as int, src.spec_bytes().len() as int),
        res matches Err(ds) ==> (spec_lex(src.spec_bytes(), 0) matches Err(e) && ds@[0].message@ == e.2
            && ds@[0].primary.start == e.0 && ds@[0].primary.end == e.1),
{
    let b = src.as_bytes();
    let n = b.len();
    let mut i: usize = 0;
    let mut toks: Vec<Token> = Vec::new();
    while i < n
        invariant
            n == b@.len(),
            b@ == src.spec_bytes(),
            i <= n,
            forall|k: int| 0 <= k < toks@.len() ==> tok_wf(b@, #[trigger] toks@[k]),
            forall|k: int| 0 <= k < toks@.len() ==> !(#[trigger] toks@[k].kind is Eof),
            forall|k: int| 0 <= k < toks@.len() ==> #[trigger] toks@[k].span.end <= i,
            forall|k: int|
                0 <= k < toks@.len() - 1 ==> #[trigger] toks@[k].span.end <= toks@[k
                    + 1].span.start,
            spec_lex(b@, 0) == toks_then(toks@, spec_lex(b@, i as int)),
        decreases n - i,
    {
        let ghost prev = toks@;
        let ghost i0 = i;
        let c = b[i];
        if c == 32 || c == 9 || c == 13 {
            i = i + 1;
        } else if c == 47 && i + 1 < n && b[i + 1] == 47 {
            i = i + 2;
            while i < n && b[i] != 10
                invariant
                    i0 + 2 <= i <= n,
                    n == b@.len(),
                    line_end(b@, i as int) == line_end(b@, i0 + 2),
                decreases n - i,
            {
                i = i + 1;
            }
        } else if c == 47 && i + 1 < n && b[i + 1] == 42 {
            let start = i;
            i = i + 2;
            loop
                invariant_except_break
                    block_end(b@, i as int) == block_end(b@, start + 2),
                invariant
                    start + 2 <= i <= n,
                    n == b@.len(),
                    start == i0,
                    b@ == src.spec_bytes(),
                    b@[start as int] == 47 && b@[start + 1] == 42,
                    spec_lex(b@, 0) == toks_then(toks@, spec_lex(b@, i0 as int)),
                ensures
                    block_end(b@, start + 2) == Some(i as int),
                decreases n - i,
            {
                if n - i > 1 && b[i] == 42 && b[i + 1] == 47 {
                    i = i + 2;
                    break;
                }
                if i >= n {
                    return Err(
                        vec![Diagnostic::error(start..n, "unterminated block comment")],
                    );
                }
                i = i + 1;
            }
        } else if c == 43 && i + 1 < n && b[i + 1] == 43 {
            toks.push(Token { kind: Tok::PlusPlus, span: i..i + 2 });
            i = i + 2;
        } else if c == 43 {
            toks.push(Token { kind: Tok::Plus, span: i..i + 1 });
            i = i + 1;
        } else if c == 45 && i + 1 < n && b[i + 1] == 62 {
            toks.push(Token { kind: Tok::Arrow, span: i..i + 2 });
            i = i + 2;
        } else if let Some(k) = punct_of(c) {
            toks.push(Token { kind: k, span: i..i + 1 });
            i = i + 1;
        } else if is_ident_start(c) {
            let e = word_end(b, i);
            toks.push(Token { kind: Tok::Ident, span: i..e });
            i = e;
        } else if 48 <= c && c <= 57 {
            let e = word_end(b, i);
            toks.push(Token { kind: Tok::Number, span: i..e });
            i = e;
        } else {
            return Err(vec![unexpected(c, i)]);
        }
        assert(forall|k: int| 0 <= k < prev.len() ==> toks@[k] == prev[k]);
        proof {
            if toks@.len() > prev.len() {
                let t = toks@.last();
                assert(toks@ =~= prev + seq![t]);
                assert(spec_lex(b@, i0 as int) == tok_then(t, spec_lex(b@, i as int)));
                if let Ok(rest) = spec_lex(b@, i as int) {
                    assert(prev + (seq![t] + rest) =~= toks@ + rest);
                }
            } else {
                assert(toks@ =~= prev);
                assert(spec_lex(b@, i0 as int) == spec_lex(b@, i as int));
            }
        }
    }
    assert(spec_lex(b@, n as int) == Ok::<Seq<Token>, (int, int, Seq<char>)>(Seq::empty()));
    assert(toks@ + Seq::<Token>::empty() =~= toks@);
    let ghost before = toks@;
    toks.push(Token { kind: Tok::Eof, span: n..n });
    assert(toks@.drop_last() =~= before);
    Ok(toks)
}

} // verus!
