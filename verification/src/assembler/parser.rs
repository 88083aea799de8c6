//! Parser: tokens -> a flat line AST (labels, directives, instructions).
use vstd::prelude::*;

use crate::assembler::diagnostics::{span_copy, Diagnostic, Span};
use crate::assembler::lexer::{prepend, TokKind, Token};

verus! {

/// A parsed operand: a bare identifier or a numeric literal.
#[derive(Debug, Clone, PartialEq, Eq)]
pub enum OperandKind {
    /// A register name, symbol, label, or `set_config`/`rdsr` keyword.
    Ident(String),
    /// A numeric immediate.
    Num(i64),
}

/// An operand with its source span.
#[derive(Debug, PartialEq, Eq)]
pub struct Operand {
    /// The operand kind.
    pub kind: OperandKind,
    /// The byte span.
    pub span: Span,
}

/// One parsed source line.
#[derive(Debug, PartialEq, Eq)]
pub enum LineKind {
    /// `name:` — defines an address.
    Label(String),
    /// `.name args...`
    Directive {
        /// Directive name without the dot.
        name: String,
        /// Directive arguments.
        args: Vec<Operand>,
    },
    /// `mnemonic operands...`
    Instr {
        /// The mnemonic.
        mnemonic: String,
        /// The operands.
        operands: Vec<Operand>,
    },
}

/// A line with its source span.
#[derive(Debug, PartialEq, Eq)]
pub struct Line {
    /// The line kind.
    pub kind: LineKind,
    /// The byte span.
    pub span: Span,
}

/// A token that ends a line.
pub open spec fn is_line_end(k: TokKind) -> bool {
    k is Newline || k is Eof
}

/// `op` is the operand that token `t` spells.
pub open spec fn operand_of(t: Token, op: Operand) -> bool {
    &&& op.span == t.span
    &&& match t.kind {
        TokKind::Ident(s) => op.kind == OperandKind::Ident(s),
        TokKind::Num(n) => op.kind == OperandKind::Num(n),
        _ => false,
    }
}

/// `ops` is a comma-separated operand list occupying tokens `lo..hi`, and the
/// token at `hi` ends the line.
pub open spec fn operands_at(toks: Seq<Token>, lo: int, hi: int, ops: Seq<Operand>) -> bool {
    &&& 0 <= lo <= hi < toks.len()
    &&& is_line_end(toks[hi].kind)
    &&& if ops.len() == 0 {
        hi == lo
    } else {
        &&& hi == lo + 2 * ops.len() - 1
        &&& forall|j: int| 0 <= j < ops.len() ==> operand_of(toks[lo + 2 * j], #[trigger] ops[j])
        &&& forall|j: int| 0 <= j < ops.len() - 1 ==> #[trigger] toks[lo + 2 * j + 1].kind
            is Comma
    }
}

/// `line` is what tokens `lo..hi` spell (a label, or a mnemonic or directive
/// followed by its operands up to the end of the line).
pub open spec fn line_at(toks: Seq<Token>, lo: int, hi: int, line: Line) -> bool {
    &&& 0 <= lo < hi <= toks.len()
    &&& match line.kind {
        LineKind::Label(name) => {
            &&& hi == lo + 2
            &&& toks[lo].kind == TokKind::Ident(name)
            &&& toks[lo + 1].kind is Colon
            &&& line.span == (toks[lo].span.start..toks[lo + 1].span.end)
        },
        LineKind::Instr { mnemonic, operands } => {
            &&& toks[lo].kind == TokKind::Ident(mnemonic)
            &&& !(toks[lo + 1].kind is Colon)
            &&& operands_at(toks, lo + 1, hi, operands@)
            &&& line.span == (toks[lo].span.start..toks[hi - 1].span.end)
        },
        LineKind::Directive { name, args } => {
            &&& toks[lo].kind == TokKind::Directive(name)
            &&& operands_at(toks, lo + 1, hi, args@)
            &&& line.span == (toks[lo].span.start..toks[hi - 1].span.end)
        },
    }
}

/// `line` is spelled by some run of tokens.
pub open spec fn line_parsed(toks: Seq<Token>, line: Line) -> bool {
    exists|lo: int, hi: int| line_at(toks, lo, hi, line)
}

/// A token that spells an operand.
pub open spec fn is_operand_tok(k: TokKind) -> bool {
    k is Ident || k is Num
}

/// Where a non-empty operand list that starts at token `j` ends (the index
/// of the line end after its last operand), or `None` when the tokens from
/// `j` are not operands separated by single commas up to the end of the line.
pub open spec fn operands_end(toks: Seq<Token>, j: int) -> Option<int>
    decreases toks.len() - j,
{
    if j < 0 || j + 1 >= toks.len() || !is_operand_tok(toks[j].kind) {
        None
    } else if is_line_end(toks[j + 1].kind) {
        Some(j + 1)
    } else if toks[j + 1].kind is Comma && j + 2 < toks.len() && !is_line_end(toks[j + 2].kind) {
        operands_end(toks, j + 2)
    } else {
        None
    }
}

/// Where an operand list (possibly empty) that starts at token `i` ends.
pub open spec fn operand_list_end(toks: Seq<Token>, i: int) -> Option<int> {
    if i < 0 || i >= toks.len() {
        None
    } else if is_line_end(toks[i].kind) {
        Some(i)
    } else {
        operands_end(toks, i)
    }
}

/// The token ranges `(lo, hi)` of the lines parsed from token `i` on, or
/// `None` at the first syntax error: blank lines are skipped, `name:` is a
/// label, and a mnemonic or a directive takes the operands up to the end of
/// its line.
pub open spec fn spec_parse(toks: Seq<Token>, i: int) -> Option<Seq<(int, int)>>
    decreases toks.len() - i,
{
    if i < 0 || i >= toks.len() {
        Some(Seq::empty())
    } else {
        match toks[i].kind {
            TokKind::Eof => Some(Seq::empty()),
            TokKind::Newline => spec_parse(toks, i + 1),
            TokKind::Ident(_) => {
                if i + 1 < toks.len() && toks[i + 1].kind is Colon {
                    prepend(seq![(i, i + 2)], spec_parse(toks, i + 2))
                } else {
                    match operand_list_end(toks, i + 1) {
                        Some(e) => if i < e <= toks.len() {
                            prepend(seq![(i, e)], spec_parse(toks, e))
                        } else {
                            None
                        },
                        None => None,
                    }
                }
            },
            TokKind::Directive(_) => {
                match operand_list_end(toks, i + 1) {
                    Some(e) => if i < e <= toks.len() {
                        prepend(seq![(i, e)], spec_parse(toks, e))
                    } else {
                        None
                    },
                    None => None,
                }
            },
            _ => None,
        }
    }
}

/// The error in an operand list whose operand is expected at token `j`: its
/// span and message (meaningful where `operands_end` finds no end).
pub open spec fn operands_error(toks: Seq<Token>, j: int) -> (Span, Seq<char>)
    decreases toks.len() - j,
{
    if j < 0 || j + 1 >= toks.len() {
        (0..0, Seq::empty())
    } else if !is_operand_tok(toks[j].kind) {
        (toks[j].span, "expected a register, immediate, or symbol"@)
    } else if is_line_end(toks[j + 1].kind) {
        (0..0, Seq::empty())
    } else if toks[j + 1].kind is Comma {
        if j + 2 < toks.len() && is_line_end(toks[j + 2].kind) {
            (toks[j + 2].span, "trailing comma: expected another operand"@)
        } else if j + 2 < toks.len() {
            operands_error(toks, j + 2)
        } else {
            (0..0, Seq::empty())
        }
    } else {
        (toks[j + 1].span, "expected `,` or end of line"@)
    }
}

/// The error in an operand list that starts at token `i`.
pub open spec fn operand_list_error(toks: Seq<Token>, i: int) -> (Span, Seq<char>) {
    if 0 <= i < toks.len() && !is_line_end(toks[i].kind) {
        operands_error(toks, i)
    } else {
        (0..0, Seq::empty())
    }
}

/// The first syntax error from token `i` on (meaningful where `spec_parse`
/// fails): its span and message.
pub open spec fn spec_parse_error(toks: Seq<Token>, i: int) -> (Span, Seq<char>)
    decreases toks.len() - i,
{
    if i < 0 || i >= toks.len() {
        (0..0, Seq::empty())
    } else {
        match toks[i].kind {
            TokKind::Eof => (0..0, Seq::empty()),
            TokKind::Newline => spec_parse_error(toks, i + 1),
            TokKind::Ident(_) => {
                if i + 1 < toks.len() && toks[i + 1].kind is Colon {
                    spec_parse_error(toks, i + 2)
                } else {
                    match operand_list_end(toks, i + 1) {
                        Some(e) => if i < e <= toks.len() {
                            spec_parse_error(toks, e)
                        } else {
                            (0..0, Seq::empty())
                        },
                        None => operand_list_error(toks, i + 1),
                    }
                }
            },
            TokKind::Directive(_) => {
                match operand_list_end(toks, i + 1) {
                    Some(e) => if i < e <= toks.len() {
                        spec_parse_error(toks, e)
                    } else {
                        (0..0, Seq::empty())
                    },
                    None => operand_list_error(toks, i + 1),
                }
            },
            _ => (toks[i].span, "expected a label, instruction, or directive"@),
        }
    }
}

/// `lines` are, one for one, the lines spelled by the token ranges `r`.
pub open spec fn lines_at(toks: Seq<Token>, lines: Seq<Line>, r: Seq<(int, int)>) -> bool {
    &&& lines.len() == r.len()
    &&& forall|k: int| 0 <= k < lines.len() ==> line_at(toks, r[k].0, r[k].1, #[trigger] lines[k])
}

/// Parse a token stream into a flat line list. Fails fast on the first error.
pub fn parse(tokens: &[Token]) -> (res: Result<Vec<Line>, Diagnostic>)
    requires
        tokens@.len() > 0 ==> is_line_end(tokens@.last().kind),
    ensures
        res is Ok <==> spec_parse(tokens@, 0) is Some,
        res matches Ok(lines) ==> forall|k: int|
            0 <= k < lines@.len() ==> line_parsed(tokens@, #[trigger] lines@[k]),
        res matches Ok(lines) ==> lines_at(tokens@, lines@, spec_parse(tokens@, 0)->0),
        res matches Err(d) ==> d.primary == spec_parse_error(tokens@, 0).0 && d.message@
            == spec_parse_error(tokens@, 0).1,
{
    let mut lines: Vec<Line> = Vec::new();
    let mut i: usize = 0;
    let ghost mut ranges: Seq<(int, int)> = Seq::empty();
    assert(prepend(ranges, spec_parse(tokens@, 0)) == spec_parse(tokens@, 0)) by {
        if let Some(r) = spec_parse(tokens@, 0) {
            assert(ranges + r =~= r);
        }
    }
    while i < tokens.len()
        invariant
            tokens@.len() > 0 ==> is_line_end(tokens@.last().kind),
            i <= tokens@.len(),
            forall|k: int| 0 <= k < lines@.len() ==> line_parsed(tokens@, #[trigger] lines@[k]),
            spec_parse(tokens@, 0) == prepend(ranges, spec_parse(tokens@, i as int)),
            spec_parse_error(tokens@, 0) == spec_parse_error(tokens@, i as int),
            lines_at(tokens@, lines@, ranges),
        ensures
            spec_parse(tokens@, i as int) == Some(Seq::<(int, int)>::empty()),
        decreases tokens@.len() - i,
    {
        let ghost prev = lines@;
        let ghost prev_r = ranges;
        match &tokens[i].kind {
            TokKind::Eof => {
                assert(spec_parse(tokens@, i as int) == Some(Seq::<(int, int)>::empty()));
                break;
            },
            TokKind::Newline => {
                i = i + 1;
            },
            TokKind::Ident(name) => {
                assert(i + 1 < tokens@.len());
                if matches!(tokens[i + 1].kind, TokKind::Colon) {
                    let span = tokens[i].span.start..tokens[i + 1].span.end;
                    let line = Line { kind: LineKind::Label(name.clone()), span };
                    assert(line_at(tokens@, i as int, i + 2, line));
                    lines.push(line);
                    proof {
                        ranges = ranges.push((i as int, i + 2));
                    }
                    i = i + 2;
                } else {
                    let start = tokens[i].span.start;
                    let mnemonic = name.clone();
                    let (operands, next, end) = parse_operands(tokens, i + 1)?;
                    let line = Line { kind: LineKind::Instr { mnemonic, operands }, span: start..end };
                    assert(line_at(tokens@, i as int, next as int, line));
                    lines.push(line);
                    proof {
                        ranges = ranges.push((i as int, next as int));
                    }
                    i = next;
                }
            },
            TokKind::Directive(name) => {
                assert(i + 1 < tokens@.len());
                let start = tokens[i].span.start;
                let dname = name.clone();
                let (args, next, end) = parse_operands(tokens, i + 1)?;
                let line = Line { kind: LineKind::Directive { name: dname, args }, span: start..end };
                assert(line_at(tokens@, i as int, next as int, line));
                lines.push(line);
                proof {
                    ranges = ranges.push((i as int, next as int));
                }
                i = next;
            },
            _ => {
                return Err(
                    Diagnostic::error(
                        span_copy(&tokens[i].span),
                        "expected a label, instruction, or directive",
                    ),
                );
            },
        }
        proof {
            assert forall|k: int| 0 <= k < lines@.len() implies line_parsed(tokens@, #[trigger] lines@[k]) by {
                if k < prev.len() {
                    assert(lines@[k] == prev[k]);
                }
            }
            assert forall|k: int| 0 <= k < lines@.len() implies line_at(
                tokens@,
                ranges[k].0,
                ranges[k].1,
                #[trigger] lines@[k],
            ) by {
                if k < prev.len() {
                    assert(lines@[k] == prev[k]);
                    assert(ranges[k] == prev_r[k]);
                }
            }
            if ranges.len() > prev_r.len() {
                let last = ranges.last();
                assert(ranges =~= prev_r + seq![last]);
                if let Some(rest) = spec_parse(tokens@, i as int) {
                    assert(prev_r + (seq![last] + rest) =~= ranges + rest);
                }
            }
        }
    }
    assert(ranges + Seq::<(int, int)>::empty() =~= ranges);
    Ok(lines)
}

/// Parse a comma-separated operand list from index `i` up to the next
/// Newline/Eof. Returns `(operands, index_after, end_offset)`.
fn parse_operands(tokens: &[Token], i: usize) -> (res: Result<(Vec<Operand>, usize, usize), Diagnostic>)
    requires
        0 < i < tokens@.len(),
        is_line_end(tokens@.last().kind),
    ensures
        res is Ok <==> operand_list_end(tokens@, i as int) is Some,
        res matches Ok((ops, next, end)) ==> i < next + 1 && operands_at(
            tokens@,
            i as int,
            next as int,
            ops@,
        ),
        res matches Ok((ops, next, end)) ==> operand_list_end(tokens@, i as int) == Some(next as int)
            && end == tokens@[next - 1].span.end,
        res matches Err(d) ==> d.primary == operand_list_error(tokens@, i as int).0 && d.message@
            == operand_list_error(tokens@, i as int).1,
{
    let mut ops: Vec<Operand> = Vec::new();
    let mut end = tokens[i - 1].span.end;
    if matches!(tokens[i].kind, TokKind::Newline | TokKind::Eof) {
        return Ok((ops, i, end));
    }
    let mut j = i;
    loop
        invariant
            0 < i <= j < tokens@.len(),
            is_line_end(tokens@.last().kind),
            j == i + 2 * ops@.len(),
            !is_line_end(tokens@[j as int].kind),
            forall|m: int| 0 <= m < ops@.len() ==> operand_of(tokens@[i + 2 * m], #[trigger] ops@[m]),
            forall|m: int| 0 <= m < ops@.len() ==> #[trigger] tokens@[i + 2 * m + 1].kind is Comma,
            operand_list_end(tokens@, i as int) == operands_end(tokens@, j as int),
            operand_list_error(tokens@, i as int) == operands_error(tokens@, j as int),
            ops@.len() > 0 ==> end == tokens@[j - 2].span.end,
        decreases tokens@.len() - j,
    {
        let op = parse_operand(&tokens[j])?;
        end = op.span.end;
        let ghost prev = ops@;
        ops.push(op);
        assert forall|m: int| 0 <= m < ops@.len() implies operand_of(tokens@[i + 2 * m], #[trigger] ops@[m]) by {
            if m < prev.len() {
                assert(ops@[m] == prev[m]);
            }
        }
        assert(j + 1 < tokens@.len());
        j = j + 1;
        match &tokens[j].kind {
            TokKind::Comma => {
                assert(j + 1 < tokens@.len());
                j = j + 1;
                if matches!(tokens[j].kind, TokKind::Newline | TokKind::Eof) {
                    return Err(
                        Diagnostic::error(
                            span_copy(&tokens[j].span),
                            "trailing comma: expected another operand",
                        ),
                    );
                }
            },
            TokKind::Newline | TokKind::Eof => {
                assert(forall|m: int| 0 <= m < ops@.len() - 1 ==> #[trigger] tokens@[i + 2 * m + 1].kind is Comma);
                return Ok((ops, j, end));
            },
            _ => {
                return Err(
                    Diagnostic::error(span_copy(&tokens[j].span), "expected `,` or end of line"),
                );
            },
        }
    }
}

fn parse_operand(tok: &Token) -> (res: Result<Operand, Diagnostic>)
    ensures
        res is Ok <==> is_operand_tok(tok.kind),
        res matches Ok(op) ==> operand_of(*tok, op),
        res matches Err(d) ==> d.primary == tok.span && d.message@
            == "expected a register, immediate, or symbol"@,
{
    match &tok.kind {
        TokKind::Ident(s) => Ok(Operand { kind: OperandKind::Ident(s.clone()), span: span_copy(&tok.span) }),
        TokKind::Num(n) => Ok(Operand { kind: OperandKind::Num(*n), span: span_copy(&tok.span) }),
        _ => Err(Diagnostic::error(span_copy(&tok.span), "expected a register, immediate, or symbol")),
    }
}

} // verus!
