//! The assembler for the tamal ISA: RISC-V-flavoured source to instructions.
//!
//! The entry point is [`assemble`] (source to a [`Program`] or a batch of
//! [`Diagnostic`]s); rendering the diagnostics is left to the front end.
pub mod diagnostics;
pub mod encoder;
pub mod lexer;
pub mod mnemonics;
pub mod parser;
pub mod symbol;

pub use diagnostics::{Diagnostic, Severity, Span};

use vstd::prelude::*;
use vstd::string::StringSliceAdditionalSpecFns;

use crate::abi::isa::Instr;
use crate::assembler::diagnostics::span_copy;
use crate::assembler::encoder::{
    encode_line, instr_word_count, lemma_encode_word_count, lemma_word_count_bound,
    spec_encode_line, spec_instr_word_count, SymMap,
};
use crate::assembler::lexer::{lex, spec_lex, spec_lex_error, tok_spans, tokens_wf, Token};
use crate::assembler::parser::{
    line_parsed, lines_at, parse, spec_parse, spec_parse_error, Line, LineKind, Operand, OperandKind,
};
use crate::assembler::symbol::{assign_addresses, collect_equs, spec_pass0, spec_pass1};
use crate::text::{push_dec, spec_dec, str_eq};

verus! {

/// A successfully assembled program: the instructions, and for each one the
/// source span it came from (for listings).
#[derive(Debug)]
pub struct Program {
    /// The instructions, in address order.
    pub instrs: Vec<Instr>,
    /// The source span of each instruction.
    pub spans: Vec<Span>,
}

impl Program {
    /// The instructions, in address order.
    pub fn instrs(&self) -> (res: &[Instr])
        ensures
            res@ == self.instrs@,
    {
        self.instrs.as_slice()
    }

    /// The number of instruction words.
    pub fn len(&self) -> (res: usize)
        ensures
            res == self.instrs@.len(),
    {
        self.instrs.len()
    }
}

/// The instruction-memory depth (words); programs may not exceed this.
pub const MAX_WORDS: usize = 1024;

/// A directive that v1 reports: anything but `.equ`, `.text` and a
/// `.globl` of one symbol name.
pub open spec fn directive_bad(name: Seq<char>, args: Seq<Operand>) -> bool {
    if name == "equ"@ || name == "text"@ {
        false
    } else if name == "globl"@ {
        !(args.len() == 1 && args[0].kind is Ident)
    } else {
        true
    }
}

/// Pass 2 over the first `k` lines against the final table `t`: the
/// instructions emitted, the word address reached, and the number of lines
/// reported. A line that fails still advances the address by its pass-1
/// word count.
pub open spec fn spec_pass2(lines: Seq<Line>, k: int, t: SymMap) -> (Seq<Instr>, int, nat)
    decreases k,
{
    if k <= 0 || k > lines.len() {
        (Seq::empty(), 0, 0)
    } else {
        let (out, addr, e) = spec_pass2(lines, k - 1, t);
        match lines[k - 1].kind {
            LineKind::Label(_) => (out, addr, e),
            LineKind::Directive { name, args } => (
                out,
                addr,
                if directive_bad(name@, args@) {
                    e + 1
                } else {
                    e
                },
            ),
            LineKind::Instr { mnemonic, operands } => {
                let n = spec_instr_word_count(mnemonic@, operands@, t);
                match spec_encode_line(mnemonic@, operands@, (addr % 0x1_0000) as u16, t) {
                    Some(seq) => (out + seq, addr + n, e),
                    None => (out, addr + n, e + 1),
                }
            },
        }
    }
}

/// The final symbol table of a line list: `.equ` constants, then labels.
pub open spec fn spec_symbols(lines: Seq<Line>) -> SymMap {
    spec_pass1(lines, lines.len() as int, spec_pass0(lines, lines.len() as int).0).0
}

/// The number of diagnostics assembling a line list reports: every failed
/// `.equ`, duplicate label, bad directive and bad instruction line, and one
/// more when the program is longer than the instruction memory.
pub open spec fn spec_error_count(lines: Seq<Line>) -> nat {
    let n = lines.len() as int;
    let p0 = spec_pass0(lines, n);
    let p1 = spec_pass1(lines, n, p0.0);
    let p2 = spec_pass2(lines, n, p1.0);
    p0.1 + p1.2 + p2.2 + if p1.1 > MAX_WORDS {
        1nat
    } else {
        0nat
    }
}

/// The number of instruction words a line list occupies.
pub open spec fn spec_word_total(lines: Seq<Line>) -> int {
    spec_pass1(lines, lines.len() as int, spec_pass0(lines, lines.len() as int).0).1
}

/// The message for a program longer than the instruction memory.
pub open spec fn too_long_message(total: int) -> Seq<char> {
    "program is "@ + spec_dec(total as nat) + " words; the instruction memory holds at most "@ + spec_dec(
        MAX_WORDS as nat,
    )
}

/// The instructions a line list lowers to.
pub open spec fn spec_program(lines: Seq<Line>) -> Seq<Instr> {
    spec_pass2(lines, lines.len() as int, spec_symbols(lines)).0
}

proof fn lemma_pass2_addr_bound(lines: Seq<Line>, k: int, t: SymMap)
    requires
        0 <= k <= lines.len(),
    ensures
        0 <= spec_pass2(lines, k, t).1 <= 4 * k,
    decreases k,
{
    if k > 0 {
        lemma_pass2_addr_bound(lines, k - 1, t);
        if let LineKind::Instr { mnemonic, operands } = lines[k - 1].kind {
            lemma_word_count_bound(mnemonic@, operands@, t);
        }
    }
}

/// In pass 2 with no line reported, every instruction line lowers at the word
/// address equal to the number of instructions emitted before it, so the
/// addresses that branch offsets are computed from are indices into the
/// emitted program.
pub proof fn lemma_pass2_addresses_are_indices(lines: Seq<Line>, k: int, t: SymMap)
    requires
        0 <= k <= lines.len(),
        spec_pass2(lines, k, t).2 == 0,
    ensures
        spec_pass2(lines, k, t).0.len() == spec_pass2(lines, k, t).1,
    decreases k,
{
    if k > 0 {
        lemma_pass2_addresses_are_indices(lines, k - 1, t);
        let addr = spec_pass2(lines, k - 1, t).1;
        if let LineKind::Instr { mnemonic, operands } = lines[k - 1].kind {
            if spec_encode_line(mnemonic@, operands@, (addr % 0x1_0000) as u16, t) is Some {
                lemma_encode_word_count(mnemonic@, operands@, (addr % 0x1_0000) as u16, t);
            }
        }
    }
}

/// Check a directive; report anything unsupported in v1.
fn validate_directive(name: &str, args: &[Operand], span: &Span) -> (res: Option<Diagnostic>)
    ensures
        res is Some <==> directive_bad(name@, args@),
{
    if str_eq(name, "equ") || str_eq(name, "text") {
        None
    } else if str_eq(name, "globl") {
        if args.len() != 1 || !matches!(args[0].kind, OperandKind::Ident(_)) {
            Some(Diagnostic::error(span_copy(span), "`.globl` takes a single symbol name"))
        } else {
            None
        }
    } else if str_eq(name, "macro") || str_eq(name, "data") || str_eq(name, "word") || str_eq(
        name,
        "align",
    ) || str_eq(name, "option") {
        let mut m = String::new();
        m.append("`.");
        m.append(name);
        m.append("` is not supported in tamal-asm v1");
        Some(
            Diagnostic::error_owned(span_copy(span), m).with_help(
                "v1 supports .equ, .text, and .globl",
            ),
        )
    } else {
        let mut m = String::new();
        m.append("unknown directive `.");
        m.append(name);
        m.append("`");
        Some(Diagnostic::error_owned(span_copy(span), m))
    }
}

/// Assemble a parsed line list: `.equ` constants, then label addresses, then
/// lowering every line against the final table. Every problem is reported;
/// the program comes back only when there is none.
pub fn assemble_lines(lines: &[Line]) -> (res: Result<Program, Vec<Diagnostic>>)
    requires
        lines@.len() <= usize::MAX / 4,
    ensures
        res is Ok <==> spec_error_count(lines@) == 0,
        res matches Ok(p) ==> p.instrs@ == spec_program(lines@) && p.spans@.len()
            == p.instrs@.len(),
        res matches Err(ds) ==> ds@.len() == spec_error_count(lines@),
        spec_word_total(lines@) > MAX_WORDS ==> (res matches Err(ds) && ds@.last().message@
            == too_long_message(spec_word_total(lines@))),
{
    let ghost n = lines@.len() as int;
    let (mut syms, d_equ) = collect_equs(lines);
    let ghost m0 = syms@;
    let (total, d_addr) = assign_addresses(lines, &mut syms);
    let ghost t = syms@;
    let mut diags: Vec<Diagnostic> = d_equ;
    let mut d_addr = d_addr;
    diags.append(&mut d_addr);
    let ghost base = diags@.len();
    let mut instrs: Vec<Instr> = Vec::new();
    let mut spans: Vec<Span> = Vec::new();
    let mut addr: u16 = 0;
    let mut i: usize = 0;
    while i < lines.len()
        invariant
            i <= lines@.len(),
            lines@.len() <= usize::MAX / 4,
            t == syms@,
            t == spec_symbols(lines@),
            instrs@ == spec_pass2(lines@, i as int, t).0,
            addr == spec_pass2(lines@, i as int, t).1 % 0x1_0000,
            diags@.len() == base + spec_pass2(lines@, i as int, t).2,
            spans@.len() == instrs@.len(),
        decreases lines@.len() - i,
    {
        proof {
            lemma_pass2_addr_bound(lines@, i as int, t);
        }
        let line = &lines[i];
        i = i + 1;
        match &line.kind {
            LineKind::Label(_) => {},
            LineKind::Directive { name, args } => {
                if let Some(d) = validate_directive(name.as_str(), args.as_slice(), &line.span) {
                    diags.push(d);
                }
            },
            LineKind::Instr { mnemonic, operands } => {
                let n = instr_word_count(mnemonic.as_str(), operands.as_slice(), &syms);
                match encode_line(mnemonic.as_str(), operands.as_slice(), &line.span, addr, &syms) {
                    Ok(seq) => {
                        proof {
                            lemma_encode_word_count(mnemonic@, operands@, addr, t);
                        }
                        let ghost before = instrs@;
                        let mut j: usize = 0;
                        while j < seq.len()
                            invariant
                                j <= seq@.len(),
                                instrs@ == before + seq@.subrange(0, j as int),
                                spans@.len() == instrs@.len(),
                            decreases seq@.len() - j,
                        {
                            instrs.push(seq[j]);
                            spans.push(span_copy(&line.span));
                            j = j + 1;
                        }
                        assert(seq@.subrange(0, seq@.len() as int) =~= seq@);
                    },
                    Err(d) => {
                        diags.push(d);
                    },
                }
                addr = ((addr as u32 + n as u32) % 0x1_0000) as u16;
            },
        }
    }
    if total > MAX_WORDS {
        let sp = if lines.len() > 0 {
            span_copy(&lines[lines.len() - 1].span)
        } else {
            0..0
        };
        let mut m = String::new();
        m.append("program is ");
        push_dec(&mut m, total as u64);
        m.append(" words; the instruction memory holds at most ");
        push_dec(&mut m, MAX_WORDS as u64);
        assert(m@ =~= too_long_message(total as int));
        diags.push(Diagnostic::error_owned(sp, m));
    }
    if diags.len() == 0 {
        Ok(Program { instrs, spans })
    } else {
        Err(diags)
    }
}

/// `toks` are the tokens lexed from `src`.
pub open spec fn lexes_to(src: Seq<u8>, toks: Seq<Token>) -> bool {
    &&& tokens_wf(src, toks)
    &&& spec_lex(src, 0) == Some(tok_spans(toks.drop_last()))
}

/// `lines` are the lines parsed from `toks`.
pub open spec fn parses_to(toks: Seq<Token>, lines: Seq<Line>) -> bool {
    &&& spec_parse(toks, 0) is Some
    &&& lines_at(toks, lines, spec_parse(toks, 0)->0)
}

/// `src` lexes and parses, and the lines it parses to assemble without an
/// error.
pub open spec fn assembles_cleanly(src: Seq<u8>) -> bool {
    &&& spec_lex(src, 0) is Some
    &&& forall|toks: Seq<Token>| #[trigger]
        lexes_to(src, toks) ==> {
            &&& spec_parse(toks, 0) is Some
            &&& forall|lines: Seq<Line>| #[trigger]
                parses_to(toks, lines) ==> lines.len() <= usize::MAX / 4 && spec_error_count(lines)
                    == 0
        }
}

/// `ds` is the batch of diagnostics that assembling the lines `lines` of the
/// tokens `toks` of `src` reports: one per problem, the last one naming the
/// program's length when it does not fit the instruction memory.
pub open spec fn batch_of(src: Seq<u8>, toks: Seq<Token>, lines: Seq<Line>, ds: Seq<Diagnostic>) -> bool {
    &&& lexes_to(src, toks)
    &&& parses_to(toks, lines)
    &&& lines.len() <= usize::MAX / 4
    &&& ds.len() == spec_error_count(lines)
    &&& spec_word_total(lines) > MAX_WORDS ==> ds.last().message@ == too_long_message(
        spec_word_total(lines),
    )
}

/// `ds` is what assembling `src` reports when it fails: the first lexical
/// error alone; else the first syntax error alone; else, for a line list
/// too long to count, one diagnostic; else the whole batch of the lines.
pub open spec fn failure_of(src: Seq<u8>, ds: Seq<Diagnostic>) -> bool {
    ||| (spec_lex(src, 0) is None && ds.len() == 1 && ds[0].primary.start == spec_lex_error(src, 0).0
        && ds[0].primary.end == spec_lex_error(src, 0).1 && ds[0].message@ == spec_lex_error(src, 0).2)
    ||| exists|toks: Seq<Token>|
        {
            &&& #[trigger] lexes_to(src, toks)
            &&& spec_parse(toks, 0) is None
            &&& ds.len() == 1
            &&& ds[0].primary == spec_parse_error(toks, 0).0
            &&& ds[0].message@ == spec_parse_error(toks, 0).1
        }
    ||| exists|toks: Seq<Token>, lines: Seq<Line>|
        {
            &&& lexes_to(src, toks)
            &&& #[trigger] parses_to(toks, lines)
            &&& lines.len() > usize::MAX / 4
            &&& ds.len() == 1
        }
    ||| exists|toks: Seq<Token>, lines: Seq<Line>| #[trigger] batch_of(src, toks, lines, ds)
}

/// Assemble tamal source into a [`Program`], or a batch of [`Diagnostic`]s.
/// A lexical or syntax error is reported alone; otherwise the result is that
/// of [`assemble_lines`] on the parsed lines.
pub fn assemble(source: &str) -> (res: Result<Program, Vec<Diagnostic>>)
    ensures
        res matches Ok(p) ==> exists|toks: Seq<Token>, lines: Seq<Line>|
            {
                &&& tokens_wf(source.spec_bytes(), toks)
                &&& (forall|k: int| 0 <= k < lines.len() ==> line_parsed(toks, #[trigger] lines[k]))
                &&& spec_error_count(lines) == 0
                &&& p.instrs@ == spec_program(lines)
                &&& lexes_to(source.spec_bytes(), toks)
                &&& parses_to(toks, lines)
            },
        assembles_cleanly(source.spec_bytes()) ==> res is Ok,
        spec_lex(source.spec_bytes(), 0) is None ==> (res matches Err(ds) && ds@.len() == 1),
        res matches Err(ds) ==> ds@.len() >= 1,
        res matches Err(ds) ==> failure_of(source.spec_bytes(), ds@),
{
    let tokens = match lex(source) {
        Ok(t) => t,
        Err(d) => {
            return Err(vec![d]);
        },
    };
    assert(lexes_to(source.spec_bytes(), tokens@));
    let lines = match parse(tokens.as_slice()) {
        Ok(l) => l,
        Err(d) => {
            let ds = vec![d];
            assert(lexes_to(source.spec_bytes(), tokens@) && spec_parse(tokens@, 0) is None);
            return Err(ds);
        },
    };
    assert(parses_to(tokens@, lines@));
    if lines.len() > usize::MAX / 4 {
        let ds = vec![Diagnostic::error(0..0, "program is too long")];
        assert(lexes_to(source.spec_bytes(), tokens@) && parses_to(tokens@, lines@));
        return Err(ds);
    }
    let res = assemble_lines(lines.as_slice());
    assert(res matches Err(ds) ==> batch_of(source.spec_bytes(), tokens@, lines@, ds@));
    assert(res is Ok ==> {
        &&& tokens_wf(source.spec_bytes(), tokens@)
        &&& (forall|k: int| 0 <= k < lines@.len() ==> line_parsed(tokens@, #[trigger] lines@[k]))
    });
    res
}

} // verus!
