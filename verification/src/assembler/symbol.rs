//! The symbol table (`.equ` constants + label addresses) and address passes.
use vstd::prelude::*;

use crate::assembler::diagnostics::{span_copy, Diagnostic, Severity, Span};
use crate::assembler::encoder::{
    instr_word_count, resolve_imm, spec_instr_word_count, spec_resolve_imm, SymMap,
};
use crate::assembler::parser::{Line, LineKind, OperandKind};
use crate::text::str_eq;

verus! {

/// A resolved symbol value.
#[derive(Debug, Clone, Copy, PartialEq, Eq, Structural)]
pub enum Sym {
    /// A `.equ` constant.
    Equ(i64),
    /// A label's instruction-word address.
    Label(u16),
}

/// `.equ` constants and label addresses, keyed by name (with defining span).
#[derive(Debug)]
pub struct SymbolTable {
    entries: Vec<(String, Sym, Span)>,
}

/// The first entry of `es` named `name`, from index `i` on.
pub open spec fn lookup_from(es: Seq<(String, Sym, Span)>, name: Seq<char>, i: int) -> Option<
    (Sym, Span),
>
    decreases es.len() - i,
{
    if i < 0 || i >= es.len() {
        None
    } else if es[i].0@ == name {
        Some((es[i].1, es[i].2))
    } else {
        lookup_from(es, name, i + 1)
    }
}

proof fn lemma_lookup_push(es: Seq<(String, Sym, Span)>, e: (String, Sym, Span), name: Seq<char>, i: int)
    requires
        0 <= i <= es.len(),
        lookup_from(es, e.0@, i) is None,
    ensures
        lookup_from(es.push(e), name, i) == if name == e.0@ {
            Some((e.1, e.2))
        } else {
            lookup_from(es, name, i)
        },
    decreases es.len() - i,
{
    let p = es.push(e);
    if i < es.len() {
        lemma_lookup_push(es, e, name, i + 1);
        assert(p[i] == es[i]);
    } else {
        assert(p[i] == e);
        assert(lookup_from(p, name, i + 1) is None);
    }
}

impl View for SymbolTable {
    type V = Map<Seq<char>, (Sym, Span)>;

    closed spec fn view(&self) -> Map<Seq<char>, (Sym, Span)> {
        Map::new(
            |k: Seq<char>| lookup_from(self.entries@, k, 0) is Some,
            |k: Seq<char>| lookup_from(self.entries@, k, 0).unwrap(),
        )
    }
}

impl SymbolTable {
    /// An empty table.
    pub fn new() -> (res: Self)
        ensures
            res@ == Map::<Seq<char>, (Sym, Span)>::empty(),
    {
        let t = SymbolTable { entries: Vec::new() };
        assert(t@ =~= Map::<Seq<char>, (Sym, Span)>::empty());
        t
    }

    fn find(&self, name: &str) -> (res: Option<usize>)
        ensures
            match res {
                Some(i) => i < self.entries@.len() && lookup_from(self.entries@, name@, 0) == Some(
                    (self.entries@[i as int].1, self.entries@[i as int].2),
                ),
                None => lookup_from(self.entries@, name@, 0) is None,
            },
    {
        let n = self.entries.len();
        let mut i: usize = 0;
        while i < n
            invariant
                i <= n,
                n == self.entries@.len(),
                lookup_from(self.entries@, name@, 0) == lookup_from(self.entries@, name@, i as int),
            decreases n - i,
        {
            if str_eq(self.entries[i].0.as_str(), name) {
                return Some(i);
            }
            i = i + 1;
        }
        None
    }

    /// Look up a symbol value.
    pub fn get(&self, name: &str) -> (res: Option<Sym>)
        ensures
            res == if self@.contains_key(name@) {
                Some(self@[name@].0)
            } else {
                None::<Sym>
            },
    {
        match self.find(name) {
            Some(i) => Some(self.entries[i].1),
            None => None,
        }
    }

    /// Insert a symbol; on a duplicate name, returns `Err(prior_defining_span)`
    /// and leaves the table unchanged.
    pub fn insert(&mut self, name: &str, sym: Sym, span: Span) -> (res: Result<(), Span>)
        ensures
            old(self)@.contains_key(name@) ==> res == Err::<(), Span>(old(self)@[name@].1),
            old(self)@.contains_key(name@) ==> final(self)@ == old(self)@,
            !old(self)@.contains_key(name@) ==> res is Ok,
            !old(self)@.contains_key(name@) ==> final(self)@ == old(self)@.insert(name@, (sym, span)),
    {
        match self.find(name) {
            Some(i) => Err(span_copy(&self.entries[i].2)),
            None => {
                let ghost old_entries = self.entries@;
                let e = (name.to_owned(), sym, span);
                self.entries.push(e);
                proof {
                    assert forall|k: Seq<char>| #![auto]
                        lookup_from(self.entries@, k, 0) == if k == name@ {
                            Some((sym, span))
                        } else {
                            lookup_from(old_entries, k, 0)
                        } by {
                        lemma_lookup_push(old_entries, e, k, 0);
                    }
                    assert(self@ =~= old(self)@.insert(name@, (sym, span)));
                }
                Ok(())
            },
        }
    }
}

/// One `.equ` line applied to a table: the table after it, and whether the
/// line is reported as an error. Other lines leave the table as it is.
pub open spec fn equ_step(m: SymMap, line: Line) -> (SymMap, bool) {
    match line.kind {
        LineKind::Directive { name, args } => if name@ == "equ"@ {
            if args@.len() != 2 {
                (m, true)
            } else {
                match args@[0].kind {
                    OperandKind::Ident(nm) => match spec_resolve_imm(args@[1], m) {
                        Some(v) => if m.contains_key(nm@) {
                            (m, true)
                        } else {
                            (m.insert(nm@, (Sym::Equ(v), args@[0].span)), false)
                        },
                        None => (m, true),
                    },
                    OperandKind::Num(_) => (m, true),
                }
            }
        } else {
            (m, false)
        },
        _ => (m, false),
    }
}

/// Pass 0 over the first `k` lines: the table of `.equ` constants, in
/// source order, and the number of lines reported.
pub open spec fn spec_pass0(lines: Seq<Line>, k: int) -> (SymMap, nat)
    decreases k,
{
    if k <= 0 || k > lines.len() {
        (Map::empty(), 0)
    } else {
        let (m, e) = spec_pass0(lines, k - 1);
        let (m2, bad) = equ_step(m, lines[k - 1]);
        (m2, if bad { e + 1 } else { e })
    }
}

fn duplicate(span: &Span, name: &str, prev: Span) -> (res: Diagnostic)
    ensures
        res.severity == Severity::Error,
        res.message@ == "duplicate symbol `"@ + name@ + "`"@,
        res.primary == *span,
        res.labels@.len() == 1,
        res.labels@[0].0 == prev,
        res.labels@[0].1@ == "first defined here"@,
        res.help is None,
{
    let mut m = String::new();
    m.append("duplicate symbol `");
    m.append(name);
    m.append("`");
    assert(m@ =~= "duplicate symbol `"@ + name@ + "`"@);
    Diagnostic::error_owned(span_copy(span), m).with_label(prev, "first defined here")
}

/// Pass 0: evaluate `.equ` directives in source order (the value is a number
/// or an already-defined symbol), collecting every problem rather than
/// failing fast.
pub fn collect_equs(lines: &[Line]) -> (res: (SymbolTable, Vec<Diagnostic>))
    ensures
        res.0@ == spec_pass0(lines@, lines@.len() as int).0,
        res.1@.len() == spec_pass0(lines@, lines@.len() as int).1,
{
    let mut syms = SymbolTable::new();
    let mut diags: Vec<Diagnostic> = Vec::new();
    let mut i: usize = 0;
    while i < lines.len()
        invariant
            i <= lines@.len(),
            syms@ == spec_pass0(lines@, i as int).0,
            diags@.len() == spec_pass0(lines@, i as int).1,
        decreases lines@.len() - i,
    {
        let line = &lines[i];
        i = i + 1;
        if let LineKind::Directive { name, args } = &line.kind {
            if str_eq(name.as_str(), "equ") {
                if args.len() != 2 {
                    diags.push(Diagnostic::error(span_copy(&line.span), "`.equ` takes NAME, VALUE"));
                } else {
                    match &args[0].kind {
                        OperandKind::Num(_) => {
                            diags.push(
                                Diagnostic::error(
                                    span_copy(&args[0].span),
                                    "`.equ` name must be an identifier",
                                ),
                            );
                        },
                        OperandKind::Ident(sym_name) => {
                            match resolve_imm(&args[1], &syms) {
                                Ok(v) => {
                                    match syms.insert(
                                        sym_name.as_str(),
                                        Sym::Equ(v),
                                        span_copy(&args[0].span),
                                    ) {
                                        Ok(()) => {},
                                        Err(prev) => {
                                            diags.push(
                                                duplicate(&args[0].span, sym_name.as_str(), prev),
                                            );
                                        },
                                    }
                                },
                                Err(d) => {
                                    diags.push(d);
                                },
                            }
                        },
                    }
                }
            }
        }
    }
    (syms, diags)
}

/// One line of pass 1 applied to (table, address, reported): a label takes
/// the current address (truncated to 16 bits) unless its name is taken; an
/// instruction advances the address by its word count.
pub open spec fn addr_step(st: (SymMap, int, nat), line: Line) -> (SymMap, int, nat) {
    let (m, addr, e) = st;
    match line.kind {
        LineKind::Label(name) => if m.contains_key(name@) {
            (m, addr, e + 1)
        } else {
            (m.insert(name@, (Sym::Label((addr % 0x1_0000) as u16), line.span)), addr, e)
        },
        LineKind::Instr { mnemonic, operands } => (
            m,
            addr + spec_instr_word_count(mnemonic@, operands@, m),
            e,
        ),
        LineKind::Directive { .. } => (m, addr, e),
    }
}

/// Pass 1 over the first `k` lines, from table `m0`: the table with the
/// labels added, the word address reached, and the number of lines reported.
pub open spec fn spec_pass1(lines: Seq<Line>, k: int, m0: SymMap) -> (SymMap, int, nat)
    decreases k,
{
    if k <= 0 || k > lines.len() {
        (m0, 0, 0)
    } else {
        addr_step(spec_pass1(lines, k - 1, m0), lines[k - 1])
    }
}

proof fn lemma_pass1_addr_bound(lines: Seq<Line>, k: int, m0: SymMap)
    requires
        0 <= k <= lines.len(),
    ensures
        0 <= spec_pass1(lines, k, m0).1 <= 4 * k,
    decreases k,
{
    if k > 0 {
        lemma_pass1_addr_bound(lines, k - 1, m0);
        let st = spec_pass1(lines, k - 1, m0);
        if let LineKind::Instr { mnemonic, operands } = lines[k - 1].kind {
            crate::assembler::encoder::lemma_word_count_bound(mnemonic@, operands@, st.0);
        }
    }
}

/// Pass 1: assign each label the address of the next instruction word,
/// summing per-instruction word counts. Returns the total word count and
/// the duplicate diagnostics.
pub fn assign_addresses(lines: &[Line], syms: &mut SymbolTable) -> (res: (usize, Vec<Diagnostic>))
    requires
        lines@.len() <= usize::MAX / 4,
    ensures
        final(syms)@ == spec_pass1(lines@, lines@.len() as int, old(syms)@).0,
        res.0 == spec_pass1(lines@, lines@.len() as int, old(syms)@).1,
        res.1@.len() == spec_pass1(lines@, lines@.len() as int, old(syms)@).2,
{
    let ghost m0 = syms@;
    let mut addr: usize = 0;
    let mut diags: Vec<Diagnostic> = Vec::new();
    let mut i: usize = 0;
    while i < lines.len()
        invariant
            i <= lines@.len(),
            lines@.len() <= usize::MAX / 4,
            syms@ == spec_pass1(lines@, i as int, m0).0,
            addr == spec_pass1(lines@, i as int, m0).1,
            diags@.len() == spec_pass1(lines@, i as int, m0).2,
        decreases lines@.len() - i,
    {
        proof {
            lemma_pass1_addr_bound(lines@, i as int, m0);
        }
        let line = &lines[i];
        i = i + 1;
        match &line.kind {
            LineKind::Label(name) => {
                let a16: u16 = (addr % 0x1_0000) as u16;
                match syms.insert(name.as_str(), Sym::Label(a16), span_copy(&line.span)) {
                    Ok(()) => {},
                    Err(prev) => {
                        diags.push(duplicate(&line.span, name.as_str(), prev));
                    },
                }
            },
            LineKind::Instr { mnemonic, operands } => {
                let n = instr_word_count(mnemonic.as_str(), operands.as_slice(), syms);
                addr = addr + n as usize;
            },
            LineKind::Directive { .. } => {},
        }
    }
    (addr, diags)
}

} // verus!
