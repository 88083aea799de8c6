//! Structured, rendering-agnostic diagnostics (spans as byte ranges).
use vstd::prelude::*;

verus! {

/// A byte-offset span into the source.
pub type Span = core::ops::Range<usize>;

/// Diagnostic severity.
#[derive(Debug, Clone, Copy, PartialEq, Eq, Structural)]
pub enum Severity {
    /// A hard error; assembly fails.
    Error,
    /// A non-fatal warning.
    Warning,
}

/// A structured, rendering-agnostic diagnostic. A front-end turns each into a
/// rendered report; the library never depends on a renderer.
#[derive(Debug, PartialEq, Eq)]
pub struct Diagnostic {
    /// Severity.
    pub severity: Severity,
    /// The primary human-readable message.
    pub message: String,
    /// The primary source span the message points at.
    pub primary: Span,
    /// Secondary labelled spans (span + note).
    pub labels: Vec<(Span, String)>,
    /// An optional help/hint line.
    pub help: Option<String>,
}

/// A copy of a span.
pub fn span_copy(s: &Span) -> (res: Span)
    ensures
        res == *s,
{
    s.start..s.end
}

impl Clone for Diagnostic {
    /// A field-by-field copy.
    fn clone(&self) -> (res: Self)
        ensures
            res.severity == self.severity,
            res.message == self.message,
            res.primary == self.primary,
            res.labels@ == self.labels@,
            res.help == self.help,
    {
        let mut labels: Vec<(Span, String)> = Vec::new();
        let mut k: usize = 0;
        while k < self.labels.len()
            invariant
                k <= self.labels@.len(),
                labels@ == self.labels@.subrange(0, k as int),
            decreases self.labels@.len() - k,
        {
            let sp = span_copy(&self.labels[k].0);
            let note = self.labels[k].1.clone();
            labels.push((sp, note));
            k = k + 1;
            assert(labels@ =~= self.labels@.subrange(0, k as int));
        }
        assert(labels@ =~= self.labels@);
        let help = match &self.help {
            Some(h) => Some(h.clone()),
            None => None,
        };
        Diagnostic {
            severity: self.severity,
            message: self.message.clone(),
            primary: span_copy(&self.primary),
            labels,
            help,
        }
    }
}

impl Diagnostic {
    /// An error diagnostic anchored at `primary`.
    pub fn error(primary: Span, message: &str) -> (res: Self)
        ensures
            res.severity == Severity::Error,
            res.message@ == message@,
            res.primary == primary,
            res.labels@.len() == 0,
            res.help is None,
    {
        Diagnostic {
            severity: Severity::Error,
            message: message.to_owned(),
            primary,
            labels: Vec::new(),
            help: None,
        }
    }

    /// An error diagnostic anchored at `primary`, taking an owned message.
    pub fn error_owned(primary: Span, message: String) -> (res: Self)
        ensures
            res.severity == Severity::Error,
            res.message == message,
            res.primary == primary,
            res.labels@.len() == 0,
            res.help is None,
    {
        Diagnostic { severity: Severity::Error, message, primary, labels: Vec::new(), help: None }
    }

    /// Attach a secondary labelled span.
    pub fn with_label(self, span: Span, text: &str) -> (res: Self)
        ensures
            res.severity == self.severity,
            res.message == self.message,
            res.primary == self.primary,
            res.labels@.len() == self.labels@.len() + 1,
            forall|i: int| 0 <= i < self.labels@.len() ==> res.labels@[i] == self.labels@[i],
            res.labels@.last().0 == span,
            res.labels@.last().1@ == text@,
            res.help == self.help,
    {
        let mut d = self;
        d.labels.push((span, text.to_owned()));
        d
    }

    /// Attach a help/hint line.
    pub fn with_help(self, help: &str) -> (res: Self)
        ensures
            res.severity == self.severity,
            res.message == self.message,
            res.primary == self.primary,
            res.labels == self.labels,
            res.help matches Some(h) && h@ == help@,
    {
        let mut d = self;
        d.help = Some(help.to_owned());
        d
    }
}

} // verus!
