//! Diagnostic reporting for errors, warnings, and hints.

use vstd::prelude::*;
use crate::base::source::Span;
use crate::base::text::string_of;

verus! {

/// Severity level of a diagnostic.
#[derive(Debug, Clone, Copy, PartialEq, Eq, PartialOrd, Ord, Hash, Structural)]
pub enum Severity {
    /// Informational hint.
    Hint,
    /// Warning (does not prevent compilation).
    Warning,
    /// Error (prevents successful compilation).
    Error,
}

impl Severity {
    /// The lower-case name of the severity.
    pub fn to_string(&self) -> (r: String)
        ensures
            r@ == (match self {
                Severity::Hint => "hint"@,
                Severity::Warning => "warning"@,
                Severity::Error => "error"@,
            }),
    {
        match self {
            Severity::Hint => string_of("hint"),
            Severity::Warning => string_of("warning"),
            Severity::Error => string_of("error"),
        }
    }
}

/// Error code for categorizing diagnostics.
#[derive(Debug, Clone, PartialEq, Eq, Hash)]
pub struct ErrorCode(pub String);

impl ErrorCode {
    // Syntax errors
    pub const UNEXPECTED_TOKEN: &'static str = "E0001";
    pub const UNTERMINATED_STRING: &'static str = "E0002";
    pub const INVALID_NUMBER: &'static str = "E0003";
    pub const INVALID_TIME: &'static str = "E0004";

    // Type errors
    pub const TYPE_MISMATCH: &'static str = "E0100";
    pub const UNDEFINED_VARIABLE: &'static str = "E0101";
    pub const UNDEFINED_ELEMENT: &'static str = "E0102";
    pub const WRONG_ARITY: &'static str = "E0103";

    // ISU rule errors
    pub const INVALID_COMBINATION: &'static str = "E0200";
    pub const TOO_MANY_JUMPS: &'static str = "E0201";
    pub const ZAYAK_VIOLATION: &'static str = "E0202";
    pub const WRONG_EDGE: &'static str = "E0203";
    pub const DURATION_EXCEEDED: &'static str = "E0204";

    // Temporal errors
    pub const TEMPORAL_OVERLAP: &'static str = "E0300";
    pub const UNREACHABLE_TIME: &'static str = "E0301";
    pub const DURATION_MISMATCH: &'static str = "E0302";

    // Spatial errors
    pub const OUT_OF_BOUNDS: &'static str = "E0400";
    pub const COLLISION: &'static str = "E0401";
    pub const UNREACHABLE_POSITION: &'static str = "E0402";

    /// An error code with the given text.
    pub fn new(code: &str) -> (c: ErrorCode)
        ensures
            c.0@ == code@,
    {
        ErrorCode(string_of(code))
    }

    /// The text of the code.
    pub fn to_string(&self) -> (r: String)
        ensures
            r@ == self.0@,
    {
        self.0.clone()
    }
}

/// A label attached to a diagnostic, pointing at a source span.
#[derive(Debug, Clone, PartialEq, Eq)]
pub struct Label {
    /// Span of the label.
    pub span: Span,
    /// Message for the label.
    pub message: String,
    /// Is this the primary label?
    pub primary: bool,
}

impl Label {
    pub fn primary(span: Span, message: &str) -> (l: Label)
        ensures
            l.span == span,
            l.message@ == message@,
            l.primary,
    {
        Label { span, message: string_of(message), primary: true }
    }

    pub fn secondary(span: Span, message: &str) -> (l: Label)
        ensures
            l.span == span,
            l.message@ == message@,
            !l.primary,
    {
        Label { span, message: string_of(message), primary: false }
    }
}

/// A note or help message attached to a diagnostic.
#[derive(Debug, Clone, PartialEq, Eq)]
pub enum Note {
    /// A note providing additional context.
    Note(String),
    /// A help message suggesting a fix.
    Help(String),
}

/// The span of the first primary label, if any.
pub open spec fn first_primary_span(labels: Seq<Label>) -> Option<Span>
    decreases labels.len(),
{
    if labels.len() == 0 {
        None
    } else if labels[0].primary {
        Some(labels[0].span)
    } else {
        first_primary_span(labels.skip(1))
    }
}

/// A diagnostic message.
#[derive(Debug, Clone, PartialEq, Eq)]
pub struct Diagnostic {
    /// Severity level.
    pub severity: Severity,
    /// Error code (optional).
    pub code: Option<ErrorCode>,
    /// Primary message.
    pub message: String,
    /// Labels pointing to source locations.
    pub labels: Vec<Label>,
    /// Additional notes and help.
    pub notes: Vec<Note>,
}

impl Diagnostic {
    /// A diagnostic with the given severity and message and nothing else.
    pub open spec fn is_bare(&self, severity: Severity, message: Seq<char>) -> bool {
        &&& self.severity == severity
        &&& self.code.is_none()
        &&& self.message@ == message
        &&& self.labels@.len() == 0
        &&& self.notes@.len() == 0
    }

    /// Create a new error diagnostic.
    pub fn error(message: &str) -> (d: Diagnostic)
        ensures
            d.is_bare(Severity::Error, message@),
    {
        Diagnostic {
            severity: Severity::Error,
            code: None,
            message: string_of(message),
            labels: Vec::new(),
            notes: Vec::new(),
        }
    }

    /// Create a new warning diagnostic.
    pub fn warning(message: &str) -> (d: Diagnostic)
        ensures
            d.is_bare(Severity::Warning, message@),
    {
        Diagnostic {
            severity: Severity::Warning,
            code: None,
            message: string_of(message),
            labels: Vec::new(),
            notes: Vec::new(),
        }
    }

    /// Create a new hint diagnostic.
    pub fn hint(message: &str) -> (d: Diagnostic)
        ensures
            d.is_bare(Severity::Hint, message@),
    {
        Diagnostic {
            severity: Severity::Hint,
            code: None,
            message: string_of(message),
            labels: Vec::new(),
            notes: Vec::new(),
        }
    }

    /// Set the error code.
    pub fn with_code(self, code: &str) -> (d: Diagnostic)
        ensures
            d.code matches Some(c) && c.0@ == code@,
            d.severity == self.severity,
            d.message == self.message,
            d.labels == self.labels,
            d.notes == self.notes,
    {
        let mut d = self;
        d.code = Some(ErrorCode::new(code));
        d
    }

    /// Add a primary label.
    pub fn with_label(self, span: Span, message: &str) -> (d: Diagnostic)
        ensures
            d.labels@.len() == self.labels@.len() + 1,
            d.labels@.drop_last() == self.labels@,
            d.labels@.last().span == span,
            d.labels@.last().message@ == message@,
            d.labels@.last().primary,
            d.severity == self.severity,
            d.code == self.code,
            d.message == self.message,
            d.notes == self.notes,
    {
        let mut d = self;
        d.labels.push(Label::primary(span, message));
        assert(d.labels@.drop_last() =~= self.labels@);
        d
    }

    /// Add a secondary label.
    pub fn with_secondary_label(self, span: Span, message: &str) -> (d: Diagnostic)
        ensures
            d.labels@.len() == self.labels@.len() + 1,
            d.labels@.drop_last() == self.labels@,
            d.labels@.last().span == span,
            d.labels@.last().message@ == message@,
            !d.labels@.last().primary,
            d.severity == self.severity,
            d.code == self.code,
            d.message == self.message,
            d.notes == self.notes,
    {
        let mut d = self;
        d.labels.push(Label::secondary(span, message));
        assert(d.labels@.drop_last() =~= self.labels@);
        d
    }

    /// Add a note.
    pub fn with_note(self, note: &str) -> (d: Diagnostic)
        ensures
            d.notes@.len() == self.notes@.len() + 1,
            d.notes@.drop_last() == self.notes@,
            d.notes@.last() matches Note::Note(n) && n@ == note@,
            d.severity == self.severity,
            d.code == self.code,
            d.message == self.message,
            d.labels == self.labels,
    {
        let mut d = self;
        d.notes.push(Note::Note(string_of(note)));
        assert(d.notes@.drop_last() =~= self.notes@);
        d
    }

    /// Add a help message.
    pub fn with_help(self, help: &str) -> (d: Diagnostic)
        ensures
            d.notes@.len() == self.notes@.len() + 1,
            d.notes@.drop_last() == self.notes@,
            d.notes@.last() matches Note::Help(n) && n@ == help@,
            d.severity == self.severity,
            d.code == self.code,
            d.message == self.message,
            d.labels == self.labels,
    {
        let mut d = self;
        d.notes.push(Note::Help(string_of(help)));
        assert(d.notes@.drop_last() =~= self.notes@);
        d
    }

    /// Is this an error?
    pub fn is_error(&self) -> (b: bool)
        ensures
            b == (self.severity == Severity::Error),
    {
        self.severity == Severity::Error
    }

    /// The span of the first primary label.
    pub fn primary_span(&self) -> (r: Option<Span>)
        ensures
            r == first_primary_span(self.labels@),
    {
        let n = self.labels.len();
        let mut i: usize = 0;
        assert(self.labels@.skip(0) =~= self.labels@);
        while i < n
            invariant
                n == self.labels@.len(),
                i <= n,
                first_primary_span(self.labels@) == first_primary_span(self.labels@.skip(i as int)),
            decreases n - i,
        {
            assert(self.labels@.skip(i as int)[0] == self.labels@[i as int]);
            assert(self.labels@.skip(i as int).skip(1) =~= self.labels@.skip(i + 1));
            if self.labels[i].primary {
                return Some(self.labels[i].span);
            }
            i = i + 1;
        }
        assert(self.labels@.skip(n as int).len() == 0);
        None
    }
}

/// Number of diagnostics of the given severity.
pub open spec fn count_severity(ds: Seq<Diagnostic>, sev: Severity) -> nat
    decreases ds.len(),
{
    if ds.len() == 0 {
        0
    } else {
        count_severity(ds.drop_last(), sev) + if ds.last().severity == sev { 1nat } else { 0nat }
    }
}

proof fn lemma_count_severity_le(ds: Seq<Diagnostic>, sev: Severity)
    ensures
        count_severity(ds, sev) <= ds.len(),
    decreases ds.len(),
{
    if ds.len() > 0 {
        lemma_count_severity_le(ds.drop_last(), sev);
    }
}

/// An ordered collection of diagnostics.
#[derive(Debug, Default, Clone)]
pub struct Diagnostics {
    diagnostics: Vec<Diagnostic>,
}

impl Diagnostics {
    /// The diagnostics, in the order they were added.
    pub closed spec fn view_seq(&self) -> Seq<Diagnostic> {
        self.diagnostics@
    }

    pub fn new() -> (d: Diagnostics)
        ensures
            d.view_seq() == Seq::<Diagnostic>::empty(),
    {
        Diagnostics { diagnostics: Vec::new() }
    }

    /// Add a diagnostic.
    pub fn add(&mut self, diagnostic: Diagnostic)
        ensures
            final(self).view_seq() == old(self).view_seq().push(diagnostic),
    {
        self.diagnostics.push(diagnostic);
    }

    /// Add an error labelled "here" at the span.
    pub fn error(&mut self, message: &str, span: Span)
        ensures
            final(self).view_seq().len() == old(self).view_seq().len() + 1,
            final(self).view_seq().drop_last() == old(self).view_seq(),
            final(self).view_seq().last().severity == Severity::Error,
            final(self).view_seq().last().code.is_none(),
            final(self).view_seq().last().message@ == message@,
            final(self).view_seq().last().labels@.len() == 1,
            final(self).view_seq().last().labels@[0].span == span,
            final(self).view_seq().last().labels@[0].message@ == "here"@,
            final(self).view_seq().last().labels@[0].primary,
            final(self).view_seq().last().notes@.len() == 0,
    {
        let d = Diagnostic::error(message).with_label(span, "here");
        self.add(d);
        assert(self.view_seq().drop_last() =~= old(self).view_seq());
    }

    /// Add a warning labelled "here" at the span.
    pub fn warning(&mut self, message: &str, span: Span)
        ensures
            final(self).view_seq().len() == old(self).view_seq().len() + 1,
            final(self).view_seq().drop_last() == old(self).view_seq(),
            final(self).view_seq().last().severity == Severity::Warning,
            final(self).view_seq().last().code.is_none(),
            final(self).view_seq().last().message@ == message@,
            final(self).view_seq().last().labels@.len() == 1,
            final(self).view_seq().last().labels@[0].span == span,
            final(self).view_seq().last().labels@[0].message@ == "here"@,
            final(self).view_seq().last().labels@[0].primary,
            final(self).view_seq().last().notes@.len() == 0,
    {
        let d = Diagnostic::warning(message).with_label(span, "here");
        self.add(d);
        assert(self.view_seq().drop_last() =~= old(self).view_seq());
    }

    /// Check if there are any errors.
    pub fn has_errors(&self) -> (b: bool)
        ensures
            b == (count_severity(self.view_seq(), Severity::Error) > 0),
    {
        self.error_count() > 0
    }

    fn count_of(&self, sev: Severity) -> (n: usize)
        ensures
            n == count_severity(self.view_seq(), sev),
    {
        let len = self.diagnostics.len();
        let mut i: usize = 0;
        let mut n: usize = 0;
        assert(self.diagnostics@.subrange(0, 0) =~= Seq::<Diagnostic>::empty());
        while i < len
            invariant
                len == self.diagnostics@.len(),
                i <= len,
                n == count_severity(self.diagnostics@.subrange(0, i as int), sev),
            decreases len - i,
        {
            proof {
                lemma_count_severity_le(self.diagnostics@.subrange(0, i as int), sev);
            }
            assert(self.diagnostics@.subrange(0, i + 1).drop_last() =~= self.diagnostics@.subrange(0, i as int));
            if self.diagnostics[i].severity == sev {
                n = n + 1;
            }
            i = i + 1;
        }
        assert(self.diagnostics@.subrange(0, len as int) =~= self.diagnostics@);
        n
    }

    /// Number of errors.
    pub fn error_count(&self) -> (n: usize)
        ensures
            n == count_severity(self.view_seq(), Severity::Error),
    {
        self.count_of(Severity::Error)
    }

    /// Number of warnings.
    pub fn warning_count(&self) -> (n: usize)
        ensures
            n == count_severity(self.view_seq(), Severity::Warning),
    {
        self.count_of(Severity::Warning)
    }

    /// The diagnostics as a slice, in order.
    pub fn as_slice(&self) -> (s: &[Diagnostic])
        ensures
            s@ == self.view_seq(),
    {
        self.diagnostics.as_slice()
    }

    /// Take all diagnostics, leaving the collection empty.
    pub fn take(&mut self) -> (r: Vec<Diagnostic>)
        ensures
            r@ == old(self).view_seq(),
            final(self).view_seq() == Seq::<Diagnostic>::empty(),
    {
        let mut out: Vec<Diagnostic> = Vec::new();
        std::mem::swap(&mut out, &mut self.diagnostics);
        out
    }

    /// Append all diagnostics of another collection.
    pub fn merge(&mut self, other: Diagnostics)
        ensures
            final(self).view_seq() == old(self).view_seq() + other.view_seq(),
    {
        let mut o = other;
        self.diagnostics.append(&mut o.diagnostics);
    }

    /// Check if empty.
    pub fn is_empty(&self) -> (b: bool)
        ensures
            b == (self.view_seq().len() == 0),
    {
        self.diagnostics.len() == 0
    }

    /// Number of diagnostics.
    pub fn len(&self) -> (n: usize)
        ensures
            n == self.view_seq().len(),
    {
        self.diagnostics.len()
    }

    /// The diagnostics, in order, as a vector.
    pub fn into_vec(self) -> (v: Vec<Diagnostic>)
        ensures
            v@ == self.view_seq(),
    {
        self.diagnostics
    }
}

} // verus!
