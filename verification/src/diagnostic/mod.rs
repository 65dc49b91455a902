//! Unified diagnostic system.
//!
//! Every error, warning, and informational message uses a single
//! [`Diagnostic`] type. Fatal errors are returned as a [`Diagnostics`] bag,
//! and non-fatal issues are collected into one.
//!
//! Rendering produces the text that the command line prints: a header line,
//! a source snippet with a caret line when the source is known, and notes
//! for related locations.
use vstd::prelude::*;

use crate::text::to_owned_string;

pub mod apollo;
pub mod render;


verus! {

// ── Core types ──────────────────────────────────────────────────────────────

/// Severity level, from least to most severe.
#[derive(Debug, Clone, Copy, PartialEq, Eq, Structural, PartialOrd, Ord, Hash)]
pub enum Severity {
    Info,
    Warning,
    Error,
    Internal,
}

/// Diagnostic category.
#[derive(Debug, Clone, Copy, PartialEq, Eq, Structural, Hash)]
pub enum DiagnosticCategory {
    Config,
    Schema,
    Document,
    Generation,
}

/// Source location for rich error display.
#[derive(Debug, Clone)]
pub struct DiagnosticLocation {
    /// Path of the file, as written
    pub file: String,
    /// 1-based line
    pub line: usize,
    /// 1-based column
    pub column: usize,
    /// Number of characters to underline (one when absent)
    pub length: Option<usize>,
}

/// A related source location with a label (e.g., "first defined here").
#[derive(Debug, Clone)]
pub struct RelatedLocation {
    pub message: String,
    pub location: DiagnosticLocation,
    pub inline_source: Option<String>,
}

/// A single diagnostic message — the unified type for all errors and warnings.
#[derive(Debug, Clone)]
pub struct Diagnostic {
    pub severity: Severity,
    pub category: DiagnosticCategory,
    pub message: String,
    pub location: Option<DiagnosticLocation>,
    pub related: Vec<RelatedLocation>,
    /// Source text shown in the snippet of `location`, when it is known.
    pub inline_source: Option<String>,
}

/// Collection of diagnostics — the error type of fallible operations and the
/// accumulator for non-fatal warnings.
#[derive(Debug, Clone)]
pub struct Diagnostics(pub Vec<Diagnostic>);

/// Whether a diagnostic of this severity counts as an error.
pub open spec fn is_error_severity(s: Severity) -> bool {
    s == Severity::Error || s == Severity::Internal
}

/// A fresh diagnostic with no location, related notes or source.
pub open spec fn bare(d: Diagnostic, severity: Severity, category: DiagnosticCategory, message: Seq<char>) -> bool {
    &&& d.severity == severity
    &&& d.category == category
    &&& d.message@ == message
    &&& d.location is None
    &&& d.related@.len() == 0
    &&& d.inline_source is None
}

// ── Diagnostic constructors ─────────────────────────────────────────────────

impl Diagnostic {
    pub fn error(category: DiagnosticCategory, message: &str) -> (r: Self)
        ensures
            bare(r, Severity::Error, category, message@),
    {
        Diagnostic {
            severity: Severity::Error,
            category,
            message: to_owned_string(message),
            location: None,
            related: Vec::new(),
            inline_source: None,
        }
    }

    pub fn warning(category: DiagnosticCategory, message: &str) -> (r: Self)
        ensures
            bare(r, Severity::Warning, category, message@),
    {
        Diagnostic {
            severity: Severity::Warning,
            category,
            message: to_owned_string(message),
            location: None,
            related: Vec::new(),
            inline_source: None,
        }
    }

    pub fn internal(message: &str) -> (r: Self)
        ensures
            bare(r, Severity::Internal, DiagnosticCategory::Generation, message@),
    {
        Diagnostic {
            severity: Severity::Internal,
            category: DiagnosticCategory::Generation,
            message: to_owned_string(message),
            location: None,
            related: Vec::new(),
            inline_source: None,
        }
    }

    pub fn with_location(self, location: DiagnosticLocation) -> (r: Self)
        ensures
            r == (Diagnostic { location: Some(location), ..self }),
    {
        let mut d = self;
        d.location = Some(location);
        d
    }

    pub fn with_inline_source(self, source: String) -> (r: Self)
        ensures
            r == (Diagnostic { inline_source: Some(source), ..self }),
    {
        let mut d = self;
        d.inline_source = Some(source);
        d
    }

    /// The displayed form of a diagnostic: its message.
    pub fn to_string(&self) -> (r: String)
        ensures
            r@ == self.message@,
    {
        self.message.clone()
    }
}

// ── Diagnostics (collection) ────────────────────────────────────────────────

/// The diagnostics of `s` whose severity satisfies `keep`, in order.
pub open spec fn select(s: Seq<Diagnostic>, errors: bool) -> Seq<Diagnostic>
    decreases s.len(),
{
    if s.len() == 0 {
        Seq::empty()
    } else {
        let rest = select(s.drop_last(), errors);
        let keep = if errors {
            is_error_severity(s.last().severity)
        } else {
            s.last().severity == Severity::Warning
        };
        if keep {
            rest.push(s.last())
        } else {
            rest
        }
    }
}

/// The diagnostics pointed to by `r`, in order.
pub open spec fn derefs(r: Seq<&Diagnostic>) -> Seq<Diagnostic> {
    r.map_values(|d: &Diagnostic| *d)
}

impl Diagnostics {
    pub fn new() -> (r: Self)
        ensures
            r.0@.len() == 0,
    {
        Diagnostics(Vec::new())
    }

    pub fn push(&mut self, d: Diagnostic)
        ensures
            final(self).0@ == old(self).0@.push(d),
    {
        self.0.push(d);
    }

    pub fn extend(&mut self, other: Diagnostics)
        ensures
            final(self).0@ == old(self).0@ + other.0@,
    {
        let mut other = other;
        self.0.append(&mut other.0);
    }

    pub fn has_errors(&self) -> (r: bool)
        ensures
            r == exists|i: int| 0 <= i < self.0@.len() && is_error_severity(#[trigger] self.0@[i].severity),
    {
        let mut i: usize = 0;
        while i < self.0.len()
            invariant
                i <= self.0@.len(),
                forall|j: int| 0 <= j < i ==> !is_error_severity(#[trigger] self.0@[j].severity),
            decreases self.0@.len() - i,
        {
            let s = self.0[i].severity;
            if s == Severity::Error || s == Severity::Internal {
                return true;
            }
            i = i + 1;
        }
        false
    }

    /// The warnings, in order.
    pub fn warnings(&self) -> (r: Vec<&Diagnostic>)
        ensures
            derefs(r@) == select(self.0@, false),
    {
        self.filtered(false)
    }

    /// The errors (internal errors included), in order.
    pub fn errors(&self) -> (r: Vec<&Diagnostic>)
        ensures
            derefs(r@) == select(self.0@, true),
    {
        self.filtered(true)
    }

    fn filtered(&self, errors: bool) -> (r: Vec<&Diagnostic>)
        ensures
            derefs(r@) == select(self.0@, errors),
    {
        let mut r: Vec<&Diagnostic> = Vec::new();
        let mut i: usize = 0;
        while i < self.0.len()
            invariant
                i <= self.0@.len(),
                derefs(r@) == select(self.0@.subrange(0, i as int), errors),
            decreases self.0@.len() - i,
        {
            let d = &self.0[i];
            let keep = if errors {
                d.severity == Severity::Error || d.severity == Severity::Internal
            } else {
                d.severity == Severity::Warning
            };
            proof {
                assert(self.0@.subrange(0, i + 1).drop_last() =~= self.0@.subrange(0, i as int));
            }
            if keep {
                r.push(d);
                proof {
                    assert(derefs(r@) =~= select(self.0@.subrange(0, i as int), errors).push(*d));
                }
            }
            i = i + 1;
        }
        proof {
            assert(self.0@.subrange(0, i as int) =~= self.0@);
        }
        r
    }

    pub fn is_empty(&self) -> (r: bool)
        ensures
            r == (self.0@.len() == 0),
    {
        self.0.len() == 0
    }

    pub fn len(&self) -> (r: usize)
        ensures
            r == self.0@.len(),
    {
        self.0.len()
    }

    /// The diagnostics, in order.
    pub fn iter(&self) -> (r: &[Diagnostic])
        ensures
            r@ == self.0@,
    {
        self.0.as_slice()
    }

    /// The displayed form of a bag: the first message, or "unknown error".
    pub fn to_string(&self) -> (r: String)
        ensures
            r@ == if self.0@.len() > 0 {
                self.0@[0].message@
            } else {
                "unknown error"@
            },
    {
        if self.0.len() > 0 {
            self.0[0].message.clone()
        } else {
            to_owned_string("unknown error")
        }
    }
}

impl Default for Diagnostics {
    fn default() -> (r: Self)
        ensures
            r.0@.len() == 0,
    {
        Diagnostics::new()
    }
}

impl From<Vec<Diagnostic>> for Diagnostics {
    fn from(v: Vec<Diagnostic>) -> (r: Self) {
        Diagnostics(v)
    }
}

impl vstd::std_specs::convert::FromSpecImpl<Vec<Diagnostic>> for Diagnostics {
    open spec fn obeys_from_spec() -> bool {
        true
    }

    open spec fn from_spec(v: Vec<Diagnostic>) -> Self {
        Diagnostics(v)
    }
}

/// Default cap for diagnostics displayed from a single bag.
pub const DEFAULT_MAX_DIAGNOSTICS: usize = 3;

/// The length of the span from `start` to `end`, zero when it is reversed.
pub open spec fn span_len(start: nat, end: nat) -> nat {
    if end >= start {
        (end - start) as nat
    } else {
        0
    }
}

/// The location of a span that starts at `line`:`column` and covers the
/// bytes from `start` to `end`; its length is given only when it is more
/// than one.
pub fn span_location(file: String, line: usize, column: usize, start: usize, end: usize) -> (r: DiagnosticLocation)
    ensures
        r.file == file,
        r.line == line,
        r.column == column,
        r.length == (if span_len(start as nat, end as nat) > 1 {
            Some(span_len(start as nat, end as nat) as usize)
        } else {
            None
        }),
{
    let len = if end >= start {
        end - start
    } else {
        0
    };
    DiagnosticLocation { file, line, column, length: if len > 1 {
        Some(len)
    } else {
        None
    } }
}

/// A bag has errors exactly when its list of errors is not empty.
pub proof fn law_has_errors_iff_errors_listed(s: Seq<Diagnostic>)
    ensures
        (exists|i: int| 0 <= i < s.len() && is_error_severity(#[trigger] s[i].severity)) <==> select(
            s,
            true,
        ).len() > 0,
    decreases s.len(),
{
    if s.len() > 0 {
        law_has_errors_iff_errors_listed(s.drop_last());
        if exists|i: int| 0 <= i < s.drop_last().len() && is_error_severity(#[trigger] s.drop_last()[i].severity) {
            let i = choose|i: int| 0 <= i < s.drop_last().len() && is_error_severity(#[trigger] s.drop_last()[i].severity);
            assert(s[i] == s.drop_last()[i]);
        }
        if exists|i: int| 0 <= i < s.len() && is_error_severity(#[trigger] s[i].severity) {
            let i = choose|i: int| 0 <= i < s.len() && is_error_severity(#[trigger] s[i].severity);
            if i < s.len() - 1 {
                assert(s.drop_last()[i] == s[i]);
            }
        }
    }
}

} // verus!
