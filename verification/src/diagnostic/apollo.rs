//! Diagnostics from the lists that `apollo-compiler` reports.
//!
//! Each reported error becomes an error-level diagnostic of the caller's
//! severity and category, with its message, and, where its span lies in a
//! known file, the location of the span and the file's text.
use vstd::prelude::*;

use apollo_compiler::diagnostic::ToCliReport;
use apollo_compiler::validation::DiagnosticList;

use super::{span_len, span_location, Diagnostic, DiagnosticCategory, Diagnostics, Severity};

verus! {

#[verifier::external_type_specification]
#[verifier::external_body]
pub struct ExDiagnosticList(DiagnosticList);

/// Where a reported error lies: the file's path, the 1-based line and
/// column where the span starts, the byte offsets of the span, and the
/// file's text.
#[derive(Debug, Clone)]
pub struct ErrorPlace {
    pub file: String,
    pub line: usize,
    pub column: usize,
    pub start: usize,
    pub end: usize,
    pub source: String,
}

/// A reported error as plain values: its message and, when its span lies in
/// a known file, its place.
#[derive(Debug, Clone)]
pub struct ReportedError {
    pub message: String,
    pub place: Option<ErrorPlace>,
}

pub type PlaceView = (Seq<char>, usize, usize, usize, usize, Seq<char>);

pub type ReportedView = (Seq<char>, Option<PlaceView>);

impl View for ErrorPlace {
    type V = PlaceView;

    open spec fn view(&self) -> PlaceView {
        (self.file@, self.line, self.column, self.start, self.end, self.source@)
    }
}

impl View for ReportedError {
    type V = ReportedView;

    open spec fn view(&self) -> ReportedView {
        (self.message@, match self.place {
            Some(p) => Some(p@),
            None => None,
        })
    }
}

/// The errors a `DiagnosticList` holds, in order, as plain values.
pub uninterp spec fn diagnostic_list_items(list: DiagnosticList) -> Seq<ReportedView>;

/// Walks `DiagnosticList::iter` and converts each diagnostic: the error's
/// `Display` text; its `location()` span, looked up in the list's sources,
/// with `SourceFile::get_line_column` of the span's start (no place when
/// either lookup finds nothing). Claimed: the errors are the list's items.
#[verifier::external_body]
fn diagnostic_list_entries(list: &DiagnosticList) -> (r: Vec<ReportedError>)
    ensures
        r@.map_values(|e: ReportedError| e@) == diagnostic_list_items(*list),
{
    list.iter().map(|d| ReportedError {
        message: d.error.to_string(),
        place: d.error.location().and_then(|s| {
            let f = d.sources.get(&s.file_id())?;
            let lc = f.get_line_column(s.offset())?;
            Some(ErrorPlace { file: f.path().display().to_string(), line: lc.line, column: lc.column,
                start: s.offset(), end: s.end_offset(), source: f.source_text().to_string() })
        }),
    }).collect()
}

/// Whether `d` is the diagnostic that reports `e` at `severity` in
/// `category`: the message; no related notes; and, when `e` has a place,
/// the location of its span (a length only when the span is longer than
/// one byte) and the file's text as the source.
pub open spec fn reported_as(d: Diagnostic, e: ReportedView, severity: Severity, category: DiagnosticCategory) -> bool {
    &&& d.severity == severity
    &&& d.category == category
    &&& d.message@ == e.0
    &&& d.related@.len() == 0
    &&& match e.1 {
        None => d.location is None && d.inline_source is None,
        Some(p) => {
            &&& d.location matches Some(loc) && loc.file@ == p.0 && loc.line == p.1 && loc.column == p.2
                && loc.length == (if span_len(p.3 as nat, p.4 as nat) > 1 {
                Some(span_len(p.3 as nat, p.4 as nat) as usize)
            } else {
                None
            })
            &&& d.inline_source matches Some(src) && src@ == p.5
        },
    }
}

/// Whether `ds` reports each of `errors`, in order.
pub open spec fn reports_all(ds: Seq<Diagnostic>, errors: Seq<ReportedView>, severity: Severity, category: DiagnosticCategory) -> bool {
    &&& ds.len() == errors.len()
    &&& forall|i: int| 0 <= i < ds.len() ==> reported_as(#[trigger] ds[i], errors[i], severity, category)
}

impl Diagnostics {
    /// The diagnostics that report `errors`, in order.
    pub fn from_reported(errors: &Vec<ReportedError>, severity: Severity, category: DiagnosticCategory) -> (r: Self)
        ensures
            reports_all(r.0@, errors@.map_values(|e: ReportedError| e@), severity, category),
    {
        let ghost ev = errors@.map_values(|e: ReportedError| e@);
        let mut out: Vec<Diagnostic> = Vec::new();
        let mut i: usize = 0;
        while i < errors.len()
            invariant
                i <= errors@.len(),
                ev == errors@.map_values(|e: ReportedError| e@),
                reports_all(out@, ev.take(i as int), severity, category),
            decreases errors@.len() - i,
        {
            let e = &errors[i];
            let (location, inline_source) = match &e.place {
                Some(p) => (
                    Some(span_location(p.file.clone(), p.line, p.column, p.start, p.end)),
                    Some(p.source.clone()),
                ),
                None => (None, None),
            };
            let d = Diagnostic {
                severity,
                category,
                message: e.message.clone(),
                location,
                related: Vec::new(),
                inline_source,
            };
            proof {
                assert(ev[i as int] == e@);
            }
            out.push(d);
            proof {
                assert(ev.take(i + 1) =~= ev.take(i as int).push(ev[i as int]));
                assert forall|k: int| 0 <= k < out@.len() implies reported_as(
                    #[trigger] out@[k],
                    ev.take(i + 1)[k],
                    severity,
                    category,
                ) by {
                    if k < i {
                        assert(ev.take(i + 1)[k] == ev.take(i as int)[k]);
                    }
                }
            }
            i = i + 1;
        }
        proof {
            assert(ev.take(i as int) =~= ev);
        }
        Diagnostics(out)
    }

    /// The diagnostics that report the errors of an `apollo-compiler` list,
    /// in order, at the given severity and in the given category.
    pub fn from_apollo(list: &DiagnosticList, severity: Severity, category: DiagnosticCategory) -> (r: Self)
        ensures
            reports_all(r.0@, diagnostic_list_items(*list), severity, category),
    {
        let errors = diagnostic_list_entries(list);
        Diagnostics::from_reported(&errors, severity, category)
    }
}

} // verus!
