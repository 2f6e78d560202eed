use vstd::prelude::*;

use crate::error::SourceLocation;

verus! {

/// How serious a diagnostic is.
#[derive(Debug, Clone, Copy, PartialEq, Eq, Structural)]
pub enum Severity {
    Error,
    Warning,
}

/// A problem found while checking a language definition: the message, a
/// second text (the component that reports it, or a hint), and where it was found.
#[derive(Debug, Clone)]
pub struct ErrorDiagnostic {
    pub message: String,
    pub detail: String,
    pub location: Option<SourceLocation>,
    pub severity: Severity,
}

impl ErrorDiagnostic {
    /// An error diagnostic.
    pub fn new(message: String, detail: String, location: Option<SourceLocation>) -> (d: Self)
        ensures
            d == (ErrorDiagnostic { message, detail, location, severity: Severity::Error }),
    {
        ErrorDiagnostic { message, detail, location, severity: Severity::Error }
    }

    /// A warning diagnostic.
    pub fn new_warning(message: String, detail: String, location: Option<SourceLocation>) -> (d: Self)
        ensures
            d == (ErrorDiagnostic { message, detail, location, severity: Severity::Warning }),
    {
        ErrorDiagnostic { message, detail, location, severity: Severity::Warning }
    }
}

/// The messages of a list of diagnostics.
pub open spec fn messages(ds: Seq<ErrorDiagnostic>) -> Seq<Seq<char>> {
    ds.map_values(|d: ErrorDiagnostic| d.message@)
}

} // verus!

verus! {

/// What a diagnostic says: its message, its second text and its severity.
pub type DiagSpec = (Seq<char>, Seq<char>, Severity);

/// Whether a diagnostic says exactly `e` and has no location.
pub open spec fn diag_is(d: ErrorDiagnostic, e: DiagSpec) -> bool {
    &&& d.message@ == e.0
    &&& d.detail@ == e.1
    &&& d.location is None
    &&& d.severity == e.2
}

/// Whether a list of diagnostics says exactly the list `es`, in order.
pub open spec fn diags_are(ds: Seq<ErrorDiagnostic>, es: Seq<DiagSpec>) -> bool {
    &&& ds.len() == es.len()
    &&& forall|i: int| 0 <= i < ds.len() ==> diag_is(#[trigger] ds[i], es[i])
}

pub proof fn lemma_diags_push(ds: Seq<ErrorDiagnostic>, es: Seq<DiagSpec>, d: ErrorDiagnostic, e: DiagSpec)
    requires
        diags_are(ds, es),
        diag_is(d, e),
    ensures
        diags_are(ds.push(d), es.push(e)),
{
    assert forall|i: int| 0 <= i < ds.push(d).len() implies diag_is(#[trigger] ds.push(d)[i], es.push(e)[i]) by {
        if i < ds.len() {
            assert(ds.push(d)[i] == ds[i]);
        }
    }
}

pub proof fn lemma_diags_append(ds1: Seq<ErrorDiagnostic>, es1: Seq<DiagSpec>, ds2: Seq<ErrorDiagnostic>, es2: Seq<DiagSpec>)
    requires
        diags_are(ds1, es1),
        diags_are(ds2, es2),
    ensures
        diags_are(ds1 + ds2, es1 + es2),
{
    assert forall|i: int| 0 <= i < (ds1 + ds2).len() implies diag_is(#[trigger] (ds1 + ds2)[i], (es1 + es2)[i]) by {
        if i < ds1.len() {
            assert((ds1 + ds2)[i] == ds1[i]);
        } else {
            assert((ds1 + ds2)[i] == ds2[i - ds1.len()]);
        }
    }
}

/// Appends a diagnostic without location.
pub(crate) fn push_diag(errors: &mut Vec<ErrorDiagnostic>, message: String, detail: &str, severity: Severity, Ghost(es): Ghost<Seq<DiagSpec>>)
    requires
        diags_are(old(errors)@, es),
    ensures
        diags_are(final(errors)@, es.push((message@, detail@, severity))),
        final(errors)@.len() == old(errors)@.len() + 1,
{
    let ghost m = message@;
    let d = ErrorDiagnostic { message, detail: crate::util::string_of(detail), location: None, severity };
    let ghost ds = errors@;
    errors.push(d);
    proof {
        lemma_diags_push(ds, es, d, (m, detail@, severity));
    }
}

/// Appends all of `more` to `errors`.
pub(crate) fn append_diags(errors: &mut Vec<ErrorDiagnostic>, more: Vec<ErrorDiagnostic>, Ghost(es): Ghost<Seq<DiagSpec>>, Ghost(es2): Ghost<Seq<DiagSpec>>)
    requires
        diags_are(old(errors)@, es),
        diags_are(more@, es2),
    ensures
        diags_are(final(errors)@, es + es2),
{
    let mut more = more;
    let ghost ds = errors@;
    let ghost ms = more@;
    errors.append(&mut more);
    proof {
        assert(errors@ == ds + ms);
        lemma_diags_append(ds, es, ms, es2);
    }
}

} // verus!
