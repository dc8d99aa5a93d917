//! What a run reports besides its release notes: diagnostics, which do not
//! stop it, and fatal errors, which do.

use vstd::prelude::*;

verus! {

/// A finding that is reported and does not stop the run.
#[derive(Debug, PartialEq, Eq)]
pub enum Diagnostic {
    /// A tracking issue whose body holds no fenced block of release notes.
    /// The issue is left out.
    MarkdownNotFound { number: u64, title: String, body: String },
    /// A section of an open tracking issue that went into no output section.
    /// `target` is the position, in the list of records, of the record that
    /// the tracking issue describes, where the list holds it.
    UnusedSection {
        section: String,
        title: String,
        url: String,
        for_number: u64,
        target: Option<usize>,
    },
}

/// A diagnostic as mathematical values.
pub enum DiagnosticView {
    MarkdownNotFound { number: u64, title: Seq<char>, body: Seq<char> },
    UnusedSection {
        section: Seq<char>,
        title: Seq<char>,
        url: Seq<char>,
        for_number: u64,
        target: Option<usize>,
    },
}

impl View for Diagnostic {
    type V = DiagnosticView;

    open spec fn view(&self) -> DiagnosticView {
        match *self {
            Diagnostic::MarkdownNotFound { number, title, body } => DiagnosticView::MarkdownNotFound {
                number,
                title: title@,
                body: body@,
            },
            Diagnostic::UnusedSection {
                section,
                title,
                url,
                for_number,
                target,
            } => DiagnosticView::UnusedSection {
                section: section@,
                title: title@,
                url: url@,
                for_number,
                target,
            },
        }
    }
}

/// The views of a sequence of diagnostics.
pub open spec fn diagnostic_views(v: Seq<Diagnostic>) -> Seq<DiagnosticView> {
    v.map_values(|d: Diagnostic| d@)
}

/// An error that ends the run.
#[derive(Debug, PartialEq, Eq)]
pub enum Fatal {
    /// A title that begins like a tracking issue's and names no target
    /// number.
    MalformedTrackingTitle { number: u64, title: String, url: String },
    /// The milestone query did not match exactly one milestone.
    AmbiguousMilestone { matches: u64 },
    /// A section of a closed tracking issue is marked as used.
    ClosedTrackingIssueUsed { section: String, title: String, url: String },
}

/// A fatal error as mathematical values.
pub enum FatalView {
    MalformedTrackingTitle { number: u64, title: Seq<char>, url: Seq<char> },
    AmbiguousMilestone { matches: u64 },
    ClosedTrackingIssueUsed { section: Seq<char>, title: Seq<char>, url: Seq<char> },
}

impl View for Fatal {
    type V = FatalView;

    open spec fn view(&self) -> FatalView {
        match *self {
            Fatal::MalformedTrackingTitle { number, title, url } => FatalView::MalformedTrackingTitle {
                number,
                title: title@,
                url: url@,
            },
            Fatal::AmbiguousMilestone { matches } => FatalView::AmbiguousMilestone { matches },
            Fatal::ClosedTrackingIssueUsed {
                section,
                title,
                url,
            } => FatalView::ClosedTrackingIssueUsed { section: section@, title: title@, url: url@ },
        }
    }
}

} // verus!
