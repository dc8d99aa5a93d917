//! Checking, after the records were sorted, which sections of the tracking
//! issues nobody used.

use crate::record::{record_numbers, record_views, IssueRecord, IssueState, RecordView};
use crate::report::{diagnostic_views, Diagnostic, DiagnosticView, Fatal, FatalView};
use crate::search::{first_index, lemma_first_index_is};
use crate::tracking::{TrackingIssue, TrackingIssues, TrackingView};
use vstd::prelude::*;

verus! {

/// The position of the first record with the given number, if there is one.
pub open spec fn target_of(records: Seq<RecordView>, number: u64) -> Option<usize> {
    let at = first_index(record_numbers(records), number);
    if 0 <= at < records.len() {
        Some(at as usize)
    } else {
        None
    }
}

/// For each section of a tracking issue, whether it breaks the rule that a
/// closed tracking issue gives no lines: the issue is closed and the section
/// is marked as used.
pub open spec fn violations(issue: TrackingView) -> Seq<bool> {
    Seq::new(
        issue.sections.len(),
        |j: int| issue.raw.state == IssueState::Closed && issue.sections[j].used,
    )
}

/// The position of the first section of the issue that breaks the rule, or
/// the number of its sections when none does.
pub open spec fn first_violation(issue: TrackingView) -> int {
    first_index(violations(issue), true)
}

/// For each tracking issue, whether one of its sections breaks the rule.
pub open spec fn violating(t: Seq<TrackingView>) -> Seq<bool> {
    Seq::new(t.len(), |i: int| 0 <= first_violation(t[i]) < t[i].sections.len())
}

/// The position of the first tracking issue with a section that breaks the
/// rule, or the number of tracking issues when there is none.
pub open spec fn first_violating(t: Seq<TrackingView>) -> int {
    first_index(violating(t), true)
}

/// The diagnostic for an unused section of an open tracking issue.
pub open spec fn unused_note(issue: TrackingView, j: int, records: Seq<RecordView>) -> DiagnosticView {
    DiagnosticView::UnusedSection {
        section: issue.sections[j].name,
        title: issue.raw.title,
        url: issue.raw.url,
        for_number: issue.for_number,
        target: target_of(records, issue.for_number),
    }
}

/// The diagnostics for the first `upto` sections of a tracking issue: one for
/// each unused section if the issue is open, none if it is closed.
pub open spec fn issue_notes(issue: TrackingView, records: Seq<RecordView>, upto: int) -> Seq<
    DiagnosticView,
>
    decreases upto,
{
    if upto <= 0 {
        Seq::empty()
    } else {
        let before = issue_notes(issue, records, upto - 1);
        if issue.raw.state == IssueState::Open && !issue.sections[upto - 1].used {
            before.push(unused_note(issue, upto - 1, records))
        } else {
            before
        }
    }
}

/// The diagnostics for the first `upto` tracking issues, in their order.
pub open spec fn notes(t: Seq<TrackingView>, records: Seq<RecordView>, upto: int) -> Seq<
    DiagnosticView,
>
    decreases upto,
{
    if upto <= 0 {
        Seq::empty()
    } else {
        notes(t, records, upto - 1) + issue_notes(
            t[upto - 1],
            records,
            t[upto - 1].sections.len() as int,
        )
    }
}

/// A closed tracking issue gives no diagnostics.
pub proof fn lemma_closed_issue_notes(issue: TrackingView, records: Seq<RecordView>, upto: int)
    requires
        issue.raw.state == IssueState::Closed,
    ensures
        issue_notes(issue, records, upto) == Seq::<DiagnosticView>::empty(),
    decreases upto,
{
    if upto > 0 {
        lemma_closed_issue_notes(issue, records, upto - 1);
    }
}

/// Finds the first record with the given number.
pub fn find_record(records: &[IssueRecord], number: u64) -> (at: Option<usize>)
    ensures
        at == target_of(record_views(records@), number),
{
    let ghost numbers = record_numbers(record_views(records@));
    let mut i: usize = 0;
    while i < records.len()
        invariant
            i <= records@.len(),
            numbers == record_numbers(record_views(records@)),
            forall|j: int| 0 <= j < i ==> #[trigger] numbers[j] != number,
        decreases records@.len() - i,
    {
        assert(numbers[i as int] == records@[i as int].number);
        if records[i].number == number {
            proof {
                lemma_first_index_is(numbers, number, i as int);
            }
            return Some(i);
        }
        i += 1;
    }
    proof {
        lemma_first_index_is(numbers, number, i as int);
    }
    None
}

/// Finds the first used section of a closed tracking issue; gives the number
/// of sections when none is used or the issue is open.
fn find_violation(issue: &TrackingIssue) -> (at: usize)
    ensures
        at == first_violation(issue@),
        at <= issue@.sections.len(),
{
    let ghost flags = violations(issue@);
    if !issue.is_closed() {
        proof {
            lemma_first_index_is(flags, true, flags.len() as int);
        }
        return issue.sections.len();
    }
    let mut j: usize = 0;
    while j < issue.sections.len()
        invariant
            j <= issue.sections@.len(),
            flags == violations(issue@),
            issue@.raw.state == IssueState::Closed,
            forall|k: int| 0 <= k < j ==> !#[trigger] flags[k],
        decreases issue.sections@.len() - j,
    {
        assert(issue@.sections[j as int] == issue.sections@[j as int]@);
        if issue.sections[j].used {
            proof {
                lemma_first_index_is(flags, true, j as int);
            }
            return j;
        }
        j += 1;
    }
    proof {
        lemma_first_index_is(flags, true, j as int);
    }
    j
}

/// Adds the diagnostics for the unused sections of one tracking issue.
fn note_unused(issue: &TrackingIssue, records: &[IssueRecord], diagnostics: &mut Vec<Diagnostic>)
    ensures
        diagnostic_views(final(diagnostics)@) == diagnostic_views(old(diagnostics)@) + issue_notes(
            issue@,
            record_views(records@),
            issue@.sections.len() as int,
        ),
{
    let ghost all = record_views(records@);
    let ghost reported = diagnostic_views(diagnostics@);
    if issue.is_closed() {
        proof {
            lemma_closed_issue_notes(issue@, all, issue@.sections.len() as int);
            assert(reported + Seq::<DiagnosticView>::empty() =~= reported);
        }
        return ;
    }
    let target = find_record(records, issue.for_number);
    let mut j: usize = 0;
    assert(diagnostic_views(diagnostics@) =~= reported + issue_notes(issue@, all, 0));
    while j < issue.sections.len()
        invariant
            j <= issue.sections@.len(),
            all == record_views(records@),
            reported == diagnostic_views(old(diagnostics)@),
            issue@.raw.state == IssueState::Open,
            target == target_of(all, issue@.for_number),
            diagnostic_views(diagnostics@) == reported + issue_notes(issue@, all, j as int),
        decreases issue.sections@.len() - j,
    {
        assert(issue@.sections[j as int] == issue.sections@[j as int]@);
        if !issue.sections[j].used {
            let ghost before = diagnostic_views(diagnostics@);
            let note = Diagnostic::UnusedSection {
                section: issue.sections[j].name.clone(),
                title: issue.raw.title.clone(),
                url: issue.raw.url.clone(),
                for_number: issue.for_number,
                target,
            };
            diagnostics.push(note);
            assert(note@ == unused_note(issue@, j as int, all));
            assert(diagnostic_views(diagnostics@) =~= before.push(note@));
        }
        j += 1;
    }
}

/// Checks the tracking issues after the records were sorted.
///
/// A used section of a closed tracking issue is fatal: the first one, in the
/// order of the issues and of their sections, is returned as the error, after
/// the diagnostics of the issues before it. Otherwise every unused section
/// of an open tracking issue gets a diagnostic, which names the section, the
/// tracking issue and, where `records` holds it, the record that the issue
/// describes.
pub fn audit(
    tracking: &TrackingIssues,
    records: &[IssueRecord],
    diagnostics: &mut Vec<Diagnostic>,
) -> (out: Result<(), Fatal>)
    ensures
        match out {
            Ok(_) => {
                &&& first_violating(tracking@) == tracking@.len()
                &&& diagnostic_views(final(diagnostics)@) == diagnostic_views(old(diagnostics)@)
                    + notes(tracking@, record_views(records@), tracking@.len() as int)
            },
            Err(e) => {
                let i = first_violating(tracking@);
                let j = first_violation(tracking@[i]);
                &&& 0 <= i < tracking@.len()
                &&& 0 <= j < tracking@[i].sections.len()
                &&& e@ == (FatalView::ClosedTrackingIssueUsed {
                    section: tracking@[i].sections[j].name,
                    title: tracking@[i].raw.title,
                    url: tracking@[i].raw.url,
                })
                &&& diagnostic_views(final(diagnostics)@) == diagnostic_views(old(diagnostics)@)
                    + notes(tracking@, record_views(records@), i)
            },
        },
{
    let ghost t = tracking@;
    let ghost all = record_views(records@);
    let ghost flags = violating(t);
    let ghost reported = diagnostic_views(diagnostics@);
    let mut i: usize = 0;
    assert(diagnostic_views(diagnostics@) =~= reported + notes(t, all, 0));
    while i < tracking.issues.len()
        invariant
            i <= tracking.issues@.len(),
            t == tracking@,
            all == record_views(records@),
            flags == violating(t),
            reported == diagnostic_views(old(diagnostics)@),
            forall|k: int| 0 <= k < i ==> !#[trigger] flags[k],
            diagnostic_views(diagnostics@) == reported + notes(t, all, i as int),
        decreases tracking.issues@.len() - i,
    {
        let issue = &tracking.issues[i];
        assert(t[i as int] == issue@);
        let at = find_violation(issue);
        if at < issue.sections.len() {
            proof {
                lemma_first_index_is(flags, true, i as int);
                assert(issue@.sections[at as int] == issue.sections@[at as int]@);
            }
            return Err(
                Fatal::ClosedTrackingIssueUsed {
                    section: issue.sections[at].name.clone(),
                    title: issue.raw.title.clone(),
                    url: issue.raw.url.clone(),
                },
            );
        }
        let ghost before = diagnostic_views(diagnostics@);
        note_unused(issue, records, diagnostics);
        assert(diagnostic_views(diagnostics@) =~= reported + notes(t, all, i + 1));
        i += 1;
    }
    proof {
        lemma_first_index_is(flags, true, i as int);
    }
    Ok(())
}

} // verus!
