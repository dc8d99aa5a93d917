//! The whole run: from the records of a milestone to the sections of its
//! release notes.

use crate::assemble::{
    lemma_contribution_marked, lemma_marked_none, lemma_marked_push, link_line, link_line_of,
    marked, placement, render, section_lines, taken, to_sections, Placement, SectionKind, Sections,
};
use crate::audit::{audit, first_violating, notes, violating, violations};
use crate::record::{
    borrowed_views, has_any_label, is_relnotes, is_skipped, record_views, relnotes_labels,
    skip_labels, IssueRecord, IssueState, RecordView,
};
use crate::release::CalendarDate;
use crate::report::{diagnostic_views, Diagnostic, Fatal, FatalView};
use crate::search::lemma_first_index_is;
use crate::tracking::{
    all_unused, collected, first_malformed, lemma_collected_unused, missing_markdown,
    TrackingIssues, TrackingView,
};
use vstd::prelude::*;

verus! {

// ---------------------------------------------------------------------------
// Candidates
// ---------------------------------------------------------------------------

/// Whether a record takes part in a pass: it carries no skip label, and it
/// carries a label that asks for a release note exactly if the pass is the
/// one for such records.
pub open spec fn is_candidate(r: RecordView, noteworthy: bool) -> bool {
    !has_any_label(r.labels, skip_labels()) && has_any_label(r.labels, relnotes_labels())
        == noteworthy
}

/// The records that take part in a pass, in their order.
pub open spec fn candidates(records: Seq<RecordView>, noteworthy: bool) -> Seq<RecordView>
    decreases records.len(),
{
    if records.len() == 0 {
        Seq::empty()
    } else {
        let before = candidates(records.drop_last(), noteworthy);
        if is_candidate(records.last(), noteworthy) {
            before.push(records.last())
        } else {
            before
        }
    }
}

/// Picks the records that take part in a pass.
pub fn select(records: &[IssueRecord], noteworthy: bool) -> (out: Vec<&IssueRecord>)
    ensures
        borrowed_views(out@) == candidates(record_views(records@), noteworthy),
{
    let ghost all = record_views(records@);
    let mut out: Vec<&IssueRecord> = Vec::new();
    let mut i: usize = 0;
    assert(all.take(0) =~= Seq::empty());
    assert(borrowed_views(out@) =~= Seq::empty());
    while i < records.len()
        invariant
            i <= records@.len(),
            all == record_views(records@),
            borrowed_views(out@) == candidates(all.take(i as int), noteworthy),
        decreases records@.len() - i,
    {
        let record = &records[i];
        let ghost before = borrowed_views(out@);
        proof {
            let upto = all.take(i + 1);
            assert(upto.drop_last() =~= all.take(i as int));
            assert(upto.last() == record@);
        }
        if !is_skipped(record) && is_relnotes(record) == noteworthy {
            out.push(record);
            assert(borrowed_views(out@) =~= before.push(record@));
        }
        i += 1;
    }
    assert(all.take(records@.len() as int) =~= all);
    out
}

// ---------------------------------------------------------------------------
// The two passes
// ---------------------------------------------------------------------------

/// The sections of the two passes: those of the records that ask for a
/// release note, and those of the others.
#[derive(Debug, PartialEq, Eq)]
pub struct Classified {
    pub relnotes: Sections,
    pub unsorted: Sections,
}

/// Marking does not change the lines of a section.
pub proof fn lemma_section_lines_marked(
    records: Seq<RecordView>,
    t: Seq<TrackingView>,
    seen: Seq<RecordView>,
    kind: SectionKind,
)
    ensures
        section_lines(records, marked(t, seen), kind) == section_lines(records, t, kind),
    decreases records.len(),
{
    if records.len() > 0 {
        lemma_section_lines_marked(records.drop_last(), t, seen, kind);
        lemma_contribution_marked(records.last(), t, seen, kind);
    }
}

/// Sorting two lists one after the other marks what sorting them as one list
/// marks.
pub proof fn lemma_marked_add(t: Seq<TrackingView>, a: Seq<RecordView>, b: Seq<RecordView>)
    ensures
        marked(marked(t, a), b) == marked(t, a + b),
    decreases b.len(),
{
    if b.len() == 0 {
        lemma_marked_none(marked(t, a));
        assert(b =~= Seq::empty());
        assert(a + b =~= a);
    } else {
        let shorter = b.drop_last();
        let r = b.last();
        lemma_marked_add(t, a, shorter);
        lemma_marked_push(marked(t, a), shorter, r);
        lemma_marked_push(t, a + shorter, r);
        assert(shorter.push(r) =~= b);
        assert((a + shorter).push(r) =~= a + b);
    }
}

/// Sorts the records of a milestone in two passes: first those that ask for
/// a release note, then the others. Records with a skip label take part in
/// neither. Both passes mark the sections of the tracking issues that they
/// use.
pub fn classify(issues: &[IssueRecord], tracking: &mut TrackingIssues) -> (out: Classified)
    ensures
        forall|kind: SectionKind| #[trigger]
            out.relnotes.text(kind) == render(
                section_lines(candidates(record_views(issues@), true), old(tracking)@, kind),
            ),
        forall|kind: SectionKind| #[trigger]
            out.unsorted.text(kind) == render(
                section_lines(candidates(record_views(issues@), false), old(tracking)@, kind),
            ),
        final(tracking)@ == marked(
            old(tracking)@,
            candidates(record_views(issues@), true) + candidates(record_views(issues@), false),
        ),
        old(tracking).well_formed() ==> final(tracking).well_formed(),
{
    let ghost t0 = tracking@;
    let ghost first = candidates(record_views(issues@), true);
    let ghost second = candidates(record_views(issues@), false);
    let noteworthy = select(issues, true);
    let relnotes = to_sections(noteworthy.as_slice(), tracking);
    let others = select(issues, false);
    let unsorted = to_sections(others.as_slice(), tracking);
    proof {
        lemma_marked_add(t0, first, second);
        assert forall|kind: SectionKind| #[trigger]
            unsorted.text(kind) == render(section_lines(second, t0, kind)) by {
            lemma_section_lines_marked(second, t0, first, kind);
        }
    }
    Classified { relnotes, unsorted }
}

// ---------------------------------------------------------------------------
// Cargo
// ---------------------------------------------------------------------------

/// The link lines of the records that ask for a release note, in their
/// order.
pub open spec fn cargo_lines(records: Seq<RecordView>) -> Seq<Seq<char>>
    decreases records.len(),
{
    if records.len() == 0 {
        Seq::empty()
    } else {
        let before = cargo_lines(records.drop_last());
        if has_any_label(records.last().labels, relnotes_labels()) {
            before.push(link_line(records.last()))
        } else {
            before
        }
    }
}

/// Lines joined by line feeds, without one at the end.
pub open spec fn join_lines(lines: Seq<Seq<char>>) -> Seq<char>
    decreases lines.len(),
{
    if lines.len() == 0 {
        Seq::empty()
    } else if lines.len() == 1 {
        lines[0]
    } else {
        join_lines(lines.drop_last()) + seq!['\n'] + lines.last()
    }
}

/// Writes the notes of the package manager: one link line for each of its
/// records that asks for a release note.
pub fn cargo_relnotes(issues: &[IssueRecord]) -> (out: String)
    ensures
        out@ == join_lines(cargo_lines(record_views(issues@))),
{
    let ghost all = record_views(issues@);
    let mut out = String::new();
    let mut any = false;
    let mut i: usize = 0;
    proof {
        reveal_strlit("\n");
        assert("\n"@ =~= seq!['\n']);
        assert(all.take(0) =~= Seq::empty());
    }
    while i < issues.len()
        invariant
            i <= issues@.len(),
            all == record_views(issues@),
            "\n"@ == seq!['\n'],
            any == (cargo_lines(all.take(i as int)).len() > 0),
            out@ == join_lines(cargo_lines(all.take(i as int))),
        decreases issues@.len() - i,
    {
        let record = &issues[i];
        let ghost lines_before = cargo_lines(all.take(i as int));
        let ghost text_before = out@;
        proof {
            let upto = all.take(i + 1);
            assert(upto.drop_last() =~= all.take(i as int));
            assert(upto.last() == record@);
        }
        if is_relnotes(record) {
            let line = link_line_of(record);
            if any {
                out.append("\n");
            }
            out.append(line.as_str());
            proof {
                let lines = lines_before.push(line@);
                assert(lines.drop_last() =~= lines_before);
                assert(lines.last() == line@);
                if !any {
                    assert(text_before =~= Seq::<char>::empty());
                    assert(lines[0] == line@);
                    assert(out@ =~= line@);
                }
            }
            any = true;
        }
        i += 1;
    }
    assert(all.take(issues@.len() as int) =~= all);
    out
}

// ---------------------------------------------------------------------------
// The run
// ---------------------------------------------------------------------------

/// What the renderer receives: the version and date of the release, the
/// sections of both passes, and the notes of the package manager.
#[derive(Debug, PartialEq, Eq)]
pub struct ReleaseNotes {
    pub version: String,
    pub date: CalendarDate,
    pub relnotes: Sections,
    pub unsorted: Sections,
    pub cargo_relnotes: String,
}

/// Where no section of a closed issue is used, the audit finds no fault.
pub proof fn lemma_no_violation(t: Seq<TrackingView>)
    requires
        forall|i: int|
            0 <= i < t.len() && (#[trigger] t[i]).raw.state == IssueState::Closed ==> all_unused(
                t[i].sections,
            ),
    ensures
        first_violating(t) == t.len(),
{
    let flags = violating(t);
    assert forall|i: int| 0 <= i < flags.len() implies #[trigger] flags[i] != true by {
        let inner = violations(t[i]);
        assert forall|j: int| 0 <= j < inner.len() implies #[trigger] inner[j] != true by {
            if t[i].raw.state == IssueState::Closed {
                assert(!t[i].sections[j].used);
            }
        }
        lemma_first_index_is(inner, true, inner.len() as int);
    }
    lemma_first_index_is(flags, true, flags.len() as int);
}

/// Sorting records uses no section of a closed tracking issue.
pub proof fn lemma_marked_closed_unused(t: Seq<TrackingView>, records: Seq<RecordView>)
    requires
        forall|i: int|
            0 <= i < t.len() && (#[trigger] t[i]).raw.state == IssueState::Closed ==> all_unused(
                t[i].sections,
            ),
    ensures
        forall|i: int|
            0 <= i < t.len() && (#[trigger] marked(t, records)[i]).raw.state == IssueState::Closed
                ==> all_unused(marked(t, records)[i].sections),
{
    let after = marked(t, records);
    assert forall|i: int|
        0 <= i < t.len() && (#[trigger] after[i]).raw.state == IssueState::Closed implies all_unused(
        after[i].sections,
    ) by {
        assert(t[i].raw.state == IssueState::Closed);
        assert(all_unused(t[i].sections));
        if taken(records, t, i) {
            let n = choose|n: int|
                0 <= n < records.len() && placement(#[trigger] records[n], t)
                    == Placement::Override(i);
            assert(false);
        }
        assert forall|j: int| 0 <= j < after[i].sections.len() implies !(
        #[trigger] after[i].sections[j]).used by {
            assert(!t[i].sections[j].used);
        }
    }
}

/// The records of both passes, in the order in which they are sorted.
pub open spec fn sorted_records(records: Seq<RecordView>) -> Seq<RecordView> {
    candidates(records, true) + candidates(records, false)
}

/// Writes the release notes of a milestone.
///
/// The tracking issues are collected from `issues`; a malformed tracking
/// title is fatal. The records are sorted in two passes, the notes of the
/// package manager are written from `cargo_issues`, and the sections of the
/// tracking issues that nobody used are reported. Diagnostics are added to
/// `diagnostics` in this order: tracking issues without a fenced block, then
/// unused sections.
pub fn compile(
    version: String,
    date: CalendarDate,
    issues: &[IssueRecord],
    cargo_issues: &[IssueRecord],
    diagnostics: &mut Vec<Diagnostic>,
) -> (out: Result<ReleaseNotes, Fatal>)
    ensures
        match out {
            Ok(written) => {
                let all = record_views(issues@);
                let t0 = collected(all);
                let t1 = marked(t0, sorted_records(all));
                &&& first_malformed(all) == all.len()
                &&& written.version@ == version@
                &&& written.date == date
                &&& forall|kind: SectionKind| #[trigger]
                    written.relnotes.text(kind) == render(
                        section_lines(candidates(all, true), t0, kind),
                    )
                &&& forall|kind: SectionKind| #[trigger]
                    written.unsorted.text(kind) == render(
                        section_lines(candidates(all, false), t0, kind),
                    )
                &&& written.cargo_relnotes@ == join_lines(cargo_lines(record_views(cargo_issues@)))
                &&& diagnostic_views(final(diagnostics)@) == diagnostic_views(old(diagnostics)@)
                    + missing_markdown(all) + notes(t1, all, t1.len() as int)
            },
            Err(e) => {
                let all = record_views(issues@);
                let k = first_malformed(all);
                &&& 0 <= k < all.len()
                &&& e@ == (FatalView::MalformedTrackingTitle {
                    number: all[k].number,
                    title: all[k].title,
                    url: all[k].url,
                })
                &&& diagnostic_views(final(diagnostics)@) == diagnostic_views(old(diagnostics)@)
                    + missing_markdown(all.take(k))
            },
        },
{
    let ghost all = record_views(issues@);
    let mut tracking = match TrackingIssues::collect(issues, diagnostics) {
        Ok(found) => found,
        Err(e) => {
            proof {
                let k = first_malformed(all);
                assert(all[k] == issues@[k]@);
            }
            return Err(e);
        },
    };
    let ghost t0 = tracking@;
    let classified = classify(issues, &mut tracking);
    let cargo = cargo_relnotes(cargo_issues);
    proof {
        lemma_collected_unused(all);
        lemma_marked_closed_unused(t0, sorted_records(all));
        lemma_no_violation(tracking@);
    }
    match audit(&tracking, issues, diagnostics) {
        Ok(_) => {},
        Err(e) => {
            assert(false);
            return Err(e);
        },
    }
    Ok(
        ReleaseNotes {
            version,
            date,
            relnotes: classified.relnotes,
            unsorted: classified.unsorted,
            cargo_relnotes: cargo,
        },
    )
}

} // verus!
