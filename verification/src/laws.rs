//! Laws that relate several functions of the library, each proved from the
//! specifications that the functions' contracts use.

use crate::assemble::{
    contribution, marked, override_lines, placement, section_kind, section_lines, taken,
    Placement, SectionKind,
};
use crate::audit::{issue_notes, notes, unused_note};
use crate::fetch::{is_merge_of, strictly_ascending};
use crate::notes::is_candidate;
use crate::record::{record_numbers, IssueState, RecordView};
use crate::search::{
    first_index, lemma_add_contains, lemma_first_index, lemma_first_index_is, lemma_push_contains,
};
use crate::text::{is_blank, lines};
use crate::report::DiagnosticView;
use crate::tracking::{
    add_line, collected, for_numbers, is_header, is_tracking_title, lemma_insert_distinct,
    lemma_scan_well_formed, scan, section_names, sections_of, sections_well_formed,
    targets_distinct, tracking_of, tracking_well_formed, SectionView, TrackingView,
};
use vstd::prelude::*;

verus! {

// ---------------------------------------------------------------------------
// Ownership
// ---------------------------------------------------------------------------

/// Whether a record gives at least one line to a section in a pass.
pub open spec fn gives(
    r: RecordView,
    t: Seq<TrackingView>,
    noteworthy: bool,
    kind: SectionKind,
) -> bool {
    is_candidate(r, noteworthy) && contribution(r, t, kind).len() > 0
}

/// A record that no tracking issue speaks for appears in at most one section
/// of at most one pass: two places that it gives lines to are the same place.
pub proof fn law_exclusive_ownership(
    r: RecordView,
    t: Seq<TrackingView>,
    pass_a: bool,
    kind_a: SectionKind,
    pass_b: bool,
    kind_b: SectionKind,
)
    requires
        !(placement(r, t) is Override),
        gives(r, t, pass_a, kind_a),
        gives(r, t, pass_b, kind_b),
    ensures
        pass_a == pass_b,
        kind_a == kind_b,
        contribution(r, t, kind_a).len() == 1,
{
}

/// A record that is a tracking issue itself, or whose tracking issue is
/// closed, appears in no section, and so does a record outside both passes.
pub proof fn law_excluded_gives_nothing(
    r: RecordView,
    t: Seq<TrackingView>,
    noteworthy: bool,
    kind: SectionKind,
)
    requires
        placement(r, t) is Excluded || (!is_candidate(r, true) && !is_candidate(r, false)),
    ensures
        !gives(r, t, noteworthy, kind),
{
}

/// A record takes part in at most one pass.
pub proof fn law_passes_disjoint(r: RecordView)
    ensures
        !(is_candidate(r, true) && is_candidate(r, false)),
{
}

/// A section of a tracking issue gives its lines to at most one output
/// section, and gives no other lines.
pub proof fn law_section_goes_to_one_place(s: SectionView, a: SectionKind, b: SectionKind)
    requires
        a != b,
    ensures
        override_lines(seq![s], a).len() == 0 || override_lines(seq![s], b).len() == 0,
        override_lines(seq![s], a) == s.lines || override_lines(seq![s], a).len() == 0,
{
    let one = seq![s];
    assert(one.drop_last() =~= Seq::<SectionView>::empty());
    assert(one.last() == s);
    assert(override_lines(one.drop_last(), a) =~= Seq::<Seq<char>>::empty());
    assert(override_lines(one.drop_last(), b) =~= Seq::<Seq<char>>::empty());
    assert(override_lines(one, a) =~= if section_kind(s.name) == Some(a) {
        s.lines
    } else {
        Seq::empty()
    });
    assert(override_lines(one, b) =~= if section_kind(s.name) == Some(b) {
        s.lines
    } else {
        Seq::empty()
    });
}

// ---------------------------------------------------------------------------
// Merging
// ---------------------------------------------------------------------------

/// In a list in strictly ascending order every number stands once: each
/// record is the first with its number.
pub proof fn lemma_ascending_first(out: Seq<RecordView>, k: int)
    requires
        strictly_ascending(out),
        0 <= k < out.len(),
    ensures
        first_index(record_numbers(out), out[k].number) == k,
{
    let numbers = record_numbers(out);
    assert forall|j: int| 0 <= j < k implies #[trigger] numbers[j] != out[k].number by {
        assert(out[j].number < out[k].number);
    }
    lemma_first_index_is(numbers, out[k].number, k);
}

/// Merging is idempotent: a merged list is its own merged form.
pub proof fn law_merge_idempotent(out: Seq<RecordView>, input: Seq<RecordView>)
    requires
        is_merge_of(out, input),
    ensures
        is_merge_of(out, out),
{
    assert forall|k: int| 0 <= k < out.len() implies {
        let first = first_index(record_numbers(out), (#[trigger] out[k]).number);
        0 <= first < out.len() && out[k] == out[first]
    } by {
        lemma_ascending_first(out, k);
    }
}

/// Two lists of numbers in strictly ascending order that hold the same
/// numbers are the same list.
proof fn lemma_ascending_same(x: Seq<u64>, y: Seq<u64>)
    requires
        forall|i: int, j: int| 0 <= i < j < x.len() ==> x[i] < x[j],
        forall|i: int, j: int| 0 <= i < j < y.len() ==> y[i] < y[j],
        forall|i: int| 0 <= i < x.len() ==> y.contains(#[trigger] x[i]),
        forall|j: int| 0 <= j < y.len() ==> x.contains(#[trigger] y[j]),
    ensures
        x == y,
    decreases x.len(),
{
    if x.len() == 0 {
        if y.len() > 0 {
            assert(x.contains(y[0]));
        }
        assert(x =~= y);
    } else {
        assert(y.contains(x.last()));
        assert(y.len() > 0);
        assert(x.contains(y.last()));
        let at_y = choose|j: int| 0 <= j < y.len() && y[j] == x.last();
        let at_x = choose|i: int| 0 <= i < x.len() && x[i] == y.last();
        assert(x.last() == y.last()) by {
            if at_y < y.len() - 1 {
                assert(y[at_y] < y[y.len() - 1]);
            }
            if at_x < x.len() - 1 {
                assert(x[at_x] < x[x.len() - 1]);
            }
        }
        let xs = x.drop_last();
        let ys = y.drop_last();
        assert forall|i: int| 0 <= i < xs.len() implies ys.contains(#[trigger] xs[i]) by {
            assert(xs[i] == x[i]);
            assert(y.contains(x[i]));
            let j = choose|j: int| 0 <= j < y.len() && y[j] == x[i];
            assert(x[i] < x[x.len() - 1]);
            assert(j < y.len() - 1);
            assert(ys[j] == y[j]);
        }
        assert forall|j: int| 0 <= j < ys.len() implies xs.contains(#[trigger] ys[j]) by {
            assert(ys[j] == y[j]);
            assert(x.contains(y[j]));
            let i = choose|i: int| 0 <= i < x.len() && x[i] == y[j];
            assert(y[j] < y[y.len() - 1]);
            assert(i < x.len() - 1);
            assert(xs[i] == x[i]);
        }
        assert forall|i: int, j: int| 0 <= i < j < xs.len() implies xs[i] < xs[j] by {
            assert(x[i] < x[j]);
        }
        assert forall|i: int, j: int| 0 <= i < j < ys.len() implies ys[i] < ys[j] by {
            assert(y[i] < y[j]);
        }
        lemma_ascending_same(xs, ys);
        assert(x =~= xs.push(x.last()));
        assert(y =~= ys.push(y.last()));
    }
}

/// The merged form of a list is unique: the contract of merging leaves no
/// choice.
pub proof fn law_merge_unique(a: Seq<RecordView>, b: Seq<RecordView>, input: Seq<RecordView>)
    requires
        is_merge_of(a, input),
        is_merge_of(b, input),
    ensures
        a == b,
{
    let x = record_numbers(a);
    let y = record_numbers(b);
    let numbers = record_numbers(input);
    assert forall|i: int| 0 <= i < x.len() implies y.contains(#[trigger] x[i]) by {
        let first = first_index(numbers, a[i].number);
        assert(a[i] == input[first]);
        let k = choose|k: int| 0 <= k < b.len() && (#[trigger] b[k]).number == input[first].number;
        assert(y[k] == x[i]);
    }
    assert forall|j: int| 0 <= j < y.len() implies x.contains(#[trigger] y[j]) by {
        let first = first_index(numbers, b[j].number);
        assert(b[j] == input[first]);
        let k = choose|k: int| 0 <= k < a.len() && (#[trigger] a[k]).number == input[first].number;
        assert(x[k] == y[j]);
    }
    assert forall|i: int, j: int| 0 <= i < j < x.len() implies x[i] < x[j] by {
        assert(a[i].number < a[j].number);
    }
    assert forall|i: int, j: int| 0 <= i < j < y.len() implies y[i] < y[j] by {
        assert(b[i].number < b[j].number);
    }
    lemma_ascending_same(x, y);
    assert forall|k: int| 0 <= k < a.len() implies a[k] == b[k] by {
        assert(x[k] == y[k]);
        assert(a[k].number == b[k].number);
    }
    assert(a =~= b);
}

/// After merging there is exactly one record for every number of the input:
/// there is one, and two records of the merged list with one number are the
/// same record.
pub proof fn law_merge_one_per_number(
    out: Seq<RecordView>,
    input: Seq<RecordView>,
    i: int,
    k: int,
    m: int,
)
    requires
        is_merge_of(out, input),
        0 <= i < input.len(),
        0 <= k < out.len(),
        0 <= m < out.len(),
        out[k].number == out[m].number,
    ensures
        record_numbers(out).contains(input[i].number),
        k == m,
{
    let found = choose|f: int| 0 <= f < out.len() && (#[trigger] out[f]).number == input[i].number;
    assert(record_numbers(out)[found] == input[i].number);
    if k < m {
        assert(out[k].number < out[m].number);
    } else if m < k {
        assert(out[m].number < out[k].number);
    }
}

// ---------------------------------------------------------------------------
// Order
// ---------------------------------------------------------------------------

/// What each record gives to a section, record by record.
pub open spec fn blocks(records: Seq<RecordView>, t: Seq<TrackingView>, kind: SectionKind) -> Seq<
    Seq<Seq<char>>,
> {
    records.map_values(|r: RecordView| contribution(r, t, kind))
}

/// The lines of a sequence of blocks, block after block.
pub open spec fn concat(parts: Seq<Seq<Seq<char>>>) -> Seq<Seq<char>>
    decreases parts.len(),
{
    if parts.len() == 0 {
        Seq::empty()
    } else {
        concat(parts.drop_last()) + parts.last()
    }
}

/// The order of a section is the order of the input: its lines are the
/// blocks of the records, one after the other.
pub proof fn law_order_preserved(records: Seq<RecordView>, t: Seq<TrackingView>, kind: SectionKind)
    ensures
        section_lines(records, t, kind) == concat(blocks(records, t, kind)),
    decreases records.len(),
{
    if records.len() > 0 {
        law_order_preserved(records.drop_last(), t, kind);
        assert(blocks(records, t, kind).drop_last() =~= blocks(records.drop_last(), t, kind));
    }
}

/// Sorting the reversed list gives the blocks of the records in reversed
/// order.
pub proof fn law_reverse_blocks(records: Seq<RecordView>, t: Seq<TrackingView>, kind: SectionKind)
    ensures
        section_lines(records.reverse(), t, kind) == concat(blocks(records, t, kind).reverse()),
{
    law_order_preserved(records.reverse(), t, kind);
    assert(blocks(records.reverse(), t, kind) =~= blocks(records, t, kind).reverse());
}

/// A block in front of others comes first.
proof fn lemma_concat_prepend(first: Seq<Seq<char>>, rest: Seq<Seq<Seq<char>>>)
    ensures
        concat(seq![first] + rest) == first + concat(rest),
    decreases rest.len(),
{
    let all = seq![first] + rest;
    if rest.len() == 0 {
        assert(all.drop_last() =~= Seq::<Seq<Seq<char>>>::empty());
        assert(concat(all.drop_last()) =~= Seq::<Seq<char>>::empty());
        assert(concat(all) =~= first + concat(rest));
    } else {
        lemma_concat_prepend(first, rest.drop_last());
        assert(all.drop_last() =~= seq![first] + rest.drop_last());
        assert(all.last() == rest.last());
        assert(concat(all) =~= first + concat(rest));
    }
}

/// Where every block reads the same in both directions, the lines of the
/// reversed blocks are the reversed lines.
proof fn lemma_concat_reverse(parts: Seq<Seq<Seq<char>>>)
    requires
        forall|n: int| 0 <= n < parts.len() ==> (#[trigger] parts[n]).reverse() == parts[n],
    ensures
        concat(parts.reverse()) == concat(parts).reverse(),
    decreases parts.len(),
{
    if parts.len() == 0 {
        assert(concat(parts).reverse() =~= Seq::<Seq<char>>::empty());
    } else {
        let shorter = parts.drop_last();
        let last = parts.last();
        assert forall|n: int| 0 <= n < shorter.len() implies (#[trigger] shorter[n]).reverse()
            == shorter[n] by {
            assert(shorter[n] == parts[n]);
        }
        lemma_concat_reverse(shorter);
        assert(parts.reverse() =~= seq![last] + shorter.reverse());
        lemma_concat_prepend(last, shorter.reverse());
        let head = concat(shorter);
        assert((head + last).reverse() =~= last.reverse() + head.reverse());
    }
}

/// Sorting the reversed list gives every section its lines in reversed
/// order, provided that the lines that each record gives to the section read
/// the same in both directions, as one line does.
pub proof fn law_reverse_lines(records: Seq<RecordView>, t: Seq<TrackingView>, kind: SectionKind)
    requires
        forall|n: int|
            0 <= n < records.len() ==> contribution(#[trigger] records[n], t, kind).reverse()
                == contribution(records[n], t, kind),
    ensures
        section_lines(records.reverse(), t, kind) == section_lines(records, t, kind).reverse(),
{
    let parts = blocks(records, t, kind);
    law_order_preserved(records, t, kind);
    law_reverse_blocks(records, t, kind);
    assert forall|n: int| 0 <= n < parts.len() implies (#[trigger] parts[n]).reverse()
        == parts[n] by {
        assert(parts[n] == contribution(records[n], t, kind));
    }
    lemma_concat_reverse(parts);
}

// ---------------------------------------------------------------------------
// Reading a block
// ---------------------------------------------------------------------------

/// The number of lines that sections hold together.
pub open spec fn total_lines(sections: Seq<SectionView>) -> nat
    decreases sections.len(),
{
    if sections.len() == 0 {
        0
    } else {
        total_lines(sections.drop_last()) + sections.last().lines.len()
    }
}

/// A line that is neither blank nor a header.
pub open spec fn is_content(line: Seq<char>) -> bool {
    !is_blank(line) && !is_header(line)
}

/// The number of content lines that stand after a header.
pub open spec fn kept_lines(all: Seq<Seq<char>>) -> nat
    decreases all.len(),
{
    if all.len() == 0 {
        0
    } else {
        kept_lines(all.drop_last()) + (if is_content(all.last()) && scan(
            all.drop_last(),
        ).current is Some {
            1nat
        } else {
            0nat
        })
    }
}

/// The number of content lines.
pub open spec fn content_lines(all: Seq<Seq<char>>) -> nat
    decreases all.len(),
{
    if all.len() == 0 {
        0
    } else {
        content_lines(all.drop_last()) + (if is_content(all.last()) {
            1nat
        } else {
            0nat
        })
    }
}

proof fn lemma_total_update(sections: Seq<SectionView>, i: int, v: SectionView)
    requires
        0 <= i < sections.len(),
    ensures
        total_lines(sections.update(i, v)) == total_lines(sections) - sections[i].lines.len()
            + v.lines.len(),
    decreases sections.len(),
{
    let after = sections.update(i, v);
    if i == sections.len() - 1 {
        assert(after.drop_last() =~= sections.drop_last());
    } else {
        lemma_total_update(sections.drop_last(), i, v);
        assert(after.drop_last() =~= sections.drop_last().update(i, v));
        assert(after.last() == sections.last());
    }
}

proof fn lemma_total_add_line(sections: Seq<SectionView>, name: Seq<char>, line: Seq<char>)
    ensures
        total_lines(add_line(sections, name, line)) == total_lines(sections) + 1,
{
    let i = first_index(section_names(sections), name);
    lemma_first_index(section_names(sections), name);
    let after = add_line(sections, name, line);
    if 0 <= i < sections.len() {
        lemma_total_update(sections, i, after[i]);
    } else {
        assert(after.drop_last() =~= sections);
    }
}

proof fn lemma_scan_count(all: Seq<Seq<char>>)
    ensures
        total_lines(scan(all).sections) == kept_lines(all),
    decreases all.len(),
{
    if all.len() > 0 {
        let before = scan(all.drop_last());
        lemma_scan_count(all.drop_last());
        match before.current {
            Some(name) => {
                lemma_total_add_line(before.sections, name, all.last());
            },
            None => {},
        }
    }
}

/// Reading a block loses no line and invents none: the sections hold, in
/// all, as many lines as the block has content lines after its first header.
/// Headers and blank lines are not counted.
pub proof fn law_line_count(block: Seq<char>)
    ensures
        total_lines(sections_of(block)) == kept_lines(lines(block)),
{
    lemma_scan_count(lines(block));
}

proof fn lemma_current(all: Seq<Seq<char>>)
    ensures
        scan(all).current is Some <==> exists|j: int|
            0 <= j < all.len() && !is_blank(#[trigger] all[j]) && is_header(all[j]),
    decreases all.len(),
{
    if all.len() > 0 {
        let shorter = all.drop_last();
        lemma_current(shorter);
        if scan(shorter).current is Some {
            let j = choose|j: int|
                0 <= j < shorter.len() && !is_blank(#[trigger] shorter[j]) && is_header(shorter[j]);
            assert(all[j] == shorter[j]);
        }
        if !is_blank(all.last()) && is_header(all.last()) {
            assert(all[all.len() - 1] == all.last());
        }
        if exists|j: int| 0 <= j < all.len() && !is_blank(#[trigger] all[j]) && is_header(all[j]) {
            let j = choose|j: int|
                0 <= j < all.len() && !is_blank(#[trigger] all[j]) && is_header(all[j]);
            if j < shorter.len() {
                assert(shorter[j] == all[j]);
            }
        }
    }
}

proof fn lemma_kept_all(all: Seq<Seq<char>>)
    requires
        forall|i: int|
            0 <= i < all.len() && is_content(#[trigger] all[i]) ==> exists|j: int|
                0 <= j < i && !is_blank(#[trigger] all[j]) && is_header(all[j]),
    ensures
        kept_lines(all) == content_lines(all),
    decreases all.len(),
{
    if all.len() > 0 {
        let shorter = all.drop_last();
        assert forall|i: int| 0 <= i < shorter.len() && is_content(#[trigger] shorter[i]) implies exists|
            j: int,
        | 0 <= j < i && !is_blank(#[trigger] shorter[j]) && is_header(shorter[j]) by {
            assert(shorter[i] == all[i]);
            let j = choose|j: int| 0 <= j < i && !is_blank(#[trigger] all[j]) && is_header(all[j]);
            assert(shorter[j] == all[j]);
        }
        lemma_kept_all(shorter);
        if is_content(all.last()) {
            assert(all[all.len() - 1] == all.last());
            let j = choose|j: int|
                0 <= j < all.len() - 1 && !is_blank(#[trigger] all[j]) && is_header(all[j]);
            assert(shorter[j] == all[j]);
            lemma_current(shorter);
        }
    }
}

/// In a block whose content lines all stand after a header, the sections
/// hold as many lines as the block has content lines.
pub proof fn law_headed_block_line_count(block: Seq<char>)
    requires
        forall|i: int|
            0 <= i < lines(block).len() && is_content(#[trigger] lines(block)[i]) ==> exists|
                j: int,
            | 0 <= j < i && !is_blank(#[trigger] lines(block)[j]) && is_header(lines(block)[j]),
    ensures
        total_lines(sections_of(block)) == content_lines(lines(block)),
{
    law_line_count(block);
    lemma_kept_all(lines(block));
}

/// The sections of a block are a mapping from names to lines: no two have
/// one name, and none is empty.
pub proof fn law_sections_well_formed(block: Seq<char>)
    ensures
        sections_well_formed(sections_of(block)),
{
    lemma_scan_well_formed(lines(block));
}

// ---------------------------------------------------------------------------
// Collecting
// ---------------------------------------------------------------------------

/// The collected tracking issues are a mapping from record numbers to
/// tracking issues: no two describe one record.
pub proof fn law_one_tracking_issue_per_record(records: Seq<RecordView>)
    ensures
        targets_distinct(collected(records)),
    decreases records.len(),
{
    if records.len() > 0 {
        law_one_tracking_issue_per_record(records.drop_last());
        match tracking_of(records.last()) {
            Some(issue) => {
                lemma_insert_distinct(collected(records.drop_last()), issue);
            },
            None => {},
        }
    }
}

// ---------------------------------------------------------------------------
// Used and unused sections
// ---------------------------------------------------------------------------

/// Whether one of the records is described by the tracking issue and is no
/// tracking issue itself.
pub open spec fn visited(records: Seq<RecordView>, issue: TrackingView) -> bool {
    exists|n: int|
        0 <= n < records.len() && !is_tracking_title((#[trigger] records[n]).title) && records[n].number
            == issue.for_number
}

/// Among tracking issues that describe different records, a tracking issue is
/// taken exactly when it is open and one of the records is the one that it
/// describes.
pub proof fn law_taken_when_visited(records: Seq<RecordView>, t: Seq<TrackingView>, at: int)
    requires
        targets_distinct(t),
        0 <= at < t.len(),
    ensures
        taken(records, t, at) <==> t[at].raw.state == IssueState::Open && visited(records, t[at]),
{
    let numbers = for_numbers(t);
    assert forall|k: int| 0 <= k < at implies #[trigger] numbers[k] != t[at].for_number by {
        assert(t[k].for_number != t[at].for_number);
    }
    lemma_first_index_is(numbers, t[at].for_number, at);
    if taken(records, t, at) {
        let n = choose|n: int|
            0 <= n < records.len() && placement(#[trigger] records[n], t) == Placement::Override(
                at,
            );
        lemma_first_index(numbers, records[n].number);
        assert(numbers[at] == t[at].for_number);
        assert(!is_tracking_title(records[n].title) && records[n].number == t[at].for_number);
    }
    if t[at].raw.state == IssueState::Open && visited(records, t[at]) {
        let n = choose|n: int|
            0 <= n < records.len() && !is_tracking_title((#[trigger] records[n]).title)
                && records[n].number == t[at].for_number;
        assert(placement(records[n], t) == Placement::Override(at));
    }
}

/// After sorting, a section is marked as used exactly when it was marked
/// before, or its tracking issue is open, one of the sorted records is the
/// one that the issue describes, and the section's name addresses an output
/// section.
pub proof fn law_used_when_visited(
    records: Seq<RecordView>,
    t: Seq<TrackingView>,
    at: int,
    j: int,
)
    requires
        targets_distinct(t),
        0 <= at < t.len(),
        0 <= j < t[at].sections.len(),
    ensures
        marked(t, records)[at].sections[j].used <==> t[at].sections[j].used || (t[at].raw.state
            == IssueState::Open && visited(records, t[at]) && section_kind(t[at].sections[j].name)
            is Some),
{
    law_taken_when_visited(records, t, at);
}

proof fn lemma_issue_notes_contains(
    issue: TrackingView,
    records: Seq<RecordView>,
    upto: int,
    d: DiagnosticView,
)
    requires
        0 <= upto <= issue.sections.len(),
    ensures
        issue_notes(issue, records, upto).contains(d) <==> issue.raw.state == IssueState::Open
            && exists|j: int|
            0 <= j < upto && !issue.sections[j].used && d == #[trigger] unused_note(
                issue,
                j,
                records,
            ),
    decreases upto,
{
    if upto <= 0 {
        assert(!issue_notes(issue, records, upto).contains(d));
    } else {
        let before = issue_notes(issue, records, upto - 1);
        lemma_issue_notes_contains(issue, records, upto - 1, d);
        let last = unused_note(issue, upto - 1, records);
        lemma_push_contains(before, last, d);
        if issue.raw.state == IssueState::Open {
            if before.contains(d) {
                let j = choose|j: int|
                    0 <= j < upto - 1 && !issue.sections[j].used && d == #[trigger] unused_note(
                        issue,
                        j,
                        records,
                    );
                assert(0 <= j < upto && !issue.sections[j].used && d == unused_note(
                    issue,
                    j,
                    records,
                ));
            }
            if exists|j: int|
                0 <= j < upto && !issue.sections[j].used && d == #[trigger] unused_note(
                    issue,
                    j,
                    records,
                ) {
                let j = choose|j: int|
                    0 <= j < upto && !issue.sections[j].used && d == #[trigger] unused_note(
                        issue,
                        j,
                        records,
                    );
                if j < upto - 1 {
                    assert(0 <= j < upto - 1 && !issue.sections[j].used && d == unused_note(
                        issue,
                        j,
                        records,
                    ));
                }
            }
        }
    }
}

proof fn lemma_notes_contains(
    t: Seq<TrackingView>,
    records: Seq<RecordView>,
    upto: int,
    d: DiagnosticView,
)
    requires
        0 <= upto <= t.len(),
    ensures
        notes(t, records, upto).contains(d) <==> exists|i: int|
            0 <= i < upto && issue_notes(
                #[trigger] t[i],
                records,
                t[i].sections.len() as int,
            ).contains(d),
    decreases upto,
{
    if upto <= 0 {
        assert(!notes(t, records, upto).contains(d));
    } else {
        let before = notes(t, records, upto - 1);
        let last = issue_notes(t[upto - 1], records, t[upto - 1].sections.len() as int);
        lemma_notes_contains(t, records, upto - 1, d);
        lemma_add_contains(before, last, d);
        if before.contains(d) {
            let i = choose|i: int|
                0 <= i < upto - 1 && issue_notes(
                    #[trigger] t[i],
                    records,
                    t[i].sections.len() as int,
                ).contains(d);
            assert(0 <= i < upto && issue_notes(t[i], records, t[i].sections.len() as int).contains(
                d,
            ));
        }
        if last.contains(d) {
            assert(issue_notes(t[upto - 1], records, t[upto - 1].sections.len() as int).contains(
                d,
            ));
        }
        if exists|i: int|
            0 <= i < upto && issue_notes(
                #[trigger] t[i],
                records,
                t[i].sections.len() as int,
            ).contains(d) {
            let i = choose|i: int|
                0 <= i < upto && issue_notes(
                    #[trigger] t[i],
                    records,
                    t[i].sections.len() as int,
                ).contains(d);
            if i < upto - 1 {
                assert(0 <= i < upto - 1 && issue_notes(
                    t[i],
                    records,
                    t[i].sections.len() as int,
                ).contains(d));
            }
        }
    }
}

/// Among well-formed tracking issues, the diagnostics of the audit hold the
/// diagnostic of a section exactly when the section's tracking issue is open
/// and the section is not marked as used. The diagnostic names the section,
/// the title and URL of the tracking issue, the number of the record that it
/// describes, and where the records hold that record.
pub proof fn law_unused_reported(
    t: Seq<TrackingView>,
    records: Seq<RecordView>,
    at: int,
    j: int,
)
    requires
        tracking_well_formed(t),
        0 <= at < t.len(),
        0 <= j < t[at].sections.len(),
    ensures
        notes(t, records, t.len() as int).contains(unused_note(t[at], j, records))
            <==> t[at].raw.state == IssueState::Open && !t[at].sections[j].used,
{
    let d = unused_note(t[at], j, records);
    lemma_notes_contains(t, records, t.len() as int, d);
    lemma_issue_notes_contains(t[at], records, t[at].sections.len() as int, d);
    if notes(t, records, t.len() as int).contains(d) {
        let i = choose|i: int|
            0 <= i < t.len() && issue_notes(
                #[trigger] t[i],
                records,
                t[i].sections.len() as int,
            ).contains(d);
        lemma_issue_notes_contains(t[i], records, t[i].sections.len() as int, d);
        let k = choose|k: int|
            0 <= k < t[i].sections.len() && !t[i].sections[k].used && d == #[trigger] unused_note(
                t[i],
                k,
                records,
            );
        assert(t[i].for_number == t[at].for_number);
        if i < at {
            assert(t[i].for_number != t[at].for_number);
        } else if at < i {
            assert(t[at].for_number != t[i].for_number);
        }
        assert(sections_well_formed(t[at].sections));
        assert(t[at].sections[k].name == t[at].sections[j].name);
        if k < j {
            assert(t[at].sections[k].name != t[at].sections[j].name);
        } else if j < k {
            assert(t[at].sections[j].name != t[at].sections[k].name);
        }
    }
}

} // verus!
