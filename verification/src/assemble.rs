//! Sorting the records of a milestone into the sections of the release
//! notes.

use crate::record::{
    borrowed_views, has_any_label, has_tags, str_views, string_views, IssueRecord, IssueState,
    RecordView,
};
use crate::search::first_index;
use crate::text::{chars_of, eq_ignore_ascii_case, same_ignoring_ascii_case};
use crate::tracking::{
    for_numbers, has_tracking_title, is_tracking_title, section_views, sections_well_formed,
    tracking_well_formed, Section, SectionView, TrackingIssues, TrackingView,
};
use vstd::prelude::*;

verus! {

// ---------------------------------------------------------------------------
// Output sections
// ---------------------------------------------------------------------------

/// The sections of the release notes.
#[derive(Debug, Clone, Copy, PartialEq, Eq, Structural)]
pub enum SectionKind {
    Language,
    Compiler,
    Libraries,
    StabilizedApis,
    ConstStabilizedApis,
    Rustdoc,
    CompatibilityNotes,
    InternalChanges,
    Other,
}

impl SectionKind {
    /// The name under which a tracking issue addresses the section.
    pub open spec fn title(self) -> Seq<char> {
        match self {
            SectionKind::Language => "Language"@,
            SectionKind::Compiler => "Compiler"@,
            SectionKind::Libraries => "Library"@,
            SectionKind::StabilizedApis => "Stabilized APIs"@,
            SectionKind::ConstStabilizedApis => "Const Stabilized APIs"@,
            SectionKind::Rustdoc => "Rustdoc"@,
            SectionKind::CompatibilityNotes => "Compatibility Notes"@,
            SectionKind::InternalChanges => "Internal Changes"@,
            SectionKind::Other => "Other"@,
        }
    }

    /// The name under which a tracking issue addresses the section.
    pub fn name(self) -> (s: &'static str)
        ensures
            s@ == self.title(),
    {
        match self {
            SectionKind::Language => "Language",
            SectionKind::Compiler => "Compiler",
            SectionKind::Libraries => "Library",
            SectionKind::StabilizedApis => "Stabilized APIs",
            SectionKind::ConstStabilizedApis => "Const Stabilized APIs",
            SectionKind::Rustdoc => "Rustdoc",
            SectionKind::CompatibilityNotes => "Compatibility Notes",
            SectionKind::InternalChanges => "Internal Changes",
            SectionKind::Other => "Other",
        }
    }
}

/// Whether `name` addresses the section `kind`: the two agree but for the
/// case of ASCII letters.
pub open spec fn addresses(name: Seq<char>, kind: SectionKind) -> bool {
    same_ignoring_ascii_case(kind.title(), name)
}

/// The output section that a section name of a tracking issue addresses, if
/// it addresses one.
pub open spec fn section_kind(name: Seq<char>) -> Option<SectionKind> {
    if addresses(name, SectionKind::Language) {
        Some(SectionKind::Language)
    } else if addresses(name, SectionKind::Compiler) {
        Some(SectionKind::Compiler)
    } else if addresses(name, SectionKind::Libraries) {
        Some(SectionKind::Libraries)
    } else if addresses(name, SectionKind::StabilizedApis) {
        Some(SectionKind::StabilizedApis)
    } else if addresses(name, SectionKind::ConstStabilizedApis) {
        Some(SectionKind::ConstStabilizedApis)
    } else if addresses(name, SectionKind::Rustdoc) {
        Some(SectionKind::Rustdoc)
    } else if addresses(name, SectionKind::CompatibilityNotes) {
        Some(SectionKind::CompatibilityNotes)
    } else if addresses(name, SectionKind::InternalChanges) {
        Some(SectionKind::InternalChanges)
    } else if addresses(name, SectionKind::Other) {
        Some(SectionKind::Other)
    } else {
        None
    }
}

fn is_addressed(name: &Vec<char>, kind: SectionKind) -> (b: bool)
    ensures
        b == addresses(name@, kind),
{
    let title = chars_of(kind.name());
    eq_ignore_ascii_case(&title, name)
}

/// Finds the output section that a section name of a tracking issue
/// addresses.
pub fn section_named(name: &str) -> (kind: Option<SectionKind>)
    ensures
        kind == section_kind(name@),
{
    let chars = chars_of(name);
    if is_addressed(&chars, SectionKind::Language) {
        Some(SectionKind::Language)
    } else if is_addressed(&chars, SectionKind::Compiler) {
        Some(SectionKind::Compiler)
    } else if is_addressed(&chars, SectionKind::Libraries) {
        Some(SectionKind::Libraries)
    } else if is_addressed(&chars, SectionKind::StabilizedApis) {
        Some(SectionKind::StabilizedApis)
    } else if is_addressed(&chars, SectionKind::ConstStabilizedApis) {
        Some(SectionKind::ConstStabilizedApis)
    } else if is_addressed(&chars, SectionKind::Rustdoc) {
        Some(SectionKind::Rustdoc)
    } else if is_addressed(&chars, SectionKind::CompatibilityNotes) {
        Some(SectionKind::CompatibilityNotes)
    } else if is_addressed(&chars, SectionKind::InternalChanges) {
        Some(SectionKind::InternalChanges)
    } else if is_addressed(&chars, SectionKind::Other) {
        Some(SectionKind::Other)
    } else {
        None
    }
}

/// The text of every section of the release notes.
#[derive(Debug, PartialEq, Eq)]
pub struct Sections {
    pub language_relnotes: String,
    pub compiler_relnotes: String,
    pub libraries_relnotes: String,
    pub stabilized_apis_relnotes: String,
    pub const_stabilized_apis_relnotes: String,
    pub rustdoc_relnotes: String,
    pub compat_relnotes: String,
    pub internal_changes_relnotes: String,
    pub other_relnotes: String,
}

impl Sections {
    /// The text of one section.
    pub open spec fn text(&self, kind: SectionKind) -> Seq<char> {
        match kind {
            SectionKind::Language => self.language_relnotes@,
            SectionKind::Compiler => self.compiler_relnotes@,
            SectionKind::Libraries => self.libraries_relnotes@,
            SectionKind::StabilizedApis => self.stabilized_apis_relnotes@,
            SectionKind::ConstStabilizedApis => self.const_stabilized_apis_relnotes@,
            SectionKind::Rustdoc => self.rustdoc_relnotes@,
            SectionKind::CompatibilityNotes => self.compat_relnotes@,
            SectionKind::InternalChanges => self.internal_changes_relnotes@,
            SectionKind::Other => self.other_relnotes@,
        }
    }

    /// Sections without any text.
    pub fn new() -> (s: Sections)
        ensures
            forall|kind: SectionKind| #[trigger] s.text(kind) == Seq::<char>::empty(),
    {
        Sections {
            language_relnotes: String::new(),
            compiler_relnotes: String::new(),
            libraries_relnotes: String::new(),
            stabilized_apis_relnotes: String::new(),
            const_stabilized_apis_relnotes: String::new(),
            rustdoc_relnotes: String::new(),
            compat_relnotes: String::new(),
            internal_changes_relnotes: String::new(),
            other_relnotes: String::new(),
        }
    }

    /// Adds one line, and the line feed that ends it, to a section.
    pub fn push_line(&mut self, kind: SectionKind, line: &str)
        ensures
            final(self).text(kind) == old(self).text(kind) + line@ + seq!['\n'],
            forall|other: SectionKind|
                other != kind ==> #[trigger] final(self).text(other) == old(self).text(other),
    {
        proof {
            reveal_strlit("\n");
            assert("\n"@ =~= seq!['\n']);
        }
        match kind {
            SectionKind::Language => {
                self.language_relnotes.append(line);
                self.language_relnotes.append("\n");
            },
            SectionKind::Compiler => {
                self.compiler_relnotes.append(line);
                self.compiler_relnotes.append("\n");
            },
            SectionKind::Libraries => {
                self.libraries_relnotes.append(line);
                self.libraries_relnotes.append("\n");
            },
            SectionKind::StabilizedApis => {
                self.stabilized_apis_relnotes.append(line);
                self.stabilized_apis_relnotes.append("\n");
            },
            SectionKind::ConstStabilizedApis => {
                self.const_stabilized_apis_relnotes.append(line);
                self.const_stabilized_apis_relnotes.append("\n");
            },
            SectionKind::Rustdoc => {
                self.rustdoc_relnotes.append(line);
                self.rustdoc_relnotes.append("\n");
            },
            SectionKind::CompatibilityNotes => {
                self.compat_relnotes.append(line);
                self.compat_relnotes.append("\n");
            },
            SectionKind::InternalChanges => {
                self.internal_changes_relnotes.append(line);
                self.internal_changes_relnotes.append("\n");
            },
            SectionKind::Other => {
                self.other_relnotes.append(line);
                self.other_relnotes.append("\n");
            },
        }
    }
}

// ---------------------------------------------------------------------------
// Where a record goes
// ---------------------------------------------------------------------------

/// The section of a record that no tracking issue describes. The first rule
/// whose label the record carries decides.
pub open spec fn default_section(labels: Seq<Seq<char>>) -> SectionKind {
    if has_any_label(labels, seq!["C-future-compatibility"@]) {
        SectionKind::CompatibilityNotes
    } else if has_any_label(labels, seq!["T-libs"@, "T-libs-api"@]) {
        SectionKind::Libraries
    } else if has_any_label(labels, seq!["T-lang"@]) {
        SectionKind::Language
    } else if has_any_label(labels, seq!["T-compiler"@]) {
        SectionKind::Compiler
    } else {
        SectionKind::Other
    }
}

/// The line of a record that no tracking issue describes: a list item that
/// links the record's title to its URL.
pub open spec fn link_line(r: RecordView) -> Seq<char> {
    "- ["@ + r.title + "]("@ + r.url + "/)"@
}

/// What becomes of a record.
pub enum Placement {
    /// It gives no line: it is a tracking issue itself, or its tracking issue
    /// is closed.
    Excluded,
    /// Its lines are those of the tracking issue at this position.
    Override(int),
    /// It gives its link line to this section.
    Default(SectionKind),
}

/// What becomes of a record, given the tracking issues of the milestone.
pub open spec fn placement(r: RecordView, t: Seq<TrackingView>) -> Placement {
    if is_tracking_title(r.title) {
        Placement::Excluded
    } else {
        let at = first_index(for_numbers(t), r.number);
        if 0 <= at < t.len() {
            if t[at].raw.state == IssueState::Closed {
                Placement::Excluded
            } else {
                Placement::Override(at)
            }
        } else {
            Placement::Default(default_section(r.labels))
        }
    }
}

/// The lines that the sections of a tracking issue give to one output
/// section: those of every section that addresses it, in the order of the
/// sections.
pub open spec fn override_lines(sections: Seq<SectionView>, kind: SectionKind) -> Seq<Seq<char>>
    decreases sections.len(),
{
    if sections.len() == 0 {
        Seq::empty()
    } else {
        let last = sections.last();
        override_lines(sections.drop_last(), kind) + (if section_kind(last.name) == Some(kind) {
            last.lines
        } else {
            Seq::empty()
        })
    }
}

/// The lines that one record gives to one output section.
pub open spec fn contribution(r: RecordView, t: Seq<TrackingView>, kind: SectionKind) -> Seq<
    Seq<char>,
> {
    match placement(r, t) {
        Placement::Excluded => Seq::empty(),
        Placement::Override(at) => override_lines(t[at].sections, kind),
        Placement::Default(section) => if section == kind {
            seq![link_line(r)]
        } else {
            Seq::empty()
        },
    }
}

/// The lines of one output section: what each record gives it, in the order
/// of the records.
pub open spec fn section_lines(
    records: Seq<RecordView>,
    t: Seq<TrackingView>,
    kind: SectionKind,
) -> Seq<Seq<char>>
    decreases records.len(),
{
    if records.len() == 0 {
        Seq::empty()
    } else {
        section_lines(records.drop_last(), t, kind) + contribution(records.last(), t, kind)
    }
}

/// The text of a sequence of lines: each line, followed by a line feed.
pub open spec fn render(lines: Seq<Seq<char>>) -> Seq<char>
    decreases lines.len(),
{
    if lines.len() == 0 {
        Seq::empty()
    } else {
        render(lines.drop_last()) + lines.last() + seq!['\n']
    }
}

/// Rendering goes through concatenation.
pub proof fn lemma_render_add(a: Seq<Seq<char>>, b: Seq<Seq<char>>)
    ensures
        render(a + b) == render(a) + render(b),
    decreases b.len(),
{
    if b.len() == 0 {
        assert(a + b =~= a);
        assert(render(a) + render(b) =~= render(a));
    } else {
        lemma_render_add(a, b.drop_last());
        assert((a + b).drop_last() =~= a + b.drop_last());
        assert((a + b).last() == b.last());
        assert(render(a + b) =~= render(a) + render(b));
    }
}

/// Whether one of the records takes its lines from the tracking issue at
/// position `at`.
pub open spec fn taken(records: Seq<RecordView>, t: Seq<TrackingView>, at: int) -> bool {
    exists|n: int|
        0 <= n < records.len() && placement(#[trigger] records[n], t) == Placement::Override(at)
}

/// A section after its tracking issue was or was not taken: it is used if it
/// was used before, or if the issue was taken and the section addresses an
/// output section.
pub open spec fn mark_section(s: SectionView, was_taken: bool) -> SectionView {
    SectionView {
        name: s.name,
        used: s.used || (was_taken && section_kind(s.name) is Some),
        lines: s.lines,
    }
}

/// A tracking issue after it was or was not taken.
pub open spec fn mark_issue(issue: TrackingView, was_taken: bool) -> TrackingView {
    TrackingView {
        for_number: issue.for_number,
        raw: issue.raw,
        sections: Seq::new(
            issue.sections.len(),
            |j: int| mark_section(issue.sections[j], was_taken),
        ),
    }
}

/// The tracking issues after the records were sorted into sections: nothing
/// changes but the marks of the sections that were used.
pub open spec fn marked(t: Seq<TrackingView>, records: Seq<RecordView>) -> Seq<TrackingView> {
    Seq::new(t.len(), |i: int| mark_issue(t[i], taken(records, t, i)))
}

// ---------------------------------------------------------------------------
// Sorting
// ---------------------------------------------------------------------------

/// Finds the section of a record that no tracking issue describes.
pub fn default_section_of(record: &IssueRecord) -> (kind: SectionKind)
    ensures
        kind == default_section(record@.labels),
{
    let compatibility = ["C-future-compatibility"];
    let library = ["T-libs", "T-libs-api"];
    let language = ["T-lang"];
    let compiler = ["T-compiler"];
    assert(str_views(compatibility@) =~= seq!["C-future-compatibility"@]);
    assert(str_views(library@) =~= seq!["T-libs"@, "T-libs-api"@]);
    assert(str_views(language@) =~= seq!["T-lang"@]);
    assert(str_views(compiler@) =~= seq!["T-compiler"@]);
    if has_tags(record, &compatibility) {
        SectionKind::CompatibilityNotes
    } else if has_tags(record, &library) {
        SectionKind::Libraries
    } else if has_tags(record, &language) {
        SectionKind::Language
    } else if has_tags(record, &compiler) {
        SectionKind::Compiler
    } else {
        SectionKind::Other
    }
}

/// Writes the line of a record that no tracking issue describes.
pub fn link_line_of(record: &IssueRecord) -> (line: String)
    ensures
        line@ == link_line(record@),
{
    let mut line = String::new();
    line.append("- [");
    line.append(record.title.as_str());
    line.append("](");
    line.append(record.url.as_str());
    line.append("/)");
    assert(line@ =~= link_line(record@));
    line
}

/// Adds lines to one section, each followed by a line feed.
fn push_lines(by_section: &mut Sections, kind: SectionKind, lines: &Vec<String>)
    ensures
        final(by_section).text(kind) == old(by_section).text(kind) + render(string_views(lines@)),
        forall|other: SectionKind|
            other != kind ==> #[trigger] final(by_section).text(other) == old(by_section).text(
                other,
            ),
{
    let ghost all = string_views(lines@);
    let mut i: usize = 0;
    assert(all.take(0) =~= Seq::empty());
    assert(by_section.text(kind) =~= old(by_section).text(kind) + render(all.take(0)));
    while i < lines.len()
        invariant
            i <= lines@.len(),
            all == string_views(lines@),
            by_section.text(kind) == old(by_section).text(kind) + render(all.take(i as int)),
            forall|other: SectionKind|
                other != kind ==> #[trigger] by_section.text(other) == old(by_section).text(other),
        decreases lines@.len() - i,
    {
        let ghost before = by_section.text(kind);
        by_section.push_line(kind, lines[i].as_str());
        proof {
            let upto = all.take(i + 1);
            assert(upto.drop_last() =~= all.take(i as int));
            assert(upto.last() == lines@[i as int]@);
            assert(by_section.text(kind) =~= old(by_section).text(kind) + render(upto));
        }
        i += 1;
    }
    assert(all.take(lines@.len() as int) =~= all);
}

/// Takes the sections of one tracking issue: every section that addresses
/// an output section is marked as used and gives that section its lines.
fn take_sections(sections: &mut Vec<Section>, by_section: &mut Sections)
    ensures
        section_views(final(sections)@) == Seq::new(
            old(sections)@.len(),
            |j: int| mark_section(section_views(old(sections)@)[j], true),
        ),
        forall|kind: SectionKind| #[trigger]
            final(by_section).text(kind) == old(by_section).text(kind) + render(
                override_lines(section_views(old(sections)@), kind),
            ),
{
    let ghost before = section_views(sections@);
    let mut j: usize = 0;
    proof {
        assert(before.take(0) =~= Seq::empty());
        assert forall|kind: SectionKind| #[trigger]
            by_section.text(kind) == old(by_section).text(kind) + render(
                override_lines(before.take(0), kind),
            ) by {
            assert(old(by_section).text(kind) + Seq::<char>::empty() =~= old(by_section).text(
                kind,
            ));
        }
    }
    while j < sections.len()
        invariant
            j <= sections@.len(),
            before == section_views(old(sections)@),
            sections@.len() == before.len(),
            forall|k: int| 0 <= k < j ==> #[trigger] section_views(sections@)[k] == mark_section(
                before[k],
                true,
            ),
            forall|k: int|
                j <= k < before.len() ==> #[trigger] section_views(sections@)[k] == before[k],
            forall|kind: SectionKind| #[trigger]
                by_section.text(kind) == old(by_section).text(kind) + render(
                    override_lines(before.take(j as int), kind),
                ),
        decreases sections@.len() - j,
    {
        let ghost views = section_views(sections@);
        let ghost texts = *by_section;
        assert(views[j as int] == before[j as int]);
        assert(views[j as int] == sections@[j as int]@);
        let found = section_named(sections[j].name.as_str());
        proof {
            assert(before.take(j + 1).drop_last() =~= before.take(j as int));
            assert(before.take(j + 1).last() == before[j as int]);
        }
        match found {
            Some(kind) => {
                sections[j].used = true;
                push_lines(by_section, kind, &sections[j].lines);
                proof {
                    let after = section_views(sections@);
                    assert(after[j as int] == sections@[j as int]@);
                    assert(after[j as int] == mark_section(before[j as int], true));
                    assert forall|k: int| 0 <= k < before.len() && k != j implies after[k]
                        == views[k] by {
                        assert(after[k] == sections@[k]@);
                    }
                    assert forall|other: SectionKind| #[trigger]
                        by_section.text(other) == old(by_section).text(other) + render(
                            override_lines(before.take(j + 1), other),
                        ) by {
                        let earlier = override_lines(before.take(j as int), other);
                        if other == kind {
                            lemma_render_add(earlier, before[j as int].lines);
                            assert(by_section.text(other) =~= old(by_section).text(other) + render(
                                earlier + before[j as int].lines,
                            ));
                        } else {
                            assert(earlier + Seq::<Seq<char>>::empty() =~= earlier);
                        }
                    }
                }
            },
            None => {
                proof {
                    assert(mark_section(before[j as int], true) == before[j as int]);
                    assert forall|other: SectionKind| #[trigger]
                        by_section.text(other) == old(by_section).text(other) + render(
                            override_lines(before.take(j + 1), other),
                        ) by {
                        let earlier = override_lines(before.take(j as int), other);
                        assert(earlier + Seq::<Seq<char>>::empty() =~= earlier);
                    }
                }
            },
        }
        j += 1;
    }
    proof {
        assert(before.take(before.len() as int) =~= before);
        assert(section_views(sections@) =~= Seq::new(
            before.len(),
            |j: int| mark_section(before[j], true),
        ));
    }
}

/// One more record is taken from a tracking issue if the records before it
/// were, or if it is itself.
pub proof fn lemma_taken_push(records: Seq<RecordView>, r: RecordView, t: Seq<TrackingView>, at: int)
    ensures
        taken(records.push(r), t, at) == (taken(records, t, at) || placement(r, t)
            == Placement::Override(at)),
{
    let more = records.push(r);
    if taken(records, t, at) {
        let n = choose|n: int|
            0 <= n < records.len() && placement(#[trigger] records[n], t) == Placement::Override(
                at,
            );
        assert(more[n] == records[n]);
    }
    if placement(r, t) == Placement::Override(at) {
        assert(more[records.len() as int] == r);
    }
    if taken(more, t, at) {
        let n = choose|n: int|
            0 <= n < more.len() && placement(#[trigger] more[n], t) == Placement::Override(at);
        if n < records.len() {
            assert(more[n] == records[n]);
        } else {
            assert(more[n] == r);
        }
    }
}

/// Marking sections as used does not change the lines that they give.
pub proof fn lemma_override_lines_marked(
    sections: Seq<SectionView>,
    was_taken: bool,
    kind: SectionKind,
)
    ensures
        override_lines(Seq::new(sections.len(), |j: int| mark_section(sections[j], was_taken)), kind)
            == override_lines(sections, kind),
    decreases sections.len(),
{
    let after = Seq::new(sections.len(), |j: int| mark_section(sections[j], was_taken));
    if sections.len() > 0 {
        let shorter = sections.drop_last();
        lemma_override_lines_marked(shorter, was_taken, kind);
        assert(after.drop_last() =~= Seq::new(
            shorter.len(),
            |j: int| mark_section(shorter[j], was_taken),
        ));
        assert(after.last() == mark_section(sections.last(), was_taken));
    }
}

/// Marking does not change which record is taken from which tracking issue.
pub proof fn lemma_placement_marked(r: RecordView, t: Seq<TrackingView>, records: Seq<RecordView>)
    ensures
        placement(r, marked(t, records)) == placement(r, t),
{
    assert(for_numbers(marked(t, records)) =~= for_numbers(t));
}

/// A single line renders as the line and a line feed.
pub proof fn lemma_render_one(line: Seq<char>)
    ensures
        render(seq![line]) == line + seq!['\n'],
{
    let one = seq![line];
    assert(one.drop_last() =~= Seq::<Seq<char>>::empty());
    assert(one.last() == line);
    assert(render(one.drop_last()) =~= Seq::<char>::empty());
    assert(render(one) =~= line + seq!['\n']);
}

/// What a tracking issue looks like after one record was sorted: the issue
/// that the record was taken from has its sections marked, the others stay.
pub open spec fn marked_by(t: Seq<TrackingView>, r: RecordView) -> Seq<TrackingView> {
    match placement(r, t) {
        Placement::Override(at) => t.update(at, mark_issue(t[at], true)),
        _ => t,
    }
}

/// Sorting one record marks as `marked_by` says.
pub proof fn lemma_marked_one(t: Seq<TrackingView>, r: RecordView)
    ensures
        marked(t, seq![r]) == marked_by(t, r),
{
    let one = seq![r];
    let after = marked(t, one);
    let goal = marked_by(t, r);
    assert(after.len() == goal.len());
    assert forall|i: int| 0 <= i < t.len() implies after[i] == goal[i] by {
        assert(one[0] == r);
        if placement(r, t) == Placement::Override(i) {
            assert(taken(one, t, i));
        } else {
            assert(!taken(one, t, i));
            assert(mark_issue(t[i], false).sections =~= t[i].sections);
        }
    }
    assert(after =~= goal);
}

/// Sorting no record marks nothing.
pub proof fn lemma_marked_none(t: Seq<TrackingView>)
    ensures
        marked(t, Seq::empty()) == t,
{
    let after = marked(t, Seq::empty());
    assert forall|i: int| 0 <= i < t.len() implies after[i] == t[i] by {
        assert(!taken(Seq::<RecordView>::empty(), t, i));
        assert(mark_issue(t[i], false).sections =~= t[i].sections);
    }
    assert(after =~= t);
}

/// Marking keeps the tracking issues well formed: it changes neither the
/// records that they describe nor the names and lines of their sections.
pub proof fn lemma_marked_well_formed(t: Seq<TrackingView>, records: Seq<RecordView>)
    requires
        tracking_well_formed(t),
    ensures
        tracking_well_formed(marked(t, records)),
{
    let after = marked(t, records);
    assert forall|i: int, j: int| 0 <= i < j < after.len() implies (#[trigger] after[i]).for_number
        != (#[trigger] after[j]).for_number by {
        assert(t[i].for_number != t[j].for_number);
    }
    assert forall|i: int| 0 <= i < after.len() implies sections_well_formed(
        (#[trigger] after[i]).sections,
    ) by {
        let before = t[i].sections;
        let now = after[i].sections;
        assert(sections_well_formed(before));
        assert forall|a: int, b: int| 0 <= a < b < now.len() implies (#[trigger] now[a]).name != (
        #[trigger] now[b]).name by {
            assert(before[a].name != before[b].name);
        }
        assert forall|a: int| 0 <= a < now.len() implies (#[trigger] now[a]).lines.len() > 0 by {
            assert(before[a].lines.len() > 0);
        }
    }
}

/// Sorting records one after the other marks what sorting them together
/// marks.
pub proof fn lemma_marked_push(t: Seq<TrackingView>, seen: Seq<RecordView>, r: RecordView)
    ensures
        marked_by(marked(t, seen), r) == marked(t, seen.push(r)),
{
    let tc = marked(t, seen);
    let more = seen.push(r);
    let after = marked_by(tc, r);
    let goal = marked(t, more);
    lemma_placement_marked(r, t, seen);
    assert(after.len() == goal.len());
    assert forall|i: int| 0 <= i < t.len() implies after[i] == goal[i] by {
        lemma_taken_push(seen, r, t, i);
        if placement(r, t) == Placement::Override(i) {
            assert(after[i] == mark_issue(tc[i], true));
            assert(after[i].sections =~= goal[i].sections);
        } else {
            assert(after[i] == tc[i]);
        }
    }
    assert(after =~= goal);
}

/// Marking does not change what a record gives to a section.
pub proof fn lemma_contribution_marked(
    r: RecordView,
    t: Seq<TrackingView>,
    seen: Seq<RecordView>,
    kind: SectionKind,
)
    ensures
        contribution(r, marked(t, seen), kind) == contribution(r, t, kind),
{
    lemma_placement_marked(r, t, seen);
    match placement(r, t) {
        Placement::Override(at) => {
            lemma_override_lines_marked(t[at].sections, taken(seen, t, at), kind);
        },
        _ => {},
    }
}

impl TrackingIssues {
    /// Takes the sections of the tracking issue at position `at`; see
    /// `take_sections`.
    fn take(&mut self, at: usize, by_section: &mut Sections)
        requires
            at < old(self)@.len(),
        ensures
            final(self)@ == old(self)@.update(at as int, mark_issue(old(self)@[at as int], true)),
            forall|kind: SectionKind| #[trigger]
                final(by_section).text(kind) == old(by_section).text(kind) + render(
                    override_lines(old(self)@[at as int].sections, kind),
                ),
    {
        let ghost before = self@;
        assert(before[at as int] == self.issues@[at as int]@);
        take_sections(&mut self.issues[at].sections, by_section);
        proof {
            let now = self@;
            let goal = before.update(at as int, mark_issue(before[at as int], true));
            assert(now.len() == goal.len());
            assert forall|k: int| 0 <= k < now.len() implies now[k] == goal[k] by {
                assert(now[k] == self.issues@[k]@);
                assert(before[k] == old(self).issues@[k]@);
                if k == at {
                    assert(now[k].sections =~= goal[k].sections);
                }
            }
            assert(now =~= goal);
        }
    }
}

/// Sorts one record; see [`map_to_line_items`].
pub fn place_record(record: &IssueRecord, tracking: &mut TrackingIssues, by_section: &mut Sections)
    ensures
        final(tracking)@ == marked_by(old(tracking)@, record@),
        old(tracking).well_formed() ==> final(tracking).well_formed(),
        forall|kind: SectionKind| #[trigger]
            final(by_section).text(kind) == old(by_section).text(kind) + render(
                contribution(record@, old(tracking)@, kind),
            ),
{
    let ghost t = tracking@;
    let ghost r = record@;
    proof {
        lemma_marked_one(t, r);
        if tracking.well_formed() {
            lemma_marked_well_formed(t, seq![r]);
        }
    }
    if has_tracking_title(record.title.as_str()) {
        proof {
            assert forall|kind: SectionKind| #[trigger]
                by_section.text(kind) == old(by_section).text(kind) + render(
                    contribution(r, t, kind),
                ) by {
                assert(old(by_section).text(kind) + Seq::<char>::empty() =~= old(by_section).text(
                    kind,
                ));
            }
        }
        return ;
    }
    let at = tracking.position(record.number);
    if at < tracking.issues.len() {
        if tracking.issues[at].is_closed() {
            proof {
                assert(t[at as int] == tracking.issues@[at as int]@);
                assert forall|kind: SectionKind| #[trigger]
                    by_section.text(kind) == old(by_section).text(kind) + render(
                        contribution(r, t, kind),
                    ) by {
                    assert(old(by_section).text(kind) + Seq::<char>::empty() =~= old(
                        by_section,
                    ).text(kind));
                }
            }
        } else {
            assert(t[at as int] == tracking.issues@[at as int]@);
            tracking.take(at, by_section);
        }
    } else {
        let kind = default_section_of(record);
        let line = link_line_of(record);
        by_section.push_line(kind, line.as_str());
        proof {
            lemma_render_one(link_line(r));
            assert forall|other: SectionKind| #[trigger]
                by_section.text(other) == old(by_section).text(other) + render(
                    contribution(r, t, other),
                ) by {
                if other == kind {
                    assert(by_section.text(other) =~= old(by_section).text(other) + (link_line(r)
                        + seq!['\n']));
                } else {
                    assert(old(by_section).text(other) + Seq::<char>::empty() =~= old(
                        by_section,
                    ).text(other));
                }
            }
        }
    }
}

/// Sorts records into the sections of the release notes.
///
/// A record whose title begins like a tracking issue's gives nothing. A
/// record that a tracking issue describes gives nothing if that issue is
/// closed; otherwise every section of the issue that addresses an output
/// section is marked as used and gives that section its lines. Any other
/// record gives its link line to the section that its labels choose. Each
/// section receives what the records give it in the order of the records.
pub fn map_to_line_items(
    records: &[&IssueRecord],
    tracking: &mut TrackingIssues,
    by_section: &mut Sections,
)
    ensures
        final(tracking)@ == marked(old(tracking)@, borrowed_views(records@)),
        old(tracking).well_formed() ==> final(tracking).well_formed(),
        forall|kind: SectionKind| #[trigger]
            final(by_section).text(kind) == old(by_section).text(kind) + render(
                section_lines(borrowed_views(records@), old(tracking)@, kind),
            ),
{
    let ghost all = borrowed_views(records@);
    let ghost t0 = tracking@;
    let mut i: usize = 0;
    proof {
        if tracking.well_formed() {
            lemma_marked_well_formed(t0, all);
        }
        assert(all.take(0) =~= Seq::empty());
        lemma_marked_none(t0);
        assert forall|kind: SectionKind| #[trigger]
            by_section.text(kind) == old(by_section).text(kind) + render(
                section_lines(all.take(0), t0, kind),
            ) by {
            assert(old(by_section).text(kind) + Seq::<char>::empty() =~= old(by_section).text(
                kind,
            ));
        }
    }
    while i < records.len()
        invariant
            i <= records@.len(),
            all == borrowed_views(records@),
            t0 == old(tracking)@,
            tracking@ == marked(t0, all.take(i as int)),
            forall|kind: SectionKind| #[trigger]
                by_section.text(kind) == old(by_section).text(kind) + render(
                    section_lines(all.take(i as int), t0, kind),
                ),
        decreases records@.len() - i,
    {
        let record = records[i];
        let ghost r = record@;
        let ghost seen = all.take(i as int);
        let ghost more = all.take(i + 1);
        let ghost texts = *by_section;
        place_record(record, tracking, by_section);
        proof {
            assert(more =~= seen.push(r));
            assert(more.drop_last() =~= seen);
            assert(more.last() == r);
            lemma_marked_push(t0, seen, r);
            assert forall|kind: SectionKind| #[trigger]
                by_section.text(kind) == old(by_section).text(kind) + render(
                    section_lines(more, t0, kind),
                ) by {
                lemma_contribution_marked(r, t0, seen, kind);
                lemma_render_add(section_lines(seen, t0, kind), contribution(r, t0, kind));
                assert(by_section.text(kind) == texts.text(kind) + render(
                    contribution(r, t0, kind),
                ));
                assert(by_section.text(kind) =~= old(by_section).text(kind) + render(
                    section_lines(more, t0, kind),
                ));
            }
        }
        i += 1;
    }
    assert(all.take(records@.len() as int) =~= all);
}

/// Sorts records into fresh sections. See [`map_to_line_items`].
pub fn to_sections(records: &[&IssueRecord], tracking: &mut TrackingIssues) -> (out: Sections)
    ensures
        final(tracking)@ == marked(old(tracking)@, borrowed_views(records@)),
        old(tracking).well_formed() ==> final(tracking).well_formed(),
        forall|kind: SectionKind| #[trigger]
            out.text(kind) == render(section_lines(borrowed_views(records@), old(tracking)@, kind)),
{
    let mut by_section = Sections::new();
    map_to_line_items(records, tracking, &mut by_section);
    proof {
        assert forall|kind: SectionKind| #[trigger]
            by_section.text(kind) == render(
                section_lines(borrowed_views(records@), old(tracking)@, kind),
            ) by {
            let text = render(section_lines(borrowed_views(records@), old(tracking)@, kind));
            assert(Seq::<char>::empty() + text =~= text);
        }
    }
    by_section
}

} // verus!
