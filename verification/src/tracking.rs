//! Tracking issues: issues whose title names another record and whose body
//! holds, in a fenced block, the release notes written for that record.

use crate::markdown::{find_markdown_block, markdown_block};
use crate::record::{record_views, string_views, IssueRecord, RecordView};
use crate::report::{diagnostic_views, Diagnostic, DiagnosticView, Fatal, FatalView};
use crate::search::{first_index, lemma_first_index, lemma_first_index_is};
use crate::text::{
    blank, chars_of, find_char, has_prefix, is_blank, lines, lines_of, parse_u64, parse_unsigned,
    starts_with, string_of, texts, trim, trimmed,
};
use vstd::prelude::*;

verus! {

// ---------------------------------------------------------------------------
// Titles
// ---------------------------------------------------------------------------

/// What the title of every tracking issue begins with. The number of the
/// record that the issue describes follows, up to the first colon.
pub const TRACKING_PREFIX: &'static str = "Tracking issue for release notes of #";

/// What a title says of its record.
#[derive(Debug, Clone, Copy, PartialEq, Eq, Structural)]
pub enum TitleKind {
    /// The record is no tracking issue.
    Ordinary,
    /// The record is the tracking issue of the record with this number.
    Tracking(u64),
    /// The title begins like a tracking issue's, and no colon follows or what
    /// stands before the colon is no unsigned number.
    Malformed,
}

/// Whether a title begins like the title of a tracking issue.
pub open spec fn is_tracking_title(title: Seq<char>) -> bool {
    starts_with(title, TRACKING_PREFIX@)
}

/// What a title says of its record.
pub open spec fn title_kind(title: Seq<char>) -> TitleKind {
    if is_tracking_title(title) {
        let tail = title.skip(TRACKING_PREFIX@.len() as int);
        let colon = first_index(tail, ':');
        if 0 <= colon < tail.len() {
            match parse_unsigned(tail.take(colon)) {
                Some(n) => TitleKind::Tracking(n),
                None => TitleKind::Malformed,
            }
        } else {
            TitleKind::Malformed
        }
    } else {
        TitleKind::Ordinary
    }
}

/// Decides whether a title begins like the title of a tracking issue.
pub fn has_tracking_title(title: &str) -> (b: bool)
    ensures
        b == is_tracking_title(title@),
{
    let chars = chars_of(title);
    let prefix = chars_of(TRACKING_PREFIX);
    has_prefix(&chars, &prefix)
}

/// Reads a title: whether it is a tracking issue's, and of which record.
pub fn classify_title(title: &str) -> (kind: TitleKind)
    ensures
        kind == title_kind(title@),
{
    let chars = chars_of(title);
    let prefix = chars_of(TRACKING_PREFIX);
    if !has_prefix(&chars, &prefix) {
        return TitleKind::Ordinary;
    }
    let start = prefix.len();
    let colon = find_char(&chars, start, ':');
    let ghost tail = title@.skip(start as int);
    proof {
        lemma_first_index(tail, ':');
    }
    if colon >= chars.len() {
        return TitleKind::Malformed;
    }
    assert(tail.take(colon - start) =~= chars@.subrange(start as int, colon as int));
    match parse_u64(&chars, start, colon) {
        Some(n) => TitleKind::Tracking(n),
        None => TitleKind::Malformed,
    }
}

// ---------------------------------------------------------------------------
// Sections
// ---------------------------------------------------------------------------

/// One named section of a tracking issue: its lines, in the order in which
/// the block holds them, and whether an output section has taken them.
#[derive(Debug, PartialEq, Eq)]
pub struct Section {
    pub name: String,
    pub used: bool,
    pub lines: Vec<String>,
}

/// A section as mathematical values.
pub struct SectionView {
    pub name: Seq<char>,
    pub used: bool,
    pub lines: Seq<Seq<char>>,
}

impl View for Section {
    type V = SectionView;

    open spec fn view(&self) -> SectionView {
        SectionView { name: self.name@, used: self.used, lines: string_views(self.lines@) }
    }
}

/// The views of a sequence of sections.
pub open spec fn section_views(v: Seq<Section>) -> Seq<SectionView> {
    v.map_values(|s: Section| s@)
}

/// The names of a sequence of sections.
pub open spec fn section_names(sections: Seq<SectionView>) -> Seq<Seq<char>> {
    sections.map_values(|s: SectionView| s.name)
}

/// A line that opens a section: a hash sign and a space, then the name.
pub open spec fn is_header(line: Seq<char>) -> bool {
    line.len() >= 2 && line[0] == '#' && line[1] == ' '
}

/// The name that a header line gives its section.
pub open spec fn header_name(line: Seq<char>) -> Seq<char> {
    trim(line.skip(2))
}

/// The sections after one more line for the section called `name`: the line
/// goes to the end of that section, which is opened at the end if it is new.
pub open spec fn add_line(sections: Seq<SectionView>, name: Seq<char>, line: Seq<char>) -> Seq<
    SectionView,
> {
    let i = first_index(section_names(sections), name);
    if 0 <= i < sections.len() {
        sections.update(
            i,
            SectionView { name: sections[i].name, used: sections[i].used, lines: sections[i].lines.push(line) },
        )
    } else {
        sections.push(SectionView { name: name, used: false, lines: seq![line] })
    }
}

/// Where the scan of a block stands: the section that the last header
/// opened, and the sections filled so far.
pub struct ScanState {
    pub current: Option<Seq<char>>,
    pub sections: Seq<SectionView>,
}

/// The scan after one more line. A blank line changes nothing; a header
/// makes its section the current one; any other line goes to the current
/// section, and is dropped while there is none.
pub open spec fn scan_line(state: ScanState, line: Seq<char>) -> ScanState {
    if is_blank(line) {
        state
    } else if is_header(line) {
        ScanState { current: Some(header_name(line)), sections: state.sections }
    } else {
        match state.current {
            Some(name) => ScanState {
                current: state.current,
                sections: add_line(state.sections, name, line),
            },
            None => state,
        }
    }
}

/// The scan of a sequence of lines, from the first to the last.
pub open spec fn scan(lines: Seq<Seq<char>>) -> ScanState
    decreases lines.len(),
{
    if lines.len() == 0 {
        ScanState { current: None, sections: Seq::empty() }
    } else {
        scan_line(scan(lines.drop_last()), lines.last())
    }
}

/// The sections that the text of a fenced block declares, none of them used.
pub open spec fn sections_of(block: Seq<char>) -> Seq<SectionView> {
    scan(lines(block)).sections
}

/// Decides whether a line opens a section.
fn header(line: &Vec<char>) -> (b: bool)
    ensures
        b == is_header(line@),
{
    line.len() >= 2 && line[0] == '#' && line[1] == ' '
}

/// Finds the section called `name`; gives the number of sections when there
/// is none.
fn find_section(sections: &Vec<Section>, name: &String) -> (at: usize)
    ensures
        at == first_index(section_names(section_views(sections@)), name@),
        at <= sections@.len(),
{
    let ghost names = section_names(section_views(sections@));
    let mut i: usize = 0;
    while i < sections.len()
        invariant
            i <= sections@.len(),
            names == section_names(section_views(sections@)),
            forall|j: int| 0 <= j < i ==> #[trigger] names[j] != name@,
        decreases sections@.len() - i,
    {
        assert(names[i as int] == sections@[i as int].name@);
        if sections[i].name == *name {
            proof {
                lemma_first_index_is(names, name@, i as int);
            }
            return i;
        }
        i += 1;
    }
    proof {
        lemma_first_index_is(names, name@, i as int);
    }
    i
}

/// Adds a line to the section called `name`, which is opened if it is new.
fn push_line(sections: &mut Vec<Section>, name: &String, line: String)
    ensures
        section_views(final(sections)@) == add_line(section_views(old(sections)@), name@, line@),
{
    let ghost before = section_views(sections@);
    let at = find_section(sections, name);
    if at < sections.len() {
        let ghost lines_before = string_views(sections@[at as int].lines@);
        sections[at].lines.push(line);
        proof {
            let after = section_views(sections@);
            let expected = add_line(before, name@, line@);
            assert(string_views(sections@[at as int].lines@) =~= lines_before.push(line@));
            assert(after.len() == expected.len());
            assert forall|j: int| 0 <= j < after.len() implies after[j] == expected[j] by {
                if j != at {
                    assert(after[j] == before[j]);
                }
            }
            assert(after =~= expected);
        }
    } else {
        let mut lines: Vec<String> = Vec::new();
        lines.push(line);
        assert(string_views(lines@) =~= seq![line@]);
        sections.push(Section { name: name.clone(), used: false, lines });
        assert(section_views(sections@) =~= add_line(before, name@, line@));
    }
}

/// Reads the sections that the text of a fenced block declares.
///
/// A line that begins with a hash sign and a space opens the section named by
/// the rest of the line, trimmed. Blank lines are skipped. Every other line
/// goes, as it stands, to the section opened last; lines before the first
/// header are dropped. Sections come in the order in which each first got a
/// line, and none is marked as used.
pub fn parse_sections(block: &str) -> (sections: Vec<Section>)
    ensures
        section_views(sections@) == sections_of(block@),
        sections_well_formed(section_views(sections@)),
{
    proof {
        lemma_scan_well_formed(lines(block@));
    }
    let chars = chars_of(block);
    let all = lines_of(&chars);
    let mut sections: Vec<Section> = Vec::new();
    let mut current: Option<String> = None;
    let mut i: usize = 0;
    assert(texts(all@).take(0) =~= Seq::empty());
    assert(section_views(sections@) =~= Seq::empty());
    while i < all.len()
        invariant
            i <= all@.len(),
            texts(all@) == lines(block@),
            scan(texts(all@).take(i as int)) == (ScanState {
                current: match current {
                    Some(name) => Some(name@),
                    None => None,
                },
                sections: section_views(sections@),
            }),
        decreases all@.len() - i,
    {
        let line = &all[i];
        proof {
            let upto = texts(all@).take(i + 1);
            assert(upto.drop_last() =~= texts(all@).take(i as int));
            assert(upto.last() == line@);
        }
        if blank(line) {
        } else if header(line) {
            current = Some(trimmed(line, 2));
        } else {
            match &current {
                Some(name) => {
                    assert(line@.subrange(0, line@.len() as int) =~= line@);
                    let text = string_of(line, 0, line.len());
                    push_line(&mut sections, name, text);
                },
                None => {},
            }
        }
        i += 1;
    }
    assert(texts(all@).take(all@.len() as int) =~= texts(all@));
    sections
}

// ---------------------------------------------------------------------------
// Tracking issues
// ---------------------------------------------------------------------------

/// A tracking issue: the number of the record that it describes, the record
/// that it was read from, and the sections that its body declares.
#[derive(Debug, PartialEq, Eq)]
pub struct TrackingIssue {
    pub for_number: u64,
    pub raw: IssueRecord,
    pub sections: Vec<Section>,
}

/// A tracking issue as mathematical values.
pub struct TrackingView {
    pub for_number: u64,
    pub raw: RecordView,
    pub sections: Seq<SectionView>,
}

impl View for TrackingIssue {
    type V = TrackingView;

    open spec fn view(&self) -> TrackingView {
        TrackingView {
            for_number: self.for_number,
            raw: self.raw@,
            sections: section_views(self.sections@),
        }
    }
}

/// The views of a sequence of tracking issues.
pub open spec fn tracking_views(v: Seq<TrackingIssue>) -> Seq<TrackingView> {
    v.map_values(|t: TrackingIssue| t@)
}

/// The numbers that a sequence of tracking issues describes.
pub open spec fn for_numbers(t: Seq<TrackingView>) -> Seq<u64> {
    t.map_values(|issue: TrackingView| issue.for_number)
}

/// The tracking issues of a milestone, each found by the number of the record
/// that it describes. They stand in the order in which a number first got a
/// tracking issue.
#[derive(Debug, PartialEq, Eq)]
pub struct TrackingIssues {
    pub issues: Vec<TrackingIssue>,
}

impl View for TrackingIssues {
    type V = Seq<TrackingView>;

    open spec fn view(&self) -> Seq<TrackingView> {
        tracking_views(self.issues@)
    }
}

/// The tracking issue that a record gives: its title must name a target, and
/// its body must hold a fenced block.
pub open spec fn tracking_of(r: RecordView) -> Option<TrackingView> {
    match title_kind(r.title) {
        TitleKind::Tracking(n) => match markdown_block(r.body) {
            Some(block) => Some(
                TrackingView { for_number: n, raw: r, sections: sections_of(block) },
            ),
            None => None,
        },
        _ => None,
    }
}

/// The tracking issues after one more: it takes the place of the one that
/// describes the same number, and goes to the end if there is none.
pub open spec fn insert_tracking(t: Seq<TrackingView>, issue: TrackingView) -> Seq<TrackingView> {
    let i = first_index(for_numbers(t), issue.for_number);
    if 0 <= i < t.len() {
        t.update(i, issue)
    } else {
        t.push(issue)
    }
}

/// The tracking issues that a list of records gives, read from the first
/// record to the last.
pub open spec fn collected(records: Seq<RecordView>) -> Seq<TrackingView>
    decreases records.len(),
{
    if records.len() == 0 {
        Seq::empty()
    } else {
        let before = collected(records.drop_last());
        match tracking_of(records.last()) {
            Some(issue) => insert_tracking(before, issue),
            None => before,
        }
    }
}

/// What the title of each record says of it.
pub open spec fn title_kinds(records: Seq<RecordView>) -> Seq<TitleKind> {
    records.map_values(|r: RecordView| title_kind(r.title))
}

/// The position of the first record with a malformed tracking title, or the
/// number of records when no title is malformed.
pub open spec fn first_malformed(records: Seq<RecordView>) -> int {
    first_index(title_kinds(records), TitleKind::Malformed)
}

/// A record that is a tracking issue by its title, and whose body holds no
/// fenced block.
pub open spec fn lacks_markdown(r: RecordView) -> bool {
    title_kind(r.title) is Tracking && markdown_block(r.body) is None
}

/// The diagnostics for the tracking issues without a fenced block, in the
/// order of the records.
pub open spec fn missing_markdown(records: Seq<RecordView>) -> Seq<DiagnosticView>
    decreases records.len(),
{
    if records.len() == 0 {
        Seq::empty()
    } else {
        let before = missing_markdown(records.drop_last());
        let r = records.last();
        if lacks_markdown(r) {
            before.push(
                DiagnosticView::MarkdownNotFound { number: r.number, title: r.title, body: r.body },
            )
        } else {
            before
        }
    }
}

impl TrackingIssue {
    /// The tracking issue of the record numbered `for_number`, read from
    /// `record` and from the text of the fenced block of its body.
    pub fn parse(record: &IssueRecord, for_number: u64, block: &str) -> (issue: TrackingIssue)
        ensures
            issue@ == (TrackingView {
                for_number: for_number,
                raw: record@,
                sections: sections_of(block@),
            }),
            sections_well_formed(issue@.sections),
    {
        TrackingIssue { for_number, raw: record.clone(), sections: parse_sections(block) }
    }

    /// Whether the record that this tracking issue was read from is closed.
    pub fn is_closed(&self) -> (b: bool)
        ensures
            b == (self@.raw.state == crate::record::IssueState::Closed),
    {
        self.raw.is_closed()
    }
}

impl TrackingIssues {
    /// No tracking issues.
    pub fn new() -> (t: TrackingIssues)
        ensures
            t@ == Seq::<TrackingView>::empty(),
            t.well_formed(),
    {
        let t = TrackingIssues { issues: Vec::new() };
        assert(t@ =~= Seq::<TrackingView>::empty());
        t
    }

    /// The position of the tracking issue that describes record `number`;
    /// the number of tracking issues when there is none.
    pub fn position(&self, number: u64) -> (at: usize)
        ensures
            at == first_index(for_numbers(self@), number),
            at <= self@.len(),
            at < self@.len() ==> self@[at as int].for_number == number,
    {
        let ghost numbers = for_numbers(self@);
        let mut i: usize = 0;
        while i < self.issues.len()
            invariant
                i <= self.issues@.len(),
                numbers == for_numbers(self@),
                forall|j: int| 0 <= j < i ==> #[trigger] numbers[j] != number,
            decreases self.issues@.len() - i,
        {
            assert(numbers[i as int] == self.issues@[i as int].for_number);
            if self.issues[i].for_number == number {
                proof {
                    lemma_first_index_is(numbers, number, i as int);
                }
                return i;
            }
            i += 1;
        }
        proof {
            lemma_first_index_is(numbers, number, i as int);
        }
        i
    }

    /// Adds a tracking issue. It takes the place of the one that describes
    /// the same number, if there is one.
    pub fn insert(&mut self, issue: TrackingIssue)
        ensures
            final(self)@ == insert_tracking(old(self)@, issue@),
            old(self).well_formed() && sections_well_formed(issue@.sections)
                ==> final(self).well_formed(),
    {
        let ghost before = self@;
        proof {
            if self.well_formed() && sections_well_formed(issue@.sections) {
                lemma_insert_well_formed(before, issue@);
            }
        }
        let at = self.position(issue.for_number);
        if at < self.issues.len() {
            self.issues[at] = issue;
            assert(self@ =~= before.update(at as int, issue@));
        } else {
            self.issues.push(issue);
            assert(self@ =~= before.push(issue@));
        }
    }

    /// Reads the tracking issues out of the records of a milestone.
    ///
    /// A record is a tracking issue when its title begins with
    /// `TRACKING_PREFIX`; the number up to the first colon is the record that
    /// it describes. A title that names no such number is fatal: the first
    /// such record is returned as the error. A tracking issue whose body
    /// holds no fenced block is left out, and a diagnostic is added for it.
    /// Of two tracking issues for one number the later one stays.
    pub fn collect(all: &[IssueRecord], diagnostics: &mut Vec<Diagnostic>) -> (out: Result<
        TrackingIssues,
        Fatal,
    >)
        ensures
            match out {
                Ok(t) => {
                    &&& first_malformed(record_views(all@)) == all@.len()
                    &&& t@ == collected(record_views(all@))
                    &&& t.well_formed()
                    &&& diagnostic_views(final(diagnostics)@) == diagnostic_views(old(diagnostics)@)
                        + missing_markdown(record_views(all@))
                },
                Err(e) => {
                    let k = first_malformed(record_views(all@));
                    &&& 0 <= k < all@.len()
                    &&& e@ == (FatalView::MalformedTrackingTitle {
                        number: all@[k].number,
                        title: all@[k].title@,
                        url: all@[k].url@,
                    })
                    &&& diagnostic_views(final(diagnostics)@) == diagnostic_views(old(diagnostics)@)
                        + missing_markdown(record_views(all@).take(k))
                },
            },
    {
        let ghost records = record_views(all@);
        let ghost kinds = title_kinds(records);
        let ghost reported = diagnostic_views(diagnostics@);
        let mut tracking = TrackingIssues::new();
        let mut i: usize = 0;
        assert(records.take(0) =~= Seq::empty());
        assert(diagnostic_views(diagnostics@) =~= reported + missing_markdown(records.take(0)));
        while i < all.len()
            invariant
                i <= all@.len(),
                records == record_views(all@),
                kinds == title_kinds(records),
                reported == diagnostic_views(old(diagnostics)@),
                forall|j: int| 0 <= j < i ==> #[trigger] kinds[j] != TitleKind::Malformed,
                tracking@ == collected(records.take(i as int)),
                diagnostic_views(diagnostics@) == reported + missing_markdown(
                    records.take(i as int),
                ),
            decreases all@.len() - i,
        {
            let record = &all[i];
            let ghost before = diagnostic_views(diagnostics@);
            proof {
                let upto = records.take(i + 1);
                assert(upto.drop_last() =~= records.take(i as int));
                assert(upto.last() == record@);
                assert(kinds[i as int] == title_kind(record@.title));
            }
            match classify_title(record.title.as_str()) {
                TitleKind::Ordinary => {},
                TitleKind::Malformed => {
                    proof {
                        lemma_first_index_is(kinds, TitleKind::Malformed, i as int);
                        assert(first_malformed(record_views(all@)) == i);
                        assert(record@ == all@[i as int]@);
                    }
                    return Err(
                        Fatal::MalformedTrackingTitle {
                            number: record.number,
                            title: record.title.clone(),
                            url: record.url.clone(),
                        },
                    );
                },
                TitleKind::Tracking(for_number) => {
                    match find_markdown_block(record.body.as_str()) {
                        Some(block) => {
                            let issue = TrackingIssue::parse(record, for_number, block.as_str());
                            tracking.insert(issue);
                        },
                        None => {
                            let note = Diagnostic::MarkdownNotFound {
                                number: record.number,
                                title: record.title.clone(),
                                body: record.body.clone(),
                            };
                            diagnostics.push(note);
                            assert(diagnostic_views(diagnostics@) =~= before.push(note@));
                        },
                    }
                },
            }
            i += 1;
        }
        proof {
            assert(records.take(all@.len() as int) =~= records);
            lemma_first_index_is(kinds, TitleKind::Malformed, all@.len() as int);
            lemma_collected_well_formed(records);
        }
        Ok(tracking)
    }
}

// ---------------------------------------------------------------------------
// What holds of collected tracking issues
// ---------------------------------------------------------------------------

/// Sections of which none is marked as used.
pub open spec fn all_unused(sections: Seq<SectionView>) -> bool {
    forall|j: int| 0 <= j < sections.len() ==> !(#[trigger] sections[j]).used
}

/// Tracking issues of which no section is marked as used.
pub open spec fn none_used(t: Seq<TrackingView>) -> bool {
    forall|i: int| 0 <= i < t.len() ==> all_unused((#[trigger] t[i]).sections)
}

/// Adding a line marks nothing as used.
pub proof fn lemma_add_line_unused(sections: Seq<SectionView>, name: Seq<char>, line: Seq<char>)
    requires
        all_unused(sections),
    ensures
        all_unused(add_line(sections, name, line)),
{
    let after = add_line(sections, name, line);
    lemma_first_index(section_names(sections), name);
    assert forall|j: int| 0 <= j < after.len() implies !(#[trigger] after[j]).used by {
        if j < sections.len() {
            assert(!sections[j].used);
        }
    }
}

/// The sections that a block declares are not marked as used.
pub proof fn lemma_scan_unused(lines: Seq<Seq<char>>)
    ensures
        all_unused(scan(lines).sections),
    decreases lines.len(),
{
    if lines.len() > 0 {
        let before = scan(lines.drop_last());
        lemma_scan_unused(lines.drop_last());
        match before.current {
            Some(name) => {
                lemma_add_line_unused(before.sections, name, lines.last());
            },
            None => {},
        }
    }
}

/// No section of a freshly collected tracking issue is marked as used.
pub proof fn lemma_collected_unused(records: Seq<RecordView>)
    ensures
        none_used(collected(records)),
    decreases records.len(),
{
    if records.len() > 0 {
        let before = collected(records.drop_last());
        lemma_collected_unused(records.drop_last());
        match tracking_of(records.last()) {
            Some(issue) => {
                lemma_scan_unused(lines(markdown_block(records.last().body).unwrap()));
                lemma_first_index(for_numbers(before), issue.for_number);
                let after = insert_tracking(before, issue);
                assert forall|i: int| 0 <= i < after.len() implies all_unused(
                    (#[trigger] after[i]).sections,
                ) by {
                    if i < before.len() && after[i] != issue {
                        assert(after[i] == before[i]);
                    }
                }
            },
            None => {},
        }
    }
}

// ---------------------------------------------------------------------------
// Well-formedness
// ---------------------------------------------------------------------------

/// Sections with pairwise different names, each with at least one line.
pub open spec fn sections_well_formed(sections: Seq<SectionView>) -> bool {
    &&& forall|i: int, j: int|
        0 <= i < j < sections.len() ==> (#[trigger] sections[i]).name != (#[trigger] sections[j]).name
    &&& forall|i: int| 0 <= i < sections.len() ==> (#[trigger] sections[i]).lines.len() > 0
}

/// Adding a line keeps the sections well formed.
pub proof fn lemma_add_line_well_formed(sections: Seq<SectionView>, name: Seq<char>, line: Seq<char>)
    requires
        sections_well_formed(sections),
    ensures
        sections_well_formed(add_line(sections, name, line)),
{
    let names = section_names(sections);
    let at = first_index(names, name);
    lemma_first_index(names, name);
    let after = add_line(sections, name, line);
    assert forall|i: int, j: int| 0 <= i < j < after.len() implies (#[trigger] after[i]).name != (
    #[trigger] after[j]).name by {
        if j < sections.len() {
            assert(sections[i].name != sections[j].name);
        } else {
            assert(names[i] == sections[i].name);
        }
    }
    assert forall|i: int| 0 <= i < after.len() implies (#[trigger] after[i]).lines.len() > 0 by {
        if i < sections.len() && i != at {
            assert(sections[i].lines.len() > 0);
        }
    }
}

/// The sections that a scan fills are well formed.
pub proof fn lemma_scan_well_formed(all: Seq<Seq<char>>)
    ensures
        sections_well_formed(scan(all).sections),
    decreases all.len(),
{
    if all.len() > 0 {
        let before = scan(all.drop_last());
        lemma_scan_well_formed(all.drop_last());
        match before.current {
            Some(name) => {
                lemma_add_line_well_formed(before.sections, name, all.last());
            },
            None => {},
        }
    }
}

/// Tracking issues that describe pairwise different records.
pub open spec fn targets_distinct(t: Seq<TrackingView>) -> bool {
    forall|i: int, j: int|
        0 <= i < j < t.len() ==> (#[trigger] t[i]).for_number != (#[trigger] t[j]).for_number
}

/// Adding a tracking issue keeps the described records different.
pub proof fn lemma_insert_distinct(t: Seq<TrackingView>, issue: TrackingView)
    requires
        targets_distinct(t),
    ensures
        targets_distinct(insert_tracking(t, issue)),
{
    let numbers = for_numbers(t);
    let at = first_index(numbers, issue.for_number);
    lemma_first_index(numbers, issue.for_number);
    let after = insert_tracking(t, issue);
    assert forall|i: int, j: int| 0 <= i < j < after.len() implies (#[trigger] after[i]).for_number
        != (#[trigger] after[j]).for_number by {
        if 0 <= at < t.len() {
            assert(numbers[at] == t[at].for_number);
            assert(after[i].for_number == t[i].for_number);
            assert(after[j].for_number == t[j].for_number);
            assert(t[i].for_number != t[j].for_number);
        } else if j < t.len() {
            assert(t[i].for_number != t[j].for_number);
        } else {
            assert(numbers[i] == t[i].for_number);
        }
    }
}

/// Tracking issues that form a mapping: no two describe one record, and the
/// sections of each form a mapping from names to lines.
pub open spec fn tracking_well_formed(t: Seq<TrackingView>) -> bool {
    &&& targets_distinct(t)
    &&& forall|i: int| 0 <= i < t.len() ==> sections_well_formed((#[trigger] t[i]).sections)
}

/// Adding a tracking issue with well-formed sections keeps the collection
/// well formed.
pub proof fn lemma_insert_well_formed(t: Seq<TrackingView>, issue: TrackingView)
    requires
        tracking_well_formed(t),
        sections_well_formed(issue.sections),
    ensures
        tracking_well_formed(insert_tracking(t, issue)),
{
    lemma_insert_distinct(t, issue);
    lemma_first_index(for_numbers(t), issue.for_number);
    let after = insert_tracking(t, issue);
    assert forall|i: int| 0 <= i < after.len() implies sections_well_formed(
        (#[trigger] after[i]).sections,
    ) by {
        if i < t.len() && after[i] != issue {
            assert(after[i] == t[i]);
        }
    }
}

/// The collected tracking issues are well formed.
pub proof fn lemma_collected_well_formed(records: Seq<RecordView>)
    ensures
        tracking_well_formed(collected(records)),
    decreases records.len(),
{
    if records.len() > 0 {
        lemma_collected_well_formed(records.drop_last());
        match tracking_of(records.last()) {
            Some(issue) => {
                lemma_scan_well_formed(lines(markdown_block(records.last().body).unwrap()));
                lemma_insert_well_formed(collected(records.drop_last()), issue);
            },
            None => {},
        }
    }
}

impl TrackingIssues {
    /// Whether the collection is the mapping that it stands for: no two
    /// tracking issues describe one record, no two sections of a tracking
    /// issue have one name, and no section is empty.
    pub open spec fn well_formed(&self) -> bool {
        tracking_well_formed(self@)
    }
}

} // verus!
