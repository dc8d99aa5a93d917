//! Issue and pull-request records, and the label tests on them.

use crate::text::str_eq;
use vstd::prelude::*;

verus! {

/// Whether an issue or pull request is still open.
#[derive(Debug, Clone, Copy, PartialEq, Eq, Structural)]
pub enum IssueState {
    Open,
    Closed,
}

/// One issue or pull request of a milestone.
#[derive(Debug, PartialEq, Eq)]
pub struct IssueRecord {
    pub number: u64,
    pub title: String,
    pub url: String,
    pub body: String,
    pub state: IssueState,
    pub labels: Vec<String>,
}

/// What a record holds, as mathematical values.
pub struct RecordView {
    pub number: u64,
    pub title: Seq<char>,
    pub url: Seq<char>,
    pub body: Seq<char>,
    pub state: IssueState,
    pub labels: Seq<Seq<char>>,
}

/// The texts of a sequence of strings.
pub open spec fn string_views(v: Seq<String>) -> Seq<Seq<char>> {
    v.map_values(|s: String| s@)
}

/// The texts of a sequence of string slices.
pub open spec fn str_views(v: Seq<&str>) -> Seq<Seq<char>> {
    v.map_values(|s: &str| s@)
}

impl View for IssueRecord {
    type V = RecordView;

    open spec fn view(&self) -> RecordView {
        RecordView {
            number: self.number,
            title: self.title@,
            url: self.url@,
            body: self.body@,
            state: self.state,
            labels: string_views(self.labels@),
        }
    }
}

/// The views of a sequence of records.
pub open spec fn record_views(v: Seq<IssueRecord>) -> Seq<RecordView> {
    v.map_values(|r: IssueRecord| r@)
}

/// The numbers of a sequence of records.
pub open spec fn record_numbers(records: Seq<RecordView>) -> Seq<u64> {
    records.map_values(|r: RecordView| r.number)
}

/// The views of a sequence of borrowed records.
pub open spec fn borrowed_views(v: Seq<&IssueRecord>) -> Seq<RecordView> {
    v.map_values(|r: &IssueRecord| r@)
}

/// Copies a vector of strings.
pub fn clone_strings(v: &Vec<String>) -> (out: Vec<String>)
    ensures
        string_views(out@) == string_views(v@),
{
    let mut out: Vec<String> = Vec::new();
    let mut i: usize = 0;
    while i < v.len()
        invariant
            i <= v@.len(),
            string_views(out@) == string_views(v@.take(i as int)),
        decreases v@.len() - i,
    {
        let ghost before = out@;
        let copy = v[i].clone();
        out.push(copy);
        i += 1;
        assert(string_views(before).len() == i - 1);
        assert forall|k: int| 0 <= k < i implies string_views(out@)[k] == string_views(
            v@.take(i as int),
        )[k] by {
            if k < i - 1 {
                assert(string_views(before)[k] == string_views(v@.take(i - 1))[k]);
            }
        }
        assert(string_views(out@) =~= string_views(v@.take(i as int)));
    }
    assert(v@.take(v@.len() as int) =~= v@);
    out
}

impl Clone for IssueRecord {
    fn clone(&self) -> (out: Self)
        ensures
            out@ == self@,
    {
        IssueRecord {
            number: self.number,
            title: self.title.clone(),
            url: self.url.clone(),
            body: self.body.clone(),
            state: self.state,
            labels: clone_strings(&self.labels),
        }
    }
}

impl IssueRecord {
    /// Whether the record is closed.
    pub fn is_closed(&self) -> (b: bool)
        ensures
            b == (self.state == IssueState::Closed),
    {
        match self.state {
            IssueState::Closed => true,
            IssueState::Open => false,
        }
    }
}

/// Whether one of `labels` equals one of `tags`, character for character.
pub open spec fn has_any_label(labels: Seq<Seq<char>>, tags: Seq<Seq<char>>) -> bool {
    exists|i: int, j: int|
        0 <= i < labels.len() && 0 <= j < tags.len() && #[trigger] labels[i] == #[trigger] tags[j]
}

/// Whether `label` is one of `tags`.
fn is_one_of(label: &str, tags: &[&str]) -> (b: bool)
    ensures
        b == exists|j: int| 0 <= j < tags@.len() && label@ == #[trigger] str_views(tags@)[j],
{
    let mut j: usize = 0;
    while j < tags.len()
        invariant
            j <= tags@.len(),
            forall|k: int| 0 <= k < j ==> label@ != #[trigger] str_views(tags@)[k],
        decreases tags@.len() - j,
    {
        if str_eq(label, tags[j]) {
            assert(str_views(tags@)[j as int] == label@);
            return true;
        }
        j += 1;
    }
    false
}

/// Whether the record carries at least one of the given labels. Labels are
/// compared exactly; case matters.
pub fn has_tags(record: &IssueRecord, tags: &[&str]) -> (b: bool)
    ensures
        b == has_any_label(record@.labels, str_views(tags@)),
{
    let ghost labels = record@.labels;
    let ghost wanted = str_views(tags@);
    let mut i: usize = 0;
    while i < record.labels.len()
        invariant
            i <= record.labels@.len(),
            labels == record@.labels,
            wanted == str_views(tags@),
            forall|a: int, j: int|
                0 <= a < i && 0 <= j < wanted.len() ==> #[trigger] labels[a] != #[trigger] wanted[j],
        decreases record.labels@.len() - i,
    {
        if is_one_of(record.labels[i].as_str(), tags) {
            assert(labels[i as int] == record.labels@[i as int]@);
            return true;
        }
        assert(labels[i as int] == record.labels@[i as int]@);
        i += 1;
    }
    false
}

/// The labels that take a record out of consideration altogether.
pub open spec fn skip_labels() -> Seq<Seq<char>> {
    seq!["rollup"@]
}

/// The labels that mark a record as worth a release note.
pub open spec fn relnotes_labels() -> Seq<Seq<char>> {
    seq!["relnotes"@, "relnotes-perf"@, "finished-final-comment-period"@, "needs-fcp"@]
}

/// Whether the record carries a skip label.
pub fn is_skipped(record: &IssueRecord) -> (b: bool)
    ensures
        b == has_any_label(record@.labels, skip_labels()),
{
    let tags = ["rollup"];
    assert(str_views(tags@) =~= skip_labels());
    has_tags(record, &tags)
}

/// Whether the record carries a label that asks for a release note.
pub fn is_relnotes(record: &IssueRecord) -> (b: bool)
    ensures
        b == has_any_label(record@.labels, relnotes_labels()),
{
    let tags = ["relnotes", "relnotes-perf", "finished-final-comment-period", "needs-fcp"];
    assert(str_views(tags@) =~= relnotes_labels());
    has_tags(record, &tags)
}

} // verus!
