//! What is done with the records that the issue tracker hands out: following
//! its pages, and merging issues and pull requests into one list.

use crate::record::{record_numbers, record_views, IssueRecord, RecordView};
use crate::report::{Fatal, FatalView};
use crate::search::first_index;
use crate::text::{chars_of, string_of};
use vstd::prelude::*;

verus! {

// ---------------------------------------------------------------------------
// Merging
// ---------------------------------------------------------------------------

/// Records in strictly ascending order of their numbers.
pub open spec fn strictly_ascending(records: Seq<RecordView>) -> bool {
    forall|i: int, j: int|
        0 <= i < j < records.len() ==> (#[trigger] records[i]).number < (#[trigger] records[j]).number
}

/// Whether `out` is the merged form of `input`: in strictly ascending order
/// of the numbers, with one record for every number of `input`, which is the
/// first record of `input` with that number.
pub open spec fn is_merge_of(out: Seq<RecordView>, input: Seq<RecordView>) -> bool {
    &&& strictly_ascending(out)
    &&& forall|k: int|
        0 <= k < out.len() ==> {
            let first = first_index(record_numbers(input), (#[trigger] out[k]).number);
            0 <= first < input.len() && out[k] == input[first]
        }
    &&& forall|i: int|
        0 <= i < input.len() ==> exists|k: int|
            0 <= k < out.len() && (#[trigger] out[k]).number == (#[trigger] input[i]).number
}

/// Finds where a number stands, or would stand, among records in ascending
/// order: the first position whose number is not smaller.
fn lower_bound(out: &Vec<IssueRecord>, number: u64) -> (at: usize)
    requires
        strictly_ascending(record_views(out@)),
    ensures
        at <= out@.len(),
        forall|k: int| 0 <= k < at ==> (#[trigger] record_views(out@)[k]).number < number,
        forall|k: int|
            at <= k < out@.len() ==> (#[trigger] record_views(out@)[k]).number >= number,
{
    let ghost views = record_views(out@);
    let mut at: usize = 0;
    while at < out.len() && out[at].number < number
        invariant
            at <= out@.len(),
            views == record_views(out@),
            strictly_ascending(views),
            forall|k: int| 0 <= k < at ==> (#[trigger] views[k]).number < number,
        decreases out@.len() - at,
    {
        assert(views[at as int].number == out@[at as int].number);
        at += 1;
    }
    proof {
        if at < out@.len() {
            assert(views[at as int].number == out@[at as int].number);
            assert forall|k: int| at <= k < out@.len() implies (#[trigger] views[k]).number
                >= number by {
                if k > at {
                    assert(views[at as int].number < views[k].number);
                }
            }
        }
    }
    at
}

/// Puts one record in front of the input that `out` is the merged form of.
fn merge_one(out: &mut Vec<IssueRecord>, record: IssueRecord, Ghost(input): Ghost<Seq<RecordView>>)
    requires
        is_merge_of(record_views(old(out)@), input),
    ensures
        is_merge_of(record_views(final(out)@), seq![record@] + input),
{
    let ghost before = record_views(out@);
    let ghost r = record@;
    let ghost more = seq![r] + input;
    let ghost numbers = record_numbers(input);
    let ghost more_numbers = record_numbers(more);
    let at = lower_bound(out, record.number);
    let same = at < out.len() && out[at].number == record.number;
    proof {
        if at < out@.len() {
            assert(before[at as int].number == out@[at as int].number);
        }
        assert(more_numbers =~= seq![r.number] + numbers);
        assert forall|n: u64| n != r.number implies first_index(more_numbers, n) == 1 + first_index(
            numbers,
            n,
        ) by {
            assert(more_numbers.drop_first() =~= numbers);
        }
        assert(first_index(more_numbers, r.number) == 0);
    }
    if same {
        out[at] = record;
    } else {
        out.insert(at, record);
    }
    proof {
        let after = record_views(out@);
        assert(after[at as int] == r);
        if same {
            assert(after =~= before.update(at as int, r));
        } else {
            assert(after =~= before.insert(at as int, r));
        }
        assert forall|i: int, j: int| 0 <= i < j < after.len() implies (#[trigger] after[i]).number
            < (#[trigger] after[j]).number by {
            if same {
                if i != at {
                    assert(after[i] == before[i]);
                }
                if j != at {
                    assert(after[j] == before[j]);
                }
                assert(before[i].number < before[j].number);
            } else {
                let bi = if i < at { i } else { i - 1 };
                let bj = if j < at { j } else { j - 1 };
                if i != at {
                    assert(after[i] == before[bi]);
                }
                if j != at {
                    assert(after[j] == before[bj]);
                }
                if i != at && j != at {
                    assert(before[bi].number < before[bj].number);
                }
            }
        }
        assert forall|k: int| 0 <= k < after.len() implies {
            let first = first_index(more_numbers, (#[trigger] after[k]).number);
            0 <= first < more.len() && after[k] == more[first]
        } by {
            if k == at {
                assert(more[0] == r);
            } else {
                let bk = if same || k < at { k } else { k - 1 };
                assert(after[k] == before[bk]);
                let first = first_index(numbers, before[bk].number);
                assert(0 <= first < input.len() && before[bk] == input[first]);
                assert(before[bk].number != r.number) by {
                    if same {
                        if bk < at {
                            assert(before[bk].number < before[at as int].number);
                        } else {
                            assert(before[at as int].number < before[bk].number);
                        }
                    }
                }
                assert(more[1 + first] == input[first]);
            }
        }
        assert forall|i: int| 0 <= i < more.len() implies exists|k: int|
            0 <= k < after.len() && (#[trigger] after[k]).number == (#[trigger] more[i]).number by {
            if i == 0 {
                assert(after[at as int].number == more[0].number);
            } else {
                assert(more[i] == input[i - 1]);
                let k = choose|k: int|
                    0 <= k < before.len() && (#[trigger] before[k]).number == input[i - 1].number;
                if same {
                    if k == at {
                        assert(after[at as int].number == more[i].number);
                    } else {
                        assert(after[k] == before[k]);
                    }
                } else {
                    let ak = if k < at { k } else { k + 1 };
                    assert(after[ak] == before[k]);
                }
            }
        }
    }
}

/// Puts the records of `source`, in their order, in front of the input that
/// `out` is the merged form of.
fn merge_all(out: &mut Vec<IssueRecord>, source: Vec<IssueRecord>, Ghost(input): Ghost<Seq<RecordView>>)
    requires
        is_merge_of(record_views(old(out)@), input),
    ensures
        is_merge_of(record_views(final(out)@), record_views(source@) + input),
{
    let mut rest = source;
    let ghost all = record_views(source@);
    let ghost mut done: Seq<RecordView> = Seq::empty();
    assert(done + input =~= input);
    assert(record_views(rest@) + done =~= all);
    while rest.len() > 0
        invariant
            record_views(rest@) + done == all,
            is_merge_of(record_views(out@), done + input),
        decreases rest@.len(),
    {
        let ghost before = record_views(rest@);
        let last = rest.pop();
        match last {
            Some(record) => {
                assert(before.last() == record@);
                assert(record_views(rest@) =~= before.drop_last());
                merge_one(out, record, Ghost(done + input));
                proof {
                    assert(seq![record@] + (done + input) =~= (seq![record@] + done) + input);
                    done = seq![record@] + done;
                    assert(record_views(rest@) + done =~= all);
                }
            },
            None => {},
        }
    }
    assert(done =~= all);
}

/// Merges the issues and the pull requests of a milestone into one list, in
/// ascending order of their numbers. Of several records with one number the
/// first stays, issues before pull requests.
pub fn merge_records(issues: Vec<IssueRecord>, pull_requests: Vec<IssueRecord>) -> (out: Vec<
    IssueRecord,
>)
    ensures
        is_merge_of(record_views(out@), record_views(issues@) + record_views(pull_requests@)),
{
    let mut out: Vec<IssueRecord> = Vec::new();
    let ghost none: Seq<RecordView> = Seq::empty();
    assert(record_views(out@) =~= Seq::empty());
    merge_all(&mut out, pull_requests, Ghost(none));
    assert(record_views(pull_requests@) + none =~= record_views(pull_requests@));
    merge_all(&mut out, issues, Ghost(record_views(pull_requests@)));
    out
}

// ---------------------------------------------------------------------------
// Pages
// ---------------------------------------------------------------------------

/// The two kinds of records that a milestone holds.
#[derive(Debug, Clone, Copy, PartialEq, Eq, Structural)]
pub enum RecordKind {
    Issues,
    PullRequests,
}

/// One page of the tracker's answer: how many milestones matched the query,
/// the records of the page, and the cursor before which the next page lies,
/// if there is one.
#[derive(Debug, PartialEq, Eq)]
pub struct Page {
    pub total_count: u64,
    pub records: Vec<IssueRecord>,
    pub start_cursor: Option<String>,
}

/// How far the records of one kind have been fetched.
#[derive(Debug, PartialEq, Eq)]
pub struct Paging {
    pub kind: RecordKind,
    pub before: Option<String>,
    pub records: Vec<IssueRecord>,
    pub finished: bool,
}

/// The state of the paging as mathematical values.
pub struct PagingView {
    pub kind: RecordKind,
    pub before: Option<Seq<char>>,
    pub records: Seq<RecordView>,
    pub finished: bool,
}

/// The text of an optional string.
pub open spec fn optional_text(s: Option<String>) -> Option<Seq<char>> {
    match s {
        Some(text) => Some(text@),
        None => None,
    }
}

impl View for Paging {
    type V = PagingView;

    open spec fn view(&self) -> PagingView {
        PagingView {
            kind: self.kind,
            before: optional_text(self.before),
            records: record_views(self.records@),
            finished: self.finished,
        }
    }
}

impl Paging {
    /// The state before the first page.
    pub fn new(kind: RecordKind) -> (state: Paging)
        ensures
            state@ == (PagingView {
                kind: kind,
                before: None,
                records: Seq::empty(),
                finished: false,
            }),
    {
        let state = Paging { kind, before: None, records: Vec::new(), finished: false };
        assert(state@.records =~= Seq::empty());
        state
    }

    /// Takes one page in. A page whose query did not match exactly one
    /// milestone is fatal and leaves the state as it was. Otherwise the
    /// records of the page follow those fetched so far, and the page's cursor
    /// says where the next page lies; without a cursor the paging is
    /// finished. The result says whether another page is to be fetched.
    pub fn accept(&mut self, page: Page) -> (out: Result<bool, Fatal>)
        ensures
            match out {
                Ok(more) => {
                    &&& page.total_count == 1
                    &&& final(self)@ == (PagingView {
                        kind: old(self)@.kind,
                        before: optional_text(page.start_cursor),
                        records: old(self)@.records + record_views(page.records@),
                        finished: page.start_cursor is None,
                    })
                    &&& more == page.start_cursor is Some
                },
                Err(e) => {
                    &&& page.total_count != 1
                    &&& e@ == FatalView::AmbiguousMilestone { matches: page.total_count }
                    &&& final(self)@ == old(self)@
                },
            },
    {
        if page.total_count != 1 {
            return Err(Fatal::AmbiguousMilestone { matches: page.total_count });
        }
        let ghost before = record_views(self.records@);
        let mut records = page.records;
        self.records.append(&mut records);
        assert(record_views(self.records@) =~= before + record_views(page.records@));
        let more = page.start_cursor.is_some();
        self.before = page.start_cursor;
        self.finished = !more;
        Ok(more)
    }

    /// Hands out the records fetched so far.
    pub fn into_records(self) -> (records: Vec<IssueRecord>)
        ensures
            record_views(records@) == self@.records,
    {
        self.records
    }
}

// ---------------------------------------------------------------------------
// Requests
// ---------------------------------------------------------------------------

/// The text `s` with every `c` replaced by `with`.
pub open spec fn replace_char(s: Seq<char>, c: char, with: Seq<char>) -> Seq<char>
    decreases s.len(),
{
    if s.len() == 0 {
        Seq::empty()
    } else {
        replace_char(s.drop_last(), c, with) + (if s.last() == c {
            with
        } else {
            seq![s.last()]
        })
    }
}

/// Replaces every `c` in a text by `with`.
pub fn replaced(chars: &Vec<char>, c: char, with: &Vec<char>) -> (out: Vec<char>)
    ensures
        out@ == replace_char(chars@, c, with@),
{
    let mut out: Vec<char> = Vec::new();
    let mut i: usize = 0;
    assert(chars@.take(0) =~= Seq::empty());
    while i < chars.len()
        invariant
            i <= chars@.len(),
            out@ == replace_char(chars@.take(i as int), c, with@),
        decreases chars@.len() - i,
    {
        let ghost before = out@;
        proof {
            let upto = chars@.take(i + 1);
            assert(upto.drop_last() =~= chars@.take(i as int));
            assert(upto.last() == chars@[i as int]);
        }
        if chars[i] == c {
            let mut k: usize = 0;
            while k < with.len()
                invariant
                    k <= with@.len(),
                    out@ == before + with@.take(k as int),
                decreases with@.len() - k,
            {
                out.push(with[k]);
                k += 1;
                assert(out@ =~= before + with@.take(k as int));
            }
            assert(with@.take(with@.len() as int) =~= with@);
        } else {
            out.push(chars[i]);
            assert(out@ =~= before + seq![chars@[i as int]]);
        }
        i += 1;
    }
    assert(chars@.take(chars@.len() as int) =~= chars@);
    out
}

/// The name of the field that holds the records of a kind.
pub open spec fn field_name(kind: RecordKind) -> Seq<char> {
    match kind {
        RecordKind::Issues => "issues"@,
        RecordKind::PullRequests => "pullRequests"@,
    }
}

/// The arguments of the field: where the page ends, how many records it
/// holds at most, and for pull requests that only merged ones are wanted.
pub open spec fn arguments(kind: RecordKind, before: Option<Seq<char>>) -> Seq<char> {
    (match before {
        Some(cursor) => "before: \""@ + cursor + "\","@,
        None => Seq::empty(),
    }) + "last: 100"@ + (match kind {
        RecordKind::Issues => Seq::empty(),
        RecordKind::PullRequests => ",states: [MERGED]"@,
    })
}

/// The query for one page of the records of a milestone, as it is written.
pub open spec fn query_text(
    repo_name: Seq<char>,
    version: Seq<char>,
    kind: RecordKind,
    before: Option<Seq<char>>,
) -> Seq<char> {
    "\nquery {\nrepository(owner: \"rust-lang\", name: \""@ + repo_name
        + "\") {\nmilestones(query: \""@ + version + "\", first: 1) {\ntotalCount\nnodes {\n"@
        + field_name(kind) + "("@ + arguments(kind, before)
        + ") {\nnodes {\nnumber\ntitle\nurl\nbody\nstate\nlabels(last: 100) {\nnodes {\nname\n}\n}\n}\npageInfo {\nstartCursor\n}\n}\n}\n}\n}\n}"@
}

/// A query as it is sent: without spaces, with a space for every line feed,
/// and with a backslash before every quotation mark.
pub open spec fn compact(query: Seq<char>) -> Seq<char> {
    replace_char(
        replace_char(replace_char(query, ' ', Seq::empty()), '\n', seq![' ']),
        '"',
        seq!['\\', '"'],
    )
}

/// The body of the request for one page.
pub open spec fn request_body(
    repo_name: Seq<char>,
    version: Seq<char>,
    kind: RecordKind,
    before: Option<Seq<char>>,
) -> Seq<char> {
    "{\"query\": \""@ + compact(query_text(repo_name, version, kind, before)) + "\"}"@
}

impl Paging {
    /// Writes the body of the request for the next page.
    pub fn request(&self, repo_name: &str, version: &str) -> (body: String)
        ensures
            body@ == request_body(repo_name@, version@, self@.kind, self@.before),
    {
        let mut query = String::new();
        query.append("\nquery {\nrepository(owner: \"rust-lang\", name: \"");
        query.append(repo_name);
        query.append("\") {\nmilestones(query: \"");
        query.append(version);
        query.append("\", first: 1) {\ntotalCount\nnodes {\n");
        match self.kind {
            RecordKind::Issues => query.append("issues"),
            RecordKind::PullRequests => query.append("pullRequests"),
        }
        query.append("(");
        let ghost head = query@;
        match &self.before {
            Some(cursor) => {
                query.append("before: \"");
                query.append(cursor.as_str());
                query.append("\",");
            },
            None => {},
        }
        query.append("last: 100");
        match self.kind {
            RecordKind::Issues => {},
            RecordKind::PullRequests => query.append(",states: [MERGED]"),
        }
        assert(query@ =~= head + arguments(self@.kind, self@.before));
        query.append(
            ") {\nnodes {\nnumber\ntitle\nurl\nbody\nstate\nlabels(last: 100) {\nnodes {\nname\n}\n}\n}\npageInfo {\nstartCursor\n}\n}\n}\n}\n}\n}",
        );
        assert(query@ =~= query_text(repo_name@, version@, self@.kind, self@.before));
        let written = chars_of(query.as_str());
        let nothing: Vec<char> = Vec::new();
        let mut space: Vec<char> = Vec::new();
        space.push(' ');
        let mut escaped: Vec<char> = Vec::new();
        escaped.push('\\');
        escaped.push('"');
        assert(nothing@ =~= Seq::empty());
        assert(space@ =~= seq![' ']);
        assert(escaped@ =~= seq!['\\', '"']);
        let without_spaces = replaced(&written, ' ', &nothing);
        let one_line = replaced(&without_spaces, '\n', &space);
        let sent = replaced(&one_line, '"', &escaped);
        assert(sent@.subrange(0, sent@.len() as int) =~= sent@);
        let sent_text = string_of(&sent, 0, sent.len());
        let mut body = String::new();
        body.append("{\"query\": \"");
        body.append(sent_text.as_str());
        body.append("\"}");
        assert(body@ =~= request_body(repo_name@, version@, self@.kind, self@.before));
        body
    }
}

} // verus!
