use relnotes::notes::{cargo_relnotes, classify, compile, select};
use relnotes::record::{IssueRecord, IssueState};
use relnotes::release::CalendarDate;
use relnotes::report::{Diagnostic, Fatal};
use relnotes::tracking::TrackingIssues;

fn record(number: u64, title: &str, body: &str, state: IssueState, labels: &[&str]) -> IssueRecord {
    IssueRecord {
        number,
        title: title.to_string(),
        url: format!("https://example.org/{}", number),
        body: body.to_string(),
        state,
        labels: labels.iter().map(|l| l.to_string()).collect(),
    }
}

fn milestone() -> Vec<IssueRecord> {
    vec![
        record(1, "lang change", "", IssueState::Open, &["T-lang", "relnotes"]),
        record(2, "rollup of things", "", IssueState::Open, &["rollup", "relnotes", "T-lang"]),
        record(3, "quiet compiler fix", "", IssueState::Open, &["T-compiler"]),
        record(4, "described elsewhere", "", IssueState::Open, &["T-lang", "needs-fcp"]),
        record(5, "silenced", "", IssueState::Open, &["T-libs"]),
        record(
            10,
            "Tracking issue for release notes of #4: described elsewhere",
            "```markdown\n# Compatibility Notes\n- [careful](url/)\n# Cargo\n- misplaced\n```\n",
            IssueState::Open,
            &["relnotes"],
        ),
        record(
            11,
            "Tracking issue for release notes of #5: silenced",
            "```markdown\n# Library\n- never shown\n```\n",
            IssueState::Closed,
            &["relnotes-tracking-issue"],
        ),
        record(12, "Tracking issue for release notes of #6: no block", "todo", IssueState::Open, &[]),
    ]
}

#[test]
fn passes_pick_disjoint_candidates() {
    let all = milestone();
    let numbers = |v: Vec<&IssueRecord>| -> Vec<u64> { v.iter().map(|r| r.number).collect() };
    assert_eq!(numbers(select(&all, true)), vec![1, 4, 10]);
    assert_eq!(numbers(select(&all, false)), vec![3, 5, 11, 12]);
    assert_eq!(numbers(select(&[], true)), Vec::<u64>::new());
}

#[test]
fn both_passes_are_sorted() {
    let all = milestone();
    let mut diagnostics: Vec<Diagnostic> = Vec::new();
    let mut tracking = TrackingIssues::collect(&all, &mut diagnostics).unwrap();
    let out = classify(&all, &mut tracking);
    assert_eq!(out.relnotes.language_relnotes, "- [lang change](https://example.org/1/)\n");
    assert_eq!(out.relnotes.compat_relnotes, "- [careful](url/)\n");
    assert_eq!(out.relnotes.compiler_relnotes, "");
    assert_eq!(out.relnotes.libraries_relnotes, "");
    assert_eq!(out.unsorted.compiler_relnotes, "- [quiet compiler fix](https://example.org/3/)\n");
    assert_eq!(out.unsorted.libraries_relnotes, "");
    assert_eq!(out.unsorted.language_relnotes, "");
    let used: Vec<Vec<bool>> =
        tracking.issues.iter().map(|t| t.sections.iter().map(|s| s.used).collect()).collect();
    assert_eq!(used, vec![vec![true, false], vec![false]]);
}

#[test]
fn cargo_notes_are_joined_without_a_trailing_line_feed() {
    let all = vec![
        record(1, "a", "", IssueState::Open, &["relnotes"]),
        record(2, "b", "", IssueState::Open, &["T-cargo"]),
        record(3, "c", "", IssueState::Open, &["rollup", "relnotes-perf"]),
    ];
    assert_eq!(cargo_relnotes(&all), "- [a](https://example.org/1/)\n- [c](https://example.org/3/)");
    assert_eq!(cargo_relnotes(&all[..1]), "- [a](https://example.org/1/)");
    assert_eq!(cargo_relnotes(&all[1..2]), "");
    assert_eq!(cargo_relnotes(&[]), "");
}

#[test]
fn a_whole_run_writes_notes_and_diagnostics() {
    let all = milestone();
    let cargo = vec![record(900, "cargo thing", "", IssueState::Open, &["relnotes"])];
    let date = CalendarDate { year: 2020, month: 4, day: 23 };
    let mut diagnostics: Vec<Diagnostic> = Vec::new();
    let notes = compile("1.43.0".to_string(), date, &all, &cargo, &mut diagnostics).unwrap();
    assert_eq!(notes.version, "1.43.0");
    assert_eq!(notes.date, date);
    assert_eq!(notes.relnotes.language_relnotes, "- [lang change](https://example.org/1/)\n");
    assert_eq!(notes.relnotes.compat_relnotes, "- [careful](url/)\n");
    assert_eq!(notes.unsorted.compiler_relnotes, "- [quiet compiler fix](https://example.org/3/)\n");
    assert_eq!(notes.cargo_relnotes, "- [cargo thing](https://example.org/900/)");
    assert_eq!(
        diagnostics,
        vec![
            Diagnostic::MarkdownNotFound {
                number: 12,
                title: "Tracking issue for release notes of #6: no block".to_string(),
                body: "todo".to_string(),
            },
            Diagnostic::UnusedSection {
                section: "Cargo".to_string(),
                title: "Tracking issue for release notes of #4: described elsewhere".to_string(),
                url: "https://example.org/10".to_string(),
                for_number: 4,
                target: Some(3),
            },
        ]
    );
}

#[test]
fn a_run_on_nothing_writes_nothing() {
    let date = CalendarDate { year: 2020, month: 4, day: 23 };
    let mut diagnostics: Vec<Diagnostic> = Vec::new();
    let notes = compile("1.0.0".to_string(), date, &[], &[], &mut diagnostics).unwrap();
    assert_eq!(notes.relnotes, relnotes::assemble::Sections::new());
    assert_eq!(notes.unsorted, relnotes::assemble::Sections::new());
    assert_eq!(notes.cargo_relnotes, "");
    assert!(diagnostics.is_empty());
}

#[test]
fn a_run_stops_at_a_malformed_tracking_title() {
    let mut all = milestone();
    all.push(record(13, "Tracking issue for release notes of #x: bad", "", IssueState::Open, &[]));
    let date = CalendarDate { year: 2020, month: 4, day: 23 };
    let mut diagnostics: Vec<Diagnostic> = Vec::new();
    let out = compile("1.43.0".to_string(), date, &all, &[], &mut diagnostics);
    assert_eq!(
        out,
        Err(Fatal::MalformedTrackingTitle {
            number: 13,
            title: "Tracking issue for release notes of #x: bad".to_string(),
            url: "https://example.org/13".to_string(),
        })
    );
    assert_eq!(diagnostics.len(), 1);
}
