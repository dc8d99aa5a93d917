use relnotes::assemble::to_sections;
use relnotes::audit::{audit, find_record};
use relnotes::record::{IssueRecord, IssueState};
use relnotes::report::{Diagnostic, Fatal};
use relnotes::tracking::TrackingIssues;

fn record(number: u64, title: &str, body: &str, state: IssueState, labels: &[&str]) -> IssueRecord {
    IssueRecord {
        number,
        title: title.to_string(),
        url: format!("https://example.org/{}", number),
        body: body.to_string(),
        state,
        labels: labels.iter().map(|l| l.to_string()).collect(),
    }
}

fn collect(all: &[IssueRecord]) -> TrackingIssues {
    let mut diagnostics: Vec<Diagnostic> = Vec::new();
    TrackingIssues::collect(all, &mut diagnostics).unwrap()
}

#[test]
fn used_section_is_not_reported() {
    let all = vec![
        record(42, "foo", "", IssueState::Open, &["relnotes"]),
        record(100, "Tracking issue for release notes of #42: foo", "```markdown\n# Library\n- [bar](url/)\n```\n", IssueState::Open, &[]),
    ];
    let mut tracking = collect(&all);
    let candidates: Vec<&IssueRecord> = all.iter().collect();
    to_sections(&candidates, &mut tracking);
    let mut diagnostics: Vec<Diagnostic> = Vec::new();
    assert_eq!(audit(&tracking, &all, &mut diagnostics), Ok(()));
    assert!(diagnostics.is_empty());
}

#[test]
fn closed_and_unused_is_neither_fatal_nor_reported() {
    let all = vec![
        record(42, "foo", "", IssueState::Open, &["relnotes"]),
        record(100, "Tracking issue for release notes of #42: foo", "```markdown\n# Library\n- [bar](url/)\n```\n", IssueState::Closed, &[]),
    ];
    let mut tracking = collect(&all);
    let candidates: Vec<&IssueRecord> = all.iter().collect();
    to_sections(&candidates, &mut tracking);
    assert!(!tracking.issues[0].sections[0].used);
    let mut diagnostics: Vec<Diagnostic> = Vec::new();
    assert_eq!(audit(&tracking, &all, &mut diagnostics), Ok(()));
    assert!(diagnostics.is_empty());
}

#[test]
fn unused_section_of_open_tracking_issue_is_reported() {
    let all = vec![
        record(41, "other", "", IssueState::Open, &[]),
        record(101, "Tracking issue for release notes of #43: rustdoc thing", "```markdown\n# Rustdoc\n- x\n```\n", IssueState::Open, &[]),
    ];
    let mut tracking = collect(&all);
    let candidates: Vec<&IssueRecord> = all.iter().collect();
    to_sections(&candidates, &mut tracking);
    let mut diagnostics: Vec<Diagnostic> = Vec::new();
    assert_eq!(audit(&tracking, &all, &mut diagnostics), Ok(()));
    assert_eq!(
        diagnostics,
        vec![Diagnostic::UnusedSection {
            section: "Rustdoc".to_string(),
            title: "Tracking issue for release notes of #43: rustdoc thing".to_string(),
            url: "https://example.org/101".to_string(),
            for_number: 43,
            target: None,
        }]
    );
}

#[test]
fn unknown_section_is_reported_with_its_target() {
    let all = vec![
        record(7, "seven", "", IssueState::Open, &[]),
        record(8, "eight", "", IssueState::Open, &[]),
        record(9, "Tracking issue for release notes of #8: eight", "```markdown\n# Cargo\n- c\n# Other\n- o\n# Nonsense\n- n\n```\n", IssueState::Open, &[]),
    ];
    let mut tracking = collect(&all);
    let candidates: Vec<&IssueRecord> = all.iter().collect();
    to_sections(&candidates, &mut tracking);
    let mut diagnostics: Vec<Diagnostic> = vec![Diagnostic::MarkdownNotFound {
        number: 1,
        title: "kept".to_string(),
        body: "".to_string(),
    }];
    assert_eq!(audit(&tracking, &all, &mut diagnostics), Ok(()));
    assert_eq!(diagnostics.len(), 3);
    let names: Vec<(String, Option<usize>)> = diagnostics[1..]
        .iter()
        .map(|d| match d {
            Diagnostic::UnusedSection { section, target, .. } => (section.clone(), *target),
            _ => panic!("unexpected diagnostic"),
        })
        .collect();
    assert_eq!(names, vec![("Cargo".to_string(), Some(1)), ("Nonsense".to_string(), Some(1))]);
}

#[test]
fn used_section_of_closed_tracking_issue_is_fatal() {
    let all = vec![
        record(1, "Tracking issue for release notes of #10: a", "```markdown\n# Cargo\n- unused\n```\n", IssueState::Open, &[]),
        record(2, "Tracking issue for release notes of #11: b", "```markdown\n# Other\n- o\n# Library\n- l\n```\n", IssueState::Closed, &[]),
        record(3, "Tracking issue for release notes of #12: c", "```markdown\n# Cargo\n- later\n```\n", IssueState::Open, &[]),
    ];
    let mut tracking = collect(&all);
    tracking.issues[1].sections[1].used = true;
    let mut diagnostics: Vec<Diagnostic> = Vec::new();
    assert_eq!(
        audit(&tracking, &all, &mut diagnostics),
        Err(Fatal::ClosedTrackingIssueUsed {
            section: "Library".to_string(),
            title: "Tracking issue for release notes of #11: b".to_string(),
            url: "https://example.org/2".to_string(),
        })
    );
    assert_eq!(diagnostics.len(), 1);
}

#[test]
fn find_record_gives_the_first_position() {
    let all = vec![
        record(5, "a", "", IssueState::Open, &[]),
        record(6, "b", "", IssueState::Open, &[]),
        record(5, "c", "", IssueState::Open, &[]),
    ];
    assert_eq!(find_record(&all, 5), Some(0));
    assert_eq!(find_record(&all, 6), Some(1));
    assert_eq!(find_record(&all, 7), None);
    assert_eq!(find_record(&[], 7), None);
}

#[test]
fn every_unused_section_of_an_open_issue_is_reported_once() {
    let all = vec![
        record(1, "one", "", IssueState::Open, &[]),
        record(2, "two", "", IssueState::Open, &[]),
        record(5, "Tracking issue for release notes of #1: one", "```markdown\n# Language\n- l\n# Cargo\n- c\n```\n", IssueState::Open, &[]),
        record(6, "Tracking issue for release notes of #2: two", "```markdown\n# Cargo\n- c\n# Other\n- o\n```\n", IssueState::Closed, &[]),
        record(7, "Tracking issue for release notes of #3: three", "```markdown\n# Language\n- l\n# Other\n- o\n```\n", IssueState::Open, &[]),
    ];
    let mut tracking = collect(&all);
    let candidates: Vec<&IssueRecord> = all.iter().collect();
    to_sections(&candidates, &mut tracking);
    let mut diagnostics: Vec<Diagnostic> = Vec::new();
    assert_eq!(audit(&tracking, &all, &mut diagnostics), Ok(()));
    let reported: Vec<(u64, String)> = diagnostics
        .iter()
        .map(|d| match d {
            Diagnostic::UnusedSection { section, for_number, .. } => (*for_number, section.clone()),
            _ => panic!("unexpected diagnostic"),
        })
        .collect();
    let mut expected: Vec<(u64, String)> = Vec::new();
    for issue in &tracking.issues {
        for section in &issue.sections {
            if !issue.is_closed() && !section.used {
                expected.push((issue.for_number, section.name.clone()));
            }
        }
    }
    assert_eq!(reported, expected);
    assert_eq!(
        reported,
        vec![
            (1, "Cargo".to_string()),
            (3, "Language".to_string()),
            (3, "Other".to_string()),
        ]
    );
}
