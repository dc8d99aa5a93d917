use relnotes::record::{IssueRecord, IssueState};
use relnotes::report::{Diagnostic, Fatal};
use relnotes::tracking::{
    classify_title, has_tracking_title, parse_sections, Section, TitleKind, TrackingIssue,
    TrackingIssues,
};

fn record(number: u64, title: &str, body: &str, state: IssueState, labels: &[&str]) -> IssueRecord {
    IssueRecord {
        number,
        title: title.to_string(),
        url: format!("https://example.org/{}", number),
        body: body.to_string(),
        state,
        labels: labels.iter().map(|l| l.to_string()).collect(),
    }
}

fn section(name: &str, lines: &[&str]) -> Section {
    Section {
        name: name.to_string(),
        used: false,
        lines: lines.iter().map(|l| l.to_string()).collect(),
    }
}

#[test]
fn titles_are_classified() {
    assert_eq!(classify_title("Fix the frobnicator"), TitleKind::Ordinary);
    assert_eq!(
        classify_title("Tracking issue for release notes of #42: foo"),
        TitleKind::Tracking(42)
    );
    assert_eq!(
        classify_title("Tracking issue for release notes of #+7: foo: bar"),
        TitleKind::Tracking(7)
    );
    assert_eq!(classify_title("Tracking issue for release notes of #42"), TitleKind::Malformed);
    assert_eq!(classify_title("Tracking issue for release notes of #: x"), TitleKind::Malformed);
    assert_eq!(classify_title("Tracking issue for release notes of #4 2: x"), TitleKind::Malformed);
    assert_eq!(
        classify_title("Tracking issue for release notes of #99999999999999999999: x"),
        TitleKind::Malformed
    );
    assert_eq!(classify_title("tracking issue for release notes of #42: foo"), TitleKind::Ordinary);
    assert_eq!(classify_title(""), TitleKind::Ordinary);
}

#[test]
fn tracking_titles_are_recognised_by_their_prefix() {
    assert!(has_tracking_title("Tracking issue for release notes of #42: foo"));
    assert!(has_tracking_title("Tracking issue for release notes of #"));
    assert!(!has_tracking_title("Tracking issue for release notes of 42"));
    assert!(!has_tracking_title("foo"));
}

#[test]
fn sections_are_read_from_a_block() {
    let block = "ignored before any header\n# Library\n- [bar](url/)\n\n  \n# Compiler  \n- one\n- two\n# Library\n- again\n# Empty\n";
    assert_eq!(
        parse_sections(block),
        vec![
            section("Library", &["- [bar](url/)", "- again"]),
            section("Compiler", &["- one", "- two"]),
        ]
    );
}

#[test]
fn section_lines_keep_their_white_space_and_crlf_is_a_line_end() {
    let block = "# Language\r\n  indented  \r\n#not a header\r\n #  neither\r\n";
    assert_eq!(
        parse_sections(block),
        vec![section("Language", &["  indented  ", "#not a header", " #  neither"])]
    );
}

#[test]
fn section_names_differ_by_case() {
    let block = "# Library\na\n# library\nb\n";
    assert_eq!(parse_sections(block), vec![section("Library", &["a"]), section("library", &["b"])]);
}

#[test]
fn round_trip_counts_every_content_line() {
    let block = "# Language\n- a\n\n- b\n# Compiler\n- c\n   \n- d\n- e\n";
    let sections = parse_sections(block);
    assert_eq!(sections.len(), 2);
    let total: usize = sections.iter().map(|s| s.lines.len()).sum();
    assert_eq!(total, 5);
    assert!(sections.iter().all(|s| !s.used));
}

#[test]
fn an_empty_block_has_no_sections() {
    assert_eq!(parse_sections(""), Vec::<Section>::new());
    assert_eq!(parse_sections("\n\n"), Vec::<Section>::new());
    assert_eq!(parse_sections("# Only a header\n"), Vec::<Section>::new());
}

#[test]
fn tracking_issue_is_parsed_from_record_and_block() {
    let r = record(100, "Tracking issue for release notes of #42: foo", "b", IssueState::Open, &[]);
    let issue = TrackingIssue::parse(&r, 42, "# Rustdoc\n- x\n");
    assert_eq!(issue.for_number, 42);
    assert_eq!(issue.raw, r);
    assert_eq!(issue.sections, vec![section("Rustdoc", &["- x"])]);
    assert!(!issue.is_closed());
}

#[test]
fn collect_finds_tracking_issues_and_reports_missing_blocks() {
    let all = vec![
        record(1, "plain", "```markdown\n# Library\n- no\n```\n", IssueState::Open, &[]),
        record(
            100,
            "Tracking issue for release notes of #42: foo",
            "text\r\n````markdown\r\n# Library\r\n- [bar](url/)\r\n```\r\nstill inside\r\n````\r\nafter\r\n",
            IssueState::Open,
            &[],
        ),
        record(101, "Tracking issue for release notes of #43: bar", "no block", IssueState::Open, &[]),
        record(
            102,
            "Tracking issue for release notes of #44: baz",
            "```markdown\n# Compiler\n- c\n```\n",
            IssueState::Closed,
            &[],
        ),
    ];
    let mut diagnostics: Vec<Diagnostic> = Vec::new();
    let tracking = TrackingIssues::collect(&all, &mut diagnostics).unwrap();
    assert_eq!(
        diagnostics,
        vec![Diagnostic::MarkdownNotFound {
            number: 101,
            title: "Tracking issue for release notes of #43: bar".to_string(),
            body: "no block".to_string(),
        }]
    );
    assert_eq!(tracking.issues.len(), 2);
    assert_eq!(tracking.issues[0].for_number, 42);
    assert_eq!(tracking.issues[0].raw, all[1]);
    assert_eq!(
        tracking.issues[0].sections,
        vec![section("Library", &["- [bar](url/)", "```", "still inside"])]
    );
    assert_eq!(tracking.issues[1].for_number, 44);
    assert!(tracking.issues[1].is_closed());
    assert_eq!(tracking.position(42), 0);
    assert_eq!(tracking.position(44), 1);
    assert_eq!(tracking.position(43), 2);
}

#[test]
fn later_tracking_issue_for_one_number_replaces_the_earlier() {
    let all = vec![
        record(10, "Tracking issue for release notes of #1: a", "```markdown\n# Other\n- a\n```\n", IssueState::Open, &[]),
        record(11, "Tracking issue for release notes of #2: b", "```markdown\n# Other\n- b\n```\n", IssueState::Open, &[]),
        record(12, "Tracking issue for release notes of #1: c", "```markdown\n# Other\n- c\n```\n", IssueState::Open, &[]),
        record(13, "Tracking issue for release notes of #1: d", "nothing", IssueState::Open, &[]),
    ];
    let mut diagnostics: Vec<Diagnostic> = Vec::new();
    let tracking = TrackingIssues::collect(&all, &mut diagnostics).unwrap();
    assert_eq!(tracking.issues.len(), 2);
    assert_eq!(tracking.issues[0].for_number, 1);
    assert_eq!(tracking.issues[0].raw.number, 12);
    assert_eq!(tracking.issues[1].for_number, 2);
    assert_eq!(diagnostics.len(), 1);
}

#[test]
fn malformed_tracking_title_is_fatal() {
    let all = vec![
        record(5, "Tracking issue for release notes of #9: ok", "none", IssueState::Open, &[]),
        record(6, "Tracking issue for release notes of #abc: bad", "```markdown\n# Other\n- x\n```\n", IssueState::Open, &[]),
        record(7, "Tracking issue for release notes of #", "", IssueState::Open, &[]),
    ];
    let mut diagnostics: Vec<Diagnostic> = Vec::new();
    let out = TrackingIssues::collect(&all, &mut diagnostics);
    assert_eq!(
        out,
        Err(Fatal::MalformedTrackingTitle {
            number: 6,
            title: "Tracking issue for release notes of #abc: bad".to_string(),
            url: "https://example.org/6".to_string(),
        })
    );
    assert_eq!(diagnostics.len(), 1);
}

#[test]
fn insert_replaces_or_appends() {
    let mut tracking = TrackingIssues::new();
    let a = record(10, "Tracking issue for release notes of #1: a", "", IssueState::Open, &[]);
    let b = record(11, "Tracking issue for release notes of #2: b", "", IssueState::Open, &[]);
    tracking.insert(TrackingIssue::parse(&a, 1, "# Other\n- a\n"));
    tracking.insert(TrackingIssue::parse(&b, 2, "# Other\n- b\n"));
    tracking.insert(TrackingIssue::parse(&b, 1, "# Other\n- c\n"));
    assert_eq!(tracking.issues.len(), 2);
    assert_eq!(tracking.issues[0].raw.number, 11);
    assert_eq!(tracking.issues[0].sections[0].lines, vec!["- c".to_string()]);
}

#[test]
fn collected_issues_form_a_mapping() {
    let body = "```markdown\n# Library\na\n# Other\nb\n# Library\nc\n```\n";
    let all = vec![
        record(10, "Tracking issue for release notes of #1: a", body, IssueState::Open, &[]),
        record(11, "Tracking issue for release notes of #2: b", body, IssueState::Open, &[]),
        record(12, "Tracking issue for release notes of #1: c", body, IssueState::Closed, &[]),
    ];
    let mut diagnostics: Vec<Diagnostic> = Vec::new();
    let tracking = TrackingIssues::collect(&all, &mut diagnostics).unwrap();
    let mut numbers: Vec<u64> = tracking.issues.iter().map(|t| t.for_number).collect();
    assert_eq!(numbers, vec![1, 2]);
    numbers.dedup();
    assert_eq!(numbers.len(), tracking.issues.len());
    for issue in &tracking.issues {
        let mut names: Vec<&str> = issue.sections.iter().map(|s| s.name.as_str()).collect();
        assert_eq!(names, vec!["Library", "Other"]);
        names.sort();
        names.dedup();
        assert_eq!(names.len(), issue.sections.len());
        assert!(issue.sections.iter().all(|s| !s.lines.is_empty()));
    }
}
