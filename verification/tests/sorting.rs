use relnotes::assemble::{
    default_section_of, link_line_of, map_to_line_items, place_record, section_named, to_sections,
    SectionKind, Sections,
};
use relnotes::markdown::find_markdown_block;
use relnotes::record::{has_tags, is_relnotes, is_skipped, IssueRecord, IssueState};
use relnotes::report::Diagnostic;
use relnotes::tracking::TrackingIssues;

fn record(number: u64, title: &str, body: &str, state: IssueState, labels: &[&str]) -> IssueRecord {
    IssueRecord {
        number,
        title: title.to_string(),
        url: format!("https://example.org/{}", number),
        body: body.to_string(),
        state,
        labels: labels.iter().map(|l| l.to_string()).collect(),
    }
}

fn collect(all: &[IssueRecord]) -> TrackingIssues {
    let mut diagnostics: Vec<Diagnostic> = Vec::new();
    TrackingIssues::collect(all, &mut diagnostics).unwrap()
}

fn texts(s: &Sections) -> Vec<&str> {
    vec![
        s.language_relnotes.as_str(),
        s.compiler_relnotes.as_str(),
        s.libraries_relnotes.as_str(),
        s.stabilized_apis_relnotes.as_str(),
        s.const_stabilized_apis_relnotes.as_str(),
        s.rustdoc_relnotes.as_str(),
        s.compat_relnotes.as_str(),
        s.internal_changes_relnotes.as_str(),
        s.other_relnotes.as_str(),
    ]
}

#[test]
fn fenced_block_is_found() {
    let body = "intro\n```markdown\n# Library\n- [bar](url/)\n```\ntrailer\n";
    assert_eq!(find_markdown_block(body), Some("# Library\n- [bar](url/)\n".to_string()));
    assert_eq!(find_markdown_block("no block here"), None);
}

#[test]
fn fence_must_close_with_its_own_length_and_a_line_end() {
    assert_eq!(find_markdown_block("```markdown\nx\n```"), None);
    assert_eq!(find_markdown_block("```markdown\nx\n````\n"), None);
    assert_eq!(find_markdown_block("``markdown\nx\n``\n"), None);
    assert_eq!(find_markdown_block(" ```markdown\nx\n```\n"), None);
    assert_eq!(find_markdown_block("```Markdown\nx\n```\n"), None);
    assert_eq!(find_markdown_block("```markdown\n```\n"), Some("".to_string()));
    assert_eq!(
        find_markdown_block("`````markdown\r\na\r\n```\r\n`````\r\n"),
        Some("a\r\n```\r\n".to_string())
    );
    assert_eq!(
        find_markdown_block("```markdown\nfirst\n```\n```markdown\nsecond\n```\n"),
        Some("first\n".to_string())
    );
}

#[test]
fn labels_are_matched_exactly() {
    let r = record(1, "t", "", IssueState::Open, &["T-lang", "relnotes"]);
    assert!(has_tags(&r, &["T-lang"]));
    assert!(has_tags(&r, &["x", "relnotes"]));
    assert!(!has_tags(&r, &["t-lang"]));
    assert!(!has_tags(&r, &["T-lan"]));
    assert!(!has_tags(&r, &[]));
    let none = record(2, "t", "", IssueState::Open, &[]);
    assert!(!has_tags(&none, &["T-lang"]));
    assert!(is_relnotes(&r));
    assert!(!is_skipped(&r));
    assert!(is_skipped(&record(3, "t", "", IssueState::Open, &["rollup"])));
    for label in ["relnotes", "relnotes-perf", "finished-final-comment-period", "needs-fcp"] {
        assert!(is_relnotes(&record(4, "t", "", IssueState::Open, &[label])));
    }
    assert!(!is_relnotes(&record(5, "t", "", IssueState::Open, &["relnotes-tracking-issue"])));
}

#[test]
fn section_names_are_matched_without_regard_to_case() {
    assert_eq!(section_named("Language"), Some(SectionKind::Language));
    assert_eq!(section_named("COMPILER"), Some(SectionKind::Compiler));
    assert_eq!(section_named("library"), Some(SectionKind::Libraries));
    assert_eq!(section_named("stabilized apis"), Some(SectionKind::StabilizedApis));
    assert_eq!(section_named("Const Stabilized APIs"), Some(SectionKind::ConstStabilizedApis));
    assert_eq!(section_named("rustDoc"), Some(SectionKind::Rustdoc));
    assert_eq!(section_named("Compatibility Notes"), Some(SectionKind::CompatibilityNotes));
    assert_eq!(section_named("internal changes"), Some(SectionKind::InternalChanges));
    assert_eq!(section_named("OTHER"), Some(SectionKind::Other));
    assert_eq!(section_named("Libraries"), None);
    assert_eq!(section_named("Cargo"), None);
    assert_eq!(section_named(" Language"), None);
    assert_eq!(section_named(""), None);
}

#[test]
fn default_routing_has_a_fixed_priority() {
    let route = |labels: &[&str]| default_section_of(&record(1, "t", "", IssueState::Open, labels));
    assert_eq!(route(&["C-future-compatibility", "T-libs", "T-lang", "T-compiler"]), SectionKind::CompatibilityNotes);
    assert_eq!(route(&["T-compiler", "T-lang", "T-libs"]), SectionKind::Libraries);
    assert_eq!(route(&["T-libs-api"]), SectionKind::Libraries);
    assert_eq!(route(&["T-compiler", "T-lang"]), SectionKind::Language);
    assert_eq!(route(&["T-compiler"]), SectionKind::Compiler);
    assert_eq!(route(&["relnotes"]), SectionKind::Other);
    assert_eq!(route(&[]), SectionKind::Other);
}

#[test]
fn link_line_is_a_markdown_list_item() {
    let r = record(7, "Add `foo`", "", IssueState::Open, &[]);
    assert_eq!(link_line_of(&r), "- [Add `foo`](https://example.org/7/)");
}

#[test]
fn open_tracking_issue_overrides_the_default() {
    let tracking_body = "```markdown\n# Library\n- [bar](url/)\n```\n";
    let all = vec![
        record(42, "foo", "", IssueState::Open, &["T-lang", "relnotes"]),
        record(100, "Tracking issue for release notes of #42: foo", tracking_body, IssueState::Open, &[]),
    ];
    let mut diagnostics: Vec<Diagnostic> = Vec::new();
    let mut tracking = TrackingIssues::collect(&all, &mut diagnostics).unwrap();
    assert!(diagnostics.is_empty());
    let candidates: Vec<&IssueRecord> = all.iter().collect();
    let sections = to_sections(&candidates, &mut tracking);
    assert_eq!(sections.libraries_relnotes, "- [bar](url/)\n");
    assert_eq!(sections.language_relnotes, "");
    assert_eq!(texts(&sections).concat(), "- [bar](url/)\n");
    assert!(tracking.issues[0].sections[0].used);
    assert_eq!(SectionKind::Libraries.name(), "Library");
}

#[test]
fn closed_tracking_issue_silences_its_record() {
    let tracking_body = "```markdown\n# Library\n- [bar](url/)\n```\n";
    let all = vec![
        record(42, "foo", "", IssueState::Open, &["T-lang", "relnotes"]),
        record(100, "Tracking issue for release notes of #42: foo", tracking_body, IssueState::Closed, &[]),
    ];
    let mut tracking = collect(&all);
    let candidates: Vec<&IssueRecord> = all.iter().collect();
    let sections = to_sections(&candidates, &mut tracking);
    assert_eq!(texts(&sections).concat(), "");
    assert!(!tracking.issues[0].sections[0].used);
}

#[test]
fn record_without_tracking_issue_goes_by_its_labels() {
    let all = vec![record(7, "title", "", IssueState::Open, &["T-lang"])];
    let mut tracking = collect(&all);
    let candidates: Vec<&IssueRecord> = all.iter().collect();
    let sections = to_sections(&candidates, &mut tracking);
    assert_eq!(sections.language_relnotes, "- [title](https://example.org/7/)\n");
    assert_eq!(texts(&sections).concat(), "- [title](https://example.org/7/)\n");
}

#[test]
fn empty_input_gives_empty_sections() {
    let all: Vec<IssueRecord> = Vec::new();
    let mut diagnostics: Vec<Diagnostic> = Vec::new();
    let mut tracking = TrackingIssues::collect(&all, &mut diagnostics).unwrap();
    let sections = to_sections(&[], &mut tracking);
    assert!(texts(&sections).iter().all(|t| t.is_empty()));
    assert!(diagnostics.is_empty());
    assert!(tracking.issues.is_empty());
    assert_eq!(sections, Sections::new());
}

#[test]
fn tracking_sections_are_distributed_and_unknown_ones_stay_unused() {
    let body = "```markdown\n# language\n- l1\n- l2\n# Cargo\n- c\n# Internal Changes\n- i\n# LANGUAGE\n- l3\n```\n";
    let all = vec![
        record(1, "one", "", IssueState::Open, &["T-compiler"]),
        record(2, "two", "", IssueState::Open, &["T-compiler"]),
        record(3, "Tracking issue for release notes of #2: two", body, IssueState::Open, &["T-lang"]),
        record(4, "four", "", IssueState::Open, &["T-lang"]),
    ];
    let mut tracking = collect(&all);
    let candidates: Vec<&IssueRecord> = all.iter().collect();
    let sections = to_sections(&candidates, &mut tracking);
    assert_eq!(sections.compiler_relnotes, "- [one](https://example.org/1/)\n");
    assert_eq!(sections.language_relnotes, "- l1\n- l2\n- l3\n- [four](https://example.org/4/)\n");
    assert_eq!(sections.internal_changes_relnotes, "- i\n");
    assert_eq!(sections.other_relnotes, "");
    let used: Vec<(&str, bool)> =
        tracking.issues[0].sections.iter().map(|s| (s.name.as_str(), s.used)).collect();
    assert_eq!(
        used,
        vec![("language", true), ("Cargo", false), ("Internal Changes", true), ("LANGUAGE", true)]
    );
}

#[test]
fn order_of_sections_follows_the_input_and_reverses_with_it() {
    let all = vec![
        record(1, "a", "", IssueState::Open, &["T-lang"]),
        record(2, "b", "", IssueState::Open, &["T-compiler"]),
        record(3, "c", "", IssueState::Open, &["T-lang"]),
        record(4, "d", "", IssueState::Open, &["T-lang"]),
    ];
    let forward: Vec<&IssueRecord> = all.iter().collect();
    let backward: Vec<&IssueRecord> = all.iter().rev().collect();
    let there = to_sections(&forward, &mut collect(&all));
    let back = to_sections(&backward, &mut collect(&all));
    assert_eq!(
        there.language_relnotes,
        "- [a](https://example.org/1/)\n- [c](https://example.org/3/)\n- [d](https://example.org/4/)\n"
    );
    let mut lines: Vec<&str> = there.language_relnotes.lines().collect();
    lines.reverse();
    assert_eq!(back.language_relnotes.lines().collect::<Vec<&str>>(), lines);
    assert_eq!(back.compiler_relnotes, there.compiler_relnotes);
}

#[test]
fn every_record_appears_in_at_most_one_section() {
    let body = "```markdown\n# Other\n- from tracking\n```\n";
    let all = vec![
        record(1, "r1", "", IssueState::Open, &["C-future-compatibility", "T-libs", "T-lang", "T-compiler"]),
        record(2, "r2", "", IssueState::Open, &["T-libs", "T-lang"]),
        record(3, "r3", "", IssueState::Open, &[]),
        record(4, "Tracking issue for release notes of #3: r3", body, IssueState::Closed, &[]),
        record(5, "r5", "", IssueState::Open, &["T-compiler"]),
    ];
    let mut tracking = collect(&all);
    let candidates: Vec<&IssueRecord> = all.iter().collect();
    let sections = to_sections(&candidates, &mut tracking);
    let all_text = texts(&sections).concat();
    for (title, times) in [("r1", 1), ("r2", 1), ("r3", 0), ("r5", 1), ("Tracking", 0), ("from tracking", 0)] {
        assert_eq!(all_text.matches(title).count(), times, "{}", title);
    }
    assert_eq!(sections.compat_relnotes, "- [r1](https://example.org/1/)\n");
    assert_eq!(sections.libraries_relnotes, "- [r2](https://example.org/2/)\n");
    assert_eq!(sections.compiler_relnotes, "- [r5](https://example.org/5/)\n");
}

#[test]
fn lines_are_added_to_what_the_sections_hold() {
    let all = vec![record(1, "a", "", IssueState::Open, &[])];
    let mut tracking = collect(&all);
    let mut sections = Sections::new();
    sections.push_line(SectionKind::Other, "first");
    place_record(&all[0], &mut tracking, &mut sections);
    map_to_line_items(&[&all[0]], &mut tracking, &mut sections);
    assert_eq!(
        sections.other_relnotes,
        "first\n- [a](https://example.org/1/)\n- [a](https://example.org/1/)\n"
    );
}
