use adrs_core::lint::{check_all, check_all_filtered, check_repository, lint_adr, DoctorConfig, IgnorePath, IssueSeverity};
use adrs_core::parse::{ParsedContent, Parser};
use adrs_core::repository::{AdrFile, Repository};
use adrs_core::types::{Adr, AdrLink, AdrStatus, Date, LinkKind};
use serde_yaml_neo::Value;

const ROOT: &str = "/tmp/lintrepo";

fn status_of(s: &str) -> AdrStatus {
    match s {
        "proposed" => AdrStatus::Proposed,
        "accepted" => AdrStatus::Accepted,
        "deprecated" => AdrStatus::Deprecated,
        "superseded" => AdrStatus::Superseded,
        other => AdrStatus::Custom(other.to_string()),
    }
}

fn kind_of(s: &str) -> LinkKind {
    match s {
        "supersedes" => LinkKind::Supersedes,
        "supersededby" => LinkKind::SupersededBy,
        "amends" => LinkKind::Amends,
        "amendedby" => LinkKind::AmendedBy,
        "relatesto" => LinkKind::RelatesTo,
        other => LinkKind::Custom(other.to_string()),
    }
}

/// Decodes a frontmatter block the way the YAML front end does: the
/// number, date and status are required.
fn decode(yaml: &str) -> Result<Adr, String> {
    let v: Value = serde_yaml_neo::from_str(yaml).map_err(|e| e.to_string())?;
    let number = v.get("number").and_then(|n| n.as_u64()).ok_or("missing field `number`")? as u32;
    let title = v.get("title").and_then(|t| t.as_str()).unwrap_or("").to_string();
    let date = v.get("date").and_then(|d| d.as_str()).ok_or("missing field `date`")?;
    let date = Date::parse_iso(date).ok_or("invalid date")?;
    let mut adr = Adr::with_date(number, &title, date);
    adr.status = status_of(v.get("status").and_then(|s| s.as_str()).ok_or("missing field `status`")?);
    if let Some(ls) = v.get("links").and_then(|l| l.as_sequence()) {
        for l in ls {
            let target = l.get("target").and_then(|t| t.as_u64()).ok_or("invalid target")? as u32;
            let kind = l.get("kind").and_then(|k| k.as_str()).ok_or("invalid kind")?;
            adr.links.push(AdrLink::new(target, kind_of(kind)));
        }
    }
    Ok(adr)
}

/// Reads a file's text into the record the repository holds for it.
fn read_file(path: &str, content: &str) -> Result<AdrFile, String> {
    let parser = Parser::new();
    let adr = match parser.parse(content).map_err(|e| format!("{:?}", e))? {
        ParsedContent::Legacy(adr) => adr,
        ParsedContent::Frontmatter { yaml, body } => parser.finish_frontmatter(decode(&yaml)?, &body),
    };
    let adr = parser.complete_file(adr, path).map_err(|e| format!("{:?}", e))?;
    Ok(AdrFile { path: path.to_string(), adr, content: content.to_string() })
}

/// A repository initialised at `ROOT`, with the named files written into
/// its ADR directory (replacing a file of the same name).
fn repo_with(adr_dir: Option<&str>, ng: bool, written: &[(&str, String)]) -> Repository {
    let first = Repository::init(ROOT, adr_dir, ng, vec![], 0).unwrap();
    let dir = first.adr_path();
    let mut files: Vec<AdrFile> = first
        .files()
        .iter()
        .map(|f| AdrFile { path: f.path.clone(), adr: f.adr.clone(), content: f.content.clone() })
        .collect();
    for (name, content) in written {
        let path = format!("{}/{}", dir, name);
        files.retain(|f| f.path != path);
        files.push(read_file(&path, content).unwrap());
    }
    Repository::open(ROOT, first.config().clone(), files)
}

fn make_nygard_adr(number: u32, title: &str, status: &str, links: &str) -> String {
    format!(
        "# {}. {}\n\nDate: 2024-01-01\n\n## Status\n\n{}{}\n## Context\n\nSome context.\n\n## Decision\n\nA decision.\n\n## Consequences\n\nSome consequences.\n",
        number, title, status, links
    )
}

fn make_frontmatter_adr(number: u32, title: &str, status: &str, links_yaml: &str) -> String {
    format!(
        "---\nnumber: {}\ntitle: {}\ndate: 2024-01-01\nstatus: {}\n{}---\n\n## Context\n\nSome context.\n\n## Decision\n\nA decision.\n\n## Consequences\n\nSome consequences.\n",
        number, title, status, links_yaml
    )
}

fn make_nygard_adr_with_consequences(number: u32, title: &str, status: &str, consequences: &str) -> String {
    format!(
        "# {number}. {title}\n\nDate: 2024-01-01\n\n## Status\n\n{status}\n\n## Context\n\nSome context.\n\n## Decision\n\nA decision.\n\n## Consequences\n\n{consequences}\n"
    )
}

fn lint_text(name: &str, number: u32, title: &str, content: &str) -> adrs_core::lint::LintReport {
    let mut adr = Adr::new(number, title);
    adr.path = Some(format!("/tmp/lintdoc/adr/{}", name));
    lint_adr(&adr, content)
}

fn doctor(ignore: &[&str], scoped: &[(&str, &[&str])]) -> DoctorConfig {
    DoctorConfig {
        ignore: ignore.iter().map(|s| s.to_string()).collect(),
        ignore_path: scoped
            .iter()
            .map(|(g, rs)| IgnorePath { glob: g.to_string(), rules: rs.iter().map(|s| s.to_string()).collect() })
            .collect(),
    }
}

fn count(report: &adrs_core::lint::LintReport, rule: &str) -> usize {
    report.issues.iter().filter(|i| i.rule_id == rule).count()
}

#[test]
fn test_lint_valid_nygard_adr() {
    let repo = Repository::init(ROOT, None, false, vec![], 0).unwrap();
    let content = repo.files()[0].content.clone();
    let report = lint_text("0001-record-architecture-decisions.md", 1, "Record architecture decisions", &content);
    assert!(report.is_clean(), "Expected no issues for valid Nygard ADR: {:?}", report.issues);
}

#[test]
fn test_lint_invalid_adr_missing_status() {
    let content = "# 1. Test decision\n\nDate: 2024-03-04\n\n## Context\n\nSome context.\n\n## Decision\n\nSome decision.\n\n## Consequences\n\nSome consequences.\n";
    let report = lint_text("0001-test-decision.md", 1, "Test decision", content);
    assert!(!report.is_clean());
    assert!(report.issues.iter().any(|i| i.rule_id == "ADR002"));
}

#[test]
fn test_frontmatter_nygard_adr_not_flagged_for_madr_sections() {
    let content = "---\nnumber: 1\ntitle: Record architecture decisions\ndate: 2024-03-04\nstatus: accepted\n---\n\n## Context\n\nSome context.\n\n## Decision\n\nSome decision.\n\n## Consequences\n\nSome consequences.\n";
    let report = lint_text("0001-record-architecture-decisions.md", 1, "Record architecture decisions", content);
    assert!(!report.issues.iter().any(|i| i.rule_id == "ADR004" || i.rule_id == "ADR005"), "got: {:?}", report.issues);
}

#[test]
fn test_genuine_madr_missing_decision_outcome_still_flagged() {
    let content = "---\nnumber: 1\ntitle: Use Postgres\ndate: 2024-03-04\nstatus: accepted\n---\n\n## Context and Problem Statement\n\nWhich database?\n\n## Considered Options\n\n* Postgres\n* MySQL\n";
    let report = lint_text("0001-use-postgres.md", 1, "Use Postgres", content);
    assert!(report.issues.iter().any(|i| i.rule_id == "ADR005"), "got: {:?}", report.issues);
}

#[test]
fn test_check_all_reports_parse_errors() {
    let repo = repo_with(None, true, &[]);
    let bad_content = "---\nnumber: 2\nstatus: accepted\ndate: not-a-date\n---\n\n# 2. Bad Date\n";
    let path = format!("{}/0002-bad-date.md", repo.adr_path());
    let err = read_file(&path, bad_content).unwrap_err();

    let report = check_all(&repo, &vec![(path, err)]);
    let parse_errors: Vec<_> = report.issues.iter().filter(|i| i.rule_id == "parse-error").collect();
    assert_eq!(parse_errors.len(), 1);
    assert_eq!(parse_errors[0].severity, IssueSeverity::Error);
    assert!(parse_errors[0].path.as_ref().unwrap().contains("0002-bad-date.md"));
}

#[test]
fn test_check_repository_broken_link_adr013() {
    let repo = repo_with(
        None,
        false,
        &[("0002-second.md", make_nygard_adr(2, "Second", "Accepted", "\n\nSupersedes [99. Unknown](0099-unknown.md)\n"))],
    );
    let report = check_repository(&repo);
    assert!(report.issues.iter().any(|i| i.rule_id == "ADR013"), "got: {:?}", report.issues);
}

#[test]
fn test_check_repository_frontmatter_broken_link_adr013_error() {
    let repo = repo_with(
        None,
        true,
        &[("0002-second.md", make_frontmatter_adr(2, "Second", "proposed", "links:\n  - target: 99\n    kind: relatesto\n"))],
    );
    let report = check_repository(&repo);
    let broken = report.issues.iter().find(|i| i.rule_id == "ADR013" && i.severity == IssueSeverity::Error);
    assert!(broken.is_some(), "got: {:?}", report.issues);
    let issue = broken.unwrap();
    assert_eq!(issue.adr_number, Some(2));
    assert!(issue.path.is_some());
    assert!(issue.message.contains("links to non-existent ADR 99"), "unexpected message: {}", issue.message);
    assert!(report.has_errors());
}

#[test]
fn test_check_repository_frontmatter_link_to_existing_adr_no_issue() {
    let repo = repo_with(
        None,
        true,
        &[("0002-second.md", make_frontmatter_adr(2, "Second", "proposed", "links:\n  - target: 1\n    kind: relatesto\n"))],
    );
    let report = check_repository(&repo);
    assert!(!report.issues.iter().any(|i| i.rule_id == "ADR013"), "got: {:?}", report.issues);
}

#[test]
fn test_check_repository_dedups_frontmatter_and_body_broken_link() {
    let content = "---\nnumber: 2\ntitle: Second\ndate: 2024-01-01\nstatus: proposed\nlinks:\n  - target: 99\n    kind: relatesto\n---\n\n# 2. Second\n\nDate: 2024-01-01\n\n## Status\n\nProposed\n\nRelates to [99. ...](0099-....md)\n\n## Context\n\nSome context.\n\n## Decision\n\nA decision.\n\n## Consequences\n\nSome consequences.\n";
    let repo = repo_with(None, true, &[("0002-second.md", content.to_string())]);
    let report = check_repository(&repo);
    let adr013: Vec<_> = report.issues.iter().filter(|i| i.rule_id == "ADR013").collect();
    assert_eq!(adr013.len(), 1, "got: {:?}", adr013);
    assert_eq!(adr013[0].severity, IssueSeverity::Error);
}

#[test]
fn test_check_repository_dedups_frontmatter_and_body_link_with_real_filename() {
    let content = "---\nnumber: 2\ntitle: Second\ndate: 2024-01-01\nstatus: proposed\nlinks:\n  - target: 99\n    kind: relatesto\n---\n\n# 2. Second\n\nDate: 2024-01-01\n\n## Status\n\nProposed\n\nRelates to [99. Old Title](0099-old-title.md)\n\n## Context\n\nSome context.\n\n## Decision\n\nA decision.\n\n## Consequences\n\nSome consequences.\n";
    let repo = repo_with(None, true, &[("0002-second.md", content.to_string())]);
    let report = check_repository(&repo);
    let adr013: Vec<_> = report.issues.iter().filter(|i| i.rule_id == "ADR013").collect();
    assert_eq!(adr013.len(), 1, "got: {:?}", adr013);
    assert_eq!(adr013[0].severity, IssueSeverity::Error);
}

#[test]
fn test_check_repository_asymmetric_link_half_deleted_one_warning() {
    let repo = repo_with(
        None,
        false,
        &[(
            "0002-second.md",
            make_nygard_adr(
                2,
                "Second",
                "Accepted",
                "\n\nSupersedes [1. Record architecture decisions](0001-record-architecture-decisions.md)\n",
            ),
        )],
    );
    let report = check_repository(&repo);
    let warnings: Vec<_> = report.issues.iter().filter(|i| i.rule_id == "asymmetric-link").collect();
    assert_eq!(warnings.len(), 1, "got: {:?}", report.issues);
    assert_eq!(warnings[0].rule_name, "adr-asymmetric-link");
    assert_eq!(warnings[0].severity, IssueSeverity::Warning);
    assert_eq!(warnings[0].adr_number, Some(2));
    assert!(
        warnings[0].message.contains("ADR 2")
            && warnings[0].message.contains("ADR 1")
            && warnings[0].message.contains("no link back to ADR 2"),
        "unexpected message: {}",
        warnings[0].message
    );
}

#[test]
fn test_check_repository_asymmetric_link_mis_targeted_two_warnings() {
    let repo = repo_with(
        None,
        true,
        &[
            (
                "0001-record-architecture-decisions.md",
                make_frontmatter_adr(
                    1,
                    "Record architecture decisions",
                    "superseded",
                    "links:\n  - target: 3\n    kind: supersededby\n",
                ),
            ),
            ("0002-second.md", make_frontmatter_adr(2, "Second", "proposed", "links:\n  - target: 1\n    kind: supersedes\n")),
            ("0003-third.md", make_frontmatter_adr(3, "Third", "proposed", "")),
        ],
    );
    let report = check_repository(&repo);
    let warnings: Vec<_> = report.issues.iter().filter(|i| i.rule_id == "asymmetric-link").collect();
    assert_eq!(warnings.len(), 2, "got: {:?}", report.issues);
    let numbers: Vec<_> = warnings.iter().filter_map(|i| i.adr_number).collect();
    assert!(numbers.contains(&1) && numbers.contains(&2), "got: {numbers:?}");
    assert!(warnings.iter().all(|i| i.severity == IssueSeverity::Warning));
}

#[test]
fn test_check_repository_symmetric_link_via_repository_link_no_warning() {
    let mut repo = repo_with(None, true, &[("0002-second.md", make_frontmatter_adr(2, "Second", "proposed", ""))]);
    repo.link(2, 1, LinkKind::Supersedes, LinkKind::SupersededBy).unwrap();
    let report = check_repository(&repo);
    assert!(!report.issues.iter().any(|i| i.rule_id == "asymmetric-link"), "got: {:?}", report.issues);
}

#[test]
fn test_check_repository_non_derived_reverse_kind_no_warning() {
    let mut repo = repo_with(None, true, &[("0002-second.md", make_frontmatter_adr(2, "Second", "proposed", ""))]);
    repo.link(2, 1, LinkKind::Supersedes, LinkKind::RelatesTo).unwrap();
    let report = check_repository(&repo);
    assert!(!report.issues.iter().any(|i| i.rule_id == "asymmetric-link"), "got: {:?}", report.issues);
}

#[test]
fn test_check_repository_broken_link_no_asymmetric_link_warning() {
    let repo = repo_with(
        None,
        false,
        &[("0002-second.md", make_nygard_adr(2, "Second", "Accepted", "\n\nSupersedes [99. Unknown](0099-unknown.md)\n"))],
    );
    let report = check_repository(&repo);
    assert!(report.issues.iter().any(|i| i.rule_id == "ADR013"));
    assert!(!report.issues.iter().any(|i| i.rule_id == "asymmetric-link"), "got: {:?}", report.issues);
}

#[test]
fn test_check_repository_symmetric_relates_to_no_warning() {
    let mut repo = repo_with(None, false, &[("0002-second.md", make_nygard_adr(2, "Second", "Accepted", ""))]);
    repo.link(2, 1, LinkKind::RelatesTo, LinkKind::RelatesTo).unwrap();
    let report = check_repository(&repo);
    assert!(!report.issues.iter().any(|i| i.rule_id == "asymmetric-link"), "got: {:?}", report.issues);
}

#[test]
fn test_check_repository_one_way_relates_to_one_warning() {
    let repo = repo_with(
        None,
        false,
        &[(
            "0002-second.md",
            make_nygard_adr(
                2,
                "Second",
                "Accepted",
                "\n\nRelates to [1. Record architecture decisions](0001-record-architecture-decisions.md)\n",
            ),
        )],
    );
    let report = check_repository(&repo);
    assert_eq!(count(&report, "asymmetric-link"), 1, "got: {:?}", report.issues);
}

fn gap_repo() -> Repository {
    repo_with(
        None,
        false,
        &[
            ("0002-second.md", make_nygard_adr(2, "Second", "Accepted", "")),
            ("0004-fourth.md", make_nygard_adr(4, "Fourth", "Accepted", "")),
        ],
    )
}

#[test]
fn test_check_repository_sequential_gap_adr011() {
    let report = check_repository(&gap_repo());
    assert!(report.issues.iter().any(|i| i.rule_id == "ADR011"), "got: {:?}", report.issues);
}

#[test]
fn test_check_repository_clean_repo_has_no_issues() {
    let repo = repo_with(
        None,
        false,
        &[
            ("0002-second.md", make_nygard_adr(2, "Second", "Accepted", "")),
            ("0003-third.md", make_nygard_adr(3, "Third", "Proposed", "")),
        ],
    );
    let report = check_repository(&repo);
    let ids = ["ADR010", "ADR011", "ADR012", "ADR013"];
    let found: Vec<_> = report.issues.iter().filter(|i| ids.contains(&i.rule_id.as_str())).collect();
    assert!(found.is_empty(), "got: {:?}", found);
}

#[test]
fn test_check_all_combines_lint_and_repository_checks() {
    let repo = repo_with(None, false, &[("0001-first.md", make_nygard_adr(1, "First", "Accepted", ""))]);
    let report = check_all(&repo, &vec![]);
    assert_eq!(count(&report, "ADR011"), 0);
}

#[test]
fn test_check_all_filtered_suppresses_ignored_rule() {
    let repo = gap_repo();
    assert!(count(&check_repository(&repo), "ADR011") > 0);

    let (filtered, _, _) = check_all_filtered(&repo, &vec![], &doctor(&["adr011"], &[]), &vec![]);
    assert_eq!(count(&filtered, "ADR011"), 0);
    assert!(check_repository(&repo).issues.iter().any(|i| i.rule_id == "ADR011"));
}

#[test]
fn test_check_all_filtered_returns_suppressed_count() {
    let repo = gap_repo();
    let unfiltered = check_all(&repo, &vec![]);
    let unfiltered_adr011 = count(&unfiltered, "ADR011");
    assert!(unfiltered_adr011 > 0);

    let (filtered, suppressed, warnings) = check_all_filtered(&repo, &vec![], &doctor(&["ADR011"], &[]), &vec![]);
    assert_eq!(suppressed, unfiltered_adr011);
    assert!(filtered.issues.iter().all(|i| i.rule_id != "ADR011"));
    assert!(warnings.is_empty());
}

#[test]
fn test_check_all_filtered_scoped_ignore_suppresses_on_matching_record_only() {
    let repo = repo_with(
        None,
        false,
        &[
            ("0002-second.md", make_nygard_adr_with_consequences(2, "Second", "Accepted", "TBD")),
            ("0003-third.md", make_nygard_adr_with_consequences(3, "Third", "Accepted", "TBD")),
        ],
    );
    let (unfiltered, _, _) = check_all_filtered(&repo, &vec![], &DoctorConfig::default(), &vec![]);
    let paths: Vec<String> =
        unfiltered.issues.iter().filter(|i| i.rule_id == "ADR014").filter_map(|i| i.path.clone()).collect();
    assert!(paths.iter().any(|p| p.ends_with("0002-second.md")), "got: {paths:?}");
    assert!(paths.iter().any(|p| p.ends_with("0003-third.md")), "got: {paths:?}");

    let config = doctor(&[], &[("doc/adr/0002-*.md", &["ADR014"])]);
    let (filtered, suppressed, warnings) = check_all_filtered(&repo, &vec![], &config, &vec![]);
    assert!(warnings.is_empty(), "got {warnings:?}");
    assert!(suppressed > 0);
    let paths: Vec<String> =
        filtered.issues.iter().filter(|i| i.rule_id == "ADR014").filter_map(|i| i.path.clone()).collect();
    assert!(!paths.iter().any(|p| p.ends_with("0002-second.md")), "got: {paths:?}");
    assert!(paths.iter().any(|p| p.ends_with("0003-third.md")), "got: {paths:?}");
}

#[test]
fn test_check_all_filtered_scoped_ignore_double_star_matches_subdirectory() {
    let repo = repo_with(
        Some("docs/architecture/decisions"),
        false,
        &[("0002-second.md", make_nygard_adr_with_consequences(2, "Second", "Accepted", "TBD"))],
    );
    let config = doctor(&[], &[("**/0002-*.md", &["ADR014"])]);
    let (filtered, suppressed, warnings) = check_all_filtered(&repo, &vec![], &config, &vec![]);
    assert!(warnings.is_empty(), "got {warnings:?}");
    assert!(suppressed > 0);
    assert!(!filtered
        .issues
        .iter()
        .any(|i| i.rule_id == "ADR014" && i.path.as_ref().is_some_and(|p| p.ends_with("0002-second.md"))));
}

#[test]
fn test_check_all_filtered_scoped_ignore_matching_nothing_suppresses_nothing() {
    let repo = repo_with(
        None,
        false,
        &[("0002-second.md", make_nygard_adr_with_consequences(2, "Second", "Accepted", "TBD"))],
    );
    let config = doctor(&[], &[("doc/adr/9999-*.md", &["ADR014"])]);
    let (filtered, suppressed, warnings) = check_all_filtered(&repo, &vec![], &config, &vec![]);
    assert!(warnings.is_empty(), "got {warnings:?}");
    assert_eq!(suppressed, 0);
    assert!(filtered.issues.iter().any(|i| i.rule_id == "ADR014"));
}

#[test]
fn test_check_all_filtered_scoped_and_repo_wide_ignores_compose() {
    let repo = repo_with(
        None,
        false,
        &[
            ("0002-second.md", make_nygard_adr_with_consequences(2, "Second", "Accepted", "TBD")),
            ("0003-third.md", make_nygard_adr(3, "Third", "Accepted", "")),
            ("0005-fifth.md", make_nygard_adr(5, "Fifth", "Accepted", "")),
        ],
    );
    let (unfiltered, _, _) = check_all_filtered(&repo, &vec![], &DoctorConfig::default(), &vec![]);
    let adr014 = count(&unfiltered, "ADR014");
    let adr011 = count(&unfiltered, "ADR011");
    assert!(adr014 > 0);
    assert!(adr011 > 0);

    let config = doctor(&["ADR011"], &[("doc/adr/0002-*.md", &["ADR014"])]);
    let (filtered, suppressed, warnings) = check_all_filtered(&repo, &vec![], &config, &vec![]);
    assert!(warnings.is_empty(), "got {warnings:?}");
    assert_eq!(suppressed, adr014 + adr011);
    assert_eq!(count(&filtered, "ADR014"), 0);
    assert_eq!(count(&filtered, "ADR011"), 0);
}

#[test]
fn test_check_all_filtered_scoped_ignore_matches_by_rule_name() {
    let repo = repo_with(
        None,
        false,
        &[("0002-second.md", make_nygard_adr_with_consequences(2, "Second", "Accepted", "TBD"))],
    );
    let (unfiltered, _, _) = check_all_filtered(&repo, &vec![], &DoctorConfig::default(), &vec![]);
    let rule_name = unfiltered
        .issues
        .iter()
        .find(|i| i.rule_id == "ADR014")
        .map(|i| i.rule_name.clone())
        .expect("expected an ADR014 issue");

    let config = doctor(&[], &[("doc/adr/0002-*.md", &[rule_name.as_str()])]);
    let (filtered, suppressed, warnings) = check_all_filtered(&repo, &vec![], &config, &vec![]);
    assert!(warnings.is_empty(), "got {warnings:?}");
    assert!(suppressed > 0);
    assert_eq!(count(&filtered, "ADR014"), 0);
}

#[test]
fn test_check_all_filtered_invalid_glob_warns_and_config_still_loads() {
    let repo = repo_with(
        None,
        false,
        &[("0002-second.md", make_nygard_adr_with_consequences(2, "Second", "Accepted", "TBD"))],
    );
    let config = doctor(&[], &[("doc/adr/[0002-*.md", &["ADR014"])]);
    let (filtered, suppressed, warnings) = check_all_filtered(&repo, &vec![], &config, &vec![]);
    assert_eq!(suppressed, 0);
    assert!(filtered.issues.iter().any(|i| i.rule_id == "ADR014"));
    assert!(warnings.iter().any(|w| w.contains("doc/adr/[0002-*.md")), "got: {warnings:?}");
}

#[test]
fn test_check_all_filtered_ignore_path_naming_collection_rule_warns() {
    let repo = repo_with(None, false, &[("0002-second.md", make_nygard_adr(2, "Second", "Accepted", ""))]);
    let config = doctor(&[], &[("doc/adr/0002-*.md", &["ADR011"])]);
    let (_, _, warnings) = check_all_filtered(&repo, &vec![], &config, &vec![]);
    assert!(warnings.iter().any(|w| w.contains("ADR011")), "got: {warnings:?}");
}
