use adrs_core::config::{Config, ConfigMode};
use adrs_core::error::Error;
use adrs_core::lint::{check_repository, lint_all};
use adrs_core::repository::{counts_as_existing_adr, is_adr_file_name, AdrFile, Repository};
use adrs_core::types::{Adr, AdrLink, AdrStatus, LinkKind};

fn file(number: u32, title: &str, content: &str) -> AdrFile {
    let adr = Adr::new(number, title);
    AdrFile { path: format!("/p/doc/adr/{}", adr.filename()), adr, content: content.to_string() }
}

fn legacy_text(number: u32, title: &str) -> String {
    format!(
        "# {}. {}\n\nDate: 2024-01-01\n\n## Status\n\nProposed\n\n## Context\n\nc\n\n## Decision\n\nd\n",
        number, title
    )
}

fn repo() -> Repository {
    let files = vec![
        file(2, "Second", &legacy_text(2, "Second")),
        file(1, "First", &legacy_text(1, "First")),
    ];
    Repository::open("/p", Config::default(), files)
}

#[test]
fn open_sorts_by_number_and_records_paths() {
    let r = repo();
    let adrs = r.list();
    assert_eq!(adrs.len(), 2);
    assert_eq!(adrs[0].number, 1);
    assert_eq!(adrs[1].number, 2);
    assert_eq!(adrs[0].path, Some("/p/doc/adr/0001-first.md".to_string()));
    assert_eq!(r.adr_path(), "/p/doc/adr");
    assert_eq!(r.root(), "/p");
}

#[test]
fn next_number_follows_the_last() {
    assert_eq!(repo().next_number(), 3);
    assert_eq!(Repository::open("/p", Config::default(), vec![]).next_number(), 1);
}

#[test]
fn get_finds_by_number() {
    let r = repo();
    assert_eq!(r.get(2).unwrap().title, "Second");
    assert!(matches!(r.get(9), Err(Error::AdrNotFound(s)) if s == "9"));
}

#[test]
fn find_by_number_or_title() {
    let r = repo();
    assert_eq!(r.find("1").unwrap().title, "First");
    assert_eq!(r.find("Second").unwrap().number, 2);
    assert!(matches!(r.find("zzzz"), Err(Error::AdrNotFound(_))));
}

#[test]
fn set_status_then_get() {
    let mut r = repo();
    r.set_status(1, AdrStatus::Accepted, None).unwrap();
    assert_eq!(r.get(1).unwrap().status, AdrStatus::Accepted);
    let content = r.read_content(&r.get(1).unwrap()).unwrap();
    assert!(content.contains("## Status\n\nAccepted\n"));
    assert!(content.contains("## Context\n\nc\n"));
}

#[test]
fn set_status_superseded_adds_link() {
    let mut r = repo();
    r.set_status(1, AdrStatus::Superseded, Some(2)).unwrap();
    let a = r.get(1).unwrap();
    assert_eq!(a.status, AdrStatus::Superseded);
    assert_eq!(a.links.len(), 1);
    assert_eq!(a.links[0].target, 2);
    assert_eq!(a.links[0].kind, LinkKind::SupersededBy);
    let content = r.read_content(&a).unwrap();
    assert!(content.contains("Superseded by [2. Second](0002-second.md)"));
    assert!(matches!(r.set_status(1, AdrStatus::Superseded, Some(7)), Err(Error::AdrNotFound(_))));
    assert!(matches!(r.set_status(5, AdrStatus::Accepted, None), Err(Error::AdrNotFound(_))));
}

#[test]
fn link_is_bidirectional() {
    let mut r = repo();
    r.link(1, 2, LinkKind::Amends, LinkKind::AmendedBy).unwrap();
    let a = r.get(1).unwrap();
    let b = r.get(2).unwrap();
    assert_eq!(a.links[0].target, 2);
    assert_eq!(a.links[0].kind, LinkKind::Amends);
    assert_eq!(b.links[0].target, 1);
    assert_eq!(b.links[0].kind, LinkKind::AmendedBy);
}

#[test]
fn frontmatter_metadata_is_replaced_in_place() {
    let content = "---\n# comment\nnumber: 1\ntitle: First\nstatus: proposed\nextra: keep\n---\n\n## Context\n\nbody\n";
    let files = vec![file(1, "First", content)];
    let mut r = Repository::open("/p", Config { mode: ConfigMode::NextGen, ..Default::default() }, files);
    let mut adr = r.get(1).unwrap();
    adr.status = AdrStatus::Accepted;
    adr.tags = vec!["db".to_string()];
    r.update_metadata(&adr).unwrap();
    let text = r.read_content(&adr).unwrap();
    assert!(text.starts_with("---\n# comment\nnumber: 1\ntitle: First\nstatus: accepted\nextra: keep\ntags:\n  - db\n---\n"));
    assert!(text.ends_with("## Context\n\nbody\n"));
}

#[test]
fn yaml_blocks_are_formatted() {
    let links = vec![AdrLink::new(2, LinkKind::SupersededBy), AdrLink::new(3, LinkKind::Custom("Extends".into()))];
    assert_eq!(
        Repository::format_links_yaml(&links),
        "links:\n  - target: 2\n    kind: supersededby\n  - target: 3\n    kind: Extends\n"
    );
    assert_eq!(Repository::format_links_yaml(&vec![]), "");
    assert_eq!(Repository::format_tags_yaml(&vec!["a".to_string()]), "tags:\n  - a\n");
}

#[test]
fn file_names_are_recognised() {
    assert!(is_adr_file_name("0001-a.md"));
    assert!(!is_adr_file_name("README.md"));
    assert!(!is_adr_file_name("0001-a.txt"));
    assert!(counts_as_existing_adr("0001-a.md"));
    assert!(!counts_as_existing_adr("001-a.md"));
}

#[test]
fn lint_runs_over_the_repository() {
    let r = repo();
    let report = lint_all(&r);
    let mut prev = None;
    for issue in &report.issues {
        if let Some(p) = prev {
            assert!(p >= issue.severity);
        }
        prev = Some(issue.severity);
    }
    let repo_report = check_repository(&r);
    assert!(!repo_report.issues.iter().any(|i| i.rule_id == "asymmetric-link"));
}

#[test]
fn frontmatter_status_update_changes_only_the_status_line() {
    let mut adr = Adr::new(2, "Second");
    adr.status = AdrStatus::Accepted;
    let out = Repository::update_frontmatter_metadata(&adr, "---\nnumber: 2\nstatus: proposed\n---\nbody\n").unwrap();
    assert_eq!(out, "---\nnumber: 2\nstatus: accepted\n---\nbody\n");
}

#[test]
fn noop_frontmatter_update_keeps_described_links() {
    let content = "---\nnumber: 7\nstatus: accepted\nlinks:\n  - target: 2\n    kind: relates-to\n    description: Database choice affects token storage\n---\n\n## Context\n\nC.\n";
    let mut adr = Adr::new(7, "Seventh");
    adr.status = AdrStatus::Accepted;
    adr.links = vec![AdrLink::with_description(2, LinkKind::Custom("relates-to".into()), "Database choice affects token storage")];
    let out = Repository::update_frontmatter_metadata(&adr, content).unwrap();
    assert_eq!(out, content);
}
