use adrs_core::error::Error;
use adrs_core::config::{AdrDirFile, ConfigWrite};
use adrs_core::repository::{AdrFile, Repository};
use adrs_core::template::{Template, TemplateFormat};
use adrs_core::types::{AdrStatus, LinkKind};

const ROOT: &str = "/tmp/project";

fn init(adr_dir: Option<&str>, ng: bool) -> Repository {
    Repository::init(ROOT, adr_dir, ng, vec![], 0).unwrap()
}

fn copy_files(repo: &Repository) -> Vec<AdrFile> {
    repo.files()
        .iter()
        .map(|f| AdrFile { path: f.path.clone(), adr: f.adr.clone(), content: f.content.clone() })
        .collect()
}

fn content_at(repo: &Repository, name: &str) -> String {
    repo.files().iter().find(|f| f.path.ends_with(name)).unwrap().content.clone()
}

#[test]
fn test_init_repository() {
    let repo = init(None, false);
    assert_eq!(repo.adr_path(), "/tmp/project/doc/adr");
    assert!(matches!(repo.config().save(ROOT), ConfigWrite::File { path, .. } if path == "/tmp/project/.adr-dir"));

    let adrs = repo.list();
    assert_eq!(adrs.len(), 1);
    assert_eq!(adrs[0].number, 1);
    assert_eq!(adrs[0].title, "Record architecture decisions");
}

#[test]
fn test_init_repository_ng() {
    let repo = init(None, true);
    assert!(matches!(repo.config().save(ROOT), ConfigWrite::Toml { path } if path == "/tmp/project/adrs.toml"));
    assert!(repo.config().is_next_gen());
}

#[test]
fn test_init_repository_custom_dir() {
    let repo = init(Some("decisions"), false);
    assert_eq!(repo.adr_path(), "/tmp/project/decisions");
    assert_eq!(repo.config().adr_dir, "decisions");
}

#[test]
fn test_init_repository_nested_dir() {
    let repo = init(Some("docs/architecture/adr"), false);
    assert_eq!(repo.adr_path(), "/tmp/project/docs/architecture/adr");
    assert!(repo.files()[0].path.starts_with("/tmp/project/docs/architecture/adr/"));
}

#[test]
fn test_init_repository_already_exists_skips_initial_adr() {
    let first = init(None, false);
    let repo = Repository::init(ROOT, None, false, copy_files(&first), 1).unwrap();
    assert_eq!(repo.list().len(), 1);
}

#[test]
fn test_init_creates_first_adr() {
    let repo = init(None, false);
    let adr = repo.get(1).unwrap();
    assert_eq!(adr.title, "Record architecture decisions");
    assert_eq!(adr.status, AdrStatus::Accepted);
    assert!(!adr.context.is_empty());
    assert!(!adr.decision.is_empty());
    assert!(!adr.consequences.is_empty());
}

#[test]
fn test_open_repository() {
    let first = init(None, false);
    let repo = Repository::open(ROOT, first.config().clone(), copy_files(&first));
    assert_eq!(repo.list().len(), 1);
}

#[test]
fn test_create_and_list() {
    let mut repo = init(None, false);
    let (adr, _) = repo.new_adr("Use Rust").unwrap();
    assert_eq!(adr.number, 2);
    assert_eq!(repo.list().len(), 2);
}

#[test]
fn test_create_multiple() {
    let mut repo = init(None, false);
    repo.new_adr("Second").unwrap();
    repo.new_adr("Third").unwrap();
    repo.new_adr("Fourth").unwrap();

    let adrs = repo.list();
    assert_eq!(adrs.len(), 4);
    assert_eq!(adrs[0].number, 1);
    assert_eq!(adrs[1].number, 2);
    assert_eq!(adrs[2].number, 3);
    assert_eq!(adrs[3].number, 4);
}

#[test]
fn test_list_sorted_by_number() {
    let mut repo = init(None, false);
    repo.new_adr("B").unwrap();
    repo.new_adr("A").unwrap();
    repo.new_adr("C").unwrap();
    let adrs = repo.list();
    assert!(adrs.windows(2).all(|w| w[0].number < w[1].number));
}

#[test]
fn test_next_number() {
    let mut repo = init(None, false);
    assert_eq!(repo.next_number(), 2);
    repo.new_adr("Second").unwrap();
    assert_eq!(repo.next_number(), 3);
}

#[test]
fn test_create_file_exists() {
    let mut repo = init(None, false);
    let (_, path) = repo.new_adr("Test ADR").unwrap();
    assert!(repo.files().iter().any(|f| f.path == path));
    assert!(path.contains("0002-test-adr.md"));
}

#[test]
fn test_get_by_number() {
    let mut repo = init(None, false);
    repo.new_adr("Second").unwrap();
    assert_eq!(repo.get(2).unwrap().title, "Second");
}

#[test]
fn test_get_not_found() {
    let repo = init(None, false);
    assert!(repo.get(99).is_err());
}

#[test]
fn test_find_by_number() {
    let repo = init(None, false);
    assert_eq!(repo.find("1").unwrap().number, 1);
}

#[test]
fn test_find_by_title() {
    let repo = init(None, false);
    assert_eq!(repo.find("architecture").unwrap().number, 1);
}

#[test]
fn test_find_fuzzy_match() {
    let mut repo = init(None, false);
    repo.new_adr("Use PostgreSQL for database").unwrap();
    repo.new_adr("Use Redis for caching").unwrap();
    let adr = repo.find("postgres").unwrap();
    assert!(adr.title.contains("PostgreSQL"));
}

#[test]
fn test_find_not_found() {
    let repo = init(None, false);
    assert!(repo.find("nonexistent").is_err());
}

#[test]
fn test_supersede() {
    let mut repo = init(None, false);
    let (new_adr, _) = repo.supersede("New approach", 1).unwrap();
    assert_eq!(new_adr.number, 2);
    assert_eq!(new_adr.links.len(), 1);
    assert_eq!(new_adr.links[0].kind, LinkKind::Supersedes);
    assert_eq!(repo.get(1).unwrap().status, AdrStatus::Superseded);
}

#[test]
fn test_supersede_creates_bidirectional_links() {
    let mut repo = init(None, false);
    repo.supersede("New approach", 1).unwrap();

    let old_adr = repo.get(1).unwrap();
    assert_eq!(old_adr.links.len(), 1);
    assert_eq!(old_adr.links[0].target, 2);
    assert_eq!(old_adr.links[0].kind, LinkKind::SupersededBy);

    let new_adr = repo.get(2).unwrap();
    assert_eq!(new_adr.links.len(), 1);
    assert_eq!(new_adr.links[0].target, 1);
    assert_eq!(new_adr.links[0].kind, LinkKind::Supersedes);
}

#[test]
fn test_supersede_not_found() {
    let mut repo = init(None, false);
    assert!(repo.supersede("New", 99).is_err());
}

#[test]
fn test_set_status_accepted() {
    let mut repo = init(None, false);
    repo.new_adr("Test Decision").unwrap();
    repo.set_status(2, AdrStatus::Accepted, None).unwrap();
    assert_eq!(repo.get(2).unwrap().status, AdrStatus::Accepted);
}

#[test]
fn test_set_status_deprecated() {
    let mut repo = init(None, false);
    repo.new_adr("Old Decision").unwrap();
    repo.set_status(2, AdrStatus::Deprecated, None).unwrap();
    assert_eq!(repo.get(2).unwrap().status, AdrStatus::Deprecated);
}

#[test]
fn test_set_status_superseded_with_link() {
    let mut repo = init(None, false);
    repo.new_adr("First Decision").unwrap();
    repo.new_adr("Second Decision").unwrap();
    repo.set_status(2, AdrStatus::Superseded, Some(3)).unwrap();

    let adr = repo.get(2).unwrap();
    assert_eq!(adr.status, AdrStatus::Superseded);
    assert_eq!(adr.links.len(), 1);
    assert_eq!(adr.links[0].target, 3);
    assert_eq!(adr.links[0].kind, LinkKind::SupersededBy);
}

#[test]
fn test_set_status_superseded_without_link() {
    let mut repo = init(None, false);
    repo.new_adr("Decision").unwrap();
    repo.set_status(2, AdrStatus::Superseded, None).unwrap();
    let adr = repo.get(2).unwrap();
    assert_eq!(adr.status, AdrStatus::Superseded);
    assert_eq!(adr.links.len(), 0);
}

#[test]
fn test_set_status_custom() {
    let mut repo = init(None, false);
    repo.new_adr("Test Decision").unwrap();
    repo.set_status(2, AdrStatus::Custom("Draft".into()), None).unwrap();
    assert_eq!(repo.get(2).unwrap().status, AdrStatus::Custom("Draft".into()));
}

#[test]
fn test_set_status_adr_not_found() {
    let mut repo = init(None, false);
    assert!(repo.set_status(99, AdrStatus::Accepted, None).is_err());
}

#[test]
fn test_set_status_superseded_by_not_found() {
    let mut repo = init(None, false);
    repo.new_adr("Decision").unwrap();
    assert!(repo.set_status(2, AdrStatus::Superseded, Some(99)).is_err());
}

#[test]
fn test_link_adrs() {
    let mut repo = init(None, false);
    repo.new_adr("Second").unwrap();
    repo.link(1, 2, LinkKind::Amends, LinkKind::AmendedBy).unwrap();

    let adr1 = repo.get(1).unwrap();
    assert_eq!(adr1.links.len(), 1);
    assert_eq!(adr1.links[0].target, 2);
    assert_eq!(adr1.links[0].kind, LinkKind::Amends);

    let adr2 = repo.get(2).unwrap();
    assert_eq!(adr2.links.len(), 1);
    assert_eq!(adr2.links[0].target, 1);
    assert_eq!(adr2.links[0].kind, LinkKind::AmendedBy);
}

#[test]
fn test_link_relates_to() {
    let mut repo = init(None, false);
    repo.new_adr("Second").unwrap();
    repo.link(1, 2, LinkKind::RelatesTo, LinkKind::RelatesTo).unwrap();
    assert_eq!(repo.get(1).unwrap().links[0].kind, LinkKind::RelatesTo);
    assert_eq!(repo.get(2).unwrap().links[0].kind, LinkKind::RelatesTo);
}

#[test]
fn test_update_adr() {
    let mut repo = init(None, false);
    let mut adr = repo.get(1).unwrap();
    adr.status = AdrStatus::Deprecated;
    repo.update(&adr).unwrap();
    assert_eq!(repo.get(1).unwrap().status, AdrStatus::Deprecated);
}

#[test]
fn test_update_preserves_content() {
    let mut repo = init(None, false);
    let mut adr = repo.get(1).unwrap();
    let original_title = adr.title.clone();
    adr.status = AdrStatus::Deprecated;
    repo.update(&adr).unwrap();
    assert_eq!(repo.get(1).unwrap().title, original_title);
}

#[test]
fn test_read_content() {
    let repo = init(None, false);
    let adr = repo.get(1).unwrap();
    let content = repo.read_content(&adr).unwrap();
    assert!(content.contains("Record architecture decisions"));
    assert!(content.contains("## Status"));
}

#[test]
fn test_write_content() {
    let mut repo = init(None, false);
    let adr = repo.get(1).unwrap();
    repo.write_content(&adr, "# 1. Modified\n\n## Status\n\nAccepted\n");
    let content = repo.read_content(&adr).unwrap();
    assert!(content.contains("Modified"));
}

#[test]
fn test_with_template_format() {
    let mut repo = init(None, false).with_template_format(TemplateFormat::Madr);
    repo.new_adr("MADR Test").unwrap();
    assert!(content_at(&repo, "0002-madr-test.md").contains("Context and Problem Statement"));
}

#[test]
fn test_with_custom_template() {
    let custom = Template::from_string("custom", "# ADR {{ number }}: {{ title }}");
    let mut repo = init(None, false).with_custom_template(custom);
    repo.new_adr("Custom Test").unwrap();
    assert_eq!(content_at(&repo, "0002-custom-test.md"), "# ADR 2: Custom Test");
}

#[test]
fn test_root() {
    let repo = init(None, false);
    assert_eq!(repo.root(), ROOT);
}

#[test]
fn test_config() {
    let repo = init(Some("custom"), true);
    assert_eq!(repo.config().adr_dir, "custom");
    assert!(repo.config().is_next_gen());
}

#[test]
fn test_adr_path() {
    let repo = init(Some("my/adrs"), false);
    assert_eq!(repo.adr_path(), "/tmp/project/my/adrs");
}

#[test]
fn test_ng_mode_creates_frontmatter() {
    let mut repo = init(None, true);
    repo.new_adr("NG Test").unwrap();
    let content = content_at(&repo, "0002-ng-test.md");
    assert!(content.starts_with("---"));
    assert!(content.contains("number: 2"));
    assert!(content.contains("title: NG Test"));
}

#[test]
fn test_ng_mode_parses_frontmatter() {
    let mut repo = init(None, true);
    repo.new_adr("NG ADR").unwrap();
    let adr = repo.get(2).unwrap();
    assert_eq!(adr.title, "NG ADR");
    assert_eq!(adr.number, 2);
}

#[test]
fn test_special_characters_in_title() {
    let mut repo = init(None, false);
    let (adr, path) = repo.new_adr("Use C++ & Rust!").unwrap();
    assert!(repo.files().iter().any(|f| f.path == path));
    assert_eq!(adr.title, "Use C++ & Rust!");
}

#[test]
fn legacy_status_update_keeps_the_other_sections() {
    let repo = init(None, false);
    let content = "# 2. Pick a store\n\nDate: 2024-05-06\n\n## Status\n\nProposed\n\n## Context\n\nWe need **storage**.\n\n## Decision\n\nUse `sqlite`.\n";
    let mut adr = adrs_core::types::Adr::new(2, "Pick a store");
    adr.status = AdrStatus::Accepted;
    let updated = repo.update_legacy_metadata(&adr, content);
    assert!(updated.starts_with("# 2. Pick a store\n\nDate: 2024-05-06\n\n## Status\n"));
    assert!(updated.ends_with("## Context\n\nWe need **storage**.\n\n## Decision\n\nUse `sqlite`.\n"));
    assert!(updated.contains("\nAccepted\n"));
}

#[test]
fn test_open_or_default() {
    let repo = Repository::open_or_default(ROOT, &vec![], false, false, false, vec![]);
    assert_eq!(repo.config().adr_dir, "doc/adr");
}

#[test]
fn test_open_or_default_existing() {
    let first = init(Some("custom"), false);
    let written = match first.config().save(ROOT) {
        ConfigWrite::File { content, .. } => content,
        other => panic!("unexpected {:?}", other),
    };
    let layers = vec![AdrDirFile::new("/tmp/project/.adr-dir").data(Some(written.as_str()))];
    let repo = Repository::open_or_default(ROOT, &layers, false, true, false, copy_files(&first));
    assert_eq!(repo.config().adr_dir, "custom");
}

#[test]
fn load_opens_exactly_when_the_configuration_loads() {
    let layers = vec![AdrDirFile::new("/tmp/project/.adr-dir").data(Some("decisions"))];
    let repo = Repository::load(ROOT, &layers, false, true, false, vec![]).unwrap();
    assert_eq!(repo.config().adr_dir, "decisions");
    assert_eq!(repo.root(), ROOT);
    assert!(matches!(Repository::load(ROOT, &vec![], false, false, false, vec![]), Err(Error::AdrDirNotFound)));
}
