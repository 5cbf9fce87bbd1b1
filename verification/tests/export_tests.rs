use adrs_core::export::{
    export_read_files,
    find_next_number, import_to_directory, json_adr_to_adr, link_kind_to_string,
    string_to_link_kind, ImportOptions, JsonAdr, JsonAdrBulkExport, JsonAdrLink, JSON_ADR_VERSION,
};
use adrs_core::parse::{ParsedContent, Parser};
use adrs_core::types::{Adr, AdrLink, AdrStatus, Date, LinkKind};

#[test]
fn test_json_adr_link_from_adr_link() {
    let link = AdrLink {
        target: 2,
        kind: LinkKind::Supersedes,
        description: Some("Replaces old approach".to_string()),
    };

    let json_link = JsonAdrLink::from(&link);

    assert_eq!(json_link.link_type, "supersedes");
    assert_eq!(json_link.target, 2);
    assert_eq!(json_link.description, Some("Replaces old approach".to_string()));
}

#[test]
fn test_bulk_export_metadata() {
    let export = JsonAdrBulkExport::new(vec![]);

    assert_eq!(export.version, JSON_ADR_VERSION);
    assert!(export.schema.is_some());
    assert!(export.generated_at.is_some());
    assert!(export.tool.is_some());

    let tool = export.tool.unwrap();
    assert_eq!(tool.name, "adrs");
}

#[test]
fn test_bulk_export_with_repository() {
    let export = JsonAdrBulkExport::new(vec![])
        .with_repository(Some("my-project".to_string()), "doc/adr".to_string());

    let repo = export.repository.unwrap();
    assert_eq!(repo.name, Some("my-project".to_string()));
    assert_eq!(repo.adr_directory, "doc/adr");
}

#[test]
fn test_link_kind_to_string() {
    assert_eq!(link_kind_to_string(&LinkKind::Supersedes), "supersedes");
    assert_eq!(link_kind_to_string(&LinkKind::SupersededBy), "superseded-by");
    assert_eq!(link_kind_to_string(&LinkKind::Amends), "amends");
    assert_eq!(link_kind_to_string(&LinkKind::AmendedBy), "amended-by");
    assert_eq!(link_kind_to_string(&LinkKind::RelatesTo), "relates-to");
    assert_eq!(link_kind_to_string(&LinkKind::Custom("extends".to_string())), "extends");
}

#[test]
fn link_types_read_back() {
    assert_eq!(string_to_link_kind("Superseded-By"), LinkKind::SupersededBy);
    assert_eq!(string_to_link_kind("relates-to"), LinkKind::RelatesTo);
    assert_eq!(string_to_link_kind("Extends"), LinkKind::Custom("extends".to_string()));
    for k in [LinkKind::Supersedes, LinkKind::SupersededBy, LinkKind::Amends, LinkKind::AmendedBy, LinkKind::RelatesTo] {
        assert_eq!(string_to_link_kind(&link_kind_to_string(&k)), k);
    }
}

#[test]
fn json_adr_from_adr_keeps_fields() {
    let mut adr = Adr::new(7, "Use Rust");
    adr.context = "ctx".to_string();
    adr.add_link(AdrLink::new(3, LinkKind::Amends));
    let j = JsonAdr::from_adr(&adr);
    assert_eq!(j.number, 7);
    assert_eq!(j.title, "Use Rust");
    assert_eq!(j.status, "Proposed");
    assert_eq!(j.context, Some("ctx".to_string()));
    assert_eq!(j.decision, None);
    assert_eq!(j.links.len(), 1);
    assert_eq!(j.links[0].link_type, "amends");
}

#[test]
fn json_adr_round_trips_through_adr() {
    let mut adr = Adr::new(4, "Pick a database");
    adr.status = AdrStatus::Accepted;
    adr.add_link(AdrLink::new(1, LinkKind::SupersededBy));
    let back = json_adr_to_adr(&JsonAdr::from_adr(&adr));
    assert_eq!(back.number, 4);
    assert_eq!(back.title, "Pick a database");
    assert_eq!(back.status, AdrStatus::Accepted);
    assert_eq!(back.date, adr.date);
    assert_eq!(back.links, adr.links);
}

#[test]
fn next_number_comes_from_file_names() {
    let names = vec![
        "0001-a.md".to_string(),
        "0007-b.md".to_string(),
        "notes.md".to_string(),
        "0009.txt".to_string(),
    ];
    assert_eq!(find_next_number(&names), 8);
    assert_eq!(find_next_number(&vec![]), 1);
}

fn json(number: u32, title: &str, links: Vec<(u32, &str)>) -> JsonAdr {
    let mut adr = Adr::new(number, title);
    for (t, _) in &links {
        adr.add_link(AdrLink::new(*t, LinkKind::RelatesTo));
    }
    JsonAdr::from_adr(&adr)
}

#[test]
fn import_renumbers_and_rewrites_links() {
    let adrs = vec![json(1, "First", vec![]), json(2, "Second", vec![(1, "relates-to"), (9, "relates-to")])];
    let options = ImportOptions { renumber: true, ..Default::default() };
    let existing = vec!["0003-existing.md".to_string()];
    let (result, writes) = import_to_directory(&adrs, "/d", &options, &existing).unwrap();
    assert_eq!(result.imported, 2);
    assert_eq!(result.renumber_map, vec![(1, 4), (2, 5)]);
    assert_eq!(result.files, vec!["/d/0004-first.md".to_string(), "/d/0005-second.md".to_string()]);
    assert_eq!(result.warnings, vec!["ADR 5 links to ADR 9 which is not in the import set".to_string()]);
    assert_eq!(writes.len(), 2);
    assert!(writes[1].1.contains("Relates to [4."));
}

#[test]
fn import_skips_existing_files_unless_overwriting() {
    let adrs = vec![json(1, "First", vec![])];
    let existing = vec!["0001-first.md".to_string()];
    let (result, writes) = import_to_directory(&adrs, "/d", &ImportOptions::default(), &existing).unwrap();
    assert_eq!(result.skipped, 1);
    assert_eq!(result.imported, 0);
    assert!(writes.is_empty());
    let options = ImportOptions { overwrite: true, dry_run: true, ..Default::default() };
    let (result, writes) = import_to_directory(&adrs, "/d", &options, &existing).unwrap();
    assert_eq!(result.imported, 1);
    assert!(writes.is_empty());
}

fn record(number: u32, title: &str, status: &str, date: &str, links: Vec<(u32, &str)>) -> JsonAdr {
    JsonAdr {
        number,
        title: title.to_string(),
        status: status.to_string(),
        date: date.to_string(),
        deciders: vec![],
        consulted: vec![],
        informed: vec![],
        tags: vec![],
        source_uri: None,
        context: Some("Test context".to_string()),
        decision_drivers: vec![],
        considered_options: vec![],
        decision: Some("Test decision".to_string()),
        consequences: Some("Test consequences".to_string()),
        confirmation: None,
        links: links
            .into_iter()
            .map(|(target, t)| JsonAdrLink { link_type: t.to_string(), target, description: None })
            .collect(),
        custom_sections: vec![],
        path: None,
    }
}

#[test]
fn test_json_adr_from_adr() {
    let mut adr = Adr::new(1, "Test Decision");
    adr.status = AdrStatus::Accepted;
    adr.date = Date::from_calendar_date(2024, 1, 15).unwrap();
    adr.context = "Some context".to_string();
    adr.decision = "We decided X".to_string();
    adr.consequences = "This means Y".to_string();
    adr.decision_makers = vec!["Alice".to_string()];
    adr.consulted = vec!["Bob".to_string()];

    let json_adr = JsonAdr::from_adr(&adr);

    assert_eq!(json_adr.number, 1);
    assert_eq!(json_adr.title, "Test Decision");
    assert_eq!(json_adr.status, "Accepted");
    assert_eq!(json_adr.date, "2024-01-15");
    assert_eq!(json_adr.deciders, vec!["Alice"]);
    assert_eq!(json_adr.consulted, vec!["Bob"]);
    assert_eq!(json_adr.source_uri, None);
}

#[test]
fn test_import_basic() {
    let adrs = vec![record(1, "Test Decision", "Proposed", "2024-01-15", vec![])];
    let options = ImportOptions { overwrite: false, renumber: false, dry_run: false, ng_mode: false };
    let (result, writes) = import_to_directory(&adrs, "/tmp/import", &options, &vec![]).unwrap();

    assert_eq!(result.imported, 1);
    assert_eq!(result.skipped, 0);
    assert_eq!(result.files.len(), 1);
    assert_eq!(writes.len(), 1);
    assert_eq!(writes[0].0, result.files[0]);
    assert!(writes[0].1.contains("# 1. Test Decision"));
}

#[test]
fn test_import_dry_run() {
    let adrs = vec![record(1, "Test Decision", "Proposed", "2024-01-15", vec![])];
    let options = ImportOptions { overwrite: false, renumber: false, dry_run: true, ng_mode: false };
    let (result, writes) = import_to_directory(&adrs, "/tmp/import", &options, &vec![]).unwrap();

    assert_eq!(result.imported, 1);
    assert_eq!(result.files.len(), 1);
    assert!(writes.is_empty());
}

#[test]
fn test_import_renumber_complex_links() {
    let adrs = vec![
        record(10, "Ten", "Accepted", "2024-01-10", vec![]),
        record(20, "Twenty", "Accepted", "2024-01-20", vec![(10, "Amends")]),
        record(30, "Thirty", "Accepted", "2024-01-30", vec![(10, "RelatesTo"), (20, "RelatesTo")]),
    ];
    let options = ImportOptions { overwrite: false, renumber: true, dry_run: false, ng_mode: false };
    let (result, writes) = import_to_directory(&adrs, "/tmp/import", &options, &vec![]).unwrap();

    assert_eq!(result.imported, 3);
    assert_eq!(result.renumber_map[0], (10, 1));
    assert_eq!(result.renumber_map[1], (20, 2));
    assert_eq!(result.renumber_map[2], (30, 3));

    let parser = Parser::new();
    let read = |name: &str| {
        let (_, content) = writes.iter().find(|(p, _)| p.ends_with(name)).unwrap();
        match parser.parse(content).unwrap() {
            ParsedContent::Legacy(adr) => adr,
            ParsedContent::Frontmatter { .. } => panic!("expected a legacy document"),
        }
    };
    let adr2 = read("0002-twenty.md");
    assert_eq!(adr2.links.len(), 1);
    assert_eq!(adr2.links[0].target, 1);
    let adr3 = read("0003-thirty.md");
    assert_eq!(adr3.links.len(), 2);
    assert_eq!(adr3.links[0].target, 1);
    assert_eq!(adr3.links[1].target, 2);
}

fn written<'a>(writes: &'a [(String, String)], name: &str) -> Option<&'a String> {
    writes.iter().find(|(p, _)| p.ends_with(name)).map(|(_, c)| c)
}

fn read_back(writes: &[(String, String)], name: &str) -> Adr {
    match Parser::new().parse(written(writes, name).unwrap()).unwrap() {
        ParsedContent::Legacy(adr) => adr,
        ParsedContent::Frontmatter { .. } => panic!("expected a legacy document"),
    }
}

#[test]
fn test_import_with_renumber() {
    let adrs = vec![
        record(1, "First Import", "Proposed", "2024-01-15", vec![]),
        record(2, "Second Import", "Proposed", "2024-01-16", vec![]),
    ];
    let existing = vec!["0001-existing.md".to_string()];
    let options = ImportOptions { overwrite: false, renumber: true, dry_run: false, ng_mode: false };
    let (result, writes) = import_to_directory(&adrs, "/tmp/import", &options, &existing).unwrap();

    assert_eq!(result.imported, 2);
    assert_eq!(result.renumber_map.len(), 2);
    assert_eq!(result.renumber_map[0], (1, 2));
    assert_eq!(result.renumber_map[1], (2, 3));
    assert!(written(&writes, "/tmp/import/0002-first-import.md").is_some());
    assert!(written(&writes, "/tmp/import/0003-second-import.md").is_some());
}

#[test]
fn test_import_dry_run_with_renumber() {
    let adrs = vec![
        record(5, "Import Five", "Proposed", "2024-01-15", vec![]),
        record(7, "Import Seven", "Proposed", "2024-01-16", vec![]),
    ];
    let existing: Vec<String> = (1..=3).map(|i| format!("{:04}-existing-{}.md", i, i)).collect();
    let options = ImportOptions { overwrite: false, renumber: true, dry_run: true, ng_mode: false };
    let (result, writes) = import_to_directory(&adrs, "/tmp/import", &options, &existing).unwrap();

    assert_eq!(result.imported, 2);
    assert_eq!(result.renumber_map.len(), 2);
    assert_eq!(result.renumber_map[0], (5, 4));
    assert_eq!(result.renumber_map[1], (7, 5));
    assert!(writes.is_empty());
}

#[test]
fn test_import_skip_existing() {
    let adrs = vec![record(1, "Test Decision", "Proposed", "2024-01-15", vec![])];
    let existing = vec!["0001-test-decision.md".to_string()];
    let options = ImportOptions { overwrite: false, renumber: false, dry_run: false, ng_mode: false };
    let (result, writes) = import_to_directory(&adrs, "/tmp/import", &options, &existing).unwrap();

    assert_eq!(result.imported, 0);
    assert_eq!(result.skipped, 1);
    assert_eq!(result.warnings.len(), 1);
    assert!(result.warnings[0].contains("already exists"));
    assert!(writes.is_empty());
}

#[test]
fn test_import_overwrite() {
    let mut adr = record(1, "Test Decision", "Proposed", "2024-01-15", vec![]);
    adr.context = Some("NEW CONTEXT".to_string());
    let existing = vec!["0001-test-decision.md".to_string()];
    let options = ImportOptions { overwrite: true, renumber: false, dry_run: false, ng_mode: false };
    let (result, writes) = import_to_directory(&vec![adr], "/tmp/import", &options, &existing).unwrap();

    assert_eq!(result.imported, 1);
    assert_eq!(result.skipped, 0);
    let content = written(&writes, "/tmp/import/0001-test-decision.md").unwrap();
    assert!(content.contains("NEW CONTEXT"));
    assert!(!content.contains("OLD CONTENT"));
}

#[test]
fn test_import_renumber_with_internal_links() {
    let adrs = vec![
        record(1, "First", "Superseded", "2024-01-15", vec![(2, "SupersededBy")]),
        record(2, "Second", "Accepted", "2024-01-16", vec![(1, "Supersedes")]),
    ];
    let existing = vec!["0001-existing.md".to_string()];
    let options = ImportOptions { overwrite: false, renumber: true, dry_run: false, ng_mode: false };
    let (result, writes) = import_to_directory(&adrs, "/tmp/import", &options, &existing).unwrap();

    assert_eq!(result.imported, 2);
    assert_eq!(result.renumber_map[0], (1, 2));
    assert_eq!(result.renumber_map[1], (2, 3));

    let adr2 = read_back(&writes, "0002-first.md");
    assert_eq!(adr2.links.len(), 1);
    assert_eq!(adr2.links[0].target, 3);
    let adr3 = read_back(&writes, "0003-second.md");
    assert_eq!(adr3.links.len(), 1);
    assert_eq!(adr3.links[0].target, 2);
}

#[test]
fn test_import_renumber_with_broken_links() {
    let adrs = vec![record(5, "Fifth", "Accepted", "2024-01-15", vec![(3, "Extends")])];
    let existing = vec!["0001-existing.md".to_string()];
    let options = ImportOptions { overwrite: false, renumber: true, dry_run: false, ng_mode: false };
    let (result, _) = import_to_directory(&adrs, "/tmp/import", &options, &existing).unwrap();

    assert_eq!(result.imported, 1);
    assert_eq!(result.renumber_map[0], (5, 2));
    assert_eq!(result.warnings.len(), 1);
    assert!(result.warnings[0].contains("ADR 2 links to ADR 3"));
    assert!(result.warnings[0].contains("not in the import set"));
}

#[test]
fn test_import_bulk_format() {
    let adrs = vec![
        record(1, "First", "Proposed", "2024-01-15", vec![]),
        record(2, "Second", "Accepted", "2024-01-16", vec![]),
    ];
    let options = ImportOptions { overwrite: false, renumber: false, dry_run: false, ng_mode: false };
    let (result, writes) = import_to_directory(&adrs, "/tmp/import", &options, &vec![]).unwrap();

    assert_eq!(result.imported, 2);
    assert!(written(&writes, "/tmp/import/0001-first.md").is_some());
    assert!(written(&writes, "/tmp/import/0002-second.md").is_some());
}

#[test]
fn test_import_single_wrapper_format() {
    let adrs = vec![record(1, "Test Decision", "Proposed", "2024-01-15", vec![])];
    let options = ImportOptions { overwrite: false, renumber: false, dry_run: false, ng_mode: false };
    let (result, writes) = import_to_directory(&adrs, "/tmp/import", &options, &vec![]).unwrap();

    assert_eq!(result.imported, 1);
    assert!(written(&writes, "/tmp/import/0001-test-decision.md").is_some());
}

#[test]
fn read_files_export_in_path_order_with_warnings() {
    let files = vec![
        ("/d/0003-third.md".to_string(), Ok(Adr::new(3, "Third"))),
        ("/d/0002-broken.md".to_string(), Err("missing field `date`".to_string())),
        ("/d/0001-first.md".to_string(), Ok(Adr::new(1, "First"))),
    ];
    let (export, warnings) = export_read_files("/d", files);
    let numbers: Vec<u32> = export.adrs.iter().map(|a| a.number).collect();
    assert_eq!(numbers, vec![1, 3]);
    assert_eq!(warnings, vec!["Failed to parse /d/0002-broken.md: missing field `date`".to_string()]);
    let repo = export.repository.unwrap();
    assert_eq!(repo.adr_directory, "/d");
    assert!(repo.name.is_none());
}

#[test]
fn generated_at_is_an_rfc3339_time() {
    let stamp = JsonAdrBulkExport::new(vec![]).generated_at.unwrap();
    let bytes = stamp.as_bytes();
    assert!(stamp.len() >= 20, "{stamp}");
    assert!(bytes[..4].iter().all(|b| b.is_ascii_digit()), "{stamp}");
    assert_eq!(bytes[4], b'-');
    assert_eq!(bytes[10], b'T');
    assert!(stamp.ends_with('Z') || stamp.contains('+'), "{stamp}");
}
