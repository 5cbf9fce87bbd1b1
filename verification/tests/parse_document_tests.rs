use adrs_core::parse::{ParsedContent, Parser, LINK_PATTERN, NUMBER_PATTERN};
use adrs_core::patterns::captures_str;
use adrs_core::repository::{AdrFile, Repository};
use adrs_core::types::{today, Adr, AdrLink, AdrStatus, Date, LinkKind};
use serde_yaml_neo::Value;

fn status_of(s: &str) -> AdrStatus {
    match s {
        "proposed" => AdrStatus::Proposed,
        "accepted" => AdrStatus::Accepted,
        "deprecated" => AdrStatus::Deprecated,
        "superseded" => AdrStatus::Superseded,
        other => AdrStatus::Custom(other.to_string()),
    }
}

fn kind_of(s: &str) -> LinkKind {
    match s {
        "supersedes" => LinkKind::Supersedes,
        "supersededby" => LinkKind::SupersededBy,
        "amends" => LinkKind::Amends,
        "amendedby" => LinkKind::AmendedBy,
        "relatesto" => LinkKind::RelatesTo,
        other => LinkKind::Custom(other.to_string()),
    }
}

fn strings(v: Option<&Value>) -> Vec<String> {
    v.and_then(|x| x.as_sequence())
        .map(|s| s.iter().filter_map(|e| e.as_str().map(String::from)).collect())
        .unwrap_or_default()
}

/// Decodes a frontmatter block the way the YAML front end does: the
/// number, date and status are required.
fn decode(yaml: &str) -> Result<Adr, String> {
    let v: Value = serde_yaml_neo::from_str(yaml).map_err(|e| e.to_string())?;
    if !(v.is_mapping() || v.is_null()) {
        return Err("frontmatter is not a mapping".into());
    }
    let number = v.get("number").and_then(|n| n.as_u64()).ok_or("missing field `number`")? as u32;
    let title = v.get("title").and_then(|t| t.as_str()).unwrap_or("").to_string();
    let date = v.get("date").and_then(|d| d.as_str()).ok_or("missing field `date`")?;
    let date = Date::parse_iso(date).ok_or("invalid date")?;
    let mut adr = Adr::with_date(number, &title, date);
    adr.status = status_of(v.get("status").and_then(|s| s.as_str()).ok_or("missing field `status`")?);
    if let Some(ls) = v.get("links").and_then(|l| l.as_sequence()) {
        for l in ls {
            let target = l.get("target").and_then(|t| t.as_u64()).ok_or("invalid target")? as u32;
            let kind = l.get("kind").and_then(|k| k.as_str()).ok_or("invalid kind")?;
            adr.links.push(AdrLink::new(target, kind_of(kind)));
        }
    }
    adr.decision_makers = strings(v.get("decision-makers"));
    adr.consulted = strings(v.get("consulted"));
    adr.informed = strings(v.get("informed"));
    adr.tags = strings(v.get("tags"));
    Ok(adr)
}

fn parse(content: &str) -> Result<Adr, String> {
    let parser = Parser::new();
    match parser.parse(content).map_err(|e| format!("{:?}", e))? {
        ParsedContent::Legacy(adr) => Ok(adr),
        ParsedContent::Frontmatter { yaml, body } => Ok(parser.finish_frontmatter(decode(&yaml)?, &body)),
    }
}

const NYGARD_TAIL: &str = "\n## Context\n\nContext.\n\n## Decision\n\nDecision.\n\n## Consequences\n\nConsequences.\n";

#[test]
fn test_parse_legacy_format() {
    let content = r#"# 1. Use Rust

## Status

Accepted

## Context

We need a systems programming language.

## Decision

We will use Rust.

## Consequences

We get memory safety without garbage collection.
"#;
    let adr = parse(content).unwrap();
    assert_eq!(adr.number, 1);
    assert_eq!(adr.title, "Use Rust");
    assert_eq!(adr.status, AdrStatus::Accepted);
    assert!(adr.context.contains("systems programming"));
    assert!(adr.decision.contains("use Rust"));
    assert!(adr.consequences.contains("memory safety"));
}

#[test]
fn test_parse_legacy_minimal() {
    let content = format!("# 1. Minimal ADR\n\n## Status\n\nProposed\n{}", NYGARD_TAIL);
    let adr = parse(&content).unwrap();
    assert_eq!(adr.number, 1);
    assert_eq!(adr.title, "Minimal ADR");
    assert_eq!(adr.status, AdrStatus::Proposed);
    assert_eq!(adr.context, "Context.");
    assert_eq!(adr.decision, "Decision.");
    assert_eq!(adr.consequences, "Consequences.");
}

#[test]
fn test_parse_legacy_multiline_sections() {
    let content = r#"# 1. Multiline Test

## Status

Accepted

## Context

This is a context section
that spans multiple lines.

With paragraphs too.

## Decision

This is the decision.
Also multiple lines.

## Consequences

- Point 1
- Point 2
- Point 3
"#;
    let adr = parse(content).unwrap();
    assert!(adr.context.contains("multiple lines"));
    assert!(adr.context.contains("paragraphs"));
    assert!(adr.decision.contains("Also multiple lines"));
    assert!(adr.consequences.contains("Point 1"));
    assert!(adr.consequences.contains("Point 2"));
}

#[test]
fn legacy_status_types() {
    for (text, expected) in [
        ("Proposed", AdrStatus::Proposed),
        ("Accepted", AdrStatus::Accepted),
        ("Deprecated", AdrStatus::Deprecated),
        ("Superseded", AdrStatus::Superseded),
        ("Draft", AdrStatus::Custom("Draft".into())),
        ("Rejected", AdrStatus::Custom("Rejected".into())),
    ] {
        let content = format!("# 1. Test\n\n## Status\n\n{}\n{}", text, NYGARD_TAIL);
        assert_eq!(parse(&content).unwrap().status, expected);
    }
}

#[test]
fn test_parse_legacy_with_date_line() {
    let content =
        format!("# 1. Record architecture decisions\n\nDate: 2024-01-15\n\n## Status\n\nAccepted\n{}", NYGARD_TAIL);
    let adr = parse(&content).unwrap();
    assert_eq!(adr.number, 1);
    assert_eq!(adr.title, "Record architecture decisions");
    assert_eq!(adr.status, AdrStatus::Accepted);
}

#[test]
fn test_parse_legacy_title_without_number() {
    let content = format!("# Use Rust\n\n## Status\n\nProposed\n{}", NYGARD_TAIL);
    let adr = parse(&content).unwrap();
    assert_eq!(adr.number, 0);
    assert_eq!(adr.title, "Use Rust");
}

#[test]
fn test_parse_legacy_status_with_links() {
    let content = format!(
        "# 2. Use PostgreSQL\n\n## Status\n\nAccepted\n\nSupersedes [1. Use MySQL](0001-use-mysql.md)\n{}",
        NYGARD_TAIL
    );
    let adr = parse(&content).unwrap();
    assert_eq!(adr.status, AdrStatus::Accepted);
    assert_eq!(adr.links.len(), 1);
    assert_eq!(adr.links[0].target, 1);
    assert_eq!(adr.links[0].kind, LinkKind::Supersedes);
}

#[test]
fn test_parse_legacy_multiple_links() {
    let content = format!(
        "# 5. Combined Decision\n\n## Status\n\nAccepted\n\nSupersedes [1. First](0001-first.md)\nSupersedes [2. Second](0002-second.md)\nAmends [3. Third](0003-third.md)\n{}",
        NYGARD_TAIL
    );
    let adr = parse(&content).unwrap();
    assert_eq!(adr.links.len(), 3);
    assert_eq!(adr.links[0].target, 1);
    assert_eq!(adr.links[0].kind, LinkKind::Supersedes);
    assert_eq!(adr.links[1].target, 2);
    assert_eq!(adr.links[1].kind, LinkKind::Supersedes);
    assert_eq!(adr.links[2].target, 3);
    assert_eq!(adr.links[2].kind, LinkKind::Amends);
}

#[test]
fn test_parse_superseded_status() {
    let content = r#"# 1. Record architecture decisions

Date: 2026-01-22

## Status

Superseded

Superseded by [2. ...](0002-....md)

## Context

Some context.

## Decision

Some decision.

## Consequences

Some consequences.
"#;
    let adr = parse(content).unwrap();
    assert_eq!(adr.number, 1);
    assert_eq!(adr.status, AdrStatus::Superseded);
}

#[test]
fn test_parse_frontmatter_format() {
    let content = r#"---
number: 2
title: Use PostgreSQL
date: 2024-01-15
status: accepted
links:
  - target: 1
    kind: supersedes
---

## Context

We need a database.

## Decision

We will use PostgreSQL.

## Consequences

We get ACID compliance.
"#;
    let adr = parse(content).unwrap();
    assert_eq!(adr.number, 2);
    assert_eq!(adr.title, "Use PostgreSQL");
    assert_eq!(adr.status, AdrStatus::Accepted);
    assert_eq!(adr.links.len(), 1);
    assert_eq!(adr.links[0].target, 1);
    assert_eq!(adr.links[0].kind, LinkKind::Supersedes);
}

#[test]
fn test_parse_frontmatter_minimal() {
    let content = format!("---\nnumber: 1\ntitle: Simple ADR\ndate: 2024-01-01\nstatus: proposed\n---\n{}", NYGARD_TAIL);
    let adr = parse(&content).unwrap();
    assert_eq!(adr.number, 1);
    assert_eq!(adr.title, "Simple ADR");
    assert_eq!(adr.status, AdrStatus::Proposed);
}

#[test]
fn test_parse_frontmatter_no_links() {
    let content = format!("---\nnumber: 1\ntitle: Test ADR\ndate: 2024-01-01\nstatus: accepted\n---\n{}", NYGARD_TAIL);
    let adr = parse(&content).unwrap();
    assert!(adr.links.is_empty());
}

#[test]
fn test_parse_frontmatter_multiple_links() {
    let content = format!(
        "---\nnumber: 5\ntitle: Multi Link ADR\ndate: 2024-01-01\nstatus: accepted\nlinks:\n  - target: 1\n    kind: supersedes\n  - target: 2\n    kind: amends\n  - target: 3\n    kind: relatesto\n---\n{}",
        NYGARD_TAIL
    );
    let adr = parse(&content).unwrap();
    assert_eq!(adr.links.len(), 3);
    assert_eq!(adr.links[0].kind, LinkKind::Supersedes);
    assert_eq!(adr.links[1].kind, LinkKind::Amends);
    assert_eq!(adr.links[2].kind, LinkKind::RelatesTo);
}

#[test]
fn test_parse_frontmatter_all_statuses() {
    for (status_str, expected) in [
        ("proposed", AdrStatus::Proposed),
        ("accepted", AdrStatus::Accepted),
        ("deprecated", AdrStatus::Deprecated),
        ("superseded", AdrStatus::Superseded),
    ] {
        let content = format!(
            "---\nnumber: 1\ntitle: Test\ndate: 2024-01-01\nstatus: {status_str}\n---\n\n## Context\n\nContext.\n"
        );
        let adr = parse(&content).unwrap();
        assert_eq!(adr.status, expected, "Failed for status: {status_str}");
    }
}

#[test]
fn test_parse_frontmatter_invalid_format() {
    let content = "---\nnot valid yaml {{{{\n---\n\n## Context\n\nContext.\n";
    assert!(parse(content).is_err());
}

#[test]
fn test_parse_frontmatter_incomplete() {
    let content = "---\nnumber: 1\ntitle: Test\n";
    assert!(parse(content).is_err());
}

#[test]
fn test_parse_madr_format() {
    let content = r#"---
number: 2
title: Use Redis for caching
status: proposed
date: 2024-01-15
---

# Use Redis for caching

## Context and Problem Statement

We need a caching solution.

## Decision Outcome

We will use Redis.

### Consequences

* Good, because fast
"#;
    let adr = parse(content).unwrap();
    assert_eq!(adr.number, 2);
    assert_eq!(adr.title, "Use Redis for caching");
    assert_eq!(adr.status, AdrStatus::Proposed);
    assert!(adr.context.contains("caching solution"));
    assert!(adr.decision.contains("use Redis"));
}

#[test]
fn test_parse_madr_with_decision_makers() {
    let content = "---\nnumber: 1\ntitle: Use MADR Format\nstatus: accepted\ndate: 2024-01-01\n---\n\n# Use MADR Format\n\n## Context and Problem Statement\n\nContext.\n";
    let adr = parse(content).unwrap();
    assert_eq!(adr.number, 1);
    assert_eq!(adr.title, "Use MADR Format");
    assert_eq!(adr.status, AdrStatus::Accepted);
    assert_eq!(adr.context, "Context.");
}

#[test]
fn test_parse_madr_frontmatter_populates_body_sections() {
    let content = r#"---
number: 1
title: Use MADR Format
date: 2024-09-15
status: accepted
---

## Context and Problem Statement

We need a standard format for ADRs.

## Decision Outcome

Chosen option: "MADR 4.0.0", because it provides rich metadata.
"#;
    let adr = parse(content).unwrap();
    assert!(adr.context.contains("standard format"));
    assert!(adr.decision.contains("MADR 4.0.0"));
}

#[test]
fn test_parse_madr_h3_consequences_excluded_from_decision() {
    let content = r#"---
number: 2
title: Use Redis for caching
date: 2024-01-15
status: proposed
---

## Context and Problem Statement

We need a caching solution.

## Decision Outcome

Chosen option: "Redis", because it is fast.

### Consequences

* Good, because it reduces database load
* Bad, because it adds operational complexity
"#;
    let adr = parse(content).unwrap();
    assert_eq!(adr.decision, "Chosen option: \"Redis\", because it is fast.");
    assert!(!adr.decision.contains("Good, because it reduces"));
    assert!(!adr.decision.to_lowercase().contains("consequences"));
    assert!(adr.consequences.contains("Good, because it reduces database load"));
    assert!(adr.consequences.contains("Bad, because it adds operational complexity"));
}

#[test]
fn test_parse_madr_h3_confirmation_stays_in_decision() {
    let content = r#"---
number: 2
title: Use Redis for caching
date: 2024-01-15
status: proposed
---

## Decision Outcome

Chosen option: "Redis", because it is fast.

### Consequences

* Good, because it reduces database load

### Confirmation

We will confirm via load tests.
"#;
    let adr = parse(content).unwrap();
    assert!(adr.decision.contains("Chosen option: \"Redis\""));
    assert!(adr.decision.contains("We will confirm via load tests."));
    assert!(!adr.decision.contains("Good, because it reduces"));
    assert_eq!(adr.consequences, "Good, because it reduces database load");
}

#[test]
fn test_parse_nygard_consequences_h2_and_no_h3_still_works() {
    let content = r#"---
number: 2
title: Use PostgreSQL
date: 2024-01-15
status: accepted
---

## Context

We need a database.

## Decision

We will use PostgreSQL.

## Consequences

We get ACID compliance.
"#;
    let adr = parse(content).unwrap();
    assert_eq!(adr.decision, "We will use PostgreSQL.");
    assert_eq!(adr.consequences, "We get ACID compliance.");
}

#[test]
fn test_parse_legacy_madr_h3_consequences_excluded_from_decision() {
    let content = r#"# Use Redis for caching

## Context and Problem Statement

We need a caching solution.

## Decision Outcome

Chosen option: "Redis", because it is fast.

### Consequences

* Good, because it reduces database load

### Confirmation

We will confirm via load tests.
"#;
    let adr = parse(content).unwrap();
    assert!(adr.decision.contains("Chosen option: \"Redis\", because it is fast."));
    assert!(adr.decision.contains("### Confirmation"));
    assert!(adr.decision.contains("We will confirm via load tests."));
    assert!(!adr.decision.contains("Good, because it reduces"));
    assert!(adr.consequences.contains("Good, because it reduces database load"));
}

#[test]
fn test_parse_madr_missing_number_fails() {
    let content = "---\ntitle: Missing Number\nstatus: proposed\ndate: 2024-01-01\n---\n\n# Missing Number\n\n## Context and Problem Statement\n\nContext.\n";
    let result = parse(content);
    assert!(result.is_err() || result.unwrap().number == 0);
}

#[test]
fn test_today() {
    let date = today();
    assert!(date.year() >= 2024);
    assert!(date.month() >= 1 && date.month() <= 12);
    assert!(date.day() >= 1 && date.day() <= 31);
}

#[test]
fn test_format_date() {
    let date = Date::from_calendar_date(2024, 3, 5).unwrap();
    assert_eq!(date.format(), "2024-03-05");
}

#[test]
fn format_date_cases() {
    for (y, m, d, text) in [
        (2024, 1, 1, "2024-01-01"),
        (2024, 12, 31, "2024-12-31"),
        (2000, 2, 29, "2000-02-29"),
        (2024, 7, 15, "2024-07-15"),
    ] {
        assert_eq!(Date::from_calendar_date(y, m, d).unwrap().format(), text);
    }
}

#[test]
fn test_parse_empty_content() {
    let adr = parse("").unwrap();
    assert_eq!(adr.number, 0);
    assert!(adr.title.is_empty());
}

#[test]
fn test_parse_only_title() {
    let adr = parse("# 1. Just a Title").unwrap();
    assert_eq!(adr.number, 1);
    assert_eq!(adr.title, "Just a Title");
}

#[test]
fn test_parse_extra_sections_ignored() {
    let content = format!(
        "# 1. Test\n\n## Status\n\nProposed\n{}\n## Notes\n\nThese should be ignored.\n\n## References\n\n- ref1\n- ref2\n",
        NYGARD_TAIL
    );
    let adr = parse(&content).unwrap();
    assert_eq!(adr.number, 1);
    assert_eq!(adr.status, AdrStatus::Proposed);
}

#[test]
fn test_parse_case_insensitive_sections() {
    let content = "# 1. Case Test\n\n## STATUS\n\nAccepted\n\n## CONTEXT\n\nContext.\n\n## DECISION\n\nDecision.\n\n## CONSEQUENCES\n\nConsequences.\n";
    let adr = parse(content).unwrap();
    assert_eq!(adr.status, AdrStatus::Accepted);
    assert_eq!(adr.context, "Context.");
}

#[test]
fn test_parse_content_with_markdown_formatting() {
    let content = r#"# 1. Formatted ADR

## Status

Accepted

## Context

We have **bold** and *italic* text.

Also `code` and [links](https://example.com).

## Decision

```rust
fn main() {
    println!("Hello");
}
```

## Consequences

| Column 1 | Column 2 |
|----------|----------|
| Value 1  | Value 2  |
"#;
    let adr = parse(content).unwrap();
    assert!(adr.context.contains("bold"));
    assert!(adr.decision.contains("fn main"));
    assert!(adr.consequences.contains("Column 1"));
}

#[test]
fn test_parse_madr_frontmatter() {
    let content = r#"---
number: 1
title: Use MADR Format
date: 2024-09-15
status: accepted
decision-makers:
  - Alice
  - Bob
consulted:
  - Carol
informed:
  - Dave
  - Eve
---

## Context and Problem Statement

We need a standard format for ADRs.

## Decision Outcome

Chosen option: "MADR 4.0.0", because it provides rich metadata.
"#;
    let adr = parse(content).unwrap();
    assert_eq!(adr.number, 1);
    assert_eq!(adr.title, "Use MADR Format");
    assert_eq!(adr.status, AdrStatus::Accepted);
    assert_eq!(adr.decision_makers, vec!["Alice", "Bob"]);
    assert_eq!(adr.consulted, vec!["Carol"]);
    assert_eq!(adr.informed, vec!["Dave", "Eve"]);
}

#[test]
fn test_parse_madr_frontmatter_partial_fields() {
    let content = "---\nnumber: 2\ntitle: Partial MADR\ndate: 2024-09-15\nstatus: proposed\ndecision-makers:\n  - Alice\n---\n\n## Context\n\nContext.\n";
    let adr = parse(content).unwrap();
    assert_eq!(adr.decision_makers, vec!["Alice"]);
    assert!(adr.consulted.is_empty());
    assert!(adr.informed.is_empty());
}

#[test]
fn test_parse_madr_frontmatter_empty_fields() {
    let content = "---\nnumber: 3\ntitle: No MADR Fields\ndate: 2024-09-15\nstatus: accepted\n---\n\n## Context\n\nContext.\n";
    let adr = parse(content).unwrap();
    assert!(adr.decision_makers.is_empty());
    assert!(adr.consulted.is_empty());
    assert!(adr.informed.is_empty());
}

#[test]
fn test_parse_madr_with_links() {
    let content = "---\nnumber: 4\ntitle: MADR With Links\ndate: 2024-09-15\nstatus: accepted\ndecision-makers:\n  - Alice\nlinks:\n  - target: 1\n    kind: supersedes\n  - target: 2\n    kind: amends\n---\n\n## Context\n\nContext.\n";
    let adr = parse(content).unwrap();
    assert_eq!(adr.decision_makers, vec!["Alice"]);
    assert_eq!(adr.links.len(), 2);
    assert_eq!(adr.links[0].kind, LinkKind::Supersedes);
    assert_eq!(adr.links[1].kind, LinkKind::Amends);
}

#[test]
fn test_parse_frontmatter_title_from_body_h1() {
    let content = format!("---\nnumber: 2\ndate: 2024-01-15\nstatus: proposed\n---\n\n# My Decision Title\n{}", NYGARD_TAIL);
    let adr = parse(&content).unwrap();
    assert_eq!(adr.number, 2);
    assert_eq!(adr.title, "My Decision Title");
    assert_eq!(adr.status, AdrStatus::Proposed);
}

#[test]
fn test_parse_frontmatter_title_from_body_h1_numbered() {
    let content = "---\nnumber: 2\ndate: 2024-01-15\nstatus: proposed\n---\n\n# 2. My Numbered Title\n\n## Context\n\nContext.\n";
    let adr = parse(content).unwrap();
    assert_eq!(adr.number, 2);
    assert_eq!(adr.title, "My Numbered Title");
}

#[test]
fn test_parse_frontmatter_title_prefers_frontmatter() {
    let content = "---\nnumber: 2\ntitle: Frontmatter Title\ndate: 2024-01-15\nstatus: proposed\n---\n\n# Body Title\n\n## Context\n\nContext.\n";
    let adr = parse(content).unwrap();
    assert_eq!(adr.title, "Frontmatter Title");
}

#[test]
fn test_parse_crlf_frontmatter_matches_lf() {
    let lf = r#"---
number: 4
title: Use MADR format for ADRs
date: 2024-02-15
status: accepted
decision-makers:
  - Alice Smith
  - Bob Jones
consulted:
  - Carol White
informed:
  - David Brown
  - Eve Green
---

## Context

We need a richer metadata format.

## Decision

We will use MADR.

## Consequences

More structured metadata.
"#;
    let crlf = lf.replace('\n', "\r\n");
    let lf_adr = parse(lf).unwrap();
    let crlf_adr = parse(&crlf).unwrap();

    assert_eq!(crlf_adr.status, AdrStatus::Accepted);
    assert_eq!(crlf_adr.status, lf_adr.status);
    assert_eq!(crlf_adr.date, lf_adr.date);
    assert_eq!(crlf_adr.decision_makers, vec!["Alice Smith".to_string(), "Bob Jones".to_string()]);
    assert_eq!(crlf_adr.decision_makers, lf_adr.decision_makers);
    assert_eq!(crlf_adr.consulted, lf_adr.consulted);
    assert_eq!(crlf_adr.informed, lf_adr.informed);
    assert_eq!(crlf_adr.context, lf_adr.context);
    assert_eq!(crlf_adr.decision, lf_adr.decision);
    assert_eq!(crlf_adr.consequences, lf_adr.consequences);
    assert!(!crlf_adr.title.contains('\r'));
    assert!(!crlf_adr.context.contains('\r'));
    assert!(!crlf_adr.decision.contains('\r'));
    assert!(!crlf_adr.consequences.contains('\r'));
    for person in crlf_adr.decision_makers.iter().chain(crlf_adr.consulted.iter()).chain(crlf_adr.informed.iter()) {
        assert!(!person.contains('\r'));
    }
}

#[test]
fn test_parse_crlf_legacy_format() {
    let lf = r#"# 1. Use Rust

## Status

Accepted

## Context

We need a systems programming language.

## Decision

We will use Rust.

## Consequences

We get memory safety without garbage collection.
"#;
    let crlf = lf.replace('\n', "\r\n");
    let adr = parse(&crlf).unwrap();
    assert_eq!(adr.number, 1);
    assert_eq!(adr.title, "Use Rust");
    assert_eq!(adr.status, AdrStatus::Accepted);
    assert!(adr.context.contains("systems programming"));
    assert!(adr.decision.contains("use Rust"));
    assert!(adr.consequences.contains("memory safety"));
    assert!(!adr.title.contains('\r'));
    assert!(!adr.context.contains('\r'));
    assert!(!adr.decision.contains('\r'));
    assert!(!adr.consequences.contains('\r'));
}

#[test]
fn test_parse_legacy_date_line_is_parsed() {
    let content =
        format!("# 1. Record architecture decisions\n\nDate: 2024-01-15\n\n## Status\n\nAccepted\n{}", NYGARD_TAIL);
    let adr = parse(&content).unwrap();
    assert_eq!(adr.date.format(), "2024-01-15");
}

#[test]
fn test_parse_legacy_no_date_line_falls_back_to_today() {
    let content = format!("# 1. Record architecture decisions\n\n## Status\n\nAccepted\n{}", NYGARD_TAIL);
    let adr = parse(&content).unwrap();
    assert_eq!(adr.date, today());
}

#[test]
fn test_parse_legacy_unparseable_date_line_falls_back_to_today() {
    let content = format!(
        "# 1. Record architecture decisions\n\nDate: not-a-date\n\n## Status\n\nAccepted\n{}",
        NYGARD_TAIL
    );
    let adr = parse(&content).unwrap();
    assert_eq!(adr.date, today());
}

#[test]
fn test_link_regex_pattern() {
    let content = "Supersedes [1. Use MySQL](0001-use-mysql.md)";
    let caps = captures_str(LINK_PATTERN, content).unwrap();
    assert_eq!(caps[1].as_deref(), Some("Supersedes"));
    assert_eq!(caps[2].as_deref(), Some("1"));
    assert_eq!(caps[3].as_deref(), Some("0001"));
}

#[test]
fn test_link_regex_amended_by() {
    let content = "Amended by [3. Update API](0003-update-api.md)";
    let caps = captures_str(LINK_PATTERN, content).unwrap();
    assert_eq!(caps[1].as_deref(), Some("Amended by"));
    assert_eq!(caps[2].as_deref(), Some("3"));
}

#[test]
fn test_number_regex_pattern() {
    let caps = captures_str(NUMBER_PATTERN, "0042-some-decision.md").unwrap();
    assert_eq!(caps[1].as_deref(), Some("0042"));
}

// Documents from real projects.

#[test]
fn test_npryce_adr_tools_canonical() {
    let content = r#"# 1. Record architecture decisions

Date: 2016-02-12

## Status

Accepted

## Context

We need to record the architectural decisions made on this project.

## Decision

We will use Architecture Decision Records, as described by Michael Nygard in this article: http://thinkrelevance.com/blog/2011/11/15/documenting-architecture-decisions

## Consequences

See Michael Nygard's article, linked above.
"#;

    let adr = parse(content).unwrap();

    assert_eq!(adr.number, 1);
    assert_eq!(adr.title, "Record architecture decisions");
    assert_eq!(adr.status, AdrStatus::Accepted);
    assert!(adr.context.contains("architectural decisions"));
    assert!(adr.decision.contains("Architecture Decision Records"));
    assert!(adr.consequences.contains("Michael Nygard"));
}

// ========== MADR 4.0.0 template (no title in frontmatter) ==========
// Source: https://github.com/adr/madr/blob/4.0.0/template/adr-template.md
//
// The official MADR 4.0.0 template deliberately omits `title` from frontmatter.
// This is the canonical case for issue #186.

#[test]
fn test_madr_400_template_no_title_in_frontmatter() {
    // Adapted from the real template: placeholders replaced with real values
    // to make it parseable, but the structure is preserved exactly.
    let content = r#"---
number: 3
status: proposed
date: 2024-01-15
decision-makers:
  - Alice
  - Bob
consulted:
  - Carol
informed:
  - Dave
---

# Use Redis for Caching

## Context and Problem Statement

We need a caching solution for our API.

## Decision Drivers

* Response time must be < 100ms
* Must support cache invalidation

## Considered Options

* Redis
* Memcached

## Decision Outcome

Chosen option: "Redis", because it supports complex data types.

### Consequences

* Good, because it reduces database load
* Bad, because it adds operational complexity
"#;

    let adr = parse(content).unwrap();

    assert_eq!(adr.number, 3);
    assert_eq!(adr.title, "Use Redis for Caching");
    assert_eq!(adr.status, AdrStatus::Proposed);
    assert_eq!(adr.decision_makers, vec!["Alice", "Bob"]);
    assert_eq!(adr.consulted, vec!["Carol"]);
    assert_eq!(adr.informed, vec!["Dave"]);
}

// ========== MADR's own ADRs (Jekyll nav_order, no title/number/date/status) ==========
// Source: https://github.com/adr/madr/blob/main/docs/decisions/0015-include-consulting-informed-of-raci.md
//
// These use frontmatter with only Jekyll metadata (parent, nav_order).
// No title, number, date, or status in frontmatter at all.

#[test]
fn test_madr_own_adr_jekyll_frontmatter_only() {
    let content = r#"---
parent: Decisions
nav_order: 15
---
# Include "Consulted" and "Informed" of RACI

## Context and Problem Statement

We noticed an intersection between MADR and RACI, and felt the need to add a "consulted" and "informed" field in addition to "decision maker(s)".
Would it be beneficial to "upstream" these fields to MADR?

## Decision Drivers

* MADR should contain fields important to the ADR decision process
* MADR template should be easy to understand
* MADR should be lightweight

## Considered Options

* Include "Consulted" and "Informed" of RACI
* Include all fields of RACI
* Do not include anything of RACI

## Decision Outcome

Chosen option: "Include 'Consulted' and 'Informed' of RACI", because comes out best (see below).
"#;

    // This will fail YAML deserialization because there's no `number` or `date`.
    // But we should at least be able to confirm the parser doesn't panic.
    let result = parse(content);

    // The frontmatter doesn't have our required fields (number, date), so
    // serde will fail. This is expected -- these ADRs would be parsed via
    // parse_file() which falls back to extracting number from filename.
    // The important thing is we don't panic.
    if let Ok(adr) = result {
        // If it somehow succeeds (e.g., defaults), check the title was extracted
        assert_eq!(adr.title, "Include \"Consulted\" and \"Informed\" of RACI");
    }
}

// ========== MADR's ADR 0013 (nested code block with frontmatter inside) ==========
// Source: https://github.com/adr/madr/blob/main/docs/decisions/0013-use-yaml-front-matter-for-meta-data.md

#[test]
fn test_madr_own_adr_with_nested_code_block_frontmatter() {
    let content = r#"---
parent: Decisions
nav_order: 13
---
# Use YAML front matter for metadata

## Context and Problem Statement

MADR offers the fields "Status", "Decision Maker(s)", and "Date".
Should this data be included in the ADR directly, or should it be separated somehow?

## Decision Outcome

Chosen option: "Use YAML front matter", because comes out best (see below).

## Pros and Cons of the Options

### Use YAML front matter

Example:

```markdown
---
status: accepted
decision-makers:
date:
---

### Context and problem statement

We want to record architectural decisions made in this project.
```

* Good, because tools can handle it more easily
* Bad, because rendering not standardized

### Use plain Markdown everywhere

* Good, because all parsers can handle it
* Bad, because special markdown parsing tooling is needed
"#;

    let result = parse(content);

    // Same situation -- no number/date in frontmatter. But the parser must
    // not be confused by the --- inside the fenced code block.
    if let Ok(adr) = result {
        assert_eq!(adr.title, "Use YAML front matter for metadata");
    }
}

// ========== log4brains (MADR 2.x, inline metadata list, no frontmatter) ==========
// Source: https://github.com/thomvaill/log4brains/blob/master/docs/adr/20200924-use-markdown-architectural-decision-records.md

#[test]
fn test_log4brains_madr_2x_inline_metadata() {
    let content = r#"# Use Markdown Architectural Decision Records

- Status: accepted
- Date: 2020-09-24

## Context and Problem Statement

We want to record architectural decisions made in this project.
Which format and structure should these records follow?

## Considered Options

- [MADR](https://adr.github.io/madr/) 2.1.2 with Log4brains patch
- [MADR](https://adr.github.io/madr/) 2.1.2
- [Michael Nygard's template](http://thinkrelevance.com/blog/2011/11/15/documenting-architecture-decisions)

## Decision Outcome

Chosen option: "MADR 2.1.2 with Log4brains patch", because

- Implicit assumptions should be made explicit.
- The MADR format is lean and fits our development style.
- Version 2.1.2 is the latest one available when starting to document ADRs.
"#;

    // Legacy parsing (no frontmatter). Status is in body as a list item, not
    // in an H2 section -- our parser won't pick it up that way. That's fine.
    // The key test: title is parsed correctly, no panic.
    let adr = parse(content).unwrap();

    assert_eq!(adr.number, 0); // No number in title
    assert_eq!(adr.title, "Use Markdown Architectural Decision Records");
}

// ========== Decentraland (EIP-style, SPDX, custom fields) ==========
// Source: https://github.com/decentraland/adr/blob/main/content/ADR-1-adr-process.md

#[test]
fn test_decentraland_eip_style_frontmatter() {
    // Uses `adr` instead of `number`, so serde will default number to 0.
    // Has `spdx-license`, `type` -- unknown fields the parser should tolerate.
    let content = r#"---
adr: 1
date: 2020-10-05
title: ADR documents specification & process
status: Living
type: Meta
spdx-license: CC0-1.0
---

## What is an ADR?

ADR stands for Architecture Decision Record. An ADR is a design document
providing information to the Decentraland community.

## ADR Rationale

ADRs are heavily inspired in Ethereum Improvement Proposals (EIPs).
"#;

    // `adr` is not `number`, so our parser will deserialize number as 0.
    // `status: Living` is a custom status.
    // The parser must not choke on unknown fields like `type` and `spdx-license`.
    let result = parse(content);

    // serde_yaml strict mode would reject unknown fields, but our Adr struct
    // uses #[serde(default)] on optional fields. The `adr` field will be
    // silently ignored (it's not `number`), so number defaults to 0.
    if let Ok(adr) = result {
        assert_eq!(adr.title, "ADR documents specification & process");
        assert_eq!(adr.status, AdrStatus::Custom("Living".into()));
    }
}

#[test]
fn test_decentraland_adr_with_authors_list() {
    // Source: https://github.com/decentraland/adr/blob/main/content/ADR-115-sdk-playground.md
    let content = r#"---
adr: 115
date: 2022-11-01
title: SDK Playground
status: Living
authors:
  - nearnshaw
type: RFC
spdx-license: CC0-1.0
redirect_from:
  - /rfc/RFC-15
---

# Abstract

This document presents the Playground, a new learning tool for SDK users.

# Need

Learning to use the SDK is tricky, and there's a lot of friction up front.
"#;

    let result = parse(content);

    if let Ok(adr) = result {
        assert_eq!(adr.title, "SDK Playground");
        assert_eq!(adr.status, AdrStatus::Custom("Living".into()));
        // `adr: 115` is not `number: 115`, so number defaults to 0
        assert_eq!(adr.number, 0);
    }
}

// ========== Backstage (Docusaurus frontmatter, no H1) ==========
// Source: https://github.com/backstage/backstage/blob/master/docs/architecture-decisions/adr011-plugin-package-structure.md

#[test]
fn test_backstage_docusaurus_frontmatter_no_h1() {
    let content = r#"---
id: adrs-adr011
title: "ADR011: Plugin Package Structure"
description: Architecture Decision Record (ADR) for Plugin Package Structure
---

## Context

A core feature of Backstage is the extensibility via plugins. Even most of the
core features are implemented as plugins.

## Decision

We will place all plugin related code in the `plugins/` directory.

## Consequences

We will actively migrate existing packages that are part of a plugin to the
`plugins/` folder.
"#;

    let result = parse(content);

    if let Ok(adr) = result {
        // `id` is not `number`, so number defaults to 0
        assert_eq!(adr.number, 0);
        // Title comes from frontmatter, contains the ADR number prefix
        assert_eq!(adr.title, "ADR011: Plugin Package Structure");
        // No body H1 -- body starts at ## Context
        assert!(adr.context.contains("extensibility via plugins"));
        assert!(adr.decision.contains("plugins/"));
        assert!(adr.consequences.contains("actively migrate"));
    }
}

// ========== PMD (Jekyll frontmatter, adr_status, boolean adr field) ==========
// Source: https://github.com/pmd/pmd/blob/main/docs/pages/pmd/projectdocs/decisions/adr-1.md

#[test]
fn test_pmd_jekyll_frontmatter_no_h1() {
    let content = r#"---
title: ADR 1 - Use architecture decision records
sidebar: pmd_sidebar
permalink: pmd_projectdocs_decisions_adr_1.html
sidebaractiveurl: /pmd_projectdocs_decisions.html
adr: true
adr_status: "Accepted"
last_updated: February 2024 (7.0.0)
---

## Context

PMD has grown over 20 years as an open-source project. Along the way many
decisions have been made, but they are not explicitly documented.

## Decision

We will document the decisions we make as a project as a collection of
"Architecture Decision Records".

## Consequences

Explicitly documenting decisions has the benefit that new developers joining
the projects know about the decisions.
"#;

    let result = parse(content);

    if let Ok(adr) = result {
        // Title from frontmatter includes the ADR number prefix
        assert_eq!(adr.title, "ADR 1 - Use architecture decision records");
        // No H1 in body -- body starts at ## Context
        assert!(adr.context.contains("20 years"));
        assert!(adr.decision.contains("Architecture Decision Records"));
        assert!(adr.consequences.contains("new developers"));
    }
}

// ========== Buildbarn (freeform, H1 sections, HTML in metadata) ==========
// Source: https://github.com/buildbarn/bb-adrs/blob/main/0001-buffer.md

#[test]
fn test_buildbarn_freeform_h1_sections() {
    let content = r#"# Buildbarn Architecture Decision Record #1: Buffer layer

Author: Ed Schouten<br/>
Date: 2020-01-09

# Context

The `BlobAccess` interface that Buildbarn currently uses to abstract
away different kinds of backing stores for the CAS and AC (Redis, S3,
gRPC, etc.) is a bit simplistic, in that contents are always transferred
through `io.ReadCloser` handles.

# Decision

The decision is to add a new abstraction to Buildbarn, called the buffer
layer, stored in Go package `github.com/buildbarn/bb-storage/pkg/blobstore/buffer`.
"#;

    // Legacy parsing. This ADR uses H1 (not H2) for sections, so our
    // section parser won't pick up Context/Decision. That's expected.
    let adr = parse(content).unwrap();

    assert_eq!(adr.number, 0); // No "1." prefix -- it's "Record #1:"
    assert_eq!(
        adr.title,
        "Buildbarn Architecture Decision Record #1: Buffer layer"
    );
}

// ========== Frontmatter with YAML comment lines ==========
// Inspired by PMD's actual format which has YAML comments in frontmatter.

#[test]
fn test_frontmatter_with_yaml_comments() {
    let content = r#"---
# This is a YAML comment
number: 5
title: Use YAML comments
# Proposed / Accepted / Deprecated / Superseded
status: accepted
date: 2024-06-15
---

## Context

Some ADR tools put comments in their YAML frontmatter.

## Decision

We should handle them gracefully.
"#;

    let adr = parse(content).unwrap();

    assert_eq!(adr.number, 5);
    assert_eq!(adr.title, "Use YAML comments");
    assert_eq!(adr.status, AdrStatus::Accepted);
}

// ========== Frontmatter with title AND body H1 (title in both) ==========
// Inspired by Straw Hat Team pattern: title appears in frontmatter AND body.
// The #186 fix should prefer the frontmatter title.

#[test]
fn test_title_in_both_frontmatter_and_body() {
    let content = r#"---
number: 42
title: Error Specification
date: 2022-11-03
status: accepted
tags:
  - error
---

# Error Specification

## Context

We need a standard way to specify errors.

## Decision

Use structured error types.
"#;

    let adr = parse(content).unwrap();

    assert_eq!(adr.number, 42);
    assert_eq!(adr.title, "Error Specification"); // Frontmatter wins
    assert_eq!(adr.status, AdrStatus::Accepted);
    assert_eq!(adr.tags, vec!["error"]);
}

// ========== Frontmatter with no title, body H1 has number prefix ==========
// The exact scenario from issue #186: frontmatter omits title to avoid MD025,
// body H1 uses "# 2. My Title" format.

#[test]
fn test_issue_186_frontmatter_no_title_body_h1_numbered() {
    let content = r#"---
number: 2
status: proposed
date: 2024-01-15
decision-makers:
  - Alice
---

# 2. Use PostgreSQL

## Context and Problem Statement

We need a database.

## Decision Outcome

Chosen option: "PostgreSQL", because ACID compliance.

### Consequences

* Good, because strong consistency
* Bad, because operational complexity
"#;

    let adr = parse(content).unwrap();

    assert_eq!(adr.number, 2);
    assert_eq!(adr.title, "Use PostgreSQL"); // Extracted from body H1, number stripped
    assert_eq!(adr.status, AdrStatus::Proposed);
    assert_eq!(adr.decision_makers, vec!["Alice"]);
}

// ========== Frontmatter with no title, body H1 has no number ==========
// Same as above but the body H1 is just "# My Title" without number prefix.

#[test]
fn test_issue_186_frontmatter_no_title_body_h1_unnumbered() {
    let content = r#"---
number: 7
status: accepted
date: 2024-03-20
---

# Adopt trunk-based development

## Context and Problem Statement

Our branching strategy is causing long-lived branches and painful merges.

## Decision Outcome

Chosen option: "trunk-based development", because it encourages small, frequent merges.
"#;

    let adr = parse(content).unwrap();

    assert_eq!(adr.number, 7);
    assert_eq!(adr.title, "Adopt trunk-based development");
    assert_eq!(adr.status, AdrStatus::Accepted);
}

// ========== Custom status values from the wild ==========

#[test]
fn test_custom_status_values() {
    for (status_str, expected) in [
        ("proposed", AdrStatus::Proposed),
        ("accepted", AdrStatus::Accepted),
        ("deprecated", AdrStatus::Deprecated),
        ("superseded", AdrStatus::Superseded),
        // Decentraland uses these
        ("Living", AdrStatus::Custom("Living".into())),
        ("Draft", AdrStatus::Custom("Draft".into())),
        ("Review", AdrStatus::Custom("Review".into())),
        ("Final", AdrStatus::Custom("Final".into())),
        ("Stagnant", AdrStatus::Custom("Stagnant".into())),
        ("Withdrawn", AdrStatus::Custom("Withdrawn".into())),
    ] {
        let content = format!(
            r#"---
number: 1
title: Test
date: 2024-01-01
status: {status_str}
---

## Context

Context.
"#
        );

        let adr = parse(&content).unwrap();
        assert_eq!(adr.status, expected, "Failed for status: {status_str}");
    }
}


const EDGE_ROOT: &str = "/tmp/edge";

fn roundtrip(fixture: &str, ng: bool) -> String {
    let first = Repository::init(EDGE_ROOT, None, ng, vec![], 0).unwrap();
    let mut files: Vec<AdrFile> = first
        .files()
        .iter()
        .map(|f| AdrFile { path: f.path.clone(), adr: f.adr.clone(), content: f.content.clone() })
        .collect();
    let path = format!("{}/0002-test.md", first.adr_path());
    let adr = Parser::new().complete_file(parse(fixture).unwrap(), &path).unwrap();
    files.push(AdrFile { path: path.clone(), adr, content: fixture.to_string() });
    let mut repo = Repository::open(EDGE_ROOT, first.config().clone(), files);
    repo.set_status(2, AdrStatus::Accepted, None).unwrap();
    repo.files().iter().find(|f| f.path == path).unwrap().content.clone()
}

fn roundtrip_ng(fixture: &str) -> String {
    roundtrip(fixture, true)
}

fn roundtrip_legacy(fixture: &str) -> String {
    roundtrip(fixture, false)
}

/// Extract the body (everything after the closing frontmatter delimiter).
fn frontmatter_body(content: &str) -> &str {
    let rest = content.strip_prefix("---\n").unwrap();
    let end = rest.find("\n---\n").unwrap();
    &rest[end + 4..]
}

// ========== NextGen / Frontmatter Fixtures ==========

#[test]
fn test_madr_with_spdx_headers() {
    let fixture = r#"---
# SPDX-License-Identifier: MIT
# SPDX-FileCopyrightText: 2026 Example Corp
number: 2
title: Use MADR format
date: 2026-01-15
status: proposed
---

# Use MADR format

## Context and Problem Statement

We need a standard format for our ADRs that supports rich metadata.

## Considered Options

* MADR 4.0.0
* Nygard format
* Custom format

## Decision Outcome

Chosen option: "MADR 4.0.0", because it provides structured metadata in YAML.

### Consequences

* Good, because we get machine-readable metadata
* Good, because MADR is widely adopted
* Bad, because it's more complex than Nygard

## More Information

See [MADR repository](https://adr.github.io/madr/) for the specification.
"#;

    let result = roundtrip_ng(fixture);

    assert!(result.contains("# SPDX-License-Identifier: MIT"));
    assert!(result.contains("# SPDX-FileCopyrightText: 2026 Example Corp"));
    assert!(result.contains("status: accepted"));

    // Compare bodies
    let original_body = frontmatter_body(fixture);
    let result_body = frontmatter_body(&result);
    assert_eq!(result_body, original_body, "Body was modified");
}

#[test]
fn test_madr_all_optional_sections() {
    let fixture = r#"---
number: 2
title: Use Redis for caching
date: 2026-02-01
status: proposed
decision-makers:
  - Alice
  - Bob
consulted:
  - Carol
informed:
  - Dave
  - Eve
tags:
  - caching
  - infrastructure
---

# Use Redis for caching

## Context and Problem Statement

Our API response times exceed SLA thresholds. We need a caching layer.

## Decision Drivers

* Response time must be < 100ms at p99
* Must support cache invalidation
* Team familiarity

## Considered Options

* Redis
* Memcached
* Application-level caching with `moka`

## Decision Outcome

Chosen option: "Redis", because it supports complex data types and pub/sub.

### Consequences

* Good, because it reduces database load by ~60%
* Bad, because it adds operational complexity
* Neutral, because team has moderate Redis experience

### Confirmation

We will monitor cache hit rates and p99 latency for 2 weeks.

## Pros and Cons of the Options

### Redis

* Good, because it supports sorted sets, hashes, streams
* Good, because it has built-in replication
* Bad, because single-threaded for commands
* Bad, because memory-only by default

### Memcached

* Good, because it's simpler to operate
* Good, because it's multi-threaded
* Bad, because it only supports string values
* Bad, because no built-in replication

### Application-level caching

* Good, because no additional infrastructure
* Good, because type-safe with Rust
* Bad, because not shared across instances
* Bad, because limited by process memory

## More Information

See [Redis documentation](https://redis.io/docs/) and our
[infrastructure runbook](https://internal.example.com/runbooks/redis).
"#;

    let result = roundtrip_ng(fixture);

    assert!(result.contains("status: accepted"));
    // Tags should still be present (from the parsed ADR)
    assert!(result.contains("tags:"));

    let original_body = frontmatter_body(fixture);
    let result_body = frontmatter_body(&result);
    assert_eq!(result_body, original_body, "Body was modified");
}

#[test]
fn test_frontmatter_with_custom_yaml_fields() {
    let fixture = r#"---
number: 2
title: Custom fields test
date: 2026-01-15
status: proposed
custom_field: some_value
priority: high
---

## Context

This ADR has custom YAML fields that we don't know about.

## Decision

Keep them.
"#;

    let result = roundtrip_ng(fixture);

    assert!(result.contains("status: accepted"));
    assert!(result.contains("custom_field: some_value"));
    assert!(result.contains("priority: high"));

    let original_body = frontmatter_body(fixture);
    let result_body = frontmatter_body(&result);
    assert_eq!(result_body, original_body, "Body was modified");
}

#[test]
fn test_body_with_horizontal_rules() {
    let fixture = r#"---
number: 2
title: Horizontal rules in body
date: 2026-01-15
status: proposed
---

## Context

Some context.

---

More context after a horizontal rule.

---

Even more after another rule.

## Decision

The decision.
"#;

    let result = roundtrip_ng(fixture);

    assert!(result.contains("status: accepted"));

    let original_body = frontmatter_body(fixture);
    let result_body = frontmatter_body(&result);
    assert_eq!(
        result_body, original_body,
        "Body with --- horizontal rules was modified"
    );
}

// ========== Legacy Fixtures ==========

#[test]
fn test_legacy_with_markdown_tables() {
    let fixture = r#"# 2. Database selection

Date: 2026-01-15

## Status

Proposed

## Context

We evaluated several databases:

| Database   | Latency | Cost    | Ease    |
|------------|---------|---------|---------|
| PostgreSQL | 5ms     | $$      | Medium  |
| MySQL      | 7ms     | $       | Easy    |
| MongoDB    | 3ms     | $$$     | Easy    |

## Decision

We will use PostgreSQL.

## Consequences

- We get ACID compliance
- `pg_dump` for backups
- See [migration guide](./migrations.md)
"#;

    let result = roundtrip_legacy(fixture);

    assert!(result.contains("Accepted"));
    assert!(result.contains("| PostgreSQL | 5ms     | $$      | Medium  |"));
    assert!(result.contains("`pg_dump` for backups"));
    assert!(result.contains("[migration guide](./migrations.md)"));
}

#[test]
fn test_legacy_with_code_blocks() {
    let fixture = r#"# 2. API design

## Status

Proposed

## Context

We need to define our REST API format.

## Decision

Use JSON:API format:

```json
{
  "data": {
    "type": "articles",
    "id": "1",
    "attributes": {
      "title": "Rails is Omakase"
    }
  }
}
```

## Consequences

- Standard format for all responses
- Client libraries available
"#;

    let result = roundtrip_legacy(fixture);

    assert!(result.contains("Accepted"));
    assert!(result.contains("```json"));
    assert!(result.contains("\"Rails is Omakase\""));
    assert!(result.contains("Standard format for all responses"));
}

#[test]
fn test_legacy_with_nested_lists_and_links() {
    let fixture = r#"# 2. Authentication strategy

## Status

Proposed

## Context

We need authentication for our API. Options:

1. **JWT tokens**
   - Stateless
   - See [RFC 7519](https://tools.ietf.org/html/rfc7519)
2. **Session cookies**
   - Server-side state
   - See [OWASP guide](https://owasp.org/www-community/Session_Management)
3. **OAuth 2.0**
   - Delegated auth
   - See [RFC 6749](https://tools.ietf.org/html/rfc6749)

## Decision

Use JWT with refresh tokens.

## Consequences

- Scalable across services
- Must handle token rotation
"#;

    let result = roundtrip_legacy(fixture);

    assert!(result.contains("Accepted"));
    assert!(result.contains("[RFC 7519](https://tools.ietf.org/html/rfc7519)"));
    assert!(result.contains("[OWASP guide](https://owasp.org/www-community/Session_Management)"));
    assert!(result.contains("**JWT tokens**"));
    assert!(result.contains("Must handle token rotation"));
}
