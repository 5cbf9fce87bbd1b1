use adrs_core::types::{date_from_clock, slug, today, Adr, AdrLink, AdrStatus, Date, LinkKind};

#[test]
fn test_slug_basic() {
    assert_eq!(slug("Use Rust"), "use-rust");
    assert_eq!(slug("Use React for Frontend"), "use-react-for-frontend");
}

#[test]
fn test_slug_cases() {
    for (input, expected) in [
        ("API v2.0 Design", "api-v2-0-design"),
        ("  Multiple   Spaces  ", "multiple-spaces"),
        ("CamelCase", "camelcase"),
        ("kebab-case", "kebab-case"),
        ("snake_case", "snake-case"),
        ("MixedCase-and_stuff", "mixedcase-and-stuff"),
        ("", ""),
        ("---", ""),
        ("Hello, World!", "hello-world"),
        ("C++ vs Rust", "c-vs-rust"),
        ("100% Complete", "100-complete"),
        ("Über Design", "ber-design"),
        ("日本語", ""),
        ("café", "caf"),
    ] {
        assert_eq!(slug(input), expected, "slug of {:?}", input);
    }
}

#[test]
fn test_adr_new() {
    let adr = Adr::new(1, "Use Rust");
    assert_eq!(adr.number, 1);
    assert_eq!(adr.title, "Use Rust");
    assert_eq!(adr.status, AdrStatus::Proposed);
    assert!(adr.links.is_empty());
    assert!(adr.context.is_empty());
    assert!(adr.decision.is_empty());
    assert!(adr.consequences.is_empty());
    assert!(adr.path.is_none());
}

#[test]
fn test_adr_filename() {
    for (number, title, expected) in [
        (1, "Use Rust", "0001-use-rust.md"),
        (42, "API Design Guidelines", "0042-api-design-guidelines.md"),
        (999, "Last Decision", "0999-last-decision.md"),
        (9999, "Max Normal", "9999-max-normal.md"),
        (10000, "Beyond Four Digits", "10000-beyond-four-digits.md"),
    ] {
        assert_eq!(Adr::new(number, title).filename(), expected);
    }
}

#[test]
fn test_adr_full_title() {
    let adr = Adr::new(1, "Use Rust");
    assert_eq!(adr.full_title(), "1. Use Rust");

    let adr = Adr::new(42, "API Design");
    assert_eq!(adr.full_title(), "42. API Design");
}

#[test]
fn test_adr_add_link() {
    let mut adr = Adr::new(1, "Use Rust");
    adr.add_link(AdrLink::new(2, LinkKind::Supersedes));

    assert_eq!(adr.links.len(), 1);
    assert_eq!(adr.links[0].target, 2);
    assert_eq!(adr.links[0].kind, LinkKind::Supersedes);
}

#[test]
fn test_adr_set_status() {
    let mut adr = Adr::new(1, "Use Rust");
    assert_eq!(adr.status, AdrStatus::Proposed);

    adr.set_status(AdrStatus::Accepted);
    assert_eq!(adr.status, AdrStatus::Accepted);

    adr.set_status(AdrStatus::Superseded);
    assert_eq!(adr.status, AdrStatus::Superseded);
}

#[test]
fn test_status_display() {
    assert_eq!(AdrStatus::Proposed.to_string(), "Proposed");
    assert_eq!(AdrStatus::Accepted.to_string(), "Accepted");
    assert_eq!(AdrStatus::Deprecated.to_string(), "Deprecated");
    assert_eq!(AdrStatus::Superseded.to_string(), "Superseded");
    assert_eq!(AdrStatus::Custom("Draft".into()).to_string(), "Draft");
    assert_eq!(AdrStatus::Custom("In Review".into()).to_string(), "In Review");
}

#[test]
fn test_status_parse() {
    assert_eq!(AdrStatus::parse_str("proposed"), AdrStatus::Proposed);
    assert_eq!(AdrStatus::parse_str("PROPOSED"), AdrStatus::Proposed);
    assert_eq!(AdrStatus::parse_str("accepted"), AdrStatus::Accepted);
    assert_eq!(AdrStatus::parse_str("Superceded"), AdrStatus::Superseded);
    assert_eq!(AdrStatus::parse_str("Draft"), AdrStatus::Custom("Draft".into()));
}

#[test]
fn status_text_reads_back() {
    for s in [AdrStatus::Proposed, AdrStatus::Accepted, AdrStatus::Deprecated, AdrStatus::Superseded] {
        assert_eq!(AdrStatus::parse_str(&s.to_string()), s);
    }
}

#[test]
fn link_kind_text_reads_back() {
    for k in [LinkKind::Supersedes, LinkKind::SupersededBy, LinkKind::Amends, LinkKind::AmendedBy, LinkKind::RelatesTo] {
        assert_eq!(LinkKind::parse_str(&k.to_string()), k);
    }
    assert_eq!(LinkKind::SupersededBy.to_string(), "Superseded by");
}

#[test]
fn dates_validate_and_format() {
    let d = Date::from_calendar_date(2024, 2, 29).unwrap();
    assert_eq!(d.format(), "2024-02-29");
    assert!(Date::from_calendar_date(2023, 2, 29).is_none());
    assert_eq!(Date::parse_iso("2024-01-15").unwrap().format(), "2024-01-15");
    assert!(Date::parse_iso("2024-13-01").is_none());
}

#[test]
fn test_status_default() {
    assert_eq!(AdrStatus::default(), AdrStatus::Proposed);
}

#[test]
fn test_status_roundtrip_standard() {
    for status in [AdrStatus::Proposed, AdrStatus::Accepted, AdrStatus::Deprecated, AdrStatus::Superseded] {
        let s = status.to_string();
        let parsed = AdrStatus::parse_str(&s);
        assert_eq!(parsed, status);
    }
}

#[test]
fn link_kind_display_and_parse() {
    for (kind, text) in [
        (LinkKind::Supersedes, "Supersedes"),
        (LinkKind::SupersededBy, "Superseded by"),
        (LinkKind::Amends, "Amends"),
        (LinkKind::AmendedBy, "Amended by"),
        (LinkKind::RelatesTo, "Relates to"),
        (LinkKind::Custom("Extends".into()), "Extends"),
    ] {
        assert_eq!(kind.to_string(), text);
    }
    for (text, kind) in [
        ("supersedes", LinkKind::Supersedes),
        ("Supersedes", LinkKind::Supersedes),
        ("superseded by", LinkKind::SupersededBy),
        ("superseded-by", LinkKind::SupersededBy),
        ("amends", LinkKind::Amends),
        ("amended by", LinkKind::AmendedBy),
        ("amended-by", LinkKind::AmendedBy),
        ("relates to", LinkKind::RelatesTo),
        ("relates-to", LinkKind::RelatesTo),
        ("extends", LinkKind::Custom("extends".into())),
    ] {
        assert_eq!(LinkKind::parse_str(text), kind);
    }
}

#[test]
fn test_adr_link_new() {
    let link = AdrLink::new(5, LinkKind::Supersedes);
    assert_eq!(link.target, 5);
    assert_eq!(link.kind, LinkKind::Supersedes);
    assert!(link.description.is_none());
}

#[test]
fn test_adr_link_with_description() {
    let link = AdrLink::with_description(3, LinkKind::Amends, "Clarifies the API design");
    assert_eq!(link.target, 3);
    assert_eq!(link.kind, LinkKind::Amends);
    assert_eq!(link.description, Some("Clarifies the API design".into()));
}

#[test]
fn clock_reading_becomes_the_date() {
    assert_eq!(date_from_clock(2026, 3, 18).format(), "2026-03-18");
    assert_eq!(date_from_clock(2024, 2, 29).format(), "2024-02-29");
}

#[test]
fn unusable_clock_reading_falls_back() {
    assert_eq!(date_from_clock(2023, 2, 29).format(), "2024-01-01");
    assert_eq!(date_from_clock(2024, 13, 1).format(), "2024-01-01");
}

#[test]
fn today_is_a_calendar_date() {
    let d = today();
    assert!((1..=12).contains(&d.month()));
    assert!(d.day() >= 1 && d.day() <= 31);
    assert_eq!(Date::from_calendar_date(d.year(), d.month(), d.day()), Some(d));
}
