use adrs_core::config::{Config, ConfigMode};
use adrs_core::error::Error;
use adrs_core::template::{Template, TemplateEngine, TemplateFormat, TemplateVariant};
use adrs_core::types::{Adr, AdrLink, AdrStatus, LinkKind};

fn ng_config() -> Config {
    Config { mode: ConfigMode::NextGen, ..Default::default() }
}

#[test]
fn test_template_format_parse_unknown() {
    let result = TemplateFormat::parse_str("unknown");
    assert!(result.is_err());
}

#[test]
fn test_template_variant_parse_unknown() {
    let result = TemplateVariant::parse_str("unknown");
    assert!(result.is_err());
}

#[test]
fn test_template_from_file_not_found() {
    let read = Err(Error::Io("No such file or directory (os error 2)".to_string()));
    let result = Template::from_file("/nonexistent/template.md", read);
    assert!(result.is_err());
}

#[test]
fn test_render_nygard_compatible() {
    let template = Template::builtin(TemplateFormat::Nygard);
    let mut adr = Adr::new(1, "Use Rust");
    adr.status = AdrStatus::Accepted;

    let config = Config::default();
    let output = template.render(&adr, &config).unwrap();

    assert!(output.contains("# 1. Use Rust"));
    assert!(output.contains("## Status"));
    assert!(output.contains("Accepted"));
    assert!(!output.starts_with("---"));
}

#[test]
fn test_render_nygard_all_statuses() {
    let template = Template::builtin(TemplateFormat::Nygard);
    let config = Config::default();

    for (status, expected_text) in [
        (AdrStatus::Proposed, "Proposed"),
        (AdrStatus::Accepted, "Accepted"),
        (AdrStatus::Deprecated, "Deprecated"),
        (AdrStatus::Superseded, "Superseded"),
        (AdrStatus::Custom("Draft".into()), "Draft"),
    ] {
        let mut adr = Adr::new(1, "Test");
        adr.status = status;

        let output = template.render(&adr, &config).unwrap();
        assert!(output.contains(expected_text), "Output should contain '{expected_text}': {output}");
    }
}

#[test]
fn test_render_nygard_with_content() {
    let template = Template::builtin(TemplateFormat::Nygard);
    let mut adr = Adr::new(1, "Use Rust");
    adr.status = AdrStatus::Accepted;
    adr.context = "We need a safe language.".to_string();
    adr.decision = "We will use Rust.".to_string();
    adr.consequences = "Better memory safety.".to_string();

    let config = Config::default();
    let output = template.render(&adr, &config).unwrap();

    assert!(output.contains("We need a safe language."));
    assert!(output.contains("We will use Rust."));
    assert!(output.contains("Better memory safety."));
}

#[test]
fn test_render_nygard_with_links() {
    let template = Template::builtin(TemplateFormat::Nygard);
    let mut adr = Adr::new(2, "Use PostgreSQL");
    adr.status = AdrStatus::Accepted;
    adr.links.push(AdrLink::new(1, LinkKind::Supersedes));

    let config = Config::default();
    let output = template.render(&adr, &config).unwrap();

    assert!(output.contains("Supersedes"));
    assert!(output.contains("[1. ...]"));
    assert!(output.contains("0001-....md"));
}

#[test]
fn test_render_nygard_with_multiple_links() {
    let template = Template::builtin(TemplateFormat::Nygard);
    let mut adr = Adr::new(5, "Combined Decision");
    adr.status = AdrStatus::Accepted;
    adr.links.push(AdrLink::new(1, LinkKind::Supersedes));
    adr.links.push(AdrLink::new(2, LinkKind::Amends));
    adr.links.push(AdrLink::new(3, LinkKind::SupersededBy));

    let config = Config::default();
    let output = template.render(&adr, &config).unwrap();

    assert!(output.contains("Supersedes"));
    assert!(output.contains("Amends"));
    assert!(output.contains("Superseded by"));
}

#[test]
fn test_render_nygard_ng() {
    let template = Template::builtin(TemplateFormat::Nygard);
    let mut adr = Adr::new(1, "Use Rust");
    adr.status = AdrStatus::Accepted;

    let output = template.render(&adr, &ng_config()).unwrap();

    assert!(output.starts_with("---"));
    assert!(output.contains("number: 1"));
    assert!(output.contains("title: Use Rust"));
    assert!(output.contains("status: accepted"));
}

#[test]
fn test_render_nygard_ng_with_links() {
    let template = Template::builtin(TemplateFormat::Nygard);
    let mut adr = Adr::new(2, "Test");
    adr.status = AdrStatus::Accepted;
    adr.links.push(AdrLink::new(1, LinkKind::Supersedes));

    let output = template.render(&adr, &ng_config()).unwrap();

    assert!(output.contains("links:"));
    assert!(output.contains("target: 1"));
}

#[test]
fn test_render_madr_basic() {
    let template = Template::builtin(TemplateFormat::Madr);
    let mut adr = Adr::new(1, "Use Rust");
    adr.status = AdrStatus::Accepted;

    let config = Config::default();
    let output = template.render(&adr, &config).unwrap();

    assert!(output.starts_with("---"));
    assert!(output.contains("status: accepted"));
    assert!(output.contains("# Use Rust"));
    assert!(output.contains("## Context and Problem Statement"));
    assert!(output.contains("## Decision Drivers"));
    assert!(output.contains("## Considered Options"));
    assert!(output.contains("## Decision Outcome"));
    assert!(output.contains("## Pros and Cons of the Options"));
}

#[test]
fn test_render_madr_with_decision_makers() {
    let template = Template::builtin(TemplateFormat::Madr);
    let mut adr = Adr::new(1, "Use Rust");
    adr.status = AdrStatus::Accepted;
    adr.decision_makers = vec!["Alice".into(), "Bob".into()];

    let output = template.render(&adr, &Config::default()).unwrap();

    assert!(output.contains("decision-makers:"));
    assert!(output.contains("  - Alice"));
    assert!(output.contains("  - Bob"));
}

#[test]
fn test_render_madr_with_consulted() {
    let template = Template::builtin(TemplateFormat::Madr);
    let mut adr = Adr::new(1, "Use Rust");
    adr.status = AdrStatus::Accepted;
    adr.consulted = vec!["Carol".into()];

    let output = template.render(&adr, &Config::default()).unwrap();

    assert!(output.contains("consulted:"));
    assert!(output.contains("  - Carol"));
}

#[test]
fn test_render_madr_with_informed() {
    let template = Template::builtin(TemplateFormat::Madr);
    let mut adr = Adr::new(1, "Use Rust");
    adr.status = AdrStatus::Accepted;
    adr.informed = vec!["Dave".into(), "Eve".into()];

    let output = template.render(&adr, &Config::default()).unwrap();

    assert!(output.contains("informed:"));
    assert!(output.contains("  - Dave"));
    assert!(output.contains("  - Eve"));
}

#[test]
fn test_render_madr_full_frontmatter() {
    let template = Template::builtin(TemplateFormat::Madr);
    let mut adr = Adr::new(1, "Use MADR Format");
    adr.status = AdrStatus::Accepted;
    adr.decision_makers = vec!["Alice".into(), "Bob".into()];
    adr.consulted = vec!["Carol".into()];
    adr.informed = vec!["Dave".into()];

    let output = template.render(&adr, &Config::default()).unwrap();

    assert!(output.starts_with("---\nnumber: 1\ntitle: Use MADR Format\nstatus: accepted\ndate:"));
    assert!(output.contains("decision-makers:\n  - Alice\n  - Bob"));
    assert!(output.contains("consulted:\n  - Carol"));
    assert!(output.contains("informed:\n  - Dave"));
    assert!(output.contains("---\n\n# Use MADR Format"));
}

#[test]
fn test_render_madr_empty_optional_fields() {
    let template = Template::builtin(TemplateFormat::Madr);
    let mut adr = Adr::new(1, "Simple ADR");
    adr.status = AdrStatus::Proposed;

    let output = template.render(&adr, &Config::default()).unwrap();

    assert!(!output.contains("decision-makers:"));
    assert!(!output.contains("consulted:"));
    assert!(!output.contains("informed:"));
}

#[test]
fn test_nygard_minimal_template() {
    let template = Template::builtin_with_variant(TemplateFormat::Nygard, TemplateVariant::Minimal);
    let adr = Adr::new(1, "Minimal Test");
    let output = template.render(&adr, &Config::default()).unwrap();

    assert!(output.contains("# 1. Minimal Test"));
    assert!(output.contains("## Status"));
    assert!(output.contains("## Context"));
    assert!(output.contains("## Decision"));
    assert!(output.contains("## Consequences"));
    assert!(!output.contains("What is the issue"));
}

#[test]
fn test_nygard_bare_template() {
    let template = Template::builtin_with_variant(TemplateFormat::Nygard, TemplateVariant::Bare);
    let adr = Adr::new(1, "Bare Test");
    let output = template.render(&adr, &Config::default()).unwrap();

    assert!(output.contains("# 1. Bare Test"));
    assert!(output.contains("## Status"));
    assert!(output.contains("## Context"));
    assert!(!output.contains("---"));
}

#[test]
fn test_madr_minimal_template() {
    let template = Template::builtin_with_variant(TemplateFormat::Madr, TemplateVariant::Minimal);
    let adr = Adr::new(1, "MADR Minimal");
    let output = template.render(&adr, &Config::default()).unwrap();

    assert!(!output.starts_with("---"));
    assert!(output.contains("# MADR Minimal"));
    assert!(output.contains("## Context and Problem Statement"));
    assert!(output.contains("## Considered Options"));
    assert!(output.contains("## Decision Outcome"));
    assert!(!output.contains("## Decision Drivers"));
    assert!(!output.contains("## Pros and Cons"));
}

#[test]
fn test_madr_bare_template() {
    let template = Template::builtin_with_variant(TemplateFormat::Madr, TemplateVariant::Bare);
    let adr = Adr::new(1, "MADR Bare");
    let output = template.render(&adr, &Config::default()).unwrap();

    assert!(output.starts_with("---"));
    assert!(output.contains("status:"));
    assert!(output.contains("decision-makers:"));
    assert!(output.contains("consulted:"));
    assert!(output.contains("informed:"));
    assert!(output.contains("# MADR Bare"));
    assert!(output.contains("## Decision Drivers"));
    assert!(output.contains("## Considered Options"));
    assert!(output.contains("## Pros and Cons of the Options"));
    assert!(output.contains("## More Information"));
}

#[test]
fn test_madr_bare_minimal_template() {
    let template = Template::builtin_with_variant(TemplateFormat::Madr, TemplateVariant::BareMinimal);
    let adr = Adr::new(1, "MADR Bare Minimal");
    let output = template.render(&adr, &Config::default()).unwrap();

    assert!(!output.starts_with("---"));
    assert!(output.contains("# MADR Bare Minimal"));
    assert!(output.contains("## Context and Problem Statement"));
    assert!(output.contains("## Considered Options"));
    assert!(output.contains("## Decision Outcome"));
    assert!(output.contains("### Consequences"));
    assert!(!output.contains("## Decision Drivers"));
    assert!(!output.contains("## Pros and Cons"));
}

#[test]
fn test_nygard_bare_minimal_template() {
    let template = Template::builtin_with_variant(TemplateFormat::Nygard, TemplateVariant::BareMinimal);
    let adr = Adr::new(1, "Nygard Bare Minimal");
    let output = template.render(&adr, &Config::default()).unwrap();

    assert!(output.contains("# 1. Nygard Bare Minimal"));
    assert!(output.contains("## Status"));
    assert!(output.contains("## Context"));
    assert!(output.contains("## Decision"));
    assert!(output.contains("## Consequences"));
    assert!(!output.contains("---"));
    assert!(!output.contains("Date:"));
}

#[test]
fn test_template_engine_render() {
    let engine = TemplateEngine::new();
    let adr = Adr::new(1, "Test");
    let output = engine.render(&adr, &Config::default()).unwrap();
    assert!(output.contains("# 1. Test"));
}

#[test]
fn test_template_engine_render_custom() {
    let custom = Template::from_string("custom", "ADR {{ number }}: {{ title }}");
    let engine = TemplateEngine::new().with_custom_template(custom);
    let adr = Adr::new(42, "Custom ADR");
    let output = engine.render(&adr, &Config::default()).unwrap();
    assert_eq!(output, "ADR 42: Custom ADR");
}

#[test]
fn test_custom_template_all_fields() {
    let custom = Template::from_string(
        "full",
        r#"# {{ number }}. {{ title }}
Date: {{ date }}
Status: {{ status }}
Context: {{ context }}
Decision: {{ decision }}
Consequences: {{ consequences }}
Links: {% for link in links %}{{ link.kind }} {{ link.target }}{% endfor %}"#,
    );

    let mut adr = Adr::new(1, "Test");
    adr.status = AdrStatus::Accepted;
    adr.context = "Context text".into();
    adr.decision = "Decision text".into();
    adr.consequences = "Consequences text".into();
    adr.links.push(AdrLink::new(2, LinkKind::Amends));

    let output = custom.render(&adr, &Config::default()).unwrap();

    assert!(output.contains("# 1. Test"));
    assert!(output.contains("Status: Accepted"));
    assert!(output.contains("Context: Context text"));
    assert!(output.contains("Decision: Decision text"));
    assert!(output.contains("Consequences: Consequences text"));
    assert!(output.contains("Amends 2"));
}

#[test]
fn test_custom_template_is_ng_flag() {
    let custom =
        Template::from_string("ng-check", r#"{% if is_ng %}NextGen Mode{% else %}Compatible Mode{% endif %}"#);
    let adr = Adr::new(1, "Test");

    let output = custom.render(&adr, &Config::default()).unwrap();
    assert_eq!(output, "Compatible Mode");

    let output = custom.render(&adr, &ng_config()).unwrap();
    assert_eq!(output, "NextGen Mode");
}

#[test]
fn test_custom_template_link_kinds() {
    let custom = Template::from_string("links", r#"{% for link in links %}{{ link.kind }}|{% endfor %}"#);

    let mut adr = Adr::new(1, "Test");
    adr.links.push(AdrLink::new(1, LinkKind::Supersedes));
    adr.links.push(AdrLink::new(2, LinkKind::SupersededBy));
    adr.links.push(AdrLink::new(3, LinkKind::Amends));
    adr.links.push(AdrLink::new(4, LinkKind::AmendedBy));
    adr.links.push(AdrLink::new(5, LinkKind::RelatesTo));
    adr.links.push(AdrLink::new(6, LinkKind::Custom("Depends on".into())));

    let output = custom.render(&adr, &Config::default()).unwrap();

    assert!(output.contains("Supersedes|"));
    assert!(output.contains("Superseded by|"));
    assert!(output.contains("Amends|"));
    assert!(output.contains("Amended by|"));
    assert!(output.contains("Relates to|"));
    assert!(output.contains("Depends on|"));
}

#[test]
fn test_template_invalid_syntax() {
    let custom = Template::from_string("invalid", "{{ unclosed");
    let adr = Adr::new(1, "Test");
    let result = custom.render(&adr, &Config::default());
    assert!(result.is_err());
}

#[test]
fn test_template_undefined_variable() {
    let custom = Template::from_string("undefined", "{{ nonexistent }}");
    let adr = Adr::new(1, "Test");
    let result = custom.render(&adr, &Config::default());
    assert!(result.is_ok());
}

#[test]
fn test_render_four_digit_number() {
    let template = Template::builtin(TemplateFormat::Nygard);
    let adr = Adr::new(9999, "Large Number");
    let output = template.render(&adr, &Config::default()).unwrap();
    assert!(output.contains("# 9999. Large Number"));
}

#[test]
fn test_render_link_number_formatting() {
    let template = Template::builtin(TemplateFormat::Nygard);
    let mut adr = Adr::new(2, "Test");
    adr.links.push(AdrLink::new(1, LinkKind::Supersedes));
    let output = template.render(&adr, &Config::default()).unwrap();
    assert!(output.contains("0001-"));
}
