use adrs_core::config::{
    map_gitconfig_key, validate_config, AdrDirFile, AdrsConfigEnv, AdrsEnv, Config, ConfigLayer, ConfigMode,
    ConfigSource, ConfigWrite, ConfigWriteTarget, DirMarkers, DiscoveryInputs, GitConfig,
    GitConfigScope, TemplateConfig, CONFIG_FILE, DEFAULT_ADR_DIR, LEGACY_CONFIG_FILE,
};
use adrs_core::config::{discover, find_project_root, resolve_layers};
use adrs_core::error::Error;

fn config_with(adr_dir: &str, mode: ConfigMode, templates: TemplateConfig) -> Config {
    Config { adr_dir: adr_dir.to_string(), mode, templates }
}

#[test]
fn config_test_default_config() {
    let config = Config::default();
    assert_eq!(config.adr_dir, "doc/adr");
    assert_eq!(config.mode, ConfigMode::Compatible);
}

#[test]
fn mod_test_default_config() {
    let config = Config::default();
    assert_eq!(config.adr_dir, "doc/adr");
    assert_eq!(config.mode, ConfigMode::Compatible);
    assert!(config.templates.format.is_none());
    assert!(config.templates.custom.is_none());
}

#[test]
fn test_constants() {
    assert_eq!(DEFAULT_ADR_DIR, "doc/adr");
    assert_eq!(LEGACY_CONFIG_FILE, ".adr-dir");
    assert_eq!(CONFIG_FILE, "adrs.toml");
}

#[test]
fn test_config_mode_default() {
    assert_eq!(ConfigMode::default(), ConfigMode::Compatible);
}

#[test]
fn test_is_next_gen() {
    let compatible = Config { mode: ConfigMode::Compatible, ..Default::default() };
    assert!(!compatible.is_next_gen());

    let nextgen = Config { mode: ConfigMode::NextGen, ..Default::default() };
    assert!(nextgen.is_next_gen());
}

#[test]
fn test_config_mode_equality() {
    assert_eq!(ConfigMode::Compatible, ConfigMode::Compatible);
    assert_eq!(ConfigMode::NextGen, ConfigMode::NextGen);
    assert_ne!(ConfigMode::Compatible, ConfigMode::NextGen);
}

#[test]
fn test_template_config_default() {
    let config = TemplateConfig::default();
    assert!(config.format.is_none());
    assert!(config.variant.is_none());
    assert!(config.custom.is_none());
}

#[test]
fn test_config_source_variants() {
    let project = ConfigSource::Project("test".to_string());
    let global = ConfigSource::Global("test".to_string());
    let env = ConfigSource::Environment;
    let default = ConfigSource::Default;

    assert_ne!(project, global);
    assert_ne!(env, default);
    assert_eq!(default, ConfigSource::Default);
}

#[test]
fn test_config_merge() {
    let mut base = Config::default();
    let other = config_with(
        "custom",
        ConfigMode::NextGen,
        TemplateConfig { format: Some("madr".to_string()), variant: None, custom: None },
    );

    base.merge(&other);
    assert_eq!(base.adr_dir, "custom");
    assert_eq!(base.mode, ConfigMode::NextGen);
    assert_eq!(base.templates.format, Some("madr".to_string()));
}

#[test]
fn test_config_merge_preserves_default_adr_dir() {
    let mut base = Config { adr_dir: "original".to_string(), ..Default::default() };
    let other = Config::default();

    base.merge(&other);
    assert_eq!(base.adr_dir, "original");
}

#[test]
fn test_config_merge_variant_field() {
    let mut base = Config::default();
    let other = Config {
        templates: TemplateConfig { format: None, variant: Some("minimal".to_string()), custom: None },
        ..Default::default()
    };

    base.merge(&other);
    assert_eq!(base.templates.variant, Some("minimal".to_string()));
}

#[test]
fn test_config_merge_custom_field() {
    let mut base = Config::default();
    let other = Config {
        templates: TemplateConfig { format: None, variant: None, custom: Some("my-template.md".to_string()) },
        ..Default::default()
    };

    base.merge(&other);
    assert_eq!(base.templates.custom, Some("my-template.md".to_string()));
}

#[test]
fn test_config_merge_does_not_overwrite_with_none() {
    let mut base = Config {
        templates: TemplateConfig {
            format: Some("madr".to_string()),
            variant: Some("minimal".to_string()),
            custom: Some("template.md".to_string()),
        },
        ..Default::default()
    };
    let other = Config::default();

    base.merge(&other);

    assert_eq!(base.templates.format, Some("madr".to_string()));
    assert_eq!(base.templates.variant, Some("minimal".to_string()));
    assert_eq!(base.templates.custom, Some("template.md".to_string()));
}

#[test]
fn merge_twice_is_merge_once() {
    let other = config_with(
        "x",
        ConfigMode::NextGen,
        TemplateConfig { format: None, variant: Some("bare".to_string()), custom: None },
    );
    let mut once = config_with("a", ConfigMode::Compatible, TemplateConfig::default());
    once.merge(&other);
    let mut twice = config_with("a", ConfigMode::Compatible, TemplateConfig::default());
    twice.merge(&other);
    twice.merge(&other);
    assert_eq!(once.adr_dir, twice.adr_dir);
    assert_eq!(once.mode, twice.mode);
    assert_eq!(once.templates.variant, twice.templates.variant);
}

#[test]
fn adr_path_joins_root_and_directory() {
    let config = Config { adr_dir: "docs/decisions".to_string(), ..Default::default() };
    assert_eq!(config.adr_path("/home/user/project"), "/home/user/project/docs/decisions");
}

#[test]
fn validate_rejects_empty_directory() {
    let config = Config { adr_dir: String::new(), ..Default::default() };
    match validate_config(&config) {
        Err(Error::ConfigError(m)) => assert_eq!(m, "adr_dir cannot be empty"),
        other => panic!("unexpected {:?}", other),
    }
    assert!(validate_config(&Config::default()).is_ok());
}

fn layer(dir: Option<&str>, mode: Option<&str>) -> ConfigLayer {
    ConfigLayer {
        adr_dir: dir.map(|s| s.to_string()),
        mode: mode.map(|s| s.to_string()),
        format: None,
        variant: None,
        custom: None,
    }
}

#[test]
fn layers_later_wins_per_key() {
    let layers = vec![layer(Some("decisions"), Some("compatible")), layer(None, Some("ng"))];
    let config = resolve_layers(&layers).unwrap();
    assert_eq!(config.adr_dir, "decisions");
    assert_eq!(config.mode, ConfigMode::NextGen);
}

#[test]
fn layers_accept_nextgen_alias_and_reject_unknown_mode() {
    let config = resolve_layers(&vec![layer(None, Some("nextgen"))]).unwrap();
    assert_eq!(config.mode, ConfigMode::NextGen);
    assert!(matches!(resolve_layers(&vec![layer(None, Some("fancy"))]), Err(Error::ConfigError(_))));
}

#[test]
fn load_requires_a_marker() {
    let layers = vec![AdrDirFile::new(".adr-dir").data(Some("  decisions  \n"))];
    let config = Config::load(&layers, false, true, false).unwrap();
    assert_eq!(config.adr_dir, "decisions");
    assert!(matches!(Config::load(&layers, false, false, false), Err(Error::AdrDirNotFound)));
    let fallback = Config::load_or_default(&layers, false, false, false);
    assert_eq!(fallback.adr_dir, "doc/adr");
}

#[test]
fn adr_dir_file_blank_gives_nothing() {
    let l = AdrDirFile::new(".adr-dir").data(Some("   \n  "));
    assert!(l.adr_dir.is_none());
    assert!(l.mode.is_none());
    let l = AdrDirFile::new(".adr-dir").data(None);
    assert!(l.adr_dir.is_none());
}

#[test]
fn env_layer_prefers_adrs_dir() {
    let l = AdrsEnv.data(
        &Some("from-adrs".to_string()),
        &Some("from-legacy".to_string()),
        &Some("ng".to_string()),
        &None,
        &Some("  ".to_string()),
    );
    assert_eq!(l.adr_dir, Some("from-adrs".to_string()));
    assert_eq!(l.mode, Some("ng".to_string()));
    assert!(l.variant.is_none());
    let l = AdrsEnv.data(&None, &Some("legacy".to_string()), &None, &None, &None);
    assert_eq!(l.adr_dir, Some("legacy".to_string()));
}

#[test]
fn gitconfig_keys_map_case_insensitively() {
    assert_eq!(map_gitconfig_key("directory"), Some("adr_dir".to_string()));
    assert_eq!(map_gitconfig_key("DIRECTORY"), Some("adr_dir".to_string()));
    assert_eq!(map_gitconfig_key("template-format"), Some("templates.format".to_string()));
    assert_eq!(map_gitconfig_key("unknown"), None);
}

#[test]
fn gitconfig_entries_become_a_layer() {
    let g = GitConfig::new(GitConfigScope::Global, "/home/u/.gitconfig");
    assert_eq!(g.scope(), GitConfigScope::Global);
    let entries = vec![
        ("Directory".to_string(), "  adrs  ".to_string()),
        ("mode".to_string(), "".to_string()),
        ("other".to_string(), "x".to_string()),
        ("template-variant".to_string(), "minimal".to_string()),
    ];
    let l = g.data(&entries);
    assert_eq!(l.adr_dir, Some("adrs".to_string()));
    assert!(l.mode.is_none());
    assert_eq!(l.variant, Some("minimal".to_string()));
    assert!(GitConfig::default().data(&entries).adr_dir.is_none());
    assert!(GitConfig::local("/repo", false).is_none());
    assert_eq!(GitConfig::local("/repo", true).unwrap().path(), "/repo/.git/config");
}

#[test]
fn save_writes_by_mode() {
    let compat = Config { adr_dir: "decisions".to_string(), ..Default::default() };
    assert_eq!(compat.save_target(), ConfigWriteTarget::LegacyAdrDir);
    match compat.save("/p") {
        ConfigWrite::File { path, content } => {
            assert_eq!(path, "/p/.adr-dir");
            assert_eq!(content, "decisions");
        }
        other => panic!("unexpected {:?}", other),
    }
    let ng = Config { mode: ConfigMode::NextGen, ..Default::default() };
    match ng.save("/p") {
        ConfigWrite::Toml { path } => assert_eq!(path, "/p/adrs.toml"),
        other => panic!("unexpected {:?}", other),
    }
    match ng.save_to("/p", ConfigWriteTarget::GitConfig(GitConfigScope::Local)) {
        ConfigWrite::GitConfig { scope, entries } => {
            assert_eq!(scope, GitConfigScope::Local);
            assert_eq!(entries, vec![
                ("directory".to_string(), "doc/adr".to_string()),
                ("mode".to_string(), "ng".to_string()),
            ]);
        }
        other => panic!("unexpected {:?}", other),
    }
}

fn dir(path: &str, toml: bool, adr_dir: bool, default_dir: bool, git: bool) -> DirMarkers {
    DirMarkers { dir: path.to_string(), has_toml: toml, has_adr_dir: adr_dir, has_default_dir: default_dir, has_git: git }
}

#[test]
fn project_root_search_stops_at_git_root() {
    let dirs = vec![dir("/a/b", false, false, false, false), dir("/a", false, true, false, false)];
    let (root, source) = find_project_root(&dirs).unwrap();
    assert_eq!(root, "/a");
    assert_eq!(source, ConfigSource::Project("/a/.adr-dir".to_string()));
    let dirs = vec![dir("/a/b", false, false, false, true), dir("/a", true, false, false, false)];
    assert!(find_project_root(&dirs).is_none());
}

#[test]
fn discover_prefers_explicit_config() {
    let inputs = DiscoveryInputs {
        start_dir: "/work".to_string(),
        explicit: Some(("/etc/adrs/custom.toml".to_string(), vec![layer(Some("x"), None)])),
        project: Some(("/work".to_string(), ConfigSource::Default, vec![])),
        global: None,
        fallback: vec![],
    };
    let d = discover(&inputs).unwrap();
    assert_eq!(d.root, "/etc/adrs");
    assert_eq!(d.source, ConfigSource::EnvironmentConfig("/etc/adrs/custom.toml".to_string()));
    assert_eq!(d.config.adr_dir, "x");
    let inputs = DiscoveryInputs {
        start_dir: "/work".to_string(),
        explicit: None,
        project: None,
        global: None,
        fallback: vec![],
    };
    let d = discover(&inputs).unwrap();
    assert_eq!(d.source, ConfigSource::Default);
    assert_eq!(d.config.adr_dir, "doc/adr");
}

fn env(
    adrs_dir: Option<&str>,
    adr_directory: Option<&str>,
    mode: Option<&str>,
    format: Option<&str>,
    variant: Option<&str>,
) -> ConfigLayer {
    let s = |v: Option<&str>| v.map(String::from);
    AdrsEnv.data(&s(adrs_dir), &s(adr_directory), &s(mode), &s(format), &s(variant))
}

fn is_empty_layer(l: &ConfigLayer) -> bool {
    l.adr_dir.is_none() && l.mode.is_none() && l.format.is_none() && l.variant.is_none() && l.custom.is_none()
}

#[test]
fn test_load_no_config_no_default_dir() {
    let result = Config::load(&vec![], false, false, false);
    assert!(result.is_err());
}

#[test]
fn test_load_or_default_returns_default_on_error() {
    let config = Config::load_or_default(&vec![], false, false, false);
    assert_eq!(config.adr_dir, "doc/adr");
    assert_eq!(config.mode, ConfigMode::Compatible);
}

#[test]
fn local_returns_none_for_non_git_dir() {
    assert!(GitConfig::local("/tmp/not-a-repo", false).is_none());
}

#[test]
fn reads_adrs_dir_env_var() {
    let l = env(Some("custom/dir"), None, None, None, None);
    assert_eq!(l.adr_dir.as_deref(), Some("custom/dir"));
}

#[test]
fn reads_adrs_mode_env_var() {
    let l = env(None, None, Some("nextgen"), None, None);
    assert_eq!(l.mode.as_deref(), Some("nextgen"));
}

#[test]
fn reads_adrs_template_format_env_var() {
    let l = env(None, None, None, Some("madr"), None);
    assert_eq!(l.format.as_deref(), Some("madr"));
}

#[test]
fn adrs_dir_overrides_adr_directory() {
    let l = env(Some("new/path"), Some("old/path"), None, None, None);
    assert_eq!(l.adr_dir.as_deref(), Some("new/path"));
}

#[test]
fn adr_directory_deprecated_still_works() {
    let l = env(None, Some("legacy/path"), None, None, None);
    assert_eq!(l.adr_dir.as_deref(), Some("legacy/path"));
}

#[test]
fn returns_empty_when_no_vars_set() {
    assert!(is_empty_layer(&env(None, None, None, None, None)));
}

#[test]
fn providers_skips_empty_values() {
    assert!(is_empty_layer(&env(Some(""), None, Some("  "), None, None)));
}

#[test]
fn returns_empty_when_adrs_config_not_set() {
    assert!(AdrsConfigEnv.path(&None).is_none());
    assert!(AdrsConfigEnv.path(&Some("   ".to_string())).is_none());
    assert_eq!(AdrsConfigEnv.path(&Some("/etc/adrs.toml".to_string())).as_deref(), Some("/etc/adrs.toml"));
}

#[test]
fn returns_empty_map_when_file_missing() {
    let provider = AdrDirFile::new("/nonexistent/.adr-dir");
    assert!(is_empty_layer(&provider.data(None)));
}

#[test]
fn adr_dir_file_reads_back_what_save_wrote() {
    let config = Config { adr_dir: "docs/decisions".to_string(), ..Default::default() };
    let content = match config.save("/p") {
        ConfigWrite::File { content, .. } => content,
        other => panic!("unexpected {:?}", other),
    };
    let layer = AdrDirFile::new("/p/.adr-dir").data(Some(content.as_str()));
    let back = resolve_layers(&vec![layer]).unwrap();
    assert_eq!(back.adr_dir, "docs/decisions");
    assert_eq!(back.mode, ConfigMode::Compatible);
    assert!(back.templates.format.is_none());
}

#[test]
fn gitconfig_reads_back_what_save_wrote() {
    let config = Config {
        adr_dir: "decisions".to_string(),
        mode: ConfigMode::NextGen,
        templates: TemplateConfig { format: Some("madr".to_string()), variant: Some("minimal".to_string()), custom: None },
    };
    let entries = match config.save_to("/p", ConfigWriteTarget::GitConfig(GitConfigScope::Local)) {
        ConfigWrite::GitConfig { entries, .. } => entries,
        other => panic!("unexpected {:?}", other),
    };
    let layer = GitConfig::new(GitConfigScope::Local, "/p/.git/config").data(&entries);
    let back = resolve_layers(&vec![layer]).unwrap();
    assert_eq!(back.adr_dir, "decisions");
    assert_eq!(back.mode, ConfigMode::NextGen);
    assert_eq!(back.templates.format.as_deref(), Some("madr"));
    assert_eq!(back.templates.variant.as_deref(), Some("minimal"));
    assert!(back.templates.custom.is_none());
}

fn gitconfig_layer(entries: &[(&str, &str)]) -> ConfigLayer {
    let g = GitConfig::local("/repo", true).unwrap();
    let entries: Vec<(String, String)> = entries.iter().map(|(k, v)| (k.to_string(), v.to_string())).collect();
    g.data(&entries)
}

#[test]
fn reads_adrs_section_from_gitconfig() {
    let l = gitconfig_layer(&[("directory", "custom/adrs"), ("mode", "nextgen")]);
    assert_eq!(l.adr_dir.as_deref(), Some("custom/adrs"));
    assert_eq!(l.mode.as_deref(), Some("nextgen"));
}

#[test]
fn returns_empty_when_no_adrs_section() {
    assert!(is_empty_layer(&gitconfig_layer(&[])));
}

#[test]
fn handles_template_format_key() {
    let l = gitconfig_layer(&[("template-format", "nextgen")]);
    assert_eq!(l.format.as_deref(), Some("nextgen"));
}

#[test]
fn ignores_unknown_keys() {
    let l = gitconfig_layer(&[("unknown-key", "value"), ("directory", "doc/adr")]);
    assert!(l.adr_dir.is_some());
    assert!(l.mode.is_none() && l.format.is_none() && l.variant.is_none() && l.custom.is_none());
}

#[test]
fn case_insensitive_key_matching() {
    let l = gitconfig_layer(&[("DIRECTORY", "uppercase"), ("MODE", "nextgen")]);
    assert_eq!(l.adr_dir.as_deref(), Some("uppercase"));
    assert_eq!(l.mode.as_deref(), Some("nextgen"));
}

#[test]
fn reads_file_contents() {
    let l = AdrDirFile::new("/p/.adr-dir").data(Some("custom/path"));
    assert_eq!(l.adr_dir.as_deref(), Some("custom/path"));
}

#[test]
fn trims_whitespace_and_newlines() {
    let l = AdrDirFile::new("/p/.adr-dir").data(Some("  path/to/adr  \n"));
    assert_eq!(l.adr_dir.as_deref(), Some("path/to/adr"));
}

#[test]
fn returns_empty_map_when_file_empty() {
    assert!(is_empty_layer(&AdrDirFile::new("/p/.adr-dir").data(Some(""))));
}

#[test]
fn returns_empty_map_when_whitespace_only() {
    assert!(is_empty_layer(&AdrDirFile::new("/p/.adr-dir").data(Some("   \n  \t  "))));
}

#[test]
fn sets_compatible_mode() {
    let l = AdrDirFile::new("/p/.adr-dir").data(Some("doc/adr"));
    assert_eq!(l.mode.as_deref(), Some("compatible"));
}

/// The layers of a project root: its `.adr-dir` file (if any), then its
/// `adrs.toml` (given as the settings it holds).
fn root_layers(adr_dir_file: Option<&str>, toml: Option<ConfigLayer>) -> Vec<ConfigLayer> {
    vec![AdrDirFile::new("/p/.adr-dir").data(adr_dir_file), toml.unwrap_or_else(|| layer(None, None))]
}

fn toml_layer(dir: Option<&str>, mode: Option<&str>, format: Option<&str>, variant: Option<&str>, custom: Option<&str>) -> ConfigLayer {
    let s = |v: Option<&str>| v.map(String::from);
    ConfigLayer { adr_dir: s(dir), mode: s(mode), format: s(format), variant: s(variant), custom: s(custom) }
}

#[test]
fn config_test_load_legacy_config() {
    let config = Config::load(&root_layers(Some("decisions"), None), false, true, false).unwrap();
    assert_eq!(config.adr_dir, "decisions");
    assert_eq!(config.mode, ConfigMode::Compatible);
}

#[test]
fn test_load_legacy_config_with_whitespace() {
    let config = Config::load(&root_layers(Some("  decisions  \n"), None), false, true, false).unwrap();
    assert_eq!(config.adr_dir, "decisions");
}

#[test]
fn test_load_legacy_config_nested_path() {
    let config = Config::load(&root_layers(Some("docs/architecture/decisions"), None), false, true, false).unwrap();
    assert_eq!(config.adr_dir, "docs/architecture/decisions");
}

#[test]
fn config_test_load_new_config() {
    let t = toml_layer(Some("docs/decisions"), Some("ng"), None, None, None);
    let config = Config::load(&root_layers(None, Some(t)), true, false, false).unwrap();
    assert_eq!(config.adr_dir, "docs/decisions");
    assert_eq!(config.mode, ConfigMode::NextGen);
}

#[test]
fn test_load_new_config_compatible_mode() {
    let t = toml_layer(Some("doc/adr"), Some("compatible"), None, None, None);
    let config = Config::load(&root_layers(None, Some(t)), true, false, false).unwrap();
    assert_eq!(config.mode, ConfigMode::Compatible);
}

#[test]
fn test_load_new_config_with_templates() {
    let t = toml_layer(Some("decisions"), Some("ng"), Some("markdown"), None, Some("templates/adr.md"));
    let config = Config::load(&root_layers(None, Some(t)), true, false, false).unwrap();
    assert_eq!(config.templates.format, Some("markdown".to_string()));
    assert_eq!(config.templates.custom, Some("templates/adr.md".to_string()));
}

#[test]
fn test_load_new_config_with_template_variant() {
    let t = toml_layer(Some("decisions"), Some("ng"), Some("madr"), Some("minimal"), None);
    let config = Config::load(&root_layers(None, Some(t)), true, false, false).unwrap();
    assert_eq!(config.templates.format, Some("madr".to_string()));
    assert_eq!(config.templates.variant, Some("minimal".to_string()));
}

#[test]
fn test_load_new_config_with_nextgen_alias() {
    let t = toml_layer(Some("decisions"), Some("nextgen"), None, None, None);
    let config = Config::load(&root_layers(None, Some(t)), true, false, false).unwrap();
    assert_eq!(config.mode, ConfigMode::NextGen);
}

#[test]
fn test_load_new_config_minimal() {
    let t = toml_layer(Some("adrs"), None, None, None, None);
    let config = Config::load(&root_layers(None, Some(t)), true, false, false).unwrap();
    assert_eq!(config.adr_dir, "adrs");
    assert_eq!(config.mode, ConfigMode::Compatible);
}

#[test]
fn test_load_prefers_new_config_over_legacy() {
    let t = toml_layer(Some("new-dir"), None, None, None, None);
    let config = Config::load(&root_layers(Some("legacy-dir"), Some(t)), true, true, false).unwrap();
    assert_eq!(config.adr_dir, "new-dir");
}

#[test]
fn test_load_default_dir_exists() {
    let config = Config::load(&root_layers(None, None), false, false, true).unwrap();
    assert_eq!(config.adr_dir, "doc/adr");
}

#[test]
fn test_load_or_default_returns_config_when_exists() {
    let config = Config::load_or_default(&root_layers(Some("custom-dir"), None), false, true, false);
    assert_eq!(config.adr_dir, "custom-dir");
}

#[test]
fn test_load_empty_adr_dir_file() {
    let config = Config::load(&root_layers(Some(""), None), false, true, false).unwrap();
    assert_eq!(config.adr_dir, "doc/adr");
}

#[test]
fn test_load_whitespace_only_adr_dir_file() {
    let config = Config::load(&root_layers(Some("   \n  "), None), false, true, false).unwrap();
    assert_eq!(config.adr_dir, "doc/adr");
}

#[test]
fn test_load_empty_adr_dir_in_toml() {
    let t = toml_layer(Some(""), None, None, None, None);
    assert!(Config::load(&root_layers(None, Some(t)), true, false, false).is_err());
}

#[test]
fn test_invalid_mode_string_rejected() {
    let t = toml_layer(None, Some("invalid_mode"), None, None, None);
    assert!(Config::load(&root_layers(None, Some(t)), true, false, false).is_err());
}

#[test]
fn gitconfig_text_is_read_into_a_layer() {
    let g = GitConfig::local("/repo", true).unwrap();
    let l = g.data_from_text(Some(b"[adrs]\n\tdirectory = custom/adrs\n\tmode = nextgen\n"));
    assert_eq!(l.adr_dir.as_deref(), Some("custom/adrs"));
    assert_eq!(l.mode.as_deref(), Some("nextgen"));
    assert!(is_empty_layer(&g.data_from_text(Some(b"[core]\n\tbare = false\n"))));
    assert!(is_empty_layer(&g.data_from_text(Some(b"[adrs\nnot gitconfig"))));
    assert!(is_empty_layer(&g.data_from_text(None)));
}

#[test]
fn gitconfig_write_sets_the_adrs_section_and_keeps_the_rest() {
    let mut config = Config::default();
    config.adr_dir = "decisions".to_string();
    config.mode = ConfigMode::NextGen;
    let fresh = String::from_utf8(config.write_gitconfig(None).unwrap()).unwrap();
    assert!(fresh.contains("[adrs]"), "{fresh}");
    assert!(fresh.contains("directory = decisions"), "{fresh}");
    assert!(fresh.contains("mode = ng"), "{fresh}");

    let old = b"[core]\n\tbare = false\n[adrs]\n\tdirectory = old\n";
    let text = config.write_gitconfig(Some(old)).unwrap();
    let s = String::from_utf8(text.clone()).unwrap();
    assert!(s.contains("bare = false"), "{s}");
    let g = GitConfig::local("/repo", true).unwrap();
    let l = g.data_from_text(Some(&text));
    assert_eq!(l.adr_dir.as_deref(), Some("decisions"));
    assert_eq!(l.mode.as_deref(), Some("ng"));
}

#[test]
fn global_and_system_gitconfig_need_an_existing_file() {
    assert!(GitConfig::global(None, true).is_none());
    assert!(GitConfig::global(Some("/home/u/.gitconfig"), false).is_none());
    let g = GitConfig::global(Some("/home/u/.gitconfig"), true).unwrap();
    assert_eq!(g.scope(), GitConfigScope::Global);
    assert_eq!(g.path(), "/home/u/.gitconfig");
    assert!(GitConfig::system("/etc/gitconfig", false).is_none());
    assert_eq!(GitConfig::system("/etc/gitconfig", true).unwrap().scope(), GitConfigScope::System);
}

#[test]
fn adr_dir_save_then_load_keeps_dir_and_mode_with_templates() {
    let mut config = Config::default();
    config.adr_dir = "decisions".to_string();
    config.templates.format = Some("madr".to_string());
    config.templates.variant = Some("minimal".to_string());
    let content = match config.save_to("/p", ConfigWriteTarget::LegacyAdrDir) {
        ConfigWrite::File { content, .. } => content,
        other => panic!("unexpected {:?}", other),
    };
    let back = resolve_layers(&vec![AdrDirFile::new("/p/.adr-dir").data(Some(content.as_str()))]).unwrap();
    assert_eq!(back.adr_dir, "decisions");
    assert_eq!(back.mode, ConfigMode::Compatible);
    assert_eq!(back.templates.format, None);
}

#[test]
fn no_marker_opens_with_the_default_config() {
    let layers = vec![layer(Some("elsewhere"), Some("ng"))];
    let config = Config::load_or_default(&layers, false, false, false);
    assert_eq!(config.adr_dir, "doc/adr");
    assert_eq!(config.mode, ConfigMode::Compatible);
}

#[test]
fn gitconfig_parse_failure_names_the_step() {
    match Config::default().write_gitconfig(Some(b"[adrs")) {
        Err(Error::ConfigError(m)) => assert!(m.starts_with("Failed to parse gitconfig: "), "{m}"),
        other => panic!("unexpected {:?}", other),
    }
}
