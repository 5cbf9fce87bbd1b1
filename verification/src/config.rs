//! Configuration handling for ADR repositories.

use crate::error::Error;
use crate::paths::{join, join_spec};
use crate::text::owned;
use bstr::BStr;
use gix_config::file::Metadata;
use gix_config::Source;
use vstd::prelude::*;

verus! {

/// Default ADR directory name.
pub const DEFAULT_ADR_DIR: &'static str = "doc/adr";

/// Legacy configuration file name (adr-tools compatible).
pub const LEGACY_CONFIG_FILE: &'static str = ".adr-dir";

/// New configuration file name.
pub const CONFIG_FILE: &'static str = "adrs.toml";

/// Global configuration file name.
pub const GLOBAL_CONFIG_FILE: &'static str = "config.toml";

/// Environment variable for ADR directory override (deprecated name).
pub const ENV_ADR_DIRECTORY: &'static str = "ADR_DIRECTORY";

/// Environment variable for config file path override.
pub const ENV_ADRS_CONFIG: &'static str = "ADRS_CONFIG";

/// The mode of operation for the ADR tool.
#[derive(Debug, Clone, Copy, PartialEq, Eq, Structural)]
pub enum ConfigMode {
    /// Compatible with adr-tools (markdown-only, no frontmatter).
    Compatible,
    /// Next-gen mode with YAML frontmatter and enhanced features.
    NextGen,
}

impl Default for ConfigMode {
    fn default() -> (r: Self)
        ensures
            r == ConfigMode::Compatible,
    {
        ConfigMode::Compatible
    }
}

/// The mathematical view of the template configuration.
pub struct TemplateConfigV {
    pub format: Option<Seq<char>>,
    pub variant: Option<Seq<char>>,
    pub custom: Option<Seq<char>>,
}

/// Template configuration for ADR creation.
#[derive(Debug)]
pub struct TemplateConfig {
    /// The default template format to use (e.g., "nygard", "madr").
    pub format: Option<String>,
    /// The default template variant to use (e.g., "full", "minimal", "bare").
    pub variant: Option<String>,
    /// Path to a custom template file.
    pub custom: Option<String>,
}

impl View for TemplateConfig {
    type V = TemplateConfigV;

    open spec fn view(&self) -> TemplateConfigV {
        TemplateConfigV {
            format: crate::types::opt_str_view(self.format),
            variant: crate::types::opt_str_view(self.variant),
            custom: crate::types::opt_str_view(self.custom),
        }
    }
}

impl Default for TemplateConfig {
    fn default() -> (r: Self)
        ensures
            r@ == (TemplateConfigV { format: None, variant: None, custom: None }),
    {
        TemplateConfig { format: None, variant: None, custom: None }
    }
}

impl Clone for TemplateConfig {
    fn clone(&self) -> (r: Self)
        ensures
            r@ == self@,
    {
        TemplateConfig {
            format: crate::types::clone_opt_string(&self.format),
            variant: crate::types::clone_opt_string(&self.variant),
            custom: crate::types::clone_opt_string(&self.custom),
        }
    }
}

/// The mathematical view of a configuration.
pub struct ConfigV {
    pub adr_dir: Seq<char>,
    pub mode: ConfigMode,
    pub templates: TemplateConfigV,
}

/// Configuration for an ADR repository.
#[derive(Debug)]
pub struct Config {
    /// The directory where ADRs are stored.
    pub adr_dir: String,
    /// The mode of operation.
    pub mode: ConfigMode,
    /// Template configuration.
    pub templates: TemplateConfig,
}

impl View for Config {
    type V = ConfigV;

    open spec fn view(&self) -> ConfigV {
        ConfigV { adr_dir: self.adr_dir@, mode: self.mode, templates: self.templates@ }
    }
}

impl Clone for Config {
    fn clone(&self) -> (r: Self)
        ensures
            r@ == self@,
    {
        Config { adr_dir: self.adr_dir.clone(), mode: self.mode, templates: self.templates.clone() }
    }
}

/// The default configuration: `doc/adr`, compatible mode, no template settings.
pub open spec fn default_config() -> ConfigV {
    ConfigV {
        adr_dir: DEFAULT_ADR_DIR@,
        mode: ConfigMode::Compatible,
        templates: TemplateConfigV { format: None, variant: None, custom: None },
    }
}

impl Default for Config {
    fn default() -> (r: Self)
        ensures
            r@ == default_config(),
    {
        Config {
            adr_dir: owned(DEFAULT_ADR_DIR),
            mode: ConfigMode::Compatible,
            templates: TemplateConfig::default(),
        }
    }
}

impl Config {
    /// Get the full path to the ADR directory: `adr_dir` joined onto `root`.
    pub fn adr_path(&self, root: &str) -> (r: String)
        ensures
            r@ == join_spec(root@, self.adr_dir@),
    {
        join(root, self.adr_dir.as_str())
    }

    /// Returns true if running in next-gen mode.
    pub fn is_next_gen(&self) -> (r: bool)
        ensures
            r == (self.mode == ConfigMode::NextGen),
    {
        match self.mode {
            ConfigMode::NextGen => true,
            ConfigMode::Compatible => false,
        }
    }
}


// ---------------------------------------------------------------------------
// Merging
// ---------------------------------------------------------------------------
/// `base` merged with `other`: `other`'s mode, its directory when it is not
/// the default one, and each of its template settings that is set.
pub open spec fn merged(base: ConfigV, other: ConfigV) -> ConfigV {
    ConfigV {
        adr_dir: if other.adr_dir != DEFAULT_ADR_DIR@ {
            other.adr_dir
        } else {
            base.adr_dir
        },
        mode: other.mode,
        templates: TemplateConfigV {
            format: if other.templates.format is Some {
                other.templates.format
            } else {
                base.templates.format
            },
            variant: if other.templates.variant is Some {
                other.templates.variant
            } else {
                base.templates.variant
            },
            custom: if other.templates.custom is Some {
                other.templates.custom
            } else {
                base.templates.custom
            },
        },
    }
}

/// Merging gives the merged-in configuration precedence: its mode always
/// wins, its directory wins unless it is the default one, and each template
/// setting it has replaces the base's; settings it lacks come from the base.
pub proof fn law_merge_other_takes_precedence(base: ConfigV, other: ConfigV)
    ensures
        merged(base, other).mode == other.mode,
        other.adr_dir != DEFAULT_ADR_DIR@ ==> merged(base, other).adr_dir == other.adr_dir,
        other.adr_dir == DEFAULT_ADR_DIR@ ==> merged(base, other).adr_dir == base.adr_dir,
        other.templates.format is Some ==> merged(base, other).templates.format == other.templates.format,
        other.templates.format is None ==> merged(base, other).templates.format == base.templates.format,
        other.templates.variant is Some ==> merged(base, other).templates.variant == other.templates.variant,
        other.templates.variant is None ==> merged(base, other).templates.variant == base.templates.variant,
        other.templates.custom is Some ==> merged(base, other).templates.custom == other.templates.custom,
        other.templates.custom is None ==> merged(base, other).templates.custom == base.templates.custom,
{
}

impl Config {
    /// Merge another config into this one.
    ///
    /// Values from `other` take precedence, except:
    /// - `adr_dir` is only overwritten if `other` differs from the default
    /// - `None` values in templates do not overwrite existing values
    pub fn merge(&mut self, other: &Config)
        ensures
            final(self)@ == merged(old(self)@, other@),
    {
        let oc = crate::text::chars_of(other.adr_dir.as_str());
        if !crate::text::eq_str(oc.as_slice(), DEFAULT_ADR_DIR) {
            self.adr_dir = other.adr_dir.clone();
        }
        self.mode = other.mode;
        if other.templates.format.is_some() {
            self.templates.format = crate::types::clone_opt_string(&other.templates.format);
        }
        if other.templates.variant.is_some() {
            self.templates.variant = crate::types::clone_opt_string(&other.templates.variant);
        }
        if other.templates.custom.is_some() {
            self.templates.custom = crate::types::clone_opt_string(&other.templates.custom);
        }
    }
}

/// Merging the same configuration twice changes nothing more than merging
/// it once.
pub proof fn law_merge_idempotent(base: ConfigV, other: ConfigV)
    ensures
        merged(merged(base, other), other) == merged(base, other),
{
}

/// Merging a configuration into the default one gives that configuration
/// back, except that a default directory leaves the default directory.
pub proof fn law_merge_into_default(other: ConfigV)
    ensures
        merged(default_config(), other) == other,
{
}

// ---------------------------------------------------------------------------
// Validation
// ---------------------------------------------------------------------------
/// Validate a loaded config: the ADR directory may not be empty.
pub fn validate_config(config: &Config) -> (r: Result<(), Error>)
    ensures
        config.adr_dir@.len() == 0 <==> r is Err,
        r matches Err(Error::ConfigError(m)) ==> m@ == "adr_dir cannot be empty"@,
        r is Err ==> r matches Err(Error::ConfigError(_)),
{
    if config.adr_dir.as_str().is_empty() {
        Err(Error::ConfigError(owned("adr_dir cannot be empty")))
    } else {
        Ok(())
    }
}

// ---------------------------------------------------------------------------
// Layers
// ---------------------------------------------------------------------------
/// The view of a configuration layer.
pub struct ConfigLayerV {
    pub adr_dir: Option<Seq<char>>,
    pub mode: Option<Seq<char>>,
    pub format: Option<Seq<char>>,
    pub variant: Option<Seq<char>>,
    pub custom: Option<Seq<char>>,
}

/// The settings one configuration source gives; each one it does not give
/// is left to the sources below it.
#[derive(Debug)]
pub struct ConfigLayer {
    /// The ADR directory.
    pub adr_dir: Option<String>,
    /// The mode, as written (`compatible`, `ng` or `nextgen`).
    pub mode: Option<String>,
    /// The template format.
    pub format: Option<String>,
    /// The template variant.
    pub variant: Option<String>,
    /// The custom template path.
    pub custom: Option<String>,
}

impl View for ConfigLayer {
    type V = ConfigLayerV;

    open spec fn view(&self) -> ConfigLayerV {
        ConfigLayerV {
            adr_dir: crate::types::opt_str_view(self.adr_dir),
            mode: crate::types::opt_str_view(self.mode),
            format: crate::types::opt_str_view(self.format),
            variant: crate::types::opt_str_view(self.variant),
            custom: crate::types::opt_str_view(self.custom),
        }
    }
}

pub open spec fn empty_layer() -> ConfigLayerV {
    ConfigLayerV { adr_dir: None, mode: None, format: None, variant: None, custom: None }
}

impl ConfigLayer {
    /// A layer that gives nothing.
    pub fn empty() -> (r: ConfigLayer)
        ensures
            r@ == empty_layer(),
    {
        ConfigLayer { adr_dir: None, mode: None, format: None, variant: None, custom: None }
    }
}

/// The mode a configuration value names (`compatible`, or `ng` and its
/// alias `nextgen`).
pub open spec fn mode_named(s: Seq<char>) -> Option<ConfigMode> {
    if s == "compatible"@ {
        Some(ConfigMode::Compatible)
    } else if s == "ng"@ || s == "nextgen"@ {
        Some(ConfigMode::NextGen)
    } else {
        None
    }
}

pub open spec fn override_opt(low: Option<Seq<char>>, high: Option<Seq<char>>) -> Option<Seq<char>> {
    match high {
        Some(v) => Some(v),
        None => low,
    }
}

/// The layers merged key by key, later layers taking precedence.
pub open spec fn merged_layers(ls: Seq<ConfigLayerV>) -> ConfigLayerV
    decreases ls.len(),
{
    if ls.len() == 0 {
        empty_layer()
    } else {
        let low = merged_layers(ls.drop_last());
        let high = ls.last();
        ConfigLayerV {
            adr_dir: override_opt(low.adr_dir, high.adr_dir),
            mode: override_opt(low.mode, high.mode),
            format: override_opt(low.format, high.format),
            variant: override_opt(low.variant, high.variant),
            custom: override_opt(low.custom, high.custom),
        }
    }
}

/// The configuration the layers give on top of the defaults, or `None` when
/// the mode they name is unknown.
pub open spec fn resolved(ls: Seq<ConfigLayerV>) -> Option<ConfigV> {
    let m = merged_layers(ls);
    let mode = match m.mode {
        Some(t) => mode_named(t),
        None => Some(ConfigMode::Compatible),
    };
    match mode {
        None => None,
        Some(md) => Some(
            ConfigV {
                adr_dir: match m.adr_dir {
                    Some(d) => d,
                    None => DEFAULT_ADR_DIR@,
                },
                mode: md,
                templates: TemplateConfigV { format: m.format, variant: m.variant, custom: m.custom },
            },
        ),
    }
}

fn override_string(low: &mut Option<String>, high: &Option<String>)
    ensures
        crate::types::opt_str_view(*final(low)) == override_opt(
            crate::types::opt_str_view(*old(low)),
            crate::types::opt_str_view(*high),
        ),
{
    match high {
        Some(v) => {
            *low = Some(v.clone());
        },
        None => {},
    }
}

/// Merges the layers (lowest first) key by key.
pub fn merge_layers(layers: &Vec<ConfigLayer>) -> (r: ConfigLayer)
    ensures
        r@ == merged_layers(layers@.map_values(|l: ConfigLayer| l@)),
{
    let ghost lv = layers@.map_values(|l: ConfigLayer| l@);
    let mut acc = ConfigLayer::empty();
    let mut i: usize = 0;
    proof {
        assert(lv.take(0) =~= Seq::<ConfigLayerV>::empty());
    }
    while i < layers.len()
        invariant
            i <= layers@.len(),
            lv == layers@.map_values(|l: ConfigLayer| l@),
            acc@ == merged_layers(lv.take(i as int)),
        decreases layers@.len() - i,
    {
        proof {
            assert(lv.take(i + 1).drop_last() =~= lv.take(i as int));
            assert(lv.take(i + 1).last() == layers@[i as int]@);
        }
        let l = &layers[i];
        override_string(&mut acc.adr_dir, &l.adr_dir);
        override_string(&mut acc.mode, &l.mode);
        override_string(&mut acc.format, &l.format);
        override_string(&mut acc.variant, &l.variant);
        override_string(&mut acc.custom, &l.custom);
        i += 1;
    }
    proof {
        assert(lv.take(layers@.len() as int) =~= lv);
    }
    acc
}

pub open spec fn unknown_mode_message(m: Seq<char>) -> Seq<char> {
    "unknown mode `"@ + m + "`, expected `compatible` or `ng`"@
}

/// The configuration the layers (lowest first) give on top of the
/// defaults: each key from the highest layer that sets it.
pub fn resolve_layers(layers: &Vec<ConfigLayer>) -> (r: Result<Config, Error>)
    ensures
        match resolved(layers@.map_values(|l: ConfigLayer| l@)) {
            Some(c) => r matches Ok(x) && x@ == c,
            None => r matches Err(Error::ConfigError(m)) && m@ == unknown_mode_message(
                merged_layers(layers@.map_values(|l: ConfigLayer| l@)).mode->0,
            ),
        },
{
    let m = merge_layers(layers);
    let mode = match &m.mode {
        None => ConfigMode::Compatible,
        Some(t) => {
            let c = crate::text::chars_of(t.as_str());
            if crate::text::eq_str(c.as_slice(), "compatible") {
                ConfigMode::Compatible
            } else if crate::text::eq_str(c.as_slice(), "ng") || crate::text::eq_str(c.as_slice(), "nextgen") {
                ConfigMode::NextGen
            } else {
                let mut msg: Vec<char> = Vec::new();
                crate::text::push_str_chars(&mut msg, "unknown mode `");
                crate::text::push_str_chars(&mut msg, t.as_str());
                crate::text::push_str_chars(&mut msg, "`, expected `compatible` or `ng`");
                return Err(Error::ConfigError(crate::text::string_from(msg.as_slice())));
            }
        },
    };
    let ConfigLayer { adr_dir, mode: _, format, variant, custom } = m;
    let adr_dir = match adr_dir {
        Some(d) => d,
        None => owned(DEFAULT_ADR_DIR),
    };
    Ok(Config { adr_dir, mode, templates: TemplateConfig { format, variant, custom } })
}

/// The layer a `.adr-dir` file gives: its trimmed contents as the directory
/// (and compatible mode), or nothing when the file is missing or blank.
pub open spec fn adr_dir_file_layer(contents: Option<Seq<char>>) -> ConfigLayerV {
    match contents {
        None => empty_layer(),
        Some(c) => if crate::text::trim_spec(c).len() == 0 {
            empty_layer()
        } else {
            ConfigLayerV { adr_dir: Some(crate::text::trim_spec(c)), mode: Some("compatible"@), ..empty_layer() }
        },
    }
}

/// The layer a value gives when it is not blank.
pub open spec fn non_blank(v: Option<Seq<char>>) -> Option<Seq<char>> {
    match v {
        Some(t) => if crate::text::trim_spec(t).len() == 0 {
            None
        } else {
            Some(t)
        },
        None => None,
    }
}

/// The layer the `ADRS_*` variables give: `ADRS_DIR` (or, when it is not
/// set, the deprecated `ADR_DIRECTORY`), `ADRS_MODE`,
/// `ADRS_TEMPLATE_FORMAT` and `ADRS_TEMPLATE_VARIANT`, each when not blank.
pub open spec fn env_layer(
    adrs_dir: Option<Seq<char>>,
    adr_directory: Option<Seq<char>>,
    mode: Option<Seq<char>>,
    format: Option<Seq<char>>,
    variant: Option<Seq<char>>,
) -> ConfigLayerV {
    ConfigLayerV {
        adr_dir: if adrs_dir is Some {
            non_blank(adrs_dir)
        } else {
            non_blank(adr_directory)
        },
        mode: non_blank(mode),
        format: non_blank(format),
        variant: non_blank(variant),
        custom: None,
    }
}

fn non_blank_string(v: &Option<String>) -> (r: Option<String>)
    ensures
        crate::types::opt_str_view(r) == non_blank(crate::types::opt_str_view(*v)),
{
    match v {
        Some(t) => {
            let c = crate::text::chars_of(t.as_str());
            let tr = crate::text::trim(c.as_slice());
            if tr.len() == 0 {
                None
            } else {
                Some(t.clone())
            }
        },
        None => None,
    }
}

/// The path of a `.adr-dir` file, read as a configuration layer.
#[derive(Debug)]
pub struct AdrDirFile {
    path: String,
}

impl AdrDirFile {
    /// Create a new provider for the given `.adr-dir` file path.
    pub fn new(path: &str) -> (r: Self)
        ensures
            r.path_spec() == path@,
    {
        AdrDirFile { path: owned(path) }
    }

    pub closed spec fn path_spec(&self) -> Seq<char> {
        self.path@
    }

    /// The file's path.
    pub fn path(&self) -> (r: &str)
        ensures
            r@ == self.path_spec(),
    {
        self.path.as_str()
    }

    /// The layer the file gives, given its contents (`None` when it does
    /// not exist).
    pub fn data(&self, contents: Option<&str>) -> (r: ConfigLayer)
        ensures
            r@ == adr_dir_file_layer(match contents {
                Some(c) => Some(c@),
                None => None,
            }),
    {
        match contents {
            None => ConfigLayer::empty(),
            Some(c) => {
                let cc = crate::text::chars_of(c);
                let t = crate::text::trim(cc.as_slice());
                if t.len() == 0 {
                    ConfigLayer::empty()
                } else {
                    ConfigLayer {
                        adr_dir: Some(crate::text::string_from(t.as_slice())),
                        mode: Some(owned("compatible")),
                        format: None,
                        variant: None,
                        custom: None,
                    }
                }
            },
        }
    }
}

/// The `ADRS_*` environment variables as a configuration layer.
#[derive(Debug, Clone, Copy)]
pub struct AdrsEnv;

impl AdrsEnv {
    /// The layer the variables give, given their values (`None` when unset):
    /// `ADRS_DIR`, `ADR_DIRECTORY`, `ADRS_MODE`, `ADRS_TEMPLATE_FORMAT`,
    /// `ADRS_TEMPLATE_VARIANT`.
    pub fn data(
        &self,
        adrs_dir: &Option<String>,
        adr_directory: &Option<String>,
        mode: &Option<String>,
        format: &Option<String>,
        variant: &Option<String>,
    ) -> (r: ConfigLayer)
        ensures
            r@ == env_layer(
                crate::types::opt_str_view(*adrs_dir),
                crate::types::opt_str_view(*adr_directory),
                crate::types::opt_str_view(*mode),
                crate::types::opt_str_view(*format),
                crate::types::opt_str_view(*variant),
            ),
    {
        let dir = if adrs_dir.is_some() {
            non_blank_string(adrs_dir)
        } else {
            non_blank_string(adr_directory)
        };
        ConfigLayer {
            adr_dir: dir,
            mode: non_blank_string(mode),
            format: non_blank_string(format),
            variant: non_blank_string(variant),
            custom: None,
        }
    }
}

/// The `ADRS_CONFIG` variable: an explicit configuration file.
#[derive(Debug, Clone, Copy)]
pub struct AdrsConfigEnv;

impl AdrsConfigEnv {
    /// The file the variable names, if it is set and not blank.
    pub fn path(&self, value: &Option<String>) -> (r: Option<String>)
        ensures
            crate::types::opt_str_view(r) == non_blank(crate::types::opt_str_view(*value)),
    {
        non_blank_string(value)
    }
}


// ---------------------------------------------------------------------------
// Git configuration
// ---------------------------------------------------------------------------
/// The scope of a gitconfig file.
#[derive(Debug, Clone, Copy, PartialEq, Eq, Structural)]
pub enum GitConfigScope {
    /// Repository-local `.git/config`.
    Local,
    /// User-global `~/.gitconfig`.
    Global,
    /// System-wide `/etc/gitconfig`.
    System,
}

impl GitConfigScope {
    /// The scope's name (`local`, `global` or `system`).
    pub fn to_string(&self) -> (r: String)
        ensures
            r@ == match *self {
                GitConfigScope::Local => "local"@,
                GitConfigScope::Global => "global"@,
                GitConfigScope::System => "system"@,
            },
    {
        match self {
            GitConfigScope::Local => owned("local"),
            GitConfigScope::Global => owned("global"),
            GitConfigScope::System => owned("system"),
        }
    }
}

/// The configuration field a gitconfig key of the `[adrs]` section sets,
/// matched case-insensitively; `None` for an unknown key.
pub open spec fn gitconfig_field(key: Seq<char>) -> Option<Seq<char>> {
    let k = crate::text::lowercase(key);
    if k == "directory"@ {
        Some("adr_dir"@)
    } else if k == "mode"@ {
        Some("mode"@)
    } else if k == "template-format"@ {
        Some("templates.format"@)
    } else if k == "template-variant"@ {
        Some("templates.variant"@)
    } else if k == "template-custom"@ {
        Some("templates.custom"@)
    } else {
        None
    }
}

/// Map a gitconfig key to its corresponding Config field path.
pub fn map_gitconfig_key(key: &str) -> (r: Option<String>)
    ensures
        crate::types::opt_str_view(r) == gitconfig_field(key@),
{
    let l = crate::text::to_lowercase(key);
    let c = crate::text::chars_of(l.as_str());
    let cs = c.as_slice();
    if crate::text::eq_str(cs, "directory") {
        Some(owned("adr_dir"))
    } else if crate::text::eq_str(cs, "mode") {
        Some(owned("mode"))
    } else if crate::text::eq_str(cs, "template-format") {
        Some(owned("templates.format"))
    } else if crate::text::eq_str(cs, "template-variant") {
        Some(owned("templates.variant"))
    } else if crate::text::eq_str(cs, "template-custom") {
        Some(owned("templates.custom"))
    } else {
        None
    }
}

/// The layer one entry of the `[adrs]` section adds to `l`: a known key
/// with a non-blank (trimmed) value sets its field.
pub open spec fn with_git_entry(l: ConfigLayerV, key: Seq<char>, value: Seq<char>) -> ConfigLayerV {
    let v = crate::text::trim_spec(value);
    if v.len() == 0 {
        l
    } else {
        match gitconfig_field(key) {
            Some(f) => if f == "adr_dir"@ {
                ConfigLayerV { adr_dir: Some(v), ..l }
            } else if f == "mode"@ {
                ConfigLayerV { mode: Some(v), ..l }
            } else if f == "templates.format"@ {
                ConfigLayerV { format: Some(v), ..l }
            } else if f == "templates.variant"@ {
                ConfigLayerV { variant: Some(v), ..l }
            } else {
                ConfigLayerV { custom: Some(v), ..l }
            },
            None => l,
        }
    }
}

/// The layer the entries of an `[adrs]` section give, in order.
pub open spec fn git_entries_layer(es: Seq<(Seq<char>, Seq<char>)>) -> ConfigLayerV
    decreases es.len(),
{
    if es.len() == 0 {
        empty_layer()
    } else {
        with_git_entry(git_entries_layer(es.drop_last()), es.last().0, es.last().1)
    }
}

/// A gitconfig file read as a configuration layer.
#[derive(Debug)]
pub struct GitConfig {
    scope: GitConfigScope,
    path: String,
}

/// The entries of the `[adrs]` section of a gitconfig text, in order, as
/// gix-config reads them; none when the text does not parse as gitconfig or
/// has no such section.
pub uninterp spec fn gitconfig_adrs_section(text: Seq<u8>) -> Option<Seq<(Seq<char>, Seq<char>)>>;

/// Parses a gitconfig text with `gix_config::File::from_bytes_no_includes`
/// and gives the entries of its `[adrs]` section (`File::section`, then the
/// section's body), values as text. What they are is named, not stated.
#[verifier::external_body]
fn gitconfig_adrs_entries(text: &[u8]) -> (r: Option<Vec<(String, String)>>)
    ensures
        r matches Some(v) ==> gitconfig_adrs_section(text@) == Some(
            v@.map_values(|e: (String, String)| (e.0@, e.1@)),
        ),
        r is None <==> gitconfig_adrs_section(text@) is None,
{
    let meta = Metadata::from(Source::Local);
    let file = gix_config::File::from_bytes_no_includes(text, meta, Default::default()).ok()?;
    let section = file.section("adrs", None::<&BStr>).ok()?;
    Some(section.body().into_iter().map(|(key, value)| (key, value.to_string())).collect())
}

/// The step of writing a gitconfig that failed.
#[derive(Debug, Clone, Copy, PartialEq, Eq, Structural)]
pub enum GitconfigStep {
    /// Parsing the previous text.
    Parse,
    /// Finding or creating the `[adrs]` section.
    Section,
    /// Setting an entry.
    SetEntry,
}

/// The text a gitconfig file gets when the `[adrs]` entries are set in it,
/// as gix-config writes it, from its previous text (none when the file does
/// not exist yet); or the step that failed and gix-config's error text.
pub uninterp spec fn gitconfig_written(
    old: Option<Seq<u8>>,
    entries: Seq<(Seq<char>, Seq<char>)>,
) -> Result<Seq<u8>, (GitconfigStep, Seq<char>)>;

/// Parses the previous text with `gix_config::File::from_bytes_no_includes`
/// (or starts from `File::new`), sets each entry in the `[adrs]` section
/// (`section_mut_or_create_new`, `SectionMut::set`) and serializes the file
/// (`File::to_bstring`, which writes into memory and cannot fail); an error
/// is tagged with the call that gave it. The
/// outcome is named, not stated.
#[verifier::external_body]
fn gitconfig_with_entries(old: Option<&[u8]>, entries: &Vec<(String, String)>) -> (r: Result<
    Vec<u8>,
    (GitconfigStep, String),
>)
    ensures
        ({
            let w = gitconfig_written(
                match old {
                    Some(t) => Some(t@),
                    None => None,
                },
                entries@.map_values(|e: (String, String)| (e.0@, e.1@)),
            );
            match r {
                Ok(b) => w == Ok::<Seq<u8>, (GitconfigStep, Seq<char>)>(b@),
                Err((k, e)) => w == Err::<Seq<u8>, (GitconfigStep, Seq<char>)>((k, e@)),
            }
        }),
{
    let meta = Metadata::from(Source::Local);
    let mut file = match old {
        Some(t) => gix_config::File::from_bytes_no_includes(t, meta, Default::default())
            .map_err(|e| (GitconfigStep::Parse, e.to_string()))?,
        None => gix_config::File::new(meta),
    };
    let mut section = file.section_mut_or_create_new("adrs", None::<&BStr>)
        .map_err(|e| (GitconfigStep::Section, e.to_string()))?;
    for (key, value) in entries {
        section.set(key.as_str(), BStr::new(value.as_bytes())).map_err(|e| (GitconfigStep::SetEntry, e.to_string()))?;
    }
    Ok(file.to_bstring().into())
}

/// The message of a failed gitconfig write: what failed, then gix-config's
/// error text (a failed `set` gives the error text alone).
pub open spec fn gitconfig_failure(k: GitconfigStep, m: Seq<char>) -> Seq<char> {
    match k {
        GitconfigStep::Parse => "Failed to parse gitconfig: "@ + m,
        GitconfigStep::Section => "Failed to create [adrs] section: "@ + m,
        GitconfigStep::SetEntry => m,
    }
}

impl Default for GitConfig {
    fn default() -> (r: Self)
        ensures
            r.scope_spec() == GitConfigScope::Local,
            r.path_spec() == Seq::<char>::empty(),
    {
        GitConfig { scope: GitConfigScope::Local, path: String::new() }
    }
}

impl GitConfig {
    pub closed spec fn scope_spec(&self) -> GitConfigScope {
        self.scope
    }

    pub closed spec fn path_spec(&self) -> Seq<char> {
        self.path@
    }

    /// A provider for the gitconfig file at `path` of the given scope.
    pub fn new(scope: GitConfigScope, path: &str) -> (r: Self)
        ensures
            r.scope_spec() == scope,
            r.path_spec() == path@,
    {
        GitConfig { scope, path: owned(path) }
    }

    /// A provider for the local `.git/config` of `root`, when that file
    /// exists (`config_exists`).
    pub fn local(root: &str, config_exists: bool) -> (r: Option<Self>)
        ensures
            config_exists <==> r is Some,
            r matches Some(g) ==> g.scope_spec() == GitConfigScope::Local && g.path_spec()
                == join_spec(root@, ".git/config"@),
    {
        if config_exists {
            Some(GitConfig { scope: GitConfigScope::Local, path: join(root, ".git/config") })
        } else {
            None
        }
    }

    /// A provider for the global gitconfig at `path` (from
    /// `GIT_CONFIG_GLOBAL`, else `~/.gitconfig`), when that file exists and
    /// a path was found.
    pub fn global(path: Option<&str>, exists: bool) -> (r: Option<Self>)
        ensures
            r is Some <==> (path is Some && exists),
            r matches Some(g) ==> g.scope_spec() == GitConfigScope::Global && g.path_spec() == path->Some_0@,
    {
        match path {
            Some(p) => if exists {
                Some(GitConfig { scope: GitConfigScope::Global, path: owned(p) })
            } else {
                None
            },
            None => None,
        }
    }

    /// A provider for the system gitconfig at `path` (from
    /// `GIT_CONFIG_SYSTEM`, else `/etc/gitconfig`), when that file exists.
    pub fn system(path: &str, exists: bool) -> (r: Option<Self>)
        ensures
            r is Some <==> exists,
            r matches Some(g) ==> g.scope_spec() == GitConfigScope::System && g.path_spec() == path@,
    {
        if exists {
            Some(GitConfig { scope: GitConfigScope::System, path: owned(path) })
        } else {
            None
        }
    }

    /// The file's path.
    pub fn path(&self) -> (r: &str)
        ensures
            r@ == self.path_spec(),
    {
        self.path.as_str()
    }

    /// The file's scope.
    pub fn scope(&self) -> (r: GitConfigScope)
        ensures
            r == self.scope_spec(),
    {
        self.scope
    }

    /// The layer the file gives, given its text (none when it could not be
    /// read): the entries of its `[adrs]` section, as `data` reads them;
    /// nothing when the text does not parse or has no such section.
    pub fn data_from_text(&self, text: Option<&[u8]>) -> (r: ConfigLayer)
        ensures
            r@ == (match text {
                Some(t) => if self.path_spec().len() == 0 {
                    empty_layer()
                } else {
                    match gitconfig_adrs_section(t@) {
                        Some(es) => git_entries_layer(es),
                        None => empty_layer(),
                    }
                },
                None => empty_layer(),
            }),
    {
        match text {
            Some(t) => match gitconfig_adrs_entries(t) {
                Some(es) => self.data(&es),
                None => ConfigLayer::empty(),
            },
            None => ConfigLayer::empty(),
        }
    }

    /// The layer the file gives, given the entries of its `[adrs]` section
    /// in order (none when the file has no such section or could not be
    /// read): each known key, matched case-insensitively, with a non-blank
    /// trimmed value sets its field; a later entry wins.
    pub fn data(&self, entries: &Vec<(String, String)>) -> (r: ConfigLayer)
        ensures
            r@ == (if self.path_spec().len() == 0 {
                empty_layer()
            } else {
                git_entries_layer(entries@.map_values(|e: (String, String)| (e.0@, e.1@)))
            }),
    {
        if self.path.as_str().is_empty() {
            return ConfigLayer::empty();
        }
        let ghost ev = entries@.map_values(|e: (String, String)| (e.0@, e.1@));
        let mut l = ConfigLayer::empty();
        let mut i: usize = 0;
        proof {
            assert(ev.take(0) =~= Seq::<(Seq<char>, Seq<char>)>::empty());
        }
        while i < entries.len()
            invariant
                i <= entries@.len(),
                ev == entries@.map_values(|e: (String, String)| (e.0@, e.1@)),
                l@ == git_entries_layer(ev.take(i as int)),
            decreases entries@.len() - i,
        {
            proof {
                assert(ev.take(i + 1).drop_last() =~= ev.take(i as int));
                assert(ev.take(i + 1).last() == (entries@[i as int].0@, entries@[i as int].1@));
            }
            let (key, value) = &entries[i];
            let vc = crate::text::chars_of(value.as_str());
            let v = crate::text::trim(vc.as_slice());
            if v.len() > 0 {
                match map_gitconfig_key(key.as_str()) {
                    Some(f) => {
                        let fc = crate::text::chars_of(f.as_str());
                        let vs = crate::text::string_from(v.as_slice());
                        if crate::text::eq_str(fc.as_slice(), "adr_dir") {
                            l.adr_dir = Some(vs);
                        } else if crate::text::eq_str(fc.as_slice(), "mode") {
                            l.mode = Some(vs);
                        } else if crate::text::eq_str(fc.as_slice(), "templates.format") {
                            l.format = Some(vs);
                        } else if crate::text::eq_str(fc.as_slice(), "templates.variant") {
                            l.variant = Some(vs);
                        } else {
                            l.custom = Some(vs);
                        }
                    },
                    None => {},
                }
            }
            i += 1;
        }
        proof {
            assert(ev.take(entries@.len() as int) =~= ev);
        }
        l
    }
}

// ---------------------------------------------------------------------------
// Loading, saving, discovering
// ---------------------------------------------------------------------------
/// The configuration the layers give when a project marker exists and it
/// names a directory, else the default configuration.
pub open spec fn config_or_default(ls: Seq<ConfigLayerV>, has_toml: bool, has_adr_dir: bool, has_default_dir: bool) -> ConfigV {
    match resolved(ls) {
        Some(c) => if c.adr_dir.len() > 0 && (has_toml || has_adr_dir || has_default_dir) {
            c
        } else {
            default_config()
        },
        None => default_config(),
    }
}

impl Config {
    /// Load configuration from the layers found for a project root (lowest
    /// first: defaults are below them all). Fails when a mode is unknown,
    /// when the directory is empty, or when the root has none of `adrs.toml`,
    /// `.adr-dir` and the default ADR directory.
    pub fn load(layers: &Vec<ConfigLayer>, has_toml: bool, has_adr_dir: bool, has_default_dir: bool) -> (r: Result<Config, Error>)
        ensures
            match resolved(layers@.map_values(|l: ConfigLayer| l@)) {
                None => r matches Err(Error::ConfigError(_)),
                Some(c) => if c.adr_dir.len() == 0 {
                    r matches Err(Error::ConfigError(m)) && m@ == "adr_dir cannot be empty"@
                } else if !has_toml && !has_adr_dir && !has_default_dir {
                    r matches Err(Error::AdrDirNotFound)
                } else {
                    r matches Ok(x) && x@ == c
                },
            },
    {
        let config = match resolve_layers(layers) {
            Ok(c) => c,
            Err(e) => return Err(e),
        };
        match validate_config(&config) {
            Ok(()) => {},
            Err(e) => return Err(e),
        }
        if !has_toml && !has_adr_dir && !has_default_dir {
            return Err(Error::AdrDirNotFound);
        }
        Ok(config)
    }

    /// Load configuration, or the default one when loading fails.
    pub fn load_or_default(layers: &Vec<ConfigLayer>, has_toml: bool, has_adr_dir: bool, has_default_dir: bool) -> (r: Config)
        ensures
            r@ == config_or_default(layers@.map_values(|l: ConfigLayer| l@), has_toml, has_adr_dir, has_default_dir),
    {
        match Self::load(layers, has_toml, has_adr_dir, has_default_dir) {
            Ok(c) => c,
            Err(_) => Config::default(),
        }
    }

    /// Where `save` writes: `.adr-dir` in compatible mode, `adrs.toml` in
    /// next-gen mode.
    pub fn save_target(&self) -> (r: ConfigWriteTarget)
        ensures
            r == (match self.mode {
                ConfigMode::Compatible => ConfigWriteTarget::LegacyAdrDir,
                ConfigMode::NextGen => ConfigWriteTarget::Toml,
            }),
    {
        match self.mode {
            ConfigMode::Compatible => ConfigWriteTarget::LegacyAdrDir,
            ConfigMode::NextGen => ConfigWriteTarget::Toml,
        }
    }

    /// The entries saving writes into a gitconfig `[adrs]` section:
    /// `directory`, `mode`, and the template format and variant when set.
    pub fn gitconfig_entries(&self) -> (r: Vec<(String, String)>)
        ensures
            r@.map_values(|e: (String, String)| (e.0@, e.1@)) == git_entries(self@),
    {
        let mut entries: Vec<(String, String)> = Vec::new();
        entries.push((owned("directory"), self.adr_dir.clone()));
        let mode = match self.mode {
            ConfigMode::Compatible => owned("compatible"),
            ConfigMode::NextGen => owned("ng"),
        };
        entries.push((owned("mode"), mode));
        let ghost c = self@;
        let ghost base = seq![
            ("directory"@, c.adr_dir),
            ("mode"@, match c.mode {
                ConfigMode::Compatible => "compatible"@,
                ConfigMode::NextGen => "ng"@,
            }),
        ];
        proof {
            assert(entries@.map_values(|e: (String, String)| (e.0@, e.1@)) =~= base);
        }
        let ghost with_format = match c.templates.format {
            Some(f) => base.push(("template-format"@, f)),
            None => base,
        };
        match &self.templates.format {
            Some(f) => {
                let fc = f.clone();
                entries.push((owned("template-format"), fc));
            },
            None => {},
        }
        proof {
            assert(entries@.map_values(|e: (String, String)| (e.0@, e.1@)) =~= with_format);
        }
        match &self.templates.variant {
            Some(v) => {
                let vc = v.clone();
                entries.push((owned("template-variant"), vc));
            },
            None => {},
        }
        proof {
            assert(entries@.map_values(|e: (String, String)| (e.0@, e.1@)) =~= git_entries(c));
        }
        entries
    }

    /// The text a gitconfig file gets when this configuration is saved into
    /// its `[adrs]` section, given its previous text (none when the file does
    /// not exist yet): the `gitconfig_entries` are set with gix-config; an
    /// error of gix-config is a configuration error saying which step failed.
    pub fn write_gitconfig(&self, old: Option<&[u8]>) -> (r: Result<Vec<u8>, Error>)
        ensures
            match gitconfig_written(
                match old {
                    Some(t) => Some(t@),
                    None => None,
                },
                git_entries(self@),
            ) {
                Ok(b) => r matches Ok(v) && v@ == b,
                Err((k, m)) => r matches Err(Error::ConfigError(e)) && e@ == gitconfig_failure(k, m),
            },
    {
        let entries = self.gitconfig_entries();
        match gitconfig_with_entries(old, &entries) {
            Ok(b) => Ok(b),
            Err((k, m)) => {
                let mut t: Vec<char> = Vec::new();
                match k {
                    GitconfigStep::Parse => crate::text::push_str_chars(&mut t, "Failed to parse gitconfig: "),
                    GitconfigStep::Section => crate::text::push_str_chars(&mut t, "Failed to create [adrs] section: "),
                    GitconfigStep::SetEntry => {},
                }
                crate::text::push_str_chars(&mut t, m.as_str());
                Err(Error::ConfigError(crate::text::string_from(t.as_slice())))
            },
        }
    }

    /// What saving to `target` under `root` writes.
    pub fn save_to(&self, root: &str, target: ConfigWriteTarget) -> (r: ConfigWrite)
        ensures
            r@ == save_plan(self@, root@, target),
    {
        match target {
            ConfigWriteTarget::Toml => ConfigWrite::Toml { path: join(root, CONFIG_FILE) },
            ConfigWriteTarget::LegacyAdrDir => ConfigWrite::File {
                path: join(root, LEGACY_CONFIG_FILE),
                content: self.adr_dir.clone(),
            },
            ConfigWriteTarget::GitConfig(scope) => {
                let entries = self.gitconfig_entries();
                ConfigWrite::GitConfig { scope, entries }
            },
        }
    }

    /// What saving writes: `save_to` its `save_target`.
    pub fn save(&self, root: &str) -> (r: ConfigWrite)
        ensures
            r@ == save_plan(
                self@,
                root@,
                match self.mode {
                    ConfigMode::Compatible => ConfigWriteTarget::LegacyAdrDir,
                    ConfigMode::NextGen => ConfigWriteTarget::Toml,
                },
            ),
    {
        let t = self.save_target();
        self.save_to(root, t)
    }
}

/// Target destination for writing configuration.
#[derive(Debug, Clone, Copy, PartialEq, Eq, Structural)]
pub enum ConfigWriteTarget {
    /// Write to `adrs.toml` (NextGen mode default).
    Toml,
    /// Write to `.adr-dir` (Compatible mode default).
    LegacyAdrDir,
    /// Write to gitconfig `[adrs]` section.
    GitConfig(GitConfigScope),
}

/// The view of a configuration write.
pub enum ConfigWriteV {
    Toml { path: Seq<char> },
    File { path: Seq<char>, content: Seq<char> },
    GitConfig { scope: GitConfigScope, entries: Seq<(Seq<char>, Seq<char>)> },
}

/// What saving a configuration writes: the whole configuration as TOML to a
/// path, a file's text, or entries of a gitconfig `[adrs]` section.
#[derive(Debug)]
pub enum ConfigWrite {
    /// The configuration serialized as TOML, to this path.
    Toml { path: String },
    /// This text, to this path.
    File { path: String, content: String },
    /// These keys and values, set in the `[adrs]` section of the gitconfig of this scope.
    GitConfig { scope: GitConfigScope, entries: Vec<(String, String)> },
}

impl View for ConfigWrite {
    type V = ConfigWriteV;

    open spec fn view(&self) -> ConfigWriteV {
        match self {
            ConfigWrite::Toml { path } => ConfigWriteV::Toml { path: path@ },
            ConfigWrite::File { path, content } => ConfigWriteV::File { path: path@, content: content@ },
            ConfigWrite::GitConfig { scope, entries } => ConfigWriteV::GitConfig {
                scope: *scope,
                entries: entries@.map_values(|e: (String, String)| (e.0@, e.1@)),
            },
        }
    }
}

/// The gitconfig entries a configuration is saved as: the directory, the
/// mode, and the template format and variant when set.
pub open spec fn git_entries(c: ConfigV) -> Seq<(Seq<char>, Seq<char>)> {
    let base = seq![
        ("directory"@, c.adr_dir),
        ("mode"@, match c.mode {
            ConfigMode::Compatible => "compatible"@,
            ConfigMode::NextGen => "ng"@,
        }),
    ];
    let with_format = match c.templates.format {
        Some(f) => base.push(("template-format"@, f)),
        None => base,
    };
    match c.templates.variant {
        Some(v) => with_format.push(("template-variant"@, v)),
        None => with_format,
    }
}

pub open spec fn save_plan(c: ConfigV, root: Seq<char>, target: ConfigWriteTarget) -> ConfigWriteV {
    match target {
        ConfigWriteTarget::Toml => ConfigWriteV::Toml { path: join_spec(root, CONFIG_FILE@) },
        ConfigWriteTarget::LegacyAdrDir => ConfigWriteV::File {
            path: join_spec(root, LEGACY_CONFIG_FILE@),
            content: c.adr_dir,
        },
        ConfigWriteTarget::GitConfig(scope) => ConfigWriteV::GitConfig { scope, entries: git_entries(c) },
    }
}

/// A setting value that reads back unchanged: not empty, and without
/// surrounding whitespace.
pub open spec fn clean_value(v: Seq<char>) -> bool {
    v.len() > 0 && crate::text::trim_spec(v) == v
}

proof fn lemma_trimmed_word(s: Seq<char>)
    requires
        s.len() > 0,
        !crate::text::is_ws(s[0]),
        !crate::text::is_ws(s[s.len() - 1]),
    ensures
        clean_value(s),
{
    assert(crate::text::trim_start_index(s) == 0);
    assert(crate::text::trim_end_index(s) == s.len());
    assert(crate::text::trim_spec(s) =~= s);
}

proof fn lemma_ascii_word_lowercase(s: Seq<char>)
    requires
        forall|i: int| 0 <= i < s.len() ==> 'a' <= #[trigger] s[i] <= 'z' || s[i] == '-',
    ensures
        crate::text::lowercase(s) == s,
{
    assert(crate::text::is_ascii_seq(s));
    assert(crate::text::ascii_lower_seq(s) =~= s);
}

proof fn lemma_merged_single(l: ConfigLayerV)
    ensures
        merged_layers(seq![l]) == l,
{
    let s = seq![l];
    assert(s.drop_last() =~= Seq::<ConfigLayerV>::empty());
    assert(merged_layers(s.drop_last()) == empty_layer());
    assert(s.last() == l);
}

/// Saving a compatible-mode configuration to `.adr-dir` and reading the
/// file back gives the configuration again. The file holds only the
/// directory, so this holds for configurations without template settings.
pub proof fn law_adr_dir_save_then_load(c: ConfigV, root: Seq<char>)
    requires
        c.mode == ConfigMode::Compatible,
        c.templates == (TemplateConfigV { format: None, variant: None, custom: None }),
        clean_value(c.adr_dir),
    ensures
        save_plan(c, root, ConfigWriteTarget::LegacyAdrDir) matches ConfigWriteV::File { content, .. }
            && resolved(seq![adr_dir_file_layer(Some(content))]) == Some(c),
{
    reveal_strlit("compatible");
    let l = adr_dir_file_layer(Some(c.adr_dir));
    lemma_merged_single(l);
}

/// Saving a compatible-mode configuration to `.adr-dir` and reading the
/// file back gives its directory and mode again, whatever its template
/// settings (the file holds only the directory; templates fall back to
/// the defaults).
pub proof fn law_adr_dir_save_then_load_keeps_dir_and_mode(c: ConfigV, root: Seq<char>)
    requires
        c.mode == ConfigMode::Compatible,
        clean_value(c.adr_dir),
    ensures
        save_plan(c, root, ConfigWriteTarget::LegacyAdrDir) matches ConfigWriteV::File { content, .. }
            && resolved(seq![adr_dir_file_layer(Some(content))]) matches Some(l) && l.adr_dir == c.adr_dir
            && l.mode == c.mode,
{
    reveal_strlit("compatible");
    let l = adr_dir_file_layer(Some(c.adr_dir));
    lemma_merged_single(l);
}

/// Without `adrs.toml`, `.adr-dir` or the default ADR directory, the
/// configuration a root opens with is the default one, whatever the
/// layers give.
pub proof fn law_no_marker_gives_default(ls: Seq<ConfigLayerV>)
    ensures
        config_or_default(ls, false, false, false) == default_config(),
{
}

/// Saving a configuration to a gitconfig `[adrs]` section and reading the
/// section back gives the configuration again, when its values read back
/// unchanged (the section holds no custom template path).
pub proof fn law_gitconfig_save_then_load(c: ConfigV, root: Seq<char>, scope: GitConfigScope)
    requires
        clean_value(c.adr_dir),
        c.templates.format matches Some(f) ==> clean_value(f),
        c.templates.variant matches Some(v) ==> clean_value(v),
        c.templates.custom is None,
    ensures
        save_plan(c, root, ConfigWriteTarget::GitConfig(scope)) matches ConfigWriteV::GitConfig { entries, .. }
            && resolved(seq![git_entries_layer(entries)]) == Some(c),
{
    reveal_strlit("directory");
    reveal_strlit("mode");
    reveal_strlit("template-format");
    reveal_strlit("template-variant");
    reveal_strlit("compatible");
    reveal_strlit("ng");
    reveal_strlit("adr_dir");
    reveal_strlit("templates.format");
    reveal_strlit("templates.variant");
    lemma_ascii_word_lowercase("directory"@);
    lemma_ascii_word_lowercase("mode"@);
    lemma_ascii_word_lowercase("template-format"@);
    lemma_ascii_word_lowercase("template-variant"@);
    lemma_trimmed_word("compatible"@);
    lemma_trimmed_word("ng"@);
    let mode_text = match c.mode {
        ConfigMode::Compatible => "compatible"@,
        ConfigMode::NextGen => "ng"@,
    };
    let base = seq![("directory"@, c.adr_dir), ("mode"@, mode_text)];
    let l2 = ConfigLayerV { adr_dir: Some(c.adr_dir), mode: Some(mode_text), ..empty_layer() };
    let one = seq![("directory"@, c.adr_dir)];
    let l1 = ConfigLayerV { adr_dir: Some(c.adr_dir), ..empty_layer() };
    assert(git_entries_layer(one) == l1) by {
        assert(one.drop_last() =~= Seq::<(Seq<char>, Seq<char>)>::empty());
        assert(git_entries_layer(one.drop_last()) == empty_layer());
        assert(gitconfig_field("directory"@) == Some("adr_dir"@));
    }
    assert(git_entries_layer(base) == l2) by {
        assert(base.drop_last() =~= one);
        assert("mode"@ != "directory"@) by {
            assert("mode"@.len() != "directory"@.len());
        }
        assert("mode"@ != "adr_dir"@) by {
            assert("mode"@.len() != "adr_dir"@.len());
        }
    }
    let wf = match c.templates.format {
        Some(f) => base.push(("template-format"@, f)),
        None => base,
    };
    let l3 = ConfigLayerV { format: c.templates.format, ..l2 };
    assert(git_entries_layer(wf) == l3) by {
        if c.templates.format is Some {
            assert(wf.drop_last() =~= base);
            assert("template-format"@ != "directory"@) by {
                assert("template-format"@.len() != "directory"@.len());
            }
            assert("template-format"@ != "mode"@) by {
                assert("template-format"@.len() != "mode"@.len());
            }
            assert("templates.format"@ != "adr_dir"@) by {
                assert("templates.format"@.len() != "adr_dir"@.len());
            }
            assert("templates.format"@ != "mode"@) by {
                assert("templates.format"@.len() != "mode"@.len());
            }
        }
    }
    let es = git_entries(c);
    assert(git_entries_layer(es) == ConfigLayerV { variant: c.templates.variant, ..l3 }) by {
        if c.templates.variant is Some {
            assert(es.drop_last() =~= wf);
            assert("template-variant"@ != "directory"@) by {
                assert("template-variant"@.len() != "directory"@.len());
            }
            assert("template-variant"@ != "mode"@) by {
                assert("template-variant"@.len() != "mode"@.len());
            }
            assert("template-variant"@ != "template-format"@) by {
                assert("template-variant"@.len() != "template-format"@.len());
            }
            assert("templates.variant"@ != "adr_dir"@) by {
                assert("templates.variant"@.len() != "adr_dir"@.len());
            }
            assert("templates.variant"@ != "mode"@) by {
                assert("templates.variant"@.len() != "mode"@.len());
            }
            assert("templates.variant"@ != "templates.format"@) by {
                assert("templates.variant"@.len() != "templates.format"@.len());
            }
        } else {
            assert(es =~= wf);
        }
    }
    lemma_merged_single(git_entries_layer(es));
}

/// Indicates where the configuration was loaded from.
#[derive(Debug, PartialEq, Eq)]
pub enum ConfigSource {
    /// Loaded from ADRS_* environment variables.
    Environment,
    /// Loaded from ADRS_CONFIG environment variable.
    EnvironmentConfig(String),
    /// Loaded from gitconfig `[adrs]` section.
    GitConfig(GitConfigScope),
    /// Loaded from project config file `adrs.toml`.
    Project(String),
    /// Loaded from legacy `.adr-dir` file.
    LegacyProject(String),
    /// Loaded from user global config.
    Global(String),
    /// Using defaults.
    Default,
}

/// The view of a configuration source.
pub enum ConfigSourceV {
    Environment,
    EnvironmentConfig(Seq<char>),
    GitConfig(GitConfigScope),
    Project(Seq<char>),
    LegacyProject(Seq<char>),
    Global(Seq<char>),
    Default,
}

impl View for ConfigSource {
    type V = ConfigSourceV;

    open spec fn view(&self) -> ConfigSourceV {
        match self {
            ConfigSource::Environment => ConfigSourceV::Environment,
            ConfigSource::EnvironmentConfig(p) => ConfigSourceV::EnvironmentConfig(p@),
            ConfigSource::GitConfig(s) => ConfigSourceV::GitConfig(*s),
            ConfigSource::Project(p) => ConfigSourceV::Project(p@),
            ConfigSource::LegacyProject(p) => ConfigSourceV::LegacyProject(p@),
            ConfigSource::Global(p) => ConfigSourceV::Global(p@),
            ConfigSource::Default => ConfigSourceV::Default,
        }
    }
}

impl Clone for ConfigSource {
    fn clone(&self) -> (r: Self)
        ensures
            r@ == self@,
    {
        match self {
            ConfigSource::Environment => ConfigSource::Environment,
            ConfigSource::EnvironmentConfig(p) => ConfigSource::EnvironmentConfig(p.clone()),
            ConfigSource::GitConfig(s) => ConfigSource::GitConfig(*s),
            ConfigSource::Project(p) => ConfigSource::Project(p.clone()),
            ConfigSource::LegacyProject(p) => ConfigSource::LegacyProject(p.clone()),
            ConfigSource::Global(p) => ConfigSource::Global(p.clone()),
            ConfigSource::Default => ConfigSource::Default,
        }
    }
}

/// What a directory holds that the search for a project root looks at.
#[derive(Debug)]
pub struct DirMarkers {
    /// The directory.
    pub dir: String,
    /// Whether it holds `adrs.toml`.
    pub has_toml: bool,
    /// Whether it holds `.adr-dir`.
    pub has_adr_dir: bool,
    /// Whether it holds the default ADR directory.
    pub has_default_dir: bool,
    /// Whether it holds `.git`.
    pub has_git: bool,
}

/// The project root found among the directories from the start directory
/// upward (from index `i` on): the first with `adrs.toml` or `.adr-dir`
/// (the project config file as source) or the default ADR directory
/// (defaults as source); the search stops after a directory holding `.git`.
pub open spec fn project_root_from(ds: Seq<DirMarkers>, i: int) -> Option<(Seq<char>, ConfigSourceV)>
    decreases ds.len() - i,
{
    if i < 0 || i >= ds.len() {
        None
    } else {
        let d = ds[i];
        if d.has_toml {
            Some((d.dir@, ConfigSourceV::Project(join_spec(d.dir@, CONFIG_FILE@))))
        } else if d.has_adr_dir {
            Some((d.dir@, ConfigSourceV::Project(join_spec(d.dir@, LEGACY_CONFIG_FILE@))))
        } else if d.has_default_dir {
            Some((d.dir@, ConfigSourceV::Default))
        } else if d.has_git {
            None
        } else {
            project_root_from(ds, i + 1)
        }
    }
}

/// Find the project root by searching upward through `dirs` (the start
/// directory first, then each parent).
pub fn find_project_root(dirs: &Vec<DirMarkers>) -> (r: Option<(String, ConfigSource)>)
    ensures
        match r {
            Some((d, s)) => project_root_from(dirs@, 0) == Some((d@, s@)),
            None => project_root_from(dirs@, 0) is None,
        },
{
    let mut i: usize = 0;
    while i < dirs.len()
        invariant
            i <= dirs@.len(),
            project_root_from(dirs@, 0) == project_root_from(dirs@, i as int),
        decreases dirs@.len() - i,
    {
        let d = &dirs[i];
        if d.has_toml {
            return Some((d.dir.clone(), ConfigSource::Project(join(d.dir.as_str(), CONFIG_FILE))));
        }
        if d.has_adr_dir {
            return Some((d.dir.clone(), ConfigSource::Project(join(d.dir.as_str(), LEGACY_CONFIG_FILE))));
        }
        if d.has_default_dir {
            return Some((d.dir.clone(), ConfigSource::Default));
        }
        if d.has_git {
            return None;
        }
        i += 1;
    }
    None
}

/// Result of discovering configuration.
#[derive(Debug)]
pub struct DiscoveredConfig {
    /// The resolved configuration.
    pub config: Config,
    /// The project root directory (where config was found).
    pub root: String,
    /// Where the config was loaded from.
    pub source: ConfigSource,
}

/// The directory part of a path (`Path::parent`): the text before the last
/// slash (a root slash stays), the empty path when there is no slash, and
/// `None` for the empty path and the root.
pub open spec fn parent_of(p: Seq<char>) -> Option<Seq<char>> {
    let j = crate::paths::last_slash_before(p, p.len() as int);
    if p.len() == 0 || p == seq!['/'] {
        None
    } else if j == 0 {
        Some(seq![])
    } else if j == 1 {
        Some(seq!['/'])
    } else {
        Some(p.subrange(0, j - 1))
    }
}

fn parent_path(p: &str) -> (r: Option<String>)
    ensures
        crate::types::opt_str_view(r) == parent_of(p@),
{
    let c = crate::text::chars_of(p);
    let n = c.len();
    if n == 0 || (n == 1 && c[0] == '/') {
        proof {
            if n == 1 {
                assert(p@ =~= seq!['/']);
            }
        }
        return None;
    }
    let mut j: usize = n;
    while j > 0 && c[j - 1] != '/'
        invariant
            j <= n,
            n == c@.len(),
            c@ == p@,
            crate::paths::last_slash_before(c@, j as int) == crate::paths::last_slash_before(c@, n as int),
        decreases j,
    {
        j -= 1;
    }
    proof {
        if n == 1 {
            assert(p@ != seq!['/']) by {
                assert(p@[0] != '/');
            }
        } else {
            assert(p@.len() != 1);
        }
    }
    if j == 0 {
        Some(String::new())
    } else if j == 1 {
        let mut s = String::new();
        s.push('/');
        proof {
            assert(s@ =~= seq!['/']);
        }
        Some(s)
    } else {
        Some(crate::text::string_from(crate::text::slice_vec(c.as_slice(), 0, j - 1).as_slice()))
    }
}

/// Where discovery looks, and what it found, for one search.
#[derive(Debug)]
pub struct DiscoveryInputs {
    /// The directory the search starts from.
    pub start_dir: String,
    /// The file `ADRS_CONFIG` names, when it exists, with the layers read
    /// for it (defaults excluded).
    pub explicit: Option<(String, Vec<ConfigLayer>)>,
    /// The project root found, its source, and the layers read for it.
    pub project: Option<(String, ConfigSource, Vec<ConfigLayer>)>,
    /// The global configuration file, when it exists, with its layers.
    pub global: Option<(String, Vec<ConfigLayer>)>,
    /// The layers used when nothing was found (the `ADR_DIRECTORY` override).
    pub fallback: Vec<ConfigLayer>,
}

pub open spec fn layers_view(v: Seq<ConfigLayer>) -> Seq<ConfigLayerV> {
    v.map_values(|l: ConfigLayer| l@)
}

/// Discovers configuration: an explicit `ADRS_CONFIG` file (its directory
/// as root, `Environment` as source), else the project root found upward,
/// else the global configuration (the start directory as root), else the
/// defaults. A mode that no layer set correctly is a `ConfigError`.
pub fn discover(inputs: &DiscoveryInputs) -> (r: Result<DiscoveredConfig, Error>)
    ensures
        match &inputs.explicit {
            Some((path, ls)) => match resolved(layers_view(ls@)) {
                Some(c) => r matches Ok(d) && d.config@ == c && d.root@ == (match parent_of(path@) {
                    Some(p) => p,
                    None => inputs.start_dir@,
                }) && d.source@ == ConfigSourceV::EnvironmentConfig(path@),
                None => r matches Err(Error::ConfigError(_)),
            },
            None => match &inputs.project {
                Some((root, source, ls)) => match resolved(layers_view(ls@)) {
                    Some(c) => r matches Ok(d) && d.config@ == c && d.root@ == root@ && d.source@ == source@,
                    None => r matches Err(Error::ConfigError(_)),
                },
                None => match &inputs.global {
                    Some((path, ls)) => match resolved(layers_view(ls@)) {
                        Some(c) => r matches Ok(d) && d.config@ == c && d.root@ == inputs.start_dir@
                            && d.source@ == ConfigSourceV::Global(path@),
                        None => r matches Err(Error::ConfigError(_)),
                    },
                    None => match resolved(layers_view(inputs.fallback@)) {
                        Some(c) => r matches Ok(d) && d.config@ == c && d.root@ == inputs.start_dir@
                            && d.source@ == ConfigSourceV::Default,
                        None => r matches Err(Error::ConfigError(_)),
                    },
                },
            },
        },
{
    match &inputs.explicit {
        Some((path, ls)) => {
            let config = match resolve_layers(ls) {
                Ok(c) => c,
                Err(e) => return Err(e),
            };
            let root = match parent_path(path.as_str()) {
                Some(p) => p,
                None => inputs.start_dir.clone(),
            };
            return Ok(DiscoveredConfig { config, root, source: ConfigSource::EnvironmentConfig(path.clone()) });
        },
        None => {},
    }
    match &inputs.project {
        Some((root, source, ls)) => {
            let config = match resolve_layers(ls) {
                Ok(c) => c,
                Err(e) => return Err(e),
            };
            return Ok(DiscoveredConfig { config, root: root.clone(), source: source.clone() });
        },
        None => {},
    }
    match &inputs.global {
        Some((path, ls)) => {
            let config = match resolve_layers(ls) {
                Ok(c) => c,
                Err(e) => return Err(e),
            };
            return Ok(
                DiscoveredConfig { config, root: inputs.start_dir.clone(), source: ConfigSource::Global(path.clone()) },
            );
        },
        None => {},
    }
    let config = match resolve_layers(&inputs.fallback) {
        Ok(c) => c,
        Err(e) => return Err(e),
    };
    Ok(DiscoveredConfig { config, root: inputs.start_dir.clone(), source: ConfigSource::Default })
}

} // verus!
