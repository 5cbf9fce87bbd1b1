//! Template system for generating ADR files.

use crate::builtin::{
    MADR_BARE_MINIMAL_TEMPLATE, MADR_BARE_TEMPLATE, MADR_MINIMAL_TEMPLATE, MADR_TEMPLATE,
    NYGARD_BARE_MINIMAL_TEMPLATE, NYGARD_BARE_TEMPLATE, NYGARD_MINIMAL_TEMPLATE, NYGARD_TEMPLATE,
};
use crate::config::{Config, ConfigMode};
use crate::error::Error;
use crate::jinja::{
    data_of_entries, data_of_values, jinja_output, jinja_render, jv_bool, jv_list, jv_map,
    jv_none, jv_str, jv_u32, JinjaValue, TemplateData,
};
use crate::paths::{file_name, final_component};
use crate::text::{chars_of, eq_str, lowercase, owned, string_from, to_lowercase};
use crate::types::{
    date_text, link_kind_text, status_text, strings_view, Adr, AdrLink, AdrLinkV, AdrV,
};
use vstd::prelude::*;

verus! {

// ---------------------------------------------------------------------------
// Formats and variants
// ---------------------------------------------------------------------------
/// Built-in template formats.
#[derive(Debug, Clone, Copy, PartialEq, Eq, Structural)]
pub enum TemplateFormat {
    /// Michael Nygard's original ADR format.
    Nygard,
    /// Markdown Any Decision Records format (MADR 4.0.0).
    Madr,
}

impl Default for TemplateFormat {
    fn default() -> (r: Self)
        ensures
            r == TemplateFormat::Nygard,
    {
        TemplateFormat::Nygard
    }
}

pub open spec fn format_text(f: TemplateFormat) -> Seq<char> {
    match f {
        TemplateFormat::Nygard => "nygard"@,
        TemplateFormat::Madr => "madr"@,
    }
}

/// The format a name selects: `nygard` or `default` for Nygard and `madr`
/// for MADR, compared after lowercasing; `None` for anything else.
pub open spec fn format_from_str(s: Seq<char>) -> Option<TemplateFormat> {
    let l = lowercase(s);
    if l == "nygard"@ || l == "default"@ {
        Some(TemplateFormat::Nygard)
    } else if l == "madr"@ {
        Some(TemplateFormat::Madr)
    } else {
        None
    }
}

impl TemplateFormat {
    /// The format's name (`nygard` or `madr`).
    pub fn to_string(&self) -> (r: String)
        ensures
            r@ == format_text(*self),
    {
        match self {
            TemplateFormat::Nygard => owned("nygard"),
            TemplateFormat::Madr => owned("madr"),
        }
    }

    /// Parses a format name; an unknown name is `TemplateNotFound` with the
    /// name as given.
    pub fn parse_str(s: &str) -> (r: Result<TemplateFormat, Error>)
        ensures
            format_from_str(s@) matches Some(f) ==> r == Ok::<TemplateFormat, Error>(f),
            format_from_str(s@) is None ==> (r matches Err(Error::TemplateNotFound(m))
                && m@ == s@),
    {
        let lower = to_lowercase(s);
        let l = chars_of(lower.as_str());
        if eq_str(l.as_slice(), "nygard") || eq_str(l.as_slice(), "default") {
            Ok(TemplateFormat::Nygard)
        } else if eq_str(l.as_slice(), "madr") {
            Ok(TemplateFormat::Madr)
        } else {
            Err(Error::TemplateNotFound(owned(s)))
        }
    }
}

impl std::str::FromStr for TemplateFormat {
    type Err = Error;

    fn from_str(s: &str) -> (r: Result<Self, Error>)
        ensures
            format_from_str(s@) matches Some(f) ==> r == Ok::<TemplateFormat, Error>(f),
            format_from_str(s@) is None ==> (r matches Err(Error::TemplateNotFound(m)) && m@ == s@),
    {
        TemplateFormat::parse_str(s)
    }
}

/// Template variants for different levels of detail.
#[derive(Debug, Clone, Copy, PartialEq, Eq, Structural)]
pub enum TemplateVariant {
    /// Full template with all sections and guidance.
    Full,
    /// Minimal template with essential sections only (with guidance).
    Minimal,
    /// Bare template - all sections but empty/placeholder content.
    Bare,
    /// Bare-minimal template - fewest sections, empty content.
    BareMinimal,
}

impl Default for TemplateVariant {
    fn default() -> (r: Self)
        ensures
            r == TemplateVariant::Full,
    {
        TemplateVariant::Full
    }
}

pub open spec fn variant_text(v: TemplateVariant) -> Seq<char> {
    match v {
        TemplateVariant::Full => "full"@,
        TemplateVariant::Minimal => "minimal"@,
        TemplateVariant::Bare => "bare"@,
        TemplateVariant::BareMinimal => "bare-minimal"@,
    }
}

/// `s` with every `_` replaced by `-`.
pub open spec fn dashes_for_underscores(s: Seq<char>) -> Seq<char> {
    s.map_values(|c: char| if c == '_' { '-' } else { c })
}

/// The variant a name selects, compared after lowercasing and turning `_`
/// into `-`: `full`/`default`, `minimal`/`min`, `bare`, and
/// `bare-minimal`/`bareminimal`/`empty`; `None` for anything else.
pub open spec fn variant_from_str(s: Seq<char>) -> Option<TemplateVariant> {
    let l = dashes_for_underscores(lowercase(s));
    if l == "full"@ || l == "default"@ {
        Some(TemplateVariant::Full)
    } else if l == "minimal"@ || l == "min"@ {
        Some(TemplateVariant::Minimal)
    } else if l == "bare"@ {
        Some(TemplateVariant::Bare)
    } else if l == "bare-minimal"@ || l == "bareminimal"@ || l == "empty"@ {
        Some(TemplateVariant::BareMinimal)
    } else {
        None
    }
}

impl TemplateVariant {
    /// The variant's name (`full`, `minimal`, `bare` or `bare-minimal`).
    pub fn to_string(&self) -> (r: String)
        ensures
            r@ == variant_text(*self),
    {
        match self {
            TemplateVariant::Full => owned("full"),
            TemplateVariant::Minimal => owned("minimal"),
            TemplateVariant::Bare => owned("bare"),
            TemplateVariant::BareMinimal => owned("bare-minimal"),
        }
    }

    /// Parses a variant name; an unknown name is `TemplateNotFound` with the
    /// message `Unknown variant: <name>`.
    pub fn parse_str(s: &str) -> (r: Result<TemplateVariant, Error>)
        ensures
            variant_from_str(s@) matches Some(v) ==> r == Ok::<TemplateVariant, Error>(v),
            variant_from_str(s@) is None ==> (r matches Err(Error::TemplateNotFound(m)) && m@
                == "Unknown variant: "@ + s@),
    {
        let lower = to_lowercase(s);
        let l0 = chars_of(lower.as_str());
        let mut l: Vec<char> = Vec::new();
        let mut i: usize = 0;
        while i < l0.len()
            invariant
                i <= l0@.len(),
                l@ == dashes_for_underscores(l0@.subrange(0, i as int)),
            decreases l0@.len() - i,
        {
            let c = l0[i];
            l.push(if c == '_' { '-' } else { c });
            i += 1;
            proof {
                assert(dashes_for_underscores(l0@.subrange(0, i as int)) =~= dashes_for_underscores(
                    l0@.subrange(0, i - 1),
                ).push(if c == '_' { '-' } else { c }));
            }
        }
        proof {
            assert(l0@.subrange(0, l0@.len() as int) =~= l0@);
        }
        let l = l.as_slice();
        if eq_str(l, "full") || eq_str(l, "default") {
            Ok(TemplateVariant::Full)
        } else if eq_str(l, "minimal") || eq_str(l, "min") {
            Ok(TemplateVariant::Minimal)
        } else if eq_str(l, "bare") {
            Ok(TemplateVariant::Bare)
        } else if eq_str(l, "bare-minimal") || eq_str(l, "bareminimal") || eq_str(l, "empty") {
            Ok(TemplateVariant::BareMinimal)
        } else {
            let mut m = crate::text::chars_of("Unknown variant: ");
            crate::text::push_str_chars(&mut m, s);
            Err(Error::TemplateNotFound(string_from(m.as_slice())))
        }
    }
}

impl std::str::FromStr for TemplateVariant {
    type Err = Error;

    fn from_str(s: &str) -> (r: Result<Self, Error>)
        ensures
            variant_from_str(s@) matches Some(v) ==> r == Ok::<TemplateVariant, Error>(v),
            variant_from_str(s@) is None ==> (r matches Err(Error::TemplateNotFound(m)) && m@
                == "Unknown variant: "@ + s@),
    {
        TemplateVariant::parse_str(s)
    }
}

// ---------------------------------------------------------------------------
// Templates
// ---------------------------------------------------------------------------
/// The mathematical view of a template.
pub struct TemplateV {
    pub name: Seq<char>,
    pub content: Seq<char>,
}

/// A template for generating ADRs.
#[derive(Debug)]
pub struct Template {
    /// The template content.
    content: String,
    /// The template name (for error messages).
    name: String,
}

impl View for Template {
    type V = TemplateV;

    open spec fn view(&self) -> TemplateV {
        TemplateV { name: self.name_spec(), content: self.content_spec() }
    }
}

impl Clone for Template {
    fn clone(&self) -> (r: Self)
        ensures
            r@ == self@,
    {
        Template { content: self.content.clone(), name: self.name.clone() }
    }
}

/// The name of the built-in template for a format and variant.
pub open spec fn builtin_name(f: TemplateFormat, v: TemplateVariant) -> Seq<char> {
    match (f, v) {
        (TemplateFormat::Nygard, TemplateVariant::Full) => "nygard"@,
        (TemplateFormat::Nygard, TemplateVariant::Minimal) => "nygard-minimal"@,
        (TemplateFormat::Nygard, TemplateVariant::Bare) => "nygard-bare"@,
        (TemplateFormat::Nygard, TemplateVariant::BareMinimal) => "nygard-bare-minimal"@,
        (TemplateFormat::Madr, TemplateVariant::Full) => "madr"@,
        (TemplateFormat::Madr, TemplateVariant::Minimal) => "madr-minimal"@,
        (TemplateFormat::Madr, TemplateVariant::Bare) => "madr-bare"@,
        (TemplateFormat::Madr, TemplateVariant::BareMinimal) => "madr-bare-minimal"@,
    }
}

/// The source of the built-in template for a format and variant.
pub open spec fn builtin_content(f: TemplateFormat, v: TemplateVariant) -> Seq<char> {
    match (f, v) {
        (TemplateFormat::Nygard, TemplateVariant::Full) => NYGARD_TEMPLATE@,
        (TemplateFormat::Nygard, TemplateVariant::Minimal) => NYGARD_MINIMAL_TEMPLATE@,
        (TemplateFormat::Nygard, TemplateVariant::Bare) => NYGARD_BARE_TEMPLATE@,
        (TemplateFormat::Nygard, TemplateVariant::BareMinimal) => NYGARD_BARE_MINIMAL_TEMPLATE@,
        (TemplateFormat::Madr, TemplateVariant::Full) => MADR_TEMPLATE@,
        (TemplateFormat::Madr, TemplateVariant::Minimal) => MADR_MINIMAL_TEMPLATE@,
        (TemplateFormat::Madr, TemplateVariant::Bare) => MADR_BARE_TEMPLATE@,
        (TemplateFormat::Madr, TemplateVariant::BareMinimal) => MADR_BARE_MINIMAL_TEMPLATE@,
    }
}

pub open spec fn builtin_view(f: TemplateFormat, v: TemplateVariant) -> TemplateV {
    TemplateV { name: builtin_name(f, v), content: builtin_content(f, v) }
}

// ---------------------------------------------------------------------------
// Rendering context
// ---------------------------------------------------------------------------
pub open spec fn opt_text_data(o: Option<Seq<char>>) -> TemplateData {
    match o {
        Some(s) => TemplateData::Str(s),
        None => TemplateData::Nothing,
    }
}

/// The data a link is rendered with: its target, its display kind and its
/// description.
pub open spec fn link_data(l: AdrLinkV) -> TemplateData {
    TemplateData::Dict(
        seq![
            ("target"@, TemplateData::Int(l.target)),
            ("kind"@, TemplateData::Str(link_kind_text(l.kind))),
            ("description"@, opt_text_data(l.description)),
        ],
    )
}

pub open spec fn text_list_data(v: Seq<Seq<char>>) -> TemplateData {
    TemplateData::List(v.map_values(|s: Seq<char>| TemplateData::Str(s)))
}

/// The data an ADR is rendered with.
pub open spec fn render_context(adr: AdrV, next_gen: bool) -> TemplateData {
    TemplateData::Dict(
        seq![
            ("number"@, TemplateData::Int(adr.number)),
            ("title"@, TemplateData::Str(adr.title)),
            ("date"@, TemplateData::Str(date_text(adr.date))),
            ("status"@, TemplateData::Str(status_text(adr.status))),
            ("context"@, TemplateData::Str(adr.context)),
            ("decision"@, TemplateData::Str(adr.decision)),
            ("consequences"@, TemplateData::Str(adr.consequences)),
            ("links"@, TemplateData::List(adr.links.map_values(|l: AdrLinkV| link_data(l)))),
            ("is_ng"@, TemplateData::Bool(next_gen)),
            ("decision_makers"@, text_list_data(adr.decision_makers)),
            ("consulted"@, text_list_data(adr.consulted)),
            ("informed"@, text_list_data(adr.informed)),
        ],
    )
}

/// Whether a rendering result matches what the engine yields: the same
/// output, or a `TemplateError` carrying the engine's message.
pub open spec fn render_matches(r: Result<String, Error>, out: Result<Seq<char>, Seq<char>>) -> bool {
    match (r, out) {
        (Ok(s), Ok(t)) => s@ == t,
        (Err(Error::TemplateError(m)), Err(t)) => m@ == t,
        _ => false,
    }
}

fn link_value(link: &AdrLink) -> (r: JinjaValue)
    ensures
        r.data() == link_data(link@),
{
    let mut entries: Vec<(String, JinjaValue)> = Vec::new();
    entries.push((owned("target"), jv_u32(link.target)));
    entries.push((owned("kind"), jv_str(link.kind.to_string().as_str())));
    let d = match &link.description {
        Some(s) => jv_str(s.as_str()),
        None => jv_none(),
    };
    entries.push((owned("description"), d));
    proof {
        assert(data_of_entries(entries@) =~= seq![
            ("target"@, TemplateData::Int(link.target)),
            ("kind"@, TemplateData::Str(link_kind_text(link.kind@))),
            ("description"@, opt_text_data(link@.description)),
        ]);
    }
    jv_map(entries)
}

fn links_value(links: &Vec<AdrLink>) -> (r: JinjaValue)
    ensures
        r.data() == TemplateData::List(
            crate::types::links_view(links@).map_values(|l: AdrLinkV| link_data(l)),
        ),
{
    let mut items: Vec<JinjaValue> = Vec::new();
    let mut i: usize = 0;
    while i < links.len()
        invariant
            i <= links@.len(),
            data_of_values(items@) == crate::types::links_view(links@.subrange(0, i as int)).map_values(
                |l: AdrLinkV| link_data(l),
            ),
        decreases links@.len() - i,
    {
        let v = link_value(&links[i]);
        let ghost prev = items@;
        items.push(v);
        i += 1;
        proof {
            assert(data_of_values(items@) =~= data_of_values(prev).push(v.data()));
            assert(crate::types::links_view(links@.subrange(0, i as int)).map_values(
                |l: AdrLinkV| link_data(l),
            ) =~= crate::types::links_view(links@.subrange(0, i - 1)).map_values(
                |l: AdrLinkV| link_data(l),
            ).push(link_data(links@[i - 1]@)));
        }
    }
    proof {
        assert(links@.subrange(0, links@.len() as int) =~= links@);
    }
    jv_list(items)
}

fn text_list_value(v: &Vec<String>) -> (r: JinjaValue)
    ensures
        r.data() == text_list_data(strings_view(v@)),
{
    let mut items: Vec<JinjaValue> = Vec::new();
    let mut i: usize = 0;
    while i < v.len()
        invariant
            i <= v@.len(),
            data_of_values(items@) == strings_view(v@.subrange(0, i as int)).map_values(
                |s: Seq<char>| TemplateData::Str(s),
            ),
        decreases v@.len() - i,
    {
        let x = jv_str(v[i].as_str());
        let ghost prev = items@;
        items.push(x);
        i += 1;
        proof {
            assert(data_of_values(items@) =~= data_of_values(prev).push(x.data()));
            assert(strings_view(v@.subrange(0, i as int)).map_values(
                |s: Seq<char>| TemplateData::Str(s),
            ) =~= strings_view(v@.subrange(0, i - 1)).map_values(
                |s: Seq<char>| TemplateData::Str(s),
            ).push(TemplateData::Str(v@[i - 1]@)));
        }
    }
    proof {
        assert(v@.subrange(0, v@.len() as int) =~= v@);
    }
    jv_list(items)
}

/// The engine value an ADR is rendered with.
fn context_value(adr: &Adr, next_gen: bool) -> (r: JinjaValue)
    ensures
        r.data() == render_context(adr@, next_gen),
{
    let mut e: Vec<(String, JinjaValue)> = Vec::new();
    e.push((owned("number"), jv_u32(adr.number)));
    e.push((owned("title"), jv_str(adr.title.as_str())));
    e.push((owned("date"), jv_str(adr.date.format().as_str())));
    e.push((owned("status"), jv_str(adr.status.to_string().as_str())));
    e.push((owned("context"), jv_str(adr.context.as_str())));
    e.push((owned("decision"), jv_str(adr.decision.as_str())));
    e.push((owned("consequences"), jv_str(adr.consequences.as_str())));
    e.push((owned("links"), links_value(&adr.links)));
    e.push((owned("is_ng"), jv_bool(next_gen)));
    e.push((owned("decision_makers"), text_list_value(&adr.decision_makers)));
    e.push((owned("consulted"), text_list_value(&adr.consulted)));
    e.push((owned("informed"), text_list_value(&adr.informed)));
    proof {
        assert(data_of_entries(e@) =~= seq![
            ("number"@, TemplateData::Int(adr.number)),
            ("title"@, TemplateData::Str(adr@.title)),
            ("date"@, TemplateData::Str(date_text(adr.date))),
            ("status"@, TemplateData::Str(status_text(adr@.status))),
            ("context"@, TemplateData::Str(adr@.context)),
            ("decision"@, TemplateData::Str(adr@.decision)),
            ("consequences"@, TemplateData::Str(adr@.consequences)),
            ("links"@, TemplateData::List(adr@.links.map_values(|l: AdrLinkV| link_data(l)))),
            ("is_ng"@, TemplateData::Bool(next_gen)),
            ("decision_makers"@, text_list_data(adr@.decision_makers)),
            ("consulted"@, text_list_data(adr@.consulted)),
            ("informed"@, text_list_data(adr@.informed)),
        ]);
    }
    jv_map(e)
}

impl Template {
    pub closed spec fn name_spec(&self) -> Seq<char> {
        self.name@
    }

    pub closed spec fn content_spec(&self) -> Seq<char> {
        self.content@
    }

    /// Create a template from a string.
    pub fn from_string(name: &str, content: &str) -> (r: Template)
        ensures
            r@ == (TemplateV { name: name@, content: content@ }),
    {
        Template { name: owned(name), content: owned(content) }
    }

    /// Create a template from the text read from the file at `path`: it is
    /// named by the file's final path component, or `custom` when the path
    /// has none; a failed read is passed on.
    pub fn from_file(path: &str, read: Result<String, Error>) -> (r: Result<Template, Error>)
        ensures
            read is Err ==> r is Err,
            read matches Ok(c) ==> (r matches Ok(t) && t@.content == c@ && t@.name == (
            match final_component(path@) {
                Some(n) => n,
                None => "custom"@,
            })),
    {
        match read {
            Ok(content) => {
                let name = match file_name(path) {
                    Some(n) => n,
                    None => owned("custom"),
                };
                Ok(Template { name, content })
            },
            Err(e) => Err(e),
        }
    }

    /// Get the template content.
    pub fn content(&self) -> (r: &str)
        ensures
            r@ == self@.content,
    {
        self.content.as_str()
    }

    /// Get the template name.
    pub fn name(&self) -> (r: &str)
        ensures
            r@ == self@.name,
    {
        self.name.as_str()
    }

    /// Get a built-in template by format (uses Full variant).
    pub fn builtin(format: TemplateFormat) -> (r: Template)
        ensures
            r@ == builtin_view(format, TemplateVariant::Full),
    {
        Self::builtin_with_variant(format, TemplateVariant::Full)
    }

    /// Get a built-in template by format and variant.
    pub fn builtin_with_variant(format: TemplateFormat, variant: TemplateVariant) -> (r: Template)
        ensures
            r@ == builtin_view(format, variant),
    {
        let (name, content) = match (format, variant) {
            (TemplateFormat::Nygard, TemplateVariant::Full) => ("nygard", NYGARD_TEMPLATE),
            (TemplateFormat::Nygard, TemplateVariant::Minimal) => (
                "nygard-minimal",
                NYGARD_MINIMAL_TEMPLATE,
            ),
            (TemplateFormat::Nygard, TemplateVariant::Bare) => (
                "nygard-bare",
                NYGARD_BARE_TEMPLATE,
            ),
            (TemplateFormat::Nygard, TemplateVariant::BareMinimal) => (
                "nygard-bare-minimal",
                NYGARD_BARE_MINIMAL_TEMPLATE,
            ),
            (TemplateFormat::Madr, TemplateVariant::Full) => ("madr", MADR_TEMPLATE),
            (TemplateFormat::Madr, TemplateVariant::Minimal) => (
                "madr-minimal",
                MADR_MINIMAL_TEMPLATE,
            ),
            (TemplateFormat::Madr, TemplateVariant::Bare) => ("madr-bare", MADR_BARE_TEMPLATE),
            (TemplateFormat::Madr, TemplateVariant::BareMinimal) => (
                "madr-bare-minimal",
                MADR_BARE_MINIMAL_TEMPLATE,
            ),
        };
        Self::from_string(name, content)
    }

    /// Render the template with the given ADR data: the engine renders the
    /// template source, under the template's name, with the ADR's number,
    /// title, date, status, sections, links (with display kinds), the
    /// next-gen flag of `config`, and the MADR people lists.
    pub fn render(&self, adr: &Adr, config: &Config) -> (r: Result<String, Error>)
        ensures
            render_matches(
                r,
                jinja_output(
                    self@.name,
                    self@.content,
                    render_context(adr@, config.mode == ConfigMode::NextGen),
                ),
            ),
    {
        let ctx = context_value(adr, config.is_next_gen());
        match jinja_render(self.name.as_str(), self.content.as_str(), &ctx) {
            Ok(s) => Ok(s),
            Err(m) => Err(Error::TemplateError(m)),
        }
    }
}

// ---------------------------------------------------------------------------
// Engine
// ---------------------------------------------------------------------------
/// The mathematical view of a template engine.
pub struct TemplateEngineV {
    pub default_format: TemplateFormat,
    pub default_variant: TemplateVariant,
    pub custom_template: Option<TemplateV>,
}

/// Template engine for managing and rendering templates.
#[derive(Debug)]
pub struct TemplateEngine {
    /// The default template format.
    default_format: TemplateFormat,
    /// The default template variant.
    default_variant: TemplateVariant,
    /// Custom template (overrides built-in).
    custom_template: Option<Template>,
}

pub open spec fn opt_template_view(t: Option<Template>) -> Option<TemplateV> {
    match t {
        Some(t) => Some(t@),
        None => None,
    }
}

impl View for TemplateEngine {
    type V = TemplateEngineV;

    closed spec fn view(&self) -> TemplateEngineV {
        TemplateEngineV {
            default_format: self.default_format,
            default_variant: self.default_variant,
            custom_template: opt_template_view(self.custom_template),
        }
    }
}

/// The template an engine renders with: its custom template if it has one,
/// otherwise the built-in template of its format and variant.
pub open spec fn engine_template(e: TemplateEngineV) -> TemplateV {
    match e.custom_template {
        Some(t) => t,
        None => builtin_view(e.default_format, e.default_variant),
    }
}

impl Default for TemplateEngine {
    fn default() -> (r: Self)
        ensures
            r@ == (TemplateEngineV {
                default_format: TemplateFormat::Nygard,
                default_variant: TemplateVariant::Full,
                custom_template: None,
            }),
    {
        Self::new()
    }
}

impl TemplateEngine {
    /// Create a new template engine: Nygard format, full variant, no custom template.
    pub fn new() -> (r: Self)
        ensures
            r@ == (TemplateEngineV {
                default_format: TemplateFormat::Nygard,
                default_variant: TemplateVariant::Full,
                custom_template: None,
            }),
    {
        TemplateEngine {
            default_format: TemplateFormat::Nygard,
            default_variant: TemplateVariant::Full,
            custom_template: None,
        }
    }

    /// The default template format.
    pub fn default_format(&self) -> (r: TemplateFormat)
        ensures
            r == self@.default_format,
    {
        self.default_format
    }

    /// The default template variant.
    pub fn default_variant(&self) -> (r: TemplateVariant)
        ensures
            r == self@.default_variant,
    {
        self.default_variant
    }

    /// The custom template, if one is set.
    pub fn custom_template(&self) -> (r: Option<&Template>)
        ensures
            r matches Some(t) ==> self@.custom_template == Some(t@),
            r is None ==> self@.custom_template is None,
    {
        match &self.custom_template {
            Some(t) => Some(t),
            None => None,
        }
    }

    /// Set the default template format.
    pub fn with_format(self, format: TemplateFormat) -> (r: Self)
        ensures
            r@ == (TemplateEngineV { default_format: format, ..self@ }),
    {
        TemplateEngine { default_format: format, ..self }
    }

    /// Set the default template variant.
    pub fn with_variant(self, variant: TemplateVariant) -> (r: Self)
        ensures
            r@ == (TemplateEngineV { default_variant: variant, ..self@ }),
    {
        TemplateEngine { default_variant: variant, ..self }
    }

    /// Set a custom template.
    pub fn with_custom_template(self, template: Template) -> (r: Self)
        ensures
            r@ == (TemplateEngineV { custom_template: Some(template@), ..self@ }),
    {
        TemplateEngine { custom_template: Some(template), ..self }
    }

    /// Use the template read from the file at `path` as the custom template;
    /// a failed read is passed on and leaves no engine.
    pub fn with_custom_template_file(self, path: &str, read: Result<String, Error>) -> (r: Result<
        Self,
        Error,
    >)
        ensures
            read is Err ==> r is Err,
            read matches Ok(c) ==> (r matches Ok(e) && e@.default_format == self@.default_format
                && e@.default_variant == self@.default_variant && e@.custom_template == Some(
                TemplateV {
                    content: c@,
                    name: match final_component(path@) {
                        Some(n) => n,
                        None => "custom"@,
                    },
                },
            )),
    {
        let t = Template::from_file(path, read)?;
        Ok(TemplateEngine { custom_template: Some(t), ..self })
    }

    /// Get the template to use for rendering.
    pub fn template(&self) -> (r: Template)
        ensures
            r@ == engine_template(self@),
    {
        match &self.custom_template {
            Some(t) => t.clone(),
            None => Template::builtin_with_variant(self.default_format, self.default_variant),
        }
    }

    /// Render an ADR using the configured template.
    pub fn render(&self, adr: &Adr, config: &Config) -> (r: Result<String, Error>)
        ensures
            render_matches(
                r,
                jinja_output(
                    engine_template(self@).name,
                    engine_template(self@).content,
                    render_context(adr@, config.mode == ConfigMode::NextGen),
                ),
            ),
    {
        self.template().render(adr, config)
    }
}

} // verus!
