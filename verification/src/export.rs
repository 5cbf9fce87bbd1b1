//! JSON-ADR export and import.
//!
//! The JSON-ADR format is a machine-readable interchange format for
//! Architecture Decision Records. The types here carry the data; turning
//! them into JSON text and back is the caller's part.

use crate::config::{Config, ConfigMode, TemplateConfig};
use crate::error::Error;
use crate::paths::{join, join_spec};
use crate::repository::{records, Repository, RepositoryV};
use crate::template::{engine_template, render_context, render_matches, TemplateEngine};
use crate::jinja::jinja_output;
use crate::lint::{comps_order, compare_paths, path_components};
use crate::text::{
    chars_of, clone_string, decimal, decimal_chars, ends_with_spec, ends_with_str, lowercase,
    owned, parse_u32, parse_u32_spec, push_all, push_str_chars, slice_vec, string_from,
    to_lowercase,
};
use crate::types::{
    clone_opt_string, clone_strings, links_view, date_text, filename_spec, opt_str_view, status_from_str,
    status_text, strings_view, today, Adr, AdrLink, AdrLinkV, AdrStatus, AdrV, Date, LinkKind,
    LinkKindV, StatusV,
};
use vstd::prelude::*;

verus! {

/// JSON-ADR schema version.
pub const JSON_ADR_VERSION: &'static str = "1.0.0";

/// JSON-ADR schema URL.
pub const JSON_ADR_SCHEMA: &'static str =
    "https://raw.githubusercontent.com/joshrotenberg/adrs/main/schema/json-adr/v1.json";

/// The name of the tool recorded in bulk exports.
pub const TOOL_NAME: &'static str = "adrs";

/// The version of the tool recorded in bulk exports.
pub const TOOL_VERSION: &'static str = "0.6.0";

// ---------------------------------------------------------------------------
// Links
// ---------------------------------------------------------------------------
/// The JSON-ADR name of a link kind.
pub open spec fn json_link_type(k: LinkKindV) -> Seq<char> {
    match k {
        LinkKindV::Supersedes => "supersedes"@,
        LinkKindV::SupersededBy => "superseded-by"@,
        LinkKindV::Amends => "amends"@,
        LinkKindV::AmendedBy => "amended-by"@,
        LinkKindV::RelatesTo => "relates-to"@,
        LinkKindV::Custom(s) => s,
    }
}

/// The link kind a JSON-ADR link type names, compared in lowercase; an
/// unknown type becomes a custom kind holding the lowercased text.
pub open spec fn link_kind_of_type(s: Seq<char>) -> LinkKindV {
    let l = lowercase(s);
    if l == "supersedes"@ {
        LinkKindV::Supersedes
    } else if l == "superseded-by"@ {
        LinkKindV::SupersededBy
    } else if l == "amends"@ {
        LinkKindV::Amends
    } else if l == "amended-by"@ {
        LinkKindV::AmendedBy
    } else if l == "relates-to"@ {
        LinkKindV::RelatesTo
    } else {
        LinkKindV::Custom(l)
    }
}

/// The JSON-ADR name of a link kind.
pub fn link_kind_to_string(kind: &LinkKind) -> (r: String)
    ensures
        r@ == json_link_type(kind@),
{
    match kind {
        LinkKind::Supersedes => owned("supersedes"),
        LinkKind::SupersededBy => owned("superseded-by"),
        LinkKind::Amends => owned("amends"),
        LinkKind::AmendedBy => owned("amended-by"),
        LinkKind::RelatesTo => owned("relates-to"),
        LinkKind::Custom(s) => clone_string(s),
    }
}

/// The link kind a JSON-ADR link type names.
pub fn string_to_link_kind(s: &str) -> (r: LinkKind)
    ensures
        r@ == link_kind_of_type(s@),
{
    let l = to_lowercase(s);
    let c = chars_of(l.as_str());
    let cs = c.as_slice();
    if crate::text::eq_str(cs, "supersedes") {
        LinkKind::Supersedes
    } else if crate::text::eq_str(cs, "superseded-by") {
        LinkKind::SupersededBy
    } else if crate::text::eq_str(cs, "amends") {
        LinkKind::Amends
    } else if crate::text::eq_str(cs, "amended-by") {
        LinkKind::AmendedBy
    } else if crate::text::eq_str(cs, "relates-to") {
        LinkKind::RelatesTo
    } else {
        LinkKind::Custom(l)
    }
}

/// Naming a built-in link kind and reading the name back gives the kind.
pub proof fn law_link_type_roundtrip(k: LinkKindV)
    requires
        !(k is Custom),
    ensures
        link_kind_of_type(json_link_type(k)) == k,
{
    reveal_strlit("supersedes");
    reveal_strlit("superseded-by");
    reveal_strlit("amends");
    reveal_strlit("amended-by");
    reveal_strlit("relates-to");
    let t = json_link_type(k);
    assert(crate::text::is_ascii_seq(t));
    assert(crate::text::ascii_lower_seq(t) =~= t);
    assert("supersedes"@ != "superseded-by"@) by {
        assert("supersedes"@.len() != "superseded-by"@.len());
    }
    assert("supersedes"@ != "amends"@) by {
        assert("supersedes"@.len() != "amends"@.len());
    }
    assert("supersedes"@ != "amended-by"@) by {
        assert("supersedes"@[0] != "amended-by"@[0]);
    }
    assert("supersedes"@ != "relates-to"@) by {
        assert("supersedes"@[0] != "relates-to"@[0]);
    }
    assert("superseded-by"@ != "amends"@) by {
        assert("superseded-by"@.len() != "amends"@.len());
    }
    assert("superseded-by"@ != "amended-by"@) by {
        assert("superseded-by"@.len() != "amended-by"@.len());
    }
    assert("superseded-by"@ != "relates-to"@) by {
        assert("superseded-by"@.len() != "relates-to"@.len());
    }
    assert("amends"@ != "amended-by"@) by {
        assert("amends"@.len() != "amended-by"@.len());
    }
    assert("amends"@ != "relates-to"@) by {
        assert("amends"@.len() != "relates-to"@.len());
    }
    assert("amended-by"@ != "relates-to"@) by {
        assert("amended-by"@[0] != "relates-to"@[0]);
    }
}

/// The view of a JSON-ADR link.
pub struct JsonAdrLinkV {
    pub link_type: Seq<char>,
    pub target: u32,
    pub description: Option<Seq<char>>,
}

/// A link between ADRs in JSON-ADR format.
#[derive(Debug)]
pub struct JsonAdrLink {
    /// Link type.
    pub link_type: String,
    /// ADR number being linked to.
    pub target: u32,
    /// Optional description.
    pub description: Option<String>,
}

impl View for JsonAdrLink {
    type V = JsonAdrLinkV;

    open spec fn view(&self) -> JsonAdrLinkV {
        JsonAdrLinkV {
            link_type: self.link_type@,
            target: self.target,
            description: opt_str_view(self.description),
        }
    }
}

impl Clone for JsonAdrLink {
    fn clone(&self) -> (r: Self)
        ensures
            r@ == self@,
    {
        JsonAdrLink {
            link_type: clone_string(&self.link_type),
            target: self.target,
            description: clone_opt_string(&self.description),
        }
    }
}

/// The JSON-ADR form of a link.
pub open spec fn json_link(l: AdrLinkV) -> JsonAdrLinkV {
    JsonAdrLinkV { link_type: json_link_type(l.kind), target: l.target, description: l.description }
}

impl From<&AdrLink> for JsonAdrLink {
    fn from(link: &AdrLink) -> (r: Self)
        ensures
            r@ == json_link(link@),
    {
        JsonAdrLink::from_link(link)
    }
}

/// `from`'s result is stated by its own `ensures` over the view; no spec
/// function of exec values stands for it.
impl vstd::std_specs::convert::FromSpecImpl<&AdrLink> for JsonAdrLink {
    open spec fn obeys_from_spec() -> bool {
        false
    }

    open spec fn from_spec(v: &AdrLink) -> Self {
        vstd::pervasive::arbitrary()
    }
}

impl JsonAdrLink {
    /// The JSON-ADR form of a link.
    pub fn from_link(link: &AdrLink) -> (r: Self)
        ensures
            r@ == json_link(link@),
    {
        JsonAdrLink {
            link_type: link_kind_to_string(&link.kind),
            target: link.target,
            description: clone_opt_string(&link.description),
        }
    }
}


// ---------------------------------------------------------------------------
// Records
// ---------------------------------------------------------------------------
/// The view of a considered option.
pub struct ConsideredOptionV {
    pub name: Seq<char>,
    pub description: Option<Seq<char>>,
    pub pros: Seq<Seq<char>>,
    pub cons: Seq<Seq<char>>,
}

/// A considered option with pros and cons.
#[derive(Debug)]
pub struct ConsideredOption {
    /// Name of the option.
    pub name: String,
    /// Description of the option.
    pub description: Option<String>,
    /// Arguments in favor of this option.
    pub pros: Vec<String>,
    /// Arguments against this option.
    pub cons: Vec<String>,
}

impl View for ConsideredOption {
    type V = ConsideredOptionV;

    open spec fn view(&self) -> ConsideredOptionV {
        ConsideredOptionV {
            name: self.name@,
            description: opt_str_view(self.description),
            pros: strings_view(self.pros@),
            cons: strings_view(self.cons@),
        }
    }
}

/// The view of a JSON-ADR record.
pub struct JsonAdrV {
    pub number: u32,
    pub title: Seq<char>,
    pub status: Seq<char>,
    pub date: Seq<char>,
    pub deciders: Seq<Seq<char>>,
    pub consulted: Seq<Seq<char>>,
    pub informed: Seq<Seq<char>>,
    pub tags: Seq<Seq<char>>,
    pub source_uri: Option<Seq<char>>,
    pub context: Option<Seq<char>>,
    pub decision_drivers: Seq<Seq<char>>,
    pub considered_options: Seq<ConsideredOptionV>,
    pub decision: Option<Seq<char>>,
    pub consequences: Option<Seq<char>>,
    pub confirmation: Option<Seq<char>>,
    pub links: Seq<JsonAdrLinkV>,
    pub custom_sections: Seq<(Seq<char>, Seq<char>)>,
    pub path: Option<Seq<char>>,
}

/// A single ADR in JSON-ADR format.
#[derive(Debug)]
pub struct JsonAdr {
    /// Unique identifier for the ADR.
    pub number: u32,
    /// Title of the decision.
    pub title: String,
    /// Current status.
    pub status: String,
    /// Date when the decision was made (ISO 8601).
    pub date: String,
    /// People who made the decision.
    pub deciders: Vec<String>,
    /// People whose opinions were sought.
    pub consulted: Vec<String>,
    /// People informed after the decision.
    pub informed: Vec<String>,
    /// Categorization labels.
    pub tags: Vec<String>,
    /// URI to the source ADR file (for federation/reference).
    pub source_uri: Option<String>,
    /// Background and problem statement.
    pub context: Option<String>,
    /// Forces and concerns influencing the decision.
    pub decision_drivers: Vec<String>,
    /// Alternatives that were evaluated.
    pub considered_options: Vec<ConsideredOption>,
    /// The decision that was made.
    pub decision: Option<String>,
    /// Outcomes and implications.
    pub consequences: Option<String>,
    /// How to validate the decision was implemented correctly.
    pub confirmation: Option<String>,
    /// Relationships to other ADRs.
    pub links: Vec<JsonAdrLink>,
    /// Custom sections not covered by standard fields (name, text).
    pub custom_sections: Vec<(String, String)>,
    /// Relative path to the source file.
    pub path: Option<String>,
}

impl View for JsonAdr {
    type V = JsonAdrV;

    open spec fn view(&self) -> JsonAdrV {
        JsonAdrV {
            number: self.number,
            title: self.title@,
            status: self.status@,
            date: self.date@,
            deciders: strings_view(self.deciders@),
            consulted: strings_view(self.consulted@),
            informed: strings_view(self.informed@),
            tags: strings_view(self.tags@),
            source_uri: opt_str_view(self.source_uri),
            context: opt_str_view(self.context),
            decision_drivers: strings_view(self.decision_drivers@),
            considered_options: self.considered_options@.map_values(|o: ConsideredOption| o@),
            decision: opt_str_view(self.decision),
            consequences: opt_str_view(self.consequences),
            confirmation: opt_str_view(self.confirmation),
            links: self.links@.map_values(|l: JsonAdrLink| l@),
            custom_sections: self.custom_sections@.map_values(|c: (String, String)| (c.0@, c.1@)),
            path: opt_str_view(self.path),
        }
    }
}

/// A text, or nothing when it is empty.
pub open spec fn non_empty(s: Seq<char>) -> Option<Seq<char>> {
    if s.len() == 0 {
        None
    } else {
        Some(s)
    }
}

/// The JSON-ADR form of an ADR.
pub open spec fn json_adr(a: AdrV) -> JsonAdrV {
    JsonAdrV {
        number: a.number,
        title: a.title,
        status: status_text(a.status),
        date: date_text(a.date),
        deciders: a.decision_makers,
        consulted: a.consulted,
        informed: a.informed,
        tags: a.tags,
        source_uri: None,
        context: non_empty(a.context),
        decision_drivers: seq![],
        considered_options: seq![],
        decision: non_empty(a.decision),
        consequences: non_empty(a.consequences),
        confirmation: None,
        links: a.links.map_values(|l: AdrLinkV| json_link(l)),
        custom_sections: seq![],
        path: a.path,
    }
}

fn non_empty_string(s: &String) -> (r: Option<String>)
    ensures
        opt_str_view(r) == non_empty(s@),
{
    if s.as_str().is_empty() {
        proof {
            assert(s@.len() == 0);
        }
        None
    } else {
        Some(clone_string(s))
    }
}

impl JsonAdr {
    /// The JSON-ADR form of an ADR.
    pub fn from_adr(adr: &Adr) -> (r: Self)
        ensures
            r@ == json_adr(adr@),
    {
        let mut links: Vec<JsonAdrLink> = Vec::new();
        let mut i: usize = 0;
        let ghost lv = adr@.links;
        while i < adr.links.len()
            invariant
                i <= adr.links@.len(),
                lv == adr@.links,
                links@.map_values(|l: JsonAdrLink| l@) == lv.map_values(|l: AdrLinkV| json_link(l)).take(i as int),
            decreases adr.links@.len() - i,
        {
            let ghost before = links@;
            let l = JsonAdrLink::from_link(&adr.links[i]);
            links.push(l);
            proof {
                assert(links@.map_values(|l: JsonAdrLink| l@) =~= before.map_values(|l: JsonAdrLink| l@).push(l@));
                assert(lv.map_values(|l: AdrLinkV| json_link(l)).take(i + 1) =~= lv.map_values(
                    |l: AdrLinkV| json_link(l),
                ).take(i as int).push(l@));
            }
            i += 1;
        }
        proof {
            assert(lv.map_values(|l: AdrLinkV| json_link(l)).take(adr.links@.len() as int) =~= lv.map_values(
                |l: AdrLinkV| json_link(l),
            ));
        }
        let r = JsonAdr {
            number: adr.number,
            title: clone_string(&adr.title),
            status: adr.status.to_string(),
            date: adr.date.format(),
            deciders: clone_strings(&adr.decision_makers),
            consulted: clone_strings(&adr.consulted),
            informed: clone_strings(&adr.informed),
            tags: clone_strings(&adr.tags),
            source_uri: None,
            context: non_empty_string(&adr.context),
            decision_drivers: Vec::new(),
            considered_options: Vec::new(),
            decision: non_empty_string(&adr.decision),
            consequences: non_empty_string(&adr.consequences),
            confirmation: None,
            links,
            custom_sections: Vec::new(),
            path: clone_opt_string(&adr.path),
        };
        proof {
            assert(r@.decision_drivers =~= Seq::<Seq<char>>::empty());
            assert(r@.considered_options =~= Seq::<ConsideredOptionV>::empty());
            assert(r@.custom_sections =~= Seq::<(Seq<char>, Seq<char>)>::empty());
        }
        r
    }
}

/// Export a single ADR to JSON-ADR format.
pub fn export_adr(adr: &Adr) -> (r: JsonAdr)
    ensures
        r@ == json_adr(adr@),
{
    JsonAdr::from_adr(adr)
}

// ---------------------------------------------------------------------------
// Bulk exports
// ---------------------------------------------------------------------------
/// Tool metadata for bulk exports.
#[derive(Debug)]
pub struct ToolInfo {
    /// Tool name.
    pub name: String,
    /// Tool version.
    pub version: String,
}

/// Repository metadata for bulk exports.
#[derive(Debug)]
pub struct RepositoryInfo {
    /// Repository/project name.
    pub name: Option<String>,
    /// ADR directory path.
    pub adr_directory: String,
}

/// Bulk export of multiple ADRs.
#[derive(Debug)]
pub struct JsonAdrBulkExport {
    /// JSON Schema reference.
    pub schema: Option<String>,
    /// JSON-ADR version.
    pub version: String,
    /// When the export was generated.
    pub generated_at: Option<String>,
    /// Tool that generated the export.
    pub tool: Option<ToolInfo>,
    /// Repository metadata.
    pub repository: Option<RepositoryInfo>,
    /// The ADRs.
    pub adrs: Vec<JsonAdr>,
}

/// Single ADR wrapper for JSON-ADR format (used for single ADR import/export).
#[derive(Debug)]
pub struct JsonAdrSingle {
    /// JSON Schema reference.
    pub schema: Option<String>,
    /// JSON-ADR version.
    pub version: String,
    /// The ADR.
    pub adr: JsonAdr,
}

/// The current UTC time in RFC 3339 format (`OffsetDateTime::now_utc`
/// formatted with `Rfc3339`; empty if formatting fails). Nothing is stated
/// of the text: it depends on the clock.
#[verifier::external_body]
fn now_rfc3339() -> (r: String) {
    time::OffsetDateTime::now_utc().format(&time::format_description::well_known::Rfc3339).unwrap_or_default()
}

impl JsonAdrBulkExport {
    /// Create a new bulk export with default metadata: the schema, the
    /// format version, the generation time and the tool; no repository.
    pub fn new(adrs: Vec<JsonAdr>) -> (r: Self)
        ensures
            r.schema matches Some(s) && s@ == JSON_ADR_SCHEMA@,
            r.version@ == JSON_ADR_VERSION@,
            r.generated_at is Some,
            r.tool matches Some(t) && t.name@ == TOOL_NAME@ && t.version@ == TOOL_VERSION@,
            r.repository is None,
            r.adrs@ == adrs@,
    {
        JsonAdrBulkExport {
            schema: Some(owned(JSON_ADR_SCHEMA)),
            version: owned(JSON_ADR_VERSION),
            generated_at: Some(now_rfc3339()),
            tool: Some(ToolInfo { name: owned(TOOL_NAME), version: owned(TOOL_VERSION) }),
            repository: None,
            adrs,
        }
    }

    /// Set repository metadata.
    pub fn with_repository(self, name: Option<String>, adr_directory: String) -> (r: Self)
        ensures
            r.repository matches Some(ri) && opt_str_view(ri.name) == opt_str_view(name)
                && ri.adr_directory@ == adr_directory@,
            r.schema == self.schema,
            r.version == self.version,
            r.generated_at == self.generated_at,
            r.tool == self.tool,
            r.adrs == self.adrs,
    {
        JsonAdrBulkExport { repository: Some(RepositoryInfo { name, adr_directory }), ..self }
    }
}

/// Export all ADRs from a repository to JSON-ADR format, in order of their
/// numbers, with the ADR directory as repository metadata.
pub fn export_repository(repo: &Repository) -> (r: JsonAdrBulkExport)
    ensures
        r.adrs@.map_values(|j: JsonAdr| j@) == records(repo@.files).map_values(|a: AdrV| json_adr(a)),
        r.repository matches Some(ri) && ri.name is None && ri.adr_directory@ == repo@.config.adr_dir,
        r.schema matches Some(s) && s@ == JSON_ADR_SCHEMA@,
        r.version@ == JSON_ADR_VERSION@,
        r.generated_at is Some,
        r.tool matches Some(t) && t.name@ == TOOL_NAME@ && t.version@ == TOOL_VERSION@,
{
    let adrs = repo.list();
    let ghost av = adrs@.map_values(|a: Adr| a@);
    let mut out: Vec<JsonAdr> = Vec::new();
    let mut i: usize = 0;
    while i < adrs.len()
        invariant
            i <= adrs@.len(),
            av == adrs@.map_values(|a: Adr| a@),
            out@.map_values(|j: JsonAdr| j@) == av.map_values(|a: AdrV| json_adr(a)).take(i as int),
        decreases adrs@.len() - i,
    {
        let ghost before = out@;
        let j = JsonAdr::from_adr(&adrs[i]);
        out.push(j);
        proof {
            assert(out@.map_values(|j: JsonAdr| j@) =~= before.map_values(|j: JsonAdr| j@).push(j@));
            assert(av.map_values(|a: AdrV| json_adr(a)).take(i + 1) =~= av.map_values(|a: AdrV| json_adr(a)).take(
                i as int,
            ).push(j@));
        }
        i += 1;
    }
    proof {
        assert(av.map_values(|a: AdrV| json_adr(a)).take(adrs@.len() as int) =~= av.map_values(
            |a: AdrV| json_adr(a),
        ));
    }
    let dir = clone_string(&repo.config().adr_dir);
    let ghost ov = out@;
    let export = JsonAdrBulkExport::new(out);
    proof {
        assert(export.adrs@ == ov);
    }
    export.with_repository(None, dir)
}


/// The view of a file read for export: its path, and the ADR read from it
/// or the text of the error reading it gave.
pub type ReadFileV = (Seq<char>, Result<AdrV, Seq<char>>);

pub open spec fn read_file_view(f: (String, Result<Adr, String>)) -> ReadFileV {
    (
        f.0@,
        match f.1 {
            Ok(a) => Ok(a@),
            Err(e) => Err(e@),
        },
    )
}

pub open spec fn read_files_view(fs: Seq<(String, Result<Adr, String>)>) -> Seq<ReadFileV> {
    fs.map_values(|f: (String, Result<Adr, String>)| read_file_view(f))
}

/// Inserts `x` after every file whose path does not come after its path.
pub open spec fn insert_by_path(s: Seq<ReadFileV>, x: ReadFileV) -> Seq<ReadFileV>
    decreases s.len(),
{
    if s.len() == 0 {
        seq![x]
    } else if comps_order(path_components(s.last().0), path_components(x.0)) > 0 {
        insert_by_path(s.drop_last(), x).push(s.last())
    } else {
        s.push(x)
    }
}

/// The files in order of their paths; files with equal paths keep their
/// order.
pub open spec fn sort_by_path(s: Seq<ReadFileV>) -> Seq<ReadFileV>
    decreases s.len(),
{
    if s.len() == 0 {
        seq![]
    } else {
        insert_by_path(sort_by_path(s.drop_last()), s.last())
    }
}

/// The JSON-ADR records of the files that were read.
pub open spec fn read_records(s: Seq<ReadFileV>) -> Seq<JsonAdrV>
    decreases s.len(),
{
    if s.len() == 0 {
        seq![]
    } else {
        read_records(s.drop_last()) + match s.last().1 {
            Ok(a) => seq![json_adr(a)],
            Err(_) => seq![],
        }
    }
}

/// A warning for each file that could not be read.
pub open spec fn read_warnings(s: Seq<ReadFileV>) -> Seq<Seq<char>>
    decreases s.len(),
{
    if s.len() == 0 {
        seq![]
    } else {
        read_warnings(s.drop_last()) + match s.last().1 {
            Ok(_) => seq![],
            Err(e) => seq!["Failed to parse "@ + s.last().0 + ": "@ + e],
        }
    }
}

proof fn lemma_insert_by_path_at(s: Seq<ReadFileV>, x: ReadFileV, pos: int)
    requires
        0 <= pos <= s.len(),
        forall|k: int|
            pos <= k < s.len() ==> comps_order(path_components(#[trigger] s[k].0), path_components(x.0)) > 0,
        pos > 0 ==> comps_order(path_components(s[pos - 1].0), path_components(x.0)) <= 0,
    ensures
        insert_by_path(s, x) == s.insert(pos, x),
    decreases s.len(),
{
    if s.len() == 0 {
        assert(s.insert(pos, x) =~= seq![x]);
    } else if pos == s.len() {
        assert(s.insert(pos, x) =~= s.push(x));
    } else {
        assert(comps_order(path_components(s[s.len() - 1].0), path_components(x.0)) > 0);
        lemma_insert_by_path_at(s.drop_last(), x, pos);
        assert(s.drop_last().insert(pos, x).push(s.last()) =~= s.insert(pos, x));
    }
}

/// Exports the files read from the directory `dir`: in order of their
/// paths, each file that was read becomes a JSON-ADR record and each file
/// that could not be read a warning, with `dir` as repository metadata.
pub fn export_read_files(dir: &str, files: Vec<(String, Result<Adr, String>)>) -> (r: (
    JsonAdrBulkExport,
    Vec<String>,
))
    ensures
        r.0.adrs@.map_values(|j: JsonAdr| j@) == read_records(sort_by_path(read_files_view(files@))),
        r.1@.map_values(|w: String| w@) == read_warnings(sort_by_path(read_files_view(files@))),
        r.0.repository matches Some(ri) && ri.name is None && ri.adr_directory@ == dir@,
        r.0.schema matches Some(s) && s@ == JSON_ADR_SCHEMA@,
        r.0.version@ == JSON_ADR_VERSION@,
        r.0.generated_at is Some,
        r.0.tool matches Some(t) && t.name@ == TOOL_NAME@ && t.version@ == TOOL_VERSION@,
{
    let ghost fv = read_files_view(files@);
    let total = files.len();
    let mut rest = files;
    let mut sorted: Vec<(String, Result<Adr, String>)> = Vec::new();
    let mut i: usize = 0;
    proof {
        assert(fv.take(0) =~= Seq::<ReadFileV>::empty());
        assert(read_files_view(sorted@) =~= Seq::<ReadFileV>::empty());
        assert(read_files_view(rest@) =~= fv.skip(0));
    }
    while i < total
        invariant
            i <= total,
            total == fv.len(),
            read_files_view(rest@) == fv.skip(i as int),
            read_files_view(sorted@) == sort_by_path(fv.take(i as int)),
        decreases total - i,
    {
        let ghost rb = rest@;
        assert(rb.len() == total - i) by {
            assert(read_files_view(rb).len() == fv.skip(i as int).len());
        }
        let x = rest.remove(0);
        proof {
            assert(read_file_view(x) == fv[i as int]) by {
                assert(read_files_view(rb)[0] == fv.skip(i as int)[0]);
            }
            assert(read_files_view(rest@) =~= fv.skip(i + 1)) by {
                assert(rest@ =~= rb.remove(0));
                assert forall|j: int| 0 <= j < rest@.len() implies read_files_view(rest@)[j] == fv.skip(
                    i + 1,
                )[j] by {
                    assert(rest@[j] == rb[j + 1]);
                    assert(read_files_view(rb)[j + 1] == fv.skip(i as int)[j + 1]);
                }
            }
        }
        let ghost sv = read_files_view(sorted@);
        let mut pos: usize = sorted.len();
        while pos > 0 && compare_paths(sorted[pos - 1].0.as_str(), x.0.as_str()) > 0
            invariant
                pos <= sorted@.len(),
                sv == read_files_view(sorted@),
                forall|k: int|
                    pos <= k < sv.len() ==> comps_order(path_components(#[trigger] sv[k].0), path_components(x.0@))
                        > 0,
            decreases pos,
        {
            pos -= 1;
        }
        proof {
            lemma_insert_by_path_at(sv, read_file_view(x), pos as int);
            assert(fv.take(i + 1).drop_last() =~= fv.take(i as int));
            assert(fv.take(i + 1).last() == fv[i as int]);
        }
        sorted.insert(pos, x);
        proof {
            assert(read_files_view(sorted@) =~= sv.insert(pos as int, fv[i as int]));
        }
        i += 1;
    }
    proof {
        assert(fv.take(total as int) =~= fv);
    }
    let ghost sv = read_files_view(sorted@);
    let mut adrs: Vec<JsonAdr> = Vec::new();
    let mut warnings: Vec<String> = Vec::new();
    let mut k: usize = 0;
    proof {
        assert(sv.take(0) =~= Seq::<ReadFileV>::empty());
    }
    while k < sorted.len()
        invariant
            k <= sorted@.len(),
            sv == read_files_view(sorted@),
            adrs@.map_values(|j: JsonAdr| j@) == read_records(sv.take(k as int)),
            warnings@.map_values(|w: String| w@) == read_warnings(sv.take(k as int)),
        decreases sorted@.len() - k,
    {
        proof {
            assert(sv.take(k + 1).drop_last() =~= sv.take(k as int));
            assert(sv.take(k + 1).last() == sv[k as int]);
        }
        let ghost ab = adrs@;
        let ghost wb = warnings@;
        match &sorted[k].1 {
            Ok(adr) => {
                let j = JsonAdr::from_adr(adr);
                adrs.push(j);
                proof {
                    assert(adrs@.map_values(|j: JsonAdr| j@) =~= ab.map_values(|j: JsonAdr| j@).push(j@));
                    assert(warnings@.map_values(|w: String| w@) =~= wb.map_values(|w: String| w@) + Seq::<
                        Seq<char>,
                    >::empty());
                }
            },
            Err(e) => {
                let mut m: Vec<char> = Vec::new();
                push_str_chars(&mut m, "Failed to parse ");
                push_str_chars(&mut m, sorted[k].0.as_str());
                push_str_chars(&mut m, ": ");
                push_str_chars(&mut m, e.as_str());
                let w = string_from(m.as_slice());
                warnings.push(w);
                proof {
                    assert(warnings@.map_values(|w: String| w@) =~= wb.map_values(|w: String| w@).push(w@));
                    assert(adrs@.map_values(|j: JsonAdr| j@) =~= ab.map_values(|j: JsonAdr| j@) + Seq::<
                        JsonAdrV,
                    >::empty());
                }
            },
        }
        k += 1;
    }
    proof {
        assert(sv.take(sorted@.len() as int) =~= sv);
    }
    let ghost av = adrs@;
    let export = JsonAdrBulkExport::new(adrs);
    proof {
        assert(export.adrs@ == av);
    }
    (export.with_repository(None, owned(dir)), warnings)
}


// ---------------------------------------------------------------------------
// Importing
// ---------------------------------------------------------------------------
/// Options for importing ADRs.
#[derive(Debug, Clone, Copy)]
pub struct ImportOptions {
    /// Overwrite existing files.
    pub overwrite: bool,
    /// Renumber ADRs starting from the next available number.
    pub renumber: bool,
    /// Preview import without writing files.
    pub dry_run: bool,
    /// Use next-gen mode (YAML frontmatter).
    pub ng_mode: bool,
}

impl Default for ImportOptions {
    fn default() -> (r: Self)
        ensures
            !r.overwrite && !r.renumber && !r.dry_run && !r.ng_mode,
    {
        ImportOptions { overwrite: false, renumber: false, dry_run: false, ng_mode: false }
    }
}

/// The view of an import's result.
pub struct ImportResultV {
    pub imported: nat,
    pub skipped: nat,
    pub files: Seq<Seq<char>>,
    pub warnings: Seq<Seq<char>>,
    pub renumber_map: Seq<(u32, u32)>,
}

/// Result of an import operation.
#[derive(Debug)]
pub struct ImportResult {
    /// Number of ADRs successfully imported.
    pub imported: usize,
    /// Number of ADRs skipped (already exist).
    pub skipped: usize,
    /// Paths of imported files.
    pub files: Vec<String>,
    /// Warnings encountered during import.
    pub warnings: Vec<String>,
    /// Mapping of old numbers to new numbers (when renumbering).
    pub renumber_map: Vec<(u32, u32)>,
}

impl View for ImportResult {
    type V = ImportResultV;

    open spec fn view(&self) -> ImportResultV {
        ImportResultV {
            imported: self.imported as nat,
            skipped: self.skipped as nat,
            files: strings_view(self.files@),
            warnings: strings_view(self.warnings@),
            renumber_map: self.renumber_map@,
        }
    }
}

/// The record a JSON-ADR record stands for, dated `date` when its own date
/// does not parse: an unknown status becomes a custom one, link types are
/// read with `link_kind_of_type`, and missing sections are empty.
pub open spec fn adr_of_json(j: JsonAdrV, date: Date) -> AdrV {
    AdrV {
        number: j.number,
        title: j.title,
        date: match crate::types::parse_date_spec(j.date) {
            Some(d) => d,
            None => date,
        },
        status: status_from_str(j.status),
        links: j.links.map_values(
            |l: JsonAdrLinkV| AdrLinkV { target: l.target, kind: link_kind_of_type(l.link_type), description: l.description },
        ),
        decision_makers: j.deciders,
        consulted: j.consulted,
        informed: j.informed,
        tags: j.tags,
        context: match j.context {
            Some(c) => c,
            None => seq![],
        },
        decision: match j.decision {
            Some(c) => c,
            None => seq![],
        },
        consequences: match j.consequences {
            Some(c) => c,
            None => seq![],
        },
        path: None,
    }
}

fn string_or_empty(s: &Option<String>) -> (r: String)
    ensures
        r@ == match opt_str_view(*s) {
            Some(c) => c,
            None => Seq::<char>::empty(),
        },
{
    match s {
        Some(c) => clone_string(c),
        None => String::new(),
    }
}

/// Convert a JSON-ADR record back to an ADR for rendering; a date that
/// does not parse becomes today's date.
pub fn json_adr_to_adr(json_adr: &JsonAdr) -> (r: Adr)
    ensures
        r@ == adr_of_json(json_adr@, r.date),
{
    let date = match Date::parse_iso(json_adr.date.as_str()) {
        Some(d) => d,
        None => today(),
    };
    let ghost lv = json_adr@.links;
    let mut links: Vec<AdrLink> = Vec::new();
    let mut i: usize = 0;
    while i < json_adr.links.len()
        invariant
            i <= json_adr.links@.len(),
            lv == json_adr@.links,
            crate::types::links_view(links@) == lv.map_values(
                |l: JsonAdrLinkV| AdrLinkV { target: l.target, kind: link_kind_of_type(l.link_type), description: l.description },
            ).take(i as int),
        decreases json_adr.links@.len() - i,
    {
        let ghost before = links@;
        let jl = &json_adr.links[i];
        let l = AdrLink {
            target: jl.target,
            kind: string_to_link_kind(jl.link_type.as_str()),
            description: clone_opt_string(&jl.description),
        };
        links.push(l);
        proof {
            assert(crate::types::links_view(links@) =~= crate::types::links_view(before).push(l@));
            assert(lv.map_values(
                |l: JsonAdrLinkV| AdrLinkV { target: l.target, kind: link_kind_of_type(l.link_type), description: l.description },
            ).take(i + 1) =~= lv.map_values(
                |l: JsonAdrLinkV| AdrLinkV { target: l.target, kind: link_kind_of_type(l.link_type), description: l.description },
            ).take(i as int).push(l@));
        }
        i += 1;
    }
    proof {
        assert(lv.map_values(
            |l: JsonAdrLinkV| AdrLinkV { target: l.target, kind: link_kind_of_type(l.link_type), description: l.description },
        ).take(json_adr.links@.len() as int) =~= lv.map_values(
            |l: JsonAdrLinkV| AdrLinkV { target: l.target, kind: link_kind_of_type(l.link_type), description: l.description },
        ));
    }
    Adr {
        number: json_adr.number,
        title: clone_string(&json_adr.title),
        date,
        status: AdrStatus::parse_str(json_adr.status.as_str()),
        links,
        decision_makers: clone_strings(&json_adr.deciders),
        consulted: clone_strings(&json_adr.consulted),
        informed: clone_strings(&json_adr.informed),
        tags: clone_strings(&json_adr.tags),
        context: string_or_empty(&json_adr.context),
        decision: string_or_empty(&json_adr.decision),
        consequences: string_or_empty(&json_adr.consequences),
        path: None,
    }
}

/// Exporting a record to JSON-ADR and converting it back gives the record
/// again, without its path, for the built-in statuses and link kinds: the
/// number, title, status, links, people, tags and sections are kept (the
/// date is read back from its ISO text).
pub proof fn law_json_round_trip(a: AdrV, d: Date)
    requires
        !(a.status is Custom),
        forall|i: int| 0 <= i < a.links.len() ==> !(#[trigger] a.links[i].kind is Custom),
    ensures
        adr_of_json(json_adr(a), d) == (AdrV { date: adr_of_json(json_adr(a), d).date, path: None, ..a }),
{
    let j = json_adr(a);
    let b = adr_of_json(j, d);
    crate::types::lemma_status_text_roundtrip(a.status);
    let back = j.links.map_values(
        |l: JsonAdrLinkV| AdrLinkV { target: l.target, kind: link_kind_of_type(l.link_type), description: l.description },
    );
    assert forall|i: int| 0 <= i < a.links.len() implies #[trigger] back[i] == a.links[i] by {
        law_link_type_roundtrip(a.links[i].kind);
    }
    assert(back =~= a.links);
    assert(b.context == a.context);
    assert(b.decision == a.decision);
    assert(b.consequences == a.consequences);
}

/// The number a file name in the target directory carries: a name longer
/// than four characters ending in `.md` whose first four characters parse
/// as a number.
pub open spec fn name_number(name: Seq<char>) -> Option<u32> {
    if name.len() > 4 && ends_with_spec(name, ".md"@) {
        parse_u32_spec(name.take(4))
    } else {
        None
    }
}

/// The largest number the names carry (0 when none does).
pub open spec fn max_name_number(names: Seq<Seq<char>>) -> u32
    decreases names.len(),
{
    if names.len() == 0 {
        0
    } else {
        let m = max_name_number(names.drop_last());
        match name_number(names.last()) {
            Some(n) => if n > m {
                n
            } else {
                m
            },
            None => m,
        }
    }
}

proof fn lemma_max_name_number_bound(names: Seq<Seq<char>>)
    ensures
        max_name_number(names) <= 9999,
    decreases names.len(),
{
    if names.len() > 0 {
        lemma_max_name_number_bound(names.drop_last());
        let l = names.last();
        if name_number(l) is Some {
            crate::text::lemma_parse_u32_small(l.take(4));
        }
    }
}

/// Find the next available ADR number among the names in a directory:
/// one past the largest number a name carries.
pub fn find_next_number(names: &Vec<String>) -> (r: u32)
    ensures
        r == max_name_number(strings_view(names@)) + 1,
{
    let ghost nv = strings_view(names@);
    let mut max_number: u32 = 0;
    let mut i: usize = 0;
    proof {
        assert(nv.take(0) =~= Seq::<Seq<char>>::empty());
    }
    while i < names.len()
        invariant
            i <= names@.len(),
            nv == strings_view(names@),
            max_number == max_name_number(nv.take(i as int)),
        decreases names@.len() - i,
    {
        proof {
            assert(nv.take(i + 1).drop_last() =~= nv.take(i as int));
            assert(nv.take(i + 1).last() == names@[i as int]@);
        }
        let c = chars_of(names[i].as_str());
        if c.len() > 4 && ends_with_str(c.as_slice(), ".md") {
            let head = slice_vec(c.as_slice(), 0, 4);
            proof {
                assert(head@ =~= c@.take(4));
            }
            match parse_u32(head.as_slice()) {
                Some(n) => {
                    if n > max_number {
                        max_number = n;
                    }
                },
                None => {},
            }
        }
        i += 1;
    }
    proof {
        assert(nv.take(names@.len() as int) =~= nv);
        lemma_max_name_number_bound(nv);
    }
    max_number + 1
}


/// The new number of an imported ADR: the last pair of the renumber map
/// for its old number (later pairs take precedence, as in a map built from
/// the pairs in order).
pub open spec fn map_lookup(m: Seq<(u32, u32)>, old: u32) -> Option<u32>
    decreases m.len(),
{
    if m.len() == 0 {
        None
    } else if m.last().0 == old {
        Some(m.last().1)
    } else {
        map_lookup(m.drop_last(), old)
    }
}

/// The links with their targets renumbered; a target outside the import
/// set stays.
pub open spec fn remapped_links(links: Seq<AdrLinkV>, m: Seq<(u32, u32)>) -> Seq<AdrLinkV> {
    links.map_values(|l: AdrLinkV| match map_lookup(m, l.target) {
        Some(t) => AdrLinkV { target: t, ..l },
        None => l,
    })
}

pub open spec fn broken_import_warning(n: u32, t: u32) -> Seq<char> {
    "ADR "@ + decimal(n as nat) + " links to ADR "@ + decimal(t as nat) + " which is not in the import set"@
}

/// A warning for each link whose target is outside the import set.
pub open spec fn remap_warnings(n: u32, links: Seq<AdrLinkV>, m: Seq<(u32, u32)>) -> Seq<Seq<char>>
    decreases links.len(),
{
    if links.len() == 0 {
        seq![]
    } else {
        let rest = remap_warnings(n, links.drop_last(), m);
        if map_lookup(m, links.last().target) is None {
            rest.push(broken_import_warning(n, links.last().target))
        } else {
            rest
        }
    }
}

pub open spec fn skipped_warning(filename: Seq<char>) -> Seq<char> {
    "Skipped "@ + filename + ": file already exists (use --overwrite to replace)"@
}

/// The progress of an import: the counts, files and warnings so far, the
/// files to write, and the names present in the directory.
pub struct ImportStateV {
    pub imported: nat,
    pub skipped: nat,
    pub files: Seq<Seq<char>>,
    pub warnings: Seq<Seq<char>>,
    pub writes: Seq<(Seq<char>, Seq<char>)>,
    pub present: Seq<Seq<char>>,
}

/// What the default template renders for an imported ADR.
pub open spec fn import_render(a: AdrV, ng: bool) -> Result<Seq<char>, Seq<char>> {
    let t = crate::template::builtin_view(crate::template::TemplateFormat::Nygard, crate::template::TemplateVariant::Full);
    jinja_output(t.name, t.content, render_context(a, ng))
}

/// One ADR of an import: renumber its links (when renumbering), then skip
/// it if its file exists and may not be overwritten, else render it and
/// (unless it is a dry run) write it.
pub open spec fn import_step(st: ImportStateV, a: AdrV, opts: ImportOptions, dir: Seq<char>, m: Seq<(u32, u32)>) -> Result<ImportStateV, Seq<char>> {
    let warned = if opts.renumber {
        st.warnings + remap_warnings(a.number, a.links, m)
    } else {
        st.warnings
    };
    let a2 = if opts.renumber {
        AdrV { links: remapped_links(a.links, m), ..a }
    } else {
        a
    };
    let filename = filename_spec(a2.number, a2.title);
    let path = join_spec(dir, filename);
    if st.present.contains(filename) && !opts.overwrite {
        Ok(ImportStateV { skipped: st.skipped + 1, warnings: warned.push(skipped_warning(filename)), ..st })
    } else {
        match import_render(a2, opts.ng_mode) {
            Err(e) => Err(e),
            Ok(t) => Ok(ImportStateV {
                imported: st.imported + 1,
                files: st.files.push(path),
                warnings: warned,
                writes: if opts.dry_run {
                    st.writes
                } else {
                    st.writes.push((path, t))
                },
                present: if opts.dry_run {
                    st.present
                } else {
                    st.present.push(filename)
                },
                ..st
            }),
        }
    }
}

/// The import of the given ADRs, one after another; the first rendering
/// error ends it.
pub open spec fn import_all(adrs: Seq<AdrV>, st: ImportStateV, opts: ImportOptions, dir: Seq<char>, m: Seq<(u32, u32)>) -> Result<ImportStateV, Seq<char>>
    decreases adrs.len(),
{
    if adrs.len() == 0 {
        Ok(st)
    } else {
        match import_all(adrs.drop_last(), st, opts, dir, m) {
            Err(e) => Err(e),
            Ok(s) => import_step(s, adrs.last(), opts, dir, m),
        }
    }
}

/// The ADRs prepared for import from JSON-ADR records dated `dates` (used
/// where a record's date does not parse): renumbered from `next` when
/// renumbering.
pub open spec fn prepared(js: Seq<JsonAdrV>, dates: Seq<Date>, renumber: bool, next: u32) -> Seq<AdrV> {
    Seq::new(js.len(), |i: int| {
        let a = adr_of_json(js[i], dates[i]);
        if renumber {
            AdrV { number: (next + i) as u32, ..a }
        } else {
            a
        }
    })
}

/// The renumber map: each record's old number and its new one.
pub open spec fn renumber_pairs(js: Seq<JsonAdrV>, renumber: bool, next: u32) -> Seq<(u32, u32)> {
    if renumber {
        Seq::new(js.len(), |i: int| (js[i].number, (next + i) as u32))
    } else {
        seq![]
    }
}

fn lookup_new_number(m: &Vec<(u32, u32)>, old: u32) -> (r: Option<u32>)
    ensures
        r == map_lookup(m@, old),
{
    let mut k: usize = m.len();
    proof {
        assert(m@.take(m@.len() as int) =~= m@);
    }
    while k > 0
        invariant
            k <= m@.len(),
            map_lookup(m@, old) == map_lookup(m@.take(k as int), old),
        decreases k,
    {
        proof {
            assert(m@.take(k as int).drop_last() =~= m@.take(k - 1));
            assert(m@.take(k as int).last() == m@[k - 1]);
        }
        if m[k - 1].0 == old {
            return Some(m[k - 1].1);
        }
        k -= 1;
    }
    proof {
        assert(m@.take(0) =~= Seq::<(u32, u32)>::empty());
    }
    None
}

fn names_contain(names: &Vec<String>, name: &String) -> (r: bool)
    ensures
        r == strings_view(names@).contains(name@),
{
    let ghost nv = strings_view(names@);
    let nc = chars_of(name.as_str());
    let mut i: usize = 0;
    while i < names.len()
        invariant
            i <= names@.len(),
            nv == strings_view(names@),
            nc@ == name@,
            forall|k: int| 0 <= k < i ==> #[trigger] nv[k] != name@,
        decreases names@.len() - i,
    {
        let c = chars_of(names[i].as_str());
        if crate::text::eq_vec(c.as_slice(), nc.as_slice()) {
            proof {
                assert(nv[i as int] == name@);
            }
            return true;
        }
        i += 1;
    }
    false
}


fn remap_adr_links(adr: &mut Adr, m: &Vec<(u32, u32)>, warnings: &mut Vec<String>)
    ensures
        final(adr)@ == (AdrV { links: remapped_links(old(adr)@.links, m@), ..old(adr)@ }),
        strings_view(final(warnings)@) == strings_view(old(warnings)@) + remap_warnings(
            old(adr)@.number,
            old(adr)@.links,
            m@,
        ),
{
    let ghost lv = adr@.links;
    let ghost w0 = strings_view(warnings@);
    let mut out: Vec<AdrLink> = Vec::new();
    let mut k: usize = 0;
    proof {
        assert(lv.take(0) =~= Seq::<AdrLinkV>::empty());
        assert(w0 + remap_warnings(adr@.number, lv.take(0), m@) =~= w0);
    }
    while k < adr.links.len()
        invariant
            k <= adr.links@.len(),
            adr@ == old(adr)@,
            lv == adr@.links,
            links_view(out@) == remapped_links(lv, m@).take(k as int),
            strings_view(warnings@) == w0 + remap_warnings(adr@.number, lv.take(k as int), m@),
        decreases adr.links@.len() - k,
    {
        proof {
            assert(lv.take(k + 1).drop_last() =~= lv.take(k as int));
            assert(lv.take(k + 1).last() == lv[k as int]);
            assert(lv[k as int] == adr.links@[k as int]@);
        }
        let mut l = adr.links[k].clone();
        let ghost ob = out@;
        match lookup_new_number(m, l.target) {
            Some(nt) => {
                l.target = nt;
            },
            None => {
                let ghost wb = strings_view(warnings@);
                let mut w: Vec<char> = Vec::new();
                push_str_chars(&mut w, "ADR ");
                let d1 = decimal_chars(adr.number);
                push_all(&mut w, d1.as_slice());
                push_str_chars(&mut w, " links to ADR ");
                let d2 = decimal_chars(l.target);
                push_all(&mut w, d2.as_slice());
                push_str_chars(&mut w, " which is not in the import set");
                let ws = string_from(w.as_slice());
                warnings.push(ws);
                proof {
                    assert(strings_view(warnings@) =~= wb.push(ws@));
                }
            },
        }
        out.push(l);
        proof {
            assert(remapped_links(lv, m@)[k as int] == l@);
            assert(links_view(out@) =~= links_view(ob).push(l@));
            assert(remapped_links(lv, m@).take(k + 1) =~= remapped_links(lv, m@).take(k as int).push(l@));
        }
        k += 1;
    }
    proof {
        assert(lv.take(lv.len() as int) =~= lv);
        assert(remapped_links(lv, m@).take(lv.len() as int) =~= remapped_links(lv, m@));
    }
    adr.links = out;
}

fn import_one(
    adr: Adr,
    options: &ImportOptions,
    dir: &str,
    m: &Vec<(u32, u32)>,
    engine: &TemplateEngine,
    config: &Config,
    imported: &mut usize,
    skipped: &mut usize,
    files: &mut Vec<String>,
    warnings: &mut Vec<String>,
    writes: &mut Vec<(String, String)>,
    present: &mut Vec<String>,
) -> (r: Result<(), Error>)
    requires
        *old(imported) < usize::MAX,
        *old(skipped) < usize::MAX,
        config.mode == (if options.ng_mode { ConfigMode::NextGen } else { ConfigMode::Compatible }),
        engine@ == (crate::template::TemplateEngineV {
            default_format: crate::template::TemplateFormat::Nygard,
            default_variant: crate::template::TemplateVariant::Full,
            custom_template: None,
        }),
    ensures
        ({
            let st = ImportStateV {
                imported: *old(imported) as nat,
                skipped: *old(skipped) as nat,
                files: strings_view(old(files)@),
                warnings: strings_view(old(warnings)@),
                writes: old(writes)@.map_values(|p: (String, String)| (p.0@, p.1@)),
                present: strings_view(old(present)@),
            };
            match import_step(st, adr@, *options, dir@, m@) {
                Ok(s2) => r is Ok && s2 == (ImportStateV {
                    imported: *final(imported) as nat,
                    skipped: *final(skipped) as nat,
                    files: strings_view(final(files)@),
                    warnings: strings_view(final(warnings)@),
                    writes: final(writes)@.map_values(|p: (String, String)| (p.0@, p.1@)),
                    present: strings_view(final(present)@),
                }),
                Err(e) => r matches Err(Error::TemplateError(msg)) && msg@ == e,
            }
        }),
        *final(imported) <= *old(imported) + 1,
        *final(skipped) <= *old(skipped) + 1,
{
    let mut adr = adr;
    if options.renumber {
        remap_adr_links(&mut adr, m, warnings);
    }
    let filename = adr.filename();
    let filepath = join(dir, filename.as_str());
    if names_contain(present, &filename) && !options.overwrite {
        *skipped = *skipped + 1;
        let mut w: Vec<char> = Vec::new();
        push_str_chars(&mut w, "Skipped ");
        push_str_chars(&mut w, filename.as_str());
        push_str_chars(&mut w, ": file already exists (use --overwrite to replace)");
        let ghost wb = warnings@;
        let ws = string_from(w.as_slice());
        warnings.push(ws);
        proof {
            assert(strings_view(warnings@) =~= strings_view(wb).push(ws@));
        }
        Ok(())
    } else {
        let content = match engine.render(&adr, config) {
            Ok(c) => c,
            Err(e) => return Err(e),
        };
        if !options.dry_run {
            let ghost wb = writes@;
            let ghost pb = present@;
            let ghost cv = content@;
            writes.push((clone_string(&filepath), content));
            present.push(clone_string(&filename));
            proof {
                assert(writes@.map_values(|p: (String, String)| (p.0@, p.1@)) =~= wb.map_values(
                    |p: (String, String)| (p.0@, p.1@),
                ).push((filepath@, cv)));
                assert(strings_view(present@) =~= strings_view(pb).push(filename@));
            }
        }
        *imported = *imported + 1;
        let ghost fb = files@;
        let ghost fp = filepath@;
        files.push(filepath);
        proof {
            assert(strings_view(files@) =~= strings_view(fb).push(fp));
        }
        Ok(())
    }
}

/// Imports JSON-ADR records into the directory `dir`, whose entries are
/// named `existing`: renumbers them from the next free number when asked,
/// rewrites links inside the import set, skips records whose file exists
/// (unless overwriting), and renders the rest with the default template.
/// Returns the result and the files to write (none in a dry run).
#[verifier::rlimit(50)]
pub fn import_to_directory(
    json_adrs: &Vec<JsonAdr>,
    dir: &str,
    options: &ImportOptions,
    existing: &Vec<String>,
) -> (r: Result<(ImportResult, Vec<(String, String)>), Error>)
    requires
        options.renumber ==> max_name_number(strings_view(existing@)) + 1 + json_adrs@.len() <= u32::MAX,
    ensures
        ({
            let js = json_adrs@.map_values(|j: JsonAdr| j@);
            let next = if options.renumber {
                (max_name_number(strings_view(existing@)) + 1) as u32
            } else {
                0u32
            };
            let m = renumber_pairs(js, options.renumber, next);
            let st0 = ImportStateV {
                imported: 0,
                skipped: 0,
                files: seq![],
                warnings: seq![],
                writes: seq![],
                present: strings_view(existing@),
            };
            exists|dates: Seq<Date>|
                dates.len() == js.len() && match import_all(prepared(js, dates, options.renumber, next), st0, *options, dir@, m) {
                    Ok(st) => r matches Ok((res, w)) && res@ == (ImportResultV {
                        imported: st.imported,
                        skipped: st.skipped,
                        files: st.files,
                        warnings: st.warnings,
                        renumber_map: m,
                    }) && w@.map_values(|p: (String, String)| (p.0@, p.1@)) == st.writes,
                    Err(e) => r matches Err(Error::TemplateError(msg)) && msg@ == e,
                }
        }),
{
    let ghost js = json_adrs@.map_values(|j: JsonAdr| j@);
    let next_number: u32 = if options.renumber {
        find_next_number(existing)
    } else {
        0
    };
    proof {
        lemma_max_name_number_bound(strings_view(existing@));
    }
    // First pass: the records, renumbered when asked.
    let mut renumber_map: Vec<(u32, u32)> = Vec::new();
    let mut adrs: Vec<Adr> = Vec::new();
    let ghost mut dates: Seq<Date> = seq![];
    let mut i: usize = 0;
    while i < json_adrs.len()
        invariant
            i <= json_adrs@.len(),
            options.renumber ==> next_number + json_adrs@.len() <= u32::MAX,
            js == json_adrs@.map_values(|j: JsonAdr| j@),
            dates.len() == i,
            adrs@.len() == i,
            forall|k: int| 0 <= k < i ==> (#[trigger] adrs@[k])@ == (if options.renumber {
                AdrV { number: (next_number + k) as u32, ..adr_of_json(js[k], dates[k]) }
            } else {
                adr_of_json(js[k], dates[k])
            }),
            renumber_map@ == renumber_pairs(js, options.renumber, next_number).take(
                if options.renumber { i as int } else { 0 },
            ),
        decreases json_adrs@.len() - i,
    {
        let mut adr = json_adr_to_adr(&json_adrs[i]);
        let ghost d = adr.date;
        if options.renumber {
            let old_number = adr.number;
            let new_number = next_number + i as u32;
            adr.number = new_number;
            renumber_map.push((old_number, new_number));
            proof {
                assert(renumber_pairs(js, true, next_number).take(i + 1) =~= renumber_pairs(js, true, next_number).take(i as int).push((old_number, new_number)));
            }
        }
        proof {
            dates = dates.push(d);
        }
        adrs.push(adr);
        i += 1;
    }
    let ghost m = renumber_pairs(js, options.renumber, next_number);
    proof {
        if options.renumber {
            assert(renumber_pairs(js, true, next_number).take(json_adrs@.len() as int) =~= m);
        } else {
            assert(renumber_map@ =~= m);
        }
    }
    let ghost pv = prepared(js, dates, options.renumber, next_number);
    proof {
        assert(next_number == (if options.renumber {
            (max_name_number(strings_view(existing@)) + 1) as u32
        } else {
            0u32
        }));
    }
    proof {
        assert forall|k: int| 0 <= k < adrs@.len() implies (#[trigger] adrs@[k])@ == pv[k] by {}
    }
    let mut config = Config {
        adr_dir: owned(dir),
        mode: if options.ng_mode {
            ConfigMode::NextGen
        } else {
            ConfigMode::Compatible
        },
        templates: TemplateConfig::default(),
    };
    let engine = TemplateEngine::new();
    // Second pass: links, existence, rendering.
    let mut imported: usize = 0;
    let mut skipped: usize = 0;
    let mut files: Vec<String> = Vec::new();
    let mut warnings: Vec<String> = Vec::new();
    let mut writes: Vec<(String, String)> = Vec::new();
    let mut present = clone_strings(existing);
    let ghost st0 = ImportStateV {
        imported: 0,
        skipped: 0,
        files: seq![],
        warnings: seq![],
        writes: seq![],
        present: strings_view(existing@),
    };
    let mut j: usize = 0;
    proof {
        assert(pv.take(0) =~= Seq::<AdrV>::empty());
        assert(strings_view(files@) =~= Seq::<Seq<char>>::empty());
        assert(strings_view(warnings@) =~= Seq::<Seq<char>>::empty());
        assert(writes@.map_values(|p: (String, String)| (p.0@, p.1@)) =~= Seq::<(Seq<char>, Seq<char>)>::empty());
    }
    while j < adrs.len()
        invariant
            j <= adrs@.len(),
            adrs@.len() == pv.len(),
            forall|k: int| 0 <= k < adrs@.len() ==> (#[trigger] adrs@[k])@ == pv[k],
            renumber_map@ == m,
            config.mode == (if options.ng_mode { ConfigMode::NextGen } else { ConfigMode::Compatible }),
            engine@ == (crate::template::TemplateEngineV {
                default_format: crate::template::TemplateFormat::Nygard,
                default_variant: crate::template::TemplateVariant::Full,
                custom_template: None,
            }),
            imported <= j,
            skipped <= j,
            pv == prepared(js, dates, options.renumber, next_number),
            m == renumber_pairs(js, options.renumber, next_number),
            st0 == (ImportStateV {
                imported: 0,
                skipped: 0,
                files: seq![],
                warnings: seq![],
                writes: seq![],
                present: strings_view(existing@),
            }),
            js == json_adrs@.map_values(|j: JsonAdr| j@),
            dates.len() == js.len(),
            max_name_number(strings_view(existing@)) <= 9999,
            next_number == (if options.renumber {
                (max_name_number(strings_view(existing@)) + 1) as u32
            } else {
                0u32
            }),
            import_all(pv.take(j as int), st0, *options, dir@, m) == Ok::<ImportStateV, Seq<char>>(ImportStateV {
                imported: imported as nat,
                skipped: skipped as nat,
                files: strings_view(files@),
                warnings: strings_view(warnings@),
                writes: writes@.map_values(|p: (String, String)| (p.0@, p.1@)),
                present: strings_view(present@),
            }),
        decreases adrs@.len() - j,
    {
        let ghost st = ImportStateV {
            imported: imported as nat,
            skipped: skipped as nat,
            files: strings_view(files@),
            warnings: strings_view(warnings@),
            writes: writes@.map_values(|p: (String, String)| (p.0@, p.1@)),
            present: strings_view(present@),
        };
        proof {
            assert(pv.take(j + 1).drop_last() =~= pv.take(j as int));
            assert(pv.take(j + 1).last() == pv[j as int]);
        }
        let ghost st = ImportStateV {
            imported: imported as nat,
            skipped: skipped as nat,
            files: strings_view(files@),
            warnings: strings_view(warnings@),
            writes: writes@.map_values(|p: (String, String)| (p.0@, p.1@)),
            present: strings_view(present@),
        };
        proof {
            assert(pv.take(j + 1).drop_last() =~= pv.take(j as int));
            assert(pv.take(j + 1).last() == pv[j as int]);
            assert(import_all(pv.take(j + 1), st0, *options, dir@, m) == import_step(st, pv[j as int], *options, dir@, m));
        }
        let adr = adrs[j].clone();
        let step = import_one(
            adr,
            options,
            dir,
            &renumber_map,
            &engine,
            &config,
            &mut imported,
            &mut skipped,
            &mut files,
            &mut warnings,
            &mut writes,
            &mut present,
        );
        match step {
            Ok(()) => {},
            Err(e) => {
                proof {
                    assert(import_step(st, pv[j as int], *options, dir@, m) is Err);
                    assert(pv.take(j as int) =~= pv.take(j + 1 - 1));
                    lemma_import_all_err(pv, st0, *options, dir@, m, j as int + 1);
                    assert(import_all(pv, st0, *options, dir@, m) == import_step(st, pv[j as int], *options, dir@, m));
                    let nxt = if options.renumber {
                        (max_name_number(strings_view(existing@)) + 1) as u32
                    } else {
                        0u32
                    };
                    assert(nxt == next_number);
                    assert(prepared(js, dates, options.renumber, nxt) == pv);
                }
                return Err(e);
            },
        }
        j += 1;
    }
    proof {
        assert(pv.take(adrs@.len() as int) =~= pv);
        assert(prepared(js, dates, options.renumber, next_number) =~= pv);
    }
    let result = ImportResult { imported, skipped, files, warnings, renumber_map };
    Ok((result, writes))
}

proof fn lemma_import_all_err(adrs: Seq<AdrV>, st: ImportStateV, opts: ImportOptions, dir: Seq<char>, m: Seq<(u32, u32)>, j: int)
    requires
        1 <= j <= adrs.len(),
        import_all(adrs.take(j - 1), st, opts, dir, m) is Ok,
        import_step(import_all(adrs.take(j - 1), st, opts, dir, m)->Ok_0, adrs[j - 1], opts, dir, m) is Err,
    ensures
        import_all(adrs, st, opts, dir, m) == import_step(
            import_all(adrs.take(j - 1), st, opts, dir, m)->Ok_0,
            adrs[j - 1],
            opts,
            dir,
            m,
        ),
    decreases adrs.len(),
{
    assert(adrs.take(j).drop_last() =~= adrs.take(j - 1));
    assert(adrs.take(j).last() == adrs[j - 1]);
    if j < adrs.len() {
        assert(adrs.drop_last().take(j - 1) =~= adrs.take(j - 1));
        assert(adrs.drop_last()[j - 1] == adrs[j - 1]);
        lemma_import_all_err(adrs.drop_last(), st, opts, dir, m, j);
    } else {
        assert(adrs.drop_last() =~= adrs.take(j - 1));
    }
}

} // verus!
