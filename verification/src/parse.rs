//! ADR parsing - supports both legacy markdown and YAML frontmatter formats.
//!
//! A legacy (adr-tools) document is parsed here in full. A document with YAML
//! frontmatter is split into its YAML block and its markdown body; the YAML
//! block is decoded into an [`Adr`] by the caller, and
//! [`Parser::finish_frontmatter`] completes it from the body.

use crate::error::Error;
use crate::markdown::{events_view, markdown_events, markdown_events_of, MdEvent, MdEventV};
use crate::paths::{file_name, final_component};
use crate::patterns::{captures_of, captures_str, captures_view};
use crate::text::{
    chars_of, contains_char, eq_str, find_from, find_from_spec, first_word, first_word_of,
    lines, lines_spec, lowercase, normalize_crlf, owned, parse_u32, parse_u32_spec,
    push_all, replace_crlf, slice_vec, starts_with_spec, starts_with_str, string_from,
    strip_all_prefix, strip_prefix, strip_prefix_spec, to_lowercase, trim, trim_spec,
    trim_start_matches,
};
use crate::types::{
    link_kind_from_str, links_view, new_adr_view, parse_date_spec, status_from_str, today, Adr,
    AdrLink, AdrLinkV, AdrStatus, AdrV, Date, LinkKind, LinkKindV, StatusV,
};
use vstd::prelude::*;

verus! {

/// Pattern of a legacy status link line such as
/// `Supersedes [1. Title](0001-title.md)`.
pub const LINK_PATTERN: &'static str = r"^([\w\s]+)\s+\[(\d+)\.\s+[^\]]+\]\((\d{4})-[^)]+\.md\)$";

/// Pattern of an ADR file name, capturing its four-digit number.
pub const NUMBER_PATTERN: &'static str = r"^(\d{4})-.*\.md$";

// ---------------------------------------------------------------------------
// Section names
// ---------------------------------------------------------------------------
/// The ADR body field a section heading maps to.
#[derive(Debug, Clone, Copy, PartialEq, Eq, Structural)]
pub enum SectionField {
    Context,
    Decision,
    Consequences,
}

/// The field of a heading already trimmed and lowercased: Nygard's
/// `context`, `decision`, `consequences` and MADR's `context and problem
/// statement` and `decision outcome`.
pub open spec fn field_of_lower(l: Seq<char>) -> Option<SectionField> {
    if l == "context"@ || l == "context and problem statement"@ {
        Some(SectionField::Context)
    } else if l == "decision"@ || l == "decision outcome"@ {
        Some(SectionField::Decision)
    } else if l == "consequences"@ {
        Some(SectionField::Consequences)
    } else {
        None
    }
}

/// The field a section heading maps to, after trimming and lowercasing it.
pub open spec fn section_field(s: Seq<char>) -> Option<SectionField> {
    field_of_lower(lowercase(trim_spec(s)))
}

/// The lowercase of the trimmed text (how section names are keyed).
pub open spec fn section_key(s: Seq<char>) -> Seq<char> {
    lowercase(trim_spec(s))
}

fn key_of(s: &[char]) -> (r: Vec<char>)
    ensures
        r@ == section_key(s@),
{
    let t = trim(s);
    let ts = string_from(t.as_slice());
    let l = to_lowercase(ts.as_str());
    chars_of(l.as_str())
}

fn field_of_key(l: &[char]) -> (r: Option<SectionField>)
    ensures
        r == field_of_lower(l@),
{
    if eq_str(l, "context") || eq_str(l, "context and problem statement") {
        Some(SectionField::Context)
    } else if eq_str(l, "decision") || eq_str(l, "decision outcome") {
        Some(SectionField::Decision)
    } else if eq_str(l, "consequences") {
        Some(SectionField::Consequences)
    } else {
        None
    }
}

/// Map a section heading to the canonical ADR body field it names.
pub fn canonical_section_field(section: &[char]) -> (r: Option<SectionField>)
    ensures
        r == section_field(section@),
{
    let k = key_of(section);
    field_of_key(k.as_slice())
}

fn is_field(f: Option<SectionField>, g: SectionField) -> (r: bool)
    ensures
        r == (f == Some(g)),
{
    match f {
        Some(x) => match (x, g) {
            (SectionField::Context, SectionField::Context) => true,
            (SectionField::Decision, SectionField::Decision) => true,
            (SectionField::Consequences, SectionField::Consequences) => true,
            _ => false,
        },
        None => false,
    }
}

pub open spec fn pairs_view(v: Seq<(String, String)>) -> Seq<(Seq<char>, Seq<char>)> {
    v.map_values(|p: (String, String)| (p.0@, p.1@))
}

pub open spec fn opt_view(o: Option<String>) -> Option<Seq<char>> {
    crate::types::opt_str_view(o)
}

// ---------------------------------------------------------------------------
// Raw (line-based) section extraction
// ---------------------------------------------------------------------------
/// The state of line-based section extraction.
pub struct RawStateV {
    pub sections: Seq<(Seq<char>, Seq<char>)>,
    pub current: Option<Seq<char>>,
    pub field: Option<SectionField>,
    pub content: Seq<char>,
    pub cons: Seq<char>,
    pub has_cons: bool,
    pub in_cons: bool,
}

pub open spec fn raw_init() -> RawStateV {
    RawStateV {
        sections: seq![],
        current: None,
        field: None,
        content: seq![],
        cons: seq![],
        has_cons: false,
        in_cons: false,
    }
}

/// The sections collected so far, with the open section (and its MADR
/// `### Consequences` subsection) closed.
pub open spec fn raw_flush(st: RawStateV) -> Seq<(Seq<char>, Seq<char>)> {
    let s1 = match st.current {
        Some(n) => st.sections.push((n, trim_spec(st.content))),
        None => st.sections,
    };
    if st.has_cons {
        s1.push(("consequences"@, trim_spec(st.cons)))
    } else {
        s1
    }
}

/// One line of section extraction: a `## ` line opens a section named by
/// its trimmed, lowercased title; a `### ` line whose title maps to
/// consequences, inside the section that maps to decision, opens the
/// consequences subsection; other lines (and other `### ` headings) are added
/// to the open subsection or section.
pub open spec fn raw_step(st: RawStateV, line: Seq<char>) -> RawStateV {
    if starts_with_spec(line, "## "@) {
        let name = section_key(strip_all_prefix(line, "## "@));
        RawStateV {
            sections: raw_flush(st),
            current: Some(name),
            field: section_field(name),
            content: seq![],
            cons: seq![],
            has_cons: false,
            in_cons: false,
        }
    } else if starts_with_spec(line, "### "@) {
        let heading = trim_spec(strip_all_prefix(line, "### "@));
        let in_c = st.field == Some(SectionField::Decision) && section_field(heading) == Some(
            SectionField::Consequences,
        );
        if in_c {
            RawStateV { has_cons: true, in_cons: true, ..st }
        } else if st.current is Some {
            RawStateV { content: st.content + line + seq!['\n'], in_cons: false, ..st }
        } else {
            RawStateV { in_cons: false, ..st }
        }
    } else if st.in_cons {
        RawStateV { cons: st.cons + line + seq!['\n'], ..st }
    } else if st.current is Some {
        RawStateV { content: st.content + line + seq!['\n'], ..st }
    } else {
        st
    }
}

pub open spec fn raw_fold(ls: Seq<Seq<char>>) -> RawStateV
    decreases ls.len(),
{
    if ls.len() == 0 {
        raw_init()
    } else {
        raw_step(raw_fold(ls.drop_last()), ls.last())
    }
}

/// The `(name, text)` sections of a markdown document, split at its `## `
/// lines (see [`raw_step`]).
pub open spec fn sections_raw_spec(content: Seq<char>) -> Seq<(Seq<char>, Seq<char>)> {
    raw_flush(raw_fold(lines_spec(content)))
}

pub open spec fn mk_raw(
    sections: Seq<(String, String)>,
    current: Option<String>,
    field: Option<SectionField>,
    content: Seq<char>,
    cons: Seq<char>,
    has_cons: bool,
    in_cons: bool,
) -> RawStateV {
    RawStateV {
        sections: pairs_view(sections),
        current: opt_view(current),
        field,
        content,
        cons,
        has_cons,
        in_cons,
    }
}

fn flush_raw(
    sections: &mut Vec<(String, String)>,
    current: &Option<String>,
    content: &Vec<char>,
    cons: &Vec<char>,
    has_cons: bool,
)
    ensures
        pairs_view(final(sections)@) == raw_flush(
            mk_raw(old(sections)@, *current, None, content@, cons@, has_cons, false),
        ),
{
    let ghost s0 = pairs_view(sections@);
    if let Some(name) = current {
        let t = trim(content.as_slice());
        sections.push((name.clone(), string_from(t.as_slice())));
        proof {
            assert(pairs_view(sections@) =~= s0.push((name@, trim_spec(content@))));
        }
    }
    let ghost s1 = pairs_view(sections@);
    if has_cons {
        let t = trim(cons.as_slice());
        sections.push((owned("consequences"), string_from(t.as_slice())));
        proof {
            assert(pairs_view(sections@) =~= s1.push(("consequences"@, trim_spec(cons@))));
        }
    }
}

/// Extract sections from raw markdown text (see [`sections_raw_spec`]).
pub fn extract_sections_raw(content: &[char]) -> (r: Vec<(String, String)>)
    ensures
        pairs_view(r@) == sections_raw_spec(content@),
{
    let ls = lines(content);
    let ghost lv = ls@.map_values(|l: Vec<char>| l@);
    let mut sections: Vec<(String, String)> = Vec::new();
    let mut current: Option<String> = None;
    let mut field: Option<SectionField> = None;
    let mut body: Vec<char> = Vec::new();
    let mut cons: Vec<char> = Vec::new();
    let mut has_cons = false;
    let mut in_cons = false;
    let mut i: usize = 0;
    proof {
        assert(pairs_view(sections@) =~= Seq::<(Seq<char>, Seq<char>)>::empty());
        assert(lv.take(0) =~= Seq::<Seq<char>>::empty());
    }
    while i < ls.len()
        invariant
            i <= ls@.len(),
            lv == ls@.map_values(|l: Vec<char>| l@),
            lv == lines_spec(content@),
            mk_raw(sections@, current, field, body@, cons@, has_cons, in_cons) == raw_fold(
                lv.take(i as int),
            ),
        decreases ls@.len() - i,
    {
        let line = &ls[i];
        let ghost st = raw_fold(lv.take(i as int));
        proof {
            assert(lv.take(i + 1).drop_last() =~= lv.take(i as int));
            assert(lv.take(i + 1).last() == line@);
        }
        if starts_with_str(line.as_slice(), "## ") {
            flush_raw(&mut sections, &current, &body, &cons, has_cons);
            let stripped = trim_start_matches(line.as_slice(), "## ");
            let name = key_of(stripped.as_slice());
            field = canonical_section_field(name.as_slice());
            current = Some(string_from(name.as_slice()));
            body.clear();
            cons.clear();
            has_cons = false;
            in_cons = false;
            proof {
                assert(body@ =~= Seq::<char>::empty());
                assert(cons@ =~= Seq::<char>::empty());
            }
        } else if starts_with_str(line.as_slice(), "### ") {
            let stripped = trim_start_matches(line.as_slice(), "### ");
            let heading = trim(stripped.as_slice());
            let hf = canonical_section_field(heading.as_slice());
            in_cons = is_field(field, SectionField::Decision) && is_field(
                hf,
                SectionField::Consequences,
            );
            if in_cons {
                has_cons = true;
            } else if current.is_some() {
                push_all(&mut body, line.as_slice());
                body.push('\n');
            }
        } else if in_cons {
            push_all(&mut cons, line.as_slice());
            cons.push('\n');
        } else if current.is_some() {
            push_all(&mut body, line.as_slice());
            body.push('\n');
        }
        proof {
            let nst = raw_step(st, line@);
            assert(pairs_view(sections@) == nst.sections);
            assert(opt_view(current) == nst.current);
            assert(field == nst.field);
            assert(body@ =~= nst.content);
            assert(cons@ =~= nst.cons);
            assert(has_cons == nst.has_cons);
            assert(in_cons == nst.in_cons);
        }
        i += 1;
    }
    flush_raw(&mut sections, &current, &body, &cons, has_cons);
    proof {
        assert(lv.take(ls@.len() as int) =~= lv);
    }
    sections
}

// ---------------------------------------------------------------------------
// Titles, numbers and dates
// ---------------------------------------------------------------------------
/// A numbered title `N. Title`: the text before the first `". "` must parse
/// as a number; the rest is the title.
pub open spec fn numbered_title_spec(t: Seq<char>) -> Option<(u32, Seq<char>)> {
    match find_from_spec(t, ". "@, 0) {
        Some(i) => match parse_u32_spec(t.subrange(0, i)) {
            Some(n) => Some((n, t.subrange(i + 2, t.len() as int))),
            None => None,
        },
        None => None,
    }
}

/// Parse a numbered title like "1. Use Rust" into (1, "Use Rust").
pub fn parse_numbered_title(title: &str) -> (r: Option<(u32, String)>)
    ensures
        r matches Some((n, t)) ==> numbered_title_spec(title@) == Some((n, t@)),
        r is None ==> numbered_title_spec(title@) is None,
{
    let c = chars_of(title);
    parse_numbered_title_chars(c.as_slice())
}

/// Parse a numbered title given as characters.
pub fn parse_numbered_title_chars(title: &[char]) -> (r: Option<(u32, String)>)
    ensures
        r matches Some((n, t)) ==> numbered_title_spec(title@) == Some((n, t@)),
        r is None ==> numbered_title_spec(title@) is None,
{
    let sep = chars_of(". ");
    proof {
        reveal_strlit(". ");
    }
    match find_from(title, sep.as_slice(), 0) {
        Some(i) => {
            proof {
                crate::text::lemma_find_from(title@, ". "@, 0);
                assert(crate::text::occurs_at(title@, ". "@, i as int));
                assert(". "@.len() == 2);
            }
            let head = slice_vec(title, 0, i);
            match parse_u32(head.as_slice()) {
                Some(n) => {
                    let n_len = title.len();
                    let rest = slice_vec(title, i + 2, n_len);
                    Some((n, string_from(rest.as_slice())))
                },
                None => None,
            }
        },
        None => None,
    }
}

/// The first line of `ls` (from index `i`) that starts with `"# "`.
pub open spec fn first_h1_line(ls: Seq<Seq<char>>, i: int) -> Option<Seq<char>>
    decreases ls.len() - i,
{
    if i < 0 || i >= ls.len() {
        None
    } else if starts_with_spec(ls[i], "# "@) {
        Some(ls[i])
    } else {
        first_h1_line(ls, i + 1)
    }
}

/// The title of the first `# ` heading: `(number, title)` for `# N. Title`,
/// `(0, title)` for an unnumbered one, `None` when there is no such line or
/// its title is empty.
pub open spec fn h1_title_spec(content: Seq<char>) -> Option<(u32, Seq<char>)> {
    match first_h1_line(lines_spec(content), 0) {
        Some(l) => {
            let t = trim_spec(strip_all_prefix(l, "# "@));
            if t.len() == 0 {
                None
            } else {
                match numbered_title_spec(t) {
                    Some(p) => Some(p),
                    None => Some((0u32, t)),
                }
            }
        },
        None => None,
    }
}

/// Extract a title from the first H1 heading in markdown content.
pub fn extract_h1_title(content: &[char]) -> (r: Option<(u32, String)>)
    ensures
        r matches Some((n, t)) ==> h1_title_spec(content@) == Some((n, t@)),
        r is None ==> h1_title_spec(content@) is None,
{
    let ls = lines(content);
    let ghost lv = ls@.map_values(|l: Vec<char>| l@);
    let mut i: usize = 0;
    while i < ls.len()
        invariant
            i <= ls@.len(),
            lv == ls@.map_values(|l: Vec<char>| l@),
            lv == lines_spec(content@),
            first_h1_line(lv, i as int) == first_h1_line(lv, 0),
        decreases ls@.len() - i,
    {
        if starts_with_str(ls[i].as_slice(), "# ") {
            let stripped = trim_start_matches(ls[i].as_slice(), "# ");
            let t = trim(stripped.as_slice());
            if t.len() == 0 {
                return None;
            }
            return match parse_numbered_title_chars(t.as_slice()) {
                Some(p) => Some(p),
                None => Some((0, string_from(t.as_slice()))),
            };
        }
        i += 1;
    }
    None
}

/// The date of the first `Date:` line (after trimming) before the first
/// `## ` line, if that line's value parses as an ISO 8601 date.
pub open spec fn legacy_date_from(ls: Seq<Seq<char>>, i: int) -> Option<Date>
    decreases ls.len() - i,
{
    if i < 0 || i >= ls.len() {
        None
    } else if starts_with_spec(ls[i], "## "@) {
        None
    } else {
        match strip_prefix_spec(trim_spec(ls[i]), "Date:"@) {
            Some(rest) => parse_date_spec(trim_spec(rest)),
            None => legacy_date_from(ls, i + 1),
        }
    }
}

pub open spec fn legacy_date_spec(content: Seq<char>) -> Option<Date> {
    legacy_date_from(lines_spec(content), 0)
}

/// Extract the date from a Nygard-style `Date: YYYY-MM-DD` line.
pub fn extract_legacy_date(content: &[char]) -> (r: Option<Date>)
    ensures
        r == legacy_date_spec(content@),
{
    let ls = lines(content);
    let ghost lv = ls@.map_values(|l: Vec<char>| l@);
    let mut i: usize = 0;
    while i < ls.len()
        invariant
            i <= ls@.len(),
            lv == ls@.map_values(|l: Vec<char>| l@),
            lv == lines_spec(content@),
            legacy_date_from(lv, i as int) == legacy_date_from(lv, 0),
        decreases ls@.len() - i,
    {
        let line = &ls[i];
        if starts_with_str(line.as_slice(), "## ") {
            return None;
        }
        let t = trim(line.as_slice());
        if let Some(rest) = strip_prefix(t.as_slice(), "Date:") {
            let v = trim(rest.as_slice());
            let vs = string_from(v.as_slice());
            return Date::parse_iso(vs.as_str());
        }
        i += 1;
    }
    None
}

/// The ADR number a file name carries: the four digits `NUMBER_PATTERN`
/// captures, parsed as a number.
pub open spec fn number_of_name(name: Seq<char>) -> Option<u32> {
    match captures_of(NUMBER_PATTERN@, name) {
        Some(groups) => parse_u32_spec(group_text(groups, 1)),
        None => None,
    }
}

/// The text of capture group `i`, or the empty sequence when it is absent.
pub open spec fn group_text(groups: Seq<Option<Seq<char>>>, i: int) -> Seq<char> {
    if 0 <= i < groups.len() {
        match groups[i] {
            Some(t) => t,
            None => seq![],
        }
    } else {
        seq![]
    }
}

fn group_chars(groups: &Vec<Option<String>>, i: usize) -> (r: Vec<char>)
    ensures
        r@ == group_text(crate::patterns::groups_view(*groups), i as int),
{
    if i < groups.len() {
        match &groups[i] {
            Some(t) => chars_of(t.as_str()),
            None => Vec::new(),
        }
    } else {
        Vec::new()
    }
}

/// Whether a file-number error names the path and reason.
pub open spec fn is_format_error(e: Error, path: Seq<char>, reason: Seq<char>) -> bool {
    e matches Error::InvalidFormat { path: p, reason: r } && p@ == path && r@ == reason
}

/// Extract the ADR number from a file path: the final component must match
/// `NNNN-*.md`.
pub fn extract_number_from_path(path: &str) -> (r: Result<u32, Error>)
    ensures
        final_component(path@) is None ==> (r matches Err(e) && is_format_error(
            e,
            path@,
            "Invalid filename"@,
        )),
        final_component(path@) matches Some(name) ==> match number_of_name(name) {
            Some(n) => r == Ok::<u32, Error>(n),
            None => r matches Err(e) && is_format_error(
                e,
                path@,
                "Cannot extract ADR number from filename"@,
            ),
        },
{
    let name = match file_name(path) {
        Some(n) => n,
        None => {
            return Err(
                Error::InvalidFormat { path: owned(path), reason: owned("Invalid filename") },
            );
        },
    };
    let caps = captures_str(NUMBER_PATTERN, name.as_str());
    let n = match caps {
        Some(groups) => {
            let g = group_chars(&groups, 1);
            parse_u32(g.as_slice())
        },
        None => None,
    };
    match n {
        Some(n) => Ok(n),
        None => Err(
            Error::InvalidFormat {
                path: owned(path),
                reason: owned("Cannot extract ADR number from filename"),
            },
        ),
    }
}

// ---------------------------------------------------------------------------
// Status sections
// ---------------------------------------------------------------------------
/// The words a plain status line may start with (after lowercasing).
pub open spec fn is_status_word(l: Seq<char>) -> bool {
    l == "proposed"@ || l == "accepted"@ || l == "deprecated"@ || l == "superseded"@ || l
        == "superceded"@ || l == "draft"@ || l == "rejected"@
}

/// One line of a status section. A trimmed line that matches
/// `LINK_PATTERN` with a positive number adds a link of the named kind (and
/// a "Superseded by" link marks the record superseded); a line without
/// brackets whose first word is a status word sets the status; any other
/// line changes nothing.
pub open spec fn status_line_step(st: (StatusV, Seq<AdrLinkV>), raw: Seq<char>) -> (
    StatusV,
    Seq<AdrLinkV>,
) {
    let line = trim_spec(raw);
    if line.len() == 0 {
        st
    } else {
        match captures_of(LINK_PATTERN@, line) {
            Some(groups) => {
                let target = match parse_u32_spec(group_text(groups, 2)) {
                    Some(n) => n,
                    None => 0u32,
                };
                if target > 0 {
                    let kind = link_kind_from_str(trim_spec(group_text(groups, 1)));
                    let status = if kind == LinkKindV::SupersededBy {
                        StatusV::Superseded
                    } else {
                        st.0
                    };
                    (status, st.1.push(AdrLinkV { target, kind, description: None }))
                } else {
                    st
                }
            },
            None => if !line.contains('[') && !line.contains(']') && is_status_word(
                lowercase(first_word(line)),
            ) {
                (status_from_str(first_word(line)), st.1)
            } else {
                st
            },
        }
    }
}

pub open spec fn status_fold(st: (StatusV, Seq<AdrLinkV>), ls: Seq<Seq<char>>) -> (
    StatusV,
    Seq<AdrLinkV>,
)
    decreases ls.len(),
{
    if ls.len() == 0 {
        st
    } else {
        status_line_step(status_fold(st, ls.drop_last()), ls.last())
    }
}

fn is_status_word_exec(l: &[char]) -> (r: bool)
    ensures
        r == is_status_word(l@),
{
    eq_str(l, "proposed") || eq_str(l, "accepted") || eq_str(l, "deprecated") || eq_str(
        l,
        "superseded",
    ) || eq_str(l, "superceded") || eq_str(l, "draft") || eq_str(l, "rejected")
}

fn apply_status_line(adr: &mut Adr, raw: &[char])
    ensures
        (final(adr)@.status, final(adr)@.links) == status_line_step(
            (old(adr)@.status, old(adr)@.links),
            raw@,
        ),
        final(adr)@ == (AdrV { status: final(adr)@.status, links: final(adr)@.links, ..old(adr)@ }),
{
    let line = trim(raw);
    if line.len() == 0 {
        return;
    }
    let ls = string_from(line.as_slice());
    match captures_str(LINK_PATTERN, ls.as_str()) {
        Some(groups) => {
            let num = group_chars(&groups, 2);
            let target = match parse_u32(num.as_slice()) {
                Some(n) => n,
                None => 0,
            };
            if target > 0 {
                let kind_raw = group_chars(&groups, 1);
                let kind_t = trim(kind_raw.as_slice());
                let kind = LinkKind::parse_str(string_from(kind_t.as_slice()).as_str());
                if kind.is_superseded_by() {
                    adr.status = AdrStatus::Superseded;
                }
                adr.add_link(AdrLink::new(target, kind));
            }
        },
        None => {
            if !contains_char(line.as_slice(), '[') && !contains_char(line.as_slice(), ']') {
                let word = first_word_of(line.as_slice());
                let ws = string_from(word.as_slice());
                let lw = to_lowercase(ws.as_str());
                let lwc = chars_of(lw.as_str());
                if is_status_word_exec(lwc.as_slice()) {
                    adr.status = AdrStatus::parse_str(ws.as_str());
                }
            }
        },
    }
}

/// Parse the status section for status and links.
pub fn parse_status_section(adr: &mut Adr, content: &[char])
    ensures
        (final(adr)@.status, final(adr)@.links) == status_fold(
            (old(adr)@.status, old(adr)@.links),
            lines_spec(content@),
        ),
        final(adr)@ == (AdrV { status: final(adr)@.status, links: final(adr)@.links, ..old(adr)@ }),
{
    let ls = lines(content);
    let ghost lv = ls@.map_values(|l: Vec<char>| l@);
    let ghost start = (adr@.status, adr@.links);
    let ghost a0 = adr@;
    let mut i: usize = 0;
    proof {
        assert(lv.take(0) =~= Seq::<Seq<char>>::empty());
    }
    while i < ls.len()
        invariant
            i <= ls@.len(),
            lv == ls@.map_values(|l: Vec<char>| l@),
            lv == lines_spec(content@),
            (adr@.status, adr@.links) == status_fold(start, lv.take(i as int)),
            adr@ == (AdrV { status: adr@.status, links: adr@.links, ..a0 }),
        decreases ls@.len() - i,
    {
        proof {
            assert(lv.take(i + 1).drop_last() =~= lv.take(i as int));
            assert(lv.take(i + 1).last() == ls@[i as int]@);
        }
        apply_status_line(adr, ls[i].as_slice());
        i += 1;
    }
    proof {
        assert(lv.take(ls@.len() as int) =~= lv);
    }
}

// ---------------------------------------------------------------------------
// Legacy documents
// ---------------------------------------------------------------------------
/// A section applied to an ADR: the trimmed text of the `status` section is
/// read for status and links; a section whose name maps to a body field
/// sets that field to its trimmed text; any other section is ignored.
pub open spec fn apply_section_spec(adr: AdrV, name: Seq<char>, body: Seq<char>) -> AdrV {
    let c = trim_spec(body);
    if name == "status"@ {
        let r = status_fold((adr.status, adr.links), lines_spec(c));
        AdrV { status: r.0, links: r.1, ..adr }
    } else {
        match section_field(name) {
            Some(SectionField::Context) => AdrV { context: c, ..adr },
            Some(SectionField::Decision) => AdrV { decision: c, ..adr },
            Some(SectionField::Consequences) => AdrV { consequences: c, ..adr },
            None => adr,
        }
    }
}

pub open spec fn apply_sections_spec(adr: AdrV, secs: Seq<(Seq<char>, Seq<char>)>) -> AdrV
    decreases secs.len(),
{
    if secs.len() == 0 {
        adr
    } else {
        apply_section_spec(apply_sections_spec(adr, secs.drop_last()), secs.last().0, secs.last().1)
    }
}

/// A legacy (adr-tools) document read as an ADR: number and title from the
/// first `# ` heading, the date from the `Date:` line (else `date`), then
/// each `## ` section applied in order.
pub open spec fn legacy_view(content: Seq<char>, date: Date) -> AdrV {
    let base = new_adr_view(0, seq![], date);
    let titled = match h1_title_spec(content) {
        Some((n, t)) => AdrV { number: n, title: t, ..base },
        None => base,
    };
    let dated = match legacy_date_spec(content) {
        Some(d) => AdrV { date: d, ..titled },
        None => titled,
    };
    apply_sections_spec(dated, sections_raw_spec(content))
}

/// Apply a parsed section to the ADR.
pub fn apply_section(adr: &mut Adr, section: &str, content: &str)
    ensures
        final(adr)@ == apply_section_spec(old(adr)@, section@, content@),
{
    let cv = chars_of(content);
    let c = trim(cv.as_slice());
    let sv = chars_of(section);
    if eq_str(sv.as_slice(), "status") {
        parse_status_section(adr, c.as_slice());
        return;
    }
    match canonical_section_field(sv.as_slice()) {
        Some(SectionField::Context) => {
            adr.context = string_from(c.as_slice());
        },
        Some(SectionField::Decision) => {
            adr.decision = string_from(c.as_slice());
        },
        Some(SectionField::Consequences) => {
            adr.consequences = string_from(c.as_slice());
        },
        None => {},
    }
}

/// Parse a legacy document, with `date` as the date when it has no `Date:` line.
pub fn parse_legacy_dated(content: &[char], date: Date) -> (r: Adr)
    ensures
        r@ == legacy_view(content@, date),
{
    let mut adr = Adr::with_date(0, "", date);
    proof {
        reveal_strlit("");
        assert(""@ =~= Seq::<char>::empty());
    }
    let sections = extract_sections_raw(content);
    if let Some((num, title)) = extract_h1_title(content) {
        adr.number = num;
        adr.title = title;
    }
    if let Some(d) = extract_legacy_date(content) {
        adr.date = d;
    }
    let ghost secs = pairs_view(sections@);
    let ghost a0 = adr@;
    let mut i: usize = 0;
    proof {
        assert(secs.take(0) =~= Seq::<(Seq<char>, Seq<char>)>::empty());
    }
    while i < sections.len()
        invariant
            i <= sections@.len(),
            secs == pairs_view(sections@),
            adr@ == apply_sections_spec(a0, secs.take(i as int)),
        decreases sections@.len() - i,
    {
        proof {
            assert(secs.take(i + 1).drop_last() =~= secs.take(i as int));
        }
        apply_section(&mut adr, sections[i].0.as_str(), sections[i].1.as_str());
        i += 1;
    }
    proof {
        assert(secs.take(sections@.len() as int) =~= secs);
    }
    adr
}

/// Parse a legacy document, dated today when it has no `Date:` line.
pub fn parse_legacy(content: &[char]) -> (r: Adr)
    ensures
        exists|d: Date| r@ == legacy_view(content@, d),
{
    let d = today();
    let r = parse_legacy_dated(content, d);
    proof {
        assert(r@ == legacy_view(content@, d));
    }
    r
}

// ---------------------------------------------------------------------------
// Frontmatter documents
// ---------------------------------------------------------------------------
/// The YAML block and body of a frontmatter document, as
/// `content.splitn(3, "---\n")` cuts it: the text between the first and
/// second `---` line, and everything after the second; `None` when there is
/// no second delimiter.
pub open spec fn frontmatter_parts(content: Seq<char>) -> Option<(Seq<char>, Seq<char>)> {
    match find_from_spec(content, "---\n"@, 0) {
        Some(a) => match find_from_spec(content, "---\n"@, a + 4) {
            Some(b) => Some((content.subrange(a + 4, b), content.subrange(b + 4, content.len() as int))),
            None => None,
        },
        None => None,
    }
}

/// Split a frontmatter document into its YAML block and its body.
pub fn split_frontmatter(content: &[char]) -> (r: Result<(String, String), Error>)
    ensures
        frontmatter_parts(content@) matches Some((y, b)) ==> (r matches Ok((ys, bs)) && ys@ == y
            && bs@ == b),
        frontmatter_parts(content@) is None ==> (r matches Err(e) && is_format_error(
            e,
            seq![],
            "Invalid frontmatter format"@,
        )),
{
    let delim = chars_of("---\n");
    proof {
        reveal_strlit("---\n");
        assert("---\n"@.len() == 4);
    }
    let invalid = Error::InvalidFormat {
        path: String::new(),
        reason: owned("Invalid frontmatter format"),
    };
    let n = content.len();
    let a = match find_from(content, delim.as_slice(), 0) {
        Some(a) => a,
        None => {
            return Err(invalid);
        },
    };
    proof {
        crate::text::lemma_find_from(content@, "---\n"@, 0);
    }
    let b = match find_from(content, delim.as_slice(), a + 4) {
        Some(b) => b,
        None => {
            return Err(invalid);
        },
    };
    proof {
        crate::text::lemma_find_from(content@, "---\n"@, a + 4);
    }
    let yaml = slice_vec(content, a + 4, b);
    let body = slice_vec(content, b + 4, n);
    Ok((string_from(yaml.as_slice()), string_from(body.as_slice())))
}

/// The state of event-based section extraction.
pub struct EvStateV {
    pub sections: Seq<(Seq<char>, Seq<char>)>,
    pub current: Option<Seq<char>>,
    pub field: Option<SectionField>,
    pub content: Seq<char>,
    pub cons: Option<Seq<char>>,
    pub in_cons: bool,
    pub heading: Option<u8>,
    pub heading_text: Seq<char>,
}

pub open spec fn ev_init() -> EvStateV {
    EvStateV {
        sections: seq![],
        current: None,
        field: None,
        content: seq![],
        cons: None,
        in_cons: false,
        heading: None,
        heading_text: seq![],
    }
}

/// The first index whose key is `k`.
pub open spec fn key_index(entries: Seq<(Seq<char>, Seq<char>)>, k: Seq<char>, i: int) -> Option<
    int,
>
    decreases entries.len() - i,
{
    if i < 0 || i >= entries.len() {
        None
    } else if entries[i].0 == k {
        Some(i)
    } else {
        key_index(entries, k, i + 1)
    }
}

/// A map insertion on key/value pairs: the value of an existing key is
/// replaced in place, a new key is appended.
pub open spec fn map_insert(entries: Seq<(Seq<char>, Seq<char>)>, k: Seq<char>, v: Seq<char>) -> Seq<
    (Seq<char>, Seq<char>),
> {
    match key_index(entries, k, 0) {
        Some(i) => entries.update(i, (k, v)),
        None => entries.push((k, v)),
    }
}

/// Closes the open subsection and section of the event state.
pub open spec fn ev_close(st: EvStateV) -> Seq<(Seq<char>, Seq<char>)> {
    let s1 = match st.cons {
        Some(t) => map_insert(st.sections, "consequences"@, trim_spec(t)),
        None => st.sections,
    };
    match st.current {
        Some(sec) => map_insert(s1, sec, trim_spec(st.content)),
        None => s1,
    }
}

pub open spec fn cons_text(c: Option<Seq<char>>) -> Seq<char> {
    match c {
        Some(t) => t,
        None => seq![],
    }
}

/// One markdown event of section extraction. H2 headings bound sections
/// (named by their trimmed, lowercased text); an H3 whose text maps to
/// consequences under the section that maps to decision opens the
/// consequences subsection; other H3 text folds into the section; text and
/// line breaks go to the open heading, subsection or section.
pub open spec fn ev_step(st: EvStateV, e: MdEventV) -> EvStateV {
    match e {
        MdEventV::HeadingStart(l) => if l == 2 {
            EvStateV {
                sections: ev_close(st),
                cons: None,
                content: seq![],
                field: None,
                in_cons: false,
                heading: Some(2u8),
                heading_text: seq![],
                ..st
            }
        } else if l == 3 {
            EvStateV { in_cons: false, heading: Some(3u8), heading_text: seq![], ..st }
        } else {
            st
        },
        MdEventV::HeadingEnd(l) => if l == 2 {
            EvStateV {
                current: Some(section_key(st.heading_text)),
                field: section_field(st.heading_text),
                heading: None,
                ..st
            }
        } else if l == 3 {
            if st.field == Some(SectionField::Decision) && section_field(st.heading_text) == Some(
                SectionField::Consequences,
            ) {
                EvStateV { in_cons: true, cons: Some(cons_text(st.cons)), heading: None, ..st }
            } else {
                EvStateV { content: st.content + st.heading_text, heading: None, ..st }
            }
        } else {
            EvStateV { heading: None, ..st }
        },
        MdEventV::Text(t) => if st.heading is Some {
            EvStateV { heading_text: st.heading_text + t, ..st }
        } else if st.in_cons {
            EvStateV { cons: Some(cons_text(st.cons) + t), ..st }
        } else {
            EvStateV { content: st.content + t, ..st }
        },
        MdEventV::SoftBreak | MdEventV::HardBreak => if st.heading is Some {
            st
        } else if st.in_cons {
            EvStateV { cons: Some(cons_text(st.cons).push('\n')), ..st }
        } else {
            EvStateV { content: st.content.push('\n'), ..st }
        },
        MdEventV::Other => st,
    }
}

pub open spec fn ev_fold(es: Seq<MdEventV>) -> EvStateV
    decreases es.len(),
{
    if es.len() == 0 {
        ev_init()
    } else {
        ev_step(ev_fold(es.drop_last()), es.last())
    }
}

/// The `(name, text)` sections of a markdown body, from its event stream.
pub open spec fn sections_spec(body: Seq<char>) -> Seq<(Seq<char>, Seq<char>)> {
    ev_close(ev_fold(markdown_events_of(body)))
}

/// No two entries have the same key.
pub open spec fn keys_distinct(entries: Seq<(Seq<char>, Seq<char>)>) -> bool {
    forall|i: int, j: int| 0 <= i < j < entries.len() ==> #[trigger] entries[i].0 != #[trigger] entries[j].0
}

proof fn lemma_key_index(entries: Seq<(Seq<char>, Seq<char>)>, k: Seq<char>, i: int)
    requires
        0 <= i,
    ensures
        key_index(entries, k, i) matches Some(j) ==> i <= j < entries.len() && entries[j].0 == k,
        key_index(entries, k, i) is None ==> forall|j: int| i <= j < entries.len() ==> entries[j].0 != k,
    decreases entries.len() - i,
{
    if i < entries.len() && entries[i].0 != k {
        lemma_key_index(entries, k, i + 1);
    }
}

proof fn lemma_map_insert_distinct(entries: Seq<(Seq<char>, Seq<char>)>, k: Seq<char>, v: Seq<char>)
    requires
        keys_distinct(entries),
    ensures
        keys_distinct(map_insert(entries, k, v)),
{
    lemma_key_index(entries, k, 0);
    let r = map_insert(entries, k, v);
    match key_index(entries, k, 0) {
        Some(x) => {
            assert forall|i: int, j: int| 0 <= i < j < r.len() implies #[trigger] r[i].0 != #[trigger] r[j].0 by {
                if i == x {
                    assert(entries[j].0 != entries[x].0);
                } else if j == x {
                    assert(entries[i].0 != entries[x].0);
                } else {
                    assert(r[i] == entries[i] && r[j] == entries[j]);
                }
            }
        },
        None => {
            assert forall|i: int, j: int| 0 <= i < j < r.len() implies #[trigger] r[i].0 != #[trigger] r[j].0 by {
                if j == entries.len() {
                    assert(r[i] == entries[i]);
                } else {
                    assert(r[i] == entries[i] && r[j] == entries[j]);
                }
            }
        },
    }
}

proof fn lemma_ev_close_distinct(st: EvStateV)
    requires
        keys_distinct(st.sections),
    ensures
        keys_distinct(ev_close(st)),
{
    let s1 = match st.cons {
        Some(t) => map_insert(st.sections, "consequences"@, trim_spec(t)),
        None => st.sections,
    };
    if let Some(t) = st.cons {
        lemma_map_insert_distinct(st.sections, "consequences"@, trim_spec(t));
    }
    if let Some(sec) = st.current {
        lemma_map_insert_distinct(s1, sec, trim_spec(st.content));
    }
}

proof fn lemma_ev_fold_distinct(es: Seq<MdEventV>)
    ensures
        keys_distinct(ev_fold(es).sections),
    decreases es.len(),
{
    if es.len() > 0 {
        lemma_ev_fold_distinct(es.drop_last());
        lemma_ev_close_distinct(ev_fold(es.drop_last()));
    }
}

/// The sections of a body have distinct names.
pub proof fn lemma_sections_distinct(body: Seq<char>)
    ensures
        keys_distinct(sections_spec(body)),
{
    lemma_ev_fold_distinct(markdown_events_of(body));
    lemma_ev_close_distinct(ev_fold(markdown_events_of(body)));
}

fn map_insert_exec(entries: &mut Vec<(String, String)>, k: String, v: String)
    ensures
        pairs_view(final(entries)@) == map_insert(pairs_view(old(entries)@), k@, v@),
{
    let ghost ev = pairs_view(entries@);
    let mut i: usize = 0;
    while i < entries.len()
        invariant
            i <= entries@.len(),
            ev == pairs_view(entries@),
            entries@ == old(entries)@,
            key_index(ev, k@, i as int) == key_index(ev, k@, 0),
        decreases entries@.len() - i,
    {
        if entries[i].0 == k {
            proof {
                assert(ev[i as int].0 == k@);
                assert(key_index(ev, k@, i as int) == Some(i as int));
            }
            entries.set(i, (k, v));
            proof {
                assert(pairs_view(entries@) =~= ev.update(i as int, (k@, v@)));
            }
            return;
        }
        i += 1;
    }
    entries.push((k, v));
    proof {
        assert(pairs_view(entries@) =~= ev.push((k@, v@)));
    }
}

pub open spec fn mk_ev(
    sections: Seq<(String, String)>,
    current: Option<String>,
    field: Option<SectionField>,
    content: Seq<char>,
    cons: Option<Vec<char>>,
    in_cons: bool,
    heading: Option<u8>,
    heading_text: Seq<char>,
) -> EvStateV {
    EvStateV {
        sections: pairs_view(sections),
        current: opt_view(current),
        field,
        content,
        cons: match cons {
            Some(c) => Some(c@),
            None => None,
        },
        in_cons,
        heading,
        heading_text,
    }
}

fn close_ev(
    sections: &mut Vec<(String, String)>,
    current: &Option<String>,
    content: &Vec<char>,
    cons: &Option<Vec<char>>,
)
    ensures
        pairs_view(final(sections)@) == ev_close(
            mk_ev(old(sections)@, *current, None, content@, *cons, false, None, seq![]),
        ),
{
    if let Some(t) = cons {
        let tt = trim(t.as_slice());
        map_insert_exec(sections, owned("consequences"), string_from(tt.as_slice()));
    }
    if let Some(sec) = current {
        let tt = trim(content.as_slice());
        map_insert_exec(sections, sec.clone(), string_from(tt.as_slice()));
    }
}

/// Parse the sections of a markdown body from its event stream (see
/// [`ev_step`]); a name met twice keeps its last text.
pub fn parse_sections(body: &str) -> (r: Vec<(String, String)>)
    ensures
        pairs_view(r@) == sections_spec(body@),
        keys_distinct(pairs_view(r@)),
{
    let events = markdown_events(body);
    let ghost es = events_view(events@);
    let mut sections: Vec<(String, String)> = Vec::new();
    let mut current: Option<String> = None;
    let mut field: Option<SectionField> = None;
    let mut content: Vec<char> = Vec::new();
    let mut cons: Option<Vec<char>> = None;
    let mut in_cons = false;
    let mut heading: Option<u8> = None;
    let mut heading_text: Vec<char> = Vec::new();
    let mut i: usize = 0;
    proof {
        assert(es.take(0) =~= Seq::<MdEventV>::empty());
        assert(pairs_view(sections@) =~= Seq::<(Seq<char>, Seq<char>)>::empty());
    }
    while i < events.len()
        invariant
            i <= events@.len(),
            es == events_view(events@),
            es == markdown_events_of(body@),
            mk_ev(
                sections@,
                current,
                field,
                content@,
                cons,
                in_cons,
                heading,
                heading_text@,
            ) == ev_fold(es.take(i as int)),
        decreases events@.len() - i,
    {
        let ghost st = ev_fold(es.take(i as int));
        proof {
            assert(es.take(i + 1).drop_last() =~= es.take(i as int));
            assert(es.take(i + 1).last() == events@[i as int]@);
        }
        match &events[i] {
            MdEvent::HeadingStart(l) => {
                if *l == 2 {
                    close_ev(&mut sections, &current, &content, &cons);
                    cons = None;
                    content.clear();
                    field = None;
                    in_cons = false;
                    heading = Some(2);
                    heading_text.clear();
                } else if *l == 3 {
                    in_cons = false;
                    heading = Some(3);
                    heading_text.clear();
                }
            },
            MdEvent::HeadingEnd(l) => {
                if *l == 2 {
                    let k = key_of(heading_text.as_slice());
                    current = Some(string_from(k.as_slice()));
                    field = canonical_section_field(heading_text.as_slice());
                    heading = None;
                } else if *l == 3 {
                    let hf = canonical_section_field(heading_text.as_slice());
                    if is_field(field, SectionField::Decision) && is_field(
                        hf,
                        SectionField::Consequences,
                    ) {
                        in_cons = true;
                        if cons.is_none() {
                            cons = Some(Vec::new());
                        }
                    } else {
                        push_all(&mut content, heading_text.as_slice());
                    }
                    heading = None;
                } else {
                    heading = None;
                }
            },
            MdEvent::Text(t) => {
                if heading.is_some() {
                    crate::text::push_str_chars(&mut heading_text, t.as_str());
                } else if in_cons {
                    let mut c = match cons {
                        Some(c) => c,
                        None => Vec::new(),
                    };
                    crate::text::push_str_chars(&mut c, t.as_str());
                    cons = Some(c);
                } else {
                    crate::text::push_str_chars(&mut content, t.as_str());
                }
            },
            MdEvent::SoftBreak | MdEvent::HardBreak => {
                if heading.is_none() {
                    if in_cons {
                        let mut c = match cons {
                            Some(c) => c,
                            None => Vec::new(),
                        };
                        c.push('\n');
                        cons = Some(c);
                    } else {
                        content.push('\n');
                    }
                }
            },
            MdEvent::Other => {},
        }
        proof {
            let nst = ev_step(st, events@[i as int]@);
            assert(pairs_view(sections@) == nst.sections);
            assert(opt_view(current) == nst.current);
            assert(field == nst.field);
            assert(content@ =~= nst.content);
            assert(in_cons == nst.in_cons);
            assert(heading == nst.heading);
            assert(heading_text@ =~= nst.heading_text);
            assert(mk_ev(
                sections@,
                current,
                field,
                content@,
                cons,
                in_cons,
                heading,
                heading_text@,
            ).cons =~~= nst.cons);
        }
        i += 1;
    }
    close_ev(&mut sections, &current, &content, &cons);
    proof {
        assert(es.take(events@.len() as int) =~= es);
        lemma_sections_distinct(body@);
    }
    sections
}

/// A body section applied to an ADR decoded from frontmatter: a section
/// whose name maps to a body field sets that field to the section's text.
pub open spec fn apply_body_section(adr: AdrV, name: Seq<char>, text: Seq<char>) -> AdrV {
    match section_field(name) {
        Some(SectionField::Context) => AdrV { context: text, ..adr },
        Some(SectionField::Decision) => AdrV { decision: text, ..adr },
        Some(SectionField::Consequences) => AdrV { consequences: text, ..adr },
        None => adr,
    }
}

pub open spec fn apply_body_sections(adr: AdrV, secs: Seq<(Seq<char>, Seq<char>)>) -> AdrV
    decreases secs.len(),
{
    if secs.len() == 0 {
        adr
    } else {
        apply_body_section(apply_body_sections(adr, secs.drop_last()), secs.last().0, secs.last().1)
    }
}

/// An ADR decoded from frontmatter, completed from its body: when its title
/// is empty, the title (and, if its number is 0, the number) of the body's
/// first `# ` heading; then the body's sections.
pub open spec fn frontmatter_view(adr: AdrV, body: Seq<char>) -> AdrV {
    let titled = if adr.title.len() == 0 {
        match h1_title_spec(body) {
            Some((n, t)) => AdrV { title: t, number: if adr.number == 0 { n } else { adr.number }, ..adr },
            None => adr,
        }
    } else {
        adr
    };
    apply_body_sections(titled, sections_spec(body))
}

/// The result of reading a document: a legacy document is parsed in full;
/// a frontmatter document is split into the YAML block to decode and the
/// markdown body.
#[derive(Debug)]
pub enum ParsedContent {
    /// A legacy (adr-tools) document, parsed.
    Legacy(Adr),
    /// A document with YAML frontmatter.
    Frontmatter {
        /// The YAML block between the `---` lines.
        yaml: String,
        /// The markdown after the closing `---` line.
        body: String,
    },
}

/// Parser for ADR files.
#[derive(Debug)]
pub struct Parser {
    _private: (),
}

impl Default for Parser {
    fn default() -> (r: Self) {
        Parser { _private: () }
    }
}

impl Parser {
    /// Create a new parser.
    pub fn new() -> (r: Self) {
        Parser { _private: () }
    }

    /// Read a document. Line endings `\r\n` are read as `\n`. A document
    /// starting with `---\n` is split into its YAML block and body (an
    /// error when there is no closing `---` line); any other document is
    /// parsed as a legacy document.
    pub fn parse(&self, content: &str) -> (r: Result<ParsedContent, Error>)
        ensures
            ({
                let n = replace_crlf(content@);
                if starts_with_spec(n, "---\n"@) {
                    match frontmatter_parts(n) {
                        Some((y, b)) => r matches Ok(ParsedContent::Frontmatter { yaml, body })
                            && yaml@ == y && body@ == b,
                        None => r matches Err(e) && is_format_error(
                            e,
                            seq![],
                            "Invalid frontmatter format"@,
                        ),
                    }
                } else {
                    r matches Ok(ParsedContent::Legacy(adr)) && exists|d: Date|
                        adr@ == legacy_view(n, d)
                }
            }),
    {
        let raw = chars_of(content);
        let n = normalize_crlf(raw.as_slice());
        if starts_with_str(n.as_slice(), "---\n") {
            match split_frontmatter(n.as_slice()) {
                Ok((yaml, body)) => Ok(ParsedContent::Frontmatter { yaml, body }),
                Err(e) => Err(e),
            }
        } else {
            Ok(ParsedContent::Legacy(parse_legacy(n.as_slice())))
        }
    }

    /// Complete an ADR decoded from frontmatter from its markdown body.
    pub fn finish_frontmatter(&self, adr: Adr, body: &str) -> (r: Adr)
        ensures
            r@ == frontmatter_view(adr@, body@),
    {
        let mut adr = adr;
        let ghost a_in = adr@;
        if adr.title.as_str().is_empty() {
            let bc = chars_of(body);
            if let Some((num, title)) = extract_h1_title(bc.as_slice()) {
                adr.title = title;
                if adr.number == 0 {
                    adr.number = num;
                }
            }
        }
        proof {
            assert(a_in.title.len() == 0 <==> adr_title_empty(a_in));
        }
        let sections = parse_sections(body);
        let ghost secs = pairs_view(sections@);
        let ghost a0 = adr@;
        let mut i: usize = 0;
        proof {
            assert(secs.take(0) =~= Seq::<(Seq<char>, Seq<char>)>::empty());
        }
        while i < sections.len()
            invariant
                i <= sections@.len(),
                secs == pairs_view(sections@),
                adr@ == apply_body_sections(a0, secs.take(i as int)),
            decreases sections@.len() - i,
        {
            proof {
                assert(secs.take(i + 1).drop_last() =~= secs.take(i as int));
            }
            let kc = chars_of(sections[i].0.as_str());
            match canonical_section_field(kc.as_slice()) {
                Some(SectionField::Context) => {
                    adr.context = sections[i].1.clone();
                },
                Some(SectionField::Decision) => {
                    adr.decision = sections[i].1.clone();
                },
                Some(SectionField::Consequences) => {
                    adr.consequences = sections[i].1.clone();
                },
                None => {},
            }
            i += 1;
        }
        proof {
            assert(secs.take(sections@.len() as int) =~= secs);
        }
        adr
    }

    /// Complete an ADR read from the file at `path`: a number of 0 is
    /// replaced by the number in the file name (an error when the name has
    /// none), and the path is recorded.
    pub fn complete_file(&self, adr: Adr, path: &str) -> (r: Result<Adr, Error>)
        ensures
            adr.number != 0 ==> (r matches Ok(a) && a@ == (AdrV { path: Some(path@), ..adr@ })),
            adr.number == 0 ==> match extract_number_spec(path@) {
                Ok(n) => r matches Ok(a) && a@ == (AdrV { number: n, path: Some(path@), ..adr@ }),
                Err(reason) => r matches Err(e) && is_format_error(e, path@, reason),
            },
    {
        let mut adr = adr;
        if adr.number == 0 {
            adr.number = extract_number_from_path(path)?;
        }
        adr.path = Some(owned(path));
        Ok(adr)
    }
}

/// `s` with each line ending `\n` written as `\r\n`.
pub open spec fn crlf_of(s: Seq<char>) -> Seq<char>
    decreases s.len(),
{
    if s.len() == 0 {
        s
    } else if s[0] == '\n' {
        seq!['\r', '\n'] + crlf_of(s.subrange(1, s.len() as int))
    } else {
        seq![s[0]] + crlf_of(s.subrange(1, s.len() as int))
    }
}

/// A document written with `\r\n` line endings reads as the same document
/// written with `\n`: the parser works on the same text for both.
pub proof fn law_crlf_reads_as_lf(s: Seq<char>)
    requires
        forall|i: int| 0 <= i < s.len() ==> s[i] != '\r',
    ensures
        crate::text::replace_crlf(crlf_of(s)) == s,
        crate::text::replace_crlf(s) == s,
    decreases s.len(),
{
    if s.len() > 0 {
        let rest = s.subrange(1, s.len() as int);
        law_crlf_reads_as_lf(rest);
        let c = crlf_of(s);
        if s[0] == '\n' {
            assert(c.subrange(2, c.len() as int) =~= crlf_of(rest));
        } else {
            assert(c.subrange(1, c.len() as int) =~= crlf_of(rest));
        }
        assert(crate::text::replace_crlf(s) =~= seq![s[0]] + rest);
    }
}

pub open spec fn adr_title_empty(a: AdrV) -> bool {
    a.title.len() == 0
}

/// The number a path's file name carries, or the reason it carries none.
pub open spec fn extract_number_spec(path: Seq<char>) -> Result<u32, Seq<char>> {
    match final_component(path) {
        Some(name) => match number_of_name(name) {
            Some(n) => Ok(n),
            None => Err("Cannot extract ADR number from filename"@),
        },
        None => Err("Invalid filename"@),
    }
}

} // verus!
