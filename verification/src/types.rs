//! Core types for representing ADRs.

use crate::text::{
    chars_of, decimal, decimal_chars, eq_str, is_ascii_alnum_char, is_ascii_digit_char,
    is_ascii_lower_char, is_ascii_upper_char, is_ascii_seq, owned, padded_decimal, padded_decimal_chars,
    push_all, push_str_chars, string_from, to_lowercase, lowercase, ascii_lower_seq,
};
use vstd::prelude::*;

verus! {

// ---------------------------------------------------------------------------
// Dates
// ---------------------------------------------------------------------------
pub open spec fn is_leap_year(y: int) -> bool {
    (y % 4 == 0 && y % 100 != 0) || y % 400 == 0
}

pub open spec fn days_in_month(y: int, m: int) -> int {
    if m == 2 {
        if is_leap_year(y) {
            29
        } else {
            28
        }
    } else if m == 4 || m == 6 || m == 9 || m == 11 {
        30
    } else {
        31
    }
}

/// A valid proleptic Gregorian calendar date with a year in `-9999..=9999`.
pub open spec fn valid_date(y: int, m: int, d: int) -> bool {
    -9999 <= y <= 9999 && 1 <= m <= 12 && 1 <= d <= days_in_month(y, m)
}

/// A calendar date (year, month, day).
#[derive(Debug, Clone, Copy, PartialEq, Eq)]
pub struct Date {
    year: i32,
    month: u8,
    day: u8,
}

impl Date {
    #[verifier::type_invariant]
    spec fn inv(self) -> bool {
        valid_date(self.year as int, self.month as int, self.day as int)
    }

    pub closed spec fn spec_year(self) -> int {
        self.year as int
    }

    pub closed spec fn spec_month(self) -> int {
        self.month as int
    }

    pub closed spec fn spec_day(self) -> int {
        self.day as int
    }

    /// Builds a date from its parts; `None` when they do not form a valid date.
    pub fn from_calendar_date(year: i32, month: u8, day: u8) -> (r: Option<Date>)
        ensures
            r is Some <==> valid_date(year as int, month as int, day as int),
            r matches Some(d) ==> d.spec_year() == year && d.spec_month() == month
                && d.spec_day() == day,
    {
        if year < -9999 || year > 9999 || month < 1 || month > 12 || day < 1 {
            return None;
        }
        let leap = (year % 4 == 0 && year % 100 != 0) || year % 400 == 0;
        let dim: u8 = if month == 2 {
            if leap {
                29
            } else {
                28
            }
        } else if month == 4 || month == 6 || month == 9 || month == 11 {
            30
        } else {
            31
        };
        proof {
            assert(leap == is_leap_year(year as int));
            assert(dim as int == days_in_month(year as int, month as int));
        }
        if day > dim {
            return None;
        }
        Some(Date { year, month, day })
    }

    pub fn year(&self) -> (r: i32)
        ensures
            r == self.spec_year(),
    {
        self.year
    }

    pub fn month(&self) -> (r: u8)
        ensures
            r == self.spec_month(),
    {
        self.month
    }

    pub fn day(&self) -> (r: u8)
        ensures
            r == self.spec_day(),
    {
        self.day
    }

    /// A date's parts always form a valid calendar date.
    pub fn check_valid(&self)
        ensures
            valid_date(self.spec_year(), self.spec_month(), self.spec_day()),
    {
        proof {
            use_type_invariant(self);
        }
    }

    /// The date as `YYYY-MM-DD` (ISO 8601 calendar date).
    pub fn format(&self) -> (r: String)
        ensures
            r@ == date_text(*self),
    {
        let s = format_date_chars(self);
        string_from(s.as_slice())
    }
}

/// The calendar date `time::Date::parse` reads from `s` with the ISO 8601
/// date format, as (year, month, day), or `None` when `s` is not such a date.
pub uninterp spec fn iso_date_of(s: Seq<char>) -> Option<(i32, u8, u8)>;

/// Parses `s` with `time::Date::parse` and the well-known ISO 8601 date
/// format, and takes the parsed date apart.
#[verifier::external_body]
fn iso_date_parts(s: &str) -> (r: Option<(i32, u8, u8)>)
    ensures
        r == iso_date_of(s@),
{
    let format = time::format_description::well_known::Iso8601::DATE;
    time::Date::parse(s, &format).ok().map(|d| (d.year(), d.month() as u8, d.day()))
}

/// The date an ISO 8601 text denotes, if it denotes a valid one.
pub closed spec fn parse_date_spec(s: Seq<char>) -> Option<Date> {
    match iso_date_of(s) {
        Some((y, m, d)) => if valid_date(y as int, m as int, d as int) {
            Some(Date { year: y, month: m, day: d })
        } else {
            None
        },
        None => None,
    }
}

impl Date {
    /// Parses an ISO 8601 calendar date such as `2024-03-15`.
    pub fn parse_iso(s: &str) -> (r: Option<Date>)
        ensures
            r == parse_date_spec(s@),
    {
        match iso_date_parts(s) {
            Some((y, m, d)) => Date::from_calendar_date(y, m, d),
            None => None,
        }
    }
}

/// `{:04}` applied to a year: four digits, or a sign and three digits.
pub open spec fn year_text(y: int) -> Seq<char> {
    if y < 0 {
        seq!['-'] + padded_decimal((-y) as nat, 3)
    } else {
        padded_decimal(y as nat, 4)
    }
}

/// `YYYY-MM-DD`.
pub open spec fn date_text(d: Date) -> Seq<char> {
    year_text(d.spec_year()) + seq!['-'] + padded_decimal(d.spec_month() as nat, 2) + seq!['-']
        + padded_decimal(d.spec_day() as nat, 2)
}

pub fn format_date_chars(d: &Date) -> (r: Vec<char>)
    ensures
        r@ == date_text(*d),
{
    d.check_valid();
    let y = d.year();
    let mut out: Vec<char> = Vec::new();
    if y < 0 {
        out.push('-');
        let a: u32 = (-y) as u32;
        let digits = padded_decimal_chars(a, 3);
        push_all(&mut out, digits.as_slice());
    } else {
        let digits = padded_decimal_chars(y as u32, 4);
        push_all(&mut out, digits.as_slice());
    }
    out.push('-');
    let m = padded_decimal_chars(d.month() as u32, 2);
    push_all(&mut out, m.as_slice());
    out.push('-');
    let dd = padded_decimal_chars(d.day() as u32, 2);
    push_all(&mut out, dd.as_slice());
    proof {
        assert(out@ =~= date_text(*d));
    }
    out
}

// ---------------------------------------------------------------------------
// Status
// ---------------------------------------------------------------------------
/// The mathematical view of a status.
pub enum StatusV {
    Proposed,
    Accepted,
    Deprecated,
    Superseded,
    Custom(Seq<char>),
}

/// The status of an ADR.
#[derive(Debug, PartialEq, Eq)]
pub enum AdrStatus {
    /// The decision is proposed but not yet accepted.
    Proposed,
    /// The decision has been accepted.
    Accepted,
    /// The decision has been deprecated.
    Deprecated,
    /// The decision has been superseded by another.
    Superseded,
    /// Custom status (for compatibility with other tools).
    Custom(String),
}

impl View for AdrStatus {
    type V = StatusV;

    open spec fn view(&self) -> StatusV {
        match self {
            AdrStatus::Proposed => StatusV::Proposed,
            AdrStatus::Accepted => StatusV::Accepted,
            AdrStatus::Deprecated => StatusV::Deprecated,
            AdrStatus::Superseded => StatusV::Superseded,
            AdrStatus::Custom(s) => StatusV::Custom(s@),
        }
    }
}

impl Clone for AdrStatus {
    fn clone(&self) -> (r: Self)
        ensures
            r@ == self@,
    {
        match self {
            AdrStatus::Proposed => AdrStatus::Proposed,
            AdrStatus::Accepted => AdrStatus::Accepted,
            AdrStatus::Deprecated => AdrStatus::Deprecated,
            AdrStatus::Superseded => AdrStatus::Superseded,
            AdrStatus::Custom(s) => AdrStatus::Custom(s.clone()),
        }
    }
}

impl Default for AdrStatus {
    fn default() -> (r: Self)
        ensures
            r@ == StatusV::Proposed,
    {
        AdrStatus::Proposed
    }
}

/// How a status is displayed.
pub open spec fn status_text(s: StatusV) -> Seq<char> {
    match s {
        StatusV::Proposed => "Proposed"@,
        StatusV::Accepted => "Accepted"@,
        StatusV::Deprecated => "Deprecated"@,
        StatusV::Superseded => "Superseded"@,
        StatusV::Custom(t) => t,
    }
}

/// The status named by `s`, whose lowercase is `lower`.
pub open spec fn status_from_lower(s: Seq<char>, lower: Seq<char>) -> StatusV {
    if lower == "proposed"@ {
        StatusV::Proposed
    } else if lower == "accepted"@ {
        StatusV::Accepted
    } else if lower == "deprecated"@ {
        StatusV::Deprecated
    } else if lower == "superseded"@ || lower == "superceded"@ {
        StatusV::Superseded
    } else {
        StatusV::Custom(s)
    }
}

/// The status a string names: the four known words in any letter case
/// (and the common misspelling "superceded"), anything else kept verbatim.
pub open spec fn status_from_str(s: Seq<char>) -> StatusV {
    status_from_lower(s, lowercase(s))
}

impl AdrStatus {
    /// The display text of the status (`Proposed`, ..., or the custom text).
    pub fn to_string(&self) -> (r: String)
        ensures
            r@ == status_text(self@),
    {
        match self {
            AdrStatus::Proposed => owned("Proposed"),
            AdrStatus::Accepted => owned("Accepted"),
            AdrStatus::Deprecated => owned("Deprecated"),
            AdrStatus::Superseded => owned("Superseded"),
            AdrStatus::Custom(s) => s.clone(),
        }
    }

    /// Parses a status; never fails (unknown text becomes a custom status).
    pub fn parse_str(s: &str) -> (r: AdrStatus)
        ensures
            r@ == status_from_str(s@),
    {
        let lower = to_lowercase(s);
        let l = chars_of(lower.as_str());
        if eq_str(l.as_slice(), "proposed") {
            AdrStatus::Proposed
        } else if eq_str(l.as_slice(), "accepted") {
            AdrStatus::Accepted
        } else if eq_str(l.as_slice(), "deprecated") {
            AdrStatus::Deprecated
        } else if eq_str(l.as_slice(), "superseded") || eq_str(l.as_slice(), "superceded") {
            AdrStatus::Superseded
        } else {
            AdrStatus::Custom(owned(s))
        }
    }

    pub fn is_superseded(&self) -> (r: bool)
        ensures
            r == (self@ == StatusV::Superseded),
    {
        match self {
            AdrStatus::Superseded => true,
            _ => false,
        }
    }
}

/// Parsing the display text of a standard status gives back that status.
pub proof fn lemma_status_text_roundtrip(s: StatusV)
    requires
        !(s matches StatusV::Custom(_)),
    ensures
        status_from_str(status_text(s)) == s,
{
    reveal_strlit("Proposed");
    reveal_strlit("Accepted");
    reveal_strlit("Deprecated");
    reveal_strlit("Superseded");
    reveal_strlit("proposed");
    reveal_strlit("accepted");
    reveal_strlit("deprecated");
    reveal_strlit("superseded");
    reveal_strlit("superceded");
    let t = status_text(s);
    assert(is_ascii_seq(t));
    assert(lowercase(t) =~= ascii_lower_seq(t));
    match s {
        StatusV::Proposed => {
            assert(ascii_lower_seq(t) =~= "proposed"@);
            assert(status_from_str(t) == s);
        },
        StatusV::Accepted => {
            assert(ascii_lower_seq(t) =~= "accepted"@);
            assert("accepted"@[0] != "proposed"@[0]);
            assert(status_from_str(t) == s);
        },
        StatusV::Deprecated => {
            assert(ascii_lower_seq(t) =~= "deprecated"@);
            assert(status_from_str(t) == s);
        },
        StatusV::Superseded => {
            assert(ascii_lower_seq(t) =~= "superseded"@);
            assert("superseded"@[0] != "deprecated"@[0]);
            assert(status_from_str(t) == s);
        },
        StatusV::Custom(_) => {},
    }
}

impl std::str::FromStr for AdrStatus {
    type Err = std::convert::Infallible;

    fn from_str(s: &str) -> (r: Result<Self, Self::Err>)
        ensures
            r matches Ok(v) && v@ == status_from_str(s@),
    {
        Ok(AdrStatus::parse_str(s))
    }
}

// ---------------------------------------------------------------------------
// Link kinds
// ---------------------------------------------------------------------------
/// The mathematical view of a link kind.
pub enum LinkKindV {
    Supersedes,
    SupersededBy,
    Amends,
    AmendedBy,
    RelatesTo,
    Custom(Seq<char>),
}

/// The kind of link between ADRs.
#[derive(Debug, PartialEq, Eq)]
pub enum LinkKind {
    /// This ADR supersedes the target.
    Supersedes,
    /// This ADR is superseded by the target.
    SupersededBy,
    /// This ADR amends the target.
    Amends,
    /// This ADR is amended by the target.
    AmendedBy,
    /// This ADR relates to the target.
    RelatesTo,
    /// Custom link type (for extensibility).
    Custom(String),
}

impl View for LinkKind {
    type V = LinkKindV;

    open spec fn view(&self) -> LinkKindV {
        match self {
            LinkKind::Supersedes => LinkKindV::Supersedes,
            LinkKind::SupersededBy => LinkKindV::SupersededBy,
            LinkKind::Amends => LinkKindV::Amends,
            LinkKind::AmendedBy => LinkKindV::AmendedBy,
            LinkKind::RelatesTo => LinkKindV::RelatesTo,
            LinkKind::Custom(s) => LinkKindV::Custom(s@),
        }
    }
}

impl Clone for LinkKind {
    fn clone(&self) -> (r: Self)
        ensures
            r@ == self@,
    {
        match self {
            LinkKind::Supersedes => LinkKind::Supersedes,
            LinkKind::SupersededBy => LinkKind::SupersededBy,
            LinkKind::Amends => LinkKind::Amends,
            LinkKind::AmendedBy => LinkKind::AmendedBy,
            LinkKind::RelatesTo => LinkKind::RelatesTo,
            LinkKind::Custom(s) => LinkKind::Custom(s.clone()),
        }
    }
}

/// How a link kind is displayed.
pub open spec fn link_kind_text(k: LinkKindV) -> Seq<char> {
    match k {
        LinkKindV::Supersedes => "Supersedes"@,
        LinkKindV::SupersededBy => "Superseded by"@,
        LinkKindV::Amends => "Amends"@,
        LinkKindV::AmendedBy => "Amended by"@,
        LinkKindV::RelatesTo => "Relates to"@,
        LinkKindV::Custom(t) => t,
    }
}

/// The link kind named by `s`, whose lowercase is `lower`.
pub open spec fn link_kind_from_lower(s: Seq<char>, lower: Seq<char>) -> LinkKindV {
    if lower == "supersedes"@ || lower == "supercedes"@ {
        LinkKindV::Supersedes
    } else if lower == "superseded by"@ || lower == "superseded-by"@ || lower == "superceded by"@
        || lower == "superceded-by"@ {
        LinkKindV::SupersededBy
    } else if lower == "amends"@ {
        LinkKindV::Amends
    } else if lower == "amended by"@ || lower == "amended-by"@ {
        LinkKindV::AmendedBy
    } else if lower == "relates to"@ || lower == "relates-to"@ {
        LinkKindV::RelatesTo
    } else {
        LinkKindV::Custom(s)
    }
}

/// The link kind a string names (letter case ignored, with space or dash
/// spellings and the "superceded" misspelling); anything else is custom.
pub open spec fn link_kind_from_str(s: Seq<char>) -> LinkKindV {
    link_kind_from_lower(s, lowercase(s))
}

impl LinkKind {
    /// The display text of the kind (`Supersedes`, `Superseded by`, ...).
    pub fn to_string(&self) -> (r: String)
        ensures
            r@ == link_kind_text(self@),
    {
        match self {
            LinkKind::Supersedes => owned("Supersedes"),
            LinkKind::SupersededBy => owned("Superseded by"),
            LinkKind::Amends => owned("Amends"),
            LinkKind::AmendedBy => owned("Amended by"),
            LinkKind::RelatesTo => owned("Relates to"),
            LinkKind::Custom(s) => s.clone(),
        }
    }

    /// Parses a link kind; never fails (unknown text becomes a custom kind).
    pub fn parse_str(s: &str) -> (r: LinkKind)
        ensures
            r@ == link_kind_from_str(s@),
    {
        let lower = to_lowercase(s);
        let l = chars_of(lower.as_str());
        let l = l.as_slice();
        if eq_str(l, "supersedes") || eq_str(l, "supercedes") {
            LinkKind::Supersedes
        } else if eq_str(l, "superseded by") || eq_str(l, "superseded-by") || eq_str(
            l,
            "superceded by",
        ) || eq_str(l, "superceded-by") {
            LinkKind::SupersededBy
        } else if eq_str(l, "amends") {
            LinkKind::Amends
        } else if eq_str(l, "amended by") || eq_str(l, "amended-by") {
            LinkKind::AmendedBy
        } else if eq_str(l, "relates to") || eq_str(l, "relates-to") {
            LinkKind::RelatesTo
        } else {
            LinkKind::Custom(owned(s))
        }
    }

    pub fn is_superseded_by(&self) -> (r: bool)
        ensures
            r == (self@ == LinkKindV::SupersededBy),
    {
        match self {
            LinkKind::SupersededBy => true,
            _ => false,
        }
    }
}

/// Parsing the display text of a standard link kind gives back that kind.
pub proof fn lemma_link_kind_text_roundtrip(k: LinkKindV)
    requires
        !(k is Custom),
    ensures
        link_kind_from_str(link_kind_text(k)) == k,
{
    reveal_strlit("Supersedes");
    reveal_strlit("Superseded by");
    reveal_strlit("Amends");
    reveal_strlit("Amended by");
    reveal_strlit("Relates to");
    reveal_strlit("supersedes");
    reveal_strlit("supercedes");
    reveal_strlit("superseded by");
    reveal_strlit("superseded-by");
    reveal_strlit("superceded by");
    reveal_strlit("superceded-by");
    reveal_strlit("amends");
    reveal_strlit("amended by");
    reveal_strlit("amended-by");
    reveal_strlit("relates to");
    reveal_strlit("relates-to");
    let t = link_kind_text(k);
    assert(is_ascii_seq(t));
    assert(lowercase(t) =~= ascii_lower_seq(t));
    match k {
        LinkKindV::Supersedes => {
            assert(ascii_lower_seq(t) =~= "supersedes"@);
        },
        LinkKindV::SupersededBy => {
            assert(ascii_lower_seq(t) =~= "superseded by"@);
        },
        LinkKindV::Amends => {
            assert(ascii_lower_seq(t) =~= "amends"@);
        },
        LinkKindV::AmendedBy => {
            assert(ascii_lower_seq(t) =~= "amended by"@);
            assert("amended by"@[0] != "supersedes"@[0]);
            assert("amended by"@[0] != "supercedes"@[0]);
        },
        LinkKindV::RelatesTo => {
            assert(ascii_lower_seq(t) =~= "relates to"@);
            assert("relates to"@[0] != "supersedes"@[0]);
            assert("relates to"@[0] != "supercedes"@[0]);
            assert("relates to"@[0] != "amended by"@[0]);
            assert("relates to"@[0] != "amended-by"@[0]);
        },
        LinkKindV::Custom(_) => {},
    }
}

impl std::str::FromStr for LinkKind {
    type Err = std::convert::Infallible;

    fn from_str(s: &str) -> (r: Result<Self, Self::Err>)
        ensures
            r matches Ok(v) && v@ == link_kind_from_str(s@),
    {
        Ok(LinkKind::parse_str(s))
    }
}

// ---------------------------------------------------------------------------
// Links
// ---------------------------------------------------------------------------
/// The mathematical view of a link.
pub struct AdrLinkV {
    pub target: u32,
    pub kind: LinkKindV,
    pub description: Option<Seq<char>>,
}

/// A link between ADRs.
#[derive(Debug, PartialEq, Eq)]
pub struct AdrLink {
    /// The target ADR number.
    pub target: u32,
    /// The kind of link.
    pub kind: LinkKind,
    /// Optional description of the link.
    pub description: Option<String>,
}

pub open spec fn opt_str_view(o: Option<String>) -> Option<Seq<char>> {
    match o {
        Some(s) => Some(s@),
        None => None,
    }
}

pub fn clone_opt_string(o: &Option<String>) -> (r: Option<String>)
    ensures
        opt_str_view(r) == opt_str_view(*o),
{
    match o {
        Some(s) => Some(s.clone()),
        None => None,
    }
}

impl View for AdrLink {
    type V = AdrLinkV;

    open spec fn view(&self) -> AdrLinkV {
        AdrLinkV { target: self.target, kind: self.kind@, description: opt_str_view(self.description) }
    }
}

impl Clone for AdrLink {
    fn clone(&self) -> (r: Self)
        ensures
            r@ == self@,
    {
        AdrLink {
            target: self.target,
            kind: self.kind.clone(),
            description: clone_opt_string(&self.description),
        }
    }
}

impl AdrLink {
    /// Create a new link to another ADR.
    pub fn new(target: u32, kind: LinkKind) -> (r: AdrLink)
        ensures
            r@ == (AdrLinkV { target, kind: kind@, description: None }),
    {
        AdrLink { target, kind, description: None }
    }

    /// Create a new link with a description.
    pub fn with_description(target: u32, kind: LinkKind, description: &str) -> (r: AdrLink)
        ensures
            r@ == (AdrLinkV { target, kind: kind@, description: Some(description@) }),
    {
        AdrLink { target, kind, description: Some(owned(description)) }
    }
}

pub open spec fn links_view(v: Seq<AdrLink>) -> Seq<AdrLinkV> {
    v.map_values(|l: AdrLink| l@)
}

pub open spec fn strings_view(v: Seq<String>) -> Seq<Seq<char>> {
    v.map_values(|s: String| s@)
}

pub fn clone_links(v: &Vec<AdrLink>) -> (r: Vec<AdrLink>)
    ensures
        links_view(r@) == links_view(v@),
{
    let mut r: Vec<AdrLink> = Vec::new();
    let mut i: usize = 0;
    while i < v.len()
        invariant
            i <= v@.len(),
            links_view(r@) == links_view(v@.subrange(0, i as int)),
        decreases v@.len() - i,
    {
        r.push(v[i].clone());
        i += 1;
        proof {
            assert(links_view(v@.subrange(0, i as int)) =~= links_view(v@.subrange(0, i - 1)).push(
                v@[i - 1]@,
            ));
            assert(links_view(r@) =~= links_view(v@.subrange(0, i - 1)).push(v@[i - 1]@));
        }
    }
    proof {
        assert(v@.subrange(0, v@.len() as int) =~= v@);
    }
    r
}

pub fn clone_strings(v: &Vec<String>) -> (r: Vec<String>)
    ensures
        strings_view(r@) == strings_view(v@),
{
    let mut r: Vec<String> = Vec::new();
    let mut i: usize = 0;
    while i < v.len()
        invariant
            i <= v@.len(),
            strings_view(r@) == strings_view(v@.subrange(0, i as int)),
        decreases v@.len() - i,
    {
        r.push(v[i].clone());
        i += 1;
        proof {
            assert(strings_view(v@.subrange(0, i as int)) =~= strings_view(
                v@.subrange(0, i - 1),
            ).push(v@[i - 1]@));
            assert(strings_view(r@) =~= strings_view(v@.subrange(0, i - 1)).push(v@[i - 1]@));
        }
    }
    proof {
        assert(v@.subrange(0, v@.len() as int) =~= v@);
    }
    r
}

// ---------------------------------------------------------------------------
// Slugs
// ---------------------------------------------------------------------------
/// Builds a slug from `s[i..]`, given the output so far and whether a
/// separator is pending: ASCII letters and digits are kept, every other run of
/// characters becomes a single dash between two kept runs.
pub open spec fn slug_from(s: Seq<char>, i: int, out: Seq<char>, pending: bool) -> Seq<char>
    decreases s.len() - i,
{
    if i < 0 || i >= s.len() {
        out
    } else if is_ascii_alnum_char(s[i]) {
        let base = if pending && out.len() > 0 {
            out.push('-')
        } else {
            out
        };
        slug_from(s, i + 1, base.push(s[i]), false)
    } else {
        slug_from(s, i + 1, out, true)
    }
}

/// The slug of a title: its lowercase, with only ASCII letters and
/// digits kept, each run of other characters turned into one dash, and no
/// dash at either end.
pub open spec fn slug_spec(title: Seq<char>) -> Seq<char> {
    slug_from(lowercase(title), 0, seq![], false)
}

/// A well-formed slug: only lowercase ASCII letters, digits and dashes, no
/// dash at either end and no two dashes in a row.
pub open spec fn is_slug(s: Seq<char>) -> bool {
    &&& forall|i: int|
        0 <= i < s.len() ==> (is_ascii_lower_char(#[trigger] s[i]) || is_ascii_digit_char(s[i])
            || s[i] == '-')
    &&& (s.len() > 0 ==> s[0] != '-' && s.last() != '-')
    &&& forall|i: int| 0 <= i < s.len() - 1 ==> !(#[trigger] s[i] == '-' && s[i + 1] == '-')
}

/// No character of `s` is an ASCII capital letter.
pub open spec fn no_ascii_upper(s: Seq<char>) -> bool {
    forall|i: int| 0 <= i < s.len() ==> !is_ascii_upper_char(#[trigger] s[i])
}

pub proof fn lemma_slug_from_wf(s: Seq<char>, i: int, out: Seq<char>, pending: bool)
    requires
        0 <= i,
        no_ascii_upper(s),
        is_slug(out),
    ensures
        is_slug(slug_from(s, i, out, pending)),
    decreases s.len() - i,
{
    if i < s.len() {
        if is_ascii_alnum_char(s[i]) {
            let base = if pending && out.len() > 0 {
                out.push('-')
            } else {
                out
            };
            let next = base.push(s[i]);
            assert(!is_ascii_upper_char(s[i]));
            assert forall|k: int| 0 <= k < next.len() - 1 implies !(#[trigger] next[k] == '-'
                && next[k + 1] == '-') by {
                if k < out.len() - 1 {
                    assert(next[k] == out[k] && next[k + 1] == out[k + 1]);
                }
            }
            assert forall|k: int| 0 <= k < next.len() implies (is_ascii_lower_char(
                #[trigger] next[k],
            ) || is_ascii_digit_char(next[k]) || next[k] == '-') by {
                if k < out.len() {
                    assert(next[k] == out[k]);
                }
            }
            lemma_slug_from_wf(s, i + 1, next, false);
        } else {
            lemma_slug_from_wf(s, i + 1, out, true);
        }
    }
}

/// The slug of a title is always well formed.
pub proof fn lemma_slug_well_formed(title: Seq<char>)
    requires
        no_ascii_upper(lowercase(title)),
    ensures
        is_slug(slug_spec(title)),
{
    lemma_slug_from_wf(lowercase(title), 0, seq![], false);
}

pub fn is_ascii_alnum(c: char) -> (r: bool)
    ensures
        r == is_ascii_alnum_char(c),
{
    ('0' <= c && c <= '9') || ('A' <= c && c <= 'Z') || ('a' <= c && c <= 'z')
}

/// Convert a title to a URL-safe slug.
///
/// Only ASCII alphanumeric characters are preserved; everything else becomes a dash.
/// Consecutive dashes are collapsed, and leading/trailing dashes are removed.
pub fn slug(title: &str) -> (r: String)
    ensures
        r@ == slug_spec(title@),
        is_slug(r@),
{
    let lower = to_lowercase(title);
    let s = chars_of(lower.as_str());
    let mut out: Vec<char> = Vec::new();
    let mut pending = false;
    let mut i: usize = 0;
    while i < s.len()
        invariant
            i <= s@.len(),
            slug_from(s@, i as int, out@, pending) == slug_from(s@, 0, seq![], false),
        decreases s@.len() - i,
    {
        let c = s[i];
        if is_ascii_alnum(c) {
            if pending && out.len() > 0 {
                out.push('-');
            }
            out.push(c);
            pending = false;
        } else {
            pending = true;
        }
        i += 1;
    }
    proof {
        lemma_slug_from_wf(s@, 0, seq![], false);
    }
    string_from(out.as_slice())
}

// ---------------------------------------------------------------------------
// ADRs
// ---------------------------------------------------------------------------
/// The mathematical view of an ADR.
pub struct AdrV {
    pub number: u32,
    pub title: Seq<char>,
    pub date: Date,
    pub status: StatusV,
    pub links: Seq<AdrLinkV>,
    pub decision_makers: Seq<Seq<char>>,
    pub consulted: Seq<Seq<char>>,
    pub informed: Seq<Seq<char>>,
    pub tags: Seq<Seq<char>>,
    pub context: Seq<char>,
    pub decision: Seq<char>,
    pub consequences: Seq<char>,
    pub path: Option<Seq<char>>,
}

/// An Architecture Decision Record.
#[derive(Debug, PartialEq, Eq)]
pub struct Adr {
    /// The ADR number (e.g., 1, 2, 3).
    pub number: u32,
    /// The title of the decision.
    pub title: String,
    /// The date the decision was made.
    pub date: Date,
    /// The current status of the decision.
    pub status: AdrStatus,
    /// Links to other ADRs.
    pub links: Vec<AdrLink>,
    /// People who made the decision (MADR `decision-makers`).
    pub decision_makers: Vec<String>,
    /// People whose opinions were sought (MADR `consulted`).
    pub consulted: Vec<String>,
    /// People informed after the decision (MADR `informed`).
    pub informed: Vec<String>,
    /// Categorization labels.
    pub tags: Vec<String>,
    /// The context section (why this decision was needed).
    pub context: String,
    /// The decision section (what was decided).
    pub decision: String,
    /// The consequences section (what happens as a result).
    pub consequences: String,
    /// Path to the ADR file.
    pub path: Option<String>,
}

impl View for Adr {
    type V = AdrV;

    open spec fn view(&self) -> AdrV {
        AdrV {
            number: self.number,
            title: self.title@,
            date: self.date,
            status: self.status@,
            links: links_view(self.links@),
            decision_makers: strings_view(self.decision_makers@),
            consulted: strings_view(self.consulted@),
            informed: strings_view(self.informed@),
            tags: strings_view(self.tags@),
            context: self.context@,
            decision: self.decision@,
            consequences: self.consequences@,
            path: opt_str_view(self.path),
        }
    }
}

impl Clone for Adr {
    fn clone(&self) -> (r: Self)
        ensures
            r@ == self@,
    {
        Adr {
            number: self.number,
            title: self.title.clone(),
            date: self.date,
            status: self.status.clone(),
            links: clone_links(&self.links),
            decision_makers: clone_strings(&self.decision_makers),
            consulted: clone_strings(&self.consulted),
            informed: clone_strings(&self.informed),
            tags: clone_strings(&self.tags),
            context: self.context.clone(),
            decision: self.decision.clone(),
            consequences: self.consequences.clone(),
            path: clone_opt_string(&self.path),
        }
    }
}

/// A fresh ADR: the given number, title and date, status `Proposed`, and
/// everything else empty.
pub open spec fn new_adr_view(number: u32, title: Seq<char>, date: Date) -> AdrV {
    AdrV {
        number,
        title,
        date,
        status: StatusV::Proposed,
        links: seq![],
        decision_makers: seq![],
        consulted: seq![],
        informed: seq![],
        tags: seq![],
        context: seq![],
        decision: seq![],
        consequences: seq![],
        path: None,
    }
}

/// `NNNN-slug.md`: the number zero-padded to four digits, a dash, the slug of
/// the title, and `.md`.
pub open spec fn filename_spec(number: u32, title: Seq<char>) -> Seq<char> {
    padded_decimal(number as nat, 4) + seq!['-'] + slug_spec(title) + ".md"@
}

/// `N. Title`.
pub open spec fn full_title_spec(number: u32, title: Seq<char>) -> Seq<char> {
    decimal(number as nat) + ". "@ + title
}

/// Reads the current UTC date from the system clock, as
/// `time::OffsetDateTime::now_utc` gives it, as (year, month, day). The
/// result depends on the clock, so nothing is promised of it.
#[verifier::external_body]
fn today_utc() -> (i32, u8, u8) {
    let now = time::OffsetDateTime::now_utc();
    (now.year(), now.month() as u8, now.day())
}

/// The date 2024-01-01, used when the clock gives an unusable date.
pub fn fallback_date() -> (d: Date)
    ensures
        d.spec_year() == 2024 && d.spec_month() == 1 && d.spec_day() == 1,
{
    match Date::from_calendar_date(2024, 1, 1) {
        Some(d) => d,
        None => {
            proof {
                assert(valid_date(2024, 1, 1));
            }
            Date { year: 2024, month: 1, day: 1 }
        },
    }
}

/// Format a date as `YYYY-MM-DD`.
pub fn format_date(date: Date) -> (r: String)
    ensures
        r@ == date_text(date),
{
    date.format()
}

/// The date a clock reading `(year, month, day)` stands for: the reading
/// itself when it is a calendar date, else 2024-01-01.
pub fn date_from_clock(year: i32, month: u8, day: u8) -> (r: Date)
    ensures
        valid_date(year as int, month as int, day as int) ==> r.spec_year() == year && r.spec_month()
            == month && r.spec_day() == day,
        !valid_date(year as int, month as int, day as int) ==> r.spec_year() == 2024 && r.spec_month()
            == 1 && r.spec_day() == 1,
{
    match Date::from_calendar_date(year, month, day) {
        Some(date) => date,
        None => fallback_date(),
    }
}

/// Today's date (UTC): always a calendar date.
pub fn today() -> (r: Date)
    ensures
        valid_date(r.spec_year(), r.spec_month(), r.spec_day()),
{
    let (y, m, d) = today_utc();
    let r = date_from_clock(y, m, d);
    proof {
        use_type_invariant(&r);
    }
    r
}

impl Adr {
    /// Create a new ADR with the given number and title, dated today.
    pub fn new(number: u32, title: &str) -> (r: Adr)
        ensures
            r@ == new_adr_view(number, title@, r.date),
    {
        Adr::with_date(number, title, today())
    }

    /// Create a new ADR with the given number, title and date.
    pub fn with_date(number: u32, title: &str, date: Date) -> (r: Adr)
        ensures
            r@ == new_adr_view(number, title@, date),
    {
        let r = Adr {
            number,
            title: owned(title),
            date,
            status: AdrStatus::Proposed,
            links: Vec::new(),
            decision_makers: Vec::new(),
            consulted: Vec::new(),
            informed: Vec::new(),
            tags: Vec::new(),
            context: String::new(),
            decision: String::new(),
            consequences: String::new(),
            path: None,
        };
        proof {
            assert(r@.links =~= Seq::<AdrLinkV>::empty());
            assert(r@.decision_makers =~= Seq::<Seq<char>>::empty());
            assert(r@.consulted =~= Seq::<Seq<char>>::empty());
            assert(r@.informed =~= Seq::<Seq<char>>::empty());
            assert(r@.tags =~= Seq::<Seq<char>>::empty());
        }
        r
    }

    /// Returns the formatted filename for this ADR.
    pub fn filename(&self) -> (r: String)
        ensures
            r@ == filename_spec(self.number, self.title@),
    {
        let mut out = padded_decimal_chars(self.number, 4);
        out.push('-');
        let s = slug(self.title.as_str());
        push_str_chars(&mut out, s.as_str());
        push_str_chars(&mut out, ".md");
        string_from(out.as_slice())
    }

    /// Returns the full title with number prefix (e.g., "1. Use Rust").
    pub fn full_title(&self) -> (r: String)
        ensures
            r@ == full_title_spec(self.number, self.title@),
    {
        let mut out = decimal_chars(self.number);
        push_str_chars(&mut out, ". ");
        push_str_chars(&mut out, self.title.as_str());
        string_from(out.as_slice())
    }

    /// Add a link to another ADR.
    pub fn add_link(&mut self, link: AdrLink)
        ensures
            final(self)@ == (AdrV { links: old(self)@.links.push(link@), ..old(self)@ }),
    {
        self.links.push(link);
        proof {
            assert(links_view(self.links@) =~= links_view(old(self).links@).push(link@));
        }
    }

    /// Set the status.
    pub fn set_status(&mut self, status: AdrStatus)
        ensures
            final(self)@ == (AdrV { status: status@, ..old(self)@ }),
    {
        self.status = status;
    }
}

} // verus!
