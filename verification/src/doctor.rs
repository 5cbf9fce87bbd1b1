//! Health checks for ADR repositories.

use crate::paths::{file_name, final_component};
use crate::text::{
    chars_of, clone_string, decimal, decimal_chars, decimal_chars_u64, join, join_spec, owned,
    padded_decimal, padded_decimal_chars, push_all, push_str_chars, starts_with,
    starts_with_spec, string_from, trim, trim_spec,
};
use crate::types::{
    clone_opt_string, opt_str_view, Adr, AdrLinkV, AdrStatus, AdrV, LinkKind, LinkKindV, StatusV,
};
use vstd::prelude::*;

verus! {

/// The severity level of a diagnostic.
#[derive(Debug, Clone, Copy, PartialEq, Eq, PartialOrd, Ord, Structural)]
pub enum Severity {
    /// Informational message.
    Info,
    /// Warning that should be addressed.
    Warning,
    /// Error that needs to be fixed.
    Error,
}

impl Severity {
    /// The severity's name (`info`, `warning` or `error`).
    pub fn to_string(&self) -> (r: String)
        ensures
            r@ == match *self {
                Severity::Info => "info"@,
                Severity::Warning => "warning"@,
                Severity::Error => "error"@,
            },
    {
        match self {
            Severity::Info => owned("info"),
            Severity::Warning => owned("warning"),
            Severity::Error => owned("error"),
        }
    }
}

/// The type of health check.
#[derive(Debug, Clone, Copy, PartialEq, Eq, Hash, Structural)]
pub enum Check {
    /// Check for duplicate ADR numbers.
    DuplicateNumbers,
    /// Check for proper file naming (4-digit padded IDs).
    FileNaming,
    /// Check that all ADRs have a status.
    MissingStatus,
    /// Check that linked ADRs exist.
    BrokenLinks,
    /// Check for sequential numbering gaps.
    NumberingGaps,
    /// Check that superseded ADRs have a superseding link.
    SupersededLinks,
}

impl Check {
    /// The check's name (`duplicate-numbers`, `file-naming`, ...).
    pub fn to_string(&self) -> (r: String)
        ensures
            r@ == match *self {
                Check::DuplicateNumbers => "duplicate-numbers"@,
                Check::FileNaming => "file-naming"@,
                Check::MissingStatus => "missing-status"@,
                Check::BrokenLinks => "broken-links"@,
                Check::NumberingGaps => "numbering-gaps"@,
                Check::SupersededLinks => "superseded-links"@,
            },
    {
        match self {
            Check::DuplicateNumbers => owned("duplicate-numbers"),
            Check::FileNaming => owned("file-naming"),
            Check::MissingStatus => owned("missing-status"),
            Check::BrokenLinks => owned("broken-links"),
            Check::NumberingGaps => owned("numbering-gaps"),
            Check::SupersededLinks => owned("superseded-links"),
        }
    }
}

/// The mathematical view of a diagnostic.
pub struct DiagnosticV {
    pub severity: Severity,
    pub check: Check,
    pub message: Seq<char>,
    pub path: Option<Seq<char>>,
    pub adr_number: Option<u32>,
}

/// A diagnostic message from a health check.
#[derive(Debug)]
pub struct Diagnostic {
    /// The severity of this diagnostic.
    pub severity: Severity,
    /// The check that produced this diagnostic.
    pub check: Check,
    /// A human-readable message describing the issue.
    pub message: String,
    /// The path to the affected file, if applicable.
    pub path: Option<String>,
    /// The ADR number, if applicable.
    pub adr_number: Option<u32>,
}

impl View for Diagnostic {
    type V = DiagnosticV;

    open spec fn view(&self) -> DiagnosticV {
        DiagnosticV {
            severity: self.severity,
            check: self.check,
            message: self.message@,
            path: crate::types::opt_str_view(self.path),
            adr_number: self.adr_number,
        }
    }
}

impl Diagnostic {
    /// Create a new diagnostic.
    pub fn new(severity: Severity, check: Check, message: &str) -> (r: Self)
        ensures
            r@ == (DiagnosticV { severity, check, message: message@, path: None, adr_number: None }),
    {
        Diagnostic { severity, check, message: owned(message), path: None, adr_number: None }
    }

    /// Set the path for this diagnostic.
    pub fn with_path(self, path: &str) -> (r: Self)
        ensures
            r@ == (DiagnosticV { path: Some(path@), ..self@ }),
    {
        Diagnostic { path: Some(owned(path)), ..self }
    }

    /// Set the ADR number for this diagnostic.
    pub fn with_adr(self, number: u32) -> (r: Self)
        ensures
            r@ == (DiagnosticV { adr_number: Some(number), ..self@ }),
    {
        Diagnostic { adr_number: Some(number), ..self }
    }
}

pub open spec fn diags_view(v: Seq<Diagnostic>) -> Seq<DiagnosticV> {
    v.map_values(|d: Diagnostic| d@)
}

/// Results from running health checks.
#[derive(Debug)]
pub struct DoctorReport {
    /// All diagnostics found.
    pub diagnostics: Vec<Diagnostic>,
}

/// How many diagnostics have the given severity.
pub open spec fn count_severity(ds: Seq<DiagnosticV>, s: Severity) -> nat
    decreases ds.len(),
{
    if ds.len() == 0 {
        0
    } else {
        count_severity(ds.drop_last(), s) + if ds.last().severity == s {
            1nat
        } else {
            0nat
        }
    }
}

pub open spec fn has_severity(ds: Seq<DiagnosticV>, s: Severity) -> bool {
    exists|i: int| 0 <= i < ds.len() && #[trigger] ds[i].severity == s
}

impl Default for DoctorReport {
    fn default() -> (r: Self)
        ensures
            r.diagnostics@.len() == 0,
    {
        DoctorReport { diagnostics: Vec::new() }
    }
}

impl DoctorReport {
    /// Create a new empty report.
    pub fn new() -> (r: Self)
        ensures
            r.diagnostics@.len() == 0,
    {
        DoctorReport { diagnostics: Vec::new() }
    }

    /// Add a diagnostic to the report.
    pub fn add(&mut self, diagnostic: Diagnostic)
        ensures
            final(self).diagnostics@ == old(self).diagnostics@.push(diagnostic),
    {
        self.diagnostics.push(diagnostic);
    }

    fn has(&self, s: Severity) -> (r: bool)
        ensures
            r == has_severity(diags_view(self.diagnostics@), s),
    {
        let ghost dv = diags_view(self.diagnostics@);
        let mut i: usize = 0;
        while i < self.diagnostics.len()
            invariant
                i <= self.diagnostics@.len(),
                dv == diags_view(self.diagnostics@),
                forall|k: int| 0 <= k < i ==> dv[k].severity != s,
            decreases self.diagnostics@.len() - i,
        {
            if self.diagnostics[i].severity == s {
                proof {
                    assert(dv[i as int].severity == s);
                }
                return true;
            }
            i += 1;
        }
        false
    }

    /// Check if there are any errors.
    pub fn has_errors(&self) -> (r: bool)
        ensures
            r == has_severity(diags_view(self.diagnostics@), Severity::Error),
    {
        self.has(Severity::Error)
    }

    /// Check if there are any warnings.
    pub fn has_warnings(&self) -> (r: bool)
        ensures
            r == has_severity(diags_view(self.diagnostics@), Severity::Warning),
    {
        self.has(Severity::Warning)
    }

    /// Check if the report is clean (no warnings or errors).
    pub fn is_healthy(&self) -> (r: bool)
        ensures
            r == (!has_severity(diags_view(self.diagnostics@), Severity::Error) && !has_severity(
                diags_view(self.diagnostics@),
                Severity::Warning,
            )),
    {
        !self.has_errors() && !self.has_warnings()
    }

    /// Get the count of diagnostics by severity.
    pub fn count_by_severity(&self, severity: Severity) -> (r: usize)
        ensures
            r == count_severity(diags_view(self.diagnostics@), severity),
    {
        let ghost dv = diags_view(self.diagnostics@);
        let mut n: usize = 0;
        let mut i: usize = 0;
        proof {
            assert(dv.take(0) =~= Seq::<DiagnosticV>::empty());
        }
        while i < self.diagnostics.len()
            invariant
                i <= self.diagnostics@.len(),
                dv == diags_view(self.diagnostics@),
                n == count_severity(dv.take(i as int), severity),
                n <= i,
            decreases self.diagnostics@.len() - i,
        {
            proof {
                assert(dv.take(i + 1).drop_last() =~= dv.take(i as int));
            }
            if self.diagnostics[i].severity == severity {
                n += 1;
            }
            i += 1;
        }
        proof {
            assert(dv.take(self.diagnostics@.len() as int) =~= dv);
        }
        n
    }
}

// ---------------------------------------------------------------------------
// Specifications of the checks
// ---------------------------------------------------------------------------
pub open spec fn adrs_view(v: Seq<Adr>) -> Seq<AdrV> {
    v.map_values(|a: Adr| a@)
}

/// The text of a path, or the empty path.
pub open spec fn path_or_empty(p: Option<Seq<char>>) -> Seq<char> {
    match p {
        Some(t) => t,
        None => seq![],
    }
}

/// Whether the ADR at index `i` is the first with its number.
pub open spec fn first_with_number(adrs: Seq<AdrV>, i: int) -> bool {
    forall|j: int| 0 <= j < i ==> #[trigger] adrs[j].number != adrs[i].number
}

/// How many ADRs carry the number `n`.
pub open spec fn count_number(adrs: Seq<AdrV>, n: u32) -> nat
    decreases adrs.len(),
{
    if adrs.len() == 0 {
        0
    } else {
        count_number(adrs.drop_last(), n) + if adrs.last().number == n {
            1nat
        } else {
            0nat
        }
    }
}

/// The file names of the ADRs numbered `n` (those with a path that has one).
pub open spec fn names_with_number(adrs: Seq<AdrV>, n: u32) -> Seq<Seq<char>>
    decreases adrs.len(),
{
    if adrs.len() == 0 {
        seq![]
    } else {
        let rest = names_with_number(adrs.drop_last(), n);
        let a = adrs.last();
        if a.number == n {
            match a.path {
                Some(p) => match final_component(p) {
                    Some(f) => rest.push(f),
                    None => rest,
                },
                None => rest,
            }
        } else {
            rest
        }
    }
}

pub open spec fn duplicate_diag(adrs: Seq<AdrV>, n: u32) -> DiagnosticV {
    DiagnosticV {
        severity: Severity::Error,
        check: Check::DuplicateNumbers,
        message: "ADR number "@ + decimal(n as nat) + " is used by multiple files: "@ + join_spec(
            names_with_number(adrs, n),
            ", "@,
        ),
        path: None,
        adr_number: Some(n),
    }
}

/// One error per number used by more than one ADR (among the first `i`),
/// in the order the numbers first appear.
pub open spec fn duplicate_diags(adrs: Seq<AdrV>, i: int) -> Seq<DiagnosticV>
    decreases i,
{
    if i <= 0 || i > adrs.len() {
        seq![]
    } else {
        let rest = duplicate_diags(adrs, i - 1);
        if first_with_number(adrs, i - 1) && count_number(adrs, adrs[i - 1].number) > 1 {
            rest.push(duplicate_diag(adrs, adrs[i - 1].number))
        } else {
            rest
        }
    }
}

/// The prefix a file name must start with: the number padded to four digits
/// and a dash.
pub open spec fn expected_prefix(n: u32) -> Seq<char> {
    padded_decimal(n as nat, 4) + "-"@
}

/// A warning for each ADR (among the first `i`) whose file name does not
/// start with its padded number.
pub open spec fn naming_diags(adrs: Seq<AdrV>, i: int) -> Seq<DiagnosticV>
    decreases i,
{
    if i <= 0 || i > adrs.len() {
        seq![]
    } else {
        let rest = naming_diags(adrs, i - 1);
        let a = adrs[i - 1];
        match a.path {
            Some(p) => match final_component(p) {
                Some(f) => if !starts_with_spec(f, expected_prefix(a.number)) {
                    rest.push(
                        DiagnosticV {
                            severity: Severity::Warning,
                            check: Check::FileNaming,
                            message: "File '"@ + f + "' should start with '"@ + expected_prefix(
                                a.number,
                            ) + "'"@,
                            path: Some(p),
                            adr_number: Some(a.number),
                        },
                    )
                } else {
                    rest
                },
                None => rest,
            },
            None => rest,
        }
    }
}

/// `ADR N 'Title'`.
pub open spec fn adr_label(a: AdrV) -> Seq<char> {
    "ADR "@ + decimal(a.number as nat) + " '"@ + a.title + "'"@
}

/// A warning for each ADR (among the first `i`) whose custom status is blank.
pub open spec fn missing_status_diags(adrs: Seq<AdrV>, i: int) -> Seq<DiagnosticV>
    decreases i,
{
    if i <= 0 || i > adrs.len() {
        seq![]
    } else {
        let rest = missing_status_diags(adrs, i - 1);
        let a = adrs[i - 1];
        match a.status {
            StatusV::Custom(s) => if trim_spec(s).len() == 0 {
                rest.push(
                    DiagnosticV {
                        severity: Severity::Warning,
                        check: Check::MissingStatus,
                        message: adr_label(a) + " has an empty status"@,
                        path: Some(path_or_empty(a.path)),
                        adr_number: Some(a.number),
                    },
                )
            } else {
                rest
            },
            _ => rest,
        }
    }
}

/// Whether some ADR carries the number `n`.
pub open spec fn has_number(adrs: Seq<AdrV>, n: u32) -> bool {
    exists|j: int| 0 <= j < adrs.len() && #[trigger] adrs[j].number == n
}

/// The broken-link errors of ADR `a` for its first `k` links.
pub open spec fn broken_links_of(adrs: Seq<AdrV>, a: AdrV, k: int) -> Seq<DiagnosticV>
    decreases k,
{
    if k <= 0 || k > a.links.len() {
        seq![]
    } else {
        let rest = broken_links_of(adrs, a, k - 1);
        let t = a.links[k - 1].target;
        if !has_number(adrs, t) {
            rest.push(
                DiagnosticV {
                    severity: Severity::Error,
                    check: Check::BrokenLinks,
                    message: adr_label(a) + " links to non-existent ADR "@ + decimal(t as nat),
                    path: Some(path_or_empty(a.path)),
                    adr_number: Some(a.number),
                },
            )
        } else {
            rest
        }
    }
}

/// An error for each link (of the first `i` ADRs) to a number no ADR has.
pub open spec fn broken_link_diags(adrs: Seq<AdrV>, i: int) -> Seq<DiagnosticV>
    decreases i,
{
    if i <= 0 || i > adrs.len() {
        seq![]
    } else {
        broken_link_diags(adrs, i - 1) + broken_links_of(adrs, adrs[i - 1], adrs[i - 1].links.len() as int)
    }
}

/// The numbers from `lo` up to (not including) `hi` that no ADR has.
pub open spec fn missing_numbers(adrs: Seq<AdrV>, lo: int, hi: int) -> Seq<u32>
    decreases hi - lo,
{
    if hi <= lo {
        seq![]
    } else {
        let rest = missing_numbers(adrs, lo, hi - 1);
        if !has_number(adrs, (hi - 1) as u32) {
            rest.push((hi - 1) as u32)
        } else {
            rest
        }
    }
}

/// The smallest ADR number (0 for no ADRs).
pub open spec fn min_number(adrs: Seq<AdrV>) -> u32
    decreases adrs.len(),
{
    if adrs.len() == 0 {
        0
    } else if adrs.len() == 1 {
        adrs[0].number
    } else {
        let m = min_number(adrs.drop_last());
        if adrs.last().number < m {
            adrs.last().number
        } else {
            m
        }
    }
}

/// The largest ADR number (0 for no ADRs).
pub open spec fn max_number(adrs: Seq<AdrV>) -> u32
    decreases adrs.len(),
{
    if adrs.len() == 0 {
        0
    } else if adrs.len() == 1 {
        adrs[0].number
    } else {
        let m = max_number(adrs.drop_last());
        if adrs.last().number > m {
            adrs.last().number
        } else {
            m
        }
    }
}

pub open spec fn numbers_text(ns: Seq<u32>) -> Seq<Seq<char>> {
    ns.map_values(|n: u32| decimal(n as nat))
}

/// The list of missing numbers as the gap message shows it: all of them
/// when there are at most five, else the first three and the total.
pub open spec fn missing_text(ms: Seq<u32>) -> Seq<char> {
    if ms.len() <= 5 {
        join_spec(numbers_text(ms), ", "@)
    } else {
        join_spec(numbers_text(ms.take(3)), ", "@) + ", ... ("@ + decimal(ms.len()) + " total)"@
    }
}

/// One informational diagnostic listing the numbers missing between the
/// smallest and the largest ADR number, if any are missing.
pub open spec fn gap_diags(adrs: Seq<AdrV>, lo: u32, hi: u32) -> Seq<DiagnosticV> {
    let ms = missing_numbers(adrs, lo as int, hi + 1);
    if ms.len() == 0 {
        seq![]
    } else {
        seq![
            DiagnosticV {
                severity: Severity::Info,
                check: Check::NumberingGaps,
                message: "Missing ADR numbers in sequence: "@ + missing_text(ms),
                path: None,
                adr_number: None,
            },
        ]
    }
}

pub open spec fn has_superseded_by_link(links: Seq<AdrLinkV>) -> bool {
    exists|k: int| 0 <= k < links.len() && #[trigger] links[k].kind == LinkKindV::SupersededBy
}

/// A warning for each superseded ADR (among the first `i`) without a
/// "Superseded by" link.
pub open spec fn superseded_diags(adrs: Seq<AdrV>, i: int) -> Seq<DiagnosticV>
    decreases i,
{
    if i <= 0 || i > adrs.len() {
        seq![]
    } else {
        let rest = superseded_diags(adrs, i - 1);
        let a = adrs[i - 1];
        if a.status == StatusV::Superseded && !has_superseded_by_link(a.links) {
            rest.push(
                DiagnosticV {
                    severity: Severity::Warning,
                    check: Check::SupersededLinks,
                    message: adr_label(a)
                        + " has status 'Superseded' but no 'Superseded by' link"@,
                    path: Some(path_or_empty(a.path)),
                    adr_number: Some(a.number),
                },
            )
        } else {
            rest
        }
    }
}

/// The diagnostics of the given severity, in order.
pub open spec fn with_severity(ds: Seq<DiagnosticV>, s: Severity) -> Seq<DiagnosticV>
    decreases ds.len(),
{
    if ds.len() == 0 {
        seq![]
    } else if ds.last().severity == s {
        with_severity(ds.drop_last(), s).push(ds.last())
    } else {
        with_severity(ds.drop_last(), s)
    }
}

/// The diagnostics sorted by severity, errors first, keeping the order of
/// equal severities.
pub open spec fn by_severity(ds: Seq<DiagnosticV>) -> Seq<DiagnosticV> {
    with_severity(ds, Severity::Error) + with_severity(ds, Severity::Warning) + with_severity(
        ds,
        Severity::Info,
    )
}

/// All diagnostics the checks produce for `adrs`, in the order the checks run.
pub open spec fn all_diags(adrs: Seq<AdrV>) -> Seq<DiagnosticV> {
    let n = adrs.len() as int;
    duplicate_diags(adrs, n) + naming_diags(adrs, n) + missing_status_diags(adrs, n)
        + broken_link_diags(adrs, n) + (if adrs.len() == 0 {
        seq![]
    } else {
        gap_diags(adrs, min_number(adrs), max_number(adrs))
    }) + superseded_diags(adrs, n)
}

// ---------------------------------------------------------------------------
// The checks
// ---------------------------------------------------------------------------
impl Clone for Diagnostic {
    fn clone(&self) -> (r: Self)
        ensures
            r@ == self@,
    {
        Diagnostic {
            severity: self.severity,
            check: self.check,
            message: clone_string(&self.message),
            path: clone_opt_string(&self.path),
            adr_number: self.adr_number,
        }
    }
}

fn is_first_with_number(adrs: &[Adr], i: usize) -> (r: bool)
    requires
        i < adrs@.len(),
    ensures
        r == first_with_number(adrs_view(adrs@), i as int),
{
    let ghost av = adrs_view(adrs@);
    let mut j: usize = 0;
    while j < i
        invariant
            j <= i < adrs@.len(),
            av == adrs_view(adrs@),
            forall|k: int| 0 <= k < j ==> #[trigger] av[k].number != av[i as int].number,
        decreases i - j,
    {
        if adrs[j].number == adrs[i].number {
            proof {
                assert(av[j as int].number == av[i as int].number);
            }
            return false;
        }
        j += 1;
    }
    true
}

fn count_with_number(adrs: &[Adr], n: u32) -> (r: usize)
    ensures
        r == count_number(adrs_view(adrs@), n),
{
    let ghost av = adrs_view(adrs@);
    let mut c: usize = 0;
    let mut i: usize = 0;
    proof {
        assert(av.take(0) =~= Seq::<AdrV>::empty());
    }
    while i < adrs.len()
        invariant
            i <= adrs@.len(),
            av == adrs_view(adrs@),
            c == count_number(av.take(i as int), n),
            c <= i,
        decreases adrs@.len() - i,
    {
        proof {
            assert(av.take(i + 1).drop_last() =~= av.take(i as int));
        }
        if adrs[i].number == n {
            c += 1;
        }
        i += 1;
    }
    proof {
        assert(av.take(adrs@.len() as int) =~= av);
    }
    c
}

fn file_names_with_number(adrs: &[Adr], n: u32) -> (r: Vec<String>)
    ensures
        r@.map_values(|s: String| s@) == names_with_number(adrs_view(adrs@), n),
{
    let ghost av = adrs_view(adrs@);
    let mut out: Vec<String> = Vec::new();
    let mut i: usize = 0;
    proof {
        assert(av.take(0) =~= Seq::<AdrV>::empty());
        assert(out@.map_values(|s: String| s@) =~= Seq::<Seq<char>>::empty());
    }
    while i < adrs.len()
        invariant
            i <= adrs@.len(),
            av == adrs_view(adrs@),
            out@.map_values(|s: String| s@) == names_with_number(av.take(i as int), n),
        decreases adrs@.len() - i,
    {
        proof {
            assert(av.take(i + 1).drop_last() =~= av.take(i as int));
        }
        let ghost before = out@;
        if adrs[i].number == n {
            match &adrs[i].path {
                Some(p) => match file_name(p.as_str()) {
                    Some(f) => {
                        out.push(f);
                        proof {
                            assert(out@.map_values(|s: String| s@) =~= before.map_values(
                                |s: String| s@,
                            ).push(out@.last()@));
                        }
                    },
                    None => {},
                },
                None => {},
            }
        }
        i += 1;
    }
    proof {
        assert(av.take(adrs@.len() as int) =~= av);
    }
    out
}

/// Adds an error for each ADR number used by more than one ADR.
pub fn check_duplicate_numbers(adrs: &[Adr], report: &mut DoctorReport)
    ensures
        diags_view(final(report).diagnostics@) == diags_view(old(report).diagnostics@)
            + duplicate_diags(adrs_view(adrs@), adrs@.len() as int),
{
    let ghost av = adrs_view(adrs@);
    let ghost start = diags_view(report.diagnostics@);
    let mut i: usize = 0;
    while i < adrs.len()
        invariant
            i <= adrs@.len(),
            av == adrs_view(adrs@),
            diags_view(report.diagnostics@) == start + duplicate_diags(av, i as int),
        decreases adrs@.len() - i,
    {
        let n = adrs[i].number;
        let ghost before = report.diagnostics@;
        if is_first_with_number(adrs, i) && count_with_number(adrs, n) > 1 {
            let names = file_names_with_number(adrs, n);
            let mut msg: Vec<char> = Vec::new();
            push_str_chars(&mut msg, "ADR number ");
            let d = decimal_chars(n);
            push_all(&mut msg, d.as_slice());
            push_str_chars(&mut msg, " is used by multiple files: ");
            let joined = join(&names, ", ");
            push_all(&mut msg, joined.as_slice());
            let m = string_from(msg.as_slice());
            let diag = Diagnostic {
                severity: Severity::Error,
                check: Check::DuplicateNumbers,
                message: m,
                path: None,
                adr_number: Some(n),
            };
            proof {
                assert(diag@ == duplicate_diag(av, n));
            }
            report.add(diag);
            proof {
                assert(diags_view(report.diagnostics@) =~= diags_view(before).push(
                    duplicate_diag(av, n),
                ));
            }
        }
        i += 1;
    }
}

/// Adds a warning for each ADR whose file name does not start with its
/// number padded to four digits and a dash.
pub fn check_file_naming(adrs: &[Adr], report: &mut DoctorReport)
    ensures
        diags_view(final(report).diagnostics@) == diags_view(old(report).diagnostics@)
            + naming_diags(adrs_view(adrs@), adrs@.len() as int),
{
    let ghost av = adrs_view(adrs@);
    let ghost start = diags_view(report.diagnostics@);
    let mut i: usize = 0;
    while i < adrs.len()
        invariant
            i <= adrs@.len(),
            av == adrs_view(adrs@),
            diags_view(report.diagnostics@) == start + naming_diags(av, i as int),
        decreases adrs@.len() - i,
    {
        let ghost before = report.diagnostics@;
        let adr = &adrs[i];
        match &adr.path {
            Some(p) => match file_name(p.as_str()) {
                Some(f) => {
                    let mut prefix = padded_decimal_chars(adr.number, 4);
                    prefix.push('-');
                    let fc = chars_of(f.as_str());
                    proof {
                        reveal_strlit("-");
                        assert(prefix@ =~= expected_prefix(adr.number));
                    }
                    if !starts_with(fc.as_slice(), prefix.as_slice()) {
                        let mut msg: Vec<char> = Vec::new();
                        push_str_chars(&mut msg, "File '");
                        push_all(&mut msg, fc.as_slice());
                        push_str_chars(&mut msg, "' should start with '");
                        push_all(&mut msg, prefix.as_slice());
                        push_str_chars(&mut msg, "'");
                        let diag = Diagnostic {
                            severity: Severity::Warning,
                            check: Check::FileNaming,
                            message: string_from(msg.as_slice()),
                            path: Some(clone_string(p)),
                            adr_number: Some(adr.number),
                        };
                        report.add(diag);
                        proof {
                            assert(diags_view(report.diagnostics@) =~= diags_view(before).push(
                                diag@,
                            ));
                        }
                    }
                },
                None => {},
            },
            None => {},
        }
        i += 1;
    }
}

pub(crate) fn path_text(p: &Option<String>) -> (r: String)
    ensures
        r@ == path_or_empty(opt_str_view(*p)),
{
    match p {
        Some(s) => clone_string(s),
        None => String::new(),
    }
}

pub(crate) fn adr_label_chars(adr: &Adr) -> (r: Vec<char>)
    ensures
        r@ == adr_label(adr@),
{
    let mut msg: Vec<char> = Vec::new();
    push_str_chars(&mut msg, "ADR ");
    let d = decimal_chars(adr.number);
    push_all(&mut msg, d.as_slice());
    push_str_chars(&mut msg, " '");
    push_str_chars(&mut msg, adr.title.as_str());
    push_str_chars(&mut msg, "'");
    msg
}

/// Adds a warning for each ADR whose (custom) status is blank.
pub fn check_missing_status(adrs: &[Adr], report: &mut DoctorReport)
    ensures
        diags_view(final(report).diagnostics@) == diags_view(old(report).diagnostics@)
            + missing_status_diags(adrs_view(adrs@), adrs@.len() as int),
{
    let ghost av = adrs_view(adrs@);
    let ghost start = diags_view(report.diagnostics@);
    let mut i: usize = 0;
    while i < adrs.len()
        invariant
            i <= adrs@.len(),
            av == adrs_view(adrs@),
            diags_view(report.diagnostics@) == start + missing_status_diags(av, i as int),
        decreases adrs@.len() - i,
    {
        let ghost before = report.diagnostics@;
        let adr = &adrs[i];
        match &adr.status {
            AdrStatus::Custom(s) => {
                let sc = chars_of(s.as_str());
                let t = trim(sc.as_slice());
                if t.len() == 0 {
                    let mut msg = adr_label_chars(adr);
                    push_str_chars(&mut msg, " has an empty status");
                    let diag = Diagnostic {
                        severity: Severity::Warning,
                        check: Check::MissingStatus,
                        message: string_from(msg.as_slice()),
                        path: Some(path_text(&adr.path)),
                        adr_number: Some(adr.number),
                    };
                    report.add(diag);
                    proof {
                        assert(diags_view(report.diagnostics@) =~= diags_view(before).push(
                            diag@,
                        ));
                    }
                }
            },
            _ => {},
        }
        i += 1;
    }
}

pub(crate) fn number_exists(adrs: &[Adr], n: u32) -> (r: bool)
    ensures
        r == has_number(adrs_view(adrs@), n),
{
    let ghost av = adrs_view(adrs@);
    let mut j: usize = 0;
    while j < adrs.len()
        invariant
            j <= adrs@.len(),
            av == adrs_view(adrs@),
            forall|k: int| 0 <= k < j ==> #[trigger] av[k].number != n,
        decreases adrs@.len() - j,
    {
        if adrs[j].number == n {
            proof {
                assert(av[j as int].number == n);
            }
            return true;
        }
        j += 1;
    }
    false
}

/// Adds an error for each link to an ADR number that no ADR has.
pub fn check_broken_links(adrs: &[Adr], report: &mut DoctorReport)
    ensures
        diags_view(final(report).diagnostics@) == diags_view(old(report).diagnostics@)
            + broken_link_diags(adrs_view(adrs@), adrs@.len() as int),
{
    let ghost av = adrs_view(adrs@);
    let ghost start = diags_view(report.diagnostics@);
    let mut i: usize = 0;
    while i < adrs.len()
        invariant
            i <= adrs@.len(),
            av == adrs_view(adrs@),
            diags_view(report.diagnostics@) == start + broken_link_diags(av, i as int),
        decreases adrs@.len() - i,
    {
        let adr = &adrs[i];
        let ghost a = av[i as int];
        let ghost mid = diags_view(report.diagnostics@);
        let mut k: usize = 0;
        while k < adr.links.len()
            invariant
                i < adrs@.len(),
                av == adrs_view(adrs@),
                adr == &adrs@[i as int],
                a == av[i as int],
                a == adr@,
                k <= adr.links@.len(),
                diags_view(report.diagnostics@) == mid + broken_links_of(av, a, k as int),
            decreases adr.links@.len() - k,
        {
            let ghost before = report.diagnostics@;
            let t = adr.links[k].target;
            proof {
                assert(a.links[k as int].target == t);
            }
            if !number_exists(adrs, t) {
                let mut msg = adr_label_chars(adr);
                push_str_chars(&mut msg, " links to non-existent ADR ");
                let d = decimal_chars(t);
                push_all(&mut msg, d.as_slice());
                let diag = Diagnostic {
                    severity: Severity::Error,
                    check: Check::BrokenLinks,
                    message: string_from(msg.as_slice()),
                    path: Some(path_text(&adr.path)),
                    adr_number: Some(adr.number),
                };
                report.add(diag);
                proof {
                    assert(diags_view(report.diagnostics@) =~= diags_view(before).push(diag@));
                }
            }
            k += 1;
        }
        proof {
            assert(start + broken_link_diags(av, i + 1) =~= start + broken_link_diags(
                av,
                i as int,
            ) + broken_links_of(av, a, a.links.len() as int));
        }
        i += 1;
    }
}

fn min_max_numbers(adrs: &[Adr]) -> (r: (u32, u32))
    requires
        adrs@.len() > 0,
    ensures
        r.0 == min_number(adrs_view(adrs@)),
        r.1 == max_number(adrs_view(adrs@)),
        r.0 <= r.1,
{
    let ghost av = adrs_view(adrs@);
    let mut lo = adrs[0].number;
    let mut hi = adrs[0].number;
    let mut i: usize = 1;
    proof {
        assert(av.take(1) =~= seq![av[0]]);
    }
    while i < adrs.len()
        invariant
            1 <= i <= adrs@.len(),
            av == adrs_view(adrs@),
            lo == min_number(av.take(i as int)),
            hi == max_number(av.take(i as int)),
            lo <= hi,
        decreases adrs@.len() - i,
    {
        proof {
            assert(av.take(i + 1).drop_last() =~= av.take(i as int));
        }
        let n = adrs[i].number;
        if n < lo {
            lo = n;
        }
        if n > hi {
            hi = n;
        }
        i += 1;
    }
    proof {
        assert(av.take(adrs@.len() as int) =~= av);
    }
    (lo, hi)
}

fn numbers_as_strings(ms: &[u32], k: usize) -> (r: Vec<String>)
    requires
        k <= ms@.len(),
    ensures
        r@.map_values(|s: String| s@) == numbers_text(ms@.take(k as int)),
{
    let mut out: Vec<String> = Vec::new();
    let mut i: usize = 0;
    while i < k
        invariant
            i <= k <= ms@.len(),
            out@.map_values(|s: String| s@) == numbers_text(ms@.take(i as int)),
        decreases k - i,
    {
        let ghost before = out@;
        let d = decimal_chars(ms[i]);
        out.push(string_from(d.as_slice()));
        proof {
            assert(ms@.take(i + 1) =~= ms@.take(i as int).push(ms@[i as int]));
            assert(numbers_text(ms@.take(i + 1)) =~= numbers_text(ms@.take(i as int)).push(
                decimal(ms@[i as int] as nat),
            ));
            assert(out@.map_values(|s: String| s@) =~= before.map_values(|s: String| s@).push(
                decimal(ms@[i as int] as nat),
            ));
        }
        i += 1;
    }
    out
}

/// Adds one informational diagnostic listing the numbers missing between the
/// smallest and the largest ADR number.
pub fn check_numbering_gaps(adrs: &[Adr], report: &mut DoctorReport)
    ensures
        diags_view(final(report).diagnostics@) == diags_view(old(report).diagnostics@) + (if adrs@.len()
            == 0 {
            seq![]
        } else {
            gap_diags(adrs_view(adrs@), min_number(adrs_view(adrs@)), max_number(adrs_view(adrs@)))
        }),
{
    let ghost av = adrs_view(adrs@);
    if adrs.len() == 0 {
        proof {
            assert(diags_view(report.diagnostics@) + Seq::<DiagnosticV>::empty() =~= diags_view(
                report.diagnostics@,
            ));
        }
        return ;
    }
    let (lo, hi) = min_max_numbers(adrs);
    let mut missing: Vec<u32> = Vec::new();
    let mut m: u64 = lo as u64;
    while m <= hi as u64
        invariant
            lo <= m <= hi as u64 + 1,
            av == adrs_view(adrs@),
            missing@ == missing_numbers(av, lo as int, m as int),
        decreases hi as u64 + 1 - m,
    {
        if !number_exists(adrs, m as u32) {
            missing.push(m as u32);
        }
        m += 1;
    }
    let ghost ms = missing@;
    proof {
        assert(ms == missing_numbers(av, lo as int, hi + 1));
    }
    if missing.len() == 0 {
        proof {
            assert(diags_view(report.diagnostics@) + Seq::<DiagnosticV>::empty() =~= diags_view(
                report.diagnostics@,
            ));
        }
        return ;
    }
    let mut msg: Vec<char> = Vec::new();
    push_str_chars(&mut msg, "Missing ADR numbers in sequence: ");
    if missing.len() <= 5 {
        let texts = numbers_as_strings(missing.as_slice(), missing.len());
        proof {
            assert(ms.take(ms.len() as int) =~= ms);
        }
        let j = join(&texts, ", ");
        push_all(&mut msg, j.as_slice());
        proof {
            assert(msg@ == "Missing ADR numbers in sequence: "@ + missing_text(ms));
        }
    } else {
        let texts = numbers_as_strings(missing.as_slice(), 3);
        let j = join(&texts, ", ");
        push_all(&mut msg, j.as_slice());
        push_str_chars(&mut msg, ", ... (");
        let d = decimal_chars_u64(missing.len() as u64);
        push_all(&mut msg, d.as_slice());
        push_str_chars(&mut msg, " total)");
        proof {
            assert(msg@ =~= "Missing ADR numbers in sequence: "@ + missing_text(ms));
        }
    }
    let diag = Diagnostic {
        severity: Severity::Info,
        check: Check::NumberingGaps,
        message: string_from(msg.as_slice()),
        path: None,
        adr_number: None,
    };
    let ghost before = report.diagnostics@;
    proof {
        assert(diag@ == gap_diags(av, lo, hi)[0]);
        assert(gap_diags(av, lo, hi) =~= seq![diag@]);
    }
    report.add(diag);
    proof {
        assert(diags_view(report.diagnostics@) =~= diags_view(before) + seq![diag@]);
    }
}

fn has_superseded_by(adr: &Adr) -> (r: bool)
    ensures
        r == has_superseded_by_link(adr@.links),
{
    let ghost lv = adr@.links;
    let mut k: usize = 0;
    while k < adr.links.len()
        invariant
            k <= adr.links@.len(),
            lv == adr@.links,
            forall|j: int| 0 <= j < k ==> #[trigger] lv[j].kind != LinkKindV::SupersededBy,
        decreases adr.links@.len() - k,
    {
        match adr.links[k].kind {
            LinkKind::SupersededBy => {
                proof {
                    assert(lv[k as int].kind == LinkKindV::SupersededBy);
                }
                return true;
            },
            _ => {},
        }
        k += 1;
    }
    false
}

/// Adds a warning for each superseded ADR without a "Superseded by" link.
pub fn check_superseded_links(adrs: &[Adr], report: &mut DoctorReport)
    ensures
        diags_view(final(report).diagnostics@) == diags_view(old(report).diagnostics@)
            + superseded_diags(adrs_view(adrs@), adrs@.len() as int),
{
    let ghost av = adrs_view(adrs@);
    let ghost start = diags_view(report.diagnostics@);
    let mut i: usize = 0;
    while i < adrs.len()
        invariant
            i <= adrs@.len(),
            av == adrs_view(adrs@),
            diags_view(report.diagnostics@) == start + superseded_diags(av, i as int),
        decreases adrs@.len() - i,
    {
        let ghost before = report.diagnostics@;
        let adr = &adrs[i];
        let superseded = match adr.status {
            AdrStatus::Superseded => true,
            _ => false,
        };
        if superseded && !has_superseded_by(adr) {
            let mut msg = adr_label_chars(adr);
            push_str_chars(&mut msg, " has status 'Superseded' but no 'Superseded by' link");
            let diag = Diagnostic {
                severity: Severity::Warning,
                check: Check::SupersededLinks,
                message: string_from(msg.as_slice()),
                path: Some(path_text(&adr.path)),
                adr_number: Some(adr.number),
            };
            report.add(diag);
            proof {
                assert(diags_view(report.diagnostics@) =~= diags_view(before).push(diag@));
            }
        }
        i += 1;
    }
}

fn select_severity(ds: &Vec<Diagnostic>, s: Severity, out: &mut Vec<Diagnostic>)
    ensures
        diags_view(final(out)@) == diags_view(old(out)@) + with_severity(diags_view(ds@), s),
{
    let ghost dv = diags_view(ds@);
    let ghost start = diags_view(out@);
    let mut i: usize = 0;
    proof {
        assert(dv.take(0) =~= Seq::<DiagnosticV>::empty());
        assert(start + Seq::<DiagnosticV>::empty() =~= start);
    }
    while i < ds.len()
        invariant
            i <= ds@.len(),
            dv == diags_view(ds@),
            diags_view(out@) == start + with_severity(dv.take(i as int), s),
        decreases ds@.len() - i,
    {
        proof {
            assert(dv.take(i + 1).drop_last() =~= dv.take(i as int));
        }
        let ghost before = out@;
        if ds[i].severity == s {
            out.push(ds[i].clone());
            proof {
                assert(diags_view(out@) =~= diags_view(before).push(dv[i as int]));
            }
        }
        i += 1;
    }
    proof {
        assert(dv.take(ds@.len() as int) =~= dv);
    }
}

/// The diagnostics ordered by severity, errors first; diagnostics of equal
/// severity keep their order.
pub fn sort_by_severity(ds: &Vec<Diagnostic>) -> (r: Vec<Diagnostic>)
    ensures
        diags_view(r@) == by_severity(diags_view(ds@)),
{
    let mut out: Vec<Diagnostic> = Vec::new();
    proof {
        assert(diags_view(out@) =~= Seq::<DiagnosticV>::empty());
    }
    select_severity(ds, Severity::Error, &mut out);
    select_severity(ds, Severity::Warning, &mut out);
    select_severity(ds, Severity::Info, &mut out);
    proof {
        assert(Seq::<DiagnosticV>::empty() + with_severity(diags_view(ds@), Severity::Error)
            =~= with_severity(diags_view(ds@), Severity::Error));
    }
    out
}

/// Runs all health checks on a list of ADRs. The diagnostics come ordered
/// by severity, errors first.
pub fn check(adrs: &[Adr]) -> (r: DoctorReport)
    ensures
        diags_view(r.diagnostics@) == by_severity(all_diags(adrs_view(adrs@))),
{
    let mut report = DoctorReport::new();
    proof {
        assert(diags_view(report.diagnostics@) =~= Seq::<DiagnosticV>::empty());
    }
    check_duplicate_numbers(adrs, &mut report);
    check_file_naming(adrs, &mut report);
    check_missing_status(adrs, &mut report);
    check_broken_links(adrs, &mut report);
    check_numbering_gaps(adrs, &mut report);
    check_superseded_links(adrs, &mut report);
    proof {
        let av = adrs_view(adrs@);
        let n = av.len() as int;
        assert(diags_view(report.diagnostics@) =~= all_diags(av));
    }
    let sorted = sort_by_severity(&report.diagnostics);
    DoctorReport { diagnostics: sorted }
}

// ---------------------------------------------------------------------------
// What the health check reports of broken links
// ---------------------------------------------------------------------------
proof fn lemma_concat_contains<T>(s: Seq<T>, t: Seq<T>, x: T)
    ensures
        s.contains(x) ==> (s + t).contains(x),
        t.contains(x) ==> (s + t).contains(x),
{
    if s.contains(x) {
        let i = choose|i: int| 0 <= i < s.len() && s[i] == x;
        assert((s + t)[i] == x);
    }
    if t.contains(x) {
        let i = choose|i: int| 0 <= i < t.len() && t[i] == x;
        assert((s + t)[s.len() + i] == x);
    }
}

/// The error reported for the `k`th link of `a`, naming its target.
pub open spec fn broken_link_error(a: AdrV, k: int) -> DiagnosticV {
    DiagnosticV {
        severity: Severity::Error,
        check: Check::BrokenLinks,
        message: adr_label(a) + " links to non-existent ADR "@ + decimal(a.links[k].target as nat),
        path: Some(path_or_empty(a.path)),
        adr_number: Some(a.number),
    }
}

proof fn lemma_broken_links_of_contains(adrs: Seq<AdrV>, a: AdrV, k: int, m: int)
    requires
        0 <= m < k <= a.links.len(),
        !has_number(adrs, a.links[m].target),
    ensures
        broken_links_of(adrs, a, k).contains(broken_link_error(a, m)),
    decreases k,
{
    let rest = broken_links_of(adrs, a, k - 1);
    if m == k - 1 {
        assert(broken_links_of(adrs, a, k) == rest.push(broken_link_error(a, m)));
        assert(broken_links_of(adrs, a, k)[rest.len() as int] == broken_link_error(a, m));
    } else {
        lemma_broken_links_of_contains(adrs, a, k - 1, m);
        let t = a.links[k - 1].target;
        if !has_number(adrs, t) {
            lemma_concat_contains(rest, seq![broken_link_error(a, k - 1)], broken_link_error(a, m));
            assert(rest.push(broken_link_error(a, k - 1)) =~= rest + seq![broken_link_error(a, k - 1)]);
        }
    }
}

proof fn lemma_broken_link_diags_contains(adrs: Seq<AdrV>, n: int, i: int, m: int)
    requires
        0 <= i < n <= adrs.len(),
        0 <= m < adrs[i].links.len(),
        !has_number(adrs, adrs[i].links[m].target),
    ensures
        broken_link_diags(adrs, n).contains(broken_link_error(adrs[i], m)),
    decreases n,
{
    let x = broken_link_error(adrs[i], m);
    let last = broken_links_of(adrs, adrs[n - 1], adrs[n - 1].links.len() as int);
    if i == n - 1 {
        lemma_broken_links_of_contains(adrs, adrs[i], adrs[i].links.len() as int, m);
        lemma_concat_contains(broken_link_diags(adrs, n - 1), last, x);
    } else {
        lemma_broken_link_diags_contains(adrs, n - 1, i, m);
        lemma_concat_contains(broken_link_diags(adrs, n - 1), last, x);
    }
}

proof fn lemma_with_severity_contains(ds: Seq<DiagnosticV>, x: DiagnosticV)
    requires
        ds.contains(x),
    ensures
        with_severity(ds, x.severity).contains(x),
    decreases ds.len(),
{
    let rest = with_severity(ds.drop_last(), x.severity);
    if ds.last() == x {
        assert(with_severity(ds, x.severity) == rest.push(x));
        assert(rest.push(x)[rest.len() as int] == x);
    } else {
        let i = choose|i: int| 0 <= i < ds.len() && ds[i] == x;
        assert(ds.drop_last()[i] == x);
        lemma_with_severity_contains(ds.drop_last(), x);
        if ds.last().severity == x.severity {
            lemma_concat_contains(rest, seq![ds.last()], x);
            assert(rest.push(ds.last()) =~= rest + seq![ds.last()]);
        }
    }
}

/// The health check reports every link whose target no ADR carries: for
/// each ADR `adrs[i]` and each of its links `k` whose target number is the
/// number of no ADR in the list, whether that target is lower or higher
/// than the ADR's own number, the report holds a broken-links error for
/// that ADR naming the target.
pub proof fn law_every_missing_link_target_is_reported(adrs: Seq<AdrV>, i: int, k: int)
    requires
        0 <= i < adrs.len(),
        0 <= k < adrs[i].links.len(),
        forall|j: int| 0 <= j < adrs.len() ==> adrs[j].number != adrs[i].links[k].target,
    ensures
        by_severity(all_diags(adrs)).contains(
            DiagnosticV {
                severity: Severity::Error,
                check: Check::BrokenLinks,
                message: adr_label(adrs[i]) + " links to non-existent ADR "@ + decimal(
                    adrs[i].links[k].target as nat,
                ),
                path: Some(path_or_empty(adrs[i].path)),
                adr_number: Some(adrs[i].number),
            },
        ),
{
    let n = adrs.len() as int;
    let x = broken_link_error(adrs[i], k);
    lemma_broken_link_diags_contains(adrs, n, i, k);
    let a = duplicate_diags(adrs, n) + naming_diags(adrs, n) + missing_status_diags(adrs, n);
    let b = broken_link_diags(adrs, n);
    let c = (if adrs.len() == 0 {
        seq![]
    } else {
        gap_diags(adrs, min_number(adrs), max_number(adrs))
    });
    let d = superseded_diags(adrs, n);
    lemma_concat_contains(a, b, x);
    lemma_concat_contains(a + b, c, x);
    lemma_concat_contains(a + b + c, d, x);
    assert(all_diags(adrs) == a + b + c + d);
    lemma_with_severity_contains(all_diags(adrs), x);
    let ds = all_diags(adrs);
    lemma_concat_contains(
        with_severity(ds, Severity::Error),
        with_severity(ds, Severity::Warning),
        x,
    );
    lemma_concat_contains(
        with_severity(ds, Severity::Error) + with_severity(ds, Severity::Warning),
        with_severity(ds, Severity::Info),
        x,
    );
}

} // verus!
