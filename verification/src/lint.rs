//! ADR linting: per-file rules, repository-level checks, and the report that
//! gathers their issues.

use crate::text::{
    chars_of, clone_string, contains, decimal, decimal_chars, eq_ignore_ascii_case,
    eq_ignore_ascii_case_spec, lines, lines_spec, owned, padded_decimal, padded_decimal_chars,
    push_all, push_str_chars, string_from, strip_prefix, strip_prefix_spec, trim, trim_spec,
};
use crate::doctor::{adr_label, adr_label_chars, has_number, number_exists, path_or_empty, path_text};
use crate::config::ConfigMode;
use crate::repository::{records, AdrFileV, Repository, RepositoryV};
use crate::globs::{compile_glob, glob_error, glob_is_match, glob_match, GlobPattern};
use crate::text::{contains_seq, lowercase, starts_with_spec, strip_all_prefix, to_lowercase, trim_start_matches};
use crate::types::{clone_opt_string, link_kind_text, opt_str_view, Adr, AdrV, LinkKind};
use mdbook_lint_core::rule::{CollectionRule, Rule};
use mdbook_lint_core::{Document, Severity};
use mdbook_lint_rulesets::adr::{
    Adr001, Adr002, Adr003, Adr004, Adr005, Adr006, Adr007, Adr008, Adr009, Adr010, Adr011, Adr012,
    Adr013, Adr014, Adr015, Adr016, Adr017, AdrFormat,
};
use std::path::PathBuf;
use crate::report_order::{in_report_order, law_sorted_issues, lemma_sorted_viols_of, lemma_viol_order, sorted_viols, viol_order, viols_sorted};
use vstd::multiset::Multiset;
use vstd::prelude::*;

verus! {

/// Severity level for lint issues.
#[derive(Debug, Clone, Copy, PartialEq, Eq, PartialOrd, Ord, Structural)]
pub enum IssueSeverity {
    /// Informational message.
    Info,
    /// Warning that should be addressed.
    Warning,
    /// Error that needs to be fixed.
    Error,
}

/// The rank of a severity: info 0, warning 1, error 2.
pub open spec fn severity_rank(s: IssueSeverity) -> int {
    match s {
        IssueSeverity::Info => 0,
        IssueSeverity::Warning => 1,
        IssueSeverity::Error => 2,
    }
}

impl IssueSeverity {
    /// The severity's name (`info`, `warning` or `error`).
    pub fn to_string(&self) -> (r: String)
        ensures
            r@ == match *self {
                IssueSeverity::Info => "info"@,
                IssueSeverity::Warning => "warning"@,
                IssueSeverity::Error => "error"@,
            },
    {
        match self {
            IssueSeverity::Info => owned("info"),
            IssueSeverity::Warning => owned("warning"),
            IssueSeverity::Error => owned("error"),
        }
    }

    fn rank(&self) -> (r: u8)
        ensures
            r == severity_rank(*self),
    {
        match self {
            IssueSeverity::Info => 0,
            IssueSeverity::Warning => 1,
            IssueSeverity::Error => 2,
        }
    }
}

/// The mathematical view of an issue.
pub struct IssueV {
    pub rule_id: Seq<char>,
    pub rule_name: Seq<char>,
    pub severity: IssueSeverity,
    pub message: Seq<char>,
    pub path: Option<Seq<char>>,
    pub line: Option<usize>,
    pub column: Option<usize>,
    pub adr_number: Option<u32>,
    pub related_adrs: Seq<u32>,
}

/// A unified issue type for both per-file lint violations and repository-level diagnostics.
#[derive(Debug)]
pub struct Issue {
    /// The rule that produced this issue (e.g., "ADR001", "adr-title-format").
    pub rule_id: String,
    /// Human-readable rule name.
    pub rule_name: String,
    /// The severity of this issue.
    pub severity: IssueSeverity,
    /// A human-readable message describing the issue.
    pub message: String,
    /// The path to the affected file, if applicable.
    pub path: Option<String>,
    /// Line number (1-based), if applicable.
    pub line: Option<usize>,
    /// Column number (1-based), if applicable.
    pub column: Option<usize>,
    /// The ADR number, if applicable.
    pub adr_number: Option<u32>,
    /// Related ADR numbers (for issues involving multiple ADRs).
    pub related_adrs: Vec<u32>,
}

impl View for Issue {
    type V = IssueV;

    open spec fn view(&self) -> IssueV {
        IssueV {
            rule_id: self.rule_id@,
            rule_name: self.rule_name@,
            severity: self.severity,
            message: self.message@,
            path: opt_str_view(self.path),
            line: self.line,
            column: self.column,
            adr_number: self.adr_number,
            related_adrs: self.related_adrs@,
        }
    }
}

fn clone_u32s(v: &Vec<u32>) -> (r: Vec<u32>)
    ensures
        r@ == v@,
{
    let mut out: Vec<u32> = Vec::new();
    let mut i: usize = 0;
    while i < v.len()
        invariant
            i <= v@.len(),
            out@ == v@.take(i as int),
        decreases v@.len() - i,
    {
        out.push(v[i]);
        i += 1;
        proof {
            assert(out@ =~= v@.take(i as int));
        }
    }
    proof {
        assert(v@.take(v@.len() as int) =~= v@);
    }
    out
}

impl Clone for Issue {
    fn clone(&self) -> (r: Self)
        ensures
            r@ == self@,
    {
        Issue {
            rule_id: clone_string(&self.rule_id),
            rule_name: clone_string(&self.rule_name),
            severity: self.severity,
            message: clone_string(&self.message),
            path: clone_opt_string(&self.path),
            line: self.line,
            column: self.column,
            adr_number: self.adr_number,
            related_adrs: clone_u32s(&self.related_adrs),
        }
    }
}

pub open spec fn issues_view(v: Seq<Issue>) -> Seq<IssueV> {
    v.map_values(|i: Issue| i@)
}

// ---------------------------------------------------------------------------
// Ordering of issues
// ---------------------------------------------------------------------------
/// Three-way comparison of two integers.
pub open spec fn int_order(a: int, b: int) -> int {
    if a < b {
        -1
    } else if a > b {
        1
    } else {
        0
    }
}

/// Lexicographic comparison of two texts by code point.
pub open spec fn text_order(a: Seq<char>, b: Seq<char>) -> int
    decreases a.len(),
{
    if a.len() == 0 {
        if b.len() == 0 {
            0
        } else {
            -1
        }
    } else if b.len() == 0 {
        1
    } else if a[0] != b[0] {
        int_order((a[0] as u32) as int, (b[0] as u32) as int)
    } else {
        text_order(a.drop_first(), b.drop_first())
    }
}

/// A path component: its kind (root 0, `.` 1, `..` 2, a name 3) and its text.
pub type PathComp = (u8, Seq<char>);

pub open spec fn comp_order(a: PathComp, b: PathComp) -> int {
    if a.0 != b.0 {
        int_order(a.0 as int, b.0 as int)
    } else {
        text_order(a.1, b.1)
    }
}

/// Lexicographic comparison of component sequences.
pub open spec fn comps_order(a: Seq<PathComp>, b: Seq<PathComp>) -> int
    decreases a.len(),
{
    if a.len() == 0 {
        if b.len() == 0 {
            0
        } else {
            -1
        }
    } else if b.len() == 0 {
        1
    } else if comp_order(a[0], b[0]) != 0 {
        comp_order(a[0], b[0])
    } else {
        comps_order(a.drop_first(), b.drop_first())
    }
}

/// The pieces of a path between slashes, from index `i` on, given the
/// piece that has been read so far.
pub open spec fn pieces_from(s: Seq<char>, i: int, cur: Seq<char>) -> Seq<Seq<char>>
    decreases s.len() - i,
{
    if i >= s.len() {
        seq![cur]
    } else if s[i] == '/' {
        seq![cur] + pieces_from(s, i + 1, seq![])
    } else {
        pieces_from(s, i + 1, cur.push(s[i]))
    }
}

/// The component a piece gives, if any: empty pieces and `.` pieces give
/// none, except a `.` that begins a relative path.
pub open spec fn piece_comps(p: Seq<char>, first: bool) -> Seq<PathComp> {
    if p.len() == 0 {
        seq![]
    } else if p == seq!['.'] {
        if first {
            seq![(1u8, seq![])]
        } else {
            seq![]
        }
    } else if p == seq!['.', '.'] {
        seq![(2u8, seq![])]
    } else {
        seq![(3u8, p)]
    }
}

pub open spec fn pieces_comps(ps: Seq<Seq<char>>, first: int) -> Seq<PathComp>
    decreases ps.len(),
{
    if ps.len() == 0 {
        seq![]
    } else {
        pieces_comps(ps.drop_last(), first) + piece_comps(ps.last(), ps.len() - 1 == first)
    }
}

/// The components of a `/`-separated path, as `Path::components` gives them:
/// a root for an absolute path, then the non-empty pieces other than `.`
/// (a leading `.` of a relative path stays).
pub open spec fn path_components(s: Seq<char>) -> Seq<PathComp> {
    let ps = pieces_from(s, 0, seq![]);
    if s.len() > 0 && s[0] == '/' {
        seq![(0u8, seq![])] + pieces_comps(ps, -1)
    } else {
        pieces_comps(ps, 0)
    }
}

/// Comparison of optional paths: no path comes first, then paths by their
/// components.
pub open spec fn path_order(a: Option<Seq<char>>, b: Option<Seq<char>>) -> int {
    match (a, b) {
        (None, None) => 0,
        (None, Some(_)) => -1,
        (Some(_), None) => 1,
        (Some(p), Some(q)) => comps_order(path_components(p), path_components(q)),
    }
}

pub open spec fn line_order(a: Option<usize>, b: Option<usize>) -> int {
    match (a, b) {
        (None, None) => 0,
        (None, Some(_)) => -1,
        (Some(_), None) => 1,
        (Some(x), Some(y)) => int_order(x as int, y as int),
    }
}

/// The report order: severity from error down to info, then path, then line.
pub open spec fn issue_order(a: IssueV, b: IssueV) -> int {
    if a.severity != b.severity {
        int_order(severity_rank(b.severity), severity_rank(a.severity))
    } else if path_order(a.path, b.path) != 0 {
        path_order(a.path, b.path)
    } else {
        line_order(a.line, b.line)
    }
}

/// Inserts `x` into `s` after every element that does not come after it.
pub open spec fn insert_in_order(s: Seq<IssueV>, x: IssueV) -> Seq<IssueV>
    decreases s.len(),
{
    if s.len() == 0 {
        seq![x]
    } else if issue_order(s.last(), x) > 0 {
        insert_in_order(s.drop_last(), x).push(s.last())
    } else {
        s.push(x)
    }
}

/// The issues in report order; issues that compare equal keep their order.
pub open spec fn sorted_issues(s: Seq<IssueV>) -> Seq<IssueV>
    decreases s.len(),
{
    if s.len() == 0 {
        seq![]
    } else {
        insert_in_order(sorted_issues(s.drop_last()), s.last())
    }
}

fn order_u64(a: u64, b: u64) -> (r: i8)
    ensures
        r == int_order(a as int, b as int),
{
    if a < b {
        -1
    } else if a > b {
        1
    } else {
        0
    }
}

fn text_compare(a: &[char], b: &[char]) -> (r: i8)
    ensures
        r == text_order(a@, b@),
{
    let mut i: usize = 0;
    proof {
        assert(a@.skip(0) =~= a@);
        assert(b@.skip(0) =~= b@);
    }
    while i < a.len() && i < b.len()
        invariant
            i <= a@.len(),
            i <= b@.len(),
            text_order(a@, b@) == text_order(a@.skip(i as int), b@.skip(i as int)),
        decreases a@.len() - i,
    {
        if a[i] != b[i] {
            proof {
                assert(a@.skip(i as int)[0] == a@[i as int]);
                assert(b@.skip(i as int)[0] == b@[i as int]);
            }
            let x = a[i] as u32;
            let y = b[i] as u32;
            return order_u64(x as u64, y as u64);
        }
        proof {
            assert(a@.skip(i as int).drop_first() =~= a@.skip(i + 1));
            assert(b@.skip(i as int).drop_first() =~= b@.skip(i + 1));
        }
        i += 1;
    }
    if i == a.len() && i == b.len() {
        0
    } else if i == a.len() {
        -1
    } else {
        1
    }
}

fn push_piece(out: &mut Vec<(u8, Vec<char>)>, cur: Vec<char>, is_first: bool)
    ensures
        final(out)@.map_values(|c: (u8, Vec<char>)| (c.0, c.1@)) == old(out)@.map_values(
            |c: (u8, Vec<char>)| (c.0, c.1@),
        ) + piece_comps(cur@, is_first),
{
    let ghost piece = cur@;
    if cur.len() == 0 {
        proof {
            assert(piece_comps(piece, is_first) =~= Seq::<PathComp>::empty());
            assert(out@.map_values(|c: (u8, Vec<char>)| (c.0, c.1@)) + Seq::<PathComp>::empty()
                =~= out@.map_values(|c: (u8, Vec<char>)| (c.0, c.1@)));
        }
    } else if cur.len() == 1 && cur[0] == '.' {
        proof {
            assert(piece =~= seq!['.']);
        }
        if is_first {
            out.push((1u8, Vec::new()));
            proof {
                assert(out@.map_values(|c: (u8, Vec<char>)| (c.0, c.1@)) =~= old(out)@.map_values(
                    |c: (u8, Vec<char>)| (c.0, c.1@),
                ) + piece_comps(piece, is_first));
            }
        } else {
            proof {
                assert(piece_comps(piece, is_first) =~= Seq::<PathComp>::empty());
                assert(out@.map_values(|c: (u8, Vec<char>)| (c.0, c.1@)) + Seq::<PathComp>::empty()
                    =~= out@.map_values(|c: (u8, Vec<char>)| (c.0, c.1@)));
            }
        }
    } else if cur.len() == 2 && cur[0] == '.' && cur[1] == '.' {
        proof {
            assert(piece =~= seq!['.', '.']);
        }
        out.push((2u8, Vec::new()));
        proof {
            assert(out@.map_values(|c: (u8, Vec<char>)| (c.0, c.1@)) =~= old(out)@.map_values(
                |c: (u8, Vec<char>)| (c.0, c.1@),
            ) + piece_comps(piece, is_first));
        }
    } else {
        proof {
            if piece == seq!['.'] {
                assert(piece.len() == 1 && piece[0] == '.');
            }
            if piece == seq!['.', '.'] {
                assert(piece.len() == 2 && piece[0] == '.' && piece[1] == '.');
            }
        }
        out.push((3u8, cur));
        proof {
            assert(out@.map_values(|c: (u8, Vec<char>)| (c.0, c.1@)) =~= old(out)@.map_values(
                |c: (u8, Vec<char>)| (c.0, c.1@),
            ) + piece_comps(piece, is_first));
        }
    }
}

/// The components of a path, computed.
fn components_of(s: &[char]) -> (r: Vec<(u8, Vec<char>)>)
    ensures
        r@.map_values(|c: (u8, Vec<char>)| (c.0, c.1@)) == path_components(s@),
{
    let absolute = s.len() > 0 && s[0] == '/';
    let ghost first: int = if absolute { -1 } else { 0 };
    let mut out: Vec<(u8, Vec<char>)> = Vec::new();
    if absolute {
        out.push((0u8, Vec::new()));
    }
    let ghost base: Seq<PathComp> = if absolute { seq![(0u8, seq![])] } else { seq![] };
    proof {
        assert(out@.map_values(|c: (u8, Vec<char>)| (c.0, c.1@)) =~= base);
        assert(base + pieces_comps(Seq::<Seq<char>>::empty(), first) =~= base);
    }
    let mut cur: Vec<char> = Vec::new();
    let mut done: usize = 0;
    let mut i: usize = 0;
    let ghost mut ps: Seq<Seq<char>> = seq![];
    proof {
        assert(pieces_from(s@, 0, seq![]) == ps + pieces_from(s@, 0, cur@));
    }
    while i < s.len()
        invariant
            i <= s@.len(),
            pieces_from(s@, 0, seq![]) == ps + pieces_from(s@, i as int, cur@),
            done == ps.len(),
            done <= i,
            first == (if absolute { -1int } else { 0int }),
            absolute == (s@.len() > 0 && s@[0] == '/'),
            base == (if absolute { seq![(0u8, Seq::<char>::empty())] } else { Seq::<PathComp>::empty() }),
            out@.map_values(|c: (u8, Vec<char>)| (c.0, c.1@)) == base + pieces_comps(ps, first),
        decreases s@.len() - i,
    {
        if s[i] == '/' {
            let ghost old_ps = ps;
            let ghost piece = cur@;
            proof {
                assert(pieces_from(s@, i as int, cur@) == seq![cur@] + pieces_from(
                    s@,
                    i + 1,
                    seq![],
                ));
                ps = ps.push(piece);
                assert(ps.drop_last() =~= old_ps);
                assert(ps + pieces_from(s@, i + 1, seq![]) =~= old_ps + (seq![piece]
                    + pieces_from(s@, i + 1, seq![])));
            }
            let is_first = done == 0 && !absolute;
            proof {
                assert(is_first == (ps.len() - 1 == first));
            }
            let c = cur;
            push_piece(&mut out, c, is_first);
            proof {
                assert(base + pieces_comps(ps, first) =~= base + pieces_comps(old_ps, first)
                    + piece_comps(piece, is_first));
            }
            cur = Vec::new();
            done += 1;
        } else {
            proof {
                assert(pieces_from(s@, i as int, cur@) == pieces_from(s@, i + 1, cur@.push(s@[i as int])));
            }
            cur.push(s[i]);
        }
        i += 1;
    }
    let ghost old_ps = ps;
    let ghost piece = cur@;
    proof {
        assert(pieces_from(s@, i as int, cur@) == seq![cur@]);
        ps = ps.push(piece);
        assert(ps.drop_last() =~= old_ps);
    }
    let is_first = done == 0 && !absolute;
    push_piece(&mut out, cur, is_first);
    proof {
        assert(pieces_from(s@, 0, seq![]) =~= ps);
        assert(base + pieces_comps(ps, first) =~= base + pieces_comps(old_ps, first)
            + piece_comps(piece, is_first));
        if absolute {
            assert(path_components(s@) == base + pieces_comps(ps, -1));
        } else {
            assert(path_components(s@) == pieces_comps(ps, 0));
            assert(base + pieces_comps(ps, 0) =~= pieces_comps(ps, 0));
        }
    }
    out
}

fn comps_compare(a: &Vec<(u8, Vec<char>)>, b: &Vec<(u8, Vec<char>)>) -> (r: i8)
    ensures
        r == comps_order(
            a@.map_values(|c: (u8, Vec<char>)| (c.0, c.1@)),
            b@.map_values(|c: (u8, Vec<char>)| (c.0, c.1@)),
        ),
{
    let ghost av = a@.map_values(|c: (u8, Vec<char>)| (c.0, c.1@));
    let ghost bv = b@.map_values(|c: (u8, Vec<char>)| (c.0, c.1@));
    let mut i: usize = 0;
    proof {
        assert(av.skip(0) =~= av);
        assert(bv.skip(0) =~= bv);
    }
    while i < a.len() && i < b.len()
        invariant
            i <= a@.len(),
            i <= b@.len(),
            av == a@.map_values(|c: (u8, Vec<char>)| (c.0, c.1@)),
            bv == b@.map_values(|c: (u8, Vec<char>)| (c.0, c.1@)),
            comps_order(av, bv) == comps_order(av.skip(i as int), bv.skip(i as int)),
        decreases a@.len() - i,
    {
        let c = if a[i].0 != b[i].0 {
            order_u64(a[i].0 as u64, b[i].0 as u64)
        } else {
            text_compare(a[i].1.as_slice(), b[i].1.as_slice())
        };
        proof {
            assert(av.skip(i as int)[0] == av[i as int]);
            assert(bv.skip(i as int)[0] == bv[i as int]);
            assert(c == comp_order(av[i as int], bv[i as int]));
        }
        if c != 0 {
            return c;
        }
        proof {
            assert(av.skip(i as int).drop_first() =~= av.skip(i + 1));
            assert(bv.skip(i as int).drop_first() =~= bv.skip(i + 1));
        }
        i += 1;
    }
    if i == a.len() && i == b.len() {
        0
    } else if i == a.len() {
        -1
    } else {
        1
    }
}

fn path_compare(a: &Option<String>, b: &Option<String>) -> (r: i8)
    ensures
        r == path_order(opt_str_view(*a), opt_str_view(*b)),
{
    match (a, b) {
        (None, None) => 0,
        (None, Some(_)) => -1,
        (Some(_), None) => 1,
        (Some(p), Some(q)) => {
            let pc = chars_of(p.as_str());
            let qc = chars_of(q.as_str());
            let ca = components_of(pc.as_slice());
            let cb = components_of(qc.as_slice());
            comps_compare(&ca, &cb)
        },
    }
}

/// Compares two paths by their components, as `Path` orders them.
pub(crate) fn compare_paths(a: &str, b: &str) -> (r: i8)
    ensures
        r == comps_order(path_components(a@), path_components(b@)),
{
    let pc = chars_of(a);
    let qc = chars_of(b);
    let ca = components_of(pc.as_slice());
    let cb = components_of(qc.as_slice());
    comps_compare(&ca, &cb)
}

fn line_compare(a: Option<usize>, b: Option<usize>) -> (r: i8)
    ensures
        r == line_order(a, b),
{
    match (a, b) {
        (None, None) => 0,
        (None, Some(_)) => -1,
        (Some(_), None) => 1,
        (Some(x), Some(y)) => order_u64(x as u64, y as u64),
    }
}

fn issue_compare(a: &Issue, b: &Issue) -> (r: i8)
    ensures
        r == issue_order(a@, b@),
{
    if a.severity != b.severity {
        order_u64(b.severity.rank() as u64, a.severity.rank() as u64)
    } else {
        let p = path_compare(&a.path, &b.path);
        if p != 0 {
            p
        } else {
            line_compare(a.line, b.line)
        }
    }
}

proof fn lemma_insert_at(s: Seq<IssueV>, x: IssueV, pos: int)
    requires
        0 <= pos <= s.len(),
        forall|k: int| pos <= k < s.len() ==> issue_order(#[trigger] s[k], x) > 0,
        pos > 0 ==> issue_order(s[pos - 1], x) <= 0,
    ensures
        insert_in_order(s, x) == s.insert(pos, x),
    decreases s.len(),
{
    if s.len() == 0 {
        assert(s.insert(pos, x) =~= seq![x]);
    } else if pos == s.len() {
        assert(s.insert(pos, x) =~= s.push(x));
    } else {
        assert(issue_order(s[s.len() - 1], x) > 0);
        lemma_insert_at(s.drop_last(), x, pos);
        assert(s.drop_last().insert(pos, x).push(s.last()) =~= s.insert(pos, x));
    }
}

// ---------------------------------------------------------------------------
// The report
// ---------------------------------------------------------------------------
/// Whether some issue has the given severity.
pub open spec fn has_issue_severity(is: Seq<IssueV>, s: IssueSeverity) -> bool {
    exists|i: int| 0 <= i < is.len() && #[trigger] is[i].severity == s
}

/// How many issues have the given severity.
pub open spec fn count_issue_severity(is: Seq<IssueV>, s: IssueSeverity) -> nat
    decreases is.len(),
{
    if is.len() == 0 {
        0
    } else {
        count_issue_severity(is.drop_last(), s) + if is.last().severity == s {
            1nat
        } else {
            0nat
        }
    }
}

/// Results from linting.
#[derive(Debug)]
pub struct LintReport {
    /// All issues found.
    pub issues: Vec<Issue>,
}

impl Default for LintReport {
    fn default() -> (r: Self)
        ensures
            r.issues@.len() == 0,
    {
        LintReport { issues: Vec::new() }
    }
}

impl LintReport {
    /// Create a new empty report.
    pub fn new() -> (r: Self)
        ensures
            r.issues@.len() == 0,
    {
        LintReport { issues: Vec::new() }
    }

    /// Add an issue to the report.
    pub fn add(&mut self, issue: Issue)
        ensures
            final(self).issues@ == old(self).issues@.push(issue),
    {
        self.issues.push(issue);
    }

    fn has(&self, s: IssueSeverity) -> (r: bool)
        ensures
            r == has_issue_severity(issues_view(self.issues@), s),
    {
        let ghost iv = issues_view(self.issues@);
        let mut i: usize = 0;
        while i < self.issues.len()
            invariant
                i <= self.issues@.len(),
                iv == issues_view(self.issues@),
                forall|k: int| 0 <= k < i ==> iv[k].severity != s,
            decreases self.issues@.len() - i,
        {
            if self.issues[i].severity == s {
                proof {
                    assert(iv[i as int].severity == s);
                }
                return true;
            }
            i += 1;
        }
        false
    }

    /// Check if there are any errors.
    pub fn has_errors(&self) -> (r: bool)
        ensures
            r == has_issue_severity(issues_view(self.issues@), IssueSeverity::Error),
    {
        self.has(IssueSeverity::Error)
    }

    /// Check if there are any warnings.
    pub fn has_warnings(&self) -> (r: bool)
        ensures
            r == has_issue_severity(issues_view(self.issues@), IssueSeverity::Warning),
    {
        self.has(IssueSeverity::Warning)
    }

    /// Check if the report is clean (no warnings or errors).
    pub fn is_clean(&self) -> (r: bool)
        ensures
            r == (!has_issue_severity(issues_view(self.issues@), IssueSeverity::Error)
                && !has_issue_severity(issues_view(self.issues@), IssueSeverity::Warning)),
    {
        !self.has_errors() && !self.has_warnings()
    }

    /// Get the count of issues by severity.
    pub fn count_by_severity(&self, severity: IssueSeverity) -> (r: usize)
        ensures
            r == count_issue_severity(issues_view(self.issues@), severity),
    {
        let ghost iv = issues_view(self.issues@);
        let mut n: usize = 0;
        let mut i: usize = 0;
        proof {
            assert(iv.take(0) =~= Seq::<IssueV>::empty());
        }
        while i < self.issues.len()
            invariant
                i <= self.issues@.len(),
                iv == issues_view(self.issues@),
                n == count_issue_severity(iv.take(i as int), severity),
                n <= i,
            decreases self.issues@.len() - i,
        {
            proof {
                assert(iv.take(i + 1).drop_last() =~= iv.take(i as int));
            }
            if self.issues[i].severity == severity {
                n += 1;
            }
            i += 1;
        }
        proof {
            assert(iv.take(self.issues@.len() as int) =~= iv);
        }
        n
    }

    /// Sort issues by severity (errors first), then by path, then by line.
    /// Issues that compare equal keep their order.
    pub fn sort(&mut self)
        ensures
            issues_view(final(self).issues@) == sorted_issues(issues_view(old(self).issues@)),
    {
        let ghost iv = issues_view(self.issues@);
        let mut out: Vec<Issue> = Vec::new();
        let mut i: usize = 0;
        proof {
            assert(iv.take(0) =~= Seq::<IssueV>::empty());
            assert(issues_view(out@) =~= Seq::<IssueV>::empty());
        }
        while i < self.issues.len()
            invariant
                i <= self.issues@.len(),
                iv == issues_view(self.issues@),
                issues_view(out@) == sorted_issues(iv.take(i as int)),
            decreases self.issues@.len() - i,
        {
            let x = self.issues[i].clone();
            let ghost ov = issues_view(out@);
            let mut pos: usize = out.len();
            while pos > 0 && issue_compare(&out[pos - 1], &x) > 0
                invariant
                    pos <= out@.len(),
                    ov == issues_view(out@),
                    forall|k: int| pos <= k < ov.len() ==> issue_order(#[trigger] ov[k], x@) > 0,
                decreases pos,
            {
                pos -= 1;
            }
            proof {
                lemma_insert_at(ov, x@, pos as int);
                assert(iv.take(i + 1).drop_last() =~= iv.take(i as int));
                assert(iv.take(i + 1).last() == x@);
            }
            out.insert(pos, x);
            proof {
                assert(issues_view(out@) =~= ov.insert(pos as int, iv[i as int]));
            }
            i += 1;
        }
        proof {
            assert(iv.take(self.issues@.len() as int) =~= iv);
        }
        self.issues = out;
    }
}


fn viol_compare(a: &Violation, b: &Violation) -> (r: i8)
    ensures
        r == viol_order(a@, b@),
{
    let am = chars_of(a.message.as_str());
    let bm = chars_of(b.message.as_str());
    let m = text_compare(am.as_slice(), bm.as_slice());
    if m != 0 {
        return m;
    }
    if a.line != b.line {
        return order_u64(a.line as u64, b.line as u64);
    }
    if a.column != b.column {
        return order_u64(a.column as u64, b.column as u64);
    }
    let ai = chars_of(a.rule_id.as_str());
    let bi = chars_of(b.rule_id.as_str());
    let t = text_compare(ai.as_slice(), bi.as_slice());
    if t != 0 {
        return t;
    }
    let an = chars_of(a.rule_name.as_str());
    let bn = chars_of(b.rule_name.as_str());
    let n = text_compare(an.as_slice(), bn.as_slice());
    if n != 0 {
        return n;
    }
    order_u64(a.severity.rank() as u64, b.severity.rank() as u64)
}

/// Puts violations in violation order, keeping every one of them.
fn sort_violations(v: Vec<Violation>) -> (r: Vec<Violation>)
    ensures
        viols_sorted(violations_view(r@)),
        violations_view(r@).to_multiset() == violations_view(v@).to_multiset(),
{
    broadcast use vstd::seq_lib::group_to_multiset_ensures;

    let ghost all = violations_view(v@).to_multiset();
    let mut rest = v;
    let mut out: Vec<Violation> = Vec::new();
    proof {
        assert(violations_view(out@) =~= Seq::<ViolationV>::empty());
        assert(violations_view(out@).to_multiset() =~= Multiset::<ViolationV>::empty());
        assert(violations_view(out@).to_multiset().add(violations_view(rest@).to_multiset()) =~= all);
    }
    while rest.len() > 0
        invariant
            viols_sorted(violations_view(out@)),
            violations_view(out@).to_multiset().add(violations_view(rest@).to_multiset()) == all,
        decreases rest@.len(),
    {
        let ghost rb = violations_view(rest@);
        assert(rb.len() == rest@.len());
        let x = rest.remove(0);
        proof {
            assert(violations_view(rest@) =~= rb.remove(0));
            assert(rb[0] == x@);
            vstd::seq_lib::to_multiset_remove(rb, 0);
            vstd::seq_lib::to_multiset_contains(rb, x@);
            assert(violations_view(rest@).to_multiset() == rb.to_multiset().remove(x@));
            assert(rb.contains(x@));
            assert(rb.to_multiset().count(x@) > 0);
        }
        let ghost ov = violations_view(out@);
        let mut pos: usize = out.len();
        while pos > 0 && viol_compare(&out[pos - 1], &x) > 0
            invariant
                pos <= out@.len(),
                ov == violations_view(out@),
                forall|k: int| pos <= k < ov.len() ==> viol_order(#[trigger] ov[k], x@) > 0,
            decreases pos,
        {
            pos -= 1;
        }
        out.insert(pos, x);
        proof {
            let nv = violations_view(out@);
            assert(nv =~= ov.insert(pos as int, x@));
            assert forall|i: int, j: int| 0 <= i < j < nv.len() implies viol_order(
                #[trigger] nv[i],
                #[trigger] nv[j],
            ) <= 0 by {
                if j < pos {
                    assert(nv[i] == ov[i] && nv[j] == ov[j]);
                } else if j == pos {
                    assert(nv[i] == ov[i]);
                    if i < pos - 1 {
                        assert(viol_order(ov[i], ov[pos - 1]) <= 0);
                        lemma_viol_order(ov[i], ov[pos - 1], x@);
                    }
                } else if i == pos {
                    assert(nv[j] == ov[j - 1]);
                    lemma_viol_order(ov[j - 1], x@, x@);
                } else if i < pos {
                    assert(nv[i] == ov[i] && nv[j] == ov[j - 1]);
                } else {
                    assert(nv[i] == ov[i - 1] && nv[j] == ov[j - 1]);
                }
            }
            assert(nv.remove(pos as int) =~= ov);
            vstd::seq_lib::to_multiset_remove(nv, pos as int);
            vstd::seq_lib::to_multiset_contains(nv, x@);
            assert(nv[pos as int] == x@);
            assert(ov.to_multiset() == nv.to_multiset().remove(x@));
            assert(nv.contains(x@));
            assert(nv.to_multiset().count(x@) > 0);
            assert(nv.to_multiset().add(violations_view(rest@).to_multiset()) =~= all);
        }
    }
    proof {
        assert(violations_view(rest@).to_multiset().len() == 0);
        assert(violations_view(rest@).to_multiset() =~= Multiset::<ViolationV>::empty());
        assert(violations_view(out@).to_multiset().add(violations_view(rest@).to_multiset())
            =~= violations_view(out@).to_multiset());
    }
    out
}


// ---------------------------------------------------------------------------
// The rules of mdbook-lint-rulesets
// ---------------------------------------------------------------------------
/// The mathematical view of a rule violation.
pub struct ViolationV {
    pub rule_id: Seq<char>,
    pub rule_name: Seq<char>,
    pub message: Seq<char>,
    pub line: usize,
    pub column: usize,
    pub severity: IssueSeverity,
}

/// A violation reported by one of the ADR rules.
#[derive(Debug)]
pub struct Violation {
    /// Rule identifier (e.g. `ADR001`).
    pub rule_id: String,
    /// Rule name (e.g. `adr-title-format`).
    pub rule_name: String,
    /// Description of the violation.
    pub message: String,
    /// Line number (1-based; 0 when the rule gives none).
    pub line: usize,
    /// Column number (1-based; 0 when the rule gives none).
    pub column: usize,
    /// Severity of the violation.
    pub severity: IssueSeverity,
}

impl View for Violation {
    type V = ViolationV;

    open spec fn view(&self) -> ViolationV {
        ViolationV {
            rule_id: self.rule_id@,
            rule_name: self.rule_name@,
            message: self.message@,
            line: self.line,
            column: self.column,
            severity: self.severity,
        }
    }
}

pub open spec fn violations_view(v: Seq<Violation>) -> Seq<ViolationV> {
    v.map_values(|x: Violation| x@)
}

/// What a rule gave: its violations, or the text of its error.
pub open spec fn outcome_view(r: Result<Vec<Violation>, String>) -> Result<Seq<ViolationV>, Seq<char>> {
    match r {
        Ok(v) => Ok(violations_view(v@)),
        Err(e) => Err(e@),
    }
}

/// The document format the format-sensitive rules are pinned to.
#[derive(Debug, Clone, Copy, PartialEq, Eq, Structural)]
pub enum DocFormat {
    /// Let the rules detect the format themselves.
    Auto,
    /// Nygard format.
    Nygard,
    /// MADR 4 format.
    Madr4,
}

/// The outcome of mdbook-lint-rulesets' `Adr001` rule (title format) on the
/// document with this content and path.
pub uninterp spec fn adr001_outcome(content: Seq<char>, path: Seq<char>) -> Result<Seq<ViolationV>, Seq<char>>;

/// Runs `Adr001::default().check` (mdbook-lint-rulesets) on the `Document`
/// made of `content` and `path`. Its outcome is named, not stated;
/// `Document::new` always succeeds in the version used.
#[verifier::external_body]
fn check_adr001(content: &str, path: &str) -> (r: Result<Vec<Violation>, String>)
    ensures
        outcome_view(r) == adr001_outcome(content@, path@),
{
    let doc = Document::new(content.to_string(), PathBuf::from(path)).unwrap();
    match Adr001::default().check(&doc) {
        Ok(vs) => Ok(vs.into_iter().map(|v| Violation {
            rule_id: v.rule_id, rule_name: v.rule_name, message: v.message, line: v.line, column: v.column,
            severity: match v.severity { Severity::Error => IssueSeverity::Error, Severity::Warning => IssueSeverity::Warning, Severity::Info => IssueSeverity::Info },
        }).collect()),
        Err(e) => Err(e.to_string()),
    }
}

/// The outcome of mdbook-lint-rulesets' `Adr002` rule (required status) on the
/// document with this content and path.
pub uninterp spec fn adr002_outcome(content: Seq<char>, path: Seq<char>) -> Result<Seq<ViolationV>, Seq<char>>;

/// Runs `Adr002::default().check` (mdbook-lint-rulesets) on the `Document`
/// made of `content` and `path`. Its outcome is named, not stated;
/// `Document::new` always succeeds in the version used.
#[verifier::external_body]
fn check_adr002(content: &str, path: &str) -> (r: Result<Vec<Violation>, String>)
    ensures
        outcome_view(r) == adr002_outcome(content@, path@),
{
    let doc = Document::new(content.to_string(), PathBuf::from(path)).unwrap();
    match Adr002::default().check(&doc) {
        Ok(vs) => Ok(vs.into_iter().map(|v| Violation {
            rule_id: v.rule_id, rule_name: v.rule_name, message: v.message, line: v.line, column: v.column,
            severity: match v.severity { Severity::Error => IssueSeverity::Error, Severity::Warning => IssueSeverity::Warning, Severity::Info => IssueSeverity::Info },
        }).collect()),
        Err(e) => Err(e.to_string()),
    }
}

/// The outcome of mdbook-lint-rulesets' `Adr003` rule (required date) on the
/// document with this content and path.
pub uninterp spec fn adr003_outcome(content: Seq<char>, path: Seq<char>) -> Result<Seq<ViolationV>, Seq<char>>;

/// Runs `Adr003::default().check` (mdbook-lint-rulesets) on the `Document`
/// made of `content` and `path`. Its outcome is named, not stated;
/// `Document::new` always succeeds in the version used.
#[verifier::external_body]
fn check_adr003(content: &str, path: &str) -> (r: Result<Vec<Violation>, String>)
    ensures
        outcome_view(r) == adr003_outcome(content@, path@),
{
    let doc = Document::new(content.to_string(), PathBuf::from(path)).unwrap();
    match Adr003::default().check(&doc) {
        Ok(vs) => Ok(vs.into_iter().map(|v| Violation {
            rule_id: v.rule_id, rule_name: v.rule_name, message: v.message, line: v.line, column: v.column,
            severity: match v.severity { Severity::Error => IssueSeverity::Error, Severity::Warning => IssueSeverity::Warning, Severity::Info => IssueSeverity::Info },
        }).collect()),
        Err(e) => Err(e.to_string()),
    }
}

/// The outcome of mdbook-lint-rulesets' `Adr004` rule (required context) on the
/// document with this content and path.
pub uninterp spec fn adr004_outcome(format: DocFormat, content: Seq<char>, path: Seq<char>) -> Result<Seq<ViolationV>, Seq<char>>;

/// Runs `Adr004::with_format(format).check` (mdbook-lint-rulesets) on the
/// `Document` made of `content` and `path`. Its outcome is named, not stated;
/// `Document::new` always succeeds in the version used.
#[verifier::external_body]
fn check_adr004(format: DocFormat, content: &str, path: &str) -> (r: Result<Vec<Violation>, String>)
    ensures
        outcome_view(r) == adr004_outcome(format, content@, path@),
{
    let doc = Document::new(content.to_string(), PathBuf::from(path)).unwrap();
    match Adr004::with_format(match format { DocFormat::Auto => AdrFormat::Auto, DocFormat::Nygard => AdrFormat::Nygard, DocFormat::Madr4 => AdrFormat::Madr4 }).check(&doc) {
        Ok(vs) => Ok(vs.into_iter().map(|v| Violation {
            rule_id: v.rule_id, rule_name: v.rule_name, message: v.message, line: v.line, column: v.column,
            severity: match v.severity { Severity::Error => IssueSeverity::Error, Severity::Warning => IssueSeverity::Warning, Severity::Info => IssueSeverity::Info },
        }).collect()),
        Err(e) => Err(e.to_string()),
    }
}

/// The outcome of mdbook-lint-rulesets' `Adr005` rule (required decision) on the
/// document with this content and path.
pub uninterp spec fn adr005_outcome(format: DocFormat, content: Seq<char>, path: Seq<char>) -> Result<Seq<ViolationV>, Seq<char>>;

/// Runs `Adr005::with_format(format).check` (mdbook-lint-rulesets) on the
/// `Document` made of `content` and `path`. Its outcome is named, not stated;
/// `Document::new` always succeeds in the version used.
#[verifier::external_body]
fn check_adr005(format: DocFormat, content: &str, path: &str) -> (r: Result<Vec<Violation>, String>)
    ensures
        outcome_view(r) == adr005_outcome(format, content@, path@),
{
    let doc = Document::new(content.to_string(), PathBuf::from(path)).unwrap();
    match Adr005::with_format(match format { DocFormat::Auto => AdrFormat::Auto, DocFormat::Nygard => AdrFormat::Nygard, DocFormat::Madr4 => AdrFormat::Madr4 }).check(&doc) {
        Ok(vs) => Ok(vs.into_iter().map(|v| Violation {
            rule_id: v.rule_id, rule_name: v.rule_name, message: v.message, line: v.line, column: v.column,
            severity: match v.severity { Severity::Error => IssueSeverity::Error, Severity::Warning => IssueSeverity::Warning, Severity::Info => IssueSeverity::Info },
        }).collect()),
        Err(e) => Err(e.to_string()),
    }
}

/// The outcome of mdbook-lint-rulesets' `Adr006` rule (required consequences) on the
/// document with this content and path.
pub uninterp spec fn adr006_outcome(format: DocFormat, content: Seq<char>, path: Seq<char>) -> Result<Seq<ViolationV>, Seq<char>>;

/// Runs `Adr006::with_format(format).check` (mdbook-lint-rulesets) on the
/// `Document` made of `content` and `path`. Its outcome is named, not stated;
/// `Document::new` always succeeds in the version used.
#[verifier::external_body]
fn check_adr006(format: DocFormat, content: &str, path: &str) -> (r: Result<Vec<Violation>, String>)
    ensures
        outcome_view(r) == adr006_outcome(format, content@, path@),
{
    let doc = Document::new(content.to_string(), PathBuf::from(path)).unwrap();
    match Adr006::with_format(match format { DocFormat::Auto => AdrFormat::Auto, DocFormat::Nygard => AdrFormat::Nygard, DocFormat::Madr4 => AdrFormat::Madr4 }).check(&doc) {
        Ok(vs) => Ok(vs.into_iter().map(|v| Violation {
            rule_id: v.rule_id, rule_name: v.rule_name, message: v.message, line: v.line, column: v.column,
            severity: match v.severity { Severity::Error => IssueSeverity::Error, Severity::Warning => IssueSeverity::Warning, Severity::Info => IssueSeverity::Info },
        }).collect()),
        Err(e) => Err(e.to_string()),
    }
}

/// The outcome of mdbook-lint-rulesets' `Adr007` rule (valid status) on the
/// document with this content and path.
pub uninterp spec fn adr007_outcome(content: Seq<char>, path: Seq<char>) -> Result<Seq<ViolationV>, Seq<char>>;

/// Runs `Adr007::default().check` (mdbook-lint-rulesets) on the `Document`
/// made of `content` and `path`. Its outcome is named, not stated;
/// `Document::new` always succeeds in the version used.
#[verifier::external_body]
fn check_adr007(content: &str, path: &str) -> (r: Result<Vec<Violation>, String>)
    ensures
        outcome_view(r) == adr007_outcome(content@, path@),
{
    let doc = Document::new(content.to_string(), PathBuf::from(path)).unwrap();
    match Adr007::default().check(&doc) {
        Ok(vs) => Ok(vs.into_iter().map(|v| Violation {
            rule_id: v.rule_id, rule_name: v.rule_name, message: v.message, line: v.line, column: v.column,
            severity: match v.severity { Severity::Error => IssueSeverity::Error, Severity::Warning => IssueSeverity::Warning, Severity::Info => IssueSeverity::Info },
        }).collect()),
        Err(e) => Err(e.to_string()),
    }
}

/// The outcome of mdbook-lint-rulesets' `Adr008` rule (date format) on the
/// document with this content and path.
pub uninterp spec fn adr008_outcome(content: Seq<char>, path: Seq<char>) -> Result<Seq<ViolationV>, Seq<char>>;

/// Runs `Adr008::default().check` (mdbook-lint-rulesets) on the `Document`
/// made of `content` and `path`. Its outcome is named, not stated;
/// `Document::new` always succeeds in the version used.
#[verifier::external_body]
fn check_adr008(content: &str, path: &str) -> (r: Result<Vec<Violation>, String>)
    ensures
        outcome_view(r) == adr008_outcome(content@, path@),
{
    let doc = Document::new(content.to_string(), PathBuf::from(path)).unwrap();
    match Adr008::default().check(&doc) {
        Ok(vs) => Ok(vs.into_iter().map(|v| Violation {
            rule_id: v.rule_id, rule_name: v.rule_name, message: v.message, line: v.line, column: v.column,
            severity: match v.severity { Severity::Error => IssueSeverity::Error, Severity::Warning => IssueSeverity::Warning, Severity::Info => IssueSeverity::Info },
        }).collect()),
        Err(e) => Err(e.to_string()),
    }
}

/// The outcome of mdbook-lint-rulesets' `Adr009` rule (file name matches number) on the
/// document with this content and path.
pub uninterp spec fn adr009_outcome(content: Seq<char>, path: Seq<char>) -> Result<Seq<ViolationV>, Seq<char>>;

/// Runs `Adr009::default().check` (mdbook-lint-rulesets) on the `Document`
/// made of `content` and `path`. Its outcome is named, not stated;
/// `Document::new` always succeeds in the version used.
#[verifier::external_body]
fn check_adr009(content: &str, path: &str) -> (r: Result<Vec<Violation>, String>)
    ensures
        outcome_view(r) == adr009_outcome(content@, path@),
{
    let doc = Document::new(content.to_string(), PathBuf::from(path)).unwrap();
    match Adr009::default().check(&doc) {
        Ok(vs) => Ok(vs.into_iter().map(|v| Violation {
            rule_id: v.rule_id, rule_name: v.rule_name, message: v.message, line: v.line, column: v.column,
            severity: match v.severity { Severity::Error => IssueSeverity::Error, Severity::Warning => IssueSeverity::Warning, Severity::Info => IssueSeverity::Info },
        }).collect()),
        Err(e) => Err(e.to_string()),
    }
}

/// The outcome of mdbook-lint-rulesets' `Adr014` rule (non-empty sections) on the
/// document with this content and path.
pub uninterp spec fn adr014_outcome(content: Seq<char>, path: Seq<char>) -> Result<Seq<ViolationV>, Seq<char>>;

/// Runs `Adr014::default().check` (mdbook-lint-rulesets) on the `Document`
/// made of `content` and `path`. Its outcome is named, not stated;
/// `Document::new` always succeeds in the version used.
#[verifier::external_body]
fn check_adr014(content: &str, path: &str) -> (r: Result<Vec<Violation>, String>)
    ensures
        outcome_view(r) == adr014_outcome(content@, path@),
{
    let doc = Document::new(content.to_string(), PathBuf::from(path)).unwrap();
    match Adr014::default().check(&doc) {
        Ok(vs) => Ok(vs.into_iter().map(|v| Violation {
            rule_id: v.rule_id, rule_name: v.rule_name, message: v.message, line: v.line, column: v.column,
            severity: match v.severity { Severity::Error => IssueSeverity::Error, Severity::Warning => IssueSeverity::Warning, Severity::Info => IssueSeverity::Info },
        }).collect()),
        Err(e) => Err(e.to_string()),
    }
}

/// The outcome of mdbook-lint-rulesets' `Adr015` rule (decision drivers format) on the
/// document with this content and path.
pub uninterp spec fn adr015_outcome(content: Seq<char>, path: Seq<char>) -> Result<Seq<ViolationV>, Seq<char>>;

/// Runs `Adr015::default().check` (mdbook-lint-rulesets) on the `Document`
/// made of `content` and `path`. Its outcome is named, not stated;
/// `Document::new` always succeeds in the version used.
#[verifier::external_body]
fn check_adr015(content: &str, path: &str) -> (r: Result<Vec<Violation>, String>)
    ensures
        outcome_view(r) == adr015_outcome(content@, path@),
{
    let doc = Document::new(content.to_string(), PathBuf::from(path)).unwrap();
    match Adr015::default().check(&doc) {
        Ok(vs) => Ok(vs.into_iter().map(|v| Violation {
            rule_id: v.rule_id, rule_name: v.rule_name, message: v.message, line: v.line, column: v.column,
            severity: match v.severity { Severity::Error => IssueSeverity::Error, Severity::Warning => IssueSeverity::Warning, Severity::Info => IssueSeverity::Info },
        }).collect()),
        Err(e) => Err(e.to_string()),
    }
}

/// The outcome of mdbook-lint-rulesets' `Adr016` rule (considered options format) on the
/// document with this content and path.
pub uninterp spec fn adr016_outcome(content: Seq<char>, path: Seq<char>) -> Result<Seq<ViolationV>, Seq<char>>;

/// Runs `Adr016::default().check` (mdbook-lint-rulesets) on the `Document`
/// made of `content` and `path`. Its outcome is named, not stated;
/// `Document::new` always succeeds in the version used.
#[verifier::external_body]
fn check_adr016(content: &str, path: &str) -> (r: Result<Vec<Violation>, String>)
    ensures
        outcome_view(r) == adr016_outcome(content@, path@),
{
    let doc = Document::new(content.to_string(), PathBuf::from(path)).unwrap();
    match Adr016::default().check(&doc) {
        Ok(vs) => Ok(vs.into_iter().map(|v| Violation {
            rule_id: v.rule_id, rule_name: v.rule_name, message: v.message, line: v.line, column: v.column,
            severity: match v.severity { Severity::Error => IssueSeverity::Error, Severity::Warning => IssueSeverity::Warning, Severity::Info => IssueSeverity::Info },
        }).collect()),
        Err(e) => Err(e.to_string()),
    }
}

/// The outcome of mdbook-lint-rulesets' `Adr017` rule (consequences structure) on the
/// document with this content and path.
pub uninterp spec fn adr017_outcome(format: DocFormat, content: Seq<char>, path: Seq<char>) -> Result<Seq<ViolationV>, Seq<char>>;

/// Runs `Adr017::with_format(format).check` (mdbook-lint-rulesets) on the
/// `Document` made of `content` and `path`. Its outcome is named, not stated;
/// `Document::new` always succeeds in the version used.
#[verifier::external_body]
fn check_adr017(format: DocFormat, content: &str, path: &str) -> (r: Result<Vec<Violation>, String>)
    ensures
        outcome_view(r) == adr017_outcome(format, content@, path@),
{
    let doc = Document::new(content.to_string(), PathBuf::from(path)).unwrap();
    match Adr017::with_format(match format { DocFormat::Auto => AdrFormat::Auto, DocFormat::Nygard => AdrFormat::Nygard, DocFormat::Madr4 => AdrFormat::Madr4 }).check(&doc) {
        Ok(vs) => Ok(vs.into_iter().map(|v| Violation {
            rule_id: v.rule_id, rule_name: v.rule_name, message: v.message, line: v.line, column: v.column,
            severity: match v.severity { Severity::Error => IssueSeverity::Error, Severity::Warning => IssueSeverity::Warning, Severity::Info => IssueSeverity::Info },
        }).collect()),
        Err(e) => Err(e.to_string()),
    }
}

/// The outcome of mdbook-lint-rulesets' `Adr010` collection rule
/// (superseded ADRs have a replacement) on the documents with these contents and paths.
pub uninterp spec fn adr010_outcome(docs: Seq<(Seq<char>, Seq<char>)>) -> Result<Seq<ViolationV>, Seq<char>>;

/// Runs `Adr010.check_collection` (mdbook-lint-rulesets) on the `Document`s
/// made of the (content, path) pairs. Its outcome is named, not stated;
/// `Document::new` always succeeds in the version used.
#[verifier::external_body]
fn check_adr010(docs: &Vec<(String, String)>) -> (r: Result<Vec<Violation>, String>)
    ensures
        outcome_view(r) == adr010_outcome(docs@.map_values(|d: (String, String)| (d.0@, d.1@))),
{
    let ds: Vec<Document> = docs.iter().map(|(c, p)| Document::new(c.clone(), PathBuf::from(p)).unwrap()).collect();
    match Adr010.check_collection(&ds) {
        Ok(vs) => Ok(vs.into_iter().map(|v| Violation {
            rule_id: v.rule_id, rule_name: v.rule_name, message: v.message, line: v.line, column: v.column,
            severity: match v.severity { Severity::Error => IssueSeverity::Error, Severity::Warning => IssueSeverity::Warning, Severity::Info => IssueSeverity::Info },
        }).collect()),
        Err(e) => Err(e.to_string()),
    }
}

/// The outcome of mdbook-lint-rulesets' `Adr011` collection rule
/// (sequential numbering) on the documents with these contents and paths.
pub uninterp spec fn adr011_outcome(docs: Seq<(Seq<char>, Seq<char>)>) -> Result<Seq<ViolationV>, Seq<char>>;

/// Runs `Adr011.check_collection` (mdbook-lint-rulesets) on the `Document`s
/// made of the (content, path) pairs. Its outcome is named, not stated;
/// `Document::new` always succeeds in the version used.
#[verifier::external_body]
fn check_adr011(docs: &Vec<(String, String)>) -> (r: Result<Vec<Violation>, String>)
    ensures
        outcome_view(r) == adr011_outcome(docs@.map_values(|d: (String, String)| (d.0@, d.1@))),
{
    let ds: Vec<Document> = docs.iter().map(|(c, p)| Document::new(c.clone(), PathBuf::from(p)).unwrap()).collect();
    match Adr011.check_collection(&ds) {
        Ok(vs) => Ok(vs.into_iter().map(|v| Violation {
            rule_id: v.rule_id, rule_name: v.rule_name, message: v.message, line: v.line, column: v.column,
            severity: match v.severity { Severity::Error => IssueSeverity::Error, Severity::Warning => IssueSeverity::Warning, Severity::Info => IssueSeverity::Info },
        }).collect()),
        Err(e) => Err(e.to_string()),
    }
}

/// The violations mdbook-lint-rulesets' `Adr012` collection rule (no
/// duplicate numbers) finds in the documents with these contents and paths,
/// counted with multiplicity (or the text of its error). Which violations
/// it finds depends on the documents alone; the order it lists them in does
/// not (it walks a `HashMap`), so the order has no name.
pub uninterp spec fn adr012_outcome(docs: Seq<(Seq<char>, Seq<char>)>) -> Result<Multiset<ViolationV>, Seq<char>>;

/// Runs `Adr012.check_collection` (mdbook-lint-rulesets) on the `Document`s
/// made of the (content, path) pairs. What it finds is named, as a
/// multiset; the order of the violations it returns is left open, since the
/// rule lists them while walking a `HashMap`. `Document::new` always
/// succeeds in the version used.
#[verifier::external_body]
fn check_adr012(docs: &Vec<(String, String)>) -> (r: Result<Vec<Violation>, String>)
    ensures
        match adr012_outcome(docs@.map_values(|d: (String, String)| (d.0@, d.1@))) {
            Ok(m) => r matches Ok(v) && violations_view(v@).to_multiset() == m,
            Err(e) => r matches Err(x) && x@ == e,
        },
{
    let ds: Vec<Document> = docs.iter().map(|(c, p)| Document::new(c.clone(), PathBuf::from(p)).unwrap()).collect();
    match Adr012.check_collection(&ds) {
        Ok(vs) => Ok(vs.into_iter().map(|v| Violation {
            rule_id: v.rule_id, rule_name: v.rule_name, message: v.message, line: v.line, column: v.column,
            severity: match v.severity { Severity::Error => IssueSeverity::Error, Severity::Warning => IssueSeverity::Warning, Severity::Info => IssueSeverity::Info },
        }).collect()),
        Err(e) => Err(e.to_string()),
    }
}

/// The outcome of mdbook-lint-rulesets' `Adr013` collection rule
/// (valid ADR links) on the documents with these contents and paths.
pub uninterp spec fn adr013_outcome(docs: Seq<(Seq<char>, Seq<char>)>) -> Result<Seq<ViolationV>, Seq<char>>;

/// Runs `Adr013.check_collection` (mdbook-lint-rulesets) on the `Document`s
/// made of the (content, path) pairs. Its outcome is named, not stated;
/// `Document::new` always succeeds in the version used.
#[verifier::external_body]
fn check_adr013(docs: &Vec<(String, String)>) -> (r: Result<Vec<Violation>, String>)
    ensures
        outcome_view(r) == adr013_outcome(docs@.map_values(|d: (String, String)| (d.0@, d.1@))),
{
    let ds: Vec<Document> = docs.iter().map(|(c, p)| Document::new(c.clone(), PathBuf::from(p)).unwrap()).collect();
    match Adr013.check_collection(&ds) {
        Ok(vs) => Ok(vs.into_iter().map(|v| Violation {
            rule_id: v.rule_id, rule_name: v.rule_name, message: v.message, line: v.line, column: v.column,
            severity: match v.severity { Severity::Error => IssueSeverity::Error, Severity::Warning => IssueSeverity::Warning, Severity::Info => IssueSeverity::Info },
        }).collect()),
        Err(e) => Err(e.to_string()),
    }
}


// ---------------------------------------------------------------------------
// Format detection
// ---------------------------------------------------------------------------
/// The heading text of a `## ` line, trimmed.
pub open spec fn h2_heading(line: Seq<char>) -> Option<Seq<char>> {
    match strip_prefix_spec(line, "## "@) {
        Some(h) => Some(trim_spec(h)),
        None => None,
    }
}

pub open spec fn is_madr_heading(h: Seq<char>) -> bool {
    eq_ignore_ascii_case_spec(h, "Context and Problem Statement"@) || eq_ignore_ascii_case_spec(
        h,
        "Decision Outcome"@,
    ) || eq_ignore_ascii_case_spec(h, "Considered Options"@)
}

pub open spec fn is_nygard_heading(h: Seq<char>) -> bool {
    eq_ignore_ascii_case_spec(h, "Context"@) || eq_ignore_ascii_case_spec(h, "Decision"@)
}

/// The format the lines show: MADR at the first MADR heading, else Nygard
/// when a Nygard heading was seen, else left to the rules.
pub open spec fn format_of_lines(ls: Seq<Seq<char>>, has_nygard: bool) -> DocFormat
    decreases ls.len(),
{
    if ls.len() == 0 {
        if has_nygard {
            DocFormat::Nygard
        } else {
            DocFormat::Auto
        }
    } else {
        match h2_heading(ls[0]) {
            Some(h) => if is_madr_heading(h) {
                DocFormat::Madr4
            } else {
                format_of_lines(ls.drop_first(), has_nygard || is_nygard_heading(h))
            },
            None => format_of_lines(ls.drop_first(), has_nygard),
        }
    }
}

pub open spec fn detect_format_spec(content: Seq<char>) -> DocFormat {
    format_of_lines(lines_spec(content), false)
}

/// Detects an ADR document's format from its `## ` headings: a MADR
/// heading (`Context and Problem Statement`, `Decision Outcome`,
/// `Considered Options`) means MADR 4, else a Nygard heading (`Context`,
/// `Decision`) means Nygard, else the rules detect it themselves.
pub fn detect_adr_format(content: &str) -> (r: DocFormat)
    ensures
        r == detect_format_spec(content@),
{
    let cs = chars_of(content);
    let ls = lines(cs.as_slice());
    let ghost lv = ls@.map_values(|l: Vec<char>| l@);
    let mut has_nygard = false;
    let mut i: usize = 0;
    proof {
        assert(lv.skip(0) =~= lv);
    }
    while i < ls.len()
        invariant
            i <= ls@.len(),
            lv == ls@.map_values(|l: Vec<char>| l@),
            lv == lines_spec(content@),
            format_of_lines(lv, false) == format_of_lines(lv.skip(i as int), has_nygard),
        decreases ls@.len() - i,
    {
        proof {
            assert(lv.skip(i as int)[0] == ls@[i as int]@);
            assert(lv.skip(i as int).drop_first() =~= lv.skip(i + 1));
        }
        match strip_prefix(ls[i].as_slice(), "## ") {
            Some(rest) => {
                let h = trim(rest.as_slice());
                let hs = h.as_slice();
                if eq_ignore_ascii_case(hs, "Context and Problem Statement") || eq_ignore_ascii_case(
                    hs,
                    "Decision Outcome",
                ) || eq_ignore_ascii_case(hs, "Considered Options") {
                    return DocFormat::Madr4;
                }
                if eq_ignore_ascii_case(hs, "Context") || eq_ignore_ascii_case(hs, "Decision") {
                    has_nygard = true;
                }
            },
            None => {},
        }
        i += 1;
    }
    if has_nygard {
        DocFormat::Nygard
    } else {
        DocFormat::Auto
    }
}

// ---------------------------------------------------------------------------
// Per-file linting
// ---------------------------------------------------------------------------
/// The single-document rules, in the order they run.
#[derive(Debug, Clone, Copy, PartialEq, Eq, Structural)]
pub enum FileRule {
    Adr001,
    Adr002,
    Adr003,
    Adr004,
    Adr005,
    Adr006,
    Adr007,
    Adr008,
    Adr009,
    Adr014,
    Adr015,
    Adr016,
    Adr017,
}

pub open spec fn file_rules() -> Seq<FileRule> {
    seq![
        FileRule::Adr001,
        FileRule::Adr002,
        FileRule::Adr003,
        FileRule::Adr004,
        FileRule::Adr005,
        FileRule::Adr006,
        FileRule::Adr007,
        FileRule::Adr008,
        FileRule::Adr009,
        FileRule::Adr014,
        FileRule::Adr015,
        FileRule::Adr016,
        FileRule::Adr017,
    ]
}

/// The id and name of each rule, as the rules report them.
pub open spec fn file_rule_id(r: FileRule) -> Seq<char> {
    match r {
        FileRule::Adr001 => "ADR001"@,
        FileRule::Adr002 => "ADR002"@,
        FileRule::Adr003 => "ADR003"@,
        FileRule::Adr004 => "ADR004"@,
        FileRule::Adr005 => "ADR005"@,
        FileRule::Adr006 => "ADR006"@,
        FileRule::Adr007 => "ADR007"@,
        FileRule::Adr008 => "ADR008"@,
        FileRule::Adr009 => "ADR009"@,
        FileRule::Adr014 => "ADR014"@,
        FileRule::Adr015 => "ADR015"@,
        FileRule::Adr016 => "ADR016"@,
        FileRule::Adr017 => "ADR017"@,
    }
}

pub open spec fn file_rule_name(r: FileRule) -> Seq<char> {
    match r {
        FileRule::Adr001 => "adr-title-format"@,
        FileRule::Adr002 => "adr-required-status"@,
        FileRule::Adr003 => "adr-required-date"@,
        FileRule::Adr004 => "adr-required-context"@,
        FileRule::Adr005 => "adr-required-decision"@,
        FileRule::Adr006 => "adr-required-consequences"@,
        FileRule::Adr007 => "adr-valid-status"@,
        FileRule::Adr008 => "adr-date-format"@,
        FileRule::Adr009 => "adr-filename-matches-number"@,
        FileRule::Adr014 => "adr-non-empty-sections"@,
        FileRule::Adr015 => "adr-decision-drivers-format"@,
        FileRule::Adr016 => "adr-considered-options-format"@,
        FileRule::Adr017 => "adr-consequences-structure"@,
    }
}

pub open spec fn file_rule_outcome(r: FileRule, f: DocFormat, c: Seq<char>, p: Seq<char>) -> Result<
    Seq<ViolationV>,
    Seq<char>,
> {
    match r {
        FileRule::Adr001 => adr001_outcome(c, p),
        FileRule::Adr002 => adr002_outcome(c, p),
        FileRule::Adr003 => adr003_outcome(c, p),
        FileRule::Adr004 => adr004_outcome(f, c, p),
        FileRule::Adr005 => adr005_outcome(f, c, p),
        FileRule::Adr006 => adr006_outcome(f, c, p),
        FileRule::Adr007 => adr007_outcome(c, p),
        FileRule::Adr008 => adr008_outcome(c, p),
        FileRule::Adr009 => adr009_outcome(c, p),
        FileRule::Adr014 => adr014_outcome(c, p),
        FileRule::Adr015 => adr015_outcome(c, p),
        FileRule::Adr016 => adr016_outcome(c, p),
        FileRule::Adr017 => adr017_outcome(f, c, p),
    }
}

impl FileRule {
    /// The rule's id (`ADR001`, ...).
    pub fn id(&self) -> (r: &'static str)
        ensures
            r@ == file_rule_id(*self),
    {
        match self {
            FileRule::Adr001 => "ADR001",
            FileRule::Adr002 => "ADR002",
            FileRule::Adr003 => "ADR003",
            FileRule::Adr004 => "ADR004",
            FileRule::Adr005 => "ADR005",
            FileRule::Adr006 => "ADR006",
            FileRule::Adr007 => "ADR007",
            FileRule::Adr008 => "ADR008",
            FileRule::Adr009 => "ADR009",
            FileRule::Adr014 => "ADR014",
            FileRule::Adr015 => "ADR015",
            FileRule::Adr016 => "ADR016",
            FileRule::Adr017 => "ADR017",
        }
    }

    /// The rule's name (`adr-title-format`, ...).
    pub fn name(&self) -> (r: &'static str)
        ensures
            r@ == file_rule_name(*self),
    {
        match self {
            FileRule::Adr001 => "adr-title-format",
            FileRule::Adr002 => "adr-required-status",
            FileRule::Adr003 => "adr-required-date",
            FileRule::Adr004 => "adr-required-context",
            FileRule::Adr005 => "adr-required-decision",
            FileRule::Adr006 => "adr-required-consequences",
            FileRule::Adr007 => "adr-valid-status",
            FileRule::Adr008 => "adr-date-format",
            FileRule::Adr009 => "adr-filename-matches-number",
            FileRule::Adr014 => "adr-non-empty-sections",
            FileRule::Adr015 => "adr-decision-drivers-format",
            FileRule::Adr016 => "adr-considered-options-format",
            FileRule::Adr017 => "adr-consequences-structure",
        }
    }

    /// Runs the rule on a document.
    pub fn run(&self, format: DocFormat, content: &str, path: &str) -> (r: Result<
        Vec<Violation>,
        String,
    >)
        ensures
            outcome_view(r) == file_rule_outcome(*self, format, content@, path@),
    {
        match self {
            FileRule::Adr001 => check_adr001(content, path),
            FileRule::Adr002 => check_adr002(content, path),
            FileRule::Adr003 => check_adr003(content, path),
            FileRule::Adr004 => check_adr004(format, content, path),
            FileRule::Adr005 => check_adr005(format, content, path),
            FileRule::Adr006 => check_adr006(format, content, path),
            FileRule::Adr007 => check_adr007(content, path),
            FileRule::Adr008 => check_adr008(content, path),
            FileRule::Adr009 => check_adr009(content, path),
            FileRule::Adr014 => check_adr014(content, path),
            FileRule::Adr015 => check_adr015(content, path),
            FileRule::Adr016 => check_adr016(content, path),
            FileRule::Adr017 => check_adr017(format, content, path),
        }
    }
}

/// The issue for a violation of a single-document rule.
pub open spec fn violation_issue(v: ViolationV, path: Option<Seq<char>>, n: Option<u32>) -> IssueV {
    IssueV {
        rule_id: v.rule_id,
        rule_name: v.rule_name,
        severity: v.severity,
        message: v.message,
        path,
        line: Some(v.line),
        column: Some(v.column),
        adr_number: n,
        related_adrs: seq![],
    }
}

/// The issue for a rule that failed.
pub open spec fn failed_rule_issue(
    id: Seq<char>,
    name: Seq<char>,
    e: Seq<char>,
    path: Option<Seq<char>>,
    n: Option<u32>,
) -> IssueV {
    IssueV {
        rule_id: id,
        rule_name: name,
        severity: IssueSeverity::Error,
        message: "Rule failed: "@ + e,
        path,
        line: None,
        column: None,
        adr_number: n,
        related_adrs: seq![],
    }
}

pub open spec fn outcome_issues(
    id: Seq<char>,
    name: Seq<char>,
    o: Result<Seq<ViolationV>, Seq<char>>,
    path: Option<Seq<char>>,
    n: Option<u32>,
) -> Seq<IssueV> {
    match o {
        Ok(vs) => vs.map_values(|v: ViolationV| violation_issue(v, path, n)),
        Err(e) => seq![failed_rule_issue(id, name, e, path, n)],
    }
}

/// The issues of the given rules on one document.
pub open spec fn rules_issues(
    rules: Seq<FileRule>,
    f: DocFormat,
    c: Seq<char>,
    p: Seq<char>,
    n: u32,
) -> Seq<IssueV>
    decreases rules.len(),
{
    if rules.len() == 0 {
        seq![]
    } else {
        let r = rules.last();
        rules_issues(rules.drop_last(), f, c, p, n) + outcome_issues(
            file_rule_id(r),
            file_rule_name(r),
            file_rule_outcome(r, f, c, p),
            Some(p),
            Some(n),
        )
    }
}

/// The issues of linting one ADR whose file holds `content`: none when the
/// ADR has no path, else those of every single-document rule, with the
/// format-sensitive rules pinned to the detected format.
pub open spec fn lint_adr_spec(a: AdrV, content: Seq<char>) -> Seq<IssueV> {
    match a.path {
        None => seq![],
        Some(p) => rules_issues(file_rules(), detect_format_spec(content), content, p, a.number),
    }
}

fn new_issue(
    id: &str,
    name: &str,
    severity: IssueSeverity,
    message: String,
    path: Option<String>,
    line: Option<usize>,
    column: Option<usize>,
    adr_number: Option<u32>,
) -> (r: Issue)
    ensures
        r@ == (IssueV {
            rule_id: id@,
            rule_name: name@,
            severity,
            message: message@,
            path: opt_str_view(path),
            line,
            column,
            adr_number,
            related_adrs: seq![],
        }),
{
    let r = Issue {
        rule_id: owned(id),
        rule_name: owned(name),
        severity,
        message,
        path,
        line,
        column,
        adr_number,
        related_adrs: Vec::new(),
    };
    proof {
        assert(r.related_adrs@ =~= Seq::<u32>::empty());
    }
    r
}

fn rule_failed_message(e: &String) -> (r: String)
    ensures
        r@ == "Rule failed: "@ + e@,
{
    let mut m: Vec<char> = Vec::new();
    push_str_chars(&mut m, "Rule failed: ");
    push_str_chars(&mut m, e.as_str());
    string_from(m.as_slice())
}

fn push_outcome_issues(
    report: &mut LintReport,
    id: &str,
    name: &str,
    outcome: &Result<Vec<Violation>, String>,
    path: &Option<String>,
    n: Option<u32>,
)
    ensures
        issues_view(final(report).issues@) == issues_view(old(report).issues@) + outcome_issues(
            id@,
            name@,
            outcome_view(*outcome),
            opt_str_view(*path),
            n,
        ),
{
    let ghost pv = opt_str_view(*path);
    match outcome {
        Ok(vs) => {
            let ghost vv = violations_view(vs@);
            let ghost start = issues_view(report.issues@);
            let mut k: usize = 0;
            proof {
                assert(start + vv.take(0).map_values(|v: ViolationV| violation_issue(v, pv, n))
                    =~= start);
            }
            while k < vs.len()
                invariant
                    k <= vs@.len(),
                    vv == violations_view(vs@),
                    pv == opt_str_view(*path),
                    issues_view(report.issues@) == start + vv.take(k as int).map_values(
                        |v: ViolationV| violation_issue(v, pv, n),
                    ),
                decreases vs@.len() - k,
            {
                let v = &vs[k];
                let issue = new_issue(
                    v.rule_id.as_str(),
                    v.rule_name.as_str(),
                    v.severity,
                    clone_string(&v.message),
                    clone_opt_string(path),
                    Some(v.line),
                    Some(v.column),
                    n,
                );
                let ghost before = issues_view(report.issues@);
                report.add(issue);
                proof {
                    assert(vv.take(k + 1) =~= vv.take(k as int).push(vv[k as int]));
                    assert(issues_view(report.issues@) =~= before.push(issue@));
                    assert(start + vv.take(k + 1).map_values(
                        |v: ViolationV| violation_issue(v, pv, n),
                    ) =~= start + vv.take(k as int).map_values(
                        |v: ViolationV| violation_issue(v, pv, n),
                    ).push(violation_issue(vv[k as int], pv, n)));
                }
                k += 1;
            }
            proof {
                assert(vv.take(vs@.len() as int) =~= vv);
            }
        },
        Err(e) => {
            let issue = new_issue(
                id,
                name,
                IssueSeverity::Error,
                rule_failed_message(e),
                clone_opt_string(path),
                None,
                None,
                n,
            );
            let ghost before = issues_view(report.issues@);
            report.add(issue);
            proof {
                assert(issues_view(report.issues@) =~= before + seq![issue@]);
            }
        },
    }
}

fn file_rule_list() -> (r: Vec<FileRule>)
    ensures
        r@ == file_rules(),
{
    let mut v: Vec<FileRule> = Vec::new();
    v.push(FileRule::Adr001);
    v.push(FileRule::Adr002);
    v.push(FileRule::Adr003);
    v.push(FileRule::Adr004);
    v.push(FileRule::Adr005);
    v.push(FileRule::Adr006);
    v.push(FileRule::Adr007);
    v.push(FileRule::Adr008);
    v.push(FileRule::Adr009);
    v.push(FileRule::Adr014);
    v.push(FileRule::Adr015);
    v.push(FileRule::Adr016);
    v.push(FileRule::Adr017);
    proof {
        assert(v@ =~= file_rules());
    }
    v
}

/// Lints a single ADR whose file holds `content`: runs every
/// single-document rule on it (nothing when the ADR has no path).
pub fn lint_adr(adr: &Adr, content: &str) -> (r: LintReport)
    ensures
        issues_view(r.issues@) == lint_adr_spec(adr@, content@),
{
    let mut report = LintReport::new();
    proof {
        assert(issues_view(report.issues@) =~= Seq::<IssueV>::empty());
    }
    match &adr.path {
        None => report,
        Some(p) => {
            let format = detect_adr_format(content);
            let rules = file_rule_list();
            let ghost rv = rules@;
            let mut k: usize = 0;
            proof {
                assert(rv.take(0) =~= Seq::<FileRule>::empty());
            }
            while k < rules.len()
                invariant
                    k <= rules@.len(),
                    rv == rules@,
                    rv == file_rules(),
                    adr.path == Some(*p),
                    format == detect_format_spec(content@),
                    issues_view(report.issues@) == rules_issues(
                        rv.take(k as int),
                        format,
                        content@,
                        p@,
                        adr.number,
                    ),
                decreases rules@.len() - k,
            {
                let rule = rules[k];
                let outcome = rule.run(format, content, p.as_str());
                let path = Some(clone_string(p));
                push_outcome_issues(&mut report, rule.id(), rule.name(), &outcome, &path, Some(adr.number));
                proof {
                    assert(rv.take(k + 1).drop_last() =~= rv.take(k as int));
                    assert(rv.take(k + 1).last() == rule);
                }
                k += 1;
            }
            proof {
                assert(rv.take(rules@.len() as int) =~= rv);
            }
            report
        },
    }
}


// ---------------------------------------------------------------------------
// Repository-level checks
// ---------------------------------------------------------------------------
pub open spec fn adrs_view(v: Seq<Adr>) -> Seq<AdrV> {
    v.map_values(|a: Adr| a@)
}

pub open spec fn strs_view(v: Seq<String>) -> Seq<Seq<char>> {
    v.map_values(|s: String| s@)
}

/// The error for a frontmatter link to a number no ADR has.
pub open spec fn broken_link_issue(a: AdrV, t: u32) -> IssueV {
    IssueV {
        rule_id: "ADR013"@,
        rule_name: "adr-valid-adr-links"@,
        severity: IssueSeverity::Error,
        message: adr_label(a) + " links to non-existent ADR "@ + decimal(t as nat),
        path: a.path,
        line: None,
        column: None,
        adr_number: Some(a.number),
        related_adrs: seq![],
    }
}

/// The start of the message the markdown link rule gives for the same
/// broken link.
pub open spec fn broken_link_fragment(a: AdrV, t: u32) -> Seq<char> {
    path_or_empty(a.path) + ": Link to '"@ + padded_decimal(t as nat, 4)
}

/// Broken frontmatter links of the first `k` links of `a`: the issues and
/// the fragments.
pub open spec fn broken_links_in(adrs: Seq<AdrV>, a: AdrV, k: int) -> (Seq<IssueV>, Seq<Seq<char>>)
    decreases k,
{
    if k <= 0 || k > a.links.len() {
        (seq![], seq![])
    } else {
        let rest = broken_links_in(adrs, a, k - 1);
        let t = a.links[k - 1].target;
        if has_number(adrs, t) {
            rest
        } else {
            (rest.0.push(broken_link_issue(a, t)), rest.1.push(broken_link_fragment(a, t)))
        }
    }
}

/// Broken frontmatter links of the first `i` ADRs.
pub open spec fn broken_links_upto(adrs: Seq<AdrV>, i: int) -> (Seq<IssueV>, Seq<Seq<char>>)
    decreases i,
{
    if i <= 0 || i > adrs.len() {
        (seq![], seq![])
    } else {
        let rest = broken_links_upto(adrs, i - 1);
        let here = broken_links_in(adrs, adrs[i - 1], adrs[i - 1].links.len() as int);
        (rest.0 + here.0, rest.1 + here.1)
    }
}

/// The index of the last ADR numbered `n` among the first `j`, or -1.
pub open spec fn last_with_number(adrs: Seq<AdrV>, n: u32, j: int) -> int
    decreases j,
{
    if j <= 0 || j > adrs.len() {
        -1
    } else if adrs[j - 1].number == n {
        j - 1
    } else {
        last_with_number(adrs, n, j - 1)
    }
}

pub open spec fn links_to(a: AdrV, n: u32) -> bool {
    exists|k: int| 0 <= k < a.links.len() && #[trigger] a.links[k].target == n
}

pub open spec fn asymmetric_issue(a: AdrV, t: u32, kind: Seq<char>) -> IssueV {
    IssueV {
        rule_id: "asymmetric-link"@,
        rule_name: "adr-asymmetric-link"@,
        severity: IssueSeverity::Warning,
        message: adr_label(a) + " links to ADR "@ + decimal(t as nat) + " as '"@ + kind
            + "' but ADR "@ + decimal(t as nat) + " has no link back to ADR "@ + decimal(
            a.number as nat,
        ),
        path: a.path,
        line: None,
        column: None,
        adr_number: Some(a.number),
        related_adrs: seq![],
    }
}

/// Warnings for the first `k` links of `a` whose target (the last ADR with
/// that number) has no link back to `a`.
pub open spec fn asymmetric_in(adrs: Seq<AdrV>, a: AdrV, k: int) -> Seq<IssueV>
    decreases k,
{
    if k <= 0 || k > a.links.len() {
        seq![]
    } else {
        let rest = asymmetric_in(adrs, a, k - 1);
        let l = a.links[k - 1];
        let j = last_with_number(adrs, l.target, adrs.len() as int);
        if j >= 0 && !links_to(adrs[j], a.number) {
            rest.push(asymmetric_issue(a, l.target, link_kind_text(l.kind)))
        } else {
            rest
        }
    }
}

pub open spec fn asymmetric_upto(adrs: Seq<AdrV>, i: int) -> Seq<IssueV>
    decreases i,
{
    if i <= 0 || i > adrs.len() {
        seq![]
    } else {
        asymmetric_upto(adrs, i - 1) + asymmetric_in(adrs, adrs[i - 1], adrs[i - 1].links.len() as int)
    }
}

/// The documents the collection rules see: (content, path) of each ADR
/// that has a path.
pub open spec fn documents_of(adrs: Seq<AdrV>, contents: Seq<Seq<char>>, i: int) -> Seq<(Seq<char>, Seq<char>)>
    decreases i,
{
    if i <= 0 || i > adrs.len() {
        seq![]
    } else {
        let rest = documents_of(adrs, contents, i - 1);
        match adrs[i - 1].path {
            Some(p) => rest.push((contents[i - 1], p)),
            None => rest,
        }
    }
}

/// The collection rules, in the order they run.
#[derive(Debug, Clone, Copy, PartialEq, Eq, Structural)]
pub enum RepoRule {
    Adr010,
    Adr011,
    Adr012,
    Adr013,
}

pub open spec fn collection_rules() -> Seq<RepoRule> {
    seq![RepoRule::Adr010, RepoRule::Adr011, RepoRule::Adr012, RepoRule::Adr013]
}

pub open spec fn collection_rule_id(r: RepoRule) -> Seq<char> {
    match r {
        RepoRule::Adr010 => "ADR010"@,
        RepoRule::Adr011 => "ADR011"@,
        RepoRule::Adr012 => "ADR012"@,
        RepoRule::Adr013 => "ADR013"@,
    }
}

pub open spec fn collection_rule_name(r: RepoRule) -> Seq<char> {
    match r {
        RepoRule::Adr010 => "adr-superseded-has-replacement"@,
        RepoRule::Adr011 => "adr-sequential-numbering"@,
        RepoRule::Adr012 => "adr-no-duplicate-numbers"@,
        RepoRule::Adr013 => "adr-valid-adr-links"@,
    }
}

pub open spec fn collection_rule_outcome(r: RepoRule, docs: Seq<(Seq<char>, Seq<char>)>) -> Result<
    Seq<ViolationV>,
    Seq<char>,
> {
    match r {
        RepoRule::Adr010 => adr010_outcome(docs),
        RepoRule::Adr011 => adr011_outcome(docs),
        RepoRule::Adr012 => match adr012_outcome(docs) {
            Ok(m) => Ok(sorted_viols(m)),
            Err(e) => Err(e),
        },
        RepoRule::Adr013 => adr013_outcome(docs),
    }
}

impl RepoRule {
    /// The rule's id (`ADR010`, ...).
    pub fn id(&self) -> (r: &'static str)
        ensures
            r@ == collection_rule_id(*self),
    {
        match self {
            RepoRule::Adr010 => "ADR010",
            RepoRule::Adr011 => "ADR011",
            RepoRule::Adr012 => "ADR012",
            RepoRule::Adr013 => "ADR013",
        }
    }

    /// The rule's name.
    pub fn name(&self) -> (r: &'static str)
        ensures
            r@ == collection_rule_name(*self),
    {
        match self {
            RepoRule::Adr010 => "adr-superseded-has-replacement",
            RepoRule::Adr011 => "adr-sequential-numbering",
            RepoRule::Adr012 => "adr-no-duplicate-numbers",
            RepoRule::Adr013 => "adr-valid-adr-links",
        }
    }

    /// Runs the rule on the documents.
    pub fn run(&self, docs: &Vec<(String, String)>) -> (r: Result<Vec<Violation>, String>)
        ensures
            outcome_view(r) == collection_rule_outcome(
                *self,
                docs@.map_values(|d: (String, String)| (d.0@, d.1@)),
            ),
    {
        match self {
            RepoRule::Adr010 => check_adr010(docs),
            RepoRule::Adr011 => check_adr011(docs),
            RepoRule::Adr012 => match check_adr012(docs) {
                Ok(v) => {
                    let sorted = sort_violations(v);
                    proof {
                        lemma_sorted_viols_of(violations_view(sorted@));
                    }
                    Ok(sorted)
                },
                Err(e) => Err(e),
            },
            RepoRule::Adr013 => check_adr013(docs),
        }
    }
}

pub open spec fn positive(n: usize) -> Option<usize> {
    if n > 0 {
        Some(n)
    } else {
        None
    }
}

pub open spec fn collection_issue(id: Seq<char>, name: Seq<char>, v: ViolationV) -> IssueV {
    IssueV {
        rule_id: id,
        rule_name: name,
        severity: v.severity,
        message: v.message,
        path: None,
        line: positive(v.line),
        column: positive(v.column),
        adr_number: None,
        related_adrs: seq![],
    }
}

/// An ADR013 violation that a frontmatter broken-link error already covers.
pub open spec fn covered(v: ViolationV, frags: Seq<Seq<char>>) -> bool {
    v.rule_id == "ADR013"@ && exists|f: int| 0 <= f < frags.len() && contains_seq(v.message, #[trigger] frags[f])
}

pub open spec fn collection_violation_issues(
    id: Seq<char>,
    name: Seq<char>,
    vs: Seq<ViolationV>,
    frags: Seq<Seq<char>>,
) -> Seq<IssueV>
    decreases vs.len(),
{
    if vs.len() == 0 {
        seq![]
    } else {
        let rest = collection_violation_issues(id, name, vs.drop_last(), frags);
        if covered(vs.last(), frags) {
            rest
        } else {
            rest.push(collection_issue(id, name, vs.last()))
        }
    }
}

pub open spec fn collection_outcome_issues(r: RepoRule, docs: Seq<(Seq<char>, Seq<char>)>, frags: Seq<Seq<char>>) -> Seq<IssueV> {
    match collection_rule_outcome(r, docs) {
        Ok(vs) => collection_violation_issues(collection_rule_id(r), collection_rule_name(r), vs, frags),
        Err(e) => seq![failed_rule_issue(collection_rule_id(r), collection_rule_name(r), e, None, None)],
    }
}

pub open spec fn collection_issues(rules: Seq<RepoRule>, docs: Seq<(Seq<char>, Seq<char>)>, frags: Seq<Seq<char>>) -> Seq<IssueV>
    decreases rules.len(),
{
    if rules.len() == 0 {
        seq![]
    } else {
        collection_issues(rules.drop_last(), docs, frags) + collection_outcome_issues(rules.last(), docs, frags)
    }
}

/// The repository-level issues before sorting: broken frontmatter links
/// (next-gen mode only), asymmetric links, then the collection rules.
pub open spec fn repository_issues(adrs: Seq<AdrV>, contents: Seq<Seq<char>>, next_gen: bool) -> Seq<IssueV> {
    let n = adrs.len() as int;
    let broken = if next_gen {
        broken_links_upto(adrs, n)
    } else {
        (seq![], seq![])
    };
    broken.0 + asymmetric_upto(adrs, n) + collection_issues(
        collection_rules(),
        documents_of(adrs, contents, n),
        broken.1,
    )
}

fn broken_links_into(adrs: &[Adr], report: &mut LintReport, frags: &mut Vec<String>)
    ensures
        issues_view(final(report).issues@) == issues_view(old(report).issues@) + broken_links_upto(
            adrs_view(adrs@),
            adrs@.len() as int,
        ).0,
        strs_view(final(frags)@) == strs_view(old(frags)@) + broken_links_upto(
            adrs_view(adrs@),
            adrs@.len() as int,
        ).1,
{
    let ghost av = adrs_view(adrs@);
    let ghost start = issues_view(report.issues@);
    let ghost fstart = strs_view(frags@);
    let mut i: usize = 0;
    while i < adrs.len()
        invariant
            i <= adrs@.len(),
            av == adrs_view(adrs@),
            issues_view(report.issues@) == start + broken_links_upto(av, i as int).0,
            strs_view(frags@) == fstart + broken_links_upto(av, i as int).1,
        decreases adrs@.len() - i,
    {
        let adr = &adrs[i];
        let ghost a = av[i as int];
        let ghost mid = issues_view(report.issues@);
        let ghost fmid = strs_view(frags@);
        let mut k: usize = 0;
        while k < adr.links.len()
            invariant
                i < adrs@.len(),
                av == adrs_view(adrs@),
                adr == &adrs@[i as int],
                a == av[i as int],
                a == adr@,
                k <= adr.links@.len(),
                issues_view(report.issues@) == mid + broken_links_in(av, a, k as int).0,
                strs_view(frags@) == fmid + broken_links_in(av, a, k as int).1,
            decreases adr.links@.len() - k,
        {
            let t = adr.links[k].target;
            proof {
                assert(a.links[k as int].target == t);
            }
            if !number_exists(adrs, t) {
                let ghost before = issues_view(report.issues@);
                let ghost fbefore = strs_view(frags@);
                let mut msg = adr_label_chars(adr);
                push_str_chars(&mut msg, " links to non-existent ADR ");
                let d = decimal_chars(t);
                push_all(&mut msg, d.as_slice());
                let issue = new_issue(
                    "ADR013",
                    "adr-valid-adr-links",
                    IssueSeverity::Error,
                    string_from(msg.as_slice()),
                    clone_opt_string(&adr.path),
                    None,
                    None,
                    Some(adr.number),
                );
                report.add(issue);
                let mut frag: Vec<char> = Vec::new();
                let pt = path_text(&adr.path);
                push_str_chars(&mut frag, pt.as_str());
                push_str_chars(&mut frag, ": Link to '");
                let pd = padded_decimal_chars(t, 4);
                push_all(&mut frag, pd.as_slice());
                let fs = string_from(frag.as_slice());
                frags.push(fs);
                proof {
                    assert(issue@ == broken_link_issue(a, t));
                    assert(issues_view(report.issues@) =~= before.push(issue@));
                    assert(strs_view(frags@) =~= fbefore.push(fs@));
                }
            }
            k += 1;
        }
        proof {
            assert(start + broken_links_upto(av, i + 1).0 =~= start + broken_links_upto(
                av,
                i as int,
            ).0 + broken_links_in(av, a, a.links.len() as int).0);
            assert(fstart + broken_links_upto(av, i + 1).1 =~= fstart + broken_links_upto(
                av,
                i as int,
            ).1 + broken_links_in(av, a, a.links.len() as int).1);
        }
        i += 1;
    }
}

fn last_index_with_number(adrs: &[Adr], n: u32) -> (r: Option<usize>)
    ensures
        match r {
            Some(j) => j as int == last_with_number(adrs_view(adrs@), n, adrs@.len() as int),
            None => last_with_number(adrs_view(adrs@), n, adrs@.len() as int) == -1,
        },
        r matches Some(j) ==> j < adrs@.len(),
{
    let ghost av = adrs_view(adrs@);
    let mut j: usize = adrs.len();
    while j > 0
        invariant
            j <= adrs@.len(),
            av == adrs_view(adrs@),
            last_with_number(av, n, adrs@.len() as int) == last_with_number(av, n, j as int),
        decreases j,
    {
        if adrs[j - 1].number == n {
            return Some(j - 1);
        }
        j -= 1;
    }
    None
}

fn has_link_to(a: &Adr, n: u32) -> (r: bool)
    ensures
        r == links_to(a@, n),
{
    let ghost lv = a@.links;
    let mut k: usize = 0;
    while k < a.links.len()
        invariant
            k <= a.links@.len(),
            lv == a@.links,
            forall|j: int| 0 <= j < k ==> #[trigger] lv[j].target != n,
        decreases a.links@.len() - k,
    {
        if a.links[k].target == n {
            proof {
                assert(lv[k as int].target == n);
            }
            return true;
        }
        k += 1;
    }
    false
}

fn asymmetric_into(adrs: &[Adr], report: &mut LintReport)
    ensures
        issues_view(final(report).issues@) == issues_view(old(report).issues@) + asymmetric_upto(
            adrs_view(adrs@),
            adrs@.len() as int,
        ),
{
    let ghost av = adrs_view(adrs@);
    let ghost start = issues_view(report.issues@);
    let mut i: usize = 0;
    while i < adrs.len()
        invariant
            i <= adrs@.len(),
            av == adrs_view(adrs@),
            issues_view(report.issues@) == start + asymmetric_upto(av, i as int),
        decreases adrs@.len() - i,
    {
        let adr = &adrs[i];
        let ghost a = av[i as int];
        let ghost mid = issues_view(report.issues@);
        let mut k: usize = 0;
        while k < adr.links.len()
            invariant
                i < adrs@.len(),
                av == adrs_view(adrs@),
                adr == &adrs@[i as int],
                a == av[i as int],
                a == adr@,
                k <= adr.links@.len(),
                issues_view(report.issues@) == mid + asymmetric_in(av, a, k as int),
            decreases adr.links@.len() - k,
        {
            let link = &adr.links[k];
            let t = link.target;
            proof {
                assert(a.links[k as int] == link@);
            }
            match last_index_with_number(adrs, t) {
                Some(j) => {
                    proof {
                        assert(av[j as int] == adrs@[j as int]@);
                    }
                    if !has_link_to(&adrs[j], adr.number) {
                        let ghost before = issues_view(report.issues@);
                        let mut msg = adr_label_chars(adr);
                        push_str_chars(&mut msg, " links to ADR ");
                        let d = decimal_chars(t);
                        push_all(&mut msg, d.as_slice());
                        push_str_chars(&mut msg, " as '");
                        let kt = link.kind.to_string();
                        push_str_chars(&mut msg, kt.as_str());
                        push_str_chars(&mut msg, "' but ADR ");
                        push_all(&mut msg, d.as_slice());
                        push_str_chars(&mut msg, " has no link back to ADR ");
                        let d2 = decimal_chars(adr.number);
                        push_all(&mut msg, d2.as_slice());
                        let issue = new_issue(
                            "asymmetric-link",
                            "adr-asymmetric-link",
                            IssueSeverity::Warning,
                            string_from(msg.as_slice()),
                            clone_opt_string(&adr.path),
                            None,
                            None,
                            Some(adr.number),
                        );
                        report.add(issue);
                        proof {
                            assert(issue@ == asymmetric_issue(a, t, link_kind_text(link@.kind)));
                            assert(issues_view(report.issues@) =~= before.push(issue@));
                        }
                    }
                },
                None => {},
            }
            k += 1;
        }
        proof {
            assert(start + asymmetric_upto(av, i + 1) =~= start + asymmetric_upto(av, i as int)
                + asymmetric_in(av, a, a.links.len() as int));
        }
        i += 1;
    }
}

fn documents(adrs: &[Adr], contents: &[String]) -> (r: Vec<(String, String)>)
    requires
        contents@.len() == adrs@.len(),
    ensures
        r@.map_values(|d: (String, String)| (d.0@, d.1@)) == documents_of(
            adrs_view(adrs@),
            strs_view(contents@),
            adrs@.len() as int,
        ),
{
    let ghost av = adrs_view(adrs@);
    let ghost cv = strs_view(contents@);
    let mut out: Vec<(String, String)> = Vec::new();
    let mut i: usize = 0;
    proof {
        assert(out@.map_values(|d: (String, String)| (d.0@, d.1@)) =~= Seq::<(Seq<char>, Seq<char>)>::empty());
    }
    while i < adrs.len()
        invariant
            i <= adrs@.len(),
            contents@.len() == adrs@.len(),
            av == adrs_view(adrs@),
            cv == strs_view(contents@),
            out@.map_values(|d: (String, String)| (d.0@, d.1@)) == documents_of(av, cv, i as int),
        decreases adrs@.len() - i,
    {
        let ghost before = out@;
        match &adrs[i].path {
            Some(p) => {
                out.push((clone_string(&contents[i]), clone_string(p)));
                proof {
                    assert(out@.map_values(|d: (String, String)| (d.0@, d.1@)) =~= before.map_values(
                        |d: (String, String)| (d.0@, d.1@),
                    ).push((cv[i as int], p@)));
                }
            },
            None => {},
        }
        i += 1;
    }
    out
}

fn is_covered(v: &Violation, frags: &Vec<String>) -> (r: bool)
    ensures
        r == covered(v@, strs_view(frags@)),
{
    let ghost fv = strs_view(frags@);
    let id = chars_of(v.rule_id.as_str());
    let adr013 = chars_of("ADR013");
    if !crate::text::eq_vec(id.as_slice(), adr013.as_slice()) {
        return false;
    }
    let msg = chars_of(v.message.as_str());
    let mut f: usize = 0;
    while f < frags.len()
        invariant
            f <= frags@.len(),
            fv == strs_view(frags@),
            msg@ == v.message@,
            v.rule_id@ == "ADR013"@,
            forall|g: int| 0 <= g < f ==> !contains_seq(v.message@, #[trigger] fv[g]),
        decreases frags@.len() - f,
    {
        let fc = chars_of(frags[f].as_str());
        if contains(msg.as_slice(), fc.as_slice()) {
            proof {
                assert(contains_seq(v.message@, fv[f as int]));
            }
            return true;
        }
        f += 1;
    }
    false
}

fn collection_rule_list() -> (r: Vec<RepoRule>)
    ensures
        r@ == collection_rules(),
{
    let mut v: Vec<RepoRule> = Vec::new();
    v.push(RepoRule::Adr010);
    v.push(RepoRule::Adr011);
    v.push(RepoRule::Adr012);
    v.push(RepoRule::Adr013);
    proof {
        assert(v@ =~= collection_rules());
    }
    v
}

fn positive_of(n: usize) -> (r: Option<usize>)
    ensures
        r == positive(n),
{
    if n > 0 {
        Some(n)
    } else {
        None
    }
}

fn collection_into(docs: &Vec<(String, String)>, frags: &Vec<String>, report: &mut LintReport)
    ensures
        issues_view(final(report).issues@) == issues_view(old(report).issues@) + collection_issues(
            collection_rules(),
            docs@.map_values(|d: (String, String)| (d.0@, d.1@)),
            strs_view(frags@),
        ),
{
    let ghost dv = docs@.map_values(|d: (String, String)| (d.0@, d.1@));
    let ghost fv = strs_view(frags@);
    let ghost start = issues_view(report.issues@);
    let rules = collection_rule_list();
    let ghost rv = rules@;
    let mut k: usize = 0;
    proof {
        assert(rv.take(0) =~= Seq::<RepoRule>::empty());
    }
    while k < rules.len()
        invariant
            k <= rules@.len(),
            rv == rules@,
            rv == collection_rules(),
            dv == docs@.map_values(|d: (String, String)| (d.0@, d.1@)),
            fv == strs_view(frags@),
            issues_view(report.issues@) == start + collection_issues(rv.take(k as int), dv, fv),
        decreases rules@.len() - k,
    {
        let rule = rules[k];
        let ghost mid = issues_view(report.issues@);
        let outcome = rule.run(docs);
        match &outcome {
            Ok(vs) => {
                let ghost vv = violations_view(vs@);
                let ghost id = collection_rule_id(rule);
                let ghost name = collection_rule_name(rule);
                let mut j: usize = 0;
                proof {
                    assert(vv.take(0) =~= Seq::<ViolationV>::empty());
                    assert(mid + Seq::<IssueV>::empty() =~= mid);
                }
                while j < vs.len()
                    invariant
                        j <= vs@.len(),
                        vv == violations_view(vs@),
                        fv == strs_view(frags@),
                        id == collection_rule_id(rule),
                        name == collection_rule_name(rule),
                        issues_view(report.issues@) == mid + collection_violation_issues(
                            id,
                            name,
                            vv.take(j as int),
                            fv,
                        ),
                    decreases vs@.len() - j,
                {
                    proof {
                        assert(vv.take(j + 1).drop_last() =~= vv.take(j as int));
                        assert(vv.take(j + 1).last() == vs@[j as int]@);
                    }
                    let v = &vs[j];
                    if !is_covered(v, frags) {
                        let ghost before = issues_view(report.issues@);
                        let issue = new_issue(
                            rule.id(),
                            rule.name(),
                            v.severity,
                            clone_string(&v.message),
                            None,
                            positive_of(v.line),
                            positive_of(v.column),
                            None,
                        );
                        report.add(issue);
                        proof {
                            assert(issues_view(report.issues@) =~= before.push(issue@));
                        }
                    }
                    j += 1;
                }
                proof {
                    assert(vv.take(vs@.len() as int) =~= vv);
                }
            },
            Err(e) => {
                let ghost before = issues_view(report.issues@);
                let issue = new_issue(
                    rule.id(),
                    rule.name(),
                    IssueSeverity::Error,
                    rule_failed_message(e),
                    None,
                    None,
                    None,
                    None,
                );
                report.add(issue);
                proof {
                    assert(issues_view(report.issues@) =~= before + seq![issue@]);
                }
            },
        }
        proof {
            assert(rv.take(k + 1).drop_last() =~= rv.take(k as int));
            assert(rv.take(k + 1).last() == rule);
            assert(start + collection_issues(rv.take(k + 1), dv, fv) =~= start + collection_issues(
                rv.take(k as int),
                dv,
                fv,
            ) + collection_outcome_issues(rule, dv, fv));
        }
        k += 1;
    }
    proof {
        assert(rv.take(rules@.len() as int) =~= rv);
    }
}

/// Runs the repository-level checks on the listed ADRs, whose files hold
/// `contents`: broken frontmatter links (next-gen mode), asymmetric links,
/// and the collection rules (superseded ADRs have a replacement, sequential
/// numbering, duplicate numbers, valid links). The issues come sorted.
pub fn check_adrs(adrs: &[Adr], contents: &[String], next_gen: bool) -> (r: LintReport)
    requires
        contents@.len() == adrs@.len(),
    ensures
        issues_view(r.issues@) == sorted_issues(
            repository_issues(adrs_view(adrs@), strs_view(contents@), next_gen),
        ),
{
    let mut report = LintReport::new();
    let mut frags: Vec<String> = Vec::new();
    proof {
        assert(issues_view(report.issues@) =~= Seq::<IssueV>::empty());
        assert(strs_view(frags@) =~= Seq::<Seq<char>>::empty());
    }
    if next_gen {
        broken_links_into(adrs, &mut report, &mut frags);
    }
    let ghost broken_issues = issues_view(report.issues@);
    asymmetric_into(adrs, &mut report);
    let docs = documents(adrs, contents);
    collection_into(&docs, &frags, &mut report);
    proof {
        let av = adrs_view(adrs@);
        let n = av.len() as int;
        if !next_gen {
            assert(broken_issues =~= Seq::<IssueV>::empty());
        }
        assert(issues_view(report.issues@) =~= repository_issues(av, strs_view(contents@), next_gen));
    }
    report.sort();
    report
}

/// The per-file issues of the listed ADRs, before sorting.
pub open spec fn all_file_issues(adrs: Seq<AdrV>, contents: Seq<Seq<char>>, i: int) -> Seq<IssueV>
    decreases i,
{
    if i <= 0 || i > adrs.len() {
        seq![]
    } else {
        all_file_issues(adrs, contents, i - 1) + lint_adr_spec(adrs[i - 1], contents[i - 1])
    }
}

fn append_issues(report: &mut LintReport, other: LintReport)
    ensures
        issues_view(final(report).issues@) == issues_view(old(report).issues@) + issues_view(other.issues@),
{
    let mut other = other;
    let ghost ov = issues_view(other.issues@);
    let ghost start = issues_view(report.issues@);
    report.issues.append(&mut other.issues);
    proof {
        assert(issues_view(report.issues@) =~= start + ov);
    }
}

/// Lints every listed ADR, whose files hold `contents` (per-file checks
/// only). The issues come sorted.
pub fn lint_adrs(adrs: &[Adr], contents: &[String]) -> (r: LintReport)
    requires
        contents@.len() == adrs@.len(),
    ensures
        issues_view(r.issues@) == sorted_issues(
            all_file_issues(adrs_view(adrs@), strs_view(contents@), adrs@.len() as int),
        ),
{
    let ghost av = adrs_view(adrs@);
    let ghost cv = strs_view(contents@);
    let mut report = LintReport::new();
    proof {
        assert(issues_view(report.issues@) =~= Seq::<IssueV>::empty());
    }
    let mut i: usize = 0;
    while i < adrs.len()
        invariant
            i <= adrs@.len(),
            contents@.len() == adrs@.len(),
            av == adrs_view(adrs@),
            cv == strs_view(contents@),
            issues_view(report.issues@) == all_file_issues(av, cv, i as int),
        decreases adrs@.len() - i,
    {
        let r = lint_adr(&adrs[i], contents[i].as_str());
        append_issues(&mut report, r);
        i += 1;
    }
    report.sort();
    report
}


// ---------------------------------------------------------------------------
// Ignoring rules
// ---------------------------------------------------------------------------
/// The view of a path-scoped ignore entry.
pub struct IgnorePathV {
    pub glob: Seq<char>,
    pub rules: Seq<Seq<char>>,
}

/// A `[[doctor.ignore_path]]` entry: the rules to ignore for issues whose
/// path, relative to the repository root, matches the glob.
#[derive(Debug)]
pub struct IgnorePath {
    /// The glob matched against repository-relative paths.
    pub glob: String,
    /// Rule ids or names to ignore (case-insensitive).
    pub rules: Vec<String>,
}

impl View for IgnorePath {
    type V = IgnorePathV;

    open spec fn view(&self) -> IgnorePathV {
        IgnorePathV { glob: self.glob@, rules: strs_view(self.rules@) }
    }
}

/// The `[doctor]` settings: rules ignored everywhere and path-scoped ignores.
#[derive(Debug)]
pub struct DoctorConfig {
    /// Rule ids or names ignored repository-wide (case-insensitive).
    pub ignore: Vec<String>,
    /// Path-scoped ignores.
    pub ignore_path: Vec<IgnorePath>,
}

impl Default for DoctorConfig {
    fn default() -> (r: Self)
        ensures
            r.ignore@.len() == 0,
            r.ignore_path@.len() == 0,
    {
        DoctorConfig { ignore: Vec::new(), ignore_path: Vec::new() }
    }
}

pub open spec fn entries_view(v: Seq<IgnorePath>) -> Seq<IgnorePathV> {
    v.map_values(|e: IgnorePath| e@)
}

pub open spec fn lowers(v: Seq<Seq<char>>) -> Seq<Seq<char>> {
    v.map_values(|s: Seq<char>| lowercase(s))
}

/// The path relative to the root (`Path::strip_prefix` on `/`-separated
/// text), or the path itself when it is not under the root.
pub open spec fn relative_path(path: Seq<char>, root: Seq<char>) -> Seq<char> {
    if starts_with_spec(path, root) {
        let rest = path.subrange(root.len() as int, path.len() as int);
        if rest.len() == 0 {
            rest
        } else if rest[0] == '/' {
            strip_all_prefix(rest, "/"@)
        } else if root.len() > 0 && root.last() == '/' {
            rest
        } else {
            path
        }
    } else {
        path
    }
}

/// The text with each backslash turned into a slash.
pub open spec fn forward_slashes(s: Seq<char>) -> Seq<char> {
    s.map_values(|c: char| if c == '\\' { '/' } else { c })
}

pub open spec fn entry_suppresses(e: IgnorePathV, rel: Seq<char>, id: Seq<char>, name: Seq<char>) -> bool {
    &&& glob_error(e.glob) is None
    &&& glob_match(e.glob, rel)
    &&& (lowers(e.rules).contains(id) || lowers(e.rules).contains(name))
}

/// Whether an issue is ignored: its rule id or name (lowercased) is in the
/// repository-wide set, or it has a path that a valid path-scoped entry
/// matches and that entry names its rule.
pub open spec fn ignored(i: IssueV, root: Seq<char>, set: Seq<Seq<char>>, entries: Seq<IgnorePathV>) -> bool {
    let id = lowercase(i.rule_id);
    let name = lowercase(i.rule_name);
    ||| set.contains(id)
    ||| set.contains(name)
    ||| (i.path matches Some(p) && exists|e: int|
        0 <= e < entries.len() && entry_suppresses(
            #[trigger] entries[e],
            forward_slashes(relative_path(p, root)),
            id,
            name,
        ))
}

pub open spec fn kept_issues(is: Seq<IssueV>, root: Seq<char>, set: Seq<Seq<char>>, entries: Seq<IgnorePathV>) -> Seq<IssueV>
    decreases is.len(),
{
    if is.len() == 0 {
        seq![]
    } else {
        let rest = kept_issues(is.drop_last(), root, set, entries);
        if ignored(is.last(), root, set, entries) {
            rest
        } else {
            rest.push(is.last())
        }
    }
}

/// The rules that only ever produce issues without a path.
pub open spec fn pathless_rules() -> Seq<Seq<char>> {
    seq![
        "ADR010"@,
        "adr-superseded-has-replacement"@,
        "ADR011"@,
        "adr-sequential-numbering"@,
        "ADR012"@,
        "adr-no-duplicate-numbers"@,
    ]
}

pub open spec fn is_pathless(rule: Seq<char>) -> bool {
    exists|k: int| 0 <= k < pathless_rules().len() && eq_ignore_ascii_case_spec(#[trigger] pathless_rules()[k], rule)
}

pub open spec fn invalid_glob_warning(glob: Seq<char>, err: Seq<char>) -> Seq<char> {
    "[[doctor.ignore_path]] glob '"@ + glob + "' is invalid and will not be applied: "@ + err
}

pub open spec fn pathless_warning(glob: Seq<char>, rule: Seq<char>) -> Seq<char> {
    "[[doctor.ignore_path]] entry for glob '"@ + glob + "' names rule '"@ + rule
        + "', which only ever produces diagnostics without a path; this exemption can never suppress it"@
}

pub open spec fn pathless_warnings(e: IgnorePathV, k: int) -> Seq<Seq<char>>
    decreases k,
{
    if k <= 0 || k > e.rules.len() {
        seq![]
    } else {
        let rest = pathless_warnings(e, k - 1);
        if is_pathless(e.rules[k - 1]) {
            rest.push(pathless_warning(e.glob, e.rules[k - 1]))
        } else {
            rest
        }
    }
}

pub open spec fn entry_warnings(e: IgnorePathV) -> Seq<Seq<char>> {
    (match glob_error(e.glob) {
        Some(err) => seq![invalid_glob_warning(e.glob, err)],
        None => seq![],
    }) + pathless_warnings(e, e.rules.len() as int)
}

/// The configuration warnings of the first `i` entries.
pub open spec fn config_warnings(entries: Seq<IgnorePathV>, i: int) -> Seq<Seq<char>>
    decreases i,
{
    if i <= 0 || i > entries.len() {
        seq![]
    } else {
        config_warnings(entries, i - 1) + entry_warnings(entries[i - 1])
    }
}

fn lowered(v: &Vec<String>, out: &mut Vec<String>)
    ensures
        strs_view(final(out)@) == strs_view(old(out)@) + lowers(strs_view(v@)),
{
    let ghost start = strs_view(out@);
    let mut i: usize = 0;
    while i < v.len()
        invariant
            i <= v@.len(),
            strs_view(out@) == start + lowers(strs_view(v@)).take(i as int),
        decreases v@.len() - i,
    {
        let ghost before = strs_view(out@);
        let l = to_lowercase(v[i].as_str());
        out.push(l);
        proof {
            assert(lowers(strs_view(v@)).take(i + 1) =~= lowers(strs_view(v@)).take(i as int).push(
                lowercase(v@[i as int]@),
            ));
            assert(strs_view(out@) =~= before.push(l@));
        }
        i += 1;
    }
    proof {
        assert(lowers(strs_view(v@)).take(v@.len() as int) =~= lowers(strs_view(v@)));
    }
}

fn list_contains(v: &Vec<String>, s: &String) -> (r: bool)
    ensures
        r == strs_view(v@).contains(s@),
{
    let ghost sv = strs_view(v@);
    let sc = chars_of(s.as_str());
    let mut i: usize = 0;
    while i < v.len()
        invariant
            i <= v@.len(),
            sv == strs_view(v@),
            sc@ == s@,
            forall|k: int| 0 <= k < i ==> #[trigger] sv[k] != s@,
        decreases v@.len() - i,
    {
        let vc = chars_of(v[i].as_str());
        if crate::text::eq_vec(vc.as_slice(), sc.as_slice()) {
            proof {
                assert(sv[i as int] == s@);
            }
            return true;
        }
        i += 1;
    }
    false
}

fn relative_to(path: &str, root: &str) -> (r: Vec<char>)
    ensures
        r@ == relative_path(path@, root@),
{
    let p = chars_of(path);
    let rt = chars_of(root);
    if crate::text::starts_with(p.as_slice(), rt.as_slice()) {
        let rest = crate::text::slice_vec(p.as_slice(), rt.len(), p.len());
        if rest.len() == 0 {
            rest
        } else if rest[0] == '/' {
            trim_start_matches(rest.as_slice(), "/")
        } else if rt.len() > 0 && rt[rt.len() - 1] == '/' {
            rest
        } else {
            p
        }
    } else {
        p
    }
}

fn to_forward_slashes(s: &[char]) -> (r: String)
    ensures
        r@ == forward_slashes(s@),
{
    let mut out: Vec<char> = Vec::new();
    let mut i: usize = 0;
    while i < s.len()
        invariant
            i <= s@.len(),
            out@ == forward_slashes(s@.take(i as int)),
        decreases s@.len() - i,
    {
        if s[i] == '\\' {
            out.push('/');
        } else {
            out.push(s[i]);
        }
        i += 1;
        proof {
            assert(out@ =~= forward_slashes(s@.take(i as int)));
        }
    }
    proof {
        assert(s@.take(s@.len() as int) =~= s@);
    }
    string_from(out.as_slice())
}

fn pathless(rule: &String) -> (r: bool)
    ensures
        r == is_pathless(rule@),
{
    let rc = chars_of(rule.as_str());
    let b0 = eq_ignore_ascii_case(rc.as_slice(), "ADR010");
    let b1 = eq_ignore_ascii_case(rc.as_slice(), "adr-superseded-has-replacement");
    let b2 = eq_ignore_ascii_case(rc.as_slice(), "ADR011");
    let b3 = eq_ignore_ascii_case(rc.as_slice(), "adr-sequential-numbering");
    let b4 = eq_ignore_ascii_case(rc.as_slice(), "ADR012");
    let b5 = eq_ignore_ascii_case(rc.as_slice(), "adr-no-duplicate-numbers");
    proof {
        let pr = pathless_rules();
        assert(pr[0] == "ADR010"@);
        assert(pr[1] == "adr-superseded-has-replacement"@);
        assert(pr[2] == "ADR011"@);
        assert(pr[3] == "adr-sequential-numbering"@);
        assert(pr[4] == "ADR012"@);
        assert(pr[5] == "adr-no-duplicate-numbers"@);
        // eq_ignore_ascii_case_spec is symmetric
        if is_pathless(rule@) {
            let k = choose|k: int| 0 <= k < pr.len() && eq_ignore_ascii_case_spec(#[trigger] pr[k], rule@);
            assert(0 <= k < 6);
        }
    }
    b0 || b1 || b2 || b3 || b4 || b5
}

/// A compiled path-scoped entry.
struct CompiledIgnorePath {
    matcher: GlobPattern,
    rules: Vec<String>,
}

/// Whether `c` is the compiled form of entry `e`: present exactly when the
/// glob is valid, with the same glob and the lowercased rules.
spec fn compiled_from(c: Option<CompiledIgnorePath>, e: IgnorePathV) -> bool {
    match c {
        Some(m) => glob_error(e.glob) is None && m.matcher.source() == e.glob && strs_view(m.rules@)
            == lowers(e.rules),
        None => glob_error(e.glob) is Some,
    }
}

fn compile_entries(entries: &Vec<IgnorePath>) -> (r: (Vec<Option<CompiledIgnorePath>>, Vec<String>))
    ensures
        r.0@.len() == entries@.len(),
        forall|e: int| 0 <= e < entries@.len() ==> compiled_from(#[trigger] r.0@[e], entries@[e]@),
        strs_view(r.1@) == config_warnings(entries_view(entries@), entries@.len() as int),
{
    let ghost ev = entries_view(entries@);
    let mut warnings: Vec<String> = Vec::new();
    let mut compiled: Vec<Option<CompiledIgnorePath>> = Vec::new();
    let mut i: usize = 0;
    proof {
        assert(strs_view(warnings@) =~= config_warnings(ev, 0));
    }
    while i < entries.len()
        invariant
            i <= entries@.len(),
            ev == entries_view(entries@),
            compiled@.len() == i,
            forall|e: int| 0 <= e < i ==> compiled_from(#[trigger] compiled@[e], entries@[e]@),
            strs_view(warnings@) == config_warnings(ev, i as int),
        decreases entries@.len() - i,
    {
        let entry = &entries[i];
        let ghost before = strs_view(warnings@);
        let ghost e = ev[i as int];
        match compile_glob(entry.glob.as_str()) {
            Ok(m) => {
                let mut rules: Vec<String> = Vec::new();
                proof {
                    assert(strs_view(rules@) =~= Seq::<Seq<char>>::empty());
                }
                lowered(&entry.rules, &mut rules);
                proof {
                    assert(Seq::<Seq<char>>::empty() + lowers(e.rules) =~= lowers(e.rules));
                    assert(before + Seq::<Seq<char>>::empty() =~= before);
                }
                compiled.push(Some(CompiledIgnorePath { matcher: m, rules }));
            },
            Err(err) => {
                let mut w: Vec<char> = Vec::new();
                push_str_chars(&mut w, "[[doctor.ignore_path]] glob '");
                push_str_chars(&mut w, entry.glob.as_str());
                push_str_chars(&mut w, "' is invalid and will not be applied: ");
                push_str_chars(&mut w, err.as_str());
                let ws = string_from(w.as_slice());
                warnings.push(ws);
                compiled.push(None);
                proof {
                    assert(strs_view(warnings@) =~= before + seq![invalid_glob_warning(e.glob, err@)]);
                }
            },
        }
        let ghost mid = strs_view(warnings@);
        let mut k: usize = 0;
        proof {
            assert(mid + pathless_warnings(e, 0) =~= mid);
        }
        while k < entry.rules.len()
            invariant
                k <= entry.rules@.len(),
                e == entry@,
                strs_view(warnings@) == mid + pathless_warnings(e, k as int),
            decreases entry.rules@.len() - k,
        {
            if pathless(&entry.rules[k]) {
                let ghost wb = strs_view(warnings@);
                let mut w: Vec<char> = Vec::new();
                push_str_chars(&mut w, "[[doctor.ignore_path]] entry for glob '");
                push_str_chars(&mut w, entry.glob.as_str());
                push_str_chars(&mut w, "' names rule '");
                push_str_chars(&mut w, entry.rules[k].as_str());
                push_str_chars(
                    &mut w,
                    "', which only ever produces diagnostics without a path; this exemption can never suppress it",
                );
                let ws = string_from(w.as_slice());
                warnings.push(ws);
                proof {
                    assert(strs_view(warnings@) =~= wb.push(ws@));
                }
            }
            k += 1;
        }
        proof {
            assert(config_warnings(ev, i + 1) =~= config_warnings(ev, i as int) + entry_warnings(e));
        }
        i += 1;
    }
    (compiled, warnings)
}

fn path_ignored(
    p: &String,
    root: &str,
    id: &String,
    name: &String,
    compiled: &Vec<Option<CompiledIgnorePath>>,
    Ghost(ev): Ghost<Seq<IgnorePathV>>,
) -> (r: bool)
    requires
        compiled@.len() == ev.len(),
        forall|e: int| 0 <= e < ev.len() ==> compiled_from(#[trigger] compiled@[e], ev[e]),
    ensures
        r == exists|e: int|
            0 <= e < ev.len() && entry_suppresses(
                #[trigger] ev[e],
                forward_slashes(relative_path(p@, root@)),
                id@,
                name@,
            ),
{
    let rel0 = relative_to(p.as_str(), root);
    let rel = to_forward_slashes(rel0.as_slice());
    let ghost rp = forward_slashes(relative_path(p@, root@));
    let mut c: usize = 0;
    while c < compiled.len()
        invariant
            c <= compiled@.len(),
            compiled@.len() == ev.len(),
            forall|e: int| 0 <= e < ev.len() ==> compiled_from(#[trigger] compiled@[e], ev[e]),
            rel@ == rp,
            rp == forward_slashes(relative_path(p@, root@)),
            forall|e: int| 0 <= e < c ==> !entry_suppresses(#[trigger] ev[e], rp, id@, name@),
        decreases compiled@.len() - c,
    {
        proof {
            assert(compiled_from(compiled@[c as int], ev[c as int]));
        }
        match &compiled[c] {
            Some(m) => {
                if glob_is_match(&m.matcher, rel.as_str()) && (list_contains(&m.rules, id)
                    || list_contains(&m.rules, name)) {
                    proof {
                        assert(entry_suppresses(ev[c as int], rp, id@, name@));
                        assert(0 <= c < ev.len());
                        assert(exists|e: int| 0 <= e < ev.len() && entry_suppresses(#[trigger] ev[e], forward_slashes(relative_path(p@, root@)), id@, name@));
                    }
                    return true;
                }
            },
            None => {},
        }
        c += 1;
    }
    false
}

/// Filters the issues by the repository-wide ignores (`doctor.ignore` and
/// `extra_ignore`) and the path-scoped ignores, matching rule ids and names
/// case-insensitively. Returns the kept issues, how many were suppressed,
/// and the warnings about the ignore configuration (invalid globs, entries
/// naming rules that never carry a path).
pub fn filter_issues(
    report: LintReport,
    root: &str,
    doctor: &DoctorConfig,
    extra_ignore: &Vec<String>,
) -> (r: (LintReport, usize, Vec<String>))
    ensures
        issues_view(r.0.issues@) == kept_issues(
            issues_view(report.issues@),
            root@,
            lowers(strs_view(doctor.ignore@) + strs_view(extra_ignore@)),
            entries_view(doctor.ignore_path@),
        ),
        r.1 == report.issues@.len() - r.0.issues@.len(),
        strs_view(r.2@) == config_warnings(
            entries_view(doctor.ignore_path@),
            doctor.ignore_path@.len() as int,
        ),
{
    let ghost set_v = lowers(strs_view(doctor.ignore@) + strs_view(extra_ignore@));
    let ghost ev = entries_view(doctor.ignore_path@);
    let mut set: Vec<String> = Vec::new();
    proof {
        assert(strs_view(set@) =~= Seq::<Seq<char>>::empty());
    }
    lowered(&doctor.ignore, &mut set);
    lowered(extra_ignore, &mut set);
    proof {
        assert(Seq::<Seq<char>>::empty() + lowers(strs_view(doctor.ignore@)) + lowers(
            strs_view(extra_ignore@),
        ) =~= set_v);
    }
    let (compiled, warnings) = compile_entries(&doctor.ignore_path);
    proof {
        assert forall|e: int| 0 <= e < ev.len() implies compiled_from(#[trigger] compiled@[e], ev[e]) by {
            assert(ev[e] == doctor.ignore_path@[e]@);
        }
    }
    let ghost iv = issues_view(report.issues@);
    let total = report.issues.len();
    let mut kept: Vec<Issue> = Vec::new();
    let mut j: usize = 0;
    proof {
        assert(iv.take(0) =~= Seq::<IssueV>::empty());
        assert(issues_view(kept@) =~= Seq::<IssueV>::empty());
    }
    while j < report.issues.len()
        invariant
            j <= report.issues@.len(),
            total == report.issues@.len(),
            iv == issues_view(report.issues@),
            strs_view(set@) == set_v,
            compiled@.len() == ev.len(),
            forall|e: int| 0 <= e < ev.len() ==> compiled_from(#[trigger] compiled@[e], ev[e]),
            issues_view(kept@) == kept_issues(iv.take(j as int), root@, set_v, ev),
            kept@.len() <= j,
        decreases report.issues@.len() - j,
    {
        proof {
            assert(iv.take(j + 1).drop_last() =~= iv.take(j as int));
            assert(iv.take(j + 1).last() == iv[j as int]);
        }
        let issue = &report.issues[j];
        let id = to_lowercase(issue.rule_id.as_str());
        let name = to_lowercase(issue.rule_name.as_str());
        let drop = if list_contains(&set, &id) || list_contains(&set, &name) {
            true
        } else {
            match &issue.path {
                Some(p) => path_ignored(p, root, &id, &name, &compiled, Ghost(ev)),
                None => false,
            }
        };
        proof {
            assert(drop == ignored(iv[j as int], root@, set_v, ev));
        }
        if !drop {
            let ghost before = issues_view(kept@);
            kept.push(issue.clone());
            proof {
                assert(issues_view(kept@) =~= before.push(iv[j as int]));
            }
        }
        j += 1;
    }
    proof {
        assert(iv.take(report.issues@.len() as int) =~= iv);
    }
    let n = kept.len();
    (LintReport { issues: kept }, total - n, warnings)
}


// ---------------------------------------------------------------------------
// Linting a repository
// ---------------------------------------------------------------------------
pub open spec fn file_contents(fs: Seq<AdrFileV>) -> Seq<Seq<char>> {
    fs.map_values(|f: AdrFileV| f.content)
}

/// Lint all ADRs in a repository (per-file checks only). The issues come
/// sorted.
pub fn lint_all(repo: &Repository) -> (r: LintReport)
    ensures
        issues_view(r.issues@) == sorted_issues(
            all_file_issues(records(repo@.files), file_contents(repo@.files), repo@.files.len() as int),
        ),
{
    let (adrs, contents) = repo.records_and_contents();
    proof {
        assert(adrs_view(adrs@) =~= records(repo@.files));
    }
    lint_adrs(adrs.as_slice(), contents.as_slice())
}

/// The issues of linting each record on its own, one sequence per record,
/// in list order.
pub open spec fn per_record_issues(adrs: Seq<AdrV>, contents: Seq<Seq<char>>) -> Seq<Seq<IssueV>> {
    Seq::new(adrs.len(), |i: int| lint_adr_spec(adrs[i], contents[i]))
}

proof fn lemma_all_file_issues_flatten(adrs: Seq<AdrV>, contents: Seq<Seq<char>>, n: int)
    requires
        0 <= n <= adrs.len(),
    ensures
        all_file_issues(adrs, contents, n) == per_record_issues(adrs, contents).take(n).flatten_alt(),
    decreases n,
{
    let p = per_record_issues(adrs, contents);
    if n == 0 {
        assert(p.take(0) =~= Seq::<Seq<IssueV>>::empty());
    } else {
        lemma_all_file_issues_flatten(adrs, contents, n - 1);
        assert(p.take(n).drop_last() =~= p.take(n - 1));
        assert(p.take(n).last() == lint_adr_spec(adrs[n - 1], contents[n - 1]));
    }
}

/// Linting a repository gives exactly the issues of linting each of its
/// records on its own, all together, in report order: the result of
/// `lint_all` holds the concatenated per-record issues, each as often as it
/// occurs there, sorted.
pub proof fn law_lint_all_is_per_record_lint(r: RepositoryV)
    ensures
        ({
            let adrs = records(r.files);
            let cs = file_contents(r.files);
            let all = sorted_issues(all_file_issues(adrs, cs, r.files.len() as int));
            &&& in_report_order(all)
            &&& all.to_multiset() == per_record_issues(adrs, cs).flatten().to_multiset()
        }),
{
    let adrs = records(r.files);
    let cs = file_contents(r.files);
    let n = r.files.len() as int;
    assert(adrs.len() == n);
    lemma_all_file_issues_flatten(adrs, cs, n);
    let p = per_record_issues(adrs, cs);
    assert(p.take(n) =~= p);
    p.lemma_flatten_and_flatten_alt_are_equivalent();
    law_sorted_issues(all_file_issues(adrs, cs, n));
}

/// Run repository-level checks: broken frontmatter links (next-gen mode),
/// asymmetric links, and the collection rules. The issues come sorted.
pub fn check_repository(repo: &Repository) -> (r: LintReport)
    ensures
        issues_view(r.issues@) == sorted_issues(
            repository_issues(
                records(repo@.files),
                file_contents(repo@.files),
                repo@.config.mode == ConfigMode::NextGen,
            ),
        ),
{
    let (adrs, contents) = repo.records_and_contents();
    proof {
        assert(adrs_view(adrs@) =~= records(repo@.files));
    }
    check_adrs(adrs.as_slice(), contents.as_slice(), repo.config().is_next_gen())
}

/// The error for a file that looks like an ADR but could not be parsed.
pub open spec fn parse_error_issue(path: Seq<char>, err: Seq<char>) -> IssueV {
    IssueV {
        rule_id: "parse-error"@,
        rule_name: "adr-parse-error"@,
        severity: IssueSeverity::Error,
        message: "Failed to parse ADR: "@ + err,
        path: Some(path),
        line: None,
        column: None,
        adr_number: None,
        related_adrs: seq![],
    }
}

pub open spec fn parse_error_issues(errs: Seq<(Seq<char>, Seq<char>)>) -> Seq<IssueV> {
    errs.map_values(|e: (Seq<char>, Seq<char>)| parse_error_issue(e.0, e.1))
}

/// Every issue of a repository before filtering, sorted: the parse errors,
/// the per-file issues and the repository-level issues.
pub open spec fn all_issues(r: RepositoryV, errs: Seq<(Seq<char>, Seq<char>)>) -> Seq<IssueV> {
    let n = r.files.len() as int;
    sorted_issues(
        parse_error_issues(errs) + all_file_issues(records(r.files), file_contents(r.files), n)
            + sorted_issues(
            repository_issues(records(r.files), file_contents(r.files), r.config.mode == ConfigMode::NextGen),
        ),
    )
}

/// Run all checks and filter out issues matching ignored rule ids or names,
/// repository-wide or path-scoped. `parse_errors` are the files that look
/// like ADRs but could not be parsed, with the parse error's message.
/// Returns the filtered report, how many issues were suppressed, and the
/// configuration warnings.
pub fn check_all_filtered(
    repo: &Repository,
    parse_errors: &Vec<(String, String)>,
    doctor: &DoctorConfig,
    extra_ignore: &Vec<String>,
) -> (r: (LintReport, usize, Vec<String>))
    ensures
        issues_view(r.0.issues@) == kept_issues(
            all_issues(repo@, parse_errors@.map_values(|e: (String, String)| (e.0@, e.1@))),
            repo@.root,
            lowers(strs_view(doctor.ignore@) + strs_view(extra_ignore@)),
            entries_view(doctor.ignore_path@),
        ),
        r.1 == all_issues(repo@, parse_errors@.map_values(|e: (String, String)| (e.0@, e.1@))).len()
            - r.0.issues@.len(),
        strs_view(r.2@) == config_warnings(entries_view(doctor.ignore_path@), doctor.ignore_path@.len() as int),
{
    let ghost ev = parse_errors@.map_values(|e: (String, String)| (e.0@, e.1@));
    let mut report = LintReport::new();
    let mut i: usize = 0;
    proof {
        assert(issues_view(report.issues@) =~= parse_error_issues(ev).take(0));
    }
    while i < parse_errors.len()
        invariant
            i <= parse_errors@.len(),
            ev == parse_errors@.map_values(|e: (String, String)| (e.0@, e.1@)),
            issues_view(report.issues@) == parse_error_issues(ev).take(i as int),
        decreases parse_errors@.len() - i,
    {
        let ghost before = issues_view(report.issues@);
        let (path, err) = &parse_errors[i];
        let mut m: Vec<char> = Vec::new();
        push_str_chars(&mut m, "Failed to parse ADR: ");
        push_str_chars(&mut m, err.as_str());
        let issue = new_issue(
            "parse-error",
            "adr-parse-error",
            IssueSeverity::Error,
            string_from(m.as_slice()),
            Some(clone_string(path)),
            None,
            None,
            None,
        );
        report.add(issue);
        proof {
            assert(parse_error_issues(ev).take(i + 1) =~= parse_error_issues(ev).take(i as int).push(issue@));
            assert(issues_view(report.issues@) =~= before.push(issue@));
        }
        i += 1;
    }
    proof {
        assert(parse_error_issues(ev).take(parse_errors@.len() as int) =~= parse_error_issues(ev));
    }
    let (adrs, contents) = repo.records_and_contents();
    proof {
        assert(adrs_view(adrs@) =~= records(repo@.files));
    }
    let mut k: usize = 0;
    let ghost start = issues_view(report.issues@);
    let ghost av = adrs_view(adrs@);
    let ghost cv = strs_view(contents@);
    while k < adrs.len()
        invariant
            k <= adrs@.len(),
            contents@.len() == adrs@.len(),
            av == adrs_view(adrs@),
            cv == strs_view(contents@),
            issues_view(report.issues@) == start + all_file_issues(av, cv, k as int),
        decreases adrs@.len() - k,
    {
        let r = lint_adr(&adrs[k], contents[k].as_str());
        append_issues(&mut report, r);
        proof {
            assert(start + all_file_issues(av, cv, k + 1) =~= start + all_file_issues(av, cv, k as int)
                + lint_adr_spec(av[k as int], cv[k as int]));
        }
        k += 1;
    }
    let repo_report = check_adrs(adrs.as_slice(), contents.as_slice(), repo.config().is_next_gen());
    append_issues(&mut report, repo_report);
    report.sort();
    filter_issues(report, repo.root(), doctor, extra_ignore)
}

/// Run all checks: per-file lint, repository-level checks, and the parse
/// errors; nothing ignored.
pub fn check_all(repo: &Repository, parse_errors: &Vec<(String, String)>) -> (r: LintReport)
    ensures
        issues_view(r.issues@) == kept_issues(
            all_issues(repo@, parse_errors@.map_values(|e: (String, String)| (e.0@, e.1@))),
            repo@.root,
            lowers(Seq::<Seq<char>>::empty()),
            Seq::<IgnorePathV>::empty(),
        ),
{
    let doctor = DoctorConfig::default();
    let extra: Vec<String> = Vec::new();
    let (report, _, _) = check_all_filtered(repo, parse_errors, &doctor, &extra);
    proof {
        assert(strs_view(doctor.ignore@) + strs_view(extra@) =~= Seq::<Seq<char>>::empty());
        assert(entries_view(doctor.ignore_path@) =~= Seq::<IgnorePathV>::empty());
    }
    report
}

} // verus!
