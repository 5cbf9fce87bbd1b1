//! Repository operations for managing ADRs.
//!
//! A repository is held as the ADR files of its ADR directory: each file's
//! path, its parsed record and its text. Reading the directory and writing
//! files back is the caller's part; the operations here decide what the
//! files hold.

use crate::config::{
    config_or_default, default_config, resolved, Config, ConfigLayer, ConfigMode, ConfigV, TemplateConfig, DEFAULT_ADR_DIR,
};
use crate::error::Error;
use crate::paths::{join, join_spec};
use crate::jinja::jinja_output;
use crate::template::{
    engine_template, render_context, render_matches, Template, TemplateEngine, TemplateEngineV, TemplateFormat, TemplateVariant, TemplateV,
};
use crate::text::{chars_of, clone_string, decimal, is_ascii_digit_char, owned, u32_to_string};
use crate::patterns::{compile, is_match, regex_is_match, regex_replace_first, regex_valid, replace_first, Pattern};
use crate::text::{
    eq_ignore_ascii_case, eq_ignore_ascii_case_spec, lines, lines_spec, padded_decimal,
    padded_decimal_chars, starts_with_spec, starts_with_str, trim, trim_spec,
    occurs_at, decimal_chars, ends_with_spec, ends_with_str, find_from, find_from_spec, lowercase, push_all,
    push_str_chars, slice_vec, string_from, strip_prefix, strip_prefix_spec, to_lowercase,
};
use crate::types::{
    filename_spec, link_kind_text, links_view, opt_str_view, status_text, strings_view, Adr, AdrLink, AdrLinkV, AdrV, LinkKind,
    LinkKindV, StatusV, AdrStatus, Date, new_adr_view,
};
use fuzzy_matcher::FuzzyMatcher;
use vstd::prelude::*;

verus! {

/// The view of an ADR file.
pub struct AdrFileV {
    pub path: Seq<char>,
    pub adr: AdrV,
    pub content: Seq<char>,
}

/// An ADR file: its path, the record parsed from it, and its text.
#[derive(Debug)]
pub struct AdrFile {
    /// Path of the file.
    pub path: String,
    /// The record the file holds.
    pub adr: Adr,
    /// The text of the file.
    pub content: String,
}

impl View for AdrFile {
    type V = AdrFileV;

    open spec fn view(&self) -> AdrFileV {
        AdrFileV { path: self.path@, adr: self.adr@, content: self.content@ }
    }
}

pub open spec fn files_view(v: Seq<AdrFile>) -> Seq<AdrFileV> {
    v.map_values(|f: AdrFile| f@)
}

/// The records of the files, in order.
pub open spec fn records(fs: Seq<AdrFileV>) -> Seq<AdrV> {
    fs.map_values(|f: AdrFileV| f.adr)
}

/// Files in order of their ADR numbers.
pub open spec fn sorted_by_number(fs: Seq<AdrFileV>) -> bool {
    forall|i: int, j: int| 0 <= i < j < fs.len() ==> #[trigger] fs[i].adr.number <= #[trigger] fs[j].adr.number
}

/// A file whose record carries the file's path.
pub open spec fn file_wf(f: AdrFileV) -> bool {
    f.adr.path == Some(f.path)
}

/// The view of a repository.
pub struct RepositoryV {
    pub root: Seq<char>,
    pub config: ConfigV,
    pub engine: TemplateEngineV,
    pub files: Seq<AdrFileV>,
}

/// A repository of Architecture Decision Records.
#[derive(Debug)]
pub struct Repository {
    /// The root directory of the project.
    root: String,
    /// Configuration for this repository.
    config: Config,
    /// Template engine for creating ADRs.
    template_engine: TemplateEngine,
    /// The ADR files, in order of their numbers.
    files: Vec<AdrFile>,
}

impl View for Repository {
    type V = RepositoryV;

    closed spec fn view(&self) -> RepositoryV {
        RepositoryV {
            root: self.root@,
            config: self.config@,
            engine: self.template_engine@,
            files: files_view(self.files@),
        }
    }
}

impl Repository {
    #[verifier::type_invariant]
    spec fn inv(self) -> bool {
        &&& sorted_by_number(files_view(self.files@))
        &&& forall|i: int| 0 <= i < self.files@.len() ==> file_wf(#[trigger] files_view(self.files@)[i])
    }
}

// ---------------------------------------------------------------------------
// Ordering files by number
// ---------------------------------------------------------------------------
/// Inserts `x` after every file whose number is not larger.
pub open spec fn insert_by_number(s: Seq<AdrFileV>, x: AdrFileV) -> Seq<AdrFileV>
    decreases s.len(),
{
    if s.len() == 0 {
        seq![x]
    } else if s.last().adr.number > x.adr.number {
        insert_by_number(s.drop_last(), x).push(s.last())
    } else {
        s.push(x)
    }
}

/// The files stably sorted by number (`sort_by_key(|a| a.number)`).
pub open spec fn sort_by_number(s: Seq<AdrFileV>) -> Seq<AdrFileV>
    decreases s.len(),
{
    if s.len() == 0 {
        seq![]
    } else {
        insert_by_number(sort_by_number(s.drop_last()), s.last())
    }
}

proof fn lemma_insert_by_number_at(s: Seq<AdrFileV>, x: AdrFileV, pos: int)
    requires
        0 <= pos <= s.len(),
        forall|k: int| pos <= k < s.len() ==> (#[trigger] s[k]).adr.number > x.adr.number,
        pos > 0 ==> s[pos - 1].adr.number <= x.adr.number,
    ensures
        insert_by_number(s, x) == s.insert(pos, x),
    decreases s.len(),
{
    if s.len() == 0 {
        assert(s.insert(pos, x) =~= seq![x]);
    } else if pos == s.len() {
        assert(s.insert(pos, x) =~= s.push(x));
    } else {
        assert(s[s.len() - 1].adr.number > x.adr.number);
        lemma_insert_by_number_at(s.drop_last(), x, pos);
        assert(s.drop_last().insert(pos, x).push(s.last()) =~= s.insert(pos, x));
    }
}

/// Where `x` goes in the sorted `s`, and that the result stays sorted.
fn insertion_point(s: &Vec<AdrFile>, n: u32) -> (pos: usize)
    requires
        sorted_by_number(files_view(s@)),
    ensures
        pos <= s@.len(),
        forall|k: int| pos <= k < s@.len() ==> (#[trigger] s@[k]).adr.number > n,
        pos > 0 ==> s@[pos - 1].adr.number <= n,
{
    let mut pos: usize = s.len();
    while pos > 0 && s[pos - 1].adr.number > n
        invariant
            pos <= s@.len(),
            sorted_by_number(files_view(s@)),
            forall|k: int| pos <= k < s@.len() ==> (#[trigger] s@[k]).adr.number > n,
        decreases pos,
    {
        pos -= 1;
    }
    pos
}

proof fn lemma_insert_sorted(s: Seq<AdrFileV>, x: AdrFileV, pos: int)
    requires
        sorted_by_number(s),
        0 <= pos <= s.len(),
        forall|k: int| pos <= k < s.len() ==> (#[trigger] s[k]).adr.number > x.adr.number,
        pos > 0 ==> s[pos - 1].adr.number <= x.adr.number,
    ensures
        sorted_by_number(s.insert(pos, x)),
{
    let t = s.insert(pos, x);
    assert forall|i: int, j: int| 0 <= i < j < t.len() implies #[trigger] t[i].adr.number
        <= #[trigger] t[j].adr.number by {
        if i < pos && j < pos {
            assert(t[i] == s[i] && t[j] == s[j]);
        } else if i < pos && j == pos {
            assert(t[i] == s[i]);
            assert(s[i].adr.number <= s[pos - 1].adr.number);
        } else if i < pos {
            assert(t[i] == s[i] && t[j] == s[j - 1]);
        } else if i == pos {
            assert(t[j] == s[j - 1]);
        } else {
            assert(t[i] == s[i - 1] && t[j] == s[j - 1]);
        }
    }
}

/// Whether a file name looks like an ADR file that the listing reads: a
/// `.md` file whose name starts with an ASCII digit.
pub open spec fn is_adr_file_name_spec(name: Seq<char>) -> bool {
    &&& name.len() > 0 && is_ascii_digit_char(name[0])
    &&& ends_with_md(name)
}

pub open spec fn ends_with_md(name: Seq<char>) -> bool {
    name.len() >= 3 && name.subrange(name.len() - 3, name.len() as int) == seq!['.', 'm', 'd']
}

/// Whether the directory listing reads this file: its name starts with an
/// ASCII digit and it has the `md` extension.
pub fn is_adr_file_name(name: &str) -> (r: bool)
    ensures
        r == is_adr_file_name_spec(name@),
{
    let c = chars_of(name);
    let n = c.len();
    if n == 0 || !(c[0] >= '0' && c[0] <= '9') {
        return false;
    }
    if n < 3 {
        return false;
    }
    let r = c[n - 3] == '.' && c[n - 2] == 'm' && c[n - 1] == 'd';
    proof {
        if r {
            assert(c@.subrange(n - 3, n as int) =~= seq!['.', 'm', 'd']);
        } else {
            if c@.subrange(n - 3, n as int) == seq!['.', 'm', 'd'] {
                assert(c@.subrange(n - 3, n as int)[0] == c@[n - 3]);
                assert(c@.subrange(n - 3, n as int)[1] == c@[n - 2]);
                assert(c@.subrange(n - 3, n as int)[2] == c@[n - 1]);
            }
        }
    }
    r
}

/// Whether a file counts as an existing ADR when a repository is
/// initialized: a `.md` file whose name is longer than five characters and
/// starts with four ASCII digits.
pub open spec fn counts_as_existing_spec(name: Seq<char>) -> bool {
    &&& ends_with_md(name)
    &&& name.len() > 5
    &&& forall|i: int| 0 <= i < 4 ==> is_ascii_digit_char(#[trigger] name[i])
}

/// Whether a file counts as an existing ADR when a repository is initialized.
pub fn counts_as_existing_adr(name: &str) -> (r: bool)
    ensures
        r == counts_as_existing_spec(name@),
{
    let c = chars_of(name);
    let n = c.len();
    if n <= 5 {
        return false;
    }
    let mut i: usize = 0;
    while i < 4
        invariant
            i <= 4 < c@.len(),
            c@ == name@,
            forall|k: int| 0 <= k < i ==> is_ascii_digit_char(#[trigger] c@[k]),
        decreases 4 - i,
    {
        if !(c[i] >= '0' && c[i] <= '9') {
            return false;
        }
        i += 1;
    }
    let r = c[n - 3] == '.' && c[n - 2] == 'm' && c[n - 1] == 'd';
    proof {
        if r {
            assert(c@.subrange(n - 3, n as int) =~= seq!['.', 'm', 'd']);
        } else {
            if c@.subrange(n - 3, n as int) == seq!['.', 'm', 'd'] {
                assert(c@.subrange(n - 3, n as int)[0] == c@[n - 3]);
                assert(c@.subrange(n - 3, n as int)[1] == c@[n - 2]);
                assert(c@.subrange(n - 3, n as int)[2] == c@[n - 1]);
            }
        }
    }
    r
}

/// The template engine a configuration asks for: the built-in defaults,
/// with the configured format when it names a known one.
pub open spec fn engine_for(config: ConfigV) -> TemplateEngineV {
    let base = TemplateEngineV {
        default_format: TemplateFormat::Nygard,
        default_variant: TemplateVariant::Full,
        custom_template: None,
    };
    match config.templates.format {
        Some(f) => match crate::template::format_from_str(f) {
            Some(fmt) => TemplateEngineV { default_format: fmt, ..base },
            None => base,
        },
        None => base,
    }
}

/// The first index of a file numbered `n`, or -1.
pub open spec fn first_with_number(fs: Seq<AdrFileV>, n: u32) -> int
    decreases fs.len(),
{
    if fs.len() == 0 {
        -1
    } else {
        let k = first_with_number(fs.drop_last(), n);
        if k >= 0 {
            k
        } else if fs.last().adr.number == n {
            fs.len() - 1
        } else {
            -1
        }
    }
}

proof fn lemma_first_with_number(fs: Seq<AdrFileV>, n: u32)
    ensures
        -1 <= first_with_number(fs, n) < fs.len(),
        first_with_number(fs, n) >= 0 ==> fs[first_with_number(fs, n)].adr.number == n,
        forall|k: int| 0 <= k < fs.len() && (first_with_number(fs, n) == -1 || k < first_with_number(fs, n)) ==> #[trigger] fs[k].adr.number != n,
    decreases fs.len(),
{
    if fs.len() > 0 {
        lemma_first_with_number(fs.drop_last(), n);
        assert forall|k: int| 0 <= k < fs.len() - 1 implies fs.drop_last()[k] == #[trigger] fs[k] by {}
    }
}

/// What `get(n)` gives: the first record numbered `n`.
pub open spec fn get_spec(fs: Seq<AdrFileV>, n: u32) -> Option<AdrV> {
    let k = first_with_number(fs, n);
    if k >= 0 {
        Some(fs[k].adr)
    } else {
        None
    }
}

impl Repository {
    /// Opens a repository at `root` with the given configuration and the ADR
    /// files read from its ADR directory, in any order. Each record takes
    /// its file's path; the files are kept in order of their numbers (files
    /// with equal numbers keep their order).
    pub fn open(root: &str, config: Config, files: Vec<AdrFile>) -> (r: Repository)
        ensures
            r@.root == root@,
            r@.config == config@,
            r@.engine == engine_for(config@),
            r@.files == sort_by_number(
                files_view(files@).map_values(|f: AdrFileV| AdrFileV { adr: AdrV { path: Some(f.path), ..f.adr }, ..f }),
            ),
    {
        let ghost fixed = files_view(files@).map_values(|f: AdrFileV| AdrFileV { adr: AdrV { path: Some(f.path), ..f.adr }, ..f });
        let template_engine = Self::engine_from_config(&config);
        let mut sorted: Vec<AdrFile> = Vec::new();
        let ghost input = fixed;
        let mut i: usize = 0;
        let total = files.len();
        proof {
            assert(input.take(0) =~= Seq::<AdrFileV>::empty());
            assert(files_view(sorted@) =~= Seq::<AdrFileV>::empty());
        }
        while i < files.len()
            invariant
                i <= total,
                total == files@.len(),
                total == input.len(),
                input == fixed,
                fixed == files_view(files@).map_values(|f: AdrFileV| AdrFileV { adr: AdrV { path: Some(f.path), ..f.adr }, ..f }),
                files_view(sorted@) == sort_by_number(input.take(i as int)),
                sorted_by_number(files_view(sorted@)),
                forall|k: int| 0 <= k < sorted@.len() ==> file_wf(#[trigger] files_view(sorted@)[k]),
            decreases total - i,
        {
            let src = &files[i];
            let mut adr = src.adr.clone();
            adr.path = Some(clone_string(&src.path));
            let f = AdrFile { path: clone_string(&src.path), adr, content: clone_string(&src.content) };
            let ghost fv = f@;
            proof {
                assert(fv == input[i as int]);
                assert(input.take(i + 1).drop_last() =~= input.take(i as int));
                assert(input.take(i + 1).last() == fv);
            }
            let pos = insertion_point(&sorted, f.adr.number);
            let ghost sv = files_view(sorted@);
            proof {
                lemma_insert_by_number_at(sv, fv, pos as int);
                lemma_insert_sorted(sv, fv, pos as int);
            }
            sorted.insert(pos, f);
            proof {
                assert(files_view(sorted@) =~= sv.insert(pos as int, fv));
                assert forall|k: int| 0 <= k < sorted@.len() implies file_wf(#[trigger] files_view(sorted@)[k]) by {
                    if k < pos {
                        assert(files_view(sorted@)[k] == sv[k]);
                    } else if k > pos {
                        assert(files_view(sorted@)[k] == sv[k - 1]);
                    }
                }
            }
            i += 1;
        }
        proof {
            assert(input.take(total as int) =~= input);
        }
        Repository { root: owned(root), config, template_engine, files: sorted }
    }

    /// Get the repository root path.
    pub fn root(&self) -> (r: &str)
        ensures
            r@ == self@.root,
    {
        self.root.as_str()
    }

    /// Get the configuration.
    pub fn config(&self) -> (r: &Config)
        ensures
            r@ == self@.config,
    {
        &self.config
    }

    /// Get the full path to the ADR directory.
    pub fn adr_path(&self) -> (r: String)
        ensures
            r@ == join_spec(self@.root, self@.config.adr_dir),
    {
        self.config.adr_path(self.root.as_str())
    }

    /// The ADR files, in order of their numbers.
    pub fn files(&self) -> (r: &Vec<AdrFile>)
        ensures
            files_view(r@) == self@.files,
    {
        &self.files
    }

    /// Build a template engine that respects the config's template format.
    fn engine_from_config(config: &Config) -> (r: TemplateEngine)
        ensures
            r@ == engine_for(config@),
    {
        let engine = TemplateEngine::new();
        match &config.templates.format {
            Some(f) => match TemplateFormat::parse_str(f.as_str()) {
                Ok(format) => engine.with_format(format),
                Err(_) => engine,
            },
            None => engine,
        }
    }

    /// Set the template format.
    pub fn with_template_format(self, format: TemplateFormat) -> (r: Self)
        ensures
            r@ == (RepositoryV { engine: TemplateEngineV { default_format: format, ..self@.engine }, ..self@ }),
    {
        proof {
            use_type_invariant(&self);
        }
        let Repository { root, config, template_engine, files } = self;
        Repository { root, config, template_engine: template_engine.with_format(format), files }
    }

    /// Set the template variant.
    pub fn with_template_variant(self, variant: TemplateVariant) -> (r: Self)
        ensures
            r@ == (RepositoryV { engine: TemplateEngineV { default_variant: variant, ..self@.engine }, ..self@ }),
    {
        proof {
            use_type_invariant(&self);
        }
        let Repository { root, config, template_engine, files } = self;
        Repository { root, config, template_engine: template_engine.with_variant(variant), files }
    }

    /// Set a custom template.
    pub fn with_custom_template(self, template: Template) -> (r: Self)
        ensures
            r@ == (RepositoryV { engine: TemplateEngineV { custom_template: Some(template@), ..self@.engine }, ..self@ }),
    {
        proof {
            use_type_invariant(&self);
        }
        let Repository { root, config, template_engine, files } = self;
        Repository {
            root,
            config,
            template_engine: template_engine.with_custom_template(template),
            files,
        }
    }

    /// List all ADRs in the repository, in order of their numbers.
    pub fn list(&self) -> (r: Vec<Adr>)
        ensures
            r@.map_values(|a: Adr| a@) == records(self@.files),
            sorted_by_number(self@.files),
    {
        proof {
            use_type_invariant(self);
        }
        let ghost fv = files_view(self.files@);
        let mut out: Vec<Adr> = Vec::new();
        let mut i: usize = 0;
        while i < self.files.len()
            invariant
                i <= self.files@.len(),
                fv == files_view(self.files@),
                out@.map_values(|a: Adr| a@) == records(fv).take(i as int),
            decreases self.files@.len() - i,
        {
            let ghost before = out@;
            let a = self.files[i].adr.clone();
            proof {
                assert(records(fv)[i as int] == a@);
                assert(records(fv).take(i + 1) =~= records(fv).take(i as int).push(a@));
            }
            out.push(a);
            proof {
                assert(out@.map_values(|a: Adr| a@) =~= before.map_values(|a: Adr| a@).push(a@));
            }
            i += 1;
        }
        proof {
            assert(records(fv).take(self.files@.len() as int) =~= records(fv));
        }
        out
    }

    /// Get the next available ADR number: one past the largest, or 1 when
    /// there are none.
    pub fn next_number(&self) -> (r: u32)
        requires
            self@.files.len() > 0 ==> self@.files.last().adr.number < u32::MAX,
        ensures
            r == (if self@.files.len() == 0 {
                1
            } else {
                self@.files.last().adr.number + 1
            }),
            forall|i: int| 0 <= i < self@.files.len() ==> #[trigger] self@.files[i].adr.number < r,
    {
        proof {
            use_type_invariant(self);
        }
        if self.files.len() == 0 {
            1
        } else {
            let n = self.files[self.files.len() - 1].adr.number + 1;
            proof {
                let fv = files_view(self.files@);
                assert forall|i: int| 0 <= i < fv.len() implies #[trigger] fv[i].adr.number < n by {
                    if i < fv.len() - 1 {
                        assert(fv[i].adr.number <= fv[fv.len() - 1].adr.number);
                    }
                }
            }
            n
        }
    }

    fn index_of_number(&self, n: u32) -> (r: Option<usize>)
        ensures
            match r {
                Some(k) => k as int == first_with_number(self@.files, n) && k < self@.files.len(),
                None => first_with_number(self@.files, n) == -1,
            },
    {
        let ghost fv = files_view(self.files@);
        proof {
            lemma_first_with_number(fv, n);
        }
        let mut k: usize = 0;
        while k < self.files.len()
            invariant
                k <= self.files@.len(),
                fv == files_view(self.files@),
                forall|j: int| 0 <= j < k ==> #[trigger] fv[j].adr.number != n,
            decreases self.files@.len() - k,
        {
            if self.files[k].adr.number == n {
                proof {
                    lemma_first_with_number(fv, n);
                    assert(fv[k as int].adr.number == n);
                    let f = first_with_number(fv, n);
                    if f == -1 || f > k {
                        assert(fv[k as int].adr.number != n);
                    }
                    if 0 <= f < k {
                        assert(fv[f].adr.number != n);
                    }
                }
                return Some(k);
            }
            k += 1;
        }
        proof {
            let f = first_with_number(fv, n);
            if f >= 0 {
                assert(fv[f].adr.number != n);
            }
        }
        None
    }

    /// Find an ADR by number: the first record with that number.
    pub fn get(&self, number: u32) -> (r: Result<Adr, Error>)
        ensures
            match get_spec(self@.files, number) {
                Some(a) => r matches Ok(x) && x@ == a,
                None => r matches Err(Error::AdrNotFound(s)) && s@ == decimal(number as nat),
            },
    {
        match self.index_of_number(number) {
            Some(k) => Ok(self.files[k].adr.clone()),
            None => Err(Error::AdrNotFound(u32_to_string(number))),
        }
    }
}


// ---------------------------------------------------------------------------
// Finding ADRs
// ---------------------------------------------------------------------------
/// The score `SkimMatcherV2::default().fuzzy_match(choice, pattern)` gives
/// (fuzzy-matcher), or `None` when the pattern does not match.
pub uninterp spec fn fuzzy_score(choice: Seq<char>, pattern: Seq<char>) -> Option<i64>;

/// Scores `choice` against `pattern` with skim's fuzzy matcher
/// (`SkimMatcherV2::default().fuzzy_match`). The score is named, not stated.
#[verifier::external_body]
fn fuzzy_match(choice: &str, pattern: &str) -> (r: Option<i64>)
    ensures
        r == fuzzy_score(choice@, pattern@),
{
    fuzzy_matcher::skim::SkimMatcherV2::default().fuzzy_match(choice, pattern)
}

/// The records that match the query, each with its score, in order.
pub open spec fn scored(rs: Seq<AdrV>, q: Seq<char>) -> Seq<(AdrV, i64)>
    decreases rs.len(),
{
    if rs.len() == 0 {
        seq![]
    } else {
        let rest = scored(rs.drop_last(), q);
        match fuzzy_score(rs.last().title, q) {
            Some(sc) => rest.push((rs.last(), sc)),
            None => rest,
        }
    }
}

/// Inserts `x` after every match whose score is not smaller.
pub open spec fn insert_by_score(s: Seq<(AdrV, i64)>, x: (AdrV, i64)) -> Seq<(AdrV, i64)>
    decreases s.len(),
{
    if s.len() == 0 {
        seq![x]
    } else if s.last().1 < x.1 {
        insert_by_score(s.drop_last(), x).push(s.last())
    } else {
        s.push(x)
    }
}

/// The matches stably sorted by score, best first.
pub open spec fn sort_by_score(s: Seq<(AdrV, i64)>) -> Seq<(AdrV, i64)>
    decreases s.len(),
{
    if s.len() == 0 {
        seq![]
    } else {
        insert_by_score(sort_by_score(s.drop_last()), s.last())
    }
}

/// The titles of the first `k` matches.
pub open spec fn match_titles(ms: Seq<(AdrV, i64)>, k: int) -> Seq<Seq<char>> {
    ms.take(k).map_values(|m: (AdrV, i64)| m.0.title)
}

/// What `find(query)` gives for a query that is not a number: no match is
/// `AdrNotFound`; one match, or a best match scoring more than twice the
/// next, is that record; otherwise `AmbiguousAdr` with the titles of the
/// first five matches.
pub open spec fn fuzzy_find(ms: Seq<(AdrV, i64)>) -> Option<Result<AdrV, Seq<Seq<char>>>> {
    if ms.len() == 0 {
        None
    } else if ms.len() == 1 || ms[0].1 > ms[1].1 * 2 {
        Some(Ok(ms[0].0))
    } else {
        Some(Err(match_titles(ms, if ms.len() < 5 { ms.len() as int } else { 5 })))
    }
}

proof fn lemma_insert_by_score_at(s: Seq<(AdrV, i64)>, x: (AdrV, i64), pos: int)
    requires
        0 <= pos <= s.len(),
        forall|k: int| pos <= k < s.len() ==> (#[trigger] s[k]).1 < x.1,
        pos > 0 ==> s[pos - 1].1 >= x.1,
    ensures
        insert_by_score(s, x) == s.insert(pos, x),
    decreases s.len(),
{
    if s.len() == 0 {
        assert(s.insert(pos, x) =~= seq![x]);
    } else if pos == s.len() {
        assert(s.insert(pos, x) =~= s.push(x));
    } else {
        assert(s[s.len() - 1].1 < x.1);
        lemma_insert_by_score_at(s.drop_last(), x, pos);
        assert(s.drop_last().insert(pos, x).push(s.last()) =~= s.insert(pos, x));
    }
}

// ---------------------------------------------------------------------------
// When a fuzzy query is ambiguous
// ---------------------------------------------------------------------------
/// The matches come best first.
pub open spec fn scores_desc(s: Seq<(AdrV, i64)>) -> bool {
    forall|i: int, j: int| 0 <= i < j < s.len() ==> (#[trigger] s[i]).1 >= (#[trigger] s[j]).1
}

proof fn lemma_insert_by_score(s: Seq<(AdrV, i64)>, x: (AdrV, i64))
    requires
        scores_desc(s),
    ensures
        scores_desc(insert_by_score(s, x)),
        insert_by_score(s, x).to_multiset() == s.to_multiset().insert(x),
        insert_by_score(s, x).len() == s.len() + 1,
    decreases s.len(),
{
    broadcast use vstd::seq_lib::group_to_multiset_ensures;

    if s.len() == 0 {
        assert(insert_by_score(s, x) =~= Seq::<(AdrV, i64)>::empty().push(x));
    } else {
        let l = s.last();
        let init = s.drop_last();
        assert(init.push(l) =~= s);
        assert forall|i: int, j: int| 0 <= i < j < init.len() implies (#[trigger] init[i]).1 >= (
        #[trigger] init[j]).1 by {
            assert(init[i] == s[i] && init[j] == s[j]);
        }
        if l.1 < x.1 {
            lemma_insert_by_score(init, x);
            let r = insert_by_score(init, x);
            assert forall|k: int| 0 <= k < r.len() implies (#[trigger] r[k]).1 >= l.1 by {
                assert(r.to_multiset().count(r[k]) > 0);
                if r[k] != x {
                    assert(init.to_multiset().count(r[k]) > 0);
                    let p = choose|p: int| 0 <= p < init.len() && init[p] == r[k];
                    assert(s[p] == init[p]);
                    assert(s[s.len() - 1] == l);
                }
            }
            assert forall|i: int, j: int| 0 <= i < j < r.push(l).len() implies (#[trigger] r.push(l)[i]).1
                >= (#[trigger] r.push(l)[j]).1 by {
                if j == r.len() {
                    assert(r.push(l)[i] == r[i]);
                } else {
                    assert(r.push(l)[i] == r[i] && r.push(l)[j] == r[j]);
                }
            }
            assert(r.push(l).to_multiset() =~= s.to_multiset().insert(x));
        } else {
            assert forall|i: int, j: int| 0 <= i < j < s.push(x).len() implies (#[trigger] s.push(x)[i]).1
                >= (#[trigger] s.push(x)[j]).1 by {
                if j == s.len() {
                    assert(s.push(x)[i] == s[i]);
                    assert(s[i].1 >= l.1 || i == s.len() - 1);
                } else {
                    assert(s.push(x)[i] == s[i] && s.push(x)[j] == s[j]);
                }
            }
        }
    }
}

proof fn lemma_sort_by_score(s: Seq<(AdrV, i64)>)
    ensures
        scores_desc(sort_by_score(s)),
        sort_by_score(s).to_multiset() == s.to_multiset(),
        sort_by_score(s).len() == s.len(),
    decreases s.len(),
{
    broadcast use vstd::seq_lib::group_to_multiset_ensures;

    if s.len() == 0 {
        assert(sort_by_score(s) =~= s);
    } else {
        lemma_sort_by_score(s.drop_last());
        lemma_insert_by_score(sort_by_score(s.drop_last()), s.last());
        assert(s.drop_last().push(s.last()) =~= s);
    }
}

proof fn lemma_scored_has(rs: Seq<AdrV>, q: Seq<char>, i: int)
    requires
        0 <= i < rs.len(),
        fuzzy_score(rs[i].title, q) is Some,
    ensures
        scored(rs, q).to_multiset().count((rs[i], fuzzy_score(rs[i].title, q)->0)) >= 1,
    decreases rs.len(),
{
    broadcast use vstd::seq_lib::group_to_multiset_ensures;

    let rest = scored(rs.drop_last(), q);
    if i < rs.len() - 1 {
        assert(rs.drop_last()[i] == rs[i]);
        lemma_scored_has(rs.drop_last(), q, i);
    }
    match fuzzy_score(rs.last().title, q) {
        Some(sc) => {
            assert(scored(rs, q).to_multiset() == rest.to_multiset().insert((rs.last(), sc)));
        },
        None => {},
    }
}

proof fn lemma_scored_has_both(rs: Seq<AdrV>, q: Seq<char>, a: int, b: int)
    requires
        0 <= a < b < rs.len(),
        fuzzy_score(rs[a].title, q) is Some,
        fuzzy_score(rs[b].title, q) is Some,
    ensures
        ({
            let x = (rs[a], fuzzy_score(rs[a].title, q)->0);
            let y = (rs[b], fuzzy_score(rs[b].title, q)->0);
            let m = scored(rs, q).to_multiset();
            &&& m.count(x) >= 1
            &&& m.count(y) >= 1
            &&& x == y ==> m.count(x) >= 2
        }),
    decreases rs.len(),
{
    broadcast use vstd::seq_lib::group_to_multiset_ensures;

    let rest = scored(rs.drop_last(), q);
    let x = (rs[a], fuzzy_score(rs[a].title, q)->0);
    assert(rs.drop_last()[a] == rs[a]);
    if b == rs.len() - 1 {
        lemma_scored_has(rs.drop_last(), q, a);
        assert(scored(rs, q) == rest.push((rs.last(), fuzzy_score(rs.last().title, q)->0)));
    } else {
        assert(rs.drop_last()[b] == rs[b]);
        lemma_scored_has_both(rs.drop_last(), q, a, b);
        match fuzzy_score(rs.last().title, q) {
            Some(sc) => {
                assert(scored(rs, q).to_multiset() == rest.to_multiset().insert((rs.last(), sc)));
            },
            None => {},
        }
    }
}

proof fn lemma_scored_bounded(rs: Seq<AdrV>, q: Seq<char>, bound: int)
    requires
        forall|k: int|
            0 <= k < rs.len() && (#[trigger] fuzzy_score(rs[k].title, q)) is Some ==> fuzzy_score(
                rs[k].title,
                q,
            )->0 <= bound,
    ensures
        forall|p: int| 0 <= p < scored(rs, q).len() ==> (#[trigger] scored(rs, q)[p]).1 <= bound,
    decreases rs.len(),
{
    if rs.len() > 0 {
        assert forall|k: int|
            0 <= k < rs.drop_last().len() && (#[trigger] fuzzy_score(rs.drop_last()[k].title, q)) is Some
                implies fuzzy_score(rs.drop_last()[k].title, q)->0 <= bound by {
            assert(rs.drop_last()[k] == rs[k]);
            assert(fuzzy_score(rs[k].title, q) is Some);
        }
        lemma_scored_bounded(rs.drop_last(), q, bound);
        let k = rs.len() - 1;
        let rest = scored(rs.drop_last(), q);
        assert(rs.last() == rs[k]);
        assert forall|p: int| 0 <= p < scored(rs, q).len() implies (#[trigger] scored(rs, q)[p]).1 <= bound by {
            if p < rest.len() {
                assert(scored(rs, q)[p] == rest[p]);
            } else {
                assert(fuzzy_score(rs[k].title, q) is Some);
                assert(scored(rs, q)[p] == (rs[k], fuzzy_score(rs[k].title, q)->0));
            }
        }
    }
}

/// A fuzzy query has no clear winner when some match scores at least half
/// of the best score: then finding it does not pick a record but reports it
/// as ambiguous, listing at least two matching titles, each the title of a
/// matching record. This holds when the scores tie, and whichever of the
/// two comes first.
pub proof fn law_find_ambiguous_without_clear_winner(rs: Seq<AdrV>, q: Seq<char>, i: int, j: int)
    requires
        0 <= i < rs.len(),
        0 <= j < rs.len(),
        i != j,
        fuzzy_score(rs[i].title, q) is Some,
        fuzzy_score(rs[j].title, q) is Some,
        forall|k: int|
            0 <= k < rs.len() && (#[trigger] fuzzy_score(rs[k].title, q)) is Some ==> fuzzy_score(
                rs[k].title,
                q,
            )->0 <= fuzzy_score(rs[i].title, q)->0,
        fuzzy_score(rs[i].title, q)->0 <= 2 * fuzzy_score(rs[j].title, q)->0,
    ensures
        fuzzy_find(sort_by_score(scored(rs, q))) matches Some(Err(titles)) && titles.len() >= 2 && forall|
            t: int,
        |
            #![trigger titles[t]]
            0 <= t < titles.len() ==> exists|k: int|
                #![trigger rs[k]]
                0 <= k < rs.len() && rs[k].title == titles[t] && fuzzy_score(rs[k].title, q) is Some,
{
    broadcast use vstd::seq_lib::group_to_multiset_ensures;

    let si = fuzzy_score(rs[i].title, q)->0;
    let sj = fuzzy_score(rs[j].title, q)->0;
    let x = (rs[i], si);
    let y = (rs[j], sj);
    let sc = scored(rs, q);
    let ms = sort_by_score(sc);
    lemma_sort_by_score(sc);
    if i < j {
        lemma_scored_has_both(rs, q, i, j);
    } else {
        lemma_scored_has_both(rs, q, j, i);
    }
    lemma_scored_bounded(rs, q, si as int);
    assert(sj <= si) by {
        assert(fuzzy_score(rs[j].title, q) is Some);
    }
    // Every match in `ms` is a match in `scored`, so none beats `si`.
    assert forall|p: int| 0 <= p < ms.len() implies (#[trigger] ms[p]).1 <= si by {
        assert(ms.to_multiset().count(ms[p]) > 0);
        assert(sc.to_multiset().count(ms[p]) > 0);
        let r = choose|r: int| 0 <= r < sc.len() && sc[r] == ms[p];
    }
    // The best is `si`.
    assert(ms.to_multiset().count(x) > 0);
    let a = choose|a: int| 0 <= a < ms.len() && ms[a] == x;
    assert(ms[0].1 >= si) by {
        if a > 0 {
            assert(ms[0].1 >= ms[a].1);
        }
    }
    // After the best, something scores at least `sj`.
    let d = ms.drop_first();
    assert(ms.remove(0) =~= d);
    assert(d.to_multiset() == ms.to_multiset().remove(ms[0]));
    let e = if ms[0] != y {
        y
    } else if x != y {
        x
    } else {
        y
    };
    assert(d.to_multiset().count(e) > 0);
    assert(e.1 >= sj);
    let b = choose|b: int| 0 <= b < d.len() && d[b] == e;
    assert(ms[b + 1] == e);
    assert(ms.len() >= 2);
    assert(ms[1].1 >= sj) by {
        if b > 0 {
            assert(ms[1].1 >= ms[b + 1].1);
        }
    }
    assert(!(ms[0].1 > ms[1].1 * 2));
    let n = if ms.len() < 5 {
        ms.len() as int
    } else {
        5
    };
    let titles = match_titles(ms, n);
    assert forall|t: int| 0 <= t < titles.len() implies exists|k: int|
        #![trigger rs[k]]
        0 <= k < rs.len() && rs[k].title == #[trigger] titles[t] && fuzzy_score(rs[k].title, q) is Some by {
        assert(titles[t] == ms[t].0.title);
        assert(ms.to_multiset().count(ms[t]) > 0);
        assert(sc.to_multiset().count(ms[t]) > 0);
        let r = choose|r: int| 0 <= r < sc.len() && sc[r] == ms[t];
        lemma_scored_from(rs, q, r);
        let k = choose|k: int| 0 <= k < rs.len() && sc[r] == (rs[k], fuzzy_score(rs[k].title, q)->0) && fuzzy_score(rs[k].title, q) is Some;
        assert(rs[k].title == titles[t]);
    }
}

proof fn lemma_scored_from(rs: Seq<AdrV>, q: Seq<char>, p: int)
    requires
        0 <= p < scored(rs, q).len(),
    ensures
        exists|k: int|
            0 <= k < rs.len() && scored(rs, q)[p] == (rs[k], fuzzy_score(rs[k].title, q)->0)
                && fuzzy_score(rs[k].title, q) is Some,
    decreases rs.len(),
{
    let rest = scored(rs.drop_last(), q);
    if p < rest.len() {
        lemma_scored_from(rs.drop_last(), q, p);
        let k = choose|k: int|
            0 <= k < rs.drop_last().len() && rest[p] == (rs.drop_last()[k], fuzzy_score(rs.drop_last()[k].title, q)->0)
                && fuzzy_score(rs.drop_last()[k].title, q) is Some;
        assert(rs.drop_last()[k] == rs[k]);
        assert(scored(rs, q)[p] == rest[p]);
    } else {
        let k = rs.len() - 1;
        assert(rs.last() == rs[k]);
        assert(scored(rs, q)[p] == (rs[k], fuzzy_score(rs[k].title, q)->0));
    }
}

impl Repository {
    /// Find an ADR by query: a query that parses as a number looks the
    /// number up; otherwise the titles are fuzzy-matched against it.
    pub fn find(&self, query: &str) -> (r: Result<Adr, Error>)
        ensures
            match crate::text::parse_u32_spec(query@) {
                Some(n) => match get_spec(self@.files, n) {
                    Some(a) => r matches Ok(x) && x@ == a,
                    None => r matches Err(Error::AdrNotFound(s)) && s@ == decimal(n as nat),
                },
                None => match fuzzy_find(sort_by_score(scored(records(self@.files), query@))) {
                    None => r matches Err(Error::AdrNotFound(s)) && s@ == query@,
                    Some(Ok(a)) => r matches Ok(x) && x@ == a,
                    Some(Err(titles)) => r matches Err(Error::AmbiguousAdr { query: q, matches }) && q@
                        == query@ && matches@.map_values(|t: String| t@) == titles,
                },
            },
    {
        match crate::text::parse_u32_str(query) {
            Some(n) => return self.get(n),
            None => {},
        }
        let ghost rs = records(files_view(self.files@));
        // The matching records (by index) with their scores, best first.
        let mut ms: Vec<(usize, i64)> = Vec::new();
        let ghost mut all: Seq<(AdrV, i64)> = seq![];
        let mut i: usize = 0;
        proof {
            assert(rs.take(0) =~= Seq::<AdrV>::empty());
            assert(ms@.map_values(|m: (usize, i64)| (rs[m.0 as int], m.1)) =~= sort_by_score(all));
        }
        while i < self.files.len()
            invariant
                i <= self.files@.len(),
                rs == records(files_view(self.files@)),
                all == scored(rs.take(i as int), query@),
                forall|k: int| 0 <= k < ms@.len() ==> (#[trigger] ms@[k]).0 < i,
                ms@.map_values(|m: (usize, i64)| (rs[m.0 as int], m.1)) == sort_by_score(all),
            decreases self.files@.len() - i,
        {
            proof {
                assert(rs.take(i + 1).drop_last() =~= rs.take(i as int));
                assert(rs.take(i + 1).last() == rs[i as int]);
                assert(rs[i as int] == self.files@[i as int].adr@);
            }
            match fuzzy_match(self.files[i].adr.title.as_str(), query) {
                Some(sc) => {
                    let ghost mv = ms@.map_values(|m: (usize, i64)| (rs[m.0 as int], m.1));
                    let mut pos: usize = ms.len();
                    while pos > 0 && ms[pos - 1].1 < sc
                        invariant
                            pos <= ms@.len(),
                            mv == ms@.map_values(|m: (usize, i64)| (rs[m.0 as int], m.1)),
                            forall|k: int| pos <= k < mv.len() ==> (#[trigger] mv[k]).1 < sc,
                        decreases pos,
                    {
                        pos -= 1;
                    }
                    proof {
                        lemma_insert_by_score_at(mv, (rs[i as int], sc), pos as int);
                        all = all.push((rs[i as int], sc));
                        assert(all.drop_last() =~= scored(rs.take(i as int), query@));
                    }
                    ms.insert(pos, (i, sc));
                    proof {
                        assert(ms@.map_values(|m: (usize, i64)| (rs[m.0 as int], m.1)) =~= mv.insert(
                            pos as int,
                            (rs[i as int], sc),
                        ));
                    }
                },
                None => {},
            }
            i += 1;
        }
        proof {
            assert(rs.take(self.files@.len() as int) =~= rs);
        }
        let ghost mv = ms@.map_values(|m: (usize, i64)| (rs[m.0 as int], m.1));
        if ms.len() == 0 {
            return Err(Error::AdrNotFound(owned(query)));
        }
        let best = ms[0].0;
        if ms.len() == 1 || (ms[0].1 as i128) > (ms[1].1 as i128) * 2 {
            proof {
                assert(mv[0] == (rs[best as int], ms@[0].1));
            }
            return Ok(self.files[best].adr.clone());
        }
        let take = if ms.len() < 5 { ms.len() } else { 5 };
        let mut titles: Vec<String> = Vec::new();
        let mut k: usize = 0;
        while k < take
            invariant
                k <= take <= ms@.len(),
                rs == records(files_view(self.files@)),
                forall|j: int| 0 <= j < ms@.len() ==> (#[trigger] ms@[j]).0 < self.files@.len(),
                mv == ms@.map_values(|m: (usize, i64)| (rs[m.0 as int], m.1)),
                titles@.map_values(|t: String| t@) == match_titles(mv, k as int),
            decreases take - k,
        {
            let idx = ms[k].0;
            let t = clone_string(&self.files[idx].adr.title);
            let ghost before = titles@;
            titles.push(t);
            proof {
                assert(mv[k as int].0 == rs[idx as int]);
                assert(rs[idx as int] == self.files@[idx as int].adr@);
                assert(t@ == mv[k as int].0.title);
                assert(mv.take(k + 1) =~= mv.take(k as int).push(mv[k as int]));
                assert(match_titles(mv, k + 1) =~= match_titles(mv, k as int).push(t@));
                assert(titles@.map_values(|t: String| t@) =~= before.map_values(|t: String| t@).push(t@));
                assert(titles@.map_values(|t: String| t@) =~= match_titles(mv, k + 1));
            }
            k += 1;
        }
        Err(Error::AmbiguousAdr { query: owned(query), matches: titles })
    }
}


// ---------------------------------------------------------------------------
// Metadata blocks
// ---------------------------------------------------------------------------
/// The frontmatter name of a link kind.
pub open spec fn yaml_kind(k: LinkKindV) -> Seq<char> {
    match k {
        LinkKindV::Supersedes => "supersedes"@,
        LinkKindV::SupersededBy => "supersededby"@,
        LinkKindV::Amends => "amends"@,
        LinkKindV::AmendedBy => "amendedby"@,
        LinkKindV::RelatesTo => "relatesto"@,
        LinkKindV::Custom(c) => c,
    }
}

/// The `description:` line of a link entry (empty when it has none).
pub open spec fn description_yaml(d: Option<Seq<char>>) -> Seq<char> {
    match d {
        Some(t) => "    description: "@ + t + "\n"@,
        None => seq![],
    }
}

pub open spec fn link_items(links: Seq<AdrLinkV>) -> Seq<char>
    decreases links.len(),
{
    if links.len() == 0 {
        seq![]
    } else {
        link_items(links.drop_last()) + "  - target: "@ + decimal(links.last().target as nat)
            + "\n    kind: "@ + yaml_kind(links.last().kind) + "\n"@ + description_yaml(links.last().description)
    }
}

/// The `links:` block of a frontmatter (empty when there are no links).
pub open spec fn links_yaml(links: Seq<AdrLinkV>) -> Seq<char> {
    if links.len() == 0 {
        seq![]
    } else {
        "links:\n"@ + link_items(links)
    }
}

pub open spec fn tag_items(tags: Seq<Seq<char>>) -> Seq<char>
    decreases tags.len(),
{
    if tags.len() == 0 {
        seq![]
    } else {
        tag_items(tags.drop_last()) + "  - "@ + tags.last() + "\n"@
    }
}

/// The `tags:` block of a frontmatter (empty when there are no tags).
pub open spec fn tags_yaml(tags: Seq<Seq<char>>) -> Seq<char> {
    if tags.len() == 0 {
        seq![]
    } else {
        "tags:\n"@ + tag_items(tags)
    }
}

fn kind_yaml(k: &LinkKind) -> (r: String)
    ensures
        r@ == yaml_kind(k@),
{
    match k {
        LinkKind::Supersedes => owned("supersedes"),
        LinkKind::SupersededBy => owned("supersededby"),
        LinkKind::Amends => owned("amends"),
        LinkKind::AmendedBy => owned("amendedby"),
        LinkKind::RelatesTo => owned("relatesto"),
        LinkKind::Custom(c) => clone_string(c),
    }
}

impl Repository {
    /// Format links as YAML block for frontmatter insertion.
    pub fn format_links_yaml(links: &Vec<AdrLink>) -> (r: String)
        ensures
            r@ == links_yaml(links_view(links@)),
    {
        let ghost lv = links_view(links@);
        if links.len() == 0 {
            return String::new();
        }
        let mut out: Vec<char> = Vec::new();
        push_str_chars(&mut out, "links:\n");
        let ghost start = out@;
        let mut i: usize = 0;
        proof {
            assert(lv.take(0) =~= Seq::<AdrLinkV>::empty());
            assert(start + link_items(lv.take(0)) =~= start);
        }
        while i < links.len()
            invariant
                i <= links@.len(),
                lv == links_view(links@),
                start == "links:\n"@,
                out@ == start + link_items(lv.take(i as int)),
            decreases links@.len() - i,
        {
            proof {
                assert(lv.take(i + 1).drop_last() =~= lv.take(i as int));
                assert(lv.take(i + 1).last() == links@[i as int]@);
            }
            push_str_chars(&mut out, "  - target: ");
            let d = decimal_chars(links[i].target);
            push_all(&mut out, d.as_slice());
            push_str_chars(&mut out, "\n    kind: ");
            let k = kind_yaml(&links[i].kind);
            push_str_chars(&mut out, k.as_str());
            push_str_chars(&mut out, "\n");
            match &links[i].description {
                Some(t) => {
                    push_str_chars(&mut out, "    description: ");
                    push_str_chars(&mut out, t.as_str());
                    push_str_chars(&mut out, "\n");
                },
                None => {},
            }
            i += 1;
        }
        proof {
            assert(lv.take(links@.len() as int) =~= lv);
        }
        string_from(out.as_slice())
    }

    /// Format tags as YAML block for frontmatter insertion.
    pub fn format_tags_yaml(tags: &Vec<String>) -> (r: String)
        ensures
            r@ == tags_yaml(strings_view(tags@)),
    {
        let ghost tv = strings_view(tags@);
        if tags.len() == 0 {
            return String::new();
        }
        let mut out: Vec<char> = Vec::new();
        push_str_chars(&mut out, "tags:\n");
        let ghost start = out@;
        let mut i: usize = 0;
        proof {
            assert(tv.take(0) =~= Seq::<Seq<char>>::empty());
            assert(start + tag_items(tv.take(0)) =~= start);
        }
        while i < tags.len()
            invariant
                i <= tags@.len(),
                tv == strings_view(tags@),
                start == "tags:\n"@,
                out@ == start + tag_items(tv.take(i as int)),
            decreases tags@.len() - i,
        {
            proof {
                assert(tv.take(i + 1).drop_last() =~= tv.take(i as int));
                assert(tv.take(i + 1).last() == tags@[i as int]@);
            }
            push_str_chars(&mut out, "  - ");
            push_str_chars(&mut out, tags[i].as_str());
            push_str_chars(&mut out, "\n");
            i += 1;
        }
        proof {
            assert(tv.take(tags@.len() as int) =~= tv);
        }
        string_from(out.as_slice())
    }
}

// ---------------------------------------------------------------------------
// Frontmatter metadata
// ---------------------------------------------------------------------------
/// The status line of a frontmatter.
pub open spec fn fm_status_pattern() -> Seq<char> {
    "(?m)^status:\\s*.*$"@
}

/// The links block of a frontmatter (multi-line).
pub open spec fn fm_links_pattern() -> Seq<char> {
    "(?m)^links:\\n(?:(?:  .+\\n)*)"@
}

/// The tags block of a frontmatter (multi-line).
pub open spec fn fm_tags_pattern() -> Seq<char> {
    "(?m)^tags:\\n(?:(?:  .+\\n)*)"@
}

/// Where the frontmatter ends in the text after the opening `---\n`: at a
/// `\n---\n`, or at a final `\n---`.
pub open spec fn frontmatter_end(rest: Seq<char>) -> Option<int> {
    match find_from_spec(rest, "\n---\n"@, 0) {
        Some(i) => Some(i),
        None => if ends_with_spec(rest, "\n---"@) {
            Some(rest.len() - 3)
        } else {
            None
        },
    }
}

/// A block replaced where the pattern matches, else appended (on a line of
/// its own) when it is not empty.
pub open spec fn replace_or_append(pattern: Seq<char>, yaml: Seq<char>, block: Seq<char>) -> Seq<char> {
    if regex_is_match(pattern, yaml) {
        regex_replace_first(pattern, yaml, block)
    } else if block.len() > 0 {
        (if ends_with_spec(yaml, "\n"@) {
            yaml
        } else {
            yaml.push('\n')
        }) + block
    } else {
        yaml
    }
}

/// The frontmatter with its status line, links block and tags block
/// replaced.
pub open spec fn updated_yaml(a: AdrV, yaml: Seq<char>) -> Seq<char> {
    let y1 = regex_replace_first(
        fm_status_pattern(),
        yaml,
        "status: "@ + lowercase(status_text(a.status)),
    );
    let y2 = replace_or_append(fm_links_pattern(), y1, links_yaml(a.links));
    replace_or_append(fm_tags_pattern(), y2, tags_yaml(a.tags))
}

/// What updating a frontmatter file's metadata gives: the file with only
/// the `status:`, `links:` and `tags:` entries of its frontmatter replaced.
pub open spec fn frontmatter_update(a: AdrV, content: Seq<char>) -> Result<Seq<char>, Seq<char>> {
    match strip_prefix_spec(content, "---\n"@) {
        None => Err("Missing opening frontmatter delimiter"@),
        Some(rest) => match frontmatter_end(rest) {
            None => Err("Missing closing frontmatter delimiter"@),
            Some(e) => Ok(
                "---\n"@ + updated_yaml(a, rest.subrange(0, e + 1)) + rest.subrange(e + 1, rest.len() as int),
            ),
        },
    }
}

pub open spec fn patterns_valid() -> bool {
    regex_valid(fm_status_pattern()) && regex_valid(fm_links_pattern()) && regex_valid(fm_tags_pattern())
}

/// What updating a file's metadata gives: the new text, or why it fails
/// (`None` when the frontmatter patterns themselves do not compile).
pub open spec fn metadata_outcome(fs: Seq<AdrFileV>, a: AdrV, content: Seq<char>) -> Result<Seq<char>, Option<Seq<char>>> {
    match metadata_update(fs, a, content) {
        Ok(t) => if starts_with_spec(content, "---\n"@) && !patterns_valid() {
            Err(None)
        } else {
            Ok(t)
        },
        Err(m) => Err(Some(m)),
    }
}

/// An error that `metadata_outcome` describes.
pub open spec fn metadata_error<T>(r: Result<T, Error>, why: Option<Seq<char>>) -> bool {
    r matches Err(Error::InvalidFormat { reason, .. }) && (why matches Some(m) ==> reason@ == m)
}

fn invalid_format(reason: &str) -> (r: Error)
    ensures
        r matches Error::InvalidFormat { path, reason: m } && path@ == Seq::<char>::empty() && m@ == reason@,
{
    Error::InvalidFormat { path: String::new(), reason: owned(reason) }
}

fn replace_or_append_exec(p: &Pattern, yaml: String, block: &String) -> (r: String)
    ensures
        r@ == replace_or_append(p.source(), yaml@, block@),
{
    if is_match(p, yaml.as_str()) {
        replace_first(p, yaml.as_str(), block.as_str())
    } else if block.as_str().is_empty() {
        yaml
    } else {
        let mut s = chars_of(yaml.as_str());
        if !ends_with_str(s.as_slice(), "\n") {
            s.push('\n');
        }
        push_str_chars(&mut s, block.as_str());
        string_from(s.as_slice())
    }
}

impl Repository {
    /// Surgically update metadata fields in a YAML frontmatter file.
    ///
    /// Replaces only `status:`, `links:`, and `tags:` blocks in the frontmatter.
    /// YAML comments, unknown fields, and the entire markdown body are
    /// preserved untouched.
    pub fn update_frontmatter_metadata(adr: &Adr, content: &str) -> (r: Result<String, Error>)
        ensures
            match frontmatter_update(adr@, content@) {
                Ok(t) => if patterns_valid() {
                    r matches Ok(s) && s@ == t
                } else {
                    r matches Err(Error::InvalidFormat { .. })
                },
                Err(m) => r matches Err(Error::InvalidFormat { path, reason }) && path@
                    == Seq::<char>::empty() && reason@ == m,
            },
    {
        let cs = chars_of(content);
        let rest = match strip_prefix(cs.as_slice(), "---\n") {
            Some(r) => r,
            None => return Err(invalid_format("Missing opening frontmatter delimiter")),
        };
        let delim = chars_of("\n---\n");
        let end_idx = match find_from(rest.as_slice(), delim.as_slice(), 0) {
            Some(i) => {
                proof {
                    reveal_strlit("\n---\n");
                    crate::text::lemma_find_from(rest@, delim@, 0);
                    assert(delim@.len() == 5);
                    assert(occurs_at(rest@, delim@, i as int));
                    assert(i + 5 <= rest@.len());
                }
                i
            },
            None => {
                if ends_with_str(rest.as_slice(), "\n---") {
                    proof {
                        reveal_strlit("\n---");
                        assert("\n---"@.len() == 4);
                    }
                    rest.len() - 3
                } else {
                    return Err(invalid_format("Missing closing frontmatter delimiter"));
                }
            },
        };
        proof {
            reveal_strlit("\n---\n");
            crate::text::lemma_find_from(rest@, delim@, 0);
        }
        assert(end_idx < rest@.len());
        let rlen = rest.len();
        assert(end_idx < rlen);
        let e1: usize = end_idx + 1;
        let yaml_block = string_from(slice_vec(rest.as_slice(), 0, e1).as_slice());
        let after_yaml = slice_vec(rest.as_slice(), e1, rest.len());
        let status_re = match compile("(?m)^status:\\s*.*$") {
            Some(p) => p,
            None => return Err(invalid_format("invalid status pattern")),
        };
        let links_re = match compile("(?m)^links:\\n(?:(?:  .+\\n)*)") {
            Some(p) => p,
            None => return Err(invalid_format("invalid links pattern")),
        };
        let tags_re = match compile("(?m)^tags:\\n(?:(?:  .+\\n)*)") {
            Some(p) => p,
            None => return Err(invalid_format("invalid tags pattern")),
        };
        let st = adr.status.to_string();
        let lower = to_lowercase(st.as_str());
        let mut ns: Vec<char> = Vec::new();
        push_str_chars(&mut ns, "status: ");
        push_str_chars(&mut ns, lower.as_str());
        let new_status = string_from(ns.as_slice());
        let y1 = replace_first(&status_re, yaml_block.as_str(), new_status.as_str());
        let links_yaml = Self::format_links_yaml(&adr.links);
        let y2 = replace_or_append_exec(&links_re, y1, &links_yaml);
        let tags_yaml = Self::format_tags_yaml(&adr.tags);
        let y3 = replace_or_append_exec(&tags_re, y2, &tags_yaml);
        let mut out: Vec<char> = Vec::new();
        push_str_chars(&mut out, "---\n");
        push_str_chars(&mut out, y3.as_str());
        push_all(&mut out, after_yaml.as_slice());
        Ok(string_from(out.as_slice()))
    }
}


// ---------------------------------------------------------------------------
// Legacy metadata
// ---------------------------------------------------------------------------
/// The index of the first line satisfying `p`, or -1.
pub open spec fn first_index(ls: Seq<Seq<char>>, p: spec_fn(Seq<char>) -> bool) -> int
    decreases ls.len(),
{
    if ls.len() == 0 {
        -1
    } else {
        let k = first_index(ls.drop_last(), p);
        if k >= 0 {
            k
        } else if p(ls.last()) {
            ls.len() - 1
        } else {
            -1
        }
    }
}

proof fn lemma_first_index(ls: Seq<Seq<char>>, p: spec_fn(Seq<char>) -> bool, i: int)
    requires
        0 <= i <= ls.len(),
        forall|k: int| 0 <= k < i ==> !p(#[trigger] ls[k]),
        i < ls.len() ==> p(ls[i]),
    ensures
        first_index(ls, p) == if i < ls.len() { i } else { -1 },
    decreases ls.len(),
{
    if ls.len() > 0 {
        if i < ls.len() - 1 {
            lemma_first_index(ls.drop_last(), p, i);
        } else if i == ls.len() - 1 {
            assert forall|k: int| 0 <= k < ls.drop_last().len() implies !p(#[trigger] ls.drop_last()[k]) by {
                assert(ls.drop_last()[k] == ls[k]);
            }
            lemma_first_index(ls.drop_last(), p, ls.len() - 1);
        } else {
            assert forall|k: int| 0 <= k < ls.drop_last().len() implies !p(#[trigger] ls.drop_last()[k]) by {
                assert(ls.drop_last()[k] == ls[k]);
            }
            lemma_first_index(ls.drop_last(), p, ls.len() - 1);
        }
    }
}

pub open spec fn is_status_heading(l: Seq<char>) -> bool {
    eq_ignore_ascii_case_spec(trim_spec(l), "## Status"@)
}

pub open spec fn is_h2_line(l: Seq<char>) -> bool {
    starts_with_spec(l, "## "@)
}

/// The lines, each followed by a newline.
pub open spec fn lines_text(ls: Seq<Seq<char>>) -> Seq<char>
    decreases ls.len(),
{
    if ls.len() == 0 {
        seq![]
    } else {
        lines_text(ls.drop_last()) + ls.last() + "\n"@
    }
}

/// A link line of the status section: its kind, target, and the target's
/// title and file name when the target exists.
pub open spec fn link_line(l: AdrLinkV, fs: Seq<AdrFileV>) -> Seq<char> {
    link_kind_text(l.kind) + " ["@ + decimal(l.target as nat) + ". "@ + match get_spec(fs, l.target) {
        Some(a) => a.title + "]("@ + filename_spec(a.number, a.title) + ")"@,
        None => "...]("@ + padded_decimal(l.target as nat, 4) + "-....md)"@,
    }
}

pub open spec fn link_lines(links: Seq<AdrLinkV>, fs: Seq<AdrFileV>) -> Seq<char>
    decreases links.len(),
{
    if links.len() == 0 {
        seq![]
    } else {
        link_lines(links.drop_last(), fs) + "\n"@ + link_line(links.last(), fs) + "\n"@
    }
}

/// Lines `j..k`, each followed by a newline except the very last line of
/// the file when the file does not end with one.
pub open spec fn tail_text(ls: Seq<Seq<char>>, j: int, k: int, nl: bool) -> Seq<char>
    decreases k - j,
{
    if k <= j {
        seq![]
    } else {
        tail_text(ls, j, k - 1, nl) + ls[k - 1] + if k - 1 < ls.len() - 1 || nl {
            "\n"@
        } else {
            seq![]
        }
    }
}

/// What updating a legacy file's metadata gives: the text between
/// `## Status` and the next `## ` heading replaced by the status and a line
/// per link; the file unchanged when it has no status section.
pub open spec fn legacy_update(a: AdrV, content: Seq<char>, fs: Seq<AdrFileV>) -> Seq<char> {
    let ls = lines_spec(content);
    let si = first_index(ls, |l: Seq<char>| is_status_heading(l));
    if si < 0 {
        content
    } else {
        let rest = ls.skip(si + 1);
        let nh = first_index(rest, |l: Seq<char>| is_h2_line(l));
        lines_text(ls.take(si + 1)) + "\n"@ + status_text(a.status) + "\n"@ + link_lines(a.links, fs)
            + if nh >= 0 {
            "\n"@ + tail_text(ls, si + 1 + nh, ls.len() as int, ends_with_spec(content, "\n"@))
        } else {
            seq![]
        }
    }
}

impl Repository {
    fn link_line_text(&self, link: &AdrLink) -> (r: Vec<char>)
        ensures
            r@ == link_line(link@, self@.files),
    {
        let mut out: Vec<char> = Vec::new();
        let k = link.kind.to_string();
        push_str_chars(&mut out, k.as_str());
        push_str_chars(&mut out, " [");
        let d = decimal_chars(link.target);
        push_all(&mut out, d.as_slice());
        push_str_chars(&mut out, ". ");
        match self.get(link.target) {
            Ok(a) => {
                push_str_chars(&mut out, a.title.as_str());
                push_str_chars(&mut out, "](");
                let f = a.filename();
                push_str_chars(&mut out, f.as_str());
                push_str_chars(&mut out, ")");
            },
            Err(_) => {
                push_str_chars(&mut out, "...](");
                let p = padded_decimal_chars(link.target, 4);
                push_all(&mut out, p.as_slice());
                push_str_chars(&mut out, "-....md)");
            },
        }
        out
    }

    /// Surgically update metadata in a legacy (no-frontmatter) ADR file.
    ///
    /// Replaces the content between `## Status` and the next `## ` heading
    /// with the new status and link lines. All other sections pass through
    /// untouched.
    pub fn update_legacy_metadata(&self, adr: &Adr, content: &str) -> (r: String)
        ensures
            r@ == legacy_update(adr@, content@, self@.files),
    {
        let cs = chars_of(content);
        let ls = lines(cs.as_slice());
        let ghost lv = ls@.map_values(|l: Vec<char>| l@);
        let ghost ps = |l: Seq<char>| is_status_heading(l);
        let mut si: usize = 0;
        let mut found = false;
        while si < ls.len()
            invariant_except_break
                !found,
            invariant
                si <= ls@.len(),
                lv == ls@.map_values(|l: Vec<char>| l@),
                forall|k: int| 0 <= k < si ==> !is_status_heading(#[trigger] lv[k]),
            ensures
                found ==> si < ls@.len() && is_status_heading(lv[si as int]),
                !found ==> si == ls@.len(),
            decreases ls@.len() - si,
        {
            let t = trim(ls[si].as_slice());
            if eq_ignore_ascii_case(t.as_slice(), "## Status") || eq_ignore_ascii_case(t.as_slice(), "## STATUS") {
                proof {
                    reveal_strlit("## Status");
                    reveal_strlit("## STATUS");
                    assert(crate::text::ascii_lower_seq("## STATUS"@) =~= crate::text::ascii_lower_seq("## Status"@));
                    assert(is_status_heading(lv[si as int]));
                }
                found = true;
                break;
            }
            proof {
                reveal_strlit("## Status");
                reveal_strlit("## STATUS");
                assert(crate::text::ascii_lower_seq("## STATUS"@) =~= crate::text::ascii_lower_seq("## Status"@));
            }
            si += 1;
        }
        proof {
            assert forall|k: int| 0 <= k < si implies !ps(#[trigger] lv[k]) by {}
            if found {
                assert(ps(lv[si as int]));
            }
            lemma_first_index(lv, ps, si as int);
            assert(lv == lines_spec(content@));
        }
        if !found {
            return owned(content);
        }
        let mut out: Vec<char> = Vec::new();
        let mut i: usize = 0;
        proof {
            assert(lv.take(0) =~= Seq::<Seq<char>>::empty());
        }
        let nlines = ls.len();
        assert(si < nlines);
        let end: usize = si + 1;
        while i < end
            invariant
                i <= end,
                end == si + 1,
                si < ls@.len(),
                lv == ls@.map_values(|l: Vec<char>| l@),
                out@ == lines_text(lv.take(i as int)),
            decreases end - i,
        {
            proof {
                assert(lv.take(i + 1).drop_last() =~= lv.take(i as int));
                assert(lv.take(i + 1).last() == ls@[i as int]@);
            }
            push_all(&mut out, ls[i].as_slice());
            push_str_chars(&mut out, "\n");
            i += 1;
        }
        push_str_chars(&mut out, "\n");
        let st = adr.status.to_string();
        push_str_chars(&mut out, st.as_str());
        push_str_chars(&mut out, "\n");
        let ghost before_links = out@;
        let ghost lk = adr@.links;
        let mut k: usize = 0;
        proof {
            assert(lk.take(0) =~= Seq::<AdrLinkV>::empty());
            assert(before_links + link_lines(lk.take(0), self@.files) =~= before_links);
        }
        while k < adr.links.len()
            invariant
                k <= adr.links@.len(),
                lk == adr@.links,
                out@ == before_links + link_lines(lk.take(k as int), self@.files),
            decreases adr.links@.len() - k,
        {
            proof {
                assert(lk.take(k + 1).drop_last() =~= lk.take(k as int));
                assert(lk.take(k + 1).last() == adr.links@[k as int]@);
            }
            push_str_chars(&mut out, "\n");
            let line = self.link_line_text(&adr.links[k]);
            push_all(&mut out, line.as_slice());
            push_str_chars(&mut out, "\n");
            k += 1;
        }
        proof {
            assert(lk.take(adr.links@.len() as int) =~= lk);
        }
        // The next `## ` heading after the status heading.
        let ghost rest = lv.skip(si + 1);
        let ghost ph = |l: Seq<char>| is_h2_line(l);
        let mut nh: usize = si + 1;
        let mut has_next = false;
        while nh < ls.len()
            invariant_except_break
                !has_next,
            invariant
                si + 1 <= nh <= ls@.len(),
                lv == ls@.map_values(|l: Vec<char>| l@),
                rest == lv.skip(si + 1),
                forall|k: int| si + 1 <= k < nh ==> !is_h2_line(#[trigger] lv[k]),
            ensures
                has_next ==> nh < ls@.len() && is_h2_line(lv[nh as int]),
                !has_next ==> nh == ls@.len(),
            decreases ls@.len() - nh,
        {
            if starts_with_str(ls[nh].as_slice(), "## ") {
                proof {
                    assert(is_h2_line(lv[nh as int]));
                }
                has_next = true;
                break;
            }
            nh += 1;
        }
        proof {
            assert forall|k: int| 0 <= k < nh - (si + 1) implies !ph(#[trigger] rest[k]) by {
                assert(rest[k] == lv[k + si + 1]);
            }
            if has_next {
                assert(rest[nh - (si + 1)] == lv[nh as int]);
            }
            lemma_first_index(rest, ph, nh - (si + 1));
        }
        if has_next {
            let nl = ends_with_str(cs.as_slice(), "\n");
            push_str_chars(&mut out, "\n");
            let ghost before_tail = out@;
            let mut j: usize = nh;
            proof {
                assert(before_tail + tail_text(lv, nh as int, nh as int, nl) =~= before_tail);
            }
            while j < ls.len()
                invariant
                    nh <= j <= ls@.len(),
                    lv == ls@.map_values(|l: Vec<char>| l@),
                    out@ == before_tail + tail_text(lv, nh as int, j as int, nl),
                decreases ls@.len() - j,
            {
                push_all(&mut out, ls[j].as_slice());
                if j < ls.len() - 1 || nl {
                    push_str_chars(&mut out, "\n");
                }
                j += 1;
                proof {
                    assert(out@ =~= before_tail + tail_text(lv, nh as int, j as int, nl));
                }
            }
        } else {
            proof {
                assert(out@ + Seq::<char>::empty() =~= out@);
            }
        }
        string_from(out.as_slice())
    }
}


// ---------------------------------------------------------------------------
// Changing the files
// ---------------------------------------------------------------------------
/// What updating the metadata of a file gives: the frontmatter update for a
/// file that starts with `---\n`, else the legacy update.
pub open spec fn metadata_update(fs: Seq<AdrFileV>, a: AdrV, content: Seq<char>) -> Result<Seq<char>, Seq<char>> {
    if starts_with_spec(content, "---\n"@) {
        frontmatter_update(a, content)
    } else {
        Ok(legacy_update(a, content, fs))
    }
}

/// The record with its status set; a superseding ADR also gets a
/// "Superseded by" link, unless it already has that exact link.
pub open spec fn with_status(a: AdrV, s: StatusV, by: Option<u32>) -> AdrV {
    let a1 = AdrV { status: s, ..a };
    match (s, by) {
        (StatusV::Superseded, Some(b)) => if has_link(a1.links, LinkKindV::SupersededBy, b) {
            a1
        } else {
            AdrV {
                links: a1.links.push(AdrLinkV { target: b, kind: LinkKindV::SupersededBy, description: None }),
                ..a1
            }
        },
        _ => a1,
    }
}

pub open spec fn has_link(links: Seq<AdrLinkV>, kind: LinkKindV, target: u32) -> bool {
    exists|k: int| 0 <= k < links.len() && #[trigger] links[k].kind == kind && links[k].target == target
}

/// The record with one more link.
pub open spec fn with_link(a: AdrV, target: u32, kind: LinkKindV) -> AdrV {
    AdrV { links: a.links.push(AdrLinkV { target, kind, description: None }), ..a }
}

/// The first index of a file at path `p`, or -1.
pub open spec fn index_of_path(fs: Seq<AdrFileV>, p: Seq<char>) -> int
    decreases fs.len(),
{
    if fs.len() == 0 {
        -1
    } else {
        let k = index_of_path(fs.drop_last(), p);
        if k >= 0 {
            k
        } else if fs.last().path == p {
            fs.len() - 1
        } else {
            -1
        }
    }
}

proof fn lemma_index_of_path(fs: Seq<AdrFileV>, p: Seq<char>)
    ensures
        -1 <= index_of_path(fs, p) < fs.len(),
        index_of_path(fs, p) >= 0 ==> fs[index_of_path(fs, p)].path == p,
        forall|k: int| 0 <= k < fs.len() && (index_of_path(fs, p) == -1 || k < index_of_path(fs, p)) ==> #[trigger] fs[k].path != p,
    decreases fs.len(),
{
    if fs.len() > 0 {
        lemma_index_of_path(fs.drop_last(), p);
        assert forall|k: int| 0 <= k < fs.len() - 1 implies fs.drop_last()[k] == #[trigger] fs[k] by {}
    }
}

/// The files after writing `f`: an existing file at the same path with the
/// same number is replaced in place; one with another number is removed
/// and `f` placed by its number; a new path is placed by its number.
pub open spec fn stored(fs: Seq<AdrFileV>, f: AdrFileV) -> Seq<AdrFileV> {
    let k = index_of_path(fs, f.path);
    if k >= 0 && fs[k].adr.number == f.adr.number {
        fs.update(k, f)
    } else if k >= 0 {
        insert_by_number(fs.remove(k), f)
    } else {
        insert_by_number(fs, f)
    }
}

/// A file holding `a` and `content` at `path`, its record carrying the path.
pub open spec fn file_at(path: Seq<char>, a: AdrV, content: Seq<char>) -> AdrFileV {
    AdrFileV { path, adr: AdrV { path: Some(path), ..a }, content }
}

/// Where an ADR's file is: its path, else its file name in the ADR directory.
pub open spec fn path_of(r: RepositoryV, a: AdrV) -> Seq<char> {
    match a.path {
        Some(p) => p,
        None => join_spec(join_spec(r.root, r.config.adr_dir), filename_spec(a.number, a.title)),
    }
}

proof fn lemma_get_after_update(fs: Seq<AdrFileV>, k: int, f: AdrFileV, n: u32)
    requires
        0 <= k < fs.len(),
        k == first_with_number(fs, n),
        f.adr.number == n,
    ensures
        get_spec(fs.update(k, f), n) == Some(f.adr),
{
    lemma_first_with_number(fs, n);
    let t = fs.update(k, f);
    assert forall|j: int| 0 <= j < k implies !((|l: AdrFileV| l.adr.number == n)(#[trigger] t[j])) by {
        assert(t[j] == fs[j]);
    }
    lemma_first_with_number_at(t, n, k);
}

proof fn lemma_first_with_number_at(fs: Seq<AdrFileV>, n: u32, i: int)
    requires
        0 <= i < fs.len(),
        fs[i].adr.number == n,
        forall|k: int| 0 <= k < i ==> (#[trigger] fs[k]).adr.number != n,
    ensures
        first_with_number(fs, n) == i,
    decreases fs.len(),
{
    if i < fs.len() - 1 {
        assert forall|k: int| 0 <= k < i implies (#[trigger] fs.drop_last()[k]).adr.number != n by {
            assert(fs.drop_last()[k] == fs[k]);
        }
        assert(fs.drop_last()[i] == fs[i]);
        lemma_first_with_number_at(fs.drop_last(), n, i);
    } else {
        lemma_first_with_number(fs.drop_last(), n);
        let d = fs.drop_last();
        let f = first_with_number(d, n);
        if f >= 0 {
            assert(d[f] == fs[f]);
        }
    }
}

impl Repository {
    fn replace_at(&mut self, k: usize, adr: Adr, content: String)
        requires
            k < old(self)@.files.len(),
            adr@.number == old(self)@.files[k as int].adr.number,
            adr@.path == Some(old(self)@.files[k as int].path),
        ensures
            final(self)@ == (RepositoryV {
                files: old(self)@.files.update(
                    k as int,
                    AdrFileV { path: old(self)@.files[k as int].path, adr: adr@, content: content@ },
                ),
                ..old(self)@
            }),
    {
        proof {
            use_type_invariant(&*self);
        }
        let path = clone_string(&self.files[k].path);
        let f = AdrFile { path, adr, content };
        let ghost fv = files_view(self.files@);
        let ghost nv = fv.update(k as int, f@);
        proof {
            assert forall|i: int, j: int| 0 <= i < j < nv.len() implies #[trigger] nv[i].adr.number
                <= #[trigger] nv[j].adr.number by {
                assert(fv[i].adr.number <= fv[j].adr.number);
            }
            assert forall|i: int| 0 <= i < nv.len() implies file_wf(#[trigger] nv[i]) by {
                if i != k {
                    assert(nv[i] == fv[i]);
                }
            }
        }
        let mut files: Vec<AdrFile> = Vec::new();
        std::mem::swap(&mut files, &mut self.files);
        files.set(k, f);
        proof {
            assert(files_view(files@) =~= nv);
        }
        self.files = files;
    }

    fn insert_file(&mut self, f: AdrFile)
        requires
            file_wf(f@),
        ensures
            final(self)@ == (RepositoryV { files: insert_by_number(old(self)@.files, f@), ..old(self)@ }),
    {
        proof {
            use_type_invariant(&*self);
        }
        let ghost fv = files_view(self.files@);
        let pos = insertion_point(&self.files, f.adr.number);
        proof {
            lemma_insert_by_number_at(fv, f@, pos as int);
            lemma_insert_sorted(fv, f@, pos as int);
        }
        let ghost fw = f@;
        let mut files: Vec<AdrFile> = Vec::new();
        std::mem::swap(&mut files, &mut self.files);
        files.insert(pos, f);
        proof {
            assert(files_view(files@) =~= fv.insert(pos as int, fw));
            assert forall|i: int| 0 <= i < files@.len() implies file_wf(#[trigger] files_view(files@)[i]) by {
                if i < pos {
                    assert(files_view(files@)[i] == fv[i]);
                } else if i > pos {
                    assert(files_view(files@)[i] == fv[i - 1]);
                }
            }
        }
        self.files = files;
    }

    fn index_of(&self, path: &String) -> (r: Option<usize>)
        ensures
            match r {
                Some(k) => k as int == index_of_path(self@.files, path@) && k < self@.files.len(),
                None => index_of_path(self@.files, path@) == -1,
            },
    {
        let ghost fv = files_view(self.files@);
        proof {
            lemma_index_of_path(fv, path@);
        }
        let pc = chars_of(path.as_str());
        let mut k: usize = 0;
        while k < self.files.len()
            invariant
                k <= self.files@.len(),
                fv == files_view(self.files@),
                pc@ == path@,
                forall|j: int| 0 <= j < k ==> #[trigger] fv[j].path != path@,
            decreases self.files@.len() - k,
        {
            let fc = chars_of(self.files[k].path.as_str());
            if crate::text::eq_vec(fc.as_slice(), pc.as_slice()) {
                proof {
                    lemma_index_of_path(fv, path@);
                    let f = index_of_path(fv, path@);
                    if f == -1 || f > k {
                        assert(fv[k as int].path != path@);
                    }
                    if 0 <= f < k {
                        assert(fv[f].path != path@);
                    }
                }
                return Some(k);
            }
            k += 1;
        }
        proof {
            let f = index_of_path(fv, path@);
            if f >= 0 {
                assert(fv[f].path != path@);
            }
        }
        None
    }

    /// Writes a file: see `stored`.
    fn put(&mut self, path: String, adr: Adr, content: String)
        ensures
            final(self)@ == (RepositoryV {
                files: stored(old(self)@.files, file_at(path@, adr@, content@)),
                ..old(self)@
            }),
    {
        proof {
            use_type_invariant(&*self);
        }
        let mut adr = adr;
        adr.path = Some(clone_string(&path));
        proof {
            lemma_index_of_path(old(self)@.files, path@);
        }
        match self.index_of(&path) {
            Some(k) => {
                if self.files[k].adr.number == adr.number {
                    self.replace_at(k, adr, content);
                    proof {
                        assert(file_at(path@, old(self)@.files[k as int].adr, content@).path == path@);
                    }
                } else {
                    let mut files: Vec<AdrFile> = Vec::new();
        std::mem::swap(&mut files, &mut self.files);
                    let ghost before = files_view(files@);
                    let _old = files.remove(k);
                    proof {
                        assert(files_view(files@) =~= before.remove(k as int));
                        let nv = files_view(files@);
                        assert forall|i: int, j: int| 0 <= i < j < nv.len() implies #[trigger] nv[i].adr.number
                            <= #[trigger] nv[j].adr.number by {
                            let i0 = if i < k { i } else { i + 1 };
                            let j0 = if j < k { j } else { j + 1 };
                            assert(nv[i] == before[i0] && nv[j] == before[j0]);
                        }
                        assert forall|i: int| 0 <= i < nv.len() implies file_wf(#[trigger] nv[i]) by {
                            let i0 = if i < k { i } else { i + 1 };
                            assert(nv[i] == before[i0]);
                        }
                    }
                    self.files = files;
                    self.insert_file(AdrFile { path, adr, content });
                }
            },
            None => {
                self.insert_file(AdrFile { path, adr, content });
            },
        }
    }
}


// ---------------------------------------------------------------------------
// Operations
// ---------------------------------------------------------------------------
/// What the repository's template engine renders for an ADR.
pub open spec fn rendered(r: RepositoryV, a: AdrV) -> Result<Seq<char>, Seq<char>> {
    jinja_output(
        engine_template(r.engine).name,
        engine_template(r.engine).content,
        render_context(a, r.config.mode == ConfigMode::NextGen),
    )
}

/// Where a new ADR's file goes: its file name in the ADR directory.
pub open spec fn new_path(r: RepositoryV, a: AdrV) -> Seq<char> {
    join_spec(join_spec(r.root, r.config.adr_dir), filename_spec(a.number, a.title))
}

pub open spec fn not_found_message(p: Seq<char>) -> Seq<char> {
    "file not found: "@ + p
}

impl Repository {
    fn path_for(&self, adr: &Adr) -> (r: String)
        ensures
            r@ == path_of(self@, adr@),
    {
        match &adr.path {
            Some(p) => clone_string(p),
            None => {
                let dir = self.adr_path();
                let f = adr.filename();
                join(dir.as_str(), f.as_str())
            },
        }
    }

    fn render(&self, adr: &Adr) -> (r: Result<String, Error>)
        ensures
            render_matches(r, rendered(self@, adr@)),
    {
        self.template_engine.render(adr, &self.config)
    }

    fn metadata_text(&self, adr: &Adr, content: &String) -> (r: Result<String, Error>)
        ensures
            match metadata_outcome(self@.files, adr@, content@) {
                Ok(t) => r matches Ok(s) && s@ == t,
                Err(why) => metadata_error(r, why),
            },
    {
        let cs = chars_of(content.as_str());
        if starts_with_str(cs.as_slice(), "---\n") {
            let r = Self::update_frontmatter_metadata(adr, content.as_str());
            match r {
                Ok(t) => Ok(t),
                Err(Error::InvalidFormat { path, reason }) => Err(Error::InvalidFormat { path, reason }),
                Err(_) => Err(invalid_format("metadata update failed")),
            }
        } else {
            Ok(self.update_legacy_metadata(adr, content.as_str()))
        }
    }

    /// Updates the metadata of the file at index `k` to that of `adr`.
    fn update_metadata_at(&mut self, k: usize, adr: Adr) -> (r: Result<String, Error>)
        requires
            k < old(self)@.files.len(),
            adr@.number == old(self)@.files[k as int].adr.number,
            adr@.path == Some(old(self)@.files[k as int].path),
        ensures
            match metadata_outcome(old(self)@.files, adr@, old(self)@.files[k as int].content) {
                Ok(t) => r matches Ok(p) && p@ == old(self)@.files[k as int].path && final(self)@ == (RepositoryV {
                    files: old(self)@.files.update(
                        k as int,
                        AdrFileV { path: old(self)@.files[k as int].path, adr: adr@, content: t },
                    ),
                    ..old(self)@
                }),
                Err(why) => metadata_error(r, why) && final(self)@ == old(self)@,
            },
    {
        let content = clone_string(&self.files[k].content);
        let path = clone_string(&self.files[k].path);
        match self.metadata_text(&adr, &content) {
            Ok(t) => {
                self.replace_at(k, adr, t);
                Ok(path)
            },
            Err(e) => Err(e),
        }
    }

    /// Change the status of an ADR: the first ADR with the number gets the
    /// status, and, when superseded by an existing ADR, a "Superseded by"
    /// link to it (unless it has one). Only its metadata is rewritten.
    pub fn set_status(&mut self, number: u32, status: AdrStatus, superseded_by: Option<u32>) -> (r: Result<
        String,
        Error,
    >)
        ensures
            get_spec(old(self)@.files, number) is None ==> (r matches Err(Error::AdrNotFound(s)) && s@
                == decimal(number as nat) && final(self)@ == old(self)@),
            get_spec(old(self)@.files, number) matches Some(a) ==> {
                let k = first_with_number(old(self)@.files, number);
                let b = with_status(a, status@, superseded_by);
                if status@ == StatusV::Superseded && superseded_by is Some && get_spec(
                    old(self)@.files,
                    superseded_by->0,
                ) is None {
                    r matches Err(Error::AdrNotFound(s)) && s@ == decimal(superseded_by->0 as nat)
                        && final(self)@ == old(self)@
                } else {
                    match metadata_outcome(old(self)@.files, b, old(self)@.files[k].content) {
                        Ok(t) => r matches Ok(p) && p@ == old(self)@.files[k].path && final(self)@ == (RepositoryV {
                            files: old(self)@.files.update(k, AdrFileV { adr: b, content: t, ..old(self)@.files[k] }),
                            ..old(self)@
                        }),
                        Err(why) => metadata_error(r, why) && final(self)@ == old(self)@,
                    }
                }
            },
    {
        proof {
            use_type_invariant(&*self);
            lemma_first_with_number(self@.files, number);
        }
        let k = match self.index_of_number(number) {
            Some(k) => k,
            None => return Err(Error::AdrNotFound(u32_to_string(number))),
        };
        let mut adr = self.files[k].adr.clone();
        let superseded = match status {
            AdrStatus::Superseded => true,
            _ => false,
        };
        adr.set_status(status);
        if superseded {
            match superseded_by {
                Some(by) => {
                    match self.index_of_number(by) {
                        Some(_) => {},
                        None => return Err(Error::AdrNotFound(u32_to_string(by))),
                    }
                    if !has_link_exec(&adr, by) {
                        adr.add_link(AdrLink::new(by, LinkKind::SupersededBy));
                    }
                },
                None => {},
            }
        }
        proof {
            let fv = files_view(self.files@);
            assert(fv[k as int].adr == get_spec(fv, number)->0);
            assert(file_wf(fv[k as int]));
        }
        self.update_metadata_at(k, adr)
    }

    /// Link two ADRs together: the source gets a link of `source_kind` to
    /// the target and the target one of `target_kind` back.
    pub fn link(&mut self, source: u32, target: u32, source_kind: LinkKind, target_kind: LinkKind) -> (r: Result<
        (),
        Error,
    >)
        ensures
            get_spec(old(self)@.files, source) is None ==> (r matches Err(Error::AdrNotFound(s)) && s@
                == decimal(source as nat) && final(self)@ == old(self)@),
            get_spec(old(self)@.files, source) is Some && get_spec(old(self)@.files, target) is None
                ==> (r matches Err(Error::AdrNotFound(s)) && s@ == decimal(target as nat) && final(self)@
                == old(self)@),
            get_spec(old(self)@.files, source) is Some && get_spec(old(self)@.files, target) is Some ==> {
                let a = get_spec(old(self)@.files, source)->0;
                let b = get_spec(old(self)@.files, target)->0;
                let ks = first_with_number(old(self)@.files, source);
                let kt = first_with_number(old(self)@.files, target);
                let a1 = with_link(a, target, source_kind@);
                let b1 = with_link(b, source, target_kind@);
                match metadata_outcome(old(self)@.files, a1, old(self)@.files[ks].content) {
                    Err(why) => metadata_error(r, why) && final(self)@ == old(self)@,
                    Ok(t1) => {
                        let mid = old(self)@.files.update(ks, AdrFileV { adr: a1, content: t1, ..old(self)@.files[ks] });
                        match metadata_outcome(mid, b1, mid[kt].content) {
                            Ok(t2) => r is Ok && final(self)@ == (RepositoryV {
                                files: mid.update(kt, AdrFileV { adr: b1, content: t2, ..mid[kt] }),
                                ..old(self)@
                            }),
                            Err(why) => metadata_error(r, why) && final(self)@ == (RepositoryV { files: mid, ..old(self)@ }),
                        }
                    },
                }
            },
    {
        proof {
            use_type_invariant(&*self);
            lemma_first_with_number(self@.files, source);
            lemma_first_with_number(self@.files, target);
        }
        let ks = match self.index_of_number(source) {
            Some(k) => k,
            None => return Err(Error::AdrNotFound(u32_to_string(source))),
        };
        let kt = match self.index_of_number(target) {
            Some(k) => k,
            None => return Err(Error::AdrNotFound(u32_to_string(target))),
        };
        let mut source_adr = self.files[ks].adr.clone();
        let mut target_adr = self.files[kt].adr.clone();
        source_adr.add_link(AdrLink::new(target, source_kind));
        target_adr.add_link(AdrLink::new(source, target_kind));
        proof {
            let fv = files_view(self.files@);
            assert(file_wf(fv[ks as int]));
            assert(file_wf(fv[kt as int]));
        }
        let ghost before = self@;
        match self.update_metadata_at(ks, source_adr) {
            Ok(_) => {},
            Err(e) => return Err(e),
        }
        proof {
            assert(self@.files[kt as int].adr == before.files[kt as int].adr || kt == ks);
            if kt == ks {
                assert(self@.files[kt as int].path == before.files[kt as int].path);
            }
        }
        match self.update_metadata_at(kt, target_adr) {
            Ok(_) => {},
            Err(e) => return Err(e),
        }
        Ok(())
    }

    /// Create a new ADR: renders it and writes it under its file name in
    /// the ADR directory. Returns the path.
    pub fn create(&mut self, adr: &Adr) -> (r: Result<String, Error>)
        ensures
            match rendered(old(self)@, adr@) {
                Ok(t) => r matches Ok(p) && p@ == new_path(old(self)@, adr@) && final(self)@ == (RepositoryV {
                    files: stored(old(self)@.files, file_at(new_path(old(self)@, adr@), adr@, t)),
                    ..old(self)@
                }),
                Err(m) => r matches Err(Error::TemplateError(e)) && e@ == m && final(self)@ == old(self)@,
            },
    {
        let dir = self.adr_path();
        let f = adr.filename();
        let path = join(dir.as_str(), f.as_str());
        match self.render(adr) {
            Ok(content) => {
                let p = clone_string(&path);
                self.put(path, adr.clone(), content);
                Ok(p)
            },
            Err(e) => Err(e),
        }
    }

    /// Update an existing ADR: renders it again and writes it at its path
    /// (or under its file name in the ADR directory). Returns the path.
    pub fn update(&mut self, adr: &Adr) -> (r: Result<String, Error>)
        ensures
            match rendered(old(self)@, adr@) {
                Ok(t) => r matches Ok(p) && p@ == path_of(old(self)@, adr@) && final(self)@ == (RepositoryV {
                    files: stored(old(self)@.files, file_at(path_of(old(self)@, adr@), adr@, t)),
                    ..old(self)@
                }),
                Err(m) => r matches Err(Error::TemplateError(e)) && e@ == m && final(self)@ == old(self)@,
            },
    {
        let path = self.path_for(adr);
        match self.render(adr) {
            Ok(content) => {
                let p = clone_string(&path);
                self.put(path, adr.clone(), content);
                Ok(p)
            },
            Err(e) => Err(e),
        }
    }

    /// Read the content of an ADR file.
    pub fn read_content(&self, adr: &Adr) -> (r: Result<String, Error>)
        ensures
            ({
                let k = index_of_path(self@.files, path_of(self@, adr@));
                if k >= 0 {
                    r matches Ok(c) && c@ == self@.files[k].content
                } else {
                    r matches Err(Error::Io(m)) && m@ == not_found_message(path_of(self@, adr@))
                }
            }),
    {
        let path = self.path_for(adr);
        match self.index_of(&path) {
            Some(k) => Ok(clone_string(&self.files[k].content)),
            None => Err(Error::Io(not_found(&path))),
        }
    }

    /// Write content to an ADR file. Returns the path.
    pub fn write_content(&mut self, adr: &Adr, content: &str) -> (r: String)
        ensures
            r@ == path_of(old(self)@, adr@),
            final(self)@ == (RepositoryV {
                files: stored(old(self)@.files, file_at(path_of(old(self)@, adr@), adr@, content@)),
                ..old(self)@
            }),
    {
        let path = self.path_for(adr);
        let p = clone_string(&path);
        self.put(path, adr.clone(), owned(content));
        p
    }

    /// Update only the metadata (status, links, tags) of an existing ADR
    /// file, preserving all other content byte-for-byte.
    pub fn update_metadata(&mut self, adr: &Adr) -> (r: Result<String, Error>)
        ensures
            ({
                let p = path_of(old(self)@, adr@);
                let k = index_of_path(old(self)@.files, p);
                if k < 0 {
                    r matches Err(Error::Io(m)) && m@ == not_found_message(p) && final(self)@ == old(self)@
                } else {
                    match metadata_outcome(old(self)@.files, adr@, old(self)@.files[k].content) {
                        Ok(t) => r matches Ok(q) && q@ == p && final(self)@ == (RepositoryV {
                            files: stored(old(self)@.files, file_at(p, adr@, t)),
                            ..old(self)@
                        }),
                        Err(why) => metadata_error(r, why) && final(self)@ == old(self)@,
                    }
                }
            }),
    {
        let path = self.path_for(adr);
        match self.index_of(&path) {
            None => Err(Error::Io(not_found(&path))),
            Some(k) => {
                let content = clone_string(&self.files[k].content);
                match self.metadata_text(adr, &content) {
                    Ok(t) => {
                        let p = clone_string(&path);
                        self.put(path, adr.clone(), t);
                        Ok(p)
                    },
                    Err(e) => Err(e),
                }
            },
        }
    }
}

fn not_found(p: &String) -> (r: String)
    ensures
        r@ == not_found_message(p@),
{
    let mut m: Vec<char> = Vec::new();
    push_str_chars(&mut m, "file not found: ");
    push_str_chars(&mut m, p.as_str());
    string_from(m.as_slice())
}

fn has_link_exec(adr: &Adr, by: u32) -> (r: bool)
    ensures
        r == has_link(adr@.links, LinkKindV::SupersededBy, by),
{
    let ghost lv = adr@.links;
    let mut k: usize = 0;
    while k < adr.links.len()
        invariant
            k <= adr.links@.len(),
            lv == adr@.links,
            forall|j: int| 0 <= j < k ==> !(#[trigger] lv[j].kind == LinkKindV::SupersededBy && lv[j].target == by),
        decreases adr.links@.len() - k,
    {
        let is_sb = match adr.links[k].kind {
            LinkKind::SupersededBy => true,
            _ => false,
        };
        if is_sb && adr.links[k].target == by {
            proof {
                assert(lv[k as int].kind == LinkKindV::SupersededBy && lv[k as int].target == by);
            }
            return true;
        }
        k += 1;
    }
    false
}


proof fn lemma_insert_by_number_contains(s: Seq<AdrFileV>, x: AdrFileV)
    ensures
        exists|i: int| 0 <= i < insert_by_number(s, x).len() && insert_by_number(s, x)[i] == x,
        insert_by_number(s, x).len() == s.len() + 1,
    decreases s.len(),
{
    if s.len() == 0 {
        assert(insert_by_number(s, x)[0] == x);
    } else if s.last().adr.number > x.adr.number {
        lemma_insert_by_number_contains(s.drop_last(), x);
        let t = insert_by_number(s.drop_last(), x);
        let i = choose|i: int| 0 <= i < t.len() && t[i] == x;
        assert(insert_by_number(s, x)[i] == x);
    } else {
        assert(insert_by_number(s, x)[s.len() as int] == x);
    }
}

/// A file written into the repository is among its files afterwards.
pub proof fn law_stored_file_is_present(fs: Seq<AdrFileV>, f: AdrFileV)
    ensures
        exists|i: int| 0 <= i < stored(fs, f).len() && #[trigger] stored(fs, f)[i] == f,
{
    lemma_index_of_path(fs, f.path);
    let k = index_of_path(fs, f.path);
    if k >= 0 && fs[k].adr.number == f.adr.number {
        assert(stored(fs, f)[k] == f);
    } else if k >= 0 {
        lemma_insert_by_number_contains(fs.remove(k), f);
    } else {
        lemma_insert_by_number_contains(fs, f);
    }
}

/// The number the next ADR gets: one past the largest, or 1.
pub open spec fn next_number_spec(fs: Seq<AdrFileV>) -> u32 {
    if fs.len() == 0 {
        1
    } else {
        (fs.last().adr.number + 1) as u32
    }
}

pub open spec fn room_for_next(fs: Seq<AdrFileV>) -> bool {
    fs.len() > 0 ==> fs.last().adr.number < u32::MAX
}

/// The record that `init` creates when the directory holds no ADRs.
pub open spec fn initial_adr(date: Date) -> AdrV {
    AdrV {
        status: StatusV::Accepted,
        context: "We need to record the architectural decisions made on this project."@,
        decision: "We will use Architecture Decision Records, as described by Michael Nygard in his article \"Documenting Architecture Decisions\"."@,
        consequences: "See Michael Nygard's article, linked above. For a lightweight ADR toolset, see Nat Pryce's adr-tools."@,
        ..new_adr_view(1, "Record architecture decisions"@, date)
    }
}

/// The repository `open` gives for a root, a configuration and files.
pub open spec fn opened(root: Seq<char>, c: ConfigV, fs: Seq<AdrFileV>) -> RepositoryV {
    RepositoryV {
        root,
        config: c,
        engine: engine_for(c),
        files: sort_by_number(fs.map_values(|f: AdrFileV| AdrFileV { adr: AdrV { path: Some(f.path), ..f.adr }, ..f })),
    }
}

/// What `supersede` gives when the new ADR is dated `d`: the new ADR, which
/// supersedes `superseded`, is stored first; then the superseded ADR gets
/// the superseded status and a "Superseded by" link, and only its metadata
/// is rewritten. A failure leaves what was stored before it.
pub open spec fn supersede_outcome(
    old: RepositoryV,
    title: Seq<char>,
    superseded: u32,
    d: Date,
    r: Result<(Adr, String), Error>,
    fin: RepositoryV,
) -> bool {
    let n = next_number_spec(old.files);
    let a = with_link(new_adr_view(n, title, d), superseded, LinkKindV::Supersedes);
    match rendered(old, a) {
        Err(m) => r matches Err(Error::TemplateError(e)) && e@ == m && fin == old,
        Ok(t) => {
            let p = new_path(old, a);
            let mid = stored(old.files, file_at(p, a, t));
            match get_spec(mid, superseded) {
                None => r matches Err(Error::AdrNotFound(s)) && s@ == decimal(superseded as nat) && fin == (
                RepositoryV { files: mid, ..old }),
                Some(o) => {
                    let k = first_with_number(mid, superseded);
                    let o1 = with_link(AdrV { status: StatusV::Superseded, ..o }, n, LinkKindV::SupersededBy);
                    match metadata_outcome(mid, o1, mid[k].content) {
                        Ok(t2) => r matches Ok((x, q)) && x@ == a && q@ == p && fin == (RepositoryV {
                            files: mid.update(k, AdrFileV { adr: o1, content: t2, ..mid[k] }),
                            ..old
                        }),
                        Err(why) => metadata_error(r, why) && fin == (RepositoryV { files: mid, ..old }),
                    }
                },
            }
        },
    }
}

/// What `init` gives on a repository opened as `base`: the repository as
/// opened when ADRs exist already, else the first ADR created in it.
pub open spec fn init_outcome(base: RepositoryV, existing_adrs: usize, r: Result<Repository, Error>) -> bool {
    if existing_adrs > 0 {
        r matches Ok(repo) && repo@ == base
    } else {
        exists|d: Date| #[trigger] init_outcome_on(base, d, r)
    }
}

/// What `init` gives when the first ADR is dated `d`: the repository with
/// that ADR rendered and stored, or the rendering error.
/// What creating a new ADR titled `title`, dated `d`, does to the
/// repository `base`: the record numbered after the last one is rendered
/// and stored under its file name; when the template fails, nothing changes
/// and the template's error is returned.
pub open spec fn new_adr_outcome(
    base: RepositoryV,
    title: Seq<char>,
    d: Date,
    r: Result<(Adr, String), Error>,
    after: RepositoryV,
) -> bool {
    let a = new_adr_view(next_number_spec(base.files), title, d);
    match rendered(base, a) {
        Ok(t) => r matches Ok((x, p)) && x@ == a && p@ == new_path(base, a) && after == (RepositoryV {
            files: stored(base.files, file_at(new_path(base, a), a, t)),
            ..base
        }),
        Err(m) => r matches Err(Error::TemplateError(e)) && e@ == m && after == base,
    }
}

pub open spec fn init_outcome_on(base: RepositoryV, d: Date, r: Result<Repository, Error>) -> bool {
    match rendered(base, initial_adr(d)) {
        Ok(t) => r matches Ok(repo) && repo@ == (RepositoryV {
            files: stored(base.files, file_at(new_path(base, initial_adr(d)), initial_adr(d), t)),
            ..base
        }),
        Err(m) => r matches Err(Error::TemplateError(e)) && e@ == m,
    }
}

/// The configuration `init` writes.
pub open spec fn init_config(adr_dir: Option<Seq<char>>, ng: bool) -> ConfigV {
    ConfigV {
        adr_dir: match adr_dir {
            Some(d) => d,
            None => DEFAULT_ADR_DIR@,
        },
        mode: if ng {
            ConfigMode::NextGen
        } else {
            ConfigMode::Compatible
        },
        ..default_config()
    }
}

impl Repository {
    /// Create a new ADR with the given title, numbered after the last one
    /// and dated today. Returns the record and its path.
    pub fn new_adr(&mut self, title: &str) -> (r: Result<(Adr, String), Error>)
        requires
            room_for_next(old(self)@.files),
        ensures
            exists|d: Date| #[trigger] new_adr_outcome(old(self)@, title@, d, r, final(self)@),
    {
        let ghost before = self@;
        let number = self.next_number();
        let adr = Adr::new(number, title);
        let r = match self.create(&adr) {
            Ok(path) => Ok((adr, path)),
            Err(e) => Err(e),
        };
        proof {
            assert(new_adr_outcome(before, title@, adr.date, r, self@));
        }
        r
    }

    /// Create a new ADR that supersedes another: the new ADR links to the
    /// old one as superseding it; the old one becomes `Superseded` with a
    /// "Superseded by" link to the new one (only its metadata is rewritten).
    pub fn supersede(&mut self, title: &str, superseded: u32) -> (r: Result<(Adr, String), Error>)
        requires
            room_for_next(old(self)@.files),
        ensures
            exists|d: Date| #[trigger] supersede_outcome(old(self)@, title@, superseded, d, r, final(self)@),
    {
        let ghost before = self@;
        let number = self.next_number();
        let mut adr = Adr::new(number, title);
        adr.add_link(AdrLink::new(superseded, LinkKind::Supersedes));
        let path = match self.create(&adr) {
            Ok(p) => p,
            Err(e) => {
                proof {
                    assert(supersede_outcome(before, title@, superseded, adr.date, Err(e), self@));
                }
                return Err(e);
            },
        };
        proof {
            use_type_invariant(&*self);
            lemma_first_with_number(self@.files, superseded);
        }
        let k = match self.index_of_number(superseded) {
            Some(k) => k,
            None => {
                let e = Error::AdrNotFound(u32_to_string(superseded));
                proof {
                    assert(supersede_outcome(before, title@, superseded, adr.date, Err(e), self@));
                }
                return Err(e);
            },
        };
        let mut old_adr = self.files[k].adr.clone();
        old_adr.set_status(AdrStatus::Superseded);
        old_adr.add_link(AdrLink::new(number, LinkKind::SupersededBy));
        proof {
            let fv = files_view(self.files@);
            assert(file_wf(fv[k as int]));
        }
        match self.update_metadata_at(k, old_adr) {
            Ok(_) => {
                let r = Ok((adr, path));
                proof {
                    assert(supersede_outcome(before, title@, superseded, adr.date, r, self@));
                }
                r
            },
            Err(e) => {
                proof {
                    assert(supersede_outcome(before, title@, superseded, adr.date, Err(e), self@));
                }
                Err(e)
            },
        }
    }

    /// Open the repository at `root` from the configuration layers found
    /// for it and the markers it holds (`adrs.toml`, `.adr-dir`, the default
    /// ADR directory), holding `files`: it opens exactly when the
    /// configuration loads, and fails with the error loading gives.
    pub fn load(
        root: &str,
        layers: &Vec<ConfigLayer>,
        has_toml: bool,
        has_adr_dir: bool,
        has_default_dir: bool,
        files: Vec<AdrFile>,
    ) -> (r: Result<Repository, Error>)
        ensures
            match resolved(layers@.map_values(|l: ConfigLayer| l@)) {
                None => r matches Err(Error::ConfigError(_)),
                Some(c) => if c.adr_dir.len() == 0 {
                    r matches Err(Error::ConfigError(m)) && m@ == "adr_dir cannot be empty"@
                } else if !has_toml && !has_adr_dir && !has_default_dir {
                    r matches Err(Error::AdrDirNotFound)
                } else {
                    r matches Ok(repo) && repo@ == opened(root@, c, files_view(files@))
                },
            },
    {
        let config = Config::load(layers, has_toml, has_adr_dir, has_default_dir)?;
        Ok(Repository::open(root, config, files))
    }

    /// Opens a repository at `root` with the configuration the layers give,
    /// or the default configuration when no project marker exists or the
    /// layers give none (see `Config::load_or_default`).
    pub fn open_or_default(
        root: &str,
        layers: &Vec<ConfigLayer>,
        has_toml: bool,
        has_adr_dir: bool,
        has_default_dir: bool,
        files: Vec<AdrFile>,
    ) -> (r: Repository)
        ensures
            r@ == opened(
                root@,
                config_or_default(layers@.map_values(|l: ConfigLayer| l@), has_toml, has_adr_dir, has_default_dir),
                files_view(files@),
            ),
    {
        let config = Config::load_or_default(layers, has_toml, has_adr_dir, has_default_dir);
        Repository::open(root, config, files)
    }

    /// Initializes a repository at `root`: the ADR directory `adr_dir`
    /// (default `doc/adr`) in compatible or next-gen mode, holding the ADR
    /// files already there. When `existing_adrs` (the count of files in the
    /// directory that look like ADRs) is zero, the first ADR, "Record
    /// architecture decisions", is created.
    pub fn init(root: &str, adr_dir: Option<&str>, ng: bool, files: Vec<AdrFile>, existing_adrs: usize) -> (r: Result<
        Repository,
        Error,
    >)
        ensures
            init_outcome(
                opened(
                    root@,
                    init_config(
                        match adr_dir {
                            Some(d) => Some(d@),
                            None => None,
                        },
                        ng,
                    ),
                    files_view(files@),
                ),
                existing_adrs,
                r,
            ),
    {
        let config = Config {
            adr_dir: match adr_dir {
                Some(d) => owned(d),
                None => owned(DEFAULT_ADR_DIR),
            },
            mode: if ng {
                ConfigMode::NextGen
            } else {
                ConfigMode::Compatible
            },
            templates: TemplateConfig::default(),
        };
        let ghost fv = files_view(files@);
        let ghost cv = config@;
        let mut repo = Repository::open(root, config, files);
        let ghost base = repo@;
        proof {
            assert(cv == init_config(
                match adr_dir {
                    Some(d) => Some(d@),
                    None => None,
                },
                ng,
            ));
            assert(base == opened(root@, cv, fv));
        }
        if existing_adrs == 0 {
            let mut adr = Adr::new(1, "Record architecture decisions");
            adr.status = AdrStatus::Accepted;
            adr.context = owned("We need to record the architectural decisions made on this project.");
            adr.decision = owned(
                "We will use Architecture Decision Records, as described by Michael Nygard in his article \"Documenting Architecture Decisions\".",
            );
            adr.consequences = owned(
                "See Michael Nygard's article, linked above. For a lightweight ADR toolset, see Nat Pryce's adr-tools.",
            );
            proof {
                assert(adr@ == initial_adr(adr.date));
            }
            match repo.create(&adr) {
                Ok(_) => {
                    proof {
                        assert(init_outcome_on(base, adr.date, Ok(repo)));
                    }
                },
                Err(e) => {
                    proof {
                        assert(init_outcome_on(base, adr.date, Err(e)));
                    }
                    return Err(e);
                },
            }
        } else {
            proof {
                assert(repo@ == base);
            }
        }
        Ok(repo)
    }
}


// ---------------------------------------------------------------------------
// Laws
// ---------------------------------------------------------------------------
/// After `set_status` succeeds, looking the number up gives the record with
/// the new status (and its "Superseded by" link): `set_status` replaces the
/// first record with that number, and only its metadata.
pub proof fn law_set_status_then_get(fs: Seq<AdrFileV>, number: u32, s: StatusV, by: Option<u32>, content: Seq<char>)
    requires
        get_spec(fs, number) is Some,
    ensures
        ({
            let k = first_with_number(fs, number);
            let b = with_status(get_spec(fs, number)->0, s, by);
            get_spec(fs.update(k, AdrFileV { adr: b, content, ..fs[k] }), number) == Some(b)
        }),
{
    lemma_first_with_number(fs, number);
    let k = first_with_number(fs, number);
    let b = with_status(get_spec(fs, number)->0, s, by);
    lemma_get_after_update(fs, k, AdrFileV { adr: b, content, ..fs[k] }, number);
}

/// After `link` succeeds on two different ADRs, each of them, looked up by
/// number, carries the new link to the other.
pub proof fn law_link_is_bidirectional(
    fs: Seq<AdrFileV>,
    source: u32,
    target: u32,
    source_kind: LinkKindV,
    target_kind: LinkKindV,
    t1: Seq<char>,
    t2: Seq<char>,
)
    requires
        get_spec(fs, source) is Some,
        get_spec(fs, target) is Some,
        source != target,
    ensures
        ({
            let ks = first_with_number(fs, source);
            let kt = first_with_number(fs, target);
            let a1 = with_link(get_spec(fs, source)->0, target, source_kind);
            let b1 = with_link(get_spec(fs, target)->0, source, target_kind);
            let mid = fs.update(ks, AdrFileV { adr: a1, content: t1, ..fs[ks] });
            let fs2 = mid.update(kt, AdrFileV { adr: b1, content: t2, ..mid[kt] });
            get_spec(fs2, source) == Some(a1) && get_spec(fs2, target) == Some(b1)
        }),
{
    lemma_first_with_number(fs, source);
    lemma_first_with_number(fs, target);
    let ks = first_with_number(fs, source);
    let kt = first_with_number(fs, target);
    let a1 = with_link(get_spec(fs, source)->0, target, source_kind);
    let b1 = with_link(get_spec(fs, target)->0, source, target_kind);
    let mid = fs.update(ks, AdrFileV { adr: a1, content: t1, ..fs[ks] });
    let fs2 = mid.update(kt, AdrFileV { adr: b1, content: t2, ..mid[kt] });
    assert forall|j: int| 0 <= j < fs.len() && j != ks && j != kt implies #[trigger] fs2[j] == fs[j] by {}
    assert forall|k: int| 0 <= k < ks implies (#[trigger] fs2[k]).adr.number != source by {
        if k == kt {
            assert(fs2[k].adr.number == target);
        } else {
            assert(fs2[k] == fs[k]);
        }
    }
    lemma_first_with_number_at(fs2, source, ks);
    assert forall|k: int| 0 <= k < kt implies (#[trigger] fs2[k]).adr.number != target by {
        if k == ks {
            assert(fs2[k].adr.number == source);
        } else {
            assert(fs2[k] == fs[k]);
        }
    }
    lemma_first_with_number_at(fs2, target, kt);
}

proof fn lemma_insert_largest(s: Seq<AdrFileV>, x: AdrFileV)
    requires
        forall|i: int| 0 <= i < s.len() ==> (#[trigger] s[i]).adr.number < x.adr.number,
    ensures
        insert_by_number(s, x) == s.push(x),
{
}

/// A record whose number is larger than every other is found by its
/// number once stored.
pub proof fn law_stored_largest_is_found(fs: Seq<AdrFileV>, f: AdrFileV)
    requires
        forall|i: int| 0 <= i < fs.len() ==> (#[trigger] fs[i]).adr.number < f.adr.number,
    ensures
        get_spec(stored(fs, f), f.adr.number) == Some(f.adr),
{
    lemma_index_of_path(fs, f.path);
    let k = index_of_path(fs, f.path);
    let s = if k >= 0 { fs.remove(k) } else { fs };
    assert forall|i: int| 0 <= i < s.len() implies (#[trigger] s[i]).adr.number < f.adr.number by {
        if k >= 0 {
            if i < k {
                assert(s[i] == fs[i]);
            } else {
                assert(s[i] == fs[i + 1]);
            }
        }
    }
    if k >= 0 {
        assert(fs[k].adr.number < f.adr.number);
    }
    lemma_insert_largest(s, f);
    assert(stored(fs, f) == s.push(f));
    assert forall|j: int| 0 <= j < s.len() implies (#[trigger] s.push(f)[j]).adr.number != f.adr.number by {
        assert(s.push(f)[j] == s[j]);
    }
    lemma_first_with_number_at(s.push(f), f.adr.number, s.len() as int);
}

/// The next number is larger than every number in the repository, so a
/// new ADR stored under it is what looking it up gives.
pub proof fn law_new_adr_is_found(fs: Seq<AdrFileV>, f: AdrFileV)
    requires
        sorted_by_number(fs),
        room_for_next(fs),
        f.adr.number == next_number_spec(fs),
    ensures
        get_spec(stored(fs, f), next_number_spec(fs)) == Some(f.adr),
{
    assert forall|i: int| 0 <= i < fs.len() implies (#[trigger] fs[i]).adr.number < f.adr.number by {
        assert(fs[i].adr.number <= fs[fs.len() - 1].adr.number);
    }
    law_stored_largest_is_found(fs, f);
}


/// Updating the metadata of a frontmatter file keeps its markdown body: the
/// text from the closing `---` line on comes out unchanged, right after the
/// updated frontmatter lines, and the file still opens with `---`.
pub proof fn law_frontmatter_update_keeps_body(a: AdrV, content: Seq<char>)
    requires
        starts_with_spec(content, "---\n"@),
        frontmatter_end(content.subrange(4, content.len() as int)) is Some,
    ensures
        ({
            let rest = content.subrange(4, content.len() as int);
            let body = rest.subrange(frontmatter_end(rest)->0 + 1, rest.len() as int);
            frontmatter_update(a, content) matches Ok(t) && t.len() >= body.len() + 4 && t.subrange(
                t.len() - body.len(),
                t.len() as int,
            ) == body && t.subrange(0, 4) == "---\n"@
        }),
{
    reveal_strlit("---\n");
    reveal_strlit("\n---\n");
    reveal_strlit("\n---");
    let rest = content.subrange(4, content.len() as int);
    assert(strip_prefix_spec(content, "---\n"@) == Some(rest));
    crate::text::lemma_find_from(rest, "\n---\n"@, 0);
    let e = frontmatter_end(rest)->0;
    assert(0 <= e <= rest.len());
    let head = "---\n"@ + updated_yaml(a, rest.subrange(0, e + 1));
    let body = rest.subrange(e + 1, rest.len() as int);
    let t = head + body;
    assert(t.subrange(t.len() - body.len(), t.len() as int) =~= body);
    assert(t.subrange(0, 4) =~= "---\n"@);
}

/// Updating the metadata of a legacy file keeps every line up to and
/// including its `## Status` heading, and everything from the next `## `
/// heading on.
pub proof fn law_legacy_update_keeps_other_sections(a: AdrV, content: Seq<char>, fs: Seq<AdrFileV>)
    requires
        first_index(lines_spec(content), |l: Seq<char>| is_status_heading(l)) >= 0,
    ensures
        ({
            let ls = lines_spec(content);
            let si = first_index(ls, |l: Seq<char>| is_status_heading(l));
            let nh = first_index(ls.skip(si + 1), |l: Seq<char>| is_h2_line(l));
            let t = legacy_update(a, content, fs);
            let head = lines_text(ls.take(si + 1));
            let tail = tail_text(ls, si + 1 + nh, ls.len() as int, ends_with_spec(content, "\n"@));
            &&& t.len() >= head.len()
            &&& t.subrange(0, head.len() as int) == head
            &&& nh >= 0 ==> t.len() >= tail.len() && t.subrange(t.len() - tail.len(), t.len() as int) == tail
        }),
{
    let ls = lines_spec(content);
    let si = first_index(ls, |l: Seq<char>| is_status_heading(l));
    let nh = first_index(ls.skip(si + 1), |l: Seq<char>| is_h2_line(l));
    let head = lines_text(ls.take(si + 1));
    let tail = tail_text(ls, si + 1 + nh, ls.len() as int, ends_with_spec(content, "\n"@));
    let mid = "\n"@ + status_text(a.status) + "\n"@ + link_lines(a.links, fs);
    let t = legacy_update(a, content, fs);
    if nh >= 0 {
        assert(t == head + mid + ("\n"@ + tail));
        assert((head + mid + ("\n"@ + tail)).subrange(0, head.len() as int) =~= head);
        assert((head + mid + ("\n"@ + tail)).subrange(t.len() - tail.len(), t.len() as int) =~= tail);
    } else {
        assert(t == head + mid + Seq::<char>::empty());
        assert((head + mid + Seq::<char>::empty()).subrange(0, head.len() as int) =~= head);
    }
}

/// After `supersede` succeeds, looking up the new ADR's number gives the new
/// ADR (which links to the one it supersedes), and looking up the old
/// number gives the old ADR, now superseded and linked to the new one.
pub proof fn law_supersede_links_both_ways(fs: Seq<AdrFileV>, f: AdrFileV, superseded: u32, t2: Seq<char>)
    requires
        sorted_by_number(fs),
        room_for_next(fs),
        f.adr.number == next_number_spec(fs),
        superseded != f.adr.number,
        get_spec(stored(fs, f), superseded) is Some,
    ensures
        ({
            let mid = stored(fs, f);
            let n = f.adr.number;
            let k = first_with_number(mid, superseded);
            let o1 = with_link(
                AdrV { status: StatusV::Superseded, ..get_spec(mid, superseded)->0 },
                n,
                LinkKindV::SupersededBy,
            );
            let fin = mid.update(k, AdrFileV { adr: o1, content: t2, ..mid[k] });
            &&& get_spec(fin, n) == Some(f.adr)
            &&& get_spec(fin, superseded) == Some(o1)
        }),
{
    let mid = stored(fs, f);
    let n = f.adr.number;
    law_new_adr_is_found(fs, f);
    lemma_first_with_number(mid, superseded);
    lemma_first_with_number(mid, n);
    let k = first_with_number(mid, superseded);
    let kn = first_with_number(mid, n);
    let o1 = with_link(AdrV { status: StatusV::Superseded, ..get_spec(mid, superseded)->0 }, n, LinkKindV::SupersededBy);
    let nf = AdrFileV { adr: o1, content: t2, ..mid[k] };
    let fin = mid.update(k, nf);
    lemma_get_after_update(mid, k, nf, superseded);
    assert forall|j: int| 0 <= j < kn implies (#[trigger] fin[j]).adr.number != n by {
        if j != k {
            assert(fin[j] == mid[j]);
        }
    }
    lemma_first_with_number_at(fin, n, kn);
    assert(fin[kn] == mid[kn]);
}

impl Repository {
    /// The records and the texts of the files, in order.
    pub fn records_and_contents(&self) -> (r: (Vec<Adr>, Vec<String>))
        ensures
            r.0@.map_values(|a: Adr| a@) == records(self@.files),
            r.1@.map_values(|s: String| s@) == self@.files.map_values(|f: AdrFileV| f.content),
            r.0@.len() == r.1@.len(),
    {
        let ghost fv = files_view(self.files@);
        let mut adrs: Vec<Adr> = Vec::new();
        let mut contents: Vec<String> = Vec::new();
        let mut i: usize = 0;
        while i < self.files.len()
            invariant
                i <= self.files@.len(),
                fv == files_view(self.files@),
                adrs@.len() == i,
                contents@.len() == i,
                adrs@.map_values(|a: Adr| a@) == records(fv).take(i as int),
                contents@.map_values(|s: String| s@) == fv.map_values(|f: AdrFileV| f.content).take(i as int),
            decreases self.files@.len() - i,
        {
            let ghost ab = adrs@;
            let ghost cb = contents@;
            let a = self.files[i].adr.clone();
            let c = clone_string(&self.files[i].content);
            adrs.push(a);
            contents.push(c);
            proof {
                assert(adrs@.map_values(|a: Adr| a@) =~= ab.map_values(|a: Adr| a@).push(a@));
                assert(records(fv).take(i + 1) =~= records(fv).take(i as int).push(a@));
                assert(contents@.map_values(|s: String| s@) =~= cb.map_values(|s: String| s@).push(c@));
                assert(fv.map_values(|f: AdrFileV| f.content).take(i + 1) =~= fv.map_values(
                    |f: AdrFileV| f.content,
                ).take(i as int).push(c@));
            }
            i += 1;
        }
        proof {
            assert(records(fv).take(self.files@.len() as int) =~= records(fv));
            assert(fv.map_values(|f: AdrFileV| f.content).take(self.files@.len() as int) =~= fv.map_values(
                |f: AdrFileV| f.content,
            ));
        }
        (adrs, contents)
    }
}

} // verus!
