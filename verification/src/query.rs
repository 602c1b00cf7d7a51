//! Boolean keyword queries: the expression tree, its evaluation over a
//! file's keyword occurrences, and the path filters that gate which files
//! are searched.
use vstd::prelude::*;
use crate::text::string_views;
use vstd::string::*;
use crate::glob::{
    glob_builder_add, glob_builder_build, glob_builder_globs, glob_builder_new, glob_compiles,
    glob_matches, glob_set_builds, glob_set_globs, glob_set_is_match,
};
use crate::regexes::{keyword_matcher_builds, KeywordByteMatcher, FancyRegex, StdRegex, fancy_regex_outcome, std_regex_matches};
use crate::text::{seq_starts_with, is_substring, lowercase_of, str_contains, unicode_lowercase};

verus! {

/// A search keyword.
#[derive(Debug)]
pub enum Term {
    /// A plain substring, matched without regard to case.
    Literal(String),
    /// A quoted phrase, matched as a case-sensitive substring.
    Phrase(String),
    /// A regular expression for the standard engine (no look-around).
    RegexStd { pattern: String, re: StdRegex },
    /// A regular expression for the backtracking engine (look-around allowed).
    RegexFancy { pattern: String, re: FancyRegex },
}

/// Whether term `t` matches the line `line`.
pub open spec fn term_matches(t: Term, line: Seq<char>) -> bool {
    match t {
        Term::Literal(s) => is_substring(unicode_lowercase(s@), unicode_lowercase(line)),
        Term::Phrase(p) => is_substring(p@, line),
        Term::RegexStd { re, .. } => std_regex_matches(re@, line),
        Term::RegexFancy { re, .. } => fancy_regex_outcome(re@, line) == Some(true),
    }
}

/// The highlight entry of a term, tagged with its kind.
#[derive(Debug, Clone, PartialEq, Eq)]
pub enum KeywordHighlight {
    Literal(String),
    Phrase(String),
    Regex(String),
}

impl KeywordHighlight {
    /// A copy of this entry.
    pub fn duplicate(&self) -> (r: KeywordHighlight)
        ensures
            r == *self,
    {
        match self {
            KeywordHighlight::Literal(s) => KeywordHighlight::Literal(s.clone()),
            KeywordHighlight::Phrase(s) => KeywordHighlight::Phrase(s.clone()),
            KeywordHighlight::Regex(s) => KeywordHighlight::Regex(s.clone()),
        }
    }

    /// The text of the entry, whatever its kind.
    pub fn text(&self) -> (r: &String)
        ensures
            r@ == highlight_text(*self),
    {
        match self {
            KeywordHighlight::Literal(s) => s,
            KeywordHighlight::Phrase(s) => s,
            KeywordHighlight::Regex(s) => s,
        }
    }
}

/// The text of a highlight entry.
pub open spec fn highlight_text(h: KeywordHighlight) -> Seq<char> {
    match h {
        KeywordHighlight::Literal(s) => s@,
        KeywordHighlight::Phrase(s) => s@,
        KeywordHighlight::Regex(s) => s@,
    }
}

/// The highlight entry of a term: literal and phrase keep their kind, both
/// regex engines give a regex entry with the term's pattern.
pub open spec fn term_highlight(t: Term) -> KeywordHighlight {
    match t {
        Term::Literal(s) => KeywordHighlight::Literal(s),
        Term::Phrase(p) => KeywordHighlight::Phrase(p),
        Term::RegexStd { pattern, .. } => KeywordHighlight::Regex(pattern),
        Term::RegexFancy { pattern, .. } => KeywordHighlight::Regex(pattern),
    }
}

impl Term {
    /// Whether this term matches `line`: literals ignore case, phrases do
    /// not, regexes ask their engine (an engine error counts as no match).
    pub fn matches(&self, line: &str) -> (r: bool)
        ensures
            r == term_matches(*self, line@),
    {
        match self {
            Term::Literal(s) => {
                let line_lower = lowercase_of(line);
                let s_lower = lowercase_of(s.as_str());
                str_contains(line_lower.as_str(), s_lower.as_str())
            },
            Term::Phrase(p) => str_contains(line, p.as_str()),
            Term::RegexStd { re, .. } => re.is_match(line),
            Term::RegexFancy { re, .. } => match re.is_match(line) {
                Some(b) => b,
                None => false,
            },
        }
    }

    /// The highlight entry of this term; every term has one.
    pub fn highlight(&self) -> (r: Option<KeywordHighlight>)
        ensures
            r == Some(term_highlight(*self)),
    {
        match self {
            Term::Literal(s) => Some(KeywordHighlight::Literal(s.clone())),
            Term::Phrase(p) => Some(KeywordHighlight::Phrase(p.clone())),
            Term::RegexStd { pattern, .. } => Some(KeywordHighlight::Regex(pattern.clone())),
            Term::RegexFancy { pattern, .. } => Some(KeywordHighlight::Regex(pattern.clone())),
        }
    }
}

/// Path filter rules: glob sets for include_set and exclude, and plain
/// substrings for patterns without wildcards.
#[derive(Debug, Clone)]
pub struct PathFilter {
    pub include_set: Option<globset::GlobSet>,
    pub exclude: Option<globset::GlobSet>,
    /// Include rules without a wildcard: the path must contain one of them.
    pub include_contains: Vec<String>,
    /// Exclude rules without a wildcard: a path containing one is refused.
    pub exclude_contains: Vec<String>,
}

/// The glob set is present and one of its globs matches `path`.
pub open spec fn set_matches(s: Option<globset::GlobSet>, path: Seq<char>) -> bool {
    match s {
        Some(g) => exists|i: int|
            0 <= i < glob_set_globs(g).len() && glob_matches(
                #[trigger] glob_set_globs(g)[i].0,
                glob_set_globs(g)[i].1,
                path,
            ),
        None => false,
    }
}

/// One of `subs` occurs in `path`.
pub open spec fn any_substring(subs: Seq<Seq<char>>, path: Seq<char>) -> bool {
    exists|i: int| 0 <= i < subs.len() && is_substring(#[trigger] subs[i], path)
}

/// The filter lets `path` through: no exclude rule hits it, and either
/// there is no include_set rule or one of them hits it.
pub open spec fn path_allowed(f: PathFilter, path: Seq<char>) -> bool {
    &&& !set_matches(f.exclude, path)
    &&& !any_substring(string_views(f.exclude_contains@), path)
    &&& ((f.include_set is None && f.include_contains@.len() == 0) || set_matches(f.include_set, path)
        || any_substring(string_views(f.include_contains@), path))
}

/// Exclusion wins: a path that contains one of the filter's exclude
/// substrings, or that one of its exclude globs matches, is refused,
/// whatever the include rules. A path that passes is hit by an include
/// rule where there is one; with no rule at all, every path passes.
pub proof fn lemma_exclusion_wins(f: PathFilter, path: Seq<char>)
    ensures
        (exists|i: int| 0 <= i < f.exclude_contains@.len() && is_substring(#[trigger] f.exclude_contains@[i]@, path))
            ==> !path_allowed(f, path),
        set_matches(f.exclude, path) ==> !path_allowed(f, path),
        path_allowed(f, path) && (f.include_set is Some || f.include_contains@.len() > 0) ==> (
            set_matches(f.include_set, path)
            || exists|i: int| 0 <= i < f.include_contains@.len() && is_substring(#[trigger] f.include_contains@[i]@, path)),
        f.include_set is None && f.include_contains@.len() == 0 && f.exclude is None && f.exclude_contains@.len() == 0
            ==> path_allowed(f, path),
{
    if exists|i: int| 0 <= i < f.exclude_contains@.len() && is_substring(#[trigger] f.exclude_contains@[i]@, path) {
        let i = choose|i: int| 0 <= i < f.exclude_contains@.len() && is_substring(#[trigger] f.exclude_contains@[i]@, path);
        assert(string_views(f.exclude_contains@)[i] == f.exclude_contains@[i]@);
    }
    if path_allowed(f, path) && any_substring(string_views(f.include_contains@), path) {
        let i = choose|i: int| 0 <= i < string_views(f.include_contains@).len() && is_substring(#[trigger] string_views(f.include_contains@)[i], path);
        assert(string_views(f.include_contains@)[i] == f.include_contains@[i]@);
    }
    if f.exclude_contains@.len() == 0 {
        assert(string_views(f.exclude_contains@).len() == 0);
    }
}

/// Tests whether one of `subs` occurs in `path`.
fn contains_any(subs: &Vec<String>, path: &str) -> (r: bool)
    ensures
        r == any_substring(string_views(subs@), path@),
{
    let mut i: usize = 0;
    while i < subs.len()
        invariant
            i <= subs.len(),
            forall|j: int| 0 <= j < i ==> !is_substring(#[trigger] string_views(subs@)[j], path@),
        decreases subs.len() - i,
    {
        if str_contains(path, subs[i].as_str()) {
            assert(string_views(subs@)[i as int] == subs@[i as int]@);
            return true;
        }
        assert(string_views(subs@)[i as int] == subs@[i as int]@);
        i += 1;
    }
    false
}

impl PathFilter {
    /// A filter with no rule, which allows every path.
    pub fn empty() -> (r: PathFilter)
        ensures
            r.include_set is None,
            r.exclude is None,
            r.include_contains@.len() == 0,
            r.exclude_contains@.len() == 0,
    {
        PathFilter { include_set: None, exclude: None, include_contains: Vec::new(), exclude_contains: Vec::new() }
    }

    /// Whether `path` passes the filter (see `path_allowed`). Exclusion
    /// wins: a path that an exclude rule hits is refused whatever the
    /// include rules say.
    pub fn is_allowed(&self, path: &str) -> (r: bool)
        ensures
            r == path_allowed(*self, path@),
            (exists|i: int| 0 <= i < self.exclude_contains@.len() && is_substring(#[trigger] self.exclude_contains@[i]@, path@)) ==> !r,
            set_matches(self.exclude, path@) ==> !r,
    {
        proof {
            lemma_exclusion_wins(*self, path@);
        }
        if let Some(ex) = &self.exclude {
            if glob_set_is_match(ex, path) {
                return false;
            }
        }
        if contains_any(&self.exclude_contains, path) {
            return false;
        }
        let has_include = self.include_set.is_some();
        let has_include_contains = self.include_contains.len() > 0;
        if !has_include && !has_include_contains {
            return true;
        }
        let matches_include = match &self.include_set {
            Some(inc) => glob_set_is_match(inc, path),
            None => false,
        };
        matches_include || contains_any(&self.include_contains, path)
    }
}

impl Default for PathFilter {
    fn default() -> (r: PathFilter)
        ensures
            r.include_set is None,
            r.exclude is None,
            r.include_contains@.len() == 0,
            r.exclude_contains@.len() == 0,
    {
        PathFilter::empty()
    }
}

/// The pattern holds a glob wildcard: `*`, `?` or `[`.
pub open spec fn is_glob_spec(p: Seq<char>) -> bool {
    p.contains('*') || p.contains('?') || p.contains('[')
}

/// Tests whether a path pattern holds a glob wildcard.
pub fn is_glob_pattern(pattern: &str) -> (r: bool)
    ensures
        r == is_glob_spec(pattern@),
{
    let v = crate::text::chars_of(pattern);
    crate::text::has_char(&v, '*') || crate::text::has_char(&v, '?') || crate::text::has_char(&v, '[')
}

/// How a path pattern is applied: as a glob, or as a plain substring.
#[derive(Debug)]
pub enum PathPatternRule {
    Glob(String),
    Contains(String),
}

/// A pattern with a wildcard is a glob, any other a substring rule.
pub fn classify_path_pattern(pattern: &str) -> (r: PathPatternRule)
    ensures
        is_glob_spec(pattern@) ==> (r matches PathPatternRule::Glob(g) && g@ == pattern@),
        !is_glob_spec(pattern@) ==> (r matches PathPatternRule::Contains(c) && c@ == pattern@),
{
    if is_glob_pattern(pattern) {
        PathPatternRule::Glob(String::from_str(pattern))
    } else {
        PathPatternRule::Contains(String::from_str(pattern))
    }
}

/// The strict globs (literal separator) that the patterns `ps` give, in
/// order: those with a wildcard that `globset` accepts.
pub open spec fn glob_rules(ps: Seq<Seq<char>>) -> Seq<(Seq<char>, bool)>
    decreases ps.len(),
{
    if ps.len() == 0 {
        Seq::empty()
    } else {
        let prev = glob_rules(ps.drop_last());
        let p = ps.last();
        if is_glob_spec(p) && glob_compiles(p, true) {
            prev.push((p, true))
        } else {
            prev
        }
    }
}

/// The substring rules that the patterns `ps` give: those without a wildcard.
pub open spec fn contains_rules(ps: Seq<Seq<char>>) -> Seq<Seq<char>>
    decreases ps.len(),
{
    if ps.len() == 0 {
        Seq::empty()
    } else {
        let prev = contains_rules(ps.drop_last());
        let p = ps.last();
        if is_glob_spec(p) {
            prev
        } else {
            prev.push(p)
        }
    }
}

proof fn lemma_views_take(v: Seq<String>, i: int)
    requires
        0 <= i < v.len(),
    ensures
        string_views(v.take(i + 1)).drop_last() == string_views(v.take(i)),
        string_views(v.take(i + 1)).last() == v[i]@,
        string_views(v.take(i + 1)).len() == i + 1,
{
    assert(string_views(v.take(i + 1)).drop_last() =~= string_views(v.take(i)));
}

/// Splits patterns into a builder holding their strict globs, the number
/// of those globs, and the list of their substring rules.
fn split_path_rules(patterns: &[String]) -> (r: (globset::GlobSetBuilder, usize, Vec<String>))
    ensures
        glob_builder_globs(r.0) == glob_rules(string_views(patterns@)),
        r.1 == glob_rules(string_views(patterns@)).len(),
        string_views(r.2@) == contains_rules(string_views(patterns@)),
{
    let mut builder = glob_builder_new();
    let mut n_globs: usize = 0;
    let mut contains: Vec<String> = Vec::new();
    let mut i: usize = 0;
    while i < patterns.len()
        invariant
            i <= patterns.len(),
            glob_builder_globs(builder) == glob_rules(string_views(patterns@.take(i as int))),
            n_globs == glob_rules(string_views(patterns@.take(i as int))).len(),
            n_globs <= i,
            string_views(contains@) == contains_rules(string_views(patterns@.take(i as int))),
        decreases patterns.len() - i,
    {
        let p = &patterns[i];
        proof {
            lemma_views_take(patterns@, i as int);
        }
        match classify_path_pattern(p.as_str()) {
            PathPatternRule::Glob(pat) => {
                if glob_builder_add(&mut builder, pat.as_str(), true).is_ok() {
                    n_globs += 1;
                }
            },
            PathPatternRule::Contains(raw) => {
                contains.push(raw);
                assert(string_views(contains@) =~= contains_rules(string_views(patterns@.take(i as int))).push(p@));
            },
        }
        i += 1;
    }
    assert(patterns@.take(patterns@.len() as int) =~= patterns@);
    (builder, n_globs, contains)
}

/// The filter side (include_set or exclude) that the patterns `ps` give.
pub open spec fn side_set(ps: Seq<Seq<char>>, s: Option<globset::GlobSet>) -> bool {
    &&& (s is Some <==> (glob_rules(ps).len() > 0 && glob_set_builds(glob_rules(ps))))
    &&& (s matches Some(g) ==> glob_set_globs(g) == glob_rules(ps))
}

/// Builds one side of a filter from its patterns.
fn build_side(patterns: &[String]) -> (r: (Option<globset::GlobSet>, bool, Vec<String>))
    ensures
        side_set(string_views(patterns@), r.0),
        r.1 == (glob_rules(string_views(patterns@)).len() > 0),
        string_views(r.2@) == contains_rules(string_views(patterns@)),
{
    let (builder, n_globs, contains) = split_path_rules(patterns);
    if n_globs > 0 {
        match glob_builder_build(&builder) {
            Ok(set) => (Some(set), true, contains),
            Err(_) => (None, true, contains),
        }
    } else {
        (None, false, contains)
    }
}

/// The filter that `includes` and `excludes` give: strict globs for the
/// patterns with a wildcard (those `globset` refuses are left out),
/// substring rules for the others; `None` when no rule remains.
pub open spec fn combined_filter_spec(includes: Seq<Seq<char>>, excludes: Seq<Seq<char>>, r: Option<PathFilter>) -> bool {
    let none_left = glob_rules(includes).len() == 0 && contains_rules(includes).len() == 0
        && glob_rules(excludes).len() == 0 && contains_rules(excludes).len() == 0;
    &&& (r is None <==> none_left)
    &&& (r matches Some(f) ==> {
        &&& side_set(includes, f.include_set)
        &&& side_set(excludes, f.exclude)
        &&& string_views(f.include_contains@) == contains_rules(includes)
        &&& string_views(f.exclude_contains@) == contains_rules(excludes)
    })
}

/// Combines include_set and exclude path patterns into one filter.
pub fn combine_path_filters(includes: &[String], excludes: &[String]) -> (r: Option<PathFilter>)
    ensures
        combined_filter_spec(string_views(includes@), string_views(excludes@), r),
{
    let (include_set, has_include_glob, include_contains) = build_side(includes);
    let (exclude, has_exclude_glob, exclude_contains) = build_side(excludes);
    if has_include_glob || include_contains.len() > 0 || has_exclude_glob || exclude_contains.len() > 0 {
        Some(PathFilter { include_set, exclude, include_contains, exclude_contains })
    } else {
        None
    }
}

/// A filter with the single strict glob `glob` as include_set rule.
pub open spec fn glob_filter_spec(glob: Seq<char>, f: PathFilter) -> bool {
    &&& f.include_set matches Some(g) && glob_set_globs(g) == seq![(glob, true)]
    &&& f.exclude is None
    &&& f.include_contains@.len() == 0
    &&& f.exclude_contains@.len() == 0
}

/// Turns one strict glob into an include_set-only filter; an error where
/// `globset` refuses the pattern or the set.
pub fn path_glob_to_filter(glob: &str) -> (r: Result<PathFilter, String>)
    ensures
        r is Ok <==> (glob_compiles(glob@, true) && glob_set_builds(seq![(glob@, true)])),
        r matches Ok(f) ==> glob_filter_spec(glob@, f),
        r matches Err(m) ==> !glob_compiles(glob@, true) ==> seq_starts_with(m@, "无效路径模式: "@),
{
    let mut builder = glob_builder_new();
    match glob_builder_add(&mut builder, glob, true) {
        Ok(()) => {},
        Err(e) => {
            let mut m = String::from_str("无效路径模式: ");
            m.append(crate::glob::glob_error_text(&e).as_str());
            proof { reveal_strlit("无效路径模式: "); }
            assert(m@.subrange(0, "无效路径模式: "@.len() as int) =~= "无效路径模式: "@);
            return Err(m);
        },
    }
    assert(glob_builder_globs(builder) =~= seq![(glob@, true)]);
    match glob_builder_build(&builder) {
        Ok(set) => Ok(PathFilter { include_set: Some(set), exclude: None, include_contains: Vec::new(), exclude_contains: Vec::new() }),
        Err(e) => {
            let mut m = String::from_str("构建路径过滤器失败: ");
            m.append(crate::glob::glob_error_text(&e).as_str());
            Err(m)
        },
    }
}

/// A parsed query: its terms, the boolean expression over them, the path
/// filter, the highlight entries and one byte matcher per literal keyword.
#[derive(Debug)]
pub struct Query {
    pub terms: Vec<Term>,
    pub expr: Option<Expr>,
    pub path_filter: PathFilter,
    /// Highlight entries, with their kind, of the positive terms.
    pub highlights: Vec<KeywordHighlight>,
    pub byte_matchers: Vec<Option<KeywordByteMatcher>>,
}

/// A boolean expression over keyword terms; `Atom(i)` refers to `terms[i]`.
#[derive(Debug)]
pub enum Expr {
    And(Vec<Expr>),
    Or(Vec<Expr>),
    Not(Box<Expr>),
    Atom(usize),
}

/// The value of `e` when each atom `i` has the value `val(i)`.
pub open spec fn eval_spec(e: Expr, val: spec_fn(usize) -> bool) -> bool
    decreases e, 0nat,
{
    match e {
        Expr::Atom(i) => val(i),
        Expr::Not(inner) => !eval_spec(*inner, val),
        Expr::And(items) => all_spec(items@, val),
        Expr::Or(items) => any_spec(items@, val),
    }
}

/// Every expression of `s` is true under `val`.
pub open spec fn all_spec(s: Seq<Expr>, val: spec_fn(usize) -> bool) -> bool
    decreases s, 1nat,
{
    if s.len() == 0 {
        true
    } else {
        eval_spec(s[0], val) && all_spec(s.drop_first(), val)
    }
}

/// Some expression of `s` is true under `val`.
pub open spec fn any_spec(s: Seq<Expr>, val: spec_fn(usize) -> bool) -> bool
    decreases s, 1nat,
{
    if s.len() == 0 {
        false
    } else {
        eval_spec(s[0], val) || any_spec(s.drop_first(), val)
    }
}


/// Number of nodes of `e`, a measure for recursion over the tree.
pub open spec fn expr_size(e: Expr) -> nat
    decreases e, 0nat,
{
    match e {
        Expr::Atom(_) => 1,
        Expr::Not(inner) => 1 + expr_size(*inner),
        Expr::And(items) => 1 + exprs_size(items@),
        Expr::Or(items) => 1 + exprs_size(items@),
    }
}

/// Total number of nodes of the expressions of `s`.
pub open spec fn exprs_size(s: Seq<Expr>) -> nat
    decreases s, 1nat,
{
    if s.len() == 0 {
        0
    } else {
        expr_size(s[0]) + exprs_size(s.drop_first())
    }
}

/// Each element of a list is smaller than the whole list.
pub proof fn lemma_exprs_size(s: Seq<Expr>, k: int)
    requires
        0 <= k < s.len(),
    ensures
        expr_size(s[k]) <= exprs_size(s),
    decreases s.len(),
{
    if k > 0 {
        lemma_exprs_size(s.drop_first(), k - 1);
    }
}

/// `all_spec` is the conjunction over every element.
pub proof fn lemma_all_spec(s: Seq<Expr>, val: spec_fn(usize) -> bool)
    ensures
        all_spec(s, val) <==> (forall|j: int| 0 <= j < s.len() ==> eval_spec(#[trigger] s[j], val)),
    decreases s.len(),
{
    if s.len() > 0 {
        lemma_all_spec(s.drop_first(), val);
        assert forall|j: int| 0 < j < s.len() implies #[trigger] s[j] == s.drop_first()[j - 1] by {}
    }
}

/// `any_spec` is the disjunction over every element.
pub proof fn lemma_any_spec(s: Seq<Expr>, val: spec_fn(usize) -> bool)
    ensures
        any_spec(s, val) <==> (exists|j: int| 0 <= j < s.len() && eval_spec(#[trigger] s[j], val)),
    decreases s.len(),
{
    if s.len() > 0 {
        lemma_any_spec(s.drop_first(), val);
        assert forall|j: int| 0 < j < s.len() implies #[trigger] s[j] == s.drop_first()[j - 1] by {}
        if any_spec(s.drop_first(), val) {
            let j = choose|j: int| 0 <= j < s.drop_first().len() && eval_spec(#[trigger] s.drop_first()[j], val);
            assert(s[j + 1] == s.drop_first()[j]);
        }
    }
}

/// `val` gives, for every atom, the value that the closure `f` returns for it.
pub open spec fn decides<F: Fn(usize) -> bool>(f: F, val: spec_fn(usize) -> bool) -> bool {
    forall|i: usize, b: bool| #[trigger] call_ensures(f, (i,), b) ==> b == val(i)
}

/// Evaluates `expr`, asking `f` for the value of each atom it reaches.
pub fn eval_expr<F: Fn(usize) -> bool>(expr: &Expr, f: &F) -> (r: bool)
    requires
        forall|i: usize| call_requires(*f, (i,)),
    ensures
        forall|val: spec_fn(usize) -> bool| decides(*f, val) ==> r == eval_spec(*expr, val),
    decreases expr_size(*expr),
{
    match expr {
        Expr::Atom(i) => {
            let r = f(*i);
            assert(call_ensures(*f, (*i,), r));
            assert(forall|val: spec_fn(usize) -> bool| decides(*f, val) ==> r == val(*i));
            assert(forall|val: spec_fn(usize) -> bool| eval_spec(*expr, val) == val(*i));
            assert(forall|val: spec_fn(usize) -> bool| decides(*f, val) ==> r == eval_spec(*expr, val));
            r
        },
        Expr::Not(inner) => {
            let b = eval_expr(inner, f);
            assert(forall|val: spec_fn(usize) -> bool| eval_spec(*expr, val) == !eval_spec(**inner, val));
            !b
        },
        Expr::And(v) => {
            let mut k: usize = 0;
            while k < v.len()
                invariant
                    k <= v.len(),
                    *expr == Expr::And(*v),
                    forall|i: usize| call_requires(*f, (i,)),
                    forall|val: spec_fn(usize) -> bool, j: int|
                        decides(*f, val) && 0 <= j < k ==> #[trigger] eval_spec(v@[j], val),
                decreases v.len() - k,
            {
                proof {
                    lemma_exprs_size(v@, k as int);
                }
                let b = eval_expr(&v[k], f);
                if !b {
                    proof {
                        assert forall|val: spec_fn(usize) -> bool| decides(*f, val) implies !eval_spec(*expr, val) by {
                            lemma_all_spec(v@, val);
                            assert(!eval_spec(v@[k as int], val));
                            assert(eval_spec(*expr, val) == all_spec(v@, val));
                        }
                    }
                    return false;
                }
                k += 1;
            }
            proof {
                assert forall|val: spec_fn(usize) -> bool| decides(*f, val) implies eval_spec(*expr, val) by {
                    lemma_all_spec(v@, val);
                }
            }
            true
        }
        Expr::Or(v) => {
            let mut k: usize = 0;
            while k < v.len()
                invariant
                    k <= v.len(),
                    *expr == Expr::Or(*v),
                    forall|i: usize| call_requires(*f, (i,)),
                    forall|val: spec_fn(usize) -> bool, j: int|
                        decides(*f, val) && 0 <= j < k ==> !#[trigger] eval_spec(v@[j], val),
                decreases v.len() - k,
            {
                proof {
                    lemma_exprs_size(v@, k as int);
                }
                let b = eval_expr(&v[k], f);
                if b {
                    proof {
                        assert forall|val: spec_fn(usize) -> bool| decides(*f, val) implies eval_spec(*expr, val) by {
                            lemma_any_spec(v@, val);
                            assert(eval_spec(v@[k as int], val));
                        }
                    }
                    return true;
                }
                k += 1;
            }
            proof {
                assert forall|val: spec_fn(usize) -> bool| decides(*f, val) implies !eval_spec(*expr, val) by {
                    lemma_any_spec(v@, val);
                }
            }
            false
        }
    }
}

} // verus!

verus! {

/// The atoms that occur under an even number of negations, in tree order
/// (`neg` says whether `e` itself stands under an odd number).
pub open spec fn positive_atoms(e: Expr, neg: bool) -> Seq<usize>
    decreases e, 0nat,
{
    match e {
        Expr::Atom(i) => if neg { Seq::empty() } else { seq![i] },
        Expr::Not(inner) => positive_atoms(*inner, !neg),
        Expr::And(items) => positive_atoms_list(items@, neg),
        Expr::Or(items) => positive_atoms_list(items@, neg),
    }
}

/// `positive_atoms` of each expression of `s`, concatenated.
pub open spec fn positive_atoms_list(s: Seq<Expr>, neg: bool) -> Seq<usize>
    decreases s, 1nat,
{
    if s.len() == 0 {
        Seq::empty()
    } else {
        positive_atoms(s[0], neg) + positive_atoms_list(s.drop_first(), neg)
    }
}

proof fn lemma_positive_atoms_list_take(s: Seq<Expr>, k: int, neg: bool)
    requires
        0 <= k < s.len(),
    ensures
        positive_atoms_list(s.take(k + 1), neg) == positive_atoms_list(s.take(k), neg) + positive_atoms(s[k], neg),
    decreases k,
{
    if k == 0 {
        assert(s.take(0) =~= Seq::<Expr>::empty());
        assert(s.take(1)[0] == s[0]);
        assert(s.take(1).drop_first() =~= Seq::<Expr>::empty());
        assert(positive_atoms_list(s.take(1).drop_first(), neg) =~= Seq::<usize>::empty());
        assert(positive_atoms_list(s.take(1), neg) == positive_atoms(s[0], neg) + positive_atoms_list(s.take(1).drop_first(), neg));
        assert(positive_atoms(s[0], neg) + Seq::<usize>::empty() =~= positive_atoms(s[0], neg));
        assert(Seq::<usize>::empty() + positive_atoms(s[0], neg) =~= positive_atoms(s[0], neg));
    } else {
        lemma_positive_atoms_list_take(s.drop_first(), k - 1, neg);
        assert(s.take(k + 1).drop_first() =~= s.drop_first().take(k));
        assert(s.take(k).drop_first() =~= s.drop_first().take(k - 1));
        assert(s.drop_first()[k - 1] == s[k]);
        assert(s.take(k + 1)[0] == s[0]);
        assert(s.take(k)[0] == s[0]);
        let a = positive_atoms(s[0], neg);
        let b = positive_atoms_list(s.drop_first().take(k - 1), neg);
        let c = positive_atoms(s[k], neg);
        assert(positive_atoms_list(s.take(k + 1), neg) == a + positive_atoms_list(s.take(k + 1).drop_first(), neg));
        assert(positive_atoms_list(s.take(k), neg) == a + positive_atoms_list(s.take(k).drop_first(), neg));
        assert(a + (b + c) =~= (a + b) + c);
    }
}

/// Appends to `out` the atoms of `expr` that stand under an even number of
/// negations (counting `neg` as one more), in tree order.
pub fn collect_positive_atoms(expr: &Expr, neg: bool, out: &mut Vec<usize>)
    ensures
        final(out)@ == old(out)@ + positive_atoms(*expr, neg),
    decreases expr_size(*expr),
{
    match expr {
        Expr::Atom(i) => {
            if !neg {
                out.push(*i);
            } else {
                assert(old(out)@ + Seq::<usize>::empty() =~= old(out)@);
            }
        },
        Expr::Not(inner) => collect_positive_atoms(inner, !neg, out),
        Expr::And(v) | Expr::Or(v) => {
            let ghost start = out@;
            let mut k: usize = 0;
            assert(v@.take(0) =~= Seq::<Expr>::empty());
            assert(start + Seq::<usize>::empty() =~= start);
            while k < v.len()
                invariant
                    k <= v.len(),
                    *expr == Expr::And(*v) || *expr == Expr::Or(*v),
                    out@ == start + positive_atoms_list(v@.take(k as int), neg),
                decreases v.len() - k,
            {
                proof {
                    lemma_exprs_size(v@, k as int);
                    lemma_positive_atoms_list_take(v@, k as int, neg);
                }
                let ghost before = out@;
                collect_positive_atoms(&v[k], neg, out);
                proof {
                    let a = start;
                    let b = positive_atoms_list(v@.take(k as int), neg);
                    let c = positive_atoms(v@[k as int], neg);
                    assert(a + (b + c) =~= (a + b) + c);
                }
                k += 1;
            }
            assert(v@.take(v@.len() as int) =~= v@);
        },
    }
}

/// `v` is in strictly increasing order.
pub open spec fn strictly_sorted(v: Seq<usize>) -> bool {
    forall|i: int, j: int| 0 <= i < j < v.len() ==> v[i] < v[j]
}

/// Inserts `x` into the strictly increasing `v` unless it is there already.
fn insert_sorted_unique(v: &mut Vec<usize>, x: usize)
    requires
        strictly_sorted(old(v)@),
    ensures
        strictly_sorted(final(v)@),
        forall|y: usize| final(v)@.contains(y) <==> (old(v)@.contains(y) || y == x),
{
    let mut i: usize = 0;
    while i < v.len() && v[i] < x
        invariant
            i <= v.len(),
            v@ == old(v)@,
            strictly_sorted(v@),
            forall|j: int| 0 <= j < i ==> v@[j] < x,
        decreases v.len() - i,
    {
        i += 1;
    }
    if i < v.len() && v[i] == x {
        assert(v@[i as int] == x);
        assert(v@.contains(x));
        return;
    }
    let ghost before = v@;
    assert(before == old(v)@);
    v.insert(i, x);
    assert forall|y: usize| v@.contains(y) <==> (before.contains(y) || y == x) by {
        if v@.contains(y) {
            let j = choose|j: int| 0 <= j < v@.len() && #[trigger] v@[j] == y;
            if j < i {
                assert(before[j] == y);
            } else if j > i {
                assert(before[j - 1] == y);
            }
        }
        if before.contains(y) {
            let j = choose|j: int| 0 <= j < before.len() && #[trigger] before[j] == y;
            if j < i {
                assert(v@[j] == y);
            } else {
                assert(v@[j + 1] == y);
            }
        }
        if y == x {
            assert(v@[i as int] == x);
        }
    }
    assert(forall|y: usize| v@.contains(y) <==> (old(v)@.contains(y) || y == x));
    assert(strictly_sorted(v@));
}

impl Query {
    /// A query that requires every term (their conjunction), highlighting all of them.
    pub fn new(terms: Vec<Term>) -> (r: Query)
        ensures
            r.terms@ == terms@,
            terms@.len() == 0 ==> r.expr is None,
            terms@.len() > 0 ==> (r.expr matches Some(Expr::And(v)) && v@ == all_atoms(terms@.len())),
            r.highlights@ == terms@.map_values(|t: Term| term_highlight(t)),
            r.path_filter.include_set is None,
            r.path_filter.exclude is None,
            r.path_filter.include_contains@.len() == 0,
            r.path_filter.exclude_contains@.len() == 0,
            r.byte_matchers@.len() == 0,
    {
        let n = terms.len();
        let expr = if n == 0 {
            None
        } else {
            Some(Expr::And(atoms_upto(n)))
        };
        let mut highlights: Vec<KeywordHighlight> = Vec::new();
        let mut i: usize = 0;
        while i < n
            invariant
                n == terms@.len(),
                i <= n,
                highlights@ == terms@.take(i as int).map_values(|t: Term| term_highlight(t)),
            decreases n - i,
        {
            let h = terms[i].highlight();
            match h {
                Some(h) => highlights.push(h),
                None => {},
            }
            assert(terms@.take(i as int + 1).map_values(|t: Term| term_highlight(t)) =~= terms@.take(
                i as int,
            ).map_values(|t: Term| term_highlight(t)).push(term_highlight(terms@[i as int])));
            i += 1;
        }
        assert(terms@.take(n as int) =~= terms@);
        Query { terms, expr, path_filter: PathFilter::empty(), highlights, byte_matchers: Vec::new() }
    }

    /// The sorted, duplicate-free indices of the terms that occur positively
    /// (under an even number of negations) in the expression.
    pub fn positive_term_indices(&self) -> (r: Vec<usize>)
        ensures
            strictly_sorted(r@),
            forall|x: usize| r@.contains(x) <==> (self.expr matches Some(e) && positive_atoms(e, false).contains(x)),
    {
        let mut indices: Vec<usize> = Vec::new();
        if let Some(e) = &self.expr {
            collect_positive_atoms(e, false, &mut indices);
        }
        assert(indices@ =~= Seq::<usize>::empty() + indices@);
        let mut sorted: Vec<usize> = Vec::new();
        let mut i: usize = 0;
        while i < indices.len()
            invariant
                i <= indices.len(),
                strictly_sorted(sorted@),
                forall|x: usize| sorted@.contains(x) <==> indices@.take(i as int).contains(x),
            decreases indices.len() - i,
        {
            let ghost prev = sorted@;
            insert_sorted_unique(&mut sorted, indices[i]);
            assert forall|x: usize| indices@.take(i as int + 1).contains(x) <==> (indices@.take(i as int).contains(x) || x == indices@[i as int]) by {
                if indices@.take(i as int + 1).contains(x) {
                    let j = choose|j: int| 0 <= j < i + 1 && #[trigger] indices@.take(i as int + 1)[j] == x;
                    if j < i {
                        assert(indices@.take(i as int)[j] == x);
                    }
                }
                if indices@.take(i as int).contains(x) {
                    let j = choose|j: int| 0 <= j < i && #[trigger] indices@.take(i as int)[j] == x;
                    assert(indices@.take(i as int + 1)[j] == x);
                }
                if x == indices@[i as int] {
                    assert(indices@.take(i as int + 1)[i as int] == x);
                }
            }
            assert forall|x: usize| sorted@.contains(x) <==> indices@.take(i as int + 1).contains(x) by {
                assert(sorted@.contains(x) <==> (prev.contains(x) || x == indices@[i as int]));
                assert(prev.contains(x) <==> indices@.take(i as int).contains(x));
            }
            i += 1;
        }
        assert(indices@.take(indices@.len() as int) =~= indices@);
        sorted
    }

    /// Whether a file whose keyword occurrences are `occurs` (`occurs[i]`:
    /// term `i` occurs somewhere in it; indices past the end count as absent)
    /// satisfies the query. A query without expression matches nothing.
    pub fn eval_file(&self, occurs: &[bool]) -> (r: bool)
        ensures
            r == (self.expr matches Some(e) && eval_spec(e, occurs_val(occurs@))),
    {
        match &self.expr {
            Some(e) => {
                let f = |i: usize| -> (b: bool)
                    ensures
                        b == (i < occurs@.len() && occurs@[i as int]),
                    { i < occurs.len() && occurs[i] };
                let r = eval_expr(e, &f);
                assert(decides(f, occurs_val(occurs@)));
                r
            },
            None => false,
        }
    }
}

/// Atom values read from an occurrence list; indices past its end are false.
pub open spec fn occurs_val(o: Seq<bool>) -> spec_fn(usize) -> bool {
    |i: usize| i < o.len() && o[i as int]
}

/// The atoms `0 .. n` in order.
pub open spec fn all_atoms(n: nat) -> Seq<Expr> {
    Seq::new(n, |i: int| Expr::Atom(i as usize))
}

/// The atoms `0 .. n` in order.
fn atoms_upto(n: usize) -> (v: Vec<Expr>)
    ensures
        v@ == all_atoms(n as nat),
{
    let mut v: Vec<Expr> = Vec::new();
    let mut i: usize = 0;
    while i < n
        invariant
            i <= n,
            v@ == all_atoms(i as nat),
        decreases n - i,
    {
        v.push(Expr::Atom(i));
        assert(v@ =~= all_atoms(i as nat + 1));
        i += 1;
    }
    v
}

} // verus!

verus! {

/// The non-empty strings of `ks`, in order.
pub open spec fn nonempty(ks: Seq<String>) -> Seq<String>
    decreases ks.len(),
{
    if ks.len() == 0 {
        Seq::empty()
    } else if ks.last()@.len() > 0 {
        nonempty(ks.drop_last()).push(ks.last())
    } else {
        nonempty(ks.drop_last())
    }
}

impl Query {
    /// A query requiring every non-empty keyword as a case-insensitive literal.
    pub fn from_keywords(keywords: &[String]) -> (r: Query)
        ensures
            r.terms@.len() == nonempty(keywords@).len(),
            forall|i: int| 0 <= i < r.terms@.len() ==> (#[trigger] r.terms@[i] matches Term::Literal(s) && s == nonempty(keywords@)[i]),
            nonempty(keywords@).len() == 0 ==> r.expr is None,
            nonempty(keywords@).len() > 0 ==> (r.expr matches Some(Expr::And(v)) && v@ == all_atoms(nonempty(keywords@).len())),
            r.highlights@ == nonempty(keywords@).map_values(|s: String| KeywordHighlight::Literal(s)),
            r.byte_matchers@.len() == nonempty(keywords@).len(),
            forall|i: int| 0 <= i < r.byte_matchers@.len() ==> (#[trigger] r.byte_matchers@[i] is Some <==> keyword_matcher_builds(nonempty(keywords@)[i]@)),
            forall|i: int| 0 <= i < r.byte_matchers@.len() ==> (#[trigger] r.byte_matchers@[i] matches Some(m) ==> m@ == nonempty(keywords@)[i]@),
            r.path_filter.include_set is None,
            r.path_filter.exclude is None,
            r.path_filter.include_contains@.len() == 0,
            r.path_filter.exclude_contains@.len() == 0,
    {
        let mut terms: Vec<Term> = Vec::new();
        let mut highlights: Vec<KeywordHighlight> = Vec::new();
        let mut byte_matchers: Vec<Option<KeywordByteMatcher>> = Vec::new();
        let mut i: usize = 0;
        while i < keywords.len()
            invariant
                i <= keywords.len(),
                terms@.len() == nonempty(keywords@.take(i as int)).len(),
                forall|j: int| 0 <= j < terms@.len() ==> (#[trigger] terms@[j] matches Term::Literal(s) && s == nonempty(keywords@.take(i as int))[j]),
                highlights@ == nonempty(keywords@.take(i as int)).map_values(|s: String| KeywordHighlight::Literal(s)),
                byte_matchers@.len() == terms@.len(),
                forall|j: int| 0 <= j < byte_matchers@.len() ==> (#[trigger] byte_matchers@[j] is Some <==> keyword_matcher_builds(nonempty(keywords@.take(i as int))[j]@)),
                forall|j: int| 0 <= j < byte_matchers@.len() ==> (#[trigger] byte_matchers@[j] matches Some(m) ==> m@ == nonempty(keywords@.take(i as int))[j]@),
            decreases keywords.len() - i,
        {
            let k = &keywords[i];
            proof {
                assert(keywords@.take(i as int + 1).drop_last() =~= keywords@.take(i as int));
                assert(keywords@.take(i as int + 1).last() == keywords@[i as int]);
            }
            if !k.as_str().is_empty() {
                terms.push(Term::Literal(k.clone()));
                highlights.push(KeywordHighlight::Literal(k.clone()));
                byte_matchers.push(KeywordByteMatcher::compile(k.as_str()));
                assert(highlights@ =~= nonempty(keywords@.take(i as int + 1)).map_values(|s: String| KeywordHighlight::Literal(s)));
            }
            i += 1;
        }
        assert(keywords@.take(keywords@.len() as int) =~= keywords@);
        let n = terms.len();
        let expr = if n == 0 {
            None
        } else {
            Some(Expr::And(atoms_upto(n)))
        };
        Query { terms, expr, path_filter: PathFilter::empty(), highlights, byte_matchers }
    }
}

} // verus!

verus! {

/// `q` is `old` with only the named side of its path filter changed.
pub open spec fn same_but_filter(q: Query, old: Query) -> bool {
    &&& q.terms == old.terms
    &&& q.expr == old.expr
    &&& q.highlights == old.highlights
    &&& q.byte_matchers == old.byte_matchers
    &&& q.path_filter.include_contains == old.path_filter.include_contains
    &&& q.path_filter.exclude_contains == old.path_filter.exclude_contains
}

/// Compiles one glob (default options, `*` crossing `/`) into a set.
fn single_glob_set(pattern: &str) -> (r: Result<globset::GlobSet, String>)
    ensures
        r is Ok <==> (glob_compiles(pattern@, false) && glob_set_builds(seq![(pattern@, false)])),
        r matches Ok(g) ==> glob_set_globs(g) == seq![(pattern@, false)],
{
    let mut builder = glob_builder_new();
    match glob_builder_add(&mut builder, pattern, false) {
        Ok(()) => {},
        Err(e) => {
            return Err(crate::glob::glob_error_text(&e));
        },
    }
    assert(glob_builder_globs(builder) =~= seq![(pattern@, false)]);
    match glob_builder_build(&builder) {
        Ok(set) => Ok(set),
        Err(e) => Err(crate::glob::glob_error_text(&e)),
    }
}

impl Query {
    /// Adds a path rule: `!glob` sets the exclude glob, any other pattern
    /// the include glob (default glob options); `None` leaves the query as
    /// it is. A pattern `globset` refuses gives its error message.
    pub fn with_path_filter(self, pattern: Option<String>) -> (r: Result<Query, String>)
        ensures
            pattern is None ==> r == Ok::<Query, String>(self),
            pattern matches Some(p) ==> ({
                let neg = seq_starts_with(p@, "!"@);
                let g = if neg { p@.skip(1) } else { p@ };
                &&& (r is Ok <==> (glob_compiles(g, false) && glob_set_builds(seq![(g, false)])))
                &&& (r matches Ok(q) ==> {
                    &&& same_but_filter(q, self)
                    &&& neg ==> (q.path_filter.include_set == self.path_filter.include_set
                        && (q.path_filter.exclude matches Some(s) && glob_set_globs(s) == seq![(g, false)]))
                    &&& !neg ==> (q.path_filter.exclude == self.path_filter.exclude
                        && (q.path_filter.include_set matches Some(s) && glob_set_globs(s) == seq![(g, false)]))
                })
            }),
    {
        let mut q = self;
        match pattern {
            None => Ok(q),
            Some(p) => {
                proof { reveal_strlit("!"); }
                match crate::text::strip_prefix_str(p.as_str(), "!") {
                    Some(stripped) => {
                        let set = single_glob_set(stripped)?;
                        q.path_filter.exclude = Some(set);
                        Ok(q)
                    },
                    None => {
                        let set = single_glob_set(p.as_str())?;
                        q.path_filter.include_set = Some(set);
                        Ok(q)
                    },
                }
            },
        }
    }
}

} // verus!
