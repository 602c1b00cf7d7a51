//! Search results and the per-file search: which lines match, whether the
//! file satisfies the query, and which context ranges are shown.
use vstd::prelude::*;
use crate::text::opt_view;
use crate::text::string_views;
use crate::query::{Query, Term, term_matches, positive_atoms, eval_spec, occurs_val};
use crate::regexes::{KeywordByteMatcher, keyword_matches_bytes};
use crate::service_error::joined4;
use crate::io_error::io_error_text;
use crate::query::PathFilter;
use crate::query::path_allowed;
use crate::regexes::{regex_escape, regex_escaped};
use crate::text::{join_with, joined_with};
use crate::encoding::{detect_encoding, detected_encoding, encoding_for_label, utf_8, label_encoding, decoded_text, lines_of, decode_buffer_to_lines, grep_context_lines, chosen_encoding, text_file_lines};
use std::sync::Arc;

verus! {

/// Errors of the content search.
#[derive(Debug)]
pub enum SearchError {
    /// An I/O failure while reading `path`.
    Io { path: String, error: String },
    /// The receiving end of the result channel is gone.
    ChannelClosed,
}

/// The text of a search error.
pub open spec fn search_error_message(e: SearchError) -> Seq<char> {
    match e {
        SearchError::Io { path, error } => "IO错误: path="@ + path@ + ", error="@ + error@,
        SearchError::ChannelClosed => "Channel 已关闭: 接收端已断开连接"@,
    }
}

impl SearchError {
    /// The text of the error.
    pub fn message(&self) -> (r: String)
        ensures
            r@ == search_error_message(*self),
    {
        match self {
            SearchError::Io { path, error } => joined4("IO错误: path=", path.as_str(), ", error=", error.as_str()),
            SearchError::ChannelClosed => String::from_str("Channel 已关闭: 接收端已断开连接"),
        }
    }

    /// The error of a failed I/O operation whose path is not known: the
    /// path is "unknown", the error the I/O error's text.
    pub fn from_io_text(text: String) -> (r: SearchError)
        ensures
            r matches SearchError::Io { path, error } && path@ == "unknown"@ && error == text,
    {
        SearchError::Io { path: String::from_str("unknown"), error: text }
    }
}

impl From<std::io::Error> for SearchError {
    /// An I/O error of path "unknown" with the I/O error's text (see
    /// `from_io_text`); that text comes from the system, so this conversion
    /// states nothing more.
    fn from(err: std::io::Error) -> (r: SearchError) {
        SearchError::from_io_text(io_error_text(&err))
    }
}

/// The text of an I/O error comes from the system, so no exact result of
/// the conversion is stated: it does not claim to obey a specification.
impl vstd::std_specs::convert::FromSpecImpl<std::io::Error> for SearchError {
    open spec fn obeys_from_spec() -> bool {
        false
    }

    open spec fn from_spec(err: std::io::Error) -> SearchError {
        SearchError::ChannelClosed
    }
}

/// Where a searched entry came from.
#[derive(Debug, Clone, Copy, PartialEq, Eq)]
pub enum EntrySourceType {
    /// A plain file.
    File,
    /// An entry of a tar archive.
    Tar,
    /// An entry of a gzip-compressed tar archive.
    TarGz,
    /// A gzip-compressed file.
    Gz,
}

impl Default for EntrySourceType {
    fn default() -> (r: EntrySourceType)
        ensures
            r == EntrySourceType::File,
    {
        EntrySourceType::File
    }
}

/// The search result of one file: its lines, the merged context ranges
/// (0-based, inclusive) to show, and where it came from.
#[derive(Debug)]
pub struct SearchResult {
    pub path: String,
    pub lines: Vec<String>,
    pub merged: Vec<(usize, usize)>,
    /// Name of the file's encoding (such as "UTF-8" or "GBK").
    pub encoding: Option<String>,
    /// For an entry inside an archive: the archive's own path.
    pub archive_path: Option<String>,
    pub source_type: EntrySourceType,
}

impl SearchResult {
    /// A result of a plain file, outside any archive.
    pub fn new(path: String, lines: Vec<String>, merged: Vec<(usize, usize)>, encoding: Option<String>) -> (r: SearchResult)
        ensures
            r.path == path,
            r.lines == lines,
            r.merged == merged,
            r.encoding == encoding,
            r.archive_path is None,
            r.source_type == EntrySourceType::File,
    {
        SearchResult { path, lines, merged, encoding, archive_path: None, source_type: EntrySourceType::File }
    }

    /// The same result with its source type set.
    pub fn with_source_type(self, source_type: EntrySourceType) -> (r: SearchResult)
        ensures
            r == (SearchResult { source_type, ..self }),
    {
        let mut s = self;
        s.source_type = source_type;
        s
    }

    /// The same result with its archive path set.
    pub fn with_archive_path(self, archive_path: Option<String>) -> (r: SearchResult)
        ensures
            r == (SearchResult { archive_path, ..self }),
    {
        let mut s = self;
        s.archive_path = archive_path;
        s
    }
}

/// An event of the streamed search.
#[derive(Debug)]
pub enum SearchEvent {
    /// A file matched.
    Success(SearchResult),
    /// A source failed; `recoverable` says whether the others go on.
    Error { source: String, message: String, recoverable: bool },
    /// A source is done.
    Complete { source: String, elapsed_ms: u64 },
}

/// What the line-oriented searcher collects of a file: which terms occur
/// (as far as the byte matchers tell), the 0-based numbers of the matching
/// lines, and how many matches it reported.
pub struct BooleanContextSink<'a> {
    pub query: &'a Query,
    pub occurs: Vec<bool>,
    pub matched_lines: Vec<usize>,
    pub matched_count: u64,
    /// Name of the encoding the searcher decodes with.
    pub encoding: Option<&'a str>,
}

/// A term occurs after a match on `line` where it did before, or where its
/// byte matcher finds it in the line.
pub open spec fn occurs_after(before: Seq<bool>, matchers: Seq<Option<KeywordByteMatcher>>, line: Seq<u8>) -> Seq<bool> {
    Seq::new(before.len(), |i: int| before[i] || (i < matchers.len() && (matchers[i] matches Some(m) && keyword_matches_bytes(m@, line))))
}

impl<'a> BooleanContextSink<'a> {
    /// A collector for `query`, starting from the given state.
    pub fn new(
        query: &'a Query,
        occurs: Vec<bool>,
        matched_lines: Vec<usize>,
        matched_count: u64,
        encoding: Option<&'a str>,
    ) -> (r: BooleanContextSink<'a>)
        ensures
            r.query == query,
            r.occurs == occurs,
            r.matched_lines == matched_lines,
            r.matched_count == matched_count,
            r.encoding == encoding,
    {
        BooleanContextSink { query, occurs, matched_lines, matched_count, encoding }
    }

    /// Records a match reported on `line` (its bytes) with its 1-based
    /// number, if the searcher knows it: counts it, marks the terms whose
    /// byte matchers find them in the line, and keeps the line's 0-based
    /// number (a missing or zero number keeps nothing).
    pub fn matched(&mut self, line: &[u8], line_number: Option<u64>)
        requires
            old(self).matched_count < u64::MAX,
            old(self).query.byte_matchers@.len() <= old(self).occurs@.len(),
        ensures
            final(self).query == old(self).query,
            final(self).encoding == old(self).encoding,
            final(self).matched_count == old(self).matched_count + 1,
            final(self).occurs@ == occurs_after(old(self).occurs@, old(self).query.byte_matchers@, line@),
            final(self).matched_lines@ == (match line_number {
                Some(n) if n as usize > 0 => old(self).matched_lines@.push((n as usize - 1) as usize),
                _ => old(self).matched_lines@,
            }),
    {
        self.matched_count = self.matched_count + 1;
        let ghost before = self.occurs@;
        let matchers = &self.query.byte_matchers;
        let mut i: usize = 0;
        while i < matchers.len()
            invariant
                i <= matchers@.len(),
                self.query == old(self).query,
                self.encoding == old(self).encoding,
                self.matched_count == old(self).matched_count + 1,
                self.matched_lines == old(self).matched_lines,
                matchers == &old(self).query.byte_matchers,
                matchers@.len() <= self.occurs@.len(),
                self.occurs@.len() == before.len(),
                forall|j: int| 0 <= j < i ==> #[trigger] self.occurs@[j] == occurs_after(before, matchers@, line@)[j],
                forall|j: int| i <= j < before.len() ==> #[trigger] self.occurs@[j] == before[j],
            decreases matchers@.len() - i,
        {
            if !self.occurs[i] {
                match &matchers[i] {
                    Some(re) => {
                        if re.is_match(line) {
                            self.occurs.set(i, true);
                        }
                    },
                    None => {},
                }
            }
            i += 1;
        }
        assert(self.occurs@ =~= occurs_after(before, matchers@, line@));
        match line_number {
            Some(n) => {
                let num = n as usize;
                if num > 0 {
                    self.matched_lines.push(num - 1);
                }
            },
            None => {},
        }
    }
}

/// The context range of line `idx`: `ctx` lines either side, cut at line 0
/// and at the last line `total - 1` (at 0 when there is no line).
pub open spec fn ctx_range(idx: usize, ctx: usize, total: usize) -> (usize, usize) {
    let s = if idx >= ctx { (idx - ctx) as usize } else { 0usize };
    let max_idx = if total >= 1 { (total - 1) as usize } else { 0usize };
    let e = if idx + ctx <= max_idx { (idx + ctx) as usize } else { max_idx };
    (s, e)
}

/// Folds ranges, taken in order, into merged ranges: a range that starts
/// at most one line after the end of the last merged range extends it.
pub open spec fn merge_spec(rs: Seq<(usize, usize)>) -> Seq<(usize, usize)>
    decreases rs.len(),
{
    if rs.len() == 0 {
        Seq::empty()
    } else {
        let m = merge_spec(rs.drop_last());
        let (s, e) = rs.last();
        if m.len() > 0 && s <= m.last().1 + 1 {
            let (ls, le) = m.last();
            m.update(m.len() - 1, (ls, if e > le { e } else { le }))
        } else {
            m.push((s, e))
        }
    }
}

/// The context ranges of the matched lines.
pub open spec fn ctx_ranges(matched: Seq<usize>, ctx: usize, total: usize) -> Seq<(usize, usize)> {
    matched.map_values(|i: usize| ctx_range(i, ctx, total))
}

/// `v` is in strictly increasing order.
pub open spec fn ascending(v: Seq<usize>) -> bool {
    forall|i: int, j: int| 0 <= i < j < v.len() ==> v[i] < v[j]
}

/// Every matched line plus the context stays within the machine's range.
pub open spec fn fits_context(matched: Seq<usize>, ctx: usize) -> bool {
    forall|i: int| 0 <= i < matched.len() ==> #[trigger] matched[i] + ctx <= usize::MAX
}

/// Merges the context ranges of the matched lines (0-based, in any order,
/// repeats allowed) of a file of `total_lines` lines: the ranges are
/// taken in the order of their lines and merged where they overlap or
/// touch.
pub fn merge_context_ranges(matched_lines: &[usize], context_lines: usize, total_lines: usize) -> (r: Vec<(usize, usize)>)
    requires
        fits_context(matched_lines@, context_lines),
    ensures
        exists|u: Seq<usize>| #[trigger] sorted_unique_of(u, matched_lines@)
            && r@ == merge_spec(ctx_ranges(u, context_lines, total_lines)),
{
    let mut w: Vec<usize> = Vec::new();
    let mut i: usize = 0;
    while i < matched_lines.len()
        invariant
            i <= matched_lines@.len(),
            w@ == matched_lines@.take(i as int),
        decreases matched_lines@.len() - i,
    {
        w.push(matched_lines[i]);
        assert(matched_lines@.take(i as int + 1) =~= matched_lines@.take(i as int).push(matched_lines@[i as int]));
        i += 1;
    }
    assert(matched_lines@.take(matched_lines@.len() as int) =~= matched_lines@);
    let hits = sort_unique(&w);
    assert forall|k: int| 0 <= k < hits@.len() implies #[trigger] hits@[k] + context_lines <= usize::MAX by {
        assert(hits@.contains(hits@[k]));
        assert(w@.contains(hits@[k]));
    }
    let r = merge_sorted_ranges(hits.as_slice(), context_lines, total_lines);
    assert(sorted_unique_of(hits@, matched_lines@));
    r
}

/// Merges the context ranges of ascending matched lines (0-based) of a
/// file of `total_lines` lines.
fn merge_sorted_ranges(matched_lines: &[usize], context_lines: usize, total_lines: usize) -> (r: Vec<(usize, usize)>)
    requires
        ascending(matched_lines@),
        forall|i: int| 0 <= i < matched_lines@.len() ==> #[trigger] matched_lines@[i] + context_lines <= usize::MAX,
    ensures
        r@ == merge_spec(ctx_ranges(matched_lines@, context_lines, total_lines)),
{
    let max_idx = if total_lines >= 1 { total_lines - 1 } else { 0 };
    let mut merged: Vec<(usize, usize)> = Vec::new();
    let mut k: usize = 0;
    while k < matched_lines.len()
        invariant
            k <= matched_lines@.len(),
            max_idx == (if total_lines >= 1 { (total_lines - 1) as usize } else { 0usize }),
            forall|i: int| 0 <= i < matched_lines@.len() ==> #[trigger] matched_lines@[i] + context_lines <= usize::MAX,
            merged@ == merge_spec(ctx_ranges(matched_lines@.take(k as int), context_lines, total_lines)),
            forall|i: int| 0 <= i < merged@.len() ==> #[trigger] merged@[i].1 <= max_idx,
        decreases matched_lines@.len() - k,
    {
        let idx = matched_lines[k];
        let s = if idx >= context_lines { idx - context_lines } else { 0 };
        let e = if idx + context_lines <= max_idx { idx + context_lines } else { max_idx };
        proof {
            let rs = ctx_ranges(matched_lines@.take(k as int + 1), context_lines, total_lines);
            assert(rs.drop_last() =~= ctx_ranges(matched_lines@.take(k as int), context_lines, total_lines));
            assert(rs.last() == (s, e));
        }
        let n = merged.len();
        if n > 0 && s <= merged[n - 1].1 + 1 {
            let (ls, le) = merged[n - 1];
            let ne = if e > le { e } else { le };
            merged.set(n - 1, (ls, ne));
        } else {
            merged.push((s, e));
        }
        k += 1;
    }
    assert(matched_lines@.take(matched_lines@.len() as int) =~= matched_lines@);
    merged
}

/// The term indices that occur positively in the query's expression.
pub open spec fn positive_set(q: Query) -> Set<usize> {
    Set::new(|x: usize| q.expr matches Some(e) && positive_atoms(e, false).contains(x))
}

/// The line matches one of the positive terms (an index past the term
/// list counts as no term).
pub open spec fn line_positive(terms: Seq<Term>, pos: Set<usize>, line: Seq<char>) -> bool {
    exists|x: usize| #[trigger] pos.contains(x) && x < terms.len() && term_matches(terms[x as int], line)
}

/// Term `t` matches some line of `lines`.
pub open spec fn term_occurs(t: Term, lines: Seq<String>) -> bool {
    exists|i: int| 0 <= i < lines.len() && term_matches(t, #[trigger] lines[i]@)
}

/// The occurrence list of the terms over the lines.
pub open spec fn occurrences(terms: Seq<Term>, lines: Seq<String>) -> Seq<bool> {
    terms.map_values(|t: Term| term_occurs(t, lines))
}

/// The indices of the lines that match a positive term, ascending.
pub open spec fn matched_lines_spec(terms: Seq<Term>, pos: Set<usize>, lines: Seq<String>) -> Seq<usize>
    decreases lines.len(),
{
    if lines.len() == 0 {
        Seq::empty()
    } else {
        let prev = matched_lines_spec(terms, pos, lines.drop_last());
        if line_positive(terms, pos, lines.last()@) {
            prev.push((lines.len() - 1) as usize)
        } else {
            prev
        }
    }
}

/// Whether the line matches one of the terms whose indices are in `pos`.
fn line_hits_positive(terms: &Vec<Term>, pos: &Vec<usize>, line: &str) -> (r: bool)
    ensures
        r == (exists|k: int| 0 <= k < pos@.len() && #[trigger] pos@[k] < terms@.len() && term_matches(terms@[pos@[k] as int], line@)),
{
    let mut k: usize = 0;
    while k < pos.len()
        invariant
            k <= pos@.len(),
            forall|j: int| 0 <= j < k ==> !(#[trigger] pos@[j] < terms@.len() && term_matches(terms@[pos@[j] as int], line@)),
        decreases pos@.len() - k,
    {
        let pi = pos[k];
        if pi < terms.len() {
            if terms[pi].matches(line) {
                return true;
            }
        }
        k += 1;
    }
    false
}

/// The matched lines are the indexes, in increasing order, of exactly the
/// lines that match a positive term.
pub proof fn lemma_matched_lines(terms: Seq<Term>, pos: Set<usize>, lines: Seq<String>)
    requires
        lines.len() <= usize::MAX,
    ensures
        ascending(matched_lines_spec(terms, pos, lines)),
        forall|k: int| 0 <= k < matched_lines_spec(terms, pos, lines).len()
            ==> #[trigger] matched_lines_spec(terms, pos, lines)[k] < lines.len(),
        forall|j: int| 0 <= j < lines.len() ==> (line_positive(terms, pos, #[trigger] lines[j]@)
            <==> matched_lines_spec(terms, pos, lines).contains(j as usize)),
    decreases lines.len(),
{
    let ml = matched_lines_spec(terms, pos, lines);
    if lines.len() > 0 {
        let pre = lines.drop_last();
        lemma_matched_lines(terms, pos, pre);
        let pm = matched_lines_spec(terms, pos, pre);
        let n = (lines.len() - 1) as usize;
        assert forall|j: int| 0 <= j < pre.len() implies #[trigger] lines[j] == pre[j] by {}
        if line_positive(terms, pos, lines.last()@) {
            assert(ml == pm.push(n));
            assert forall|j: int| 0 <= j < lines.len() implies (line_positive(terms, pos, #[trigger] lines[j]@)
                <==> ml.contains(j as usize)) by {
                if j < pre.len() {
                    assert(lines[j] == pre[j]);
                    if pm.contains(j as usize) {
                        let k = choose|k: int| 0 <= k < pm.len() && pm[k] == j as usize;
                        assert(ml[k] == pm[k]);
                    }
                    if ml.contains(j as usize) {
                        let k = choose|k: int| 0 <= k < ml.len() && ml[k] == j as usize;
                        if k < pm.len() {
                            assert(pm[k] == ml[k]);
                        }
                    }
                } else {
                    assert(ml[pm.len() as int] == n);
                }
            }
        } else {
            assert(ml == pm);
            assert forall|j: int| 0 <= j < lines.len() implies (line_positive(terms, pos, #[trigger] lines[j]@)
                <==> ml.contains(j as usize)) by {
                if j < pre.len() {
                    assert(lines[j] == pre[j]);
                } else {
                    if ml.contains(j as usize) {
                        let k = choose|k: int| 0 <= k < ml.len() && ml[k] == j as usize;
                        assert(pm[k] < pre.len());
                    }
                }
            }
        }
    }
}

/// The context ranges of a file search: merged, they are non-empty, in
/// order, neither overlapping nor touching, inside the file, and they
/// cover exactly the lines within `ctx` lines of a line that matches a
/// positive term.
pub proof fn lemma_search_ranges(terms: Seq<Term>, pos: Set<usize>, lines: Seq<String>, ctx: usize)
    requires
        lines.len() <= usize::MAX,
        fits_context(matched_lines_spec(terms, pos, lines), ctx),
    ensures
        ({
            let n = lines.len() as usize;
            let m = merge_spec(ctx_ranges(matched_lines_spec(terms, pos, lines), ctx, n));
            &&& separated(m)
            &&& forall|i: int| 0 <= i < m.len() ==> #[trigger] m[i].1 < n
            &&& forall|x: int| covered(m, x) <==> exists|j: int| 0 <= j < n
                && line_positive(terms, pos, #[trigger] lines[j]@)
                && ctx_range(j as usize, ctx, n).0 <= x <= ctx_range(j as usize, ctx, n).1
        }),
{
    let n = lines.len() as usize;
    let ml = matched_lines_spec(terms, pos, lines);
    lemma_matched_lines(terms, pos, lines);
    lemma_merge_ranges(ml, ctx, n);
    let rs = ctx_ranges(ml, ctx, n);
    let m = merge_spec(rs);
    assert forall|x: int| covered(m, x) implies exists|j: int| 0 <= j < n
        && line_positive(terms, pos, #[trigger] lines[j]@)
        && ctx_range(j as usize, ctx, n).0 <= x <= ctx_range(j as usize, ctx, n).1 by {
        assert(covered(rs, x));
        let i = choose|i: int| 0 <= i < rs.len() && #[trigger] rs[i].0 <= x <= rs[i].1;
        let j = ml[i] as int;
        assert(ml.contains(j as usize));
        assert(line_positive(terms, pos, lines[j]@));
    }
    assert forall|x: int| (exists|j: int| 0 <= j < n
        && line_positive(terms, pos, #[trigger] lines[j]@)
        && ctx_range(j as usize, ctx, n).0 <= x <= ctx_range(j as usize, ctx, n).1) implies covered(m, x) by {
        let j = choose|j: int| 0 <= j < n
            && line_positive(terms, pos, #[trigger] lines[j]@)
            && ctx_range(j as usize, ctx, n).0 <= x <= ctx_range(j as usize, ctx, n).1;
        assert(ml.contains(j as usize));
        let i = choose|i: int| 0 <= i < ml.len() && ml[i] == j as usize;
        assert(rs[i] == ctx_range(j as usize, ctx, n));
        assert(covered(rs, x));
    }
}

/// The per-file search over decoded lines: records which terms occur, keeps
/// the lines that match a positive term, and, when the file satisfies the
/// query and some line was kept, returns the merged context ranges.
pub fn search_lines(lines: &[String], spec: &Query, context_lines: usize) -> (r: Option<Vec<(usize, usize)>>)
    ensures
        r is Some <==> (lines@.len() > 0 && spec.terms@.len() > 0
            && (spec.expr matches Some(e) && eval_spec(e, occurs_val(occurrences(spec.terms@, lines@))))
            && matched_lines_spec(spec.terms@, positive_set(*spec), lines@).len() > 0
            && fits_context(matched_lines_spec(spec.terms@, positive_set(*spec), lines@), context_lines)),
        r matches Some(m) ==> m@ == merge_spec(ctx_ranges(
            matched_lines_spec(spec.terms@, positive_set(*spec), lines@),
            context_lines,
            lines@.len() as usize,
        )),
{
    if lines.len() == 0 {
        return None;
    }
    let term_count = spec.terms.len();
    if term_count == 0 {
        return None;
    }
    let mut occurs: Vec<bool> = Vec::new();
    let mut t: usize = 0;
    while t < term_count
        invariant
            t <= term_count,
            occurs@.len() == t,
            forall|j: int| 0 <= j < t ==> !#[trigger] occurs@[j],
        decreases term_count - t,
    {
        occurs.push(false);
        t += 1;
    }
    let positive = spec.positive_term_indices();
    let ghost pos = positive_set(*spec);
    assert forall|x: usize| pos.contains(x) <==> positive@.contains(x) by {}
    let mut matched: Vec<usize> = Vec::new();
    let mut idx: usize = 0;
    while idx < lines.len()
        invariant
            idx <= lines@.len(),
            term_count == spec.terms@.len(),
            occurs@.len() == term_count,
            forall|j: int| 0 <= j < term_count ==> #[trigger] occurs@[j] == term_occurs(spec.terms@[j], lines@.take(idx as int)),
            matched@ == matched_lines_spec(spec.terms@, pos, lines@.take(idx as int)),
            forall|j: int| 0 <= j < matched@.len() ==> #[trigger] matched@[j] < idx,
            ascending(matched@),
            forall|x: usize| pos.contains(x) <==> positive@.contains(x),
        decreases lines@.len() - idx,
    {
        let line = lines[idx].as_str();
        let ghost prefix = lines@.take(idx as int);
        let ghost next = lines@.take(idx as int + 1);
        assert(next.drop_last() =~= prefix);
        assert(next.last() == lines@[idx as int]);
        let mut ti: usize = 0;
        while ti < term_count
            invariant
                ti <= term_count,
                term_count == spec.terms@.len(),
                occurs@.len() == term_count,
                next.drop_last() == prefix,
                next.last() == lines@[idx as int],
                prefix.len() == idx,
                next.len() == idx + 1,
                idx < lines@.len(),
                forall|i: int| 0 <= i < idx ==> #[trigger] next[i] == prefix[i],
                next[idx as int] == lines@[idx as int],
                line@ == lines@[idx as int]@,
                forall|j: int| 0 <= j < ti ==> #[trigger] occurs@[j] == term_occurs(spec.terms@[j], next),
                forall|j: int| ti <= j < term_count ==> #[trigger] occurs@[j] == term_occurs(spec.terms@[j], prefix),
            decreases term_count - ti,
        {
            proof {
                let tt = spec.terms@[ti as int];
                if term_occurs(tt, prefix) {
                    let i = choose|i: int| 0 <= i < prefix.len() && term_matches(tt, #[trigger] prefix[i]@);
                    assert(next[i] == prefix[i]);
                }
                if term_occurs(tt, next) && !term_matches(tt, line@) {
                    let i = choose|i: int| 0 <= i < next.len() && term_matches(tt, #[trigger] next[i]@);
                    assert(i < prefix.len());
                    assert(prefix[i] == next[i]);
                }
                if term_matches(tt, line@) {
                    assert(term_matches(tt, next[idx as int]@));
                }
            }
            if !occurs[ti] && spec.terms[ti].matches(line) {
                occurs.set(ti, true);
            }
            ti += 1;
        }
        let hit = line_hits_positive(&spec.terms, &positive, line);
        proof {
            if hit {
                let k = choose|k: int| 0 <= k < positive@.len() && #[trigger] positive@[k] < spec.terms@.len() && term_matches(spec.terms@[positive@[k] as int], line@);
                assert(positive@.contains(positive@[k]));
                assert(pos.contains(positive@[k]));
            }
            if line_positive(spec.terms@, pos, line@) {
                let x = choose|x: usize| #[trigger] pos.contains(x) && x < spec.terms@.len() && term_matches(spec.terms@[x as int], line@);
                assert(positive@.contains(x));
                let k = choose|k: int| 0 <= k < positive@.len() && positive@[k] == x;
                assert(positive@[k] < spec.terms@.len());
            }
        }
        if hit {
            matched.push(idx);
        }
        idx += 1;
    }
    assert(lines@.take(lines@.len() as int) =~= lines@);
    assert(occurs@ =~= occurrences(spec.terms@, lines@));
    if !spec.eval_file(&occurs) {
        return None;
    }
    if matched.len() == 0 {
        return None;
    }
    let last = matched[matched.len() - 1];
    if last > usize::MAX - context_lines {
        proof {
            assert(matched@[matched@.len() - 1] + context_lines > usize::MAX);
        }
        return None;
    }
    proof {
        assert forall|i: int| 0 <= i < matched@.len() implies #[trigger] matched@[i] + context_lines <= usize::MAX by {
            if i < matched@.len() - 1 {
                assert(matched@[i] < matched@[matched@.len() - 1]);
            }
        }
    }
    Some(merge_sorted_ranges(matched.as_slice(), context_lines, lines.len()))
}

} // verus!

verus! {

/// Line `x` lies in one of the ranges `rs`.
pub open spec fn covered(rs: Seq<(usize, usize)>, x: int) -> bool {
    exists|i: int| 0 <= i < rs.len() && #[trigger] rs[i].0 <= x <= rs[i].1
}

/// The ranges are non-empty, in order, and neither overlap nor touch.
pub open spec fn separated(rs: Seq<(usize, usize)>) -> bool {
    &&& forall|i: int| 0 <= i < rs.len() ==> #[trigger] rs[i].0 <= rs[i].1
    &&& forall|i: int| 0 <= i < rs.len() - 1 ==> #[trigger] rs[i].1 + 1 < rs[i + 1].0
}

/// Context ranges of ascending lines start and end in order.
proof fn lemma_ctx_range_monotone(a: usize, b: usize, ctx: usize, total: usize)
    requires
        a <= b,
    ensures
        ctx_range(a, ctx, total).0 <= ctx_range(b, ctx, total).0,
        ctx_range(a, ctx, total).1 <= ctx_range(b, ctx, total).1,
{
}

/// A line is covered by ranges with one more range pushed exactly when the
/// old ranges or the new one cover it.
proof fn lemma_covered_push(rs: Seq<(usize, usize)>, r: (usize, usize), x: int)
    ensures
        covered(rs.push(r), x) <==> (covered(rs, x) || r.0 <= x <= r.1),
{
    let t = rs.push(r);
    if covered(rs, x) {
        let i = choose|i: int| 0 <= i < rs.len() && #[trigger] rs[i].0 <= x <= rs[i].1;
        assert(t[i] == rs[i]);
    }
    if r.0 <= x <= r.1 {
        assert(t[rs.len() as int] == r);
    }
    if covered(t, x) {
        let i = choose|i: int| 0 <= i < t.len() && #[trigger] t[i].0 <= x <= t[i].1;
        if i < rs.len() {
            assert(t[i] == rs[i]);
        }
    }
}

/// Merging the context ranges of ascending matched lines (each below
/// `total`) gives ranges that are non-empty, in order, neither overlapping
/// nor touching, inside the file, and that cover exactly the lines that
/// some context range covers.
pub proof fn lemma_merge_ranges(matched: Seq<usize>, ctx: usize, total: usize)
    requires
        ascending(matched),
        forall|i: int| 0 <= i < matched.len() ==> #[trigger] matched[i] < total,
        forall|i: int| 0 <= i < matched.len() ==> #[trigger] matched[i] + ctx <= usize::MAX,
    ensures
        ({
            let m = merge_spec(ctx_ranges(matched, ctx, total));
            &&& separated(m)
            &&& forall|i: int| 0 <= i < m.len() ==> #[trigger] m[i].1 < total
            &&& forall|x: int| covered(m, x) <==> covered(ctx_ranges(matched, ctx, total), x)
            &&& matched.len() > 0 ==> m.len() > 0
                && m.last().1 == ctx_range(matched.last(), ctx, total).1
                && forall|i: int| 0 <= i < m.len() ==> #[trigger] m[i].0 <= ctx_range(matched.last(), ctx, total).0
        }),
    decreases matched.len(),
{
    let rs = ctx_ranges(matched, ctx, total);
    let m = merge_spec(rs);
    if matched.len() == 0 {
        assert(m.len() == 0);
        assert forall|x: int| covered(m, x) <==> covered(rs, x) by {}
    } else {
        let pre = matched.drop_last();
        lemma_merge_ranges(pre, ctx, total);
        let prs = ctx_ranges(pre, ctx, total);
        assert(rs =~= prs.push(rs.last()));
        assert(rs.drop_last() =~= prs);
        let pm = merge_spec(prs);
        let (s, e) = rs.last();
        assert(rs.last() == ctx_range(matched.last(), ctx, total));
        assert(s <= e);
        assert(e < total);
        if pre.len() > 0 {
            assert(pre.last() == matched[matched.len() - 2]);
            lemma_ctx_range_monotone(pre.last(), matched.last(), ctx, total);
        }
        if pm.len() > 0 && s <= pm.last().1 + 1 {
            let ls = pm.last().0;
            let le = pm.last().1;
            let pd = pm.drop_last();
            assert(pm =~= pd.push((ls, le)));
            assert(m =~= pd.push((ls, e)));
            assert forall|x: int| covered(m, x) <==> covered(rs, x) by {
                lemma_covered_push(pd, (ls, e), x);
                lemma_covered_push(pd, (ls, le), x);
                lemma_covered_push(prs, (s, e), x);
            }
        } else {
            assert(m =~= pm.push((s, e)));
            assert forall|x: int| covered(m, x) <==> covered(rs, x) by {
                lemma_covered_push(pm, (s, e), x);
                lemma_covered_push(prs, (s, e), x);
            }
        }
    }
}

/// The search of single files or archive entries for one query.
pub struct SearchProcessor {
    pub spec: Arc<Query>,
    pub context_lines: usize,
    /// The encoding named by the query's `encoding:` qualifier, if any.
    pub encoding: Option<String>,
}

impl SearchProcessor {
    /// A processor for a query, showing `context_lines` lines around hits.
    pub fn new(spec: Arc<Query>, context_lines: usize) -> (r: SearchProcessor)
        ensures
            r.spec == spec,
            r.context_lines == context_lines,
            r.encoding is None,
    {
        SearchProcessor { spec, context_lines, encoding: None }
    }

    /// A processor that reads files in the named encoding.
    pub fn new_with_encoding(spec: Arc<Query>, context_lines: usize, encoding: Option<String>) -> (r: SearchProcessor)
        ensures
            r.spec == spec,
            r.context_lines == context_lines,
            r.encoding == encoding,
    {
        SearchProcessor { spec, context_lines, encoding }
    }

    /// Whether the query's path rules let `path` through.
    pub fn should_process_path(&self, path: &str) -> (r: bool)
        ensures
            r == path_allowed(self.spec.path_filter, path@),
    {
        self.spec.path_filter.is_allowed(path)
    }

    /// Whether both an extra filter, where there is one, and the query's
    /// path rules let `path` through.
    pub fn should_process_path_with(&self, path: &str, extra: Option<&PathFilter>) -> (r: bool)
        ensures
            r == ((extra matches Some(f) ==> path_allowed(*f, path@)) && path_allowed(self.spec.path_filter, path@)),
    {
        if let Some(f) = extra {
            if !f.is_allowed(path) {
                return false;
            }
        }
        self.should_process_path(path)
    }

    /// The search of a text file read from a stream, given its first bytes
    /// and the rest: the file is read in the processor's encoding (or the
    /// one detected) and searched; a hit gives the result for `path`.
    pub fn search_text(&self, path: String, sample: &[u8], rest: &[u8]) -> (r: Option<SearchResult>)
        ensures
            ({
                let name = chosen_encoding(match self.encoding { Some(e) => Some(e@), None => None }, sample@);
                let lines = text_file_lines(name, sample@, rest@);
                match r {
                    Some(res) => {
                        &&& res.path == path
                        &&& string_views(res.lines@) == lines
                        &&& res.encoding matches Some(n) && n@ == name
                        &&& res.archive_path is None
                        &&& res.source_type == EntrySourceType::File
                        &&& lines.len() > 0
                        &&& self.spec.terms@.len() > 0
                        &&& self.spec.expr matches Some(e) && eval_spec(e, occurs_val(occurrences(self.spec.terms@, res.lines@)))
                        &&& matched_lines_spec(self.spec.terms@, positive_set(*self.spec), res.lines@).len() > 0
                        &&& fits_context(matched_lines_spec(self.spec.terms@, positive_set(*self.spec), res.lines@), self.context_lines)
                        &&& res.merged@ == merge_spec(ctx_ranges(
                            matched_lines_spec(self.spec.terms@, positive_set(*self.spec), res.lines@),
                            self.context_lines,
                            lines.len() as usize,
                        ))
                    },
                    None => lines.len() == 0 || !(
                        forall|ls: Seq<String>| string_views(ls) == lines ==> {
                            &&& self.spec.terms@.len() > 0
                            &&& self.spec.expr matches Some(e) && eval_spec(e, occurs_val(occurrences(self.spec.terms@, ls)))
                            &&& matched_lines_spec(self.spec.terms@, positive_set(*self.spec), ls).len() > 0
                            &&& fits_context(matched_lines_spec(self.spec.terms@, positive_set(*self.spec), ls), self.context_lines)
                        }
                    ),
                }
            }),
    {
        let q: Option<&str> = match &self.encoding {
            Some(e) => Some(e.as_str()),
            None => None,
        };
        match grep_context_lines(&self.spec, self.context_lines, q, sample, rest) {
            Some((lines, merged, encoding)) => Some(SearchResult::new(path, lines, merged, encoding)),
            None => None,
        }
    }
}

/// The pattern that a term contributes to the combined expression of a
/// line searcher: literals and phrases escaped, standard expressions as
/// they are; the backtracking engine's expressions have none.
pub open spec fn term_pattern(t: Term) -> Option<Seq<char>> {
    match t {
        Term::Literal(s) => Some(regex_escaped(s@)),
        Term::Phrase(s) => Some(regex_escaped(s@)),
        Term::RegexStd { pattern, .. } => Some(pattern@),
        Term::RegexFancy { .. } => None,
    }
}

/// The expression that finds the lines where any term may match: the term
/// patterns joined by `|`. A term without a pattern, or a query without
/// terms, gives an error.
pub open spec fn combined_pattern(ts: Seq<Term>) -> Result<Seq<char>, Seq<char>> {
    if exists|i: int| 0 <= i < ts.len() && term_pattern(#[trigger] ts[i]) is None {
        Err("Unsupported term type for grep"@)
    } else if ts.len() == 0 {
        Err("No patterns to match"@)
    } else {
        Ok(joined_with(ts.map_values(|t: Term| term_pattern(t)->0), "|"@))
    }
}

/// Builds the combined expression of a query's terms for a line searcher.
pub fn build_combined_pattern(spec: &Query) -> (r: Result<String, String>)
    ensures
        match r {
            Ok(p) => combined_pattern(spec.terms@) == Ok::<Seq<char>, Seq<char>>(p@),
            Err(m) => combined_pattern(spec.terms@) == Err::<Seq<char>, Seq<char>>(m@),
        },
{
    let mut patterns: Vec<String> = Vec::new();
    let mut i: usize = 0;
    while i < spec.terms.len()
        invariant
            i <= spec.terms@.len(),
            patterns@.len() == i,
            forall|j: int| 0 <= j < i ==> term_pattern(#[trigger] spec.terms@[j]) == Some(patterns@[j]@),
        decreases spec.terms@.len() - i,
    {
        let p = match &spec.terms[i] {
            Term::Literal(s) => regex_escape(s.as_str()),
            Term::Phrase(s) => regex_escape(s.as_str()),
            Term::RegexStd { pattern, .. } => pattern.clone(),
            Term::RegexFancy { .. } => {
                return Err("Unsupported term type for grep".to_owned());
            },
        };
        patterns.push(p);
        i += 1;
    }
    if patterns.len() == 0 {
        return Err("No patterns to match".to_owned());
    }
    let joined = join_with(&patterns, "|");
    proof {
        assert(patterns@.map_values(|s: String| s@) =~= spec.terms@.map_values(|t: Term| term_pattern(t)->0));
    }
    Ok(joined)
}

/// `v` is strictly increasing and holds exactly the numbers of `w`.
pub open spec fn sorted_unique_of(v: Seq<usize>, w: Seq<usize>) -> bool {
    &&& ascending(v)
    &&& forall|x: usize| v.contains(x) <==> w.contains(x)
}

/// Sorts numbers and drops repeats.
pub fn sort_unique(w: &Vec<usize>) -> (r: Vec<usize>)
    ensures
        sorted_unique_of(r@, w@),
{
    let mut out: Vec<usize> = Vec::new();
    let mut i: usize = 0;
    while i < w.len()
        invariant
            i <= w@.len(),
            sorted_unique_of(out@, w@.take(i as int)),
        decreases w@.len() - i,
    {
        let x = w[i];
        let n = out.len();
        // The position of the first element not below `x`.
        let mut p: usize = n;
        if n == 0 || out[n - 1] < x {
            p = n;
        } else {
            let mut k: usize = 0;
            while k < n && out[k] < x
                invariant
                    k <= n == out@.len(),
                    forall|j: int| 0 <= j < k ==> out@[j] < x,
                decreases n - k,
            {
                k += 1;
            }
            p = k;
        }
        proof {
            assert(forall|j: int| 0 <= j < p ==> out@[j] < x) by {
                if n > 0 && out@[n - 1] < x {
                    assert forall|j: int| 0 <= j < n implies out@[j] < x by {
                        if j < n - 1 {
                            assert(out@[j] < out@[n - 1]);
                        }
                    }
                }
            }
            assert(w@.take(i as int + 1) =~= w@.take(i as int).push(x));
        }
        if p < n && out[p] == x {
            proof {
                assert forall|y: usize| out@.contains(y) <==> w@.take(i as int + 1).contains(y) by {
                    assert(out@.contains(y) <==> w@.take(i as int).contains(y));
                    if y == x {
                        assert(out@[p as int] == x);
                        assert(w@.take(i as int + 1)[i as int] == x);
                    }
                    if w@.take(i as int + 1).contains(y) && y != x {
                        let j = choose|j: int| 0 <= j < i + 1 && #[trigger] w@.take(i as int + 1)[j] == y;
                        assert(w@.take(i as int).contains(y)) by {
                            assert(w@.take(i as int)[j] == y);
                        }
                    }
                }
            }
        } else {
            let ghost before = out@;
            out.insert(p, x);
            proof {
                assert forall|a: int, b: int| 0 <= a < b < out@.len() implies out@[a] < out@[b] by {
                    if b < p {
                    } else if a < p && b == p {
                    } else if a < p {
                        assert(before[b - 1] >= x) by {
                            if before[b - 1] < x {
                                assert(p <= b - 1);
                                if p < n {
                                    assert(before[p as int] <= before[b - 1]);
                                    assert(before[p as int] >= x);
                                }
                            }
                        }
                    } else if a == p {
                        assert(before[b - 1] >= x);
                        assert(p < n);
                        assert(before[p as int] >= x);
                        assert(before[p as int] != x);
                        if b - 1 > p {
                            assert(before[p as int] < before[b - 1]);
                        }
                    } else {
                    }
                }
                assert forall|y: usize| out@.contains(y) <==> w@.take(i as int + 1).contains(y) by {
                    assert(before.contains(y) <==> w@.take(i as int).contains(y));
                    assert(out@ == before.insert(p as int, x));
                    if y == x {
                        assert(w@.take(i as int + 1)[i as int] == x);
                    }
                    if out@.contains(y) {
                        let j = choose|j: int| 0 <= j < out@.len() && #[trigger] out@[j] == y;
                        if j < p {
                            assert(before[j] == y);
                            assert(before.contains(y));
                        } else if j > p {
                            assert(before[j - 1] == y);
                            assert(before.contains(y));
                        }
                    }
                    if before.contains(y) {
                        let j = choose|j: int| 0 <= j < before.len() && #[trigger] before[j] == y;
                        if j < p {
                            assert(out@[j] == y);
                        } else {
                            assert(out@[j + 1] == y);
                        }
                    }
                    if y == x {
                        assert(out@[p as int] == x);
                    }
                    if w@.take(i as int + 1).contains(y) && y != x {
                        let j = choose|j: int| 0 <= j < i + 1 && #[trigger] w@.take(i as int + 1)[j] == y;
                        assert(w@.take(i as int)[j] == y);
                    }
                    if w@.take(i as int).contains(y) {
                        let j = choose|j: int| 0 <= j < i && #[trigger] w@.take(i as int)[j] == y;
                        assert(w@.take(i as int + 1)[j] == y);
                    }
                }
            }
        }
        i += 1;
    }
    assert(w@.take(w@.len() as int) =~= w@);
    out
}

/// The encoding that a label names, or UTF-8 where it names none.
pub open spec fn label_or_utf8(label: Seq<char>) -> Seq<char> {
    match label_encoding(label) {
        Some(n) => n,
        None => "UTF-8"@,
    }
}

/// Whether a line searcher's run found the file: it satisfies the query by
/// the recorded occurrences and a match was reported.
pub fn grep_found(spec: &Query, occurs: &[bool], matched_count: u64) -> (r: bool)
    ensures
        r == ((spec.expr matches Some(e) && eval_spec(e, occurs_val(occurs@))) && matched_count > 0),
{
    spec.eval_file(occurs) && matched_count > 0
}

/// What a line searcher's run over a file yields, once it is done: where
/// the file satisfies the query (by the recorded occurrences) and a match
/// was reported, the whole file is decoded in the searcher's encoding and
/// the context ranges of the reported lines (sorted, without repeats) are
/// merged. Nothing is given otherwise, nor where a line number and the
/// context together pass the machine's limit.
pub fn grep_hits_result(
    spec: &Query,
    occurs: &[bool],
    matched_lines: &Vec<usize>,
    matched_count: u64,
    path: String,
    encoding_label: String,
    buffer: &[u8],
    context_lines: usize,
) -> (r: Option<SearchResult>)
    ensures
        r is Some ==> (spec.expr matches Some(e) && eval_spec(e, occurs_val(occurs@))) && matched_count > 0,
        r matches Some(res) ==> {
            &&& res.path == path
            &&& string_views(res.lines@) == lines_of(decoded_text(label_or_utf8(encoding_label@), buffer@))
            &&& res.encoding == Some(encoding_label)
            &&& res.archive_path is None
            &&& res.source_type == EntrySourceType::File
            &&& exists|u: Seq<usize>| #[trigger] sorted_unique_of(u, matched_lines@) && res.merged@ == merge_spec(
                ctx_ranges(u, context_lines, res.lines@.len() as usize),
            )
        },
        r is None ==> !((spec.expr matches Some(e) && eval_spec(e, occurs_val(occurs@))) && matched_count > 0)
            || exists|x: usize| #[trigger] matched_lines@.contains(x) && x + context_lines > usize::MAX,
{
    if !grep_found(spec, occurs, matched_count) {
        return None;
    }
    let hits = sort_unique(matched_lines);
    let n = hits.len();
    if n > 0 && hits[n - 1] > usize::MAX - context_lines {
        proof {
            assert(hits@.contains(hits@[n - 1]));
            assert(matched_lines@.contains(hits@[n - 1]));
        }
        return None;
    }
    proof {
        assert forall|i: int| 0 <= i < hits@.len() implies #[trigger] hits@[i] + context_lines <= usize::MAX by {
            if i < n - 1 {
                assert(hits@[i] < hits@[n - 1]);
            }
        }
    }
    let encoding = match encoding_for_label(encoding_label.as_str()) {
        Some(e) => e,
        None => utf_8(),
    };
    let lines = decode_buffer_to_lines(&encoding, buffer, "grep_gzip_result ");
    let merged = merge_sorted_ranges(hits.as_slice(), context_lines, lines.len());
    Some(SearchResult::new(path, lines, merged, Some(encoding_label)))
}

/// Whether a line searcher (which knows the standard expression syntax
/// only) can search for the query: no term needs the backtracking engine.
pub fn line_searcher_fits(spec: &Query) -> (r: bool)
    ensures
        r == (forall|i: int| 0 <= i < spec.terms@.len() ==> !(#[trigger] spec.terms@[i] is RegexFancy)),
{
    let mut i: usize = 0;
    while i < spec.terms.len()
        invariant
            i <= spec.terms@.len(),
            forall|j: int| 0 <= j < i ==> !(#[trigger] spec.terms@[j] is RegexFancy),
        decreases spec.terms@.len() - i,
    {
        if matches!(spec.terms[i], Term::RegexFancy { .. }) {
            return false;
        }
        i += 1;
    }
    true
}

/// The name of the encoding a file is searched in: the one asked for, else
/// the one detected from its first bytes, else (for an empty file) UTF-8.
pub open spec fn file_encoding_spec(asked: Option<Seq<char>>, head: Seq<u8>) -> Seq<char> {
    match asked {
        Some(a) => a,
        None => if head.len() > 0 { detected_encoding(head) } else { "UTF-8"@ },
    }
}

/// Chooses the encoding name of a file from the one asked for and its
/// first bytes.
pub fn file_encoding_label(asked: Option<String>, head: &[u8]) -> (r: String)
    ensures
        r@ == file_encoding_spec(opt_view(asked), head@),
{
    match asked {
        Some(a) => a,
        None => {
            if head.len() > 0 {
                match detect_encoding(head) {
                    Some(e) => return e.name().to_owned(),
                    None => {},
                }
            }
            "UTF-8".to_owned()
        },
    }
}

} // verus!
