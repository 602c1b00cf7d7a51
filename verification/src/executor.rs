//! The search executor's own decisions: its configuration, the qualifiers
//! it takes out of a query before planning, and the identifiers of the
//! results and events it sends.
use vstd::prelude::*;
use crate::text::opt_view;
use crate::text::string_views;
use crate::query::{PathFilter};
use crate::glob::{glob_builder_new, glob_builder_add, glob_builder_build, glob_builder_globs, glob_compiles, glob_set_builds, glob_set_globs};
use crate::text::{chars_of, is_ws, is_whitespace, seq_starts_with, string_of, strip_prefix_str, trim_end_matches_chars, trim_end_matches_spec, trim_start_matches_chars, trim_start_matches_spec, parse_uint, parse_uint_spec};

verus! {

/// The executor's limits.
#[derive(Debug, Clone)]
pub struct SearchExecutorConfig {
    /// Largest number of sources read at once.
    pub io_max_concurrency: usize,
    /// Capacity of the event channel.
    pub stream_channel_capacity: usize,
}

impl Default for SearchExecutorConfig {
    fn default() -> (r: SearchExecutorConfig)
        ensures
            r.io_max_concurrency == 12,
            r.stream_channel_capacity == 128,
    {
        SearchExecutorConfig { io_max_concurrency: 12, stream_channel_capacity: 128 }
    }
}

/// The parameters of one search.
#[derive(Debug, Clone)]
pub struct SearchRequest {
    pub query: String,
    pub context_lines: usize,
    pub encoding: Option<String>,
    pub path_includes: Vec<String>,
    pub path_excludes: Vec<String>,
}

/// The capacity of the channels of streamed responses.
pub fn stream_channel_capacity() -> (r: usize)
    ensures
        r == 256,
{
    256
}

/// The words of `s` seen so far, and the word being read.
pub open spec fn split_ws(s: Seq<char>) -> (Seq<Seq<char>>, Seq<char>)
    decreases s.len(),
{
    if s.len() == 0 {
        (Seq::empty(), Seq::empty())
    } else {
        let (done, cur) = split_ws(s.drop_last());
        if is_ws(s.last()) {
            if cur.len() > 0 { (done.push(cur), Seq::empty()) } else { (done, cur) }
        } else {
            (done, cur.push(s.last()))
        }
    }
}

/// The words of `s`: its maximal runs of characters that are not white
/// space (`str::split_whitespace`).
pub open spec fn words(s: Seq<char>) -> Seq<Seq<char>> {
    let (done, cur) = split_ws(s);
    if cur.len() > 0 { done.push(cur) } else { done }
}

/// The words of `s`, as `str::split_whitespace` gives them.
pub fn split_whitespace(s: &str) -> (r: Vec<String>)
    ensures
        r@.map_values(|w: String| w@) == words(s@),
{
    let v = chars_of(s);
    let mut done: Vec<String> = Vec::new();
    let mut cur: Vec<char> = Vec::new();
    let mut i: usize = 0;
    while i < v.len()
        invariant
            i <= v@.len(),
            v@ == s@,
            split_ws(v@.take(i as int)) == (done@.map_values(|w: String| w@), cur@),
        decreases v@.len() - i,
    {
        assert(v@.take(i as int + 1).drop_last() =~= v@.take(i as int));
        let c = v[i];
        if is_whitespace(c) {
            if cur.len() > 0 {
                let w = string_of(cur.as_slice());
                let ghost prev = done@;
                done.push(w);
                assert(done@.map_values(|w: String| w@) =~= prev.map_values(|w: String| w@).push(cur@));
                cur = Vec::new();
            }
        } else {
            cur.push(c);
        }
        i += 1;
    }
    assert(v@.take(v@.len() as int) =~= v@);
    if cur.len() > 0 {
        let w = string_of(cur.as_slice());
        let ghost prev = done@;
        done.push(w);
        assert(done@.map_values(|w: String| w@) =~= prev.map_values(|w: String| w@).push(cur@));
    }
    done
}

/// The qualifiers taken out of a query, and the words left.
pub struct Qualifiers {
    /// The last `app:<name>`.
    pub app: Option<String>,
    /// The last `encoding:<name>`.
    pub encoding: Option<String>,
    /// Every `path:<glob>`, in order.
    pub path_includes: Vec<String>,
    /// Every `-path:<glob>`, in order.
    pub path_excludes: Vec<String>,
    /// The other words joined by single spaces.
    pub cleaned: String,
}

/// The qualifiers as the contracts see them.
pub struct QualifiersView {
    pub app: Option<Seq<char>>,
    pub encoding: Option<Seq<char>>,
    pub path_includes: Seq<Seq<char>>,
    pub path_excludes: Seq<Seq<char>>,
    pub rest: Seq<Seq<char>>,
}

/// `w` with the non-empty rest after `prefix`, if it begins with it.
pub open spec fn after_prefix(w: Seq<char>, prefix: Seq<char>) -> Option<Seq<char>> {
    if seq_starts_with(w, prefix) && w.len() > prefix.len() { Some(w.skip(prefix.len() as int)) } else { None }
}

/// The qualifiers of the words `ws`, read left to right: `app:`,
/// `encoding:`, `path:` and `-path:` followed by something, tried in that
/// order; any other word is kept.
pub open spec fn qualifiers_of(ws: Seq<Seq<char>>) -> QualifiersView
    decreases ws.len(),
{
    if ws.len() == 0 {
        QualifiersView { app: None, encoding: None, path_includes: Seq::empty(), path_excludes: Seq::empty(), rest: Seq::empty() }
    } else {
        let q = qualifiers_of(ws.drop_last());
        let w = ws.last();
        if after_prefix(w, "app:"@) is Some {
            QualifiersView { app: after_prefix(w, "app:"@), ..q }
        } else if after_prefix(w, "encoding:"@) is Some {
            QualifiersView { encoding: after_prefix(w, "encoding:"@), ..q }
        } else if after_prefix(w, "path:"@) is Some {
            QualifiersView { path_includes: q.path_includes.push(after_prefix(w, "path:"@).unwrap()), ..q }
        } else if after_prefix(w, "-path:"@) is Some {
            QualifiersView { path_excludes: q.path_excludes.push(after_prefix(w, "-path:"@).unwrap()), ..q }
        } else {
            QualifiersView { rest: q.rest.push(w), ..q }
        }
    }
}

/// The words joined by single spaces.
pub open spec fn space_joined(v: Seq<Seq<char>>) -> Seq<char>
    decreases v.len(),
{
    if v.len() == 0 {
        Seq::empty()
    } else if v.len() == 1 {
        v[0]
    } else {
        space_joined(v.drop_last()) + " "@ + v.last()
    }
}

/// The rest of `w` after `prefix` where it begins with it and something follows.
fn after_prefix_exec(w: &str, prefix: &str) -> (r: Option<String>)
    ensures
        opt_view(r) == after_prefix(w@, prefix@),
{
    match strip_prefix_str(w, prefix) {
        Some(rest) => {
            if rest.is_empty() {
                None
            } else {
                Some(String::from_str(rest))
            }
        },
        None => None,
    }
}

/// Takes the qualifiers `app:`, `encoding:`, `path:` and `-path:` out of a
/// query, keeping the other words joined by single spaces.
pub fn split_qualifiers(query: &str) -> (r: Qualifiers)
    ensures
        ({
            let q = qualifiers_of(words(query@));
            &&& opt_view(r.app) == q.app
            &&& opt_view(r.encoding) == q.encoding
            &&& string_views(r.path_includes@) == q.path_includes
            &&& string_views(r.path_excludes@) == q.path_excludes
            &&& r.cleaned@ == space_joined(q.rest)
        }),
{
    let ws = split_whitespace(query);
    let ghost all = ws@.map_values(|w: String| w@);
    let mut app: Option<String> = None;
    let mut encoding: Option<String> = None;
    let mut includes: Vec<String> = Vec::new();
    let mut excludes: Vec<String> = Vec::new();
    let mut rest: Vec<String> = Vec::new();
    let mut k: usize = 0;
    while k < ws.len()
        invariant
            k <= ws@.len(),
            all == ws@.map_values(|w: String| w@),
            ({
                let q = qualifiers_of(all.take(k as int));
                &&& opt_view(app) == q.app
                &&& opt_view(encoding) == q.encoding
                &&& string_views(includes@) == q.path_includes
                &&& string_views(excludes@) == q.path_excludes
                &&& string_views(rest@) == q.rest
            }),
        decreases ws@.len() - k,
    {
        assert(all.take(k as int + 1).drop_last() =~= all.take(k as int));
        assert(all.take(k as int + 1).last() == ws@[k as int]@);
        let w = ws[k].as_str();
        match after_prefix_exec(w, "app:") {
            Some(a) => {
                app = Some(a);
            },
            None => match after_prefix_exec(w, "encoding:") {
                Some(e) => {
                    encoding = Some(e);
                },
                None => match after_prefix_exec(w, "path:") {
                    Some(p) => {
                        let ghost prev = includes@;
                        includes.push(p);
                        assert(string_views(includes@) =~= string_views(prev).push(includes@.last()@));
                    },
                    None => match after_prefix_exec(w, "-path:") {
                        Some(p) => {
                            let ghost prev = excludes@;
                            excludes.push(p);
                            assert(string_views(excludes@) =~= string_views(prev).push(excludes@.last()@));
                        },
                        None => {
                            let ghost prev = rest@;
                            rest.push(ws[k].clone());
                            assert(string_views(rest@) =~= string_views(prev).push(ws@[k as int]@));
                        },
                    },
                },
            },
        }
        k += 1;
    }
    assert(all.take(ws@.len() as int) =~= all);
    let cleaned = join_space(&rest);
    Qualifiers { app, encoding, path_includes: includes, path_excludes: excludes, cleaned }
}

/// The strings joined by single spaces.
pub fn join_space(v: &Vec<String>) -> (r: String)
    ensures
        r@ == space_joined(string_views(v@)),
{
    let mut out = String::new();
    let mut i: usize = 0;
    while i < v.len()
        invariant
            i <= v@.len(),
            out@ == space_joined(string_views(v@.take(i as int))),
        decreases v@.len() - i,
    {
        assert(string_views(v@.take(i as int + 1)).drop_last() =~= string_views(v@.take(i as int)));
        if i > 0 {
            out.append(" ");
        } else {
            assert(string_views(v@.take(1)) =~= seq![v@[0]@]);
        }
        out.append(v[i].as_str());
        i += 1;
    }
    assert(v@.take(v@.len() as int) =~= v@);
    out
}

/// The source named in events: `agent:<id>` for an agent, else the
/// source's display name.
pub fn event_source(is_agent: bool, effective_id: &str, display_name: &str) -> (r: String)
    ensures
        is_agent ==> r@ == "agent:"@ + effective_id@,
        !is_agent ==> r@ == display_name@,
{
    if is_agent {
        let mut s = String::from_str("agent:");
        s.append(effective_id);
        s
    } else {
        String::from_str(display_name)
    }
}

/// A byte that URL encoding keeps as it is: an ASCII letter or digit, or
/// one of `-`, `.`, `_`, `~`.
pub open spec fn url_unreserved(b: u8) -> bool {
    (48 <= b <= 57) || (65 <= b <= 90) || (97 <= b <= 122) || b == 45 || b == 46 || b == 95 || b == 126
}

/// The upper-case hexadecimal digit of `d` (`0 <= d < 16`).
pub open spec fn hex_upper(d: int) -> char {
    if d < 10 { (48 + d) as char } else { (55 + d) as char }
}

/// Bytes in URL encoding: kept bytes as their characters, every other byte
/// as `%` and two upper-case hexadecimal digits.
pub open spec fn percent_encoded(b: Seq<u8>) -> Seq<char>
    decreases b.len(),
{
    if b.len() == 0 {
        Seq::empty()
    } else {
        percent_encoded(b.drop_last()) + if url_unreserved(b.last()) {
            seq![b.last() as char]
        } else {
            seq!['%', hex_upper(b.last() as int / 16), hex_upper(b.last() as int % 16)]
        }
    }
}

/// `urlencoding::encode`: the UTF-8 bytes of `s` in URL encoding.
#[verifier::external_body]
fn url_encode(s: &str) -> (r: String)
    ensures
        r@ == percent_encoded(vstd::utf8::encode_utf8(s@)),
{
    urlencoding::encode(s).into_owned()
}

/// The address of a result of a search source: for a source that is an
/// archive, the source's address with the entry's path, URL-encoded, as
/// its `entry` parameter; otherwise the source's address with its path
/// joined to the result's (a result path from the root stands alone). A
/// source without authority is `local`.
pub open spec fn result_orl_spec(
    scheme: Seq<char>,
    authority: Option<Seq<char>>,
    source_path: Seq<char>,
    is_archive: bool,
    res_path: Seq<char>,
) -> Seq<char> {
    let auth = match authority { Some(a) => a, None => "local"@ };
    if is_archive {
        scheme + "://"@ + auth + source_path + "?entry="@ + percent_encoded(vstd::utf8::encode_utf8(res_path))
    } else {
        let full = if res_path.len() > 0 && res_path[0] == '/' {
            res_path
        } else {
            trim_end_matches_spec(source_path, seq!['/']) + seq!['/'] + trim_start_matches_spec(res_path, seq!['/'])
        };
        scheme + "://"@ + auth + full
    }
}

/// Builds the address of a search result within its source.
pub fn build_result_orl(
    scheme: &str,
    authority: Option<&str>,
    source_path: &str,
    is_archive: bool,
    res_path: &str,
) -> (r: String)
    ensures
        r@ == result_orl_spec(scheme@, match authority { Some(a) => Some(a@), None => None }, source_path@, is_archive, res_path@),
{
    let mut out = String::new();
    out.append(scheme);
    out.append("://");
    match authority {
        Some(a) => out.append(a),
        None => out.append("local"),
    }
    if is_archive {
        out.append(source_path);
        out.append("?entry=");
        let enc = url_encode(res_path);
        out.append(enc.as_str());
        return out;
    }
    let rp = chars_of(res_path);
    if rp.len() > 0 && rp[0] == '/' {
        out.append(res_path);
    } else {
        let mut slash: Vec<char> = Vec::new();
        slash.push('/');
        assert(slash@ =~= seq!['/']);
        let base = trim_end_matches_chars(&chars_of(source_path), &slash);
        let rel = trim_start_matches_chars(&rp, &slash);
        let ghost head = out@;
        out.append(string_of(base.as_slice()).as_str());
        out.append("/");
        out.append(string_of(rel.as_slice()).as_str());
        proof {
            reveal_strlit("/");
            assert(out@ =~= head + (base@ + seq!['/'] + rel@));
        }
    }
    out
}

/// The clamp of `v` to `lo ..= hi`.
pub open spec fn clamp_spec(v: int, lo: int, hi: int) -> int {
    if v < lo { lo } else if v > hi { hi } else { v }
}

/// The I/O concurrency limit: the tuned value where there is one, else a
/// value set in the environment where it parses, each clamped to
/// `1 ..= 128`; 12 otherwise.
pub open spec fn io_concurrency_spec(tuned: Option<usize>, env: Option<Seq<char>>) -> int {
    match tuned {
        Some(t) => clamp_spec(t as int, 1, 128),
        None => match env {
            Some(e) => match parse_uint_spec(e, usize::MAX as nat) {
                Some(v) => clamp_spec(v as int, 1, 128),
                None => 12,
            },
            None => 12,
        },
    }
}

/// Parses an unsigned size as `str::parse::<usize>` does.
fn parse_usize(s: &str) -> (r: Option<usize>)
    ensures
        match r {
            Some(v) => parse_uint_spec(s@, usize::MAX as nat) == Some(v as nat),
            None => parse_uint_spec(s@, usize::MAX as nat) is None,
        },
{
    match parse_uint(s, usize::MAX as u64) {
        Some(v) => Some(v as usize),
        None => None,
    }
}

/// The I/O concurrency limit from a tuned value and the environment.
pub fn io_concurrency(tuned: Option<usize>, env: Option<&str>) -> (r: usize)
    ensures
        r as int == io_concurrency_spec(tuned, match env { Some(e) => Some(e@), None => None }),
        1 <= r <= 128,
{
    match tuned {
        Some(t) => return if t < 1 { 1 } else if t > 128 { 128 } else { t },
        None => {},
    }
    match env {
        Some(e) => match parse_usize(e) {
            Some(v) => if v < 1 { 1 } else if v > 128 { 128 } else { v },
            None => 12,
        },
        None => 12,
    }
}

/// The number of archive entries searched at once: a value set in the
/// environment where it parses, else twice the processors clamped to
/// `8 ..= 32`; clamped to `1 ..= 128`.
pub open spec fn entry_concurrency_spec(env: Option<Seq<char>>, cpus: usize) -> int {
    match env {
        Some(e) => match parse_uint_spec(e, usize::MAX as nat) {
            Some(v) => clamp_spec(v as int, 1, 128),
            None => clamp_spec(2 * cpus, 8, 32),
        },
        None => clamp_spec(2 * cpus, 8, 32),
    }
}

/// The number of archive entries searched at once, from the environment
/// and the number of processors.
pub fn entry_concurrency(env: Option<&str>, cpus: usize) -> (r: usize)
    ensures
        r as int == entry_concurrency_spec(match env { Some(e) => Some(e@), None => None }, cpus),
        1 <= r <= 128,
{
    if let Some(e) = env {
        if let Some(v) = parse_usize(e) {
            return if v < 1 { 1 } else if v > 128 { 128 } else { v };
        }
    }
    let twice: usize = if cpus > 16 { 32 } else { cpus * 2 };
    if twice < 8 { 8 } else { twice }
}

/// `num_cpus::get`: the number of logical processors available, which is
/// at least 1 (it depends on the machine and its limits).
#[verifier::external_body]
pub(crate) fn cpu_count() -> (r: usize)
    ensures
        r >= 1,
{
    num_cpus::get()
}

/// The limit of searches that decompress or scan at once: the processors
/// available, at most 16.
pub fn cpu_limit(cpus: usize) -> (r: usize)
    ensures
        r == if cpus < 16 { cpus } else { 16 },
{
    if cpus < 16 { cpus } else { 16 }
}

/// The limit of searches that decompress or scan at once on this machine.
pub fn cpu_max_concurrency() -> (r: usize)
    ensures
        1 <= r <= 16,
{
    cpu_limit(cpu_count())
}

/// The strict globs (literal separator) of the patterns that `globset`
/// accepts, in order.
pub open spec fn compiled_globs(ps: Seq<Seq<char>>) -> Seq<(Seq<char>, bool)>
    decreases ps.len(),
{
    if ps.len() == 0 {
        Seq::empty()
    } else if glob_compiles(ps.last(), true) {
        compiled_globs(ps.drop_last()).push((ps.last(), true))
    } else {
        compiled_globs(ps.drop_last())
    }
}

/// The glob set of one side of a filter built from patterns: none for no
/// pattern; else the set of the accepted globs, where `globset` builds it.
pub open spec fn glob_side(ps: Seq<Seq<char>>, s: Option<globset::GlobSet>) -> bool {
    if ps.len() == 0 {
        s is None
    } else {
        &&& (s is Some <==> glob_set_builds(compiled_globs(ps)))
        &&& (s matches Some(g) ==> glob_set_globs(g) == compiled_globs(ps))
    }
}

/// Builds the glob set of patterns (refused patterns are skipped).
fn glob_set_of(patterns: &Vec<String>) -> (r: Option<globset::GlobSet>)
    ensures
        glob_side(string_views(patterns@), r),
{
    if patterns.len() == 0 {
        return None;
    }
    let mut builder = glob_builder_new();
    let mut i: usize = 0;
    while i < patterns.len()
        invariant
            i <= patterns@.len(),
            glob_builder_globs(builder) == compiled_globs(string_views(patterns@.take(i as int))),
        decreases patterns@.len() - i,
    {
        proof {
            assert(string_views(patterns@.take(i + 1)).drop_last() =~= string_views(patterns@.take(i as int)));
            assert(string_views(patterns@.take(i + 1)).last() == patterns@[i as int]@);
        }
        let _ = glob_builder_add(&mut builder, patterns[i].as_str(), true);
        i += 1;
    }
    assert(patterns@.take(patterns@.len() as int) =~= patterns@);
    match glob_builder_build(&builder) {
        Ok(set) => Some(set),
        Err(_) => None,
    }
}

/// The filter of the `path:` and `-path:` patterns of a query for a
/// stream of entries: strict glob sets, no substring rule.
pub fn strict_glob_filter(path_includes: &Vec<String>, path_excludes: &Vec<String>) -> (r: PathFilter)
    ensures
        glob_side(string_views(path_includes@), r.include_set),
        glob_side(string_views(path_excludes@), r.exclude),
        r.include_contains@.len() == 0,
        r.exclude_contains@.len() == 0,
{
    PathFilter {
        include_set: glob_set_of(path_includes),
        exclude: glob_set_of(path_excludes),
        include_contains: Vec::new(),
        exclude_contains: Vec::new(),
    }
}

} // verus!
