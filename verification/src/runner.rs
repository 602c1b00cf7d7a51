//! The settings of one search run over a stream of entries, and the path
//! filters it applies besides the query's own.
use vstd::prelude::*;
use crate::text::string_views;
use std::path::PathBuf;
use std::sync::Arc;
use crate::query::{PathFilter, Query, path_glob_to_filter, combine_path_filters, combined_filter_spec, glob_filter_spec};
use crate::glob::{glob_compiles, glob_set_builds};

verus! {

#[verifier::external_type_specification]
#[verifier::external_body]
pub struct ExPathBuf(std::path::PathBuf);

/// The settings of a search run.
#[derive(Clone)]
pub struct SearchRunnerConfig {
    /// The query text.
    pub query: String,
    /// The query already parsed, if it was.
    pub query_spec: Option<Arc<Query>>,
    pub context_lines: usize,
    /// The encoding to read files in, if one is named.
    pub encoding: Option<String>,
    /// The directory that paths are taken relative to before filtering.
    pub base_path: Option<PathBuf>,
    /// Further path filters, each of which a path must pass.
    pub extra_filters: Vec<PathFilter>,
}

impl SearchRunnerConfig {
    /// Settings for a query, with no context, encoding, base path or
    /// further filter.
    pub fn new(query: String) -> (r: SearchRunnerConfig)
        ensures
            r.query == query,
            r.query_spec is None,
            r.context_lines == 0,
            r.encoding is None,
            r.base_path is None,
            r.extra_filters@.len() == 0,
    {
        SearchRunnerConfig {
            query,
            query_spec: None,
            context_lines: 0,
            encoding: None,
            base_path: None,
            extra_filters: Vec::new(),
        }
    }

    /// The same settings with `lines` lines of context.
    pub fn with_context_lines(self, lines: usize) -> (r: SearchRunnerConfig)
        ensures
            r == (SearchRunnerConfig { context_lines: lines, ..self }),
    {
        let mut c = self;
        c.context_lines = lines;
        c
    }

    /// The same settings with the encoding set (or cleared).
    pub fn with_encoding_opt(self, encoding: Option<String>) -> (r: SearchRunnerConfig)
        ensures
            r == (SearchRunnerConfig { encoding, ..self }),
    {
        let mut c = self;
        c.encoding = encoding;
        c
    }

    /// The same settings with the base path set (or cleared).
    pub fn with_base_path_opt(self, path: Option<PathBuf>) -> (r: SearchRunnerConfig)
        ensures
            r == (SearchRunnerConfig { base_path: path, ..self }),
    {
        let mut c = self;
        c.base_path = path;
        c
    }

    /// The same settings with further filters added after the others.
    pub fn with_extra_filters(self, filters: Vec<PathFilter>) -> (r: SearchRunnerConfig)
        ensures
            r.extra_filters@ == self.extra_filters@ + filters@,
            r.query == self.query,
            r.query_spec == self.query_spec,
            r.context_lines == self.context_lines,
            r.encoding == self.encoding,
            r.base_path == self.base_path,
    {
        let mut c = self;
        let mut more = filters;
        c.extra_filters.append(&mut more);
        c
    }

    /// The same settings with the parsed query set.
    pub fn with_query_spec(self, spec: Arc<Query>) -> (r: SearchRunnerConfig)
        ensures
            r == (SearchRunnerConfig { query_spec: Some(spec), ..self }),
    {
        let mut c = self;
        c.query_spec = Some(spec);
        c
    }
}

/// The path filters of a run: the filter of the source's glob, where there
/// is one that `globset` accepts, then the filter of the user's include
/// and exclude patterns, where they leave any rule.
pub fn build_path_filters(orl_glob: Option<&str>, path_includes: &[String], path_excludes: &[String]) -> (r: Vec<PathFilter>)
    ensures
        ({
            let has_glob = orl_glob matches Some(g) && glob_compiles(g@, true) && glob_set_builds(seq![(g@, true)]);
            let n_user = r@.len() - if has_glob { 1int } else { 0int };
            &&& (has_glob ==> r@.len() >= 1 && (orl_glob matches Some(g) && glob_filter_spec(g@, r@[0])))
            &&& (n_user == 0 || n_user == 1)
            &&& combined_filter_spec(
                string_views(path_includes@),
                string_views(path_excludes@),
                if n_user == 1 { Some(r@[r@.len() - 1]) } else { None },
            )
        }),
{
    let mut filters: Vec<PathFilter> = Vec::new();
    if let Some(glob) = orl_glob {
        if let Ok(filter) = path_glob_to_filter(glob) {
            filters.push(filter);
        }
    }
    let n = filters.len();
    match combine_path_filters(path_includes, path_excludes) {
        Some(user_filter) => {
            filters.push(user_filter);
            assert(filters@[filters@.len() - 1] == user_filter);
        },
        None => {},
    }
    filters
}

} // verus!
