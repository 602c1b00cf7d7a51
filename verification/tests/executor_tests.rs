use logseek::executor::strict_glob_filter;
use logseek::executor::{
    build_result_orl, cpu_max_concurrency, entry_concurrency, event_source, io_concurrency, split_qualifiers, stream_channel_capacity,
    SearchExecutorConfig,
};
use logseek::runner::{build_path_filters, SearchRunnerConfig};
use logseek::query::{PathFilter, Query, Term};
use std::sync::Arc;
use std::path::PathBuf;

#[test]
fn test_stream_channel_capacity() {
    assert_eq!(stream_channel_capacity(), 256);
}

#[test]
fn test_cpu_max_concurrency() {
    let concurrency = cpu_max_concurrency();
    assert!(concurrency >= 1);
    assert!(concurrency <= 16);
    assert!(concurrency <= num_cpus::get());
}

#[test]
fn io_concurrency_prefers_tuning_then_environment() {
    assert_eq!(io_concurrency(Some(500), Some("3")), 128);
    assert_eq!(io_concurrency(Some(0), None), 1);
    assert_eq!(io_concurrency(None, Some("3")), 3);
    assert_eq!(io_concurrency(None, Some("+7")), 7);
    assert_eq!(io_concurrency(None, Some("abc")), 12);
    assert_eq!(io_concurrency(None, None), 12);
}

#[test]
fn entry_concurrency_from_environment_or_processors() {
    assert_eq!(entry_concurrency(Some("64"), 4), 64);
    assert_eq!(entry_concurrency(Some("0"), 4), 1);
    assert_eq!(entry_concurrency(None, 2), 8);
    assert_eq!(entry_concurrency(None, 10), 20);
    assert_eq!(entry_concurrency(Some("x"), 100), 32);
}

#[test]
fn executor_config_default() {
    let c = SearchExecutorConfig::default();
    assert_eq!(c.io_max_concurrency, 12);
}

#[test]
fn qualifiers_are_taken_out_of_the_query() {
    let q = split_qualifiers("error app:bbip encoding:gbk path:*.log -path:tmp/ timeout");
    assert_eq!(q.app.as_deref(), Some("bbip"));
    assert_eq!(q.encoding.as_deref(), Some("gbk"));
    assert_eq!(q.path_includes, vec!["*.log".to_string()]);
    assert_eq!(q.path_excludes, vec!["tmp/".to_string()]);
    assert_eq!(q.cleaned, "error timeout");
}

#[test]
fn event_sources() {
    assert_eq!(event_source(true, "a1", "x"), "agent:a1");
    assert_eq!(event_source(false, "a1", "x"), "x");
}

#[test]
fn result_orl_of_archive_and_plain_sources() {
    assert_eq!(build_result_orl("orl", None, "/tmp/app.tar.gz", true, "/a b.log"), "orl://local/tmp/app.tar.gz?entry=%2Fa%20b.log");
    assert_eq!(build_result_orl("orl", Some("web@agent"), "/var/log/", false, "x/y.log"), "orl://web@agent/var/log/x/y.log");
    assert_eq!(build_result_orl("orl", None, "/var/log", false, "/abs.log"), "orl://local/abs.log");
    assert_eq!(build_result_orl("orl", None, "/tmp/app.log", false, "part-1.log"), "orl://local/tmp/app.log/part-1.log");
}

#[test]
fn test_search_runner_config_builder() {
    let config = SearchRunnerConfig::new("error".to_string())
        .with_context_lines(3)
        .with_encoding_opt(Some("GBK".to_string()))
        .with_base_path_opt(Some(PathBuf::from("/var/log")));

    assert_eq!(config.query, "error");
    assert_eq!(config.context_lines, 3);
    assert_eq!(config.encoding, Some("GBK".to_string()));
    assert_eq!(config.base_path, Some(PathBuf::from("/var/log")));
}

#[test]
fn test_search_runner_config_with_filters() {
    let filter = PathFilter::default();
    let config = SearchRunnerConfig::new("test".to_string()).with_extra_filters(vec![filter.clone()]);
    assert_eq!(config.extra_filters.len(), 1);
}

#[test]
fn test_build_path_filters_empty() {
    let filters = build_path_filters(None, &[], &[]);
    assert!(filters.is_empty());
}

#[test]
fn test_build_path_filters_with_orl_glob() {
    let filters = build_path_filters(Some("*.log"), &[], &[]);
    assert_eq!(filters.len(), 1);
}

#[test]
fn test_build_path_filters_with_user_filters() {
    let filters = build_path_filters(None, &["*.log".to_string()], &["*.tmp".to_string()]);
    assert_eq!(filters.len(), 1);
    assert!(filters[0].include_set.is_some());
    assert!(filters[0].exclude.is_some());
}

#[test]
fn test_build_path_filters_combined() {
    let filters = build_path_filters(Some("*.log"), &["error*".to_string()], &["*.tmp".to_string()]);
    assert_eq!(filters.len(), 2);
}

#[test]
fn build_path_filters_skips_a_broken_source_glob() {
    let filters = build_path_filters(Some("[bad"), &[], &[]);
    assert!(filters.is_empty());
}

#[test]
fn strict_glob_filter_of_query_patterns() {
    let f = strict_glob_filter(&vec!["*.log".to_string()], &vec!["tmp*".to_string()]);
    assert!(f.include_set.is_some());
    assert!(f.exclude.is_some());
    assert!(f.is_allowed("a.log"));
    assert!(!f.is_allowed("dir/a.log"));
    assert!(!f.is_allowed("tmp1.log"));
    let none = strict_glob_filter(&vec![], &vec![]);
    assert!(none.include_set.is_none() && none.exclude.is_none());
    assert!(none.is_allowed("anything"));
}

#[test]
fn test_search_runner_config_with_query_spec() {
    let spec = Arc::new(Query::new(vec![Term::Literal("error".into())]));
    let config = SearchRunnerConfig::new("error".to_string()).with_query_spec(spec.clone());

    assert!(config.query_spec.is_some());
    assert!(Arc::ptr_eq(config.query_spec.as_ref().unwrap(), &spec));
}
