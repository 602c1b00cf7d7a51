use std::sync::Arc;
use logseek::search::{line_searcher_fits, file_encoding_label};
use logseek::regexes::FancyRegex;
use logseek::search::{
    SearchResult, SearchProcessor, EntrySourceType, build_combined_pattern, sort_unique, grep_hits_result, merge_context_ranges,
    search_lines, BooleanContextSink,
};
use logseek::query::{Query, Term, path_glob_to_filter};
use logseek::regexes::StdRegex;

#[test]
fn test_search_result_creation() {
    let result = SearchResult::new("test.log".to_string(), vec!["line1".to_string(), "line2".to_string()], vec![(0, 1)], None);
    assert_eq!(result.path, "test.log");
    assert_eq!(result.lines.len(), 2);
    assert_eq!(result.merged.len(), 1);
}

#[test]
fn search_result_builders_set_one_field() {
    let r = SearchResult::new("p".to_string(), vec![], vec![], None)
        .with_source_type(EntrySourceType::Tar)
        .with_archive_path(Some("a.tar".to_string()));
    assert_eq!(r.source_type, EntrySourceType::Tar);
    assert_eq!(r.archive_path, Some("a.tar".to_string()));
    assert_eq!(r.path, "p");
}

#[test]
fn test_search_processor_should_process_path() {
    let spec = Arc::new(Query::new(vec![Term::Literal("foo".into())]).with_path_filter(Some("!*.txt".to_string())).unwrap());
    let processor = SearchProcessor::new(spec, 2);

    assert!(processor.should_process_path("foo.log"));
    assert!(!processor.should_process_path("foo.txt"));
}

#[test]
fn search_tests_test_search_processor_with_encoding() {
    let spec = Arc::new(Query::new(vec![Term::Literal("test".into())]));
    let processor = SearchProcessor::new_with_encoding(spec, 2, Some("GBK".to_string()));
    assert_eq!(processor.encoding, Some("GBK".to_string()));
}

#[test]
fn test_search_processor_path_filter_combined() {
    let spec = Arc::new(Query::new(vec![Term::Literal("foo".into())]).with_path_filter(Some("*.log".to_string())).unwrap());
    let processor = SearchProcessor::new(spec, 2);

    assert!(processor.should_process_path("app.log"));
    assert!(!processor.should_process_path("app.txt"));
}

#[test]
fn should_process_path_with_an_extra_filter() {
    let spec = Arc::new(Query::new(vec![Term::Literal("test".into())]));
    let processor = SearchProcessor::new(spec, 0);
    assert!(processor.should_process_path_with("test.log", None));
    let extra = path_glob_to_filter("*.log").unwrap();
    assert!(processor.should_process_path_with("test.log", Some(&extra)));
    assert!(!processor.should_process_path_with("test.txt", Some(&extra)));
}

#[test]
fn search_text_gives_the_result_of_a_hit() {
    let spec = Arc::new(Query::new(vec![Term::Literal("error".into())]));
    let processor = SearchProcessor::new(spec, 1);
    let r = processor.search_text("test.log".to_string(), b"line1\nerror found here\nline3\n", &[]).unwrap();
    assert_eq!(r.path, "test.log");
    assert_eq!(r.lines.len(), 3);
    assert_eq!(r.merged, vec![(0, 2)]);
    assert_eq!(r.encoding, Some("UTF-8".to_string()));
    assert!(processor.search_text("x".to_string(), b"nothing here\n", &[]).is_none());
}

#[test]
fn search_text_with_named_encoding() {
    let spec = Arc::new(Query::new(vec![Term::Literal("test".into())]));
    let processor = SearchProcessor::new_with_encoding(spec, 0, Some("UTF-8".to_string()));
    let r = processor.search_text("test.log".to_string(), b"test line\n", &[]).unwrap();
    assert_eq!(r.encoding, Some("UTF-8".to_string()));
}

#[test]
fn combined_pattern_escapes_literals() {
    let re = StdRegex::compile(r"\d+").unwrap();
    let q = Query::new(vec![
        Term::Literal("a.b".to_string()),
        Term::Phrase("(x)".to_string()),
        Term::RegexStd { pattern: r"\d+".to_string(), re },
    ]);
    assert_eq!(build_combined_pattern(&q).unwrap(), r"a\.b|\(x\)|\d+");
    assert_eq!(build_combined_pattern(&Query::new(vec![])).unwrap_err(), "No patterns to match");
}

#[test]
fn sort_unique_sorts_and_drops_repeats() {
    assert_eq!(sort_unique(&vec![5, 1, 5, 3, 1]), vec![1, 3, 5]);
    assert_eq!(sort_unique(&vec![1, 2, 3]), vec![1, 2, 3]);
    assert_eq!(sort_unique(&vec![]), Vec::<usize>::new());
}

#[test]
fn grep_hits_result_decodes_and_merges() {
    let q = Query::new(vec![Term::Literal("x".to_string())]);
    let r = grep_hits_result(&q, &[true], &vec![3, 1, 1], 3, "f.log".to_string(), "UTF-8".to_string(), b"a\nx\nb\nx\nc", 0).unwrap();
    assert_eq!(r.lines.len(), 5);
    assert_eq!(r.merged, vec![(1, 1), (3, 3)]);
    assert_eq!(r.encoding, Some("UTF-8".to_string()));
    assert!(grep_hits_result(&q, &[false], &vec![1], 1, "f".to_string(), "UTF-8".to_string(), b"x", 0).is_none());
    assert!(grep_hits_result(&q, &[true], &vec![], 0, "f".to_string(), "UTF-8".to_string(), b"x", 0).is_none());
}

#[test]
fn merge_context_ranges_joins_adjacent_ranges() {
    assert_eq!(merge_context_ranges(&[1, 3], 0, 10), vec![(1, 1), (3, 3)]);
    assert_eq!(merge_context_ranges(&[1, 2], 0, 10), vec![(1, 2)]);
    assert_eq!(merge_context_ranges(&[1, 4], 1, 10), vec![(0, 5)]);
    assert_eq!(merge_context_ranges(&[9], 3, 10), vec![(6, 9)]);
    assert_eq!(merge_context_ranges(&[4, 1, 1], 1, 10), vec![(0, 5)]);
    assert_eq!(merge_context_ranges(&[8, 2], 0, 10), vec![(2, 2), (8, 8)]);
}

#[test]
fn search_lines_requires_query_and_positive_hit() {
    let q = Query::new(vec![Term::Literal("a".to_string())]);
    let lines: Vec<String> = vec!["xa".to_string(), "b".to_string()];
    assert_eq!(search_lines(&lines, &q, 0), Some(vec![(0, 0)]));
    let lines2: Vec<String> = vec!["b".to_string()];
    assert_eq!(search_lines(&lines2, &q, 0), None);
}

#[test]
fn boolean_sink_records_matches() {
    let q = Query::from_keywords(&["err".to_string(), "warn".to_string()]);
    let mut sink = BooleanContextSink::new(&q, vec![false, false], vec![], 0, Some("UTF-8"));
    sink.matched(b"an err here", Some(3));
    sink.matched(b"nothing", None);
    assert_eq!(sink.matched_count, 2);
    assert_eq!(sink.occurs, vec![true, false]);
    assert_eq!(sink.matched_lines, vec![2]);
}

#[test]
fn line_searcher_needs_standard_expressions() {
    let q = Query::new(vec![Term::Literal("a".into())]);
    assert!(line_searcher_fits(&q));
    let re = FancyRegex::compile(r"a(?=b)").unwrap();
    let q = Query::new(vec![Term::RegexFancy { pattern: r"a(?=b)".to_string(), re }]);
    assert!(!line_searcher_fits(&q));
}

#[test]
fn file_encoding_label_prefers_the_asked_one() {
    assert_eq!(file_encoding_label(Some("GBK".to_string()), b"x"), "GBK");
    assert_eq!(file_encoding_label(None, b""), "UTF-8");
    assert_eq!(file_encoding_label(None, b"\xFF\xFEa\x00"), "UTF-16LE");
}

#[test]
fn test_search_processor_should_process_path_with_filter() {
    let spec = Arc::new(Query::new(vec![Term::Literal("error".into())]).with_path_filter(Some("*.log".to_string())).unwrap());
    let processor = SearchProcessor::new(spec, 0);

    assert!(processor.should_process_path("file.log"));
    assert!(processor.should_process_path("path/to/file.log"));

    assert!(!processor.should_process_path("file.txt"));
    assert!(!processor.should_process_path("file.md"));
}

#[test]
fn test_search_processor_should_process_path_no_filter() {
    let spec = Arc::new(Query::new(vec![Term::Literal("error".into())]));
    let processor = SearchProcessor::new(spec, 0);

    assert!(processor.should_process_path("file.log"));
    assert!(processor.should_process_path("file.txt"));
    assert!(processor.should_process_path("any.file"));
}

#[test]
fn grep_found_needs_the_query_and_a_match() {
    let spec = Query::new(vec![Term::Literal("error".into())]);
    assert!(logseek::search::grep_found(&spec, &[true], 1));
    assert!(!logseek::search::grep_found(&spec, &[true], 0));
    assert!(!logseek::search::grep_found(&spec, &[false], 1));
}
