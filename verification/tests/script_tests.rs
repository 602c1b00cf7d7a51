use logseek::script_context::{
    date_entries, default_planner_script, esc_single, normalize_source_string, normalize_source_tag, script_prelude, script_text,
    AgentContext, DateEntry, ProfileContext,
};
use logseek::entry_path::{filter_path, path_components, relative_filter_path, PathComponent};
use logseek::entry_stream::{
    entry_route, loop_step, outcome_event, preload_step, shares_reader, EntryOutcome, EntryRoute, EntryRun, LoopStep, PreloadStep,
    MAX_PRELOAD_SIZE,
};
use logseek::search::{SearchEvent, SearchResult};
use logseek::planner::DateRange;
use logseek::search::EntrySourceType;
use chrono::{Datelike, NaiveDate};

#[test]
fn esc_single_escapes_quotes_and_backslashes() {
    assert_eq!(esc_single("it's"), "it\\'s");
    assert_eq!(esc_single("a\\b"), "a\\\\b");
    assert_eq!(esc_single("plain"), "plain");
}

#[test]
fn source_tags_are_repaired() {
    assert_eq!(normalize_source_tag(" \"S3\" "), "s3");
    assert_eq!(normalize_source_tag("Agent"), "agent");
    assert_eq!(normalize_source_tag("\"\"local\"\""), "local");
    assert_eq!(normalize_source_string("  \"bucket-a\" "), Some("bucket-a".to_string()));
    assert_eq!(normalize_source_string("bucket-a"), None);
    assert_eq!(normalize_source_string("\""), None);
}

#[test]
fn date_entries_list_each_day() {
    let d = |y, m, dd| NaiveDate::from_ymd_opt(y, m, dd).unwrap().num_days_from_ce();
    let v = date_entries(DateRange { start: d(2024, 2, 28), end: d(2024, 3, 1) }).unwrap();
    assert_eq!(v.len(), 3);
    assert_eq!(v[0].iso, "2024-02-28");
    assert_eq!(v[1].yyyymmdd, "20240229");
    assert_eq!(v[2].next_yyyymmdd, "20240302");
}

#[test]
fn prelude_writes_the_context_variables() {
    let dates = vec![DateEntry { iso: "2024-01-02".to_string(), yyyymmdd: "20240102".to_string(), next_yyyymmdd: "20240103".to_string() }];
    let profiles = vec![ProfileContext { profile_name: "p'1".to_string(), endpoint: "e".to_string(), bucket: "b".to_string() }];
    let agents = vec![AgentContext { id: "a1".to_string(), tags: vec![("env".to_string(), "prod".to_string()), ("k".to_string(), "v".to_string())] }];
    let p = script_prelude("error 'x'", "2024-01-02", "2024-01-02", "2024-01-02", &dates, &profiles, &agents);
    let expected = "# 由后端注入的上下文变量，请勿在脚本内重命名\n\
CLEANED_QUERY = 'error \\'x\\''\n\
TODAY = '2024-01-02'\n\
DATE_RANGE = {'start': '2024-01-02', 'end': '2024-01-02'}\n\
DATES = [\n  {'iso': '2024-01-02', 'yyyymmdd': '20240102', 'next_yyyymmdd': '20240103'},\n]\n\
S3_PROFILES = [\n  {'profile_name': 'p\\'1', 'endpoint': 'e', 'bucket': 'b'},\n]\n\
AGENTS = [\n  {'id': 'a1', 'tags': {'env':'prod','k':'v'}},\n]\n";
    assert_eq!(p, expected);
    assert_eq!(script_text("A", "B"), "A\nB");
    assert_eq!(default_planner_script(), "# 默认空脚本\nSOURCES = []\n");
}

#[test]
fn path_components_as_unix_paths() {
    assert_eq!(path_components("/a//b/./c/"), vec![PathComponent::Root, PathComponent::Normal("a".into()), PathComponent::Normal("b".into()), PathComponent::Normal("c".into())]);
    assert_eq!(path_components("./x/../y"), vec![PathComponent::Cur, PathComponent::Normal("x".into()), PathComponent::Parent, PathComponent::Normal("y".into())]);
    assert_eq!(path_components(""), vec![]);
    assert_eq!(path_components("."), vec![PathComponent::Cur]);
}

#[test]
fn relative_paths_under_a_base() {
    assert_eq!(relative_filter_path("/var/log/app/x.log", "/var/log"), Some("app/x.log".to_string()));
    assert_eq!(relative_filter_path("/var/log/./x.log", "/var/log/"), Some("x.log".to_string()));
    assert_eq!(relative_filter_path("./a/b.log", "."), Some("a/b.log".to_string()));
    assert_eq!(relative_filter_path("/var/logs/x", "/var/log"), None);
    assert_eq!(relative_filter_path("/a/b", ""), Some("/a/b".to_string()));
    assert_eq!(filter_path("any/where", None), Some("any/where".to_string()));
}

#[test]
fn entries_sharing_a_reader_are_preloaded() {
    assert!(shares_reader(true, EntrySourceType::File));
    assert!(shares_reader(false, EntrySourceType::Tar));
    assert!(shares_reader(false, EntrySourceType::TarGz));
    assert!(!shares_reader(false, EntrySourceType::File));
    assert_eq!(preload_step(10, 0, 100), PreloadStep::Complete);
    assert_eq!(preload_step(10, 5, 100), PreloadStep::More);
    assert_eq!(preload_step(99, 5, 100), PreloadStep::Partial);
    assert_eq!(MAX_PRELOAD_SIZE, 120 * 1024 * 1024);
}

#[test]
fn planning_script_for_writes_the_context_then_the_body() {
    let today = NaiveDate::from_ymd_opt(2024, 1, 2).unwrap().num_days_from_ce();
    let (script, cleaned) =
        logseek::script_context::planning_script_for("error", &vec![], &vec![], "SOURCES = []\n", today).unwrap();
    assert_eq!(cleaned, "error");
    assert!(script.contains("TODAY = '2024-01-02'\n"));
    assert!(script.contains("CLEANED_QUERY = 'error'\n"));
    assert!(script.ends_with("\nSOURCES = []\n"));
    assert!(logseek::script_context::planning_script_for("x", &vec![], &vec![], "", i32::MAX).is_none());
    assert!(logseek::script_context::planning_script("error", &vec![], &vec![], "").is_some());
}

#[test]
fn the_entry_loop_stops_waits_or_takes_the_next_entry() {
    assert_eq!(loop_step(true, false, 0, 8), LoopStep::Stop);
    assert_eq!(loop_step(false, true, 0, 8), LoopStep::Stop);
    assert_eq!(loop_step(false, false, 8, 8), LoopStep::AwaitOne);
    assert_eq!(loop_step(false, false, 7, 8), LoopStep::NextEntry);
    assert_eq!(entry_route(false, true, EntrySourceType::Tar), EntryRoute::Skip);
    assert_eq!(entry_route(true, false, EntrySourceType::TarGz), EntryRoute::Preload);
    assert_eq!(entry_route(true, false, EntrySourceType::File), EntryRoute::Concurrent);
}

#[test]
fn each_outcome_sends_its_event() {
    let res = SearchResult::new("a.log".to_string(), vec!["x".to_string()], vec![(0, 0)], None);
    match outcome_event(EntryRun::Preloaded, EntryOutcome::Found(res), Some("b.tar".to_string())) {
        Some(SearchEvent::Success(r)) => {
            assert_eq!(r.path, "a.log");
            assert_eq!(r.archive_path, Some("b.tar".to_string()));
        },
        _ => panic!("expected a match"),
    }
    match outcome_event(EntryRun::PreloadFailed, EntryOutcome::Failed("eof".to_string()), None) {
        Some(SearchEvent::Error { source, message, recoverable }) => {
            assert_eq!(source, "条目流#preload-error");
            assert_eq!(message, "预读失败: eof");
            assert!(recoverable);
        },
        _ => panic!("expected an error"),
    }
    match outcome_event(EntryRun::Direct, EntryOutcome::Failed("bad".to_string()), None) {
        Some(SearchEvent::Error { source, message, .. }) => {
            assert_eq!(source, "条目流#2");
            assert_eq!(message, "内容处理失败: bad");
        },
        _ => panic!("expected an error"),
    }
    assert!(outcome_event(EntryRun::Large, EntryOutcome::TimedOut, None).is_none());
    assert!(outcome_event(EntryRun::Large, EntryOutcome::NoHit, None).is_none());
}
