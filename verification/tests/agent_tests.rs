use logseek::agent::{
    agent_capabilities, build_search_request, io_timeout_secs, max_attempts, message_outcome, retry_step, AgentMessage, NdjsonLines,
    RetryStep, SearchOptions, SearchScope, StorageError,
};
use logseek::search::SearchResult;

#[test]
fn search_options_default() {
    let o = SearchOptions::default();
    assert!(o.path_filter.is_none());
    assert!(matches!(o.scope, SearchScope::All));
    assert_eq!(o.timeout_secs, Some(300));
    assert!(o.max_results.is_none());
}

#[test]
fn search_request_carries_the_options() {
    let mut o = SearchOptions::default();
    o.path_filter = Some("*.log".to_string());
    let r = build_search_request("t1".to_string(), "error", 3, o);
    assert_eq!(r.task_id, "t1");
    assert_eq!(r.query, "error");
    assert_eq!(r.context_lines, 3);
    assert_eq!(r.path_filter.as_deref(), Some("*.log"));
}

#[test]
fn message_outcomes() {
    let res = SearchResult::new("a".to_string(), vec![], vec![], None);
    assert!(matches!(message_outcome(AgentMessage::Result(res)), Some(Ok(_))));
    match message_outcome(AgentMessage::Error("boom".to_string())) {
        Some(Err(StorageError::Other(m))) => assert_eq!(m, "Agent 错误: boom"),
        _ => panic!("expected an error"),
    }
    assert!(message_outcome(AgentMessage::Complete).is_none());
}

#[test]
fn ndjson_lines_are_assembled_across_chunks() {
    let mut a = NdjsonLines::new();
    assert_eq!(a.feed(b"{\"a\":1}\n{\"b\""), Some(vec!["{\"a\":1}".to_string()]));
    assert_eq!(a.feed(b":2}\r\n\n"), Some(vec!["{\"b\":2}".to_string()]));
    assert_eq!(a.feed(b"   "), None);
    assert_eq!(a.finish(), None);
}

#[test]
fn a_message_whose_newline_comes_later_is_yielded_once() {
    let mut a = NdjsonLines::new();
    assert_eq!(a.feed(b"{\"type\":\"complete\"}"), None);
    assert_eq!(a.feed(b"\n"), Some(vec!["{\"type\":\"complete\"}".to_string()]));
    assert_eq!(a.finish(), None);

    let body: &[u8] = b"{\"a\":1}\n{\"b\":2}\n{\"c\":3}";
    let mut whole = NdjsonLines::new();
    let mut all = whole.feed(body).unwrap_or_default();
    all.extend(whole.finish());
    for cut in 0..=body.len() {
        let mut s = NdjsonLines::new();
        let mut got: Vec<String> = Vec::new();
        got.extend(s.feed(&body[..cut]).unwrap_or_default());
        got.extend(s.feed(&body[cut..]).unwrap_or_default());
        got.extend(s.finish());
        assert_eq!(got, all);
    }
    assert_eq!(all, vec!["{\"a\":1}".to_string(), "{\"b\":2}".to_string(), "{\"c\":3}".to_string()]);
}

#[test]
fn timeouts_and_attempts_are_clamped() {
    assert_eq!(io_timeout_secs(None, None), 60);
    assert_eq!(io_timeout_secs(Some(1), None), 5);
    assert_eq!(io_timeout_secs(None, Some("1000")), 300);
    assert_eq!(io_timeout_secs(None, Some("x")), 60);
    assert_eq!(max_attempts(None, None), 5);
    assert_eq!(max_attempts(Some(0), None), 1);
    assert_eq!(max_attempts(None, Some("50")), 20);
}

#[test]
fn retry_backs_off_exponentially() {
    assert_eq!(retry_step(1, 5), RetryStep::WaitMs(100));
    assert_eq!(retry_step(3, 5), RetryStep::WaitMs(400));
    assert_eq!(retry_step(5, 5), RetryStep::GiveUp);
}

#[test]
fn capabilities_are_listed() {
    let c = agent_capabilities();
    assert!(c.supports_progress && c.supports_cancellation && c.supports_streaming);
    assert_eq!(c.max_concurrent_searches, 10);
}
