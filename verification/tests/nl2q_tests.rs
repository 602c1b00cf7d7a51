use logseek::nl2q::{build_messages, strip_think_sections, clean_llm_output, NL2QError, NLBody, NL2QResponse, Role, QUICK_GUIDE};

#[test]
fn test_build_messages() {
    let nl = "查找错误日志";
    let messages = build_messages(nl);
    assert_eq!(messages.len(), 2);
    assert!(matches!(messages[0].role, Role::System));
    assert!(messages[0].content.contains("查询字符串规范"));
    assert!(matches!(messages[1].role, Role::User));
    assert_eq!(messages[1].content, "查找错误日志");
}

#[test]
fn test_build_messages_with_whitespace() {
    let nl = "  查找错误日志  \n";
    let messages = build_messages(nl);
    assert_eq!(messages[1].content, "查找错误日志");
}

#[test]
fn test_build_messages_preserves_quotes() {
    let nl = r#"查找包含 "exact phrase" 的日志"#;
    let messages = build_messages(nl);
    assert!(messages[1].content.contains(r#""exact phrase""#));
}

#[test]
fn test_build_messages_empty_nl() {
    let nl = "";
    let messages = build_messages(nl);
    assert_eq!(messages.len(), 2);
    assert_eq!(messages[1].content, "");
}

#[test]
fn test_strip_think_sections_no_think() {
    assert_eq!(strip_think_sections("error AND warning"), "error AND warning");
}

#[test]
fn test_strip_think_sections_single_think() {
    assert_eq!(strip_think_sections("<think>这是思考过程</think>error AND warning"), "error AND warning");
}

#[test]
fn test_strip_think_sections_multiple_think() {
    assert_eq!(strip_think_sections("<think>思考1</think>error<think>思考2</think> AND warning"), "error AND warning");
}

#[test]
fn test_strip_think_sections_unclosed_think() {
    assert_eq!(strip_think_sections("error AND warning<think>未闭合的思考"), "error AND warning");
}

#[test]
fn test_strip_think_sections_nested_think() {
    let output = strip_think_sections("<think>外层<think>内层</think>外层</think>result");
    assert!(output.contains("result"));
}

#[test]
fn test_strip_think_sections_empty_think() {
    assert_eq!(strip_think_sections("<think></think>error"), "error");
}

#[test]
fn nl2q_test_nl2q_error_display() {
    let err = NL2QError::Http("连接失败".to_string());
    assert_eq!(err.message(), "Ollama服务未就绪或连接失败: 连接失败");

    let err = NL2QError::Empty;
    assert_eq!(err.message(), "AI 生成了空结果，请重试或改写需求");
}

#[test]
fn test_quick_guide_loaded() {
    assert!(QUICK_GUIDE.contains("查询字符串规范"));
}

#[test]
fn test_strip_think_sections_preserves_content() {
    assert_eq!(strip_think_sections("before<think>思考</think>middle<think>更多思考</think>after"), "beforemiddleafter");
}

#[test]
fn test_strip_think_sections_with_newlines() {
    assert_eq!(strip_think_sections("result\n<think>\n思考过程\n</think>\nmore"), "result\n\nmore");
}

#[test]
fn test_nl_body_clone() {
    let body = NLBody { nl: "test".to_string() };
    let cloned = body.clone();
    assert_eq!(body.nl, cloned.nl);
}

#[test]
fn test_nl2q_response_clone() {
    let response = NL2QResponse { q: "test query".to_string() };
    let cloned = response.clone();
    assert_eq!(response.q, cloned.q);
}

#[test]
fn test_nl2q_error_debug() {
    let err = NL2QError::Http("test".to_string());
    let debug_str = format!("{:?}", err);
    assert!(debug_str.contains("Http"));
    assert!(debug_str.contains("test"));
}

#[test]
fn test_strip_think_sections_only_think() {
    assert_eq!(strip_think_sections("<think>只有思考</think>"), "");
}

#[test]
fn test_strip_think_sections_multiple_unclosed() {
    assert_eq!(strip_think_sections("result<think>思考1<think>思考2"), "result");
}

#[test]
fn clean_llm_output_strips_fences_and_think() {
    let out = clean_llm_output("<think>x</think>\n```\nerror AND warn\n```\n").unwrap();
    assert_eq!(out, "error AND warn");
    assert!(matches!(clean_llm_output("<think>only</think>  "), Err(NL2QError::Empty)));
}

#[test]
fn stripping_think_sections_twice_changes_nothing() {
    for input in ["a<think>x</think>b", "<thi<think>x</think>nk>rest", "result<think>思考1<think>思考2", "plain"] {
        let once = strip_think_sections(input);
        assert!(!once.contains("<think>"));
        assert_eq!(strip_think_sections(&once), once);
    }
    assert_eq!(strip_think_sections("plain"), "plain");
    assert_eq!(strip_think_sections("result<think>思考1<think>思考2"), "result");
}
