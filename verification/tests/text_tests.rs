use logseek::utils::strings::truncate_utf8;
use logseek::utils::renderer::render_json_chunks;
use logseek::query::KeywordHighlight;

#[test]
fn test_truncate_utf8_ascii() {
    assert_eq!(truncate_utf8("hello", 3), "hel");
    assert_eq!(truncate_utf8("hello", 10), "hello");
    assert_eq!(truncate_utf8("hello", 5), "hello");
}

#[test]
fn test_truncate_utf8_multibyte() {
    let s = "你好世界";
    assert_eq!(truncate_utf8(s, 6), "你好");
    assert_eq!(truncate_utf8(s, 7), "你好");
    assert_eq!(truncate_utf8(s, 3), "你");
    assert_eq!(truncate_utf8(s, 100), "你好世界");
}

#[test]
fn test_truncate_utf8_mixed() {
    let s = "Hello世界";
    assert_eq!(truncate_utf8(s, 5), "Hello");
    assert_eq!(truncate_utf8(s, 8), "Hello世");
    assert_eq!(truncate_utf8(s, 100), "Hello世界");
}

#[test]
fn test_truncate_utf8_emoji() {
    let s = "😀😁😂";
    assert_eq!(truncate_utf8(s, 4), "😀");
    assert_eq!(truncate_utf8(s, 8), "😀😁");
}

#[test]
fn test_truncate_utf8_empty() {
    assert_eq!(truncate_utf8("", 10), "");
    assert_eq!(truncate_utf8("test", 0), "");
}

#[test]
fn truncate_utf8_inside_a_character_keeps_whole_characters() {
    assert_eq!(truncate_utf8("😀😁", 5), "😀");
    assert_eq!(truncate_utf8("a你", 2), "a");
}

#[test]
fn test_render_json_chunks_basic() {
    let lines = vec!["line 1".to_string(), "line 2".to_string()];
    let highlights = vec![KeywordHighlight::Literal("test".to_string())];
    let result = render_json_chunks("test.log", vec![(0, 1)], &lines, &highlights, &None);

    assert_eq!(result.path, "test.log");
    assert_eq!(result.keywords.len(), 1);
    match &result.keywords[0] {
        KeywordHighlight::Literal(s) => assert_eq!(s, "test"),
        _ => panic!("expected Literal"),
    }
    assert_eq!(result.chunks.len(), 1);
    assert_eq!(result.chunks[0].range, (1, 2));
    assert_eq!(result.chunks[0].lines.len(), 2);
    assert_eq!(result.chunks[0].lines[0].no, 1);
    assert_eq!(result.chunks[0].lines[0].text, "line 1");
}

#[test]
fn test_render_json_chunks_multiple_ranges() {
    let lines = vec!["line 1".to_string(), "line 2".to_string(), "line 3".to_string(), "line 4".to_string()];
    let highlights = vec![KeywordHighlight::Literal("line".to_string())];
    let result = render_json_chunks("test.log", vec![(0, 1), (2, 3)], &lines, &highlights, &None);

    assert_eq!(result.chunks.len(), 2);
    assert_eq!(result.chunks[0].range, (1, 2));
    assert_eq!(result.chunks[1].range, (3, 4));
}

#[test]
fn test_render_json_chunks_empty_ranges() {
    let lines = vec!["line 1".to_string()];
    let result = render_json_chunks("test.log", vec![], &lines, &[], &None);
    assert_eq!(result.chunks.len(), 0);
}

#[test]
fn render_json_chunks_carries_encoding_and_texts() {
    let lines = vec!["a".to_string(), "b".to_string(), "c".to_string()];
    let enc = Some("GBK".to_string());
    let result = render_json_chunks("f", vec![(1, 2)], &lines, &[], &enc);
    assert_eq!(result.encoding, &Some("GBK".to_string()));
    assert_eq!(result.chunks[0].range, (2, 3));
    assert_eq!(result.chunks[0].lines[0].no, 2);
    assert_eq!(result.chunks[0].lines[1].text, "c");
}
