use encoding_rs::{GBK, UTF_16BE, UTF_16LE, UTF_8};
use logseek::encoding::{
    auto_detect_encoding, choose_encoding, decode_buffer_to_lines, decode_text_file, detect_encoding, encoding_for_qualifier,
    read_utf16_lines, read_utf8_lines, split_lines, grep_context_lines,
};
use logseek::query::{Query, Term};

#[test]
fn encoding_test_detect_encoding_utf8_bom() {
    let sample = b"\xEF\xBB\xBFHello";
    assert_eq!(detect_encoding(sample).map(|e| e.encoding()), Some(UTF_8));
}

#[test]
fn encoding_test_detect_encoding_utf16le_bom() {
    let sample = b"\xFF\xFEH\x00e\x00l\x00l\x00o\x00";
    assert_eq!(detect_encoding(sample).map(|e| e.encoding()), Some(UTF_16LE));
}

#[test]
fn encoding_test_detect_encoding_utf16be_bom() {
    let sample = b"\xFE\xFF\x00H\x00e\x00l\x00l\x00o";
    assert_eq!(detect_encoding(sample).map(|e| e.encoding()), Some(UTF_16BE));
}

#[test]
fn test_detect_encoding_valid_utf8() {
    let sample = b"Hello, World! \xE4\xB8\xAD\xE6\x96\x87";
    assert_eq!(detect_encoding(sample).map(|e| e.encoding()), Some(UTF_8));
}

#[test]
fn test_auto_detect_encoding() {
    let sample = b"Hello, World!";
    let result = auto_detect_encoding(sample);
    assert!(result.is_some());
    let (enc, name) = result.unwrap();
    assert_eq!(enc.encoding(), UTF_8);
    assert!(!name.is_empty());
}

#[test]
fn test_decode_buffer_to_lines() {
    let buffer = b"line1\nline2\nline3";
    let lines = decode_buffer_to_lines(&encoding_for_qualifier("UTF-8").unwrap(), buffer, "test");
    assert_eq!(lines.len(), 3);
    assert_eq!(lines[0], "line1");
    assert_eq!(lines[1], "line2");
    assert_eq!(lines[2], "line3");
}

#[test]
fn test_decode_buffer_to_lines_no_trailing_newline() {
    let buffer = b"line1\nline2";
    let lines = decode_buffer_to_lines(&encoding_for_qualifier("UTF-8").unwrap(), buffer, "test");
    assert_eq!(lines.len(), 2);
    assert_eq!(lines[1], "line2");
}

#[test]
fn detect_encoding_accepts_a_cut_last_character() {
    // "中" is E4 B8 AD; the sample ends inside it
    let sample = b"abc\xE4\xB8";
    assert_eq!(detect_encoding(sample).unwrap().name(), "UTF-8");
}

#[test]
fn detect_encoding_guesses_other_bytes() {
    // GBK text for "你好世界，这是一段中文" is not UTF-8
    let (bytes, _, _) = GBK.encode("你好世界，这是一段比较长的中文文本，用来检测编码。");
    let e = detect_encoding(&bytes).unwrap();
    assert_ne!(e.name(), "UTF-8");
}

#[test]
fn split_lines_as_str_lines() {
    assert_eq!(split_lines("a\r\nb\n\nc\r"), vec!["a", "b", "", "c\r"]);
    assert_eq!(split_lines(""), Vec::<String>::new());
    assert_eq!(split_lines("\n"), vec![""]);
    assert_eq!(split_lines("x\n"), vec!["x"]);
}

#[test]
fn qualifier_names_and_aliases() {
    assert_eq!(encoding_for_qualifier("gbk").unwrap().name(), "GBK");
    assert_eq!(encoding_for_qualifier("utf8").unwrap().name(), "UTF-8");
    assert_eq!(encoding_for_qualifier("sjis").unwrap().name(), "Shift_JIS");
    assert_eq!(encoding_for_qualifier("CP1252").unwrap().name(), "windows-1252");
    assert_eq!(encoding_for_qualifier("latin-1").unwrap().name(), "windows-1252");
    assert_eq!(encoding_for_qualifier("UTF-16-LE").unwrap().name(), "UTF-16LE");
    assert_eq!(encoding_for_qualifier("big-5").unwrap().name(), "Big5");
    assert_eq!(encoding_for_qualifier("EUC_KR").unwrap().name(), "EUC-KR");
    assert!(encoding_for_qualifier("klingon").is_none());
}

#[test]
fn choose_encoding_prefers_the_qualifier_then_detects() {
    assert_eq!(choose_encoding(Some("gbk"), b"plain ascii").name(), "GBK");
    assert_eq!(choose_encoding(Some("nonsense"), b"plain ascii").name(), "UTF-8");
    assert_eq!(choose_encoding(None, b"\xFF\xFEa\x00").name(), "UTF-16LE");
}

#[test]
fn read_utf8_lines_joins_sample_and_rest() {
    assert_eq!(read_utf8_lines(b"line1\n", b"line2\nline3"), vec!["line1", "line2", "line3"]);
    assert_eq!(read_utf8_lines(b"", b"line1\nline2\nline3"), vec!["line1", "line2", "line3"]);
    // the sample's unfinished last line continues in the rest
    assert_eq!(read_utf8_lines(b"par", b"t2\n"), vec!["part2"]);
    assert_eq!(read_utf8_lines(b"a\r\n", b"b\r\n\r\nc"), vec!["a", "b", "", "c"]);
}

#[test]
fn read_utf16_lines_skips_the_mark_and_an_odd_byte() {
    let sample = [0xFFu8, 0xFE];
    let rest = [b'l', 0, b'1', 0, b'\n', 0, b'l', 0, b'2', 0, 0x41];
    let enc = encoding_for_qualifier("utf-16le").unwrap();
    assert_eq!(read_utf16_lines(&enc, &sample, &rest), vec!["l1", "l2"]);
    let be = encoding_for_qualifier("utf-16be").unwrap();
    assert_eq!(read_utf16_lines(&be, &[0xFE, 0xFF], &[0, b'l', 0, b'1', 0, b'\n', 0, b'l', 0, b'2']), vec!["l1", "l2"]);
}

#[test]
fn decode_text_file_reads_gbk() {
    let data = [0xC4u8, 0xE3, 0xBA, 0xC3, b'\n', b'w', b'o', b'r', b'l', b'd'];
    let (lines, name) = decode_text_file(Some("gbk"), &data, &[]);
    assert_eq!(lines, vec!["你好", "world"]);
    assert_eq!(name.to_lowercase(), "gbk");
}

#[test]
fn grep_context_lines_finds_and_merges() {
    let q = Query::new(vec![Term::Literal("error".to_string())]);
    let text = b"a\nerror 1\nb\nc\nerror 2\nd\n";
    let (lines, merged, enc) = grep_context_lines(&q, 1, None, text, &[]).unwrap();
    assert_eq!(lines.len(), 6);
    assert_eq!(merged, vec![(0, 5)]);
    assert_eq!(enc, Some("UTF-8".to_string()));
    let (_, merged0, _) = grep_context_lines(&q, 0, None, text, &[]).unwrap();
    assert_eq!(merged0, vec![(1, 1), (4, 4)]);
}

#[test]
fn grep_context_lines_gives_nothing_without_hit_or_lines() {
    let q = Query::new(vec![Term::Literal("missing".to_string())]);
    assert!(grep_context_lines(&q, 2, None, b"x\ny\n", &[]).is_none());
    let q = Query::new(vec![Term::Literal("x".to_string())]);
    assert!(grep_context_lines(&q, 2, None, b"", &[]).is_none());
    let empty = Query::new(vec![]);
    assert!(grep_context_lines(&empty, 2, None, b"x\n", &[]).is_none());
}

#[test]
fn grep_context_lines_requires_all_terms() {
    let q = Query::new(vec![Term::Literal("foo".to_string()), Term::Literal("bar".to_string())]);
    assert!(grep_context_lines(&q, 0, None, b"foo\nbaz\n", &[]).is_none());
    let (_, merged, _) = grep_context_lines(&q, 0, None, b"foo\nbaz\nbar\n", &[]).unwrap();
    assert_eq!(merged, vec![(0, 0), (2, 2)]);
}

#[test]
fn grep_context_lines_context_stops_at_file_edges() {
    let q = Query::new(vec![Term::Literal("hit".to_string())]);
    let (_, merged, _) = grep_context_lines(&q, 10, None, b"hit\nb\nc", &[]).unwrap();
    assert_eq!(merged, vec![(0, 2)]);
}
