use logseek::cache::{new_sid, Cache, CompactLines};
use logseek::query::KeywordHighlight;

#[test]
fn test_new_sid_generates_valid_uuid() {
    let sid1 = new_sid();
    let sid2 = new_sid();
    assert!(uuid::Uuid::parse_str(&sid1).is_ok());
    assert!(uuid::Uuid::parse_str(&sid2).is_ok());
    assert_ne!(sid1, sid2);
}

fn lines(v: &[&str]) -> Vec<String> {
    v.iter().map(|s| s.to_string()).collect()
}

#[test]
fn compact_lines_slices_one_based_ranges() {
    let c = CompactLines::from_lines(lines(&["a", "bb", "你好", ""]));
    assert_eq!(c.len(), 4);
    assert_eq!(c.get_slice(2, 3), lines(&["bb", "你好"]));
    assert_eq!(c.get_slice(0, 1), lines(&["a"]));
    assert_eq!(c.get_slice(3, 10), lines(&["你好", ""]));
    assert_eq!(c.get_slice(5, 9), Vec::<String>::new());
    assert!(c.size_in_bytes() >= 7);
}

#[test]
fn cache_keywords_read_back() {
    let mut cache = Cache::new(1000);
    cache.put_keywords("s1", vec![KeywordHighlight::Literal("err".to_string())], 10);
    let got = cache.get_keywords("s1", 20).unwrap();
    assert_eq!(got, vec![KeywordHighlight::Literal("err".to_string())]);
    assert!(cache.get_keywords("other", 20).is_none());
}

#[test]
fn cache_lines_read_back_with_placed_range() {
    let mut cache = Cache::new(1000);
    cache.put_lines("s1", "ls://local/a.log", lines(&["l1", "l2", "l3"]), 5);
    let (total, slice) = cache.get_lines_slice("s1", "ls://local/a.log", 2, 100, 6).unwrap();
    assert_eq!(total, 3);
    assert_eq!(slice, lines(&["l2", "l3"]));
    let (_, first) = cache.get_lines_slice("s1", "ls://local/a.log", 0, 0, 7).unwrap();
    assert_eq!(first, lines(&["l1"]));
    let (_, last) = cache.get_lines_slice("s1", "ls://local/a.log", 9, 1, 7).unwrap();
    assert_eq!(last, lines(&["l3"]));
    assert!(cache.get_lines_slice("s1", "ls://local/b.log", 1, 1, 8).is_none());
}

#[test]
fn cache_sessions_are_independent() {
    let mut cache = Cache::new(1000);
    cache.put_lines("a", "f", lines(&["x"]), 1);
    cache.put_lines("b", "f", lines(&["y"]), 1);
    cache.remove_sid("a");
    assert!(cache.get_lines_slice("a", "f", 1, 1, 2).is_none());
    assert_eq!(cache.get_lines_slice("b", "f", 1, 1, 2).unwrap().1, lines(&["y"]));
}

#[test]
fn cache_expired_sessions_are_gone() {
    let mut cache = Cache::new(100);
    cache.put_keywords("s", vec![], 0);
    assert!(cache.get_keywords("s", 50).is_some());
    assert!(cache.get_keywords("s", 1000).is_none());
    cache.put_keywords("t", vec![], 0);
    cache.remove_expired(500);
    assert!(cache.get_file_list("t", 500).is_none());
}

#[test]
fn cache_file_list_lists_each_file_once() {
    let mut cache = Cache::new(1000);
    cache.put_lines("s", "f1", lines(&["1"]), 1);
    cache.put_lines("s", "f2", lines(&["2"]), 1);
    cache.put_lines("s", "f1", lines(&["3"]), 1);
    let mut files = cache.get_file_list("s", 2).unwrap();
    files.sort();
    assert_eq!(files, lines(&["f1", "f2"]));
    assert_eq!(cache.get_lines_slice("s", "f1", 1, 1, 3).unwrap().1, lines(&["3"]));
}

#[test]
fn new_sid_is_a_hyphenated_v4_uuid() {
    let s = new_sid();
    let c: Vec<char> = s.chars().collect();
    assert_eq!(c.len(), 36);
    for i in [8, 13, 18, 23] {
        assert_eq!(c[i], '-');
    }
    assert_eq!(c[14], '4');
    assert!(matches!(c[19], '8' | '9' | 'a' | 'b'));
    assert!(c.iter().enumerate().all(|(i, ch)| [8, 13, 18, 23].contains(&i) || ch.is_ascii_hexdigit() && !ch.is_ascii_uppercase()));
}
