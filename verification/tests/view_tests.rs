use logseek::view::{numbered_lines, same_entry_path, view_bounds, view_lines};

fn lines(n: usize) -> Vec<String> {
    (1..=n).map(|i| format!("l{}", i)).collect()
}

#[test]
fn view_lines_default_and_placed_ranges() {
    let all = lines(5);
    assert_eq!(view_lines(&all, None, None), all);
    assert_eq!(view_lines(&all, Some(2), Some(3)), vec!["l2", "l3"]);
    assert_eq!(view_lines(&all, Some(0), Some(1)), vec!["l1"]);
    assert_eq!(view_lines(&all, Some(9), Some(20)), vec!["l5"]);
    assert_eq!(view_lines(&all, Some(4), Some(2)), vec!["l4"]);
    assert_eq!(view_lines(&vec![], Some(1), Some(10)), Vec::<String>::new());
}

#[test]
fn view_bounds_number_the_shown_lines() {
    assert_eq!(view_bounds(Some(2), 2, 5), (2, 3));
    assert_eq!(view_bounds(None, 5, 5), (1, 5));
    assert_eq!(view_bounds(Some(0), 1, 5), (1, 1));
    assert_eq!(view_bounds(Some(10), 1, 5), (10, 5));
    assert_eq!(view_bounds(None, 0, 0), (1, 1));
}

#[test]
fn numbered_lines_start_at_the_given_number() {
    let n = numbered_lines(7, &vec!["a".to_string(), "b".to_string()]);
    assert_eq!(n, vec![(7, "a".to_string()), (8, "b".to_string())]);
}

#[test]
fn entry_paths_compare_without_leading_slashes_and_dots() {
    assert!(same_entry_path("/a/b.log", "a/b.log"));
    assert!(same_entry_path("./a/b.log", "//a/b.log"));
    assert!(same_entry_path("/./x", "x"));
    assert!(!same_entry_path("a/b.log", "a/c.log"));
}
