use logseek::query::{combine_path_filters, path_glob_to_filter, eval_expr, collect_positive_atoms, Expr, PathFilter, Query, Term, is_glob_pattern};
use logseek::regexes::StdRegex;
use logseek::conversion::{QueryConverter, QueryExpression, ParsedQuery};

#[test]
fn test_combine_path_filters_empty() {
    let result = combine_path_filters(&[], &[]);
    assert!(result.is_none());
}

#[test]
fn test_combine_path_filters_with_includes() {
    let result = combine_path_filters(&["*.log".to_string()], &[]);
    assert!(result.is_some());
    let filter = result.unwrap();
    assert!(filter.include_set.is_some());
    assert!(filter.exclude.is_none());
}

#[test]
fn test_combine_path_filters_with_excludes() {
    let result = combine_path_filters(&[], &["*.tmp".to_string()]);
    assert!(result.is_some());
    let filter = result.unwrap();
    assert!(filter.include_set.is_none());
    assert!(filter.exclude.is_some());
}

#[test]
fn test_combine_path_filters_with_both() {
    let result = combine_path_filters(&["*.log".to_string()], &["*.tmp".to_string()]);
    assert!(result.is_some());
    let filter = result.unwrap();
    assert!(filter.include_set.is_some());
    assert!(filter.exclude.is_some());
}

#[test]
fn test_combine_path_filters_invalid_glob() {
    let result = combine_path_filters(&["[invalid".to_string()], &[]);
    assert!(result.is_none());
}

#[test]
fn test_combine_path_filters_plain_exclude_uses_contains() {
    let filter = combine_path_filters(&[], &["vendor/".to_string()]).unwrap();
    assert!(filter.exclude.is_none());
    assert_eq!(filter.exclude_contains, vec!["vendor/".to_string()]);
    assert!(!filter.is_allowed("lib/vendor/a.js"));
    assert!(filter.is_allowed("lib/src/a.js"));
}

#[test]
fn test_combine_path_filters_plain_include_uses_contains() {
    let filter = combine_path_filters(&["src/".to_string()], &[]).unwrap();
    assert!(filter.include_set.is_none());
    assert_eq!(filter.include_contains, vec!["src/".to_string()]);
    assert!(filter.is_allowed("app/src/main.rs"));
    assert!(!filter.is_allowed("app/tests/main.rs"));
}

#[test]
fn test_path_glob_filter_strict() {
    let filter = path_glob_to_filter("*.log").unwrap();
    assert!(filter.is_allowed("error.log"));
    assert!(!filter.is_allowed("var/error.log"));
    assert!(!filter.is_allowed("/var/error.log"));

    let filter = path_glob_to_filter("*/*.log").unwrap();
    assert!(!filter.is_allowed("error.log"));
    assert!(filter.is_allowed("var/error.log"));
    assert!(!filter.is_allowed("var/log/error.log"));

    let filter = path_glob_to_filter("**/*.log").unwrap();
    assert!(filter.is_allowed("error.log"));
    assert!(filter.is_allowed("var/error.log"));
    assert!(filter.is_allowed("var/log/error.log"));
    assert!(filter.is_allowed("/abs/path/to/error.log"));
}

#[test]
fn path_glob_to_filter_refuses_a_broken_pattern() {
    let err = path_glob_to_filter("[oops").unwrap_err();
    assert!(err.starts_with("无效路径模式: "));
}

#[test]
fn test_term_matches() {
    let term = Term::Literal("ERROR".to_string());
    assert!(term.matches("error occurred"));
    assert!(term.matches("ERROR occurred"));
    assert!(!term.matches("warning"));

    let term = Term::Phrase("Error".to_string());
    assert!(term.matches("Error occurred"));
    assert!(!term.matches("error occurred"));

    let re = StdRegex::compile(r"\d+").unwrap();
    let term = Term::RegexStd { pattern: r"\d+".to_string(), re };
    assert!(term.matches("line 123"));
    assert!(!term.matches("no numbers"));
}

#[test]
fn test_from_keywords() {
    let keywords = vec!["foo".to_string(), "bar".to_string(), "".to_string()];
    let query = Query::from_keywords(&keywords);

    assert_eq!(query.terms.len(), 2);
    assert_eq!(query.highlights.len(), 2);
    assert!(matches!(query.expr, Some(Expr::And(_))));

    let query = Query::from_keywords(&[]);
    assert!(query.terms.is_empty());
    assert!(query.expr.is_none());
}

#[test]
fn test_eval_expr_logic() {
    let expr = Expr::And(vec![Expr::Atom(0), Expr::Atom(1)]);
    assert!(eval_expr(&expr, &|i| i < 2));
    assert!(!eval_expr(&expr, &|i| i == 0));

    let expr = Expr::Or(vec![Expr::Atom(0), Expr::Atom(1)]);
    assert!(eval_expr(&expr, &|i| i == 0));
    assert!(eval_expr(&expr, &|i| i == 1));
    assert!(!eval_expr(&expr, &|_| false));

    let expr = Expr::Not(Box::new(Expr::Atom(0)));
    assert!(!eval_expr(&expr, &|_| true));
    assert!(eval_expr(&expr, &|_| false));
}

#[test]
fn eval_expr_of_empty_groups() {
    assert!(eval_expr(&Expr::And(vec![]), &|_| false));
    assert!(!eval_expr(&Expr::Or(vec![]), &|_| true));
}

#[test]
fn test_collect_positive_atoms() {
    let mut out = Vec::new();

    collect_positive_atoms(&Expr::Atom(0), false, &mut out);
    assert_eq!(out, vec![0]);

    out.clear();
    collect_positive_atoms(&Expr::Not(Box::new(Expr::Atom(1))), false, &mut out);
    assert!(out.is_empty());

    out.clear();
    let expr = Expr::And(vec![Expr::Atom(0), Expr::Not(Box::new(Expr::Atom(1))), Expr::Atom(2)]);
    collect_positive_atoms(&expr, false, &mut out);
    assert_eq!(out, vec![0, 2]);
}

#[test]
fn collect_positive_atoms_double_negation_is_positive() {
    let mut out = Vec::new();
    let expr = Expr::Not(Box::new(Expr::Not(Box::new(Expr::Atom(4)))));
    collect_positive_atoms(&expr, false, &mut out);
    assert_eq!(out, vec![4]);
}

#[test]
fn test_path_filter_is_allowed() {
    let mut filter = PathFilter::default();
    assert!(filter.is_allowed("any/path"));

    filter.exclude_contains.push("node_modules".to_string());
    assert!(!filter.is_allowed("src/node_modules/lib.js"));
    assert!(filter.is_allowed("src/lib.js"));

    filter = PathFilter::default();
    filter.include_contains.push("src".to_string());
    assert!(filter.is_allowed("src/main.rs"));
    assert!(!filter.is_allowed("tests/main.rs"));
}

#[test]
fn test_glob_vendor_recursive_excludes() {
    let filter = combine_path_filters(&[], &["**/vendor/**".to_string()]).unwrap();
    assert!(!filter.is_allowed("lib/vendor/a.js"));
    assert!(filter.is_allowed("lib/src/a.js"));
}

#[test]
fn test_glob_star_ptcr_not_equivalent_to_contains_ptcr() {
    let filter_contains = combine_path_filters(&["ptcr".to_string()], &[]).unwrap();
    let filter_glob = combine_path_filters(&["**ptcr**".to_string()], &[]).unwrap();

    assert!(filter_contains.is_allowed("lib/ptcr/a.js"));
    assert!(!filter_glob.is_allowed("lib/ptcr/a.js"));

    assert!(filter_contains.is_allowed("lib/myptcr/a.js"));
    assert!(!filter_glob.is_allowed("lib/myptcr/a.js"));

    assert!(filter_contains.is_allowed("ptcr.js"));
    assert!(filter_glob.is_allowed("ptcr.js"));
    assert!(filter_contains.is_allowed("myptcrfile.js"));
    assert!(filter_glob.is_allowed("myptcrfile.js"));
}

#[test]
fn test_contains_ptcr_equivalent_to_glob_combination() {
    let filter_contains = combine_path_filters(&["ptcr".to_string()], &[]).unwrap();
    let filter_glob_combo = combine_path_filters(
        &["**/ptcr/**".to_string(), "**/*ptcr*/**".to_string(), "**/*ptcr*".to_string(), "ptcr".to_string()],
        &[],
    )
    .unwrap();

    let test_cases = ["ptcr", "ptcr.js", "lib/ptcr/a.js", "lib/myptcr/a.js", "myptcrfile.js", "lib/myptcrfile.js"];

    for path in test_cases {
        assert_eq!(filter_contains.is_allowed(path), filter_glob_combo.is_allowed(path), "路径 '{}' 语义不等价", path);
        assert!(filter_contains.is_allowed(path), "路径 '{}' 应被允许", path);
    }
}

#[test]
fn test_glob_raw_semantics_no_normalize() {
    let path = "Users/wangyue/Downloads/dir22/home/bbipadm/logs/msk/nohup-route.log";

    let filter1 = combine_path_filters(&["**/nohup*.log".to_string()], &[]).unwrap();
    assert!(filter1.is_allowed(path));

    let filter2 = combine_path_filters(&["**/*22*/**/nohup*.log".to_string()], &[]).unwrap();
    assert!(filter2.is_allowed(path));

    let filter3 = combine_path_filters(&["abc/nohup*.log".to_string()], &[]).unwrap();
    assert!(!filter3.is_allowed(path));

    let filter4 = combine_path_filters(&["nohup*.log".to_string()], &[]).unwrap();
    assert!(!filter4.is_allowed(path));
}

#[test]
fn glob_pattern_detection() {
    assert!(is_glob_pattern("*.log"));
    assert!(is_glob_pattern("a?c"));
    assert!(is_glob_pattern("[ab]"));
    assert!(!is_glob_pattern("{a,b}"));
    assert!(!is_glob_pattern("vendor/"));
}

#[test]
fn query_with_path_filter_negated_excludes() {
    let q = Query::new(vec![Term::Literal("foo".into())]).with_path_filter(Some("!*.txt".to_string())).unwrap();
    assert!(q.path_filter.is_allowed("foo.log"));
    assert!(!q.path_filter.is_allowed("foo.txt"));
}

#[test]
fn query_eval_file_and_positive_terms() {
    let q = Query::new(vec![Term::Literal("a".into()), Term::Literal("b".into())]);
    assert!(q.eval_file(&[true, true]));
    assert!(!q.eval_file(&[true, false]));
    assert!(!q.eval_file(&[true]));
    assert_eq!(q.positive_term_indices(), vec![0, 1]);
}

#[test]
fn test_query_expression_literal() {
    let expr = QueryExpression::literal("test".to_string());
    let (terms, result_expr) = QueryConverter::query_expression_to_parts(&expr);
    assert_eq!(terms.len(), 1);
    assert!(matches!(terms[0], Term::Literal(_)));
    assert!(result_expr.is_some());
}

#[test]
fn test_query_expression_and() {
    let expr = QueryExpression::and(QueryExpression::literal("foo".to_string()), QueryExpression::literal("bar".to_string()));
    let (terms, result_expr) = QueryConverter::query_expression_to_parts(&expr);
    assert_eq!(terms.len(), 2);
    assert!(result_expr.is_some());
}

#[test]
fn test_query_expression_not() {
    let expr = QueryExpression::not(QueryExpression::literal("test".to_string()));
    let (terms, result_expr) = QueryConverter::query_expression_to_parts(&expr);
    assert_eq!(terms.len(), 1);
    if let Some(Expr::Not(inner)) = result_expr {
        assert!(matches!(*inner, Expr::Atom(0)));
    } else {
        panic!("Expected Not expression");
    }
}

#[test]
fn test_to_parsed_query_simple() {
    let query = Query::new(vec![Term::Literal("foo".to_string()), Term::Literal("bar".to_string())]);
    let parsed = QueryConverter::to_parsed_query(&query);
    let _ = &parsed.expression;
}

#[test]
fn test_from_parsed_query_simple() {
    let expr = QueryExpression::literal("test".to_string());
    let parsed = ParsedQuery::new(expr, "test".to_string());
    let restored = QueryConverter::from_parsed_query(&parsed);
    assert_eq!(restored.terms.len(), 1);
}

#[test]
fn query_expression_to_parts_numbers_atoms_left_to_right() {
    let expr = QueryExpression::or(
        QueryExpression::literal("a".to_string()),
        QueryExpression::and(QueryExpression::literal("b".to_string()), QueryExpression::not(QueryExpression::literal("c".to_string()))),
    );
    let (terms, e) = QueryConverter::query_expression_to_parts(&expr);
    assert_eq!(terms.len(), 3);
    let e = e.unwrap();
    // a OR (b AND NOT c): true for {a}, for {b}, false for {b, c}
    assert!(eval_expr(&e, &|i| i == 0));
    assert!(eval_expr(&e, &|i| i == 1));
    assert!(!eval_expr(&e, &|i| i == 1 || i == 2));
}

#[test]
fn adjust_atom_indices_shifts_every_atom() {
    let e = Expr::And(vec![Expr::Atom(0), Expr::Not(Box::new(Expr::Atom(2)))]);
    let shifted = QueryConverter::adjust_atom_indices(e, 3);
    let mut out = Vec::new();
    collect_positive_atoms(&shifted, true, &mut out);
    assert_eq!(out, vec![5]);
}

fn sample_expr() -> Expr {
    Expr::And(vec![Expr::Atom(0), Expr::Not(Box::new(Expr::Or(vec![Expr::Atom(1), Expr::Atom(2)])))])
}

#[test]
fn adjusting_atoms_twice_adds_the_offsets() {
    let twice = QueryConverter::adjust_atom_indices(QueryConverter::adjust_atom_indices(sample_expr(), 2), 3);
    let once = QueryConverter::adjust_atom_indices(sample_expr(), 5);
    assert_eq!(format!("{:?}", twice), format!("{:?}", once));
    assert_eq!(format!("{:?}", QueryConverter::adjust_atom_indices(sample_expr(), 0)), format!("{:?}", sample_expr()));
}

#[test]
fn a_negated_literal_becomes_a_negated_atom() {
    let expr = QueryExpression::not(QueryExpression::literal("foo".to_string()));
    let (_terms, e) = QueryConverter::query_expression_to_parts(&expr);
    assert_eq!(format!("{:?}", e), format!("{:?}", Some(Expr::Not(Box::new(Expr::Atom(0))))));
}
