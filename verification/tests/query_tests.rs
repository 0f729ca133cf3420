use cluster_tui::query::{parse_query, filter_matches_row, query_matches_row, SearchOp};

fn chars(s: &str) -> Vec<char> {
    s.chars().collect()
}

fn strings(xs: &[&str]) -> Vec<String> {
    xs.iter().map(|s| s.to_string()).collect()
}

#[test]
fn parse_two_expression_query() {
    let q = parse_query(&chars("status=404 size>1000")).expect("two tokens parse");
    assert_eq!(q.exprs.len(), 2);
    let e0 = &q.exprs[0];
    assert_eq!(e0.key.iter().collect::<String>(), "status");
    assert!(matches!(e0.op, SearchOp::Eq));
    assert_eq!(e0.value.iter().collect::<String>(), "404");
    let e1 = &q.exprs[1];
    assert_eq!(e1.key.iter().collect::<String>(), "size");
    assert!(matches!(e1.op, SearchOp::Gt));
    assert_eq!(e1.value.iter().collect::<String>(), "1000");
}

#[test]
fn two_expression_query_matches_only_when_both_hold() {
    let q = parse_query(&chars("status=404 size>1000")).unwrap();
    let headers = strings(&["ip", "method", "url", "status", "size"]);
    let matching = strings(&["10.0.0.1", "GET", "/a", "404", "1500"]);
    let too_small = strings(&["10.0.0.1", "GET", "/a", "404", "900"]);
    assert!(query_matches_row(&q, &headers, &matching));
    assert!(!query_matches_row(&q, &headers, &too_small));
}

#[test]
fn whitespace_only_text_is_no_filter() {
    assert!(parse_query(&chars("  ")).is_none());
    assert!(parse_query(&chars("")).is_none());
    assert!(parse_query(&chars(" \t ")).is_none());
}

#[test]
fn no_filter_matches_every_row() {
    let headers = strings(&["a", "b"]);
    let rows = [strings(&["x", "y"]), strings(&["", ""]), strings(&["404", "0"])];
    for row in rows.iter() {
        assert!(filter_matches_row(&None, &headers, row));
    }
}

#[test]
fn operator_priority_prefers_longer_operators() {
    let q = parse_query(&chars("a>=3")).unwrap();
    assert!(matches!(q.exprs[0].op, SearchOp::Ge));
    let q2 = parse_query(&chars("a==b")).unwrap();
    assert!(matches!(q2.exprs[0].op, SearchOp::EqExact));
    let q3 = parse_query(&chars("a!=b")).unwrap();
    assert!(matches!(q3.exprs[0].op, SearchOp::NotEq));
    let q4 = parse_query(&chars("a<7")).unwrap();
    assert!(matches!(q4.exprs[0].op, SearchOp::Lt));
    let q5 = parse_query(&chars("a<=7")).unwrap();
    assert!(matches!(q5.exprs[0].op, SearchOp::Le));
}

#[test]
fn bare_token_becomes_contains_expression() {
    let q = parse_query(&chars("get")).unwrap();
    assert_eq!(q.exprs.len(), 1);
    assert!(q.exprs[0].key.is_empty());
    assert!(matches!(q.exprs[0].op, SearchOp::Contains));
    let headers = strings(&["method", "url"]);
    assert!(query_matches_row(&q, &headers, &strings(&["GET", "/x"])));
    assert!(!query_matches_row(&q, &headers, &strings(&["POST", "/x"])));
}

#[test]
fn values_are_dequoted() {
    let q = parse_query(&chars("method=\"GET\"")).unwrap();
    assert_eq!(q.exprs[0].value.iter().collect::<String>(), "GET");
    let q2 = parse_query(&chars("method='get'")).unwrap();
    assert_eq!(q2.exprs[0].value.iter().collect::<String>(), "get");
}

#[test]
fn unknown_column_never_matches() {
    let q = parse_query(&chars("nosuch=1")).unwrap();
    let headers = strings(&["a"]);
    assert!(!query_matches_row(&q, &headers, &strings(&["1"])));
}

#[test]
fn numeric_comparison_against_text_never_matches() {
    let q = parse_query(&chars("size>abc")).unwrap();
    let headers = strings(&["size"]);
    assert!(!query_matches_row(&q, &headers, &strings(&["10"])));
    let q2 = parse_query(&chars("size>5")).unwrap();
    assert!(!query_matches_row(&q2, &headers, &strings(&["many"])));
}

#[test]
fn exact_equality_folds_case() {
    let q = parse_query(&chars("method==get")).unwrap();
    let headers = strings(&["method"]);
    assert!(query_matches_row(&q, &headers, &strings(&["GET"])));
    assert!(!query_matches_row(&q, &headers, &strings(&["GETS"])));
}

#[test]
fn not_equal_excludes_substring() {
    let q = parse_query(&chars("url!=admin")).unwrap();
    let headers = strings(&["url"]);
    assert!(query_matches_row(&q, &headers, &strings(&["/home"])));
    assert!(!query_matches_row(&q, &headers, &strings(&["/admin/x"])));
}

#[test]
fn value_splits_at_the_first_operator_only() {
    let q = parse_query(&chars("a=b=c")).unwrap();
    assert_eq!(q.exprs[0].key.iter().collect::<String>(), "a");
    assert_eq!(q.exprs[0].value.iter().collect::<String>(), "b=c");
}

#[test]
fn operator_with_empty_key_matches_any_column() {
    let q = parse_query(&chars("=404")).unwrap();
    assert!(q.exprs[0].key.is_empty());
    let headers = strings(&["status", "size"]);
    assert!(query_matches_row(&q, &headers, &strings(&["404", "1"])));
    assert!(!query_matches_row(&q, &headers, &strings(&["200", "1"])));
}
