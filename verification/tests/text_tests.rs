use cluster_tui::text::{cmp_lex, cmp_numeric, contains_sub, lower_vec, parse_usize};

fn chars(s: &str) -> Vec<char> {
    s.chars().collect()
}

#[test]
fn numeric_compare_orders_by_value_not_text() {
    assert_eq!(cmp_numeric(&chars("9"), &chars("10")), Some(-1));
    assert_eq!(cmp_numeric(&chars("10"), &chars("9")), Some(1));
    assert_eq!(cmp_numeric(&chars("10"), &chars("10")), Some(0));
}

#[test]
fn numeric_compare_handles_fractions_and_signs() {
    assert_eq!(cmp_numeric(&chars("-1.5"), &chars("-1.50")), Some(0));
    assert_eq!(cmp_numeric(&chars("-2"), &chars("1")), Some(-1));
    assert_eq!(cmp_numeric(&chars("0"), &chars("-0")), Some(0));
    assert_eq!(cmp_numeric(&chars("+3.25"), &chars("3.5")), Some(-1));
    assert_eq!(cmp_numeric(&chars("007"), &chars("7")), Some(0));
    assert_eq!(cmp_numeric(&chars(".5"), &chars("0.25")), Some(1));
}

#[test]
fn numeric_compare_rejects_non_numbers() {
    assert_eq!(cmp_numeric(&chars("abc"), &chars("1")), None);
    assert_eq!(cmp_numeric(&chars("1"), &chars("")), None);
    assert_eq!(cmp_numeric(&chars("1.2.3"), &chars("1")), None);
    assert_eq!(cmp_numeric(&chars("."), &chars("1")), None);
}

#[test]
fn lexicographic_compare_orders_by_code_points() {
    assert_eq!(cmp_lex(&chars("abc"), &chars("abd")), -1);
    assert_eq!(cmp_lex(&chars("ab"), &chars("abc")), -1);
    assert_eq!(cmp_lex(&chars("b"), &chars("a")), 1);
    assert_eq!(cmp_lex(&chars("same"), &chars("same")), 0);
}

#[test]
fn parse_usize_reads_plain_integers() {
    assert_eq!(parse_usize(&chars("0")), Some(0));
    assert_eq!(parse_usize(&chars("42")), Some(42));
    assert_eq!(parse_usize(&chars("+7")), Some(7));
    assert_eq!(parse_usize(&chars("")), None);
    assert_eq!(parse_usize(&chars("-1")), None);
    assert_eq!(parse_usize(&chars("1x")), None);
    assert_eq!(parse_usize(&chars("99999999999999999999999999")), None);
}

#[test]
fn lower_vec_folds_ascii_only() {
    let out: String = lower_vec(&chars("AbC-9Z")).iter().collect();
    assert_eq!(out, "abc-9z");
}

#[test]
fn contains_sub_finds_runs() {
    assert!(contains_sub(&chars("hello world"), &chars("lo wo")));
    assert!(contains_sub(&chars("abc"), &chars("")));
    assert!(!contains_sub(&chars("abc"), &chars("abcd")));
    assert!(!contains_sub(&chars("abc"), &chars("ac")));
}
