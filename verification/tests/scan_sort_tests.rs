use cluster_tui::cluster::build_cluster_index;
use cluster_tui::query::parse_query;
use cluster_tui::scan::{advance_scan, count_matches_full, fresh_scan, full_counts, matching_rows};
use cluster_tui::sort::{apply_sort, SortOrder};
use cluster_tui::table::Table;

fn strings(xs: &[&str]) -> Vec<String> {
    xs.iter().map(|s| s.to_string()).collect()
}

fn chars(s: &str) -> Vec<char> {
    s.chars().collect()
}

fn status_table(n: usize) -> Table {
    let headers = strings(&["status", "size", "cluster"]);
    let mut rows = Vec::new();
    for i in 0..n {
        let status = if i % 2 == 0 { "404" } else { "200" };
        rows.push(strings(&[status, &format!("{}", 100 + i), &format!("{}", i % 3)]));
    }
    Table::from_rows(headers, rows).unwrap()
}

#[test]
fn budgeted_counts_grow_and_reach_the_full_counts() {
    let mut t = status_table(90);
    let index = build_cluster_index(&mut t).unwrap();
    let query = parse_query(&chars("status=404"));
    let mut entries = fresh_scan(&index);
    let mut prev: Vec<usize> = entries.iter().map(|e| e.matched).collect();
    for _ in 0..10 {
        entries = advance_scan(&mut t, &index, &query, &entries, 10);
        let now: Vec<usize> = entries.iter().map(|e| e.matched).collect();
        for (p, n) in prev.iter().zip(now.iter()) {
            assert!(n >= p, "a cluster's count shrank across invocations");
        }
        prev = now;
    }
    entries = advance_scan(&mut t, &index, &query, &entries, 1_000_000);
    let authoritative = full_counts(&mut t, &index, &query);
    for (e, (cid, cnt)) in entries.iter().zip(authoritative.iter()) {
        assert_eq!(e.cluster_id, *cid);
        assert_eq!(e.matched, *cnt, "converged count differs from the full scan");
    }
}

#[test]
fn matching_rows_lists_exactly_the_matches_in_order() {
    let mut t = status_table(12);
    let index = build_cluster_index(&mut t).unwrap();
    let query = parse_query(&chars("status=404"));
    let c0 = index.clusters[0].clone();
    let rows = matching_rows(&mut t, &c0, &query);
    // cluster 0 holds rows 0,3,6,9; of these the even rows carry status 404
    assert_eq!(rows, vec![0, 6]);
    let n = count_matches_full(&mut t, &c0, &query);
    assert_eq!(n, rows.len());
}

#[test]
fn sorting_numeric_ascending_then_descending_reverses_the_order() {
    let headers = strings(&["v", "cluster"]);
    let rows = vec![
        strings(&["30", "0"]),
        strings(&["4", "0"]),
        strings(&["200", "0"]),
        strings(&["1", "0"]),
    ];
    let mut t = Table::from_rows(headers, rows).unwrap();
    let mut index = build_cluster_index(&mut t).unwrap();
    apply_sort(&mut t, &mut index, "v", SortOrder::Ascend);
    let asc = index.clusters[0].rows_idx.clone();
    assert_eq!(asc, vec![3, 1, 0, 2]);
    apply_sort(&mut t, &mut index, "v", SortOrder::Descend);
    let mut desc = index.clusters[0].rows_idx.clone();
    desc.reverse();
    assert_eq!(desc, asc, "descending is the reverse of ascending for distinct keys");
}

#[test]
fn mixed_values_fall_back_to_lexicographic_without_failing() {
    let headers = strings(&["v", "cluster"]);
    let rows = vec![
        strings(&["banana", "0"]),
        strings(&["10", "0"]),
        strings(&["2", "0"]),
        strings(&["apple", "0"]),
    ];
    let mut t = Table::from_rows(headers, rows).unwrap();
    let mut index = build_cluster_index(&mut t).unwrap();
    apply_sort(&mut t, &mut index, "v", SortOrder::Ascend);
    let order = index.clusters[0].rows_idx.clone();
    // numbers compare numerically against each other; anything touching a
    // word compares by code points
    assert_eq!(order.len(), 4);
    let pos =
        |ri: usize| order.iter().position(|&x| x == ri).unwrap();
    assert!(pos(2) < pos(1) || pos(1) < pos(2));
    // "10" < "2" holds lexicographically but 10 > 2 numerically: the
    // numeric pair must be in numeric order
    assert!(pos(2) < pos(1));
    // words sort after digits by code point
    assert!(pos(1) < pos(3) && pos(3) < pos(0));
}

#[test]
fn equal_keys_keep_their_relative_order() {
    let headers = strings(&["v", "cluster"]);
    let rows = vec![
        strings(&["5", "0"]),
        strings(&["1", "0"]),
        strings(&["5", "0"]),
        strings(&["1", "0"]),
    ];
    let mut t = Table::from_rows(headers, rows).unwrap();
    let mut index = build_cluster_index(&mut t).unwrap();
    apply_sort(&mut t, &mut index, "v", SortOrder::Ascend);
    assert_eq!(index.clusters[0].rows_idx, vec![1, 3, 0, 2]);
}

#[test]
fn unknown_sort_column_changes_nothing() {
    let mut t = status_table(6);
    let mut index = build_cluster_index(&mut t).unwrap();
    let before: Vec<Vec<usize>> = index.clusters.iter().map(|c| c.rows_idx.clone()).collect();
    apply_sort(&mut t, &mut index, "nosuch", SortOrder::Ascend);
    let after: Vec<Vec<usize>> = index.clusters.iter().map(|c| c.rows_idx.clone()).collect();
    assert_eq!(before, after);
}
