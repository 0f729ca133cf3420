use cluster_tui::cluster::{build_cluster_index, IndexError};
use cluster_tui::table::{from_gz_bytes, Table};
use std::io::Write;

fn strings(xs: &[&str]) -> Vec<String> {
    xs.iter().map(|s| s.to_string()).collect()
}

fn demo_table() -> Table {
    let headers = strings(&["ip", "status", "cluster"]);
    let rows = vec![
        strings(&["10.0.0.1", "200", "0"]),
        strings(&["10.0.0.2", "404", "1"]),
        strings(&["10.0.0.3", "200", "0"]),
        strings(&["10.0.0.4", "500", "2"]),
        strings(&["10.0.0.5", "404", "1"]),
    ];
    Table::from_rows(headers, rows).expect("rows fit headers")
}

#[test]
fn every_served_row_has_one_cell_per_header() {
    let mut t = demo_table();
    for i in 0..t.total_rows {
        let row = t.get_row(i).expect("in-memory reads succeed");
        assert_eq!(row.len(), t.headers.len());
    }
}

#[test]
fn get_row_returns_the_stored_row() {
    let mut t = demo_table();
    assert_eq!(t.get_row(1).unwrap(), strings(&["10.0.0.2", "404", "1"]));
    assert_eq!(t.get_row(4).unwrap(), strings(&["10.0.0.5", "404", "1"]));
}

#[test]
fn out_of_range_reads_serve_blank_rows() {
    let mut t = demo_table();
    let row = t.get_row(99).unwrap();
    assert_eq!(row.len(), t.headers.len());
    assert!(row.iter().all(|c| c.is_empty()));
}

#[test]
fn from_rows_rejects_short_rows() {
    let headers = strings(&["a", "b"]);
    let rows = vec![strings(&["1", "2"]), strings(&["only-one"])];
    assert!(Table::from_rows(headers, rows).is_none());
}

#[test]
fn column_index_ignores_ascii_case() {
    let t = demo_table();
    assert_eq!(t.column_index("STATUS"), Some(1));
    assert_eq!(t.column_index("Cluster"), Some(2));
    assert_eq!(t.column_index("missing"), None);
}

#[test]
fn gz_bytes_round_trip_materializes_the_table() {
    let csv_text = "ip,status,cluster\n1.1.1.1,200,0\n2.2.2.2,404,1\n";
    let mut enc = flate2::write::GzEncoder::new(Vec::new(), flate2::Compression::default());
    enc.write_all(csv_text.as_bytes()).unwrap();
    let packed = enc.finish().unwrap();
    let mut t = from_gz_bytes(&packed).expect("well-formed gzip");
    assert!(t.is_gz);
    assert_eq!(t.headers, strings(&["ip", "status", "cluster"]));
    assert_eq!(t.total_rows, 2);
    assert_eq!(t.get_row(0).unwrap(), strings(&["1.1.1.1", "200", "0"]));
    assert_eq!(t.get_row(1).unwrap(), strings(&["2.2.2.2", "404", "1"]));
}

#[test]
fn malformed_gz_bytes_fail_to_load() {
    let garbage = vec![1u8, 2, 3, 4, 5];
    assert!(from_gz_bytes(&garbage).is_err());
}

#[test]
fn cluster_index_groups_and_sorts_by_id() {
    let mut t = demo_table();
    let idx = build_cluster_index(&mut t).expect("valid cluster column");
    let ids: Vec<usize> = idx.clusters.iter().map(|c| c.id).collect();
    assert_eq!(ids, vec![0, 1, 2]);
    assert_eq!(idx.clusters[0].rows_idx, vec![0, 2]);
    assert_eq!(idx.clusters[1].rows_idx, vec![1, 4]);
    assert_eq!(idx.clusters[2].rows_idx, vec![3]);
}

#[test]
fn cluster_index_built_twice_is_identical() {
    let mut t1 = demo_table();
    let mut t2 = demo_table();
    let a = build_cluster_index(&mut t1).unwrap();
    let b = build_cluster_index(&mut t2).unwrap();
    assert_eq!(a.clusters.len(), b.clusters.len());
    for (ca, cb) in a.clusters.iter().zip(b.clusters.iter()) {
        assert_eq!(ca.id, cb.id);
        assert_eq!(ca.rows_idx, cb.rows_idx);
    }
}

#[test]
fn cluster_index_partitions_every_row_exactly_once() {
    let mut t = demo_table();
    let idx = build_cluster_index(&mut t).unwrap();
    let mut seen = vec![0usize; t.total_rows];
    for c in idx.clusters.iter() {
        for &ri in c.rows_idx.iter() {
            assert!(ri < t.total_rows);
            seen[ri] += 1;
        }
    }
    assert!(seen.iter().all(|&n| n == 1));
}

#[test]
fn missing_cluster_column_is_fatal() {
    let headers = strings(&["a", "b"]);
    let rows = vec![strings(&["1", "2"])];
    let mut t = Table::from_rows(headers, rows).unwrap();
    assert_eq!(build_cluster_index(&mut t).unwrap_err(), IndexError::MissingClusterColumn);
}

#[test]
fn first_unparsable_cluster_value_is_reported() {
    let headers = strings(&["cluster"]);
    let rows = vec![strings(&["0"]), strings(&["oops"]), strings(&["bad"])];
    let mut t = Table::from_rows(headers, rows).unwrap();
    assert_eq!(build_cluster_index(&mut t).unwrap_err(), IndexError::BadClusterValue(1));
}

#[test]
fn reads_from_a_missing_backing_file_fail_without_aborting() {
    let mut t = Table {
        headers: strings(&["a", "cluster"]),
        rows: None,
        path: Some("no-such-file-anywhere.csv".to_string()),
        is_gz: false,
        total_rows: 3,
        page_cache_start: None,
        page_cache: None,
    };
    assert!(t.get_row(0).is_err());
    // a scan over the unreadable file counts nothing and keeps going
    let index = cluster_tui::cluster::ClusterIndex {
        clusters: vec![cluster_tui::cluster::Cluster { id: 0, rows_idx: vec![0, 1, 2] }],
    };
    let entries = cluster_tui::scan::fresh_scan(&index);
    let after = cluster_tui::scan::advance_scan(&mut t, &index, &None, &entries, 100);
    assert_eq!(after[0].cursor, 3);
    assert_eq!(after[0].matched, 0);
}

#[test]
fn cached_page_serves_rows_with_one_cell_per_header() {
    // a file-backed table whose page cache is already filled serves rows
    // from the cache without touching the file; short and long cached
    // records are brought to exactly one cell per header
    let cached_rows = vec![
        strings(&["a", "b", "c"]),
        strings(&["short"]),
        strings(&["w", "x", "y", "extra"]),
    ];
    let mut t = Table {
        headers: strings(&["h1", "h2", "h3"]),
        rows: None,
        path: Some("never-opened.csv".to_string()),
        is_gz: false,
        total_rows: 3,
        page_cache_start: Some(0),
        page_cache: Some(cached_rows),
    };
    assert_eq!(t.get_row(0).unwrap(), strings(&["a", "b", "c"]));
    assert_eq!(t.get_row(1).unwrap(), strings(&["short", "", ""]));
    assert_eq!(t.get_row(2).unwrap(), strings(&["w", "x", "y"]));
    // an index past the cached records still yields a full-width blank row
    let blank = t.get_row(5).unwrap();
    assert_eq!(blank, strings(&["", "", ""]));
}
