//! The filtering coordinator: a budgeted foreground scan that refines
//! per-cluster match counts a bounded number of rows per call, and the
//! full scans that a background worker runs to the same specification.

use vstd::prelude::*;
use crate::cluster::{Cluster, ClusterIndex};
use crate::query::{filter_matches, filter_matches_row, SearchQuery};
use crate::table::Table;

verus! {

/// How many row evaluations one foreground scan call may spend.
pub const SCAN_BUDGET: usize = 800;

/// Progress of the incremental scan through one cluster: how many of its
/// first `cursor` rows matched.
#[derive(Debug, Clone)]
pub struct ScanEntry {
    pub cluster_id: usize,
    pub matched: usize,
    pub cursor: usize,
}

/// A row with one empty cell per column.
pub open spec fn blank_row_view(n: int) -> Seq<Seq<char>> {
    Seq::new(n as nat, |j: int| Seq::<char>::empty())
}

/// What `Table::get_row` serves for row `i`: the stored row, or a blank
/// row when `i` is out of range.
pub open spec fn served_row_view(rows: Seq<Vec<String>>, n: int, i: int) -> Seq<Seq<char>> {
    if 0 <= i < rows.len() {
        rows[i].deep_view()
    } else {
        blank_row_view(n)
    }
}

/// How many of the first `upto` rows of the cluster pass the filter.
pub open spec fn match_count(
    q: Option<SearchQuery>,
    headers: Seq<Seq<char>>,
    rows: Seq<Vec<String>>,
    rows_idx: Seq<usize>,
    upto: int,
) -> int
    decreases upto,
{
    if upto <= 0 {
        0
    } else {
        match_count(q, headers, rows, rows_idx, upto - 1) + if filter_matches(
            q,
            headers,
            served_row_view(rows, headers.len() as int, rows_idx[upto - 1] as int),
        ) {
            1int
        } else {
            0int
        }
    }
}

/// The row references among the first `upto` of the cluster that pass the
/// filter, in order.
pub open spec fn matched_rows(
    q: Option<SearchQuery>,
    headers: Seq<Seq<char>>,
    rows: Seq<Vec<String>>,
    rows_idx: Seq<usize>,
    upto: int,
) -> Seq<usize>
    decreases upto,
{
    if upto <= 0 {
        Seq::empty()
    } else {
        let p = matched_rows(q, headers, rows, rows_idx, upto - 1);
        if filter_matches(
            q,
            headers,
            served_row_view(rows, headers.len() as int, rows_idx[upto - 1] as int),
        ) {
            p.push(rows_idx[upto - 1])
        } else {
            p
        }
    }
}

/// Rows of cluster `k` not yet passed by its cursor.
pub open spec fn remaining_at(entries: Seq<ScanEntry>, clusters: Seq<Cluster>, k: int) -> int {
    clusters[k].rows_idx@.len() - entries[k].cursor
}

/// Rows left unscanned in the clusters before `k`.
pub open spec fn prefix_remaining(entries: Seq<ScanEntry>, clusters: Seq<Cluster>, k: int) -> int
    decreases k,
{
    if k <= 0 {
        0
    } else {
        prefix_remaining(entries, clusters, k - 1) + remaining_at(entries, clusters, k - 1)
    }
}

/// Where one budgeted call leaves cluster `k`'s cursor: the budget is
/// spent in index order, so the cluster advances by its remaining rows or
/// by whatever budget the earlier clusters left, whichever is smaller.
pub open spec fn scan_target_cursor(
    entries: Seq<ScanEntry>,
    clusters: Seq<Cluster>,
    budget: int,
    k: int,
) -> int {
    let left = budget - prefix_remaining(entries, clusters, k);
    let advance = if left <= 0 {
        0
    } else if remaining_at(entries, clusters, k) <= left {
        remaining_at(entries, clusters, k)
    } else {
        left
    };
    entries[k].cursor + advance
}

/// The scan entries line up with the clusters and no cursor or count runs
/// past its cluster.
pub open spec fn scan_wf(entries: Seq<ScanEntry>, clusters: Seq<Cluster>) -> bool {
    &&& entries.len() == clusters.len()
    &&& forall|k: int|
        0 <= k < entries.len() ==> {
            &&& (#[trigger] entries[k]).cluster_id == clusters[k].id
            &&& entries[k].cursor <= clusters[k].rows_idx@.len()
            &&& entries[k].matched <= entries[k].cursor
        }
}

/// Every entry counts exactly the matches among the rows its cursor has
/// passed.
pub open spec fn scan_exact(
    entries: Seq<ScanEntry>,
    clusters: Seq<Cluster>,
    q: Option<SearchQuery>,
    headers: Seq<Seq<char>>,
    rows: Seq<Vec<String>>,
) -> bool {
    forall|k: int|
        0 <= k < entries.len() ==> (#[trigger] entries[k]).matched == match_count(
            q,
            headers,
            rows,
            clusters[k].rows_idx@,
            entries[k].cursor as int,
        )
}

/// The number of matches is non-negative and at most the rows scanned.
pub proof fn lemma_match_count_bounds(
    q: Option<SearchQuery>,
    headers: Seq<Seq<char>>,
    rows: Seq<Vec<String>>,
    rows_idx: Seq<usize>,
    upto: int,
)
    ensures
        0 <= match_count(q, headers, rows, rows_idx, upto) <= if upto <= 0 {
            0int
        } else {
            upto
        },
    decreases upto,
{
    if upto > 0 {
        lemma_match_count_bounds(q, headers, rows, rows_idx, upto - 1);
    }
}

/// Scanning further never lowers the count: the progressive per-cluster
/// counts are monotonically non-decreasing across budgeted invocations.
pub proof fn lemma_match_count_monotonic(
    q: Option<SearchQuery>,
    headers: Seq<Seq<char>>,
    rows: Seq<Vec<String>>,
    rows_idx: Seq<usize>,
    a: int,
    b: int,
)
    requires
        a <= b,
    ensures
        match_count(q, headers, rows, rows_idx, a) <= match_count(q, headers, rows, rows_idx, b),
    decreases b - a,
{
    if a < b {
        lemma_match_count_monotonic(q, headers, rows, rows_idx, a, b - 1);
    }
}

/// The count is the length of the matched-row list.
pub proof fn lemma_match_count_is_len(
    q: Option<SearchQuery>,
    headers: Seq<Seq<char>>,
    rows: Seq<Vec<String>>,
    rows_idx: Seq<usize>,
    upto: int,
)
    ensures
        match_count(q, headers, rows, rows_idx, upto) == matched_rows(
            q,
            headers,
            rows,
            rows_idx,
            upto,
        ).len(),
    decreases upto,
{
    if upto > 0 {
        lemma_match_count_is_len(q, headers, rows, rows_idx, upto - 1);
    }
}

/// Fresh scan entries for an index: every cluster starts unscanned.
pub fn fresh_scan(index: &ClusterIndex) -> (r: Vec<ScanEntry>)
    ensures
        scan_wf(r@, index.clusters@),
        forall|k: int| 0 <= k < r@.len() ==> (#[trigger] r@[k]).matched == 0 && r@[k].cursor == 0,
{
    let mut out: Vec<ScanEntry> = Vec::new();
    let mut k: usize = 0;
    while k < index.clusters.len()
        invariant
            k <= index.clusters@.len(),
            out@.len() == k,
            forall|j: int|
                0 <= j < k ==> (#[trigger] out@[j]).cluster_id == index.clusters@[j].id
                    && out@[j].matched == 0 && out@[j].cursor == 0,
        decreases index.clusters.len() - k,
    {
        out.push(ScanEntry { cluster_id: index.clusters[k].id, matched: 0, cursor: 0 });
        k = k + 1;
    }
    out
}

/// Advance the budgeted scan: spend at most `budget` row evaluations,
/// cluster by cluster in index order, each cluster resuming at its own
/// cursor. Counts only grow, and for a materialized table every count
/// stays exactly the number of matches among the rows its cursor passed.
pub fn advance_scan(
    table: &mut Table,
    index: &ClusterIndex,
    query: &Option<SearchQuery>,
    entries: &Vec<ScanEntry>,
    budget: usize,
) -> (r: Vec<ScanEntry>)
    requires
        old(table).wf(),
        scan_wf(entries@, index.clusters@),
        old(table).in_memory() ==> scan_exact(
            entries@,
            index.clusters@,
            *query,
            old(table).headers.deep_view(),
            old(table).mem_rows(),
        ),
    ensures
        final(table).wf(),
        final(table).same_source(old(table)),
        scan_wf(r@, index.clusters@),
        r@.len() == entries@.len(),
        forall|k: int| 0 <= k < r@.len() ==> (#[trigger] r@[k]).cursor >= entries@[k].cursor,
        // the budget is spent in index order and nothing else moves: every
        // final cursor is pinned by the entries, the clusters and the budget
        forall|k: int|
            0 <= k < r@.len() ==> (#[trigger] r@[k]).cursor == scan_target_cursor(
                entries@,
                index.clusters@,
                budget as int,
                k,
            ),
        old(table).in_memory() ==> scan_exact(
            r@,
            index.clusters@,
            *query,
            old(table).headers.deep_view(),
            old(table).mem_rows(),
        ),
{
    let ghost hdv = table.headers.deep_view();
    let ghost mrows = table.mem_rows();
    let mut out: Vec<ScanEntry> = Vec::new();
    let mut budget_left = budget;
    let mut k: usize = 0;
    while k < entries.len()
        invariant
            table.wf(),
            table.same_source(old(table)),
            hdv == old(table).headers.deep_view(),
            mrows == old(table).mem_rows(),
            scan_wf(entries@, index.clusters@),
            old(table).in_memory() ==> scan_exact(entries@, index.clusters@, *query, hdv, mrows),
            k <= entries@.len(),
            out@.len() == k,
            budget_left == (if budget - prefix_remaining(entries@, index.clusters@, k as int) >= 0 {
                budget - prefix_remaining(entries@, index.clusters@, k as int)
            } else {
                0int
            }),
            forall|j: int|
                0 <= j < k ==> {
                    &&& (#[trigger] out@[j]).cluster_id == index.clusters@[j].id
                    &&& out@[j].cursor <= index.clusters@[j].rows_idx@.len()
                    &&& out@[j].matched <= out@[j].cursor
                    &&& out@[j].cursor >= entries@[j].cursor
                    &&& out@[j].cursor == scan_target_cursor(
                        entries@,
                        index.clusters@,
                        budget as int,
                        j,
                    )
                },
            old(table).in_memory() ==> forall|j: int|
                0 <= j < k ==> (#[trigger] out@[j]).matched == match_count(
                    *query,
                    hdv,
                    mrows,
                    index.clusters@[j].rows_idx@,
                    out@[j].cursor as int,
                ),
        decreases entries.len() - k,
    {
        let cluster = &index.clusters[k];
        let total = cluster.rows_idx.len();
        let mut cursor = entries[k].cursor;
        let mut matched = entries[k].matched;
        let ghost start_left = budget_left as int;
        while cursor < total && budget_left > 0
            invariant
                start_left == (if budget - prefix_remaining(entries@, index.clusters@, k as int)
                    >= 0 {
                    budget - prefix_remaining(entries@, index.clusters@, k as int)
                } else {
                    0int
                }),
                budget_left == start_left - (cursor - entries@[k as int].cursor),
                table.wf(),
                table.same_source(old(table)),
                hdv == old(table).headers.deep_view(),
                mrows == old(table).mem_rows(),
                0 <= k < index.clusters@.len(),
                cluster == index.clusters@[k as int],
                total == cluster.rows_idx@.len(),
                cursor <= total,
                matched <= cursor,
                cursor >= entries@[k as int].cursor,
                old(table).in_memory() ==> matched == match_count(
                    *query,
                    hdv,
                    mrows,
                    cluster.rows_idx@,
                    cursor as int,
                ),
            decreases total - cursor,
        {
            let ri = cluster.rows_idx[cursor];
            match table.get_row(ri) {
                Ok(row) => {
                    proof {
                        if table.in_memory() {
                            if (ri as int) < mrows.len() {
                                assert(row.deep_view() == mrows[ri as int].deep_view());
                            } else {
                                assert(row.deep_view() =~~= blank_row_view(hdv.len() as int)) by {
                                    assert(row@.len() == old(table).headers@.len());
                                    assert(hdv.len() == old(table).headers@.len());
                                }
                            }
                            assert(row.deep_view() == served_row_view(
                                mrows,
                                hdv.len() as int,
                                ri as int,
                            ));
                        }
                    }
                    if filter_matches_row(query, &table.headers, &row) {
                        matched = matched + 1;
                    }
                },
                Err(_) => {
                    // a failed read counts as no match, as the scan must
                    // not abort the session
                },
            }
            cursor = cursor + 1;
            budget_left = budget_left - 1;
        }
        out.push(ScanEntry { cluster_id: cluster.id, matched, cursor });
        k = k + 1;
    }
    out
}

/// The exact number of matching rows of one cluster, over its whole row
/// list.
pub fn count_matches_full(table: &mut Table, cluster: &Cluster, query: &Option<SearchQuery>) -> (r:
    usize)
    requires
        old(table).wf(),
    ensures
        final(table).wf(),
        final(table).same_source(old(table)),
        old(table).in_memory() ==> r == match_count(
            *query,
            old(table).headers.deep_view(),
            old(table).mem_rows(),
            cluster.rows_idx@,
            cluster.rows_idx@.len() as int,
        ),
{
    let rows = matching_rows(table, cluster, query);
    proof {
        if old(table).in_memory() {
            lemma_match_count_is_len(
                *query,
                old(table).headers.deep_view(),
                old(table).mem_rows(),
                cluster.rows_idx@,
                cluster.rows_idx@.len() as int,
            );
        }
    }
    rows.len()
}

/// The matching row references of one cluster, in row order: what the
/// background worker delivers for the focused cluster.
pub fn matching_rows(table: &mut Table, cluster: &Cluster, query: &Option<SearchQuery>) -> (r: Vec<
    usize,
>)
    requires
        old(table).wf(),
    ensures
        final(table).wf(),
        final(table).same_source(old(table)),
        old(table).in_memory() ==> r@ == matched_rows(
            *query,
            old(table).headers.deep_view(),
            old(table).mem_rows(),
            cluster.rows_idx@,
            cluster.rows_idx@.len() as int,
        ),
        r@.len() <= cluster.rows_idx@.len(),
        forall|p: int| 0 <= p < r@.len() ==> cluster.rows_idx@.contains(#[trigger] r@[p]),
{
    let ghost hdv = table.headers.deep_view();
    let ghost mrows = table.mem_rows();
    let mut out: Vec<usize> = Vec::new();
    let mut i: usize = 0;
    while i < cluster.rows_idx.len()
        invariant
            table.wf(),
            table.same_source(old(table)),
            hdv == old(table).headers.deep_view(),
            mrows == old(table).mem_rows(),
            i <= cluster.rows_idx@.len(),
            out@.len() <= i,
            old(table).in_memory() ==> out@ == matched_rows(
                *query,
                hdv,
                mrows,
                cluster.rows_idx@,
                i as int,
            ),
            forall|p: int| 0 <= p < out@.len() ==> cluster.rows_idx@.contains(#[trigger] out@[p]),
        decreases cluster.rows_idx.len() - i,
    {
        let ri = cluster.rows_idx[i];
        match table.get_row(ri) {
            Ok(row) => {
                proof {
                    if table.in_memory() {
                        if (ri as int) < mrows.len() {
                            assert(row.deep_view() == mrows[ri as int].deep_view());
                        } else {
                            assert(row.deep_view() =~~= blank_row_view(hdv.len() as int)) by {
                                assert(row@.len() == old(table).headers@.len());
                                assert(hdv.len() == old(table).headers@.len());
                            }
                        }
                        assert(row.deep_view() == served_row_view(mrows, hdv.len() as int, ri as int));
                    }
                }
                if filter_matches_row(query, &table.headers, &row) {
                    out.push(ri);
                    proof {
                        assert(cluster.rows_idx@.contains(ri)) by {
                            assert(cluster.rows_idx@[i as int] == ri);
                        }
                    }
                }
            },
            Err(_) => {},
        }
        i = i + 1;
    }
    out
}

/// The exact match count of every cluster, in index order: what the
/// background worker delivers for the cluster list.
pub fn full_counts(table: &mut Table, index: &ClusterIndex, query: &Option<SearchQuery>) -> (r: Vec<
    (usize, usize),
>)
    requires
        old(table).wf(),
    ensures
        final(table).wf(),
        final(table).same_source(old(table)),
        r@.len() == index.clusters@.len(),
        forall|k: int| 0 <= k < r@.len() ==> (#[trigger] r@[k]).0 == index.clusters@[k].id,
        old(table).in_memory() ==> forall|k: int|
            0 <= k < r@.len() ==> (#[trigger] r@[k]).1 == match_count(
                *query,
                old(table).headers.deep_view(),
                old(table).mem_rows(),
                index.clusters@[k].rows_idx@,
                index.clusters@[k].rows_idx@.len() as int,
            ),
{
    let mut out: Vec<(usize, usize)> = Vec::new();
    let mut k: usize = 0;
    while k < index.clusters.len()
        invariant
            table.wf(),
            table.same_source(old(table)),
            k <= index.clusters@.len(),
            out@.len() == k,
            forall|j: int| 0 <= j < k ==> (#[trigger] out@[j]).0 == index.clusters@[j].id,
            old(table).in_memory() ==> forall|j: int|
                0 <= j < k ==> (#[trigger] out@[j]).1 == match_count(
                    *query,
                    old(table).headers.deep_view(),
                    old(table).mem_rows(),
                    index.clusters@[j].rows_idx@,
                    index.clusters@[j].rows_idx@.len() as int,
                ),
        decreases index.clusters.len() - k,
    {
        let cluster = &index.clusters[k];
        let n = count_matches_full(table, cluster, query);
        out.push((cluster.id, n));
        k = k + 1;
    }
    out
}

} // verus!

verus! {

/// Once a cluster's cursor has passed its whole row list, its progressive
/// count is the authoritative count: the same number the background full
/// scan delivers for that cluster.
pub proof fn lemma_scan_converges(
    e: ScanEntry,
    c: Cluster,
    q: Option<SearchQuery>,
    headers: Seq<Seq<char>>,
    rows: Seq<Vec<String>>,
)
    requires
        e.matched == match_count(q, headers, rows, c.rows_idx@, e.cursor as int),
        e.cursor == c.rows_idx@.len(),
    ensures
        e.matched == match_count(q, headers, rows, c.rows_idx@, c.rows_idx@.len() as int),
{
}

/// Between two snapshots of the scan of one cluster under one filter, the
/// later cursor never shows fewer matches: the displayed counts only
/// grow.
pub proof fn lemma_scan_entry_monotonic(
    e1: ScanEntry,
    e2: ScanEntry,
    c: Cluster,
    q: Option<SearchQuery>,
    headers: Seq<Seq<char>>,
    rows: Seq<Vec<String>>,
)
    requires
        e1.matched == match_count(q, headers, rows, c.rows_idx@, e1.cursor as int),
        e2.matched == match_count(q, headers, rows, c.rows_idx@, e2.cursor as int),
        e1.cursor <= e2.cursor,
    ensures
        e1.matched <= e2.matched,
{
    lemma_match_count_monotonic(q, headers, rows, c.rows_idx@, e1.cursor as int, e2.cursor as int);
}

} // verus!
