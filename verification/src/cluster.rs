//! The cluster index: row indices partitioned by the integer value of the
//! designated cluster column, one group per id, sorted by id.

use vstd::prelude::*;
use crate::query::find_col;
use crate::table::Table;
use crate::text::{chars_of, is_uint_str, lower, parse_usize, uint_val};

verus! {

/// One cluster: its id and the indices of its rows, in increasing order.
#[derive(Debug)]
#[verifier::ext_equal]
pub struct Cluster {
    pub id: usize,
    pub rows_idx: Vec<usize>,
}

impl Clone for Cluster {
    /// A copy with the same id and the same row list.
    fn clone(&self) -> (r: Self)
        ensures
            r.id == self.id,
            r.rows_idx@ == self.rows_idx@,
    {
        let rows_idx = self.rows_idx.clone();
        proof {
            assert forall|i: int| 0 <= i < rows_idx@.len() implies rows_idx@[i]
                == self.rows_idx@[i] by {
                assert(vstd::pervasive::cloned::<usize>(self.rows_idx@[i], rows_idx@[i]));
            }
            assert(rows_idx@ =~= self.rows_idx@);
        }
        Cluster { id: self.id, rows_idx }
    }
}

/// All clusters of a table, sorted by id.
#[derive(Debug, Clone)]
#[verifier::ext_equal]
pub struct ClusterIndex {
    pub clusters: Vec<Cluster>,
}

/// Why an index could not be built.
#[derive(Debug, Clone, PartialEq, Eq, Structural)]
pub enum IndexError {
    /// the table has no column named `cluster`
    MissingClusterColumn,
    /// the cluster cell of this row is not a non-negative integer
    BadClusterValue(usize),
    /// the backing file could not be read
    ReadFailed,
}

/// The cluster cell of row `i`, empty when the row has none.
pub open spec fn cell_str(cells: Seq<Option<Seq<char>>>, i: int) -> Seq<char> {
    match cells[i] {
        Some(s) => s,
        None => Seq::empty(),
    }
}

/// Row `i` has a cluster cell holding a non-negative integer in range.
pub open spec fn cell_valid(cells: Seq<Option<Seq<char>>>, i: int) -> bool {
    &&& cells[i] is Some
    &&& is_uint_str(cell_str(cells, i))
    &&& uint_val(cell_str(cells, i)) <= usize::MAX
}

/// The id written in the cluster cell of row `i`.
pub open spec fn cell_id(cells: Seq<Option<Seq<char>>>, i: int) -> int {
    uint_val(cell_str(cells, i))
}

/// The indices below `n` whose cluster cell reads `id`, in increasing
/// order.
pub open spec fn idxs_with_id(cells: Seq<Option<Seq<char>>>, id: int, n: int) -> Seq<usize>
    decreases n,
{
    if n <= 0 {
        Seq::empty()
    } else {
        let p = idxs_with_id(cells, id, n - 1);
        if cell_valid(cells, n - 1) && cell_id(cells, n - 1) == id {
            p.push((n - 1) as usize)
        } else {
            p
        }
    }
}

/// Clusters are sorted by strictly increasing id and none is empty.
pub open spec fn index_sorted(clusters: Seq<Cluster>) -> bool {
    &&& forall|k1: int, k2: int|
        0 <= k1 < k2 < clusters.len() ==> (#[trigger] clusters[k1]).id < (
        #[trigger] clusters[k2]).id
    &&& forall|k: int| 0 <= k < clusters.len() ==> (#[trigger] clusters[k]).rows_idx@.len() > 0
}

/// The clusters are exactly the groups of the cells: each cluster lists,
/// in increasing order, every row whose cell reads its id; every valid
/// cell's id has its cluster; ids are sorted and no cluster is empty.
pub open spec fn index_exact(clusters: Seq<Cluster>, cells: Seq<Option<Seq<char>>>) -> bool {
    &&& index_sorted(clusters)
    &&& forall|k: int|
        0 <= k < clusters.len() ==> (#[trigger] clusters[k]).rows_idx@ == idxs_with_id(
            cells,
            clusters[k].id as int,
            cells.len() as int,
        )
    &&& forall|i: int|
        0 <= i < cells.len() && cell_valid(cells, i) ==> exists|k: int|
            0 <= k < clusters.len() && (#[trigger] clusters[k]).id == cell_id(cells, i)
}

proof fn lemma_idxs_props(cells: Seq<Option<Seq<char>>>, id: int, n: int)
    requires
        n <= cells.len(),
        n <= usize::MAX,
    ensures
        forall|p: int|
            0 <= p < idxs_with_id(cells, id, n).len() ==> {
                let x = #[trigger] idxs_with_id(cells, id, n)[p];
                &&& x < n
                &&& cell_valid(cells, x as int)
                &&& cell_id(cells, x as int) == id
            },
        forall|p1: int, p2: int|
            0 <= p1 < p2 < idxs_with_id(cells, id, n).len() ==> idxs_with_id(cells, id, n)[p1]
                < idxs_with_id(cells, id, n)[p2],
        forall|i: int|
            0 <= i < n && cell_valid(cells, i) && cell_id(cells, i) == id ==> idxs_with_id(
                cells,
                id,
                n,
            ).contains(i as usize),
    decreases n,
{
    if n > 0 {
        lemma_idxs_props(cells, id, n - 1);
        let p = idxs_with_id(cells, id, n - 1);
        let s = idxs_with_id(cells, id, n);
        if cell_valid(cells, n - 1) && cell_id(cells, n - 1) == id {
            assert(s == p.push((n - 1) as usize));
            assert forall|q: int|
                0 <= q < s.len() implies {
                    let x = #[trigger] s[q];
                    &&& x < n
                    &&& cell_valid(cells, x as int)
                    &&& cell_id(cells, x as int) == id
                } by {
                if q < p.len() {
                    assert(s[q] == p[q]);
                } else {
                    assert(s[q] == (n - 1) as usize);
                }
            }
            assert forall|p1: int, p2: int| 0 <= p1 < p2 < s.len() implies s[p1] < s[p2] by {
                if p2 < p.len() {
                    assert(s[p1] == p[p1] && s[p2] == p[p2]);
                } else {
                    assert(s[p2] == (n - 1) as usize);
                    assert(s[p1] == p[p1]);
                    assert(p[p1] < n - 1);
                }
            }
            assert forall|i: int|
                0 <= i < n && cell_valid(cells, i) && cell_id(cells, i) == id implies s.contains(
                i as usize,
            ) by {
                if i < n - 1 {
                    assert(p.contains(i as usize));
                    let w = choose|w: int| 0 <= w < p.len() && p[w] == i as usize;
                    assert(s[w] == i as usize);
                } else {
                    assert(s[s.len() - 1] == i as usize);
                }
            }
        } else {
            assert(s == p);
            assert forall|i: int|
                0 <= i < n && cell_valid(cells, i) && cell_id(cells, i) == id implies s.contains(
                i as usize,
            ) by {
                assert(i < n - 1);
                assert(p.contains(i as usize));
            }
        }
    }
}

/// Group rows by the integer their cluster cell reads. `cells` holds the
/// cluster cell of each row, in row order; a missing or non-numeric cell
/// fails with the first offending row.
pub fn group_cells(cells: &Vec<Option<String>>) -> (r: Result<Vec<Cluster>, IndexError>)
    ensures
        match r {
            Ok(clusters) => {
                &&& forall|i: int| 0 <= i < cells@.len() ==> cell_valid(cells.deep_view(), i)
                &&& index_exact(clusters@, cells.deep_view())
            },
            Err(e) => match e {
                IndexError::BadClusterValue(i) => {
                    &&& i < cells@.len()
                    &&& !cell_valid(cells.deep_view(), i as int)
                    &&& forall|j: int| 0 <= j < i ==> cell_valid(cells.deep_view(), j)
                },
                _ => false,
            },
        },
{
    let ghost dv = cells.deep_view();
    let n = cells.len();
    proof {
        assert(dv.len() == cells@.len());
    }
    // parse every cell's id, failing at the first bad one
    let mut ids: Vec<usize> = Vec::new();
    let mut i: usize = 0;
    while i < n
        invariant
            n == cells@.len(),
            dv == cells.deep_view(),
            dv.len() == n,
            i <= n,
            ids@.len() == i,
            forall|j: int| 0 <= j < i ==> cell_valid(dv, j),
            forall|j: int| 0 <= j < i ==> ids@[j] == cell_id(dv, j),
        decreases n - i,
    {
        proof {
            assert(dv[i as int] == cells@[i as int].deep_view());
        }
        match &cells[i] {
            Some(s) => {
                let cs = chars_of(s.as_str());
                match parse_usize(&cs) {
                    Some(v) => {
                        ids.push(v);
                    },
                    None => {
                        return Err(IndexError::BadClusterValue(i));
                    },
                }
            },
            None => {
                return Err(IndexError::BadClusterValue(i));
            },
        }
        i = i + 1;
    }
    // collect the distinct ids in increasing order, remembering for each
    // one a row where it occurs
    let mut uniq: Vec<usize> = Vec::new();
    let ghost mut wit: Seq<int> = Seq::empty();
    let mut i2: usize = 0;
    while i2 < n
        invariant
            n == cells@.len(),
            dv == cells.deep_view(),
            dv.len() == n,
            ids@.len() == n,
            forall|j: int| 0 <= j < n ==> cell_valid(dv, j),
            forall|j: int| 0 <= j < n ==> ids@[j] == cell_id(dv, j),
            i2 <= n,
            forall|k1: int, k2: int| 0 <= k1 < k2 < uniq@.len() ==> uniq@[k1] < uniq@[k2],
            forall|j: int| 0 <= j < i2 ==> uniq@.contains(#[trigger] ids@[j]),
            wit.len() == uniq@.len(),
            forall|q: int| 0 <= q < wit.len() ==> 0 <= #[trigger] wit[q] < i2 && ids@[wit[q]] == uniq@[q],
        decreases n - i2,
    {
        let id = ids[i2];
        // find where `id` belongs in the sorted list
        let mut pos: usize = 0;
        while pos < uniq.len() && uniq[pos] < id
            invariant
                pos <= uniq@.len(),
                forall|k: int| 0 <= k < pos ==> uniq@[k] < id,
            decreases uniq.len() - pos,
        {
            pos = pos + 1;
        }
        let present = pos < uniq.len() && uniq[pos] == id;
        let ghost prev = uniq@;
        let ghost prevw = wit;
        if !present {
            proof {
                assert forall|k: int| pos <= k < uniq@.len() implies uniq@[k] > id by {
                    assert(uniq@[pos as int] >= id);
                    assert(uniq@[pos as int] != id);
                    if k > pos {
                        assert(uniq@[pos as int] < uniq@[k]);
                    }
                }
            }
            uniq.insert(pos, id);
            proof {
                assert(uniq@ == prev.insert(pos as int, id));
                assert forall|k1: int, k2: int|
                    0 <= k1 < k2 < uniq@.len() implies uniq@[k1] < uniq@[k2] by {
                    assert(uniq@[k1] == if k1 < pos {
                        prev[k1]
                    } else if k1 == pos {
                        id
                    } else {
                        prev[k1 - 1]
                    });
                    assert(uniq@[k2] == if k2 < pos {
                        prev[k2]
                    } else if k2 == pos {
                        id
                    } else {
                        prev[k2 - 1]
                    });
                }
                wit = wit.insert(pos as int, i2 as int);
                assert forall|q: int|
                    0 <= q < wit.len() implies 0 <= #[trigger] wit[q] < i2 + 1 && ids@[wit[q]]
                    == uniq@[q] by {
                    if q < pos {
                        assert(wit[q] == prevw[q] && uniq@[q] == prev[q]);
                    } else if q == pos {
                        assert(wit[q] == i2 as int && uniq@[q] == id);
                    } else {
                        assert(wit[q] == prevw[q - 1] && uniq@[q] == prev[q - 1]);
                    }
                }
            }
        }
        proof {
            assert(uniq@.contains(ids@[i2 as int])) by {
                if present {
                    assert(uniq@[pos as int] == id);
                } else {
                    assert(uniq@ == prev.insert(pos as int, id));
                    assert(uniq@[pos as int] == id);
                }
            }
            assert forall|j: int| 0 <= j < i2 + 1 implies uniq@.contains(#[trigger] ids@[j]) by {
                if j < i2 {
                    if present {
                        assert(prev.contains(ids@[j]));
                    } else {
                        let w = choose|w: int| 0 <= w < prev.len() && prev[w] == ids@[j];
                        assert(uniq@ == prev.insert(pos as int, id));
                        if w < pos {
                            assert(uniq@[w] == prev[w]);
                        } else {
                            assert(uniq@[w + 1] == prev[w]);
                        }
                    }
                } else {
                    assert(uniq@.contains(ids@[i2 as int]));
                }
            }

        }
        i2 = i2 + 1;
    }
    proof {
        assert(forall|j: int| 0 <= j < n ==> uniq@.contains(#[trigger] ids@[j]));
    }
    // build each cluster's row list in order
    let mut clusters: Vec<Cluster> = Vec::new();
    let mut k: usize = 0;
    while k < uniq.len()
        invariant
            n == cells@.len(),
            dv == cells.deep_view(),
            dv.len() == n,
            ids@.len() == n,
            forall|j: int| 0 <= j < n ==> cell_valid(dv, j),
            forall|j: int| 0 <= j < n ==> ids@[j] == cell_id(dv, j),
            forall|k1: int, k2: int| 0 <= k1 < k2 < uniq@.len() ==> uniq@[k1] < uniq@[k2],
            forall|j: int| 0 <= j < n ==> uniq@.contains(#[trigger] ids@[j]),
            wit.len() == uniq@.len(),
            forall|q: int| 0 <= q < wit.len() ==> 0 <= #[trigger] wit[q] < n && ids@[wit[q]] == uniq@[q],
            k <= uniq@.len(),
            clusters@.len() == k,
            forall|q: int| 0 <= q < k ==> (#[trigger] clusters@[q]).id == uniq@[q],
            forall|q: int| 0 <= q < k ==> (#[trigger] clusters@[q]).rows_idx@.len() > 0,
            forall|q: int|
                0 <= q < k ==> (#[trigger] clusters@[q]).rows_idx@ == idxs_with_id(
                    dv,
                    uniq@[q] as int,
                    n as int,
                ),
        decreases uniq.len() - k,
    {
        let id = uniq[k];
        let mut rows_idx: Vec<usize> = Vec::new();
        let mut j: usize = 0;
        while j < n
            invariant
                n == cells@.len(),
                dv == cells.deep_view(),
                dv.len() == n,
                ids@.len() == n,
                forall|m: int| 0 <= m < n ==> cell_valid(dv, m),
                forall|m: int| 0 <= m < n ==> ids@[m] == cell_id(dv, m),
                j <= n,
                rows_idx@ == idxs_with_id(dv, id as int, j as int),
            decreases n - j,
        {
            if ids[j] == id {
                rows_idx.push(j);
            }
            j = j + 1;
        }
        proof {
            // the id occurs, so its group is not empty
            let w = wit[k as int];
            lemma_idxs_props(dv, id as int, n as int);
            assert(cell_valid(dv, w));
            assert(cell_id(dv, w) == id as int);
            assert(idxs_with_id(dv, id as int, n as int).contains(w as usize));
            assert(idxs_with_id(dv, id as int, n as int).len() > 0);
        }
        clusters.push(Cluster { id, rows_idx });
        k = k + 1;
    }
    proof {
        assert forall|i3: int|
            0 <= i3 < dv.len() && cell_valid(dv, i3) implies exists|q: int|
            0 <= q < clusters@.len() && (#[trigger] clusters@[q]).id == cell_id(dv, i3) by {
            assert(uniq@.contains(ids@[i3]));
            let q = choose|q: int| 0 <= q < uniq@.len() && uniq@[q] == ids@[i3];
            assert(clusters@[q].id == cell_id(dv, i3));
        }
    }
    proof {
        assert(clusters@.len() == uniq@.len());
        assert forall|k1: int, k2: int|
            0 <= k1 < k2 < clusters@.len() implies (#[trigger] clusters@[k1]).id < (
        #[trigger] clusters@[k2]).id by {
            assert(clusters@[k1].id == uniq@[k1]);
            assert(clusters@[k2].id == uniq@[k2]);
        }
        assert forall|k3: int|
            0 <= k3 < clusters@.len() implies (#[trigger] clusters@[k3]).rows_idx@ == idxs_with_id(
            dv,
            clusters@[k3].id as int,
            dv.len() as int,
        ) by {
            assert(clusters@[k3].id == uniq@[k3]);
            assert(clusters@[k3].rows_idx@ == idxs_with_id(dv, uniq@[k3] as int, n as int));
        }
        assert(index_sorted(clusters@));
    }
    Ok(clusters)
}

} // verus!

// ---------------------------------------------------------------------------
// Building the index from a table
// ---------------------------------------------------------------------------

verus! {

/// The cluster cells of the rows: for each row, the cell in column `cidx`,
/// or `None` when the row is too short.
pub open spec fn cells_of_rows(rows: Seq<Vec<String>>, cidx: int) -> Seq<Option<Seq<char>>> {
    Seq::new(
        rows.len(),
        |i: int|
            if cidx < rows[i]@.len() {
                Some(rows[i]@[cidx]@)
            } else {
                None
            },
    )
}

/// Build the cluster index of a table: group every row by the integer in
/// its `cluster` column and sort the groups by id. A missing column or a
/// row whose cluster cell is not a non-negative integer is an error.
pub fn build_cluster_index(table: &mut Table) -> (r: Result<ClusterIndex, IndexError>)
    requires
        old(table).wf(),
    ensures
        final(table).wf(),
        final(table).same_source(old(table)),
        r == Result::<ClusterIndex, IndexError>::Err(IndexError::MissingClusterColumn)
            <==> find_col(old(table).headers.deep_view(), lower("cluster"@))
            == old(table).headers.deep_view().len(),
        old(table).in_memory() ==> {
            let cells = cells_of_rows(
                old(table).mem_rows(),
                find_col(old(table).headers.deep_view(), lower("cluster"@)),
            );
            match r {
                Ok(ci) => {
                    &&& forall|i: int| 0 <= i < cells.len() ==> cell_valid(cells, i)
                    &&& index_exact(ci.clusters@, cells)
                },
                Err(e) => match e {
                    IndexError::MissingClusterColumn => true,
                    IndexError::BadClusterValue(i) => {
                        &&& i < cells.len()
                        &&& !cell_valid(cells, i as int)
                        &&& forall|j: int| 0 <= j < i ==> cell_valid(cells, j)
                    },
                    IndexError::ReadFailed => false,
                },
            }
        },
        match r {
            Ok(ci) => index_sorted(ci.clusters@),
            Err(_) => true,
        },
{
    let cidx = match table.column_index("cluster") {
        Some(c) => c,
        None => {
            return Err(IndexError::MissingClusterColumn);
        },
    };
    match &table.rows {
        Some(rs) => {
            let ghost target = cells_of_rows(rs@, cidx as int);
            let mut cells: Vec<Option<String>> = Vec::new();
            let mut i: usize = 0;
            while i < rs.len()
                invariant
                    target == cells_of_rows(rs@, cidx as int),
                    i <= rs@.len(),
                    cells@.len() == i,
                    forall|j: int| 0 <= j < i ==> cells.deep_view()[j] == target[j],
                decreases rs.len() - i,
            {
                let row = &rs[i];
                if cidx < row.len() {
                    cells.push(Some(row[cidx].clone()));
                } else {
                    cells.push(None);
                }
                proof {
                    assert(cells.deep_view()[i as int] == target[i as int]);
                }
                i = i + 1;
            }
            proof {
                assert(cells.deep_view() =~~= target);
            }
            match group_cells(&cells) {
                Ok(clusters) => Ok(ClusterIndex { clusters }),
                Err(e) => Err(e),
            }
        },
        None => {
            let path = match &table.path {
                Some(p) => p.clone(),
                None => {
                    return Err(IndexError::ReadFailed);
                },
            };
            let cells = match csv_column_path(path.as_str(), cidx) {
                Ok(c) => c,
                Err(_) => {
                    return Err(IndexError::ReadFailed);
                },
            };
            match group_cells(&cells) {
                Ok(clusters) => Ok(ClusterIndex { clusters }),
                Err(e) => match e {
                    IndexError::BadClusterValue(i) => Err(IndexError::BadClusterValue(i)),
                    _ => Err(IndexError::ReadFailed),
                },
            }
        },
    }
}

/// Relies on `csv::Reader::records`: the cell at column `col` of each data
/// record of the file at `path`, `None` where a record is too short. What
/// the file holds is not modeled; nothing is promised of the result.
#[verifier::external_body]
fn csv_column_path(path: &str, col: usize) -> (r: Result<Vec<Option<String>>, IndexError>) {
    match csv::ReaderBuilder::new().has_headers(true).from_path(path) {
        Ok(rdr) => rdr
            .into_records()
            .map(|rec| rec.map(|row| row.get(col).map(|s| s.to_string())))
            .collect::<Result<Vec<Option<String>>, csv::Error>>()
            .map_err(|_| IndexError::ReadFailed),
        Err(_) => Err(IndexError::ReadFailed),
    }
}

} // verus!

// ---------------------------------------------------------------------------
// Laws of the index
// ---------------------------------------------------------------------------

verus! {

/// Some cluster of the sequence carries this id.
pub open spec fn has_id(clusters: Seq<Cluster>, id: usize) -> bool {
    exists|k: int| 0 <= k < clusters.len() && (#[trigger] clusters[k]).id == id
}

/// Some cluster of the sequence lists this row index.
pub open spec fn in_some_cluster(clusters: Seq<Cluster>, i: usize) -> bool {
    exists|k: int| 0 <= k < clusters.len() && (#[trigger] clusters[k]).rows_idx@.contains(i)
}

proof fn lemma_sorted_ids_equal(a: Seq<Cluster>, b: Seq<Cluster>)
    requires
        forall|k1: int, k2: int|
            0 <= k1 < k2 < a.len() ==> (#[trigger] a[k1]).id < (#[trigger] a[k2]).id,
        forall|k1: int, k2: int|
            0 <= k1 < k2 < b.len() ==> (#[trigger] b[k1]).id < (#[trigger] b[k2]).id,
        forall|k: int| 0 <= k < a.len() ==> #[trigger] has_id(b, a[k].id),
        forall|k: int| 0 <= k < b.len() ==> #[trigger] has_id(a, b[k].id),
    ensures
        a.len() == b.len(),
        forall|k: int| 0 <= k < a.len() ==> (#[trigger] a[k]).id == b[k].id,
    decreases a.len(),
{
    if a.len() == 0 {
        if b.len() > 0 {
            assert(has_id(a, b[0].id));
            let k2 = choose|k2: int| 0 <= k2 < a.len() && (#[trigger] a[k2]).id == b[0].id;
            assert(false);
        }
    } else {
        if b.len() == 0 {
            assert(has_id(b, a[0].id));
            let k2 = choose|k2: int| 0 <= k2 < b.len() && (#[trigger] b[k2]).id == a[0].id;
            assert(false);
        }
        // the heads carry the same id: each is at most the other
        assert(has_id(b, a[0].id));
        assert(has_id(a, b[0].id));
        let ka = choose|k2: int| 0 <= k2 < b.len() && (#[trigger] b[k2]).id == a[0].id;
        let kb = choose|k2: int| 0 <= k2 < a.len() && (#[trigger] a[k2]).id == b[0].id;
        assert(b[0].id <= b[ka].id);
        assert(a[0].id <= a[kb].id);
        assert(a[0].id == b[0].id);
        let ta = a.drop_first();
        let tb = b.drop_first();
        assert forall|k1: int, k2: int|
            0 <= k1 < k2 < ta.len() implies (#[trigger] ta[k1]).id < (#[trigger] ta[k2]).id by {
            assert(ta[k1] == a[k1 + 1] && ta[k2] == a[k2 + 1]);
        }
        assert forall|k1: int, k2: int|
            0 <= k1 < k2 < tb.len() implies (#[trigger] tb[k1]).id < (#[trigger] tb[k2]).id by {
            assert(tb[k1] == b[k1 + 1] && tb[k2] == b[k2 + 1]);
        }
        assert forall|k: int| 0 <= k < ta.len() implies #[trigger] has_id(tb, ta[k].id) by {
            assert(ta[k] == a[k + 1]);
            assert(has_id(b, a[k + 1].id));
            let k2 = choose|k2: int| 0 <= k2 < b.len() && (#[trigger] b[k2]).id == a[k + 1].id;
            assert(a[0].id < a[k + 1].id);
            assert(k2 != 0);
            assert(tb[k2 - 1].id == ta[k].id);
        }
        assert forall|k: int| 0 <= k < tb.len() implies #[trigger] has_id(ta, tb[k].id) by {
            assert(tb[k] == b[k + 1]);
            assert(has_id(a, b[k + 1].id));
            let k2 = choose|k2: int| 0 <= k2 < a.len() && (#[trigger] a[k2]).id == b[k + 1].id;
            assert(b[0].id < b[k + 1].id);
            assert(k2 != 0);
            assert(ta[k2 - 1].id == tb[k].id);
        }
        lemma_sorted_ids_equal(ta, tb);
        assert forall|k: int| 0 <= k < a.len() implies (#[trigger] a[k]).id == b[k].id by {
            if k > 0 {
                assert(ta[k - 1].id == tb[k - 1].id);
                assert(ta[k - 1] == a[k] && tb[k - 1] == b[k]);
            }
        }
    }
}

/// Building the index is deterministic: any two indices that are exact for
/// the same cluster cells agree cluster for cluster, in id and in row
/// list.
pub proof fn lemma_index_deterministic(
    a: Seq<Cluster>,
    b: Seq<Cluster>,
    cells: Seq<Option<Seq<char>>>,
)
    requires
        index_exact(a, cells),
        index_exact(b, cells),
        cells.len() <= usize::MAX,
    ensures
        a.len() == b.len(),
        forall|k: int|
            0 <= k < a.len() ==> (#[trigger] a[k]).id == b[k].id && a[k].rows_idx@
                == b[k].rows_idx@,
{
    assert forall|k: int| 0 <= k < a.len() implies #[trigger] has_id(b, a[k].id) by {
        lemma_idxs_props_wide(cells, a[k].id as int);
        assert(a[k].rows_idx@.len() > 0);
        let x = a[k].rows_idx@[0];
        assert(cell_valid(cells, x as int) && cell_id(cells, x as int) == a[k].id as int);
        assert(0 <= x < cells.len());
        let kb = choose|k2: int|
            0 <= k2 < b.len() && (#[trigger] b[k2]).id == cell_id(cells, x as int);
        assert(b[kb].id == a[k].id);
    }
    assert forall|k: int| 0 <= k < b.len() implies #[trigger] has_id(a, b[k].id) by {
        lemma_idxs_props_wide(cells, b[k].id as int);
        assert(b[k].rows_idx@.len() > 0);
        let x = b[k].rows_idx@[0];
        assert(cell_valid(cells, x as int) && cell_id(cells, x as int) == b[k].id as int);
        assert(0 <= x < cells.len());
        let ka = choose|k2: int|
            0 <= k2 < a.len() && (#[trigger] a[k2]).id == cell_id(cells, x as int);
        assert(a[ka].id == b[k].id);
    }
    lemma_sorted_ids_equal(a, b);
    assert forall|k: int|
        0 <= k < a.len() implies (#[trigger] a[k]).id == b[k].id && a[k].rows_idx@
        == b[k].rows_idx@ by {
        assert(a[k].id == b[k].id);
        assert(a[k].rows_idx@ == idxs_with_id(cells, a[k].id as int, cells.len() as int));
        assert(b[k].rows_idx@ == idxs_with_id(cells, b[k].id as int, cells.len() as int));
    }
}

/// `lemma_idxs_props` for the whole cell sequence, usable even when its
/// length is not known to fit a machine word (a sequence longer than that
/// cannot come from a vector, so the bound holds trivially otherwise).
proof fn lemma_idxs_props_wide(cells: Seq<Option<Seq<char>>>, id: int)
    requires
        cells.len() <= usize::MAX,
    ensures
        forall|p: int|
            0 <= p < idxs_with_id(cells, id, cells.len() as int).len() ==> {
                let x = #[trigger] idxs_with_id(cells, id, cells.len() as int)[p];
                &&& x < cells.len()
                &&& cell_valid(cells, x as int)
                &&& cell_id(cells, x as int) == id
            },
        forall|p1: int, p2: int|
            0 <= p1 < p2 < idxs_with_id(cells, id, cells.len() as int).len() ==> idxs_with_id(
                cells,
                id,
                cells.len() as int,
            )[p1] < idxs_with_id(cells, id, cells.len() as int)[p2],
        forall|i: int|
            0 <= i < cells.len() && cell_valid(cells, i) && cell_id(cells, i) == id
                ==> idxs_with_id(cells, id, cells.len() as int).contains(i as usize),
{
    lemma_idxs_props(cells, id, cells.len() as int);
}

/// The clusters of an exact index partition the rows: every row index
/// below the number of rows lies in exactly one cluster, at exactly one
/// position, and no cluster holds an index out of range.
pub proof fn lemma_index_partition(clusters: Seq<Cluster>, cells: Seq<Option<Seq<char>>>)
    requires
        index_exact(clusters, cells),
        forall|i: int| 0 <= i < cells.len() ==> cell_valid(cells, i),
        cells.len() <= usize::MAX,
    ensures
        forall|k: int, p: int|
            0 <= k < clusters.len() && 0 <= p < (#[trigger] clusters[k]).rows_idx@.len()
                ==> (#[trigger] clusters[k].rows_idx@[p]) < cells.len(),
        forall|i: int| 0 <= i < cells.len() ==> #[trigger] in_some_cluster(clusters, i as usize),
        forall|k: int, p1: int, p2: int|
            0 <= k < clusters.len() && 0 <= p1 < p2 < clusters[k].rows_idx@.len()
                ==> #[trigger] clusters[k].rows_idx@[p1] < #[trigger] clusters[k].rows_idx@[p2],
        forall|k1: int, k2: int, x: usize|
            0 <= k1 < clusters.len() && 0 <= k2 < clusters.len()
                && #[trigger] clusters[k1].rows_idx@.contains(x)
                && #[trigger] clusters[k2].rows_idx@.contains(x) ==> k1 == k2,
{
    assert forall|k: int, p: int|
        0 <= k < clusters.len() && 0 <= p < (#[trigger] clusters[k]).rows_idx@.len() implies (
    #[trigger] clusters[k].rows_idx@[p]) < cells.len() by {
        lemma_idxs_props_wide(cells, clusters[k].id as int);
    }
    assert forall|k: int, p1: int, p2: int|
        0 <= k < clusters.len() && 0 <= p1 < p2 < clusters[k].rows_idx@.len() implies #[trigger] clusters[k].rows_idx@[p1]
        < #[trigger] clusters[k].rows_idx@[p2] by {
        lemma_idxs_props_wide(cells, clusters[k].id as int);
    }
    assert forall|i: int| 0 <= i < cells.len() implies #[trigger] in_some_cluster(
        clusters,
        i as usize,
    ) by {
        let k = choose|k: int|
            0 <= k < clusters.len() && (#[trigger] clusters[k]).id == cell_id(cells, i);
        lemma_idxs_props_wide(cells, clusters[k].id as int);
        assert(clusters[k].rows_idx@.contains(i as usize));
    }
    assert forall|k1: int, k2: int, x: usize|
        0 <= k1 < clusters.len() && 0 <= k2 < clusters.len()
            && #[trigger] clusters[k1].rows_idx@.contains(x)
            && #[trigger] clusters[k2].rows_idx@.contains(x) implies k1 == k2 by {
        lemma_idxs_props_wide(cells, clusters[k1].id as int);
        lemma_idxs_props_wide(cells, clusters[k2].id as int);
        let p1 = choose|p: int| 0 <= p < clusters[k1].rows_idx@.len() && clusters[k1].rows_idx@[p] == x;
        let p2 = choose|p: int| 0 <= p < clusters[k2].rows_idx@.len() && clusters[k2].rows_idx@[p] == x;
        assert(cell_id(cells, x as int) == clusters[k1].id as int);
        assert(cell_id(cells, x as int) == clusters[k2].id as int);
        if k1 < k2 {
            assert(clusters[k1].id < clusters[k2].id);
        }
        if k2 < k1 {
            assert(clusters[k2].id < clusters[k1].id);
        }
    }
}

} // verus!
