//! Sorting: the comparator that orders two cells numerically when both
//! are numbers and lexicographically otherwise, the stable insertion sort
//! over (key, row) pairs, and the routine that re-orders every cluster's
//! row list by a chosen column.

use vstd::prelude::*;
use vstd::multiset::Multiset;
use vstd::seq_lib::group_to_multiset_ensures;
use crate::cluster::{Cluster, ClusterIndex};
use crate::key::Key;
use crate::scan::served_row_view;
use crate::table::Table;
use crate::text::{cmp_lex, cmp_numeric, dec_cmp, is_decimal, lex_cmp};

verus! {

/// Direction of a sort.
#[derive(Debug, Clone, Copy, PartialEq, Eq, Structural)]
pub enum SortOrder {
    Ascend,
    Descend,
}

/// `a` sorts at or before `b`: numerically when both cells are decimal
/// numbers, else by code points.
pub open spec fn key_le(a: Seq<char>, b: Seq<char>) -> bool {
    if is_decimal(a) && is_decimal(b) {
        dec_cmp(a, b) <= 0
    } else {
        lex_cmp(a, b) <= 0
    }
}

/// `key_le`, reversed for a descending sort.
pub open spec fn key_le_ord(descending: bool, a: Seq<char>, b: Seq<char>) -> bool {
    if descending {
        key_le(b, a)
    } else {
        key_le(a, b)
    }
}

/// The sort key of row `ri`: the cell of the sort column, as the table
/// serves the row.
pub open spec fn cell_key(rows: Seq<Vec<String>>, ncols: int, cidx: int, ri: int) -> Seq<char> {
    served_row_view(rows, ncols, ri)[cidx]
}

proof fn lemma_lex_antisym(a: Seq<char>, b: Seq<char>)
    ensures
        lex_cmp(a, b) == -lex_cmp(b, a),
    decreases a.len(),
{
    if a.len() > 0 && b.len() > 0 && a[0] == b[0] {
        lemma_lex_antisym(a.drop_first(), b.drop_first());
    }
}

/// Any two keys are comparable: one of them sorts at or before the other.
pub proof fn lemma_key_le_total(a: Seq<char>, b: Seq<char>)
    ensures
        key_le(a, b) || key_le(b, a),
{
    if is_decimal(a) && is_decimal(b) {
    } else {
        lemma_lex_antisym(a, b);
    }
}

/// Compare two cells as the sort does.
pub fn key_le_exec(a: &Vec<char>, b: &Vec<char>) -> (r: bool)
    ensures
        r == key_le(a@, b@),
{
    match cmp_numeric(a, b) {
        Some(c) => c <= 0,
        None => cmp_lex(a, b) <= 0,
    }
}

/// The row indices of a pair sequence, in order.
pub open spec fn idxs_of(pairs: Seq<(Vec<char>, usize)>) -> Seq<usize> {
    pairs.map_values(|p: (Vec<char>, usize)| p.1)
}

/// The output pairs sit in non-decreasing key order, for the chosen
/// direction.
pub open spec fn pairs_sorted(pairs: Seq<(Vec<char>, usize)>, descending: bool) -> bool {
    forall|i: int|
        0 <= i < pairs.len() - 1 ==> key_le_ord(
            descending,
            (#[trigger] pairs[i]).0@,
            pairs[i + 1].0@,
        )
}

/// Two cells tie: each sorts at or before the other.
pub open spec fn key_eq(a: Seq<char>, b: Seq<char>) -> bool {
    key_le(a, b) && key_le(b, a)
}

/// No row index occurs twice.
pub open spec fn idxs_distinct(s: Seq<usize>) -> bool {
    forall|i: int, j: int| 0 <= i < j < s.len() ==> s[i] != s[j]
}

/// Position of the first occurrence of `x` in `s`, or `s.len()` if absent.
pub open spec fn first_pos_u(s: Seq<usize>, x: usize) -> int
    decreases s.len(),
{
    if s.len() == 0 {
        0
    } else if s[0] == x {
        0
    } else {
        1 + first_pos_u(s.drop_first(), x)
    }
}

proof fn lemma_first_pos_props(s: Seq<usize>, x: usize)
    ensures
        0 <= first_pos_u(s, x) <= s.len(),
        first_pos_u(s, x) < s.len() ==> s[first_pos_u(s, x)] == x,
        forall|j: int| 0 <= j < first_pos_u(s, x) ==> s[j] != x,
    decreases s.len(),
{
    if s.len() > 0 && s[0] != x {
        lemma_first_pos_props(s.drop_first(), x);
        assert forall|j: int| 0 <= j < first_pos_u(s, x) implies s[j] != x by {
            if j >= 1 {
                assert(s[j] == s.drop_first()[j - 1]);
            }
        }
        if first_pos_u(s, x) < s.len() {
            assert(s[first_pos_u(s, x)] == s.drop_first()[first_pos_u(s, x) - 1]);
        }
    }
}

/// In a duplicate-free sequence, an element's first position is its only
/// position.
proof fn lemma_first_pos_unique(s: Seq<usize>, d: int)
    requires
        idxs_distinct(s),
        0 <= d < s.len(),
    ensures
        first_pos_u(s, s[d]) == d,
{
    lemma_first_pos_props(s, s[d]);
    let fp = first_pos_u(s, s[d]);
    if fp < d {
        assert(s[fp] == s[d]);
    }
    if fp > d {
        assert(s[d] != s[d]);
    }
}

/// The pair `p` occurs in `b`, compared by key text and row index.
pub open spec fn pair_in(p: (Vec<char>, usize), b: Seq<(Vec<char>, usize)>) -> bool {
    exists|j: int| 0 <= j < b.len() && p.0@ == (#[trigger] b[j]).0@ && p.1 == b[j].1
}

/// Every pair of `a` occurs among the pairs of `b`, compared by key text
/// and row index.
pub open spec fn pairs_from(a: Seq<(Vec<char>, usize)>, b: Seq<(Vec<char>, usize)>) -> bool {
    forall|i: int| 0 <= i < a.len() ==> #[trigger] pair_in(a[i], b)
}

/// Tied rows stand in their original order: wherever two output pairs tie
/// on the key, the earlier one came earlier in the input.
pub open spec fn pairs_stable(
    out: Seq<(Vec<char>, usize)>,
    orig_idxs: Seq<usize>,
) -> bool {
    forall|p1: int, p2: int|
        0 <= p1 < p2 < out.len() && #[trigger] key_eq((#[trigger] out[p1]).0@, (
        #[trigger] out[p2]).0@) ==> first_pos_u(orig_idxs, out[p1].1) < first_pos_u(
            orig_idxs,
            out[p2].1,
        )
}

proof fn lemma_multiset_insert<T>(s: Seq<T>, pos: int, x: T)
    requires
        0 <= pos <= s.len(),
    ensures
        s.insert(pos, x).to_multiset() == s.to_multiset().insert(x),
{
    broadcast use group_to_multiset_ensures;

    let t = s.insert(pos, x);
    assert(t.remove(pos) =~= s);
    assert(t[pos] == x);
    assert(t.remove(pos).to_multiset() =~= t.to_multiset().remove(x));
    assert(t.to_multiset().contains(x)) by {
        assert(t.contains(x)) by {
            assert(t[pos] == x);
        }
    }
    assert(t.to_multiset() =~= t.to_multiset().remove(x).insert(x));
}

/// Sort (key, row) pairs: the result is a rearrangement of the input —
/// the same row indices, as a multiset, and every pair one of the input's
/// — in non-decreasing key order. The sort is stable: each element is
/// inserted after the last element that sorts at or before it, so tied
/// rows keep their input order.
#[verifier::rlimit(80)]
pub fn sort_pairs(pairs: Vec<(Vec<char>, usize)>, descending: bool) -> (r: Vec<(Vec<char>, usize)>)
    ensures
        r@.len() == pairs@.len(),
        idxs_of(r@).to_multiset() == idxs_of(pairs@).to_multiset(),
        pairs_sorted(r@, descending),
        pairs_from(r@, pairs@),
        idxs_distinct(idxs_of(pairs@)) ==> pairs_stable(r@, idxs_of(pairs@)),
{
    let ghost orig = pairs@;
    let ghost oidx = idxs_of(pairs@);
    let mut rest = pairs;
    let mut out: Vec<(Vec<char>, usize)> = Vec::new();
    proof {
        broadcast use group_to_multiset_ensures;

        assert(idxs_of(out@).to_multiset().add(idxs_of(rest@).to_multiset()) =~= idxs_of(
            orig,
        ).to_multiset()) by {
            assert(idxs_of(out@) =~= Seq::<usize>::empty());
            assert(idxs_of(out@).to_multiset() =~= Multiset::<usize>::empty());
        }
        assert forall|i: int| 0 <= i < rest@.len() implies #[trigger] pair_in(rest@[i], orig) by {
            assert(rest@[i].0@ == orig[i].0@ && rest@[i].1 == orig[i].1);
        }
        assert(pairs_from(rest@, orig));
        assert(pairs_from(out@, orig));
        assert(rest@ == orig.subrange(out@.len() as int, orig.len() as int)) by {
            assert(rest@ =~= orig.subrange(0, orig.len() as int));
        }
    }
    while rest.len() > 0
        invariant
            oidx == idxs_of(orig),
            out@.len() + rest@.len() == orig.len(),
            rest@ == orig.subrange(out@.len() as int, orig.len() as int),
            idxs_of(out@).to_multiset().add(idxs_of(rest@).to_multiset()) == idxs_of(
                orig,
            ).to_multiset(),
            pairs_sorted(out@, descending),
            pairs_from(out@, orig),
            pairs_from(rest@, orig),
            idxs_distinct(oidx) ==> forall|p: int|
                0 <= p < out@.len() ==> first_pos_u(oidx, (#[trigger] out@[p]).1) < out@.len(),
            idxs_distinct(oidx) ==> pairs_stable(out@, oidx),
        decreases rest.len(),
    {
        let ghost rest0 = rest@;
        let ghost done = out@.len() as int;
        let x = rest.remove(0);
        proof {
            broadcast use group_to_multiset_ensures;

            assert(rest0.remove(0) =~= rest@);
            assert(idxs_of(rest@) =~= idxs_of(rest0).remove(0));
            assert(idxs_of(rest0)[0] == x.1);
            assert(idxs_of(rest@).to_multiset() =~= idxs_of(rest0).to_multiset().remove(x.1));
            assert(idxs_of(rest0).to_multiset().contains(x.1)) by {
                assert(idxs_of(rest0).contains(idxs_of(rest0)[0]));
            }
            assert(rest@ =~= orig.subrange(done + 1, orig.len() as int)) by {
                assert(forall|i: int| 0 <= i < rest@.len() ==> #[trigger] rest@[i] == rest0[i + 1]);
            }
            assert(x == orig[done]) by {
                assert(rest0[0] == orig[done]);
            }
        }
        // insert after the last element whose key sorts at or before x's:
        // the later position keeps tied rows in their input order
        let mut pos: usize = out.len();
        while pos > 0 && !key_le_pos(&out, pos - 1, &x, descending)
            invariant
                pos <= out@.len(),
                forall|j: int|
                    pos <= j < out@.len() ==> !key_le_ord(
                        descending,
                        (#[trigger] out@[j]).0@,
                        x.0@,
                    ),
            decreases pos,
        {
            pos = pos - 1;
        }
        proof {
            if pos < out@.len() {
                lemma_key_le_total(out@[pos as int].0@, x.0@);
            }
        }
        let ghost before = out@;
        proof {
            lemma_multiset_insert(idxs_of(before), pos as int, x.1);
        }
        out.insert(pos, x);
        proof {
            broadcast use group_to_multiset_ensures;

            assert(out@ == before.insert(pos as int, x));
            assert(idxs_of(out@) =~= idxs_of(before).insert(pos as int, x.1));
            assert(idxs_of(out@).to_multiset() == idxs_of(before).to_multiset().insert(x.1));
            assert(idxs_of(out@).to_multiset().add(idxs_of(rest@).to_multiset()) =~= idxs_of(
                orig,
            ).to_multiset());
            assert forall|i: int|
                0 <= i < out@.len() - 1 implies key_le_ord(
                descending,
                (#[trigger] out@[i]).0@,
                out@[i + 1].0@,
            ) by {
                if i + 1 < pos {
                    assert(out@[i] == before[i] && out@[i + 1] == before[i + 1]);
                } else if i + 1 == pos {
                    assert(out@[i] == before[i]);
                    assert(out@[i + 1] == x);
                } else if i == pos {
                    assert(out@[i] == x);
                    assert(out@[i + 1] == before[i]);
                } else {
                    assert(out@[i] == before[i - 1] && out@[i + 1] == before[i]);
                }
            }
            assert forall|i: int| 0 <= i < out@.len() implies #[trigger] pair_in(out@[i], orig) by {
                if i < pos {
                    assert(out@[i] == before[i]);
                    assert(pair_in(before[i], orig));
                } else if i == pos {
                    assert(out@[i] == x);
                    assert(rest0[0] == x);
                    assert(pair_in(rest0[0], orig));
                } else {
                    assert(out@[i] == before[i - 1]);
                    assert(pair_in(before[i - 1], orig));
                }
            }
            assert forall|i: int| 0 <= i < rest@.len() implies #[trigger] pair_in(rest@[i], orig) by {
                assert(rest@[i] == rest0[i + 1]);
                assert(pair_in(rest0[i + 1], orig));
            }
            if idxs_distinct(oidx) {
                // x comes from input position `done`, later than everything
                // already placed
                assert(x.1 == oidx[done]) by {
                    assert(idxs_of(orig)[done] == orig[done].1);
                }
                lemma_first_pos_unique(oidx, done);
                assert(first_pos_u(oidx, x.1) == done);
                assert forall|p: int|
                    0 <= p < out@.len() implies first_pos_u(oidx, (#[trigger] out@[p]).1)
                    < out@.len() by {
                    if p < pos {
                        assert(out@[p] == before[p]);
                        assert(first_pos_u(oidx, before[p].1) < before.len());
                    } else if p == pos {
                        assert(out@[p] == x);
                    } else {
                        assert(out@[p] == before[p - 1]);
                        assert(first_pos_u(oidx, before[p - 1].1) < before.len());
                    }
                }
                assert forall|p1: int, p2: int|
                    0 <= p1 < p2 < out@.len() && #[trigger] key_eq((#[trigger] out@[p1]).0@, (
                #[trigger] out@[p2]).0@) implies first_pos_u(oidx, out@[p1].1) < first_pos_u(
                    oidx,
                    out@[p2].1,
                ) by {
                    if p1 != pos && p2 != pos {
                        let q1: int = if p1 < pos {
                            p1
                        } else {
                            p1 - 1
                        };
                        let q2: int = if p2 < pos {
                            p2
                        } else {
                            p2 - 1
                        };
                        assert(out@[p1] == before[q1] && out@[p2] == before[q2]);
                        assert(key_eq(before[q1].0@, before[q2].0@));
                    } else if p2 == pos {
                        // everything before x was placed from an earlier
                        // input position
                        assert(out@[p1] == before[p1]);
                        assert(first_pos_u(oidx, before[p1].1) < before.len());
                    } else {
                        // a tie after x would have sorted at or before x,
                        // so the scan could not have passed it
                        assert(out@[p1] == x && out@[p2] == before[p2 - 1]);
                        assert(p2 - 1 >= pos);
                        assert(!key_le_ord(descending, before[p2 - 1].0@, x.0@));
                        assert(key_le(before[p2 - 1].0@, x.0@) && key_le(x.0@, before[p2 - 1].0@));
                        assert(false);
                    }
                }
            }
        }
    }
    out
}

/// Does the pair at `pos` sort at or before `x`?
fn key_le_pos(out: &Vec<(Vec<char>, usize)>, pos: usize, x: &(Vec<char>, usize), descending: bool) -> (r: bool)
    requires
        pos < out@.len(),
    ensures
        r == key_le_ord(descending, out@[pos as int].0@, x.0@),
{
    if descending {
        key_le_exec(&x.0, &out[pos].0)
    } else {
        key_le_exec(&out[pos].0, &x.0)
    }
}

} // verus!

// ---------------------------------------------------------------------------
// Sorting the cluster index
// ---------------------------------------------------------------------------

verus! {

/// Tied rows of the re-sorted list stand in their old order: wherever
/// two rows' cells tie under the comparator, the one listed first stood
/// first in the old list.
pub open spec fn cluster_stable(
    new_idx: Seq<usize>,
    old_idx: Seq<usize>,
    rows: Seq<Vec<String>>,
    ncols: int,
    cidx: int,
) -> bool {
    forall|p1: int, p2: int|
        0 <= p1 < p2 < new_idx.len() && #[trigger] key_eq(
            cell_key(rows, ncols, cidx, (#[trigger] new_idx[p1]) as int),
            cell_key(rows, ncols, cidx, (#[trigger] new_idx[p2]) as int),
        ) ==> first_pos_u(old_idx, new_idx[p1]) < first_pos_u(old_idx, new_idx[p2])
}

/// The row list is in key order for the chosen column and direction.
pub open spec fn cluster_sorted_by(
    rows_idx: Seq<usize>,
    rows: Seq<Vec<String>>,
    ncols: int,
    cidx: int,
    descending: bool,
) -> bool {
    forall|i: int|
        0 <= i < rows_idx.len() - 1 ==> key_le_ord(
            descending,
            cell_key(rows, ncols, cidx, #[trigger] rows_idx[i] as int),
            cell_key(rows, ncols, cidx, rows_idx[i + 1] as int),
        )
}

/// Re-sort every cluster's row list by the named column: rows whose cell
/// in that column is numeric sort numerically against each other,
/// otherwise by code points; `Descend` reverses the direction. The sort
/// is stable — tied rows keep their relative order. Each cluster keeps
/// its id and its rows — only their order changes. An unknown column
/// changes nothing.
pub fn apply_sort(table: &mut Table, index: &mut ClusterIndex, col: &str, order: SortOrder)
    requires
        old(table).wf(),
    ensures
        final(table).wf(),
        final(table).same_source(old(table)),
        final(index).clusters@.len() == old(index).clusters@.len(),
        // the sort is stable: a duplicate-free cluster keeps tied rows in
        // their old relative order
        (crate::query::find_col(old(table).headers.deep_view(), crate::text::lower(col@)) < old(table).headers.deep_view().len() && old(table).in_memory()) ==> forall|k: int|
            0 <= k < final(index).clusters@.len() ==> (idxs_distinct(
                old(index).clusters@[k].rows_idx@,
            ) ==> cluster_stable(
                (#[trigger] final(index).clusters@[k]).rows_idx@,
                old(index).clusters@[k].rows_idx@,
                old(table).mem_rows(),
                old(table).headers.deep_view().len() as int,
                crate::query::find_col(old(table).headers.deep_view(), crate::text::lower(col@)),
            )),
        forall|k: int|
            0 <= k < final(index).clusters@.len() ==> {
                &&& (#[trigger] final(index).clusters@[k]).id == old(index).clusters@[k].id
                &&& final(index).clusters@[k].rows_idx@.to_multiset() == old(
                    index,
                ).clusters@[k].rows_idx@.to_multiset()
            },
        crate::query::find_col(old(table).headers.deep_view(), crate::text::lower(col@)) == old(
            table,
        ).headers.deep_view().len() ==> *final(index) == *old(index),
        (crate::query::find_col(old(table).headers.deep_view(), crate::text::lower(col@)) < old(
            table,
        ).headers.deep_view().len() && old(table).in_memory()) ==> forall|k: int|
            0 <= k < final(index).clusters@.len() ==> cluster_sorted_by(
                (#[trigger] final(index).clusters@[k]).rows_idx@,
                old(table).mem_rows(),
                old(table).headers.deep_view().len() as int,
                crate::query::find_col(old(table).headers.deep_view(), crate::text::lower(col@)),
                order == SortOrder::Descend,
            ),
{
    let ghost hdv = table.headers.deep_view();
    let ghost mrows = table.mem_rows();
    let cidx = match table.column_index(col) {
        Some(c) => c,
        None => {
            return ;
        },
    };
    let descending = match order {
        SortOrder::Descend => true,
        SortOrder::Ascend => false,
    };
    let mut new_clusters: Vec<Cluster> = Vec::new();
    let mut k: usize = 0;
    while k < index.clusters.len()
        invariant
            table.wf(),
            table.same_source(old(table)),
            hdv == old(table).headers.deep_view(),
            mrows == old(table).mem_rows(),
            cidx < hdv.len(),
            descending == (order == SortOrder::Descend),
            k <= index.clusters@.len(),
            index == old(index),
            new_clusters@.len() == k,
            forall|q: int|
                0 <= q < k ==> {
                    &&& (#[trigger] new_clusters@[q]).id == old(index).clusters@[q].id
                    &&& new_clusters@[q].rows_idx@.to_multiset() == old(
                        index,
                    ).clusters@[q].rows_idx@.to_multiset()
                },
            old(table).in_memory() ==> forall|q: int|
                0 <= q < k ==> cluster_sorted_by(
                    (#[trigger] new_clusters@[q]).rows_idx@,
                    mrows,
                    hdv.len() as int,
                    cidx as int,
                    descending,
                ),
            old(table).in_memory() ==> forall|q: int|
                0 <= q < k ==> (idxs_distinct(old(index).clusters@[q].rows_idx@)
                    ==> cluster_stable(
                    (#[trigger] new_clusters@[q]).rows_idx@,
                    old(index).clusters@[q].rows_idx@,
                    mrows,
                    hdv.len() as int,
                    cidx as int,
                )),
        decreases index.clusters.len() - k,
    {
        let cluster = &index.clusters[k];
        // pair every row with its sort key
        let mut pairs: Vec<(Vec<char>, usize)> = Vec::new();
        let mut i: usize = 0;
        while i < cluster.rows_idx.len()
            invariant
                table.wf(),
                table.same_source(old(table)),
                hdv == old(table).headers.deep_view(),
                mrows == old(table).mem_rows(),
                cidx < hdv.len(),
                0 <= k < index.clusters@.len(),
                cluster == index.clusters@[k as int],
                i <= cluster.rows_idx@.len(),
                pairs@.len() == i,
                forall|j: int| 0 <= j < i ==> (#[trigger] pairs@[j]).1 == cluster.rows_idx@[j],
                old(table).in_memory() ==> forall|j: int|
                    0 <= j < i ==> (#[trigger] pairs@[j]).0@ == cell_key(
                        mrows,
                        hdv.len() as int,
                        cidx as int,
                        cluster.rows_idx@[j] as int,
                    ),
            decreases cluster.rows_idx.len() - i,
        {
            let ri = cluster.rows_idx[i];
            let key: Vec<char> = match table.get_row(ri) {
                Ok(row) => {
                    proof {
                        if table.in_memory() {
                            if (ri as int) < mrows.len() {
                                assert(row.deep_view() == mrows[ri as int].deep_view());
                            } else {
                                assert(row.deep_view() =~~= crate::scan::blank_row_view(
                                    hdv.len() as int,
                                )) by {
                                    assert(row@.len() == old(table).headers@.len());
                                    assert(hdv.len() == old(table).headers@.len());
                                }
                            }
                            assert(row.deep_view() == served_row_view(
                                mrows,
                                hdv.len() as int,
                                ri as int,
                            ));
                            assert(row.deep_view()[cidx as int] == row@[cidx as int]@);
                        }
                    }
                    crate::text::chars_of(row[cidx].as_str())
                },
                Err(_) => Vec::new(),
            };
            pairs.push((key, ri));
            i = i + 1;
        }
        proof {
            assert(idxs_of(pairs@) =~= cluster.rows_idx@);
        }
        let sorted = sort_pairs(pairs, descending);
        // unzip the row indices back out
        let mut rows_idx: Vec<usize> = Vec::new();
        let mut p: usize = 0;
        while p < sorted.len()
            invariant
                p <= sorted@.len(),
                rows_idx@.len() == p,
                forall|j: int| 0 <= j < p ==> (#[trigger] rows_idx@[j]) == sorted@[j].1,
            decreases sorted.len() - p,
        {
            rows_idx.push(sorted[p].1);
            p = p + 1;
        }
        proof {
            assert(rows_idx@ =~= idxs_of(sorted@));
            if old(table).in_memory() {
                assert forall|j: int|
                    0 <= j < sorted@.len() implies (#[trigger] sorted@[j]).0@ == cell_key(
                    mrows,
                    hdv.len() as int,
                    cidx as int,
                    sorted@[j].1 as int,
                ) by {
                    assert(pair_in(sorted@[j], pairs@));
                    let w = choose|w: int|
                        0 <= w < pairs@.len() && sorted@[j].0@ == (#[trigger] pairs@[w]).0@
                            && sorted@[j].1 == pairs@[w].1;
                    assert(pairs@[w].0@ == cell_key(
                        mrows,
                        hdv.len() as int,
                        cidx as int,
                        pairs@[w].1 as int,
                    ));
                }
                assert forall|j: int|
                    0 <= j < rows_idx@.len() - 1 implies key_le_ord(
                    descending,
                    cell_key(mrows, hdv.len() as int, cidx as int, #[trigger] rows_idx@[j] as int),
                    cell_key(mrows, hdv.len() as int, cidx as int, rows_idx@[j + 1] as int),
                ) by {
                    assert(key_le_ord(descending, sorted@[j].0@, sorted@[j + 1].0@));
                    assert(sorted@[j].0@ == cell_key(
                        mrows,
                        hdv.len() as int,
                        cidx as int,
                        rows_idx@[j] as int,
                    ));
                    assert(sorted@[j + 1].0@ == cell_key(
                        mrows,
                        hdv.len() as int,
                        cidx as int,
                        rows_idx@[j + 1] as int,
                    ));
                }
                if idxs_distinct(cluster.rows_idx@) {
                    assert(idxs_distinct(idxs_of(pairs@)));
                    assert(pairs_stable(sorted@, idxs_of(pairs@)));
                    assert forall|p1: int, p2: int|
                        0 <= p1 < p2 < rows_idx@.len() && #[trigger] key_eq(
                            cell_key(
                                mrows,
                                hdv.len() as int,
                                cidx as int,
                                (#[trigger] rows_idx@[p1]) as int,
                            ),
                            cell_key(
                                mrows,
                                hdv.len() as int,
                                cidx as int,
                                (#[trigger] rows_idx@[p2]) as int,
                            ),
                        ) implies first_pos_u(cluster.rows_idx@, rows_idx@[p1]) < first_pos_u(
                        cluster.rows_idx@,
                        rows_idx@[p2],
                    ) by {
                        assert(sorted@[p1].0@ == cell_key(
                            mrows,
                            hdv.len() as int,
                            cidx as int,
                            rows_idx@[p1] as int,
                        ));
                        assert(sorted@[p2].0@ == cell_key(
                            mrows,
                            hdv.len() as int,
                            cidx as int,
                            rows_idx@[p2] as int,
                        ));
                        assert(key_eq(sorted@[p1].0@, sorted@[p2].0@));
                        assert(first_pos_u(idxs_of(pairs@), sorted@[p1].1) < first_pos_u(
                            idxs_of(pairs@),
                            sorted@[p2].1,
                        ));
                        assert(idxs_of(pairs@) == cluster.rows_idx@);
                        assert(sorted@[p1].1 == rows_idx@[p1] && sorted@[p2].1 == rows_idx@[p2]);
                    }
                    assert(cluster_stable(
                        rows_idx@,
                        cluster.rows_idx@,
                        mrows,
                        hdv.len() as int,
                        cidx as int,
                    ));
                }
            }
        }
        new_clusters.push(Cluster { id: cluster.id, rows_idx });
        k = k + 1;
    }
    *index = ClusterIndex { clusters: new_clusters };
}

} // verus!

// ---------------------------------------------------------------------------
// The sort menu
// ---------------------------------------------------------------------------

verus! {

/// The two-panel sort menu: a scrollable column list and an order list,
/// with a provisional selection in each, finished by Enter or cancelled
/// by Escape.
#[derive(Debug, Clone)]
pub struct SortMenu {
    pub columns: Vec<String>,
    pub selected_col: usize,
    pub selected_order: SortOrder,
    /// 0 while the column panel has focus, 1 for the order panel
    pub cursor_panel: usize,
    pub sortby_cursor: usize,
    pub sortby_scroll: usize,
    pub last_visible_height: usize,
    pub order_cursor: usize,
    pub order_scroll: usize,
    pub order_last_visible_height: usize,
    pub finished: bool,
    pub cancelled: bool,
}

impl SortMenu {
    /// Cursors and selections stay inside their panels.
    pub open spec fn wf(&self) -> bool {
        &&& self.cursor_panel <= 1
        &&& self.order_cursor <= 1
        &&& self.columns@.len() > 0 ==> self.sortby_cursor < self.columns@.len()
            && self.selected_col < self.columns@.len()
        &&& self.columns@.len() == 0 ==> self.sortby_cursor == 0 && self.selected_col == 0
    }

    /// Open the menu on the given columns, with the current sort column
    /// and order preselected.
    pub fn new(columns: Vec<String>, default_col: usize, default_order: SortOrder) -> (r: SortMenu)
        requires
            columns@.len() > 0 ==> default_col < columns@.len(),
            columns@.len() == 0 ==> default_col == 0,
        ensures
            r.wf(),
            r.columns == columns,
            r.selected_col == default_col,
            r.selected_order == default_order,
            r.cursor_panel == 0,
            r.sortby_cursor == default_col,
            r.sortby_scroll == 0,
            r.order_cursor == (match default_order {
                SortOrder::Descend => 1int,
                SortOrder::Ascend => 0int,
            }),
            r.order_scroll == 0,
            !r.finished,
            !r.cancelled,
    {
        SortMenu {
            columns,
            selected_col: default_col,
            selected_order: default_order,
            cursor_panel: 0,
            sortby_cursor: default_col,
            sortby_scroll: 0,
            last_visible_height: 0,
            order_cursor: match default_order {
                SortOrder::Descend => 1,
                SortOrder::Ascend => 0,
            },
            order_scroll: 0,
            order_last_visible_height: 0,
            finished: false,
            cancelled: false,
        }
    }

    /// Slide the column panel's window so its cursor is visible.
    fn ensure_cursor_in_view(&mut self)
        ensures
            *final(self) == (SortMenu { sortby_scroll: final(self).sortby_scroll, ..*old(self) }),
            old(self).last_visible_height > 0 ==> final(self).sortby_scroll <= final(self).sortby_cursor < final(self).sortby_scroll + old(self).last_visible_height,
    {
        if self.last_visible_height == 0 {
            return ;
        }
        let h = self.last_visible_height;
        if self.sortby_cursor < self.sortby_scroll {
            self.sortby_scroll = self.sortby_cursor;
        } else if self.sortby_cursor >= self.sortby_scroll && self.sortby_cursor - self.sortby_scroll
            > h - 1 {
            self.sortby_scroll = self.sortby_cursor - (h - 1);
        }
    }

    /// Slide the order panel's window so its cursor is visible.
    fn ensure_order_cursor_in_view(&mut self)
        ensures
            *final(self) == (SortMenu { order_scroll: final(self).order_scroll, ..*old(self) }),
            old(self).order_last_visible_height > 0 ==> final(self).order_scroll <= final(self).order_cursor < final(self).order_scroll + old(self).order_last_visible_height,
    {
        if self.order_last_visible_height == 0 {
            return ;
        }
        let h = self.order_last_visible_height;
        if self.order_cursor < self.order_scroll {
            self.order_scroll = self.order_cursor;
        } else if self.order_cursor >= self.order_scroll && self.order_cursor - self.order_scroll
            > h - 1 {
            self.order_scroll = self.order_cursor - (h - 1);
        }
    }

    /// Record the panel heights the screen can show and bring both
    /// cursors back into view.
    pub fn set_viewports(&mut self, sortby_height: usize, order_height: usize)
        requires
            old(self).wf(),
        ensures
            final(self).wf(),
            final(self).columns == old(self).columns,
            final(self).sortby_cursor == old(self).sortby_cursor,
            final(self).order_cursor == old(self).order_cursor,
            final(self).selected_col == old(self).selected_col,
            final(self).selected_order == old(self).selected_order,
            final(self).finished == old(self).finished,
            final(self).cancelled == old(self).cancelled,
            final(self).sortby_scroll <= final(self).sortby_cursor < final(self).sortby_scroll + (
            if sortby_height == 0 {
                1int
            } else {
                sortby_height as int
            }),
            final(self).order_scroll <= final(self).order_cursor < final(self).order_scroll + (
            if order_height == 0 {
                1int
            } else {
                order_height as int
            }),
    {
        self.last_visible_height = if sortby_height == 0 {
            1
        } else {
            sortby_height
        };
        self.order_last_visible_height = if order_height == 0 {
            1
        } else {
            order_height
        };
        self.ensure_cursor_in_view();
        self.ensure_order_cursor_in_view();
    }

    /// The window position of each panel, for rendering.
    pub fn scroll_positions(&self) -> (r: (usize, usize))
        ensures
            r.0 == self.sortby_scroll,
            r.1 == self.order_scroll,
    {
        (self.sortby_scroll, self.order_scroll)
    }

    /// Move the highlighted row down within the focused panel.
    pub fn move_down(&mut self)
        requires
            old(self).wf(),
        ensures
            final(self).wf(),
            final(self).columns == old(self).columns,
            final(self).finished == old(self).finished,
            old(self).cursor_panel == 0 ==> final(self).sortby_cursor == (if old(self).sortby_cursor + 1 < old(self).columns@.len() {
                old(self).sortby_cursor + 1
            } else {
                old(self).sortby_cursor as int
            }) && final(self).order_cursor == old(self).order_cursor,
            old(self).cursor_panel == 1 ==> final(self).order_cursor == (if old(self).order_cursor
                + 1 < 2 {
                old(self).order_cursor + 1
            } else {
                old(self).order_cursor as int
            }) && final(self).sortby_cursor == old(self).sortby_cursor,
    {
        if self.cursor_panel == 0 {
            if self.columns.len() > 0 && self.sortby_cursor < self.columns.len() - 1 {
                self.sortby_cursor = self.sortby_cursor + 1;
                self.ensure_cursor_in_view();
            }
        } else {
            if self.order_cursor < 1 {
                self.order_cursor = self.order_cursor + 1;
                self.ensure_order_cursor_in_view();
            }
        }
    }

    /// Move the highlighted row up within the focused panel.
    pub fn move_up(&mut self)
        requires
            old(self).wf(),
        ensures
            final(self).wf(),
            final(self).columns == old(self).columns,
            final(self).finished == old(self).finished,
            old(self).cursor_panel == 0 ==> final(self).sortby_cursor == (if old(self).sortby_cursor > 0 {
                old(self).sortby_cursor - 1
            } else {
                0int
            }) && final(self).order_cursor == old(self).order_cursor,
            old(self).cursor_panel == 1 ==> final(self).order_cursor == (if old(self).order_cursor
                > 0 {
                old(self).order_cursor - 1
            } else {
                0int
            }) && final(self).sortby_cursor == old(self).sortby_cursor,
    {
        if self.cursor_panel == 0 {
            if self.sortby_cursor > 0 {
                self.sortby_cursor = self.sortby_cursor - 1;
                self.ensure_cursor_in_view();
            }
        } else {
            if self.order_cursor > 0 {
                self.order_cursor = self.order_cursor - 1;
                self.ensure_order_cursor_in_view();
            }
        }
    }

    /// Move the focus to the other panel.
    pub fn switch_focus(&mut self)
        requires
            old(self).wf(),
        ensures
            final(self).wf(),
            final(self).cursor_panel == (old(self).cursor_panel + 1) % 2,
            final(self).columns == old(self).columns,
            final(self).sortby_cursor == old(self).sortby_cursor,
            final(self).order_cursor == old(self).order_cursor,
            final(self).selected_col == old(self).selected_col,
            final(self).selected_order == old(self).selected_order,
            final(self).finished == old(self).finished,
            final(self).cancelled == old(self).cancelled,
    {
        self.cursor_panel = (self.cursor_panel + 1) % 2;
    }

    /// Commit the highlighted row of the focused panel as its provisional
    /// selection.
    pub fn choose_current(&mut self)
        requires
            old(self).wf(),
        ensures
            final(self).wf(),
            final(self).columns == old(self).columns,
            final(self).finished == old(self).finished,
            final(self).cancelled == old(self).cancelled,
            final(self).cursor_panel == old(self).cursor_panel,
            final(self).sortby_cursor == old(self).sortby_cursor,
            final(self).order_cursor == old(self).order_cursor,
            old(self).cursor_panel == 0 ==> final(self).selected_col == old(self).sortby_cursor
                && final(self).selected_order == old(self).selected_order,
            old(self).cursor_panel == 1 ==> final(self).selected_order == (if old(self).order_cursor == 0 {
                SortOrder::Ascend
            } else {
                SortOrder::Descend
            }) && final(self).selected_col == old(self).selected_col,
    {
        if self.cursor_panel == 0 {
            self.selected_col = self.sortby_cursor;
        } else {
            self.selected_order = if self.order_cursor == 0 {
                SortOrder::Ascend
            } else {
                SortOrder::Descend
            };
        }
    }

    /// Apply one key press: Escape or `q` cancels, Enter finishes, Tab
    /// switches panels, `j`/`k` and the arrows move, Space selects.
    /// Returns whether the menu just finished.
    pub fn handle_key_event(&mut self, key: Key) -> (r: bool)
        requires
            old(self).wf(),
        ensures
            final(self).wf(),
            r == final(self).finished,
            (key == Key::Esc || key == Key::Char('q')) ==> final(self).finished && final(self).cancelled,
            key == Key::Enter ==> final(self).finished && final(self).cancelled == old(self).cancelled,
            key == Key::Tab ==> final(self).cursor_panel == (old(self).cursor_panel + 1) % 2
                && final(self).sortby_cursor == old(self).sortby_cursor && final(self).order_cursor
                == old(self).order_cursor && final(self).finished == old(self).finished,
            (key == Key::Down || key == Key::Char('j')) ==> final(self).finished == old(self).finished && (old(self).cursor_panel == 0 ==> final(self).sortby_cursor == (if old(self).sortby_cursor + 1 < old(self).columns@.len() {
                old(self).sortby_cursor + 1
            } else {
                old(self).sortby_cursor as int
            }) && final(self).order_cursor == old(self).order_cursor) && (old(self).cursor_panel
                == 1 ==> final(self).order_cursor == (if old(self).order_cursor + 1 < 2 {
                old(self).order_cursor + 1
            } else {
                old(self).order_cursor as int
            }) && final(self).sortby_cursor == old(self).sortby_cursor),
            (key == Key::Up || key == Key::Char('k')) ==> final(self).finished == old(self).finished && (old(self).cursor_panel == 0 ==> final(self).sortby_cursor == (if old(self).sortby_cursor > 0 {
                old(self).sortby_cursor - 1
            } else {
                0int
            }) && final(self).order_cursor == old(self).order_cursor) && (old(self).cursor_panel
                == 1 ==> final(self).order_cursor == (if old(self).order_cursor > 0 {
                old(self).order_cursor - 1
            } else {
                0int
            }) && final(self).sortby_cursor == old(self).sortby_cursor),
            key == Key::Char(' ') ==> final(self).finished == old(self).finished && (old(self).cursor_panel == 0 ==> final(self).selected_col == old(self).sortby_cursor && final(self).selected_order == old(self).selected_order) && (old(self).cursor_panel == 1 ==> final(self).selected_order == (if old(self).order_cursor == 0 {
                SortOrder::Ascend
            } else {
                SortOrder::Descend
            }) && final(self).selected_col == old(self).selected_col),
            final(self).selected_col < final(self).columns@.len() || final(self).columns@.len()
                == 0,
    {
        match key {
            Key::Char(c) => {
                if c == 'q' {
                    self.finished = true;
                    self.cancelled = true;
                } else if c == 'j' {
                    self.move_down();
                } else if c == 'k' {
                    self.move_up();
                } else if c == ' ' {
                    self.choose_current();
                }
            },
            Key::Esc => {
                self.finished = true;
                self.cancelled = true;
            },
            Key::Enter => {
                self.finished = true;
            },
            Key::Tab => {
                self.switch_focus();
            },
            Key::Down => {
                self.move_down();
            },
            Key::Up => {
                self.move_up();
            },
            _ => {},
        }
        self.finished
    }

    /// Has the menu been closed, by Enter or by cancelling?
    pub fn is_finished(&self) -> (r: bool)
        ensures
            r == self.finished,
    {
        self.finished
    }

    /// The key bindings the footer shows while the menu is open.
    pub fn get_shortcut_list(&self) -> (&'static str, Vec<crate::hint::Shortcut>) {
        let mut list: Vec<crate::hint::Shortcut> = Vec::new();
        let mut keys1: Vec<&'static str> = Vec::new();
        keys1.push("j");
        keys1.push("k");
        keys1.push("up");
        keys1.push("down");
        list.push(crate::hint::Shortcut::new("Move selection", keys1));
        let mut keys2: Vec<&'static str> = Vec::new();
        keys2.push("Tab");
        list.push(crate::hint::Shortcut::new("Switch panel", keys2));
        let mut keys3: Vec<&'static str> = Vec::new();
        keys3.push("Space");
        list.push(crate::hint::Shortcut::new("Select option", keys3));
        let mut keys4: Vec<&'static str> = Vec::new();
        keys4.push("Enter");
        list.push(crate::hint::Shortcut::new("Confirm", keys4));
        let mut keys5: Vec<&'static str> = Vec::new();
        keys5.push("q");
        keys5.push("Esc");
        list.push(crate::hint::Shortcut::new("Cancel", keys5));
        ("Sort Menu", list)
    }
}

} // verus!

// ---------------------------------------------------------------------------
// The numeric order on cells
// ---------------------------------------------------------------------------

verus! {

/// Scaling a decimal's magnitude to a larger power of ten multiplies it
/// by the difference.
proof fn lemma_scaled_mag_shift(s: Seq<char>, l1: nat, l2: nat)
    requires
        crate::text::dec_frac_digits(s).len() <= l1 <= l2,
    ensures
        crate::text::dec_scaled_mag(s, l2) == crate::text::dec_scaled_mag(s, l1)
            * crate::text::pow10((l2 - l1) as nat),
{
    let base = crate::text::dec_int_digits(s) + crate::text::dec_frac_digits(s);
    let f = crate::text::dec_frac_digits(s).len();
    let z1 = crate::text::zero_digits((l1 - f) as nat);
    let z2 = crate::text::zero_digits((l2 - f) as nat);
    let zd = crate::text::zero_digits((l2 - l1) as nat);
    crate::text::lemma_zero_digits_val((l1 - f) as nat);
    crate::text::lemma_zero_digits_val((l2 - f) as nat);
    crate::text::lemma_zero_digits_val((l2 - l1) as nat);
    assert(base + z2 =~= (base + z1) + zd);
    crate::text::lemma_digits_val_concat(base + z1, zd);
    assert(crate::text::dec_scaled_mag(s, l2) == crate::text::digits_val((base + z1) + zd)) by {
        assert(crate::text::dec_int_digits(s) + crate::text::dec_frac_digits(s) + z2 =~= base
            + z2);
    }
    assert(crate::text::dec_scaled_mag(s, l1) == crate::text::digits_val(base + z1)) by {
        assert(crate::text::dec_int_digits(s) + crate::text::dec_frac_digits(s) + z1 =~= base
            + z1);
    }
}

/// The same, for the signed value.
proof fn lemma_scaled_val_shift(s: Seq<char>, l1: nat, l2: nat)
    requires
        crate::text::dec_frac_digits(s).len() <= l1 <= l2,
    ensures
        crate::text::dec_scaled_val(s, l2) == crate::text::dec_scaled_val(s, l1)
            * crate::text::pow10((l2 - l1) as nat),
{
    lemma_scaled_mag_shift(s, l1, l2);
    let m1 = crate::text::dec_scaled_mag(s, l1);
    let p = crate::text::pow10((l2 - l1) as nat);
    if crate::text::dec_is_neg(s) {
        assert(-(m1 * p) == (-m1) * p) by (nonlinear_arith);
    }
}

/// At any common scale large enough for both, the order of two decimals
/// is their `dec_cmp` order.
proof fn lemma_dec_cmp_at_scale(a: Seq<char>, b: Seq<char>, l: nat)
    requires
        crate::text::dec_frac_digits(a).len() <= l,
        crate::text::dec_frac_digits(b).len() <= l,
    ensures
        crate::text::dec_cmp(a, b) == -1 <==> crate::text::dec_scaled_val(a, l)
            < crate::text::dec_scaled_val(b, l),
        crate::text::dec_cmp(a, b) == 0 <==> crate::text::dec_scaled_val(a, l)
            == crate::text::dec_scaled_val(b, l),
{
    let fa = crate::text::dec_frac_digits(a).len();
    let fb = crate::text::dec_frac_digits(b).len();
    let l0: nat = if fa >= fb {
        fa
    } else {
        fb
    };
    lemma_scaled_val_shift(a, l0, l);
    lemma_scaled_val_shift(b, l0, l);
    let va = crate::text::dec_scaled_val(a, l0);
    let vb = crate::text::dec_scaled_val(b, l0);
    let p = crate::text::pow10((l - l0) as nat);
    crate::text::lemma_pow10_pos((l - l0) as nat);
    assert(va < vb <==> va * p < vb * p) by (nonlinear_arith)
        requires
            p >= 1,
    ;
    assert(va == vb <==> va * p == vb * p) by (nonlinear_arith)
        requires
            p >= 1,
    ;
}

/// The numeric order of cells is transitive.
pub proof fn lemma_key_le_trans(a: Seq<char>, b: Seq<char>, c: Seq<char>)
    requires
        crate::text::is_decimal(a),
        crate::text::is_decimal(b),
        crate::text::is_decimal(c),
        key_le(a, b),
        key_le(b, c),
    ensures
        key_le(a, c),
{
    let fa = crate::text::dec_frac_digits(a).len();
    let fb = crate::text::dec_frac_digits(b).len();
    let fc = crate::text::dec_frac_digits(c).len();
    let l: nat = if fa >= fb && fa >= fc {
        fa
    } else if fb >= fc {
        fb
    } else {
        fc
    };
    lemma_dec_cmp_at_scale(a, b, l);
    lemma_dec_cmp_at_scale(b, c, l);
    lemma_dec_cmp_at_scale(a, c, l);
}

/// Two decimals in both orders at once carry the same value.
pub proof fn lemma_key_le_antisym(a: Seq<char>, b: Seq<char>)
    requires
        crate::text::is_decimal(a),
        crate::text::is_decimal(b),
        key_le(a, b),
        key_le(b, a),
    ensures
        crate::text::dec_cmp(a, b) == 0,
{
    let fa = crate::text::dec_frac_digits(a).len();
    let fb = crate::text::dec_frac_digits(b).len();
    let l: nat = if fa >= fb {
        fa
    } else {
        fb
    };
    lemma_dec_cmp_at_scale(a, b, l);
    lemma_dec_cmp_at_scale(b, a, l);
}

} // verus!

// ---------------------------------------------------------------------------
// The round trip of sorting both ways
// ---------------------------------------------------------------------------

verus! {

/// Every row's sort key in the list is a decimal number.
pub open spec fn keys_decimal(
    rows_idx: Seq<usize>,
    rows: Seq<Vec<String>>,
    ncols: int,
    cidx: int,
) -> bool {
    forall|i: int|
        0 <= i < rows_idx.len() ==> crate::text::is_decimal(
            cell_key(rows, ncols, cidx, #[trigger] rows_idx[i] as int),
        )
}

/// No two rows of the list carry the same key value.
pub open spec fn keys_distinct(
    rows_idx: Seq<usize>,
    rows: Seq<Vec<String>>,
    ncols: int,
    cidx: int,
) -> bool {
    forall|i: int, j: int|
        0 <= i < j < rows_idx.len() ==> crate::text::dec_cmp(
            cell_key(rows, ncols, cidx, #[trigger] rows_idx[i] as int),
            cell_key(rows, ncols, cidx, #[trigger] rows_idx[j] as int),
        ) != 0
}

/// Any two positions of the list, not only neighbours, are in key order.
pub open spec fn sorted_global(
    rows_idx: Seq<usize>,
    rows: Seq<Vec<String>>,
    ncols: int,
    cidx: int,
    descending: bool,
) -> bool {
    forall|i: int, j: int|
        0 <= i < j < rows_idx.len() ==> key_le_ord(
            descending,
            cell_key(rows, ncols, cidx, #[trigger] rows_idx[i] as int),
            cell_key(rows, ncols, cidx, #[trigger] rows_idx[j] as int),
        )
}

proof fn lemma_chain(
    rows_idx: Seq<usize>,
    rows: Seq<Vec<String>>,
    ncols: int,
    cidx: int,
    descending: bool,
    i: int,
    j: int,
)
    requires
        keys_decimal(rows_idx, rows, ncols, cidx),
        cluster_sorted_by(rows_idx, rows, ncols, cidx, descending),
        0 <= i < j < rows_idx.len(),
    ensures
        key_le_ord(
            descending,
            cell_key(rows, ncols, cidx, rows_idx[i] as int),
            cell_key(rows, ncols, cidx, rows_idx[j] as int),
        ),
    decreases j - i,
{
    if j == i + 1 {
    } else {
        lemma_chain(rows_idx, rows, ncols, cidx, descending, i, j - 1);
        let ki = cell_key(rows, ncols, cidx, rows_idx[i] as int);
        let km = cell_key(rows, ncols, cidx, rows_idx[j - 1] as int);
        let kj = cell_key(rows, ncols, cidx, rows_idx[j] as int);
        if descending {
            lemma_key_le_trans(kj, km, ki);
        } else {
            lemma_key_le_trans(ki, km, kj);
        }
    }
}

/// A neighbour-sorted list of decimal keys is sorted between any two
/// positions.
pub proof fn lemma_sorted_global(
    rows_idx: Seq<usize>,
    rows: Seq<Vec<String>>,
    ncols: int,
    cidx: int,
    descending: bool,
)
    requires
        keys_decimal(rows_idx, rows, ncols, cidx),
        cluster_sorted_by(rows_idx, rows, ncols, cidx, descending),
    ensures
        sorted_global(rows_idx, rows, ncols, cidx, descending),
{
    assert forall|i: int, j: int| 0 <= i < j < rows_idx.len() implies key_le_ord(
        descending,
        cell_key(rows, ncols, cidx, #[trigger] rows_idx[i] as int),
        cell_key(rows, ncols, cidx, #[trigger] rows_idx[j] as int),
    ) by {
        lemma_chain(rows_idx, rows, ncols, cidx, descending, i, j);
    }
}

/// Sorting the same rows by a numeric column ascending and descending
/// yields exactly reversed row orders, as long as no two rows tie on the
/// key. (A tie breaks the symmetry: the stable sort keeps tied rows in
/// their relative order in both directions.)
pub proof fn lemma_sort_round_trip(
    asc: Seq<usize>,
    desc: Seq<usize>,
    rows: Seq<Vec<String>>,
    ncols: int,
    cidx: int,
)
    requires
        asc.to_multiset() == desc.to_multiset(),
        cluster_sorted_by(asc, rows, ncols, cidx, false),
        cluster_sorted_by(desc, rows, ncols, cidx, true),
        keys_decimal(asc, rows, ncols, cidx),
        keys_distinct(asc, rows, ncols, cidx),
    ensures
        desc == asc.reverse(),
    decreases asc.len(),
{
    broadcast use vstd::seq_lib::group_to_multiset_ensures;

    assert(asc.len() == desc.len()) by {
        assert(asc.to_multiset().len() == asc.len());
        assert(desc.to_multiset().len() == desc.len());
    }
    let n = asc.len() as int;
    if n == 0 {
        assert(desc =~= asc.reverse());
        return ;
    }
    lemma_sorted_global(asc, rows, ncols, cidx, false);
    // every element of desc is an element of asc, so its key is one of
    // asc's keys
    let head = asc[0];
    let last = desc[n - 1];
    assert(desc.contains(last)) by {
        assert(desc[n - 1] == last);
    }
    assert(asc.contains(last)) by {
        assert(desc.to_multiset().contains(last));
        assert(asc.to_multiset().contains(last));
    }
    assert(desc.contains(head)) by {
        assert(asc.contains(head)) by {
            assert(asc[0] == head);
        }
        assert(asc.to_multiset().contains(head));
        assert(desc.to_multiset().contains(head));
    }
    let q = choose|q: int| 0 <= q < asc.len() && asc[q] == last;
    let r = choose|r: int| 0 <= r < desc.len() && desc[r] == head;
    let kh = cell_key(rows, ncols, cidx, head as int);
    let kl = cell_key(rows, ncols, cidx, last as int);
    // the ascending head and the descending tail both carry the minimal
    // key, so they are the same row
    assert(key_le(kh, kl) || head == last) by {
        if q > 0 {
            assert(key_le_ord(false, cell_key(rows, ncols, cidx, asc[0] as int), cell_key(rows, ncols, cidx, asc[q] as int)));
        }
    }
    assert(key_le(kl, kh) || head == last) by {
        if r < n - 1 {
            lemma_sorted_global_prefix_keys(asc, desc, rows, ncols, cidx);
            lemma_sorted_global(desc, rows, ncols, cidx, true);
            assert(key_le_ord(true, cell_key(rows, ncols, cidx, desc[r] as int), cell_key(rows, ncols, cidx, desc[n - 1] as int)));
        }
    }
    assert(head == last) by {
        if head != last {
            assert(crate::text::is_decimal(kh)) by {
                assert(asc[0] == head);
            }
            assert(crate::text::is_decimal(kl)) by {
                assert(asc[q] == last);
            }
            lemma_key_le_antisym(kh, kl);
            assert(q != 0);
            assert(crate::text::dec_cmp(cell_key(rows, ncols, cidx, asc[0] as int), cell_key(rows, ncols, cidx, asc[q] as int)) != 0);
        }
    }
    // peel the shared row off both ends and recurse
    let ta = asc.drop_first();
    let td = desc.drop_last();
    assert(ta.to_multiset() == td.to_multiset()) by {
        assert(asc.remove(0) =~= ta);
        assert(asc.remove(0).to_multiset() =~= asc.to_multiset().remove(head));
        assert(desc.remove(n - 1) =~= td);
        assert(desc.remove(n - 1).to_multiset() =~= desc.to_multiset().remove(last));
    }
    assert(cluster_sorted_by(ta, rows, ncols, cidx, false)) by {
        assert(forall|i: int| 0 <= i < ta.len() ==> #[trigger] ta[i] == asc[i + 1]);
    }
    assert(cluster_sorted_by(td, rows, ncols, cidx, true)) by {
        assert(forall|i: int| 0 <= i < td.len() ==> #[trigger] td[i] == desc[i]);
    }
    assert(keys_decimal(ta, rows, ncols, cidx)) by {
        assert(forall|i: int| 0 <= i < ta.len() ==> #[trigger] ta[i] == asc[i + 1]);
    }
    assert(keys_distinct(ta, rows, ncols, cidx)) by {
        assert(forall|i: int| 0 <= i < ta.len() ==> #[trigger] ta[i] == asc[i + 1]);
    }
    lemma_sort_round_trip(ta, td, rows, ncols, cidx);
    assert(desc =~= td.push(last));
    assert(asc.reverse() =~= ta.reverse().push(asc[0]));
}

/// The keys of the descending list are decimal too: its rows are the
/// ascending list's rows.
proof fn lemma_sorted_global_prefix_keys(
    asc: Seq<usize>,
    desc: Seq<usize>,
    rows: Seq<Vec<String>>,
    ncols: int,
    cidx: int,
)
    requires
        asc.to_multiset() == desc.to_multiset(),
        keys_decimal(asc, rows, ncols, cidx),
    ensures
        keys_decimal(desc, rows, ncols, cidx),
{
    broadcast use vstd::seq_lib::group_to_multiset_ensures;

    assert forall|i: int|
        0 <= i < desc.len() implies crate::text::is_decimal(
        cell_key(rows, ncols, cidx, #[trigger] desc[i] as int),
    ) by {
        assert(desc.contains(desc[i]));
        assert(desc.to_multiset().contains(desc[i]));
        assert(asc.to_multiset().contains(desc[i]));
        assert(asc.contains(desc[i]));
        let w = choose|w: int| 0 <= w < asc.len() && asc[w] == desc[i];
        assert(crate::text::is_decimal(cell_key(rows, ncols, cidx, asc[w] as int)));
    }
}

} // verus!
