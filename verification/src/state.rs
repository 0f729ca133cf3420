//! The application state machine: which screen is shown, which cluster
//! and row are selected, what filter is committed, which modal window has
//! the keys, and what the owner of the event loop must do next.

use vstd::prelude::*;
use crate::cluster::{Cluster, ClusterIndex};
use crate::detail::DataDetail;
use crate::filter::{Filter, SearchAction};
use crate::float::Float;
use crate::hint::Shortcut;
use crate::key::Key;
use crate::loading::LoadingFloat;
use crate::nav::{clamp_view, nav_down, nav_next_page, nav_prev_page, nav_up, TABLE_PAGE_SIZE};
use crate::query::{query_of_text, tokens, SearchQuery};
use crate::quit::ConfirmQuit;
use crate::scan::{advance_scan, fresh_scan, scan_exact, scan_wf, ScanEntry, SCAN_BUDGET};
use crate::sort::{SortMenu, SortOrder};
use crate::table::Table;
use crate::theme::Theme;

verus! {

/// The two screens.
#[derive(Debug, Clone, Copy, PartialEq, Eq, Structural)]
pub enum Mode {
    ClusterList,
    ClusterTable,
}

/// What a background filter job delivers: the matching rows of the
/// focused cluster, or every cluster's exact count together with those
/// rows.
#[derive(Debug, Clone)]
pub enum FilterResult {
    ClusterRows(Vec<usize>),
    Both(Vec<(usize, usize)>, Vec<usize>),
}

/// What the owner of the event loop must do after a key press.
#[derive(Debug, Clone, Copy, PartialEq, Eq, Structural)]
pub enum KeyOutcome {
    /// keep looping
    Continue,
    /// tear down and leave
    Quit,
    /// spawn a background job for cluster counts and focused rows
    StartFilterList,
    /// spawn a background job for the focused cluster's rows only
    StartFilterTable,
}

/// Everything the interactive session knows.
pub struct App {
    pub theme: Theme,
    pub mode: Mode,
    pub table: Table,
    pub index: ClusterIndex,
    /// selection within the visible cluster list
    pub list_sel: Option<usize>,
    /// id of the cluster opened in the table screen
    pub selected_cluster_id: Option<usize>,
    /// in-page cursor of the table screen
    pub table_scroll: usize,
    pub table_page: usize,
    pub table_view_offset: usize,
    /// which cluster the cached matched-row list belongs to
    pub cached_cluster_id: Option<usize>,
    pub cached_filtered_rows: Vec<usize>,
    pub filter: Filter,
    /// the committed search text the scan cache was built for
    pub cluster_list_cache_key: Option<Vec<char>>,
    pub cluster_list_cache: Vec<ScanEntry>,
    pub input_path: String,
    /// query accepted with Enter; the view is frozen on it while typing
    pub committed_query: Option<SearchQuery>,
    pub committed_term: Vec<char>,
    pub sort_menu: Option<Float<SortMenu>>,
    pub current_sort: (String, SortOrder),
    pub confirm_quit: Option<Float<ConfirmQuit>>,
    pub detail_float: Option<Float<DataDetail>>,
    pub loading_float: Option<Float<LoadingFloat>>,
    /// a background filter job's answer is still outstanding
    pub filter_pending: bool,
    /// the cluster the pending job computes rows for
    pub pending_sel: Option<usize>,
    /// the per-cluster counts a background job delivered for the
    /// committed filter; they replace the progressive scan's counts in
    /// the display until the next commit
    pub authoritative_counts: Option<Vec<(usize, usize)>>,
}

impl App {
    /// The committed filter corresponds to the committed text, the scan
    /// cache lines up with the index, and the table is sound.
    pub open spec fn wf(&self) -> bool {
        &&& self.table.wf()
        &&& self.filter.wf()
        &&& self.cluster_list_cache@.len() > 0 ==> scan_wf(
            self.cluster_list_cache@,
            self.index.clusters@,
        )
        &&& (self.cluster_list_cache@.len() > 0 && self.table.in_memory()) ==> scan_exact(
            self.cluster_list_cache@,
            self.index.clusters@,
            self.committed_query,
            self.table.headers.deep_view(),
            self.table.mem_rows(),
        )
        &&& match self.sort_menu {
            Some(f) => f.content.wf(),
            None => true,
        }
        &&& match self.authoritative_counts {
            Some(cs) => forall|i: int|
                0 <= i < cs@.len() ==> crate::cluster::has_id(
                    self.index.clusters@,
                    (#[trigger] cs@[i]).0,
                ),
            None => true,
        }
        &&& match self.committed_query {
            Some(q) => query_of_text(q, self.committed_term@),
            None => tokens(self.committed_term@).len() == 0,
        }
    }

    /// Build the session state around a loaded table and its index.
    pub fn from_parts(table: Table, index: ClusterIndex, input_path: String) -> (r: App)
        requires
            table.wf(),
        ensures
            r.wf(),
            r.mode == Mode::ClusterList,
            r.table == table,
            r.index == index,
            r.list_sel == Some(0usize),
            r.selected_cluster_id is None,
            r.committed_query is None,
            r.committed_term@.len() == 0,
            !r.filter.is_active(),
            r.filter.term_view().len() == 0,
            r.cluster_list_cache@.len() == 0,
            r.cluster_list_cache_key is None,
            r.cached_cluster_id is None,
            r.cached_filtered_rows@.len() == 0,
            r.table_page == 0 && r.table_scroll == 0 && r.table_view_offset == 0,
            r.current_sort.0@ == "ip"@ && r.current_sort.1 == SortOrder::Ascend,
            r.authoritative_counts is None,
            !r.filter_pending,
            r.confirm_quit is None,
            r.detail_float is None,
            r.loading_float is None,
            r.sort_menu is None,
    {
        App {
            theme: Theme::Default,
            mode: Mode::ClusterList,
            table,
            index,
            list_sel: Some(0),
            selected_cluster_id: None,
            table_scroll: 0,
            table_page: 0,
            table_view_offset: 0,
            cached_cluster_id: None,
            cached_filtered_rows: Vec::new(),
            filter: Filter::default(),
            cluster_list_cache_key: None,
            cluster_list_cache: Vec::new(),
            input_path,
            committed_query: None,
            committed_term: Vec::new(),
            sort_menu: None,
            current_sort: (String::from_str("ip"), SortOrder::Ascend),
            confirm_quit: None,
            detail_float: None,
            loading_float: None,
            filter_pending: false,
            pending_sel: None,
            authoritative_counts: None,
        }
    }

    /// The name of the current screen.
    pub fn mode_name(&self) -> (r: &'static str)
        ensures
            self.mode == Mode::ClusterList ==> r@ == "ClusterList"@,
            self.mode == Mode::ClusterTable ==> r@ == "ClusterTable"@,
    {
        match self.mode {
            Mode::ClusterList => "ClusterList",
            Mode::ClusterTable => "ClusterTable",
        }
    }

    /// The cell of the named column in a row.
    pub fn pick(&self, col: &str, row: &Vec<String>) -> (r: Option<String>)
        ensures
            ({
                let c = crate::query::find_col(
                    self.table.headers.deep_view(),
                    crate::text::lower(col@),
                );
                match r {
                    Some(v) => c < self.table.headers.deep_view().len() && c < row@.len() && v
                        == row@[c],
                    None => c == self.table.headers.deep_view().len() || c >= row@.len(),
                }
            }),
    {
        match self.table.column_index(col) {
            Some(i) => {
                if i < row.len() {
                    Some(row[i].clone())
                } else {
                    None
                }
            },
            None => None,
        }
    }

    /// Install a finished background job's answer: its rows become the
    /// cached list of the focused cluster, the loading window goes away,
    /// and the delivered per-cluster counts replace the progressive
    /// scan's counts in the display. A delivery naming a cluster the
    /// index does not have is dropped rather than installed wrongly.
    pub fn apply_filter_result(&mut self, msg: FilterResult)
        requires
            old(self).wf(),
        ensures
            final(self).wf(),
            final(self).loading_float is None,
            !final(self).filter_pending,
            *final(self) == (App {
                cached_filtered_rows: final(self).cached_filtered_rows,
                cached_cluster_id: final(self).cached_cluster_id,
                loading_float: None,
                filter_pending: false,
                authoritative_counts: final(self).authoritative_counts,
                ..*old(self)
            }),
            match msg {
                FilterResult::ClusterRows(rows) => final(self).cached_filtered_rows == rows
                    && final(self).cached_cluster_id == old(self).selected_cluster_id && final(self).authoritative_counts == old(self).authoritative_counts,
                FilterResult::Both(counts, rows) => {
                    &&& final(self).cached_filtered_rows == rows
                    &&& final(self).cached_cluster_id == old(self).selected_cluster_id
                    &&& (forall|i: int|
                        0 <= i < counts@.len() ==> crate::cluster::has_id(
                            old(self).index.clusters@,
                            (#[trigger] counts@[i]).0,
                        )) ==> final(self).authoritative_counts == Some(counts)
                    &&& !(forall|i: int|
                        0 <= i < counts@.len() ==> crate::cluster::has_id(
                            old(self).index.clusters@,
                            (#[trigger] counts@[i]).0,
                        )) ==> final(self).authoritative_counts == old(self).authoritative_counts
                },
            },
    {
        match msg {
            FilterResult::Both(counts, rows) => {
                let mut all_found = true;
                let ghost mut bad: int = 0;
                let mut i: usize = 0;
                while i < counts.len()
                    invariant
                        i <= counts@.len(),
                        all_found ==> forall|j: int|
                            0 <= j < i ==> crate::cluster::has_id(
                                self.index.clusters@,
                                (#[trigger] counts@[j]).0,
                            ),
                        !all_found ==> 0 <= bad < i && !crate::cluster::has_id(
                            self.index.clusters@,
                            counts@[bad].0,
                        ),
                    decreases counts.len() - i,
                {
                    match find_cluster(&self.index, counts[i].0) {
                        Some(k) => {
                            proof {
                                assert(crate::cluster::has_id(
                                    self.index.clusters@,
                                    counts@[i as int].0,
                                )) by {
                                    assert(self.index.clusters@[k as int].id
                                        == counts@[i as int].0);
                                }
                            }
                        },
                        None => {
                            proof {
                                if all_found {
                                    bad = i as int;
                                    assert(!crate::cluster::has_id(
                                        self.index.clusters@,
                                        counts@[i as int].0,
                                    )) by {
                                        if crate::cluster::has_id(
                                            self.index.clusters@,
                                            counts@[i as int].0,
                                        ) {
                                            let k = choose|k: int|
                                                0 <= k < self.index.clusters@.len() && (
                                                #[trigger] self.index.clusters@[k]).id
                                                    == counts@[i as int].0;
                                        }
                                    }
                                }
                            }
                            all_found = false;
                        },
                    }
                    i = i + 1;
                }
                if all_found {
                    self.authoritative_counts = Some(counts);
                }
                self.cached_filtered_rows = rows;
                self.cached_cluster_id = self.selected_cluster_id;
                self.loading_float = None;
                self.filter_pending = false;
            },
            FilterResult::ClusterRows(rows) => {
                self.cached_filtered_rows = rows;
                self.cached_cluster_id = self.selected_cluster_id;
                self.loading_float = None;
                self.filter_pending = false;
            },
        }
    }

    /// The background job failed or its channel closed: clear the loading
    /// window and keep the prior results.
    pub fn filter_job_lost(&mut self)
        requires
            old(self).wf(),
        ensures
            final(self).wf(),
            final(self).loading_float is None,
            !final(self).filter_pending,
            *final(self) == (App {
                loading_float: None,
                filter_pending: false,
                ..*old(self)
            }),
    {
        self.loading_float = None;
        self.filter_pending = false;
    }
}

/// Position of the cluster with this id in the index.
pub fn find_cluster(index: &ClusterIndex, id: usize) -> (r: Option<usize>)
    ensures
        match r {
            Some(k) => k < index.clusters@.len() && index.clusters@[k as int].id == id,
            None => forall|k: int|
                0 <= k < index.clusters@.len() ==> (#[trigger] index.clusters@[k]).id != id,
        },
{
    let mut k: usize = 0;
    while k < index.clusters.len()
        invariant
            k <= index.clusters@.len(),
            forall|j: int| 0 <= j < k ==> (#[trigger] index.clusters@[j]).id != id,
        decreases index.clusters.len() - k,
    {
        if index.clusters[k].id == id {
            return Some(k);
        }
        k = k + 1;
    }
    None
}

} // verus!

// ---------------------------------------------------------------------------
// The visible cluster list and the budgeted scan
// ---------------------------------------------------------------------------

verus! {

/// Every cluster with its full size.
pub open spec fn cluster_totals(clusters: Seq<Cluster>) -> Seq<(usize, usize)> {
    clusters.map_values(|c: Cluster| (c.id, c.rows_idx.len() as usize))
}

/// The scan entries with at least one match so far, as (id, count).
pub open spec fn positive_counts(entries: Seq<ScanEntry>) -> Seq<(usize, usize)>
    decreases entries.len(),
{
    if entries.len() == 0 {
        Seq::empty()
    } else {
        let p = positive_counts(entries.drop_last());
        if entries.last().matched > 0 {
            p.push((entries.last().cluster_id, entries.last().matched))
        } else {
            p
        }
    }
}

/// The delivered (id, count) pairs with at least one match.
pub open spec fn positive_pairs(cs: Seq<(usize, usize)>) -> Seq<(usize, usize)>
    decreases cs.len(),
{
    if cs.len() == 0 {
        Seq::empty()
    } else {
        let p = positive_pairs(cs.drop_last());
        if cs.last().1 > 0 {
            p.push(cs.last())
        } else {
            p
        }
    }
}

/// What the cluster list shows for this state: every cluster with its
/// size when no filter is committed; the delivered authoritative counts
/// once a background job answered; otherwise the positive counts of the
/// progressive scan.
pub open spec fn visible_clusters(s: &App) -> Seq<(usize, usize)> {
    if s.committed_query is None && s.committed_term@.len() == 0 {
        cluster_totals(s.index.clusters@)
    } else {
        match s.authoritative_counts {
            Some(cs) => positive_pairs(cs@),
            None => if s.filter.is_active() && s.cluster_list_cache@.len() == 0 {
                cluster_totals(s.index.clusters@)
            } else {
                positive_counts(s.cluster_list_cache@)
            },
        }
    }
}

/// The query the view filters by right now: the committed one while the
/// search box is being edited (the view is frozen), otherwise the box's
/// current text parsed.
pub open spec fn filter_state_query(s: &App, q: Option<SearchQuery>) -> bool {
    if s.filter.is_active() {
        q == s.committed_query
    } else {
        &&& q is Some <==> tokens(s.filter.term_view()).len() > 0
        &&& match q {
            Some(qq) => query_of_text(qq, s.filter.term_view()),
            None => true,
        }
    }
}

/// The pair occurs among the delivered counts.
pub open spec fn pair_from_counts(p: (usize, usize), cs: Seq<(usize, usize)>) -> bool {
    exists|j: int| 0 <= j < cs.len() && (#[trigger] cs[j]) == p
}

/// The pair is some scan entry's id and count.
pub open spec fn pair_from_entries(p: (usize, usize), entries: Seq<ScanEntry>) -> bool {
    exists|j: int|
        0 <= j < entries.len() && (#[trigger] entries[j]).cluster_id == p.0 && entries[j].matched
            == p.1
}

proof fn lemma_positive_pairs_from(cs: Seq<(usize, usize)>)
    ensures
        forall|i: int|
            0 <= i < positive_pairs(cs).len() ==> #[trigger] pair_from_counts(
                positive_pairs(cs)[i],
                cs,
            ),
    decreases cs.len(),
{
    if cs.len() > 0 {
        lemma_positive_pairs_from(cs.drop_last());
        let p = positive_pairs(cs.drop_last());
        let w = positive_pairs(cs);
        assert forall|i: int| 0 <= i < w.len() implies #[trigger] pair_from_counts(w[i], cs) by {
            if i < p.len() {
                assert(pair_from_counts(p[i], cs.drop_last()));
                let j = choose|j: int| 0 <= j < cs.drop_last().len() && (#[trigger] cs.drop_last()[j]) == p[i];
                assert(cs[j] == w[i]);
            } else {
                assert(w[i] == cs.last());
                assert(cs[cs.len() - 1] == w[i]);
            }
        }
    }
}

proof fn lemma_positive_counts_from(entries: Seq<ScanEntry>)
    ensures
        forall|i: int|
            0 <= i < positive_counts(entries).len() ==> #[trigger] pair_from_entries(
                positive_counts(entries)[i],
                entries,
            ),
    decreases entries.len(),
{
    if entries.len() > 0 {
        lemma_positive_counts_from(entries.drop_last());
        let p = positive_counts(entries.drop_last());
        let w = positive_counts(entries);
        assert forall|i: int| 0 <= i < w.len() implies #[trigger] pair_from_entries(w[i], entries) by {
            if i < p.len() {
                assert(pair_from_entries(p[i], entries.drop_last()));
                let j = choose|j: int|
                    0 <= j < entries.drop_last().len() && (#[trigger] entries.drop_last()[j]).cluster_id
                        == p[i].0 && entries.drop_last()[j].matched == p[i].1;
                assert(entries[j].cluster_id == w[i].0 && entries[j].matched == w[i].1);
            } else {
                assert(w[i].0 == entries.last().cluster_id && w[i].1 == entries.last().matched);
                assert(entries[entries.len() - 1].cluster_id == w[i].0);
            }
        }
    }
}

/// Every cluster the visible list names exists in the index.
proof fn lemma_visible_ids(s: &App)
    requires
        s.wf(),
    ensures
        forall|i: int|
            0 <= i < visible_clusters(s).len() ==> crate::cluster::has_id(
                s.index.clusters@,
                (#[trigger] visible_clusters(s)[i]).0,
            ),
{
    let vis = visible_clusters(s);
    if s.committed_query is None && s.committed_term@.len() == 0 {
        assert forall|i: int|
            0 <= i < vis.len() implies crate::cluster::has_id(
            s.index.clusters@,
            (#[trigger] vis[i]).0,
        ) by {
            assert(vis[i].0 == s.index.clusters@[i].id);
        }
    } else {
        match s.authoritative_counts {
            Some(cs) => {
                lemma_positive_pairs_from(cs@);
                assert forall|i: int|
                    0 <= i < vis.len() implies crate::cluster::has_id(
                    s.index.clusters@,
                    (#[trigger] vis[i]).0,
                ) by {
                    assert(pair_from_counts(vis[i], cs@));
                    let j = choose|j: int| 0 <= j < cs@.len() && (#[trigger] cs@[j]) == vis[i];
                    assert(crate::cluster::has_id(s.index.clusters@, cs@[j].0));
                }
            },
            None => {
                if s.filter.is_active() && s.cluster_list_cache@.len() == 0 {
                    assert forall|i: int|
                        0 <= i < vis.len() implies crate::cluster::has_id(
                        s.index.clusters@,
                        (#[trigger] vis[i]).0,
                    ) by {
                        assert(vis[i].0 == s.index.clusters@[i].id);
                    }
                } else {
                    lemma_positive_counts_from(s.cluster_list_cache@);
                    assert forall|i: int|
                        0 <= i < vis.len() implies crate::cluster::has_id(
                        s.index.clusters@,
                        (#[trigger] vis[i]).0,
                    ) by {
                        assert(pair_from_entries(vis[i], s.cluster_list_cache@));
                        let j = choose|j: int|
                            0 <= j < s.cluster_list_cache@.len() && (
                            #[trigger] s.cluster_list_cache@[j]).cluster_id == vis[i].0
                                && s.cluster_list_cache@[j].matched == vis[i].1;
                        if s.cluster_list_cache@.len() > 0 {
                            assert(s.cluster_list_cache@[j].cluster_id
                                == s.index.clusters@[j].id);
                        }
                    }
                }
            },
        }
    }
}

impl App {
    /// The cluster list to show, advancing the budgeted scan by one
    /// frame's worth of rows when a filter is committed and the search
    /// box is not being edited. With no committed filter every cluster
    /// shows its full size; with one, each cluster shows the matches
    /// found so far, and clusters with none are hidden.
    pub fn filtered_clusters(&mut self) -> (r: Vec<(usize, usize)>)
        requires
            old(self).wf(),
        ensures
            final(self).wf(),
            final(self).table.same_source(&old(self).table),
            *final(self) == (App {
                table: final(self).table,
                cluster_list_cache: final(self).cluster_list_cache,
                cluster_list_cache_key: final(self).cluster_list_cache_key,
                ..*old(self)
            }),
            r@ == visible_clusters(final(self)),
            // with no committed filter, a delivered answer, or an active
            // box, the call only reads: the display is frozen
            ((old(self).committed_query is None && old(self).committed_term@.len() == 0) || old(self).authoritative_counts is Some || old(self).filter.is_active()) ==> *final(self)
                == *old(self),
            // across successive calls under one committed filter, each
            // cluster's scan cursor only advances
            (!old(self).filter.is_active() && old(self).cluster_list_cache_key == Some(old(self).committed_term) && old(self).cluster_list_cache@.len() == old(self).index.clusters@.len())
                ==> forall|k: int|
                0 <= k < final(self).cluster_list_cache@.len() ==> (#[trigger] final(self).cluster_list_cache@[k]).cursor >= old(self).cluster_list_cache@[k].cursor,
    {
        if self.committed_query.is_none() && self.committed_term.len() == 0 {
            let mut out: Vec<(usize, usize)> = Vec::new();
            let mut k: usize = 0;
            while k < self.index.clusters.len()
                invariant
                    k <= self.index.clusters@.len(),
                    out@.len() == k,
                    forall|j: int|
                        0 <= j < k ==> (#[trigger] out@[j]).0 == self.index.clusters@[j].id
                            && out@[j].1 == self.index.clusters@[j].rows_idx@.len(),
                decreases self.index.clusters.len() - k,
            {
                let c = &self.index.clusters[k];
                out.push((c.id, c.rows_idx.len()));
                k = k + 1;
            }
            proof {
                assert(out@ =~= cluster_totals(self.index.clusters@));
            }
            return out;
        }
        // a delivered answer replaces the scan's counts in the display
        let mut delivered: Option<Vec<(usize, usize)>> = None;
        match &self.authoritative_counts {
            Some(cs) => {
                delivered = Some(positive_pairs_of(cs));
            },
            None => {},
        }
        match delivered {
            Some(view) => {
                return view;
            },
            None => {},
        }
        if self.filter.active() {
            // typing: freeze the display on what the scan has so far
            if self.cluster_list_cache.len() > 0 {
                return positives(&self.cluster_list_cache);
            }
            let mut out: Vec<(usize, usize)> = Vec::new();
            let mut k: usize = 0;
            while k < self.index.clusters.len()
                invariant
                    k <= self.index.clusters@.len(),
                    out@.len() == k,
                    forall|j: int|
                        0 <= j < k ==> (#[trigger] out@[j]).0 == self.index.clusters@[j].id
                            && out@[j].1 == self.index.clusters@[j].rows_idx@.len(),
                decreases self.index.clusters.len() - k,
            {
                let c = &self.index.clusters[k];
                out.push((c.id, c.rows_idx.len()));
                k = k + 1;
            }
            proof {
                assert(out@ =~= cluster_totals(self.index.clusters@));
            }
            return out;
        }
        // reset the scan when the committed text changed
        let key_matches = match &self.cluster_list_cache_key {
            Some(k) => crate::text::chars_eq(k, &self.committed_term),
            None => false,
        };
        if !key_matches || self.cluster_list_cache.len() != self.index.clusters.len() {
            self.cluster_list_cache_key = Some(self.committed_term.clone());
            self.cluster_list_cache = fresh_scan(&self.index);
            proof {
                if self.table.in_memory() {
                    assert forall|k: int|
                        0 <= k < self.cluster_list_cache@.len() implies (
                    #[trigger] self.cluster_list_cache@[k]).matched == crate::scan::match_count(
                        self.committed_query,
                        self.table.headers.deep_view(),
                        self.table.mem_rows(),
                        self.index.clusters@[k].rows_idx@,
                        self.cluster_list_cache@[k].cursor as int,
                    ) by {
                        assert(self.cluster_list_cache@[k].cursor == 0);
                    }
                }
            }
        }
        proof {
            assert(scan_wf(self.cluster_list_cache@, self.index.clusters@));
        }
        let advanced = advance_scan(
            &mut self.table,
            &self.index,
            &self.committed_query,
            &self.cluster_list_cache,
            SCAN_BUDGET,
        );
        self.cluster_list_cache = advanced;
        positives(&self.cluster_list_cache)
    }

    /// Move the cluster selection up, wrapping to the bottom.
    pub fn move_sel_up(&mut self)
        requires
            old(self).wf(),
        ensures
            final(self).wf(),
            ({
                let n = visible_clusters(final(self)).len();
                if n == 0 {
                    final(self).list_sel is None
                } else {
                    let i = match old(self).list_sel {
                        Some(i) => i as int,
                        None => 0int,
                    };
                    final(self).list_sel == Some(
                        (if i == 0 || i >= n {
                            (n - 1) as usize
                        } else {
                            (i - 1) as usize
                        }),
                    )
                }
            }),
    {
        let list = self.filtered_clusters();
        let n = list.len();
        if n == 0 {
            self.list_sel = None;
            return ;
        }
        let i = match self.list_sel {
            Some(i) => i,
            None => 0,
        };
        let next: usize = if i == 0 || i >= n {
            n - 1
        } else {
            i - 1
        };
        self.list_sel = Some(next);
    }

    /// Move the cluster selection down, wrapping to the top.
    pub fn move_sel_down(&mut self)
        requires
            old(self).wf(),
        ensures
            final(self).wf(),
            ({
                let n = visible_clusters(final(self)).len();
                if n == 0 {
                    final(self).list_sel is None
                } else {
                    let i = match old(self).list_sel {
                        Some(i) => i as int,
                        None => 0int,
                    };
                    final(self).list_sel == Some(
                        (if i + 1 >= n {
                            0usize
                        } else {
                            (i + 1) as usize
                        }),
                    )
                }
            }),
    {
        let list = self.filtered_clusters();
        let n = list.len();
        if n == 0 {
            self.list_sel = None;
            return ;
        }
        let i = match self.list_sel {
            Some(i) => i,
            None => 0,
        };
        let next: usize = if i >= n - 1 {
            0
        } else {
            i + 1
        };
        self.list_sel = Some(next);
    }
}

/// The delivered pairs with at least one match.
fn positive_pairs_of(cs: &Vec<(usize, usize)>) -> (r: Vec<(usize, usize)>)
    ensures
        r@ == positive_pairs(cs@),
{
    let mut out: Vec<(usize, usize)> = Vec::new();
    let mut k: usize = 0;
    while k < cs.len()
        invariant
            k <= cs@.len(),
            out@ == positive_pairs(cs@.subrange(0, k as int)),
        decreases cs.len() - k,
    {
        proof {
            let pre = cs@.subrange(0, k as int);
            let cur = cs@.subrange(0, k + 1);
            assert(cur.drop_last() =~= pre);
            assert(cur.last() == cs@[k as int]);
        }
        if cs[k].1 > 0 {
            out.push(cs[k]);
        }
        k = k + 1;
    }
    proof {
        assert(cs@.subrange(0, cs@.len() as int) =~= cs@);
    }
    out
}

/// The entries with at least one match, as (id, count).
fn positives(entries: &Vec<ScanEntry>) -> (r: Vec<(usize, usize)>)
    ensures
        r@ == positive_counts(entries@),
{
    let mut out: Vec<(usize, usize)> = Vec::new();
    let mut k: usize = 0;
    while k < entries.len()
        invariant
            k <= entries@.len(),
            out@ == positive_counts(entries@.subrange(0, k as int)),
        decreases entries.len() - k,
    {
        proof {
            let pre = entries@.subrange(0, k as int);
            let cur = entries@.subrange(0, k + 1);
            assert(cur.drop_last() =~= pre);
            assert(cur.last() == entries@[k as int]);
        }
        if entries[k].matched > 0 {
            out.push((entries[k].cluster_id, entries[k].matched));
        }
        k = k + 1;
    }
    proof {
        assert(entries@.subrange(0, entries@.len() as int) =~= entries@);
    }
    out
}

} // verus!

// ---------------------------------------------------------------------------
// The table screen
// ---------------------------------------------------------------------------

verus! {

/// The slice of the cached matched rows that the table screen draws.
#[derive(Debug, Clone, Copy, PartialEq, Eq, Structural)]
pub struct TableView {
    pub pages: usize,
    pub page_start: usize,
    pub page_len: usize,
    /// absolute index of the first drawn row
    pub view_start: usize,
    /// absolute index just past the last drawn row
    pub view_end: usize,
}

impl App {
    /// The matched rows of the cluster highlighted in the list, for the
    /// preview pane: the committed filter while the box is being edited,
    /// the box's current text otherwise.
    pub fn preview_filtered_rows(&mut self) -> (r: Vec<usize>)
        requires
            old(self).wf(),
        ensures
            final(self).wf(),
            final(self).table.same_source(&old(self).table),
            *final(self) == (App {
                table: final(self).table,
                cluster_list_cache: final(self).cluster_list_cache,
                cluster_list_cache_key: final(self).cluster_list_cache_key,
                ..*old(self)
            }),
            visible_clusters(final(self)).len() == 0 ==> r@.len() == 0,
            // the preview is exactly the highlighted visible cluster's
            // matching rows under the state's query
            (old(self).table.in_memory() && visible_clusters(final(self)).len() > 0) ==> ({
                let vis = visible_clusters(final(self));
                let sel: int = match old(self).list_sel {
                    Some(i) => i as int,
                    None => 0int,
                };
                let idx: int = if sel < vis.len() {
                    sel
                } else {
                    vis.len() - 1
                };
                exists|q: Option<SearchQuery>, k: int|
                    {
                        &&& filter_state_query(old(self), q)
                        &&& 0 <= k < old(self).index.clusters@.len()
                        &&& old(self).index.clusters@[k].id == vis[idx].0
                        &&& r@ == #[trigger] crate::scan::matched_rows(
                            q,
                            old(self).table.headers.deep_view(),
                            old(self).table.mem_rows(),
                            old(self).index.clusters@[k].rows_idx@,
                            old(self).index.clusters@[k].rows_idx@.len() as int,
                        )
                    }
            }),
    {
        let ghost pre = *self;
        let list = self.filtered_clusters();
        let parsed = self.filter.parsed_query();
        let use_committed = self.filter.active();
        if list.len() == 0 {
            let r: Vec<usize> = Vec::new();
            return r;
        }
        let sel = match self.list_sel {
            Some(i) => i,
            None => 0,
        };
        let idx = if sel < list.len() {
            sel
        } else {
            list.len() - 1
        };
        let cluster_id = list[idx].0;
        proof {
            lemma_visible_ids(self);
            assert(crate::cluster::has_id(self.index.clusters@, cluster_id)) by {
                assert(visible_clusters(self)[idx as int].0 == cluster_id);
            }
        }
        match find_cluster(&self.index, cluster_id) {
            Some(k) => {
                let cluster = self.index.clusters[k].clone();
                let rows = if use_committed {
                    crate::scan::matching_rows(&mut self.table, &cluster, &self.committed_query)
                } else {
                    crate::scan::matching_rows(&mut self.table, &cluster, &parsed)
                };
                proof {
                    if pre.table.in_memory() {
                        let q: Option<SearchQuery> = if use_committed {
                            pre.committed_query
                        } else {
                            parsed
                        };
                        assert(filter_state_query(&pre, q));
                        assert(rows@ == crate::scan::matched_rows(
                            q,
                            pre.table.headers.deep_view(),
                            pre.table.mem_rows(),
                            pre.index.clusters@[k as int].rows_idx@,
                            pre.index.clusters@[k as int].rows_idx@.len() as int,
                        ));
                    }
                }
                rows
            },
            None => {
                // every visible id names a cluster of the index
                proof {
                    let w = choose|w: int|
                        0 <= w < self.index.clusters@.len() && (
                        #[trigger] self.index.clusters@[w]).id == cluster_id;
                    assert(false);
                }
                Vec::new()
            },
        }
    }

    /// Make sure the cached matched-row list belongs to the cluster the
    /// table screen shows, rebuilding it — and resetting page, cursor and
    /// scroll — when the screen moved to another cluster. The shown
    /// cluster is the opened one if it is still visible, else the first
    /// visible one; `None` when nothing matches anywhere.
    pub fn refresh_table_cache(&mut self) -> (r: Option<usize>)
        requires
            old(self).wf(),
        ensures
            final(self).wf(),
            final(self).table.same_source(&old(self).table),
            final(self).index == old(self).index,
            final(self).mode == old(self).mode,
            match r {
                Some(cid) => final(self).cached_cluster_id == Some(cid),
                None => visible_clusters(final(self)).len() == 0,
            },
            // when the cache was rebuilt for a materialized table, it holds
            // exactly the matching rows of some cluster with the shown id
            (old(self).table.in_memory() && r is Some && old(self).cached_cluster_id != r) ==> ((
            exists|q: Option<SearchQuery>, k: int|
                {
                    &&& filter_state_query(old(self), q)
                    &&& 0 <= k < old(self).index.clusters@.len()
                    &&& old(self).index.clusters@[k].id == r->0
                    &&& final(self).cached_filtered_rows@ == #[trigger] crate::scan::matched_rows(
                        q,
                        old(self).table.headers.deep_view(),
                        old(self).table.mem_rows(),
                        old(self).index.clusters@[k].rows_idx@,
                        old(self).index.clusters@[k].rows_idx@.len() as int,
                    )
                })),
    {
        let ghost pre = *self;
        let list = self.filtered_clusters();
        let target: Option<usize> = match self.selected_cluster_id {
            Some(sel_cid) => {
                let mut found_at: Option<usize> = None;
                let mut f: usize = 0;
                while f < list.len()
                    invariant
                        f <= list@.len(),
                        match found_at {
                            Some(ff) => ff < list@.len() && list@[ff as int].0 == sel_cid,
                            None => true,
                        },
                    decreases list.len() - f,
                {
                    if list[f].0 == sel_cid && found_at.is_none() {
                        found_at = Some(f);
                    }
                    f = f + 1;
                }
                match found_at {
                    Some(ff) => {
                        proof {
                            lemma_visible_ids(self);
                            assert(visible_clusters(self)[ff as int].0 == sel_cid);
                        }
                        Some(sel_cid)
                    },
                    None => {
                        if list.len() > 0 {
                            proof {
                                lemma_visible_ids(self);
                                assert(visible_clusters(self)[0].0 == list@[0].0);
                            }
                            Some(list[0].0)
                        } else {
                            None
                        }
                    },
                }
            },
            None => {
                if list.len() > 0 {
                    proof {
                        lemma_visible_ids(self);
                        assert(visible_clusters(self)[0].0 == list@[0].0);
                    }
                    Some(list[0].0)
                } else {
                    None
                }
            },
        };
        let cid = match target {
            Some(c) => c,
            None => {
                return None;
            },
        };
        proof {
            assert(crate::cluster::has_id(self.index.clusters@, cid));
        }
        let already = match self.cached_cluster_id {
            Some(c) => c == cid,
            None => false,
        };
        if !already {
            let parsed = self.filter.parsed_query();
            let use_committed = self.filter.active();
            match find_cluster(&self.index, cid) {
                Some(k) => {
                    let cluster = self.index.clusters[k].clone();
                    let rows = if use_committed {
                        crate::scan::matching_rows(
                            &mut self.table,
                            &cluster,
                            &self.committed_query,
                        )
                    } else {
                        crate::scan::matching_rows(&mut self.table, &cluster, &parsed)
                    };
                    proof {
                        if pre.table.in_memory() {
                            let q: Option<SearchQuery> = if use_committed {
                                pre.committed_query
                            } else {
                                parsed
                            };
                            assert(pre == *old(self));
                            assert(filter_state_query(old(self), q));
                            assert(old(self).index.clusters@[k as int].id == cid);
                            assert(rows@ == crate::scan::matched_rows(
                                q,
                                old(self).table.headers.deep_view(),
                                old(self).table.mem_rows(),
                                old(self).index.clusters@[k as int].rows_idx@,
                                old(self).index.clusters@[k as int].rows_idx@.len() as int,
                            ));
                        }
                    }
                    self.cached_filtered_rows = rows;
                },
                None => {
                    // every shown id names a cluster of the index
                    proof {
                        let w = choose|w: int|
                            0 <= w < self.index.clusters@.len() && (
                            #[trigger] self.index.clusters@[w]).id == cid;
                        assert(false);
                    }
                    self.cached_filtered_rows = Vec::new();
                },
            }
            self.cached_cluster_id = Some(cid);
            self.table_page = 0;
            self.table_scroll = 0;
            self.table_view_offset = 0;
        }
        Some(cid)
    }

    /// Re-clamp page, cursor and scroll offset against the cached
    /// matched-row total and compute the drawn slice: the selected row
    /// always lies in `[view_start, view_end)` when any row matches.
    pub fn clamp_table_view(&mut self, visible_rows: usize) -> (v: TableView)
        requires
            old(self).wf(),
        ensures
            final(self).wf(),
            *final(self) == (App {
                table_page: final(self).table_page,
                table_scroll: final(self).table_scroll,
                table_view_offset: final(self).table_view_offset,
                ..*old(self)
            }),
            v.pages == crate::nav::pages_of(
                old(self).cached_filtered_rows@.len() as int,
                TABLE_PAGE_SIZE as int,
            ),
            v.view_start <= v.view_end <= old(self).cached_filtered_rows@.len(),
            old(self).cached_filtered_rows@.len() > 0 ==> {
                let abs = final(self).table_page * TABLE_PAGE_SIZE + final(self).table_scroll;
                &&& final(self).table_page < v.pages
                &&& abs < old(self).cached_filtered_rows@.len()
                &&& v.view_start <= abs < v.view_end
            },
    {
        let total = self.cached_filtered_rows.len();
        let pages = clamp_view(
            &mut self.table_page,
            &mut self.table_scroll,
            &mut self.table_view_offset,
            total,
            visible_rows,
        );
        if total == 0 {
            return TableView { pages, page_start: 0, page_len: 0, view_start: 0, view_end: 0 };
        }
        let page_start = self.table_page * TABLE_PAGE_SIZE;
        let page_len: usize = if total - page_start < TABLE_PAGE_SIZE {
            total - page_start
        } else {
            TABLE_PAGE_SIZE
        };
        let visible: usize = if visible_rows == 0 {
            1
        } else {
            visible_rows
        };
        let view_start = page_start + self.table_view_offset;
        let room = page_start + page_len;
        let view_end = if room - view_start > visible {
            view_start + visible
        } else {
            room
        };
        TableView { pages, page_start, page_len, view_start, view_end }
    }

    /// Re-sort every cluster by the chosen column and direction, then
    /// drop every cache the old order fed: the matched-row list, the
    /// progressive scan, and the table position. An unknown column
    /// changes nothing at all.
    pub fn apply_sort(&mut self, col: &str, order: SortOrder)
        requires
            old(self).wf(),
        ensures
            final(self).wf(),
            final(self).table.same_source(&old(self).table),
            crate::query::find_col(old(self).table.headers.deep_view(), crate::text::lower(col@))
                == old(self).table.headers.deep_view().len() ==> *final(self) == *old(self),
            crate::query::find_col(old(self).table.headers.deep_view(), crate::text::lower(col@))
                < old(self).table.headers.deep_view().len() ==> {
                &&& final(self).cached_cluster_id is None
                &&& final(self).cached_filtered_rows@.len() == 0
                &&& final(self).table_page == 0 && final(self).table_scroll == 0 && final(self).table_view_offset == 0
            },
            final(self).index.clusters@.len() == old(self).index.clusters@.len(),
            forall|k: int|
                0 <= k < final(self).index.clusters@.len() ==> {
                    &&& (#[trigger] final(self).index.clusters@[k]).id == old(self).index.clusters@[k].id
                    &&& final(self).index.clusters@[k].rows_idx@.to_multiset() == old(self).index.clusters@[k].rows_idx@.to_multiset()
                },
            (crate::query::find_col(old(self).table.headers.deep_view(), crate::text::lower(col@))
                < old(self).table.headers.deep_view().len() && old(self).table.in_memory())
                ==> forall|k: int|
                0 <= k < final(self).index.clusters@.len() ==> crate::sort::cluster_sorted_by(
                    (#[trigger] final(self).index.clusters@[k]).rows_idx@,
                    old(self).table.mem_rows(),
                    old(self).table.headers.deep_view().len() as int,
                    crate::query::find_col(
                        old(self).table.headers.deep_view(),
                        crate::text::lower(col@),
                    ),
                    order == SortOrder::Descend,
                ),
            // stability: tied rows of a duplicate-free cluster keep their
            // old relative order
            (crate::query::find_col(old(self).table.headers.deep_view(), crate::text::lower(col@))
                < old(self).table.headers.deep_view().len() && old(self).table.in_memory())
                ==> forall|k: int|
                0 <= k < final(self).index.clusters@.len() ==> (crate::sort::idxs_distinct(
                    old(self).index.clusters@[k].rows_idx@,
                ) ==> crate::sort::cluster_stable(
                    (#[trigger] final(self).index.clusters@[k]).rows_idx@,
                    old(self).index.clusters@[k].rows_idx@,
                    old(self).table.mem_rows(),
                    old(self).table.headers.deep_view().len() as int,
                    crate::query::find_col(
                        old(self).table.headers.deep_view(),
                        crate::text::lower(col@),
                    ),
                )),
    {
        if self.table.column_index(col).is_none() {
            return ;
        }
        let ghost pre_clusters = self.index.clusters@;
        crate::sort::apply_sort(&mut self.table, &mut self.index, col, order);
        proof {
            // sorting permutes each cluster's rows but keeps every id, so
            // delivered counts still name clusters the index has
            match &self.authoritative_counts {
                Some(cs) => {
                    assert forall|i: int|
                        0 <= i < cs@.len() implies crate::cluster::has_id(
                        self.index.clusters@,
                        (#[trigger] cs@[i]).0,
                    ) by {
                        assert(crate::cluster::has_id(pre_clusters, cs@[i].0));
                        let k = choose|k: int|
                            0 <= k < pre_clusters.len() && (#[trigger] pre_clusters[k]).id
                                == cs@[i].0;
                        assert(self.index.clusters@[k].id == pre_clusters[k].id);
                    }
                },
                None => {},
            }
        }
        self.cached_cluster_id = None;
        self.cached_filtered_rows = Vec::new();
        self.table_page = 0;
        self.table_scroll = 0;
        self.table_view_offset = 0;
        // the scan cursors refer to the old row order; start the scan over
        self.cluster_list_cache = Vec::new();
        self.cluster_list_cache_key = None;
    }
}

} // verus!

// ---------------------------------------------------------------------------
// Key handling
// ---------------------------------------------------------------------------

verus! {

/// One detail line per column: `name: value`.
fn detail_lines(headers: &Vec<String>, row: &Vec<String>) -> (r: Vec<String>)
    ensures
        r@.len() == if headers@.len() < row@.len() {
            headers@.len()
        } else {
            row@.len()
        },
        forall|i: int|
            0 <= i < r@.len() ==> (#[trigger] r@[i])@ == headers@[i]@ + ": "@ + row@[i]@,
{
    let n = if headers.len() < row.len() {
        headers.len()
    } else {
        row.len()
    };
    let mut out: Vec<String> = Vec::new();
    let mut i: usize = 0;
    while i < n
        invariant
            n <= headers@.len() && n <= row@.len(),
            i <= n,
            out@.len() == i,
            forall|j: int|
                0 <= j < i ==> (#[trigger] out@[j])@ == headers@[j]@ + ": "@ + row@[j]@,
        decreases n - i,
    {
        let mut line = headers[i].clone();
        line.append(": ");
        line.append(row[i].as_str());
        out.push(line);
        i = i + 1;
    }
    out
}

impl App {
    /// The cluster currently highlighted in the visible list, if any.
    fn sel_cluster_id(&mut self) -> (r: Option<usize>)
        requires
            old(self).wf(),
        ensures
            final(self).wf(),
            final(self).table.same_source(&old(self).table),
            *final(self) == (App {
                table: final(self).table,
                cluster_list_cache: final(self).cluster_list_cache,
                cluster_list_cache_key: final(self).cluster_list_cache_key,
                ..*old(self)
            }),
    {
        let list = self.filtered_clusters();
        match self.list_sel {
            Some(i) => {
                if i < list.len() {
                    Some(list[i].0)
                } else {
                    None
                }
            },
            None => None,
        }
    }

    /// Accept the search box's text as the committed filter: freeze the
    /// display on it, show the loading window, and forget the old scan.
    fn commit_filter(&mut self)
        requires
            old(self).wf(),
        ensures
            final(self).wf(),
            !final(self).filter.is_active(),
            final(self).filter_pending,
            final(self).loading_float is Some,
            final(self).committed_term@ == final(self).filter.term_view(),
            final(self).authoritative_counts is None,
            final(self).table == old(self).table,
            final(self).index == old(self).index,
            final(self).mode == old(self).mode,
    {
        let parsed = self.filter.parsed_query();
        let term = self.filter.term_chars();
        self.committed_query = parsed;
        self.committed_term = term;
        self.filter.deactivate();
        self.loading_float = Some(
            Float::new_absolute(LoadingFloat::new("Loading data..."), 40, 3),
        );
        self.filter_pending = true;
        // the old scan and the old delivery belong to the old filter
        self.cluster_list_cache = Vec::new();
        self.cluster_list_cache_key = None;
        self.authoritative_counts = None;
    }

    /// Route one key press: an open detail window takes every key, then
    /// an open quit confirmation, then the active screen.
    pub fn handle_key(&mut self, key: Key) -> (r: KeyOutcome)
        requires
            old(self).wf(),
        ensures
            final(self).wf(),
            old(self).detail_float is Some ==> r == KeyOutcome::Continue && *final(self) == (App {
                detail_float: final(self).detail_float,
                ..*old(self)
            }) && (final(self).detail_float is None <==> (key == Key::Char('q') || key
                == Key::Esc)),
            old(self).detail_float is None ==> (old(self).confirm_quit matches Some(f) ==> ((
            !f.content.finished && !f.content.confirmed) ==> {
                &&& (r == KeyOutcome::Quit <==> key == Key::Char('y'))
                &&& ((key == Key::Char('n') || key == Key::Esc) ==> r == KeyOutcome::Continue
                    && *final(self) == (App { confirm_quit: None, ..*old(self) }))
                &&& (!(key == Key::Char('y') || key == Key::Char('n') || key == Key::Esc) ==> r
                    == KeyOutcome::Continue && final(self).confirm_quit is Some && *final(self)
                    == (App { confirm_quit: final(self).confirm_quit, ..*old(self) }))
            })),
    {
        let mut close_detail = false;
        match &mut self.detail_float {
            Some(f) => {
                let finished = f.content.handle_key_event(key);
                if finished && f.content.is_finished() {
                    close_detail = true;
                }
            },
            None => {},
        }
        if self.detail_float.is_some() {
            if close_detail {
                self.detail_float = None;
            }
            return KeyOutcome::Continue;
        }
        let mut quit_answered = false;
        let mut quit_confirmed = false;
        match &mut self.confirm_quit {
            Some(f) => {
                f.content.handle_key_event(key);
                if f.content.is_finished() {
                    quit_answered = true;
                    quit_confirmed = f.content.confirmed();
                }
            },
            None => {},
        }
        if self.confirm_quit.is_some() {
            if quit_answered {
                self.confirm_quit = None;
                if quit_confirmed {
                    return KeyOutcome::Quit;
                }
            }
            return KeyOutcome::Continue;
        }
        match self.mode {
            Mode::ClusterList => self.handle_key_list(key),
            Mode::ClusterTable => self.handle_key_table(key),
        }
    }

    /// Keys on the cluster-list screen. While the search box is being
    /// edited every key goes to it, and leaving the box commits the
    /// filter and asks for a background job. Otherwise the arrows move
    /// the selection, Enter or Right opens the selected cluster, `/`
    /// opens the search box and `q` asks to quit.
    pub fn handle_key_list(&mut self, key: Key) -> (r: KeyOutcome)
        requires
            old(self).wf(),
        ensures
            final(self).wf(),
            old(self).filter.is_active() ==> {
                &&& (r == KeyOutcome::StartFilterList <==> (key == Key::Enter || key == Key::Esc
                    || key == Key::Ctrl('c')))
                &&& (r == KeyOutcome::StartFilterList ==> !final(self).filter.is_active() && final(self).filter_pending && final(self).loading_float is Some && final(self).committed_term@ == final(self).filter.term_view() && final(self).authoritative_counts is None)
                &&& final(self).mode == old(self).mode
            },
            !old(self).filter.is_active() ==> {
                &&& (key == Key::Char('q') ==> final(self).confirm_quit is Some && r
                    == KeyOutcome::Continue)
                &&& (key == Key::Char('/') ==> final(self).filter.is_active() && r
                    == KeyOutcome::Continue)
                &&& ((key == Key::Enter || key == Key::Right || key == Key::Char('l')) ==> final(self).mode == Mode::ClusterTable && r == KeyOutcome::StartFilterList && final(self).filter_pending && final(self).cached_cluster_id is None && final(self).committed_term@ == final(self).filter.term_view())
                &&& ((key == Key::Up || key == Key::Char('k')) ==> r == KeyOutcome::Continue && ({
                    let n = visible_clusters(final(self)).len();
                    if n == 0 {
                        final(self).list_sel is None
                    } else {
                        let i = match old(self).list_sel {
                            Some(i) => i as int,
                            None => 0int,
                        };
                        final(self).list_sel == Some(
                            (if i == 0 || i >= n {
                                (n - 1) as usize
                            } else {
                                (i - 1) as usize
                            }),
                        )
                    }
                }))
                &&& ((key == Key::Down || key == Key::Char('j')) ==> r == KeyOutcome::Continue && ({
                    let n = visible_clusters(final(self)).len();
                    if n == 0 {
                        final(self).list_sel is None
                    } else {
                        let i = match old(self).list_sel {
                            Some(i) => i as int,
                            None => 0int,
                        };
                        final(self).list_sel == Some(
                            (if i + 1 >= n {
                                0usize
                            } else {
                                (i + 1) as usize
                            }),
                        )
                    }
                }))
            },
    {
        if self.filter.active() {
            let action = self.filter.handle_key(key);
            match action {
                SearchAction::Exit => {
                    self.commit_filter();
                    let sel = self.sel_cluster_id();
                    self.pending_sel = sel;
                    return KeyOutcome::StartFilterList;
                },
                _ => {
                    return KeyOutcome::Continue;
                },
            }
        }
        match key {
            Key::Char(c) => {
                if c == 'q' {
                    self.confirm_quit = Some(Float::new_absolute(ConfirmQuit::new(), 40, 6));
                    KeyOutcome::Continue
                } else if c == '/' {
                    self.filter.activate();
                    KeyOutcome::Continue
                } else if c == 'k' {
                    self.move_sel_up();
                    KeyOutcome::Continue
                } else if c == 'j' {
                    self.move_sel_down();
                    KeyOutcome::Continue
                } else if c == 'l' {
                    self.open_selected_cluster()
                } else {
                    KeyOutcome::Continue
                }
            },
            Key::Up => {
                self.move_sel_up();
                KeyOutcome::Continue
            },
            Key::Down => {
                self.move_sel_down();
                KeyOutcome::Continue
            },
            Key::Enter | Key::Right => self.open_selected_cluster(),
            _ => KeyOutcome::Continue,
        }
    }

    /// Commit the filter, open the highlighted cluster on the table
    /// screen and ask for its authoritative counts and rows.
    fn open_selected_cluster(&mut self) -> (r: KeyOutcome)
        requires
            old(self).wf(),
        ensures
            final(self).wf(),
            final(self).mode == Mode::ClusterTable,
            r == KeyOutcome::StartFilterList,
            final(self).filter_pending,
            final(self).loading_float is Some,
            final(self).cached_cluster_id is None,
            final(self).committed_term@ == final(self).filter.term_view(),
            final(self).authoritative_counts is None,
            final(self).table_page == 0 && final(self).table_scroll == 0 && final(self).table_view_offset == 0,
    {
        self.commit_filter();
        let sel = self.sel_cluster_id();
        self.pending_sel = sel;
        self.selected_cluster_id = sel;
        self.mode = Mode::ClusterTable;
        self.table_scroll = 0;
        self.table_page = 0;
        self.table_view_offset = 0;
        self.cached_cluster_id = None;
        self.cached_filtered_rows = Vec::new();
        KeyOutcome::StartFilterList
    }

    /// Keys on the cluster-table screen. An open sort menu takes every
    /// key first, then an active search box; otherwise the arrows move
    /// the cursor and turn pages, Enter opens the row detail, `s` opens
    /// the sort menu, `/` the search box, and `q` goes back to the list.
    pub fn handle_key_table(&mut self, key: Key) -> (r: KeyOutcome)
        requires
            old(self).wf(),
        ensures
            final(self).wf(),
            (old(self).sort_menu is None && old(self).filter.is_active()) ==> {
                &&& (r == KeyOutcome::StartFilterTable <==> (key == Key::Enter || key == Key::Esc
                    || key == Key::Ctrl('c')))
                &&& (r == KeyOutcome::StartFilterTable ==> !final(self).filter.is_active() && final(self).filter_pending && final(self).loading_float is Some && final(self).committed_term@ == final(self).filter.term_view() && final(self).authoritative_counts is None)
            },
            (old(self).sort_menu is None && !old(self).filter.is_active()) ==> {
                &&& (key == Key::Char('q') ==> final(self).mode == Mode::ClusterList && final(self).selected_cluster_id is None && r == KeyOutcome::Continue)
                &&& (key == Key::Char('/') ==> final(self).filter.is_active())
                &&& (key == Key::Char('s') ==> final(self).sort_menu is Some)
                &&& ((key == Key::Left || key == Key::Char('h')) ==> final(self).table_scroll == 0
                    && final(self).table_view_offset == 0 && final(self).table_page == (if old(self).table_page > 0 {
                    old(self).table_page - 1
                } else {
                    0int
                }))
                &&& ((key == Key::Right || key == Key::Char('l')) ==> final(self).table_scroll == 0
                    && final(self).table_view_offset == 0 && final(self).table_page == (if old(self).table_page < usize::MAX {
                    old(self).table_page + 1
                } else {
                    usize::MAX as int
                }))
                &&& ((key == Key::Up || key == Key::Char('k')) ==> r == KeyOutcome::Continue
                    && final(self).table_scroll == (if old(self).table_scroll > 0 {
                    old(self).table_scroll - 1
                } else {
                    0int
                }) && final(self).table_page == old(self).table_page && final(self).table_view_offset == old(self).table_view_offset && final(self).mode == old(self).mode)
                &&& ((key == Key::Down || key == Key::Char('j')) ==> r == KeyOutcome::Continue
                    && final(self).table_scroll == (if old(self).table_scroll + 1
                    < old(self).current_page_len_spec() {
                    old(self).table_scroll + 1
                } else {
                    old(self).table_scroll as int
                }) && final(self).table_page == old(self).table_page && final(self).table_view_offset == old(self).table_view_offset && final(self).mode == old(self).mode)
                &&& (key == Key::Enter ==> r == KeyOutcome::Continue && final(self).table_page
                    == old(self).table_page && final(self).table_scroll == old(self).table_scroll
                    && final(self).mode == old(self).mode && (!(old(self).selected_cluster_id is Some
                    && old(self).cached_cluster_id == old(self).selected_cluster_id && old(self).cached_filtered_rows@.len() > 0) ==> final(self).detail_float == old(self).detail_float) && ((old(self).selected_cluster_id is Some
                    && old(self).cached_cluster_id == old(self).selected_cluster_id && old(self).cached_filtered_rows@.len() > 0 && old(self).table.in_memory()) ==> final(self).detail_float is Some))
            },
            old(self).sort_menu is Some ==> r == KeyOutcome::Continue,
    {
        if self.sort_menu.is_some() {
            let mut apply_choice: Option<(String, SortOrder)> = None;
            let mut close = false;
            match &mut self.sort_menu {
                Some(f) => {
                    let finished = f.content.handle_key_event(key);
                    if key == Key::Esc {
                        close = true;
                    } else if finished && f.content.is_finished() {
                        if !f.content.cancelled && f.content.columns.len() > 0 {
                            let col = f.content.columns[f.content.selected_col].clone();
                            apply_choice = Some((col, f.content.selected_order));
                        }
                        close = true;
                    }
                },
                None => {},
            }
            if close {
                self.sort_menu = None;
            }
            match apply_choice {
                Some((col, ord)) => {
                    self.apply_sort(col.as_str(), ord);
                    self.current_sort = (col, ord);
                },
                None => {},
            }
            return KeyOutcome::Continue;
        }
        if self.filter.active() {
            let action = self.filter.handle_key(key);
            match action {
                SearchAction::Exit => {
                    self.commit_filter();
                    let sel = match self.selected_cluster_id {
                        Some(cid) => Some(cid),
                        None => self.sel_cluster_id(),
                    };
                    self.pending_sel = sel;
                    return KeyOutcome::StartFilterTable;
                },
                _ => {
                    return KeyOutcome::Continue;
                },
            }
        }
        match key {
            Key::Down => {
                let page_len = self.current_page_len();
                nav_down(&mut self.table_scroll, page_len);
                KeyOutcome::Continue
            },
            Key::Up => {
                nav_up(&mut self.table_scroll);
                KeyOutcome::Continue
            },
            Key::Left => {
                nav_prev_page(&mut self.table_page, &mut self.table_scroll, &mut self.table_view_offset);
                KeyOutcome::Continue
            },
            Key::Right => {
                nav_next_page(&mut self.table_page, &mut self.table_scroll, &mut self.table_view_offset);
                KeyOutcome::Continue
            },
            Key::Enter => {
                self.open_detail();
                KeyOutcome::Continue
            },
            Key::Char(c) => {
                if c == 'j' {
                    let page_len = self.current_page_len();
                    nav_down(&mut self.table_scroll, page_len);
                } else if c == 'k' {
                    nav_up(&mut self.table_scroll);
                } else if c == 'h' {
                    nav_prev_page(
                        &mut self.table_page,
                        &mut self.table_scroll,
                        &mut self.table_view_offset,
                    );
                } else if c == 'l' {
                    nav_next_page(
                        &mut self.table_page,
                        &mut self.table_scroll,
                        &mut self.table_view_offset,
                    );
                } else if c == 'q' {
                    self.mode = Mode::ClusterList;
                    self.selected_cluster_id = None;
                } else if c == '/' {
                    self.filter.activate();
                } else if c == 's' {
                    self.open_sort_menu();
                }
                KeyOutcome::Continue
            },
            _ => KeyOutcome::Continue,
        }
    }

    /// Rows on the current page as the cursor sees them: from the cached
    /// matched-row list when it belongs to the shown cluster, else a full
    /// page.
    pub open spec fn current_page_len_spec(&self) -> int {
        let cached_matches = match (self.selected_cluster_id, self.cached_cluster_id) {
            (Some(a), Some(b)) => a == b,
            _ => false,
        };
        if !cached_matches {
            TABLE_PAGE_SIZE as int
        } else {
            let total = self.cached_filtered_rows@.len() as int;
            if total == 0 {
                1
            } else {
                let pages = crate::nav::pages_of(total, TABLE_PAGE_SIZE as int);
                let page: int = if self.table_page >= pages {
                    pages - 1
                } else {
                    self.table_page as int
                };
                let pl = crate::nav::page_len_of(total, page, TABLE_PAGE_SIZE as int);
                if pl == 0 {
                    1
                } else {
                    pl
                }
            }
        }
    }

    /// The number of rows the table holds.
    pub open spec fn total_rows_of(&self) -> int {
        self.table.total_rows as int
    }

    /// The absolute index of the selected row within the cached list, as
    /// the detail window computes it.
    pub open spec fn detail_abs_spec(&self) -> int {
        let total = self.cached_filtered_rows@.len() as int;
        let pages = crate::nav::pages_of(total, TABLE_PAGE_SIZE as int);
        let page: int = if self.table_page >= pages {
            pages - 1
        } else {
            self.table_page as int
        };
        let ps = page * (TABLE_PAGE_SIZE as int);
        let pl = crate::nav::page_len_of(total, page, TABLE_PAGE_SIZE as int);
        let ip: int = if self.table_scroll < pl {
            self.table_scroll as int
        } else {
            pl - 1
        };
        ps + ip
    }

    /// Rows on the current page, from the cached matched-row list; a full
    /// page when the cache belongs to another cluster.
    fn current_page_len(&self) -> (r: usize)
        ensures
            r == self.current_page_len_spec(),
            r >= 1 || self.cached_filtered_rows@.len() == 0,
            r <= TABLE_PAGE_SIZE,
    {
        let cached_matches = match (self.selected_cluster_id, self.cached_cluster_id) {
            (Some(a), Some(b)) => a == b,
            _ => false,
        };
        if !cached_matches {
            return TABLE_PAGE_SIZE;
        }
        let total = self.cached_filtered_rows.len();
        if total == 0 {
            return 1;
        }
        let pages = crate::nav::total_pages(total);
        let page = if self.table_page >= pages {
            pages - 1
        } else {
            self.table_page
        };
        let page_start = page * TABLE_PAGE_SIZE;
        proof {
            assert((pages - 1) * TABLE_PAGE_SIZE < total);
            assert(page * TABLE_PAGE_SIZE <= (pages - 1) * TABLE_PAGE_SIZE) by (nonlinear_arith)
                requires
                    page <= pages - 1,
                    TABLE_PAGE_SIZE > 0,
            ;
        }
        let page_len: usize = if total - page_start < TABLE_PAGE_SIZE {
            total - page_start
        } else {
            TABLE_PAGE_SIZE
        };
        if page_len == 0 {
            1
        } else {
            page_len
        }
    }

    /// Open the detail window for the selected row of the current page,
    /// when the cached row list belongs to the shown cluster.
    fn open_detail(&mut self)
        requires
            old(self).wf(),
        ensures
            final(self).wf(),
            *final(self) == (App {
                detail_float: final(self).detail_float,
                table: final(self).table,
                ..*old(self)
            }),
            final(self).table.same_source(&old(self).table),
            old(self).table.in_memory() ==> final(self).table == old(self).table,
            !(old(self).selected_cluster_id is Some && old(self).cached_cluster_id == old(self).selected_cluster_id && old(self).cached_filtered_rows@.len() > 0) ==> final(self).detail_float == old(self).detail_float,
            (old(self).selected_cluster_id is Some && old(self).cached_cluster_id == old(self).selected_cluster_id && old(self).cached_filtered_rows@.len() > 0 && old(self).table.in_memory()) ==> ({
                let abs = old(self).detail_abs_spec();
                let ri = old(self).cached_filtered_rows@[abs];
                &&& final(self).detail_float matches Some(f)
                &&& !f.content.finished
                &&& f.content.lines@.len() == old(self).table.headers@.len()
                &&& (ri < old(self).total_rows_of() ==> forall|i: int|
                    0 <= i < f.content.lines@.len() ==> (#[trigger] f.content.lines@[i])@
                        == old(self).table.headers@[i]@ + ": "@ + old(self).table.mem_rows()[
                        ri as int
                    ]@[i]@)
            }),
    {
        let shown = match (self.selected_cluster_id, self.cached_cluster_id) {
            (Some(a), Some(b)) => a == b,
            _ => false,
        };
        if !shown {
            return ;
        }
        let total = self.cached_filtered_rows.len();
        if total == 0 {
            return ;
        }
        let pages = crate::nav::total_pages(total);
        let page = if self.table_page >= pages {
            pages - 1
        } else {
            self.table_page
        };
        let page_start = page * TABLE_PAGE_SIZE;
        proof {
            assert((pages - 1) * TABLE_PAGE_SIZE < total);
            assert(page * TABLE_PAGE_SIZE <= (pages - 1) * TABLE_PAGE_SIZE) by (nonlinear_arith)
                requires
                    page <= pages - 1,
                    TABLE_PAGE_SIZE > 0,
            ;
        }
        let page_len: usize = if total - page_start < TABLE_PAGE_SIZE {
            total - page_start
        } else {
            TABLE_PAGE_SIZE
        };
        let idx_in_page = if self.table_scroll < page_len {
            self.table_scroll
        } else {
            page_len - 1
        };
        let abs = page_start + idx_in_page;
        proof {
            assert(abs < total);
        }
        let ri = self.cached_filtered_rows[abs];
        match self.table.get_row(ri) {
            Ok(row) => {
                proof {
                    if old(self).table.in_memory() && (ri as int) < old(self).table.mem_rows().len() {
                        assert(row.deep_view() == old(self).table.mem_rows()[ri as int].deep_view());
                        assert forall|i: int|
                            0 <= i < row@.len() implies (#[trigger] row@[i])@ == old(
                            self,
                        ).table.mem_rows()[ri as int]@[i]@ by {
                            assert(row.deep_view()[i] == old(self).table.mem_rows()[
                                ri as int
                            ].deep_view()[i]);
                        }
                    }
                }
                let lines = detail_lines(&self.table.headers, &row);
                self.detail_float = Some(Float::new_absolute(DataDetail::new(lines), 60, 12));
            },
            Err(_) => {},
        }
    }

    /// Open the sort menu over the table's columns, preselecting the
    /// current sort.
    fn open_sort_menu(&mut self)
        requires
            old(self).wf(),
        ensures
            final(self).wf(),
            *final(self) == (App { sort_menu: final(self).sort_menu, ..*old(self) }),
            final(self).sort_menu matches Some(f) && ({
                let cols = old(self).table.headers;
                &&& f.content.columns@.len() == cols@.len()
                &&& forall|j: int|
                    0 <= j < cols@.len() ==> (#[trigger] f.content.columns@[j])@ == cols@[j]@
                &&& f.content.selected_order == old(self).current_sort.1
                &&& !f.content.finished
                &&& ((exists|j: int|
                    0 <= j < cols@.len() && (#[trigger] cols@[j])@ == old(self).current_sort.0@)
                    ==> f.content.selected_col < cols@.len() && cols@[
                    f.content.selected_col as int
                ]@ == old(self).current_sort.0@ && (forall|j: int|
                    0 <= j < f.content.selected_col ==> (#[trigger] cols@[j])@ != old(self).current_sort.0@))
                &&& (!(exists|j: int|
                    0 <= j < cols@.len() && (#[trigger] cols@[j])@ == old(self).current_sort.0@)
                    ==> f.content.selected_col == 0)
            }),
    {
        let cols = self.table.headers.clone();
        proof {
            assert forall|j: int|
                0 <= j < cols@.len() implies (#[trigger] cols@[j])@
                == old(self).table.headers@[j]@ by {
                assert(vstd::pervasive::cloned::<String>(old(self).table.headers@[j], cols@[j]));
            }
        }
        let mut idx: usize = 0;
        let mut found_at: Option<usize> = None;
        while idx < cols.len()
            invariant
                idx <= cols@.len(),
                forall|j: int|
                    0 <= j < cols@.len() ==> (#[trigger] cols@[j])@ == old(self).table.headers@[j]@,
                self.current_sort == old(self).current_sort,
                match found_at {
                    Some(ff) => ff < cols@.len() && cols@[ff as int]@ == self.current_sort.0@
                        && forall|j: int|
                        0 <= j < ff ==> (#[trigger] cols@[j])@ != self.current_sort.0@,
                    None => forall|j: int|
                        0 <= j < idx ==> (#[trigger] cols@[j])@ != self.current_sort.0@,
                },
            decreases cols.len() - idx,
        {
            if found_at.is_none() && cols[idx] == self.current_sort.0 {
                found_at = Some(idx);
            }
            idx = idx + 1;
        }
        let default_col = match found_at {
            Some(ff) => ff,
            None => 0,
        };
        let menu = SortMenu::new(cols, default_col, self.current_sort.1);
        self.sort_menu = Some(Float::new_absolute(menu, 60, 20));
    }

    /// The key bindings the footer shows for the current state.
    pub fn get_current_shortcuts(&self) -> (&'static str, Vec<Shortcut>) {
        match &self.sort_menu {
            Some(f) => {
                return f.content.get_shortcut_list();
            },
            None => {},
        }
        match &self.confirm_quit {
            Some(f) => {
                return f.content.get_shortcut_list();
            },
            None => {},
        }
        if self.filter.active() {
            let mut list: Vec<Shortcut> = Vec::new();
            let mut k1: Vec<&'static str> = Vec::new();
            k1.push("Esc");
            k1.push("Enter");
            list.push(Shortcut::new("Exit search", k1));
            let mut k2: Vec<&'static str> = Vec::new();
            k2.push("left");
            k2.push("right");
            list.push(Shortcut::new("Move cursor", k2));
            let mut k3: Vec<&'static str> = Vec::new();
            k3.push("Backspace");
            list.push(Shortcut::new("Delete char", k3));
            let mut k4: Vec<&'static str> = Vec::new();
            k4.push("a-z");
            k4.push("0-9");
            list.push(Shortcut::new("Input", k4));
            return ("Search", list);
        }
        match self.mode {
            Mode::ClusterList => {
                let mut list: Vec<Shortcut> = Vec::new();
                let mut k1: Vec<&'static str> = Vec::new();
                k1.push("j");
                k1.push("k");
                k1.push("up");
                k1.push("down");
                list.push(Shortcut::new("Move", k1));
                let mut k2: Vec<&'static str> = Vec::new();
                k2.push("Enter");
                k2.push("l");
                k2.push("right");
                list.push(Shortcut::new("Select cluster", k2));
                let mut k3: Vec<&'static str> = Vec::new();
                k3.push("/");
                list.push(Shortcut::new("Search", k3));
                let mut k4: Vec<&'static str> = Vec::new();
                k4.push("q");
                list.push(Shortcut::new("Quit", k4));
                ("Cluster List", list)
            },
            Mode::ClusterTable => {
                let mut list: Vec<Shortcut> = Vec::new();
                let mut k1: Vec<&'static str> = Vec::new();
                k1.push("Enter");
                list.push(Shortcut::new("Detail", k1));
                let mut k2: Vec<&'static str> = Vec::new();
                k2.push("j");
                k2.push("k");
                k2.push("up");
                k2.push("down");
                list.push(Shortcut::new("Scroll", k2));
                let mut k3: Vec<&'static str> = Vec::new();
                k3.push("h");
                k3.push("l");
                k3.push("left");
                k3.push("right");
                list.push(Shortcut::new("Page", k3));
                let mut k4: Vec<&'static str> = Vec::new();
                k4.push("s");
                list.push(Shortcut::new("Sort", k4));
                let mut k5: Vec<&'static str> = Vec::new();
                k5.push("/");
                list.push(Shortcut::new("Search", k5));
                let mut k6: Vec<&'static str> = Vec::new();
                k6.push("q");
                list.push(Shortcut::new("Back", k6));
                ("Cluster Table", list)
            },
        }
    }
}

} // verus!
