use cluster_tui::cluster::build_cluster_index;
use cluster_tui::float::{floating_rect, FloatMode, ScreenRect};
use cluster_tui::key::Key;
use cluster_tui::logrecord::{group_by_cluster, ClusteredLog};
use cluster_tui::quit::ConfirmQuit;
use cluster_tui::sort::{SortMenu, SortOrder};
use cluster_tui::state::{App, FilterResult, KeyOutcome, Mode};
use cluster_tui::table::Table;
use cluster_tui::theme::Theme;

fn strings(xs: &[&str]) -> Vec<String> {
    xs.iter().map(|s| s.to_string()).collect()
}

fn demo_app() -> App {
    let headers = strings(&["status", "cluster"]);
    let rows = vec![
        strings(&["404", "0"]),
        strings(&["200", "0"]),
        strings(&["404", "1"]),
        strings(&["404", "1"]),
        strings(&["200", "2"]),
    ];
    let mut t = Table::from_rows(headers, rows).unwrap();
    let index = build_cluster_index(&mut t).unwrap();
    App::from_parts(t, index, "demo.csv".to_string())
}

#[test]
fn unfiltered_list_shows_every_cluster_with_its_size() {
    let mut app = demo_app();
    let list = app.filtered_clusters();
    assert_eq!(list, vec![(0, 2), (1, 2), (2, 1)]);
}

#[test]
fn committing_a_filter_freezes_and_then_narrows_the_list() {
    let mut app = demo_app();
    assert_eq!(app.handle_key(Key::Char('/')), KeyOutcome::Continue);
    for c in "status=404".chars() {
        app.handle_key(Key::Char(c));
    }
    // while typing, the display stays on the committed (empty) filter
    let frozen = app.filtered_clusters();
    assert_eq!(frozen.len(), 3);
    let outcome = app.handle_key(Key::Enter);
    assert_eq!(outcome, KeyOutcome::StartFilterList);
    assert!(app.filter_pending);
    // the budgeted scan converges on the exact per-cluster counts
    let mut list = Vec::new();
    for _ in 0..20 {
        list = app.filtered_clusters();
    }
    assert_eq!(list, vec![(0, 1), (1, 2)]);
}

#[test]
fn background_result_replaces_the_caches_and_clears_loading() {
    let mut app = demo_app();
    app.handle_key(Key::Char('/'));
    app.handle_key(Key::Char('x'));
    app.handle_key(Key::Enter);
    assert!(app.loading_float.is_some());
    app.apply_filter_result(FilterResult::ClusterRows(vec![2, 3]));
    assert!(app.loading_float.is_none());
    assert!(!app.filter_pending);
    assert_eq!(app.cached_filtered_rows, vec![2, 3]);
}

#[test]
fn selection_moves_wrap_around_the_cluster_list() {
    let mut app = demo_app();
    assert_eq!(app.list_sel, Some(0));
    app.handle_key(Key::Down);
    assert_eq!(app.list_sel, Some(1));
    app.handle_key(Key::Down);
    app.handle_key(Key::Down);
    assert_eq!(app.list_sel, Some(0));
    app.handle_key(Key::Up);
    assert_eq!(app.list_sel, Some(2));
}

#[test]
fn enter_opens_the_selected_cluster_in_the_table_screen() {
    let mut app = demo_app();
    app.handle_key(Key::Down);
    let outcome = app.handle_key(Key::Enter);
    assert_eq!(outcome, KeyOutcome::StartFilterList);
    assert_eq!(app.mode, Mode::ClusterTable);
    assert_eq!(app.selected_cluster_id, Some(1));
    assert_eq!(app.table_page, 0);
}

#[test]
fn quit_needs_confirmation() {
    let mut app = demo_app();
    app.handle_key(Key::Char('q'));
    assert!(app.confirm_quit.is_some());
    assert_eq!(app.handle_key(Key::Char('n')), KeyOutcome::Continue);
    assert!(app.confirm_quit.is_none());
    app.handle_key(Key::Char('q'));
    assert_eq!(app.handle_key(Key::Char('y')), KeyOutcome::Quit);
}

#[test]
fn back_from_the_table_screen_returns_to_the_list() {
    let mut app = demo_app();
    app.handle_key(Key::Enter);
    assert_eq!(app.mode, Mode::ClusterTable);
    app.handle_key(Key::Char('q'));
    assert_eq!(app.mode, Mode::ClusterList);
    assert_eq!(app.selected_cluster_id, None);
}

#[test]
fn table_screen_clamps_and_shows_the_selection() {
    let mut app = demo_app();
    app.handle_key(Key::Enter);
    app.apply_filter_result(FilterResult::Both(
        vec![(0, 2), (1, 2), (2, 1)],
        vec![0, 1],
    ));
    let v = app.clamp_table_view(10);
    assert_eq!(v.pages, 1);
    assert_eq!((v.view_start, v.view_end), (0, 2));
}

#[test]
fn sort_menu_keys_move_select_and_finish() {
    let mut m = SortMenu::new(strings(&["a", "b", "c"]), 0, SortOrder::Ascend);
    m.handle_key_event(Key::Char('j'));
    m.handle_key_event(Key::Char('j'));
    m.handle_key_event(Key::Char(' '));
    assert_eq!(m.selected_col, 2);
    m.handle_key_event(Key::Tab);
    m.handle_key_event(Key::Char('j'));
    m.handle_key_event(Key::Char(' '));
    assert_eq!(m.selected_order, SortOrder::Descend);
    assert!(m.handle_key_event(Key::Enter));
    assert!(m.is_finished());
    assert!(!m.cancelled);
}

#[test]
fn sort_menu_escape_cancels() {
    let mut m = SortMenu::new(strings(&["a"]), 0, SortOrder::Ascend);
    m.handle_key_event(Key::Esc);
    assert!(m.is_finished());
    assert!(m.cancelled);
}

#[test]
fn confirm_quit_answers() {
    let mut c = ConfirmQuit::new();
    assert!(!c.handle_key_event(Key::Char('x')));
    assert!(!c.is_finished());
    assert!(c.handle_key_event(Key::Char('y')));
    assert!(c.confirmed());
}

#[test]
fn floating_rect_stays_inside_the_parent() {
    let parent = ScreenRect { x: 2, y: 1, width: 100, height: 40 };
    for mode in [FloatMode::Percent(60, 50), FloatMode::Absolute(40, 6), FloatMode::Absolute(500, 500)] {
        let r = floating_rect(mode, parent);
        assert!(r.x >= parent.x && r.y >= parent.y);
        assert!(r.x + r.width <= parent.x + parent.width);
        assert!(r.y + r.height <= parent.y + parent.height);
    }
}

#[test]
fn themes_cycle() {
    let mut t = Theme::Default;
    t.next();
    assert_eq!(t, Theme::Compatible);
    t.next();
    assert_eq!(t, Theme::Default);
    t.prev();
    assert_eq!(t, Theme::Compatible);
    assert_eq!(Theme::Compatible.tab_icon(), ">> ");
}

fn log(cluster: u8, url: &str) -> ClusteredLog {
    ClusteredLog {
        ip: "1.1.1.1".to_string(),
        time: "t".to_string(),
        method: "GET".to_string(),
        url: url.to_string(),
        protocol: "HTTP/1.1".to_string(),
        status: 200,
        size: 10,
        referrer: "-".to_string(),
        user_agent: "ua".to_string(),
        cluster,
    }
}

#[test]
fn group_by_cluster_buckets_in_input_order() {
    let data = vec![log(1, "/a"), log(0, "/b"), log(1, "/c")];
    let grouped = group_by_cluster(&data);
    assert_eq!(grouped.len(), 2);
    let ones: Vec<&str> = grouped[&1].iter().map(|l| l.url.as_str()).collect();
    assert_eq!(ones, vec!["/a", "/c"]);
    let zeros: Vec<&str> = grouped[&0].iter().map(|l| l.url.as_str()).collect();
    assert_eq!(zeros, vec!["/b"]);
    assert!(!grouped.contains_key(&2));
}

#[test]
fn the_sort_menu_applies_a_choice_end_to_end() {
    let headers = strings(&["v", "cluster"]);
    let rows = vec![
        strings(&["9", "0"]),
        strings(&["100", "0"]),
        strings(&["20", "0"]),
    ];
    let mut t = Table::from_rows(headers, rows).unwrap();
    let index = build_cluster_index(&mut t).unwrap();
    let mut app = App::from_parts(t, index, "demo.csv".to_string());
    app.handle_key(Key::Enter);
    // open the menu, pick the first column, choose Descend, confirm
    app.handle_key(Key::Char('s'));
    assert!(app.sort_menu.is_some());
    app.handle_key(Key::Char(' '));
    app.handle_key(Key::Tab);
    app.handle_key(Key::Char('j'));
    app.handle_key(Key::Char(' '));
    app.handle_key(Key::Enter);
    assert!(app.sort_menu.is_none());
    assert_eq!(app.current_sort.0, "v");
    assert_eq!(app.current_sort.1, SortOrder::Descend);
    assert_eq!(app.index.clusters[0].rows_idx, vec![1, 2, 0]);
    // applying a sort drops the cached rows and the table position
    assert!(app.cached_cluster_id.is_none());
    assert_eq!(app.table_page, 0);
}

#[test]
fn escape_discards_the_sort_menu_without_sorting() {
    let mut app = demo_app();
    app.handle_key(Key::Enter);
    let before: Vec<usize> = app.index.clusters[0].rows_idx.clone();
    app.handle_key(Key::Char('s'));
    app.handle_key(Key::Esc);
    assert!(app.sort_menu.is_none());
    assert_eq!(app.index.clusters[0].rows_idx, before);
}

#[test]
fn delivered_counts_replace_the_displayed_counts() {
    let mut app = demo_app();
    app.handle_key(Key::Char('/'));
    for c in "status=404".chars() {
        app.handle_key(Key::Char(c));
    }
    app.handle_key(Key::Enter);
    // the worker's answer becomes the displayed per-cluster counts,
    // zero-count clusters hidden
    app.apply_filter_result(FilterResult::Both(vec![(0, 1), (1, 2), (2, 0)], vec![0]));
    let list = app.filtered_clusters();
    assert_eq!(list, vec![(0, 1), (1, 2)]);
    // and they stay until the next commit
    let again = app.filtered_clusters();
    assert_eq!(again, vec![(0, 1), (1, 2)]);
}

#[test]
fn a_delivery_naming_an_unknown_cluster_is_dropped() {
    let mut app = demo_app();
    app.handle_key(Key::Char('/'));
    app.handle_key(Key::Char('x'));
    app.handle_key(Key::Enter);
    app.apply_filter_result(FilterResult::Both(vec![(0, 1), (99, 5)], vec![]));
    assert!(app.authoritative_counts.is_none());
    // the loading window is dismissed regardless
    assert!(app.loading_float.is_none());
}

#[test]
fn sorting_by_an_unknown_column_changes_nothing() {
    let mut app = demo_app();
    app.handle_key(Key::Enter);
    app.apply_filter_result(FilterResult::ClusterRows(vec![0, 1]));
    app.table_scroll = 1;
    let rows_before = app.cached_filtered_rows.clone();
    let idx_before: Vec<Vec<usize>> =
        app.index.clusters.iter().map(|c| c.rows_idx.clone()).collect();
    app.apply_sort("nosuch", SortOrder::Descend);
    assert_eq!(app.cached_filtered_rows, rows_before);
    assert_eq!(app.table_scroll, 1);
    assert_eq!(app.cached_cluster_id, Some(0));
    let idx_after: Vec<Vec<usize>> =
        app.index.clusters.iter().map(|c| c.rows_idx.clone()).collect();
    assert_eq!(idx_after, idx_before);
}
