use cluster_tui::nav::{clamp_view, nav_down, nav_next_page, nav_prev_page, nav_up, total_pages, TABLE_PAGE_SIZE};

#[test]
fn page_count_is_the_ceiling_with_a_floor_of_one() {
    assert_eq!(total_pages(0), 1);
    assert_eq!(total_pages(1), 1);
    assert_eq!(total_pages(50), 1);
    assert_eq!(total_pages(51), 2);
    assert_eq!(total_pages(100), 2);
    assert_eq!(total_pages(101), 3);
}

#[test]
fn selection_stays_within_the_total_after_any_key_sequence() {
    let total: usize = 123;
    let mut page: usize = 0;
    let mut cursor: usize = 0;
    let mut view: usize = 0;
    // a mixed walk: pages forward past the end, rows up and down
    let moves = ["right", "right", "right", "right", "down", "down", "left", "up", "right", "down"];
    for m in moves.iter() {
        match *m {
            "down" => {
                let pages = clamp_view(&mut page, &mut cursor, &mut view, total, 10);
                assert!(pages >= 1);
                let page_start = page * TABLE_PAGE_SIZE;
                let rem = total - page_start;
                let page_len = if rem < TABLE_PAGE_SIZE { rem } else { TABLE_PAGE_SIZE };
                nav_down(&mut cursor, page_len);
            }
            "up" => nav_up(&mut cursor),
            "left" => nav_prev_page(&mut page, &mut cursor, &mut view),
            _ => nav_next_page(&mut page, &mut cursor, &mut view),
        }
        clamp_view(&mut page, &mut cursor, &mut view, total, 10);
        let abs = page * TABLE_PAGE_SIZE + cursor;
        assert!(abs < total, "selection {} escaped [0, {})", abs, total);
        assert!(view <= cursor && cursor < view + 10, "selection left the visible window");
    }
}

#[test]
fn empty_result_clamps_everything_to_zero() {
    let mut page: usize = 7;
    let mut cursor: usize = 3;
    let mut view: usize = 2;
    let pages = clamp_view(&mut page, &mut cursor, &mut view, 0, 10);
    assert_eq!(pages, 1);
    assert_eq!((page, cursor, view), (0, 0, 0));
}

#[test]
fn scroll_follows_the_selection_minimally() {
    // selection far below the window: the window slides down just enough
    let mut page: usize = 0;
    let mut cursor: usize = 30;
    let mut view: usize = 0;
    clamp_view(&mut page, &mut cursor, &mut view, 50, 10);
    assert_eq!(view, 21);
    // selection above the window: the window snaps to it
    cursor = 5;
    clamp_view(&mut page, &mut cursor, &mut view, 50, 10);
    assert_eq!(view, 5);
}
