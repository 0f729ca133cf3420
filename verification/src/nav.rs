//! Page and view-port arithmetic for the table view: a fixed page size,
//! an in-page cursor, and a scroll offset that always keeps the selected
//! row inside the visible slice.

use vstd::prelude::*;

verus! {

/// Matched rows shown per table page.
pub const TABLE_PAGE_SIZE: usize = 50;

/// Number of pages for `total` rows: the ceiling of `total / page_size`,
/// and at least one.
pub open spec fn pages_of(total: int, page_size: int) -> int {
    if total == 0 {
        1
    } else {
        (total - 1) / page_size + 1
    }
}

/// Rows on page `page`: a full page, except that the last page holds the
/// remainder.
pub open spec fn page_len_of(total: int, page: int, page_size: int) -> int {
    if total - page * page_size < page_size {
        total - page * page_size
    } else {
        page_size
    }
}

/// The number of table pages: the ceiling of `total / TABLE_PAGE_SIZE`,
/// and at least one even for an empty result.
pub fn total_pages(total: usize) -> (r: usize)
    ensures
        r == pages_of(total as int, TABLE_PAGE_SIZE as int),
        r >= 1,
        total > 0 ==> (r - 1) * TABLE_PAGE_SIZE < total <= r * TABLE_PAGE_SIZE,
        total == 0 ==> r == 1,
{
    if total == 0 {
        1
    } else {
        let q = (total - 1) / TABLE_PAGE_SIZE;
        proof {
            assert(total - 1 == TABLE_PAGE_SIZE * ((total - 1) as int / TABLE_PAGE_SIZE as int) + (
            total - 1) as int % (TABLE_PAGE_SIZE as int));
            assert(0 <= (total - 1) as int % (TABLE_PAGE_SIZE as int) < TABLE_PAGE_SIZE as int);
        }
        q + 1
    }
}

/// Bring page, cursor and scroll offset back into range for the current
/// matched-row total and screen height, keeping the selected row inside
/// the visible slice. The selected absolute index is preserved when it is
/// still in range, only clamped to the last row otherwise; the window
/// moves only when the selection left it, and then only just far enough.
pub fn clamp_view(
    page: &mut usize,
    cursor: &mut usize,
    view_offset: &mut usize,
    total: usize,
    visible_rows: usize,
) -> (pages: usize)
    ensures
        pages == pages_of(total as int, TABLE_PAGE_SIZE as int),
        total == 0 ==> *final(page) == 0 && *final(cursor) == 0 && *final(view_offset) == 0,
        total > 0 ==> {
            let pl = page_len_of(total as int, *final(page) as int, TABLE_PAGE_SIZE as int);
            let vis = if visible_rows == 0 {
                1int
            } else {
                visible_rows as int
            };
            &&& *final(page) < pages
            &&& 1 <= pl <= TABLE_PAGE_SIZE
            &&& *final(cursor) < pl
            &&& *final(page) * TABLE_PAGE_SIZE + *final(cursor) < total
            &&& *final(view_offset) <= *final(cursor)
            &&& *final(cursor) < *final(view_offset) + vis
        },
        total > 0 ==> {
            // the selection is the old one, clamped to the rows that exist
            let abs0 = if *old(page) * TABLE_PAGE_SIZE + *old(cursor) < total {
                *old(page) * TABLE_PAGE_SIZE + *old(cursor)
            } else {
                total - 1
            };
            &&& *final(page) == abs0 / (TABLE_PAGE_SIZE as int)
            &&& *final(cursor) == abs0 % (TABLE_PAGE_SIZE as int)
            &&& *old(page) * TABLE_PAGE_SIZE + *old(cursor) < total ==> *final(page)
                * TABLE_PAGE_SIZE + *final(cursor) == *old(page) * TABLE_PAGE_SIZE + *old(cursor)
        },
        total > 0 ==> {
            // the window slides only when the selection left it
            let pl = page_len_of(total as int, *final(page) as int, TABLE_PAGE_SIZE as int);
            let vis = if visible_rows == 0 {
                1int
            } else {
                visible_rows as int
            };
            let base = if pl <= vis {
                0int
            } else if *old(view_offset) > pl - vis {
                pl - vis
            } else {
                *old(view_offset) as int
            };
            *final(view_offset) == if *final(cursor) < base {
                *final(cursor) as int
            } else if *final(cursor) >= base + vis {
                *final(cursor) + 1 - vis
            } else {
                base
            }
        },
{
    let pages = total_pages(total);
    if total == 0 {
        *page = 0;
        *cursor = 0;
        *view_offset = 0;
        return pages;
    }
    // absolute selected index, clamped to the rows that exist
    proof {
        assert((*page as u128) * (TABLE_PAGE_SIZE as u128) + (*cursor as u128) < u128::MAX) by (
        nonlinear_arith)
            requires
                *page as u128 <= 0xFFFF_FFFF_FFFF_FFFFu128,
                *cursor as u128 <= 0xFFFF_FFFF_FFFF_FFFFu128,
                TABLE_PAGE_SIZE as u128 == 50,
        ;
    }
    let abs128: u128 = (*page as u128) * (TABLE_PAGE_SIZE as u128) + (*cursor as u128);
    let abs: usize = if abs128 >= total as u128 {
        total - 1
    } else {
        abs128 as usize
    };
    let newpage: usize = abs / TABLE_PAGE_SIZE;
    proof {
        assert(abs as int == TABLE_PAGE_SIZE * (abs as int / TABLE_PAGE_SIZE as int) + abs as int
            % (TABLE_PAGE_SIZE as int));
        assert(0 <= abs as int % (TABLE_PAGE_SIZE as int) < TABLE_PAGE_SIZE as int);
        assert(newpage * TABLE_PAGE_SIZE <= abs);
        assert((pages - 1) * TABLE_PAGE_SIZE < total);
        assert(newpage < pages) by {
            if newpage >= pages {
                assert(newpage * TABLE_PAGE_SIZE >= pages * TABLE_PAGE_SIZE) by (nonlinear_arith)
                    requires
                        newpage >= pages,
                        TABLE_PAGE_SIZE > 0,
                ;
            }
        }
    }
    *page = newpage;
    let page_start: usize = newpage * TABLE_PAGE_SIZE;
    let page_len: usize = if total - page_start < TABLE_PAGE_SIZE {
        total - page_start
    } else {
        TABLE_PAGE_SIZE
    };
    let rel: usize = abs - page_start;
    *cursor = if rel < page_len {
        rel
    } else {
        page_len - 1
    };
    let visible: usize = if visible_rows == 0 {
        1
    } else {
        visible_rows
    };
    // fit the window into the page, then slide it to the selection
    if page_len <= visible {
        *view_offset = 0;
    } else if *view_offset > page_len - visible {
        *view_offset = page_len - visible;
    }
    if *cursor < *view_offset {
        *view_offset = *cursor;
    } else if *cursor >= *view_offset + visible {
        *view_offset = *cursor + 1 - visible;
    }
    pages
}

/// Move the selection one row down, staying on the current page.
pub fn nav_down(cursor: &mut usize, page_len: usize)
    ensures
        *final(cursor) == if *old(cursor) + 1 < page_len {
            *old(cursor) + 1
        } else {
            *old(cursor) as int
        },
{
    if page_len > 0 && *cursor < page_len - 1 {
        *cursor = *cursor + 1;
    }
}

/// Move the selection one row up.
pub fn nav_up(cursor: &mut usize)
    ensures
        *final(cursor) == if *old(cursor) > 0 {
            *old(cursor) - 1
        } else {
            0int
        },
{
    if *cursor > 0 {
        *cursor = *cursor - 1;
    }
}

/// Turn to the previous page; the cursor and the scroll offset restart at
/// the top.
pub fn nav_prev_page(page: &mut usize, cursor: &mut usize, view_offset: &mut usize)
    ensures
        *final(page) == if *old(page) > 0 {
            *old(page) - 1
        } else {
            0int
        },
        *final(cursor) == 0,
        *final(view_offset) == 0,
{
    if *page > 0 {
        *page = *page - 1;
    }
    *cursor = 0;
    *view_offset = 0;
}

/// Turn to the next page; the cursor and the scroll offset restart at the
/// top. The page index is clamped back on the next render.
pub fn nav_next_page(page: &mut usize, cursor: &mut usize, view_offset: &mut usize)
    ensures
        *final(page) == if *old(page) < usize::MAX {
            *old(page) + 1
        } else {
            usize::MAX as int
        },
        *final(cursor) == 0,
        *final(view_offset) == 0,
{
    if *page < usize::MAX {
        *page = *page + 1;
    }
    *cursor = 0;
    *view_offset = 0;
}

} // verus!
