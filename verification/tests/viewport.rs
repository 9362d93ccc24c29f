use lifeboard::board::LiveSet;
use lifeboard::viewport::{visible_size, Viewport};

fn inside(v: &Viewport, w: i32, h: i32) -> bool {
    v.start_x <= v.edit_x && v.edit_x < v.start_x + w && v.start_y <= v.edit_y
        && v.edit_y < v.start_y + h
}

#[test]
fn new_viewport_starts_at_the_origin_in_edit_mode() {
    let v = Viewport::new();
    assert_eq!((v.start_x, v.start_y, v.edit_x, v.edit_y), (0, 0, 0, 0));
    assert!(v.edit_mode);
    assert!(!v.do_center);
    assert!(!v.do_search);
    assert_eq!(v.queue_len(), 0);
}

#[test]
fn visible_size_halves_columns_and_keeps_a_status_row() {
    assert_eq!(visible_size(80, 25), (40, 24));
    assert_eq!(visible_size(81, 25), (41, 24));
    assert_eq!(visible_size(1, 1), (1, 0));
    assert_eq!(visible_size(0, 0), (0, 0));
    assert_eq!(visible_size(u16::MAX, u16::MAX), (32768, 65534));
}

#[test]
fn move_cursor_in_edit_mode_moves_the_cursor() {
    let mut v = Viewport::new();
    v.move_cursor(1, 0);
    v.move_cursor(0, -1);
    assert_eq!((v.edit_x, v.edit_y), (1, -1));
    assert_eq!((v.start_x, v.start_y), (0, 0));
}

#[test]
fn move_cursor_in_play_mode_moves_the_camera() {
    let mut v = Viewport::new();
    v.move_cursor(3, 3);
    v.toggle_mode();
    v.move_cursor(-1, 0);
    assert_eq!((v.start_x, v.start_y), (-1, 0));
    assert_eq!((v.edit_x, v.edit_y), (-1, 0));
    v.move_cursor(0, 1);
    assert_eq!((v.start_x, v.start_y), (-1, 1));
    assert_eq!((v.edit_x, v.edit_y), (-1, 1));
}

#[test]
fn toggle_mode_changes_only_the_mode() {
    let mut v = Viewport::new();
    v.move_cursor(1, 1);
    v.start_x = -7;
    v.toggle_mode();
    assert!(!v.edit_mode);
    assert_eq!((v.start_x, v.start_y, v.edit_x, v.edit_y), (-7, 0, 1, 1));
    v.toggle_mode();
    assert!(v.edit_mode);
    assert_eq!((v.start_x, v.start_y, v.edit_x, v.edit_y), (-7, 0, 1, 1));
}

#[test]
fn recentre_uses_floor_division() {
    let mut v = Viewport::new();
    v.edit_x = 10;
    v.edit_y = -3;
    v.recentre(7, 4);
    assert_eq!((v.start_x, v.start_y), (7, -5));
    assert_eq!((v.edit_x, v.edit_y), (10, -3));
    v.recentre(1, 1);
    assert_eq!((v.start_x, v.start_y), (10, -3));
}

#[test]
fn auto_clamp_moves_the_origin_to_the_violated_edge() {
    let mut v = Viewport::new();
    v.edit_x = -1;
    v.auto_clamp(10, 5);
    assert_eq!((v.start_x, v.start_y), (-1, 0));
    v.edit_x = 9;
    v.edit_y = 5;
    v.auto_clamp(10, 5);
    assert_eq!((v.start_x, v.start_y), (0, 1));
    v.edit_y = 0;
    v.auto_clamp(10, 5);
    assert_eq!((v.start_x, v.start_y), (0, 0));
    v.edit_x = 4;
    v.edit_y = 2;
    v.auto_clamp(10, 5);
    assert_eq!((v.start_x, v.start_y), (0, 0));
}

#[test]
fn auto_clamp_keeps_the_cursor_visible_after_every_single_move() {
    for &(ox, oy) in &[(0, 0), (-5, 7), (1000, -1000), (i32::MAX - 20, i32::MIN + 20)] {
        for &(cx, cy) in &[(0, 0), (2, 1), (1, 0), (0, 1)] {
            for &(dx, dy) in &[(-1, 0), (1, 0), (0, -1), (0, 1)] {
                let mut v = Viewport::new();
                v.start_x = ox;
                v.start_y = oy;
                v.edit_x = ox + cx;
                v.edit_y = oy + cy;
                v.move_cursor(dx, dy);
                v.auto_clamp(3, 2);
                assert!(inside(&v, 3, 2));
            }
        }
    }
}

#[test]
fn auto_clamp_at_the_far_corner_of_the_plane() {
    let mut v = Viewport::new();
    v.start_x = i32::MAX;
    v.start_y = i32::MAX;
    v.edit_x = i32::MIN;
    v.edit_y = i32::MIN;
    v.auto_clamp(4, 4);
    assert_eq!((v.start_x, v.start_y), (i32::MIN, i32::MIN));
    v.edit_x = i32::MAX;
    v.edit_y = i32::MAX;
    v.auto_clamp(4, 4);
    assert_eq!((v.start_x, v.start_y), (i32::MAX - 3, i32::MAX - 3));
}

#[test]
fn request_center_in_edit_mode_moves_the_cursor() {
    let mut v = Viewport::new();
    v.request_center(4, 5);
    assert!(v.do_center);
    assert_eq!((v.edit_x, v.edit_y), (4, 5));
    assert_eq!((v.start_x, v.start_y), (0, 0));
}

#[test]
fn request_center_in_play_mode_keeps_the_cursor_on_the_origin() {
    let mut v = Viewport::new();
    v.toggle_mode();
    v.move_cursor(2, 2);
    v.request_center(40, 50);
    assert!(v.do_center);
    assert_eq!((v.edit_x, v.edit_y), (2, 2));
}

#[test]
fn search_on_an_empty_board_changes_nothing() {
    let mut v = Viewport::new();
    v.move_cursor(1, 1);
    v.advance_search(&LiveSet::new(), 10, 5);
    assert_eq!((v.start_x, v.start_y, v.edit_x, v.edit_y), (0, 0, 1, 1));
    assert_eq!(v.queue_len(), 0);
}

#[test]
fn search_visits_cells_by_row_then_column() {
    let live = LiveSet::from_cells(&vec![(100, 0), (0, 100), (-100, 0), (0, -100)]);
    let mut v = Viewport::new();
    let mut seen = vec![];
    for _ in 0..4 {
        v.advance_search(&live, 10, 5);
        seen.push((v.edit_x, v.edit_y));
        assert_eq!((v.start_x, v.start_y), (v.edit_x - 5, v.edit_y - 2));
    }
    assert_eq!(seen, vec![(0, -100), (-100, 0), (100, 0), (0, 100)]);
    assert_eq!(v.queue_len(), 0);
    v.advance_search(&live, 10, 5);
    assert_eq!((v.edit_x, v.edit_y), (0, -100));
    assert_eq!(v.search, vec![(-100, 0), (100, 0), (0, 100)]);
}

#[test]
fn search_visits_each_far_cell_once_before_it_starts_again() {
    let cells: Vec<(i32, i32)> = (0..6).map(|k| (k * 50, 200 - k * 30)).collect();
    let live = LiveSet::from_cells(&cells);
    let mut v = Viewport::new();
    let mut seen: Vec<(i32, i32)> = vec![];
    for _ in 0..6 {
        v.advance_search(&live, 8, 6);
        let at = (v.edit_x, v.edit_y);
        assert!(live.is_live(at.0, at.1));
        assert!(!seen.contains(&at));
        seen.push(at);
    }
    assert_eq!(v.queue_len(), 0);
    v.advance_search(&live, 8, 6);
    assert_eq!((v.edit_x, v.edit_y), seen[0]);
}

#[test]
fn search_drops_the_cells_that_come_into_view() {
    let live = LiveSet::from_cells(&vec![(50, 50), (51, 50), (50, 51), (300, 300), (54, 50)]);
    let mut v = Viewport::new();
    v.advance_search(&live, 8, 4);
    assert_eq!((v.edit_x, v.edit_y), (50, 50));
    assert_eq!((v.start_x, v.start_y), (46, 48));
    // (51, 50) and (50, 51) are on screen with (50, 50); (54, 50) is the
    // first column beyond the right edge.
    assert_eq!(v.search, vec![(54, 50), (300, 300)]);
    v.advance_search(&live, 8, 4);
    assert_eq!((v.edit_x, v.edit_y), (54, 50));
    assert_eq!(v.search, vec![(300, 300)]);
}

#[test]
fn reset_search_empties_the_queue() {
    let live = LiveSet::from_cells(&vec![(50, 50), (300, 300)]);
    let mut v = Viewport::new();
    v.advance_search(&live, 8, 4);
    assert_eq!(v.queue_len(), 1);
    v.reset_search();
    assert_eq!(v.queue_len(), 0);
    assert_eq!((v.edit_x, v.edit_y), (50, 50));
}

#[test]
fn settle_carries_out_a_pending_search_once() {
    let live = LiveSet::from_cells(&vec![(50, 50), (300, 300)]);
    let mut v = Viewport::new();
    v.request_search();
    assert!(v.do_search);
    v.settle(&live, 8, 4);
    assert!(!v.do_search);
    assert_eq!((v.edit_x, v.edit_y), (50, 50));
    assert_eq!((v.start_x, v.start_y), (46, 48));
    v.settle(&live, 8, 4);
    assert_eq!((v.edit_x, v.edit_y), (50, 50));
    assert_eq!(v.search, vec![(300, 300)]);
}

#[test]
fn settle_carries_out_a_pending_centring_once() {
    let live = LiveSet::new();
    let mut v = Viewport::new();
    v.request_center(20, 10);
    v.settle(&live, 9, 5);
    assert!(!v.do_center);
    assert_eq!((v.start_x, v.start_y), (16, 8));
    v.move_cursor(1, 0);
    v.settle(&live, 9, 5);
    assert_eq!((v.start_x, v.start_y), (16, 8));
}

#[test]
fn settle_clamps_when_nothing_is_pending() {
    let live = LiveSet::new();
    let mut v = Viewport::new();
    v.move_cursor(0, -1);
    v.settle(&live, 9, 5);
    assert_eq!((v.start_x, v.start_y), (0, -1));
    assert!(inside(&v, 9, 5));
}

#[test]
fn dismiss_requests_spends_the_flags_and_nothing_else() {
    let live = LiveSet::from_cells(&vec![(50, 50), (300, 300)]);
    let mut v = Viewport::new();
    v.advance_search(&live, 8, 4);
    v.request_search();
    v.request_center(7, 7);
    v.dismiss_requests();
    assert!(!v.do_search && !v.do_center && v.edit_mode);
    assert_eq!((v.start_x, v.start_y, v.edit_x, v.edit_y), (46, 48, 7, 7));
    assert_eq!(v.search, vec![(300, 300)]);
}

#[test]
fn search_many_makes_a_full_round_and_starts_again() {
    let cells = vec![(100, 0), (0, 100), (-100, 0), (0, -100), (200, 200)];
    let live = LiveSet::from_cells(&cells);
    let mut v = Viewport::new();
    let seen = v.search_many(&live, 10, 5, 5);
    assert_eq!(seen, live.live_cells());
    assert_eq!(seen, vec![(0, -100), (-100, 0), (100, 0), (0, 100), (200, 200)]);
    assert_eq!(v.queue_len(), 0);
    assert_eq!((v.edit_x, v.edit_y), (200, 200));
    assert_eq!((v.start_x, v.start_y), (195, 198));
    let again = v.search_many(&live, 10, 5, 2);
    assert_eq!(again, vec![(0, -100), (-100, 0)]);
    assert_eq!(v.search, vec![(100, 0), (0, 100), (200, 200)]);
}

#[test]
fn search_many_is_not_drained_before_the_last_cell() {
    let live = LiveSet::from_cells(&vec![(100, 0), (0, 100), (-100, 0)]);
    for n in 1..3 {
        let mut v = Viewport::new();
        let seen = v.search_many(&live, 10, 5, n);
        assert_eq!(seen.len(), n);
        assert_eq!(v.queue_len(), 3 - n);
    }
}

#[test]
fn search_many_revisits_where_cells_share_a_screen() {
    let live = LiveSet::from_cells(&vec![(50, 50), (51, 50)]);
    let mut v = Viewport::new();
    assert_eq!(v.search_many(&live, 8, 4, 2), vec![(50, 50), (50, 50)]);
}

#[test]
fn search_many_on_an_empty_board_goes_nowhere() {
    let mut v = Viewport::new();
    v.move_cursor(2, 3);
    assert_eq!(v.search_many(&LiveSet::new(), 8, 4, 3), vec![]);
    assert_eq!((v.start_x, v.start_y, v.edit_x, v.edit_y), (0, 0, 2, 3));
    let live = LiveSet::from_cells(&vec![(50, 50)]);
    assert_eq!(v.search_many(&live, 8, 4, 0), vec![]);
    assert_eq!((v.edit_x, v.edit_y), (2, 3));
}
