use yutani::animation::{
    cursor_blink_enabled, finish_alt_scroll, is_alt_scroll_animating, is_cursor_animating,
    maybe_start_alt_scroll, update_alt_scroll, AltScroll, AltStart, Blink, BLINK_INTERVAL,
};
use yutani::completions::{Completions, Refresh};
use yutani::history::{dedup_prepend, COMMAND_HISTORY_CAP};
use yutani::palette::Rgb;
use yutani::perf::{PerfLog, PERF_FLUSH_IDLE};
use yutani::selection::{
    classify_corner_with_neighbor, is_blank_cell, CornerType, HorizSide, Selection,
};
use yutani::window::{
    draw_text_run, effective_title, emit_text_run, fg_is_foreign_command, format_hex_rgb, get_viewport_size,
    grid_buffer_byte_sizes, hidden, invalidate_row_cache, notify_pty_size, paste_bytes,
    push_quad_indices, resize, tab_index_for_digit, title_for_cwd, titlebar_double_click_action,
    Flush, Ids, PtySize, Redraw, TitlebarDoubleClickAction, ViewportSize,
};

#[test]
fn buffers_have_room_for_the_widest_band() {
    let quads = |cols: usize, rows: usize, inset: usize| 2 * cols * (rows + 36 + inset) + 10;
    for (cols, rows, inset) in [(80, 24, 0), (80, 24, 3), (0, 24, 5), (1, 1, 1)] {
        let (v, i) = grid_buffer_byte_sizes(cols, rows, inset);
        assert_eq!(v, quads(cols, rows, inset) * 288);
        assert_eq!(i, quads(cols, rows, inset) * 24);
    }
}

#[test]
fn grid_never_gets_too_small() {
    assert_eq!(
        get_viewport_size(805, 485, 8, 16),
        ViewportSize { char_width: 100, char_height: 30 }
    );
    assert_eq!(get_viewport_size(0, 0, 8, 16), ViewportSize { char_width: 1, char_height: 4 });
    assert_eq!(get_viewport_size(8, 63, 8, 16), ViewportSize { char_width: 1, char_height: 4 });
}

#[test]
fn pty_is_told_the_pixels() {
    assert_eq!(
        notify_pty_size(80, 24, 8, 16),
        PtySize { rows: 24, cols: 80, xpixel: 640, ypixel: 384 }
    );
    assert_eq!(notify_pty_size(80, 24, u32::MAX, 0).xpixel, 65535);
    assert_eq!(notify_pty_size(65_537, 24, 1, 1).cols, 1);
}

#[test]
fn programs_are_told_only_of_a_new_grid() {
    let grid = ViewportSize { char_width: 80, char_height: 24 };
    let plan = resize(800, 600, grid, 80, 24);
    assert!(plan.reconfigure && !plan.notify);
    assert!(resize(800, 600, grid, 81, 24).notify);
    assert!(!resize(0, 600, grid, 80, 24).reconfigure);
}

#[test]
fn content_change_outranks_a_scroll() {
    let mut r = Redraw::new();
    assert_eq!(r.flush_vertices(), Flush::Rebuild);
    assert_eq!(r.flush_vertices(), Flush::Keep);
    r.invalidate_scroll(false);
    assert_eq!(r.flush_vertices(), Flush::Slide);
    r.invalidate_scroll(true);
    assert_eq!(r.flush_vertices(), Flush::Rebuild);
    r.invalidate_scroll(false);
    assert!(r.invalidate());
    assert_eq!(r.flush_vertices(), Flush::Rebuild);
    assert_eq!(r.flush_vertices(), Flush::Keep);
}

#[test]
fn deferred_frame_asks_for_no_redraw() {
    let mut r = Redraw { render_pending: true, ..Redraw::new() };
    assert!(!r.invalidate());
    assert!(!r.render_now(false));
    assert!(r.render_pending);
    assert!(r.render_now(true));
    assert!(!r.render_pending);
}

#[test]
fn focused_window_is_never_hidden() {
    assert!(hidden(true, false));
    assert!(!hidden(true, true));
    assert!(!hidden(false, false));
}

#[test]
fn digits_pick_tabs() {
    assert_eq!(tab_index_for_digit('1', 3), Some(0));
    assert_eq!(tab_index_for_digit('3', 3), Some(2));
    assert_eq!(tab_index_for_digit('4', 3), None);
    assert_eq!(tab_index_for_digit('9', 3), Some(2));
    assert_eq!(tab_index_for_digit('9', 12), Some(11));
}

#[test]
fn ids_count_up() {
    let mut ids = Ids { next: 0 };
    assert_eq!(ids.next_tab_id(), 0);
    assert_eq!(ids.next_tab_id(), 1);
    assert_eq!(ids.next_tab_group_id(), "yutani-tabgroup-2");
    ids.next = u64::MAX;
    assert_eq!(ids.next_tab_id(), u64::MAX);
    assert_eq!(ids.next_tab_id(), 0);
    assert_eq!(invalidate_row_cache(u64::MAX), 0);
    assert_eq!(invalidate_row_cache(4), 5);
}

#[test]
fn only_a_foreign_group_is_a_command() {
    assert!(fg_is_foreign_command(7, 5));
    assert!(!fg_is_foreign_command(5, 5));
    assert!(!fg_is_foreign_command(0, 5));
    assert!(!fg_is_foreign_command(-1, 5));
}

#[test]
fn home_is_a_tilde() {
    assert_eq!(title_for_cwd("/home/me", Some("/home/me")), "~");
    assert_eq!(title_for_cwd("/home/me/src", Some("/home/me")), "~/src");
    assert_eq!(title_for_cwd("/home/mean", Some("/home/me")), "/home/mean");
    assert_eq!(title_for_cwd("/tmp", None), "/tmp");
    assert_eq!(title_for_cwd("", Some("/home/me")), "Yutani");
    assert_eq!(title_for_cwd("/", Some("/home/me")), "Yutani");
    assert_eq!(title_for_cwd("/", None), "Yutani");
    assert_eq!(effective_title(Some("vim"), Some("/tmp"), None), "vim");
    assert_eq!(effective_title(None, Some("/tmp"), None), "/tmp");
    assert_eq!(effective_title(None, None, None), "Yutani");
}

#[test]
fn title_bar_follows_the_setting() {
    assert_eq!(titlebar_double_click_action(Some("Minimize")), TitlebarDoubleClickAction::Minimize);
    assert_eq!(titlebar_double_click_action(Some("None")), TitlebarDoubleClickAction::Nothing);
    assert_eq!(titlebar_double_click_action(Some("Maximize")), TitlebarDoubleClickAction::Zoom);
    assert_eq!(titlebar_double_click_action(None), TitlebarDoubleClickAction::Zoom);
}

#[test]
fn colours_are_written_as_hex() {
    assert_eq!(format_hex_rgb(Rgb { r: 0x0a, g: 0xff, b: 0x90 }), "0x0aff90");
}

#[test]
fn paste_is_bracketed_on_request() {
    assert_eq!(paste_bytes("é", true), "\x1b[200~é\x1b[201~".as_bytes());
    assert_eq!(paste_bytes("é", false), "é".as_bytes());
}

#[test]
fn text_runs_skip_spaces_and_what_does_not_fit() {
    let cut = emit_text_run("a bc", 3);
    assert_eq!((cut.glyphs, cut.cells), (vec![(0, 'a'), (2, 'b')], 3));
    let whole = emit_text_run("a bc", 9);
    assert_eq!((whole.glyphs.clone(), whole.cells), (vec![(0, 'a'), (2, 'b'), (3, 'c')], 4));
    let mut drawn_indices = vec![7];
    let drawn =
        draw_text_run(&whole.glyphs, &vec![(3, 4), (5, 0), (1, 1)], 10, &mut drawn_indices);
    assert_eq!(drawn, vec![(0, 'a'), (3, 'c')]);
    assert_eq!(
        drawn_indices,
        vec![7, 10, 11, 12, 11, 12, 13, 14, 15, 16, 15, 16, 17]
    );
    let mut indices = vec![9];
    push_quad_indices(&mut indices, 4);
    assert_eq!(indices, vec![9, 4, 5, 6, 5, 6, 7]);
}

#[test]
fn cursor_blinks_by_half_cycles() {
    let mut blink = Blink::new(0);
    assert!(cursor_blink_enabled(true, true) && !cursor_blink_enabled(false, true));
    assert!(!blink.maybe_blink_tick(true, true, BLINK_INTERVAL - 1));
    assert_eq!(blink.next_blink_wake(true, true), Some(BLINK_INTERVAL as u128));
    assert!(blink.maybe_blink_tick(true, true, BLINK_INTERVAL));
    assert!(!blink.currently_visible(true, true));
    assert!(blink.currently_visible(false, true), "a steady cursor shows");
    assert!(!blink.maybe_blink_tick(false, true, 9 * BLINK_INTERVAL));
    assert!(!blink.maybe_blink_tick(true, false, 9 * BLINK_INTERVAL));
    assert_eq!(blink.next_blink_wake(true, false), None);
    blink.reset_blink(7);
    assert_eq!(blink, Blink { on: true, last: 7 });
    assert!(is_cursor_animating(true, 0) && is_cursor_animating(false, 1));
    assert!(!is_cursor_animating(false, 0));
}

#[test]
fn slide_starts_only_at_the_top() {
    let scroll = AltScroll { up: true, rows: 2, region_top: 0, region_bottom: 20 };
    let mut slide = None;
    assert_eq!(maybe_start_alt_scroll(&mut slide, false, Some(scroll), 1), AltStart::Ignored);
    assert_eq!(maybe_start_alt_scroll(&mut slide, true, None, 1), AltStart::Ignored);
    let low = AltScroll { region_top: 3, ..scroll };
    assert_eq!(maybe_start_alt_scroll(&mut slide, true, Some(low), 1), AltStart::Snapped);
    assert!(!is_alt_scroll_animating(&slide));
    assert!(matches!(
        maybe_start_alt_scroll(&mut slide, true, Some(scroll), 1),
        AltStart::Started(_)
    ));
    assert!(!update_alt_scroll(&mut slide, true, false));
    assert!(is_alt_scroll_animating(&slide));
    assert!(update_alt_scroll(&mut slide, false, false));
    assert!(!finish_alt_scroll(&mut slide));
}

#[test]
fn popup_is_refreshed_only_for_a_new_line() {
    let line = || Some(("ls ".to_string(), 3));
    let mut popup = Completions::new();
    assert_eq!(popup.recompute_completions(None, true), Refresh::Unchanged);
    assert_eq!(popup.recompute_completions(line(), true), Refresh::Query);
    popup.fill(vec!["src/".to_string()]);
    assert_eq!(popup.recompute_completions(line(), true), Refresh::Unchanged);
    assert_eq!(popup.suggestions.len(), 1);
    assert_eq!(popup.recompute_completions(Some(("ls".into(), 2)), false), Refresh::Emptied);
    assert!(popup.suggestions.is_empty());
}

#[test]
fn accepting_closes_the_popup_unless_it_goes_on() {
    let mut popup = Completions::new();
    assert_eq!(popup.accept_selected_completion(true, None, false, true), None);
    popup.recompute_completions(Some(("ls s".into(), 4)), true);
    popup.fill(vec!["src/".to_string()]);
    let written = popup.accept_selected_completion(true, Some(b"rc/".to_vec()), true, false);
    assert_eq!(written, Some(b"rc/".to_vec()));
    assert_eq!(popup.suggestions.len(), 1);
    assert!(popup.input.is_none() && !popup.dismissed);
    let written = popup.accept_selected_completion(true, None, true, true);
    assert_eq!(written, Some(b"\r".to_vec()));
    assert!(popup.suggestions.is_empty() && popup.dismissed);
    assert_eq!(popup.recompute_completions(Some(("x".into(), 1)), true), Refresh::Emptied);
    assert_eq!(popup.trigger_completion(Some(("x".into(), 1)), false), None);
    assert_eq!(popup.trigger_completion(Some(("x".into(), 1)), true), Some(true));
    assert!(!popup.dismissed);
    assert_eq!(popup.trigger_completion(None, true), Some(false));
}

#[test]
fn accepting_without_a_line_writes_nothing() {
    let mut popup = Completions::new();
    popup.fill(vec!["a".to_string()]);
    let written = popup.accept_selected_completion(false, Some(vec![1]), false, true);
    assert_eq!(written, Some(Vec::new()));
}

#[test]
fn history_keeps_the_newest_first() {
    let mut history: Vec<String> = ["b", "a"].map(String::from).to_vec();
    dedup_prepend(&mut history, "a".into());
    assert_eq!(history, vec!["a", "b"]);
    dedup_prepend(&mut history, "c".into());
    assert_eq!(history, vec!["c", "a", "b"]);
}

#[test]
fn history_is_capped() {
    let mut history: Vec<String> = (0..COMMAND_HISTORY_CAP).map(|i| i.to_string()).collect();
    dedup_prepend(&mut history, "new".into());
    assert_eq!(history.len(), COMMAND_HISTORY_CAP);
    assert_eq!((history[0].as_str(), history[1].as_str()), ("new", "0"));
}

#[test]
fn selection_reads_forward() {
    let s = Selection { anchor: (3, 1), head: (2, 9) };
    assert_eq!(s.range(), ((2, 9), (3, 1)));
    let s = Selection { anchor: (2, 1), head: (2, 9) };
    assert_eq!(s.range(), ((2, 1), (2, 9)));
    assert!(is_blank_cell(' ') && is_blank_cell('\0') && !is_blank_cell('x'));
}

#[test]
fn corners_follow_the_neighbor() {
    let corner = classify_corner_with_neighbor;
    assert_eq!(corner(5, None, HorizSide::Left), CornerType::Convex);
    assert_eq!(corner(5, Some((5, 9)), HorizSide::Left), CornerType::Straight);
    assert_eq!(corner(5, Some((2, 9)), HorizSide::Left), CornerType::Concave);
    assert_eq!(corner(5, Some((6, 9)), HorizSide::Left), CornerType::Convex);
    assert_eq!(corner(5, Some((0, 5)), HorizSide::Right), CornerType::Straight);
    assert_eq!(corner(5, Some((0, 6)), HorizSide::Right), CornerType::Concave);
    assert_eq!(corner(5, Some((0, 4)), HorizSide::Right), CornerType::Convex);
}

#[test]
fn bursts_are_summed_up_and_reported() {
    let mut log = PerfLog::new(Some("1"), 0);
    assert_eq!(log.next_wake(), None);
    assert!(log.fits(10));
    log.note_pty(10, 100, 5);
    log.note_update(30, 6);
    log.note_update_phases(10, 20);
    log.note_render(50, 7, true, 8);
    log.note_render(60, 7, false, 9);
    assert_eq!(log.next_wake(), Some((9 + PERF_FLUSH_IDLE) as u128));
    assert!(log.maybe_flush(10).is_none());
    let r = log.maybe_flush(9 + PERF_FLUSH_IDLE).expect("quiet for long enough");
    assert_eq!(r.total_ns, 4 + PERF_FLUSH_IDLE);
    assert_eq!(r.accounted_ns, 240);
    assert_eq!((r.sums.pty_chunks, r.sums.pty_bytes), (1, 10));
    assert_eq!((r.sums.fast_calls, r.sums.fast_ns), (1, 50));
    assert_eq!((r.sums.slow_calls, r.sums.slow_ns), (1, 60));
    assert_eq!((r.sums.up_shape_ns, r.sums.up_body_ns), (10, 20));
    assert_eq!(r.sums.surface_wait_ns, 14);
    assert_eq!(log.next_wake(), None);
}

#[test]
fn log_is_off_unless_asked_for() {
    for setting in [None, Some(""), Some("0"), Some("2"), Some("true"), Some("11")] {
        let mut log = PerfLog::new(setting, 0);
        assert!(!log.enabled);
        log.note_pty(1, 1, 1);
        assert!(log.maybe_flush(u64::MAX).is_none());
    }
}
