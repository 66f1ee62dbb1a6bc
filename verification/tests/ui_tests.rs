use mixed::ui::{
    center_pad, format_time, library_header, library_row_icon, library_row_prefix, list_scroll, logo_padding, lyric_row,
    panel_hint, search_row_icon, song_beside_logo, visible_rows, ActivePanel,
};

#[test]
fn library_rows_are_drawn_as_a_tree() {
    assert_eq!(library_row_prefix(true, &vec![false, true], false), "  * │       ├── ");
    assert_eq!(library_row_prefix(false, &vec![], true), "    └── ");
    assert_eq!(library_row_icon(true, true), "▶ 📁 ");
    assert_eq!(library_row_icon(true, false), "▼ 📁 ");
    assert_eq!(library_row_icon(false, true), "♪  ");
    assert_eq!(library_header(true), "*- MUSIC LIBRARY -");
    assert_eq!(library_header(false), "  - MUSIC LIBRARY -");
    assert_eq!(search_row_icon(true), "📁 ");
    assert_eq!(panel_hint(ActivePanel::NowPlaying), "Lyrics Mode: m  •  Visualizer Mode: v");
}

#[test]
fn lists_scroll_to_keep_the_cursor_visible() {
    assert_eq!(list_scroll(3, 10, 50), 0);
    assert_eq!(list_scroll(10, 10, 50), 1);
    assert_eq!(list_scroll(60, 10, 50), 49);
    assert_eq!(list_scroll(5, 0, 50), 0);
    assert_eq!(visible_rows(12, 10, 50), (3, 13));
    assert_eq!(visible_rows(0, 10, 4), (0, 4));
}

#[test]
fn text_layout() {
    assert_eq!(format_time(0), "0:00");
    assert_eq!(format_time(61_500), "1:01");
    assert_eq!(format_time(3_600_000), "60:00");
    assert_eq!(center_pad("ab", 6), "  ab  ");
    assert_eq!(center_pad("abc", 6), " abc  ");
    assert_eq!(center_pad("abcdefg", 3), "abcdefg");
    assert_eq!(lyric_row("  hi  ", true, 8), "  ♪ hi  ");
    assert_eq!(lyric_row(" hi ", false, 4), " hi ");
    assert_eq!(logo_padding(100), 30);
    assert_eq!(logo_padding(30), 0);
    assert_eq!(song_beside_logo(100, "Song"), Some("▶ Song".to_string()));
    assert_eq!(song_beside_logo(90, "A very long song name indeed"), Some("▶ A very long song ...".to_string()));
    assert_eq!(song_beside_logo(40, "x"), None);
}

#[test]
fn art_pane_widths() {
    assert_eq!(mixed::ui::art_pane_width(64), 0);
    assert_eq!(mixed::ui::art_pane_width(65), 22);
    assert_eq!(mixed::ui::art_pane_width(100), 35);
    assert_eq!(mixed::ui::art_pane_width(150), 50);
    assert_eq!(mixed::ui::art_pane_width(2000), 50);
    assert_eq!(mixed::ui::art_pane_width(u16::MAX), 50);
}
