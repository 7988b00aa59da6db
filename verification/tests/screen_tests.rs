use rustmux::screen::Screen;
use rustmux::parser::Parser;

fn lines(screen: &Screen) -> Vec<String> {
    (0..screen.dimensions().0)
        .map(|row| {
            screen
                .row(row)
                .unwrap()
                .iter()
                .map(|cell| cell.character)
                .collect()
        })
        .collect()
}

#[test]
fn controls_move_without_erasing_and_lf_preserves_column() {
    let mut screen = Screen::new(3, 5).unwrap();
    screen.write_ascii(b"abc\x08X\nY\rZ").unwrap();
    assert_eq!(lines(&screen), ["abX  ", "Z  Y ", "     "]);
    assert_eq!(screen.cursor(), (1, 1));
    screen.write_ascii(b"\r\x08\x08Q").unwrap();
    assert_eq!(lines(&screen)[1], "Q  Y ");
    assert_eq!(screen.cursor(), (1, 1));
}

#[test]
fn last_column_wraps_only_when_next_character_arrives() {
    let mut screen = Screen::new(2, 3).unwrap();
    screen.write_ascii(b"abcdef").unwrap();
    assert_eq!(lines(&screen), ["abc", "def"]);
    assert_eq!(screen.cursor(), (1, 2));
    assert!(screen.wrap_pending());
    screen.write_ascii(b"g").unwrap();
    assert_eq!(lines(&screen), ["def", "g  "]);
    assert_eq!(screen.cursor(), (1, 1));
    assert!(!screen.wrap_pending());
}

#[test]
fn controls_cancel_pending_wrap() {
    for (control, expected, cursor) in [
        (b'\r', vec!["Xbc", "   "], (0, 1)),
        (8, vec!["aXc", "   "], (0, 2)),
        (b'\n', vec!["abc", "  X"], (1, 2)),
    ] {
        let mut screen = Screen::new(2, 3).unwrap();
        screen.write_ascii(b"abc").unwrap();
        screen.write_ascii(&[control, b'X']).unwrap();
        assert_eq!(lines(&screen), expected);
        assert_eq!(screen.cursor(), cursor);
    }
}

#[test]
fn scrolls_one_line_and_handles_a_single_cell_screen() {
    let mut screen = Screen::new(2, 4).unwrap();
    screen.write_ascii(b"one\r\ntwo\r\n").unwrap();
    assert_eq!(lines(&screen), ["two ", "    "]);
    assert_eq!(screen.cursor(), (1, 0));
    let mut screen = Screen::new(1, 1).unwrap();
    screen.write_ascii(b"ab").unwrap();
    assert_eq!(lines(&screen), ["b"]);
    screen.write_ascii(b"\n").unwrap();
    assert_eq!(lines(&screen), [" "]);
    assert_eq!(screen.cursor(), (0, 0));
    assert!(!screen.wrap_pending());
}

#[test]
fn chunk_boundaries_do_not_change_screen_state() {
    let input = b"abcdefg\r\nhi\x08J\nklmnop";
    let mut expected = Screen::new(3, 4).unwrap();
    expected.write_ascii(input).unwrap();
    for split in 0..=input.len() {
        let mut screen = Screen::new(3, 4).unwrap();
        screen.write_ascii(&input[..split]).unwrap();
        screen.write_ascii(&input[split..]).unwrap();
        assert_eq!(screen, expected);
    }
}

#[test]
fn invalid_input_and_dimensions_are_rejected() {
    for dimensions in [(0, 3), (3, 0), (usize::MAX, 2)] {
        assert!(Screen::new(dimensions.0, dimensions.1).is_err());
    }
    let mut screen = Screen::new(2, 3).unwrap();
    assert_eq!(lines(&screen), ["   ", "   "]);
    assert!(screen.row(2).is_none());
    screen.write_ascii(b"abc").unwrap();
    let before = screen.clone();
    for input in [b"ok\x1b".as_slice(), b"\t", b"\x7f", "中".as_bytes()] {
        assert!(screen.write_ascii(input).is_err());
        assert_eq!(screen, before);
    }
}

#[test]
fn wide_glyphs_take_two_cells_and_wrap_as_a_unit() {
    let mut screen = Screen::new(2, 3).unwrap();
    screen.write_ascii(b"ab").unwrap();
    screen.print('中');
    assert_eq!(lines(&screen)[0], "ab ");
    assert_eq!(screen.row(1).unwrap()[0].character, '中');
    assert_eq!(screen.row(1).unwrap()[0].width, 2);
    assert_eq!(screen.row(1).unwrap()[1].width, 0);
    assert_eq!(screen.cursor(), (1, 2));
}

#[test]
fn scroll_region_limits_line_feeds_and_origin_mode_reports_relative_rows() {
    let mut screen = Screen::new(4, 2).unwrap();
    screen.write_ascii(b"a\r\nb\r\nc\r\nd").unwrap();
    screen.set_scroll_region(1, 2);
    assert_eq!(screen.scroll_region(), (1, 2));
    assert_eq!(screen.cursor(), (0, 0));
    screen.position(2, 0);
    screen.line_feed();
    assert_eq!(lines(&screen), ["a ", "c ", "  ", "d "]);
    screen.set_origin_mode(true);
    assert_eq!(screen.cursor(), (1, 0));
}

#[test]
fn alternate_screen_is_cleared_and_restores_the_main_grid() {
    let mut screen = Screen::new(1, 3).unwrap();
    screen.write_ascii(b"abc").unwrap();
    screen.enter_alternate();
    assert!(screen.is_alternate());
    assert_eq!(lines(&screen), ["   "]);
    screen.write_ascii(b"\rx").unwrap();
    screen.leave_alternate();
    assert!(!screen.is_alternate());
    assert_eq!(lines(&screen), ["abc"]);
}

#[test]
fn resizing_to_the_same_size_changes_nothing() {
    let mut screen = Screen::new(3, 5).unwrap();
    Parser::new().advance(&mut screen, b"abcde\x1b[2;3r\x1b[?6h");
    let before = screen.clone();
    assert_eq!(screen.resize(3, 5), Ok(()));
    assert_eq!(screen, before);
    assert!(screen.resize(0, 5).is_err());
    assert_eq!(screen, before);
}

#[test]
fn the_main_screen_survives_a_visit_to_the_alternate_screen() {
    let mut screen = Screen::new(3, 6).unwrap();
    Parser::new().advance(&mut screen, b"main\x1b[2;3r\x1b[2;3H\x1b[1m");
    let before = screen.clone();
    Parser::new().advance(&mut screen, b"\x1b[?1049h\x1b[?1049l");
    assert_eq!(lines(&screen), lines(&before));
    assert_eq!(screen.cursor(), before.cursor());
    assert_eq!(screen.scroll_region(), before.scroll_region());
    assert_eq!(screen.style(), before.style());
}

#[test]
fn restoring_right_after_saving_changes_nothing() {
    let mut screen = Screen::new(3, 6).unwrap();
    Parser::new().advance(&mut screen, b"ab\x1b[2;5H\x1b[4m\x1b7");
    let saved = screen.clone();
    Parser::new().advance(&mut screen, b"\x1b8");
    assert_eq!(screen, saved);
}
