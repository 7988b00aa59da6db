use rustmux::parser::{Parser, MAX_REPLY_BYTES};
use rustmux::screen::Screen;
use rustmux::style::Color;

fn lines(screen: &Screen) -> Vec<String> {
    (0..screen.dimensions().0)
        .map(|row| {
            screen
                .row(row)
                .unwrap()
                .iter()
                .map(|cell| cell.character)
                .collect()
        })
        .collect()
}

// Each fixture runs whole, one byte at a time and at every two-chunk split.
// Compare against explicit expected screen contents, not just parser output.
fn fixture(input: &[u8], expected: &[&str], cursor: (usize, usize)) {
    let new_screen = || Screen::new(expected.len(), expected[0].chars().count()).unwrap();
    let mut reference = new_screen();
    Parser::new().advance(&mut reference, input);
    assert_eq!(lines(&reference), expected);
    assert_eq!(reference.cursor(), cursor);
    for split in 0..=input.len() {
        let mut screen = new_screen();
        let mut parser = Parser::new();
        parser.advance(&mut screen, &input[..split]);
        parser.advance(&mut screen, &input[split..]);
        assert_eq!(screen, reference, "split at {split}");
    }
    let mut screen = new_screen();
    let mut parser = Parser::new();
    for byte in input {
        parser.advance(&mut screen, &[*byte]);
    }
    assert_eq!(screen, reference);
}

#[test]
fn tabs_advance_without_erasing_or_wrapping() {
    fixture(b"A\tB\tC", &["A       B      C"], (0, 15));
    fixture(b"abcd\tX", &["abcX"], (0, 3));
}

#[test]
fn position_defaults_zero_and_clamps() {
    fixture(
        b"\x1b[2;3HX\x1b[0;0fY\x1b[999;999HZ",
        &["Y   ", "  X ", "   Z"],
        (2, 3),
    );
    fixture(b"\x1b[2HX\x1b[;3HY\x1b[HZ", &["Z Y ", "X   "], (0, 1));
}

#[test]
fn relative_movement_defaults_and_boundaries_do_not_scroll() {
    fixture(
        b"\x1b[2;2HX\x1b[A\x1b[0DZ\x1b[2B\x1b[99CW\x1b[99A\x1b[99DQ",
        &["QZ  ", " X  ", "   W"],
        (0, 1),
    );
    fixture(b"\x1b[B\x1b[CX\x1b[0A\x1b[0BY", &["    ", " XY "], (1, 3));
}

#[test]
fn erase_modes_include_cursor_without_moving_it() {
    for (suffix, expected) in [
        ("J", ["abcd", "e   ", "    "]),
        ("0J", ["abcd", "e   ", "    "]),
        ("1J", ["    ", "  gh", "ijkl"]),
        ("2J", ["    ", "    ", "    "]),
        ("K", ["abcd", "e   ", "ijkl"]),
        ("0K", ["abcd", "e   ", "ijkl"]),
        ("1K", ["abcd", "  gh", "ijkl"]),
        ("2K", ["abcd", "    ", "ijkl"]),
    ] {
        let input = format!("abcdefghijkl\x1b[2;2H\x1b[{suffix}");
        fixture(input.as_bytes(), &expected, (1, 1));
    }
}

#[test]
fn commands_cancel_pending_wrap_and_one_cell_works() {
    fixture(b"abcd\x1b[DX", &["abXd", "    "], (0, 3));
    fixture(b"abcd\x1b[KX", &["abcX", "    "], (0, 3));
    fixture(b"abcd\x1b[2JX", &["   X", "    "], (0, 3));
    fixture(b"A\x1b[999;999H\x1b[2KZ", &["Z"], (0, 0));
}

#[test]
fn unsupported_and_malformed_sequences_do_not_leak_into_text() {
    fixture(
        b"A\x1b[999mB\x1b[?2JC\x1b[1:2HD\x1b[1;2;3HE\x1b[1;2AF\x1b[3JG\x1b[2 KH\x1b(BI",
        &["ABCDEFGHI   "],
        (0, 9),
    );
    fixture(
        b"A\x1b[99999999999999999999999999999999999JB",
        &["AB  "],
        (0, 2),
    );
    fixture("AéB".as_bytes(), &["AéB  "], (0, 3));
}

#[test]
fn string_payload_is_skipped_and_split_terminators_work() {
    fixture(b"A\x1b]0;hidden\x07B\x1b]more\x1b\\C\x1bPpayload\x07\n\x1b[2J\x1b\\D\x1bXhidden\x1b\\E\x1b^hidden\x1b\\F\x1b_hidden\x1b\\G",
        &["ABCDEFG   "], (0, 7));
}

#[test]
fn cancellation_escape_restart_and_embedded_controls() {
    fixture(
        b"A\x1b[99\x18B\x1b]hidden\x1aC\x1b[99\x1b[2;2HX",
        &["ABC ", " X  "],
        (1, 2),
    );
    fixture(b"abc\x1b[\r2CX", &["abX ", "    "], (0, 3));
    fixture(b"abc\x1b[\n\x082CX", &["abc ", "   X"], (1, 3));
    fixture(b"A\x1b[\x00\x7f2CX", &["A  X "], (0, 4));
    fixture(b"A\x1b[2;", &["A   "], (0, 1));
}

#[test]
fn long_sequences_are_bounded_and_recover() {
    let mut parser = Parser::new();
    let mut screen = Screen::new(1, 4).unwrap();
    parser.advance(&mut screen, b"A\x1b[");
    let digits = [b'9'; 4096];
    for _ in 0..256 {
        parser.advance(&mut screen, &digits);
    }
    parser.advance(&mut screen, b"JB\x1b]");
    for _ in 0..256 {
        parser.advance(&mut screen, &digits);
    }
    parser.advance(&mut screen, b"\x1b\\C");
    assert_eq!(lines(&screen), ["ABC "]);
    assert_eq!(screen.cursor(), (0, 3));
}

#[test]
fn status_and_cursor_reports_are_replied_in_order() {
    let mut parser = Parser::new();
    let mut screen = Screen::new(30, 120).unwrap();
    let mut replies = Vec::new();
    parser.advance_with_replies(&mut screen, b"\x1b[12;105H\x1b[5n\x1b[6", &mut replies);
    assert_eq!(replies, b"\x1b[0n");
    parser.advance_with_replies(&mut screen, b"n", &mut replies);
    assert_eq!(replies, b"\x1b[0n\x1b[12;105R");
}

#[test]
fn cursor_report_is_relative_to_the_origin_in_origin_mode() {
    let mut parser = Parser::new();
    let mut screen = Screen::new(10, 10).unwrap();
    let mut replies = Vec::new();
    parser.advance_with_replies(&mut screen, b"\x1b[3;8r\x1b[?6h\x1b[2;4H\x1b[6n", &mut replies);
    assert_eq!(replies, b"\x1b[2;4R");
    assert_eq!(screen.cursor(), (3, 3));
}

#[test]
fn finish_replaces_an_incomplete_scalar_and_resets_the_state() {
    let mut parser = Parser::new();
    let mut screen = Screen::new(1, 4).unwrap();
    parser.advance(&mut screen, b"A\xe4\xb8");
    assert_eq!(lines(&screen), ["A   "]);
    parser.finish(&mut screen);
    assert_eq!(lines(&screen), ["A\u{fffd}  "]);
    parser.advance(&mut screen, b"\x1b[");
    parser.finish(&mut screen);
    parser.advance(&mut screen, b"Z");
    assert_eq!(lines(&screen), ["A\u{fffd}Z "]);
}

#[test]
fn invalid_utf8_is_replaced_and_the_following_byte_keeps_its_meaning() {
    let mut parser = Parser::new();
    let mut screen = Screen::new(1, 6).unwrap();
    parser.advance(&mut screen, b"\xe4A\xff\x1b[1;6HB");
    assert_eq!(lines(&screen), ["\u{fffd}A\u{fffd}  B"]);
}

#[test]
fn sgr_sets_colors_and_colon_groups_are_kept_together() {
    let mut parser = Parser::new();
    let mut screen = Screen::new(1, 4).unwrap();
    parser.advance(&mut screen, b"\x1b[1;38:2::10:20:30mX");
    let cell = &screen.row(0).unwrap()[0];
    assert!(cell.style.bold);
    assert_eq!(cell.style.foreground, Color::Rgb(10, 20, 30));
    parser.advance(&mut screen, b"\x1b[0;4:3mY");
    let cell = &screen.row(0).unwrap()[1];
    assert!(!cell.style.bold);
    assert!(!cell.style.underline);
}

#[test]
fn private_modes_toggle_cursor_visibility_and_the_alternate_screen() {
    let mut parser = Parser::new();
    let mut screen = Screen::new(1, 3).unwrap();
    parser.advance(&mut screen, b"ab\x1b[?25l\x1b[?1049h");
    assert!(!screen.cursor_visible());
    assert!(screen.is_alternate());
    assert_eq!(lines(&screen), ["   "]);
    parser.advance(&mut screen, b"\x1b[?1049l\x1b[?25h\x1b[4h");
    assert!(screen.cursor_visible());
    assert!(!screen.is_alternate());
    assert!(screen.insert_mode());
    assert_eq!(lines(&screen), ["ab "]);
}

#[test]
fn cancel_leaves_the_parser_as_good_as_new() {
    let mut cancelled = Screen::new(2, 10).unwrap();
    let mut parser = Parser::new();
    parser.advance(&mut cancelled, b"\x1b[31;1");
    parser.advance(&mut cancelled, b"\x18");
    parser.advance(&mut cancelled, b"m\x1b[2;3Hx");
    let mut fresh = Screen::new(2, 10).unwrap();
    Parser::new().advance(&mut fresh, b"m\x1b[2;3Hx");
    assert_eq!(cancelled, fresh);
    let mut osc = Screen::new(2, 10).unwrap();
    let mut parser = Parser::new();
    parser.advance(&mut osc, b"\x1b]0;title\x1a");
    parser.advance(&mut osc, b"m\x1b[2;3Hx");
    assert_eq!(osc, fresh);
}

#[test]
fn replies_stay_within_the_per_byte_bound() {
    let mut screen = Screen::new(3, 3).unwrap();
    let mut replies = Vec::new();
    let input = b"\x1b[6n\x1b[5n\x1b[6n";
    Parser::new().advance_with_replies(&mut screen, input, &mut replies);
    assert_eq!(replies, b"\x1b[1;1R\x1b[0n\x1b[1;1R");
    assert!(replies.len() <= MAX_REPLY_BYTES * input.len());
    assert!(MAX_REPLY_BYTES >= 4 + 2 * 20 || usize::BITS == 32);
}
