use rustmux::render::{render, Renderer};
use rustmux::screen::{CursorShape, MouseTracking, Screen, TerminalModes};
use rustmux::style::Style;

fn plain_modes() -> TerminalModes {
    TerminalModes {
        cursor_shape: CursorShape::BlinkingBlock,
        bracketed_paste: false,
        application_cursor_keys: false,
        application_keypad: false,
        focus_reporting: false,
        mouse_tracking: MouseTracking::Off,
        sgr_mouse: false,
    }
}

const HEADER: &[u8] = b"\x1b[?25l\x1b[0m\x1b[?2004l\x1b[?1l\x1b>\x1b[1 q";
const MOUSE_OFF: &[u8] = b"\x1b[?1000l\x1b[?1002l\x1b[?1003l\x1b[?1006l";

#[test]
fn full_frame_draws_every_row_and_restores_the_cursor() {
    let mut screen = Screen::new(1, 3).unwrap();
    screen.write_ascii(b"ab").unwrap();
    let frame = render(&screen, plain_modes());
    let mut expected = HEADER.to_vec();
    expected.extend_from_slice(b"\x1b[?1004l");
    expected.extend_from_slice(MOUSE_OFF);
    expected.extend_from_slice(b"\x1b[1;1Hab \x1b[0m\x1b[1;3H\x1b[?25h");
    assert_eq!(frame, expected);
}

#[test]
fn styles_are_written_from_a_reset_only_where_they_change() {
    let mut screen = Screen::new(1, 2).unwrap();
    screen.set_style(Style { bold: true, underline: true, ..Style::default() });
    screen.print('x');
    screen.set_cursor_visible(false);
    let frame = render(&screen, plain_modes());
    let text = String::from_utf8(frame).unwrap();
    assert!(text.contains("\x1b[1;1H\x1b[0;1;4mx\x1b[0m "));
    assert!(text.ends_with("\x1b[0m\x1b[1;2H\x1b[?25l"));
}

#[test]
fn renderer_repaints_only_changed_rows_and_changed_modes() {
    let mut screen = Screen::new(2, 2).unwrap();
    let mut renderer = Renderer::default();
    let first = renderer.render(&screen, plain_modes());
    assert!(first.windows(6).any(|part| part == b"\x1b[1;1H"));
    assert!(first.windows(6).any(|part| part == b"\x1b[2;1H"));
    assert!(first.windows(8).any(|part| part == b"\x1b[?1004l"));

    let unchanged = renderer.render(&screen, plain_modes());
    assert!(!unchanged.windows(6).any(|part| part == b"\x1b[2;1H"));
    assert!(unchanged.ends_with(b"\x1b[0m\x1b[1;1H\x1b[?25h"));
    assert!(!unchanged.windows(8).any(|part| part == b"\x1b[?1004l"));
    assert!(!unchanged.windows(8).any(|part| part == b"\x1b[?1000l"));

    screen.position(1, 0);
    screen.print('z');
    let mut modes = plain_modes();
    modes.mouse_tracking = MouseTracking::AnyEvent;
    modes.sgr_mouse = true;
    let changed = renderer.render(&screen, modes);
    assert!(!changed.windows(6).any(|part| part == b"\x1b[1;1H"));
    assert!(changed.windows(7).any(|part| part == b"\x1b[2;1Hz"));
    assert!(changed.windows(8).any(|part| part == b"\x1b[?1006h"));
    assert!(changed.windows(8).any(|part| part == b"\x1b[?1003h"));

    renderer.invalidate();
    let repaint = renderer.render(&screen, modes);
    assert!(repaint.windows(6).any(|part| part == b"\x1b[1;1H"));
    assert!(repaint.windows(8).any(|part| part == b"\x1b[?1004l"));
}

#[test]
fn wide_glyphs_and_combining_marks_are_written_once_as_utf8() {
    let mut screen = Screen::new(1, 4).unwrap();
    screen.print('中');
    screen.print('e');
    screen.print('\u{301}');
    let frame = render(&screen, plain_modes());
    let text = String::from_utf8(frame).unwrap();
    assert!(text.contains("\x1b[1;1H中e\u{301} "));
}
