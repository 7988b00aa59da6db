use rustmux::screen::Screen;
use rustmux::terminal::{
    check_size, synchronized_pause, FrameWriter, TerminalError, WindowInput, WindowKey, MAX_FRAME,
    SYNC_TIMEOUT_MS,
};
use std::collections::VecDeque;

fn decode(bytes: &[u8]) -> Vec<WindowKey> {
    let mut decoder = WindowInput::default();
    let mut result = Vec::new();
    for &byte in bytes {
        decoder.feed(byte, &mut result, 0);
    }
    result
}

#[test]
fn frame_and_screen_limits_reject_without_growing_output() {
    assert!(check_size(256, 256).is_ok());
    assert!(check_size(257, 256).is_err());
    assert!(check_size(0, 80).is_err());
    let mut pending = VecDeque::from(vec![0; MAX_FRAME]);
    assert!(FrameWriter(&mut pending).write(&[1]).is_err());
    assert_eq!(pending.len(), MAX_FRAME);
    assert_eq!(pending.back(), Some(&0));
}

#[test]
fn frame_writer_appends_in_order_and_names_the_refusal() {
    let mut pending = VecDeque::from(vec![7u8]);
    assert_eq!(FrameWriter(&mut pending).write(b"ab"), Ok(2));
    assert_eq!(pending.iter().copied().collect::<Vec<_>>(), vec![7, b'a', b'b']);
    let mut full = VecDeque::from(vec![0; MAX_FRAME - 1]);
    assert_eq!(FrameWriter(&mut full).write(b"xy"), Err(TerminalError::FrameTooLarge));
    assert_eq!(FrameWriter(&mut full).write(b"x"), Ok(1));
    assert_eq!(check_size(0, 80), Err(TerminalError::InvalidSize));
    assert_eq!(check_size(1, 1), Ok(()));
}

#[test]
fn timeout_repeated_enable_and_eof_release_pending_frames() {
    let mut screen = Screen::new(2, 8).unwrap();
    let mut since = None;
    let now: u64 = 5_000;
    assert!(!synchronized_pause(&mut screen, &mut since, now, false));
    screen.set_synchronized_output(true);
    assert!(synchronized_pause(&mut screen, &mut since, now, false));
    screen.set_synchronized_output(true);
    assert!(synchronized_pause(
        &mut screen,
        &mut since,
        now + SYNC_TIMEOUT_MS / 2,
        false
    ));
    assert!(!synchronized_pause(
        &mut screen,
        &mut since,
        now + SYNC_TIMEOUT_MS,
        false
    ));
    assert!(!screen.synchronized_output());
    screen.set_synchronized_output(true);
    assert!(synchronized_pause(
        &mut screen,
        &mut since,
        now + SYNC_TIMEOUT_MS,
        false
    ));
    assert!(!synchronized_pause(
        &mut screen,
        &mut since,
        now + SYNC_TIMEOUT_MS,
        true
    ));
    assert!(!screen.synchronized_output());
}

#[test]
fn explicit_end_allows_a_new_batch() {
    let mut screen = Screen::new(2, 8).unwrap();
    let mut since = None;
    let now: u64 = 5_000;
    screen.set_synchronized_output(true);
    assert!(synchronized_pause(&mut screen, &mut since, now, false));
    screen.set_synchronized_output(false);
    assert!(!synchronized_pause(&mut screen, &mut since, now, false));
    screen.set_synchronized_output(true);
    assert!(synchronized_pause(
        &mut screen,
        &mut since,
        now + SYNC_TIMEOUT_MS,
        false
    ));
}

#[test]
fn prefix_commands_literal_prefix_and_unknown_keys() {
    assert_eq!(
        decode(b"a\x02c\x02n\x02p\x02l\x02&\x02\x02\x02z"),
        vec![
            WindowKey::Byte(b'a'),
            WindowKey::Create,
            WindowKey::Next,
            WindowKey::Previous,
            WindowKey::Last,
            WindowKey::Close,
            WindowKey::Byte(2),
            WindowKey::Byte(2),
            WindowKey::Byte(b'z')
        ]
    );
}

#[test]
fn numeric_shortcuts_consume_only_the_prefixed_digit() {
    for (digit, position) in (b'1'..=b'9').zip(0..9).chain([(b'0', 9)]) {
        assert_eq!(
            decode(&[digit, 2, digit, b'x']),
            vec![
                WindowKey::Byte(digit),
                WindowKey::Select(position),
                WindowKey::Byte(b'x')
            ]
        );
    }
}

#[test]
fn bracketed_paste_and_utf8_are_forwarded_byte_for_byte() {
    let bytes = "\x1b[200~中文\x02c\x02n\x02p\x021\x020\x02l\x02&\x02\x02\x1b[201~".as_bytes();
    assert_eq!(
        decode(bytes),
        bytes.iter().copied().map(WindowKey::Byte).collect::<Vec<_>>()
    );
    let mut input = bytes.to_vec();
    input.extend(b"\x02c");
    assert_eq!(decode(&input).last(), Some(&WindowKey::Create));
    let mut keys = WindowInput::default();
    keys.mouse_enabled = true;
    keys.feed(27, &mut Vec::new(), 0);
    assert_eq!(keys.take_mouse(), vec![27]);
}

#[test]
fn hidden_bar_keeps_one_row_mouse_coordinates() {
    let mut keys = WindowInput::default();
    keys.pane_height = 1;
    keys.pane_top = 0;
    keys.mouse_enabled = true;
    let bytes = b"\x1b[<0;2;1M\x1b[<0;2;1m\x1b[M !!\x1b[M#!!";
    let mut output = Vec::new();
    for &byte in bytes {
        keys.feed(byte, &mut output, 0);
    }
    assert_eq!(
        output,
        bytes.iter().copied().map(WindowKey::Byte).collect::<Vec<_>>()
    );
}

#[test]
fn bar_mouse_presses_are_ignored_but_releases_finish_child_drags() {
    let mut keys = WindowInput::default();
    keys.pane_height = 23;
    keys.pane_top = 1;
    keys.mouse_enabled = true;
    let mut output = Vec::new();
    for &byte in b"\x1b[<0;2;1M\x1b[<0;2;1m\x1b[<0;2;24M\x1b[M !!\x1b[M#!!\x1b[M !8" {
        keys.feed(byte, &mut output, 0);
    }
    let expected = b"\x1b[<0;2;1m\x1b[<0;2;23M\x1b[M#!!\x1b[M !7";
    assert_eq!(
        output,
        expected.iter().copied().map(WindowKey::Byte).collect::<Vec<_>>()
    );
    assert_eq!(decode(b"\x1b"), vec![WindowKey::Byte(27)]);
}

#[test]
fn held_mouse_prefix_expires_after_its_own_timeout() {
    let mut keys = WindowInput::default();
    keys.mouse_enabled = true;
    let mut output = Vec::new();
    assert!(!keys.mouse_expired(100));
    keys.feed(27, &mut output, 100);
    keys.feed(b'[', &mut output, 120);
    assert!(output.is_empty());
    assert!(!keys.mouse_expired(129));
    assert!(keys.mouse_expired(130));
    assert_eq!(keys.take_mouse(), b"\x1b[".to_vec());
    assert!(!keys.mouse_expired(10_000));
}

#[test]
fn synchronized_pause_times_out_exactly_at_the_limit() {
    let mut screen = Screen::new(2, 8).unwrap();
    let mut since = None;
    screen.set_synchronized_output(true);
    assert!(synchronized_pause(&mut screen, &mut since, 200, false));
    assert_eq!(since, Some(200));
    assert!(synchronized_pause(&mut screen, &mut since, 200 + SYNC_TIMEOUT_MS - 1, false));
    assert!(!synchronized_pause(&mut screen, &mut since, 200 + SYNC_TIMEOUT_MS, false));
    assert_eq!(since, None);
}
