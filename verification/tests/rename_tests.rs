use rustmux::parser::Parser;
use rustmux::rename::{ESCAPE_DELAY_MS, EditResult, RenamePrompt};
use rustmux::screen::{CursorShape, MouseTracking, Screen};

fn type_bytes(prompt: &mut RenamePrompt, bytes: &[u8]) {
    for &byte in bytes {
        assert_eq!(prompt.feed(byte, 0), EditResult::Continue);
    }
}

#[test]
fn unicode_backspace_clear_limit_and_invalid_input() {
    let mut prompt = RenamePrompt::new("old");
    type_bytes(&mut prompt, "\x15中文e\u{301}".as_bytes());
    type_bytes(&mut prompt, &[127]);
    assert_eq!(prompt.text, "中文e");
    type_bytes(&mut prompt, &[0xff]);
    assert_eq!(prompt.text, "中文e");
    assert_eq!(prompt.feed(13, 0), EditResult::Save);
    type_bytes(&mut prompt, &[21]);
    type_bytes(&mut prompt, "中".repeat(100).as_bytes());
    assert_eq!(prompt.text.len(), 126);
    type_bytes(&mut prompt, b"abc");
    assert_eq!(prompt.text.len(), 128);
}

#[test]
fn pasted_controls_do_not_commit_cancel_or_invoke_shortcuts() {
    let mut prompt = RenamePrompt::new("");
    type_bytes(
        &mut prompt,
        "\x1b[200~中文\x02c\n\x03\x15b\x1b[201~".as_bytes(),
    );
    assert_eq!(prompt.text, "中文cb");
    type_bytes(&mut prompt, b"\x1b[D\x1bOA");
    assert_eq!(prompt.text, "中文cb");
    let now: u64 = 1_000;
    prompt.feed(27, now);
    assert!(!prompt.cancel_due(now));
    assert!(!prompt.cancel_due(now + ESCAPE_DELAY_MS - 1));
    assert!(prompt.cancel_due(now + ESCAPE_DELAY_MS));
    assert_eq!(RenamePrompt::new("").feed(3, now), EditResult::Cancel);
}

#[test]
fn initial_names_are_filtered_like_typed_text() {
    let prompt = RenamePrompt::new("a\tb\u{7f}c");
    assert_eq!(prompt.text, "abc");
    let long = "x".repeat(200);
    assert_eq!(RenamePrompt::new(&long).text.len(), 128);
}

#[test]
fn split_utf8_and_long_escape_sequences_are_handled() {
    let mut prompt = RenamePrompt::new("");
    type_bytes(&mut prompt, &[0xe4, 0xb8]);
    assert_eq!(prompt.text, "");
    type_bytes(&mut prompt, &[0xad]);
    assert_eq!(prompt.text, "中");
    type_bytes(&mut prompt, b"\x1b[1;2;3;4;5;6;7;8x");
    assert_eq!(prompt.text, "中8x");
    assert_eq!(prompt.feed(b'\n', 0), EditResult::Save);
    assert_eq!(prompt.feed(7, 0), EditResult::Cancel);
    assert!(!prompt.cancel_due(0));
}

#[test]
fn overlay_fits_narrow_screens_and_never_changes_child_state() {
    for columns in [1, 2, 8, 9, 10, 20] {
        let mut original = Screen::new(3, columns).unwrap();
        Parser::new().advance(&mut original, b"abc\x1b[2;3r\x1b[?6h\x1b(0\x1b[?1003h");
        let saved = original.clone();
        let overlay = RenamePrompt::new("very long 中文e\u{301}").overlay(&original);
        assert_eq!(original, saved);
        assert_eq!(overlay.row(0), original.row(0));
        assert_eq!(overlay.row(1), original.row(1));
        assert_eq!(overlay.cursor().0, 2);
        assert!(overlay.cursor().1 < columns);
        assert!(!overlay.wrap_pending());
        let modes = RenamePrompt::overlay_modes();
        assert!(modes.bracketed_paste);
        assert_eq!(modes.mouse_tracking, MouseTracking::Off);
        if columns >= 8 {
            let label: String = overlay.row(2).unwrap()[..7]
                .iter()
                .map(|cell| cell.character)
                .collect();
            assert_eq!(label, "Rename:");
        }
    }
}

#[test]
fn overlay_shows_the_end_of_a_long_name_after_the_label() {
    let original = Screen::new(2, 14).unwrap();
    let overlay = RenamePrompt::new("abcdefgh").overlay(&original);
    let bottom: String = overlay.row(1).unwrap().iter().map(|cell| cell.character).collect();
    assert_eq!(bottom, "Rename: defgh ");
    assert_eq!(overlay.cursor(), (1, 13));
    assert!(overlay.cursor_visible());
    assert!(overlay.row(1).unwrap()[0].style.inverse);
    assert_eq!(RenamePrompt::overlay_modes().cursor_shape, CursorShape::SteadyBar);
}

#[test]
fn escape_timer_restarts_with_the_latest_escape_byte() {
    let mut prompt = RenamePrompt::new("");
    assert_eq!(prompt.feed(27, 100), EditResult::Continue);
    assert!(prompt.cancel_due(100 + ESCAPE_DELAY_MS));
    assert_eq!(prompt.feed(b'[', 105), EditResult::Continue);
    assert!(!prompt.cancel_due(10_000));
    assert_eq!(prompt.feed(b'D', 106), EditResult::Continue);
    assert!(!prompt.cancel_due(10_000));
    assert_eq!(ESCAPE_DELAY_MS, 30);
}
