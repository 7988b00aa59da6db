use rustmux::input::{
    InputDecoder, MouseAction, MousePosition, decode_focus_event, decode_key, decode_sgr_mouse,
    sgr_mouse_at,
};

#[test]
fn decoder_accepts_all_prefix_encodings() {
    let mut decoder = InputDecoder::default();
    let input = b"a\x02b\x1b[98;5uc\x1b[27;5;98~d";

    assert_eq!(decoder.push(input, 0), b"a\x02b\x02c\x02d");
    assert!(decoder.flush().is_empty());
}

#[test]
fn decoder_preserves_large_pastes() {
    let mut decoder = InputDecoder::default();
    let input = vec![b'x'; 64 * 1024];

    assert_eq!(decoder.push(&input, 0), input);
    assert!(decoder.flush().is_empty());
}

#[test]
fn decoder_handles_split_kitty_sequence() {
    let mut decoder = InputDecoder::default();

    assert!(decoder.push(b"\x1b[98;", 0).is_empty());
    assert_eq!(decoder.push(b"5u", 0), b"\x02");
}

#[test]
fn focus_events_are_identified_before_key_passthrough() {
    let mut decoder = InputDecoder::default();
    assert!(decoder.push(b"\x1b[", 0).is_empty());
    let decoded = decoder.push(b"I\x1b[Otext", 0);

    assert_eq!(decode_focus_event(&decoded), Some((true, 3)));
    assert_eq!(decode_focus_event(&decoded[3..]), Some((false, 3)));
    assert_eq!(decode_focus_event(&decoded[6..]), None);
    assert_eq!(decode_focus_event(b"\x9bI"), Some((true, 2)));
    assert_eq!(decode_focus_event(b"\x9bO"), Some((false, 2)));
}

#[test]
fn decoder_preserves_unrecognized_escape_sequences() {
    let mut decoder = InputDecoder::default();

    assert_eq!(decoder.push(b"\x1b[A", 0), b"\x1b[A");
    assert!(decoder.flush().is_empty());
}

#[test]
fn decoder_keeps_split_arrow_sequence_together() {
    let mut decoder = InputDecoder::default();

    assert!(decoder.push(b"\x1b[", 0).is_empty());
    assert!(decoder.flush_deadline().is_some());
    assert_eq!(decoder.push(b"A", 0), b"\x1b[A");
    assert!(decoder.flush_deadline().is_none());
}

#[test]
fn sgr_mouse_decoder_recognizes_wheel_and_selection_events() {
    assert_eq!(
        decode_sgr_mouse(b"\x1b[<64;10;5M"),
        Some((
            MouseAction::ScrollUp(MousePosition { column: 10, row: 5 }),
            11
        ))
    );
    assert_eq!(
        decode_sgr_mouse(b"\x1b[<69;10;5M"),
        Some((
            MouseAction::ScrollDown(MousePosition { column: 10, row: 5 }),
            11
        ))
    );
    assert_eq!(
        decode_sgr_mouse(b"\x1b[<66;10;5M"),
        Some((MouseAction::Other(MousePosition { column: 10, row: 5 }), 11))
    );
    assert_eq!(
        decode_sgr_mouse(b"\x1b[<0;10;5M"),
        Some((
            MouseAction::SelectStart(MousePosition { column: 10, row: 5 }),
            10
        ))
    );
    assert_eq!(
        decode_sgr_mouse(b"\x1b[<32;12;6M"),
        Some((
            MouseAction::SelectExtend(MousePosition { column: 12, row: 6 }),
            11
        ))
    );
    assert_eq!(
        decode_sgr_mouse(b"\x1b[<0;14;6m"),
        Some((
            MouseAction::SelectEnd(MousePosition { column: 14, row: 6 }),
            10
        ))
    );
    assert_eq!(decode_sgr_mouse(b"\x1b[<64;10"), None);

    assert_eq!(
        sgr_mouse_at(b"\x1b[<32;12;6M", MousePosition { column: 2, row: 3 }),
        Some(b"\x1b[<32;3;4M".to_vec())
    );
}

#[test]
fn decoder_holds_a_partial_prefix_encoding_until_it_diverges() {
    let mut decoder = InputDecoder::default();
    assert!(decoder.push(b"\x1b[27;5", 0).is_empty());
    assert_eq!(decoder.push(b";99~", 0), b"\x1b[27;5;99~");
    assert!(decoder.flush().is_empty());
    assert!(decoder.flush_deadline().is_none());
}

#[test]
fn flush_releases_a_lone_escape() {
    let mut decoder = InputDecoder::default();
    assert!(decoder.push(b"\x1b", 0).is_empty());
    assert_eq!(decoder.flush(), b"\x1b");
}

#[test]
fn mouse_reports_reject_oversized_or_extra_fields() {
    assert_eq!(decode_sgr_mouse(b"\x1b[<0;70000;5M"), None);
    assert_eq!(decode_sgr_mouse(b"\x1b[<0;1;5;7M"), None);
    assert_eq!(decode_sgr_mouse(b"\x1b[<0;;5M"), None);
    assert_eq!(decode_sgr_mouse(b"\x1b[0;1;5M"), None);
    assert_eq!(
        decode_sgr_mouse(b"\x1b[<3;65535;1Mrest"),
        Some((MouseAction::Other(MousePosition { column: 65535, row: 1 }), 13))
    );
    assert_eq!(
        MouseAction::SelectEnd(MousePosition { column: 4, row: 2 }).position(),
        MousePosition { column: 4, row: 2 }
    );
}

#[test]
fn translated_mouse_reports_keep_the_button_and_terminator() {
    assert_eq!(
        sgr_mouse_at(b"\x1b[<0;14;6m", MousePosition { column: 0, row: 65535 }),
        Some(b"\x1b[<0;1;65535m".to_vec())
    );
    assert_eq!(sgr_mouse_at(b"\x1b[<0;14", MousePosition { column: 0, row: 0 }), None);
    assert_eq!(decode_focus_event(b"x"), None);
}

#[test]
fn key_decoder_names_control_navigation_and_modified_keys() {
    assert_eq!(decode_key(b"\x02").0.name, "ctrl b");
    assert_eq!(decode_key(b"\x1b[B").0.name, "down");
    assert_eq!(decode_key(b"\x1b[5~").0.name, "pageup");
    assert_eq!(decode_key(b"\x1b[3~").0.name, "delete");
    assert_eq!(decode_key(b"\x1b[103;5u").0.name, "ctrl g");
    assert_eq!(decode_key(b"\x1b[97:65;10:3;65u").0.name, "super A");
    assert_eq!(decode_key(b"\x1b[97:65;10:3;65u").0.event_type, 3);
    assert_eq!(decode_key(b"\x1b[1;2:2A").0.name, "up");
    assert_eq!(decode_key(b"\x1b[27;3;120~").0.name, "alt x");
    assert_eq!(decode_key(b"G").0.name, "G");
}

#[test]
fn key_decoder_reports_raw_bytes_and_lengths() {
    let (key, consumed) = decode_key(b"\x1b[1;5Arest");
    assert_eq!((key.name.as_str(), consumed), ("up", 6));
    assert_eq!(key.raw, b"\x1b[1;5A");
    let (key, consumed) = decode_key(b"\x1b[");
    assert_eq!((key.name.as_str(), consumed), ("esc", 1));
    let (key, consumed) = decode_key(b"\x1b[99z");
    assert_eq!((key.name.as_str(), consumed), ("unbound-csi", 5));
    let (key, consumed) = decode_key("é!".as_bytes());
    assert_eq!((key.name.as_str(), consumed), ("é", 2));
    let (key, consumed) = decode_key(b"\xc3");
    assert_eq!((key.name.as_str(), consumed), ("\u{fffd}", 1));
    let (key, _) = decode_key(b"\x1b[9;5u");
    assert_eq!(key.name, "ctrl tab");
    let (key, _) = decode_key(b"\x1b[97;2u");
    assert_eq!(key.name, "a");
    let (key, _) = decode_key(b"\x1b[27;5;13~");
    assert_eq!(key.name, "\r");
    assert_eq!(decode_key(b"\x1b[6~").0.name, "pagedown");
    assert_eq!(decode_key(b"\x1bx").0.name, "alt x");
    assert_eq!(decode_key(b"\x1b").0.name, "esc");
}

#[test]
fn pending_escape_flushes_only_after_the_timeout() {
    let mut decoder = InputDecoder::default();
    assert!(decoder.push(b"\x1b[", 1000).is_empty());
    assert_eq!(decoder.flush_deadline(), Some(1020));
    assert!(decoder.flush_if_expired(1019).is_empty());
    assert_eq!(decoder.flush_deadline(), Some(1020));
    assert_eq!(decoder.flush_if_expired(1020), b"\x1b[");
    assert_eq!(decoder.flush_deadline(), None);
    assert!(decoder.flush_if_expired(5000).is_empty());
}

#[test]
fn pending_start_is_kept_while_a_sequence_grows() {
    let mut decoder = InputDecoder::default();
    assert!(decoder.push(b"\x1b", 10).is_empty());
    assert!(decoder.push(b"[", 25).is_empty());
    assert_eq!(decoder.flush_deadline(), Some(30));
    assert_eq!(decoder.flush_if_expired(30), b"\x1b[");
}
