use rustmux::protocol::{base64_bytes, base64_encode, kitty_notification, CursorSequence, CursorStyleTracker};

#[test]
fn osc_52_payload_uses_standard_base64() {
    assert_eq!(base64_encode(b"hello"), "aGVsbG8=");
    assert_eq!(base64_encode("你好".as_bytes()), "5L2g5aW9");
}

#[test]
fn base64_pads_partial_groups_and_uses_the_full_alphabet() {
    assert_eq!(base64_encode(b""), "");
    assert_eq!(base64_encode(b"f"), "Zg==");
    assert_eq!(base64_encode(b"fo"), "Zm8=");
    assert_eq!(base64_encode(b"foo"), "Zm9v");
    assert_eq!(base64_encode(b"foob"), "Zm9vYg==");
    assert_eq!(base64_bytes(&[0xfb, 0xff, 0xbf]), b"+/+/".to_vec());
    assert_eq!(base64_encode(&[0x00, 0x10, 0x83]), "ABCD");
}

#[test]
fn kitty_notification_uses_osc_99_with_base64_content_and_bell() {
    let notification = kitty_notification("rustmux-1-2", "done", "finished in 10.0s");
    let notification = String::from_utf8(notification).unwrap();

    assert_eq!(notification.matches("\x1b]99;").count(), 4);
    assert!(notification.contains("i=rustmux-1-2:d=0:f=cnVzdG11eA==:o=always;"));
    assert!(notification.contains("d=0:e=1:p=title;ZG9uZQ=="));
    assert!(notification.contains("d=0:e=1:p=body;ZmluaXNoZWQgaW4gMTAuMHM="));
    assert!(notification.ends_with("\x1b]99;i=rustmux-1-2;\x1b\\\x07"));
}

#[test]
fn kitty_notification_chunks_are_complete_sequences_in_order() {
    let notification = kitty_notification("n", "t", "b");
    assert_eq!(
        notification,
        b"\x1b]99;i=n:d=0:f=cnVzdG11eA==:o=always;\x1b\\\
\x1b]99;i=n:d=0:e=1:p=title;dA==\x1b\\\
\x1b]99;i=n:d=0:e=1:p=body;Yg==\x1b\\\
\x1b]99;i=n;\x1b\\\x07"
            .to_vec()
    );
}

#[test]
fn cursor_style_tracker_handles_split_decscusr_sequences() {
    let mut tracker = CursorStyleTracker::default();

    tracker.process(b"ignored\x1b[5");
    assert_eq!(tracker.style, 0);
    tracker.process(b" q");
    assert_eq!(tracker.style, 5);

    tracker.process(b"\x1b[2 q");
    assert_eq!(tracker.style, 2);
    tracker.process(b"\x1b[99 q");
    assert_eq!(tracker.style, 2);
}

#[test]
fn cursor_style_tracker_defaults_the_parameter_and_restarts_on_escape() {
    let mut tracker = CursorStyleTracker::new();
    tracker.process(b"\x1b[4 q");
    assert_eq!(tracker.style, 4);
    tracker.process(b"\x1b[ q");
    assert_eq!(tracker.style, 0);
    tracker.process(b"\x1b[3\x1b[6 q");
    assert_eq!(tracker.style, 6);
    tracker.process(b"\x1b[1;2 q\x1b[3x q");
    assert_eq!(tracker.style, 6);
    tracker.process(b"\x1b[99999999999 q");
    assert_eq!(tracker.style, 6);
    assert_eq!(tracker.sequence, CursorSequence::Text);
}
