use rustmux::layout::PaneNode;
use rustmux::session::{
    SessionError, SessionSnapshot, ServerOutputDecoder, SnapshotPane, SnapshotTab, find_bytes,
    validate_session_name,
};
use rustmux::{SERVER_SESSION_BUSY, TERMINAL_ENTER_SEQUENCE, TERMINAL_EXIT_SEQUENCE};

#[test]
fn server_output_decoder_intercepts_split_session_switch_messages() {
    let mut decoder = ServerOutputDecoder::default();
    let (visible, target) = decoder.push(b"frame\x1b]777;rustmux-switch-").unwrap();
    assert_eq!(visible, b"frame");
    assert_eq!(target, None);

    let (visible, target) = decoder.push(b"session=work\x07").unwrap();
    assert!(visible.is_empty());
    assert_eq!(target.as_deref(), Some("work"));
}

#[test]
fn session_busy_response_is_recognized_at_every_packet_boundary() {
    for split in 0..=SERVER_SESSION_BUSY.len() {
        let mut decoder = ServerOutputDecoder::default();
        let (first, target) = decoder.push(&SERVER_SESSION_BUSY[..split]).unwrap();
        assert!(first.is_empty() && target.is_none());
        let (second, target) = decoder.push(&SERVER_SESSION_BUSY[split..]).unwrap();
        assert!(second.is_empty() && target.is_none());
        assert!(decoder.busy);
    }
}

#[test]
fn terminal_guard_isolates_rustmux_from_shell_scrollback() {
    assert!(TERMINAL_ENTER_SEQUENCE.starts_with(b"\x1b[?1049h"));
    assert!(TERMINAL_EXIT_SEQUENCE.ends_with(b"\x1b[?1049l"));
    assert_eq!(
        TERMINAL_ENTER_SEQUENCE
            .windows(b"\x1b[?1049h".len())
            .filter(|window| *window == b"\x1b[?1049h")
            .count(),
        1
    );
    assert_eq!(
        TERMINAL_EXIT_SEQUENCE
            .windows(b"\x1b[?1049l".len())
            .filter(|window| *window == b"\x1b[?1049l")
            .count(),
        1
    );
}

#[test]
fn session_snapshot_rejects_layouts_with_missing_panes() {
    let snapshot = SessionSnapshot::new(
        vec![SnapshotTab {
            id: 1,
            name: "broken".to_owned(),
            root: PaneNode::Leaf(1),
            panes: vec![SnapshotPane {
                id: 2,
                cwd: None,
                command: None,
            }],
        }],
        None,
        2,
    );

    assert!(snapshot.validate().is_err());
}

fn tab(id: usize, root: PaneNode, panes: &[usize]) -> SnapshotTab {
    SnapshotTab {
        id,
        name: format!("tab{id}"),
        root,
        panes: panes
            .iter()
            .map(|&id| SnapshotPane { id, cwd: None, command: None })
            .collect(),
    }
}

fn two_panes(first: usize, second: usize) -> PaneNode {
    PaneNode::Split {
        axis: rustmux::layout::SplitAxis::Vertical,
        ratio: 500,
        first: Box::new(PaneNode::Leaf(first)),
        second: Box::new(PaneNode::Leaf(second)),
    }
}

#[test]
fn snapshot_validation_accepts_listed_panes_in_any_order() {
    let snapshot = SessionSnapshot::new(
        vec![tab(1, two_panes(3, 4), &[4, 3]), tab(2, PaneNode::Leaf(5), &[5])],
        None,
        5,
    );
    assert_eq!(snapshot.validate(), Ok(()));
}

#[test]
fn snapshot_validation_reports_each_kind_of_error() {
    let mut snapshot = SessionSnapshot::new(vec![tab(1, PaneNode::Leaf(1), &[1])], None, 1);
    snapshot.version = 2;
    assert_eq!(snapshot.validate(), Err(SessionError::UnsupportedVersion));
    let empty = SessionSnapshot::new(Vec::new(), None, 1);
    assert_eq!(empty.validate(), Err(SessionError::NoTabs));
    let shared = SessionSnapshot::new(
        vec![tab(1, PaneNode::Leaf(1), &[1]), tab(2, PaneNode::Leaf(1), &[1])],
        None,
        1,
    );
    assert_eq!(shared.validate(), Err(SessionError::InvalidLayout));
    let duplicated = SessionSnapshot::new(vec![tab(1, two_panes(1, 2), &[1, 1])], None, 1);
    assert_eq!(duplicated.validate(), Err(SessionError::InvalidLayout));
    let inactive = SessionSnapshot::new(vec![tab(1, PaneNode::Leaf(1), &[1])], None, 9);
    assert_eq!(inactive.validate(), Err(SessionError::MissingActivePane));
}

#[test]
fn session_names_are_short_ascii_words() {
    assert!(validate_session_name("work-2_b").is_ok());
    assert_eq!(validate_session_name(""), Err(SessionError::InvalidName));
    assert_eq!(validate_session_name("a b"), Err(SessionError::InvalidName));
    assert_eq!(validate_session_name("é"), Err(SessionError::InvalidName));
    assert!(validate_session_name(&"x".repeat(64)).is_ok());
    assert!(validate_session_name(&"x".repeat(65)).is_err());
}

#[test]
fn find_bytes_returns_the_first_occurrence() {
    assert_eq!(find_bytes(b"abcabc", b"ca"), Some(2));
    assert_eq!(find_bytes(b"abc", b"abcd"), None);
    assert_eq!(find_bytes(b"abc", b"c"), Some(2));
}

#[test]
fn decoder_holds_back_a_partial_control_message_and_passes_other_output() {
    let mut decoder = ServerOutputDecoder::default();
    let (visible, target) = decoder.push(b"plain\x1b]77").unwrap();
    assert_eq!(visible, b"plain");
    assert_eq!(target, None);
    let (visible, target) = decoder.push(b"8 other").unwrap();
    assert_eq!(visible, b"\x1b]778 other");
    assert_eq!(target, None);
    assert!(decoder.finish().is_empty());
    assert!(!decoder.busy);
}

#[test]
fn decoder_rejects_switches_to_invalid_session_names() {
    let mut decoder = ServerOutputDecoder::default();
    assert_eq!(
        decoder.push(b"\x1b]777;rustmux-switch-session=bad name\x07"),
        Err(SessionError::InvalidName)
    );
    let mut decoder = ServerOutputDecoder::default();
    assert_eq!(
        decoder.push(b"\x1b]777;rustmux-switch-session=\xff\x07"),
        Err(SessionError::NotUtf8)
    );
}

#[test]
fn busy_report_splits_visible_output_around_it() {
    let mut decoder = ServerOutputDecoder::default();
    let mut input = b"before".to_vec();
    input.extend_from_slice(&SERVER_SESSION_BUSY);
    input.extend_from_slice(b"after");
    let (visible, target) = decoder.push(&input).unwrap();
    assert_eq!(visible, b"before");
    assert_eq!(target, None);
    assert!(decoder.busy);
    assert_eq!(decoder.finish(), b"after");
}
