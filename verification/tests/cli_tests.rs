use rustmux::control::{send_keys_input, submits_command};
use rustmux::cli::{AttachArgs, NewSessionArgs, TargetSessionArgs};
use rustmux::control::{
    encode_frame, frame_length, frame_text, ControlCommand, FrameError, PaneTarget, Target, MAX_FRAME,
    REQUEST,
};

#[test]
fn session_arguments_prefer_the_positional_name_then_the_flag() {
    let args = NewSessionArgs { detached: false, layout: None, name: Some("work".to_owned()), session: None };
    assert_eq!(args.name(), "work");
    let args = NewSessionArgs { detached: true, layout: None, name: None, session: Some("legacy".to_owned()) };
    assert_eq!(args.name(), "legacy");
    let args = AttachArgs { name: None, create: true, target: None };
    assert_eq!(args.name(), "default");
    let args = AttachArgs { name: Some("a".to_owned()), create: false, target: Some("b".to_owned()) };
    assert_eq!(args.name(), "a");
    let args = TargetSessionArgs { name: None, target: Some("work".to_owned()) };
    assert_eq!(args.name(), "work");
}

#[test]
fn control_commands_name_their_session() {
    let list = ControlCommand::ListPanes { target: Target { session: "main".to_owned() }, toml: true };
    assert_eq!(list.session(), "main");
    let keys = ControlCommand::SendKeys {
        target: PaneTarget { target: Target { session: "work".to_owned() }, pane: Some(3) },
        literal: true,
        enter: false,
        keys: vec!["ls".to_owned()],
    };
    assert_eq!(keys.session(), "work");
    assert_eq!(REQUEST, b'C');
}

#[test]
fn frames_carry_a_big_endian_length_and_round_trip() {
    let frame = encode_frame("héllo").unwrap();
    assert_eq!(&frame[..4], &[0, 0, 0, 6]);
    assert_eq!(&frame[4..], "héllo".as_bytes());
    let length = frame_length([frame[0], frame[1], frame[2], frame[3]]).unwrap();
    assert_eq!(length, 6);
    assert_eq!(frame_text(&frame[4..4 + length]).unwrap(), "héllo");
    assert_eq!(encode_frame("").unwrap(), vec![0, 0, 0, 0]);
}

#[test]
fn frames_over_sixteen_mebibytes_and_invalid_text_are_refused() {
    assert_eq!(frame_length([0x01, 0x00, 0x00, 0x00]), Ok(MAX_FRAME));
    assert_eq!(frame_length([0x01, 0x00, 0x00, 0x01]), Err(FrameError::TooLarge));
    assert_eq!(frame_length([0xff, 0xff, 0xff, 0xff]), Err(FrameError::TooLarge));
    let big = "x".repeat(MAX_FRAME + 1);
    assert_eq!(encode_frame(&big), Err(FrameError::TooLarge));
    assert_eq!(FrameError::TooLarge.message(), "control message exceeds 16 MiB limit");
    assert_eq!(frame_text(&[0xff, 0x00]), Err(FrameError::NotUtf8));
}

#[test]
fn send_keys_input_joins_text_or_names_keys_and_is_bounded() {
    let words = vec!["echo".to_owned(), "hi".to_owned()];
    assert_eq!(send_keys_input(true, true, &words).unwrap(), b"echo hi\r".to_vec());
    assert_eq!(send_keys_input(false, false, &["delete".to_owned()]).unwrap(), b"\x1b[3~".to_vec());
    assert!(send_keys_input(false, false, &["delete".to_owned(), "no-such-key".to_owned()]).is_err());
    assert_eq!(send_keys_input(true, false, &[]).unwrap(), Vec::<u8>::new());
    let long = vec!["x".repeat(4096)];
    assert!(send_keys_input(true, false, &long).is_ok());
    assert_eq!(send_keys_input(true, true, &long).unwrap_err(), "send-keys input exceeds 4096 bytes");
    assert!(submits_command(b"ls\n"));
    assert!(!submits_command(b"ls"));
}
