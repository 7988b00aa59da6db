use rustmux::benchmarking::image_preview_stream;
use rustmux::fuzzing::{input, kitty_graphics};

const PLACEHOLDER: &str = "\u{10eeee}\u{0305}\u{0305}";

fn placeholders() -> Vec<u8> {
    let mut out = Vec::new();
    for row in 0..24 {
        out.extend_from_slice(PLACEHOLDER.repeat(80).as_bytes());
        if row + 1 < 24 {
            out.extend_from_slice(b"\r\n");
        }
    }
    out
}

#[test]
fn preview_stream_repeats_the_source_and_sends_one_small_chunk() {
    let stream = image_preview_stream(b"ab", 5);
    let mut expected = b"\x1b_Ga=T,f=100,q=2,i=42,s=80,v=24,m=0;YWJhYmE=\x1b\\".to_vec();
    expected.extend_from_slice(b"\x1b[H\x1b[38;2;0;0;42m");
    expected.extend_from_slice(&placeholders());
    assert_eq!(stream, expected);
}

#[test]
fn preview_stream_of_an_empty_source_uses_zero_bytes() {
    let stream = image_preview_stream(b"", 3);
    assert!(stream.starts_with(b"\x1b_Ga=T,f=100,q=2,i=42,s=80,v=24,m=0;AAAA\x1b\\\x1b[H"));
}

#[test]
fn preview_stream_without_payload_has_no_graphics_command() {
    let stream = image_preview_stream(b"xyz", 0);
    assert!(stream.starts_with(b"\x1b[H\x1b[38;2;0;0;42m"));
    assert_eq!(stream.len(), 17 + placeholders().len());
}

#[test]
fn preview_stream_splits_long_payloads_into_marked_chunks() {
    let stream = image_preview_stream(b"q", 3073);
    let encoded_len = 4 * 3073usize.div_ceil(3);
    assert_eq!(encoded_len, 4100);
    let head = b"\x1b_Ga=T,f=100,q=2,i=42,s=80,v=24,m=1;";
    assert!(stream.starts_with(head));
    let second = head.len() + 4096 + 2;
    assert_eq!(&stream[second - 2..second], b"\x1b\\");
    assert_eq!(&stream[second..second + 7], b"\x1b_Gm=0;");
    assert_eq!(&stream[second + 7 + 4..second + 7 + 6], b"\x1b\\");
}

#[test]
fn fuzz_entry_points_accept_arbitrary_bytes() {
    input(b"");
    input(b"\x1b[<0;5;7M\x1b[A\x1bx\xff\xfe");
    input(&[7, 0x1b, b'[', b'2', b'0', b'0', b'~', b'a', 0xc3]);
    kitty_graphics(b"");
    kitty_graphics(b"\x05\x1b_Ga=T,t=s;abc\x1b\\text\x1b_G");
    kitty_graphics(&[0x9f, 0xe2, 0x82]);
}

#[test]
fn preview_length_does_not_depend_on_the_source() {
    for n in [0, 1, 2, 3, 3071, 3072, 3073, 10_000] {
        assert_eq!(image_preview_stream(b"", n).len(), image_preview_stream(b"some other source", n).len());
    }
}
