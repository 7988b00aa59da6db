//! Small pieces of the protocols spoken with the outer terminal: standard
//! base64 for clipboard (OSC 52) and notification payloads, Kitty desktop
//! notifications (OSC 99), and tracking the cursor shape a child selects.
use vstd::prelude::*;
use vstd::string::StringSliceAdditionalSpecFns;
use vstd::utf8::encode_utf8;
use crate::graphics::push_range;
use crate::text::ascii_text;

verus! {

/// The standard base64 alphabet.
pub open spec fn b64_digit(v: int) -> u8 {
    if v < 26 {
        (65 + v) as u8
    } else if v < 52 {
        (97 + v - 26) as u8
    } else if v < 62 {
        (48 + v - 52) as u8
    } else if v == 62 {
        0x2b
    } else {
        0x2f
    }
}

/// Standard base64 (RFC 4648) with `=` padding: every three bytes become four digits.
pub open spec fn base64(s: Seq<u8>) -> Seq<u8>
    decreases s.len(),
{
    if s.len() == 0 {
        Seq::empty()
    } else if s.len() == 1 {
        seq![b64_digit(s[0] as int / 4), b64_digit((s[0] as int % 4) * 16), 0x3du8, 0x3du8]
    } else if s.len() == 2 {
        seq![
            b64_digit(s[0] as int / 4),
            b64_digit((s[0] as int % 4) * 16 + s[1] as int / 16),
            b64_digit((s[1] as int % 16) * 4),
            0x3du8,
        ]
    } else {
        seq![
            b64_digit(s[0] as int / 4),
            b64_digit((s[0] as int % 4) * 16 + s[1] as int / 16),
            b64_digit((s[1] as int % 16) * 4 + s[2] as int / 64),
            b64_digit(s[2] as int % 64),
        ] + base64(s.skip(3))
    }
}

fn digit(v: u8) -> (r: u8)
    requires
        v < 64,
    ensures
        r == b64_digit(v as int),
{
    if v < 26 {
        65 + v
    } else if v < 52 {
        97 + (v - 26)
    } else if v < 62 {
        48 + (v - 52)
    } else if v == 62 {
        0x2b
    } else {
        0x2f
    }
}

/// The base64 digits of `bytes`, as bytes.
pub fn base64_bytes(bytes: &[u8]) -> (r: Vec<u8>)
    ensures
        r@ == base64(bytes@),
{
    let s = bytes;
    let mut out: Vec<u8> = Vec::new();
    let mut i: usize = 0;
    assert(s@.skip(0) =~= s@);
    assert(out@ + base64(s@) =~= base64(s@));
    while s.len() - i >= 3
        invariant
            i <= s@.len(),
            out@ + base64(s@.skip(i as int)) == base64(s@),
        decreases s@.len() - i,
    {
        let a = s[i];
        let b = s[i + 1];
        let c = s[i + 2];
        let ghost before = out@;
        let ghost rest = s@.skip(i as int);
        out.push(digit(a / 4));
        out.push(digit((a % 4) * 16 + b / 16));
        out.push(digit((b % 16) * 4 + c / 64));
        out.push(digit(c % 64));
        proof {
            assert(rest.skip(3) =~= s@.skip(i + 3));
            assert(out@ =~= before + seq![
                b64_digit(rest[0] as int / 4),
                b64_digit((rest[0] as int % 4) * 16 + rest[1] as int / 16),
                b64_digit((rest[1] as int % 16) * 4 + rest[2] as int / 64),
                b64_digit(rest[2] as int % 64),
            ]);
        }
        i += 3;
    }
    let ghost before = out@;
    let ghost rest = s@.skip(i as int);
    let left = s.len() - i;
    if left == 1 {
        let a = s[i];
        out.push(digit(a / 4));
        out.push(digit((a % 4) * 16));
        out.push(0x3d);
        out.push(0x3d);
        assert(out@ =~= before + base64(rest));
    } else if left == 2 {
        let a = s[i];
        let b = s[i + 1];
        out.push(digit(a / 4));
        out.push(digit((a % 4) * 16 + b / 16));
        out.push(digit((b % 16) * 4));
        out.push(0x3d);
        assert(out@ =~= before + base64(rest));
    } else {
        assert(out@ =~= before + base64(rest));
    }
    out
}

/// `bytes` in standard base64, as the payload of an OSC 52 clipboard request.
pub fn base64_encode(bytes: &[u8]) -> (r: String)
    ensures
        r@ == base64(bytes@).map_values(|b: u8| b as char),
{
    let digits = base64_bytes(bytes);
    ascii_text(&digits)
}

/// `ESC ] 99 ; i=`: the start of a Kitty notification chunk and its identifier key.
pub open spec fn osc99_id() -> Seq<u8> {
    seq![0x1bu8, 0x5d, 0x39, 0x39, 0x3b, 0x69, 0x3d]
}

/// `:d=0:f=`: more chunks follow; the application name comes next.
pub open spec fn app_key() -> Seq<u8> {
    seq![0x3au8, 0x64, 0x3d, 0x30, 0x3a, 0x66, 0x3d]
}

/// `:o=always;`: show the notification even while the terminal has focus.
pub open spec fn always_key() -> Seq<u8> {
    seq![0x3au8, 0x6f, 0x3d, 0x61, 0x6c, 0x77, 0x61, 0x79, 0x73, 0x3b]
}

/// `:d=0:e=1:p=title;`: a base64 title chunk.
pub open spec fn title_key() -> Seq<u8> {
    seq![0x3au8, 0x64, 0x3d, 0x30, 0x3a, 0x65, 0x3d, 0x31, 0x3a, 0x70, 0x3d, 0x74, 0x69, 0x74, 0x6c, 0x65, 0x3b]
}

/// `:d=0:e=1:p=body;`: a base64 body chunk.
pub open spec fn body_key() -> Seq<u8> {
    seq![0x3au8, 0x64, 0x3d, 0x30, 0x3a, 0x65, 0x3d, 0x31, 0x3a, 0x70, 0x3d, 0x62, 0x6f, 0x64, 0x79, 0x3b]
}

pub open spec fn string_terminator() -> Seq<u8> {
    seq![0x1bu8, 0x5c]
}

/// A Kitty desktop notification (OSC 99) in four chunks, application name,
/// title, body and the closing chunk, followed by a bell for terminals
/// that do not show notifications.
pub open spec fn notification_spec(id: Seq<u8>, title: Seq<u8>, body: Seq<u8>) -> Seq<u8> {
    osc99_id() + id + app_key() + base64(encode_utf8("rustmux"@)) + always_key() + string_terminator()
        + osc99_id() + id + title_key() + base64(title) + string_terminator()
        + osc99_id() + id + body_key() + base64(body) + string_terminator()
        + osc99_id() + id + seq![0x3bu8] + string_terminator()
        + seq![0x07u8]
}

pub fn kitty_notification(id: &str, title: &str, body: &str) -> (r: Vec<u8>)
    ensures
        r@ == notification_spec(id.spec_bytes(), title.spec_bytes(), body.spec_bytes()),
{
    let id_bytes = id.as_bytes();
    let prefix: [u8; 7] = [0x1b, 0x5d, 0x39, 0x39, 0x3b, 0x69, 0x3d];
    let app: [u8; 7] = [0x3a, 0x64, 0x3d, 0x30, 0x3a, 0x66, 0x3d];
    let always: [u8; 10] = [0x3a, 0x6f, 0x3d, 0x61, 0x6c, 0x77, 0x61, 0x79, 0x73, 0x3b];
    let title_part: [u8; 17] = [
        0x3a, 0x64, 0x3d, 0x30, 0x3a, 0x65, 0x3d, 0x31, 0x3a, 0x70, 0x3d, 0x74, 0x69, 0x74, 0x6c, 0x65, 0x3b,
    ];
    let body_part: [u8; 16] = [
        0x3a, 0x64, 0x3d, 0x30, 0x3a, 0x65, 0x3d, 0x31, 0x3a, 0x70, 0x3d, 0x62, 0x6f, 0x64, 0x79, 0x3b,
    ];
    let st: [u8; 2] = [0x1b, 0x5c];
    let semicolon: [u8; 1] = [0x3b];
    let name = base64_bytes("rustmux".as_bytes());
    let title_digits = base64_bytes(title.as_bytes());
    let body_digits = base64_bytes(body.as_bytes());
    assert(prefix@ =~= osc99_id());
    assert(app@ =~= app_key());
    assert(always@ =~= always_key());
    assert(title_part@ =~= title_key());
    assert(body_part@ =~= body_key());
    assert(st@ =~= string_terminator());
    let mut out: Vec<u8> = Vec::new();
    push_range(&mut out, &prefix, 0, 7);
    push_range(&mut out, id_bytes, 0, id_bytes.len());
    push_range(&mut out, &app, 0, 7);
    push_range(&mut out, name.as_slice(), 0, name.len());
    push_range(&mut out, &always, 0, 10);
    push_range(&mut out, &st, 0, 2);
    push_range(&mut out, &prefix, 0, 7);
    push_range(&mut out, id_bytes, 0, id_bytes.len());
    push_range(&mut out, &title_part, 0, 17);
    push_range(&mut out, title_digits.as_slice(), 0, title_digits.len());
    push_range(&mut out, &st, 0, 2);
    push_range(&mut out, &prefix, 0, 7);
    push_range(&mut out, id_bytes, 0, id_bytes.len());
    push_range(&mut out, &body_part, 0, 16);
    push_range(&mut out, body_digits.as_slice(), 0, body_digits.len());
    push_range(&mut out, &st, 0, 2);
    push_range(&mut out, &prefix, 0, 7);
    push_range(&mut out, id_bytes, 0, id_bytes.len());
    push_range(&mut out, &semicolon, 0, 1);
    push_range(&mut out, &st, 0, 2);
    out.push(0x07);
    proof {
        assert(id_bytes@.subrange(0, id_bytes@.len() as int) =~= id_bytes@);
        assert(name@.subrange(0, name@.len() as int) =~= name@);
        assert(title_digits@.subrange(0, title_digits@.len() as int) =~= title_digits@);
        assert(body_digits@.subrange(0, body_digits@.len() as int) =~= body_digits@);
        assert(prefix@.subrange(0, 7) =~= prefix@);
        assert(app@.subrange(0, 7) =~= app@);
        assert(always@.subrange(0, 10) =~= always@);
        assert(title_part@.subrange(0, 17) =~= title_part@);
        assert(body_part@.subrange(0, 16) =~= body_part@);
        assert(st@.subrange(0, 2) =~= st@);
        assert(semicolon@.subrange(0, 1) =~= seq![0x3bu8]);
    }
    assert(out@ =~= notification_spec(id.spec_bytes(), title.spec_bytes(), body.spec_bytes()));
    out
}

/// Where the tracker stands in a possible DECSCUSR sequence (`CSI Ps SP q`).
#[derive(Clone, Copy, Debug, PartialEq, Eq, Structural)]
pub enum CursorSequence {
    Text,
    Escape,
    /// Inside the parameter, with its value so far (values past 1000 read as 1000).
    Parameter(u16),
    /// After the space that precedes the final `q`.
    Intermediate(u16),
}

pub open spec fn cursor_step(style: u8, sequence: CursorSequence, b: u8) -> (u8, CursorSequence) {
    match sequence {
        CursorSequence::Text => if b == 0x1b {
            (style, CursorSequence::Escape)
        } else {
            (style, CursorSequence::Text)
        },
        CursorSequence::Escape => if b == 0x5b {
            (style, CursorSequence::Parameter(0))
        } else if b == 0x1b {
            (style, CursorSequence::Escape)
        } else {
            (style, CursorSequence::Text)
        },
        CursorSequence::Parameter(v) => if 0x30 <= b <= 0x39 {
            let next = v * 10 + (b - 0x30);
            (style, CursorSequence::Parameter(if next > 1000 { 1000 } else { next as u16 }))
        } else if b == 0x20 {
            (style, CursorSequence::Intermediate(v))
        } else if b == 0x1b {
            (style, CursorSequence::Escape)
        } else {
            (style, CursorSequence::Text)
        },
        CursorSequence::Intermediate(v) => if b == 0x71 {
            (if v <= 6 { v as u8 } else { style }, CursorSequence::Text)
        } else if b == 0x1b {
            (style, CursorSequence::Escape)
        } else {
            (style, CursorSequence::Text)
        },
    }
}

pub open spec fn cursor_feed(style: u8, sequence: CursorSequence, bytes: Seq<u8>) -> (u8, CursorSequence)
    decreases bytes.len(),
{
    if bytes.len() == 0 {
        (style, sequence)
    } else {
        let (s, q) = cursor_feed(style, sequence, bytes.drop_last());
        cursor_step(s, q, bytes.last())
    }
}

/// The cursor shape the child last selected with DECSCUSR (`CSI Ps SP q`,
/// `Ps` from 0 to 6); other values are ignored. Sequences may arrive split
/// across reads.
pub struct CursorStyleTracker {
    pub style: u8,
    pub sequence: CursorSequence,
}

impl CursorStyleTracker {
    pub fn new() -> (r: Self)
        ensures
            r.style == 0,
            r.sequence == CursorSequence::Text,
    {
        CursorStyleTracker { style: 0, sequence: CursorSequence::Text }
    }

    pub fn process(&mut self, bytes: &[u8])
        ensures
            (final(self).style, final(self).sequence) == cursor_feed(old(self).style, old(self).sequence, bytes@),
    {
        let mut i: usize = 0;
        while i < bytes.len()
            invariant
                i <= bytes@.len(),
                (self.style, self.sequence) == cursor_feed(old(self).style, old(self).sequence, bytes@.take(i as int)),
            decreases bytes@.len() - i,
        {
            let b = bytes[i];
            assert(bytes@.take(i + 1).drop_last() =~= bytes@.take(i as int));
            match self.sequence {
                CursorSequence::Text => {
                    if b == 0x1b {
                        self.sequence = CursorSequence::Escape;
                    }
                },
                CursorSequence::Escape => {
                    self.sequence = if b == 0x5b {
                        CursorSequence::Parameter(0)
                    } else if b == 0x1b {
                        CursorSequence::Escape
                    } else {
                        CursorSequence::Text
                    };
                },
                CursorSequence::Parameter(v) => {
                    self.sequence = if 0x30 <= b && b <= 0x39 {
                        let next: u32 = v as u32 * 10 + (b - 0x30) as u32;
                        CursorSequence::Parameter(
                            if next > 1000 {
                                1000
                            } else {
                                next as u16
                            },
                        )
                    } else if b == 0x20 {
                        CursorSequence::Intermediate(v)
                    } else if b == 0x1b {
                        CursorSequence::Escape
                    } else {
                        CursorSequence::Text
                    };
                },
                CursorSequence::Intermediate(v) => {
                    if b == 0x71 && v <= 6 {
                        self.style = v as u8;
                    }
                    self.sequence = if b == 0x1b && b != 0x71 {
                        CursorSequence::Escape
                    } else {
                        CursorSequence::Text
                    };
                },
            }
            i += 1;
        }
        assert(bytes@.take(bytes@.len() as int) =~= bytes@);
    }
}

impl Default for CursorStyleTracker {
    fn default() -> (r: Self)
        ensures
            r.style == 0,
            r.sequence == CursorSequence::Text,
    {
        CursorStyleTracker::new()
    }
}

} // verus!
