//! Control requests sent to a running session's server, and their framing: a
//! big-endian 32-bit length followed by that many bytes of UTF-8 text.

use vstd::prelude::*;
use vstd::utf8::{decode_utf8, encode_utf8, valid_utf8};
use vstd::string::StringSliceAdditionalSpecFns;

use crate::config::{parse_send_key, send_key_spec};
use crate::text::{push_str, utf8_string};

verus! {

/// The byte that opens a control request on a session's socket.
pub const REQUEST: u8 = 0x43;

/// The largest frame body, 16 MiB.
pub const MAX_FRAME: usize = 16777216;

/// Why a frame was refused.
#[derive(Clone, Copy, Debug, PartialEq, Eq, Structural)]
pub enum FrameError {
    /// The body is longer than 16 MiB.
    TooLarge,
    /// The body is not UTF-8.
    NotUtf8,
}

impl FrameError {
    pub fn message(self) -> (r: &'static str)
        ensures
            r@ == match self {
                FrameError::TooLarge => "control message exceeds 16 MiB limit"@,
                FrameError::NotUtf8 => "control message is not valid UTF-8"@,
            },
    {
        match self {
            FrameError::TooLarge => "control message exceeds 16 MiB limit",
            FrameError::NotUtf8 => "control message is not valid UTF-8",
        }
    }
}

/// The session a command is for.
pub struct Target {
    pub session: String,
}

/// A pane of a session; without a pane ID, its active pane.
pub struct PaneTarget {
    pub target: Target,
    pub pane: Option<usize>,
}

pub enum ControlCommand {
    /// List pane IDs, window numbers, titles and directories.
    ListPanes { target: Target, toml: bool },
    /// Create a window and print its pane ID.
    NewWindow { target: Target, name: Option<String> },
    /// Split a pane to the right (or below), and print the new ID.
    SplitPane { target: PaneTarget, down: bool },
    /// Send named keys or literal text to a pane.
    SendKeys { target: PaneTarget, literal: bool, enter: bool, keys: Vec<String> },
    /// Print visible pane contents, or all scrollback.
    CapturePane { target: PaneTarget, history: bool },
    /// Move a pane beside another pane.
    JoinPane { target: PaneTarget, to_pane: usize, down: bool },
    /// Move a pane into its own window.
    BreakPane { target: PaneTarget, name: Option<String> },
    /// Save the current layout immediately.
    SaveSession { target: Target },
}

pub open spec fn command_session(c: ControlCommand) -> Seq<char> {
    match c {
        ControlCommand::ListPanes { target, .. } => target.session@,
        ControlCommand::NewWindow { target, .. } => target.session@,
        ControlCommand::SaveSession { target } => target.session@,
        ControlCommand::SplitPane { target, .. } => target.target.session@,
        ControlCommand::SendKeys { target, .. } => target.target.session@,
        ControlCommand::CapturePane { target, .. } => target.target.session@,
        ControlCommand::JoinPane { target, .. } => target.target.session@,
        ControlCommand::BreakPane { target, .. } => target.target.session@,
    }
}

impl ControlCommand {
    /// The session the command is sent to.
    pub fn session(&self) -> (r: &str)
        ensures
            r@ == command_session(*self),
    {
        match self {
            ControlCommand::ListPanes { target, .. } => target.session.as_str(),
            ControlCommand::NewWindow { target, .. } => target.session.as_str(),
            ControlCommand::SaveSession { target } => target.session.as_str(),
            ControlCommand::SplitPane { target, .. } => target.target.session.as_str(),
            ControlCommand::SendKeys { target, .. } => target.target.session.as_str(),
            ControlCommand::CapturePane { target, .. } => target.target.session.as_str(),
            ControlCommand::JoinPane { target, .. } => target.target.session.as_str(),
            ControlCommand::BreakPane { target, .. } => target.target.session.as_str(),
        }
    }
}

/// `n` as four bytes, most significant first.
pub open spec fn be_bytes(n: u32) -> Seq<u8> {
    seq![(n / 0x1000000) as u8, ((n / 0x10000) % 0x100) as u8, ((n / 0x100) % 0x100) as u8, (n % 0x100) as u8]
}

/// The number four bytes hold, most significant first.
pub open spec fn be_value(b: Seq<u8>) -> int {
    b[0] * 0x1000000 + b[1] * 0x10000 + b[2] * 0x100 + b[3]
}

/// A frame of `contents`: its length in bytes, then its bytes.
pub open spec fn frame_spec(contents: Seq<u8>) -> Seq<u8> {
    be_bytes(contents.len() as u32) + contents
}

/// The frame that carries `contents`, unless it is longer than 16 MiB.
pub fn encode_frame(contents: &str) -> (r: Result<Vec<u8>, FrameError>)
    ensures
        match r {
            Ok(v) => contents.spec_bytes().len() <= MAX_FRAME && v@ == frame_spec(contents.spec_bytes()),
            Err(e) => contents.spec_bytes().len() > MAX_FRAME && e == FrameError::TooLarge,
        },
{
    let bytes = contents.as_bytes();
    if bytes.len() > MAX_FRAME {
        return Err(FrameError::TooLarge);
    }
    let n = bytes.len() as u32;
    let mut out: Vec<u8> = Vec::new();
    out.push((n / 0x1000000) as u8);
    out.push(((n / 0x10000) % 0x100) as u8);
    out.push(((n / 0x100) % 0x100) as u8);
    out.push((n % 0x100) as u8);
    let mut i: usize = 0;
    while i < bytes.len()
        invariant
            i <= bytes@.len(),
            bytes@ == contents.spec_bytes(),
            n == bytes@.len(),
            out@ == be_bytes(n) + bytes@.take(i as int),
        decreases bytes@.len() - i,
    {
        out.push(bytes[i]);
        assert(bytes@.take(i + 1) =~= bytes@.take(i as int).push(bytes[i as int]));
        i += 1;
    }
    assert(bytes@.take(bytes@.len() as int) =~= bytes@);
    Ok(out)
}

/// The body length a frame header announces, unless it is longer than 16 MiB.
pub fn frame_length(header: [u8; 4]) -> (r: Result<usize, FrameError>)
    ensures
        match r {
            Ok(n) => n == be_value(header@) && n <= MAX_FRAME,
            Err(e) => be_value(header@) > MAX_FRAME && e == FrameError::TooLarge,
        },
{
    let value: u64 = header[0] as u64 * 0x1000000 + header[1] as u64 * 0x10000 + header[2] as u64 * 0x100
        + header[3] as u64;
    if value > MAX_FRAME as u64 {
        Err(FrameError::TooLarge)
    } else {
        Ok(value as usize)
    }
}

/// A frame body as text.
pub fn frame_text(body: &[u8]) -> (r: Result<String, FrameError>)
    ensures
        match r {
            Ok(s) => valid_utf8(body@) && s@ == decode_utf8(body@),
            Err(e) => !valid_utf8(body@) && e == FrameError::NotUtf8,
        },
{
    match utf8_string(body) {
        Some(s) => Ok(s),
        None => Err(FrameError::NotUtf8),
    }
}

/// Reading a frame back gives its length and its text.
pub proof fn lemma_frame_round_trip(contents: Seq<u8>)
    requires
        contents.len() <= MAX_FRAME,
    ensures
        be_value(frame_spec(contents).take(4)) == contents.len(),
        frame_spec(contents).skip(4) == contents,
{
    let n = contents.len() as u32;
    let f = frame_spec(contents);
    assert(f.take(4) =~= be_bytes(n));
    assert(f.skip(4) =~= contents);
    assert(be_value(be_bytes(n)) == n) by (nonlinear_arith)
        requires
            n <= 0xffffffffu32,
    {
    }
}


/// The most a `send-keys` request may write to a pane.
pub const MAX_SEND_KEYS_BYTES: usize = 4096;

/// Texts joined with single spaces.
pub open spec fn joined(keys: Seq<Seq<char>>) -> Seq<char>
    decreases keys.len(),
{
    if keys.len() == 0 {
        Seq::empty()
    } else if keys.len() == 1 {
        keys[0]
    } else {
        joined(keys.drop_last()) + " "@ + keys.last()
    }
}

/// The bytes of named keys, one after another; the first unknown key is the error.
pub open spec fn key_bytes(keys: Seq<Seq<char>>) -> Result<Seq<u8>, Seq<char>>
    decreases keys.len(),
{
    if keys.len() == 0 {
        Ok(Seq::empty())
    } else {
        match key_bytes(keys.drop_last()) {
            Err(e) => Err(e),
            Ok(b) => match send_key_spec(keys.last()) {
                Err(e) => Err(e),
                Ok(k) => Ok(b + k),
            },
        }
    }
}

/// What `send-keys` writes: the arguments as text joined by spaces, or as
/// named keys; then Enter when asked; at most 4096 bytes.
pub open spec fn send_keys_spec(literal: bool, enter: bool, keys: Seq<Seq<char>>) -> Result<Seq<u8>, Seq<char>> {
    let base = if literal {
        Ok(encode_utf8(joined(keys)))
    } else {
        key_bytes(keys)
    };
    match base {
        Err(e) => Err(e),
        Ok(b) => {
            let all = if enter {
                b.push(0x0du8)
            } else {
                b
            };
            if all.len() > 4096 {
                Err("send-keys input exceeds 4096 bytes"@)
            } else {
                Ok(all)
            }
        },
    }
}

pub open spec fn texts(v: Seq<String>) -> Seq<Seq<char>> {
    v.map_values(|s: String| s@)
}

fn append_bytes(out: &mut Vec<u8>, bytes: &[u8])
    ensures
        final(out)@ == old(out)@ + bytes@,
{
    let mut i: usize = 0;
    while i < bytes.len()
        invariant
            i <= bytes@.len(),
            out@ == old(out)@ + bytes@.take(i as int),
        decreases bytes@.len() - i,
    {
        out.push(bytes[i]);
        assert(bytes@.take(i + 1) =~= bytes@.take(i as int).push(bytes[i as int]));
        i += 1;
    }
    assert(bytes@.take(bytes@.len() as int) =~= bytes@);
}

/// The input a `send-keys` request writes to its pane.
pub fn send_keys_input(literal: bool, enter: bool, keys: &[String]) -> (r: Result<Vec<u8>, String>)
    ensures
        match r {
            Ok(b) => send_keys_spec(literal, enter, texts(keys@)) == Ok::<Seq<u8>, Seq<char>>(b@),
            Err(e) => send_keys_spec(literal, enter, texts(keys@)) == Err::<Seq<u8>, Seq<char>>(e@),
        },
{
    let ghost all = texts(keys@);
    let mut bytes: Vec<u8> = Vec::new();
    if literal {
        let mut text = String::new();
        let mut i: usize = 0;
        while i < keys.len()
            invariant
                i <= keys@.len(),
                all == texts(keys@),
                text@ == joined(all.take(i as int)),
            decreases keys@.len() - i,
        {
            assert(all.take(i + 1).drop_last() =~= all.take(i as int));
            if i > 0 {
                push_str(&mut text, " ");
            }
            push_str(&mut text, keys[i].as_str());
            proof {
                reveal_strlit(" ");
                if i == 0 {
                    assert(text@ =~= joined(all.take(1)));
                } else {
                    assert(text@ =~= joined(all.take(i + 1)));
                }
            }
            i += 1;
        }
        assert(all.take(keys@.len() as int) =~= all);
        append_bytes(&mut bytes, text.as_str().as_bytes());
    } else {
        let mut i: usize = 0;
        assert(all.take(0) =~= Seq::<Seq<char>>::empty());
        while i < keys.len()
            invariant
                i <= keys@.len(),
                !literal,
                all == texts(keys@),
                key_bytes(all.take(i as int)) == Ok::<Seq<u8>, Seq<char>>(bytes@),
            decreases keys@.len() - i,
        {
            assert(all.take(i + 1).drop_last() =~= all.take(i as int));
            assert(all[i as int] == keys@[i as int]@);
            match parse_send_key(keys[i].as_str()) {
                Ok(k) => append_bytes(&mut bytes, k.as_slice()),
                Err(e) => {
                    proof {
                        lemma_key_bytes_error(all, i as int);
                        assert(key_bytes(all) == Err::<Seq<u8>, Seq<char>>(e@));
                        assert(send_keys_spec(literal, enter, all) == Err::<Seq<u8>, Seq<char>>(e@));
                    }
                    return Err(e);
                },
            }
            i += 1;
        }
        assert(all.take(keys@.len() as int) =~= all);
    }
    if enter {
        bytes.push(0x0d);
    }
    if bytes.len() > MAX_SEND_KEYS_BYTES {
        return Err("send-keys input exceeds 4096 bytes".to_owned());
    }
    Ok(bytes)
}

proof fn lemma_key_bytes_error(all: Seq<Seq<char>>, i: int)
    requires
        0 <= i < all.len(),
        key_bytes(all.take(i)) is Ok,
        send_key_spec(all[i]) is Err,
    ensures
        key_bytes(all) == Err::<Seq<u8>, Seq<char>>(send_key_spec(all[i])->Err_0),
    decreases all.len() - i,
{
    assert(all.take(i + 1).drop_last() =~= all.take(i));
    lemma_error_persists(all, i + 1);
}

proof fn lemma_error_persists(all: Seq<Seq<char>>, n: int)
    requires
        0 < n <= all.len(),
        key_bytes(all.take(n)) is Err,
    ensures
        key_bytes(all) == key_bytes(all.take(n)),
    decreases all.len() - n,
{
    if n < all.len() {
        assert(all.take(n + 1).drop_last() =~= all.take(n));
        lemma_error_persists(all, n + 1);
    } else {
        assert(all.take(n) =~= all);
    }
}

/// Whether pane input submits a command line: it holds a carriage return or a line feed.
pub fn submits_command(bytes: &[u8]) -> (r: bool)
    ensures
        r == (exists|i: int| 0 <= i < bytes@.len() && (bytes@[i] == 0x0d || bytes@[i] == 0x0a)),
{
    let mut i: usize = 0;
    while i < bytes.len()
        invariant
            i <= bytes@.len(),
            forall|j: int| 0 <= j < i ==> bytes@[j] != 0x0d && bytes@[j] != 0x0a,
        decreases bytes@.len() - i,
    {
        if bytes[i] == 0x0d || bytes[i] == 0x0a {
            return true;
        }
        i += 1;
    }
    false
}

} // verus!
