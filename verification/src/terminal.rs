//! The single-window terminal runner's decisions: size limits, the bounded
//! frame buffer, synchronized-output batching, and the prefix-key commands
//! that manage windows.

use std::collections::VecDeque;

use vstd::prelude::*;

use crate::input::{all_digits, digits_value, has_waited, piece, piece_exec, starts_with, waited};
use crate::parser::{decimal, push_decimal};
use crate::screen::{Screen, ScreenModel};

verus! {

/// The largest pane, in cells.
pub const MAX_CELLS: usize = 64 * 1024;

/// The largest pending frame, in bytes.
pub const MAX_FRAME: usize = 16 * 1024 * 1024;

/// How long a synchronized-output batch may hold frames back, in milliseconds.
pub const SYNC_TIMEOUT_MS: u64 = 1000;

/// The most windows a terminal may hold.
pub const MAX_WINDOWS: usize = 16;

/// Why a terminal size or a frame was refused.
#[derive(Clone, Copy, Debug, PartialEq, Eq, Structural)]
pub enum TerminalError {
    /// A dimension is zero or the pane would exceed `MAX_CELLS` cells.
    InvalidSize,
    /// The frame would exceed `MAX_FRAME` pending bytes.
    FrameTooLarge,
}

/// Terminal dimensions must be nonzero and at most 65536 cells.
pub fn check_size(rows: u16, columns: u16) -> (r: Result<(), TerminalError>)
    ensures
        r is Ok <==> (rows * columns != 0 && rows * columns <= MAX_CELLS),
        r is Err ==> r == Err::<(), TerminalError>(TerminalError::InvalidSize),
{
    assert((rows as u64) * (columns as u64) <= 0xffff * 0xffff) by (nonlinear_arith)
        requires
            rows <= 0xffff,
            columns <= 0xffff,
    ;
    let cells = (rows as u64) * (columns as u64);
    if cells == 0 || cells > MAX_CELLS as u64 {
        return Err(TerminalError::InvalidSize);
    }
    Ok(())
}

/// Appends rendered output to the pending frame, refusing anything that
/// would grow it beyond `MAX_FRAME` bytes.
pub struct FrameWriter<'a>(pub &'a mut VecDeque<u8>);

impl<'a> FrameWriter<'a> {
    pub fn write(&mut self, bytes: &[u8]) -> (r: Result<usize, TerminalError>)
        ensures
            match r {
                Ok(n) => n == bytes@.len() && old(self).0@.len() + bytes@.len() <= MAX_FRAME && final(self).0@
                    == old(self).0@ + bytes@,
                Err(e) => e == TerminalError::FrameTooLarge && old(self).0@.len() + bytes@.len() > MAX_FRAME
                    && final(self).0@ == old(self).0@,
            },
    {
        let pending = self.0.len();
        if pending > MAX_FRAME || bytes.len() > MAX_FRAME - pending {
            return Err(TerminalError::FrameTooLarge);
        }
        let mut i: usize = 0;
        while i < bytes.len()
            invariant
                i <= bytes@.len(),
                self.0@ == old(self).0@ + bytes@.take(i as int),
            decreases bytes@.len() - i,
        {
            self.0.push_back(bytes[i]);
            assert(bytes@.take(i + 1) =~= bytes@.take(i as int).push(bytes@[i as int]));
            i += 1;
        }
        assert(bytes@.take(bytes@.len() as int) =~= bytes@);
        Ok(bytes.len())
    }

    pub fn flush(&mut self) -> (r: Result<(), TerminalError>)
        ensures
            r is Ok,
            final(self).0@ == old(self).0@,
    {
        Ok(())
    }
}

/// Hold frames back while the child batches output with synchronized-output
/// mode, but never past `SYNC_TIMEOUT_MS` after the batch began: a timeout (or
/// end of input) resets the mode, so later queries report ordinary output.
/// Returns whether to keep holding. Times are in milliseconds.
pub fn synchronized_pause(
    screen: &mut Screen,
    since: &mut Option<u64>,
    now: u64,
    eof: bool,
) -> (r: bool)
    requires
        old(screen).inv(),
    ensures
        final(screen).inv(),
        eof ==> !r && *final(since) is None && final(screen)@ == (ScreenModel {
            synchronized_output: false,
            ..old(screen)@
        }),
        !eof && !old(screen)@.synchronized_output ==> !r && *final(since) is None && final(screen)@ == old(
            screen,
        )@,
        !eof && old(screen)@.synchronized_output ==> r == !waited(
            match *old(since) {
                Some(t) => t,
                None => now,
            },
            now,
            SYNC_TIMEOUT_MS,
        ),
        !eof && old(screen)@.synchronized_output ==> if r {
            final(screen)@ == old(screen)@ && *final(since) == (match *old(since) {
                Some(t) => Some(t),
                None => Some(now),
            })
        } else {
            *final(since) is None && final(screen)@ == (ScreenModel { synchronized_output: false, ..old(screen)@ })
        },
{
    if eof || !screen.synchronized_output() {
        *since = None;
        if eof {
            screen.set_synchronized_output(false);
        }
        return false;
    }
    let started = match *since {
        Some(t) => t,
        None => {
            *since = Some(now);
            now
        },
    };
    if has_waited(started, now, SYNC_TIMEOUT_MS) {
        screen.set_synchronized_output(false);
        *since = None;
        false
    } else {
        true
    }
}

/// A window-management command, or a byte for the active window.
#[derive(Clone, Copy, Debug, PartialEq, Eq, Structural)]
pub enum WindowKey {
    Byte(u8),
    Create,
    Next,
    Previous,
    Rename,
    Select(usize),
    Last,
    Close,
}

/// Reads the prefix-key commands out of client input, passes pasted text
/// through untouched, and translates mouse reports to the pane's rows.
pub struct WindowInput {
    prefix: bool,
    paste: bool,
    tail: VecDeque<u8>,
    mouse: Vec<u8>,
    mouse_since: Option<u64>,
    pub pane_height: usize,
    pub pane_top: usize,
    pub mouse_enabled: bool,
}

pub struct WindowInputModel {
    pub prefix: bool,
    pub paste: bool,
    /// The last input bytes (at most six), to spot bracketed-paste markers.
    pub tail: Seq<u8>,
    /// A mouse report being collected.
    pub mouse: Seq<u8>,
    pub pane_height: usize,
    pub pane_top: usize,
    pub mouse_enabled: bool,
}

impl View for WindowInput {
    type V = WindowInputModel;

    closed spec fn view(&self) -> WindowInputModel {
        WindowInputModel {
            prefix: self.prefix,
            paste: self.paste,
            tail: self.tail@,
            mouse: self.mouse@,
            pane_height: self.pane_height,
            pane_top: self.pane_top,
            mouse_enabled: self.mouse_enabled,
        }
    }
}

pub open spec fn paste_start() -> Seq<u8> {
    seq![0x1bu8, 0x5b, 0x32, 0x30, 0x30, 0x7e]
}

pub open spec fn paste_end() -> Seq<u8> {
    seq![0x1bu8, 0x5b, 0x32, 0x30, 0x31, 0x7e]
}

/// The command a byte after the prefix key selects.
pub open spec fn prefixed_keys(byte: u8) -> Seq<WindowKey> {
    if byte == 0x63 {
        seq![WindowKey::Create]
    } else if byte == 0x6e {
        seq![WindowKey::Next]
    } else if byte == 0x70 {
        seq![WindowKey::Previous]
    } else if byte == 0x6c {
        seq![WindowKey::Last]
    } else if byte == 0x26 {
        seq![WindowKey::Close]
    } else if byte == 0x2c {
        seq![WindowKey::Rename]
    } else if 0x31 <= byte <= 0x39 {
        seq![WindowKey::Select((byte - 0x31) as usize)]
    } else if byte == 0x30 {
        seq![WindowKey::Select(9)]
    } else if byte == 2 {
        seq![WindowKey::Byte(2)]
    } else {
        seq![WindowKey::Byte(2), WindowKey::Byte(byte)]
    }
}

/// One byte outside a mouse report: paste markers are tracked, and outside a
/// paste the prefix key (Ctrl-b) introduces a command.
pub open spec fn plain_spec(m: WindowInputModel, byte: u8) -> (WindowInputModel, Seq<WindowKey>) {
    let pushed = m.tail.push(byte);
    let tail = if pushed.len() > 6 {
        pushed.drop_first()
    } else {
        pushed
    };
    let paste = if tail == paste_end() {
        false
    } else if tail == paste_start() {
        true
    } else {
        m.paste
    };
    let next = WindowInputModel { tail, paste, ..m };
    if m.paste {
        (next, seq![WindowKey::Byte(byte)])
    } else if m.prefix {
        (WindowInputModel { prefix: false, ..next }, prefixed_keys(byte))
    } else if byte == 2 {
        (WindowInputModel { prefix: true, ..next }, Seq::empty())
    } else {
        (next, seq![WindowKey::Byte(byte)])
    }
}

/// Several bytes outside a mouse report, in order.
pub open spec fn plain_all(m: WindowInputModel, bytes: Seq<u8>) -> (WindowInputModel, Seq<WindowKey>)
    decreases bytes.len(),
{
    if bytes.len() == 0 {
        (m, Seq::empty())
    } else {
        let before = plain_all(m, bytes.drop_last());
        let last = plain_spec(before.0, bytes.last());
        (last.0, before.1 + last.1)
    }
}

/// A mouse report that may still grow: ESC, CSI, an X10 report short of its
/// six bytes, or an SGR report without its final M or m (up to 64 bytes).
pub open spec fn mouse_pending(mouse: Seq<u8>) -> bool {
    mouse == seq![27u8] || mouse == seq![27u8, 0x5b] || (starts_with(mouse, seq![27u8, 0x5b, 0x4d]) && mouse.len()
        < 6) || (starts_with(mouse, seq![27u8, 0x5b, 0x3c]) && (mouse.len() == 3 || !(mouse.last() == 0x4d
        || mouse.last() == 0x6d)) && mouse.len() < 64)
}

pub open spec fn is_sgr_report(mouse: Seq<u8>) -> bool {
    starts_with(mouse, seq![27u8, 0x5b, 0x3c]) && mouse.len() > 3 && (mouse.last() == 0x4d || mouse.last() == 0x6d)
}

pub open spec fn is_x10_report(mouse: Seq<u8>) -> bool {
    starts_with(mouse, seq![27u8, 0x5b, 0x4d]) && mouse.len() == 6
}

/// The row of an SGR report body `button;column;row`: three nonempty runs of digits.
pub open spec fn sgr_row(body: Seq<u8>) -> Option<int> {
    match (piece(body, 0x3b, 0), piece(body, 0x3b, 1), piece(body, 0x3b, 2), piece(body, 0x3b, 3)) {
        (Some(a), Some(b), Some(c), None) => if a.len() > 0 && b.len() > 0 && c.len() > 0 && all_digits(a)
            && all_digits(b) && all_digits(c) && digits_value(c) <= usize::MAX {
            Some(digits_value(c))
        } else {
            None
        },
        _ => None,
    }
}

/// The one-based row a finished mouse report points at, if it is well formed.
pub open spec fn report_row(mouse: Seq<u8>) -> Option<int> {
    if is_x10_report(mouse) {
        if mouse[5] >= 32 {
            Some(mouse[5] - 32)
        } else {
            None
        }
    } else if is_sgr_report(mouse) {
        sgr_row(mouse.subrange(3, mouse.len() - 1))
    } else {
        None
    }
}

pub open spec fn sat_sub_int(a: int, b: int) -> int {
    if a >= b {
        a - b
    } else {
        0
    }
}

/// The index of the last `;` in `s`.
pub open spec fn last_semicolon(s: Seq<u8>) -> int
    decreases s.len(),
{
    if s.len() == 0 {
        -1
    } else if s.last() == 0x3b {
        s.len() - 1
    } else {
        last_semicolon(s.drop_last())
    }
}

/// A finished mouse report with its row moved into the pane (rows above or
/// below the pane are dropped, except a release, which ends a drag at the
/// nearest edge); `None` when the report is dropped.
pub open spec fn translated_report(m: WindowInputModel, mouse: Seq<u8>) -> Option<Seq<u8>> {
    match report_row(mouse) {
        None => Some(mouse),
        Some(row) => {
            let release = (is_sgr_report(mouse) && mouse.last() == 0x6d) || (is_x10_report(mouse) && mouse[3]
                >= 32 && ((mouse[3] - 32) as u8) & 0x63 == 3);
            let child = sat_sub_int(row, m.pane_top as int);
            if (child == 0 || child > m.pane_height) && !release {
                None
            } else {
                let high = if m.pane_height >= 1 {
                    m.pane_height as int
                } else {
                    1
                };
                let clamped = if child < 1 {
                    1
                } else if child > high {
                    high
                } else {
                    child
                };
                if is_sgr_report(mouse) {
                    Some(mouse.take(last_semicolon(mouse) + 1) + decimal(clamped as nat) + seq![mouse.last()])
                } else {
                    Some(mouse.update(5, (32 + if clamped > 223 { 223 } else { clamped }) as u8))
                }
            }
        },
    }
}

/// One input byte.
pub open spec fn window_feed_spec(m: WindowInputModel, byte: u8) -> (WindowInputModel, Seq<WindowKey>) {
    if m.paste || (m.mouse.len() == 0 && (!m.mouse_enabled || byte != 27 || m.prefix)) {
        plain_spec(m, byte)
    } else {
        let mouse = m.mouse.push(byte);
        if mouse_pending(mouse) {
            (WindowInputModel { mouse, ..m }, Seq::empty())
        } else {
            let cleared = WindowInputModel { mouse: Seq::empty(), ..m };
            match translated_report(m, mouse) {
                None => (cleared, Seq::empty()),
                Some(bytes) => plain_all(cleared, bytes),
            }
        }
    }
}

impl WindowInput {
    pub closed spec fn inv(&self) -> bool {
        &&& self.tail@.len() <= 6
        &&& self.mouse@.len() < 64
        &&& (self.mouse@.len() > 0) == (self.mouse_since is Some)
    }

    pub closed spec fn timing(&self) -> bool {
        self.mouse_since is Some
    }

    /// When the held-back mouse bytes began, in milliseconds.
    pub closed spec fn mouse_started(&self) -> Option<u64> {
        self.mouse_since
    }

    pub fn new() -> (r: Self)
        ensures
            r.inv(),
            r@ == (WindowInputModel {
                prefix: false,
                paste: false,
                tail: Seq::empty(),
                mouse: Seq::empty(),
                pane_height: 0,
                pane_top: 0,
                mouse_enabled: false,
            }),
            r.mouse_started() is None,
    {
        WindowInput {
            prefix: false,
            paste: false,
            tail: VecDeque::new(),
            mouse: Vec::new(),
            mouse_since: None,
            pane_height: 0,
            pane_top: 0,
            mouse_enabled: false,
        }
    }

    fn tail_is(&self, marker_digit: u8) -> (r: bool)
        ensures
            r == (self.tail@ == seq![0x1bu8, 0x5b, 0x32, 0x30, marker_digit, 0x7e]),
    {
        if self.tail.len() != 6 {
            return false;
        }
        let r = self.tail[0] == 0x1b && self.tail[1] == 0x5b && self.tail[2] == 0x32 && self.tail[3] == 0x30
            && self.tail[4] == marker_digit && self.tail[5] == 0x7e;
        if r {
            assert(self.tail@ =~= seq![0x1bu8, 0x5b, 0x32, 0x30, marker_digit, 0x7e]);
        }
        r
    }

    fn plain(&mut self, byte: u8, output: &mut Vec<WindowKey>)
        requires
            old(self).inv(),
        ensures
            final(self).inv(),
            final(self).timing() == old(self).timing(),
            final(self).mouse_started() == old(self).mouse_started(),
            final(self)@ == plain_spec(old(self)@, byte).0,
            final(output)@ == old(output)@ + plain_spec(old(self)@, byte).1,
    {
        let ghost m = self@;
        self.tail.push_back(byte);
        if self.tail.len() > 6 {
            let _ = self.tail.pop_front();
        }
        let was_paste = self.paste;
        if self.tail_is(0x30) {
            self.paste = true;
        }
        if self.tail_is(0x31) {
            self.paste = false;
        }
        let ghost keys = plain_spec(m, byte).1;
        if was_paste {
            output.push(WindowKey::Byte(byte));
        } else if self.prefix {
            self.prefix = false;
            if byte == 0x63 {
                output.push(WindowKey::Create);
            } else if byte == 0x6e {
                output.push(WindowKey::Next);
            } else if byte == 0x70 {
                output.push(WindowKey::Previous);
            } else if byte == 0x6c {
                output.push(WindowKey::Last);
            } else if byte == 0x26 {
                output.push(WindowKey::Close);
            } else if byte == 0x2c {
                output.push(WindowKey::Rename);
            } else if 0x31 <= byte && byte <= 0x39 {
                output.push(WindowKey::Select((byte - 0x31) as usize));
            } else if byte == 0x30 {
                output.push(WindowKey::Select(9));
            } else if byte == 2 {
                output.push(WindowKey::Byte(2));
            } else {
                output.push(WindowKey::Byte(2));
                output.push(WindowKey::Byte(byte));
            }
        } else if byte == 2 {
            self.prefix = true;
        } else {
            output.push(WindowKey::Byte(byte));
        }
        assert(self@ =~= plain_spec(m, byte).0);
        assert(output@ =~= old(output)@ + keys);
    }

    fn plain_bytes(&mut self, bytes: &Vec<u8>, output: &mut Vec<WindowKey>)
        requires
            old(self).inv(),
        ensures
            final(self).inv(),
            final(self).timing() == old(self).timing(),
            final(self).mouse_started() == old(self).mouse_started(),
            final(self)@ == plain_all(old(self)@, bytes@).0,
            final(output)@ == old(output)@ + plain_all(old(self)@, bytes@).1,
    {
        let mut i: usize = 0;
        while i < bytes.len()
            invariant
                i <= bytes@.len(),
                self.inv(),
                self.timing() == old(self).timing(),
                self.mouse_started() == old(self).mouse_started(),
                self@ == plain_all(old(self)@, bytes@.take(i as int)).0,
                output@ == old(output)@ + plain_all(old(self)@, bytes@.take(i as int)).1,
            decreases bytes@.len() - i,
        {
            assert(bytes@.take(i + 1).drop_last() =~= bytes@.take(i as int));
            self.plain(bytes[i], output);
            assert(output@ =~= old(output)@ + plain_all(old(self)@, bytes@.take(i + 1)).1);
            i += 1;
        }
        assert(bytes@.take(bytes@.len() as int) =~= bytes@);
    }

    /// Whether a held-back mouse report has waited 30ms by time `now` (milliseconds).
    pub fn mouse_expired(&self, now: u64) -> (r: bool)
        ensures
            r == match self.mouse_started() {
                Some(t) => waited(t, now, 30),
                None => false,
            },
    {
        match self.mouse_since {
            Some(start) => has_waited(start, now, 30),
            None => false,
        }
    }

    /// Release the held-back mouse bytes.
    pub fn take_mouse(&mut self) -> (r: Vec<u8>)
        requires
            old(self).inv(),
        ensures
            final(self).inv(),
            r@ == old(self)@.mouse,
            final(self)@ == (WindowInputModel { mouse: Seq::empty(), ..old(self)@ }),
            !final(self).timing(),
            final(self).mouse_started() is None,
    {
        self.mouse_since = None;
        let mut taken = Vec::new();
        std::mem::swap(&mut taken, &mut self.mouse);
        taken
    }

    /// Take one input byte at time `now` (milliseconds), appending the
    /// resulting keys to `output`. A mouse report being collected keeps the
    /// time its first byte came.
    pub fn feed(&mut self, byte: u8, output: &mut Vec<WindowKey>, now: u64)
        requires
            old(self).inv(),
        ensures
            final(self).inv(),
            final(self).mouse_started() == if window_feed_spec(old(self)@, byte).0.mouse.len() > 0 {
                match old(self).mouse_started() {
                    Some(t) => Some(t),
                    None => Some(now),
                }
            } else {
                None
            },
            final(self)@ == window_feed_spec(old(self)@, byte).0,
            final(output)@ == old(output)@ + window_feed_spec(old(self)@, byte).1,
    {
        let ghost m = self@;
        if self.paste || (self.mouse.len() == 0 && (!self.mouse_enabled || byte != 27 || self.prefix)) {
            self.plain(byte, output);
            return;
        }
        if self.mouse_since.is_none() {
            self.mouse_since = Some(now);
        }
        self.mouse.push(byte);
        let ghost mouse = self.mouse@;
        if is_pending(&self.mouse) {
            assert(output@ =~= old(output)@ + Seq::<WindowKey>::empty());
            return;
        }
        let translated = translate_report(&self.mouse, self.pane_top, self.pane_height);
        self.mouse_since = None;
        self.mouse = Vec::new();
        match translated {
            None => {
                assert(output@ =~= old(output)@ + Seq::<WindowKey>::empty());
            },
            Some(bytes) => {
                self.plain_bytes(&bytes, output);
            },
        }
    }
}

impl Default for WindowInput {
    fn default() -> (r: Self)
        ensures
            r.inv(),
            r@ == (WindowInputModel {
                prefix: false,
                paste: false,
                tail: Seq::empty(),
                mouse: Seq::empty(),
                pane_height: 0,
                pane_top: 0,
                mouse_enabled: false,
            }),
            r.mouse_started() is None,
    {
        WindowInput::new()
    }
}

fn is_pending(mouse: &Vec<u8>) -> (r: bool)
    requires
        mouse@.len() > 0,
    ensures
        r == mouse_pending(mouse@),
{
    let n = mouse.len();
    if n == 1 {
        let r = mouse[0] == 27;
        if r {
            assert(mouse@ =~= seq![27u8]);
        }
        assert(!starts_with(mouse@, seq![27u8, 0x5b, 0x4d]));
        assert(!starts_with(mouse@, seq![27u8, 0x5b, 0x3c]));
        return r;
    }
    assert(mouse@ != seq![27u8]);
    if mouse[0] != 27 || mouse[1] != 0x5b {
        assert(mouse@ != seq![27u8, 0x5b]);
        assert(!starts_with(mouse@, seq![27u8, 0x5b, 0x4d])) by {
            if mouse@.len() >= 3 {
                assert(mouse@.take(3)[0] == mouse@[0]);
                assert(mouse@.take(3)[1] == mouse@[1]);
            }
        }
        assert(!starts_with(mouse@, seq![27u8, 0x5b, 0x3c])) by {
            if mouse@.len() >= 3 {
                assert(mouse@.take(3)[0] == mouse@[0]);
                assert(mouse@.take(3)[1] == mouse@[1]);
            }
        }
        return false;
    }
    if n == 2 {
        assert(mouse@ =~= seq![27u8, 0x5b]);
        return true;
    }
    assert(mouse@ != seq![27u8, 0x5b]);
    if mouse[2] == 0x4d {
        assert(mouse@.take(3) =~= seq![27u8, 0x5b, 0x4d]);
        assert(mouse@.take(3) != seq![27u8, 0x5b, 0x3c]);
        return n < 6;
    }
    assert(mouse@.take(3) != seq![27u8, 0x5b, 0x4d]);
    if mouse[2] == 0x3c {
        assert(mouse@.take(3) =~= seq![27u8, 0x5b, 0x3c]);
        let last = mouse[n - 1];
        return (n == 3 || !(last == 0x4d || last == 0x6d)) && n < 64;
    }
    assert(mouse@.take(3) != seq![27u8, 0x5b, 0x3c]);
    false
}

fn digits_value_exec(b: &[u8], lo: usize, hi: usize) -> (r: Option<usize>)
    requires
        lo <= hi <= b@.len(),
    ensures
        match r {
            Some(v) => hi > lo && all_digits(b@.subrange(lo as int, hi as int)) && digits_value(
                b@.subrange(lo as int, hi as int),
            ) == v,
            None => !(hi > lo && all_digits(b@.subrange(lo as int, hi as int)) && digits_value(
                b@.subrange(lo as int, hi as int),
            ) <= usize::MAX),
        },
{
    let ghost d = b@.subrange(lo as int, hi as int);
    if lo == hi {
        return None;
    }
    let mut value: usize = 0;
    let mut i = lo;
    while i < hi
        invariant
            lo <= i <= hi <= b@.len(),
            d == b@.subrange(lo as int, hi as int),
            forall|k: int| 0 <= k < i - lo ==> crate::input::is_digit(#[trigger] d[k]),
            value == digits_value(d.take(i - lo)),
        decreases hi - i,
    {
        let c = b[i];
        if !(0x30 <= c && c <= 0x39) {
            assert(!crate::input::is_digit(d[i - lo]));
            return None;
        }
        assert(d.take(i - lo + 1).drop_last() =~= d.take(i - lo));
        assert(d.take(i - lo + 1).last() == c);
        let next = match value.checked_mul(10) {
            Some(v) => v.checked_add((c - 0x30) as usize),
            None => None,
        };
        match next {
            Some(v) => {
                value = v;
            },
            None => {
                proof {
                    if all_digits(d) {
                        crate::input::lemma_digits_monotone_public(d, i - lo + 1);
                    }
                }
                return None;
            },
        }
        i += 1;
    }
    assert(d.take(hi - lo) =~= d);
    Some(value)
}

fn digits_only(b: &[u8], lo: usize, hi: usize) -> (r: bool)
    requires
        lo <= hi <= b@.len(),
    ensures
        r == (hi > lo && all_digits(b@.subrange(lo as int, hi as int))),
{
    let ghost d = b@.subrange(lo as int, hi as int);
    if lo == hi {
        return false;
    }
    let mut i = lo;
    while i < hi
        invariant
            lo <= i <= hi <= b@.len(),
            d == b@.subrange(lo as int, hi as int),
            forall|k: int| 0 <= k < i - lo ==> crate::input::is_digit(#[trigger] d[k]),
        decreases hi - i,
    {
        if !(0x30 <= b[i] && b[i] <= 0x39) {
            assert(!crate::input::is_digit(d[i - lo]));
            return false;
        }
        i += 1;
    }
    true
}

fn sgr_row_exec(b: &[u8], lo: usize, hi: usize) -> (r: Option<usize>)
    requires
        lo <= hi <= b@.len(),
    ensures
        match r {
            Some(v) => sgr_row(b@.subrange(lo as int, hi as int)) == Some(v as int),
            None => sgr_row(b@.subrange(lo as int, hi as int)) is None,
        },
{
    let a = piece_exec(b, lo, hi, 0x3b, 0);
    let bb = piece_exec(b, lo, hi, 0x3b, 1);
    let c = piece_exec(b, lo, hi, 0x3b, 2);
    let d = piece_exec(b, lo, hi, 0x3b, 3);
    match (a, bb, c, d) {
        (Some((a0, a1)), Some((b0, b1)), Some((c0, c1)), None) => {
            let first = digits_only(b, a0, a1);
            let second = digits_only(b, b0, b1);
            if !first || !second || c1 == c0 || !digits_only(b, c0, c1) {
                return None;
            }
            digits_value_exec(b, c0, c1)
        },
        _ => None,
    }
}

fn translate_report(mouse: &Vec<u8>, pane_top: usize, pane_height: usize) -> (r: Option<Vec<u8>>)
    requires
        mouse@.len() > 0,
        !mouse_pending(mouse@),
    ensures
        ({
            let m = WindowInputModel {
                prefix: false,
                paste: false,
                tail: Seq::empty(),
                mouse: Seq::empty(),
                pane_height,
                pane_top,
                mouse_enabled: false,
            };
            match r {
                Some(v) => translated_report(m, mouse@) == Some(v@),
                None => translated_report(m, mouse@) is None,
            }
        }),
{
    let n = mouse.len();
    let x10 = n == 6 && mouse[0] == 27 && mouse[1] == 0x5b && mouse[2] == 0x4d;
    let sgr = n > 3 && mouse[0] == 27 && mouse[1] == 0x5b && mouse[2] == 0x3c && (mouse[n - 1] == 0x4d || mouse[n
        - 1] == 0x6d);
    assert(x10 == is_x10_report(mouse@)) by {
        if x10 {
            assert(mouse@.take(3) =~= seq![27u8, 0x5b, 0x4d]);
        }
        if is_x10_report(mouse@) {
            assert(mouse@.take(3)[2] == mouse@[2]);
        }
    }
    assert(sgr == is_sgr_report(mouse@)) by {
        if sgr {
            assert(mouse@.take(3) =~= seq![27u8, 0x5b, 0x3c]);
        }
        if is_sgr_report(mouse@) {
            assert(mouse@.take(3)[2] == mouse@[2]);
        }
    }
    let row: Option<usize> = if x10 {
        if mouse[5] >= 32 {
            Some((mouse[5] - 32) as usize)
        } else {
            None
        }
    } else if sgr {
        sgr_row_exec(mouse.as_slice(), 3, n - 1)
    } else {
        None
    };
    let row = match row {
        Some(row) => row,
        None => {
            let mut copy = Vec::new();
            let mut i: usize = 0;
            while i < n
                invariant
                    n == mouse@.len(),
                    i <= n,
                    copy@ == mouse@.take(i as int),
                decreases n - i,
            {
                copy.push(mouse[i]);
                assert(mouse@.take(i + 1) =~= mouse@.take(i as int).push(mouse@[i as int]));
                i += 1;
            }
            assert(mouse@.take(n as int) =~= mouse@);
            return Some(copy);
        },
    };
    let release = (sgr && mouse[n - 1] == 0x6d) || (x10 && mouse[3] >= 32 && (mouse[3] - 32) & 0x63 == 3);
    let child = if row >= pane_top {
        row - pane_top
    } else {
        0
    };
    if (child == 0 || child > pane_height) && !release {
        return None;
    }
    let high = if pane_height >= 1 {
        pane_height
    } else {
        1
    };
    let clamped = if child < 1 {
        1
    } else if child > high {
        high
    } else {
        child
    };
    let mut out: Vec<u8> = Vec::new();
    if sgr {
        let mut separator = n - 1;
        while separator > 0 && mouse[separator - 1] != 0x3b
            invariant
                n == mouse@.len(),
                separator <= n - 1,
                last_semicolon(mouse@) == last_semicolon(mouse@.take(separator as int)),
            decreases separator,
        {
            assert(mouse@.take(separator as int).drop_last() =~= mouse@.take(separator - 1));
            separator -= 1;
        }
        assert(last_semicolon(mouse@) == separator - 1) by {
            if separator == 0 {
                assert(mouse@.take(0).len() == 0);
            } else {
                assert(mouse@.take(separator as int).last() == 0x3b);
            }
        }
        let mut i: usize = 0;
        while i < separator
            invariant
                n == mouse@.len(),
                separator < n,
                i <= separator,
                out@ == mouse@.take(i as int),
            decreases separator - i,
        {
            out.push(mouse[i]);
            assert(mouse@.take(i + 1) =~= mouse@.take(i as int).push(mouse@[i as int]));
            i += 1;
        }
        push_decimal(&mut out, clamped);
        out.push(mouse[n - 1]);
    } else {
        let mut i: usize = 0;
        while i < n
            invariant
                n == mouse@.len(),
                i <= n,
                out@ == mouse@.take(i as int),
            decreases n - i,
        {
            out.push(mouse[i]);
            assert(mouse@.take(i + 1) =~= mouse@.take(i as int).push(mouse@[i as int]));
            i += 1;
        }
        assert(mouse@.take(n as int) =~= mouse@);
        let value = 32 + if clamped > 223 {
            223
        } else {
            clamped
        };
        out.set(5, value as u8);
    }
    Some(out)
}

} // verus!

