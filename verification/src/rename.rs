//! A bounded window-name editor fed one input byte at a time: pasted text is
//! taken literally, escape sequences are skipped, and names stay within 128 bytes.

use vstd::prelude::*;

use crate::input::{char_len, has_waited, is_control_char, waited};
use crate::text::{pop_char, push_char};
use crate::utf8::{Utf8Prefix, classify_utf8, utf8_prefix};
use crate::screen::{
    CursorShape, EraseMode, MouseTracking, Screen, ScreenModel, TerminalModes, char_width, erase_line_model, position_model,
    print_model, set_origin_mode_model, unicode_char_width,
};
use crate::style::{Style, plain_style};

verus! {

/// The longest name, in UTF-8 bytes.
pub const MAX_NAME_BYTES: usize = 128;

/// How long a lone ESC waits before it cancels the edit, in milliseconds.
pub const ESCAPE_DELAY_MS: u64 = 30;

#[derive(Debug, PartialEq, Eq)]
pub enum EditResult {
    Continue,
    Save,
    Cancel,
}

pub struct RenamePrompt {
    pub text: String,
    utf8: Vec<u8>,
    escape: Vec<u8>,
    escape_at: Option<u64>,
    paste: bool,
}

/// The editor's state between bytes.
pub struct PromptModel {
    pub text: Seq<char>,
    /// The bytes of an incomplete UTF-8 character.
    pub utf8: Seq<u8>,
    /// The escape sequence being skipped, if any.
    pub escape: Seq<u8>,
    /// Whether a bracketed paste is in progress.
    pub paste: bool,
    /// When the pending escape sequence began, in milliseconds.
    pub escape_at: Option<u64>,
}

impl View for RenamePrompt {
    type V = PromptModel;

    closed spec fn view(&self) -> PromptModel {
        PromptModel {
            text: self.text@,
            utf8: self.utf8@,
            escape: self.escape@,
            paste: self.paste,
            escape_at: self.escape_at,
        }
    }
}

/// The length of the UTF-8 encoding of `s`.
pub open spec fn utf8_len(s: Seq<char>) -> int
    decreases s.len(),
{
    if s.len() == 0 {
        0
    } else {
        utf8_len(s.drop_last()) + char_len(s.last())
    }
}

/// The encoded length of `s`, or one more than the limit when it is longer.
fn capped_utf8_len(s: &str) -> (r: usize)
    ensures
        r == if utf8_len(s@) <= MAX_NAME_BYTES {
            utf8_len(s@)
        } else {
            MAX_NAME_BYTES + 1
        },
{
    let n = s.unicode_len();
    let mut total: usize = 0;
    let mut i: usize = 0;
    while i < n
        invariant
            n == s@.len(),
            i <= n,
            total == if utf8_len(s@.take(i as int)) <= MAX_NAME_BYTES {
                utf8_len(s@.take(i as int))
            } else {
                MAX_NAME_BYTES + 1
            },
        decreases n - i,
    {
        let code = s.get_char(i) as u32;
        let width: usize = if code < 0x80 {
            1
        } else if code < 0x800 {
            2
        } else if code < 0x10000 {
            3
        } else {
            4
        };
        assert(s@.take(i + 1).drop_last() =~= s@.take(i as int));
        proof {
            lemma_utf8_len_nonnegative(s@.take(i as int));
        }
        total = if total + width <= MAX_NAME_BYTES {
            total + width
        } else {
            MAX_NAME_BYTES + 1
        };
        i += 1;
    }
    assert(s@.take(n as int) =~= s@);
    total
}

proof fn lemma_utf8_len_nonnegative(s: Seq<char>)
    ensures
        utf8_len(s) >= 0,
    decreases s.len(),
{
    if s.len() > 0 {
        lemma_utf8_len_nonnegative(s.drop_last());
    }
}

/// Append a character unless it is a control character or the name would
/// exceed 128 bytes.
pub open spec fn append_spec(text: Seq<char>, c: char) -> Seq<char> {
    if !is_control_char(c) && utf8_len(text) + char_len(c) <= MAX_NAME_BYTES {
        text.push(c)
    } else {
        text
    }
}

/// The name a prompt starts with: the given name, filtered as typed text is.
pub open spec fn initial_text(name: Seq<char>) -> Seq<char>
    decreases name.len(),
{
    if name.len() == 0 {
        Seq::empty()
    } else {
        append_spec(initial_text(name.drop_last()), name.last())
    }
}

pub open spec fn paste_start() -> Seq<u8> {
    seq![0x1bu8, 0x5b, 0x32, 0x30, 0x30, 0x7e]
}

pub open spec fn paste_end() -> Seq<u8> {
    seq![0x1bu8, 0x5b, 0x32, 0x30, 0x31, 0x7e]
}

/// One byte of input at time `now` (milliseconds): the new state and what it
/// means for the edit.
pub open spec fn feed_spec(m: PromptModel, byte: u8, now: u64) -> (PromptModel, EditResult) {
    if m.escape.len() > 0 {
        let e = m.escape.push(byte);
        if e.len() == 2 && (byte == 0x5b || byte == 0x4f) {
            (PromptModel { escape: e, ..m }, EditResult::Continue)
        } else if (e.len() == 2 && !(byte == 0x5b || byte == 0x4f)) || (e.len() > 2 && 0x40 <= byte <= 0x7e)
            || e.len() >= 16 {
            let paste = if e == paste_start() {
                true
            } else if e == paste_end() {
                false
            } else {
                m.paste
            };
            (PromptModel { escape: Seq::empty(), escape_at: None, paste, ..m }, EditResult::Continue)
        } else {
            (PromptModel { escape: e, ..m }, EditResult::Continue)
        }
    } else if byte == 27 {
        (PromptModel { utf8: Seq::empty(), escape: seq![27u8], escape_at: Some(now), ..m }, EditResult::Continue)
    } else if !m.paste && (byte == 13 || byte == 10) {
        (m, EditResult::Save)
    } else if !m.paste && (byte == 3 || byte == 7) {
        (m, EditResult::Cancel)
    } else if !m.paste && (byte == 8 || byte == 127) {
        (
            PromptModel {
                utf8: Seq::empty(),
                text: if m.text.len() > 0 {
                    m.text.drop_last()
                } else {
                    m.text
                },
                ..m
            },
            EditResult::Continue,
        )
    } else if !m.paste && byte == 21 {
        (PromptModel { utf8: Seq::empty(), text: Seq::empty(), ..m }, EditResult::Continue)
    } else if byte < 32 || byte == 127 {
        (PromptModel { utf8: Seq::empty(), ..m }, EditResult::Continue)
    } else if byte < 128 {
        (PromptModel { utf8: Seq::empty(), text: append_spec(m.text, byte as char), ..m }, EditResult::Continue)
    } else {
        let buffer = m.utf8.push(byte);
        match utf8_prefix(buffer) {
            Utf8Prefix::Complete(c) => (
                PromptModel { utf8: Seq::empty(), text: append_spec(m.text, c), ..m },
                EditResult::Continue,
            ),
            Utf8Prefix::Invalid(_) => (PromptModel { utf8: Seq::empty(), ..m }, EditResult::Continue),
            Utf8Prefix::Incomplete => (PromptModel { utf8: buffer, ..m }, EditResult::Continue),
        }
    }
}

impl RenamePrompt {
    /// At most three pending UTF-8 bytes, each part of an incomplete
    /// character, and at most 15 escape bytes.
    pub closed spec fn inv(&self) -> bool {
        &&& self.utf8@.len() < 4
        &&& (self.utf8@.len() > 0 ==> utf8_prefix(self.utf8@) == Utf8Prefix::Incomplete)
        &&& self.escape@.len() < 16
        &&& (self.escape@.len() > 0) == (self.escape_at is Some)
    }

    pub fn new(name: &str) -> (r: Self)
        ensures
            r.inv(),
            r@ == (PromptModel {
                text: initial_text(name@),
                utf8: Seq::empty(),
                escape: Seq::empty(),
                paste: false,
                escape_at: None,
            }),
    {
        let mut prompt = RenamePrompt {
            text: String::new(),
            utf8: Vec::new(),
            escape: Vec::new(),
            escape_at: None,
            paste: false,
        };
        let n = name.unicode_len();
        let mut i: usize = 0;
        assert(prompt.text@ =~= initial_text(name@.take(0)));
        while i < n
            invariant
                n == name@.len(),
                i <= n,
                prompt.text@ == initial_text(name@.take(i as int)),
                prompt.utf8@ == Seq::<u8>::empty(),
                prompt.escape@ == Seq::<u8>::empty(),
                prompt.escape_at is None,
                !prompt.paste,
            decreases n - i,
        {
            let c = name.get_char(i);
            prompt.append(c);
            assert(name@.take(i + 1).drop_last() =~= name@.take(i as int));
            i += 1;
        }
        assert(name@.take(n as int) =~= name@);
        prompt
    }

    fn append(&mut self, c: char)
        ensures
            final(self).text@ == append_spec(old(self).text@, c),
            final(self).utf8 == old(self).utf8,
            final(self).escape == old(self).escape,
            final(self).escape_at == old(self).escape_at,
            final(self).paste == old(self).paste,
    {
        let code = c as u32;
        let control = code <= 0x1f || (0x7f <= code && code <= 0x9f);
        let width: usize = if code < 0x80 {
            1
        } else if code < 0x800 {
            2
        } else if code < 0x10000 {
            3
        } else {
            4
        };
        let used = capped_utf8_len(self.text.as_str());
        if !control && used <= MAX_NAME_BYTES && width <= MAX_NAME_BYTES - used {
            push_char(&mut self.text, c);
        }
    }

    /// Whether a lone ESC, pending outside a paste, has waited
    /// `ESCAPE_DELAY_MS` by time `now` (milliseconds) and so cancels the edit.
    pub fn cancel_due(&self, now: u64) -> (r: bool)
        ensures
            r == (!self@.paste && self@.escape == seq![27u8] && match self@.escape_at {
                Some(t) => waited(t, now, ESCAPE_DELAY_MS),
                None => false,
            }),
    {
        if self.paste || self.escape.len() != 1 || self.escape[0] != 27 {
            return false;
        }
        assert(self@.escape =~= seq![27u8]);
        match self.escape_at {
            Some(start) => has_waited(start, now, ESCAPE_DELAY_MS),
            None => false,
        }
    }

    /// Take one input byte at time `now`.
    pub fn feed(&mut self, byte: u8, now: u64) -> (r: EditResult)
        requires
            old(self).inv(),
        ensures
            final(self).inv(),
            (final(self)@, r) == feed_spec(old(self)@, byte, now),
    {
        let ghost m = self@;
        if self.escape.len() > 0 {
            self.escape.push(byte);
            let length = self.escape.len();
            if length == 2 && (byte == 0x5b || byte == 0x4f) {
                return EditResult::Continue;
            }
            if (length == 2 && !(byte == 0x5b || byte == 0x4f)) || (length > 2 && 0x40 <= byte && byte <= 0x7e)
                || length >= 16 {
                let start = is_sequence(&self.escape, 0x30);
                let end = is_sequence(&self.escape, 0x31);
                assert(start == (self.escape@ == paste_start()));
                assert(end == (self.escape@ == paste_end()));
                if start {
                    self.paste = true;
                } else if end {
                    self.paste = false;
                }
                self.escape = Vec::new();
                self.escape_at = None;
                assert(self@ =~= feed_spec(m, byte, now).0);
            }
            return EditResult::Continue;
        }
        if byte == 27 {
            self.utf8 = Vec::new();
            self.escape = Vec::new();
            self.escape.push(byte);
            self.escape_at = Some(now);
            assert(self@ =~= feed_spec(m, byte, now).0);
            return EditResult::Continue;
        }
        if !self.paste {
            if byte == 13 || byte == 10 {
                return EditResult::Save;
            }
            if byte == 3 || byte == 7 {
                return EditResult::Cancel;
            }
            if byte == 8 || byte == 127 {
                self.utf8 = Vec::new();
                let _ = pop_char(&mut self.text);
                assert(self@ =~= feed_spec(m, byte, now).0);
                return EditResult::Continue;
            }
            if byte == 21 {
                self.utf8 = Vec::new();
                self.text = String::new();
                assert(self@ =~= feed_spec(m, byte, now).0);
                return EditResult::Continue;
            }
        }
        if byte < 32 || byte == 127 {
            self.utf8 = Vec::new();
            assert(self@ =~= feed_spec(m, byte, now).0);
            return EditResult::Continue;
        }
        if byte < 128 {
            self.utf8 = Vec::new();
            self.append(byte as char);
            assert(self@ =~= feed_spec(m, byte, now).0);
            return EditResult::Continue;
        }
        self.utf8.push(byte);
        match classify_utf8(self.utf8.as_slice()) {
            Utf8Prefix::Complete(c) => {
                self.utf8 = Vec::new();
                self.append(c);
            },
            Utf8Prefix::Invalid(_) => {
                self.utf8 = Vec::new();
            },
            Utf8Prefix::Incomplete => {},
        }
        assert(self@ =~= feed_spec(m, byte, now).0);
        EditResult::Continue
    }
}

/// Whether `e` is the bracketed-paste marker `ESC [ 2 0 digit ~`.
fn is_sequence(e: &Vec<u8>, digit: u8) -> (r: bool)
    ensures
        r == (e@ == seq![0x1bu8, 0x5b, 0x32, 0x30, digit, 0x7e]),
{
    let r = e.len() == 6 && e[0] == 0x1b && e[1] == 0x5b && e[2] == 0x32 && e[3] == 0x30 && e[4] == digit && e[5]
        == 0x7e;
    if r {
        assert(e@ =~= seq![0x1bu8, 0x5b, 0x32, 0x30, digit, 0x7e]);
    }
    r
}

/// The screen after printing each character in order.
pub open spec fn print_all(m: ScreenModel, chars: Seq<char>) -> ScreenModel
    decreases chars.len(),
{
    if chars.len() == 0 {
        m
    } else {
        print_all(print_model(m, chars[0]), chars.drop_first())
    }
}

/// The columns a character takes; one without a width takes none.
pub open spec fn display_width(c: char) -> int {
    match unicode_char_width(c) {
        Some(w) => w as int,
        None => 0,
    }
}

/// Where the longest end of `text` whose characters fit in `room` columns starts.
pub open spec fn tail_start(text: Seq<char>, room: int) -> nat
    decreases text.len(),
{
    if text.len() == 0 {
        0
    } else if display_width(text.last()) > room {
        text.len()
    } else {
        tail_start(text.drop_last(), room - display_width(text.last()))
    }
}

/// `text` without its leading zero-width characters, which have nothing to combine with.
pub open spec fn skip_zero_width(text: Seq<char>) -> Seq<char>
    decreases text.len(),
{
    if text.len() > 0 && unicode_char_width(text[0]) == Some(0usize) {
        skip_zero_width(text.drop_first())
    } else {
        text
    }
}

pub open spec fn prompt_style() -> Style {
    Style { inverse: true, ..plain_style() }
}

/// The prompt drawn over the bottom row: `Rename: ` and as much of the end of
/// the name as fits, keeping the last column free for the cursor.
pub open spec fn overlay_spec(text: Seq<char>, m: ScreenModel) -> ScreenModel {
    let room: int = m.columns - 1;
    let label = "Rename: "@.take(if room < 8 {
        room
    } else {
        8
    });
    let after_label: int = if room > 8 {
        room - 8
    } else {
        0
    };
    let reset = ScreenModel { style: prompt_style(), ..ScreenModel { insert_mode: false, ..set_origin_mode_model(m, false) } };
    let prepared = erase_line_model(position_model(reset, (m.rows - 1) as usize, 0), EraseMode::All);
    let shown = skip_zero_width(text.skip(tail_start(text, after_label) as int));
    ScreenModel { cursor_visible: true, ..print_all(print_all(prepared, label), shown) }
}

/// The input and cursor modes while the prompt is shown: a steady bar cursor,
/// bracketed paste, and plain keys with no mouse or focus reports.
pub open spec fn prompt_modes() -> TerminalModes {
    TerminalModes {
        cursor_shape: CursorShape::SteadyBar,
        bracketed_paste: true,
        application_cursor_keys: false,
        application_keypad: false,
        focus_reporting: false,
        mouse_tracking: MouseTracking::Off,
        sgr_mouse: false,
    }
}

fn width_or_zero(c: char) -> (r: usize)
    ensures
        r == display_width(c),
{
    match char_width(c) {
        Some(w) => w,
        None => 0,
    }
}

impl RenamePrompt {
    /// A copy of `original` with the prompt over its bottom row; the child's
    /// screen itself is left as it is.
    pub fn overlay(&self, original: &Screen) -> (r: Screen)
        requires
            original.inv(),
        ensures
            r.inv(),
            r@ == overlay_spec(self@.text, original@),
    {
        let ghost m = original@;
        let mut screen = original.duplicate();
        let (rows, columns) = screen.dimensions();
        screen.set_origin_mode(false);
        screen.set_insert_mode(false);
        screen.set_style(Style { inverse: true, ..Style::default() });
        screen.position(rows - 1, 0);
        screen.erase_line(EraseMode::All);
        let room = columns - 1;
        let label = "Rename: ";
        proof {
            reveal_strlit("Rename: ");
        }
        let label_len: usize = if room < 8 {
            room
        } else {
            8
        };
        let ghost label_chars = "Rename: "@.take(label_len as int);
        assert(label@.len() == 8);
        let ghost prepared = screen@;
        let mut k: usize = 0;
        assert(label_chars.skip(0) =~= label_chars);
        while k < label_len
            invariant
                label_len <= 8,
                label@ == "Rename: "@,
                label@.len() == 8,
                label_chars.len() == label_len,
                label_chars == "Rename: "@.take(label_len as int),
                k <= label_len,
                screen.inv(),
                print_all(screen@, label_chars.skip(k as int)) == print_all(prepared, label_chars),
            decreases label_len - k,
        {
            let c = label.get_char(k);
            assert(label_chars.skip(k as int)[0] == c);
            assert(label_chars.skip(k as int).drop_first() =~= label_chars.skip(k + 1));
            screen.print(c);
            k += 1;
        }
        assert(label_chars.skip(k as int) =~= Seq::<char>::empty());
        let after_label: usize = if room > 8 {
            room - 8
        } else {
            0
        };
        let text = self.text.as_str();
        let ghost t = text@;
        let n = text.unicode_len();
        let mut start = n;
        let mut left = after_label;
        assert(t.take(n as int) =~= t);
        loop
            invariant_except_break
                tail_start(t.take(start as int), left as int) == tail_start(t, after_label as int),
            invariant
                n == t.len(),
                start <= n,
                t == self@.text,
                text@ == t,
            ensures
                start == tail_start(t, after_label as int),
            decreases start,
        {
            if start == 0 {
                break;
            }
            let c = text.get_char(start - 1);
            let w = width_or_zero(c);
            let ghost prefix = t.take(start as int);
            assert(prefix.last() == c);
            assert(prefix.drop_last() =~= t.take(start - 1));
            if w > left {
                break;
            }
            left = left - w;
            start = start - 1;
        }
        let mut first = start;
        let ghost rest = t.skip(start as int);
        assert(t.skip(first as int) == rest);
        while first < n && char_width(text.get_char(first)) == Some(0usize)
            invariant
                start <= first <= n,
                n == t.len(),
                text@ == t,
                skip_zero_width(t.skip(first as int)) == skip_zero_width(rest),
            decreases n - first,
        {
            assert(t.skip(first as int)[0] == t[first as int]);
            assert(t.skip(first as int).drop_first() =~= t.skip(first + 1));
            first += 1;
        }
        proof {
            if first < n {
                assert(t.skip(first as int)[0] == t[first as int]);
            }
        }
        let ghost shown = t.skip(first as int);
        assert(skip_zero_width(rest) == shown);
        let ghost labelled = screen@;
        let mut j = first;
        assert(t.skip(first as int) =~= shown);
        while j < n
            invariant
                first <= j <= n,
                n == t.len(),
                text@ == t,
                shown == t.skip(first as int),
                screen.inv(),
                print_all(screen@, t.skip(j as int)) == print_all(labelled, shown),
            decreases n - j,
        {
            let c = text.get_char(j);
            assert(t.skip(j as int)[0] == c);
            assert(t.skip(j as int).drop_first() =~= t.skip(j + 1));
            screen.print(c);
            j += 1;
        }
        assert(t.skip(j as int) =~= Seq::<char>::empty());
        screen.set_cursor_visible(true);
        screen
    }

    /// The terminal modes to show while the prompt is drawn.
    pub fn overlay_modes() -> (r: TerminalModes)
        ensures
            r == prompt_modes(),
    {
        TerminalModes {
            cursor_shape: CursorShape::SteadyBar,
            bracketed_paste: true,
            application_cursor_keys: false,
            application_keypad: false,
            focus_reporting: false,
            mouse_tracking: MouseTracking::Off,
            sgr_mouse: false,
        }
    }
}

} // verus!
