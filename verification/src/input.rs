//! Client input decoding: collapsing encoded prefix keys, holding back
//! incomplete escape sequences, and recognizing mouse and focus reports.

use vstd::prelude::*;

use crate::PREFIX;
use crate::parser::{decimal, push_decimal};
use crate::text::{push_char, utf8_string};
use vstd::utf8::{decode_utf8, valid_utf8};

verus! {

/// How long an incomplete escape sequence is held before it is released as typed.
pub const ESCAPE_SEQUENCE_TIMEOUT_MS: u64 = 20;

/// Whether `now` is at least `delay` milliseconds after `start`; a `now`
/// before `start` counts as no time passed.
pub open spec fn waited(start: u64, now: u64, delay: u64) -> bool {
    now >= start + delay
}

pub fn has_waited(start: u64, now: u64, delay: u64) -> (r: bool)
    ensures
        r == waited(start, now, delay),
{
    now >= start && now - start >= delay
}

#[derive(Clone, Copy, Debug, PartialEq, Eq, Structural)]
pub struct MousePosition {
    pub column: u16,
    pub row: u16,
}

#[derive(Clone, Copy, Debug, PartialEq, Eq, Structural)]
pub enum MouseAction {
    ScrollUp(MousePosition),
    ScrollDown(MousePosition),
    SelectStart(MousePosition),
    SelectExtend(MousePosition),
    SelectEnd(MousePosition),
    Other(MousePosition),
}

impl MouseAction {
    pub open spec fn position_spec(self) -> MousePosition {
        match self {
            MouseAction::ScrollUp(p) => p,
            MouseAction::ScrollDown(p) => p,
            MouseAction::SelectStart(p) => p,
            MouseAction::SelectExtend(p) => p,
            MouseAction::SelectEnd(p) => p,
            MouseAction::Other(p) => p,
        }
    }

    pub fn position(self) -> (r: MousePosition)
        ensures
            r == self.position_spec(),
    {
        match self {
            MouseAction::ScrollUp(p) => p,
            MouseAction::ScrollDown(p) => p,
            MouseAction::SelectStart(p) => p,
            MouseAction::SelectExtend(p) => p,
            MouseAction::SelectEnd(p) => p,
            MouseAction::Other(p) => p,
        }
    }
}

/// The Kitty keyboard protocol's encoding of Ctrl-b.
pub open spec fn kitty_prefix() -> Seq<u8> {
    seq![0x1bu8, 0x5b, 0x39, 0x38, 0x3b, 0x35, 0x75]
}

/// xterm's modifyOtherKeys encoding of Ctrl-b.
pub open spec fn xterm_prefix() -> Seq<u8> {
    seq![0x1bu8, 0x5b, 0x32, 0x37, 0x3b, 0x35, 0x3b, 0x39, 0x38, 0x7e]
}

pub open spec fn starts_with(s: Seq<u8>, prefix: Seq<u8>) -> bool {
    prefix.len() <= s.len() && s.take(prefix.len() as int) == prefix
}

pub open spec fn is_final_byte(b: u8) -> bool {
    0x40 <= b <= 0x7e
}

/// A lone ESC, or a CSI still waiting for its final byte.
pub open spec fn incomplete_escape(p: Seq<u8>) -> bool {
    p == seq![0x1bu8] || (starts_with(p, seq![0x1bu8, 0x5b]) && forall|i: int|
        2 <= i < p.len() ==> !is_final_byte(#[trigger] p[i]))
}

/// Decode buffered input: each encoded prefix key becomes the prefix byte,
/// other bytes pass through, and decoding stops before anything that may
/// still become an encoded prefix or is an unfinished escape sequence.
/// Returns the decoded bytes and how many input bytes they used.
pub open spec fn decode_input(p: Seq<u8>) -> (Seq<u8>, int)
    decreases p.len(),
{
    if p.len() == 0 {
        (Seq::empty(), 0)
    } else if starts_with(p, kitty_prefix()) {
        let rest = decode_input(p.skip(7));
        (seq![PREFIX] + rest.0, 7 + rest.1)
    } else if starts_with(p, xterm_prefix()) {
        let rest = decode_input(p.skip(10));
        (seq![PREFIX] + rest.0, 10 + rest.1)
    } else if starts_with(kitty_prefix(), p) || starts_with(xterm_prefix(), p) || incomplete_escape(p) {
        (Seq::empty(), 0)
    } else {
        let rest = decode_input(p.drop_first());
        (seq![p[0]] + rest.0, 1 + rest.1)
    }
}

pub proof fn lemma_decode_input_bound(p: Seq<u8>)
    ensures
        0 <= decode_input(p).1 <= p.len(),
    decreases p.len(),
{
    if p.len() > 0 {
        if starts_with(p, kitty_prefix()) {
            lemma_decode_input_bound(p.skip(7));
        } else if starts_with(p, xterm_prefix()) {
            lemma_decode_input_bound(p.skip(10));
        } else if !(starts_with(kitty_prefix(), p) || starts_with(xterm_prefix(), p) || incomplete_escape(p)) {
            lemma_decode_input_bound(p.drop_first());
        }
    }
}

fn prefix_at(p: &[u8], start: usize, prefix: &[u8]) -> (r: bool)
    requires
        start <= p@.len(),
    ensures
        r == starts_with(p@.skip(start as int), prefix@),
{
    let length = p.len();
    if prefix.len() > length - start {
        return false;
    }
    let mut j: usize = 0;
    while j < prefix.len()
        invariant
            length == p@.len(),
            start + prefix@.len() <= length,
            j <= prefix@.len(),
            forall|k: int| 0 <= k < j ==> p@[start + k] == prefix@[k],
        decreases prefix@.len() - j,
    {
        if p[start + j] != prefix[j] {
            assert(p@.skip(start as int).take(prefix@.len() as int)[j as int] != prefix@[j as int]);
            return false;
        }
        j += 1;
    }
    assert(p@.skip(start as int).take(prefix@.len() as int) =~= prefix@);
    true
}

/// Whether the rest of `p` from `start` is a proper prefix of `prefix`.
fn rest_begins(p: &[u8], start: usize, prefix: &[u8]) -> (r: bool)
    requires
        start <= p@.len(),
    ensures
        r == starts_with(prefix@, p@.skip(start as int)),
{
    let length = p.len();
    let n = length - start;
    if n > prefix.len() {
        return false;
    }
    let mut j: usize = 0;
    while j < n
        invariant
            length == p@.len(),
            n == length - start,
            n <= prefix@.len(),
            j <= n,
            forall|k: int| 0 <= k < j ==> p@[start + k] == prefix@[k],
        decreases n - j,
    {
        if p[start + j] != prefix[j] {
            assert(prefix@.take(n as int)[j as int] != p@.skip(start as int)[j as int]);
            return false;
        }
        j += 1;
    }
    assert(prefix@.take(n as int) =~= p@.skip(start as int));
    true
}

fn unfinished_escape(p: &[u8], start: usize) -> (r: bool)
    requires
        start < p@.len(),
    ensures
        r == incomplete_escape(p@.skip(start as int)),
{
    let length = p.len();
    let ghost rest = p@.skip(start as int);
    assert(rest.len() == length - start);
    if p[start] != 0x1b {
        assert(rest[0] != 0x1b);
        assert(rest != seq![0x1bu8]);
        assert(!starts_with(rest, seq![0x1bu8, 0x5b]));
        return false;
    }
    if length - start == 1 {
        assert(rest =~= seq![0x1bu8]);
        return true;
    }
    assert(rest != seq![0x1bu8]);
    if p[start + 1] != 0x5b {
        assert(rest.take(2)[1] != seq![0x1bu8, 0x5b][1]);
        assert(rest.take(2) != seq![0x1bu8, 0x5b]);
        return false;
    }
    assert(rest.take(2) =~= seq![0x1bu8, 0x5b]);
    let mut i = start + 2;
    while i < length
        invariant
            length == p@.len(),
            rest.len() == length - start,
            start + 2 <= i <= length,
            rest == p@.skip(start as int),
            forall|k: int| 2 <= k < i - start ==> !is_final_byte(#[trigger] rest[k]),
        decreases length - i,
    {
        if 0x40 <= p[i] && p[i] <= 0x7e {
            assert(rest[i - start] == p@[i as int]);
            assert(is_final_byte(rest[i - start]));
            return false;
        }
        i += 1;
    }
    true
}

/// Holds back input that may still become an encoded prefix key or is an
/// unfinished escape sequence, until more arrives or it times out.
pub struct InputDecoder {
    pending: Vec<u8>,
    pending_since: Option<u64>,
}

impl InputDecoder {
    /// The bytes held back.
    pub closed spec fn pending_bytes(&self) -> Seq<u8> {
        self.pending@
    }

    /// Whether the held-back bytes have a start time.
    pub closed spec fn timing(&self) -> bool {
        self.pending_since is Some
    }

    /// When holding the held-back bytes began, in milliseconds.
    pub closed spec fn since(&self) -> Option<u64> {
        self.pending_since
    }

    pub fn new() -> (r: Self)
        ensures
            r.pending_bytes() == Seq::<u8>::empty(),
            !r.timing(),
            r.since() is None,
    {
        InputDecoder { pending: Vec::new(), pending_since: None }
    }

    /// Decode what is complete; hold back the rest and note when holding
    /// began (`now_ms`, in milliseconds).
    pub fn push(&mut self, bytes: &[u8], now_ms: u64) -> (r: Vec<u8>)
        ensures
            ({
                let p = old(self).pending_bytes() + bytes@;
                &&& r@ == decode_input(p).0
                &&& final(self).pending_bytes() == p.skip(decode_input(p).1)
                &&& final(self).timing() == (final(self).pending_bytes().len() > 0)
                &&& final(self).since() == if final(self).pending_bytes().len() == 0 {
                    None
                } else {
                    match old(self).since() {
                        Some(t) => Some(t),
                        None => Some(now_ms),
                    }
                }
            }),
    {
        self.pending.extend_from_slice(bytes);
        assert(self.pending@ =~= old(self).pending@ + bytes@);
        let decoded = self.decode_complete();
        if self.pending.len() == 0 {
            self.pending_since = None;
        } else if self.pending_since.is_none() {
            self.pending_since = Some(now_ms);
        }
        decoded
    }

    /// Release held-back bytes once they have waited for the escape timeout
    /// at time `now_ms`; else nothing changes.
    pub fn flush_if_expired(&mut self, now_ms: u64) -> (r: Vec<u8>)
        ensures
            ({
                let expired = match old(self).since() {
                    Some(t) => waited(t, now_ms, ESCAPE_SEQUENCE_TIMEOUT_MS),
                    None => false,
                };
                if expired {
                    &&& r@ == old(self).pending_bytes()
                    &&& final(self).pending_bytes() == Seq::<u8>::empty()
                    &&& final(self).since() is None
                } else {
                    &&& r@ == Seq::<u8>::empty()
                    &&& final(self).pending_bytes() == old(self).pending_bytes()
                    &&& final(self).since() == old(self).since()
                }
            }),
    {
        let expired = match self.pending_since {
            Some(since) => has_waited(since, now_ms, ESCAPE_SEQUENCE_TIMEOUT_MS),
            None => false,
        };
        if expired {
            self.flush()
        } else {
            Vec::new()
        }
    }

    /// When the held-back bytes should be released, in milliseconds, if
    /// anything is held back and that time is representable.
    pub fn flush_deadline(&self) -> (r: Option<u64>)
        ensures
            r == match self.since() {
                Some(t) => if t + ESCAPE_SEQUENCE_TIMEOUT_MS <= u64::MAX {
                    Some((t + ESCAPE_SEQUENCE_TIMEOUT_MS) as u64)
                } else {
                    None
                },
                None => None,
            },
    {
        match self.pending_since {
            Some(since) => since.checked_add(ESCAPE_SEQUENCE_TIMEOUT_MS),
            None => None,
        }
    }

    /// Release everything held back.
    pub fn flush(&mut self) -> (r: Vec<u8>)
        ensures
            r@ == old(self).pending_bytes(),
            final(self).pending_bytes() == Seq::<u8>::empty(),
            !final(self).timing(),
            final(self).since() is None,
    {
        self.pending_since = None;
        let mut taken = Vec::new();
        std::mem::swap(&mut taken, &mut self.pending);
        taken
    }

    fn decode_complete(&mut self) -> (r: Vec<u8>)
        ensures
            r@ == decode_input(old(self).pending@).0,
            final(self).pending@ == old(self).pending@.skip(decode_input(old(self).pending@).1),
            final(self).pending_since == old(self).pending_since,
    {
        let kitty: [u8; 7] = [0x1b, 0x5b, 0x39, 0x38, 0x3b, 0x35, 0x75];
        let xterm: [u8; 10] = [0x1b, 0x5b, 0x32, 0x37, 0x3b, 0x35, 0x3b, 0x39, 0x38, 0x7e];
        assert(kitty@ =~= kitty_prefix());
        assert(xterm@ =~= xterm_prefix());
        let ghost p = self.pending@;
        let length = self.pending.len();
        let mut decoded: Vec<u8> = Vec::new();
        let mut consumed: usize = 0;
        let mut done = false;
        assert(p.skip(0) =~= p);
        assert(decoded@ + decode_input(p).0 =~= decode_input(p).0);
        while consumed < length && !done
            invariant
                done ==> decode_input(p.skip(consumed as int)) == (Seq::<u8>::empty(), 0int),
                p == self.pending@,
                length == p.len(),
                consumed <= length,
                kitty@ == kitty_prefix(),
                xterm@ == xterm_prefix(),
                decode_input(p).0 == decoded@ + decode_input(p.skip(consumed as int)).0,
                decode_input(p).1 == consumed + decode_input(p.skip(consumed as int)).1,
            decreases length - consumed + if done { 0int } else { 1int },
        {
            let ghost rest = p.skip(consumed as int);
            let slice = self.pending.as_slice();
            if prefix_at(slice, consumed, &kitty) {
                assert(rest.skip(7) =~= p.skip(consumed + 7));
                decoded.push(PREFIX);
                assert(decoded@ + decode_input(rest.skip(7)).0 =~= decoded@.drop_last() + (seq![PREFIX]
                    + decode_input(rest.skip(7)).0));
                consumed += 7;
            } else if prefix_at(slice, consumed, &xterm) {
                assert(rest.skip(10) =~= p.skip(consumed + 10));
                decoded.push(PREFIX);
                assert(decoded@ + decode_input(rest.skip(10)).0 =~= decoded@.drop_last() + (seq![PREFIX]
                    + decode_input(rest.skip(10)).0));
                consumed += 10;
            } else if rest_begins(slice, consumed, &kitty) || rest_begins(slice, consumed, &xterm)
                || unfinished_escape(slice, consumed) {
                assert(rest.len() > 0);
                done = true;
            } else {
                let byte = self.pending[consumed];
                assert(rest.drop_first() =~= p.skip(consumed + 1));
                decoded.push(byte);
                assert(decoded@ + decode_input(rest.drop_first()).0 =~= decoded@.drop_last() + (seq![byte]
                    + decode_input(rest.drop_first()).0));
                consumed += 1;
            }
        }
        proof {
            lemma_decode_input_bound(p.skip(consumed as int));
            if !done {
                assert(p.skip(consumed as int).len() == 0);
            }
        }
        assert(decoded@ =~= decode_input(p).0);
        let mut remaining = Vec::new();
        let mut i = consumed;
        while i < length
            invariant
                p == self.pending@,
                length == p.len(),
                consumed <= i <= length,
                remaining@ == p.subrange(consumed as int, i as int),
            decreases length - i,
        {
            remaining.push(self.pending[i]);
            assert(p.subrange(consumed as int, i + 1) =~= p.subrange(consumed as int, i as int).push(p[i as int]));
            i += 1;
        }
        assert(remaining@ =~= p.skip(consumed as int));
        self.pending = remaining;
        decoded
    }
}

impl Default for InputDecoder {
    fn default() -> (r: Self)
        ensures
            r.pending_bytes() == Seq::<u8>::empty(),
            !r.timing(),
            r.since() is None,
    {
        InputDecoder::new()
    }
}

/// A focus report: CSI I (gained) or CSI O (lost), in 7-bit or 8-bit form,
/// with the number of bytes it takes.
pub fn decode_focus_event(bytes: &[u8]) -> (r: Option<(bool, usize)>)
    ensures
        r == if starts_with(bytes@, seq![0x1bu8, 0x5b, 0x49]) {
            Some((true, 3usize))
        } else if starts_with(bytes@, seq![0x1bu8, 0x5b, 0x4f]) {
            Some((false, 3usize))
        } else if starts_with(bytes@, seq![0x9bu8, 0x49]) {
            Some((true, 2usize))
        } else if starts_with(bytes@, seq![0x9bu8, 0x4f]) {
            Some((false, 2usize))
        } else {
            None
        },
{
    let gained = [0x1bu8, 0x5b, 0x49];
    let lost = [0x1bu8, 0x5b, 0x4f];
    let gained8 = [0x9bu8, 0x49];
    let lost8 = [0x9bu8, 0x4f];
    assert(gained@ =~= seq![0x1bu8, 0x5b, 0x49]);
    assert(lost@ =~= seq![0x1bu8, 0x5b, 0x4f]);
    assert(gained8@ =~= seq![0x9bu8, 0x49]);
    assert(lost8@ =~= seq![0x9bu8, 0x4f]);
    assert(bytes@.skip(0) =~= bytes@);
    if prefix_at(bytes, 0, &gained) {
        Some((true, 3))
    } else if prefix_at(bytes, 0, &lost) {
        Some((false, 3))
    } else if prefix_at(bytes, 0, &gained8) {
        Some((true, 2))
    } else if prefix_at(bytes, 0, &lost8) {
        Some((false, 2))
    } else {
        None
    }
}

pub open spec fn is_digit(b: u8) -> bool {
    0x30 <= b <= 0x39
}

/// The decimal value of a run of digits.
pub open spec fn digits_value(s: Seq<u8>) -> int
    decreases s.len(),
{
    if s.len() == 0 {
        0
    } else {
        digits_value(s.drop_last()) * 10 + (s.last() - 0x30)
    }
}

/// A mouse coordinate or button field: one or more digits that fit in 16 bits.
pub open spec fn parse_field(s: Seq<u8>) -> Option<u16> {
    if s.len() > 0 && (forall|i: int| 0 <= i < s.len() ==> is_digit(#[trigger] s[i])) && digits_value(s) <= 0xffff {
        Some(digits_value(s) as u16)
    } else {
        None
    }
}

proof fn lemma_digits_monotone(s: Seq<u8>, i: int)
    requires
        0 <= i <= s.len(),
        forall|k: int| 0 <= k < s.len() ==> is_digit(#[trigger] s[k]),
    ensures
        0 <= digits_value(s.take(i)) <= digits_value(s),
    decreases s.len() - i,
{
    if i < s.len() {
        lemma_digits_monotone(s, i + 1);
        assert(s.take(i + 1).drop_last() =~= s.take(i));
        assert(s.take(i + 1).last() == s[i]);
    } else {
        assert(s.take(i) =~= s);
    }
    if s.len() > 0 {
        lemma_digits_nonnegative(s);
    }
    lemma_digits_nonnegative(s.take(i));
}

/// The value of a run of digits grows as digits are added.
pub proof fn lemma_digits_monotone_public(s: Seq<u8>, i: int)
    requires
        0 <= i <= s.len(),
        forall|k: int| 0 <= k < s.len() ==> is_digit(#[trigger] s[k]),
    ensures
        0 <= digits_value(s.take(i)) <= digits_value(s),
{
    lemma_digits_monotone(s, i);
}

proof fn lemma_digits_nonnegative(s: Seq<u8>)
    requires
        forall|k: int| 0 <= k < s.len() ==> is_digit(#[trigger] s[k]),
    ensures
        digits_value(s) >= 0,
    decreases s.len(),
{
    if s.len() > 0 {
        lemma_digits_nonnegative(s.drop_last());
        assert(is_digit(s[s.len() - 1]));
    }
}

fn parse_field_exec(b: &[u8], start: usize, end: usize) -> (r: Option<u16>)
    requires
        start <= end <= b@.len(),
    ensures
        r == parse_field(b@.subrange(start as int, end as int)),
{
    let ghost s = b@.subrange(start as int, end as int);
    if start == end {
        return None;
    }
    let mut value: u32 = 0;
    let mut i = start;
    while i < end
        invariant
            start <= i <= end <= b@.len(),
            s == b@.subrange(start as int, end as int),
            forall|k: int| 0 <= k < i - start ==> is_digit(#[trigger] s[k]),
            value == digits_value(s.take(i - start)),
            value <= 0xffff,
        decreases end - i,
    {
        let c = b[i];
        if !(0x30 <= c && c <= 0x39) {
            assert(!is_digit(s[i - start]));
            return None;
        }
        assert(s.take(i - start + 1).drop_last() =~= s.take(i - start));
        assert(s.take(i - start + 1).last() == c);
        let next = value * 10 + ((c - 0x30) as u32);
        if next > 0xffff {
            proof {
                if forall|k: int| 0 <= k < s.len() ==> is_digit(#[trigger] s[k]) {
                    lemma_digits_monotone(s, i - start + 1);
                }
            }
            return None;
        }
        value = next;
        i += 1;
    }
    assert(s.take(end - start) =~= s);
    Some(value as u16)
}

/// The index of the first SGR mouse terminator (M or m) at or after `i`.
pub open spec fn mouse_final_from(b: Seq<u8>, i: int) -> Option<int>
    decreases b.len() - i,
{
    if i < 0 || i >= b.len() {
        None
    } else if b[i] == 0x4d || b[i] == 0x6d {
        Some(i)
    } else {
        mouse_final_from(b, i + 1)
    }
}

/// The index of the first `;` at or after `i` and before `end`.
pub open spec fn semicolon_from(b: Seq<u8>, i: int, end: int) -> Option<int>
    decreases end - i,
{
    if i < 0 || i >= end || end > b.len() {
        None
    } else if b[i] == 0x3b {
        Some(i)
    } else {
        semicolon_from(b, i + 1, end)
    }
}

proof fn lemma_semicolon_from(b: Seq<u8>, i: int, end: int)
    ensures
        match semicolon_from(b, i, end) {
            Some(k) => i <= k < end && b[k] == 0x3b,
            None => true,
        },
    decreases end - i,
{
    if !(i < 0 || i >= end || end > b.len()) && b[i] != 0x3b {
        lemma_semicolon_from(b, i + 1, end);
    }
}

proof fn lemma_mouse_final_from(b: Seq<u8>, i: int)
    ensures
        match mouse_final_from(b, i) {
            Some(k) => i <= k < b.len() && (b[k] == 0x4d || b[k] == 0x6d),
            None => true,
        },
    decreases b.len() - i,
{
    if !(i < 0 || i >= b.len()) && !(b[i] == 0x4d || b[i] == 0x6d) {
        lemma_mouse_final_from(b, i + 1);
    }
}

/// The three `;`-separated fields of an SGR mouse report, with where the
/// first field ends: button, column and row.
pub open spec fn mouse_fields(b: Seq<u8>, f: int) -> Option<(u16, u16, u16, int)> {
    match semicolon_from(b, 3, f) {
        None => None,
        Some(i1) => match semicolon_from(b, i1 + 1, f) {
            None => None,
            Some(i2) => if semicolon_from(b, i2 + 1, f) is Some {
                None
            } else {
                match (
                    parse_field(b.subrange(3, i1)),
                    parse_field(b.subrange(i1 + 1, i2)),
                    parse_field(b.subrange(i2 + 1, f)),
                ) {
                    (Some(button), Some(column), Some(row)) => Some((button, column, row, i1)),
                    _ => None,
                }
            },
        },
    }
}

/// What a button code and press/release mean to the multiplexer.
pub open spec fn mouse_action(button: u16, released: bool, position: MousePosition) -> MouseAction {
    if button & 64 != 0 && button & 3 == 0 {
        MouseAction::ScrollUp(position)
    } else if button & 64 != 0 && button & 3 == 1 {
        MouseAction::ScrollDown(position)
    } else if released && button & 3 == 0 {
        MouseAction::SelectEnd(position)
    } else if button & 32 != 0 && button & 3 == 0 {
        MouseAction::SelectExtend(position)
    } else if button & 32 == 0 && button & 3 == 0 {
        MouseAction::SelectStart(position)
    } else {
        MouseAction::Other(position)
    }
}

/// An SGR mouse report `ESC [ < button ; column ; row (M|m)` at the start of
/// `b`, and its length. Oversized or malformed fields reject the report.
pub open spec fn sgr_mouse_spec(b: Seq<u8>) -> Option<(MouseAction, usize)> {
    if !starts_with(b, seq![0x1bu8, 0x5b, 0x3c]) {
        None
    } else {
        match mouse_final_from(b, 3) {
            None => None,
            Some(f) => match mouse_fields(b, f) {
                None => None,
                Some((button, column, row, _)) => Some(
                    (mouse_action(button, b[f] == 0x6d, MousePosition { column, row }), (f + 1) as usize),
                ),
            },
        }
    }
}

fn semicolon_exec(b: &[u8], i: usize, end: usize) -> (r: Option<usize>)
    requires
        i <= end <= b@.len(),
    ensures
        match r {
            Some(k) => semicolon_from(b@, i as int, end as int) == Some(k as int),
            None => semicolon_from(b@, i as int, end as int) is None,
        },
{
    let mut k = i;
    while k < end
        invariant
            i <= k <= end <= b@.len(),
            semicolon_from(b@, i as int, end as int) == semicolon_from(b@, k as int, end as int),
        decreases end - k,
    {
        if b[k] == 0x3b {
            return Some(k);
        }
        k += 1;
    }
    None
}

/// Recognize an SGR mouse report at the start of `bytes`.
pub fn decode_sgr_mouse(bytes: &[u8]) -> (r: Option<(MouseAction, usize)>)
    ensures
        r == sgr_mouse_spec(bytes@),
{
    let intro = [0x1bu8, 0x5b, 0x3c];
    assert(intro@ =~= seq![0x1bu8, 0x5b, 0x3c]);
    assert(bytes@.skip(0) =~= bytes@);
    if !prefix_at(bytes, 0, &intro) {
        return None;
    }
    let length = bytes.len();
    let mut f: usize = 3;
    while f < length && bytes[f] != 0x4d && bytes[f] != 0x6d
        invariant
            3 <= f <= length,
            length == bytes@.len(),
            mouse_final_from(bytes@, 3) == mouse_final_from(bytes@, f as int),
        decreases length - f,
    {
        f += 1;
    }
    if f == length {
        return None;
    }
    let i1 = match semicolon_exec(bytes, 3, f) {
        Some(i) => i,
        None => {
            return None;
        },
    };
    proof {
        lemma_semicolon_from(bytes@, 3, f as int);
    }
    let i2 = match semicolon_exec(bytes, i1 + 1, f) {
        Some(i) => i,
        None => {
            return None;
        },
    };
    proof {
        lemma_semicolon_from(bytes@, i1 + 1, f as int);
    }
    if semicolon_exec(bytes, i2 + 1, f).is_some() {
        return None;
    }
    let button = match parse_field_exec(bytes, 3, i1) {
        Some(v) => v,
        None => {
            return None;
        },
    };
    let column = match parse_field_exec(bytes, i1 + 1, i2) {
        Some(v) => v,
        None => {
            return None;
        },
    };
    let row = match parse_field_exec(bytes, i2 + 1, f) {
        Some(v) => v,
        None => {
            return None;
        },
    };
    let position = MousePosition { column, row };
    let released = bytes[f] == 0x6d;
    let action = if button & 64 != 0 && button & 3 == 0 {
        MouseAction::ScrollUp(position)
    } else if button & 64 != 0 && button & 3 == 1 {
        MouseAction::ScrollDown(position)
    } else if released && button & 3 == 0 {
        MouseAction::SelectEnd(position)
    } else if button & 32 != 0 && button & 3 == 0 {
        MouseAction::SelectExtend(position)
    } else if button & 32 == 0 && button & 3 == 0 {
        MouseAction::SelectStart(position)
    } else {
        MouseAction::Other(position)
    };
    Some((action, f + 1))
}

pub open spec fn sat_add16(a: u16, b: u16) -> u16 {
    if a + b <= 0xffff {
        (a + b) as u16
    } else {
        0xffff
    }
}

/// The same report with its coordinates replaced by `position` (zero-based,
/// written one-based), for forwarding to a pane.
pub open spec fn sgr_mouse_at_spec(b: Seq<u8>, position: MousePosition) -> Option<Seq<u8>> {
    match sgr_mouse_spec(b) {
        None => None,
        Some((_, consumed)) => {
            let f = consumed - 1;
            let i1 = mouse_fields(b, f)->Some_0.3;
            Some(
                b.take(i1 + 1) + decimal(sat_add16(position.column, 1) as nat) + seq![0x3bu8] + decimal(
                    sat_add16(position.row, 1) as nat,
                ) + seq![b[f]],
            )
        },
    }
}

pub fn sgr_mouse_at(bytes: &[u8], position: MousePosition) -> (r: Option<Vec<u8>>)
    ensures
        match r {
            Some(v) => sgr_mouse_at_spec(bytes@, position) == Some(v@),
            None => sgr_mouse_at_spec(bytes@, position) is None,
        },
{
    let length = bytes.len();
    proof {
        lemma_mouse_final_from(bytes@, 3);
    }
    let consumed = match decode_sgr_mouse(bytes) {
        Some((_, consumed)) => consumed,
        None => {
            return None;
        },
    };
    assert(mouse_final_from(bytes@, 3) == Some(consumed - 1));
    let f = consumed - 1;
    proof {
        lemma_semicolon_from(bytes@, 3, f as int);
    }
    let i1 = match semicolon_exec(bytes, 3, f) {
        Some(i) => i,
        None => {
            return None;
        },
    };
    let mut translated: Vec<u8> = Vec::new();
    let mut k: usize = 0;
    while k <= i1
        invariant
            i1 < bytes@.len(),
            k <= i1 + 1,
            translated@ == bytes@.take(k as int),
        decreases i1 + 1 - k,
    {
        translated.push(bytes[k]);
        assert(bytes@.take(k + 1) =~= bytes@.take(k as int).push(bytes@[k as int]));
        k += 1;
    }
    push_decimal(&mut translated, position.column.saturating_add(1) as usize);
    translated.push(0x3b);
    push_decimal(&mut translated, position.row.saturating_add(1) as usize);
    translated.push(bytes[f]);
    assert(translated@ =~= bytes@.take(i1 + 1) + decimal(sat_add16(position.column, 1) as nat) + seq![0x3bu8]
        + decimal(sat_add16(position.row, 1) as nat) + seq![bytes@[f as int]]);
    Some(translated)
}

/// A decoded key press: its name ("ctrl b", "up", "x"), the bytes it came
/// from, and the Kitty event type (1 press, 2 repeat, 3 release).
#[derive(Debug, PartialEq, Eq)]
pub struct DecodedKey {
    pub name: String,
    pub raw: Vec<u8>,
    pub event_type: u8,
}

/// Unicode's control characters (general category Cc).
pub open spec fn is_control_char(c: char) -> bool {
    (c as u32) <= 0x1f || (0x7f <= (c as u32) && (c as u32) <= 0x9f)
}

impl DecodedKey {
    /// The printable character this key event types, if any. Applications
    /// using the Kitty keyboard protocol encode even ordinary text as CSI
    /// sequences, so `raw` is not necessarily the text that the user typed.
    /// Key releases never type anything.
    pub open spec fn text_spec(&self) -> Option<Seq<char>> {
        if self.event_type != 3 && self.name@.len() == 1 && !is_control_char(self.name@[0]) {
            Some(self.name@)
        } else {
            None
        }
    }

    pub fn text(&self) -> (r: Option<&str>)
        ensures
            match r {
                Some(t) => self.text_spec() == Some(t@),
                None => self.text_spec() is None,
            },
    {
        let name = self.name.as_str();
        if self.event_type != 3 && name.unicode_len() == 1 {
            let c = name.get_char(0);
            let code = c as u32;
            if !(code <= 0x1f || (0x7f <= code && code <= 0x9f)) {
                return Some(name);
            }
        }
        None
    }
}

/// The first index at or after `i` where `s` holds `sep`.
pub open spec fn index_from(s: Seq<u8>, sep: u8, i: int) -> Option<int>
    decreases s.len() - i,
{
    if i < 0 || i >= s.len() {
        None
    } else if s[i] == sep {
        Some(i)
    } else {
        index_from(s, sep, i + 1)
    }
}

pub proof fn lemma_index_from(s: Seq<u8>, sep: u8, i: int)
    requires
        i >= 0,
    ensures
        match index_from(s, sep, i) {
            Some(k) => i <= k < s.len() && s[k] == sep && forall|j: int| i <= j < k ==> s[j] != sep,
            None => forall|j: int| i <= j < s.len() ==> s[j] != sep,
        },
    decreases s.len() - i,
{
    if !(i < 0 || i >= s.len()) && s[i] != sep {
        lemma_index_from(s, sep, i + 1);
    }
}

/// The `n`-th piece of `s` split at `sep` (as `str::split` gives them).
pub open spec fn piece(s: Seq<u8>, sep: u8, n: nat) -> Option<Seq<u8>>
    decreases s.len(),
{
    match index_from(s, sep, 0) {
        None => if n == 0 {
            Some(s)
        } else {
            None
        },
        Some(i) => if n == 0 {
            Some(s.take(i))
        } else {
            proof {
                lemma_index_from(s, sep, 0);
            }
            piece(s.skip(i + 1), sep, (n - 1) as nat)
        },
    }
}

fn index_exec(s: &[u8], lo: usize, hi: usize, sep: u8) -> (r: Option<usize>)
    requires
        lo <= hi <= s@.len(),
    ensures
        match r {
            Some(k) => index_from(s@.subrange(lo as int, hi as int), sep, 0) == Some(k - lo) && lo <= k < hi,
            None => index_from(s@.subrange(lo as int, hi as int), sep, 0) is None,
        },
{
    let ghost t = s@.subrange(lo as int, hi as int);
    let mut k = lo;
    while k < hi
        invariant
            lo <= k <= hi <= s@.len(),
            t == s@.subrange(lo as int, hi as int),
            index_from(t, sep, 0) == index_from(t, sep, k - lo),
        decreases hi - k,
    {
        if s[k] == sep {
            return Some(k);
        }
        k += 1;
    }
    None
}

pub(crate) fn piece_exec(s: &[u8], lo: usize, hi: usize, sep: u8, n: usize) -> (r: Option<(usize, usize)>)
    requires
        lo <= hi <= s@.len(),
    ensures
        match r {
            Some((a, b)) => lo <= a <= b <= hi && piece(s@.subrange(lo as int, hi as int), sep, n as nat) == Some(
                s@.subrange(a as int, b as int),
            ),
            None => piece(s@.subrange(lo as int, hi as int), sep, n as nat) is None,
        },
{
    let mut start = lo;
    let mut count: usize = 0;
    while count < n
        invariant
            lo <= start <= hi <= s@.len(),
            count <= n,
            piece(s@.subrange(lo as int, hi as int), sep, n as nat) == piece(
                s@.subrange(start as int, hi as int),
                sep,
                (n - count) as nat,
            ),
        decreases n - count,
    {
        match index_exec(s, start, hi, sep) {
            Some(k) => {
                proof {
                    lemma_index_from(s@.subrange(start as int, hi as int), sep, 0);
                }
                assert(s@.subrange(start as int, hi as int).skip(k - start + 1) =~= s@.subrange(k + 1, hi as int));
                start = k + 1;
                count += 1;
            },
            None => {
                return None;
            },
        }
    }
    match index_exec(s, start, hi, sep) {
        Some(k) => {
            assert(s@.subrange(start as int, hi as int).take(k - start) =~= s@.subrange(start as int, k as int));
            Some((start, k))
        },
        None => Some((start, hi)),
    }
}

/// `str::parse` for an unsigned integer no larger than `max`: an optional
/// `+`, then one or more digits.
pub open spec fn parse_unsigned(s: Seq<u8>, max: int) -> Option<int> {
    let d = if s.len() > 0 && s[0] == 0x2b {
        s.drop_first()
    } else {
        s
    };
    if d.len() > 0 && all_digits(d) && digits_value(d) <= max {
        Some(digits_value(d))
    } else {
        None
    }
}

pub open spec fn all_digits(d: Seq<u8>) -> bool {
    forall|i: int| 0 <= i < d.len() ==> is_digit(#[trigger] d[i])
}

pub(crate) fn parse_unsigned_exec(b: &[u8], lo: usize, hi: usize, max: u32) -> (r: Option<u32>)
    requires
        lo <= hi <= b@.len(),
    ensures
        match r {
            Some(v) => parse_unsigned(b@.subrange(lo as int, hi as int), max as int) == Some(v as int),
            None => parse_unsigned(b@.subrange(lo as int, hi as int), max as int) is None,
        },
{
    let ghost s = b@.subrange(lo as int, hi as int);
    let start = if lo < hi && b[lo] == 0x2b {
        lo + 1
    } else {
        lo
    };
    let ghost d = b@.subrange(start as int, hi as int);
    assert(d =~= (if s.len() > 0 && s[0] == 0x2b {
        s.drop_first()
    } else {
        s
    }));
    if start == hi {
        return None;
    }
    let mut value: u64 = 0;
    let mut i = start;
    while i < hi
        invariant
            start <= i <= hi <= b@.len(),
            d == b@.subrange(start as int, hi as int),
            s == b@.subrange(lo as int, hi as int),
            d == (if s.len() > 0 && s[0] == 0x2b {
                s.drop_first()
            } else {
                s
            }),
            forall|k: int| 0 <= k < i - start ==> is_digit(#[trigger] d[k]),
            value == digits_value(d.take(i - start)),
            value <= max,
        decreases hi - i,
    {
        let c = b[i];
        if !(0x30 <= c && c <= 0x39) {
            assert(!is_digit(d[i - start]));
            assert(!all_digits(d));
            return None;
        }
        assert(d.take(i - start + 1).drop_last() =~= d.take(i - start));
        assert(d.take(i - start + 1).last() == c);
        let next = value * 10 + ((c - 0x30) as u64);
        if next > max as u64 {
            proof {
                if all_digits(d) {
                    lemma_digits_monotone(d, i - start + 1);
                }
            }
            return None;
        }
        value = next;
        i += 1;
    }
    assert(d.take(hi - start) =~= d);
    Some(value as u32)
}

/// `char::from_u32`: scalar values only.
pub open spec fn scalar(v: int) -> Option<char> {
    if 0 <= v <= 0x10ffff && !(0xd800 <= v <= 0xdfff) {
        Some(v as char)
    } else {
        None
    }
}

fn scalar_exec(v: u32) -> (r: Option<char>)
    ensures
        r == scalar(v as int),
{
    if v <= 0x10ffff && !(0xd800 <= v && v <= 0xdfff) {
        Some(crate::utf8::scalar_to_char(v))
    } else {
        None
    }
}

/// A key name with its modifiers, as "ctrl alt super hyper meta shift base";
/// shift is named only for keys that are not a single character.
pub open spec fn modified_name(base: Seq<char>, mods: u8) -> Seq<char> {
    (if mods & 4 != 0 {
        "ctrl "@
    } else {
        Seq::empty()
    }) + (if mods & 2 != 0 {
        "alt "@
    } else {
        Seq::empty()
    }) + (if mods & 8 != 0 {
        "super "@
    } else {
        Seq::empty()
    }) + (if mods & 16 != 0 {
        "hyper "@
    } else {
        Seq::empty()
    }) + (if mods & 32 != 0 {
        "meta "@
    } else {
        Seq::empty()
    }) + (if mods & 1 != 0 && base.len() != 1 {
        "shift "@
    } else {
        Seq::empty()
    }) + base
}

pub open spec fn sat_sub8(v: int) -> u8 {
    if v >= 1 {
        (v - 1) as u8
    } else {
        0
    }
}

/// The name of a Kitty keyboard-protocol key, from `code[:shifted];modifiers[:event]`.
pub open spec fn kitty_key_name(params: Seq<u8>) -> Option<Seq<char>> {
    let first = piece(params, 0x3b, 0)->Some_0;
    match parse_unsigned(piece(first, 0x3a, 0)->Some_0, 0xffff_ffff) {
        None => None,
        Some(code) => {
            let raw_mods = match piece(params, 0x3b, 1) {
                Some(f) => match parse_unsigned(piece(f, 0x3a, 0)->Some_0, 0xff) {
                    Some(v) => v,
                    None => 1,
                },
                None => 1,
            };
            let mods = sat_sub8(raw_mods);
            let shifted = match piece(first, 0x3a, 1) {
                Some(t) => if t.len() > 0 {
                    match parse_unsigned(t, 0xffff_ffff) {
                        Some(v) => scalar(v),
                        None => None,
                    }
                } else {
                    None
                },
                None => None,
            };
            let base = if code == 9 {
                Some("tab"@)
            } else if code == 13 {
                Some("enter"@)
            } else if code == 27 {
                Some("esc"@)
            } else if code == 127 {
                Some("backspace"@)
            } else {
                let c = if mods & 1 != 0 && shifted is Some {
                    shifted
                } else {
                    scalar(code)
                };
                match c {
                    Some(c) => Some(seq![c]),
                    None => None,
                }
            };
            match base {
                Some(b) => Some(modified_name(b, mods)),
                None => None,
            }
        },
    }
}

pub open spec fn is_ascii_alpha(c: char) -> bool {
    ('a' <= c <= 'z') || ('A' <= c <= 'Z')
}

pub open spec fn lower_ascii(c: char) -> char {
    if 'A' <= c <= 'Z' {
        ((c as u32) + 32) as char
    } else {
        c
    }
}

/// The name of an xterm modifyOtherKeys key, from `27;modifiers;code`.
pub open spec fn xterm_key_name(params: Seq<u8>) -> Option<Seq<char>> {
    match (piece(params, 0x3b, 1), piece(params, 0x3b, 2)) {
        (Some(f1), Some(f2)) => match (parse_unsigned(f1, 0xff), parse_unsigned(f2, 0xffff_ffff)) {
            (Some(m), Some(code)) => match scalar(code) {
                Some(c) => {
                    let mods = sat_sub8(m);
                    if mods & 4 != 0 && is_ascii_alpha(c) {
                        Some("ctrl "@ + seq![lower_ascii(c)])
                    } else if mods & 2 != 0 {
                        Some("alt "@ + seq![c])
                    } else {
                        Some(seq![c])
                    }
                },
                None => None,
            },
            _ => None,
        },
        _ => None,
    }
}

/// The name of a complete CSI key sequence, if it is one this decoder knows.
pub open spec fn csi_key_name(raw: Seq<u8>) -> Option<Seq<char>> {
    let f = raw.last();
    let params = raw.subrange(2, raw.len() - 1);
    if !valid_utf8(params) {
        None
    } else if f == 0x41 {
        Some("up"@)
    } else if f == 0x42 {
        Some("down"@)
    } else if f == 0x43 {
        Some("right"@)
    } else if f == 0x44 {
        Some("left"@)
    } else if f == 0x48 {
        Some("home"@)
    } else if f == 0x46 {
        Some("end"@)
    } else if f == 0x7e && params == seq![0x35u8] {
        Some("pageup"@)
    } else if f == 0x7e && params == seq![0x36u8] {
        Some("pagedown"@)
    } else if f == 0x7e && params == seq![0x33u8] {
        Some("delete"@)
    } else if f == 0x75 {
        kitty_key_name(params)
    } else if f == 0x7e && starts_with(params, seq![0x32u8, 0x37, 0x3b]) {
        xterm_key_name(params)
    } else {
        None
    }
}

/// The Kitty event type of a CSI key sequence (1 when it does not say).
pub open spec fn kitty_event_type(raw: Seq<u8>) -> u8 {
    let params = raw.subrange(2, raw.len() - 1);
    if raw.last() != 0x75 || !valid_utf8(params) {
        1
    } else {
        match piece(params, 0x3b, 1) {
            Some(f) => match piece(f, 0x3a, 1) {
                Some(e) => match parse_unsigned(e, 0xff) {
                    Some(v) => v as u8,
                    None => 1,
                },
                None => 1,
            },
            None => 1,
        }
    }
}

/// The UTF-8 length of a character.
pub open spec fn char_len(c: char) -> int {
    let v = c as u32;
    if v < 0x80 {
        1
    } else if v < 0x800 {
        2
    } else if v < 0x10000 {
        3
    } else {
        4
    }
}

/// The key at the start of `b`: its name, raw bytes, event type and length.
pub open spec fn key_spec(b: Seq<u8>) -> (Seq<char>, Seq<u8>, u8, int) {
    let b0 = b[0];
    if b0 == 13 || b0 == 10 {
        ("enter"@, seq![b0], 1, 1)
    } else if b0 == 9 {
        ("tab"@, seq![b0], 1, 1)
    } else if b0 == 0x7f {
        ("backspace"@, seq![b0], 1, 1)
    } else if 0x01 <= b0 <= 0x1a {
        ("ctrl "@ + seq![(0x61 + b0 - 1) as char], seq![b0], 1, 1)
    } else if b0 == 0x1b && b.len() > 1 && b[1] == 0x5b {
        match index_final(b, 2) {
            None => ("esc"@, seq![b0], 1, 1),
            Some(k) => {
                let raw = b.take(k + 1);
                (
                    match csi_key_name(raw) {
                        Some(n) => n,
                        None => "unbound-csi"@,
                    },
                    raw,
                    kitty_event_type(raw),
                    k + 1,
                )
            },
        }
    } else if b0 == 0x1b && b.len() > 1 && 0x21 <= b[1] <= 0x7e {
        ("alt "@ + seq![b[1] as char], b.take(2), 1, 2)
    } else if b0 == 0x1b {
        ("esc"@, seq![b0], 1, 1)
    } else if 0x20 <= b0 <= 0x7e {
        (seq![b0 as char], seq![b0], 1, 1)
    } else if valid_utf8(b) {
        let c = decode_utf8(b)[0];
        let w = if char_len(c) <= b.len() {
            char_len(c)
        } else {
            b.len() as int
        };
        (seq![c], b.take(w), 1, w)
    } else {
        (
            if b0 < 0x80 {
                seq![b0 as char]
            } else {
                seq!['\u{fffd}']
            },
            seq![b0],
            1,
            1,
        )
    }
}

/// The first final byte of a control sequence at or after `i`.
pub open spec fn index_final(b: Seq<u8>, i: int) -> Option<int>
    decreases b.len() - i,
{
    if i < 0 || i >= b.len() {
        None
    } else if is_final_byte(b[i]) {
        Some(i)
    } else {
        index_final(b, i + 1)
    }
}

proof fn lemma_index_final(b: Seq<u8>, i: int)
    ensures
        match index_final(b, i) {
            Some(k) => i <= k < b.len(),
            None => true,
        },
    decreases b.len() - i,
{
    if !(i < 0 || i >= b.len()) && !is_final_byte(b[i]) {
        lemma_index_final(b, i + 1);
    }
}

fn literal(text: &str) -> (r: String)
    ensures
        r@ == text@,
{
    text.to_owned()
}

fn copy_bytes(b: &[u8], n: usize) -> (r: Vec<u8>)
    requires
        n <= b@.len(),
    ensures
        r@ == b@.take(n as int),
{
    let mut out: Vec<u8> = Vec::new();
    let mut i: usize = 0;
    while i < n
        invariant
            n <= b@.len(),
            i <= n,
            out@ == b@.take(i as int),
        decreases n - i,
    {
        out.push(b[i]);
        assert(b@.take(i + 1) =~= b@.take(i as int).push(b@[i as int]));
        i += 1;
    }
    out
}

fn kitty_key_name_exec(p: &[u8], lo: usize, hi: usize) -> (r: Option<String>)
    requires
        lo <= hi <= p@.len(),
    ensures
        match r {
            Some(n) => kitty_key_name(p@.subrange(lo as int, hi as int)) == Some(n@),
            None => kitty_key_name(p@.subrange(lo as int, hi as int)) is None,
        },
{
    let ghost params = p@.subrange(lo as int, hi as int);
    let (f0, f1) = match piece_exec(p, lo, hi, 0x3b, 0) {
        Some(range) => range,
        None => {
            proof {
                lemma_piece_first(params, 0x3b);
            }
            return None;
        },
    };
    let ghost first = p@.subrange(f0 as int, f1 as int);
    assert(p@.subrange(f0 as int, f1 as int) == first);
    let (c0, c1) = match piece_exec(p, f0, f1, 0x3a, 0) {
        Some(range) => range,
        None => {
            proof {
                lemma_piece_first(first, 0x3a);
            }
            return None;
        },
    };
    let code = match parse_unsigned_exec(p, c0, c1, 0xffff_ffff) {
        Some(v) => v,
        None => {
            return None;
        },
    };
    let raw_mods: u32 = match piece_exec(p, lo, hi, 0x3b, 1) {
        Some((m0, m1)) => {
            match piece_exec(p, m0, m1, 0x3a, 0) {
                Some((v0, v1)) => match parse_unsigned_exec(p, v0, v1, 0xff) {
                    Some(v) => v,
                    None => 1,
                },
                None => {
                    proof {
                        lemma_piece_first(p@.subrange(m0 as int, m1 as int), 0x3a);
                    }
                    1
                },
            }
        },
        None => 1,
    };
    let mods: u8 = if raw_mods >= 1 {
        (raw_mods - 1) as u8
    } else {
        0
    };
    let shifted = match piece_exec(p, f0, f1, 0x3a, 1) {
        Some((s0, s1)) => if s1 > s0 {
            match parse_unsigned_exec(p, s0, s1, 0xffff_ffff) {
                Some(v) => scalar_exec(v),
                None => None,
            }
        } else {
            None
        },
        None => None,
    };
    let base = if code == 9 {
        literal("tab")
    } else if code == 13 {
        literal("enter")
    } else if code == 27 {
        literal("esc")
    } else if code == 127 {
        literal("backspace")
    } else {
        let c = if mods & 1 != 0 && shifted.is_some() {
            shifted
        } else {
            scalar_exec(code)
        };
        match c {
            Some(c) => {
                let mut single = String::new();
                push_char(&mut single, c);
                assert(single@ =~= seq![c]);
                single
            },
            None => {
                return None;
            },
        }
    };
    Some(modified_name_exec(base, mods))
}

proof fn lemma_piece_first(s: Seq<u8>, sep: u8)
    ensures
        piece(s, sep, 0) is Some,
{
}

fn modified_name_exec(base: String, mods: u8) -> (r: String)
    ensures
        r@ == modified_name(base@, mods),
{
    let mut name = String::new();
    if mods & 4 != 0 {
        crate::text::push_str(&mut name, "ctrl ");
    }
    if mods & 2 != 0 {
        crate::text::push_str(&mut name, "alt ");
    }
    if mods & 8 != 0 {
        crate::text::push_str(&mut name, "super ");
    }
    if mods & 16 != 0 {
        crate::text::push_str(&mut name, "hyper ");
    }
    if mods & 32 != 0 {
        crate::text::push_str(&mut name, "meta ");
    }
    if mods & 1 != 0 && base.as_str().unicode_len() != 1 {
        crate::text::push_str(&mut name, "shift ");
    }
    crate::text::push_str(&mut name, base.as_str());
    assert(name@ =~= modified_name(base@, mods));
    name
}

fn xterm_key_name_exec(p: &[u8], lo: usize, hi: usize) -> (r: Option<String>)
    requires
        lo <= hi <= p@.len(),
    ensures
        match r {
            Some(n) => xterm_key_name(p@.subrange(lo as int, hi as int)) == Some(n@),
            None => xterm_key_name(p@.subrange(lo as int, hi as int)) is None,
        },
{
    let (a0, a1) = match piece_exec(p, lo, hi, 0x3b, 1) {
        Some(range) => range,
        None => {
            return None;
        },
    };
    let (b0, b1) = match piece_exec(p, lo, hi, 0x3b, 2) {
        Some(range) => range,
        None => {
            return None;
        },
    };
    let m = match parse_unsigned_exec(p, a0, a1, 0xff) {
        Some(v) => v,
        None => {
            return None;
        },
    };
    let code = match parse_unsigned_exec(p, b0, b1, 0xffff_ffff) {
        Some(v) => v,
        None => {
            return None;
        },
    };
    let c = match scalar_exec(code) {
        Some(c) => c,
        None => {
            return None;
        },
    };
    let mods: u8 = if m >= 1 {
        (m - 1) as u8
    } else {
        0
    };
    let alpha = ('a' <= c && c <= 'z') || ('A' <= c && c <= 'Z');
    if mods & 4 != 0 && alpha {
        let lowered = if 'A' <= c && c <= 'Z' {
            ((c as u8) + 32) as char
        } else {
            c
        };
        let mut name = literal("ctrl ");
        push_char(&mut name, lowered);
        Some(name)
    } else if mods & 2 != 0 {
        let mut name = literal("alt ");
        push_char(&mut name, c);
        Some(name)
    } else {
        let mut name = String::new();
        push_char(&mut name, c);
        assert(name@ =~= seq![c]);
        Some(name)
    }
}

fn csi_key_name_exec(raw: &[u8]) -> (r: Option<String>)
    requires
        raw@.len() >= 3,
    ensures
        match r {
            Some(n) => csi_key_name(raw@) == Some(n@),
            None => csi_key_name(raw@) is None,
        },
{
    let n = raw.len();
    let f = raw[n - 1];
    let params = &raw[2..n - 1];
    assert(params@ =~= raw@.subrange(2, n - 1));
    if utf8_string(params).is_none() {
        return None;
    }
    if f == 0x41 {
        Some(literal("up"))
    } else if f == 0x42 {
        Some(literal("down"))
    } else if f == 0x43 {
        Some(literal("right"))
    } else if f == 0x44 {
        Some(literal("left"))
    } else if f == 0x48 {
        Some(literal("home"))
    } else if f == 0x46 {
        Some(literal("end"))
    } else if f == 0x7e && n == 4 && raw[2] == 0x35 {
        assert(params@ =~= seq![0x35u8]);
        Some(literal("pageup"))
    } else if f == 0x7e && n == 4 && raw[2] == 0x36 {
        assert(params@ =~= seq![0x36u8]);
        Some(literal("pagedown"))
    } else if f == 0x7e && n == 4 && raw[2] == 0x33 {
        assert(params@ =~= seq![0x33u8]);
        Some(literal("delete"))
    } else if f == 0x75 {
        assert(params@ != seq![0x35u8] || f != 0x7e);
        kitty_key_name_exec(raw, 2, n - 1)
    } else {
        assert(f == 0x7e ==> (params@ != seq![0x35u8] && params@ != seq![0x36u8] && params@ != seq![0x33u8])) by {
            if params@.len() == 1 {
                assert(n == 4);
                assert(params@[0] == raw@[2]);
            }
        }
        let intro = [0x32u8, 0x37, 0x3b];
        assert(intro@ =~= seq![0x32u8, 0x37, 0x3b]);
        assert(params@.skip(0) =~= params@);
        if f == 0x7e && prefix_at(params, 0, &intro) {
            xterm_key_name_exec(raw, 2, n - 1)
        } else {
            None
        }
    }
}

fn kitty_event_type_exec(raw: &[u8]) -> (r: u8)
    requires
        raw@.len() >= 3,
    ensures
        r == kitty_event_type(raw@),
{
    let n = raw.len();
    let params = &raw[2..n - 1];
    assert(params@ =~= raw@.subrange(2, n - 1));
    if raw[n - 1] != 0x75 || utf8_string(params).is_none() {
        return 1;
    }
    match piece_exec(raw, 2, n - 1, 0x3b, 1) {
        Some((a, b)) => match piece_exec(raw, a, b, 0x3a, 1) {
            Some((c, d)) => match parse_unsigned_exec(raw, c, d, 0xff) {
                Some(v) => v as u8,
                None => 1,
            },
            None => 1,
        },
        None => 1,
    }
}

fn char_len_exec(c: char) -> (r: usize)
    ensures
        r == char_len(c),
{
    let v = c as u32;
    if v < 0x80 {
        1
    } else if v < 0x800 {
        2
    } else if v < 0x10000 {
        3
    } else {
        4
    }
}

fn single(name: &str, byte: u8) -> (r: (DecodedKey, usize))
    ensures
        r.0.name@ == name@,
        r.0.raw@ == seq![byte],
        r.0.event_type == 1,
        r.1 == 1,
{
    let mut raw = Vec::new();
    raw.push(byte);
    assert(raw@ =~= seq![byte]);
    (DecodedKey { name: literal(name), raw, event_type: 1 }, 1)
}

/// Decode the key at the start of `bytes`.
pub fn decode_key(bytes: &[u8]) -> (r: (DecodedKey, usize))
    requires
        bytes@.len() > 0,
    ensures
        ({
            let (name, raw, event_type, consumed) = key_spec(bytes@);
            &&& r.0.name@ == name
            &&& r.0.raw@ == raw
            &&& r.0.event_type == event_type
            &&& r.1 == consumed
        }),
{
    let byte = bytes[0];
    let length = bytes.len();
    if byte == 13 || byte == 10 {
        single("enter", byte)
    } else if byte == 9 {
        single("tab", byte)
    } else if byte == 0x7f {
        single("backspace", byte)
    } else if 0x01 <= byte && byte <= 0x1a {
        let (mut key, consumed) = single("ctrl ", byte);
        push_char(&mut key.name, (0x61 + byte - 1) as char);
        (key, consumed)
    } else if byte == 0x1b && length > 1 && bytes[1] == 0x5b {
        let mut k: usize = 2;
        while k < length && !(0x40 <= bytes[k] && bytes[k] <= 0x7e)
            invariant
                2 <= k <= length,
                length == bytes@.len(),
                index_final(bytes@, 2) == index_final(bytes@, k as int),
            decreases length - k,
        {
            k += 1;
        }
        if k == length {
            return single("esc", byte);
        }
        let raw = copy_bytes(bytes, k + 1);
        let name = match csi_key_name_exec(raw.as_slice()) {
            Some(name) => name,
            None => literal("unbound-csi"),
        };
        let event_type = kitty_event_type_exec(raw.as_slice());
        (DecodedKey { name, raw, event_type }, k + 1)
    } else if byte == 0x1b && length > 1 && 0x21 <= bytes[1] && bytes[1] <= 0x7e {
        let mut name = literal("alt ");
        push_char(&mut name, bytes[1] as char);
        (DecodedKey { name, raw: copy_bytes(bytes, 2), event_type: 1 }, 2)
    } else if byte == 0x1b {
        single("esc", byte)
    } else if 0x20 <= byte && byte <= 0x7e {
        let mut name = String::new();
        push_char(&mut name, byte as char);
        assert(name@ =~= seq![byte as char]);
        let mut raw = Vec::new();
        raw.push(byte);
        assert(raw@ =~= seq![byte]);
        (DecodedKey { name, raw, event_type: 1 }, 1)
    } else {
        match utf8_string(bytes) {
            Some(text) => {
                assert(decode_utf8(bytes@).len() > 0);
                let c = text.as_str().get_char(0);
                let w = char_len_exec(c);
                let width = if w <= length {
                    w
                } else {
                    length
                };
                let mut name = String::new();
                push_char(&mut name, c);
                assert(name@ =~= seq![c]);
                (DecodedKey { name, raw: copy_bytes(bytes, width), event_type: 1 }, width)
            },
            None => {
                let mut name = String::new();
                if byte < 0x80 {
                    push_char(&mut name, byte as char);
                    assert(name@ =~= seq![byte as char]);
                } else {
                    push_char(&mut name, '\u{fffd}');
                    assert(name@ =~= seq!['\u{fffd}']);
                }
                let mut raw = Vec::new();
                raw.push(byte);
                assert(raw@ =~= seq![byte]);
                (DecodedKey { name, raw, event_type: 1 }, 1)
            },
        }
    }
}

} // verus!



