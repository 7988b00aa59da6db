//! Multiplexer decisions that need no terminal: which directory a new pane
//! starts in, text selection, searching, renaming, and the drag-and-drop
//! bridge between two panes.

use vstd::prelude::*;

use crate::input::{DecodedKey, MousePosition};
use crate::session::SessionInfo;
use crate::text::{contains_seq, contains_text, lowercase, pop_char, push_char, push_str, to_lowercase, utf8_string};
use crate::parser::{decimal, push_decimal};
use vstd::utf8::{decode_utf8, valid_utf8};

verus! {

/// ASCII-only lowercasing of one character.
pub open spec fn ascii_lower(c: char) -> char {
    if 'A' <= c <= 'Z' {
        ((c as u32) + 32) as char
    } else {
        c
    }
}

pub open spec fn ascii_lowercase(s: Seq<char>) -> Seq<char> {
    s.map_values(|c: char| ascii_lower(c))
}

fn ascii_lower_exec(c: char) -> (r: char)
    ensures
        r == ascii_lower(c),
{
    if 'A' <= c && c <= 'Z' {
        ((c as u8) + 32) as char
    } else {
        c
    }
}

/// `str::to_ascii_lowercase`: ASCII letters are lowered, everything else is kept.
pub fn to_ascii_lowercase(text: &str) -> (r: String)
    ensures
        r@ == ascii_lowercase(text@),
{
    let mut out = String::new();
    let n = text.unicode_len();
    let mut i: usize = 0;
    while i < n
        invariant
            n == text@.len(),
            i <= n,
            out@ == ascii_lowercase(text@.take(i as int)),
        decreases n - i,
    {
        let c = ascii_lower_exec(text.get_char(i));
        push_char(&mut out, c);
        assert(ascii_lowercase(text@.take(i + 1)) =~= ascii_lowercase(text@.take(i as int)).push(c));
        i += 1;
    }
    assert(text@.take(n as int) =~= text@);
    out
}

/// Whether a name is "yazi" in any ASCII letter case.
pub open spec fn is_yazi(name: Seq<char>) -> bool {
    ascii_lowercase(name) == seq!['y', 'a', 'z', 'i']
}

fn names_yazi(name: &str) -> (r: bool)
    ensures
        r == is_yazi(name@),
{
    let lowered = to_ascii_lowercase(name);
    let s = lowered.as_str();
    if s.unicode_len() != 4 {
        return false;
    }
    let r = s.get_char(0) == 'y' && s.get_char(1) == 'a' && s.get_char(2) == 'z' && s.get_char(3) == 'i';
    assert(r == (lowered@ =~= seq!['y', 'a', 'z', 'i']));
    r
}

/// `std::path::PathBuf`, carried through unread.
#[verifier::external_type_specification]
#[verifier::external_body]
pub struct ExPathBuf(std::path::PathBuf);

/// Where a new pane starts: the file manager yazi knows its directory better
/// than the shell's last report; otherwise the shell's report wins.
pub fn preferred_spawn_directory(
    shell_directory: Option<std::path::PathBuf>,
    foreground_application: Option<&str>,
    foreground_directory: Option<std::path::PathBuf>,
) -> (r: Option<std::path::PathBuf>)
    ensures
        r == if (match foreground_application {
            Some(name) => is_yazi(name@),
            None => false,
        }) {
            match foreground_directory {
                Some(d) => Some(d),
                None => shell_directory,
            }
        } else {
            match shell_directory {
                Some(t) => Some(t),
                None => foreground_directory,
            }
        },
{
    let yazi = match foreground_application {
        Some(name) => names_yazi(name),
        None => false,
    };
    if yazi {
        match foreground_directory {
            Some(d) => Some(d),
            None => shell_directory,
        }
    } else {
        match shell_directory {
            Some(t) => Some(t),
            None => foreground_directory,
        }
    }
}

/// A mouse or keyboard selection in one window, in cell coordinates.
#[derive(Clone, Copy, Debug, PartialEq, Eq, Structural)]
pub struct TextSelection {
    pub window_id: usize,
    pub start: MousePosition,
    pub end: MousePosition,
    pub keyboard: bool,
}

impl TextSelection {
    /// A click is not a selection until the pointer moves to another cell.
    pub fn spans_multiple_cells(self) -> (r: bool)
        ensures
            r == (self.start != self.end),
    {
        !(self.start.column == self.end.column && self.start.row == self.end.row)
    }

    /// Keyboard selections show even on a single cell.
    pub fn is_visible(self) -> (r: bool)
        ensures
            r == (self.keyboard || self.start != self.end),
    {
        self.keyboard || self.spans_multiple_cells()
    }
}

/// A cell's position in reading order.
pub open spec fn cell_index(row: u16, column: u16, columns: u16) -> int {
    row * columns + column
}

/// Whether a visible selection in `window_id` covers the cell, reading the
/// selection from its earlier to its later end.
pub open spec fn selection_covers(
    selection: Option<TextSelection>,
    window_id: usize,
    row: u16,
    column: u16,
    columns: u16,
) -> bool {
    match selection {
        None => false,
        Some(s) => {
            let p = cell_index(row, column, columns);
            let a = cell_index(s.start.row, s.start.column, columns);
            let b = cell_index(s.end.row, s.end.column, columns);
            &&& s.window_id == window_id
            &&& (s.keyboard || s.start != s.end)
            &&& (if a <= b {
                a <= p <= b
            } else {
                b <= p <= a
            })
        },
    }
}

fn cell_index_exec(row: u16, column: u16, columns: u16) -> (r: u64)
    ensures
        r == cell_index(row, column, columns),
{
    assert((row as u64) * (columns as u64) <= 0xffff * 0xffff) by (nonlinear_arith)
        requires
            row <= 0xffff,
            columns <= 0xffff,
    ;
    (row as u64) * (columns as u64) + (column as u64)
}

pub fn selection_contains(
    selection: Option<&TextSelection>,
    window_id: usize,
    row: u16,
    column: u16,
    columns: u16,
) -> (r: bool)
    ensures
        r == selection_covers(
            match selection {
                Some(s) => Some(*s),
                None => None,
            },
            window_id,
            row,
            column,
            columns,
        ),
{
    let selection = match selection {
        Some(s) => s,
        None => {
            return false;
        },
    };
    if selection.window_id != window_id || !selection.is_visible() {
        return false;
    }
    let position = cell_index_exec(row, column, columns);
    let start = cell_index_exec(selection.start.row, selection.start.column, columns);
    let end = cell_index_exec(selection.end.row, selection.end.column, columns);
    if start <= end {
        start <= position && position <= end
    } else {
        end <= position && position <= start
    }
}

/// The indexes of the lines that contain the query, ignoring case; an empty
/// query matches nothing.
pub open spec fn history_matches(lines: Seq<String>, query: Seq<char>) -> Seq<usize> {
    if query.len() == 0 {
        Seq::empty()
    } else {
        Seq::new(lines.len(), |i: int| i as usize).filter(
            |i: usize| contains_seq(lowercase(lines[i as int]@), lowercase(query)),
        )
    }
}

pub fn matching_history_lines(lines: &[String], query: &str) -> (r: Vec<usize>)
    ensures
        r@ == history_matches(lines@, query@),
{
    let mut out: Vec<usize> = Vec::new();
    if query.unicode_len() == 0 {
        return out;
    }
    let lowered = to_lowercase(query);
    let ghost all = Seq::new(lines@.len(), |i: int| i as usize);
    let ghost keep = |i: usize| contains_seq(lowercase(lines@[i as int]@), lowercase(query@));
    let mut i: usize = 0;
    while i < lines.len()
        invariant
            i <= lines@.len(),
            all == Seq::new(lines@.len(), |i: int| i as usize),
            lowered@ == lowercase(query@),
            keep == (|i: usize| contains_seq(lowercase(lines@[i as int]@), lowercase(query@))),
            out@ == all.take(i as int).filter(keep),
        decreases lines@.len() - i,
    {
        let line = to_lowercase(lines[i].as_str());
        let found = contains_text(line.as_str(), lowered.as_str());
        assert(all.take(i + 1).drop_last() =~= all.take(i as int));
        assert(all.take(i + 1).last() == i);
        if found {
            out.push(i);
        }
        assert(all.take(i + 1).filter(keep) == if keep(i) {
            all.take(i as int).filter(keep).push(i)
        } else {
            all.take(i as int).filter(keep)
        }) by {
            reveal(Seq::filter);
        }
        i += 1;
    }
    assert(all.take(lines@.len() as int) =~= all);
    out
}

/// What a key does to a window name being edited.
#[derive(Clone, Copy, Debug, PartialEq, Eq, Structural)]
pub enum RenameEdit {
    Continue,
    Confirm,
    Cancel,
}

/// The longest window name, in characters.
pub const MAX_WINDOW_NAME_CHARS: usize = 64;

/// Enter confirms, Esc cancels, Backspace deletes the last character, and
/// text is appended while the name stays within 64 characters.
pub open spec fn edit_name_spec(name: Seq<char>, key_name: Seq<char>, text: Option<Seq<char>>) -> (Seq<char>, RenameEdit) {
    if key_name == "enter"@ {
        (name, RenameEdit::Confirm)
    } else if key_name == "esc"@ {
        (name, RenameEdit::Cancel)
    } else if key_name == "backspace"@ {
        (
            if name.len() > 0 {
                name.drop_last()
            } else {
                name
            },
            RenameEdit::Continue,
        )
    } else {
        match text {
            Some(t) => if name.len() + t.len() <= MAX_WINDOW_NAME_CHARS {
                (name + t, RenameEdit::Continue)
            } else {
                (name, RenameEdit::Continue)
            },
            None => (name, RenameEdit::Continue),
        }
    }
}

/// Character-by-character equality of two strings.
pub fn same_text(a: &str, b: &str) -> (r: bool)
    ensures
        r == (a@ == b@),
{
    let n = a.unicode_len();
    if n != b.unicode_len() {
        return false;
    }
    let mut i: usize = 0;
    while i < n
        invariant
            n == a@.len(),
            n == b@.len(),
            i <= n,
            forall|k: int| 0 <= k < i ==> a@[k] == b@[k],
        decreases n - i,
    {
        if a.get_char(i) != b.get_char(i) {
            return false;
        }
        i += 1;
    }
    assert(a@ =~= b@);
    true
}

pub fn edit_window_name(name: &mut String, key: &DecodedKey) -> (r: RenameEdit)
    ensures
        (final(name)@, r) == edit_name_spec(old(name)@, key.name@, key.text_spec()),
{
    let key_name = key.name.as_str();
    if same_text(key_name, "enter") {
        return RenameEdit::Confirm;
    }
    if same_text(key_name, "esc") {
        return RenameEdit::Cancel;
    }
    if same_text(key_name, "backspace") {
        let _ = pop_char(name);
        return RenameEdit::Continue;
    }
    if let Some(text) = key.text() {
        let current = name.as_str().unicode_len();
        let added = text.unicode_len();
        if current <= MAX_WINDOW_NAME_CHARS && added <= MAX_WINDOW_NAME_CHARS - current {
            push_str(name, text);
        }
    }
    RenameEdit::Continue
}

pub(crate) fn copy_session_info(s: &SessionInfo) -> (r: SessionInfo)
    ensures
        r == *s,
{
    SessionInfo {
        name: s.name.clone(),
        tabs: s.tabs,
        panes: s.panes,
        connected: s.connected,
        created_at: s.created_at,
        last_connected_at: s.last_connected_at,
        saved: s.saved,
    }
}

/// The sessions whose names contain the query, ignoring ASCII case, in order.
pub open spec fn session_matches(sessions: Seq<SessionInfo>, query: Seq<char>) -> Seq<SessionInfo> {
    sessions.filter(|s: SessionInfo| contains_seq(ascii_lowercase(s.name@), ascii_lowercase(query)))
}

pub fn matching_session_info(sessions: &[SessionInfo], query: &str) -> (r: Vec<SessionInfo>)
    ensures
        r@ == session_matches(sessions@, query@),
{
    let lowered = to_ascii_lowercase(query);
    let ghost keep = |s: SessionInfo| contains_seq(ascii_lowercase(s.name@), ascii_lowercase(query@));
    let mut out: Vec<SessionInfo> = Vec::new();
    let mut i: usize = 0;
    while i < sessions.len()
        invariant
            i <= sessions@.len(),
            lowered@ == ascii_lowercase(query@),
            keep == (|s: SessionInfo| contains_seq(ascii_lowercase(s.name@), ascii_lowercase(query@))),
            out@ == sessions@.take(i as int).filter(keep),
        decreases sessions@.len() - i,
    {
        let name = to_ascii_lowercase(sessions[i].name.as_str());
        assert(sessions@.take(i + 1).drop_last() =~= sessions@.take(i as int));
        if contains_text(name.as_str(), lowered.as_str()) {
            out.push(copy_session_info(&sessions[i]));
        }
        assert(sessions@.take(i + 1).filter(keep) == if keep(sessions@[i as int]) {
            sessions@.take(i as int).filter(keep).push(sessions@[i as int])
        } else {
            sessions@.take(i as int).filter(keep)
        }) by {
            reveal(Seq::filter);
        }
        i += 1;
    }
    assert(sessions@.take(sessions@.len() as int) =~= sessions@);
    out
}

/// The session the manager selects first: the first detached session other
/// than the current one, else the first.
pub fn default_session_selection(sessions: &[SessionInfo], current: &str) -> (r: usize)
    ensures
        (exists|i: int| 0 <= i < sessions@.len() && !sessions@[i].connected && sessions@[i].name@ != current@)
            ==> {
            &&& r < sessions@.len()
            &&& !sessions@[r as int].connected && sessions@[r as int].name@ != current@
            &&& forall|j: int|
                0 <= j < r ==> sessions@[j].connected || sessions@[j].name@ == current@
        },
        !(exists|i: int| 0 <= i < sessions@.len() && !sessions@[i].connected && sessions@[i].name@ != current@)
            ==> r == 0,
{
    let mut i: usize = 0;
    while i < sessions.len()
        invariant
            i <= sessions@.len(),
            forall|j: int| 0 <= j < i ==> sessions@[j].connected || sessions@[j].name@ == current@,
        decreases sessions@.len() - i,
    {
        if !sessions[i].connected && !same_text(sessions[i].name.as_str(), current) {
            return i;
        }
        i += 1;
    }
    0
}

/// Unicode's White_Space characters, as `char::is_whitespace` documents them.
pub open spec fn is_space(c: char) -> bool {
    let v = c as u32;
    (0x09 <= v <= 0x0d) || v == 0x20 || v == 0x85 || v == 0xa0 || v == 0x1680 || (0x2000 <= v <= 0x200a)
        || v == 0x2028 || v == 0x2029 || v == 0x202f || v == 0x205f || v == 0x3000
}

pub(crate) fn is_space_exec(c: char) -> (r: bool)
    ensures
        r == is_space(c),
{
    let v = c as u32;
    (0x09 <= v && v <= 0x0d) || v == 0x20 || v == 0x85 || v == 0xa0 || v == 0x1680 || (0x2000 <= v && v
        <= 0x200a) || v == 0x2028 || v == 0x2029 || v == 0x202f || v == 0x205f || v == 0x3000
}

/// The finished words and the word in progress after reading `s`.
pub open spec fn word_state(s: Seq<char>) -> (Seq<Seq<char>>, Seq<char>)
    decreases s.len(),
{
    if s.len() == 0 {
        (Seq::empty(), Seq::empty())
    } else {
        let (done, current) = word_state(s.drop_last());
        let c = s.last();
        if is_space(c) {
            if current.len() > 0 {
                (done.push(current), Seq::empty())
            } else {
                (done, Seq::empty())
            }
        } else {
            (done, current.push(c))
        }
    }
}

/// The whitespace-separated words of `s`.
pub open spec fn words(s: Seq<char>) -> Seq<Seq<char>> {
    let (done, current) = word_state(s);
    if current.len() > 0 {
        done.push(current)
    } else {
        done
    }
}

pub open spec fn string_views(v: Seq<String>) -> Seq<Seq<char>> {
    v.map_values(|s: String| s@)
}

/// The MIME types a drag-and-drop offer lists: its whitespace-separated
/// words, or none when the payload is not UTF-8.
pub open spec fn mime_list(payload: Seq<u8>) -> Seq<Seq<char>> {
    if valid_utf8(payload) {
        words(decode_utf8(payload))
    } else {
        Seq::empty()
    }
}

pub fn mime_types(payload: &[u8]) -> (r: Vec<String>)
    ensures
        string_views(r@) == mime_list(payload@),
{
    match utf8_string(payload) {
        Some(text) => split_words(text.as_str()),
        None => {
            let out: Vec<String> = Vec::new();
            assert(string_views(out@) =~= Seq::<Seq<char>>::empty());
            out
        },
    }
}

/// `str::split_whitespace`.
pub fn split_words(s: &str) -> (r: Vec<String>)
    ensures
        string_views(r@) == words(s@),
{
    let mut out: Vec<String> = Vec::new();
    let n = s.unicode_len();
    let mut current = String::new();
    let mut i: usize = 0;
    assert(string_views(out@) =~= Seq::<Seq<char>>::empty());
    while i < n
        invariant
            n == s@.len(),
            i <= n,
            string_views(out@) == word_state(s@.take(i as int)).0,
            current@ == word_state(s@.take(i as int)).1,
        decreases n - i,
    {
        let c = s.get_char(i);
        assert(s@.take(i + 1).drop_last() =~= s@.take(i as int));
        assert(s@.take(i + 1).last() == c);
        if is_space_exec(c) {
            if current.as_str().unicode_len() > 0 {
                let mut word = String::new();
                std::mem::swap(&mut word, &mut current);
                let ghost before = out@;
                let ghost added = word@;
                out.push(word);
                assert(string_views(out@) =~= string_views(before).push(added));
            }
        } else {
            push_char(&mut current, c);
        }
        i += 1;
    }
    assert(s@.take(n as int) =~= s@);
    if current.as_str().unicode_len() > 0 {
        let ghost before = out@;
        let ghost added = current@;
        out.push(current);
        assert(string_views(out@) =~= string_views(before).push(added));
    }
    out
}

/// An OSC 72 drop-data response: the data for offer `index` (`m=1`),
/// then an empty packet that ends it (`m=0`). Offers are numbered from 1.
pub open spec fn dnd_data_response_spec(index: i32, data: Seq<u8>) -> Option<Seq<u8>> {
    if index <= 0 {
        None
    } else {
        let head = seq![0x1bu8, 0x5d, 0x37, 0x32, 0x3b, 0x74, 0x3d, 0x72, 0x3a, 0x78, 0x3d];
        let tail = seq![0x1bu8, 0x5c];
        Some(
            head + decimal(index as nat) + seq![0x3au8, 0x6d, 0x3d, 0x31, 0x3b] + data + tail + head + decimal(
                index as nat,
            ) + seq![0x3au8, 0x6d, 0x3d, 0x30, 0x3b] + tail,
        )
    }
}

fn push_all(out: &mut Vec<u8>, bytes: &[u8])
    ensures
        final(out)@ == old(out)@ + bytes@,
{
    let mut i: usize = 0;
    while i < bytes.len()
        invariant
            i <= bytes@.len(),
            out@ == old(out)@ + bytes@.take(i as int),
        decreases bytes@.len() - i,
    {
        out.push(bytes[i]);
        assert(bytes@.take(i + 1) =~= bytes@.take(i as int).push(bytes@[i as int]));
        i += 1;
    }
    assert(bytes@.take(bytes@.len() as int) =~= bytes@);
}

pub fn kitty_dnd_data_response(index: i32, data: &[u8]) -> (r: Option<Vec<u8>>)
    ensures
        match r {
            Some(v) => dnd_data_response_spec(index, data@) == Some(v@),
            None => dnd_data_response_spec(index, data@) is None,
        },
{
    if index <= 0 {
        return None;
    }
    let head = [0x1bu8, 0x5d, 0x37, 0x32, 0x3b, 0x74, 0x3d, 0x72, 0x3a, 0x78, 0x3d];
    let more = [0x3au8, 0x6d, 0x3d, 0x31, 0x3b];
    let last = [0x3au8, 0x6d, 0x3d, 0x30, 0x3b];
    let tail = [0x1bu8, 0x5c];
    let mut out: Vec<u8> = Vec::new();
    push_all(&mut out, &head);
    push_decimal(&mut out, index as usize);
    push_all(&mut out, &more);
    push_all(&mut out, data);
    push_all(&mut out, &tail);
    push_all(&mut out, &head);
    push_decimal(&mut out, index as usize);
    push_all(&mut out, &last);
    push_all(&mut out, &tail);
    assert(out@ =~= dnd_data_response_spec(index, data@)->Some_0);
    Some(out)
}

/// The largest amount of drag data held for another pane.
pub const MAX_INTERNAL_DND_DATA_BYTES: usize = 4 * 1024 * 1024;

/// Carries a drag that starts in one pane to a drop in another: the source's
/// offered MIME types, the data it sent ahead (per offer index), and the target.
pub struct InternalDndBridge {
    source_window_id: Option<usize>,
    source_mimes: Vec<String>,
    source_data: Vec<(usize, Vec<u8>)>,
    source_data_bytes: usize,
    current_pre_sent_index: Option<usize>,
    target_window_id: Option<usize>,
    target_mimes: Vec<String>,
}

/// The data sent ahead for offer `index`: the first entry with that index.
pub open spec fn entry_data(entries: Seq<(usize, Vec<u8>)>, index: usize) -> Option<Seq<u8>>
    decreases entries.len(),
{
    if entries.len() == 0 {
        None
    } else if entries[0].0 == index {
        Some(entries[0].1@)
    } else {
        entry_data(entries.drop_first(), index)
    }
}

/// The total size of the data sent ahead.
pub open spec fn entries_bytes(entries: Seq<(usize, Vec<u8>)>) -> nat
    decreases entries.len(),
{
    if entries.len() == 0 {
        0
    } else {
        entries[0].1@.len() + entries_bytes(entries.drop_first())
    }
}

/// The state of a bridge.
pub struct BridgeModel {
    pub source: Option<usize>,
    pub source_mimes: Seq<Seq<char>>,
    pub data: spec_fn(usize) -> Option<Seq<u8>>,
    pub data_bytes: nat,
    pub continuing: Option<usize>,
    pub target: Option<usize>,
    pub target_mimes: Seq<Seq<char>>,
}

impl InternalDndBridge {
    pub closed spec fn source(&self) -> Option<usize> {
        self.source_window_id
    }

    pub closed spec fn offered(&self) -> Seq<Seq<char>> {
        string_views(self.source_mimes@)
    }

    pub closed spec fn data_for(&self, index: usize) -> Option<Seq<u8>> {
        entry_data(self.source_data@, index)
    }

    pub closed spec fn data_bytes(&self) -> nat {
        entries_bytes(self.source_data@)
    }

    pub closed spec fn continuing(&self) -> Option<usize> {
        self.current_pre_sent_index
    }

    pub closed spec fn target(&self) -> Option<usize> {
        self.target_window_id
    }

    pub closed spec fn accepted(&self) -> Seq<Seq<char>> {
        string_views(self.target_mimes@)
    }

    pub closed spec fn inv(&self) -> bool {
        &&& self.source_data_bytes == entries_bytes(self.source_data@)
        &&& self.source_data_bytes <= MAX_INTERNAL_DND_DATA_BYTES
    }

    pub open spec fn is_empty(&self) -> bool {
        &&& self.source() is None
        &&& self.offered().len() == 0
        &&& forall|i: usize| self.data_for(i) is None
        &&& self.data_bytes() == 0
        &&& self.continuing() is None
        &&& self.target() is None
        &&& self.accepted().len() == 0
    }

    pub fn new() -> (r: Self)
        ensures
            r.inv(),
            r.is_empty(),
    {
        let r = InternalDndBridge {
            source_window_id: None,
            source_mimes: Vec::new(),
            source_data: Vec::new(),
            source_data_bytes: 0,
            current_pre_sent_index: None,
            target_window_id: None,
            target_mimes: Vec::new(),
        };
        assert(r.offered() =~= Seq::<Seq<char>>::empty());
        assert(r.accepted() =~= Seq::<Seq<char>>::empty());
        r
    }

    /// A pane starts a drag offering the MIME types in `payload`; any earlier
    /// drag is forgotten.
    pub fn begin_source(&mut self, window_id: usize, payload: &[u8])
        ensures
            final(self).inv(),
            final(self).source() == Some(window_id),
            final(self).offered() == mime_list(payload@),
            forall|i: usize| final(self).data_for(i) is None,
            final(self).data_bytes() == 0,
            final(self).continuing() is None,
            final(self).target() is None,
            final(self).accepted().len() == 0,
    {
        *self = InternalDndBridge::new();
        let ghost cleared = self.source_data@;
        assert forall|i: usize| entry_data(cleared, i) is None by {
            assert(self.data_for(i) is None);
        }
        self.source_window_id = Some(window_id);
        self.source_mimes = mime_types(payload);
        assert(self.source_data@ == cleared);
    }

    /// Keep data the source sends ahead for offer `index` (or, without an
    /// index, for the offer still being continued). Data beyond the size
    /// limit ends the drag.
    pub fn cache_pre_sent_data(&mut self, window_id: usize, index: Option<i32>, more: bool, payload: &[u8])
        requires
            old(self).inv(),
        ensures
            final(self).inv(),
            ({
                let chosen = match index {
                    Some(i) => if i >= 0 {
                        Some(i as usize)
                    } else {
                        old(self).continuing()
                    },
                    None => old(self).continuing(),
                };
                if old(self).source() != Some(window_id) || chosen is None {
                    *final(self) == *old(self)
                } else if old(self).data_bytes() + payload@.len() > MAX_INTERNAL_DND_DATA_BYTES {
                    final(self).is_empty()
                } else {
                    let k = chosen->Some_0;
                    &&& final(self).source() == old(self).source()
                    &&& final(self).offered() == old(self).offered()
                    &&& final(self).target() == old(self).target()
                    &&& final(self).accepted() == old(self).accepted()
                    &&& final(self).data_bytes() == old(self).data_bytes() + payload@.len()
                    &&& final(self).continuing() == (if more {
                        Some(k)
                    } else {
                        None
                    })
                    &&& final(self).data_for(k) == Some(
                        match old(self).data_for(k) {
                            Some(d) => d,
                            None => Seq::<u8>::empty(),
                        } + payload@,
                    )
                    &&& forall|j: usize| j != k ==> final(self).data_for(j) == old(self).data_for(j)
                }
            }),
    {
        if self.source_window_id != Some(window_id) {
            return;
        }
        let chosen = match index {
            Some(i) => if i >= 0 {
                Some(i as usize)
            } else {
                self.current_pre_sent_index
            },
            None => self.current_pre_sent_index,
        };
        let k = match chosen {
            Some(k) => k,
            None => {
                return;
            },
        };
        if payload.len() > MAX_INTERNAL_DND_DATA_BYTES - self.source_data_bytes {
            *self = InternalDndBridge::new();
            return;
        }
        let ghost old_entries = self.source_data@;
        let mut position: usize = 0;
        while position < self.source_data.len() && self.source_data[position].0 != k
            invariant
                position <= self.source_data@.len(),
                self.source_data@ == old_entries,
                forall|j: int| 0 <= j < position ==> old_entries[j].0 != k,
            decreases self.source_data@.len() - position,
        {
            position += 1;
        }
        if position < self.source_data.len() {
            let mut taken = self.source_data.remove(position);
            let ghost before = taken.1@;
            push_all(&mut taken.1, payload);
            proof {
                lemma_entry_replaced(old_entries, position as int, taken.1);
                lemma_entry_replaced(old_entries, position as int, old_entries[position as int].1);
                assert(old_entries.update(position as int, (k, old_entries[position as int].1)) =~= old_entries);
            }
            self.source_data.insert(position, taken);
            assert(self.source_data@ =~= old_entries.update(position as int, (k, taken.1)));
        } else {
            let mut fresh: Vec<u8> = Vec::new();
            push_all(&mut fresh, payload);
            assert(fresh@ =~= payload@);
            proof {
                lemma_entry_added(old_entries, k, fresh);
                lemma_entry_absent(old_entries, k);
            }
            self.source_data.push((k, fresh));
        }
        self.source_data_bytes = self.source_data_bytes + payload.len();
        self.current_pre_sent_index = if more {
            Some(k)
        } else {
            None
        };
    }

    /// A pane accepts a drop; only a pane other than the drag's source becomes a target.
    pub fn begin_target(&mut self, window_id: usize, payload: &[u8])
        requires
            old(self).inv(),
        ensures
            final(self).inv(),
            final(self).source() == old(self).source(),
            final(self).offered() == old(self).offered(),
            forall|i: usize| final(self).data_for(i) == old(self).data_for(i),
            final(self).data_bytes() == old(self).data_bytes(),
            final(self).continuing() == old(self).continuing(),
            match old(self).source() {
                Some(s) => if s != window_id {
                    final(self).target() == Some(window_id) && final(self).accepted() == mime_list(payload@)
                } else {
                    final(self).target() is None && final(self).accepted().len() == 0
                },
                None => final(self).target() is None && final(self).accepted().len() == 0,
            },
    {
        let other = match self.source_window_id {
            Some(source) => source != window_id,
            None => false,
        };
        if other {
            self.target_window_id = Some(window_id);
            self.target_mimes = mime_types(payload);
        } else {
            self.target_window_id = None;
            self.target_mimes = Vec::new();
            assert(self.accepted() =~= Seq::<Seq<char>>::empty());
        }
    }

    /// The first offered type equal to `mime`.
    pub open spec fn source_index(offered: Seq<Seq<char>>, mime: Seq<char>) -> Option<int> {
        if exists|i: int| 0 <= i < offered.len() && offered[i] == mime {
            Some(choose|i: int| 0 <= i < offered.len() && offered[i] == mime && forall|j: int| 0 <= j < i ==> offered[j] != mime)
        } else {
            None
        }
    }

    /// Answer the target's request for its `request_index`-th accepted type
    /// (counted from 1) with the data the source sent ahead for that type.
    pub fn data_response(&self, window_id: usize, request_index: i32) -> (r: Option<Vec<u8>>)
        ensures
            ({
                let wanted = if self.target() == Some(window_id) && request_index >= 1 && request_index - 1
                    < self.accepted().len() {
                    match Self::source_index(self.offered(), self.accepted()[request_index - 1]) {
                        Some(i) => match self.data_for(i as usize) {
                            Some(d) => dnd_data_response_spec(request_index, d),
                            None => None,
                        },
                        None => None,
                    }
                } else {
                    None
                };
                match r {
                    Some(v) => wanted == Some(v@),
                    None => wanted is None,
                }
            }),
    {
        if self.target_window_id != Some(window_id) || request_index < 1 {
            return None;
        }
        let target_index = (request_index - 1) as usize;
        if target_index >= self.target_mimes.len() {
            return None;
        }
        let mime = self.target_mimes[target_index].as_str();
        let mut i: usize = 0;
        while i < self.source_mimes.len() && !same_text(self.source_mimes[i].as_str(), mime)
            invariant
                i <= self.source_mimes@.len(),
                mime@ == self.accepted()[request_index - 1],
                forall|j: int| 0 <= j < i ==> self.offered()[j] != mime@,
            decreases self.source_mimes@.len() - i,
        {
            i += 1;
        }
        if i == self.source_mimes.len() {
            return None;
        }
        assert(self.offered()[i as int] == mime@);
        let ghost found = Self::source_index(self.offered(), mime@);
        assert(found == Some(i as int)) by {
            let c = choose|c: int|
                0 <= c < self.offered().len() && self.offered()[c] == mime@ && forall|j: int|
                    0 <= j < c ==> self.offered()[j] != mime@;
            if c < i {
            } else if c > i {
                assert(self.offered()[i as int] == mime@);
            }
        }
        let mut e: usize = 0;
        assert(self.source_data@.skip(0) =~= self.source_data@);
        while e < self.source_data.len() && self.source_data[e].0 != i
            invariant
                e <= self.source_data@.len(),
                entry_data(self.source_data@, i) == entry_data(self.source_data@.skip(e as int), i),
            decreases self.source_data@.len() - e,
        {
            assert(self.source_data@.skip(e as int).drop_first() =~= self.source_data@.skip(e + 1));
            e += 1;
        }
        if e == self.source_data.len() {
            assert(self.source_data@.skip(e as int).len() == 0);
            return None;
        }
        kitty_dnd_data_response(request_index, self.source_data[e].1.as_slice())
    }

    /// Responses from the drop target are routed to the drag source.
    pub fn routes_response_to_source(&self, window_id: usize, kind: Option<char>) -> (r: bool)
        ensures
            r == (self.target() == Some(window_id) && (kind == Some('m') || kind == Some('r'))),
    {
        self.target_window_id == Some(window_id) && (kind == Some('m') || kind == Some('r'))
    }

    pub fn source_window_id(&self) -> (r: Option<usize>)
        ensures
            r == self.source(),
    {
        self.source_window_id
    }

    /// Whether the source is still sending data for the current offer.
    pub fn accepts_pre_sent_continuation(&self, window_id: usize) -> (r: bool)
        ensures
            r == (self.source() == Some(window_id) && self.continuing() is Some),
    {
        self.source_window_id == Some(window_id) && self.current_pre_sent_index.is_some()
    }
}

impl Default for InternalDndBridge {
    fn default() -> (r: Self)
        ensures
            r.inv(),
            r.is_empty(),
    {
        InternalDndBridge::new()
    }
}

/// Replacing the first entry for a key changes only what is known for that
/// key, and changes the total by the difference in size.
proof fn lemma_entry_replaced(entries: Seq<(usize, Vec<u8>)>, position: int, data: Vec<u8>)
    requires
        0 <= position < entries.len(),
        forall|j: int| 0 <= j < position ==> entries[j].0 != entries[position].0,
    ensures
        ({
            let k = entries[position].0;
            let updated = entries.update(position, (k, data));
            &&& entry_data(updated, k) == Some(data@)
            &&& forall|j: usize| j != k ==> entry_data(updated, j) == entry_data(entries, j)
            &&& entries_bytes(updated) + entries[position].1@.len() == entries_bytes(entries) + data@.len()
        }),
    decreases position,
{
    let k = entries[position].0;
    let updated = entries.update(position, (k, data));
    if position > 0 {
        lemma_entry_replaced(entries.drop_first(), position - 1, data);
        assert(updated.drop_first() =~= entries.drop_first().update(position - 1, (k, data)));
        assert(updated[0] == entries[0]);
        assert forall|j: usize| j != k implies entry_data(updated, j) == entry_data(entries, j) by {
            if entries[0].0 != j {
                assert(entry_data(updated.drop_first(), j) == entry_data(entries.drop_first(), j));
            }
        }
    } else {
        assert(updated.drop_first() =~= entries.drop_first());
        assert forall|j: usize| j != k implies entry_data(updated, j) == entry_data(entries, j) by {
            assert(entry_data(updated, j) == entry_data(updated.drop_first(), j));
        }
    }
}

/// Adding an entry for a key that has none makes the payload its data.
proof fn lemma_entry_added(entries: Seq<(usize, Vec<u8>)>, k: usize, data: Vec<u8>)
    requires
        forall|j: int| 0 <= j < entries.len() ==> entries[j].0 != k,
    ensures
        ({
            let updated = entries.push((k, data));
            &&& entry_data(updated, k) == Some(data@)
            &&& forall|j: usize| j != k ==> entry_data(updated, j) == entry_data(entries, j)
            &&& entries_bytes(updated) == entries_bytes(entries) + data@.len()
        }),
    decreases entries.len(),
{
    let updated = entries.push((k, data));
    if entries.len() > 0 {
        lemma_entry_added(entries.drop_first(), k, data);
        assert(updated.drop_first() =~= entries.drop_first().push((k, data)));
        assert(updated[0] == entries[0]);
        assert forall|j: usize| j != k implies entry_data(updated, j) == entry_data(entries, j) by {
            if entries[0].0 != j {
                assert(entry_data(updated.drop_first(), j) == entry_data(entries.drop_first(), j));
            }
        }
        assert(entries_bytes(updated) == updated[0].1@.len() + entries_bytes(updated.drop_first()));
        assert(entries_bytes(entries) == entries[0].1@.len() + entries_bytes(entries.drop_first()));
    } else {
        assert(updated.drop_first() =~= Seq::<(usize, Vec<u8>)>::empty());
        assert(entries_bytes(updated.drop_first()) == 0);
        assert(entries_bytes(entries) == 0);
        assert(entries_bytes(updated) == updated[0].1@.len() + entries_bytes(updated.drop_first()));
        assert forall|j: usize| j != k implies entry_data(updated, j) == entry_data(entries, j) by {
            assert(entry_data(updated, j) == entry_data(updated.drop_first(), j));
        }
    }
}

/// A key with no entry has no data.
proof fn lemma_entry_absent(entries: Seq<(usize, Vec<u8>)>, k: usize)
    requires
        forall|j: int| 0 <= j < entries.len() ==> entries[j].0 != k,
    ensures
        entry_data(entries, k) is None,
    decreases entries.len(),
{
    if entries.len() > 0 {
        lemma_entry_absent(entries.drop_first(), k);
    }
}

} // verus!


