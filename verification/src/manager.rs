//! The session manager's key handling: from its state and one key to its next
//! state and what the server has to do about it (switch, delete, rename, ...).
//! The server performs that work and reports back through `finish_rename`,
//! `clear_query` and `refresh`.

use vstd::prelude::*;
use vstd::utf8::{decode_utf8, encode_utf8, valid_utf8};
use vstd::string::StringSliceAdditionalSpecFns;

use crate::app::{matching_session_info, same_text, session_matches};
use crate::config::{Config, manager_key_matches};
use crate::input::DecodedKey;
use crate::session::{SessionError, SessionInfo, name_byte, valid_name_bytes, validate_session_name};
use crate::text::{pop_char, push_str, utf8_string};

verus! {

broadcast use vstd::utf8::decode_utf8_encode_utf8;

/// What the session manager holds while it is open.
pub struct SessionManagerState {
    /// Whether typed text edits the search query.
    pub searching: bool,
    pub query: String,
    /// Every known session; the manager lists those matching the query.
    pub sessions: Vec<SessionInfo>,
    /// Index of the selected session among the listed ones.
    pub selected: usize,
    /// The new name being typed for the selected session, while renaming.
    pub rename_input: Option<String>,
}

pub struct ManagerModel {
    pub searching: bool,
    pub query: Seq<char>,
    pub sessions: Seq<SessionInfo>,
    pub selected: usize,
    pub rename_input: Option<Seq<char>>,
}

impl View for SessionManagerState {
    type V = ManagerModel;

    open spec fn view(&self) -> ManagerModel {
        ManagerModel {
            searching: self.searching,
            query: self.query@,
            sessions: self.sessions@,
            selected: self.selected,
            rename_input: match self.rename_input {
                Some(s) => Some(s@),
                None => None,
            },
        }
    }
}

/// What the server does after a key.
pub enum ManagerCommand {
    /// Draw the manager in its new state.
    Redraw,
    /// Close the manager and redraw the session.
    Close,
    /// Nothing changed.
    Ignore,
    /// Save the current session.
    Save,
    /// Hand the client over to this session; the current key loop ends.
    Switch(String),
    /// Delete the current session and end its windows; the key loop ends.
    DeleteCurrent(String),
    /// Delete this other session, then `clear_query`, `refresh` and redraw.
    Delete(String),
    /// Disconnect this other session's client, then `refresh` and redraw.
    Disconnect(String),
    /// The typed name is the selected session's own: `finish_rename` and `refresh`.
    RenameUnchanged(String),
    /// Rename the current session to this name, then `finish_rename` and `refresh`.
    RenameCurrent(String),
    /// Rename another session (from, to), then `finish_rename` and `refresh`.
    RenameOther(String, String),
}

pub enum Effect {
    Redraw,
    Close,
    Ignore,
    Save,
    Switch(Seq<char>),
    DeleteCurrent(Seq<char>),
    Delete(Seq<char>),
    Disconnect(Seq<char>),
    RenameUnchanged(Seq<char>),
    RenameCurrent(Seq<char>),
    RenameOther(Seq<char>, Seq<char>),
}

impl View for ManagerCommand {
    type V = Effect;

    open spec fn view(&self) -> Effect {
        match self {
            ManagerCommand::Redraw => Effect::Redraw,
            ManagerCommand::Close => Effect::Close,
            ManagerCommand::Ignore => Effect::Ignore,
            ManagerCommand::Save => Effect::Save,
            ManagerCommand::Switch(s) => Effect::Switch(s@),
            ManagerCommand::DeleteCurrent(s) => Effect::DeleteCurrent(s@),
            ManagerCommand::Delete(s) => Effect::Delete(s@),
            ManagerCommand::Disconnect(s) => Effect::Disconnect(s@),
            ManagerCommand::RenameUnchanged(s) => Effect::RenameUnchanged(s@),
            ManagerCommand::RenameCurrent(s) => Effect::RenameCurrent(s@),
            ManagerCommand::RenameOther(a, b) => Effect::RenameOther(a@, b@),
        }
    }
}

/// The action of the first session manager binding that `key` matches.
pub open spec fn manager_action_for(
    table: Seq<(Seq<char>, Seq<Seq<char>>)>,
    key: Seq<char>,
    editing: bool,
) -> Option<Seq<char>>
    decreases table.len(),
{
    if table.len() == 0 {
        None
    } else if manager_key_matches(table[0], key, editing) {
        Some(table[0].0)
    } else {
        manager_action_for(table.drop_first(), key, editing)
    }
}

proof fn lemma_first_action(table: Seq<(Seq<char>, Seq<Seq<char>>)>, key: Seq<char>, editing: bool, i: int)
    requires
        0 <= i < table.len(),
        manager_key_matches(table[i], key, editing),
        forall|j: int| 0 <= j < i ==> !manager_key_matches(table[j], key, editing),
    ensures
        manager_action_for(table, key, editing) == Some(table[i].0),
    decreases i,
{
    if i > 0 {
        assert(!manager_key_matches(table[0], key, editing));
        let rest = table.drop_first();
        assert forall|j: int| 0 <= j < i - 1 implies !manager_key_matches(rest[j], key, editing) by {
            assert(rest[j] == table[j + 1]);
        }
        lemma_first_action(rest, key, editing, i - 1);
    }
}

proof fn lemma_no_action(table: Seq<(Seq<char>, Seq<Seq<char>>)>, key: Seq<char>, editing: bool)
    requires
        forall|j: int| 0 <= j < table.len() ==> !manager_key_matches(#[trigger] table[j], key, editing),
    ensures
        manager_action_for(table, key, editing) is None,
    decreases table.len(),
{
    if table.len() > 0 {
        let rest = table.drop_first();
        assert forall|j: int| 0 <= j < rest.len() implies !manager_key_matches(#[trigger] rest[j], key, editing) by {
            assert(rest[j] == table[j + 1]);
        }
        lemma_no_action(rest, key, editing);
    }
}

/// The action `Config::session_manager_action` finds is the first matching binding's.
pub(crate) proof fn lemma_action_of(
    t: Seq<(Seq<char>, Seq<Seq<char>>)>,
    key: Seq<char>,
    editing: bool,
    found: Option<&str>,
)
    requires
        match found {
            Some(a) => exists|i: int|
                0 <= i < t.len() && manager_key_matches(#[trigger] t[i], key, editing) && t[i].0 == a@ && forall|
                    j: int,
                | 0 <= j < i ==> !manager_key_matches(t[j], key, editing),
            None => forall|i: int| 0 <= i < t.len() ==> !manager_key_matches(#[trigger] t[i], key, editing),
        },
    ensures
        manager_action_for(t, key, editing) == match found {
            Some(a) => Some(a@),
            None => None::<Seq<char>>,
        },
{
    match found {
        Some(a) => {
            let i = choose|i: int|
                0 <= i < t.len() && manager_key_matches(#[trigger] t[i], key, editing) && t[i].0 == a@ && forall|
                    j: int,
                | 0 <= j < i ==> !manager_key_matches(t[j], key, editing);
            lemma_first_action(t, key, editing, i);
        },
        None => {
            lemma_no_action(t, key, editing);
        },
    }
}

/// The listed sessions: those whose names contain the query.
pub open spec fn matches_of(m: ManagerModel) -> Seq<SessionInfo> {
    session_matches(m.sessions, m.query)
}

/// The selection moved back onto the last listed session when it points past it.
pub open spec fn clamped(m: ManagerModel) -> ManagerModel {
    let n = matches_of(m).len();
    let last: usize = if n == 0 {
        0
    } else {
        (n - 1) as usize
    };
    ManagerModel { selected: if m.selected <= last { m.selected } else { last }, ..m }
}

/// The selection is a listed session, or nothing is listed and it is zero.
pub open spec fn selection_in_range(m: ManagerModel) -> bool {
    m.selected < matches_of(m).len() || m.selected == 0
}

pub open spec fn selected_name(m: ManagerModel) -> Option<Seq<char>> {
    if m.selected < matches_of(m).len() {
        Some(matches_of(m)[m.selected as int].name@)
    } else {
        None
    }
}

pub open spec fn byte_len(s: Seq<char>) -> nat {
    encode_utf8(s).len()
}

pub open spec fn name_bytes(b: Seq<u8>) -> bool {
    forall|i: int| 0 <= i < b.len() ==> name_byte(#[trigger] b[i])
}

pub open spec fn redraw(m: ManagerModel) -> Result<(ManagerModel, Effect), SessionError> {
    Ok((clamped(m), Effect::Redraw))
}

pub open spec fn unchanged(m: ManagerModel, e: Effect) -> Result<(ManagerModel, Effect), SessionError> {
    Ok((m, e))
}

/// Text typed while searching extends the query, up to 64 bytes of session-name characters.
pub open spec fn typed(m: ManagerModel, text: Option<Seq<char>>) -> ManagerModel {
    match text {
        Some(t) => if m.searching && name_bytes(encode_utf8(t)) && byte_len(m.query) + byte_len(t) <= 64 {
            ManagerModel { query: m.query + t, selected: 0, ..m }
        } else {
            m
        },
        None => m,
    }
}

pub open spec fn without_last(s: Seq<char>) -> Seq<char> {
    if s.len() > 0 {
        s.drop_last()
    } else {
        s
    }
}

/// One key while the manager lists sessions.
pub open spec fn list_step(m: ManagerModel, action: Option<Seq<char>>, text: Option<Seq<char>>, current: Seq<char>) -> Result<
    (ManagerModel, Effect),
    SessionError,
> {
    let a = match action {
        Some(a) => a,
        None => ""@,
    };
    if a == "cancel"@ {
        if m.searching {
            redraw(ManagerModel { searching: false, query: Seq::empty(), selected: 0, ..m })
        } else {
            unchanged(m, Effect::Close)
        }
    } else if a == "search"@ {
        redraw(ManagerModel { searching: true, ..m })
    } else if a == "up"@ || a == "down"@ {
        let count = matches_of(m).len();
        if count > 0 {
            let next: usize = if a == "up"@ {
                if m.selected == 0 {
                    (count - 1) as usize
                } else {
                    (m.selected - 1) as usize
                }
            } else {
                ((m.selected + 1) % (count as int)) as usize
            };
            redraw(ManagerModel { selected: next, ..m })
        } else {
            redraw(m)
        }
    } else if a == "complete"@ && m.searching {
        match selected_name(m) {
            Some(n) => redraw(ManagerModel { query: n, selected: 0, ..m }),
            None => redraw(m),
        }
    } else if a == "open"@ {
        let target = match selected_name(m) {
            Some(n) => n,
            None => m.query,
        };
        if target.len() == 0 {
            unchanged(m, Effect::Ignore)
        } else if !valid_name_bytes(encode_utf8(target)) {
            Err(SessionError::InvalidName)
        } else if target == current {
            unchanged(m, Effect::Close)
        } else {
            unchanged(m, Effect::Switch(target))
        }
    } else if a == "rename"@ {
        match selected_name(m) {
            Some(t) => redraw(ManagerModel { rename_input: Some(t), ..m }),
            None => unchanged(m, Effect::Ignore),
        }
    } else if a == "save"@ {
        unchanged(m, Effect::Save)
    } else if a == "delete"@ {
        match selected_name(m) {
            Some(t) => if t == current {
                unchanged(m, Effect::DeleteCurrent(t))
            } else {
                unchanged(m, Effect::Delete(t))
            },
            None => unchanged(m, Effect::Ignore),
        }
    } else if a == "disconnect"@ {
        match selected_name(m) {
            Some(t) => if t != current {
                unchanged(m, Effect::Disconnect(t))
            } else {
                unchanged(m, Effect::Ignore)
            },
            None => unchanged(m, Effect::Ignore),
        }
    } else if a == "backspace"@ && m.searching {
        redraw(ManagerModel { query: without_last(m.query), selected: 0, ..m })
    } else {
        redraw(typed(m, text))
    }
}

/// One key while a new name is typed for the selected session; `raw` is the key's bytes.
pub open spec fn rename_step(m: ManagerModel, action: Option<Seq<char>>, raw: Seq<u8>, current: Seq<char>) -> Result<
    (ManagerModel, Effect),
    SessionError,
> {
    let input = match m.rename_input {
        Some(i) => i,
        None => Seq::empty(),
    };
    let a = match action {
        Some(a) => a,
        None => ""@,
    };
    if a == "cancel"@ {
        redraw(ManagerModel { rename_input: None, ..m })
    } else if a == "open"@ {
        let from = match selected_name(m) {
            Some(n) => n,
            None => Seq::empty(),
        };
        if !valid_name_bytes(encode_utf8(input)) {
            Err(SessionError::InvalidName)
        } else if from == input {
            unchanged(m, Effect::RenameUnchanged(input))
        } else if from == current {
            unchanged(m, Effect::RenameCurrent(input))
        } else {
            unchanged(m, Effect::RenameOther(from, input))
        }
    } else if a == "backspace"@ {
        redraw(ManagerModel { rename_input: Some(without_last(input)), ..m })
    } else if valid_utf8(raw) && name_bytes(raw) && byte_len(input) + raw.len() <= 64 {
        redraw(ManagerModel { rename_input: Some(input + decode_utf8(raw)), ..m })
    } else {
        redraw(m)
    }
}

/// One key: the binding table decides its action, in editing form while renaming
/// or searching.
pub open spec fn key_step(
    m: ManagerModel,
    table: Seq<(Seq<char>, Seq<Seq<char>>)>,
    name: Seq<char>,
    text: Option<Seq<char>>,
    raw: Seq<u8>,
    current: Seq<char>,
) -> Result<(ManagerModel, Effect), SessionError> {
    if m.rename_input is Some {
        rename_step(m, manager_action_for(table, name, true), raw, current)
    } else {
        list_step(m, manager_action_for(table, name, m.searching), text, current)
    }
}

/// The first index at or after `k` of a session with this name.
pub open spec fn first_named_from(s: Seq<SessionInfo>, name: Seq<char>, k: int) -> Option<int>
    decreases s.len() - k,
{
    if k < 0 || k >= s.len() {
        None
    } else if s[k].name@ == name {
        Some(k)
    } else {
        first_named_from(s, name, k + 1)
    }
}

/// The first index at or after `k` of a detached session other than the current one.
pub open spec fn first_detached_from(s: Seq<SessionInfo>, current: Seq<char>, k: int) -> Option<int>
    decreases s.len() - k,
{
    if k < 0 || k >= s.len() {
        None
    } else if !s[k].connected && s[k].name@ != current {
        Some(k)
    } else {
        first_detached_from(s, current, k + 1)
    }
}

/// The session selected first: the first detached one other than the current, else the first.
pub open spec fn default_selection(s: Seq<SessionInfo>, current: Seq<char>) -> int {
    match first_detached_from(s, current, 0) {
        Some(i) => i,
        None => 0,
    }
}

/// After the list is read again: the same session stays selected where it is
/// still listed, else the default selection.
pub open spec fn refreshed(m: ManagerModel, sessions: Seq<SessionInfo>, current: Seq<char>) -> ManagerModel {
    let listed = session_matches(sessions, m.query);
    let index = match selected_name(m) {
        Some(n) => match first_named_from(listed, n, 0) {
            Some(i) => i,
            None => default_selection(listed, current),
        },
        None => default_selection(listed, current),
    };
    clamped(ManagerModel { sessions, selected: index as usize, ..m })
}

proof fn lemma_clamped_in_range(m: ManagerModel)
    ensures
        selection_in_range(clamped(m)),
        matches_of(clamped(m)) == matches_of(m),
{
}

pub(crate) fn all_name_bytes(b: &[u8]) -> (r: bool)
    ensures
        r == name_bytes(b@),
{
    let mut i: usize = 0;
    while i < b.len()
        invariant
            i <= b@.len(),
            forall|j: int| 0 <= j < i ==> name_byte(#[trigger] b@[j]),
        decreases b@.len() - i,
    {
        let c = b[i];
        if !((0x30 <= c && c <= 0x39) || (0x41 <= c && c <= 0x5a) || (0x61 <= c && c <= 0x7a) || c == 0x2d || c
            == 0x5f) {
            assert(!name_byte(b@[i as int]));
            return false;
        }
        i += 1;
    }
    true
}

fn first_named(s: &Vec<SessionInfo>, name: &str) -> (r: Option<usize>)
    ensures
        match r {
            Some(i) => first_named_from(s@, name@, 0) == Some(i as int),
            None => first_named_from(s@, name@, 0) is None,
        },
{
    let mut i: usize = 0;
    while i < s.len()
        invariant
            i <= s@.len(),
            first_named_from(s@, name@, 0) == first_named_from(s@, name@, i as int),
        decreases s@.len() - i,
    {
        if same_text(s[i].name.as_str(), name) {
            return Some(i);
        }
        i += 1;
    }
    None
}

pub(crate) fn first_detached(s: &Vec<SessionInfo>, current: &str) -> (r: usize)
    ensures
        r == default_selection(s@, current@),
{
    let mut i: usize = 0;
    while i < s.len()
        invariant
            i <= s@.len(),
            first_detached_from(s@, current@, 0) == first_detached_from(s@, current@, i as int),
        decreases s@.len() - i,
    {
        if !s[i].connected && !same_text(s[i].name.as_str(), current) {
            return i;
        }
        i += 1;
    }
    0
}

fn text_of(s: &Option<String>) -> (r: String)
    ensures
        r@ == match s {
            Some(t) => t@,
            None => Seq::<char>::empty(),
        },
{
    match s {
        Some(t) => t.clone(),
        None => String::new(),
    }
}

impl SessionManagerState {
    /// The manager as it opens on a fresh list of sessions.
    pub fn open(sessions: Vec<SessionInfo>, current: &str) -> (r: Self)
        ensures
            r@ == clamped(
                ManagerModel {
                    searching: false,
                    query: Seq::empty(),
                    sessions: sessions@,
                    selected: default_selection(sessions@, current@) as usize,
                    rename_input: None,
                },
            ),
            selection_in_range(r@),
    {
        let selected = first_detached(&sessions, current);
        let mut state = SessionManagerState {
            searching: false,
            query: String::new(),
            sessions,
            selected,
            rename_input: None,
        };
        let _ = state.clamp_selection();
        state
    }

    /// The listed sessions, with the selection moved back onto the last of them
    /// when it points past it.
    pub fn clamp_selection(&mut self) -> (r: Vec<SessionInfo>)
        ensures
            final(self)@ == clamped(old(self)@),
            r@ == matches_of(old(self)@),
            selection_in_range(final(self)@),
    {
        let matches = matching_session_info(self.sessions.as_slice(), self.query.as_str());
        let last = if matches.len() == 0 {
            0
        } else {
            matches.len() - 1
        };
        if self.selected > last {
            self.selected = last;
        }
        proof {
            lemma_clamped_in_range(old(self)@);
        }
        matches
    }

    /// The name of the selected listed session.
    pub fn selected_session_name(&self) -> (r: Option<String>)
        ensures
            match r {
                Some(n) => selected_name(self@) == Some(n@),
                None => selected_name(self@) is None,
            },
    {
        let matches = matching_session_info(self.sessions.as_slice(), self.query.as_str());
        if self.selected < matches.len() {
            Some(matches[self.selected].name.clone())
        } else {
            None
        }
    }

    fn redrawn(&mut self) -> (r: ManagerCommand)
        ensures
            redraw(old(self)@) == Ok::<(ManagerModel, Effect), SessionError>((final(self)@, r@)),
            selection_in_range(final(self)@),
    {
        let _ = self.clamp_selection();
        ManagerCommand::Redraw
    }

    fn list_key(&mut self, action: &str, text: Option<&str>, current: &str) -> (r: Result<ManagerCommand, SessionError>)
        requires
            old(self).selected < usize::MAX,
        ensures
            match r {
                Ok(c) => list_step(
                    old(self)@,
                    Some(action@),
                    match text {
                        Some(t) => Some(t@),
                        None => None,
                    },
                    current@,
                ) == Ok::<(ManagerModel, Effect), SessionError>((final(self)@, c@)),
                Err(e) => list_step(
                    old(self)@,
                    Some(action@),
                    match text {
                        Some(t) => Some(t@),
                        None => None,
                    },
                    current@,
                ) == Err::<(ManagerModel, Effect), SessionError>(e) && final(self)@ == old(self)@,
            },
    {
        if same_text(action, "cancel") {
            if self.searching {
                self.searching = false;
                self.query = String::new();
                self.selected = 0;
                Ok(self.redrawn())
            } else {
                Ok(ManagerCommand::Close)
            }
        } else if same_text(action, "search") {
            self.searching = true;
            Ok(self.redrawn())
        } else if same_text(action, "up") || same_text(action, "down") {
            let count = matching_session_info(self.sessions.as_slice(), self.query.as_str()).len();
            if count > 0 {
                if same_text(action, "up") {
                    self.selected = if self.selected == 0 {
                        count - 1
                    } else {
                        self.selected - 1
                    };
                } else {
                    self.selected = (self.selected + 1) % count;
                }
            }
            Ok(self.redrawn())
        } else if same_text(action, "complete") && self.searching {
            match self.selected_session_name() {
                Some(name) => {
                    self.query = name;
                    self.selected = 0;
                },
                None => {},
            }
            Ok(self.redrawn())
        } else if same_text(action, "open") {
            let target = match self.selected_session_name() {
                Some(name) => name,
                None => self.query.clone(),
            };
            if target.unicode_len() == 0 {
                return Ok(ManagerCommand::Ignore);
            }
            match validate_session_name(target.as_str()) {
                Ok(()) => {},
                Err(e) => {
                    return Err(e);
                },
            }
            if same_text(target.as_str(), current) {
                Ok(ManagerCommand::Close)
            } else {
                Ok(ManagerCommand::Switch(target))
            }
        } else if same_text(action, "rename") {
            match self.selected_session_name() {
                Some(name) => {
                    self.rename_input = Some(name);
                    Ok(self.redrawn())
                },
                None => Ok(ManagerCommand::Ignore),
            }
        } else if same_text(action, "save") {
            Ok(ManagerCommand::Save)
        } else if same_text(action, "delete") {
            match self.selected_session_name() {
                Some(name) => if same_text(name.as_str(), current) {
                    Ok(ManagerCommand::DeleteCurrent(name))
                } else {
                    Ok(ManagerCommand::Delete(name))
                },
                None => Ok(ManagerCommand::Ignore),
            }
        } else if same_text(action, "disconnect") {
            match self.selected_session_name() {
                Some(name) => if !same_text(name.as_str(), current) {
                    Ok(ManagerCommand::Disconnect(name))
                } else {
                    Ok(ManagerCommand::Ignore)
                },
                None => Ok(ManagerCommand::Ignore),
            }
        } else if same_text(action, "backspace") && self.searching {
            let _ = pop_char(&mut self.query);
            self.selected = 0;
            Ok(self.redrawn())
        } else {
            match text {
                Some(t) => {
                    let bytes = t.as_bytes();
                    if self.searching && all_name_bytes(bytes) && bytes.len() <= 64
                        && self.query.as_str().as_bytes().len() <= 64 - bytes.len() {
                        push_str(&mut self.query, t);
                        self.selected = 0;
                    }
                },
                None => {},
            }
            Ok(self.redrawn())
        }
    }

    fn rename_key(&mut self, action: &str, raw: &[u8], current: &str) -> (r: Result<ManagerCommand, SessionError>)
        requires
            old(self).rename_input is Some,
        ensures
            match r {
                Ok(c) => rename_step(old(self)@, Some(action@), raw@, current@) == Ok::<
                    (ManagerModel, Effect),
                    SessionError,
                >((final(self)@, c@)),
                Err(e) => rename_step(old(self)@, Some(action@), raw@, current@) == Err::<
                    (ManagerModel, Effect),
                    SessionError,
                >(e) && final(self)@ == old(self)@,
            },
    {
        let mut input = text_of(&self.rename_input);
        if same_text(action, "cancel") {
            self.rename_input = None;
            Ok(self.redrawn())
        } else if same_text(action, "open") {
            let from = match self.selected_session_name() {
                Some(name) => name,
                None => String::new(),
            };
            match validate_session_name(input.as_str()) {
                Ok(()) => {},
                Err(e) => {
                    return Err(e);
                },
            }
            if same_text(from.as_str(), input.as_str()) {
                Ok(ManagerCommand::RenameUnchanged(input))
            } else if same_text(from.as_str(), current) {
                Ok(ManagerCommand::RenameCurrent(input))
            } else {
                Ok(ManagerCommand::RenameOther(from, input))
            }
        } else if same_text(action, "backspace") {
            let _ = pop_char(&mut input);
            self.rename_input = Some(input);
            Ok(self.redrawn())
        } else {
            match utf8_string(raw) {
                Some(text) => {
                    if all_name_bytes(raw) && raw.len() <= 64 && input.as_str().as_bytes().len() <= 64 - raw.len() {
                        push_str(&mut input, text.as_str());
                        self.rename_input = Some(input);
                    }
                },
                None => {},
            }
            Ok(self.redrawn())
        }
    }

    /// Handle one key: `config` decides its action, `current` names this server's
    /// session. On an invalid session name the state is left as it was.
    pub fn handle_key(&mut self, config: &Config, key: &DecodedKey, current: &str) -> (r: Result<
        ManagerCommand,
        SessionError,
    >)
        requires
            old(self).selected < usize::MAX,
        ensures
            match r {
                Ok(c) => key_step(
                    old(self)@,
                    config@.session_manager,
                    key.name@,
                    key.text_spec(),
                    key.raw@,
                    current@,
                ) == Ok::<(ManagerModel, Effect), SessionError>((final(self)@, c@)),
                Err(e) => key_step(
                    old(self)@,
                    config@.session_manager,
                    key.name@,
                    key.text_spec(),
                    key.raw@,
                    current@,
                ) == Err::<(ManagerModel, Effect), SessionError>(e) && final(self)@ == old(self)@,
            },
            r matches Ok(ManagerCommand::Redraw) ==> selection_in_range(final(self)@),
    {
        let renaming = self.rename_input.is_some();
        let editing = renaming || self.searching;
        let found = config.session_manager_action(key.name.as_str(), editing);
        let action: &str = match found {
            Some(a) => a,
            None => "",
        };
        proof {
            lemma_action_of(config@.session_manager, key.name@, editing, found);
        }
        if renaming {
            self.rename_key(action, key.raw.as_slice(), current)
        } else {
            self.list_key(action, key.text(), current)
        }
    }

    /// After a rename: a search shows the new name, else the query is cleared,
    /// and the rename prompt closes.
    pub fn finish_rename(&mut self, new_name: &str)
        ensures
            final(self)@ == (ManagerModel {
                query: if old(self).searching {
                    new_name@
                } else {
                    Seq::empty()
                },
                rename_input: None,
                ..old(self)@
            }),
    {
        if self.searching {
            self.query = new_name.to_owned();
        } else {
            self.query = String::new();
        }
        self.rename_input = None;
    }

    /// After another session was deleted the query is cleared.
    pub fn clear_query(&mut self)
        ensures
            final(self)@ == (ManagerModel { query: Seq::empty(), ..old(self)@ }),
    {
        self.query = String::new();
    }

    /// Take a freshly read list of sessions, keeping the selected session
    /// selected where it is still listed.
    pub fn refresh(&mut self, sessions: Vec<SessionInfo>, current: &str)
        ensures
            final(self)@ == refreshed(old(self)@, sessions@, current@),
            selection_in_range(final(self)@),
    {
        let keep = self.selected_session_name();
        let listed = matching_session_info(sessions.as_slice(), self.query.as_str());
        let index = match keep {
            Some(name) => match first_named(&listed, name.as_str()) {
                Some(i) => i,
                None => first_detached(&listed, current),
            },
            None => first_detached(&listed, current),
        };
        self.sessions = sessions;
        self.selected = index;
        let _ = self.clamp_selection();
    }
}

} // verus!
