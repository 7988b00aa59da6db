//! The session picker shown before attaching: choosing, searching and naming
//! a new session, one key at a time.

use vstd::prelude::*;
use vstd::utf8::encode_utf8;
use vstd::string::StringSliceAdditionalSpecFns;
use std::ops::ControlFlow;

use crate::app::{copy_session_info, matching_session_info, same_text, session_matches};
use crate::config::{Config, quote, quoted};
use crate::input::DecodedKey;
use crate::manager::{
    all_name_bytes, byte_len, default_selection, first_detached, manager_action_for, name_bytes, without_last,
};
use crate::session::{SessionInfo, valid_name_bytes, validate_session_name};
use crate::text::{pop_char, push_str};

verus! {

/// What the picker shows: the listed sessions, the selection, the search
/// query and the name being typed for a new session.
pub struct SessionManagerView {
    pub searching: bool,
    pub query: String,
    pub sessions: Vec<SessionInfo>,
    pub selected: usize,
    pub current: String,
    pub rename_input: Option<String>,
    pub create_input: Option<String>,
}

pub struct PickerModel {
    pub searching: bool,
    pub query: Seq<char>,
    pub sessions: Seq<SessionInfo>,
    pub selected: usize,
    pub current: Seq<char>,
    pub rename_input: Option<Seq<char>>,
    pub create_input: Option<Seq<char>>,
}

pub open spec fn text_option(o: Option<String>) -> Option<Seq<char>> {
    match o {
        Some(s) => Some(s@),
        None => None,
    }
}

impl View for SessionManagerView {
    type V = PickerModel;

    open spec fn view(&self) -> PickerModel {
        PickerModel {
            searching: self.searching,
            query: self.query@,
            sessions: self.sessions@,
            selected: self.selected,
            current: self.current@,
            rename_input: text_option(self.rename_input),
            create_input: text_option(self.create_input),
        }
    }
}

/// How a key ends: the picker stays open, or closes with a session name or with none.
pub enum PickerEffect {
    Continue,
    Open(Seq<char>),
    Cancel,
}

pub open spec fn effect_of(r: ControlFlow<Option<String>>) -> PickerEffect {
    match r {
        ControlFlow::Continue(()) => PickerEffect::Continue,
        ControlFlow::Break(None) => PickerEffect::Cancel,
        ControlFlow::Break(Some(s)) => PickerEffect::Open(s@),
    }
}

pub open spec fn invalid_name_message() -> Seq<char> {
    "session names may contain only letters, numbers, '-' and '_'"@
}

pub open spec fn exists_message(name: Seq<char>) -> Seq<char> {
    quoted("session '"@, name, "' already exists"@)
}

pub open spec fn name_taken(all: Seq<SessionInfo>, name: Seq<char>) -> bool {
    exists|i: int| 0 <= i < all.len() && #[trigger] all[i].name@ == name
}

/// A key while a new session's name is typed. The error is cleared first.
pub open spec fn create_step(v: PickerModel, n: Seq<char>, all: Seq<SessionInfo>, action: Option<Seq<char>>, text: Option<Seq<char>>) -> (
    PickerModel,
    Option<Seq<char>>,
    PickerEffect,
) {
    let a = match action {
        Some(a) => a,
        None => ""@,
    };
    if a == "cancel"@ {
        (PickerModel { create_input: None, ..v }, None, PickerEffect::Continue)
    } else if a == "open"@ {
        if n.len() == 0 {
            (v, None, PickerEffect::Continue)
        } else if !valid_name_bytes(encode_utf8(n)) {
            (v, Some(invalid_name_message()), PickerEffect::Continue)
        } else if name_taken(all, n) {
            (v, Some(exists_message(n)), PickerEffect::Continue)
        } else {
            (v, None, PickerEffect::Open(n))
        }
    } else if a == "backspace"@ {
        (PickerModel { create_input: Some(without_last(n)), ..v }, None, PickerEffect::Continue)
    } else {
        match text {
            Some(t) => if name_bytes(encode_utf8(t)) && byte_len(n) + byte_len(t) <= 64 {
                (PickerModel { create_input: Some(n + t), ..v }, None, PickerEffect::Continue)
            } else {
                (v, None, PickerEffect::Continue)
            },
            None => (v, None, PickerEffect::Continue),
        }
    }
}

/// While searching, the list is the sessions matching the query and the
/// selection stays on it.
pub open spec fn relisted(v: PickerModel, all: Seq<SessionInfo>) -> PickerModel {
    if v.searching {
        let listed = session_matches(all, v.query);
        let last: usize = if listed.len() == 0 {
            0
        } else {
            (listed.len() - 1) as usize
        };
        PickerModel { sessions: listed, selected: if v.selected <= last { v.selected } else { last }, ..v }
    } else {
        v
    }
}

/// A key while sessions are listed.
pub open spec fn list_key_step(v: PickerModel, all: Seq<SessionInfo>, action: Option<Seq<char>>, text: Option<Seq<char>>) -> (
    PickerModel,
    Option<Seq<char>>,
    PickerEffect,
) {
    let a = match action {
        Some(a) => a,
        None => ""@,
    };
    let n = v.sessions.len();
    if a == "cancel"@ && v.searching {
        (
            relisted(
                PickerModel {
                    searching: false,
                    query: Seq::empty(),
                    sessions: all,
                    selected: default_selection(all, ""@) as usize,
                    ..v
                },
                all,
            ),
            None,
            PickerEffect::Continue,
        )
    } else if a == "cancel"@ {
        (v, None, PickerEffect::Cancel)
    } else if a == "search"@ {
        (relisted(PickerModel { searching: true, ..v }, all), None, PickerEffect::Continue)
    } else if a == "create"@ {
        (relisted(PickerModel { create_input: Some(Seq::empty()), ..v }, all), None, PickerEffect::Continue)
    } else if a == "up"@ && n > 0 {
        let s: usize = if v.selected == 0 {
            (n - 1) as usize
        } else {
            (v.selected - 1) as usize
        };
        (relisted(PickerModel { selected: s, ..v }, all), None, PickerEffect::Continue)
    } else if a == "down"@ && n > 0 {
        (
            relisted(PickerModel { selected: ((v.selected + 1) % (n as int)) as usize, ..v }, all),
            None,
            PickerEffect::Continue,
        )
    } else if a == "open"@ {
        if v.selected < n {
            (v, None, PickerEffect::Open(v.sessions[v.selected as int].name@))
        } else {
            (relisted(v, all), None, PickerEffect::Continue)
        }
    } else if a == "complete"@ && v.searching {
        if v.selected < n {
            (
                relisted(PickerModel { query: v.sessions[v.selected as int].name@, ..v }, all),
                None,
                PickerEffect::Continue,
            )
        } else {
            (relisted(v, all), None, PickerEffect::Continue)
        }
    } else if a == "backspace"@ && v.searching {
        (relisted(PickerModel { query: without_last(v.query), ..v }, all), None, PickerEffect::Continue)
    } else if v.searching {
        match text {
            Some(t) => (relisted(PickerModel { query: v.query + t, ..v }, all), None, PickerEffect::Continue),
            None => (relisted(v, all), None, PickerEffect::Continue),
        }
    } else {
        (v, None, PickerEffect::Continue)
    }
}

/// One key: releases are ignored, Ctrl-C cancels, otherwise the binding
/// table decides (in editing form while a name is typed or a search runs).
pub open spec fn picker_step(
    v: PickerModel,
    all: Seq<SessionInfo>,
    error: Option<Seq<char>>,
    table: Seq<(Seq<char>, Seq<Seq<char>>)>,
    name: Seq<char>,
    event_type: u8,
    text: Option<Seq<char>>,
) -> (PickerModel, Option<Seq<char>>, PickerEffect) {
    if event_type == 3 {
        (v, error, PickerEffect::Continue)
    } else if name == "ctrl c"@ {
        (v, error, PickerEffect::Cancel)
    } else {
        match v.create_input {
            Some(n) => create_step(v, n, all, manager_action_for(table, name, true), text),
            None => list_key_step(v, all, manager_action_for(table, name, v.searching), text),
        }
    }
}

fn copy_sessions(s: &[SessionInfo]) -> (r: Vec<SessionInfo>)
    ensures
        r@ == s@,
{
    let mut out: Vec<SessionInfo> = Vec::new();
    let mut i: usize = 0;
    while i < s.len()
        invariant
            i <= s@.len(),
            out@ == s@.take(i as int),
        decreases s@.len() - i,
    {
        out.push(copy_session_info(&s[i]));
        assert(s@.take(i + 1) =~= s@.take(i as int).push(s@[i as int]));
        i += 1;
    }
    assert(s@.take(s@.len() as int) =~= s@);
    out
}

fn taken(all: &[SessionInfo], name: &str) -> (r: bool)
    ensures
        r == name_taken(all@, name@),
{
    let mut i: usize = 0;
    while i < all.len()
        invariant
            i <= all@.len(),
            forall|k: int| 0 <= k < i ==> all@[k].name@ != name@,
        decreases all@.len() - i,
    {
        if same_text(all[i].name.as_str(), name) {
            return true;
        }
        i += 1;
    }
    false
}

fn relist(view: &mut SessionManagerView, all: &[SessionInfo])
    ensures
        final(view)@ == relisted(old(view)@, all@),
{
    if view.searching {
        view.sessions = matching_session_info(all, view.query.as_str());
        let last = if view.sessions.len() == 0 {
            0
        } else {
            view.sessions.len() - 1
        };
        if view.selected > last {
            view.selected = last;
        }
    }
}

fn create_key(
    view: &mut SessionManagerView,
    sessions: &[SessionInfo],
    error: &mut Option<String>,
    action: &str,
    text: Option<&str>,
) -> (r: ControlFlow<Option<String>>)
    requires
        old(view).create_input is Some,
    ensures
        (final(view)@, text_option(*final(error)), effect_of(r)) == create_step(
            old(view)@,
            old(view)@.create_input->0,
            sessions@,
            Some(action@),
            match text {
                Some(t) => Some(t@),
                None => None,
            },
        ),
{
    *error = None;
    let mut name = match &view.create_input {
        Some(n) => n.clone(),
        None => String::new(),
    };
    if same_text(action, "cancel") {
        view.create_input = None;
    } else if same_text(action, "open") {
        if name.unicode_len() == 0 {
            return ControlFlow::Continue(());
        }
        match validate_session_name(name.as_str()) {
            Err(_) => {
                *error = Some("session names may contain only letters, numbers, '-' and '_'".to_owned());
            },
            Ok(()) => {
                if taken(sessions, name.as_str()) {
                    *error = Some(quote("session '", name.as_str(), "' already exists"));
                } else {
                    return ControlFlow::Break(Some(name));
                }
            },
        }
    } else if same_text(action, "backspace") {
        let _ = pop_char(&mut name);
        view.create_input = Some(name);
    } else {
        match text {
            Some(t) => {
                let bytes = t.as_bytes();
                if all_name_bytes(bytes) && bytes.len() <= 64 && name.as_str().as_bytes().len() <= 64
                    - bytes.len() {
                    push_str(&mut name, t);
                    view.create_input = Some(name);
                }
            },
            None => {},
        }
    }
    ControlFlow::Continue(())
}

fn list_key(
    view: &mut SessionManagerView,
    sessions: &[SessionInfo],
    error: &mut Option<String>,
    action: &str,
    text: Option<&str>,
) -> (r: ControlFlow<Option<String>>)
    requires
        old(view).selected < usize::MAX,
    ensures
        (final(view)@, text_option(*final(error)), effect_of(r)) == list_key_step(
            old(view)@,
            sessions@,
            Some(action@),
            match text {
                Some(t) => Some(t@),
                None => None,
            },
        ),
{
    *error = None;
    let n = view.sessions.len();
    if same_text(action, "cancel") && view.searching {
        view.searching = false;
        view.query = String::new();
        view.sessions = copy_sessions(sessions);
        view.selected = first_detached(&view.sessions, "");
    } else if same_text(action, "cancel") {
        return ControlFlow::Break(None);
    } else if same_text(action, "search") {
        view.searching = true;
    } else if same_text(action, "create") {
        view.create_input = Some(String::new());
    } else if same_text(action, "up") && n > 0 {
        view.selected = if view.selected == 0 {
            n - 1
        } else {
            view.selected - 1
        };
    } else if same_text(action, "down") && n > 0 {
        view.selected = (view.selected + 1) % n;
    } else if same_text(action, "open") {
        if view.selected < n {
            return ControlFlow::Break(Some(view.sessions[view.selected].name.clone()));
        }
    } else if same_text(action, "complete") && view.searching {
        if view.selected < n {
            view.query = view.sessions[view.selected].name.clone();
        }
    } else if same_text(action, "backspace") && view.searching {
        let _ = pop_char(&mut view.query);
    } else if view.searching {
        match text {
            Some(t) => push_str(&mut view.query, t),
            None => {},
        }
    } else {
        return ControlFlow::Continue(());
    }
    relist(view, sessions);
    ControlFlow::Continue(())
}

/// Handle one key of the picker. `sessions` are all known sessions; `error`
/// holds the message the picker shows, cleared by every key it acts on.
pub fn handle_key(
    config: &Config,
    sessions: &[SessionInfo],
    view: &mut SessionManagerView,
    error: &mut Option<String>,
    key: &DecodedKey,
) -> (r: ControlFlow<Option<String>>)
    requires
        old(view).selected < usize::MAX,
    ensures
        (final(view)@, text_option(*final(error)), effect_of(r)) == picker_step(
            old(view)@,
            sessions@,
            text_option(*old(error)),
            config@.session_manager,
            key.name@,
            key.event_type,
            key.text_spec(),
        ),
{
    if key.event_type == 3 {
        return ControlFlow::Continue(());
    }
    if same_text(key.name.as_str(), "ctrl c") {
        return ControlFlow::Break(None);
    }
    let creating = view.create_input.is_some();
    let editing = creating || view.searching;
    let found = config.session_manager_action(key.name.as_str(), editing);
    let action: &str = match found {
        Some(a) => a,
        None => "",
    };
    proof {
        crate::manager::lemma_action_of(config@.session_manager, key.name@, editing, found);
    }
    if creating {
        create_key(view, sessions, error, action, key.text())
    } else {
        list_key(view, sessions, error, action, key.text())
    }
}

} // verus!
