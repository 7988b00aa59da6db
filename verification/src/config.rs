//! Configuration values that need no file: canonical key names, action
//! names and their arguments, and the settings' valid ranges.

use vstd::prelude::*;
use vstd::string::StringSliceAdditionalSpecFns;
use vstd::utf8::encode_utf8;

use crate::app::{ascii_lower, ascii_lowercase, is_space, word_state, is_space_exec, same_text, split_words, string_views, to_ascii_lowercase, words};
use crate::text::{ascii_text, push_char, push_str};
use crate::parser::{decimal, push_decimal};

verus! {

/// The built-in configuration, in the config file's format; a user's file is laid over it.
pub const DEFAULT_CONFIG_TOML: &'static str = r#"
default_mode = "locked"
clear_defaults = false
compact = false
scrollback_lines = 1000
autosave_interval_seconds = 30 # 0 disables automatic saving.
# shell = "/bin/zsh" # Defaults to $SHELL, then /bin/sh.

[notifications]
enabled = true
command_duration_seconds = 10
exclude_applications = ["yazi", "nvim"]

# Each action replaces its default keys; [] disables it.
[session_manager]
up = ["k", "up"]
down = ["j", "down"]
search = ["/"]
complete = ["tab"]
open = ["enter"]
rename = ["Ctrl r"]
save = ["Ctrl a"]
delete = ["delete"]
disconnect = ["Ctrl x"]
cancel = ["esc"]
backspace = ["backspace"]

# A binding can also use { actions = [...], display = "always" }.
# display: "always" = status + help, "help" = help only, "hidden" = not listed.
[keybinds.locked]
"Ctrl b" = [{ action = "switch-mode", mode = "normal" }]

[keybinds.normal]
"Ctrl b" = ["send-prefix", { action = "switch-mode", mode = "locked" }]
c = ["new-window", { action = "switch-mode", mode = "locked" }]
"," = ["rename-window"]
n = ["next-window", { action = "switch-mode", mode = "locked" }]
p = ["previous-window", { action = "switch-mode", mode = "locked" }]
s = ["switch-session"]
1 = [{ action = "go-to-window", index = 1 }, { action = "switch-mode", mode = "locked" }]
2 = [{ action = "go-to-window", index = 2 }, { action = "switch-mode", mode = "locked" }]
3 = [{ action = "go-to-window", index = 3 }, { action = "switch-mode", mode = "locked" }]
4 = [{ action = "go-to-window", index = 4 }, { action = "switch-mode", mode = "locked" }]
5 = [{ action = "go-to-window", index = 5 }, { action = "switch-mode", mode = "locked" }]
6 = [{ action = "go-to-window", index = 6 }, { action = "switch-mode", mode = "locked" }]
7 = [{ action = "go-to-window", index = 7 }, { action = "switch-mode", mode = "locked" }]
8 = [{ action = "go-to-window", index = 8 }, { action = "switch-mode", mode = "locked" }]
9 = [{ action = "go-to-window", index = 9 }, { action = "switch-mode", mode = "locked" }]
"[" = [{ action = "switch-mode", mode = "scroll" }]
enter = [{ action = "switch-mode", mode = "scroll" }]
h = ["edit-history", { action = "switch-mode", mode = "locked" }]
e = ["edit-last-output", { action = "switch-mode", mode = "locked" }]
y = ["copy-last-output", { action = "switch-mode", mode = "locked" }]
i = [{ action = "switch-mode", mode = "locked" }, "toggle-floating-terminal"]
"Ctrl p" = [{ action = "switch-mode", mode = "pane" }]
"&" = ["close-window", { action = "switch-mode", mode = "locked" }]
x = ["close-window", { action = "switch-mode", mode = "locked" }]
d = ["detach"]
"?" = ["show-help", { action = "switch-mode", mode = "locked" }]
"<" = { actions = ["move-window-left", { action = "switch-mode", mode = "locked" }], display = "help" }
">" = { actions = ["move-window-right", { action = "switch-mode", mode = "locked" }], display = "help" }

[keybinds.pane]
r = ["new-pane-right", { action = "switch-mode", mode = "locked" }]
d = ["new-pane-down", { action = "switch-mode", mode = "locked" }]
n = ["new-pane-right", { action = "switch-mode", mode = "locked" }]
h = ["focus-left", { action = "switch-mode", mode = "locked" }]
j = ["focus-down", { action = "switch-mode", mode = "locked" }]
k = ["focus-up", { action = "switch-mode", mode = "locked" }]
l = ["focus-right", { action = "switch-mode", mode = "locked" }]
left = ["focus-left", { action = "switch-mode", mode = "locked" }]
down = ["focus-down", { action = "switch-mode", mode = "locked" }]
up = ["focus-up", { action = "switch-mode", mode = "locked" }]
right = ["focus-right", { action = "switch-mode", mode = "locked" }]
tab = ["focus-next-pane", { action = "switch-mode", mode = "locked" }]
H = ["resize-pane-left"]
J = ["resize-pane-down"]
K = ["resize-pane-up"]
L = ["resize-pane-right"]
z = ["toggle-pane-zoom"]
x = ["close-pane", { action = "switch-mode", mode = "locked" }]
q = [{ action = "switch-mode", mode = "locked" }]
esc = [{ action = "switch-mode", mode = "locked" }]
"Alt h" = { actions = ["move-pane-left"], display = "help" }
"Alt j" = { actions = ["move-pane-down"], display = "help" }
"Alt k" = { actions = ["move-pane-up"], display = "help" }
"Alt l" = { actions = ["move-pane-right"], display = "help" }

[keybinds.scroll]
"/" = ["search-history"]
n = ["next-search-match"]
N = ["previous-search-match"]
v = ["toggle-history-selection"]
left = ["selection-left"]
h = ["selection-left"]
right = ["selection-right"]
l = ["selection-right"]
up = ["scroll-up"]
k = ["scroll-up"]
down = ["scroll-down"]
j = ["scroll-down"]
pageup = ["page-up"]
u = ["page-up"]
"Ctrl b" = ["page-up"]
"Ctrl u" = ["page-up"]
pagedown = ["page-down"]
d = ["page-down"]
"Ctrl f" = ["page-down"]
"Ctrl d" = ["page-down"]
g = ["scroll-top"]
G = ["scroll-bottom"]
E = ["scroll-bottom", { action = "switch-mode", mode = "locked" }, "edit-history"]
e = ["scroll-bottom", { action = "switch-mode", mode = "locked" }, "edit-last-output"]
y = ["copy-selection"]
q = ["scroll-bottom", { action = "switch-mode", mode = "locked" }]
esc = ["scroll-bottom", { action = "switch-mode", mode = "locked" }]
"#;

/// Something a key binding does.
#[derive(Clone, Debug, PartialEq, Eq)]
pub enum Action {
    SwitchMode(String),
    SendPrefix,
    SendKey(Vec<u8>),
    NewWindow,
    RenameWindow,
    NextWindow,
    PreviousWindow,
    MoveWindowLeft,
    MoveWindowRight,
    SwitchSession,
    GoToWindow(usize),
    CloseWindow,
    Detach,
    ShowHelp,
    ScrollUp,
    ScrollDown,
    PageUp,
    PageDown,
    ScrollTop,
    ScrollBottom,
    EditHistory,
    EditLastOutput,
    CopyLastOutput,
    ToggleFloatingTerminal,
    NewPaneRight,
    NewPaneDown,
    FocusLeft,
    FocusRight,
    FocusUp,
    FocusDown,
    FocusNextPane,
    MovePaneLeft,
    MovePaneRight,
    MovePaneUp,
    MovePaneDown,
    ClosePane,
    ResizePaneLeft,
    ResizePaneRight,
    ResizePaneUp,
    ResizePaneDown,
    TogglePaneZoom,
    SearchHistory,
    NextSearchMatch,
    PreviousSearchMatch,
    ToggleHistorySelection,
    SelectionLeft,
    SelectionRight,
    CopySelection,
}

/// A parsed action, with its argument as plain values.
pub enum ActionValue {
    Plain(Action),
    SwitchMode(Seq<char>),
    SendKey(Seq<u8>),
    GoToWindow(usize),
}

/// Whether an action is the parsed value.
pub open spec fn action_is(a: Action, v: ActionValue) -> bool {
    match (a, v) {
        (Action::SwitchMode(m), ActionValue::SwitchMode(w)) => m@ == w,
        (Action::SendKey(b), ActionValue::SendKey(w)) => b@ == w,
        (Action::GoToWindow(i), ActionValue::GoToWindow(j)) => i == j,
        (a, ActionValue::Plain(p)) => a == p && !(p is SwitchMode) && !(p is SendKey) && !(p is GoToWindow),
        _ => false,
    }
}

/// The actions that take no argument, by name.
pub open spec fn simple_action(n: Seq<char>) -> Option<Action> {
    if n == "send-prefix"@ {
        Some(Action::SendPrefix)
    } else if n == "new-window"@ {
        Some(Action::NewWindow)
    } else if n == "rename-window"@ {
        Some(Action::RenameWindow)
    } else if n == "next-window"@ {
        Some(Action::NextWindow)
    } else if n == "previous-window"@ {
        Some(Action::PreviousWindow)
    } else if n == "move-window-left"@ {
        Some(Action::MoveWindowLeft)
    } else if n == "move-window-right"@ {
        Some(Action::MoveWindowRight)
    } else if n == "switch-session"@ {
        Some(Action::SwitchSession)
    } else if n == "close-window"@ {
        Some(Action::CloseWindow)
    } else if n == "detach"@ {
        Some(Action::Detach)
    } else if n == "show-help"@ {
        Some(Action::ShowHelp)
    } else if n == "scroll-up"@ {
        Some(Action::ScrollUp)
    } else if n == "scroll-down"@ {
        Some(Action::ScrollDown)
    } else if n == "page-up"@ {
        Some(Action::PageUp)
    } else if n == "page-down"@ {
        Some(Action::PageDown)
    } else if n == "scroll-top"@ {
        Some(Action::ScrollTop)
    } else if n == "scroll-bottom"@ {
        Some(Action::ScrollBottom)
    } else if n == "edit-history"@ {
        Some(Action::EditHistory)
    } else if n == "edit-last-output"@ {
        Some(Action::EditLastOutput)
    } else if n == "copy-last-output"@ {
        Some(Action::CopyLastOutput)
    } else if n == "toggle-floating-terminal"@ {
        Some(Action::ToggleFloatingTerminal)
    } else if n == "new-pane-right"@ {
        Some(Action::NewPaneRight)
    } else if n == "new-pane-down"@ {
        Some(Action::NewPaneDown)
    } else if n == "focus-left"@ {
        Some(Action::FocusLeft)
    } else if n == "focus-right"@ {
        Some(Action::FocusRight)
    } else if n == "focus-up"@ {
        Some(Action::FocusUp)
    } else if n == "focus-down"@ {
        Some(Action::FocusDown)
    } else if n == "focus-next-pane"@ {
        Some(Action::FocusNextPane)
    } else if n == "move-pane-left"@ {
        Some(Action::MovePaneLeft)
    } else if n == "move-pane-right"@ {
        Some(Action::MovePaneRight)
    } else if n == "move-pane-up"@ {
        Some(Action::MovePaneUp)
    } else if n == "move-pane-down"@ {
        Some(Action::MovePaneDown)
    } else if n == "close-pane"@ {
        Some(Action::ClosePane)
    } else if n == "resize-pane-left"@ {
        Some(Action::ResizePaneLeft)
    } else if n == "resize-pane-right"@ {
        Some(Action::ResizePaneRight)
    } else if n == "resize-pane-up"@ {
        Some(Action::ResizePaneUp)
    } else if n == "resize-pane-down"@ {
        Some(Action::ResizePaneDown)
    } else if n == "toggle-pane-zoom"@ {
        Some(Action::TogglePaneZoom)
    } else if n == "search-history"@ {
        Some(Action::SearchHistory)
    } else if n == "next-search-match"@ {
        Some(Action::NextSearchMatch)
    } else if n == "previous-search-match"@ {
        Some(Action::PreviousSearchMatch)
    } else if n == "toggle-history-selection"@ {
        Some(Action::ToggleHistorySelection)
    } else if n == "selection-left"@ {
        Some(Action::SelectionLeft)
    } else if n == "selection-right"@ {
        Some(Action::SelectionRight)
    } else if n == "copy-selection"@ {
        Some(Action::CopySelection)
    } else {
        None
    }
}

fn simple_action_exec(n: &str) -> (r: Option<Action>)
    ensures
        r == simple_action(n@),
{
    if same_text(n, "send-prefix") {
        Some(Action::SendPrefix)
    } else if same_text(n, "new-window") {
        Some(Action::NewWindow)
    } else if same_text(n, "rename-window") {
        Some(Action::RenameWindow)
    } else if same_text(n, "next-window") {
        Some(Action::NextWindow)
    } else if same_text(n, "previous-window") {
        Some(Action::PreviousWindow)
    } else if same_text(n, "move-window-left") {
        Some(Action::MoveWindowLeft)
    } else if same_text(n, "move-window-right") {
        Some(Action::MoveWindowRight)
    } else if same_text(n, "switch-session") {
        Some(Action::SwitchSession)
    } else if same_text(n, "close-window") {
        Some(Action::CloseWindow)
    } else if same_text(n, "detach") {
        Some(Action::Detach)
    } else if same_text(n, "show-help") {
        Some(Action::ShowHelp)
    } else if same_text(n, "scroll-up") {
        Some(Action::ScrollUp)
    } else if same_text(n, "scroll-down") {
        Some(Action::ScrollDown)
    } else if same_text(n, "page-up") {
        Some(Action::PageUp)
    } else if same_text(n, "page-down") {
        Some(Action::PageDown)
    } else if same_text(n, "scroll-top") {
        Some(Action::ScrollTop)
    } else if same_text(n, "scroll-bottom") {
        Some(Action::ScrollBottom)
    } else if same_text(n, "edit-history") {
        Some(Action::EditHistory)
    } else if same_text(n, "edit-last-output") {
        Some(Action::EditLastOutput)
    } else if same_text(n, "copy-last-output") {
        Some(Action::CopyLastOutput)
    } else if same_text(n, "toggle-floating-terminal") {
        Some(Action::ToggleFloatingTerminal)
    } else if same_text(n, "new-pane-right") {
        Some(Action::NewPaneRight)
    } else if same_text(n, "new-pane-down") {
        Some(Action::NewPaneDown)
    } else if same_text(n, "focus-left") {
        Some(Action::FocusLeft)
    } else if same_text(n, "focus-right") {
        Some(Action::FocusRight)
    } else if same_text(n, "focus-up") {
        Some(Action::FocusUp)
    } else if same_text(n, "focus-down") {
        Some(Action::FocusDown)
    } else if same_text(n, "focus-next-pane") {
        Some(Action::FocusNextPane)
    } else if same_text(n, "move-pane-left") {
        Some(Action::MovePaneLeft)
    } else if same_text(n, "move-pane-right") {
        Some(Action::MovePaneRight)
    } else if same_text(n, "move-pane-up") {
        Some(Action::MovePaneUp)
    } else if same_text(n, "move-pane-down") {
        Some(Action::MovePaneDown)
    } else if same_text(n, "close-pane") {
        Some(Action::ClosePane)
    } else if same_text(n, "resize-pane-left") {
        Some(Action::ResizePaneLeft)
    } else if same_text(n, "resize-pane-right") {
        Some(Action::ResizePaneRight)
    } else if same_text(n, "resize-pane-up") {
        Some(Action::ResizePaneUp)
    } else if same_text(n, "resize-pane-down") {
        Some(Action::ResizePaneDown)
    } else if same_text(n, "toggle-pane-zoom") {
        Some(Action::TogglePaneZoom)
    } else if same_text(n, "search-history") {
        Some(Action::SearchHistory)
    } else if same_text(n, "next-search-match") {
        Some(Action::NextSearchMatch)
    } else if same_text(n, "previous-search-match") {
        Some(Action::PreviousSearchMatch)
    } else if same_text(n, "toggle-history-selection") {
        Some(Action::ToggleHistorySelection)
    } else if same_text(n, "selection-left") {
        Some(Action::SelectionLeft)
    } else if same_text(n, "selection-right") {
        Some(Action::SelectionRight)
    } else if same_text(n, "copy-selection") {
        Some(Action::CopySelection)
    } else {
        None
    }
}

pub open spec fn trim_start(s: Seq<char>) -> Seq<char>
    decreases s.len(),
{
    if s.len() > 0 && is_space(s[0]) {
        trim_start(s.drop_first())
    } else {
        s
    }
}

pub open spec fn trim_end(s: Seq<char>) -> Seq<char>
    decreases s.len(),
{
    if s.len() > 0 && is_space(s.last()) {
        trim_end(s.drop_last())
    } else {
        s
    }
}

/// `str::trim`: whitespace removed from both ends.
pub open spec fn trim(s: Seq<char>) -> Seq<char> {
    trim_end(trim_start(s))
}

pub fn trim_text(s: &str) -> (r: String)
    ensures
        r@ == trim(s@),
{
    let n = s.unicode_len();
    let mut i: usize = 0;
    assert(s@.skip(0) =~= s@);
    while i < n && is_space_exec(s.get_char(i))
        invariant
            n == s@.len(),
            i <= n,
            trim_start(s@) == trim_start(s@.skip(i as int)),
        decreases n - i,
    {
        assert(s@.skip(i as int).drop_first() =~= s@.skip(i + 1));
        i += 1;
    }
    assert(trim_start(s@) == s@.skip(i as int));
    let mut j: usize = n;
    assert(s@.subrange(i as int, n as int) =~= s@.skip(i as int));
    while j > i && is_space_exec(s.get_char(j - 1))
        invariant
            n == s@.len(),
            i <= j <= n,
            trim(s@) == trim_end(s@.subrange(i as int, j as int)),
        decreases j,
    {
        assert(s@.subrange(i as int, j as int).drop_last() =~= s@.subrange(i as int, j - 1));
        j -= 1;
    }
    let mut out = String::new();
    let mut k = i;
    while k < j
        invariant
            n == s@.len(),
            i <= k <= j <= n,
            out@ == s@.subrange(i as int, k as int),
        decreases j - k,
    {
        push_char(&mut out, s.get_char(k));
        assert(s@.subrange(i as int, k + 1) =~= s@.subrange(i as int, k as int).push(s@[k as int]));
        k += 1;
    }
    out
}

pub open spec fn is_ascii_alpha(c: char) -> bool {
    ('a' <= c <= 'z') || ('A' <= c <= 'Z')
}

pub open spec fn quoted(prefix: Seq<char>, value: Seq<char>, suffix: Seq<char>) -> Seq<char> {
    prefix + value + suffix
}

/// The canonical spelling of a key binding: lower-case modifier names and
/// named keys, aliases resolved, single characters kept as typed (so shifted
/// letters keep their case).
pub open spec fn canonical_key_spec(key: Seq<char>) -> Result<Seq<char>, Seq<char>> {
    let t = trim(key);
    let parts = words(t);
    if t.len() == 0 {
        Err("key name cannot be empty"@)
    } else if parts.len() == 2 && (ascii_lowercase(parts[0]) == "ctrl"@ || ascii_lowercase(parts[0]) == "alt"@) {
        let m = ascii_lowercase(parts[0]);
        let k = ascii_lowercase(parts[1]);
        if k.len() == 1 && (m == "alt"@ || is_ascii_alpha(k[0])) {
            Ok(m + " "@ + k)
        } else {
            Err(quoted("unsupported control key '"@, t, "'"@))
        }
    } else if parts.len() != 1 {
        Err(quoted("unsupported key '"@, t, "'"@))
    } else {
        let l = ascii_lowercase(t);
        if l == "escape"@ {
            Ok("esc"@)
        } else if l == "del"@ {
            Ok("delete"@)
        } else if l == "return"@ {
            Ok("enter"@)
        } else if l == "pgup"@ || l == "page-up"@ {
            Ok("pageup"@)
        } else if l == "pgdn"@ || l == "page-down"@ {
            Ok("pagedown"@)
        } else if l == "up"@ || l == "down"@ || l == "left"@ || l == "right"@ || l == "enter"@ || l == "tab"@ || l
            == "backspace"@ || l == "esc"@ || l == "pageup"@ || l == "pagedown"@ || l == "delete"@ {
            Ok(l)
        } else if t.len() == 1 {
            Ok(t)
        } else {
            Err(quoted("unsupported key '"@, t, "'"@))
        }
    }
}

proof fn lemma_word_state_parts(s: Seq<char>)
    ensures
        forall|i: int| 0 <= i < word_state(s).0.len() ==> #[trigger] word_state(s).0[i].len() > 0,
        forall|i: int, j: int|
            0 <= i < word_state(s).0.len() && 0 <= j < word_state(s).0[i].len() ==> !is_space(#[trigger] word_state(s).0[i][j]),
        forall|j: int| 0 <= j < word_state(s).1.len() ==> !is_space(#[trigger] word_state(s).1[j]),
    decreases s.len(),
{
    if s.len() > 0 {
        lemma_word_state_parts(s.drop_last());
        let done = word_state(s.drop_last()).0;
        let current = word_state(s.drop_last()).1;
        let c = s.last();
        if is_space(c) && current.len() > 0 {
            let d = done.push(current);
            assert(word_state(s).0 == d);
            assert forall|i: int| 0 <= i < d.len() implies #[trigger] d[i].len() > 0 by {
                if i < done.len() {
                    assert(d[i] == done[i]);
                }
            }
            assert forall|i: int, j: int| 0 <= i < d.len() && 0 <= j < d[i].len() implies !is_space(#[trigger] d[i][j]) by {
                if i < done.len() {
                    assert(d[i] == done[i]);
                } else {
                    assert(d[i] == current);
                }
            }
        }
    }
}

proof fn lemma_words_parts(s: Seq<char>)
    ensures
        forall|i: int| 0 <= i < words(s).len() ==> #[trigger] words(s)[i].len() > 0,
        forall|i: int, j: int| 0 <= i < words(s).len() && 0 <= j < words(s)[i].len() ==> !is_space(#[trigger] words(s)[i][j]),
{
    lemma_word_state_parts(s);
}

proof fn lemma_state_append(x: Seq<char>, y: Seq<char>)
    requires
        forall|j: int| 0 <= j < y.len() ==> !is_space(#[trigger] y[j]),
    ensures
        word_state(x + y) == (word_state(x).0, word_state(x).1 + y),
    decreases y.len(),
{
    if y.len() == 0 {
        assert(x + y =~= x);
        assert(word_state(x).1 + y =~= word_state(x).1);
    } else {
        lemma_state_append(x, y.drop_last());
        assert((x + y).drop_last() =~= x + y.drop_last());
        assert((x + y).last() == y.last());
        assert(word_state(x).1 + y.drop_last() + seq![y.last()] =~= word_state(x).1 + y);
        assert((word_state(x).1 + y.drop_last()).push(y.last()) =~= word_state(x).1 + y);
    }
}

proof fn lemma_one_word(a: Seq<char>)
    requires
        a.len() > 0,
        forall|j: int| 0 <= j < a.len() ==> !is_space(#[trigger] a[j]),
    ensures
        words(a) == seq![a],
        trim(a) == a,
{
    lemma_state_append(Seq::empty(), a);
    assert(Seq::<char>::empty() + a =~= a);
    assert(Seq::<char>::empty() + a =~= a);
    assert(word_state(Seq::<char>::empty()).0 =~= Seq::<Seq<char>>::empty());
    assert(Seq::<Seq<char>>::empty().push(a) =~= seq![a]);
    assert(!is_space(a[0]));
    assert(!is_space(a.last()));
}

proof fn lemma_two_words(a: Seq<char>, b: Seq<char>)
    requires
        a.len() > 0,
        b.len() > 0,
        forall|j: int| 0 <= j < a.len() ==> !is_space(#[trigger] a[j]),
        forall|j: int| 0 <= j < b.len() ==> !is_space(#[trigger] b[j]),
    ensures
        words(a + seq![' '] + b) == seq![a, b],
        trim(a + seq![' '] + b) == a + seq![' '] + b,
{
    lemma_state_append(Seq::empty(), a);
    assert(Seq::<char>::empty() + a =~= a);
    let s1 = a + seq![' '];
    assert(s1.drop_last() =~= a);
    assert(word_state(s1) == (seq![a], Seq::<char>::empty())) by {
        assert(word_state(Seq::<char>::empty()).0.push(a) =~= seq![a]);
    }
    lemma_state_append(s1, b);
    assert(Seq::<char>::empty() + b =~= b);
    assert(seq![a].push(b) =~= seq![a, b]);
    let r = a + seq![' '] + b;
    assert(r[0] == a[0]);
    assert(r.last() == b.last());
}

proof fn lemma_lower_idempotent(s: Seq<char>)
    ensures
        ascii_lowercase(ascii_lowercase(s)) == ascii_lowercase(s),
{
    assert(ascii_lowercase(ascii_lowercase(s)) =~= ascii_lowercase(s));
}

proof fn lemma_trim_start_head(s: Seq<char>)
    ensures
        trim_start(s).len() > 0 ==> !is_space(trim_start(s)[0]),
    decreases s.len(),
{
    if s.len() > 0 && is_space(s[0]) {
        lemma_trim_start_head(s.drop_first());
    }
}

proof fn lemma_trim_end_prefix(s: Seq<char>)
    ensures
        trim_end(s).len() <= s.len(),
        trim_end(s) == s.take(trim_end(s).len() as int),
        trim_end(s).len() > 0 ==> !is_space(trim_end(s).last()),
    decreases s.len(),
{
    if s.len() > 0 && is_space(s.last()) {
        lemma_trim_end_prefix(s.drop_last());
        assert(s.drop_last().take(trim_end(s).len() as int) =~= s.take(trim_end(s).len() as int));
    } else {
        assert(s.take(s.len() as int) =~= s);
    }
}

proof fn lemma_trim_ends(s: Seq<char>)
    ensures
        trim(s).len() > 0 ==> !is_space(trim(s)[0]) && !is_space(trim(s).last()),
{
    lemma_trim_start_head(s);
    lemma_trim_end_prefix(trim_start(s));
    if trim(s).len() > 0 {
        assert(trim(s)[0] == trim_start(s)[0]);
    }
}

pub open spec fn is_key_name(r: Seq<char>) -> bool {
    r == "up"@ || r == "down"@ || r == "left"@ || r == "right"@ || r == "enter"@ || r == "tab"@ || r == "backspace"@ || r == "esc"@ || r == "pageup"@ || r == "pagedown"@ || r == "delete"@
}

proof fn lemma_named_key(r: Seq<char>)
    requires
        is_key_name(r),
    ensures
        canonical_key_spec(r) == Ok::<Seq<char>, Seq<char>>(r),
{
    reveal_strlit("escape");
    reveal_strlit("esc");
    reveal_strlit("del");
    reveal_strlit("delete");
    reveal_strlit("return");
    reveal_strlit("enter");
    reveal_strlit("pgup");
    reveal_strlit("page-up");
    reveal_strlit("pageup");
    reveal_strlit("pgdn");
    reveal_strlit("page-down");
    reveal_strlit("pagedown");
    reveal_strlit("up");
    reveal_strlit("down");
    reveal_strlit("left");
    reveal_strlit("right");
    reveal_strlit("tab");
    reveal_strlit("backspace");
    reveal_strlit("ctrl");
    reveal_strlit("alt");
    assert forall|j: int| 0 <= j < r.len() implies !is_space(#[trigger] r[j]) && ascii_lower(r[j]) == r[j] by {
            if r == "up"@ {
                assert(r =~= seq!['u', 'p']);
            } else if r == "down"@ {
                assert(r =~= seq!['d', 'o', 'w', 'n']);
            } else if r == "left"@ {
                assert(r =~= seq!['l', 'e', 'f', 't']);
            } else if r == "right"@ {
                assert(r =~= seq!['r', 'i', 'g', 'h', 't']);
            } else if r == "enter"@ {
                assert(r =~= seq!['e', 'n', 't', 'e', 'r']);
            } else if r == "tab"@ {
                assert(r =~= seq!['t', 'a', 'b']);
            } else if r == "backspace"@ {
                assert(r =~= seq!['b', 'a', 'c', 'k', 's', 'p', 'a', 'c', 'e']);
            } else if r == "esc"@ {
                assert(r =~= seq!['e', 's', 'c']);
            } else if r == "pageup"@ {
                assert(r =~= seq!['p', 'a', 'g', 'e', 'u', 'p']);
            } else if r == "pagedown"@ {
                assert(r =~= seq!['p', 'a', 'g', 'e', 'd', 'o', 'w', 'n']);
            } else if r == "delete"@ {
                assert(r =~= seq!['d', 'e', 'l', 'e', 't', 'e']);
            }
    }
    lemma_one_word(r);
    assert(ascii_lowercase(r) =~= r);
}

/// A key name that canonicalises is its own canonical name: a modifier
/// combination such as `ctrl a`, a named key such as `pagedown`, or a single
/// character canonicalises to itself.
pub proof fn canonical_key_names_are_canonical(key: Seq<char>)
    ensures
        canonical_key_spec(key) is Ok ==> canonical_key_spec(canonical_key_spec(key)->Ok_0) == canonical_key_spec(key),
{
    reveal_strlit("ctrl");
    reveal_strlit("alt");
    reveal_strlit(" ");
    reveal_strlit("escape");
    reveal_strlit("esc");
    reveal_strlit("del");
    reveal_strlit("delete");
    reveal_strlit("return");
    reveal_strlit("enter");
    reveal_strlit("pgup");
    reveal_strlit("page-up");
    reveal_strlit("pageup");
    reveal_strlit("pgdn");
    reveal_strlit("page-down");
    reveal_strlit("pagedown");
    reveal_strlit("up");
    reveal_strlit("down");
    reveal_strlit("left");
    reveal_strlit("right");
    reveal_strlit("tab");
    reveal_strlit("backspace");
    let t = trim(key);
    let parts = words(t);
    lemma_words_parts(t);
    lemma_trim_ends(key);
    if canonical_key_spec(key) is Ok && t.len() > 0 {
        let r = canonical_key_spec(key)->Ok_0;
        if parts.len() == 2 && (ascii_lowercase(parts[0]) == "ctrl"@ || ascii_lowercase(parts[0]) == "alt"@) {
            let m = ascii_lowercase(parts[0]);
            let k = ascii_lowercase(parts[1]);
            assert(parts[1].len() > 0);
            assert(!is_space(parts[1][0]));
            assert(k[0] == ascii_lower(parts[1][0]));
            assert(!is_space(k[0]));
            assert forall|j: int| 0 <= j < k.len() implies !is_space(#[trigger] k[j]) by {
                assert(j == 0);
            }
            assert forall|j: int| 0 <= j < m.len() implies !is_space(#[trigger] m[j]) by {
                if m == "ctrl"@ {
                    assert(m =~= seq!['c', 't', 'r', 'l']);
                } else {
                    assert(m =~= seq!['a', 'l', 't']);
                }
            }
            assert(" "@ =~= seq![' ']);
            lemma_two_words(m, k);
            lemma_lower_idempotent(parts[0]);
            lemma_lower_idempotent(parts[1]);
            assert(words(r) == seq![m, k]);
        } else if parts.len() == 1 {
            let l = ascii_lowercase(t);
            if is_key_name(r) {
                lemma_named_key(r);
            } else {
                assert(r == t);
                assert(t.len() == 1);
                assert forall|j: int| 0 <= j < t.len() implies !is_space(#[trigger] t[j]) by {
                    assert(j == 0);
                }
                lemma_one_word(t);
            }
        }
    }
}

proof fn lemma_action_name_idempotent(name: Seq<char>)
    ensures
        action_name(action_name(name)) == action_name(name),
{
    let t = trim(name);
    let y = action_name(name);
    lemma_trim_ends(name);
    assert(y.len() == t.len());
    if y.len() > 0 {
        assert(y[0] == (if ascii_lower(t[0]) == '_' { '-' } else { ascii_lower(t[0]) }));
        assert(!is_space(y[0]));
        assert(y.last() == y[y.len() - 1]);
        assert(!is_space(y.last()));
        assert(trim_start(y) == y);
        assert(trim_end(y) == y);
    } else {
        assert(trim(y) =~= y);
    }
    assert(trim(y) == y);
    assert(ascii_lowercase(y) =~= y);
    assert(replace_underscores(y) =~= y);
}

/// An action name and its normalized spelling (trimmed, lower-cased, with
/// `_` as `-`) parse alike: one is accepted exactly when the other is, as the
/// same action. Only the texts of errors that quote the name may differ.
pub proof fn normalized_action_names_parse_alike(
    name: Seq<char>,
    mode: Option<Seq<char>>,
    index: Option<usize>,
    key: Option<Seq<char>>,
)
    ensures
        parse_action_spec(name, mode, index, key) is Ok <==> parse_action_spec(action_name(name), mode, index, key) is Ok,
        parse_action_spec(name, mode, index, key) is Ok ==> parse_action_spec(action_name(name), mode, index, key)
            == parse_action_spec(name, mode, index, key),
{
    lemma_action_name_idempotent(name);
}

fn literal(text: &str) -> (r: String)
    ensures
        r@ == text@,
{
    text.to_owned()
}

pub(crate) fn quote(prefix: &str, value: &str, suffix: &str) -> (r: String)
    ensures
        r@ == quoted(prefix@, value@, suffix@),
{
    let mut out = literal(prefix);
    push_str(&mut out, value);
    push_str(&mut out, suffix);
    out
}

pub fn canonical_key_name(key: &str) -> (r: Result<String, String>)
    ensures
        match r {
            Ok(s) => canonical_key_spec(key@) == Ok::<Seq<char>, Seq<char>>(s@),
            Err(e) => canonical_key_spec(key@) == Err::<Seq<char>, Seq<char>>(e@),
        },
{
    let trimmed = trim_text(key);
    let t = trimmed.as_str();
    if t.unicode_len() == 0 {
        return Err(literal("key name cannot be empty"));
    }
    let parts = split_words(t);
    assert(string_views(parts@).len() == parts@.len());
    if parts.len() == 2 {
        assert(string_views(parts@)[0] == parts@[0]@);
        assert(string_views(parts@)[1] == parts@[1]@);
        let modifier = to_ascii_lowercase(parts[0].as_str());
        if same_text(modifier.as_str(), "ctrl") || same_text(modifier.as_str(), "alt") {
            let k = to_ascii_lowercase(parts[1].as_str());
            if k.as_str().unicode_len() == 1 {
                let c = k.as_str().get_char(0);
                if same_text(modifier.as_str(), "alt") || ('a' <= c && c <= 'z') || ('A' <= c && c <= 'Z') {
                    let mut out = modifier.clone();
                    push_char(&mut out, ' ');
                    push_str(&mut out, k.as_str());
                    assert(" "@ =~= seq![' ']) by {
                        reveal_strlit(" ");
                    }
                    assert(out@ =~= modifier@ + " "@ + k@);
                    return Ok(out);
                }
            }
            return Err(quote("unsupported control key '", t, "'"));
        }
    }
    if parts.len() != 1 {
        return Err(quote("unsupported key '", t, "'"));
    }
    let lowered = to_ascii_lowercase(t);
    let l = lowered.as_str();
    if same_text(l, "escape") {
        Ok(literal("esc"))
    } else if same_text(l, "del") {
        Ok(literal("delete"))
    } else if same_text(l, "return") {
        Ok(literal("enter"))
    } else if same_text(l, "pgup") || same_text(l, "page-up") {
        Ok(literal("pageup"))
    } else if same_text(l, "pgdn") || same_text(l, "page-down") {
        Ok(literal("pagedown"))
    } else if same_text(l, "up") || same_text(l, "down") || same_text(l, "left") || same_text(l, "right")
        || same_text(l, "enter") || same_text(l, "tab") || same_text(l, "backspace") || same_text(l, "esc")
        || same_text(l, "pageup") || same_text(l, "pagedown") || same_text(l, "delete") {
        Ok(lowered)
    } else if t.unicode_len() == 1 {
        Ok(trimmed)
    } else {
        Err(quote("unsupported key '", t, "'"))
    }
}

/// The bytes a `send-key` action writes for a canonical key name.
pub open spec fn key_bytes(canonical: Seq<char>) -> Seq<u8> {
    if canonical.len() == 6 && canonical.take(5) == "ctrl "@ && 'a' <= canonical[5] <= 'z' {
        seq![((canonical[5] as u32) - 0x60) as u8]
    } else if canonical.len() >= 4 && canonical.take(4) == "alt "@ {
        seq![0x1bu8] + encode_utf8(canonical.skip(4))
    } else if canonical == "enter"@ {
        seq![0x0du8]
    } else if canonical == "tab"@ {
        seq![0x09u8]
    } else if canonical == "backspace"@ {
        seq![0x7fu8]
    } else if canonical == "esc"@ {
        seq![0x1bu8]
    } else if canonical == "up"@ {
        seq![0x1bu8, 0x5b, 0x41]
    } else if canonical == "down"@ {
        seq![0x1bu8, 0x5b, 0x42]
    } else if canonical == "right"@ {
        seq![0x1bu8, 0x5b, 0x43]
    } else if canonical == "left"@ {
        seq![0x1bu8, 0x5b, 0x44]
    } else if canonical == "pageup"@ {
        seq![0x1bu8, 0x5b, 0x35, 0x7e]
    } else if canonical == "pagedown"@ {
        seq![0x1bu8, 0x5b, 0x36, 0x7e]
    } else if canonical == "delete"@ {
        seq![0x1bu8, 0x5b, 0x33, 0x7e]
    } else {
        encode_utf8(canonical)
    }
}

/// A mode name: trimmed, ASCII-lowercased, and made only of ASCII letters,
/// digits, '-' and '_'.
pub open spec fn mode_spec(mode: Seq<char>) -> Result<Seq<char>, Seq<char>> {
    let m = ascii_lowercase(trim(mode));
    if m.len() == 0 || exists|i: int| 0 <= i < m.len() && !mode_char(#[trigger] m[i]) {
        Err(quoted("invalid mode name '"@, m, "'"@))
    } else {
        Ok(m)
    }
}

pub open spec fn mode_char(c: char) -> bool {
    ('a' <= c <= 'z') || ('A' <= c <= 'Z') || ('0' <= c <= '9') || c == '-' || c == '_'
}

pub fn normalize_mode(mode: &str) -> (r: Result<String, String>)
    ensures
        match r {
            Ok(s) => mode_spec(mode@) == Ok::<Seq<char>, Seq<char>>(s@),
            Err(e) => mode_spec(mode@) == Err::<Seq<char>, Seq<char>>(e@),
        },
{
    let trimmed = trim_text(mode);
    let m = to_ascii_lowercase(trimmed.as_str());
    let n = m.as_str().unicode_len();
    let mut i: usize = 0;
    while i < n
        invariant
            n == m@.len(),
            m@ == ascii_lowercase(trim(mode@)),
            i <= n,
            forall|k: int| 0 <= k < i ==> mode_char(#[trigger] m@[k]),
        decreases n - i,
    {
        let c = m.as_str().get_char(i);
        if !(('a' <= c && c <= 'z') || ('A' <= c && c <= 'Z') || ('0' <= c && c <= '9') || c == '-' || c == '_') {
            assert(!mode_char(m@[i as int]));
            return Err(quote("invalid mode name '", m.as_str(), "'"));
        }
        i += 1;
    }
    if n == 0 {
        return Err(quote("invalid mode name '", m.as_str(), "'"));
    }
    Ok(m)
}

/// What `send-key` sends, or why the key is rejected.
pub open spec fn send_key_spec(key: Seq<char>) -> Result<Seq<u8>, Seq<char>> {
    match canonical_key_spec(key) {
        Ok(c) => Ok(key_bytes(c)),
        Err(e) => Err(e),
    }
}

fn starts_with_text(s: &str, prefix: &str) -> (r: bool)
    ensures
        r == (prefix@.len() <= s@.len() && s@.take(prefix@.len() as int) == prefix@),
{
    let n = prefix.unicode_len();
    if n > s.unicode_len() {
        return false;
    }
    let mut i: usize = 0;
    while i < n
        invariant
            n == prefix@.len(),
            n <= s@.len(),
            i <= n,
            forall|k: int| 0 <= k < i ==> s@[k] == prefix@[k],
        decreases n - i,
    {
        if s.get_char(i) != prefix.get_char(i) {
            assert(s@.take(n as int)[i as int] != prefix@[i as int]);
            return false;
        }
        i += 1;
    }
    assert(s@.take(n as int) =~= prefix@);
    true
}

fn fixed(bytes: &[u8]) -> (r: Vec<u8>)
    ensures
        r@ == bytes@,
{
    let mut out = Vec::new();
    let mut i: usize = 0;
    while i < bytes.len()
        invariant
            i <= bytes@.len(),
            out@ == bytes@.take(i as int),
        decreases bytes@.len() - i,
    {
        out.push(bytes[i]);
        assert(bytes@.take(i + 1) =~= bytes@.take(i as int).push(bytes@[i as int]));
        i += 1;
    }
    assert(bytes@.take(bytes@.len() as int) =~= bytes@);
    out
}

fn one(a: u8) -> (r: Vec<u8>)
    ensures
        r@ == seq![a],
{
    let mut v = Vec::new();
    v.push(a);
    assert(v@ =~= seq![a]);
    v
}

fn three(a: u8, b: u8, c: u8) -> (r: Vec<u8>)
    ensures
        r@ == seq![a, b, c],
{
    let mut v = Vec::new();
    v.push(a);
    v.push(b);
    v.push(c);
    assert(v@ =~= seq![a, b, c]);
    v
}

fn four(a: u8, b: u8, c: u8, d: u8) -> (r: Vec<u8>)
    ensures
        r@ == seq![a, b, c, d],
{
    let mut v = Vec::new();
    v.push(a);
    v.push(b);
    v.push(c);
    v.push(d);
    assert(v@ =~= seq![a, b, c, d]);
    v
}

fn suffix_text(s: &str, start: usize) -> (r: String)
    requires
        start <= s@.len(),
    ensures
        r@ == s@.skip(start as int),
{
    let n = s.unicode_len();
    let mut out = String::new();
    let mut k = start;
    while k < n
        invariant
            n == s@.len(),
            start <= k <= n,
            out@ == s@.subrange(start as int, k as int),
        decreases n - k,
    {
        push_char(&mut out, s.get_char(k));
        assert(s@.subrange(start as int, k + 1) =~= s@.subrange(start as int, k as int).push(s@[k as int]));
        k += 1;
    }
    out
}

pub fn parse_send_key(key: &str) -> (r: Result<Vec<u8>, String>)
    ensures
        match r {
            Ok(b) => send_key_spec(key@) == Ok::<Seq<u8>, Seq<char>>(b@),
            Err(e) => send_key_spec(key@) == Err::<Seq<u8>, Seq<char>>(e@),
        },
{
    let canonical = match canonical_key_name(key) {
        Ok(c) => c,
        Err(e) => {
            return Err(e);
        },
    };
    let c = canonical.as_str();
    let n = c.unicode_len();
    proof {
        reveal_strlit("ctrl ");
        reveal_strlit("alt ");
    }
    if n == 6 && starts_with_text(c, "ctrl ") && 'a' <= c.get_char(5) && c.get_char(5) <= 'z' {
        let letter = c.get_char(5);
        let byte = ((letter as u32) - 0x60) as u8;
        return Ok(one(byte));
    }
    if n >= 4 && starts_with_text(c, "alt ") {
        let rest = suffix_text(c, 4);
        let mut out = Vec::new();
        out.push(0x1bu8);
        let encoded = rest.as_str().as_bytes();
        let mut i: usize = 0;
        while i < encoded.len()
            invariant
                i <= encoded@.len(),
                out@ == seq![0x1bu8] + encoded@.take(i as int),
            decreases encoded@.len() - i,
        {
            out.push(encoded[i]);
            assert(encoded@.take(i + 1) =~= encoded@.take(i as int).push(encoded@[i as int]));
            i += 1;
        }
        assert(encoded@.take(encoded@.len() as int) =~= encoded@);
        return Ok(out);
    }
    if same_text(c, "enter") {
        Ok(one(0x0d))
    } else if same_text(c, "tab") {
        Ok(one(0x09))
    } else if same_text(c, "backspace") {
        Ok(one(0x7f))
    } else if same_text(c, "esc") {
        Ok(one(0x1b))
    } else if same_text(c, "up") {
        Ok(three(0x1b, 0x5b, 0x41))
    } else if same_text(c, "down") {
        Ok(three(0x1b, 0x5b, 0x42))
    } else if same_text(c, "right") {
        Ok(three(0x1b, 0x5b, 0x43))
    } else if same_text(c, "left") {
        Ok(three(0x1b, 0x5b, 0x44))
    } else if same_text(c, "pageup") {
        Ok(four(0x1b, 0x5b, 0x35, 0x7e))
    } else if same_text(c, "pagedown") {
        Ok(four(0x1b, 0x5b, 0x36, 0x7e))
    } else if same_text(c, "delete") {
        Ok(four(0x1b, 0x5b, 0x33, 0x7e))
    } else {
        Ok(fixed(c.as_bytes()))
    }
}

pub open spec fn replace_underscores(s: Seq<char>) -> Seq<char> {
    s.map_values(|c: char| if c == '_' { '-' } else { c })
}

/// The normalized spelling of an action name.
pub open spec fn action_name(name: Seq<char>) -> Seq<char> {
    replace_underscores(ascii_lowercase(trim(name)))
}

/// Parse an action and its arguments; each action takes only its own argument.
pub open spec fn parse_action_spec(
    name: Seq<char>,
    mode: Option<Seq<char>>,
    index: Option<usize>,
    key: Option<Seq<char>>,
) -> Result<ActionValue, Seq<char>> {
    let n = action_name(name);
    if n == "switch-mode"@ {
        if index is Some || key is Some {
            Err("switch-mode accepts only the 'mode' argument"@)
        } else {
            match mode {
                None => Err("switch-mode requires 'mode'"@),
                Some(m) => match mode_spec(m) {
                    Ok(v) => Ok(ActionValue::SwitchMode(v)),
                    Err(e) => Err(e),
                },
            }
        }
    } else if n == "send-key"@ {
        if mode is Some || index is Some {
            Err("send-key accepts only the 'key' argument"@)
        } else {
            match key {
                None => Err("send-key requires 'key'"@),
                Some(k) => match send_key_spec(k) {
                    Ok(b) => Ok(ActionValue::SendKey(b)),
                    Err(e) => Err(e),
                },
            }
        }
    } else if n == "go-to-window"@ {
        if mode is Some || key is Some {
            Err("go-to-window accepts only the 'index' argument"@)
        } else {
            match index {
                None => Err("go-to-window requires 'index'"@),
                Some(i) => if i == 0 {
                    Err("go-to-window index starts at 1"@)
                } else {
                    Ok(ActionValue::GoToWindow(i))
                },
            }
        }
    } else {
        match simple_action(n) {
            Some(a) => if mode is Some || index is Some || key is Some {
                Err(quoted("action '"@, name, "' does not accept arguments"@))
            } else {
                Ok(ActionValue::Plain(a))
            },
            None => Err(quoted("unknown action '"@, name, "'"@)),
        }
    }
}

fn normalize_action_name(name: &str) -> (r: String)
    ensures
        r@ == action_name(name@),
{
    let trimmed = trim_text(name);
    let lowered = to_ascii_lowercase(trimmed.as_str());
    let l = lowered.as_str();
    let n = l.unicode_len();
    let mut out = String::new();
    let mut i: usize = 0;
    while i < n
        invariant
            n == l@.len(),
            l@ == ascii_lowercase(trim(name@)),
            i <= n,
            out@ == replace_underscores(l@.take(i as int)),
        decreases n - i,
    {
        let c = l.get_char(i);
        push_char(&mut out, if c == '_' { '-' } else { c });
        assert(replace_underscores(l@.take(i + 1)) =~= replace_underscores(l@.take(i as int)).push(
            if c == '_' { '-' } else { c },
        ));
        i += 1;
    }
    assert(l@.take(n as int) =~= l@);
    out
}

pub open spec fn option_view(o: Option<String>) -> Option<Seq<char>> {
    match o {
        Some(s) => Some(s@),
        None => None,
    }
}

pub fn parse_action(name: &str, mode: Option<String>, index: Option<usize>, key: Option<String>) -> (r: Result<
    Action,
    String,
>)
    ensures
        match r {
            Ok(a) => match parse_action_spec(name@, option_view(mode), index, option_view(key)) {
                Ok(v) => action_is(a, v),
                Err(_) => false,
            },
            Err(e) => parse_action_spec(name@, option_view(mode), index, option_view(key)) == Err::<
                ActionValue,
                Seq<char>,
            >(e@),
        },
{
    let normalized = normalize_action_name(name);
    let n = normalized.as_str();
    if same_text(n, "switch-mode") {
        if index.is_some() || key.is_some() {
            return Err(literal("switch-mode accepts only the 'mode' argument"));
        }
        return match mode {
            None => Err(literal("switch-mode requires 'mode'")),
            Some(m) => match normalize_mode(m.as_str()) {
                Ok(v) => Ok(Action::SwitchMode(v)),
                Err(e) => Err(e),
            },
        };
    }
    if same_text(n, "send-key") {
        if mode.is_some() || index.is_some() {
            return Err(literal("send-key accepts only the 'key' argument"));
        }
        return match key {
            None => Err(literal("send-key requires 'key'")),
            Some(k) => match parse_send_key(k.as_str()) {
                Ok(b) => Ok(Action::SendKey(b)),
                Err(e) => Err(e),
            },
        };
    }
    if same_text(n, "go-to-window") {
        if mode.is_some() || key.is_some() {
            return Err(literal("go-to-window accepts only the 'index' argument"));
        }
        return match index {
            None => Err(literal("go-to-window requires 'index'")),
            Some(i) => if i == 0 {
                Err(literal("go-to-window index starts at 1"))
            } else {
                Ok(Action::GoToWindow(i))
            },
        };
    }
    match simple_action_exec(n) {
        Some(a) => {
            if mode.is_some() || index.is_some() || key.is_some() {
                Err(quote("action '", name, "' does not accept arguments"))
            } else {
                Ok(a)
            }
        },
        None => Err(quote("unknown action '", name, "'")),
    }
}

/// The number of history lines each pane keeps must be between 1 and 1000000.
pub fn validate_scrollback_lines(lines: usize) -> (r: Result<usize, String>)
    ensures
        match r {
            Ok(v) => v == lines && 1 <= lines <= 1_000_000,
            Err(e) => !(1 <= lines <= 1_000_000) && e@ == "scrollback_lines must be between 1 and 1000000"@,
        },
{
    if 1 <= lines && lines <= 1_000_000 {
        Ok(lines)
    } else {
        Err(literal("scrollback_lines must be between 1 and 1000000"))
    }
}

/// A shell setting must name something and hold no NUL character.
pub fn validate_shell(shell: String) -> (r: Result<String, String>)
    ensures
        match r {
            Ok(s) => s@ == shell@ && trim(shell@).len() > 0 && !shell@.contains('\0'),
            Err(e) => (trim(shell@).len() == 0 || shell@.contains('\0')) && e@
                == "shell must be a nonempty executable name or path"@,
        },
{
    let trimmed = trim_text(shell.as_str());
    let n = shell.as_str().unicode_len();
    let mut i: usize = 0;
    while i < n
        invariant
            n == shell@.len(),
            i <= n,
            forall|k: int| 0 <= k < i ==> shell@[k] != '\0',
        decreases n - i,
    {
        if shell.as_str().get_char(i) == '\0' {
            assert(shell@[i as int] == '\0');
            return Err(literal("shell must be a nonempty executable name or path"));
        }
        i += 1;
    }
    if trimmed.as_str().unicode_len() == 0 {
        return Err(literal("shell must be a nonempty executable name or path"));
    }
    Ok(shell)
}

// ---------------------------------------------------------------------------
// Bindings and the configuration built from the config files.

/// The parsed action an action is, with its arguments as plain values.
pub open spec fn action_view(a: Action) -> ActionValue {
    match a {
        Action::SwitchMode(m) => ActionValue::SwitchMode(m@),
        Action::SendKey(b) => ActionValue::SendKey(b@),
        Action::GoToWindow(i) => ActionValue::GoToWindow(i),
        _ => ActionValue::Plain(a),
    }
}

proof fn lemma_action_is_view(a: Action, v: ActionValue)
    requires
        action_is(a, v),
    ensures
        action_view(a) == v,
{
}

pub open spec fn actions_view(actions: Seq<Action>) -> Seq<ActionValue> {
    actions.map_values(|a: Action| action_view(a))
}

/// How an action is named in the status line and help.
pub open spec fn plain_label(a: Action) -> Seq<char> {
    match a {
        Action::SendPrefix => "send-prefix"@,
        Action::NewWindow => "new-window"@,
        Action::RenameWindow => "rename-window"@,
        Action::NextWindow => "next-window"@,
        Action::PreviousWindow => "previous-window"@,
        Action::MoveWindowLeft => "move-window-left"@,
        Action::MoveWindowRight => "move-window-right"@,
        Action::SwitchSession => "switch-session"@,
        Action::CloseWindow => "close-window"@,
        Action::Detach => "detach"@,
        Action::ShowHelp => "show-help"@,
        Action::ScrollUp => "scroll-up"@,
        Action::ScrollDown => "scroll-down"@,
        Action::PageUp => "page-up"@,
        Action::PageDown => "page-down"@,
        Action::ScrollTop => "scroll-top"@,
        Action::ScrollBottom => "scroll-bottom"@,
        Action::EditHistory => "edit-history"@,
        Action::EditLastOutput => "edit-last-output"@,
        Action::CopyLastOutput => "copy-last-output"@,
        Action::ToggleFloatingTerminal => "toggle-floating-terminal"@,
        Action::NewPaneRight => "new-pane-right"@,
        Action::NewPaneDown => "new-pane-down"@,
        Action::FocusLeft => "focus-left"@,
        Action::FocusRight => "focus-right"@,
        Action::FocusUp => "focus-up"@,
        Action::FocusDown => "focus-down"@,
        Action::FocusNextPane => "focus-next-pane"@,
        Action::MovePaneLeft => "move-pane-left"@,
        Action::MovePaneRight => "move-pane-right"@,
        Action::MovePaneUp => "move-pane-up"@,
        Action::MovePaneDown => "move-pane-down"@,
        Action::ClosePane => "close-pane"@,
        Action::ResizePaneLeft => "resize-left"@,
        Action::ResizePaneRight => "resize-right"@,
        Action::ResizePaneUp => "resize-up"@,
        Action::ResizePaneDown => "resize-down"@,
        Action::TogglePaneZoom => "zoom-pane"@,
        Action::SearchHistory => "search"@,
        Action::NextSearchMatch => "next-match"@,
        Action::PreviousSearchMatch => "previous-match"@,
        Action::ToggleHistorySelection => "select"@,
        Action::SelectionLeft => "select-left"@,
        Action::SelectionRight => "select-right"@,
        Action::CopySelection => "copy-selection"@,
        _ => "send-key"@,
    }
}

pub open spec fn decimal_text(n: nat) -> Seq<char> {
    decimal(n).map_values(|b: u8| b as char)
}

pub open spec fn label_spec(a: ActionValue) -> Seq<char> {
    match a {
        ActionValue::SwitchMode(m) => "mode:"@ + m,
        ActionValue::SendKey(_) => "send-key"@,
        ActionValue::GoToWindow(i) => "window:"@ + decimal_text(i as nat),
        ActionValue::Plain(p) => plain_label(p),
    }
}

impl Action {
    /// The action's name in the status line and help.
    pub fn label(&self) -> (r: String)
        ensures
            r@ == label_spec(action_view(*self)),
    {
        match self {
            Action::SwitchMode(mode) => {
                let mut out = literal("mode:");
                push_str(&mut out, mode.as_str());
                out
            },
            Action::SendKey(_) => literal("send-key"),
            Action::GoToWindow(index) => {
                let mut digits: Vec<u8> = Vec::new();
                push_decimal(&mut digits, *index);
                assert(digits@ =~= decimal(*index as nat));
                let mut out = literal("window:");
                let text = ascii_text(&digits);
                push_str(&mut out, text.as_str());
                out
            },
            Action::SendPrefix => literal("send-prefix"),
            Action::NewWindow => literal("new-window"),
            Action::RenameWindow => literal("rename-window"),
            Action::NextWindow => literal("next-window"),
            Action::PreviousWindow => literal("previous-window"),
            Action::MoveWindowLeft => literal("move-window-left"),
            Action::MoveWindowRight => literal("move-window-right"),
            Action::SwitchSession => literal("switch-session"),
            Action::CloseWindow => literal("close-window"),
            Action::Detach => literal("detach"),
            Action::ShowHelp => literal("show-help"),
            Action::ScrollUp => literal("scroll-up"),
            Action::ScrollDown => literal("scroll-down"),
            Action::PageUp => literal("page-up"),
            Action::PageDown => literal("page-down"),
            Action::ScrollTop => literal("scroll-top"),
            Action::ScrollBottom => literal("scroll-bottom"),
            Action::EditHistory => literal("edit-history"),
            Action::EditLastOutput => literal("edit-last-output"),
            Action::CopyLastOutput => literal("copy-last-output"),
            Action::ToggleFloatingTerminal => literal("toggle-floating-terminal"),
            Action::NewPaneRight => literal("new-pane-right"),
            Action::NewPaneDown => literal("new-pane-down"),
            Action::FocusLeft => literal("focus-left"),
            Action::FocusRight => literal("focus-right"),
            Action::FocusUp => literal("focus-up"),
            Action::FocusDown => literal("focus-down"),
            Action::FocusNextPane => literal("focus-next-pane"),
            Action::MovePaneLeft => literal("move-pane-left"),
            Action::MovePaneRight => literal("move-pane-right"),
            Action::MovePaneUp => literal("move-pane-up"),
            Action::MovePaneDown => literal("move-pane-down"),
            Action::ClosePane => literal("close-pane"),
            Action::ResizePaneLeft => literal("resize-left"),
            Action::ResizePaneRight => literal("resize-right"),
            Action::ResizePaneUp => literal("resize-up"),
            Action::ResizePaneDown => literal("resize-down"),
            Action::TogglePaneZoom => literal("zoom-pane"),
            Action::SearchHistory => literal("search"),
            Action::NextSearchMatch => literal("next-match"),
            Action::PreviousSearchMatch => literal("previous-match"),
            Action::ToggleHistorySelection => literal("select"),
            Action::SelectionLeft => literal("select-left"),
            Action::SelectionRight => literal("select-right"),
            Action::CopySelection => literal("copy-selection"),
        }
    }
}

/// Where a binding is listed: in the status line and help, in help only, or nowhere.
#[derive(Clone, Copy, Debug, PartialEq, Eq, Structural)]
pub enum BindingDisplay {
    Always,
    Help,
    Hidden,
}

/// What a key does in a mode, and where it is listed.
#[derive(Debug)]
pub struct Binding {
    pub actions: Vec<Action>,
    pub display: BindingDisplay,
}

/// A binding's actions and how it is listed.
pub struct BindingModel {
    pub actions: Seq<ActionValue>,
    pub display: BindingDisplay,
}

pub open spec fn binding_view(b: Binding) -> BindingModel {
    BindingModel { actions: actions_view(b.actions@), display: b.display }
}

/// The bindings of one mode, by key.
pub open spec fn table_view(t: Seq<(String, Binding)>) -> Seq<(Seq<char>, BindingModel)> {
    t.map_values(|e: (String, Binding)| (e.0@, binding_view(e.1)))
}

/// The binding tables, by mode.
pub open spec fn modes_view(m: Seq<(String, Vec<(String, Binding)>)>) -> Seq<(Seq<char>, Seq<(Seq<char>, BindingModel)>)> {
    m.map_values(|e: (String, Vec<(String, Binding)>)| (e.0@, table_view(e.1@)))
}

/// The session manager's keys, by action.
pub open spec fn manager_view(m: Seq<(String, Vec<String>)>) -> Seq<(Seq<char>, Seq<Seq<char>>)> {
    m.map_values(|e: (String, Vec<String>)| (e.0@, string_views(e.1@)))
}

/// The names of a sequence of named entries.
pub open spec fn entry_names<V>(s: Seq<(Seq<char>, V)>) -> Seq<Seq<char>> {
    s.map_values(|e: (Seq<char>, V)| e.0)
}

pub open spec fn text_keys<T>(v: Seq<(String, T)>) -> Seq<Seq<char>> {
    v.map_values(|e: (String, T)| e.0@)
}

/// Where `name` first stands among `names`, or their number where it does not.
pub open spec fn position(names: Seq<Seq<char>>, name: Seq<char>) -> nat
    decreases names.len(),
{
    if names.len() == 0 {
        0
    } else if names[0] == name {
        0
    } else {
        1 + position(names.drop_first(), name)
    }
}

pub open spec fn has_entry<V>(s: Seq<(Seq<char>, V)>, name: Seq<char>) -> bool {
    position(entry_names(s), name) < s.len()
}

pub open spec fn entry<V>(s: Seq<(Seq<char>, V)>, name: Seq<char>) -> V {
    s[position(entry_names(s), name) as int].1
}

/// `s` with the entry for `name` set to `v`: replaced where present, else added at the end.
pub open spec fn set_entry<V>(s: Seq<(Seq<char>, V)>, name: Seq<char>, v: V) -> Seq<(Seq<char>, V)> {
    if has_entry(s, name) {
        s.update(position(entry_names(s), name) as int, (name, v))
    } else {
        s.push((name, v))
    }
}

/// `s` without its entry for `name`.
pub open spec fn drop_entry<V>(s: Seq<(Seq<char>, V)>, name: Seq<char>) -> Seq<(Seq<char>, V)> {
    if has_entry(s, name) {
        s.remove(position(entry_names(s), name) as int)
    } else {
        s
    }
}

proof fn lemma_position(names: Seq<Seq<char>>, name: Seq<char>, i: int)
    requires
        0 <= i <= names.len(),
        forall|j: int| 0 <= j < i ==> names[j] != name,
        i == names.len() || names[i] == name,
    ensures
        position(names, name) == i,
    decreases i,
{
    if i > 0 {
        assert forall|j: int| 0 <= j < i - 1 implies names.drop_first()[j] != name by {
            assert(names[j + 1] != name);
        }
        lemma_position(names.drop_first(), name, i - 1);
    }
}

/// No name is listed twice.
pub open spec fn distinct_names<V>(s: Seq<(Seq<char>, V)>) -> bool {
    forall|i: int, j: int| 0 <= i < j < s.len() ==> s[i].0 != s[j].0
}

/// Every mode is listed once, and so is every key within a mode.
pub open spec fn distinct_bindings(modes: Seq<(Seq<char>, Seq<(Seq<char>, BindingModel)>)>) -> bool {
    &&& distinct_names(modes)
    &&& forall|i: int| 0 <= i < modes.len() ==> distinct_names(#[trigger] modes[i].1)
}

proof fn lemma_position_facts(names: Seq<Seq<char>>, name: Seq<char>)
    ensures
        position(names, name) <= names.len(),
        position(names, name) < names.len() ==> names[position(names, name) as int] == name,
        forall|j: int| 0 <= j < position(names, name) ==> names[j] != name,
    decreases names.len(),
{
    if names.len() > 0 && names[0] != name {
        lemma_position_facts(names.drop_first(), name);
        assert forall|j: int| 0 <= j < position(names, name) implies names[j] != name by {
            if j > 0 {
                assert(names[j] == names.drop_first()[j - 1]);
            }
        }
    }
}

proof fn lemma_set_entry_distinct<V>(s: Seq<(Seq<char>, V)>, name: Seq<char>, v: V)
    requires
        distinct_names(s),
    ensures
        distinct_names(set_entry(s, name, v)),
        has_entry(set_entry(s, name, v), name),
        forall|i: int| 0 <= i < set_entry(s, name, v).len() && set_entry(s, name, v)[i].0 != name ==> exists|k: int| 0 <= k < s.len() && s[k] == #[trigger] set_entry(s, name, v)[i],
{
    let names = entry_names(s);
    lemma_position_facts(names, name);
    let r = set_entry(s, name, v);
    lemma_position_facts(entry_names(r), name);
    if has_entry(s, name) {
        let p = position(names, name) as int;
        assert(s[p].0 == name);
        assert forall|i: int, j: int| 0 <= i < j < r.len() implies r[i].0 != r[j].0 by {
            assert(r[i].0 == s[i].0);
            assert(r[j].0 == s[j].0);
        }
        assert(entry_names(r)[p] == name);
        assert forall|i: int| 0 <= i < r.len() && r[i].0 != name implies exists|k: int| 0 <= k < s.len() && s[k] == #[trigger] r[i] by {
            assert(s[i] == r[i]);
        }
    } else {
        assert forall|j: int| 0 <= j < s.len() implies s[j].0 != name by {
            assert(names[j] == s[j].0);
        }
        assert forall|i: int, j: int| 0 <= i < j < r.len() implies r[i].0 != r[j].0 by {
            if j == s.len() {
                assert(r[i] == s[i]);
            }
        }
        assert(entry_names(r)[s.len() as int] == name);
        assert forall|i: int| 0 <= i < r.len() && r[i].0 != name implies exists|k: int| 0 <= k < s.len() && s[k] == #[trigger] r[i] by {
            assert(s[i] == r[i]);
        }
    }
}

proof fn lemma_drop_entry_distinct<V>(s: Seq<(Seq<char>, V)>, name: Seq<char>)
    requires
        distinct_names(s),
    ensures
        distinct_names(drop_entry(s, name)),
{
    let names = entry_names(s);
    lemma_position_facts(names, name);
    if has_entry(s, name) {
        let p = position(names, name) as int;
        let r = drop_entry(s, name);
        assert forall|i: int, j: int| 0 <= i < j < r.len() implies r[i].0 != r[j].0 by {
            let a = if i < p { i } else { i + 1 };
            let b = if j < p { j } else { j + 1 };
            assert(r[i] == s[a]);
            assert(r[j] == s[b]);
        }
    }
}

proof fn lemma_apply_binding_distinct(
    table: Seq<(Seq<char>, BindingModel)>,
    mode: Seq<char>,
    key: Seq<char>,
    spec: BindingSpec,
)
    requires
        distinct_names(table),
    ensures
        apply_binding_spec(table, mode, key, spec) is Ok ==> distinct_names(apply_binding_spec(table, mode, key, spec)->Ok_0),
{
    lemma_drop_entry_distinct(table, key);
    assert forall|b: BindingModel| distinct_names(#[trigger] set_entry(table, key, b)) by {
        lemma_set_entry_distinct(table, key, b);
    }
}

proof fn lemma_apply_bindings_distinct(
    table: Seq<(Seq<char>, BindingModel)>,
    mode: Seq<char>,
    entries: Seq<(String, BindingSpec)>,
)
    requires
        distinct_names(table),
    ensures
        apply_bindings_from(table, mode, entries) is Ok ==> distinct_names(apply_bindings_from(table, mode, entries)->Ok_0),
    decreases entries.len(),
{
    if entries.len() > 0 {
        match canonical_key_spec(entries[0].0@) {
            Err(_) => {},
            Ok(key) => {
                lemma_apply_binding_distinct(table, mode, key, entries[0].1);
                match apply_binding_spec(table, mode, key, entries[0].1) {
                    Err(_) => {},
                    Ok(t) => {
                        lemma_apply_bindings_distinct(t, mode, entries.drop_first());
                    },
                }
            },
        }
    }
}

proof fn lemma_merge_modes_distinct(
    modes: Seq<(Seq<char>, Seq<(Seq<char>, BindingModel)>)>,
    entries: Seq<(String, Vec<(String, BindingSpec)>)>,
)
    requires
        distinct_bindings(modes),
    ensures
        merge_modes_from(modes, entries) is Ok ==> distinct_bindings(merge_modes_from(modes, entries)->Ok_0),
    decreases entries.len(),
{
    if entries.len() > 0 {
        match mode_spec(entries[0].0@) {
            Err(_) => {},
            Ok(mode) => {
                let table = if has_entry(modes, mode) {
                    entry(modes, mode)
                } else {
                    Seq::empty()
                };
                lemma_position_facts(entry_names(modes), mode);
                assert(distinct_names(table));
                lemma_apply_bindings_distinct(table, mode, entries[0].1@);
                match apply_bindings_from(table, mode, entries[0].1@) {
                    Err(_) => {},
                    Ok(t) => {
                        let next = set_entry(modes, mode, t);
                        lemma_set_entry_distinct(modes, mode, t);
                        lemma_position_facts(entry_names(next), mode);
                        assert forall|i: int| 0 <= i < next.len() implies distinct_names(#[trigger] next[i].1) by {
                            if next[i].0 == mode {
                                let p = position(entry_names(next), mode) as int;
                                assert(entry_names(next)[p] == mode);
                                assert(next[p].0 == mode);
                                if i != p {
                                    assert(next[i].0 != next[p].0);
                                }
                            } else {
                                let k = choose|k: int| 0 <= k < modes.len() && modes[k] == next[i];
                                assert(distinct_names(modes[k].1));
                            }
                        }
                        lemma_merge_modes_distinct(next, entries.drop_first());
                    },
                }
            },
        }
    }
}

/// Where the entry named `name` stands in `v`, or `v.len()`.
fn find_entry<T>(v: &Vec<(String, T)>, name: &str) -> (r: usize)
    ensures
        r == position(text_keys(v@), name@),
        r <= v@.len(),
        r < v@.len() ==> v@[r as int].0@ == name@,
{
    let mut i: usize = 0;
    while i < v.len() && !same_text(v[i].0.as_str(), name)
        invariant
            i <= v@.len(),
            forall|j: int| 0 <= j < i ==> v@[j].0@ != name@,
        decreases v@.len() - i,
    {
        i += 1;
    }
    proof {
        lemma_position(text_keys(v@), name@, i as int);
    }
    i
}

/// One action of a binding as a config file writes it: a bare name, or a
/// table that also gives the action's argument.
#[derive(Debug)]
pub enum ActionSpec {
    Name(String),
    Detailed { action: String, mode: Option<String>, index: Option<usize>, key: Option<String> },
}

pub open spec fn action_spec_value(spec: ActionSpec) -> Result<ActionValue, Seq<char>> {
    match spec {
        ActionSpec::Name(name) => parse_action_spec(name@, None, None, None),
        ActionSpec::Detailed { action, mode, index, key } => parse_action_spec(
            action@,
            option_view(mode),
            index,
            option_view(key),
        ),
    }
}

/// The actions after `done`, parsed in order; the first invalid one is the error.
pub open spec fn parse_actions_from(done: Seq<ActionValue>, specs: Seq<ActionSpec>) -> Result<Seq<ActionValue>, Seq<char>>
    decreases specs.len(),
{
    if specs.len() == 0 {
        Ok(done)
    } else {
        match action_spec_value(specs[0]) {
            Err(e) => Err(e),
            Ok(v) => parse_actions_from(done.push(v), specs.drop_first()),
        }
    }
}

fn copy_text(s: &Option<String>) -> (r: Option<String>)
    ensures
        option_view(r) == option_view(*s),
{
    match s {
        Some(t) => Some(t.clone()),
        None => None,
    }
}

/// Parses a binding's actions.
pub fn parse_actions(specs: &Vec<ActionSpec>) -> (r: Result<Vec<Action>, String>)
    ensures
        match r {
            Ok(a) => parse_actions_from(Seq::empty(), specs@) == Ok::<Seq<ActionValue>, Seq<char>>(actions_view(a@)),
            Err(e) => parse_actions_from(Seq::empty(), specs@) == Err::<Seq<ActionValue>, Seq<char>>(e@),
        },
{
    let mut out: Vec<Action> = Vec::new();
    let mut i: usize = 0;
    assert(specs@.skip(0) =~= specs@);
    assert(actions_view(out@) =~= Seq::<ActionValue>::empty());
    while i < specs.len()
        invariant
            i <= specs@.len(),
            parse_actions_from(actions_view(out@), specs@.skip(i as int)) == parse_actions_from(
                Seq::empty(),
                specs@,
            ),
        decreases specs@.len() - i,
    {
        assert(specs@.skip(i as int).drop_first() =~= specs@.skip(i + 1));
        let parsed = match &specs[i] {
            ActionSpec::Name(name) => parse_action(name.as_str(), None, None, None),
            ActionSpec::Detailed { action, mode, index, key } => parse_action(
                action.as_str(),
                copy_text(mode),
                *index,
                copy_text(key),
            ),
        };
        match parsed {
            Err(e) => {
                return Err(e);
            },
            Ok(a) => {
                proof {
                    let v = action_spec_value(specs@[i as int])->Ok_0;
                    lemma_action_is_view(a, v);
                }
                let ghost before = out@;
                out.push(a);
                assert(actions_view(out@) =~= actions_view(before).push(action_view(a)));
            },
        }
        i += 1;
    }
    assert(specs@.skip(i as int) =~= Seq::<ActionSpec>::empty());
    Ok(out)
}

/// The name `Path::file_name` gives for a path written as text: its last
/// normal component, or `None` (for `/`, or a path that ends in `..`).
pub uninterp spec fn path_file_name(path: Seq<char>) -> Option<Seq<char>>;

/// `std::path::Path::file_name` on a path given as text, read back as text;
/// the name of a `str` path is always valid UTF-8. Stated beyond the name: a
/// plain name with no `/` (other than `.` and `..`) is its own file name, as
/// on Unix it is the path's only, normal, component.
#[verifier::external_body]
fn file_name(path: &str) -> (r: Option<String>)
    ensures
        option_view(r) == path_file_name(path@),
        path@.len() > 0 && !path@.contains('/') && path@ != "."@ && path@ != ".."@ ==> option_view(r) == Some(path@),
{
    std::path::Path::new(path).file_name().and_then(|name| name.to_str()).map(|name| name.to_owned())
}

/// An application as a process name: the file name of a path, or the name as given.
pub open spec fn application_name(application: Seq<char>) -> Seq<char> {
    match path_file_name(application) {
        Some(name) => name,
        None => application,
    }
}

fn application_name_of(application: &str) -> (r: String)
    ensures
        r@ == application_name(application@),
{
    match file_name(application) {
        Some(name) => name,
        None => application.to_owned(),
    }
}

pub open spec fn same_ignoring_case(a: Seq<char>, b: Seq<char>) -> bool {
    ascii_lowercase(a) == ascii_lowercase(b)
}

fn same_ignoring_case_exec(a: &str, b: &str) -> (r: bool)
    ensures
        r == same_ignoring_case(a@, b@),
{
    let la = to_ascii_lowercase(a);
    let lb = to_ascii_lowercase(b);
    same_text(la.as_str(), lb.as_str())
}

pub open spec fn contains_ignoring_case(names: Seq<Seq<char>>, name: Seq<char>) -> bool {
    exists|i: int| 0 <= i < names.len() && same_ignoring_case(names[i], name)
}

pub(crate) fn contains_ignoring_case_exec(names: &Vec<String>, name: &str) -> (r: bool)
    ensures
        r == contains_ignoring_case(string_views(names@), name@),
{
    let mut i: usize = 0;
    while i < names.len()
        invariant
            i <= names@.len(),
            forall|j: int| 0 <= j < i ==> !same_ignoring_case(names@[j]@, name@),
        decreases names@.len() - i,
    {
        if same_ignoring_case_exec(names[i].as_str(), name) {
            assert(string_views(names@)[i as int] == names@[i as int]@);
            return true;
        }
        i += 1;
    }
    assert forall|j: int| 0 <= j < names@.len() implies !same_ignoring_case(string_views(names@)[j], name@) by {
        assert(string_views(names@)[j] == names@[j]@);
    }
    false
}

/// The applications whose commands raise no notification, after `done`: each
/// trimmed and reduced to its file name, once whatever its case.
pub open spec fn normalize_applications_from(done: Seq<Seq<char>>, applications: Seq<Seq<char>>) -> Result<
    Seq<Seq<char>>,
    Seq<char>,
>
    decreases applications.len(),
{
    if applications.len() == 0 {
        Ok(done)
    } else {
        let trimmed = trim(applications[0]);
        if trimmed.len() == 0 {
            Err("notification application names cannot be empty"@)
        } else {
            let name = application_name(trimmed);
            normalize_applications_from(
                if contains_ignoring_case(done, name) {
                    done
                } else {
                    done.push(name)
                },
                applications.drop_first(),
            )
        }
    }
}

pub fn normalize_applications(applications: &Vec<String>) -> (r: Result<Vec<String>, String>)
    ensures
        match r {
            Ok(v) => normalize_applications_from(Seq::empty(), string_views(applications@)) == Ok::<
                Seq<Seq<char>>,
                Seq<char>,
            >(string_views(v@)),
            Err(e) => normalize_applications_from(Seq::empty(), string_views(applications@)) == Err::<
                Seq<Seq<char>>,
                Seq<char>,
            >(e@),
        },
{
    let ghost all = string_views(applications@);
    let mut out: Vec<String> = Vec::new();
    let mut i: usize = 0;
    assert(all.skip(0) =~= all);
    assert(string_views(out@) =~= Seq::<Seq<char>>::empty());
    while i < applications.len()
        invariant
            i <= applications@.len(),
            all == string_views(applications@),
            normalize_applications_from(string_views(out@), all.skip(i as int)) == normalize_applications_from(
                Seq::empty(),
                all,
            ),
        decreases applications@.len() - i,
    {
        assert(all.skip(i as int).drop_first() =~= all.skip(i + 1));
        assert(all.skip(i as int)[0] == applications@[i as int]@);
        let trimmed = trim_text(applications[i].as_str());
        if trimmed.as_str().unicode_len() == 0 {
            return Err(literal("notification application names cannot be empty"));
        }
        let name = application_name_of(trimmed.as_str());
        if !contains_ignoring_case_exec(&out, name.as_str()) {
            let ghost before = out@;
            out.push(name);
            assert(string_views(out@) =~= string_views(before).push(name@));
        }
        i += 1;
    }
    assert(all.skip(i as int) =~= Seq::<Seq<char>>::empty());
    Ok(out)
}

/// The session manager's actions that keys can be bound to.
pub open spec fn is_manager_action(a: Seq<char>) -> bool {
    a == "up"@ || a == "down"@ || a == "search"@ || a == "complete"@ || a == "open"@ || a == "rename"@ || a
        == "save"@ || a == "delete"@ || a == "disconnect"@ || a == "cancel"@ || a == "backspace"@
}

fn is_manager_action_exec(a: &str) -> (r: bool)
    ensures
        r == is_manager_action(a@),
{
    same_text(a, "up") || same_text(a, "down") || same_text(a, "search") || same_text(a, "complete")
        || same_text(a, "open") || same_text(a, "rename") || same_text(a, "save") || same_text(a, "delete")
        || same_text(a, "disconnect") || same_text(a, "cancel") || same_text(a, "backspace")
}

/// Key names in canonical form, after `done`; the first invalid one is the error.
pub open spec fn canonical_keys_from(done: Seq<Seq<char>>, keys: Seq<Seq<char>>) -> Result<Seq<Seq<char>>, Seq<char>>
    decreases keys.len(),
{
    if keys.len() == 0 {
        Ok(done)
    } else {
        match canonical_key_spec(keys[0]) {
            Err(e) => Err(e),
            Ok(k) => canonical_keys_from(done.push(k), keys.drop_first()),
        }
    }
}

fn canonical_keys(keys: &Vec<String>) -> (r: Result<Vec<String>, String>)
    ensures
        match r {
            Ok(v) => canonical_keys_from(Seq::empty(), string_views(keys@)) == Ok::<Seq<Seq<char>>, Seq<char>>(
                string_views(v@),
            ),
            Err(e) => canonical_keys_from(Seq::empty(), string_views(keys@)) == Err::<Seq<Seq<char>>, Seq<char>>(
                e@,
            ),
        },
{
    let ghost all = string_views(keys@);
    let mut out: Vec<String> = Vec::new();
    let mut i: usize = 0;
    assert(all.skip(0) =~= all);
    assert(string_views(out@) =~= Seq::<Seq<char>>::empty());
    while i < keys.len()
        invariant
            i <= keys@.len(),
            all == string_views(keys@),
            canonical_keys_from(string_views(out@), all.skip(i as int)) == canonical_keys_from(Seq::empty(), all),
        decreases keys@.len() - i,
    {
        assert(all.skip(i as int).drop_first() =~= all.skip(i + 1));
        assert(all.skip(i as int)[0] == keys@[i as int]@);
        match canonical_key_name(keys[i].as_str()) {
            Err(e) => {
                return Err(e);
            },
            Ok(k) => {
                let ghost before = out@;
                out.push(k);
                assert(string_views(out@) =~= string_views(before).push(k@));
            },
        }
        i += 1;
    }
    assert(all.skip(i as int) =~= Seq::<Seq<char>>::empty());
    Ok(out)
}

/// The session manager's key table after the entries of a config file, in order.
pub open spec fn merge_manager_from(
    table: Seq<(Seq<char>, Seq<Seq<char>>)>,
    entries: Seq<(Seq<char>, Seq<Seq<char>>)>,
) -> Result<Seq<(Seq<char>, Seq<Seq<char>>)>, Seq<char>>
    decreases entries.len(),
{
    if entries.len() == 0 {
        Ok(table)
    } else {
        let action = entries[0].0;
        if !is_manager_action(action) {
            Err(quoted("unknown session manager action '"@, action, "'"@))
        } else {
            match canonical_keys_from(Seq::empty(), entries[0].1) {
                Err(e) => Err(e),
                Ok(keys) => merge_manager_from(set_entry(table, action, keys), entries.drop_first()),
            }
        }
    }
}

/// `key` is bound both to `first` and to `second`, two different actions.
pub open spec fn manager_conflict(
    table: Seq<(Seq<char>, Seq<Seq<char>>)>,
    key: Seq<char>,
    first: Seq<char>,
    second: Seq<char>,
) -> bool {
    &&& first != second
    &&& exists|i: int| 0 <= i < table.len() && table[i].0 == first && table[i].1.contains(key)
    &&& exists|j: int| 0 <= j < table.len() && table[j].0 == second && table[j].1.contains(key)
}

pub open spec fn has_manager_conflict(table: Seq<(Seq<char>, Seq<Seq<char>>)>) -> bool {
    exists|key: Seq<char>, first: Seq<char>, second: Seq<char>| manager_conflict(table, key, first, second)
}

pub open spec fn conflict_message(key: Seq<char>, first: Seq<char>, second: Seq<char>) -> Seq<char> {
    "session manager key '"@ + key + "' is bound to both '"@ + first + "' and '"@ + second + "'"@
}

fn conflict_text(key: &str, first: &str, second: &str) -> (r: String)
    ensures
        r@ == conflict_message(key@, first@, second@),
{
    let mut out = literal("session manager key '");
    push_str(&mut out, key);
    push_str(&mut out, "' is bound to both '");
    push_str(&mut out, first);
    push_str(&mut out, "' and '");
    push_str(&mut out, second);
    push_str(&mut out, "'");
    out
}

fn strings_contain(v: &Vec<String>, s: &str) -> (r: bool)
    ensures
        r == string_views(v@).contains(s@),
{
    let mut i: usize = 0;
    while i < v.len()
        invariant
            i <= v@.len(),
            forall|j: int| 0 <= j < i ==> v@[j]@ != s@,
        decreases v@.len() - i,
    {
        if same_text(v[i].as_str(), s) {
            assert(string_views(v@)[i as int] == s@);
            return true;
        }
        i += 1;
    }
    assert forall|j: int| 0 <= j < v@.len() implies string_views(v@)[j] != s@ by {
        assert(string_views(v@)[j] == v@[j]@);
    }
    false
}

/// The first action after `j` that also has `key`, as the conflict message for
/// action `i`'s `key`.
pub open spec fn conflict_for_key(t: Seq<(Seq<char>, Seq<Seq<char>>)>, i: int, key: Seq<char>, j: int) -> Option<
    Seq<char>,
>
    decreases t.len() - j,
{
    if j < 0 || j >= t.len() {
        None
    } else if t[j].0 != t[i].0 && t[j].1.contains(key) {
        Some(conflict_message(key, t[i].0, t[j].0))
    } else {
        conflict_for_key(t, i, key, j + 1)
    }
}

pub open spec fn conflict_in_keys(t: Seq<(Seq<char>, Seq<Seq<char>>)>, i: int, keys: Seq<Seq<char>>) -> Option<
    Seq<char>,
>
    decreases keys.len(),
{
    if keys.len() == 0 {
        None
    } else {
        match conflict_for_key(t, i, keys[0], 0) {
            Some(m) => Some(m),
            None => conflict_in_keys(t, i, keys.drop_first()),
        }
    }
}

/// The first conflict in table order: by action, then by key, then by the other action.
pub open spec fn conflict_from(t: Seq<(Seq<char>, Seq<Seq<char>>)>, i: int) -> Option<Seq<char>>
    decreases t.len() - i,
{
    if i < 0 || i >= t.len() {
        None
    } else {
        match conflict_in_keys(t, i, t[i].1) {
            Some(m) => Some(m),
            None => conflict_from(t, i + 1),
        }
    }
}

/// Finds a key bound to two different actions of the session manager.
fn find_manager_conflict(table: &Vec<(String, Vec<String>)>) -> (r: Option<String>)
    ensures
        option_view(r) == conflict_from(manager_view(table@), 0),
        match r {
            Some(e) => exists|key: Seq<char>, first: Seq<char>, second: Seq<char>|
                manager_conflict(manager_view(table@), key, first, second) && e@ == conflict_message(
                    key,
                    first,
                    second,
                ),
            None => !has_manager_conflict(manager_view(table@)),
        },
{
    let ghost t = manager_view(table@);
    let mut i: usize = 0;
    while i < table.len()
        invariant
            i <= table@.len(),
            t == manager_view(table@),
            conflict_from(t, i as int) == conflict_from(t, 0),
            forall|a: int, b: int, key: Seq<char>|
                0 <= a < i && 0 <= b < t.len() && t[a].1.contains(key) && t[b].1.contains(key) ==> t[a].0
                    == t[b].0,
        decreases table@.len() - i,
    {
        let keys = &table[i].1;
        let mut k: usize = 0;
        assert(t[i as int].1 =~= string_views(keys@));
        assert(t[i as int].1.skip(0) =~= t[i as int].1);
        while k < keys.len()
            invariant
                i < table@.len(),
                t == manager_view(table@),
                *keys == table@[i as int].1,
                t[i as int].1 == string_views(keys@),
                k <= keys@.len(),
                conflict_from(t, i as int) == conflict_from(t, 0),
                conflict_in_keys(t, i as int, t[i as int].1.skip(k as int)) == conflict_in_keys(
                    t,
                    i as int,
                    t[i as int].1,
                ),
                forall|a: int, b: int, key: Seq<char>|
                    0 <= a < i && 0 <= b < t.len() && t[a].1.contains(key) && t[b].1.contains(key) ==> t[a].0
                        == t[b].0,
                forall|c: int, b: int|
                    0 <= c < k && 0 <= b < t.len() && #[trigger] t[b].1.contains(keys@[c]@) ==> t[i as int].0
                        == t[b].0,
            decreases keys@.len() - k,
        {
            let key = keys[k].as_str();
            let ghost rest = t[i as int].1.skip(k as int);
            assert(rest[0] == key@);
            assert(rest.drop_first() =~= t[i as int].1.skip(k + 1));
            let mut j: usize = 0;
            while j < table.len()
                invariant
                    i < table@.len(),
                    k < keys@.len(),
                    t == manager_view(table@),
                    *keys == table@[i as int].1,
                    key@ == keys@[k as int]@,
                    j <= table@.len(),
                    conflict_from(t, i as int) == conflict_from(t, 0),
                    t[i as int].1 == string_views(keys@),
                    conflict_in_keys(t, i as int, t[i as int].1.skip(k as int)) == conflict_in_keys(
                        t,
                        i as int,
                        t[i as int].1,
                    ),
                    t[i as int].1.skip(k as int).len() > 0,
                    t[i as int].1.skip(k as int)[0] == key@,
                    conflict_for_key(t, i as int, key@, j as int) == conflict_for_key(t, i as int, key@, 0),
                    forall|b: int| 0 <= b < j && #[trigger] t[b].1.contains(key@) ==> t[i as int].0 == t[b].0,
                decreases table@.len() - j,
            {
                assert(t[j as int].0 == table@[j as int].0@ && t[j as int].1 == string_views(table@[j as int].1@));
                if !same_text(table[j].0.as_str(), table[i].0.as_str()) && strings_contain(&table[j].1, key) {
                    proof {
                        assert(string_views(keys@)[k as int] == key@);
                        assert(t[i as int].1.contains(key@));
                        assert(manager_conflict(t, key@, t[i as int].0, t[j as int].0));
                        let m = conflict_message(key@, t[i as int].0, t[j as int].0);
                        assert(conflict_for_key(t, i as int, key@, j as int) == Some(m));
                        assert(conflict_in_keys(t, i as int, t[i as int].1.skip(k as int)) == Some(m));
                        assert(conflict_from(t, i as int) == Some(m));
                    }
                    return Some(conflict_text(key, table[i].0.as_str(), table[j].0.as_str()));
                }
                j += 1;
            }
            k += 1;
        }
        proof {
            assert forall|a: int, b: int, key: Seq<char>|
                0 <= a < i + 1 && 0 <= b < t.len() && t[a].1.contains(key) && t[b].1.contains(key) implies t[a].0
                == t[b].0 by {
                if a == i {
                    let c = choose|c: int| 0 <= c < t[a].1.len() && t[a].1[c] == key;
                    assert(string_views(keys@)[c] == keys@[c]@);
                }
            }
            assert(t[i as int].1.skip(k as int) =~= Seq::<Seq<char>>::empty());
        }
        i += 1;
    }
    proof {
        if has_manager_conflict(t) {
            let (key, first, second) = choose|key: Seq<char>, first: Seq<char>, second: Seq<char>|
                manager_conflict(t, key, first, second);
            let a = choose|a: int| 0 <= a < t.len() && t[a].0 == first && t[a].1.contains(key);
            let b = choose|b: int| 0 <= b < t.len() && t[b].0 == second && t[b].1.contains(key);
            assert(t[a].0 == t[b].0);
        }
    }
    None
}

/// A binding as a config file writes it: a list of actions (an empty list
/// removes the key), or a table that may change the actions, the listing, or both.
#[derive(Debug)]
pub enum BindingSpec {
    Actions(Vec<ActionSpec>),
    Detailed { actions: Option<Vec<ActionSpec>>, display: Option<BindingDisplay> },
}

pub open spec fn needs_actions_message(key: Seq<char>, mode: Seq<char>) -> Seq<char> {
    "binding '"@ + key + "' in mode '"@ + mode + "' needs actions because it does not already exist"@
}

/// One binding of a config file applied to a mode's table.
pub open spec fn apply_binding_spec(
    table: Seq<(Seq<char>, BindingModel)>,
    mode: Seq<char>,
    key: Seq<char>,
    spec: BindingSpec,
) -> Result<Seq<(Seq<char>, BindingModel)>, Seq<char>> {
    match spec {
        BindingSpec::Actions(specs) => match parse_actions_from(Seq::empty(), specs@) {
            Err(e) => Err(e),
            Ok(actions) => if actions.len() == 0 {
                Ok(drop_entry(table, key))
            } else {
                Ok(set_entry(table, key, BindingModel { actions, display: BindingDisplay::Always }))
            },
        },
        BindingSpec::Detailed { actions, display } => {
            let parsed: Result<Option<Seq<ActionValue>>, Seq<char>> = match actions {
                None => Ok(None),
                Some(specs) => match parse_actions_from(Seq::empty(), specs@) {
                    Ok(a) => Ok(Some(a)),
                    Err(e) => Err(e),
                },
            };
            match parsed {
                Err(e) => Err(e),
                Ok(p) => if (match p {
                    Some(a) => a.len() == 0,
                    None => false,
                }) {
                    Ok(drop_entry(table, key))
                } else if has_entry(table, key) {
                    let b = entry(table, key);
                    Ok(
                        set_entry(
                            table,
                            key,
                            BindingModel {
                                actions: match p {
                                    Some(a) => a,
                                    None => b.actions,
                                },
                                display: match display {
                                    Some(d) => d,
                                    None => b.display,
                                },
                            },
                        ),
                    )
                } else {
                    match p {
                        None => Err(needs_actions_message(key, mode)),
                        Some(a) => Ok(
                            set_entry(
                                table,
                                key,
                                BindingModel {
                                    actions: a,
                                    display: match display {
                                        Some(d) => d,
                                        None => BindingDisplay::Always,
                                    },
                                },
                            ),
                        ),
                    }
                },
            }
        },
    }
}

/// A mode's bindings from a config file applied in order; keys are made canonical first.
pub open spec fn apply_bindings_from(
    table: Seq<(Seq<char>, BindingModel)>,
    mode: Seq<char>,
    entries: Seq<(String, BindingSpec)>,
) -> Result<Seq<(Seq<char>, BindingModel)>, Seq<char>>
    decreases entries.len(),
{
    if entries.len() == 0 {
        Ok(table)
    } else {
        match canonical_key_spec(entries[0].0@) {
            Err(e) => Err(e),
            Ok(key) => match apply_binding_spec(table, mode, key, entries[0].1) {
                Err(e) => Err(e),
                Ok(t) => apply_bindings_from(t, mode, entries.drop_first()),
            },
        }
    }
}

/// The keybinds tables of a config file merged into the binding tables, in order.
pub open spec fn merge_modes_from(
    modes: Seq<(Seq<char>, Seq<(Seq<char>, BindingModel)>)>,
    entries: Seq<(String, Vec<(String, BindingSpec)>)>,
) -> Result<Seq<(Seq<char>, Seq<(Seq<char>, BindingModel)>)>, Seq<char>>
    decreases entries.len(),
{
    if entries.len() == 0 {
        Ok(modes)
    } else {
        match mode_spec(entries[0].0@) {
            Err(e) => Err(e),
            Ok(mode) => {
                let table = if has_entry(modes, mode) {
                    entry(modes, mode)
                } else {
                    Seq::empty()
                };
                match apply_bindings_from(table, mode, entries[0].1@) {
                    Err(e) => Err(e),
                    Ok(t) => merge_modes_from(set_entry(modes, mode, t), entries.drop_first()),
                }
            },
        }
    }
}

fn needs_actions_text(key: &str, mode: &str) -> (r: String)
    ensures
        r@ == needs_actions_message(key@, mode@),
{
    let mut out = literal("binding '");
    push_str(&mut out, key);
    push_str(&mut out, "' in mode '");
    push_str(&mut out, mode);
    push_str(&mut out, "' needs actions because it does not already exist");
    out
}

fn apply_binding(table: &mut Vec<(String, Binding)>, mode: &str, key: String, spec: &BindingSpec) -> (r: Result<
    (),
    String,
>)
    ensures
        match r {
            Ok(_) => apply_binding_spec(table_view(old(table)@), mode@, key@, *spec) == Ok::<
                Seq<(Seq<char>, BindingModel)>,
                Seq<char>,
            >(table_view(final(table)@)),
            Err(e) => apply_binding_spec(table_view(old(table)@), mode@, key@, *spec) == Err::<
                Seq<(Seq<char>, BindingModel)>,
                Seq<char>,
            >(e@),
        },
{
    let ghost before = table@;
    let ghost tv = table_view(before);
    let pos = find_entry(table, key.as_str());
    assert(entry_names(tv) =~= text_keys(before));

    let parsed: Option<Vec<Action>> = match spec {
        BindingSpec::Actions(specs) => match parse_actions(specs) {
            Ok(a) => Some(a),
            Err(e) => {
                return Err(e);
            },
        },
        BindingSpec::Detailed { actions, display: _ } => match actions {
            None => None,
            Some(specs) => match parse_actions(specs) {
                Ok(a) => Some(a),
                Err(e) => {
                    return Err(e);
                },
            },
        },
    };
    let empty = match &parsed {
        Some(a) => a.len() == 0,
        None => false,
    };
    if empty {
        if pos < table.len() {
            table.remove(pos);
            assert(table_view(table@) =~= tv.remove(pos as int));
        }
        return Ok(());
    }
    let display = match spec {
        BindingSpec::Actions(_) => Some(BindingDisplay::Always),
        BindingSpec::Detailed { actions: _, display } => *display,
    };
    if pos < table.len() {
        let (k, mut b) = table.remove(pos);
        match parsed {
            Some(a) => {
                b.actions = a;
            },
            None => {},
        }
        match display {
            Some(d) => {
                b.display = d;
            },
            None => {},
        }
        table.insert(pos, (k, b));
        assert(table_view(table@) =~= tv.update(pos as int, (key@, binding_view(b))));
        Ok(())
    } else {
        match parsed {
            None => Err(needs_actions_text(key.as_str(), mode)),
            Some(a) => {
                let b = Binding {
                    actions: a,
                    display: match display {
                        Some(d) => d,
                        None => BindingDisplay::Always,
                    },
                };
                let ghost kv = key@;
                table.push((key, b));
                assert(table_view(table@) =~= tv.push((kv, binding_view(b))));
                Ok(())
            },
        }
    }
}

fn apply_bindings(table: &mut Vec<(String, Binding)>, mode: &str, entries: &Vec<(String, BindingSpec)>) -> (r: Result<
    (),
    String,
>)
    ensures
        match r {
            Ok(_) => apply_bindings_from(table_view(old(table)@), mode@, entries@) == Ok::<
                Seq<(Seq<char>, BindingModel)>,
                Seq<char>,
            >(table_view(final(table)@)),
            Err(e) => apply_bindings_from(table_view(old(table)@), mode@, entries@) == Err::<
                Seq<(Seq<char>, BindingModel)>,
                Seq<char>,
            >(e@),
        },
{
    let mut i: usize = 0;
    assert(entries@.skip(0) =~= entries@);
    while i < entries.len()
        invariant
            i <= entries@.len(),
            apply_bindings_from(table_view(table@), mode@, entries@.skip(i as int)) == apply_bindings_from(
                table_view(old(table)@),
                mode@,
                entries@,
            ),
        decreases entries@.len() - i,
    {
        assert(entries@.skip(i as int).drop_first() =~= entries@.skip(i + 1));
        let key = match canonical_key_name(entries[i].0.as_str()) {
            Ok(k) => k,
            Err(e) => {
                return Err(e);
            },
        };
        match apply_binding(table, mode, key, &entries[i].1) {
            Ok(_) => {},
            Err(e) => {
                return Err(e);
            },
        }
        i += 1;
    }
    assert(entries@.skip(i as int) =~= Seq::<(String, BindingSpec)>::empty());
    Ok(())
}

fn merge_modes(modes: &mut Vec<(String, Vec<(String, Binding)>)>, entries: &Vec<(String, Vec<(String, BindingSpec)>)>) -> (r:
    Result<(), String>)
    ensures
        match r {
            Ok(_) => merge_modes_from(modes_view(old(modes)@), entries@) == Ok::<
                Seq<(Seq<char>, Seq<(Seq<char>, BindingModel)>)>,
                Seq<char>,
            >(modes_view(final(modes)@)),
            Err(e) => merge_modes_from(modes_view(old(modes)@), entries@) == Err::<
                Seq<(Seq<char>, Seq<(Seq<char>, BindingModel)>)>,
                Seq<char>,
            >(e@),
        },
{
    let mut i: usize = 0;
    assert(entries@.skip(0) =~= entries@);
    while i < entries.len()
        invariant
            i <= entries@.len(),
            merge_modes_from(modes_view(modes@), entries@.skip(i as int)) == merge_modes_from(
                modes_view(old(modes)@),
                entries@,
            ),
        decreases entries@.len() - i,
    {
        assert(entries@.skip(i as int).drop_first() =~= entries@.skip(i + 1));
        let mode = match normalize_mode(entries[i].0.as_str()) {
            Ok(m) => m,
            Err(e) => {
                return Err(e);
            },
        };
        let ghost before = modes@;
        let ghost mv = modes_view(before);
        let pos = find_entry(modes, mode.as_str());
        assert(entry_names(mv) =~= text_keys(before));
        let had = pos < modes.len();
        let mut table: Vec<(String, Binding)> = if had {
            let (_, t) = modes.remove(pos);
            t
        } else {
            Vec::new()
        };
        assert(table_view(table@) == (if has_entry(mv, mode@) {
            entry(mv, mode@)
        } else {
            Seq::empty()
        }));
        match apply_bindings(&mut table, mode.as_str(), &entries[i].1) {
            Ok(_) => {},
            Err(e) => {
                return Err(e);
            },
        }
        let ghost mode_view = mode@;
        if had {
            modes.insert(pos, (mode, table));
            assert(modes_view(modes@) =~= mv.update(pos as int, (mode_view, table_view(table@))));
        } else {
            modes.push((mode, table));
            assert(modes_view(modes@) =~= mv.push((mode_view, table_view(table@))));
        }
        i += 1;
    }
    assert(entries@.skip(i as int) =~= Seq::<(String, Vec<(String, BindingSpec)>)>::empty());
    Ok(())
}

/// The first switch-mode target among `actions` that has no binding table.
pub open spec fn missing_in_actions(
    modes: Seq<(Seq<char>, Seq<(Seq<char>, BindingModel)>)>,
    actions: Seq<ActionValue>,
) -> Option<Seq<char>>
    decreases actions.len(),
{
    if actions.len() == 0 {
        None
    } else {
        match actions[0] {
            ActionValue::SwitchMode(t) => if !has_entry(modes, t) {
                Some(t)
            } else {
                missing_in_actions(modes, actions.drop_first())
            },
            _ => missing_in_actions(modes, actions.drop_first()),
        }
    }
}

pub open spec fn missing_in_table(
    modes: Seq<(Seq<char>, Seq<(Seq<char>, BindingModel)>)>,
    table: Seq<(Seq<char>, BindingModel)>,
) -> Option<Seq<char>>
    decreases table.len(),
{
    if table.len() == 0 {
        None
    } else {
        match missing_in_actions(modes, table[0].1.actions) {
            Some(t) => Some(t),
            None => missing_in_table(modes, table.drop_first()),
        }
    }
}

/// The first switch-mode target, mode by mode and binding by binding, that has no table.
pub open spec fn missing_in_modes(
    modes: Seq<(Seq<char>, Seq<(Seq<char>, BindingModel)>)>,
    rest: Seq<(Seq<char>, Seq<(Seq<char>, BindingModel)>)>,
) -> Option<Seq<char>>
    decreases rest.len(),
{
    if rest.len() == 0 {
        None
    } else {
        match missing_in_table(modes, rest[0].1) {
            Some(t) => Some(t),
            None => missing_in_modes(modes, rest.drop_first()),
        }
    }
}

/// The default mode and every switch-mode target must have a binding table.
pub open spec fn validate_spec(default_mode: Seq<char>, modes: Seq<(Seq<char>, Seq<(Seq<char>, BindingModel)>)>) -> Result<
    (),
    Seq<char>,
> {
    if !has_entry(modes, default_mode) {
        Err(quoted("default_mode '"@, default_mode, "' has no keybinds table"@))
    } else {
        match missing_in_modes(modes, modes) {
            Some(t) => Err(quoted("switch-mode target '"@, t, "' has no keybinds table"@)),
            None => Ok(()),
        }
    }
}

fn validate(default_mode: &str, modes: &Vec<(String, Vec<(String, Binding)>)>) -> (r: Result<(), String>)
    ensures
        match r {
            Ok(_) => validate_spec(default_mode@, modes_view(modes@)) == Ok::<(), Seq<char>>(()),
            Err(e) => validate_spec(default_mode@, modes_view(modes@)) == Err::<(), Seq<char>>(e@),
        },
{
    let ghost mv = modes_view(modes@);
    assert(entry_names(mv) =~= text_keys(modes@));
    if find_entry(modes, default_mode) == modes.len() {
        return Err(quote("default_mode '", default_mode, "' has no keybinds table"));
    }
    let mut i: usize = 0;
    assert(mv.skip(0) =~= mv);
    while i < modes.len()
        invariant
            i <= modes@.len(),
            mv == modes_view(modes@),
            entry_names(mv) == text_keys(modes@),
            has_entry(mv, default_mode@),
            missing_in_modes(mv, mv.skip(i as int)) == missing_in_modes(mv, mv),
        decreases modes@.len() - i,
    {
        let table = &modes[i].1;
        let ghost tv = table_view(table@);
        assert(mv.skip(i as int)[0].1 == tv);
        assert(mv.skip(i as int).drop_first() =~= mv.skip(i + 1));
        let mut j: usize = 0;
        assert(tv.skip(0) =~= tv);
        while j < table.len()
            invariant
                i < modes@.len(),
                mv == modes_view(modes@),
                entry_names(mv) == text_keys(modes@),
                has_entry(mv, default_mode@),
                missing_in_modes(mv, mv.skip(i as int)) == missing_in_modes(mv, mv),
                mv.skip(i as int)[0].1 == tv,
                tv == table_view(table@),
                j <= table@.len(),
                missing_in_table(mv, tv.skip(j as int)) == missing_in_table(mv, tv),
            decreases table@.len() - j,
        {
            let actions = &table[j].1.actions;
            let ghost av = actions_view(actions@);
            assert(tv.skip(j as int)[0] == tv[j as int]);
            assert(tv.skip(j as int)[0].1.actions == av);
            assert(tv.skip(j as int).drop_first() =~= tv.skip(j + 1));
            let mut k: usize = 0;
            assert(av.skip(0) =~= av);
            while k < actions.len()
                invariant
                    i < modes@.len(),
                    j < table@.len(),
                    mv == modes_view(modes@),
                    entry_names(mv) == text_keys(modes@),
                    has_entry(mv, default_mode@),
                    missing_in_modes(mv, mv.skip(i as int)) == missing_in_modes(mv, mv),
                    mv.skip(i as int)[0].1 == tv,
                    tv.skip(j as int).len() > 0,
                    missing_in_table(mv, tv.skip(j as int)) == missing_in_table(mv, tv),
                    tv.skip(j as int)[0].1.actions == av,
                    av == actions_view(actions@),
                    k <= actions@.len(),
                    missing_in_actions(mv, av.skip(k as int)) == missing_in_actions(mv, av),
                decreases actions@.len() - k,
            {
                assert(av.skip(k as int)[0] == action_view(actions@[k as int]));
                assert(av.skip(k as int).drop_first() =~= av.skip(k + 1));
                match &actions[k] {
                    Action::SwitchMode(target) => {
                        if find_entry(modes, target.as_str()) == modes.len() {
                            proof {
                                let t = target@;
                                assert(av.skip(k as int)[0] == ActionValue::SwitchMode(t));
                                assert(missing_in_actions(mv, av.skip(k as int)) == Some(t));
                                assert(missing_in_table(mv, tv.skip(j as int)) == Some(t));
                                assert(missing_in_modes(mv, mv.skip(i as int)) == Some(t));
                            }
                            return Err(quote("switch-mode target '", target.as_str(), "' has no keybinds table"));
                        }
                    },
                    _ => {},
                }
                k += 1;
            }
            assert(av.skip(k as int) =~= Seq::<ActionValue>::empty());
            j += 1;
        }
        assert(tv.skip(j as int) =~= Seq::<(Seq<char>, BindingModel)>::empty());
        i += 1;
    }
    assert(mv.skip(i as int) =~= Seq::<(Seq<char>, Seq<(Seq<char>, BindingModel)>)>::empty());
    Ok(())
}

/// The `[notifications]` table of a config file.
#[derive(Debug)]
pub struct NotificationsFile {
    pub enabled: Option<bool>,
    pub command_duration_seconds: Option<u64>,
    pub exclude_applications: Option<Vec<String>>,
}

/// The settings of one config file, with its tables in the order the file gives them.
#[derive(Debug)]
pub struct ConfigFile {
    pub shell: Option<String>,
    pub autosave_interval_seconds: Option<u64>,
    pub default_mode: Option<String>,
    pub clear_defaults: bool,
    pub compact: Option<bool>,
    pub scrollback_lines: Option<usize>,
    pub notifications: Option<NotificationsFile>,
    pub session_manager: Vec<(String, Vec<String>)>,
    pub keybinds: Vec<(String, Vec<(String, BindingSpec)>)>,
}

/// What a configuration holds.
pub struct ConfigModel {
    pub shell: Option<Seq<char>>,
    pub autosave_interval_seconds: u64,
    pub default_mode: Seq<char>,
    pub compact: bool,
    pub scrollback_lines: usize,
    pub notifications_enabled: bool,
    pub command_duration_seconds: u64,
    pub excluded_applications: Seq<Seq<char>>,
    pub bindings: Seq<(Seq<char>, Seq<(Seq<char>, BindingModel)>)>,
    pub session_manager: Seq<(Seq<char>, Seq<Seq<char>>)>,
}

/// The configuration in effect: the built-in defaults with the user's file over them.
#[derive(Debug)]
pub struct Config {
    shell: Option<String>,
    autosave_interval_seconds: u64,
    default_mode: String,
    compact: bool,
    scrollback_lines: usize,
    notifications_enabled: bool,
    command_duration_seconds: u64,
    notification_excluded_applications: Vec<String>,
    bindings: Vec<(String, Vec<(String, Binding)>)>,
    session_manager: Vec<(String, Vec<String>)>,
}

impl View for Config {
    type V = ConfigModel;

    closed spec fn view(&self) -> ConfigModel {
        ConfigModel {
            shell: option_view(self.shell),
            autosave_interval_seconds: self.autosave_interval_seconds,
            default_mode: self.default_mode@,
            compact: self.compact,
            scrollback_lines: self.scrollback_lines,
            notifications_enabled: self.notifications_enabled,
            command_duration_seconds: self.command_duration_seconds,
            excluded_applications: string_views(self.notification_excluded_applications@),
            bindings: modes_view(self.bindings@),
            session_manager: manager_view(self.session_manager@),
        }
    }
}

pub open spec fn shell_spec(shell: Option<String>) -> Result<Option<Seq<char>>, Seq<char>> {
    match shell {
        None => Ok(None),
        Some(s) => if trim(s@).len() > 0 && !s@.contains('\0') {
            Ok(Some(s@))
        } else {
            Err("shell must be a nonempty executable name or path"@)
        },
    }
}

pub open spec fn scrollback_spec(lines: usize) -> Result<usize, Seq<char>> {
    if 1 <= lines <= 1_000_000 {
        Ok(lines)
    } else {
        Err("scrollback_lines must be between 1 and 1000000"@)
    }
}

/// The session manager's keys after a file's entries, checked for keys bound twice.
pub open spec fn manager_after(
    table: Seq<(Seq<char>, Seq<Seq<char>>)>,
    entries: Seq<(Seq<char>, Seq<Seq<char>>)>,
) -> Result<Seq<(Seq<char>, Seq<Seq<char>>)>, Seq<char>> {
    match merge_manager_from(table, entries) {
        Err(e) => Err(e),
        Ok(t) => match conflict_from(t, 0) {
            Some(m) => Err(m),
            None => Ok(t),
        },
    }
}

/// A file's session manager keys and key bindings merged into `m`, and the result checked.
pub open spec fn finish_spec(m: ConfigModel, file: ConfigFile) -> Result<ConfigModel, Seq<char>> {
    match manager_after(m.session_manager, manager_view(file.session_manager@)) {
        Err(e) => Err(e),
        Ok(session_manager) => match merge_modes_from(m.bindings, file.keybinds@) {
            Err(e) => Err(e),
            Ok(bindings) => match validate_spec(m.default_mode, bindings) {
                Err(e) => Err(e),
                Ok(_) => Ok(ConfigModel { session_manager, bindings, ..m }),
            },
        },
    }
}

pub open spec fn file_applications(file: ConfigFile) -> Seq<Seq<char>> {
    match file.notifications {
        Some(n) => match n.exclude_applications {
            Some(a) => string_views(a@),
            None => Seq::empty(),
        },
        None => Seq::empty(),
    }
}

/// A configuration made from one file: what it does not set takes its default
/// (the mode `fallback_mode`, else `locked`), and it starts with no bindings.
pub open spec fn from_file_spec(file: ConfigFile, fallback_mode: Option<Seq<char>>) -> Result<ConfigModel, Seq<char>> {
    let mode_text = match file.default_mode {
        Some(m) => m@,
        None => match fallback_mode {
            Some(f) => f,
            None => "locked"@,
        },
    };
    let (enabled, seconds) = match file.notifications {
        Some(n) => (n.enabled, n.command_duration_seconds),
        None => (None, None),
    };
    match mode_spec(mode_text) {
        Err(e) => Err(e),
        Ok(default_mode) => match shell_spec(file.shell) {
            Err(e) => Err(e),
            Ok(shell) => match scrollback_spec(
                match file.scrollback_lines {
                    Some(l) => l,
                    None => crate::SCROLLBACK_LINES,
                },
            ) {
                Err(e) => Err(e),
                Ok(scrollback_lines) => match normalize_applications_from(Seq::empty(), file_applications(file)) {
                    Err(e) => Err(e),
                    Ok(excluded_applications) => finish_spec(
                        ConfigModel {
                            shell,
                            autosave_interval_seconds: match file.autosave_interval_seconds {
                                Some(s) => s,
                                None => 30,
                            },
                            default_mode,
                            compact: match file.compact {
                                Some(c) => c,
                                None => false,
                            },
                            scrollback_lines,
                            notifications_enabled: match enabled {
                                Some(e) => e,
                                None => true,
                            },
                            command_duration_seconds: match seconds {
                                Some(s) => s,
                                None => 10,
                            },
                            excluded_applications,
                            bindings: Seq::empty(),
                            session_manager: Seq::empty(),
                        },
                        file,
                    ),
                },
            },
        },
    }
}

/// The user's file over a configuration: each setting it gives replaces the
/// current one, `clear_defaults` drops every binding first, and its tables merge in.
/// The scalar settings of two configurations agree (their key tables may not).
pub open spec fn same_settings(a: ConfigModel, b: ConfigModel) -> bool {
    &&& a.shell == b.shell
    &&& a.autosave_interval_seconds == b.autosave_interval_seconds
    &&& a.default_mode == b.default_mode
    &&& a.compact == b.compact
    &&& a.scrollback_lines == b.scrollback_lines
    &&& a.notifications_enabled == b.notifications_enabled
    &&& a.command_duration_seconds == b.command_duration_seconds
    &&& a.excluded_applications == b.excluded_applications
}

/// Whether a user file fails on a setting checked before the key tables are merged.
pub open spec fn fails_before_tables(m: ConfigModel, user: ConfigFile) -> bool {
    let apps_given = match user.notifications {
        Some(n) => n.exclude_applications is Some,
        None => false,
    };
    ||| (user.shell is Some && shell_spec(user.shell) is Err)
    ||| (match user.default_mode {
        Some(md) => mode_spec(md@) is Err,
        None => false,
    })
    ||| (match user.scrollback_lines {
        Some(l) => scrollback_spec(l) is Err,
        None => false,
    })
    ||| (apps_given && normalize_applications_from(Seq::empty(), file_applications(user)) is Err)
}

/// What applying a user file leaves when it fails: each setting checked
/// before the failing one is applied, in the order autosave interval, shell,
/// cleared bindings, default mode, compact, scrollback lines, notifications,
/// excluded applications; key tables keep what the merge reached.
pub open spec fn applied_before_error(m: ConfigModel, user: ConfigFile) -> ConfigModel {
    let s1 = ConfigModel {
        autosave_interval_seconds: match user.autosave_interval_seconds {
            Some(s) => s,
            None => m.autosave_interval_seconds,
        },
        ..m
    };
    let shell_result: Result<Option<Seq<char>>, Seq<char>> = match user.shell {
        None => Ok(m.shell),
        Some(_) => shell_spec(user.shell),
    };
    match shell_result {
        Err(_) => s1,
        Ok(shell) => {
            let s2 = ConfigModel {
                shell,
                bindings: if user.clear_defaults {
                    Seq::empty()
                } else {
                    m.bindings
                },
                ..s1
            };
            let mode_result: Result<Seq<char>, Seq<char>> = match user.default_mode {
                None => Ok(m.default_mode),
                Some(md) => mode_spec(md@),
            };
            match mode_result {
                Err(_) => s2,
                Ok(default_mode) => {
                    let s3 = ConfigModel {
                        default_mode,
                        compact: match user.compact {
                            Some(c) => c,
                            None => m.compact,
                        },
                        ..s2
                    };
                    let lines_result: Result<usize, Seq<char>> = match user.scrollback_lines {
                        None => Ok(m.scrollback_lines),
                        Some(l) => scrollback_spec(l),
                    };
                    match lines_result {
                        Err(_) => s3,
                        Ok(scrollback_lines) => {
                            let (enabled, seconds) = match user.notifications {
                                Some(n) => (n.enabled, n.command_duration_seconds),
                                None => (None, None),
                            };
                            let s4 = ConfigModel {
                                scrollback_lines,
                                notifications_enabled: match enabled {
                                    Some(e) => e,
                                    None => m.notifications_enabled,
                                },
                                command_duration_seconds: match seconds {
                                    Some(x) => x,
                                    None => m.command_duration_seconds,
                                },
                                ..s3
                            };
                            let apps_given = match user.notifications {
                                Some(n) => n.exclude_applications is Some,
                                None => false,
                            };
                            if apps_given {
                                match normalize_applications_from(Seq::empty(), file_applications(user)) {
                                    Err(_) => s4,
                                    Ok(a) => ConfigModel { excluded_applications: a, ..s4 },
                                }
                            } else {
                                s4
                            }
                        },
                    }
                },
            }
        },
    }
}

/// The built-in defaults, then the user's file.
pub open spec fn load_spec(defaults: ConfigFile, user: Option<ConfigFile>) -> Result<ConfigModel, Seq<char>> {
    match from_file_spec(defaults, None) {
        Err(e) => Err(e),
        Ok(m) => match user {
            None => Ok(m),
            Some(u) => apply_user_spec(m, u),
        },
    }
}

proof fn lemma_finish_validates()
    ensures
        forall|m: ConfigModel, f: ConfigFile|
            (#[trigger] finish_spec(m, f)) is Ok ==> validate_spec(
                finish_spec(m, f)->Ok_0.default_mode,
                finish_spec(m, f)->Ok_0.bindings,
            ) == Ok::<(), Seq<char>>(()),
{
}

proof fn lemma_finish_distinct()
    ensures
        forall|m: ConfigModel, f: ConfigFile|
            distinct_bindings(m.bindings) && (#[trigger] finish_spec(m, f)) is Ok ==> distinct_bindings(
                finish_spec(m, f)->Ok_0.bindings,
            ),
{
    assert forall|m: ConfigModel, f: ConfigFile|
        distinct_bindings(m.bindings) && (#[trigger] finish_spec(m, f)) is Ok implies distinct_bindings(
            finish_spec(m, f)->Ok_0.bindings,
        ) by {
        lemma_merge_modes_distinct(m.bindings, f.keybinds@);
    }
}

/// In every configuration that loads, each mode has one keybinds table and
/// each key one binding within it.
pub proof fn loaded_configs_list_each_mode_and_key_once(defaults: ConfigFile, user: Option<ConfigFile>)
    ensures
        load_spec(defaults, user) is Ok ==> distinct_bindings(load_spec(defaults, user)->Ok_0.bindings),
{
    lemma_finish_distinct();
    assert(distinct_bindings(Seq::<(Seq<char>, Seq<(Seq<char>, BindingModel)>)>::empty()));
}

/// Every configuration that loads has a keybinds table for its default mode
/// and for every mode that one of its bindings switches to.
pub proof fn loaded_configs_have_their_modes(defaults: ConfigFile, user: Option<ConfigFile>)
    ensures
        load_spec(defaults, user) is Ok ==> has_entry(load_spec(defaults, user)->Ok_0.bindings, load_spec(defaults, user)->Ok_0.default_mode)
            && validate_spec(load_spec(defaults, user)->Ok_0.default_mode, load_spec(defaults, user)->Ok_0.bindings) == Ok::<(), Seq<char>>(()),
{
    lemma_finish_validates();
}

pub open spec fn apply_user_spec(m: ConfigModel, user: ConfigFile) -> Result<ConfigModel, Seq<char>> {
    let autosave = match user.autosave_interval_seconds {
        Some(s) => s,
        None => m.autosave_interval_seconds,
    };
    let bindings = if user.clear_defaults {
        Seq::empty()
    } else {
        m.bindings
    };
    let (enabled, seconds) = match user.notifications {
        Some(n) => (n.enabled, n.command_duration_seconds),
        None => (None, None),
    };
    let shell_result: Result<Option<Seq<char>>, Seq<char>> = match user.shell {
        None => Ok(m.shell),
        Some(_) => shell_spec(user.shell),
    };
    let mode_result: Result<Seq<char>, Seq<char>> = match user.default_mode {
        None => Ok(m.default_mode),
        Some(md) => mode_spec(md@),
    };
    let lines_result: Result<usize, Seq<char>> = match user.scrollback_lines {
        None => Ok(m.scrollback_lines),
        Some(l) => scrollback_spec(l),
    };
    let apps_given = match user.notifications {
        Some(n) => n.exclude_applications is Some,
        None => false,
    };
    let apps_result: Result<Seq<Seq<char>>, Seq<char>> = if apps_given {
        normalize_applications_from(Seq::empty(), file_applications(user))
    } else {
        Ok(m.excluded_applications)
    };
    match shell_result {
        Err(e) => Err(e),
        Ok(shell) => match mode_result {
            Err(e) => Err(e),
            Ok(default_mode) => match lines_result {
                Err(e) => Err(e),
                Ok(scrollback_lines) => match apps_result {
                    Err(e) => Err(e),
                    Ok(excluded_applications) => finish_spec(
                        ConfigModel {
                            shell,
                            autosave_interval_seconds: autosave,
                            default_mode,
                            compact: match user.compact {
                                Some(c) => c,
                                None => m.compact,
                            },
                            scrollback_lines,
                            notifications_enabled: match enabled {
                                Some(e) => e,
                                None => m.notifications_enabled,
                            },
                            command_duration_seconds: match seconds {
                                Some(s) => s,
                                None => m.command_duration_seconds,
                            },
                            excluded_applications,
                            bindings,
                            session_manager: m.session_manager,
                        },
                        user,
                    ),
                },
            },
        },
    }
}

fn merge_session_manager(table: &mut Vec<(String, Vec<String>)>, entries: &Vec<(String, Vec<String>)>) -> (r: Result<
    (),
    String,
>)
    ensures
        match r {
            Ok(_) => manager_after(manager_view(old(table)@), manager_view(entries@)) == Ok::<
                Seq<(Seq<char>, Seq<Seq<char>>)>,
                Seq<char>,
            >(manager_view(final(table)@)),
            Err(e) => manager_after(manager_view(old(table)@), manager_view(entries@)) == Err::<
                Seq<(Seq<char>, Seq<Seq<char>>)>,
                Seq<char>,
            >(e@),
        },
{
    let ghost ev = manager_view(entries@);
    let mut i: usize = 0;
    assert(ev.skip(0) =~= ev);
    while i < entries.len()
        invariant
            i <= entries@.len(),
            ev == manager_view(entries@),
            merge_manager_from(manager_view(table@), ev.skip(i as int)) == merge_manager_from(
                manager_view(old(table)@),
                ev,
            ),
        decreases entries@.len() - i,
    {
        assert(ev.skip(i as int)[0] == (entries@[i as int].0@, string_views(entries@[i as int].1@)));
        assert(ev.skip(i as int).drop_first() =~= ev.skip(i + 1));
        let action = entries[i].0.as_str();
        if !is_manager_action_exec(action) {
            return Err(quote("unknown session manager action '", action, "'"));
        }
        let keys = match canonical_keys(&entries[i].1) {
            Ok(k) => k,
            Err(e) => {
                return Err(e);
            },
        };
        let ghost before = table@;
        let ghost tv = manager_view(before);
        let pos = find_entry(table, action);
        assert(entry_names(tv) =~= text_keys(before));
        let ghost kv = string_views(keys@);
        if pos < table.len() {
            table.remove(pos);
            table.insert(pos, (entries[i].0.clone(), keys));
            assert(manager_view(table@) =~= tv.update(pos as int, (action@, kv)));
        } else {
            table.push((entries[i].0.clone(), keys));
            assert(manager_view(table@) =~= tv.push((action@, kv)));
        }
        i += 1;
    }
    assert(ev.skip(i as int) =~= Seq::<(Seq<char>, Seq<Seq<char>>)>::empty());
    match find_manager_conflict(table) {
        Some(e) => Err(e),
        None => Ok(()),
    }
}

impl Config {
    /// A configuration from one file, with no bindings before its own.
    pub fn from_file(file: &ConfigFile, fallback_mode: Option<&str>) -> (r: Result<Config, String>)
        ensures
            match r {
                Ok(c) => from_file_spec(
                    *file,
                    match fallback_mode {
                        Some(f) => Some(f@),
                        None => None,
                    },
                ) == Ok::<ConfigModel, Seq<char>>(c@),
                Err(e) => from_file_spec(
                    *file,
                    match fallback_mode {
                        Some(f) => Some(f@),
                        None => None,
                    },
                ) == Err::<ConfigModel, Seq<char>>(e@),
            },
    {
        let default_mode = match &file.default_mode {
            Some(m) => normalize_mode(m.as_str()),
            None => match fallback_mode {
                Some(f) => normalize_mode(f),
                None => normalize_mode("locked"),
            },
        };
        let default_mode = match default_mode {
            Ok(m) => m,
            Err(e) => {
                return Err(e);
            },
        };
        let shell = match &file.shell {
            None => None,
            Some(s) => match validate_shell(s.clone()) {
                Ok(v) => Some(v),
                Err(e) => {
                    return Err(e);
                },
            },
        };
        let lines = match file.scrollback_lines {
            Some(l) => l,
            None => crate::SCROLLBACK_LINES,
        };
        let scrollback_lines = match validate_scrollback_lines(lines) {
            Ok(l) => l,
            Err(e) => {
                return Err(e);
            },
        };
        let (enabled, seconds) = match &file.notifications {
            Some(n) => (n.enabled, n.command_duration_seconds),
            None => (None, None),
        };
        let no_applications: Vec<String> = Vec::new();
        let applications = match &file.notifications {
            Some(n) => match &n.exclude_applications {
                Some(a) => a,
                None => &no_applications,
            },
            None => &no_applications,
        };
        assert(string_views(no_applications@) =~= Seq::<Seq<char>>::empty());
        let excluded = match normalize_applications(applications) {
            Ok(a) => a,
            Err(e) => {
                return Err(e);
            },
        };
        let config = Config {
            shell,
            autosave_interval_seconds: match file.autosave_interval_seconds {
                Some(s) => s,
                None => 30,
            },
            default_mode,
            compact: match file.compact {
                Some(c) => c,
                None => false,
            },
            scrollback_lines,
            notifications_enabled: match enabled {
                Some(e) => e,
                None => true,
            },
            command_duration_seconds: match seconds {
                Some(s) => s,
                None => 10,
            },
            notification_excluded_applications: excluded,
            bindings: Vec::new(),
            session_manager: Vec::new(),
        };
        assert(config@.bindings =~= Seq::<(Seq<char>, Seq<(Seq<char>, BindingModel)>)>::empty());
        assert(config@.session_manager =~= Seq::<(Seq<char>, Seq<Seq<char>>)>::empty());
        let mut config = config;
        match config.finish(file) {
            Ok(_) => Ok(config),
            Err(e) => Err(e),
        }
    }

    /// Merges a file's session manager keys and bindings, then checks the result.
    fn finish(&mut self, file: &ConfigFile) -> (r: Result<(), String>)
        ensures
            same_settings(final(self)@, old(self)@),
            match r {
                Ok(_) => finish_spec(old(self)@, *file) == Ok::<ConfigModel, Seq<char>>(final(self)@),
                Err(e) => finish_spec(old(self)@, *file) == Err::<ConfigModel, Seq<char>>(e@),
            },
    {
        match merge_session_manager(&mut self.session_manager, &file.session_manager) {
            Ok(_) => {},
            Err(e) => {
                return Err(e);
            },
        }
        match merge_modes(&mut self.bindings, &file.keybinds) {
            Ok(_) => {},
            Err(e) => {
                return Err(e);
            },
        }
        match validate(self.default_mode.as_str(), &self.bindings) {
            Ok(_) => {},
            Err(e) => {
                return Err(e);
            },
        }
        Ok(())
    }

    /// The configuration in effect: the built-in `defaults`, with the user's
    /// file over them when there is one.
    pub fn load(defaults: &ConfigFile, user: Option<&ConfigFile>) -> (r: Result<Config, String>)
        ensures
            match r {
                Ok(c) => load_spec(*defaults, match user {
                    Some(u) => Some(*u),
                    None => None,
                }) == Ok::<ConfigModel, Seq<char>>(c@),
                Err(e) => load_spec(*defaults, match user {
                    Some(u) => Some(*u),
                    None => None,
                }) == Err::<ConfigModel, Seq<char>>(e@),
            },
    {
        let mut config = match Config::from_file(defaults, None) {
            Ok(c) => c,
            Err(e) => {
                return Err(e);
            },
        };
        match user {
            None => Ok(config),
            Some(u) => match config.apply_user(u) {
                Ok(()) => Ok(config),
                Err(e) => Err(e),
            },
        }
    }

    /// Lays the user's file over this configuration, setting by setting in
    /// the file's order of checks. On an error the settings applied before
    /// the failing one stay applied (`applied_before_error`).
    #[verifier::rlimit(60)]
    pub fn apply_user(&mut self, user: &ConfigFile) -> (r: Result<(), String>)
        ensures
            match r {
                Ok(_) => apply_user_spec(old(self)@, *user) == Ok::<ConfigModel, Seq<char>>(final(self)@),
                Err(e) => {
                    &&& apply_user_spec(old(self)@, *user) == Err::<ConfigModel, Seq<char>>(e@)
                    &&& same_settings(final(self)@, applied_before_error(old(self)@, *user))
                    &&& (fails_before_tables(old(self)@, *user) ==> final(self)@ == applied_before_error(
                        old(self)@,
                        *user,
                    ))
                },
            },
    {
        let config = self;
        if let Some(seconds) = user.autosave_interval_seconds {
            config.autosave_interval_seconds = seconds;
        }
        if let Some(shell) = &user.shell {
            match validate_shell(shell.clone()) {
                Ok(v) => {
                    config.shell = Some(v);
                },
                Err(e) => {
                    return Err(e);
                },
            }
        }
        if user.clear_defaults {
            config.bindings = Vec::new();
            assert(modes_view(config.bindings@) =~= Seq::<(Seq<char>, Seq<(Seq<char>, BindingModel)>)>::empty());
        }
        if let Some(mode) = &user.default_mode {
            match normalize_mode(mode.as_str()) {
                Ok(m) => {
                    config.default_mode = m;
                },
                Err(e) => {
                    return Err(e);
                },
            }
        }
        if let Some(compact) = user.compact {
            config.compact = compact;
        }
        if let Some(lines) = user.scrollback_lines {
            match validate_scrollback_lines(lines) {
                Ok(l) => {
                    config.scrollback_lines = l;
                },
                Err(e) => {
                    return Err(e);
                },
            }
        }
        if let Some(notifications) = &user.notifications {
            if let Some(enabled) = notifications.enabled {
                config.notifications_enabled = enabled;
            }
            if let Some(seconds) = notifications.command_duration_seconds {
                config.command_duration_seconds = seconds;
            }
            if let Some(applications) = &notifications.exclude_applications {
                match normalize_applications(applications) {
                    Ok(a) => {
                        config.notification_excluded_applications = a;
                    },
                    Err(e) => {
                        return Err(e);
                    },
                }
            }
        }
        config.finish(user)
    }
}

/// Whether the session manager reads `key` as `e`'s action. Printable keys
/// stay text while a name is being edited, except for cancel, open and backspace.
pub open spec fn manager_key_matches(e: (Seq<char>, Seq<Seq<char>>), key: Seq<char>, editing: bool) -> bool {
    e.1.contains(key) && (!editing || key.len() != 1 || e.0 == "cancel"@ || e.0 == "open"@ || e.0 == "backspace"@)
}

/// Lexicographic order of texts by character.
pub open spec fn text_lt(a: Seq<char>, b: Seq<char>) -> bool
    decreases a.len(),
{
    if b.len() == 0 {
        false
    } else if a.len() == 0 {
        true
    } else if a[0] != b[0] {
        (a[0] as u32) < (b[0] as u32)
    } else {
        text_lt(a.drop_first(), b.drop_first())
    }
}

/// Where `x` goes among sorted texts: after every text not greater than it.
pub open spec fn sorted_slot(sorted: Seq<Seq<char>>, x: Seq<char>) -> nat
    decreases sorted.len(),
{
    if sorted.len() == 0 || text_lt(x, sorted[0]) {
        0
    } else {
        1 + sorted_slot(sorted.drop_first(), x)
    }
}

/// `texts` in ascending order (equal texts keep their order).
pub open spec fn sort_texts(texts: Seq<Seq<char>>) -> Seq<Seq<char>>
    decreases texts.len(),
{
    if texts.len() == 0 {
        Seq::empty()
    } else {
        let sorted = sort_texts(texts.drop_last());
        sorted.insert(sorted_slot(sorted, texts.last()) as int, texts.last())
    }
}

/// The labels of actions joined with ` + `.
pub open spec fn joined_labels(actions: Seq<ActionValue>) -> Seq<char>
    decreases actions.len(),
{
    if actions.len() == 0 {
        Seq::empty()
    } else if actions.len() == 1 {
        label_spec(actions[0])
    } else {
        joined_labels(actions.drop_last()) + " + "@ + label_spec(actions.last())
    }
}

/// Whether a binding with this listing shows in the status line (`help == false`) or in help.
pub open spec fn listed_in(display: BindingDisplay, help: bool) -> bool {
    if help {
        display != BindingDisplay::Hidden
    } else {
        display == BindingDisplay::Always
    }
}

/// `key=labels` for each listed binding of a table, in table order.
pub open spec fn descriptions(table: Seq<(Seq<char>, BindingModel)>, help: bool) -> Seq<Seq<char>>
    decreases table.len(),
{
    if table.len() == 0 {
        Seq::empty()
    } else {
        let rest = descriptions(table.drop_last(), help);
        let (key, b) = table.last();
        if listed_in(b.display, help) {
            rest.push(key + "="@ + joined_labels(b.actions))
        } else {
            rest
        }
    }
}

pub open spec fn describe_spec(m: ConfigModel, mode: Seq<char>, help: bool) -> Seq<Seq<char>> {
    if has_entry(m.bindings, mode) {
        sort_texts(descriptions(entry(m.bindings, mode), help))
    } else {
        Seq::empty()
    }
}

fn text_less(a: &str, b: &str) -> (r: bool)
    ensures
        r == text_lt(a@, b@),
{
    let n = a.unicode_len();
    let m = b.unicode_len();
    let mut i: usize = 0;
    assert(a@.skip(0) =~= a@ && b@.skip(0) =~= b@);
    while i < n && i < m && a.get_char(i) == b.get_char(i)
        invariant
            n == a@.len(),
            m == b@.len(),
            i <= n,
            i <= m,
            text_lt(a@.skip(i as int), b@.skip(i as int)) == text_lt(a@, b@),
        decreases n - i,
    {
        assert(a@.skip(i as int).drop_first() =~= a@.skip(i + 1));
        assert(b@.skip(i as int).drop_first() =~= b@.skip(i + 1));
        i += 1;
    }
    if i == m {
        return false;
    }
    if i == n {
        return true;
    }
    (a.get_char(i) as u32) < (b.get_char(i) as u32)
}

fn insert_sorted(sorted: &mut Vec<String>, x: String)
    ensures
        string_views(final(sorted)@) == string_views(old(sorted)@).insert(
            sorted_slot(string_views(old(sorted)@), x@) as int,
            x@,
        ),
{
    let ghost sv = string_views(sorted@);
    let mut i: usize = 0;
    assert(sv.skip(0) =~= sv);
    while i < sorted.len() && !text_less(x.as_str(), sorted[i].as_str())
        invariant
            i <= sorted@.len(),
            sv == string_views(sorted@),
            i + sorted_slot(sv.skip(i as int), x@) == sorted_slot(sv, x@),
        decreases sorted@.len() - i,
    {
        assert(sv.skip(i as int)[0] == sorted@[i as int]@);
        assert(sv.skip(i as int).drop_first() =~= sv.skip(i + 1));
        i += 1;
    }
    proof {
        if i < sorted@.len() {
            assert(sv.skip(i as int)[0] == sorted@[i as int]@);
        }
    }
    let ghost xv = x@;
    sorted.insert(i, x);
    assert(string_views(sorted@) =~= sv.insert(i as int, xv));
}

fn join_labels(actions: &Vec<Action>) -> (r: String)
    ensures
        r@ == joined_labels(actions_view(actions@)),
{
    let ghost av = actions_view(actions@);
    let mut out = String::new();
    let mut i: usize = 0;
    while i < actions.len()
        invariant
            i <= actions@.len(),
            av == actions_view(actions@),
            out@ == joined_labels(av.take(i as int)),
        decreases actions@.len() - i,
    {
        let label = actions[i].label();
        assert(av.take(i + 1).drop_last() =~= av.take(i as int));
        if i > 0 {
            push_str(&mut out, " + ");
        }
        push_str(&mut out, label.as_str());
        i += 1;
    }
    assert(av.take(i as int) =~= av);
    out
}

impl Config {
    pub fn shell(&self) -> (r: Option<String>)
        ensures
            option_view(r) == self@.shell,
    {
        copy_text(&self.shell)
    }

    pub fn autosave_interval_seconds(&self) -> (r: u64)
        ensures
            r == self@.autosave_interval_seconds,
    {
        self.autosave_interval_seconds
    }

    /// The mode a new client starts in.
    pub fn default_mode(&self) -> (r: &str)
        ensures
            r@ == self@.default_mode,
    {
        self.default_mode.as_str()
    }

    /// The actions bound to `key` in `mode`.
    pub fn actions(&self, mode: &str, key: &str) -> (r: Option<&[Action]>)
        ensures
            match r {
                Some(a) => has_entry(self@.bindings, mode@) && has_entry(entry(self@.bindings, mode@), key@)
                    && actions_view(a@) == entry(entry(self@.bindings, mode@), key@).actions,
                None => !(has_entry(self@.bindings, mode@) && has_entry(entry(self@.bindings, mode@), key@)),
            },
    {
        let ghost mv = self@.bindings;
        let i = find_entry(&self.bindings, mode);
        assert(entry_names(mv) =~= text_keys(self.bindings@));
        if i == self.bindings.len() {
            return None;
        }
        let table = &self.bindings[i].1;
        let j = find_entry(table, key);
        assert(entry_names(table_view(table@)) =~= text_keys(table@));
        if j == table.len() {
            return None;
        }
        Some(table[j].1.actions.as_slice())
    }

    pub fn has_mode(&self, mode: &str) -> (r: bool)
        ensures
            r == has_entry(self@.bindings, mode@),
    {
        assert(entry_names(self@.bindings) =~= text_keys(self.bindings@));
        find_entry(&self.bindings, mode) < self.bindings.len()
    }

    /// How long a command must run before its end raises a notification, when notifications are on.
    pub fn command_notification_seconds(&self) -> (r: Option<u64>)
        ensures
            r == (if self@.notifications_enabled {
                Some(self@.command_duration_seconds)
            } else {
                None
            }),
    {
        if self.notifications_enabled {
            Some(self.command_duration_seconds)
        } else {
            None
        }
    }

    /// Whether commands of this application (a name or a path) raise no notification.
    pub fn notification_excludes_application(&self, application: Option<&str>) -> (r: bool)
        ensures
            r == match application {
                Some(a) => contains_ignoring_case(self@.excluded_applications, application_name(a@)),
                None => false,
            },
    {
        match application {
            None => false,
            Some(a) => {
                let name = application_name_of(a);
                contains_ignoring_case_exec(&self.notification_excluded_applications, name.as_str())
            },
        }
    }

    /// Whether any of these applications is excluded from notifications.
    pub fn notification_excludes_any_application(&self, applications: &[&str]) -> (r: bool)
        ensures
            r == exists|i: int|
                0 <= i < applications@.len() && contains_ignoring_case(
                    self@.excluded_applications,
                    application_name(#[trigger] applications@[i]@),
                ),
    {
        let mut i: usize = 0;
        while i < applications.len()
            invariant
                i <= applications@.len(),
                forall|j: int|
                    0 <= j < i ==> !contains_ignoring_case(
                        self@.excluded_applications,
                        application_name(#[trigger] applications@[j]@),
                    ),
            decreases applications@.len() - i,
        {
            if self.notification_excludes_application(Some(applications[i])) {
                return true;
            }
            i += 1;
        }
        false
    }

    pub fn compact(&self) -> (r: bool)
        ensures
            r == self@.compact,
    {
        self.compact
    }

    pub fn scrollback_lines(&self) -> (r: usize)
        ensures
            r == self@.scrollback_lines,
    {
        self.scrollback_lines
    }

    /// The session manager action `key` triggers: the first in table order it matches.
    pub fn session_manager_action(&self, key: &str, editing: bool) -> (r: Option<&str>)
        ensures
            match r {
                Some(a) => exists|i: int|
                    0 <= i < self@.session_manager.len() && manager_key_matches(
                        #[trigger] self@.session_manager[i],
                        key@,
                        editing,
                    ) && self@.session_manager[i].0 == a@ && forall|j: int|
                        0 <= j < i ==> !manager_key_matches(self@.session_manager[j], key@, editing),
                None => forall|i: int|
                    0 <= i < self@.session_manager.len() ==> !manager_key_matches(
                        #[trigger] self@.session_manager[i],
                        key@,
                        editing,
                    ),
            },
    {
        let ghost t = self@.session_manager;
        let single = key.unicode_len() == 1;
        let mut i: usize = 0;
        while i < self.session_manager.len()
            invariant
                i <= self.session_manager@.len(),
                t == manager_view(self.session_manager@),
                single == (key@.len() == 1),
                forall|j: int| 0 <= j < i ==> !manager_key_matches(t[j], key@, editing),
            decreases self.session_manager@.len() - i,
        {
            let action = self.session_manager[i].0.as_str();
            assert(t[i as int] == (action@, string_views(self.session_manager@[i as int].1@)));
            let accepts_text = same_text(action, "cancel") || same_text(action, "open") || same_text(
                action,
                "backspace",
            );
            if strings_contain(&self.session_manager[i].1, key) && (!editing || !single || accepts_text) {
                assert(self@.session_manager == t);
                assert(manager_key_matches(self@.session_manager[i as int], key@, editing));
                assert(self@.session_manager[i as int].0 == action@);
                assert(forall|j: int| 0 <= j < i ==> !manager_key_matches(self@.session_manager[j], key@, editing));
                return Some(action);
            }
            i += 1;
        }
        None
    }

    /// A copy of the session manager's keys, by action.
    pub fn session_manager_keys(&self) -> (r: Vec<(String, Vec<String>)>)
        ensures
            manager_view(r@) == self@.session_manager,
    {
        let mut out: Vec<(String, Vec<String>)> = Vec::new();
        let mut i: usize = 0;
        while i < self.session_manager.len()
            invariant
                i <= self.session_manager@.len(),
                manager_view(out@) == manager_view(self.session_manager@).take(i as int),
            decreases self.session_manager@.len() - i,
        {
            let keys = &self.session_manager[i].1;
            let mut copy: Vec<String> = Vec::new();
            let mut k: usize = 0;
            while k < keys.len()
                invariant
                    k <= keys@.len(),
                    string_views(copy@) == string_views(keys@).take(k as int),
                decreases keys@.len() - k,
            {
                let ghost before = copy@;
                copy.push(keys[k].clone());
                assert(string_views(copy@) =~= string_views(before).push(keys@[k as int]@));
                assert(string_views(keys@).take(k + 1) =~= string_views(keys@).take(k as int).push(
                    keys@[k as int]@,
                ));
                k += 1;
            }
            assert(string_views(keys@).take(k as int) =~= string_views(keys@));
            let ghost before = out@;
            out.push((self.session_manager[i].0.clone(), copy));
            assert(manager_view(out@) =~= manager_view(before).push(
                (self.session_manager@[i as int].0@, string_views(keys@)),
            ));
            assert(manager_view(self.session_manager@).take(i + 1) =~= manager_view(self.session_manager@).take(
                i as int,
            ).push((self.session_manager@[i as int].0@, string_views(keys@))));
            i += 1;
        }
        assert(manager_view(self.session_manager@).take(i as int) =~= manager_view(self.session_manager@));
        out
    }

    fn describe(&self, mode: &str, help: bool) -> (r: Vec<String>)
        ensures
            string_views(r@) == describe_spec(self@, mode@, help),
    {
        let mut out: Vec<String> = Vec::new();
        assert(string_views(out@) =~= Seq::<Seq<char>>::empty());
        let ghost mv = self@.bindings;
        let i = find_entry(&self.bindings, mode);
        assert(entry_names(mv) =~= text_keys(self.bindings@));
        if i == self.bindings.len() {
            return out;
        }
        let table = &self.bindings[i].1;
        let ghost tv = table_view(table@);
        let mut j: usize = 0;
        while j < table.len()
            invariant
                j <= table@.len(),
                tv == table_view(table@),
                string_views(out@) == sort_texts(descriptions(tv.take(j as int), help)),
            decreases table@.len() - j,
        {
            let (key, binding) = (&table[j].0, &table[j].1);
            assert(tv.take(j + 1).drop_last() =~= tv.take(j as int));
            let listed = match binding.display {
                BindingDisplay::Always => true,
                BindingDisplay::Help => help,
                BindingDisplay::Hidden => false,
            };
            if listed {
                let mut text = key.clone();
                push_str(&mut text, "=");
                let labels = join_labels(&binding.actions);
                push_str(&mut text, labels.as_str());
                let ghost d = descriptions(tv.take(j as int), help).push(text@);
                assert(d.drop_last() =~= descriptions(tv.take(j as int), help));
                insert_sorted(&mut out, text);
            }
            j += 1;
        }
        assert(tv.take(j as int) =~= tv);
        out
    }

    /// The bindings of `mode` listed in the status line, as sorted `key=actions` texts.
    pub fn describe_status_mode(&self, mode: &str) -> (r: Vec<String>)
        ensures
            string_views(r@) == describe_spec(self@, mode@, false),
    {
        self.describe(mode, false)
    }

    /// The bindings of `mode` listed in help, as sorted `key=actions` texts.
    pub fn describe_help_mode(&self, mode: &str) -> (r: Vec<String>)
        ensures
            string_views(r@) == describe_spec(self@, mode@, true),
    {
        self.describe(mode, true)
    }
}


/// No text comes after one it is less than.
pub open spec fn texts_sorted(s: Seq<Seq<char>>) -> bool {
    forall|i: int, j: int| 0 <= i < j < s.len() ==> !text_lt(#[trigger] s[j], #[trigger] s[i])
}

proof fn lemma_lt_irreflexive(a: Seq<char>)
    ensures
        !text_lt(a, a),
    decreases a.len(),
{
    if a.len() > 0 {
        lemma_lt_irreflexive(a.drop_first());
    }
}

proof fn lemma_lt_total(a: Seq<char>, b: Seq<char>)
    ensures
        a == b || text_lt(a, b) || text_lt(b, a),
    decreases a.len(),
{
    if a.len() == 0 {
        if b.len() == 0 {
            assert(a =~= b);
        }
    } else if b.len() > 0 && a[0] == b[0] {
        lemma_lt_total(a.drop_first(), b.drop_first());
        let (ta, tb) = (a.drop_first(), b.drop_first());
        assert(ta.len() == a.len() - 1 && tb.len() == b.len() - 1);
        if ta == tb {
            assert(a.len() == b.len());
            assert(a =~= b) by {
                assert forall|i: int| 0 <= i < a.len() implies a[i] == b[i] by {
                    if i > 0 {
                        assert(a[i] == a.drop_first()[i - 1]);
                        assert(b[i] == b.drop_first()[i - 1]);
                    }
                }
            }
        } else if text_lt(ta, tb) {
            assert(text_lt(a, b));
        } else {
            assert(text_lt(b, a));
        }
    } else if b.len() > 0 {
        let (x, y) = (a[0], b[0]);
        assert(x != y);
        if (x as u32) == (y as u32) {
            vstd::utf8::char_u32_cast(x, x as u32);
            vstd::utf8::char_u32_cast(y, y as u32);
        }
    }
}

proof fn lemma_lt_trans(a: Seq<char>, b: Seq<char>, c: Seq<char>)
    requires
        text_lt(a, b),
        text_lt(b, c),
    ensures
        text_lt(a, c),
    decreases a.len(),
{
    if a.len() > 0 && a[0] == b[0] && b[0] == c[0] {
        lemma_lt_trans(a.drop_first(), b.drop_first(), c.drop_first());
    }
}

proof fn lemma_lt_asymmetric(a: Seq<char>, b: Seq<char>)
    requires
        text_lt(a, b),
    ensures
        !text_lt(b, a),
{
    if text_lt(b, a) {
        lemma_lt_trans(a, b, a);
        lemma_lt_irreflexive(a);
    }
}

proof fn lemma_lt_le_trans(x: Seq<char>, a: Seq<char>, b: Seq<char>)
    requires
        text_lt(x, a),
        !text_lt(b, a),
    ensures
        text_lt(x, b),
{
    lemma_lt_total(a, b);
    if a != b {
        lemma_lt_trans(x, a, b);
    }
}

proof fn lemma_sorted_slot(s: Seq<Seq<char>>, x: Seq<char>)
    requires
        texts_sorted(s),
    ensures
        sorted_slot(s, x) <= s.len(),
        forall|i: int| 0 <= i < sorted_slot(s, x) ==> !text_lt(x, #[trigger] s[i]),
        forall|i: int| sorted_slot(s, x) <= i < s.len() ==> text_lt(x, #[trigger] s[i]),
    decreases s.len(),
{
    if s.len() == 0 {
    } else if text_lt(x, s[0]) {
        assert forall|i: int| 0 <= i < s.len() implies text_lt(x, #[trigger] s[i]) by {
            if i > 0 {
                assert(!text_lt(s[i], s[0]));
                lemma_lt_le_trans(x, s[0], s[i]);
            }
        }
    } else {
        let t = s.drop_first();
        assert forall|i: int, j: int| 0 <= i < j < t.len() implies !text_lt(#[trigger] t[j], #[trigger] t[i]) by {
            assert(t[i] == s[i + 1] && t[j] == s[j + 1]);
        }
        lemma_sorted_slot(t, x);
        assert forall|i: int| 0 <= i < sorted_slot(s, x) implies !text_lt(x, #[trigger] s[i]) by {
            if i > 0 {
                assert(s[i] == t[i - 1]);
            }
        }
        assert forall|i: int| sorted_slot(s, x) <= i < s.len() implies text_lt(x, #[trigger] s[i]) by {
            assert(s[i] == t[i - 1]);
        }
    }
}

/// Sorting puts texts in ascending order and keeps every text, each as often
/// as it occurs.
pub proof fn lemma_sort_texts(texts: Seq<Seq<char>>)
    ensures
        texts_sorted(sort_texts(texts)),
        sort_texts(texts).to_multiset() == texts.to_multiset(),
    decreases texts.len(),
{
    if texts.len() == 0 {
        assert(sort_texts(texts) =~= texts);
    } else {
        let rest = texts.drop_last();
        let x = texts.last();
        let s = sort_texts(rest);
        lemma_sort_texts(rest);
        lemma_sorted_slot(s, x);
        let k = sorted_slot(s, x) as int;
        let n = s.insert(k, x);
        assert(n == sort_texts(texts));
        assert forall|i: int, j: int| 0 <= i < j < n.len() implies !text_lt(#[trigger] n[j], #[trigger] n[i]) by {
            if j < k {
                assert(n[i] == s[i] && n[j] == s[j]);
            } else if j == k {
                assert(n[i] == s[i] && n[j] == x);
            } else if i < k {
                assert(n[i] == s[i] && n[j] == s[j - 1]);
            } else if i == k {
                assert(n[i] == x && n[j] == s[j - 1]);
                assert(text_lt(x, s[j - 1]));
                lemma_lt_asymmetric(x, s[j - 1]);
            } else {
                assert(n[i] == s[i - 1] && n[j] == s[j - 1]);
            }
        }
        vstd::seq_lib::to_multiset_insert(s, k, x);
        vstd::seq_lib::to_multiset_build(rest, x);
        assert(rest.push(x) =~= texts);
    }
}

} // verus!
