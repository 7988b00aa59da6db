//! What a session server does with a control request: which pane it targets,
//! which requests are refused and why, the bytes a `send-keys` request writes,
//! and the text a listing prints. Carrying out the plan (spawning, writing,
//! capturing) happens outside the library.

use vstd::prelude::*;

use crate::config::decimal_text;
use crate::control::{send_keys_input, send_keys_spec, submits_command, texts, ControlCommand};
use crate::parser::{decimal, push_decimal};
use crate::text::{ascii_text, push_char, push_str};

verus! {

/// What the server knows of one pane when it plans a request.
#[derive(Clone, Copy, Debug, PartialEq, Eq, Structural)]
pub struct PaneSummary {
    pub id: usize,
    pub tab_id: usize,
    pub floating: bool,
    pub width: u16,
    pub height: u16,
}

/// The first position of a pane with this ID, or the number of panes.
pub open spec fn position_of(panes: Seq<PaneSummary>, id: usize) -> nat
    decreases panes.len(),
{
    if panes.len() == 0 {
        0
    } else if panes[0].id == id {
        0
    } else {
        1 + position_of(panes.drop_first(), id)
    }
}

proof fn lemma_position_of(panes: Seq<PaneSummary>, id: usize)
    ensures
        position_of(panes, id) <= panes.len(),
        position_of(panes, id) < panes.len() ==> panes[position_of(panes, id) as int].id == id,
        forall|j: int| 0 <= j < position_of(panes, id) ==> panes[j].id != id,
    decreases panes.len(),
{
    if panes.len() > 0 && panes[0].id != id {
        lemma_position_of(panes.drop_first(), id);
        assert forall|j: int| 0 <= j < position_of(panes, id) implies panes[j].id != id by {
            if j > 0 {
                assert(panes[j] == panes.drop_first()[j - 1]);
            }
        }
    }
}

/// The pane a request targets: the pane with the given ID, or the active pane.
pub open spec fn pane_index_spec(panes: Seq<PaneSummary>, active: usize, id: Option<usize>) -> Result<usize, Seq<char>> {
    match id {
        Some(i) => if position_of(panes, i) < panes.len() {
            Ok(position_of(panes, i) as usize)
        } else {
            Err("pane "@ + decimal_text(i as nat) + " does not exist"@)
        },
        None => if panes.len() > 0 {
            Ok(active)
        } else {
            Err("session has no panes"@)
        },
    }
}

fn number_text(n: usize) -> (r: String)
    ensures
        r@ == decimal_text(n as nat),
{
    let mut digits: Vec<u8> = Vec::new();
    push_decimal(&mut digits, n);
    assert(digits@ =~= decimal(n as nat));
    ascii_text(&digits)
}

/// Finds the pane a request targets.
pub fn pane_index(panes: &[PaneSummary], active: usize, id: Option<usize>) -> (r: Result<usize, String>)
    ensures
        match r {
            Ok(k) => pane_index_spec(panes@, active, id) == Ok::<usize, Seq<char>>(k),
            Err(e) => pane_index_spec(panes@, active, id) == Err::<usize, Seq<char>>(e@),
        },
{
    match id {
        None => {
            if panes.len() > 0 {
                Ok(active)
            } else {
                Err("session has no panes".to_owned())
            }
        },
        Some(wanted) => {
            proof {
                lemma_position_of(panes@, wanted);
            }
            let mut i: usize = 0;
            while i < panes.len()
                invariant
                    id == Some(wanted),
                    i <= panes@.len(),
                    i <= position_of(panes@, wanted),
                    position_of(panes@, wanted) <= panes@.len(),
                    position_of(panes@, wanted) < panes@.len() ==> panes@[position_of(panes@, wanted) as int].id == wanted,
                    forall|j: int| 0 <= j < position_of(panes@, wanted) ==> panes@[j].id != wanted,
                decreases panes@.len() - i,
            {
                if panes[i].id == wanted {
                    assert(i as nat == position_of(panes@, wanted)) by {
                        if (i as nat) < position_of(panes@, wanted) {
                            assert(panes@[i as int].id != wanted);
                        }
                    }
                    return Ok(i);
                }
                i += 1;
            }
            let mut message = "pane ".to_owned();
            let digits = number_text(wanted);
            push_str(&mut message, digits.as_str());
            push_str(&mut message, " does not exist");
            Err(message)
        },
    }
}

/// What the server is to do for a request.
pub enum ControlPlan {
    /// Print the panes, as a table or as TOML.
    ListPanes { toml: bool },
    /// Create a window, naming its tab when a name is given.
    NewWindow { name: Option<String> },
    /// Split the pane at this index, below or to the right.
    Split { index: usize, down: bool },
    /// Write these bytes to the pane at this index; `submitted` when they end
    /// a command line, so the pane starts watching a new command.
    SendKeys { index: usize, bytes: Vec<u8>, submitted: bool },
    /// Print the pane's screen, or its whole history.
    Capture { index: usize, history: bool },
    /// Move the pane at `index` beside the pane at `destination`.
    Join { index: usize, destination: usize, down: bool },
    /// Move the pane at `index` into a window of its own.
    Break { index: usize, name: Option<String> },
    /// Save the session now.
    Save,
}

pub enum PlanModel {
    ListPanes { toml: bool },
    NewWindow { name: Option<Seq<char>> },
    Split { index: usize, down: bool },
    SendKeys { index: usize, bytes: Seq<u8>, submitted: bool },
    Capture { index: usize, history: bool },
    Join { index: usize, destination: usize, down: bool },
    Break { index: usize, name: Option<Seq<char>> },
    Save,
}

pub open spec fn name_view(n: Option<String>) -> Option<Seq<char>> {
    match n {
        Some(s) => Some(s@),
        None => None,
    }
}

pub open spec fn plan_view(p: ControlPlan) -> PlanModel {
    match p {
        ControlPlan::ListPanes { toml } => PlanModel::ListPanes { toml },
        ControlPlan::NewWindow { name } => PlanModel::NewWindow { name: name_view(name) },
        ControlPlan::Split { index, down } => PlanModel::Split { index, down },
        ControlPlan::SendKeys { index, bytes, submitted } => PlanModel::SendKeys { index, bytes: bytes@, submitted },
        ControlPlan::Capture { index, history } => PlanModel::Capture { index, history },
        ControlPlan::Join { index, destination, down } => PlanModel::Join { index, destination, down },
        ControlPlan::Break { index, name } => PlanModel::Break { index, name: name_view(name) },
        ControlPlan::Save => PlanModel::Save,
    }
}

/// Whether the bytes end a command line.
pub open spec fn submits(bytes: Seq<u8>) -> bool {
    exists|i: int| 0 <= i < bytes.len() && (bytes[i] == 0x0d || bytes[i] == 0x0a)
}

/// A request's plan. Floating panes cannot be split; a split needs at least
/// 6 rows (below) or 12 columns (to the right).
pub open spec fn control_spec(panes: Seq<PaneSummary>, active: usize, c: ControlCommand) -> Result<PlanModel, Seq<char>> {
    match c {
        ControlCommand::ListPanes { toml, .. } => Ok(PlanModel::ListPanes { toml }),
        ControlCommand::NewWindow { name, .. } => Ok(PlanModel::NewWindow { name: name_view(name) }),
        ControlCommand::SaveSession { .. } => Ok(PlanModel::Save),
        ControlCommand::SplitPane { target, down } => match pane_index_spec(panes, active, target.pane) {
            Err(e) => Err(e),
            Ok(k) => if panes[k as int].floating {
                Err("cannot split a floating pane"@)
            } else if (down && panes[k as int].height < 6) || (!down && panes[k as int].width < 12) {
                Err("not enough space to split this pane"@)
            } else {
                Ok(PlanModel::Split { index: k, down })
            },
        },
        ControlCommand::SendKeys { target, literal, enter, keys } => match pane_index_spec(panes, active, target.pane) {
            Err(e) => Err(e),
            Ok(k) => match send_keys_spec(literal, enter, texts(keys@)) {
                Err(e) => Err(e),
                Ok(b) => Ok(PlanModel::SendKeys { index: k, bytes: b, submitted: submits(b) }),
            },
        },
        ControlCommand::CapturePane { target, history } => match pane_index_spec(panes, active, target.pane) {
            Err(e) => Err(e),
            Ok(k) => Ok(PlanModel::Capture { index: k, history }),
        },
        ControlCommand::JoinPane { target, to_pane, down } => match pane_index_spec(panes, active, target.pane) {
            Err(e) => Err(e),
            Ok(k) => match pane_index_spec(panes, active, Some(to_pane)) {
                Err(e) => Err(e),
                Ok(d) => Ok(PlanModel::Join { index: k, destination: d, down }),
            },
        },
        ControlCommand::BreakPane { target, name } => match pane_index_spec(panes, active, target.pane) {
            Err(e) => Err(e),
            Ok(k) => Ok(PlanModel::Break { index: k, name: name_view(name) }),
        },
    }
}

fn copy_name(name: &Option<String>) -> (r: Option<String>)
    ensures
        name_view(r) == name_view(*name),
{
    match name {
        Some(s) => Some(s.clone()),
        None => None,
    }
}

/// Plans a control request against the session's panes; `active` is the
/// active pane's index and lies among them when there are any.
pub fn control_step(panes: &[PaneSummary], active: usize, command: &ControlCommand) -> (r: Result<ControlPlan, String>)
    requires
        panes@.len() > 0 ==> active < panes@.len(),
    ensures
        match r {
            Ok(p) => control_spec(panes@, active, *command) == Ok::<PlanModel, Seq<char>>(plan_view(p)),
            Err(e) => control_spec(panes@, active, *command) == Err::<PlanModel, Seq<char>>(e@),
        },
{
    match command {
        ControlCommand::ListPanes { toml, .. } => Ok(ControlPlan::ListPanes { toml: *toml }),
        ControlCommand::NewWindow { name, .. } => Ok(ControlPlan::NewWindow { name: copy_name(name) }),
        ControlCommand::SaveSession { .. } => Ok(ControlPlan::Save),
        ControlCommand::SplitPane { target, down } => {
            let k = pane_index(panes, active, target.pane)?;
            let pane = panes[k];
            if pane.floating {
                return Err("cannot split a floating pane".to_owned());
            }
            if (*down && pane.height < 6) || (!*down && pane.width < 12) {
                return Err("not enough space to split this pane".to_owned());
            }
            Ok(ControlPlan::Split { index: k, down: *down })
        },
        ControlCommand::SendKeys { target, literal, enter, keys } => {
            let k = pane_index(panes, active, target.pane)?;
            let bytes = send_keys_input(*literal, *enter, keys.as_slice())?;
            let submitted = submits_command(bytes.as_slice());
            Ok(ControlPlan::SendKeys { index: k, bytes, submitted })
        },
        ControlCommand::CapturePane { target, history } => {
            let k = pane_index(panes, active, target.pane)?;
            Ok(ControlPlan::Capture { index: k, history: *history })
        },
        ControlCommand::JoinPane { target, to_pane, down } => {
            let k = pane_index(panes, active, target.pane)?;
            let d = pane_index(panes, active, Some(*to_pane))?;
            Ok(ControlPlan::Join { index: k, destination: d, down: *down })
        },
        ControlCommand::BreakPane { target, name } => {
            let k = pane_index(panes, active, target.pane)?;
            Ok(ControlPlan::Break { index: k, name: copy_name(name) })
        },
    }
}

/// One row of a pane listing.
pub struct PaneListing {
    pub id: usize,
    /// The window's number, counting from 1 (0 when its tab is unknown).
    pub window: usize,
    pub title: String,
    /// The working directory as text, empty when unknown.
    pub cwd: String,
}

/// Tabs and line breaks become spaces, so each pane stays on one line of four columns.
pub open spec fn clean(text: Seq<char>) -> Seq<char> {
    text.map_values(|c: char| if c == '\t' || c == '\n' || c == '\r' { ' ' } else { c })
}

pub open spec fn listing_line(p: PaneListing) -> Seq<char> {
    decimal_text(p.id as nat) + "\t"@ + decimal_text(p.window as nat) + "\t"@ + clean(p.title@) + "\t"@ + clean(p.cwd@)
        + "\n"@
}

pub open spec fn listing_spec(panes: Seq<PaneListing>) -> Seq<char>
    decreases panes.len(),
{
    if panes.len() == 0 {
        Seq::empty()
    } else {
        listing_spec(panes.drop_last()) + listing_line(panes.last())
    }
}

fn push_clean(out: &mut String, text: &str)
    ensures
        final(out)@ == old(out)@ + clean(text@),
{
    let n = text.unicode_len();
    let mut i: usize = 0;
    while i < n
        invariant
            n == text@.len(),
            i <= n,
            out@ == old(out)@ + clean(text@.take(i as int)),
        decreases n - i,
    {
        let c = text.get_char(i);
        let d = if c == '\t' || c == '\n' || c == '\r' {
            ' '
        } else {
            c
        };
        push_char(out, d);
        assert(clean(text@.take(i + 1)) =~= clean(text@.take(i as int)).push(d));
        i += 1;
    }
    assert(text@.take(n as int) =~= text@);
}

/// The table `list-panes` prints: one line per pane with its ID, window
/// number, title and directory, separated by tabs.
pub fn pane_listing_text(panes: &[PaneListing]) -> (r: String)
    ensures
        r@ == listing_spec(panes@),
{
    let mut out = String::new();
    let mut i: usize = 0;
    while i < panes.len()
        invariant
            i <= panes@.len(),
            out@ == listing_spec(panes@.take(i as int)),
        decreases panes@.len() - i,
    {
        let p = &panes[i];
        let ghost before = out@;
        let id = number_text(p.id);
        push_str(&mut out, id.as_str());
        push_str(&mut out, "\t");
        let window = number_text(p.window);
        push_str(&mut out, window.as_str());
        push_str(&mut out, "\t");
        push_clean(&mut out, p.title.as_str());
        push_str(&mut out, "\t");
        push_clean(&mut out, p.cwd.as_str());
        push_str(&mut out, "\n");
        proof {
            assert(panes@.take(i + 1).drop_last() =~= panes@.take(i as int));
            assert(out@ =~= before + listing_line(panes@[i as int]));
        }
        i += 1;
    }
    assert(panes@.take(panes@.len() as int) =~= panes@);
    out
}

} // verus!
