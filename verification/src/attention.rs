//! Attention indicators: what a pane's output means for its bell marker, for
//! notifications about long-running commands, and for redrawing.
//! The pane's output is parsed elsewhere; this module decides on the facts.

use vstd::prelude::*;

use crate::app::string_views;
use crate::config::{application_name, contains_ignoring_case, contains_ignoring_case_exec, Config, ConfigModel};

verus! {

/// The attention state of one pane.
pub struct PaneAttention {
    /// The pane rang its bell (or finished a watched command) since it was last looked at.
    pub bell_pending: bool,
    /// The applications seen in the foreground while the current command runs.
    pub applications: Vec<String>,
}

pub struct AttentionModel {
    pub bell_pending: bool,
    pub applications: Seq<Seq<char>>,
}

impl View for PaneAttention {
    type V = AttentionModel;

    open spec fn view(&self) -> AttentionModel {
        AttentionModel { bell_pending: self.bell_pending, applications: string_views(self.applications@) }
    }
}

/// What one chunk of a pane's output brought.
pub struct OutputFacts {
    /// It rang the bell.
    pub bell: bool,
    /// A command began running that was not running before.
    pub command_started: bool,
    /// How long each command that finished ran, in milliseconds.
    pub completions_ms: Vec<u64>,
    /// The pane's text changed.
    pub terminal_changed: bool,
    /// Graphics commands were queued for the client.
    pub graphics_changed: bool,
    /// One of them transmits through shared memory.
    pub shared_memory_graphics: bool,
    /// The pane is the active one.
    pub active: bool,
    /// The pane floats above its tab.
    pub floating: bool,
    /// The pane belongs to the tab shown under the active pane.
    pub in_shown_tab: bool,
    /// A client is attached to receive notifications.
    pub client_attached: bool,
}

/// How the screen is brought up to date after the output.
#[derive(Clone, Copy, Debug, PartialEq, Eq, Structural)]
pub enum RedrawRequest {
    Nothing,
    /// Soon, together with other changes.
    Scheduled,
    /// At once: a shared-memory upload must reach the terminal promptly, with
    /// every older graphics command before it.
    Immediate,
}

/// What the server does after a chunk of a pane's output.
pub struct OutputActions {
    /// The durations, in milliseconds, of the finished commands to notify about, in order.
    pub notify_ms: Vec<u64>,
    pub redraw: RedrawRequest,
}

/// The finished commands worth a notification: those that ran at least the
/// configured number of seconds, unless notifications are off or an excluded
/// application was in the foreground.
pub open spec fn notified(
    config: ConfigModel,
    applications: Seq<Seq<char>>,
    completions: Seq<u64>,
) -> Seq<u64> {
    if !config.notifications_enabled || excluded(config, applications) {
        Seq::empty()
    } else {
        completions.filter(|d: u64| d >= config.command_duration_seconds * 1000)
    }
}

/// Whether one of the applications is excluded from notifications.
pub open spec fn excluded(config: ConfigModel, applications: Seq<Seq<char>>) -> bool {
    exists|i: int|
        0 <= i < applications.len() && contains_ignoring_case(
            config.excluded_applications,
            application_name(#[trigger] applications[i]),
        )
}

/// A command that starts forgets the applications seen during the last one;
/// finished commands are checked against what remains, and then forgotten too.
/// The bell marker is set by a bell, or by a notification sent to a client.
/// A changed marker, or visible changes, ask for a redraw.
pub open spec fn output_step_spec(
    m: AttentionModel,
    config: ConfigModel,
    bell: bool,
    command_started: bool,
    completions: Seq<u64>,
    changed: bool,
    shared_memory: bool,
    visible: bool,
    client_attached: bool,
) -> (AttentionModel, Seq<u64>, RedrawRequest) {
    let applications = if command_started {
        Seq::empty()
    } else {
        m.applications
    };
    let notify = notified(config, applications, completions);
    let bell_pending = m.bell_pending || bell || (client_attached && notify.len() > 0);
    let redraw = if bell_pending != m.bell_pending || (visible && changed) {
        if shared_memory {
            RedrawRequest::Immediate
        } else {
            RedrawRequest::Scheduled
        }
    } else {
        RedrawRequest::Nothing
    };
    (
        AttentionModel {
            bell_pending,
            applications: if completions.len() > 0 {
                Seq::empty()
            } else {
                applications
            },
        },
        notify,
        redraw,
    )
}

/// A pane is visible when it is active, or lies (not floating) in the shown tab.
pub open spec fn visible(active: bool, floating: bool, in_shown_tab: bool) -> bool {
    active || (!floating && in_shown_tab)
}

proof fn lemma_seconds(d: u64, s: u64)
    ensures
        (d / 1000 >= s) == (d >= s * 1000),
{
    assert((d / 1000 >= s) == (d >= s * 1000)) by (nonlinear_arith);
}

fn any_excluded(config: &Config, applications: &Vec<String>) -> (r: bool)
    ensures
        r == excluded(config@, string_views(applications@)),
{
    let ghost apps = string_views(applications@);
    let mut i: usize = 0;
    while i < applications.len()
        invariant
            i <= applications@.len(),
            apps == string_views(applications@),
            forall|j: int|
                0 <= j < i ==> !contains_ignoring_case(
                    config@.excluded_applications,
                    application_name(#[trigger] apps[j]),
                ),
        decreases applications@.len() - i,
    {
        if config.notification_excludes_application(Some(applications[i].as_str())) {
            assert(apps[i as int] == applications@[i as int]@);
            return true;
        }
        assert(apps[i as int] == applications@[i as int]@);
        i += 1;
    }
    false
}

impl PaneAttention {
    pub fn new() -> (r: Self)
        ensures
            r@.bell_pending == false,
            r@.applications == Seq::<Seq<char>>::empty(),
    {
        let r = PaneAttention { bell_pending: false, applications: Vec::new() };
        assert(r@.applications =~= Seq::<Seq<char>>::empty());
        r
    }

    /// Records an application seen in the foreground, once however it is capitalised.
    pub fn note_application(&mut self, name: String)
        ensures
            final(self)@.bell_pending == old(self)@.bell_pending,
            final(self)@.applications == if contains_ignoring_case(old(self)@.applications, name@) {
                old(self)@.applications
            } else {
                old(self)@.applications.push(name@)
            },
    {
        if !contains_ignoring_case_exec(&self.applications, name.as_str()) {
            let ghost before = self.applications@;
            self.applications.push(name);
            assert(string_views(self.applications@) =~= string_views(before).push(name@));
        }
    }

    /// Decides on a chunk of output: updates the bell marker and the observed
    /// applications, and says what to notify about and how to redraw.
    pub fn output_step(&mut self, config: &Config, facts: &OutputFacts) -> (r: OutputActions)
        ensures
            (final(self)@, r.notify_ms@, r.redraw) == output_step_spec(
                old(self)@,
                config@,
                facts.bell,
                facts.command_started,
                facts.completions_ms@,
                facts.terminal_changed || facts.graphics_changed,
                facts.shared_memory_graphics,
                visible(facts.active, facts.floating, facts.in_shown_tab),
                facts.client_attached,
            ),
    {
        let was_pending = self.bell_pending;
        if facts.command_started {
            self.applications = Vec::new();
            assert(string_views(self.applications@) =~= Seq::<Seq<char>>::empty());
        }
        let ghost apps = self@.applications;
        let mut notify: Vec<u64> = Vec::new();
        let ghost completions = facts.completions_ms@;
        match config.command_notification_seconds() {
            None => {},
            Some(seconds) => {
                if !any_excluded(config, &self.applications) {
                    let mut i: usize = 0;
                    while i < facts.completions_ms.len()
                        invariant
                            i <= completions.len(),
                            completions == facts.completions_ms@,
                            seconds == config@.command_duration_seconds,
                            notify@ == completions.take(i as int).filter(
                                |d: u64| d >= config@.command_duration_seconds * 1000,
                            ),
                        decreases completions.len() - i,
                    {
                        let d = facts.completions_ms[i];
                        proof {
                            lemma_seconds(d, seconds);
                            reveal_with_fuel(Seq::<u64>::filter, 1);
                            assert(completions.take(i + 1).drop_last() =~= completions.take(i as int));
                        }
                        if d / 1000 >= seconds {
                            notify.push(d);
                        }
                        i += 1;
                    }
                    assert(completions.take(completions.len() as int) =~= completions);
                }
            },
        }
        if facts.bell || (facts.client_attached && notify.len() > 0) {
            self.bell_pending = true;
        }
        if facts.completions_ms.len() > 0 {
            self.applications = Vec::new();
            assert(string_views(self.applications@) =~= Seq::<Seq<char>>::empty());
        }
        let visible = facts.active || (!facts.floating && facts.in_shown_tab);
        let redraw = if self.bell_pending != was_pending || (visible && (facts.terminal_changed
            || facts.graphics_changed)) {
            if facts.shared_memory_graphics {
                RedrawRequest::Immediate
            } else {
                RedrawRequest::Scheduled
            }
        } else {
            RedrawRequest::Nothing
        };
        OutputActions { notify_ms: notify, redraw }
    }
}

/// A pane's output never clears its bell marker; only looking at the pane does.
pub proof fn output_never_clears_the_bell(
    m: AttentionModel,
    config: ConfigModel,
    bell: bool,
    command_started: bool,
    completions: Seq<u64>,
    changed: bool,
    shared_memory: bool,
    visible: bool,
    client_attached: bool,
)
    requires
        m.bell_pending,
    ensures
        output_step_spec(m, config, bell, command_started, completions, changed, shared_memory, visible, client_attached).0.bell_pending,
{
}

/// With notifications off, nothing is ever notified, whatever ran how long.
pub proof fn disabled_notifications_stay_silent(
    m: AttentionModel,
    config: ConfigModel,
    bell: bool,
    command_started: bool,
    completions: Seq<u64>,
    changed: bool,
    shared_memory: bool,
    visible: bool,
    client_attached: bool,
)
    requires
        !config.notifications_enabled,
    ensures
        output_step_spec(m, config, bell, command_started, completions, changed, shared_memory, visible, client_attached).1
            == Seq::<u64>::empty(),
{
}

} // verus!
