//! Live configuration reload: when to look at the config file again, whether
//! what was read differs from last time, and how a reloaded configuration
//! replaces the running one (a configuration that failed to load never does).
//! Reading the file and parsing it happen outside the library.

use vstd::prelude::*;

use crate::app::same_text;
use crate::config::{has_entry, Config, ConfigModel};

verus! {

/// How often the config file is looked at, in milliseconds.
pub const CONFIG_RELOAD_INTERVAL_MS: u64 = 500;

/// What reading the config file gave.
pub enum ConfigSnapshot {
    Missing,
    Contents(Vec<u8>),
    ReadError(String),
}

pub enum SnapshotModel {
    Missing,
    Contents(Seq<u8>),
    ReadError(Seq<char>),
}

impl View for ConfigSnapshot {
    type V = SnapshotModel;

    open spec fn view(&self) -> SnapshotModel {
        match self {
            ConfigSnapshot::Missing => SnapshotModel::Missing,
            ConfigSnapshot::Contents(c) => SnapshotModel::Contents(c@),
            ConfigSnapshot::ReadError(e) => SnapshotModel::ReadError(e@),
        }
    }
}

fn same_bytes(a: &[u8], b: &[u8]) -> (r: bool)
    ensures
        r == (a@ == b@),
{
    if a.len() != b.len() {
        return false;
    }
    let mut i: usize = 0;
    while i < a.len()
        invariant
            i <= a.len(),
            a@.len() == b@.len(),
            forall|j: int| 0 <= j < i ==> a@[j] == b@[j],
        decreases a.len() - i,
    {
        if a[i] != b[i] {
            return false;
        }
        i += 1;
    }
    assert(a@ =~= b@);
    true
}

/// Whether two reads of the config file gave the same result.
pub fn same_snapshot(a: &ConfigSnapshot, b: &ConfigSnapshot) -> (r: bool)
    ensures
        r == (a@ == b@),
{
    match (a, b) {
        (ConfigSnapshot::Missing, ConfigSnapshot::Missing) => true,
        (ConfigSnapshot::Contents(x), ConfigSnapshot::Contents(y)) => same_bytes(x.as_slice(), y.as_slice()),
        (ConfigSnapshot::ReadError(x), ConfigSnapshot::ReadError(y)) => same_text(x.as_str(), y.as_str()),
        _ => false,
    }
}

/// Watches the config file: it is looked at no more often than every
/// `CONFIG_RELOAD_INTERVAL_MS`, and reported only when what was read changed.
pub struct ConfigReloader {
    snapshot: ConfigSnapshot,
    next_check: u64,
}

impl ConfigReloader {
    /// What was read last.
    pub closed spec fn last(&self) -> SnapshotModel {
        self.snapshot@
    }

    /// The earliest time, in milliseconds, at which the file is looked at again.
    pub closed spec fn next_check(&self) -> u64 {
        self.next_check
    }

    /// Starts watching at time `now`, from what the file held then.
    pub fn new(snapshot: ConfigSnapshot, now: u64) -> (r: Self)
        requires
            now + CONFIG_RELOAD_INTERVAL_MS <= u64::MAX,
        ensures
            r.last() == snapshot@,
            r.next_check() == now + CONFIG_RELOAD_INTERVAL_MS,
    {
        ConfigReloader { snapshot, next_check: now + CONFIG_RELOAD_INTERVAL_MS }
    }

    /// Whether the file is to be read at time `now`; if so the next look is
    /// scheduled one interval after `now`.
    pub fn due(&mut self, now: u64) -> (r: bool)
        requires
            now + CONFIG_RELOAD_INTERVAL_MS <= u64::MAX,
        ensures
            r == (now >= old(self).next_check()),
            final(self).last() == old(self).last(),
            final(self).next_check() == if r {
                (now + CONFIG_RELOAD_INTERVAL_MS) as u64
            } else {
                old(self).next_check()
            },
    {
        if now < self.next_check {
            return false;
        }
        self.next_check = now + CONFIG_RELOAD_INTERVAL_MS;
        true
    }

    /// Takes what a read gave; reports whether it differs from the last read.
    pub fn observe(&mut self, snapshot: ConfigSnapshot) -> (changed: bool)
        ensures
            changed == (snapshot@ != old(self).last()),
            final(self).last() == snapshot@,
            final(self).next_check() == old(self).next_check(),
    {
        if same_snapshot(&snapshot, &self.snapshot) {
            return false;
        }
        self.snapshot = snapshot;
        true
    }

    /// What was read last, for parsing.
    pub fn snapshot(&self) -> (r: &ConfigSnapshot)
        ensures
            r@ == self.last(),
    {
        &self.snapshot
    }
}

/// What the running server does after a reload was attempted.
#[derive(Clone, Debug, PartialEq, Eq)]
pub enum ReloadOutcome {
    /// The new configuration did not load; the running one stays. The text
    /// is the reason, for a notification.
    Failed(String),
    /// The new configuration is in force.
    Applied {
        /// The current mode no longer exists and the default mode was entered.
        mode_reset: bool,
        /// That mode was scroll mode, so the active pane leaves its history.
        leave_scroll: bool,
        /// The compact setting changed, so windows are resized.
        compact_changed: bool,
        /// The help overlay's mode no longer exists and the overlay closes.
        help_closed: bool,
    },
}

pub open spec fn is_scroll(mode: Seq<char>) -> bool {
    mode == seq!['s', 'c', 'r', 'o', 'l', 'l']
}

/// A failed reload changes nothing. A loaded configuration replaces the
/// running one; a current mode it lacks gives way to its default mode
/// (leaving scroll mode when that was current and windows exist), and a help
/// overlay for a mode it lacks closes.
pub open spec fn reload_spec(
    config: ConfigModel,
    mode: Seq<char>,
    help: Option<Seq<char>>,
    windows: usize,
    loaded: Result<ConfigModel, Seq<char>>,
) -> (ConfigModel, Seq<char>, Option<Seq<char>>, Result<(bool, bool, bool, bool), Seq<char>>) {
    match loaded {
        Err(e) => (config, mode, help, Err(e)),
        Ok(new) => {
            let reset = !has_entry(new.bindings, mode);
            let help_closed = match help {
                Some(h) => !has_entry(new.bindings, h),
                None => false,
            };
            (
                new,
                if reset { new.default_mode } else { mode },
                if help_closed { None } else { help },
                Ok((reset, reset && is_scroll(mode) && windows > 0, config.compact != new.compact, help_closed)),
            )
        },
    }
}

pub open spec fn outcome_view(r: ReloadOutcome) -> Result<(bool, bool, bool, bool), Seq<char>> {
    match r {
        ReloadOutcome::Failed(e) => Err(e@),
        ReloadOutcome::Applied { mode_reset, leave_scroll, compact_changed, help_closed } => Ok(
            (mode_reset, leave_scroll, compact_changed, help_closed),
        ),
    }
}

pub open spec fn loaded_view(loaded: Result<Config, String>) -> Result<ConfigModel, Seq<char>> {
    match loaded {
        Ok(c) => Ok(c@),
        Err(e) => Err(e@),
    }
}

pub open spec fn help_view(help: Option<String>) -> Option<Seq<char>> {
    match help {
        Some(h) => Some(h@),
        None => None,
    }
}

fn is_scroll_mode(mode: &str) -> (r: bool)
    ensures
        r == is_scroll(mode@),
{
    proof {
        reveal_strlit("scroll");
        assert(seq!['s', 'c', 'r', 'o', 'l', 'l'] =~= "scroll"@);
    }
    same_text(mode, "scroll")
}

/// Puts a reloaded configuration in force, or keeps the running one when
/// loading failed.
pub fn apply_reload(
    config: &mut Config,
    mode: &mut String,
    help: &mut Option<String>,
    windows: usize,
    loaded: Result<Config, String>,
) -> (r: ReloadOutcome)
    ensures
        (final(config)@, final(mode)@, help_view(*final(help)), outcome_view(r)) == reload_spec(
            old(config)@,
            old(mode)@,
            help_view(*old(help)),
            windows,
            loaded_view(loaded),
        ),
{
    let new = match loaded {
        Err(e) => {
            return ReloadOutcome::Failed(e);
        },
        Ok(c) => c,
    };
    let compact_changed = config.compact() != new.compact();
    let mode_reset = !new.has_mode(mode.as_str());
    let leave_scroll = mode_reset && is_scroll_mode(mode.as_str()) && windows > 0;
    if mode_reset {
        *mode = new.default_mode().to_owned();
    }
    let help_closed = match help {
        Some(h) => !new.has_mode(h.as_str()),
        None => false,
    };
    if help_closed {
        *help = None;
    }
    *config = new;
    ReloadOutcome::Applied { mode_reset, leave_scroll, compact_changed, help_closed }
}

/// A reload that failed leaves the configuration, the mode and the help
/// overlay exactly as they were.
pub proof fn failed_reload_keeps_the_last_valid_config(
    config: ConfigModel,
    mode: Seq<char>,
    help: Option<Seq<char>>,
    windows: usize,
    error: Seq<char>,
)
    ensures
        reload_spec(config, mode, help, windows, Err(error)) == (config, mode, help, Err::<(bool, bool, bool, bool), Seq<char>>(error)),
{
}

/// After a successful reload the current mode exists in the new configuration,
/// whenever its default mode does.
pub proof fn reloaded_mode_exists(
    config: ConfigModel,
    mode: Seq<char>,
    help: Option<Seq<char>>,
    windows: usize,
    new: ConfigModel,
)
    requires
        has_entry(new.bindings, new.default_mode),
    ensures
        has_entry(new.bindings, reload_spec(config, mode, help, windows, Ok(new)).1),
        match reload_spec(config, mode, help, windows, Ok(new)).2 {
            Some(h) => has_entry(new.bindings, h),
            None => true,
        },
{
}

} // verus!
