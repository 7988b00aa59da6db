//! The command line's session arguments: a session is named positionally or
//! with the older flag, and is called `default` when neither is given.

use vstd::prelude::*;
use std::path::PathBuf;

verus! {

pub open spec fn text_of(o: Option<String>) -> Option<Seq<char>> {
    match o {
        Some(s) => Some(s@),
        None => None,
    }
}

/// The positional name, else the flag's, else `default`.
pub open spec fn chosen_name(name: Option<Seq<char>>, flag: Option<Seq<char>>) -> Seq<char> {
    match name {
        Some(n) => n,
        None => match flag {
            Some(f) => f,
            None => "default"@,
        },
    }
}

fn pick_name<'a>(name: &'a Option<String>, flag: &'a Option<String>) -> (r: &'a str)
    ensures
        r@ == chosen_name(text_of(*name), text_of(*flag)),
{
    match name {
        Some(n) => n.as_str(),
        None => match flag {
            Some(f) => f.as_str(),
            None => "default",
        },
    }
}

/// `new-session`: create or attach to a session.
pub struct NewSessionArgs {
    /// Create the session without attaching a terminal.
    pub detached: bool,
    /// Start from a project layout file.
    pub layout: Option<PathBuf>,
    pub name: Option<String>,
    /// The name given with `-s`/`--session`.
    pub session: Option<String>,
}

impl NewSessionArgs {
    pub fn name(&self) -> (r: &str)
        ensures
            r@ == chosen_name(text_of(self.name), text_of(self.session)),
    {
        pick_name(&self.name, &self.session)
    }
}

/// `attach`: attach to an existing session.
pub struct AttachArgs {
    pub name: Option<String>,
    /// Create the session when it does not exist.
    pub create: bool,
    /// The name given with `-t`/`--target`.
    pub target: Option<String>,
}

impl AttachArgs {
    pub fn name(&self) -> (r: &str)
        ensures
            r@ == chosen_name(text_of(self.name), text_of(self.target)),
    {
        pick_name(&self.name, &self.target)
    }
}

/// A command that acts on one session, such as `kill-session`.
pub struct TargetSessionArgs {
    pub name: Option<String>,
    /// The name given with `-t`/`--target`.
    pub target: Option<String>,
}

impl TargetSessionArgs {
    pub fn name(&self) -> (r: &str)
        ensures
            r@ == chosen_name(text_of(self.name), text_of(self.target)),
    {
        pick_name(&self.name, &self.target)
    }
}

} // verus!
