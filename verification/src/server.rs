//! The decisions of the session server's event loop: how long to wait for the
//! next event, which descriptors to service and in what order, how many reads a
//! pane gets per tick, and when a client is detached or the server stops.
//! The loop itself (polling, reading, writing) runs outside the library and
//! hands each outcome back here.

use vstd::prelude::*;

verus! {

/// How long the server waits for an event when nothing is scheduled, in milliseconds.
pub const IDLE_POLL_MS: u16 = 100;

/// At most this many reads drain one pane in one tick, so a busy pane cannot
/// starve the others or the client.
pub const MAX_PTY_READS_PER_TICK: usize = 32;

/// The earliest of the scheduled deadlines, if any.
pub open spec fn earliest(deadlines: Seq<Option<u64>>) -> Option<u64>
    decreases deadlines.len(),
{
    if deadlines.len() == 0 {
        None
    } else {
        let rest = earliest(deadlines.drop_last());
        match deadlines.last() {
            None => rest,
            Some(d) => match rest {
                Some(e) => Some(if d < e { d } else { e }),
                None => Some(d),
            },
        }
    }
}

/// The poll timeout at time `now`: the time left until the earliest deadline,
/// at least 1 ms unless it has passed (then 0), at most `IDLE_POLL_MS`;
/// `IDLE_POLL_MS` when nothing is scheduled.
pub open spec fn poll_timeout_spec(deadlines: Seq<Option<u64>>, now: u64) -> u16 {
    match earliest(deadlines) {
        None => IDLE_POLL_MS,
        Some(d) => if d <= now {
            0
        } else if d - now >= IDLE_POLL_MS {
            IDLE_POLL_MS
        } else {
            (d - now) as u16
        },
    }
}

pub fn poll_timeout(deadlines: &[Option<u64>], now: u64) -> (r: u16)
    ensures
        r == poll_timeout_spec(deadlines@, now),
        r <= IDLE_POLL_MS,
{
    let mut best: Option<u64> = None;
    let mut i: usize = 0;
    while i < deadlines.len()
        invariant
            i <= deadlines.len(),
            best == earliest(deadlines@.take(i as int)),
        decreases deadlines.len() - i,
    {
        assert(deadlines@.take(i + 1).drop_last() =~= deadlines@.take(i as int));
        match deadlines[i] {
            None => {},
            Some(d) => {
                best = match best {
                    Some(e) => Some(if d < e { d } else { e }),
                    None => Some(d),
                };
            },
        }
        i += 1;
    }
    assert(deadlines@.take(deadlines.len() as int) =~= deadlines@);
    match best {
        None => IDLE_POLL_MS,
        Some(d) => {
            if d <= now {
                0
            } else if d - now >= 100 {
                IDLE_POLL_MS
            } else {
                (d - now) as u16
            }
        },
    }
}

/// What polling reported for one descriptor.
#[derive(Clone, Copy, Debug, PartialEq, Eq, Structural)]
pub struct PollEvent {
    pub readable: bool,
    pub hangup: bool,
    pub error: bool,
}

/// One thing the loop does after a poll, in the order given.
#[derive(Clone, Copy, Debug, PartialEq, Eq, Structural)]
pub enum TickAction {
    /// Drain the pane at this index (up to `MAX_PTY_READS_PER_TICK` reads).
    ReadPane(usize),
    /// Collect exited children.
    ReapChildren,
    /// Read the attached client's messages.
    ReadClient,
    /// Drop the attached client, if one is still attached.
    DetachClient,
    /// Accept a waiting connection.
    Accept,
}

/// The panes to drain: those readable or hung up, in index order.
pub open spec fn pane_actions(panes: Seq<PollEvent>) -> Seq<TickAction>
    decreases panes.len(),
{
    if panes.len() == 0 {
        Seq::empty()
    } else {
        let e = panes.last();
        pane_actions(panes.drop_last()) + if e.readable || e.hangup {
            seq![TickAction::ReadPane((panes.len() - 1) as usize)]
        } else {
            Seq::empty()
        }
    }
}

/// Panes first, then children are reaped, then the client's messages are read
/// and a hung-up or failed client is dropped, and last a new connection is accepted.
pub open spec fn tick_spec(listener_ready: bool, client: Option<PollEvent>, panes: Seq<PollEvent>) -> Seq<TickAction> {
    pane_actions(panes) + seq![TickAction::ReapChildren] + match client {
        None => Seq::empty(),
        Some(e) => (if e.readable {
            seq![TickAction::ReadClient]
        } else {
            Seq::empty()
        }) + (if e.hangup || e.error {
            seq![TickAction::DetachClient]
        } else {
            Seq::empty()
        }),
    } + if listener_ready {
        seq![TickAction::Accept]
    } else {
        Seq::empty()
    }
}

pub fn tick_actions(listener_ready: bool, client: Option<PollEvent>, panes: &[PollEvent]) -> (r: Vec<TickAction>)
    requires
        panes@.len() <= usize::MAX,
    ensures
        r@ == tick_spec(listener_ready, client, panes@),
{
    let mut out: Vec<TickAction> = Vec::new();
    let mut i: usize = 0;
    while i < panes.len()
        invariant
            i <= panes.len(),
            out@ == pane_actions(panes@.take(i as int)),
        decreases panes.len() - i,
    {
        assert(panes@.take(i + 1).drop_last() =~= panes@.take(i as int));
        let e = panes[i];
        if e.readable || e.hangup {
            out.push(TickAction::ReadPane(i));
        }
        proof {
            let t = panes@.take(i + 1);
            assert(t.last() == e);
            assert(out@ =~= pane_actions(panes@.take(i as int)) + if e.readable || e.hangup {
                seq![TickAction::ReadPane(i)]
            } else {
                Seq::empty()
            });
        }
        i += 1;
    }
    assert(panes@.take(panes.len() as int) =~= panes@);
    let ghost panes_part = out@;
    out.push(TickAction::ReapChildren);
    let ghost after_reap = out@;
    assert(after_reap =~= panes_part + seq![TickAction::ReapChildren]);
    match client {
        None => {},
        Some(e) => {
            if e.readable {
                out.push(TickAction::ReadClient);
            }
            if e.hangup || e.error {
                out.push(TickAction::DetachClient);
            }
        },
    }
    let ghost after_client = out@;
    assert(after_client =~= after_reap + match client {
        None => Seq::empty(),
        Some(e) => (if e.readable {
            seq![TickAction::ReadClient]
        } else {
            Seq::<TickAction>::empty()
        }) + (if e.hangup || e.error {
            seq![TickAction::DetachClient]
        } else {
            Seq::<TickAction>::empty()
        }),
    });
    if listener_ready {
        out.push(TickAction::Accept);
    }
    assert(out@ =~= after_client + if listener_ready {
        seq![TickAction::Accept]
    } else {
        Seq::<TickAction>::empty()
    });
    out
}

/// The outcome of one read from a pane.
#[derive(Clone, Copy, Debug, PartialEq, Eq, Structural)]
pub enum ReadOutcome {
    /// This many bytes were read (zero means end of file).
    Data(usize),
    /// The pane's terminal is gone (`EIO`).
    Closed,
    /// Nothing more is available now (`EAGAIN`).
    WouldBlock,
    /// Any other failure.
    Failed,
}

/// What the loop does with one read's outcome.
#[derive(Clone, Copy, Debug, PartialEq, Eq, Structural)]
pub enum ReadStep {
    /// Stop reading this pane for this tick.
    Stop,
    /// Process the bytes; read again only if `again`.
    Process { again: bool },
    /// Stop the server with the error.
    Fail,
}

/// After the `done`-th read of a tick (counting from 1): end of file, a closed
/// terminal or an empty queue stop the pane; bytes are processed and another read
/// follows while fewer than `MAX_PTY_READS_PER_TICK` were made; other errors fail.
pub open spec fn read_step_spec(done: usize, outcome: ReadOutcome) -> ReadStep {
    match outcome {
        ReadOutcome::Data(n) => if n == 0 {
            ReadStep::Stop
        } else {
            ReadStep::Process { again: done < MAX_PTY_READS_PER_TICK }
        },
        ReadOutcome::Closed => ReadStep::Stop,
        ReadOutcome::WouldBlock => ReadStep::Stop,
        ReadOutcome::Failed => ReadStep::Fail,
    }
}

pub fn read_step(done: usize, outcome: ReadOutcome) -> (r: ReadStep)
    ensures
        r == read_step_spec(done, outcome),
{
    match outcome {
        ReadOutcome::Data(n) => if n == 0 {
            ReadStep::Stop
        } else {
            ReadStep::Process { again: done < MAX_PTY_READS_PER_TICK }
        },
        ReadOutcome::Closed => ReadStep::Stop,
        ReadOutcome::WouldBlock => ReadStep::Stop,
        ReadOutcome::Failed => ReadStep::Fail,
    }
}

/// Whether a client is attached and the server still runs.
#[derive(Clone, Copy, Debug, PartialEq, Eq, Structural)]
pub struct ServerState {
    pub client_attached: bool,
    pub running: bool,
    pub windows: usize,
}

/// What the loop reports back to the server's decisions.
#[derive(Clone, Copy, Debug, PartialEq, Eq, Structural)]
pub enum ServerEvent {
    /// The client's messages were read: `Some(true)` go on, `Some(false)` the
    /// client asked the server to stop, `None` reading them failed.
    ClientMessages(Option<bool>),
    /// The client's descriptor hung up or failed.
    ClientHangup,
    /// A connection was taken: `Some(true)` go on, `Some(false)` it asked the
    /// server to stop, `None` it was malformed or vanished.
    Accepted(Option<bool>),
    /// A newly accepted client took over the session.
    ClientAttached,
    /// Decoded client input was handled: `false` means the client detached.
    InputHandled(bool),
    /// This many windows are left after children were reaped.
    WindowsLeft(usize),
}

/// What the server does in answer.
#[derive(Clone, Copy, Debug, PartialEq, Eq, Structural)]
pub enum ServerAction {
    Detach,
    Stop,
}

/// A failed or hung-up client is detached, never the whole server; a
/// malformed connection is ignored; an explicit request stops the server, as
/// does the last window closing.
pub open spec fn server_step_spec(s: ServerState, e: ServerEvent) -> (ServerState, Seq<ServerAction>) {
    if !s.running {
        (s, Seq::empty())
    } else {
        match e {
            ServerEvent::ClientMessages(Some(true)) => (s, Seq::empty()),
            ServerEvent::ClientMessages(Some(false)) => (ServerState { running: false, ..s }, seq![ServerAction::Stop]),
            ServerEvent::ClientMessages(None) => detach_spec(s),
            ServerEvent::ClientHangup => detach_spec(s),
            ServerEvent::Accepted(Some(true)) => (s, Seq::empty()),
            ServerEvent::Accepted(Some(false)) => (ServerState { running: false, ..s }, seq![ServerAction::Stop]),
            ServerEvent::Accepted(None) => (s, Seq::empty()),
            ServerEvent::ClientAttached => (ServerState { client_attached: true, ..s }, Seq::empty()),
            ServerEvent::InputHandled(true) => (s, Seq::empty()),
            ServerEvent::InputHandled(false) => detach_spec(s),
            ServerEvent::WindowsLeft(n) => if n == 0 {
                (ServerState { running: false, windows: 0, ..s }, seq![ServerAction::Stop])
            } else {
                (ServerState { windows: n, ..s }, Seq::empty())
            },
        }
    }
}

/// Dropping the client: only an attached one is dropped.
pub open spec fn detach_spec(s: ServerState) -> (ServerState, Seq<ServerAction>) {
    if s.client_attached {
        (ServerState { client_attached: false, ..s }, seq![ServerAction::Detach])
    } else {
        (s, Seq::empty())
    }
}

fn detach(state: &mut ServerState) -> (r: Vec<ServerAction>)
    ensures
        (*final(state), r@) == detach_spec(*old(state)),
{
    if state.client_attached {
        state.client_attached = false;
        vec![ServerAction::Detach]
    } else {
        Vec::new()
    }
}

fn stop(state: &mut ServerState) -> (r: Vec<ServerAction>)
    ensures
        *final(state) == (ServerState { running: false, ..*old(state) }),
        r@ == seq![ServerAction::Stop],
{
    state.running = false;
    vec![ServerAction::Stop]
}

pub fn server_step(state: &mut ServerState, event: ServerEvent) -> (r: Vec<ServerAction>)
    ensures
        (*final(state), r@) == server_step_spec(*old(state), event),
{
    if !state.running {
        return Vec::new();
    }
    match event {
        ServerEvent::ClientMessages(Some(true)) => Vec::new(),
        ServerEvent::ClientMessages(Some(false)) => stop(state),
        ServerEvent::ClientMessages(None) => detach(state),
        ServerEvent::ClientHangup => detach(state),
        ServerEvent::Accepted(Some(true)) => Vec::new(),
        ServerEvent::Accepted(Some(false)) => stop(state),
        ServerEvent::Accepted(None) => Vec::new(),
        ServerEvent::ClientAttached => {
            state.client_attached = true;
            Vec::new()
        },
        ServerEvent::InputHandled(true) => Vec::new(),
        ServerEvent::InputHandled(false) => detach(state),
        ServerEvent::WindowsLeft(n) => {
            if n == 0 {
                state.windows = 0;
                stop(state)
            } else {
                state.windows = n;
                Vec::new()
            }
        },
    }
}

/// A stopped server answers nothing and stays stopped.
pub proof fn stopped_server_stays_stopped(s: ServerState, e: ServerEvent)
    requires
        !s.running,
    ensures
        server_step_spec(s, e) == (s, Seq::<ServerAction>::empty()),
{
}

/// No event of a client or a connection, other than an explicit request,
/// stops a running server: failures detach the client at most.
pub proof fn client_failures_never_stop_the_server(s: ServerState, e: ServerEvent)
    requires
        s.running,
        e != ServerEvent::ClientMessages(Some(false)),
        e != ServerEvent::Accepted(Some(false)),
        !(e is WindowsLeft),
    ensures
        server_step_spec(s, e).0.running,
        !server_step_spec(s, e).1.contains(ServerAction::Stop),
{
    assert(!Seq::<ServerAction>::empty().contains(ServerAction::Stop));
    assert(!seq![ServerAction::Detach].contains(ServerAction::Stop)) by {
        assert(seq![ServerAction::Detach][0] != ServerAction::Stop);
    }
}

} // verus!
