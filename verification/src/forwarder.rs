//! The per-destination forwarder: a connection lifecycle of connect,
//! stream, detect failure, back off, discard the backlog, reconnect. The
//! decisions live here, verified; the runner performs the returned action
//! (connect, write, sleep) and feeds the outcome back as the next event.

use vstd::prelude::*;

verus! {

/// Seconds a forwarder waits after a connect or write failure before it
/// drains its queue and retries connecting.
pub const BACKOFF_SECS: u64 = 5;

/// Connection state of one destination.
#[derive(PartialEq, Eq, Structural, Clone, Copy, Debug)]
pub enum FwdState {
    /// No outbound connection; the next step is a connect attempt.
    Disconnected,
    /// An outbound connection is open and messages are being streamed.
    Connected,
}

/// What the runner observed while performing the previous action.
#[derive(PartialEq, Eq, Structural, Clone, Copy, Debug)]
pub enum FwdEvent {
    /// The connect attempt succeeded.
    ConnectOk,
    /// The connect attempt failed.
    ConnectFailed,
    /// One dequeued message was written to the socket in full.
    WriteOk,
    /// Writing a message failed; the connection is broken.
    WriteFailed,
}

/// What the runner must do next.
#[derive(PartialEq, Eq, Structural, Clone, Copy, Debug)]
pub enum FwdAction {
    /// Dequeue one stamped message, blocking while the queue is empty, and
    /// write it in full to the socket.
    Forward,
    /// Close the socket if one is open, wait the fixed backoff, drain and
    /// discard every message that queued during the outage, then attempt to
    /// reconnect.
    BackoffDrainReconnect,
}

/// Which events can be observed in which state: connect outcomes while
/// disconnected, write outcomes while connected.
pub open spec fn event_fits(s: FwdState, e: FwdEvent) -> bool {
    match e {
        FwdEvent::ConnectOk => s == FwdState::Disconnected,
        FwdEvent::ConnectFailed => s == FwdState::Disconnected,
        FwdEvent::WriteOk => s == FwdState::Connected,
        FwdEvent::WriteFailed => s == FwdState::Connected,
    }
}

/// The transition table of the forwarder lifecycle: a connect failure backs
/// off and retries indefinitely; a write failure tears the connection down,
/// backs off, discards the backlog and reconnects; successes keep
/// streaming.
pub open spec fn fwd_transition(s: FwdState, e: FwdEvent) -> (FwdState, FwdAction) {
    match e {
        FwdEvent::ConnectOk => (FwdState::Connected, FwdAction::Forward),
        FwdEvent::ConnectFailed => (FwdState::Disconnected, FwdAction::BackoffDrainReconnect),
        FwdEvent::WriteOk => (FwdState::Connected, FwdAction::Forward),
        FwdEvent::WriteFailed => (FwdState::Disconnected, FwdAction::BackoffDrainReconnect),
    }
}

/// One destination's forwarder: its connection state. Created once at
/// startup and never destroyed; only the state cycles.
pub struct Forwarder {
    /// Current connection state.
    pub state: FwdState,
}

impl Forwarder {
    /// A forwarder starts disconnected; its first action is a connect
    /// attempt.
    pub fn new() -> (f: Forwarder)
        ensures
            f.state == FwdState::Disconnected,
    {
        Forwarder { state: FwdState::Disconnected }
    }

    /// Take one step of the lifecycle: absorb the outcome of the previous
    /// action and say what to do next, exactly as the transition table
    /// states.
    pub fn step(&mut self, e: FwdEvent) -> (a: FwdAction)
        requires
            event_fits(old(self).state, e),
        ensures
            (final(self).state, a) == fwd_transition(old(self).state, e),
    {
        match e {
            FwdEvent::ConnectOk => {
                self.state = FwdState::Connected;
                FwdAction::Forward
            },
            FwdEvent::ConnectFailed => {
                self.state = FwdState::Disconnected;
                FwdAction::BackoffDrainReconnect
            },
            FwdEvent::WriteOk => {
                self.state = FwdState::Connected;
                FwdAction::Forward
            },
            FwdEvent::WriteFailed => {
                self.state = FwdState::Disconnected;
                FwdAction::BackoffDrainReconnect
            },
        }
    }

    /// Discard-on-reconnect: the messages that queued during the outage are
    /// dropped, never delivered, and the count reported for observability
    /// equals exactly the number of messages discarded.
    pub fn discard_backlog(&self, backlog: Vec<Vec<u8>>) -> (n: usize)
        requires
            self.state == FwdState::Disconnected,
        ensures
            n == backlog@.len(),
    {
        backlog.len()
    }
}

} // verus!
