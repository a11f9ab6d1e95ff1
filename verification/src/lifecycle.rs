//! The start/stop/status surface of one protocol service, and the accept
//! loop's decision rule. The host owns the handle; the threads, sockets
//! and sleeps live outside the library.

use vstd::prelude::*;

verus! {

/// Whether one protocol service is running. The host holds one of these
/// per protocol beside its join handle and shutdown flag.
pub struct ServiceState {
    /// True between a start that took effect and the matching stop.
    pub running: bool,
}

impl ServiceState {
    /// A stopped service.
    pub fn new() -> (st: ServiceState)
        ensures
            !st.running,
    {
        ServiceState { running: false }
    }

    /// Record a start request. A second start while one service runs is a
    /// no-op: the result says whether the caller must actually spawn a
    /// supervisor.
    pub fn start(&mut self) -> (spawn: bool)
        ensures
            final(self).running,
            spawn == !old(self).running,
    {
        let spawn = !self.running;
        self.running = true;
        spawn
    }

    /// Record a stop request; stopping twice is safe. The result says
    /// whether a running supervisor must be signalled and joined.
    pub fn stop(&mut self) -> (was_running: bool)
        ensures
            !final(self).running,
            was_running == old(self).running,
    {
        let was = self.running;
        self.running = false;
        was
    }

    /// Whether the service is running.
    pub fn status(&self) -> (r: bool)
        ensures
            r == self.running,
    {
        self.running
    }
}

/// What one accept attempt reported.
pub enum AcceptOutcome {
    /// A connection arrived.
    Conn,
    /// Nothing pending on the non-blocking listener.
    WouldBlock,
    /// Any other accept error.
    OtherError,
}

/// What the supervisor loop does next.
pub enum LoopStep {
    /// Hand the connection to a fresh handler and keep accepting.
    Spawn,
    /// Sleep briefly, then try again.
    SleepRetry,
    /// Leave the loop.
    Stop,
}

/// The supervisor's decision rule: the shutdown signal wins over
/// everything; a connection is handed out; an empty non-blocking accept
/// retries after a pause; any other error ends the loop.
pub fn accept_step(shutdown: bool, outcome: &AcceptOutcome) -> (r: LoopStep)
    ensures
        shutdown ==> r is Stop,
        !shutdown && outcome is Conn ==> r is Spawn,
        !shutdown && outcome is WouldBlock ==> r is SleepRetry,
        !shutdown && outcome is OtherError ==> r is Stop,
{
    if shutdown {
        LoopStep::Stop
    } else {
        match outcome {
            AcceptOutcome::Conn => LoopStep::Spawn,
            AcceptOutcome::WouldBlock => LoopStep::SleepRetry,
            AcceptOutcome::OtherError => LoopStep::Stop,
        }
    }
}

} // verus!
