//! The per-binding listener supervisor as a state machine.
//!
//! One supervisor owns one binding for the process lifetime.  The
//! surrounding application performs the network operations (bind,
//! accept, overlay connect) and feeds the outcome of each back in as an
//! event; the supervisor answers with the next action.  All the
//! decisions of the accept loop live here, verified: a failed overlay
//! connect discards only that one local connection and the listener
//! keeps accepting, while a bind or accept failure stops this
//! supervisor alone.

use vstd::prelude::*;

use crate::binding::Binding;

verus! {

/// Where a supervisor stands in its life cycle.
#[derive(Clone, Copy, Debug, PartialEq, Eq, Structural)]
pub enum Phase {
    /// The listener is not yet bound to the local address.
    Starting,
    /// The listener is bound; the next event is the outcome of an accept.
    Accepting,
    /// A local connection was accepted; the next event is the outcome of
    /// the overlay connect for it.
    AwaitingRemote,
    /// The supervisor has stopped and reacts to no further event.
    Stopped,
}

/// The outcome of the network operation the supervisor last asked for.
#[derive(Clone, Copy, Debug, PartialEq, Eq, Structural)]
pub enum Event {
    /// The listener bound to the local address.
    BindOk,
    /// The listener could not bind to the local address.
    BindFailed,
    /// A local connection was accepted.
    AcceptOk,
    /// The accept failed at the listener level.
    AcceptFailed,
    /// The overlay connect for the accepted connection succeeded.
    ConnectOk,
    /// The overlay connect for the accepted connection failed.
    ConnectFailed,
}

/// Why a supervisor stopped.
#[derive(Clone, Copy, Debug, PartialEq, Eq, Structural)]
pub enum StopReason {
    /// The listener could not bind: a startup-time configuration
    /// problem, fatal for the whole process.
    BindFailed,
    /// The accept loop hit an unrecoverable error: this supervisor ends
    /// and its failure becomes its result, while its siblings keep
    /// running.
    AcceptFailed,
}

/// What the application must do next for this supervisor.
pub enum Action {
    /// Wait for the next incoming local connection.
    Accept,
    /// Open an overlay stream to this host and port for the connection
    /// just accepted.
    Connect { host: String, port: u16 },
    /// Hand the accepted connection and the overlay stream to an
    /// independent forwarder task, then wait for the next incoming
    /// connection.
    SpawnAndAccept,
    /// Drop the accepted connection unanswered, then wait for the next
    /// incoming connection.
    DiscardAndAccept,
    /// Stop this supervisor for the given reason.
    Stop { reason: StopReason },
}

/// The event `e` is the outcome of the operation pending in phase `p`.
pub open spec fn event_fits(p: Phase, e: Event) -> bool {
    match p {
        Phase::Starting => e == Event::BindOk || e == Event::BindFailed,
        Phase::Accepting => e == Event::AcceptOk || e == Event::AcceptFailed,
        Phase::AwaitingRemote => e == Event::ConnectOk || e == Event::ConnectFailed,
        Phase::Stopped => false,
    }
}

/// The phase after taking event `e` in phase `p`.
pub open spec fn next_phase(p: Phase, e: Event) -> Phase {
    match (p, e) {
        (Phase::Starting, Event::BindOk) => Phase::Accepting,
        (Phase::Accepting, Event::AcceptOk) => Phase::AwaitingRemote,
        (Phase::AwaitingRemote, Event::ConnectOk) => Phase::Accepting,
        (Phase::AwaitingRemote, Event::ConnectFailed) => Phase::Accepting,
        _ => Phase::Stopped,
    }
}

/// One listener supervisor: a binding and the phase it stands in.
pub struct Supervisor {
    pub binding: Binding,
    pub phase: Phase,
}

impl Supervisor {
    /// A fresh supervisor for `binding`, about to bind its listener.
    pub fn new(binding: Binding) -> (r: Supervisor)
        ensures
            r.binding == binding,
            r.phase == Phase::Starting,
    {
        Supervisor { binding, phase: Phase::Starting }
    }

    /// Takes the outcome of the pending operation and answers with the
    /// next action.  The binding never changes; the phase moves as
    /// `next_phase` says.  In particular: a successful bind or a failed
    /// overlay connect both lead back to accepting, a `Connect` action
    /// names exactly this binding's remote address, and only a bind or
    /// accept failure stops the supervisor.
    pub fn step(&mut self, event: Event) -> (action: Action)
        requires
            event_fits(old(self).phase, event),
        ensures
            final(self).binding == old(self).binding,
            final(self).phase == next_phase(old(self).phase, event),
            event == Event::BindOk ==> action is Accept,
            event == Event::BindFailed ==> (action matches Action::Stop { reason }
                && reason == StopReason::BindFailed),
            event == Event::AcceptOk ==> (action matches Action::Connect { host, port }
                && host@ == old(self).binding.remote_host@ && port == old(
                self,
            ).binding.remote_port),
            event == Event::AcceptFailed ==> (action matches Action::Stop { reason }
                && reason == StopReason::AcceptFailed),
            event == Event::ConnectOk ==> action is SpawnAndAccept,
            event == Event::ConnectFailed ==> action is DiscardAndAccept,
    {
        match event {
            Event::BindOk => {
                self.phase = Phase::Accepting;
                Action::Accept
            },
            Event::BindFailed => {
                self.phase = Phase::Stopped;
                Action::Stop { reason: StopReason::BindFailed }
            },
            Event::AcceptOk => {
                self.phase = Phase::AwaitingRemote;
                Action::Connect {
                    host: self.binding.remote_host.clone(),
                    port: self.binding.remote_port,
                }
            },
            Event::AcceptFailed => {
                self.phase = Phase::Stopped;
                Action::Stop { reason: StopReason::AcceptFailed }
            },
            Event::ConnectOk => {
                self.phase = Phase::Accepting;
                Action::SpawnAndAccept
            },
            Event::ConnectFailed => {
                self.phase = Phase::Accepting;
                Action::DiscardAndAccept
            },
        }
    }
}

/// One fresh supervisor per binding, in the order the bindings were
/// given: binding `i` of the list is owned by supervisor `i` and by no
/// other, so no supervisor can connect to another binding's remote
/// address.
pub fn supervisors_for(bindings: &Vec<Binding>) -> (r: Vec<Supervisor>)
    ensures
        r@.len() == bindings@.len(),
        forall|i: int| 0 <= i < bindings@.len() ==> (#[trigger] r@[i]).binding == bindings@[i],
        forall|i: int| 0 <= i < bindings@.len() ==> (#[trigger] r@[i]).phase == Phase::Starting,
{
    let mut out: Vec<Supervisor> = Vec::new();
    let mut idx: usize = 0;
    while idx < bindings.len()
        invariant
            0 <= idx <= bindings@.len(),
            out@.len() == idx,
            forall|i: int| 0 <= i < idx ==> (#[trigger] out@[i]).binding == bindings@[i],
            forall|i: int| 0 <= i < idx ==> (#[trigger] out@[i]).phase == Phase::Starting,
        decreases bindings@.len() - idx,
    {
        let b = bindings[idx].duplicate();
        out.push(Supervisor { binding: b, phase: Phase::Starting });
        idx = idx + 1;
    }
    out
}

} // verus!
