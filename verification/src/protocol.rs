//! What a loop asks of its driver, and what the driver reports back.

use crate::failure::{ExchangeError, Failure};
use crate::interest::InterestSet;
use crate::readiness::Readiness;
use vstd::prelude::*;

verus! {

/// Which of a loop's sources an action is about.
#[derive(Clone, Copy, Debug, PartialEq, Eq, Structural)]
pub enum Source {
    /// The listening socket.
    Listener,
    /// The connection accepted or opened last.
    Connection,
}

/// The operation a loop wants performed next.
#[derive(Clone, Copy, Debug, PartialEq, Eq, Structural)]
pub enum Action {
    /// Register `source` with the poller.
    Register { source: Source, token: usize, interest: InterestSet },
    /// Change the interest the connection under `token` is registered with.
    Reregister { token: usize, interest: InterestSet },
    /// Take the connection under `token` out of the registry, then
    /// deregister it from the poller.
    Deregister { token: usize },
    /// Wait, with no timeout, until the poller has events.
    Poll,
    /// Accept one connection from the listener.
    Accept,
    /// Read once from the connection under `token` into what the receive
    /// buffer has left behind its first `offset` bytes.
    Read { token: usize, offset: usize },
    /// Write the whole payload once to the connection under `token`.
    Write { token: usize },
}

/// What came of the action a loop asked for.
#[derive(Debug)]
pub enum Input {
    /// A registration, reregistration or deregistration returned.
    Completed(Result<(), Failure>),
    /// The poller returned, with the events of this wakeup.
    Polled(Result<Vec<Readiness>, Failure>),
    /// The listener returned from an accept.
    Accepted(Result<(), Failure>),
    /// A read returned, with the number of bytes it stored.
    Read(Result<usize, Failure>),
    /// A write returned, with the number of bytes it took.
    Written(Result<usize, Failure>),
}

impl Action {
    /// Whether `input` reports on this action.
    pub open spec fn answered_by(self, input: Input) -> bool {
        match self {
            Action::Register { .. } | Action::Reregister { .. } | Action::Deregister { .. } => {
                input is Completed
            },
            Action::Poll => input is Polled,
            Action::Accept => input is Accepted,
            Action::Read { .. } => input is Read,
            Action::Write { .. } => input is Written,
        }
    }
}

/// How far a connection's exchange has come on the server.
#[derive(Clone, Copy, Debug, PartialEq, Eq, Structural)]
pub enum Phase {
    /// Registered; no byte has arrived.
    Accepted,
    /// Some bytes have arrived, fewer than expected.
    Reading,
    /// As many bytes as expected have arrived; the reply is due.
    ReadComplete,
    /// The reply was attempted and the transport was not ready for it.
    Writing,
}

impl Phase {
    /// Whether the connection still has to be read from.
    pub open spec fn awaits_data(self) -> bool {
        self == Phase::Accepted || self == Phase::Reading
    }
}

/// The state of one connection's exchange.
#[derive(Clone, Copy, Debug, PartialEq, Eq, Structural)]
pub struct Exchange {
    pub phase: Phase,
    /// The bytes accumulated in the receive buffer so far.
    pub bytes_read: usize,
}

impl Exchange {
    /// The count fits a receive buffer of `capacity` bytes and agrees with
    /// the phase, of a connection that is expected to deliver `expected`
    /// bytes: none has arrived of a connection that was only accepted, some
    /// but not all while it is being read, and all before the reply is due.
    pub open spec fn wf(self, expected: usize, capacity: usize) -> bool {
        &&& self.bytes_read <= capacity
        &&& match self.phase {
            Phase::Accepted => self.bytes_read == 0,
            Phase::Reading => 0 < self.bytes_read < expected,
            Phase::ReadComplete | Phase::Writing => self.bytes_read >= expected,
        }
    }
}

/// Where a loop stands after an input: it goes on, or it has returned.
pub enum Step<M> {
    /// The loop goes on; the machine says what it wants next.
    Continue(M),
    /// The loop has returned: with success once its exchange completed or
    /// the peer closed early, and with the first fatal error otherwise.
    Done(Result<(), ExchangeError>),
}

} // verus!
