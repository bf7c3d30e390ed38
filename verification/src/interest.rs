//! Which readiness conditions a registration asks the poller to report.

use vstd::prelude::*;

verus! {

#[verifier::external_type_specification]
#[verifier::external_body]
pub struct ExMioInterest(mio::Interest);

/// Whether a `mio::Interest` includes readable readiness, and whether it
/// includes writable readiness, in that order.
pub uninterp spec fn interest_flags(interest: mio::Interest) -> (bool, bool);

/// `mio::Interest::READABLE`: readable readiness and not writable.
#[verifier::external_body]
fn readable_interest() -> (interest: mio::Interest)
    ensures
        interest_flags(interest) == (true, false),
{
    mio::Interest::READABLE
}

/// `mio::Interest::WRITABLE`: writable readiness and not readable.
#[verifier::external_body]
fn writeable_interest() -> (interest: mio::Interest)
    ensures
        interest_flags(interest) == (false, true),
{
    mio::Interest::WRITABLE
}

/// `mio::Interest::add` with `mio::Interest::READABLE`: the result includes
/// readable readiness, and writable readiness exactly if `interest` did.
#[verifier::external_body]
fn add_readable_to_interest(interest: mio::Interest) -> (both: mio::Interest)
    ensures
        interest_flags(both) == (true, interest_flags(interest).1),
{
    interest.add(mio::Interest::READABLE)
}

/// A non-empty set of the two readiness conditions.
#[derive(Clone, Copy, Debug, PartialEq, Eq, Structural)]
pub enum InterestSet {
    Readable,
    Writable,
    Both,
}

impl InterestSet {
    pub open spec fn readable(self) -> bool {
        self != InterestSet::Writable
    }

    pub open spec fn writable(self) -> bool {
        self != InterestSet::Readable
    }

    /// Whether the poller is asked to report that the source can be read.
    pub fn is_readable(self) -> (readable: bool)
        ensures
            readable == self.readable(),
    {
        match self {
            InterestSet::Writable => false,
            _ => true,
        }
    }

    /// Whether the poller is asked to report that the source can be written.
    pub fn is_writable(self) -> (writable: bool)
        ensures
            writable == self.writable(),
    {
        match self {
            InterestSet::Readable => false,
            _ => true,
        }
    }

    /// The interest to register with a `mio` registry.
    pub fn to_mio(self) -> (interest: mio::Interest)
        ensures
            interest_flags(interest) == (self.readable(), self.writable()),
    {
        match self {
            InterestSet::Readable => readable_interest(),
            InterestSet::Writable => writeable_interest(),
            InterestSet::Both => add_readable_to_interest(writeable_interest()),
        }
    }
}

} // verus!
