//! Readiness events, and the batches a `mio` poller delivers them in.

use vstd::prelude::*;

verus! {

#[verifier::external_type_specification]
#[verifier::external_body]
pub struct ExMioEvents(mio::Events);

#[verifier::external_type_specification]
#[verifier::external_body]
pub struct ExMioEvent(mio::event::Event);

#[verifier::external_type_specification]
#[verifier::external_body]
pub struct ExMioEventIter<'a>(mio::event::Iter<'a>);

/// One readiness notification: the token of the source and which of the two
/// conditions hold for it.
#[derive(Clone, Copy, Debug, PartialEq, Eq, Structural)]
pub struct Readiness {
    pub token: usize,
    pub readable: bool,
    pub writable: bool,
}

impl Readiness {
    /// The notification as `(token, readable, writable)`.
    pub open spec fn triple(self) -> (usize, bool, bool) {
        (self.token, self.readable, self.writable)
    }
}

/// The notifications of a batch, each taken as `triple` does.
pub open spec fn triples(batch: Seq<Readiness>) -> Seq<(usize, bool, bool)> {
    batch.map_values(|readiness: Readiness| readiness.triple())
}

/// The events a `mio::Events` holds, in the order in which it yields them,
/// each as its token, `is_readable()` and `is_writable()`.
pub uninterp spec fn events_contents(events: mio::Events) -> Seq<(usize, bool, bool)>;

/// The events a `mio::event::Iter` has yet to yield, as `events_contents`
/// gives them.
pub uninterp spec fn iter_remaining(iter: mio::event::Iter<'_>) -> Seq<(usize, bool, bool)>;

/// `mio::Events::iter`: the iterator starts at the first event of the batch.
#[verifier::external_body]
fn events_iter<'a>(events: &'a mio::Events) -> (iter: mio::event::Iter<'a>)
    ensures
        iter_remaining(iter) == events_contents(*events),
{
    events.iter()
}

/// `Iterator::next` of `mio::event::Iter`, with `Event::token`,
/// `Event::is_readable` and `Event::is_writable` of the event it yields: the
/// first of the remaining events leaves the iterator, and an exhausted
/// iterator yields nothing and stays exhausted.
#[verifier::external_body]
fn next_event(iter: &mut mio::event::Iter<'_>) -> (event: Option<Readiness>)
    ensures
        match event {
            Some(readiness) => {
                &&& iter_remaining(*old(iter)).len() > 0
                &&& readiness.triple() == iter_remaining(*old(iter))[0]
                &&& iter_remaining(*final(iter)) == iter_remaining(*old(iter)).skip(1)
            },
            None => {
                &&& iter_remaining(*old(iter)).len() == 0
                &&& iter_remaining(*final(iter)).len() == 0
            },
        },
{
    iter.next().map(
        |event| Readiness {
            token: event.token().0,
            readable: event.is_readable(),
            writable: event.is_writable(),
        },
    )
}

/// The notifications of one poll, in the order in which the poller
/// delivered them.
pub fn collect_events(events: &mio::Events) -> (batch: Vec<Readiness>)
    ensures
        triples(batch@) == events_contents(*events),
{
    let mut batch: Vec<Readiness> = Vec::new();
    let mut iter = events_iter(events);
    loop
        invariant
            triples(batch@) + iter_remaining(iter) == events_contents(*events),
        ensures
            triples(batch@) == events_contents(*events),
        decreases iter_remaining(iter).len(),
    {
        let ghost before = batch@;
        let ghost rest = iter_remaining(iter);
        match next_event(&mut iter) {
            Some(readiness) => {
                batch.push(readiness);
                assert(triples(batch@) + iter_remaining(iter) =~= triples(before) + rest);
            },
            None => {
                assert(triples(batch@) + iter_remaining(iter) =~= triples(batch@));
                break ;
            },
        }
    }
    batch
}

} // verus!
