//! Progress reporting plumbing.
//!
//! A driver installs a [`Sink`] into a [`ProgressChannel`] with [`install`].
//! Compilation and export code then calls [`report`] at known milestones.
//! When no sink is installed, [`report`] does nothing.

use vstd::prelude::*;

verus! {

/// A milestone during compilation or export.
#[derive(Clone, Copy, Debug)]
pub enum Event {
    /// A named stage has just begun.
    Stage(&'static str),
    /// A new convergence/layout iteration has started (1-based).
    Iteration(u32),
    /// Layout has converged; total pages are now known.
    Pages(usize),
    /// A single page has been emitted during export.
    PageEmitted { done: usize, total: usize },
    /// Output has been fully written to disk.
    Wrote { bytes: u64 },
}

/// Destination for progress events.
pub trait Sink {
    fn report(&self, event: Event);
}

/// Where progress events go: the installed sink, if any.
pub struct ProgressChannel<S> {
    sink: Option<S>,
    delivered: Ghost<Seq<Event>>,
}

impl<S> ProgressChannel<S> {
    /// The installed sink.
    pub closed spec fn installed(&self) -> Option<S> {
        self.sink
    }

    /// The events that [`report`] has passed to the installed sink since it
    /// was installed, in order. Each was passed by a call of the sink's
    /// `report`, as [`report`] states.
    pub closed spec fn delivered(&self) -> Seq<Event> {
        self.delivered@
    }

    /// A channel without a sink.
    pub fn new() -> (c: Self)
        ensures
            c.installed() is None,
            c.delivered() == Seq::<Event>::empty(),
    {
        ProgressChannel { sink: None, delivered: Ghost(Seq::empty()) }
    }
}

/// Install (or replace) the sink.
pub fn install<S: Sink>(channel: &mut ProgressChannel<S>, sink: S)
    ensures
        final(channel).installed() == Some(sink),
        final(channel).delivered() == Seq::<Event>::empty(),
{
    channel.sink = Some(sink);
    channel.delivered = Ghost(Seq::empty());
}

/// Remove the installed sink, if any.
pub fn clear<S: Sink>(channel: &mut ProgressChannel<S>)
    ensures
        final(channel).installed() is None,
        final(channel).delivered() == Seq::<Event>::empty(),
{
    channel.sink = None;
    channel.delivered = Ghost(Seq::empty());
}

/// Forward an event to the installed sink, if any.
pub fn report<S: Sink>(channel: &mut ProgressChannel<S>, event: Event)
    ensures
        final(channel).installed() == old(channel).installed(),
        old(channel).installed() matches Some(s) ==> call_ensures(S::report, (&s, event), ()),
        old(channel).installed() is Some ==> final(channel).delivered() == old(
            channel,
        ).delivered().push(event),
        old(channel).installed() is None ==> final(channel).delivered() == old(channel).delivered(),
{
    match &channel.sink {
        Some(sink) => {
            sink.report(event);
            channel.delivered = Ghost(channel.delivered@.push(event));
        },
        None => {},
    }
}

} // verus!
