//! The tracing collaborator: a log of entry and exit events.

use vstd::prelude::*;
use crate::info::ParserInfo;

verus! {

/// What the engine reports about an invocation.
#[derive(Debug, PartialEq, Eq)]
pub enum TraceEvent<C> {
    /// The invocation is about to run.
    Entry { info: ParserInfo },
    /// The invocation has run.
    Exit { info: ParserInfo, success: bool, context: Option<C> },
}

/// Collects the events of a parse, or drops them when it is not enabled.
#[derive(Debug)]
pub struct Tracer<C> {
    /// Whether events are recorded.
    pub enabled: bool,
    /// The events recorded so far, oldest first.
    pub events: Vec<TraceEvent<C>>,
}

/// Whether the log `later` holds the events of `earlier` and then, possibly,
/// more.
pub open spec fn grown<C>(earlier: Seq<TraceEvent<C>>, later: Seq<TraceEvent<C>>) -> bool {
    &&& earlier.len() <= later.len()
    &&& forall|i: int| 0 <= i < earlier.len() ==> earlier[i] == later[i]
}

impl<C> Tracer<C> {
    /// The events on record once `event` has been reported.
    pub open spec fn after(&self, event: TraceEvent<C>) -> Seq<TraceEvent<C>> {
        if self.enabled {
            self.events@.push(event)
        } else {
            self.events@
        }
    }

    /// A tracer that records nothing.
    pub fn silent() -> (t: Self)
        ensures
            !t.enabled,
            t.events@ == Seq::<TraceEvent<C>>::empty(),
    {
        Tracer { enabled: false, events: Vec::new() }
    }

    /// A tracer that records every event.
    pub fn recording() -> (t: Self)
        ensures
            t.enabled,
            t.events@ == Seq::<TraceEvent<C>>::empty(),
    {
        Tracer { enabled: true, events: Vec::new() }
    }

    /// Reports `event`.
    pub fn report(&mut self, event: TraceEvent<C>)
        ensures
            final(self).enabled == old(self).enabled,
            final(self).events@ == old(self).after(event),
    {
        if self.enabled {
            self.events.push(event);
        }
    }
}

} // verus!
