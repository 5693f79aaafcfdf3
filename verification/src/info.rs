//! Values that identify an invocation and snapshot the stream position.

use vstd::prelude::*;

verus! {

/// Identifies one invocation in traces and error contexts.
#[derive(Clone, Copy, Debug, PartialEq, Eq)]
pub struct ParserInfo {
    /// The declared name of the parser.
    pub name: &'static str,
    /// Whether the body produces the full success/failure result itself.
    pub raw: bool,
}

/// What an invocation does to the stream position once its body returned.
#[derive(Clone, Copy, Debug, PartialEq, Eq, Structural)]
pub enum Policy {
    /// The position stays wherever the body left it.
    Plain,
    /// A failing invocation restores the position it started from.
    Rewind,
    /// The invocation restores the position it started from on either outcome.
    Peek,
}

impl Policy {
    /// Whether an invocation with this policy rewinds, given its outcome.
    pub open spec fn rewinds(self, success: bool) -> bool {
        match self {
            Policy::Plain => false,
            Policy::Rewind => !success,
            Policy::Peek => true,
        }
    }

    /// Computes [`Policy::rewinds`].
    pub fn must_rewind(self, success: bool) -> (r: bool)
        ensures
            r == self.rewinds(success),
    {
        match self {
            Policy::Plain => false,
            Policy::Rewind => !success,
            Policy::Peek => true,
        }
    }
}

/// A snapshot of a stream position, taken when an invocation starts.
///
/// A marker is neither `Copy` nor `Clone`: releasing it consumes it, and it
/// records whether it has been rewound to.
#[derive(Debug)]
pub struct Marker {
    pos: usize,
    rewound: bool,
}

impl Marker {
    /// The position this marker remembers.
    pub closed spec fn position(&self) -> nat {
        self.pos as nat
    }

    /// Whether the stream has been rewound to this marker.
    pub closed spec fn spent(&self) -> bool {
        self.rewound
    }

    /// A fresh marker for position `pos`.
    pub fn at(pos: usize) -> (m: Marker)
        ensures
            m.position() == pos,
            !m.spent(),
    {
        Marker { pos, rewound: false }
    }

    /// The remembered position.
    pub fn offset(&self) -> (r: usize)
        ensures
            r == self.position(),
    {
        self.pos
    }

    /// Whether the stream has been rewound to this marker.
    pub fn is_spent(&self) -> (r: bool)
        ensures
            r == self.spent(),
    {
        self.rewound
    }

    /// Records that the stream has been rewound to this marker.
    pub fn spend(&mut self)
        requires
            !old(self).spent(),
        ensures
            final(self).spent(),
            final(self).position() == old(self).position(),
    {
        self.rewound = true;
    }
}

} // verus!
