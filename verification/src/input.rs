//! The capability a token stream offers to the engine and the combinators.

use vstd::prelude::*;
use crate::info::{Marker, ParserInfo};

verus! {

/// A token: a value that can be copied out of the stream and compared.
pub trait Token: Copy {
    /// Whether two tokens are the same.
    fn same(&self, other: &Self) -> (r: bool)
        ensures
            r == (*self == *other),
    ;
}

impl Token for char {
    fn same(&self, other: &Self) -> (r: bool) {
        *self == *other
    }
}

impl Token for u8 {
    fn same(&self, other: &Self) -> (r: bool) {
        *self == *other
    }
}

/// A run of consecutive tokens of the stream `I`, as parsers and predicates
/// are handed it.
pub type Slice<I> = [<I as Input>::Token];

/// The tokens that a parser over the stream `I` has collected.
pub type Many<I> = Vec<<I as Input>::Token>;

/// A stream of tokens with a position, and the stack of markers that
/// running invocations hold on it.
///
/// The model of a stream is its whole token sequence, the position of the
/// next token, and the positions of the outstanding markers, the oldest
/// first.
pub trait Input: Sized {
    /// The unit the stream is made of.
    type Token: Token;

    /// The diagnostic value attached to a failure.
    type Context;

    /// Every token of the stream, consumed or not.
    spec fn tokens(&self) -> Seq<Self::Token>;

    /// The index of the next token.
    spec fn pos(&self) -> nat;

    /// The positions of the markers not yet released, the oldest first.
    spec fn marks(&self) -> Seq<nat>;

    /// The stream's invariant.
    spec fn wf(&self) -> bool;

    /// The context of a failure at position `at` of an invocation that
    /// started at position `from`.
    spec fn context_between(tokens: Seq<Self::Token>, from: nat, at: nat) -> Option<
        Self::Context,
    >;

    /// A well-formed stream's position lies within its tokens.
    proof fn wf_bounds(&self)
        requires
            self.wf(),
        ensures
            self.pos() <= self.tokens().len() <= usize::MAX,
    ;

    /// The number of tokens in the stream.
    fn len(&self) -> (n: usize)
        requires
            self.wf(),
        ensures
            n == self.tokens().len(),
    ;

    /// The index of the next token.
    fn position(&self) -> (n: usize)
        requires
            self.wf(),
        ensures
            n == self.pos(),
    ;

    /// The token at `index`.
    fn token(&self, index: usize) -> (t: Self::Token)
        requires
            self.wf(),
            index < self.tokens().len(),
        ensures
            t == self.tokens()[index as int],
    ;

    /// The tokens from `from` up to `to`.
    fn window(&self, from: usize, to: usize) -> (w: &[Self::Token])
        requires
            self.wf(),
            from <= to <= self.tokens().len(),
        ensures
            w@ == self.tokens().subrange(from as int, to as int),
    ;

    /// Consumes the next `n` tokens.
    fn advance(&mut self, n: usize)
        requires
            old(self).wf(),
            old(self).pos() + n <= old(self).tokens().len(),
        ensures
            final(self).wf(),
            final(self).tokens() == old(self).tokens(),
            final(self).marks() == old(self).marks(),
            final(self).pos() == old(self).pos() + n,
    ;

    /// Snapshots the position for the invocation `info`.
    fn mark(&mut self, info: &ParserInfo) -> (marker: Marker)
        requires
            old(self).wf(),
        ensures
            final(self).wf(),
            final(self).tokens() == old(self).tokens(),
            final(self).pos() == old(self).pos(),
            final(self).marks() == old(self).marks().push(old(self).pos()),
            marker.position() == old(self).pos(),
            !marker.spent(),
    ;

    /// Restores the position to the one `marker` remembers. The marker must
    /// be the most recent one not yet released, and not rewound to before.
    fn rewind_to(&mut self, marker: &mut Marker)
        requires
            old(self).wf(),
            !old(marker).spent(),
            old(self).marks().len() > 0,
            old(self).marks().last() == old(marker).position(),
        ensures
            final(self).wf(),
            final(self).tokens() == old(self).tokens(),
            final(self).marks() == old(self).marks(),
            final(self).pos() == old(marker).position(),
            final(marker).position() == old(marker).position(),
            final(marker).spent(),
    ;

    /// Describes the stream between `marker` and the current position.
    fn context(&self, marker: &Marker) -> (context: Option<Self::Context>)
        requires
            self.wf(),
            self.marks().len() > 0,
            self.marks().last() == marker.position(),
        ensures
            context == Self::context_between(self.tokens(), marker.position(), self.pos()),
    ;

    /// Releases `marker`, the most recent one not yet released, at the end of
    /// the invocation `info`. The position stays as it is.
    fn unmark(&mut self, info: &ParserInfo, success: bool, marker: Marker)
        requires
            old(self).wf(),
            old(self).marks().len() > 0,
            old(self).marks().last() == marker.position(),
        ensures
            final(self).wf(),
            final(self).tokens() == old(self).tokens(),
            final(self).pos() == old(self).pos(),
            final(self).marks() == old(self).marks().drop_last(),
    ;
}

} // verus!
