//! A stream over a vector of tokens held in memory.

use vstd::prelude::*;
use crate::info::{Marker, ParserInfo};
use crate::input::{Input, Token};

verus! {

/// The part of a stream an invocation had covered when it failed.
#[derive(Clone, Copy, Debug, PartialEq, Eq, Structural)]
pub struct Span {
    /// Where the invocation started.
    pub start: usize,
    /// Where it failed.
    pub end: usize,
}

/// A token sequence with a position.
pub struct Cursor<T> {
    tokens: Vec<T>,
    pos: usize,
    marks: Ghost<Seq<nat>>,
}

/// A cursor over the characters of a text.
pub type Text = Cursor<char>;

impl<T: Token> Cursor<T> {
    /// A cursor at the start of `tokens`.
    pub fn new(tokens: Vec<T>) -> (c: Self)
        ensures
            c.wf(),
            c.tokens() == tokens@,
            c.pos() == 0,
            c.marks() == Seq::<nat>::empty(),
    {
        // The length of a vector fits in `usize`.
        let _: usize = tokens.len();
        Cursor { tokens, pos: 0, marks: Ghost(Seq::empty()) }
    }

    /// The tokens not yet consumed.
    pub fn rest(&self) -> (r: Vec<T>)
        requires
            self.wf(),
        ensures
            r@ == self.tokens().subrange(self.pos() as int, self.tokens().len() as int),
    {
        vstd::slice::slice_to_vec(
            vstd::slice::slice_subrange(self.tokens.as_slice(), self.pos, self.tokens.len()),
        )
    }
}

impl Cursor<char> {
    /// A cursor at the start of the characters of `text`.
    pub fn from_text(text: &str) -> (c: Self)
        ensures
            c.wf(),
            c.tokens() == text@,
            c.pos() == 0,
            c.marks() == Seq::<nat>::empty(),
    {
        let n: usize = text.unicode_len();
        let mut tokens: Vec<char> = Vec::new();
        let mut i: usize = 0;
        while i < n
            invariant
                i <= n,
                n == text@.len(),
                tokens@ == text@.subrange(0, i as int),
            decreases n - i,
        {
            tokens.push(text.get_char(i));
            i += 1;
        }
        Cursor::new(tokens)
    }
}

impl<T: Token> Input for Cursor<T> {
    type Token = T;

    type Context = Span;

    closed spec fn tokens(&self) -> Seq<T> {
        self.tokens@
    }

    closed spec fn pos(&self) -> nat {
        self.pos as nat
    }

    closed spec fn marks(&self) -> Seq<nat> {
        self.marks@
    }

    closed spec fn wf(&self) -> bool {
        &&& self.pos <= self.tokens@.len() <= usize::MAX
        &&& forall|i: int| 0 <= i < self.marks@.len() ==> self.marks@[i] <= self.tokens@.len()
    }

    open spec fn context_between(tokens: Seq<T>, from: nat, at: nat) -> Option<Span> {
        if from <= usize::MAX && at <= usize::MAX {
            Some(Span { start: from as usize, end: at as usize })
        } else {
            None
        }
    }

    proof fn wf_bounds(&self) {
    }

    fn len(&self) -> (n: usize) {
        self.tokens.len()
    }

    fn position(&self) -> (n: usize) {
        self.pos
    }

    fn token(&self, index: usize) -> (t: T) {
        self.tokens[index]
    }

    fn window(&self, from: usize, to: usize) -> (w: &[T]) {
        vstd::slice::slice_subrange(self.tokens.as_slice(), from, to)
    }

    fn advance(&mut self, n: usize) {
        self.pos = self.pos + n;
    }

    fn mark(&mut self, info: &ParserInfo) -> (marker: Marker) {
        proof {
            self.marks@ = self.marks@.push(self.pos as nat);
        }
        Marker::at(self.pos)
    }

    fn rewind_to(&mut self, marker: &mut Marker) {
        self.pos = marker.offset();
        marker.spend();
    }

    fn context(&self, marker: &Marker) -> (context: Option<Span>) {
        Some(Span { start: marker.offset(), end: self.pos })
    }

    fn unmark(&mut self, info: &ParserInfo, success: bool, marker: Marker) {
        proof {
            self.marks@ = self.marks@.drop_last();
        }
    }
}

} // verus!
