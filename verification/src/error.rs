//! Failure values: a cause and the trace of invocations it unwound through.

use vstd::prelude::*;
use crate::info::ParserInfo;

verus! {

/// Why a parser failed.
#[derive(Debug, PartialEq, Eq)]
pub enum ErrorKind<T> {
    /// The stream held `actual` where `expected` was required.
    Mismatch { expected: Vec<T>, actual: Vec<T> },
    /// The stream ended where more tokens were required.
    EndOfInput,
    /// A combinator that must consume at least one matching token found none.
    PredicateViolation,
    /// An error raised by a parser's author.
    UserError(String),
    /// An ordered alternation ran out of cases.
    NoAlternativeMatched,
}

impl<T> ErrorKind<T> {
    /// Whether this is a mismatch between exactly these token sequences.
    pub open spec fn is_mismatch(&self, expected: Seq<T>, actual: Seq<T>) -> bool {
        match self {
            ErrorKind::Mismatch { expected: e, actual: a } => e@ == expected && a@ == actual,
            _ => false,
        }
    }

    /// Whether this is a user error carrying exactly this message.
    pub open spec fn is_user_error(&self, message: Seq<char>) -> bool {
        match self {
            ErrorKind::UserError(m) => m@ == message,
            _ => false,
        }
    }
}

/// One step of the call chain a failure passed through.
#[derive(Debug, PartialEq, Eq)]
pub struct TraceEntry<C> {
    /// What the stream looked like where the invocation failed, if known.
    pub context: Option<C>,
    /// The invocation that failed.
    pub info: ParserInfo,
}

/// A failure: its cause, and the invocations it propagated through, the
/// innermost first.
#[derive(Debug, PartialEq, Eq)]
pub struct ParseError<E, C> {
    /// What went wrong.
    pub cause: E,
    /// The failing invocations, from the point of failure outwards.
    pub trace: Vec<TraceEntry<C>>,
}

impl<E, C> ParseError<E, C> {
    /// Whether this error has cause `cause` and exactly the trace `trace`.
    pub open spec fn is(&self, cause: E, trace: Seq<TraceEntry<C>>) -> bool {
        self.cause == cause && self.trace@ == trace
    }

    /// Whether this error is `inner` after it has unwound through one more
    /// invocation: the same cause, and `entry` after the entries of `inner`.
    pub open spec fn extends(&self, inner: Self, entry: TraceEntry<C>) -> bool {
        self.cause == inner.cause && self.trace@ == inner.trace@.push(entry)
    }

    /// A fresh error: the given cause and an empty trace.
    pub fn from_cause(cause: E) -> (e: Self)
        ensures
            e.cause == cause,
            e.trace@ == Seq::<TraceEntry<C>>::empty(),
    {
        ParseError { cause, trace: Vec::new() }
    }

    /// Appends the context of an enclosing invocation after the entries of
    /// the invocations nested in it.
    pub fn push_context(&mut self, context: Option<C>, info: ParserInfo)
        ensures
            final(self).extends(*old(self), TraceEntry { context, info }),
    {
        self.trace.push(TraceEntry { context, info });
    }

    /// Converts the cause into the error kind of an enclosing parser and
    /// keeps the trace.
    pub fn convert<E2, F: FnOnce(E) -> E2>(self, into: F) -> (e: ParseError<E2, C>)
        requires
            into.requires((self.cause,)),
        ensures
            into.ensures((self.cause,), e.cause),
            e.trace@ == self.trace@,
    {
        ParseError { cause: into(self.cause), trace: self.trace }
    }

    /// The number of invocations this failure passed through so far.
    pub fn depth(&self) -> (n: usize)
        ensures
            n == self.trace@.len(),
    {
        self.trace.len()
    }
}

/// Where the invocation `a` calls `b`, `b` calls `c`, and `c` fails with
/// `raised`, the failure that `a` returns lists the three innermost first:
/// after the entries that `raised` held come that of `c`, then that of `b`,
/// then that of `a`.
pub proof fn law_trace_innermost_first<E, C>(
    raised: ParseError<E, C>,
    from_c: ParseError<E, C>,
    from_b: ParseError<E, C>,
    from_a: ParseError<E, C>,
    c: TraceEntry<C>,
    b: TraceEntry<C>,
    a: TraceEntry<C>,
)
    requires
        from_c.extends(raised, c),
        from_b.extends(from_c, b),
        from_a.extends(from_b, a),
    ensures
        from_a.cause == raised.cause,
        from_a.trace@ == raised.trace@ + seq![c, b, a],
        from_a.trace@[raised.trace@.len() as int] == c,
        from_a.trace@[raised.trace@.len() as int + 1] == b,
        from_a.trace@[raised.trace@.len() as int + 2] == a,
{
}

impl<T, C> ParseError<ErrorKind<T>, C> {
    /// An error raised by a parser's author: the message as cause, and an
    /// empty trace.
    pub fn user(message: &str) -> (e: Self)
        ensures
            e.cause.is_user_error(message@),
            e.trace@ == Seq::<TraceEntry<C>>::empty(),
    {
        ParseError { cause: ErrorKind::UserError(message.to_owned()), trace: Vec::new() }
    }
}

} // verus!
