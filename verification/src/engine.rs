//! The execution engine: the protocol every invocation of a parser follows.
//!
//! An invocation snapshots the position, runs its body, and then leaves: on
//! failure it appends its context to the error, it rewinds as its policy
//! says, reports its exit and releases the snapshot.

use vstd::prelude::*;
use crate::error::{ParseError, TraceEntry};
use crate::info::{Marker, ParserInfo, Policy};
use crate::input::Input;
use crate::trace::{grown, TraceEvent, Tracer};

verus! {

/// The state of one parse: the stream and the tracing collaborator.
pub struct Pear<I: Input> {
    /// The stream being parsed.
    pub input: I,
    /// Where entry and exit events go.
    pub tracer: Tracer<I::Context>,
}

/// What a running invocation holds between entering and leaving.
pub struct Frame {
    /// The invocation.
    pub info: ParserInfo,
    /// The position it started from.
    pub marker: Marker,
}

/// What every parser keeps of the state it is handed: the tokens and the
/// outstanding markers stay, the position does not move backwards, and the
/// event log only grows.
pub open spec fn follows<I: Input>(before: Pear<I>, after: Pear<I>) -> bool {
    &&& after.input.wf()
    &&& after.input.tokens() == before.input.tokens()
    &&& after.input.marks() == before.input.marks()
    &&& after.input.pos() >= before.input.pos()
    &&& after.tracer.enabled == before.tracer.enabled
    &&& grown(before.tracer.events@, after.tracer.events@)
}

/// The state `now` in which the body of the invocation `info` starts, when
/// the invocation was made in state `before`.
pub open spec fn entered<I: Input>(before: Pear<I>, info: ParserInfo, now: Pear<I>) -> bool {
    &&& now.input.wf()
    &&& now.input.tokens() == before.input.tokens()
    &&& now.input.pos() == before.input.pos()
    &&& now.input.marks() == before.input.marks().push(before.input.pos())
    &&& now.tracer.enabled == before.tracer.enabled
    &&& now.tracer.events@ == before.tracer.after(TraceEvent::Entry { info })
}

/// The context an invocation that started at `start` attaches to a failure
/// in state `mid`.
pub open spec fn failure_context<I: Input>(mid: Pear<I>, start: nat) -> Option<I::Context> {
    I::context_between(mid.input.tokens(), start, mid.input.pos())
}

/// The state `now` an invocation returns in, when its body ended in state
/// `mid`: the position is rewound to `start` as the policy says, the exit is
/// reported, and the invocation's marker is released.
pub open spec fn left<I: Input>(
    mid: Pear<I>,
    info: ParserInfo,
    policy: Policy,
    start: nat,
    success: bool,
    now: Pear<I>,
) -> bool {
    &&& now.input.wf()
    &&& now.input.tokens() == mid.input.tokens()
    &&& now.input.marks() == mid.input.marks().drop_last()
    &&& now.input.pos() == if policy.rewinds(success) {
        start
    } else {
        mid.input.pos()
    }
    &&& now.tracer.enabled == mid.tracer.enabled
    &&& now.tracer.events@ == mid.tracer.after(
        TraceEvent::Exit {
            info,
            success,
            context: if success {
                None
            } else {
                failure_context(mid, start)
            },
        },
    )
}

/// The result `res` an invocation returns, when its body ended in state
/// `mid` with `result`: a success as it is, a failure with the invocation's
/// context appended after the entries already in its trace.
pub open spec fn propagated<I: Input, O, E>(
    mid: Pear<I>,
    info: ParserInfo,
    start: nat,
    result: Result<O, ParseError<E, I::Context>>,
    res: Result<O, ParseError<E, I::Context>>,
) -> bool {
    match result {
        Ok(value) => res == Ok::<O, ParseError<E, I::Context>>(value),
        Err(e) => match res {
            Ok(_) => false,
            Err(f) => f.extends(e, TraceEntry { context: failure_context(mid, start), info }),
        },
    }
}

impl<I: Input> Pear<I> {
    /// The state's invariant.
    pub open spec fn wf(&self) -> bool {
        self.input.wf()
    }

    /// A parse of `input` that reports to `tracer`.
    pub fn new(input: I, tracer: Tracer<I::Context>) -> (p: Self)
        ensures
            p.input == input,
            p.tracer == tracer,
    {
        Pear { input, tracer }
    }

    /// A parse of `input` that reports nothing.
    pub fn quiet(input: I) -> (p: Self)
        ensures
            p.input == input,
            !p.tracer.enabled,
            p.tracer.events@ == Seq::<TraceEvent<I::Context>>::empty(),
    {
        Pear { input, tracer: Tracer::silent() }
    }

    /// Starts the invocation `info`: reports the entry and snapshots the
    /// position.
    pub fn enter(&mut self, info: ParserInfo) -> (frame: Frame)
        requires
            old(self).wf(),
        ensures
            entered(*old(self), info, *final(self)),
            frame.info == info,
            frame.marker.position() == old(self).input.pos(),
            !frame.marker.spent(),
    {
        self.tracer.report(TraceEvent::Entry { info });
        let marker = self.input.mark(&info);
        Frame { info, marker }
    }

    /// Ends the invocation of `frame`, whose body returned `result`.
    ///
    /// A failure gets the invocation's context appended to its trace. The
    /// position is rewound if the policy says so for this outcome. The exit
    /// is reported, and the marker is released whatever the outcome.
    pub fn leave<O, E>(
        &mut self,
        frame: Frame,
        policy: Policy,
        result: Result<O, ParseError<E, I::Context>>,
    ) -> (res: Result<O, ParseError<E, I::Context>>)
        requires
            old(self).wf(),
            old(self).input.marks().len() > 0,
            old(self).input.marks().last() == frame.marker.position(),
            !frame.marker.spent(),
        ensures
            left(
                *old(self),
                frame.info,
                policy,
                frame.marker.position(),
                result is Ok,
                *final(self),
            ),
            propagated(*old(self), frame.info, frame.marker.position(), result, res),
    {
        let Frame { info, marker } = frame;
        let mut marker = marker;
        let success = result.is_ok();
        let res = match result {
            Ok(value) => Ok(value),
            Err(e) => {
                let mut e = e;
                let context = self.input.context(&marker);
                e.push_context(context, info);
                Err(e)
            },
        };
        let shown = if success || !self.tracer.enabled {
            None
        } else {
            self.input.context(&marker)
        };
        if policy.must_rewind(success) {
            self.input.rewind_to(&mut marker);
        }
        self.tracer.report(TraceEvent::Exit { info, success, context: shown });
        self.input.unmark(&info, success, marker);
        res
    }
}

/// Runs `body` as the invocation `name`, with the given raw-mode flag and
/// policy: the body produces the full result itself, and a failure keeps its
/// cause.
///
/// The body starts in the state the invocation entered, and the invocation
/// leaves from the state the body ended in. Whatever the body does, an
/// invocation that rewinds for its outcome returns at the position it was
/// made at.
pub fn invoke<I: Input, O, E, F>(
    p: &mut Pear<I>,
    name: &'static str,
    raw: bool,
    policy: Policy,
    body: F,
) -> (res: Result<O, ParseError<E, I::Context>>) where
    F: FnOnce(&mut Pear<I>) -> Result<O, ParseError<E, I::Context>>,

    requires
        old(p).wf(),
        forall|x: &mut Pear<I>|
            entered(*old(p), ParserInfo { name, raw }, *x) ==> #[trigger] body.requires((x,)),
        forall|x: &mut Pear<I>, r: Result<O, ParseError<E, I::Context>>|
            entered(*old(p), ParserInfo { name, raw }, *x) && #[trigger] body.ensures((x,), r)
                ==> follows(*x, *final(x)),
    ensures
        follows(*old(p), *final(p)),
        policy.rewinds(res is Ok) ==> final(p).input.pos() == old(p).input.pos(),
        exists|x: &mut Pear<I>, r: Result<O, ParseError<E, I::Context>>|
            {
                &&& entered(*old(p), ParserInfo { name, raw }, *x)
                &&& #[trigger] body.ensures((x,), r)
                &&& left(
                    *final(x),
                    ParserInfo { name, raw },
                    policy,
                    old(p).input.pos(),
                    r is Ok,
                    *final(p),
                )
                &&& propagated(*final(x), ParserInfo { name, raw }, old(p).input.pos(), r, res)
            },
{
    let info = ParserInfo { name, raw };
    let frame = p.enter(info);
    let ghost start = *p;
    let result = body(p);
    let ghost mid = *p;
    let res = p.leave(frame, policy, result);
    proof {
        lemma_invocation_follows(*old(p), start, mid, *p, info, policy, result is Ok);
    }
    res
}

/// Runs `body` as the invocation `name`, not in raw mode: a value that the
/// body hands back is the invocation's success, and a failure that reaches
/// the end of the body has its cause converted by `convert` into the error
/// kind of this parser before the invocation's context is appended to it.
pub fn parser<I: Input, O, E1, E, F, V>(
    p: &mut Pear<I>,
    name: &'static str,
    policy: Policy,
    body: F,
    convert: V,
) -> (res: Result<O, ParseError<E, I::Context>>) where
    F: FnOnce(&mut Pear<I>) -> Result<O, ParseError<E1, I::Context>>,
    V: FnOnce(E1) -> E,

    requires
        old(p).wf(),
        forall|x: &mut Pear<I>|
            entered(*old(p), ParserInfo { name, raw: false }, *x) ==> #[trigger] body.requires(
                (x,),
            ),
        forall|x: &mut Pear<I>, r: Result<O, ParseError<E1, I::Context>>|
            entered(*old(p), ParserInfo { name, raw: false }, *x) && #[trigger] body.ensures(
                (x,),
                r,
            ) ==> follows(*x, *final(x)),
        forall|cause: E1| convert.requires((cause,)),
    ensures
        follows(*old(p), *final(p)),
        policy.rewinds(res is Ok) ==> final(p).input.pos() == old(p).input.pos(),
        exists|
            x: &mut Pear<I>,
            r: Result<O, ParseError<E1, I::Context>>,
            c: Result<O, ParseError<E, I::Context>>,
        |
            {
                &&& entered(*old(p), ParserInfo { name, raw: false }, *x)
                &&& #[trigger] body.ensures((x,), r)
                &&& converted(convert, r, c)
                &&& left(
                    *final(x),
                    ParserInfo { name, raw: false },
                    policy,
                    old(p).input.pos(),
                    r is Ok,
                    *final(p),
                )
                &&& #[trigger] propagated(
                    *final(x),
                    ParserInfo { name, raw: false },
                    old(p).input.pos(),
                    c,
                    res,
                )
            },
{
    let info = ParserInfo { name, raw: false };
    let frame = p.enter(info);
    let ghost start = *p;
    let result = body(p);
    let ghost mid = *p;
    let ghost success = result is Ok;
    let lifted = match result {
        Ok(value) => Ok(value),
        Err(e) => Err(e.convert(convert)),
    };
    let res = p.leave(frame, policy, lifted);
    proof {
        lemma_invocation_follows(*old(p), start, mid, *p, info, policy, success);
    }
    res
}

/// The result `to` of converting the failure of `from`, if it is one, with
/// `convert`: a success stays, a failure keeps its trace and gets a cause
/// that `convert` returns for its own.
pub open spec fn converted<O, E1, E, C, V: FnOnce(E1) -> E>(
    convert: V,
    from: Result<O, ParseError<E1, C>>,
    to: Result<O, ParseError<E, C>>,
) -> bool {
    match from {
        Ok(value) => to == Ok::<O, ParseError<E, C>>(value),
        Err(e) => match to {
            Ok(_) => false,
            Err(f) => convert.ensures((e.cause,), f.cause) && f.trace@ == e.trace@,
        },
    }
}

/// A failing invocation that rewinds on failure returns at the position it
/// was made at, whatever its body consumed.
pub proof fn law_rewind_restores_position<I: Input>(
    before: Pear<I>,
    start: Pear<I>,
    mid: Pear<I>,
    after: Pear<I>,
    info: ParserInfo,
)
    requires
        entered(before, info, start),
        left(mid, info, Policy::Rewind, start.input.pos(), false, after),
    ensures
        after.input.pos() == before.input.pos(),
{
}

/// A peek invocation returns at the position it was made at, whether it
/// succeeds or fails and whatever its body consumed.
pub proof fn law_peek_consumes_nothing<I: Input>(
    before: Pear<I>,
    start: Pear<I>,
    mid: Pear<I>,
    after: Pear<I>,
    info: ParserInfo,
    success: bool,
)
    requires
        entered(before, info, start),
        left(mid, info, Policy::Peek, start.input.pos(), success, after),
    ensures
        after.input.pos() == before.input.pos(),
{
}

/// An invocation whose body keeps what every parser keeps does so itself,
/// and returns where it was made whenever it rewinds.
pub proof fn lemma_invocation_follows<I: Input>(
    before: Pear<I>,
    start: Pear<I>,
    mid: Pear<I>,
    after: Pear<I>,
    info: ParserInfo,
    policy: Policy,
    success: bool,
)
    requires
        entered(before, info, start),
        follows(start, mid),
        left(mid, info, policy, before.input.pos(), success, after),
    ensures
        follows(before, after),
        policy.rewinds(success) ==> after.input.pos() == before.input.pos(),
        !policy.rewinds(success) ==> after.input.pos() == mid.input.pos(),
{
    assert(before.input.marks().push(before.input.pos()).drop_last() =~= before.input.marks());
}

} // verus!
