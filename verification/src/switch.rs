//! Ordered alternation: the first guard that succeeds selects the
//! consequence that runs.

use vstd::prelude::*;
use crate::engine::{entered, follows, left, lemma_invocation_follows, Pear};
use crate::error::{ErrorKind, ParseError, TraceEntry};
use crate::info::{ParserInfo, Policy};
use crate::input::Input;
use crate::parsers::{builtin, Parsed};

verus! {

/// One arm of an alternation.
pub enum Case<G, K> {
    /// Selected whenever it is reached.
    Wild(K),
    /// Selected by the first of its guards that succeeds.
    Guarded(Vec<G>, K),
}

/// An alternation: its cases, in the order they are evaluated.
pub type Switch<G, K> = Vec<Case<G, K>>;

impl<G, K> Case<G, K> {
    /// The guards of this case, in the order they are tried.
    pub open spec fn guards(&self) -> Seq<G> {
        match self {
            Case::Wild(_) => Seq::empty(),
            Case::Guarded(guards, _) => guards@,
        }
    }

    /// What runs when this case is selected.
    pub open spec fn consequence(&self) -> K {
        match self {
            Case::Wild(consequence) => *consequence,
            Case::Guarded(_, consequence) => *consequence,
        }
    }
}

/// Whether `guard` can fail when it is tried by an alternation made in state
/// `before`: it returns a failure from a state in which its invocation has
/// just been entered at the position of `before`.
pub open spec fn refused<I: Input, B, G: Fn(&mut Pear<I>) -> Parsed<I, B>>(
    guard: G,
    before: Pear<I>,
) -> bool {
    exists|x: &mut Pear<I>, r: Parsed<I, B>|
        tried(before, *x) && #[trigger] guard.ensures((x,), r) && r is Err
}

/// The state `now` in which a guard of an alternation made in state `before`
/// starts: the stream is as in `before` but for the marker of the guard's
/// invocation, and events may have been reported.
pub open spec fn tried<I: Input>(before: Pear<I>, now: Pear<I>) -> bool {
    &&& now.input.wf()
    &&& now.input.tokens() == before.input.tokens()
    &&& now.input.pos() == before.input.pos()
    &&& now.input.marks() == before.input.marks().push(before.input.pos())
    &&& now.tracer.enabled == before.tracer.enabled
    &&& crate::trace::grown(before.tracer.events@, now.tracer.events@)
}

/// Whether `now` is `before` with, possibly, more events reported.
pub open spec fn idle<I: Input>(before: Pear<I>, now: Pear<I>) -> bool {
    &&& follows(before, now)
    &&& now.input.pos() == before.input.pos()
}

/// Whether none of the first `upto` cases is selected by an alternation made
/// in state `before`: none of them is a wildcard, and each of their guards is
/// refused.
pub open spec fn passed_over<I: Input, B, G: Fn(&mut Pear<I>) -> Parsed<I, B>, K>(
    cases: Seq<Case<G, K>>,
    upto: int,
    before: Pear<I>,
) -> bool {
    &&& forall|k: int| 0 <= k < upto && k < cases.len() ==> #[trigger] cases[k] is Guarded
    &&& forall|k: int, j: int|
        0 <= k < upto && k < cases.len() && 0 <= j < cases[k].guards().len() ==> refused::<
            I,
            B,
            G,
        >(#[trigger] cases[k].guards()[j], before)
}

/// Evaluates `cases` from the first on, and within a case its guards from the
/// first on, until a case is selected; runs the consequence of that case and
/// returns what it returns.
///
/// Each guard runs as an invocation named `switch` that rewinds on
/// failure, so every guard starts at the position the alternation was made
/// at. The consequence of a case selected by a guard gets what the guard
/// returned and starts where the guard stopped; that of a wildcard gets
/// `None` and starts at the position of the alternation. No guard after the
/// selecting one runs, and no other consequence.
///
/// Where no case is selected, the alternation fails with
/// `NoAlternativeMatched` and an empty trace, whatever the guards failed
/// with, and has consumed nothing.
pub fn switch<I: Input, B, O, G, K>(p: &mut Pear<I>, cases: &Switch<G, K>) -> (res: Parsed<I, O>)
    where
    G: Fn(&mut Pear<I>) -> Parsed<I, B>,
    K: Fn(&mut Pear<I>, Option<B>) -> Parsed<I, O>,

    requires
        old(p).wf(),
        forall|k: int, j: int, x: &mut Pear<I>|
            0 <= k < cases@.len() && 0 <= j < cases@[k].guards().len() && tried(*old(p), *x)
                ==> #[trigger] cases@[k].guards()[j].requires((x,)),
        forall|k: int, j: int, x: &mut Pear<I>, r: Parsed<I, B>|
            0 <= k < cases@.len() && 0 <= j < cases@[k].guards().len() && tried(*old(p), *x)
                && #[trigger] cases@[k].guards()[j].ensures((x,), r) ==> follows(*x, *final(x)),
        forall|k: int, y: &mut Pear<I>, b: Option<B>|
            0 <= k < cases@.len() && follows(*old(p), *y) ==> #[trigger] cases@[k].consequence().requires(
                (y, b),
            ),
        forall|k: int, y: &mut Pear<I>, b: Option<B>, r: Parsed<I, O>|
            0 <= k < cases@.len() && follows(*old(p), *y)
                && #[trigger] cases@[k].consequence().ensures((y, b), r) ==> follows(
                *y,
                *final(y),
            ),
    ensures
        follows(*old(p), *final(p)),
        ({
            ||| exists|k: int, j: int, x: &mut Pear<I>, b: B, y: &mut Pear<I>|
                {
                    &&& 0 <= k < cases@.len()
                    &&& 0 <= j < cases@[k].guards().len()
                    &&& passed_over::<I, B, G, K>(cases@, k, *old(p))
                    &&& forall|i: int|
                        0 <= i < j ==> refused::<I, B, G>(
                            #[trigger] cases@[k].guards()[i],
                            *old(p),
                        )
                    &&& tried(*old(p), *x)
                    &&& #[trigger] cases@[k].guards()[j].ensures((x,), Ok::<B, _>(b))
                    &&& left(*final(x), builtin("switch"), Policy::Rewind, old(p).input.pos(), true, *y)
                    &&& #[trigger] cases@[k].consequence().ensures((y, Some(b)), res)
                    &&& *final(p) == *final(y)
                }
            ||| exists|k: int, y: &mut Pear<I>|
                {
                    &&& 0 <= k < cases@.len()
                    &&& cases@[k] is Wild
                    &&& passed_over::<I, B, G, K>(cases@, k, *old(p))
                    &&& idle(*old(p), *y)
                    &&& #[trigger] cases@[k].consequence().ensures((y, None::<B>), res)
                    &&& *final(p) == *final(y)
                }
            ||| {
                &&& passed_over::<I, B, G, K>(cases@, cases@.len() as int, *old(p))
                &&& idle(*old(p), *final(p))
                &&& res is Err
                &&& res->Err_0.is(
                    ErrorKind::NoAlternativeMatched,
                    Seq::<TraceEntry<I::Context>>::empty(),
                )
            }
        }),
{
    let mut k: usize = 0;
    while k < cases.len()
        invariant
            k <= cases@.len(),
            idle(*old(p), *p),
            passed_over::<I, B, G, K>(cases@, k as int, *old(p)),
            forall|k: int, j: int, x: &mut Pear<I>|
                0 <= k < cases@.len() && 0 <= j < cases@[k].guards().len() && tried(*old(p), *x)
                    ==> #[trigger] cases@[k].guards()[j].requires((x,)),
            forall|k: int, j: int, x: &mut Pear<I>, r: Parsed<I, B>|
                0 <= k < cases@.len() && 0 <= j < cases@[k].guards().len() && tried(*old(p), *x)
                    && #[trigger] cases@[k].guards()[j].ensures((x,), r) ==> follows(
                    *x,
                    *final(x),
                ),
            forall|k: int, y: &mut Pear<I>, b: Option<B>|
                0 <= k < cases@.len() && follows(*old(p), *y)
                    ==> #[trigger] cases@[k].consequence().requires((y, b)),
            forall|k: int, y: &mut Pear<I>, b: Option<B>, r: Parsed<I, O>|
                0 <= k < cases@.len() && follows(*old(p), *y)
                    && #[trigger] cases@[k].consequence().ensures((y, b), r) ==> follows(
                    *y,
                    *final(y),
                ),
        decreases cases@.len() - k,
    {
        match &cases[k] {
            Case::Wild(consequence) => {
                assert(cases@[k as int].consequence() == *consequence);
                let res = consequence(p, None);
                return res;
            },
            Case::Guarded(guards, consequence) => {
                let mut j: usize = 0;
                while j < guards.len()
                    invariant
                        k < cases@.len(),
                        cases@[k as int] == Case::Guarded(*guards, *consequence),
                        j <= guards@.len(),
                        idle(*old(p), *p),
                        passed_over::<I, B, G, K>(cases@, k as int, *old(p)),
                        forall|i: int|
                            0 <= i < j ==> refused::<I, B, G>(
                                #[trigger] cases@[k as int].guards()[i],
                                *old(p),
                            ),
                        forall|k: int, j: int, x: &mut Pear<I>|
                            0 <= k < cases@.len() && 0 <= j < cases@[k].guards().len() && tried(
                                *old(p),
                                *x,
                            ) ==> #[trigger] cases@[k].guards()[j].requires((x,)),
                        forall|k: int, j: int, x: &mut Pear<I>, r: Parsed<I, B>|
                            0 <= k < cases@.len() && 0 <= j < cases@[k].guards().len() && tried(
                                *old(p),
                                *x,
                            ) && #[trigger] cases@[k].guards()[j].ensures((x,), r) ==> follows(
                                *x,
                                *final(x),
                            ),
                        forall|k: int, y: &mut Pear<I>, b: Option<B>|
                            0 <= k < cases@.len() && follows(*old(p), *y)
                                ==> #[trigger] cases@[k].consequence().requires((y, b)),
                        forall|k: int, y: &mut Pear<I>, b: Option<B>, r: Parsed<I, O>|
                            0 <= k < cases@.len() && follows(*old(p), *y)
                                && #[trigger] cases@[k].consequence().ensures((y, b), r)
                                ==> follows(*y, *final(y)),
                    decreases guards@.len() - j,
                {
                    let ghost idle_state = *p;
                    let frame = p.enter(ParserInfo { name: "switch", raw: true });
                    let ghost start = *p;
                    assert(cases@[k as int].guards()[j as int] == guards@[j as int]);
                    let attempt = (guards[j])(p);
                    let ghost mid = *p;
                    let outcome = p.leave(frame, Policy::Rewind, attempt);
                    proof {
                        lemma_invocation_follows(
                            idle_state,
                            start,
                            mid,
                            *p,
                            builtin("switch"),
                            Policy::Rewind,
                            attempt is Ok,
                        );
                    }
                    match outcome {
                        Ok(binding) => {
                            assert(cases@[k as int].consequence() == *consequence);
                            let res = consequence(p, Some(binding));
                            return res;
                        },
                        Err(_) => {},
                    }
                    j += 1;
                }
            },
        }
        k += 1;
    }
    Err(ParseError::from_cause(ErrorKind::NoAlternativeMatched))
}

} // verus!
