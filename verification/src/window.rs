//! Parsers that look at several tokens at once: a slice that grows from the
//! position, a window of fixed size that slides along the stream, and the
//! search for a terminator built on it.
//!
//! Each is one invocation in raw mode, named after the function, and calls no
//! other parser.

use vstd::prelude::*;
use crate::engine::Pear;
use crate::error::{ErrorKind, ParseError, TraceEntry};
use crate::info::{ParserInfo, Policy};
use crate::input::{Input, Many, Slice};
use crate::parsers::{
    builtin, caused, consume, invoked, lemma_invoked, raised, rest, same_tokens, Parsed,
};

verus! {

/// Whether `pred` returns `verdict` for a slice that holds `tokens`.
pub open spec fn judged<T, F: Fn(&[T]) -> bool>(pred: F, tokens: Seq<T>, verdict: bool) -> bool {
    exists|s: &[T]| s@ == tokens && #[trigger] pred.ensures((s,), verdict)
}

/// Whether the first `count` tokens of `rest` are the longest slice that can
/// be grown token by token while `pred` accepts it: `pred` accepts each
/// non-empty prefix of them, and they are all of `rest` or `pred` rejects
/// them together with the token that follows.
pub open spec fn grown_run<T, F: Fn(&[T]) -> bool>(pred: F, rest: Seq<T>, count: nat) -> bool {
    &&& count <= rest.len()
    &&& forall|j: int| 1 <= j <= count ==> judged(pred, #[trigger] rest.subrange(0, j), true)
    &&& (count == rest.len() || judged(pred, rest.subrange(0, count as int + 1), false))
}

/// Whether `count` is the number of tokens that a window of `size` tokens
/// slides over `rest` while `pred` accepts it.
///
/// Where `rest` is shorter than the window, that is all of `rest`. Else
/// `pred` accepts the window at each of the first `count` offsets, and at
/// offset `count` no whole window is left, or no token, or `pred` rejects the
/// window there.
pub open spec fn window_run<T, F: Fn(&[T]) -> bool>(
    pred: F,
    rest: Seq<T>,
    size: nat,
    count: nat,
) -> bool {
    if rest.len() < size {
        count == rest.len()
    } else {
        &&& count <= rest.len()
        &&& (count == 0 || count + size <= rest.len() + 1)
        &&& forall|i: int|
            0 <= i < count ==> judged(pred, #[trigger] rest.subrange(i, i + size), true)
        &&& (count + size > rest.len() || count == rest.len() || judged(
            pred,
            rest.subrange(count as int, count as int + size as int),
            false,
        ))
    }
}

/// Whether `needle` stands in `hay` at offset `at`.
pub open spec fn occurs_at<T>(hay: Seq<T>, needle: Seq<T>, at: int) -> bool {
    &&& 0 <= at
    &&& at + needle.len() <= hay.len()
    &&& hay.subrange(at, at + needle.len()) == needle
}

/// Whether `needle` stands nowhere in `hay`.
pub open spec fn absent<T>(hay: Seq<T>, needle: Seq<T>) -> bool {
    forall|at: int| !#[trigger] occurs_at(hay, needle, at)
}

/// Whether the first occurrence of `needle` in `hay` is at offset `at`.
pub open spec fn first_at<T>(hay: Seq<T>, needle: Seq<T>, at: nat) -> bool {
    &&& occurs_at(hay, needle, at as int)
    &&& forall|before: int| 0 <= before < at ==> !#[trigger] occurs_at(hay, needle, before)
}

/// Whether `count` tokens of `hay` come before the terminator `needle`: those
/// before its first occurrence, or all of them where it does not occur.
pub open spec fn until<T>(hay: Seq<T>, needle: Seq<T>, count: nat) -> bool {
    ||| first_at(hay, needle, count)
    ||| absent(hay, needle) && count == hay.len()
}

/// Counts the tokens of the longest slice from the position on that `pred`
/// accepts as it grows. Consumes nothing.
fn count_grown<I: Input, F: Fn(&Slice<I>) -> bool>(input: &I, pred: &F) -> (count: usize)
    requires
        input.wf(),
        forall|s: &Slice<I>| pred.requires((s,)),
    ensures
        grown_run(
            *pred,
            input.tokens().subrange(input.pos() as int, input.tokens().len() as int),
            count as nat,
        ),
{
    proof {
        input.wf_bounds();
    }
    let from = input.position();
    let end = input.len();
    let ghost rest = input.tokens().subrange(from as int, end as int);
    let mut count: usize = 0;
    while from + count < end
        invariant
            input.wf(),
            from == input.pos(),
            end == input.tokens().len(),
            from + count <= end,
            rest == input.tokens().subrange(from as int, end as int),
            forall|s: &Slice<I>| pred.requires((s,)),
            forall|j: int|
                1 <= j <= count ==> judged(*pred, #[trigger] rest.subrange(0, j), true),
        decreases end - from - count,
    {
        let slice = input.window(from, from + count + 1);
        assert(slice@ =~= rest.subrange(0, count + 1));
        if !pred(slice) {
            return count;
        }
        count += 1;
    }
    count
}

/// Counts the tokens that a window of `size` tokens slides over, from the
/// position on, while `pred` accepts it. Consumes nothing.
fn count_windows<I: Input, F: Fn(&Slice<I>) -> bool>(input: &I, size: usize, pred: &F) -> (count:
    usize)
    requires
        input.wf(),
        forall|s: &Slice<I>| pred.requires((s,)),
    ensures
        window_run(
            *pred,
            input.tokens().subrange(input.pos() as int, input.tokens().len() as int),
            size as nat,
            count as nat,
        ),
{
    proof {
        input.wf_bounds();
    }
    let from = input.position();
    let end = input.len();
    let left = end - from;
    let ghost rest = input.tokens().subrange(from as int, end as int);
    if left < size {
        return left;
    }
    let mut count: usize = 0;
    while count < left && count <= left - size
        invariant
            input.wf(),
            from == input.pos(),
            end == input.tokens().len(),
            left == end - from,
            size <= left,
            count <= left,
            rest == input.tokens().subrange(from as int, end as int),
            rest.len() == left,
            forall|s: &Slice<I>| pred.requires((s,)),
            count == 0 || count + size <= left + 1,
            forall|i: int|
                0 <= i < count ==> judged(*pred, #[trigger] rest.subrange(i, i + size as nat), true),
        decreases left - count,
    {
        let window = input.window(from + count, from + count + size);
        assert(window@ =~= rest.subrange(count as int, count + size));
        if !pred(window) {
            return count;
        }
        count += 1;
    }
    count
}

/// Finds the first occurrence of `target` from the position on: the number
/// of tokens before it, or, where there is none, the number of tokens left.
/// Consumes nothing.
fn seek<I: Input>(input: &I, target: &Slice<I>) -> (found: (usize, bool))
    requires
        input.wf(),
    ensures
        until(
            input.tokens().subrange(input.pos() as int, input.tokens().len() as int),
            target@,
            found.0 as nat,
        ),
        found.1 == !absent(
            input.tokens().subrange(input.pos() as int, input.tokens().len() as int),
            target@,
        ),
{
    proof {
        input.wf_bounds();
    }
    let from = input.position();
    let end = input.len();
    let left = end - from;
    let size = target.len();
    let ghost rest = input.tokens().subrange(from as int, end as int);
    if left < size {
        return (left, false);
    }
    let last = left - size;
    let mut count: usize = 0;
    loop
        invariant
            input.wf(),
            from == input.pos(),
            end == input.tokens().len(),
            left == end - from,
            size == target@.len(),
            last == left - size,
            count <= last,
            rest == input.tokens().subrange(from as int, end as int),
            forall|before: int| 0 <= before < count ==> !#[trigger] occurs_at(rest, target@, before),
        decreases last - count,
    {
        let window = input.window(from + count, from + count + size);
        assert(window@ =~= rest.subrange(count as int, count + size));
        if same_tokens(window, target) {
            return (count, true);
        }
        if count == last {
            return (left, false);
        }
        count += 1;
    }
}

/// Consumes the longest slice that can be grown token by token while `pred`
/// accepts it, and returns it: it stops before the first token with which
/// `pred` rejects the slice. Never fails; the slice may be empty.
pub fn take_while_slice<I: Input, F: Fn(&Slice<I>) -> bool>(p: &mut Pear<I>, pred: F) -> (res:
    Parsed<I, Many<I>>)
    requires
        old(p).wf(),
        forall|s: &Slice<I>| pred.requires((s,)),
    ensures
        res is Ok,
        grown_run(pred, rest(*old(p)), res->Ok_0@.len()),
        res->Ok_0@ == rest(*old(p)).subrange(0, res->Ok_0@.len() as int),
        invoked(
            *old(p),
            builtin("take_while_slice"),
            Policy::Plain,
            res->Ok_0@.len(),
            true,
            *final(p),
        ),
{
    let frame = p.enter(ParserInfo { name: "take_while_slice", raw: true });
    let ghost start = *p;
    let count = count_grown(&p.input, &pred);
    let taken = consume(p, count);
    let ghost mid = *p;
    let res = p.leave(frame, Policy::Plain, Ok(taken));
    proof {
        lemma_invoked(
            *old(p),
            start,
            mid,
            *p,
            builtin("take_while_slice"),
            Policy::Plain,
            count as nat,
            true,
        );
    }
    res
}

/// Consumes tokens while `pred` accepts the window of `size` tokens that
/// starts at the position, and returns them: it stops before the first
/// window that `pred` rejects, and where no whole window is left. A stream
/// that is shorter than the window from the start is consumed whole. Never
/// fails.
pub fn take_while_window<I: Input, F: Fn(&Slice<I>) -> bool>(
    p: &mut Pear<I>,
    size: usize,
    pred: F,
) -> (res: Parsed<I, Many<I>>)
    requires
        old(p).wf(),
        forall|s: &Slice<I>| pred.requires((s,)),
    ensures
        res is Ok,
        window_run(pred, rest(*old(p)), size as nat, res->Ok_0@.len()),
        res->Ok_0@ == rest(*old(p)).subrange(0, res->Ok_0@.len() as int),
        invoked(
            *old(p),
            builtin("take_while_window"),
            Policy::Plain,
            res->Ok_0@.len(),
            true,
            *final(p),
        ),
{
    let frame = p.enter(ParserInfo { name: "take_while_window", raw: true });
    let ghost start = *p;
    let count = count_windows(&p.input, size, &pred);
    let taken = consume(p, count);
    let ghost mid = *p;
    let res = p.leave(frame, Policy::Plain, Ok(taken));
    proof {
        lemma_invoked(
            *old(p),
            start,
            mid,
            *p,
            builtin("take_while_window"),
            Policy::Plain,
            count as nat,
            true,
        );
    }
    res
}

/// What the windowed parsers that can fail return, for the `count` tokens
/// that the window slides over: `EndOfInput` where a whole window is asked
/// for and `rest` is shorter than it, `PredicateViolation` where a token is
/// asked for and `count` is zero, and else the first `count` tokens of `rest`.
pub open spec fn window_taken<I: Input>(
    rest: Seq<I::Token>,
    size: nat,
    count: nat,
    some_window: bool,
    some_token: bool,
    res: Parsed<I, Many<I>>,
) -> bool {
    if some_window && rest.len() < size {
        caused::<I, Many<I>>(res, ErrorKind::EndOfInput)
    } else if some_token && count == 0 {
        caused::<I, Many<I>>(res, ErrorKind::PredicateViolation)
    } else {
        res is Ok && res->Ok_0@ == rest.subrange(0, count as int)
    }
}

/// The body shared by the windowed parsers that can fail.
fn window_body<I: Input, F: Fn(&Slice<I>) -> bool>(
    p: &mut Pear<I>,
    size: usize,
    pred: &F,
    some_window: bool,
    some_token: bool,
) -> (out: (Parsed<I, Many<I>>, Ghost<nat>))
    requires
        old(p).wf(),
        forall|s: &Slice<I>| pred.requires((s,)),
    ensures
        final(p).input.wf(),
        final(p).input.tokens() == old(p).input.tokens(),
        final(p).input.marks() == old(p).input.marks(),
        final(p).tracer == old(p).tracer,
        out.0 is Err ==> out.0->Err_0.trace@ == Seq::<TraceEntry<I::Context>>::empty(),
        window_run(*pred, rest(*old(p)), size as nat, out.1@),
        window_taken::<I>(rest(*old(p)), size as nat, out.1@, some_window, some_token, out.0),
        final(p).input.pos() == old(p).input.pos() + if out.0 is Ok {
            out.1@
        } else {
            0nat
        },
{
    proof {
        p.input.wf_bounds();
    }
    let count = count_windows(&p.input, size, pred);
    if some_window && p.input.len() - p.input.position() < size {
        (Err(ParseError::from_cause(ErrorKind::EndOfInput)), Ghost(count as nat))
    } else if some_token && count == 0 {
        (Err(ParseError::from_cause(ErrorKind::PredicateViolation)), Ghost(count as nat))
    } else {
        (Ok(consume(p, count)), Ghost(count as nat))
    }
}

/// As [`take_while_window`], but fails with `PredicateViolation` where that
/// would consume no token.
pub fn take_some_while_window<I: Input, F: Fn(&Slice<I>) -> bool>(
    p: &mut Pear<I>,
    size: usize,
    pred: F,
) -> (res: Parsed<I, Many<I>>)
    requires
        old(p).wf(),
        forall|s: &Slice<I>| pred.requires((s,)),
    ensures
        exists|count: nat|
            {
                &&& #[trigger] window_run(pred, rest(*old(p)), size as nat, count)
                &&& window_taken::<I>(rest(*old(p)), size as nat, count, false, true, res)
                &&& invoked(
                    *old(p),
                    builtin("take_some_while_window"),
                    Policy::Plain,
                    if res is Ok {
                        count
                    } else {
                        0nat
                    },
                    res is Ok,
                    *final(p),
                )
            },
        res is Err ==> raised::<I, Many<I>>(
            res,
            *old(p),
            builtin("take_some_while_window"),
            0,
        ),
{
    let frame = p.enter(ParserInfo { name: "take_some_while_window", raw: true });
    let ghost start = *p;
    let (result, Ghost(count)) = window_body(p, size, &pred, false, true);
    let ghost mid = *p;
    let ghost taken = if result is Ok { count } else { 0nat };
    let res = p.leave(frame, Policy::Plain, result);
    proof {
        lemma_invoked(
            *old(p),
            start,
            mid,
            *p,
            builtin("take_some_while_window"),
            Policy::Plain,
            taken,
            res is Ok,
        );
        assert(window_run(pred, rest(*old(p)), size as nat, count));
    }
    res
}

/// As [`take_while_window`], but fails with `EndOfInput` where the stream is
/// shorter than the window.
pub fn take_while_some_window<I: Input, F: Fn(&Slice<I>) -> bool>(
    p: &mut Pear<I>,
    size: usize,
    pred: F,
) -> (res: Parsed<I, Many<I>>)
    requires
        old(p).wf(),
        forall|s: &Slice<I>| pred.requires((s,)),
    ensures
        exists|count: nat|
            {
                &&& #[trigger] window_run(pred, rest(*old(p)), size as nat, count)
                &&& window_taken::<I>(rest(*old(p)), size as nat, count, true, false, res)
                &&& invoked(
                    *old(p),
                    builtin("take_while_some_window"),
                    Policy::Plain,
                    if res is Ok {
                        count
                    } else {
                        0nat
                    },
                    res is Ok,
                    *final(p),
                )
            },
        res is Err ==> raised::<I, Many<I>>(
            res,
            *old(p),
            builtin("take_while_some_window"),
            0,
        ),
{
    let frame = p.enter(ParserInfo { name: "take_while_some_window", raw: true });
    let ghost start = *p;
    let (result, Ghost(count)) = window_body(p, size, &pred, true, false);
    let ghost mid = *p;
    let ghost taken = if result is Ok { count } else { 0nat };
    let res = p.leave(frame, Policy::Plain, result);
    proof {
        lemma_invoked(
            *old(p),
            start,
            mid,
            *p,
            builtin("take_while_some_window"),
            Policy::Plain,
            taken,
            res is Ok,
        );
        assert(window_run(pred, rest(*old(p)), size as nat, count));
    }
    res
}

/// As [`take_while_window`], but fails with `EndOfInput` where the stream is
/// shorter than the window, and with `PredicateViolation` where it would
/// consume no token.
pub fn take_some_while_some_window<I: Input, F: Fn(&Slice<I>) -> bool>(
    p: &mut Pear<I>,
    size: usize,
    pred: F,
) -> (res: Parsed<I, Many<I>>)
    requires
        old(p).wf(),
        forall|s: &Slice<I>| pred.requires((s,)),
    ensures
        exists|count: nat|
            {
                &&& #[trigger] window_run(pred, rest(*old(p)), size as nat, count)
                &&& window_taken::<I>(rest(*old(p)), size as nat, count, true, true, res)
                &&& invoked(
                    *old(p),
                    builtin("take_some_while_some_window"),
                    Policy::Plain,
                    if res is Ok {
                        count
                    } else {
                        0nat
                    },
                    res is Ok,
                    *final(p),
                )
            },
        res is Err ==> raised::<I, Many<I>>(
            res,
            *old(p),
            builtin("take_some_while_some_window"),
            0,
        ),
{
    let frame = p.enter(ParserInfo { name: "take_some_while_some_window", raw: true });
    let ghost start = *p;
    let (result, Ghost(count)) = window_body(p, size, &pred, true, true);
    let ghost mid = *p;
    let ghost taken = if result is Ok { count } else { 0nat };
    let res = p.leave(frame, Policy::Plain, result);
    proof {
        lemma_invoked(
            *old(p),
            start,
            mid,
            *p,
            builtin("take_some_while_some_window"),
            Policy::Plain,
            taken,
            res is Ok,
        );
        assert(window_run(pred, rest(*old(p)), size as nat, count));
    }
    res
}

/// Consumes the tokens before the first occurrence of `target`, and returns
/// them; the terminator itself is not consumed. Where `target` does not
/// occur, consumes and returns every token that is left. Never fails.
pub fn take_until_slice<I: Input>(p: &mut Pear<I>, target: &Slice<I>) -> (res: Parsed<
    I,
    Many<I>,
>)
    requires
        old(p).wf(),
    ensures
        res is Ok,
        until(rest(*old(p)), target@, res->Ok_0@.len()),
        res->Ok_0@ == rest(*old(p)).subrange(0, res->Ok_0@.len() as int),
        invoked(
            *old(p),
            builtin("take_until_slice"),
            Policy::Plain,
            res->Ok_0@.len(),
            true,
            *final(p),
        ),
{
    let frame = p.enter(ParserInfo { name: "take_until_slice", raw: true });
    let ghost start = *p;
    let (count, _found) = seek(&p.input, target);
    proof {
        lemma_until_within(rest(start), target@, count as nat);
    }
    let taken = consume(p, count);
    let ghost mid = *p;
    let res = p.leave(frame, Policy::Plain, Ok(taken));
    proof {
        lemma_invoked(
            *old(p),
            start,
            mid,
            *p,
            builtin("take_until_slice"),
            Policy::Plain,
            count as nat,
            true,
        );
    }
    res
}

/// Consumes the tokens before the first occurrence of `target`, and returns
/// them, where `target` occurs and at least one token comes before it.
///
/// Fails with `PredicateViolation` where `target` stands at the position or
/// does not occur. As the invocation does not rewind, the tokens up to the
/// terminator, or all of them where it is missing, stay consumed.
pub fn take_some_until_slice<I: Input>(p: &mut Pear<I>, target: &Slice<I>) -> (res: Parsed<
    I,
    Many<I>,
>)
    requires
        old(p).wf(),
    ensures
        exists|count: nat|
            {
                &&& #[trigger] until(rest(*old(p)), target@, count)
                &&& if count > 0 && !absent(rest(*old(p)), target@) {
                    &&& res is Ok
                    &&& res->Ok_0@ == rest(*old(p)).subrange(0, count as int)
                } else {
                    &&& caused::<I, Many<I>>(res, ErrorKind::PredicateViolation)
                    &&& raised::<I, Many<I>>(
                        res,
                        *old(p),
                        builtin("take_some_until_slice"),
                        count,
                    )
                }
                &&& invoked(
                    *old(p),
                    builtin("take_some_until_slice"),
                    Policy::Plain,
                    count,
                    res is Ok,
                    *final(p),
                )
            },
{
    let frame = p.enter(ParserInfo { name: "take_some_until_slice", raw: true });
    let ghost start = *p;
    let (count, found) = seek(&p.input, target);
    proof {
        lemma_until_within(rest(start), target@, count as nat);
    }
    let taken = consume(p, count);
    let result = if found && count > 0 {
        Ok(taken)
    } else {
        Err(ParseError::from_cause(ErrorKind::PredicateViolation))
    };
    let ghost mid = *p;
    let res = p.leave(frame, Policy::Plain, result);
    proof {
        lemma_invoked(
            *old(p),
            start,
            mid,
            *p,
            builtin("take_some_until_slice"),
            Policy::Plain,
            count as nat,
            res is Ok,
        );
        assert(until(rest(*old(p)), target@, count as nat));
    }
    res
}

/// Consumes the tokens up to and including the first occurrence of `target`,
/// and returns those before it. Where `target` does not occur, consumes and
/// returns every token that is left. Never fails.
pub fn take_until_and<I: Input>(p: &mut Pear<I>, target: &Slice<I>) -> (res: Parsed<
    I,
    Many<I>,
>)
    requires
        old(p).wf(),
    ensures
        res is Ok,
        until(rest(*old(p)), target@, res->Ok_0@.len()),
        res->Ok_0@ == rest(*old(p)).subrange(0, res->Ok_0@.len() as int),
        invoked(
            *old(p),
            builtin("take_until_and"),
            Policy::Plain,
            if absent(rest(*old(p)), target@) {
                res->Ok_0@.len()
            } else {
                res->Ok_0@.len() + target@.len()
            },
            true,
            *final(p),
        ),
{
    let frame = p.enter(ParserInfo { name: "take_until_and", raw: true });
    let ghost start = *p;
    let (count, found) = seek(&p.input, target);
    proof {
        lemma_until_within(rest(start), target@, count as nat);
    }
    proof {
        p.input.wf_bounds();
    }
    let taken = consume(p, count);
    if found {
        p.input.advance(target.len());
    }
    let ghost mid = *p;
    let res = p.leave(frame, Policy::Plain, Ok(taken));
    proof {
        lemma_invoked(
            *old(p),
            start,
            mid,
            *p,
            builtin("take_until_and"),
            Policy::Plain,
            if found {
                (count + target@.len()) as nat
            } else {
                count as nat
            },
            true,
        );
    }
    res
}

/// The tokens before a terminator are tokens of the stream, and so is the
/// terminator where it occurs.
pub proof fn lemma_until_within<T>(hay: Seq<T>, needle: Seq<T>, count: nat)
    requires
        until(hay, needle, count),
    ensures
        count <= hay.len(),
        !absent(hay, needle) ==> count + needle.len() <= hay.len(),
{
}

/// One stream has one number of tokens before a terminator: what
/// `take_until_slice` consumes is decided by the stream and the terminator.
pub proof fn law_until_unique<T>(hay: Seq<T>, needle: Seq<T>, a: nat, b: nat)
    requires
        until(hay, needle, a),
        until(hay, needle, b),
    ensures
        a == b,
{
}

/// On a stream that holds the terminator exactly once, at offset `at`, the
/// tokens before the terminator are the first `at`; on a stream that does
/// not hold it, they are the whole stream.
pub proof fn law_until_single_terminator<T>(hay: Seq<T>, needle: Seq<T>, at: nat, count: nat)
    requires
        until(hay, needle, count),
    ensures
        occurs_at(hay, needle, at as int) && (forall|other: int| #[trigger]
            occurs_at(hay, needle, other) ==> other == at) ==> count == at,
        absent(hay, needle) ==> count == hay.len(),
{
}

} // verus!
