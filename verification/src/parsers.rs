//! Parsers of single tokens, of given slices and of runs of tokens.
//!
//! Each is one invocation in raw mode, named after the function, and calls no
//! other parser: when tracing is enabled it reports its entry and its exit,
//! and a failure carries this invocation alone in its trace.

use vstd::prelude::*;
use crate::engine::{entered, left, Pear};
use crate::error::{ErrorKind, ParseError, TraceEntry};
use crate::info::{ParserInfo, Policy};
use crate::input::{Input, Many, Slice, Token};
use crate::trace::TraceEvent;

verus! {

/// The failure of a parser over the stream `I`.
pub type Failure<I> = ParseError<ErrorKind<<I as Input>::Token>, <I as Input>::Context>;

/// The result of a parser over the stream `I`.
pub type Parsed<I, O> = Result<O, Failure<I>>;

/// The identity of the library's parser `name`.
pub open spec fn builtin(name: &'static str) -> ParserInfo {
    ParserInfo { name, raw: true }
}

/// The tokens of the stream from its position on.
pub open spec fn rest<I: Input>(p: Pear<I>) -> Seq<I::Token> {
    p.input.tokens().subrange(p.input.pos() as int, p.input.tokens().len() as int)
}

/// The state `after` of a parse in which the invocation `info`, made in state
/// `before`, has run a body that calls no parser, has consumed `taken`
/// tokens, and has ended with `success`.
pub open spec fn invoked<I: Input>(
    before: Pear<I>,
    info: ParserInfo,
    policy: Policy,
    taken: nat,
    success: bool,
    after: Pear<I>,
) -> bool {
    &&& after.input.wf()
    &&& after.input.tokens() == before.input.tokens()
    &&& after.input.marks() == before.input.marks()
    &&& after.input.pos() == if policy.rewinds(success) {
        before.input.pos()
    } else {
        before.input.pos() + taken
    }
    &&& after.tracer.enabled == before.tracer.enabled
    &&& after.tracer.events@ == if before.tracer.enabled {
        before.tracer.events@.push(TraceEvent::Entry { info }).push(
            TraceEvent::Exit {
                info,
                success,
                context: if success {
                    None
                } else {
                    raised_context(before, taken)
                },
            },
        )
    } else {
        before.tracer.events@
    }
}

/// The context of a failure of an invocation made in state `before`, after
/// `taken` tokens.
pub open spec fn raised_context<I: Input>(before: Pear<I>, taken: nat) -> Option<I::Context> {
    I::context_between(before.input.tokens(), before.input.pos(), before.input.pos() + taken)
}

/// Whether `res` is the failure that the invocation `info`, made in state
/// `before`, raises after `taken` tokens: its trace holds this invocation
/// alone.
pub open spec fn raised<I: Input, O>(
    res: Parsed<I, O>,
    before: Pear<I>,
    info: ParserInfo,
    taken: nat,
) -> bool {
    match res {
        Ok(_) => false,
        Err(e) => e.trace@ == seq![TraceEntry { context: raised_context(before, taken), info }],
    }
}

/// Whether `res` is a failure with the cause `cause`.
pub open spec fn caused<I: Input, O>(res: Parsed<I, O>, cause: ErrorKind<I::Token>) -> bool {
    match res {
        Ok(_) => false,
        Err(e) => e.cause == cause,
    }
}

/// Whether `res` is a failure for finding `actual` in place of `expected`.
pub open spec fn mismatched<I: Input, O>(
    res: Parsed<I, O>,
    expected: Seq<I::Token>,
    actual: Seq<I::Token>,
) -> bool {
    match res {
        Ok(_) => false,
        Err(e) => e.cause.is_mismatch(expected, actual),
    }
}

/// An invocation whose body reports nothing and consumes `taken` tokens
/// leaves the parse as [`invoked`] says.
pub proof fn lemma_invoked<I: Input>(
    before: Pear<I>,
    start: Pear<I>,
    mid: Pear<I>,
    after: Pear<I>,
    info: ParserInfo,
    policy: Policy,
    taken: nat,
    success: bool,
)
    requires
        entered(before, info, start),
        mid.input.tokens() == start.input.tokens(),
        mid.input.marks() == start.input.marks(),
        mid.input.pos() == start.input.pos() + taken,
        mid.tracer == start.tracer,
        left(mid, info, policy, before.input.pos(), success, after),
    ensures
        invoked(before, info, policy, taken, success, after),
{
    assert(before.input.marks().push(before.input.pos()).drop_last() =~= before.input.marks());
}

/// Whether two slices hold the same tokens.
pub(crate) fn same_tokens<T: Token>(a: &[T], b: &[T]) -> (r: bool)
    ensures
        r == (a@ == b@),
{
    if a.len() != b.len() {
        return false;
    }
    let mut i: usize = 0;
    while i < a.len()
        invariant
            a@.len() == b@.len(),
            i <= a@.len(),
            forall|j: int| 0 <= j < i ==> a@[j] == b@[j],
        decreases a@.len() - i,
    {
        if !a[i].same(&b[i]) {
            return false;
        }
        i += 1;
    }
    assert(a@ =~= b@);
    true
}

/// A failure for finding the tokens of `actual` in place of those of
/// `expected`, with an empty trace.
fn mismatch<I: Input>(expected: &Slice<I>, actual: &Slice<I>) -> (e: Failure<I>)
    ensures
        e.cause.is_mismatch(expected@, actual@),
        e.trace@ == Seq::<TraceEntry<I::Context>>::empty(),
{
    ParseError::from_cause(
        ErrorKind::Mismatch {
            expected: vstd::slice::slice_to_vec(expected),
            actual: vstd::slice::slice_to_vec(actual),
        },
    )
}

/// Consumes the next `count` tokens and returns them. Reports nothing.
pub(crate) fn consume<I: Input>(p: &mut Pear<I>, count: usize) -> (taken: Many<I>)
    requires
        old(p).wf(),
        count <= rest(*old(p)).len(),
    ensures
        final(p).input.wf(),
        final(p).input.tokens() == old(p).input.tokens(),
        final(p).input.marks() == old(p).input.marks(),
        final(p).input.pos() == old(p).input.pos() + count,
        final(p).tracer == old(p).tracer,
        taken@ == rest(*old(p)).subrange(0, count as int),
{
    proof {
        p.input.wf_bounds();
    }
    let at = p.input.position();
    let taken = vstd::slice::slice_to_vec(p.input.window(at, at + count));
    p.input.advance(count);
    taken
}

/// The body shared by `eat` and `peek`: takes the next token if it is
/// `expected`.
pub(crate) fn expect_token<I: Input>(p: &mut Pear<I>, expected: I::Token) -> (res: Parsed<I, I::Token>)
    requires
        old(p).wf(),
    ensures
        final(p).input.wf(),
        final(p).input.tokens() == old(p).input.tokens(),
        final(p).input.marks() == old(p).input.marks(),
        final(p).tracer == old(p).tracer,
        res is Err ==> res->Err_0.trace@ == Seq::<TraceEntry<I::Context>>::empty(),
        rest(*old(p)).len() == 0 ==> caused::<I, I::Token>(res, ErrorKind::EndOfInput),
        rest(*old(p)).len() > 0 && rest(*old(p))[0] != expected ==> mismatched::<I, I::Token>(
            res,
            seq![expected],
            seq![rest(*old(p))[0]],
        ),
        rest(*old(p)).len() > 0 && rest(*old(p))[0] == expected ==> res == Ok::<
            I::Token,
            Failure<I>,
        >(expected),
        final(p).input.pos() == old(p).input.pos() + if res is Ok {
            1nat
        } else {
            0nat
        },
{
    proof {
        p.input.wf_bounds();
    }
    let at = p.input.position();
    if at >= p.input.len() {
        return Err(ParseError::from_cause(ErrorKind::EndOfInput));
    }
    let actual = p.input.token(at);
    if actual.same(&expected) {
        p.input.advance(1);
        Ok(actual)
    } else {
        let mut want: Vec<I::Token> = Vec::new();
        want.push(expected);
        let e = mismatch::<I>(want.as_slice(), p.input.window(at, at + 1));
        assert(p.input.tokens().subrange(at as int, at + 1) =~= seq![rest(*old(p))[0]]);
        Err(e)
    }
}

/// Consumes the next token if it equals `expected`, and returns it.
///
/// Fails with a mismatch of `expected` and the next token, or at the end of
/// the stream with `EndOfInput`; a failure consumes nothing.
pub fn eat<I: Input>(p: &mut Pear<I>, expected: I::Token) -> (res: Parsed<I, I::Token>)
    requires
        old(p).wf(),
    ensures
        rest(*old(p)).len() > 0 && rest(*old(p))[0] == expected ==> res == Ok::<
            I::Token,
            Failure<I>,
        >(expected),
        rest(*old(p)).len() > 0 && rest(*old(p))[0] != expected ==> mismatched::<I, I::Token>(
            res,
            seq![expected],
            seq![rest(*old(p))[0]],
        ),
        rest(*old(p)).len() == 0 ==> caused::<I, I::Token>(res, ErrorKind::EndOfInput),
        res is Err ==> raised::<I, I::Token>(res, *old(p), builtin("eat"), 0),
        invoked(
            *old(p),
            builtin("eat"),
            Policy::Plain,
            if res is Ok {
                1nat
            } else {
                0nat
            },
            res is Ok,
            *final(p),
        ),
{
    let frame = p.enter(ParserInfo { name: "eat", raw: true });
    let ghost start = *p;
    let result = expect_token(p, expected);
    let ghost mid = *p;
    let ghost taken = if result is Ok { 1nat } else { 0nat };
    let res = p.leave(frame, Policy::Plain, result);
    proof {
        lemma_invoked(*old(p), start, mid, *p, builtin("eat"), Policy::Plain, taken, res is Ok);
    }
    res
}

/// Consumes the next token, whatever it is, and returns it.
///
/// Fails at the end of the stream with `EndOfInput`.
pub fn eat_any<I: Input>(p: &mut Pear<I>) -> (res: Parsed<I, I::Token>)
    requires
        old(p).wf(),
    ensures
        rest(*old(p)).len() > 0 ==> res == Ok::<I::Token, Failure<I>>(rest(*old(p))[0]),
        rest(*old(p)).len() == 0 ==> caused::<I, I::Token>(res, ErrorKind::EndOfInput),
        res is Err ==> raised::<I, I::Token>(res, *old(p), builtin("eat_any"), 0),
        invoked(
            *old(p),
            builtin("eat_any"),
            Policy::Plain,
            if res is Ok {
                1nat
            } else {
                0nat
            },
            res is Ok,
            *final(p),
        ),
{
    let frame = p.enter(ParserInfo { name: "eat_any", raw: true });
    let ghost start = *p;
    proof {
        p.input.wf_bounds();
    }
    let at = p.input.position();
    let result = if at < p.input.len() {
        let token = p.input.token(at);
        p.input.advance(1);
        Ok(token)
    } else {
        Err(ParseError::from_cause(ErrorKind::EndOfInput))
    };
    let ghost mid = *p;
    let ghost taken = if result is Ok { 1nat } else { 0nat };
    let res = p.leave(frame, Policy::Plain, result);
    proof {
        lemma_invoked(*old(p), start, mid, *p, builtin("eat_any"), Policy::Plain, taken, res is Ok);
    }
    res
}

/// Consumes the next token, whatever it is.
///
/// Fails at the end of the stream with `EndOfInput`.
pub fn skip_any<I: Input>(p: &mut Pear<I>) -> (res: Parsed<I, ()>)
    requires
        old(p).wf(),
    ensures
        rest(*old(p)).len() > 0 ==> res is Ok,
        rest(*old(p)).len() == 0 ==> caused::<I, ()>(res, ErrorKind::EndOfInput),
        res is Err ==> raised::<I, ()>(res, *old(p), builtin("skip_any"), 0),
        invoked(
            *old(p),
            builtin("skip_any"),
            Policy::Plain,
            if res is Ok {
                1nat
            } else {
                0nat
            },
            res is Ok,
            *final(p),
        ),
{
    let frame = p.enter(ParserInfo { name: "skip_any", raw: true });
    let ghost start = *p;
    proof {
        p.input.wf_bounds();
    }
    let result = if p.input.position() < p.input.len() {
        p.input.advance(1);
        Ok(())
    } else {
        Err(ParseError::from_cause(ErrorKind::EndOfInput))
    };
    let ghost mid = *p;
    let ghost taken = if result is Ok { 1nat } else { 0nat };
    let res = p.leave(frame, Policy::Plain, result);
    proof {
        lemma_invoked(*old(p), start, mid, *p, builtin("skip_any"), Policy::Plain, taken, res is Ok);
    }
    res
}

/// Succeeds at the end of the stream, and nowhere else.
///
/// Fails with a mismatch of nothing expected and the next token found.
pub fn eof<I: Input>(p: &mut Pear<I>) -> (res: Parsed<I, ()>)
    requires
        old(p).wf(),
    ensures
        rest(*old(p)).len() == 0 ==> res is Ok,
        rest(*old(p)).len() > 0 ==> mismatched::<I, ()>(
            res,
            Seq::<I::Token>::empty(),
            seq![rest(*old(p))[0]],
        ),
        res is Err ==> raised::<I, ()>(res, *old(p), builtin("eof"), 0),
        invoked(*old(p), builtin("eof"), Policy::Plain, 0, res is Ok, *final(p)),
{
    let frame = p.enter(ParserInfo { name: "eof", raw: true });
    let ghost start = *p;
    proof {
        p.input.wf_bounds();
    }
    let at = p.input.position();
    let result = if at < p.input.len() {
        let nothing: Vec<I::Token> = Vec::new();
        let e = mismatch::<I>(nothing.as_slice(), p.input.window(at, at + 1));
        assert(p.input.tokens().subrange(at as int, at + 1) =~= seq![rest(*old(p))[0]]);
        Err(e)
    } else {
        Ok(())
    };
    let ghost mid = *p;
    let res = p.leave(frame, Policy::Plain, result);
    proof {
        lemma_invoked(*old(p), start, mid, *p, builtin("eof"), Policy::Plain, 0, res is Ok);
    }
    res
}

/// Tests the next token against `expected` and consumes nothing.
///
/// Succeeds and fails as [`eat`] does; being a peek invocation, it returns at
/// the position it was made at on either outcome.
pub fn peek<I: Input>(p: &mut Pear<I>, expected: I::Token) -> (res: Parsed<I, I::Token>)
    requires
        old(p).wf(),
    ensures
        rest(*old(p)).len() > 0 && rest(*old(p))[0] == expected ==> res == Ok::<
            I::Token,
            Failure<I>,
        >(expected),
        rest(*old(p)).len() > 0 && rest(*old(p))[0] != expected ==> mismatched::<I, I::Token>(
            res,
            seq![expected],
            seq![rest(*old(p))[0]],
        ),
        rest(*old(p)).len() == 0 ==> caused::<I, I::Token>(res, ErrorKind::EndOfInput),
        res is Err ==> raised::<I, I::Token>(res, *old(p), builtin("peek"), 0),
        invoked(
            *old(p),
            builtin("peek"),
            Policy::Peek,
            if res is Ok {
                1nat
            } else {
                0nat
            },
            res is Ok,
            *final(p),
        ),
        final(p).input.pos() == old(p).input.pos(),
{
    let frame = p.enter(ParserInfo { name: "peek", raw: true });
    let ghost start = *p;
    let result = expect_token(p, expected);
    let ghost mid = *p;
    let ghost taken = if result is Ok { 1nat } else { 0nat };
    let res = p.leave(frame, Policy::Peek, result);
    proof {
        lemma_invoked(*old(p), start, mid, *p, builtin("peek"), Policy::Peek, taken, res is Ok);
    }
    res
}

/// What `eat_slice` and `peek_slice` return on the remaining tokens `rest`:
/// the expected tokens if the stream goes on with them, `EndOfInput` if it is
/// shorter than they are, and else a mismatch of the expected tokens and
/// those found in their place.
pub open spec fn slice_expected<I: Input>(
    rest: Seq<I::Token>,
    expected: Seq<I::Token>,
    res: Parsed<I, Many<I>>,
) -> bool {
    if rest.len() < expected.len() {
        caused::<I, Many<I>>(res, ErrorKind::EndOfInput)
    } else if rest.subrange(0, expected.len() as int) == expected {
        res is Ok && res->Ok_0@ == expected
    } else {
        mismatched::<I, Many<I>>(res, expected, rest.subrange(0, expected.len() as int))
    }
}

/// The body shared by `eat_slice` and `peek_slice`.
fn expect_slice<I: Input>(p: &mut Pear<I>, expected: &Slice<I>) -> (res: Parsed<
    I,
    Many<I>,
>)
    requires
        old(p).wf(),
    ensures
        final(p).input.wf(),
        final(p).input.tokens() == old(p).input.tokens(),
        final(p).input.marks() == old(p).input.marks(),
        final(p).tracer == old(p).tracer,
        res is Err ==> res->Err_0.trace@ == Seq::<TraceEntry<I::Context>>::empty(),
        slice_expected::<I>(rest(*old(p)), expected@, res),
        final(p).input.pos() == old(p).input.pos() + if res is Ok {
            expected@.len()
        } else {
            0nat
        },
{
    proof {
        p.input.wf_bounds();
    }
    let at = p.input.position();
    let n = expected.len();
    if p.input.len() - at < n {
        return Err(ParseError::from_cause(ErrorKind::EndOfInput));
    }
    let found = p.input.window(at, at + n);
    assert(found@ =~= rest(*old(p)).subrange(0, n as int));
    if same_tokens(found, expected) {
        let taken = vstd::slice::slice_to_vec(found);
        p.input.advance(n);
        Ok(taken)
    } else {
        Err(mismatch::<I>(expected, found))
    }
}

/// Consumes the next tokens if they are those of `expected`, and returns
/// them.
///
/// Fails with `EndOfInput` where fewer tokens are left than `expected` has,
/// and else with a mismatch of `expected` and the tokens in its place; a
/// failure consumes nothing.
pub fn eat_slice<I: Input>(p: &mut Pear<I>, expected: &Slice<I>) -> (res: Parsed<
    I,
    Many<I>,
>)
    requires
        old(p).wf(),
    ensures
        slice_expected::<I>(rest(*old(p)), expected@, res),
        res is Err ==> raised::<I, Many<I>>(res, *old(p), builtin("eat_slice"), 0),
        invoked(
            *old(p),
            builtin("eat_slice"),
            Policy::Plain,
            if res is Ok {
                expected@.len()
            } else {
                0nat
            },
            res is Ok,
            *final(p),
        ),
{
    let frame = p.enter(ParserInfo { name: "eat_slice", raw: true });
    let ghost start = *p;
    let result = expect_slice(p, expected);
    let ghost mid = *p;
    let ghost taken = if result is Ok { expected@.len() } else { 0nat };
    let res = p.leave(frame, Policy::Plain, result);
    proof {
        lemma_invoked(*old(p), start, mid, *p, builtin("eat_slice"), Policy::Plain, taken, res is Ok);
    }
    res
}

/// Tests the next tokens against `expected` and consumes nothing.
///
/// Succeeds and fails as [`eat_slice`] does; being a peek invocation, it
/// returns at the position it was made at on either outcome.
pub fn peek_slice<I: Input>(p: &mut Pear<I>, expected: &Slice<I>) -> (res: Parsed<
    I,
    Many<I>,
>)
    requires
        old(p).wf(),
    ensures
        slice_expected::<I>(rest(*old(p)), expected@, res),
        res is Err ==> raised::<I, Many<I>>(res, *old(p), builtin("peek_slice"), 0),
        invoked(
            *old(p),
            builtin("peek_slice"),
            Policy::Peek,
            if res is Ok {
                expected@.len()
            } else {
                0nat
            },
            res is Ok,
            *final(p),
        ),
        final(p).input.pos() == old(p).input.pos(),
{
    let frame = p.enter(ParserInfo { name: "peek_slice", raw: true });
    let ghost start = *p;
    let result = expect_slice(p, expected);
    let ghost mid = *p;
    let ghost taken = if result is Ok { expected@.len() } else { 0nat };
    let res = p.leave(frame, Policy::Peek, result);
    proof {
        lemma_invoked(*old(p), start, mid, *p, builtin("peek_slice"), Policy::Peek, taken, res is Ok);
    }
    res
}

/// Whether the `count` tokens of `tokens` from `from` on are a maximal run of
/// tokens that `pred` accepts: it returns `true` for each of them, and the
/// run ends with the tokens or before one for which it returns `false`.
pub open spec fn run_of<T, F: Fn(&T) -> bool>(pred: F, tokens: Seq<T>, from: nat, count: nat) -> bool {
    &&& from + count <= tokens.len()
    &&& forall|i: int| from <= i < from + count ==> pred.ensures((&#[trigger] tokens[i],), true)
    &&& (from + count == tokens.len() || pred.ensures((&tokens[(from + count) as int],), false))
}

/// Counts the tokens from the position on that `pred` accepts, up to the
/// first that it does not. Consumes nothing.
pub(crate) fn count_while<I: Input, F: Fn(&I::Token) -> bool>(input: &I, pred: &F) -> (count: usize)
    requires
        input.wf(),
        forall|t: I::Token| pred.requires((&t,)),
    ensures
        run_of(*pred, input.tokens(), input.pos(), count as nat),
{
    proof {
        input.wf_bounds();
    }
    let from = input.position();
    let end = input.len();
    let mut at = from;
    while at < end
        invariant
            input.wf(),
            from == input.pos(),
            end == input.tokens().len(),
            from <= at <= end,
            forall|t: I::Token| pred.requires((&t,)),
            forall|i: int| from <= i < at ==> pred.ensures((&#[trigger] input.tokens()[i],), true),
        decreases end - at,
    {
        let token = input.token(at);
        if !pred(&token) {
            return at - from;
        }
        at += 1;
    }
    at - from
}

/// Consumes the longest run of tokens that `pred` accepts, and returns them.
/// Never fails; the run may be empty.
pub fn take_while<I: Input, F: Fn(&I::Token) -> bool>(p: &mut Pear<I>, pred: F) -> (res: Parsed<
    I,
    Many<I>,
>)
    requires
        old(p).wf(),
        forall|t: I::Token| pred.requires((&t,)),
    ensures
        res is Ok,
        run_of(pred, old(p).input.tokens(), old(p).input.pos(), res->Ok_0@.len()),
        res->Ok_0@ == rest(*old(p)).subrange(0, res->Ok_0@.len() as int),
        invoked(
            *old(p),
            builtin("take_while"),
            Policy::Plain,
            res->Ok_0@.len(),
            true,
            *final(p),
        ),
{
    let frame = p.enter(ParserInfo { name: "take_while", raw: true });
    let ghost start = *p;
    let count = count_while(&p.input, &pred);
    proof {
        p.input.wf_bounds();
    }
    let at = p.input.position();
    let taken = vstd::slice::slice_to_vec(p.input.window(at, at + count));
    p.input.advance(count);
    let ghost mid = *p;
    let res = p.leave(frame, Policy::Plain, Ok(taken));
    proof {
        lemma_invoked(
            *old(p),
            start,
            mid,
            *p,
            builtin("take_while"),
            Policy::Plain,
            count as nat,
            true,
        );
    }
    res
}

/// Consumes the longest run of tokens that `pred` accepts, and returns them.
///
/// Fails with `PredicateViolation` if the run is empty.
pub fn take_some_while<I: Input, F: Fn(&I::Token) -> bool>(p: &mut Pear<I>, pred: F) -> (res:
    Parsed<I, Many<I>>)
    requires
        old(p).wf(),
        forall|t: I::Token| pred.requires((&t,)),
    ensures
        exists|count: nat|
            {
                &&& #[trigger] run_of(pred, old(p).input.tokens(), old(p).input.pos(), count)
                &&& if count == 0 {
                    &&& caused::<I, Many<I>>(res, ErrorKind::PredicateViolation)
                    &&& raised::<I, Many<I>>(res, *old(p), builtin("take_some_while"), 0)
                } else {
                    &&& res is Ok
                    &&& res->Ok_0@ == rest(*old(p)).subrange(0, count as int)
                }
                &&& invoked(
                    *old(p),
                    builtin("take_some_while"),
                    Policy::Plain,
                    count,
                    count > 0,
                    *final(p),
                )
            },
{
    let frame = p.enter(ParserInfo { name: "take_some_while", raw: true });
    let ghost start = *p;
    let count = count_while(&p.input, &pred);
    proof {
        p.input.wf_bounds();
    }
    let at = p.input.position();
    let result = if count == 0 {
        Err(ParseError::from_cause(ErrorKind::PredicateViolation))
    } else {
        let taken = vstd::slice::slice_to_vec(p.input.window(at, at + count));
        p.input.advance(count);
        Ok(taken)
    };
    let ghost mid = *p;
    let res = p.leave(frame, Policy::Plain, result);
    proof {
        lemma_invoked(
            *old(p),
            start,
            mid,
            *p,
            builtin("take_some_while"),
            Policy::Plain,
            count as nat,
            count > 0,
        );
    }
    res
}

/// Consumes the longest run of tokens that `pred` accepts, and returns how
/// many they were. Never fails.
pub fn skip_while<I: Input, F: Fn(&I::Token) -> bool>(p: &mut Pear<I>, pred: F) -> (res: Parsed<
    I,
    usize,
>)
    requires
        old(p).wf(),
        forall|t: I::Token| pred.requires((&t,)),
    ensures
        res is Ok,
        run_of(pred, old(p).input.tokens(), old(p).input.pos(), res->Ok_0 as nat),
        invoked(
            *old(p),
            builtin("skip_while"),
            Policy::Plain,
            res->Ok_0 as nat,
            true,
            *final(p),
        ),
{
    let frame = p.enter(ParserInfo { name: "skip_while", raw: true });
    let ghost start = *p;
    let count = count_while(&p.input, &pred);
    p.input.advance(count);
    let ghost mid = *p;
    let res = p.leave(frame, Policy::Plain, Ok(count));
    proof {
        lemma_invoked(
            *old(p),
            start,
            mid,
            *p,
            builtin("skip_while"),
            Policy::Plain,
            count as nat,
            true,
        );
    }
    res
}

} // verus!
