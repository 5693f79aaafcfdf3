//! Parsers made of other parsers: an item between padding, and a series of
//! items between separators.

use vstd::prelude::*;
use crate::engine::{failure_context, follows, lemma_invocation_follows, propagated, Pear};
use crate::error::{ErrorKind, ParseError};
use crate::info::{ParserInfo, Policy};
use crate::input::{Input, Token};
use crate::parsers::{builtin, count_while, expect_token, rest, run_of, Failure, Parsed};
use crate::trace::{grown, TraceEvent};

verus! {

/// Whether `count` tokens of padding are skipped at `from` after an item:
/// the run that `padding` accepts there where the item succeeded, and none
/// where it failed.
pub open spec fn trailing_run<T, P: Fn(&T) -> bool>(
    padding: P,
    tokens: Seq<T>,
    from: nat,
    success: bool,
    count: nat,
) -> bool {
    if success {
        run_of(padding, tokens, from, count)
    } else {
        count == 0
    }
}

/// Skips the tokens that `padding` accepts, runs `item`, and skips the tokens
/// that `padding` accepts again. Returns what `item` returns.
///
/// This is the invocation `surrounded`; `item` runs inside it, after the
/// leading padding. On a failure of `item` the trailing padding is not
/// looked at, this invocation is appended to the failure's trace, and what
/// was consumed stays consumed.
pub fn surrounded<I: Input, O, F, P>(p: &mut Pear<I>, item: F, padding: P) -> (res: Parsed<I, O>)
    where
    F: FnOnce(&mut Pear<I>) -> Parsed<I, O>,
    P: Fn(&I::Token) -> bool,

    requires
        old(p).wf(),
        forall|t: I::Token| padding.requires((&t,)),
        forall|x: &mut Pear<I>|
            (*x).input.wf() && (*x).input.tokens() == old(p).input.tokens()
                ==> #[trigger] item.requires((x,)),
        forall|x: &mut Pear<I>, r: Parsed<I, O>|
            (*x).input.wf() && (*x).input.tokens() == old(p).input.tokens()
                && #[trigger] item.ensures((x,), r) ==> follows(*x, *final(x)),
    ensures
        follows(*old(p), *final(p)),
        exists|leading: nat, x: &mut Pear<I>, r: Parsed<I, O>, trailing: nat|
            #![trigger
                run_of(padding, old(p).input.tokens(), old(p).input.pos(), leading),
                item.ensures((x,), r),
                trailing_run(padding, old(p).input.tokens(), final(x).input.pos(), r is Ok, trailing),
            ]
            {
                &&& run_of(padding, old(p).input.tokens(), old(p).input.pos(), leading)
                &&& (*x).input.wf()
                &&& (*x).input.tokens() == old(p).input.tokens()
                &&& (*x).input.pos() == old(p).input.pos() + leading
                &&& (*x).input.marks() == old(p).input.marks().push(old(p).input.pos())
                &&& (*x).tracer.enabled == old(p).tracer.enabled
                &&& (*x).tracer.events@ == old(p).tracer.after(
                    TraceEvent::Entry { info: builtin("surrounded") },
                )
                &&& item.ensures((x,), r)
                &&& trailing_run(
                    padding,
                    old(p).input.tokens(),
                    final(x).input.pos(),
                    r is Ok,
                    trailing,
                )
                &&& final(p).input.pos() == final(x).input.pos() + trailing
                &&& final(p).tracer.events@ == final(x).tracer.after(
                    TraceEvent::Exit {
                        info: builtin("surrounded"),
                        success: r is Ok,
                        context: if r is Ok {
                            None
                        } else {
                            failure_context(*final(x), old(p).input.pos())
                        },
                    },
                )
                &&& propagated(
                    *final(x),
                    builtin("surrounded"),
                    old(p).input.pos(),
                    r,
                    res,
                )
            },
{
    let info = ParserInfo { name: "surrounded", raw: true };
    let frame = p.enter(info);
    let ghost start = *p;
    let leading = count_while(&p.input, &padding);
    p.input.advance(leading);
    let result = item(p);
    let ghost after_item = *p;
    let mut trailing: usize = 0;
    if result.is_ok() {
        trailing = count_while(&p.input, &padding);
        p.input.advance(trailing);
    }
    let ghost mid = *p;
    let res = p.leave(frame, Policy::Plain, result);
    proof {
        lemma_invocation_follows(*old(p), start, mid, *p, info, Policy::Plain, result is Ok);
        assert(trailing_run(
            padding,
            old(p).input.tokens(),
            after_item.input.pos(),
            result is Ok,
            trailing as nat,
        ));
    }
    res
}

/// Whether the token of `tokens` at `at` is `separator`.
pub open spec fn separator_at<T>(tokens: Seq<T>, at: nat, separator: T) -> bool {
    at < tokens.len() && tokens[at as int] == separator
}

/// Where the item of attempt number `i` of a series begins, in an attempt
/// that begins at `from`: there for the first attempt, and for the others
/// one token later, after the separator.
pub open spec fn item_from(from: nat, i: int) -> nat {
    if i == 0 {
        from
    } else {
        from + 1
    }
}

/// The state `now` in which an item of a series made in state `before`
/// starts at `at`, in an attempt that began at `from`: the stream holds the
/// markers of the series and of the attempt.
pub open spec fn item_start<I: Input>(before: Pear<I>, from: nat, at: nat, now: Pear<I>) -> bool {
    &&& now.input.wf()
    &&& now.input.tokens() == before.input.tokens()
    &&& now.input.pos() == at
    &&& now.input.marks() == before.input.marks().push(before.input.pos()).push(from)
    &&& now.tracer.enabled == before.tracer.enabled
    &&& grown(before.tracer.events@, now.tracer.events@)
}

/// Whether `item` can fail where it starts at `at`, in an attempt of a series
/// made in state `before` that began at `from`.
pub open spec fn item_fails<I: Input, O, F: Fn(&mut Pear<I>) -> Parsed<I, O>>(
    item: F,
    before: Pear<I>,
    from: nat,
    at: nat,
) -> bool {
    exists|x: &mut Pear<I>, r: Parsed<I, O>|
        item_start(before, from, at, *x) && #[trigger] item.ensures((x,), r) && r is Err
}

/// Whether `starts` and `ends` are where the `count` successful attempts of
/// a series made at `origin` begin and end: the first begins at `origin`,
/// each other where the one before it ended, and none ends before it begins
/// or beyond the `len` tokens of the stream.
pub open spec fn chained(origin: nat, len: nat, starts: Seq<nat>, ends: Seq<nat>, count: nat) -> bool {
    &&& starts.len() == count
    &&& ends.len() == count
    &&& forall|i: int|
        #![trigger starts[i], ends[i]]
        0 <= i < count ==> starts[i] <= ends[i] <= len && starts[i] == if i == 0 {
            origin
        } else {
            ends[i - 1]
        }
}

/// Where a series made at `origin` stands after the attempts that end at
/// `ends`.
pub open spec fn series_end(origin: nat, ends: Seq<nat>) -> nat {
    if ends.len() == 0 {
        origin
    } else {
        ends.last()
    }
}

/// Collects what `item` returns, for as long as it succeeds: first at the
/// position, then after each `separator` that follows an item. Never fails;
/// the collection may be empty.
///
/// This is the invocation `series`. Each attempt, a separator and the item
/// after it, is an invocation named `series_item` nested in it that rewinds
/// on failure: where the item after a separator fails, the separator is not
/// consumed either, and the series ends where the last item did.
///
/// The series ends where an attempt finds no separator, or where `item`
/// fails.
pub fn series<I: Input, O, F>(p: &mut Pear<I>, item: F, separator: I::Token) -> (res: Parsed<
    I,
    Vec<O>,
>) where F: Fn(&mut Pear<I>) -> Parsed<I, O>
    requires
        old(p).wf(),
        forall|x: &mut Pear<I>|
            (*x).input.wf() && (*x).input.tokens() == old(p).input.tokens()
                ==> #[trigger] item.requires((x,)),
        forall|x: &mut Pear<I>, r: Parsed<I, O>|
            (*x).input.wf() && (*x).input.tokens() == old(p).input.tokens()
                && #[trigger] item.ensures((x,), r) ==> follows(*x, *final(x)),
    ensures
        res is Ok,
        follows(*old(p), *final(p)),
        exists|starts: Seq<nat>, ends: Seq<nat>|
            #![trigger chained(old(p).input.pos(), old(p).input.tokens().len(), starts, ends, res->Ok_0@.len())]
            {
                &&& chained(
                    old(p).input.pos(),
                    old(p).input.tokens().len(),
                    starts,
                    ends,
                    res->Ok_0@.len(),
                )
                &&& forall|i: int|
                    #![trigger starts[i], ends[i]]
                    0 <= i < res->Ok_0@.len() ==> starts[i] <= ends[i] && (i > 0 ==> separator_at(
                        old(p).input.tokens(),
                        starts[i],
                        separator,
                    )) && exists|x: &mut Pear<I>|
                        #![trigger item.ensures((x,), Ok::<O, _>(res->Ok_0@[i]))]
                        {
                            &&& item_start(*old(p), starts[i], item_from(starts[i], i), *x)
                            &&& item.ensures((x,), Ok::<O, _>(res->Ok_0@[i]))
                            &&& final(x).input.pos() == ends[i]
                        }
                &&& final(p).input.pos() == series_end(old(p).input.pos(), ends)
                &&& {
                    ||| ends.len() > 0 && !separator_at(
                        old(p).input.tokens(),
                        final(p).input.pos(),
                        separator,
                    )
                    ||| item_fails::<I, O, F>(
                        item,
                        *old(p),
                        final(p).input.pos(),
                        item_from(final(p).input.pos(), ends.len() as int),
                    )
                }
            },
{
    let info = ParserInfo { name: "series", raw: true };
    let each = ParserInfo { name: "series_item", raw: true };
    let frame = p.enter(info);
    let ghost start = *p;
    let ghost origin = old(p).input.pos();
    let ghost len = old(p).input.tokens().len();
    let mut out: Vec<O> = Vec::new();
    let ghost mut starts: Seq<nat> = Seq::empty();
    let ghost mut ends: Seq<nat> = Seq::empty();
    let ghost mut no_separator = false;
    loop
        invariant_except_break
            !no_separator,
        invariant
            p.input.wf(),
            p.input.tokens() == old(p).input.tokens(),
            p.input.marks() == old(p).input.marks().push(origin),
            p.tracer.enabled == old(p).tracer.enabled,
            grown(start.tracer.events@, p.tracer.events@),
            grown(old(p).tracer.events@, start.tracer.events@),
            origin == old(p).input.pos(),
            len == old(p).input.tokens().len(),
            frame.info == info,
            frame.marker.position() == origin,
            !frame.marker.spent(),
            chained(origin, len, starts, ends, out@.len()),
            p.input.pos() == series_end(origin, ends),
            p.input.pos() >= origin,
            forall|i: int|
                #![trigger starts[i], ends[i]]
                0 <= i < out@.len() ==> starts[i] <= ends[i] && (i > 0 ==> separator_at(
                    old(p).input.tokens(),
                    starts[i],
                    separator,
                )) && exists|x: &mut Pear<I>|
                    #![trigger item.ensures((x,), Ok::<O, _>(out@[i]))]
                    {
                        &&& item_start(*old(p), starts[i], item_from(starts[i], i), *x)
                        &&& item.ensures((x,), Ok::<O, _>(out@[i]))
                        &&& final(x).input.pos() == ends[i]
                    },
            forall|x: &mut Pear<I>|
                (*x).input.wf() && (*x).input.tokens() == old(p).input.tokens()
                    ==> #[trigger] item.requires((x,)),
            forall|x: &mut Pear<I>, r: Parsed<I, O>|
                (*x).input.wf() && (*x).input.tokens() == old(p).input.tokens()
                    && #[trigger] item.ensures((x,), r) ==> follows(*x, *final(x)),
        ensures
            no_separator ==> ends.len() > 0 && !separator_at(
                old(p).input.tokens(),
                p.input.pos(),
                separator,
            ),
            !no_separator ==> item_fails::<I, O, F>(
                item,
                *old(p),
                p.input.pos(),
                item_from(p.input.pos(), ends.len() as int),
            ),
        decreases
                p.input.tokens().len() - p.input.pos() + if out@.len() == 0 {
                    1nat
                } else {
                    0nat
                },
    {
        proof {
            p.input.wf_bounds();
        }
        let ghost idle = *p;
        let ghost from = p.input.pos();
        let attempt = p.enter(each);
        let ghost entered_state = *p;
        let mut separated = true;
        if out.len() > 0 {
            match expect_token(p, separator) {
                Ok(_) => {},
                Err(_) => {
                    separated = false;
                },
            }
        }
        if !separated {
            let e = ParseError::from_cause(ErrorKind::EndOfInput);
            let ghost mid = *p;
            let _ = p.leave::<O, ErrorKind<I::Token>>(attempt, Policy::Rewind, Err(e));
            proof {
                lemma_invocation_follows(idle, entered_state, mid, *p, each, Policy::Rewind, false);
                no_separator = true;
            }
            break ;
        }
        let result = item(p);
        let ghost mid = *p;
        let outcome = p.leave(attempt, Policy::Rewind, result);
        proof {
            lemma_invocation_follows(idle, entered_state, mid, *p, each, Policy::Rewind, result is Ok);
            mid.input.wf_bounds();
        }
        match outcome {
            Ok(value) => {
                let ghost before_out = out@;
                out.push(value);
                proof {
                    starts = starts.push(from);
                    ends = ends.push(mid.input.pos());
                    assert forall|i: int|
                        #![trigger starts[i], ends[i]]
                        0 <= i < out@.len() implies starts[i] <= ends[i] && (i > 0
                        ==> separator_at(old(p).input.tokens(), starts[i], separator)) && exists|
                        x: &mut Pear<I>,
                    |
                        #![trigger item.ensures((x,), Ok::<O, _>(out@[i]))]
                        {
                            &&& item_start(*old(p), starts[i], item_from(starts[i], i), *x)
                            &&& item.ensures((x,), Ok::<O, _>(out@[i]))
                            &&& final(x).input.pos() == ends[i]
                        } by {
                        if i < before_out.len() {
                            assert(out@[i] == before_out[i]);
                        } else {
                            assert(out@[i] == value);
                        }
                    }
                }
            },
            Err(_) => {
                break ;
            },
        }
    }
    let ghost mid = *p;
    let res = p.leave(frame, Policy::Plain, Ok(out));
    proof {
        lemma_invocation_follows(*old(p), start, mid, *p, info, Policy::Plain, true);
    }
    res
}

} // verus!
