//! The entry points of a parse: run a parser, then require the end of the
//! stream.

use vstd::prelude::*;
use crate::engine::{follows, Pear};
use crate::input::Input;
use crate::parsers::{builtin, eof, invoked, mismatched, raised, rest, Parsed};
use crate::info::Policy;
use crate::trace::{TraceEvent, Tracer};

verus! {

/// Runs `parser` on the parse `p`, and then requires that the stream has been
/// consumed to its end.
///
/// A failure of `parser` is returned as it is. Where `parser` succeeds short
/// of the end of the stream, the result is the failure of [`eof`] there: a
/// mismatch of nothing expected and the next token.
pub fn parse_with<I: Input, O, F>(p: &mut Pear<I>, parser: F) -> (res: Parsed<I, O>) where
    F: FnOnce(&mut Pear<I>) -> Parsed<I, O>,

    requires
        old(p).wf(),
        forall|x: &mut Pear<I>| *x == *old(p) ==> #[trigger] parser.requires((x,)),
        forall|x: &mut Pear<I>, r: Parsed<I, O>|
            *x == *old(p) && #[trigger] parser.ensures((x,), r) ==> follows(*x, *final(x)),
    ensures
        follows(*old(p), *final(p)),
        exists|x: &mut Pear<I>, r: Parsed<I, O>|
            {
                &&& *x == *old(p)
                &&& #[trigger] parser.ensures((x,), r)
                &&& if r is Err {
                    res == r && *final(p) == *final(x)
                } else {
                    &&& invoked(
                        *final(x),
                        builtin("eof"),
                        Policy::Plain,
                        0,
                        rest(*final(x)).len() == 0,
                        *final(p),
                    )
                    &&& if rest(*final(x)).len() == 0 {
                        res == r
                    } else {
                        &&& mismatched::<I, O>(
                            res,
                            Seq::<I::Token>::empty(),
                            seq![rest(*final(x))[0]],
                        )
                        &&& raised::<I, O>(res, *final(x), builtin("eof"), 0)
                    }
                }
            },
{
    let result = parser(p);
    match result {
        Err(e) => Err(e),
        Ok(value) => {
            match eof(p) {
                Ok(_) => Ok(value),
                Err(e) => Err(e),
            }
        },
    }
}

/// Runs `parser` on `input` from its position to its end, reporting to
/// `tracer`, and returns the result with the tracer.
pub fn parse_traced<I: Input, O, F>(input: I, tracer: Tracer<I::Context>, parser: F) -> (out: (
    Parsed<I, O>,
    Tracer<I::Context>,
)) where F: FnOnce(&mut Pear<I>) -> Parsed<I, O>
    requires
        input.wf(),
        forall|x: &mut Pear<I>| (*x).input == input && (*x).tracer == tracer ==> #[trigger] parser.requires((x,)),
        forall|x: &mut Pear<I>, r: Parsed<I, O>|
            (*x).input == input && (*x).tracer == tracer && #[trigger] parser.ensures((x,), r)
                ==> follows(*x, *final(x)),
    ensures
        exists|x: &mut Pear<I>, r: Parsed<I, O>|
            {
                &&& (*x).input == input
                &&& (*x).tracer == tracer
                &&& #[trigger] parser.ensures((x,), r)
                &&& if r is Err {
                    out.0 == r && out.1 == final(x).tracer
                } else {
                    &&& out.1.enabled == tracer.enabled
                    &&& out.1.events@ == if tracer.enabled {
                        final(x).tracer.events@.push(TraceEvent::Entry { info: builtin("eof") }).push(
                            TraceEvent::Exit {
                                info: builtin("eof"),
                                success: rest(*final(x)).len() == 0,
                                context: if rest(*final(x)).len() == 0 {
                                    None
                                } else {
                                    crate::parsers::raised_context(*final(x), 0)
                                },
                            },
                        )
                    } else {
                        final(x).tracer.events@
                    }
                    &&& if rest(*final(x)).len() == 0 {
                        out.0 == r
                    } else {
                        &&& mismatched::<I, O>(
                            out.0,
                            Seq::<I::Token>::empty(),
                            seq![rest(*final(x))[0]],
                        )
                        &&& raised::<I, O>(out.0, *final(x), builtin("eof"), 0)
                    }
                }
            },
{
    let mut p = Pear::new(input, tracer);
    let res = parse_with(&mut p, parser);
    (res, p.tracer)
}

/// Runs `parser` on `input` from its position to its end, reporting nothing.
pub fn parse<I: Input, O, F>(input: I, parser: F) -> (res: Parsed<I, O>) where
    F: FnOnce(&mut Pear<I>) -> Parsed<I, O>,

    requires
        input.wf(),
        forall|x: &mut Pear<I>|
            (*x).input == input && !(*x).tracer.enabled ==> #[trigger] parser.requires((x,)),
        forall|x: &mut Pear<I>, r: Parsed<I, O>|
            (*x).input == input && !(*x).tracer.enabled && #[trigger] parser.ensures((x,), r)
                ==> follows(*x, *final(x)),
    ensures
        exists|x: &mut Pear<I>, r: Parsed<I, O>|
            {
                &&& (*x).input == input
                &&& !(*x).tracer.enabled
                &&& #[trigger] parser.ensures((x,), r)
                &&& if r is Err || rest(*final(x)).len() == 0 {
                    res == r
                } else {
                    &&& mismatched::<I, O>(res, Seq::<I::Token>::empty(), seq![rest(*final(x))[0]])
                    &&& raised::<I, O>(res, *final(x), builtin("eof"), 0)
                }
            },
{
    let mut p = Pear::quiet(input);
    parse_with(&mut p, parser)
}

} // verus!
