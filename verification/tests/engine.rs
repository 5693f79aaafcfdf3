use std::cell::Cell;

use pear::cursor::{Cursor, Span, Text};
use pear::engine::{invoke, parser, Pear};
use pear::error::{ErrorKind, ParseError, TraceEntry};
use pear::info::{Marker, ParserInfo, Policy};
use pear::input::{Input, Token};
use pear::parse::{parse, parse_traced, parse_with};
use pear::parsers::{eat, eat_any, peek, take_while, Failure, Parsed};
use pear::switch::{switch, Case};
use pear::trace::{TraceEvent, Tracer};
use pear::window::take_until_slice;

type Res<T> = Parsed<Text, T>;

fn chars(s: &str) -> Vec<char> {
    s.chars().collect()
}

fn text(tokens: Vec<char>) -> String {
    tokens.into_iter().collect()
}

fn on(s: &str) -> Pear<Text> {
    Pear::quiet(Text::from_text(s))
}

fn traced(s: &str) -> Pear<Text> {
    Pear::new(Text::from_text(s), Tracer::recording())
}

fn keep(cause: ErrorKind<char>) -> ErrorKind<char> {
    cause
}

fn a_then_b(p: &mut Pear<Text>) -> Res<char> {
    eat(p, 'a')?;
    eat(p, 'b')
}

#[test]
fn a_failing_rewind_parser_restores_the_position() {
    let mut p = on("xxac");
    eat_any(&mut p).unwrap();
    eat_any(&mut p).unwrap();
    let res = invoke(&mut p, "ab", true, Policy::Rewind, a_then_b);
    assert!(res.is_err());
    assert_eq!(p.input.position(), 2);
}

#[test]
fn a_succeeding_rewind_parser_keeps_what_it_consumed() {
    let mut p = on("abc");
    assert_eq!(invoke(&mut p, "ab", true, Policy::Rewind, a_then_b), Ok('b'));
    assert_eq!(p.input.position(), 2);
}

#[test]
fn a_failing_plain_parser_stays_where_it_failed() {
    let mut p = on("ac");
    let res = invoke(&mut p, "ab", true, Policy::Plain, a_then_b);
    assert!(res.is_err());
    assert_eq!(p.input.position(), 1);
}

#[test]
fn a_peek_parser_never_consumes() {
    let mut p = on("abc");
    assert_eq!(invoke(&mut p, "ab", true, Policy::Peek, a_then_b), Ok('b'));
    assert_eq!(p.input.position(), 0);

    let mut p = on("acb");
    assert!(invoke(&mut p, "ab", true, Policy::Peek, a_then_b).is_err());
    assert_eq!(p.input.position(), 0);
}

#[test]
fn the_policy_decides_the_rewind() {
    assert!(!Policy::Plain.must_rewind(true));
    assert!(!Policy::Plain.must_rewind(false));
    assert!(!Policy::Rewind.must_rewind(true));
    assert!(Policy::Rewind.must_rewind(false));
    assert!(Policy::Peek.must_rewind(true));
    assert!(Policy::Peek.must_rewind(false));
}

fn c(p: &mut Pear<Text>) -> Res<char> {
    invoke(p, "c", true, Policy::Plain, |p: &mut Pear<Text>| {
        eat(p, 'x')?;
        let refusal: Failure<Text> = ParseError::user("no");
        Err(refusal)
    })
}

fn b(p: &mut Pear<Text>) -> Res<char> {
    parser(
        p,
        "b",
        Policy::Plain,
        |p: &mut Pear<Text>| {
            eat(p, 'x')?;
            c(p)
        },
        keep,
    )
}

fn a(p: &mut Pear<Text>) -> Res<char> {
    parser(
        p,
        "a",
        Policy::Rewind,
        |p: &mut Pear<Text>| {
            eat(p, 'x')?;
            b(p)
        },
        keep,
    )
}

#[test]
fn the_trace_lists_the_innermost_invocation_first() {
    let mut p = on("xxxy");
    let failure = a(&mut p).unwrap_err();
    assert_eq!(failure.cause, ErrorKind::UserError("no".to_string()));
    assert_eq!(
        failure.trace,
        vec![
            TraceEntry {
                context: Some(Span { start: 2, end: 3 }),
                info: ParserInfo { name: "c", raw: true },
            },
            TraceEntry {
                context: Some(Span { start: 1, end: 3 }),
                info: ParserInfo { name: "b", raw: false },
            },
            TraceEntry {
                context: Some(Span { start: 0, end: 3 }),
                info: ParserInfo { name: "a", raw: false },
            },
        ]
    );
    assert_eq!(failure.depth(), 3);
    assert_eq!(p.input.position(), 0);
}

#[test]
fn a_user_error_starts_with_an_empty_trace() {
    let failure: Failure<Text> = ParseError::user("bad weight");
    assert_eq!(failure.cause, ErrorKind::UserError("bad weight".to_string()));
    assert_eq!(failure.trace, vec![]);
    assert_eq!(failure.depth(), 0);

    let other: Failure<Text> = ParseError::from_cause(ErrorKind::PredicateViolation);
    assert_eq!(other.cause, ErrorKind::PredicateViolation);
    assert_eq!(other.trace, vec![]);
}

#[test]
fn push_context_appends() {
    let mut failure: Failure<Text> = ParseError::from_cause(ErrorKind::EndOfInput);
    let inner = ParserInfo { name: "inner", raw: true };
    let outer = ParserInfo { name: "outer", raw: false };
    failure.push_context(None, inner);
    failure.push_context(Some(Span { start: 1, end: 4 }), outer);
    assert_eq!(
        failure.trace,
        vec![
            TraceEntry { context: None, info: inner },
            TraceEntry { context: Some(Span { start: 1, end: 4 }), info: outer },
        ]
    );
    assert_eq!(failure.cause, ErrorKind::EndOfInput);
}

#[derive(Debug, PartialEq)]
enum Mine {
    Syntax(ErrorKind<char>),
}

#[test]
fn a_nested_failure_is_converted_and_keeps_its_trace() {
    let mut p = on("b");
    let res: Result<char, ParseError<Mine, Span>> =
        parser(&mut p, "outer", Policy::Plain, |p: &mut Pear<Text>| eat(p, 'a'), Mine::Syntax);
    let failure = res.unwrap_err();
    assert_eq!(
        failure.cause,
        Mine::Syntax(ErrorKind::Mismatch { expected: vec!['a'], actual: vec!['b'] })
    );
    assert_eq!(
        failure.trace,
        vec![
            TraceEntry {
                context: Some(Span { start: 0, end: 0 }),
                info: ParserInfo { name: "eat", raw: true },
            },
            TraceEntry {
                context: Some(Span { start: 0, end: 0 }),
                info: ParserInfo { name: "outer", raw: false },
            },
        ]
    );

    let mut p = on("a");
    let res: Result<char, ParseError<Mine, Span>> =
        parser(&mut p, "outer", Policy::Plain, |p: &mut Pear<Text>| eat(p, 'a'), Mine::Syntax);
    assert_eq!(res, Ok('a'));
}

#[test]
fn convert_maps_the_cause() {
    let mut failure: Failure<Text> = ParseError::from_cause(ErrorKind::EndOfInput);
    failure.push_context(None, ParserInfo { name: "x", raw: true });
    let converted = failure.convert(|cause: ErrorKind<char>| format!("{:?}", cause));
    assert_eq!(converted.cause, "EndOfInput");
    assert_eq!(
        converted.trace,
        vec![TraceEntry { context: None, info: ParserInfo { name: "x", raw: true } }]
    );
}

#[test]
fn a_recording_tracer_sees_entries_and_exits() {
    let mut p = traced("ab");
    let res = invoke(&mut p, "outer", false, Policy::Rewind, |p: &mut Pear<Text>| {
        eat(p, 'a')?;
        eat(p, 'x')
    });
    assert!(res.is_err());
    let outer = ParserInfo { name: "outer", raw: false };
    let inner = ParserInfo { name: "eat", raw: true };
    assert_eq!(
        p.tracer.events,
        vec![
            TraceEvent::Entry { info: outer },
            TraceEvent::Entry { info: inner },
            TraceEvent::Exit { info: inner, success: true, context: None },
            TraceEvent::Entry { info: inner },
            TraceEvent::Exit {
                info: inner,
                success: false,
                context: Some(Span { start: 1, end: 1 }),
            },
            TraceEvent::Exit {
                info: outer,
                success: false,
                context: Some(Span { start: 0, end: 1 }),
            },
        ]
    );
    assert!(p.tracer.enabled);
}

#[test]
fn a_silent_tracer_records_nothing() {
    let mut p = on("ab");
    let _ = invoke(&mut p, "outer", false, Policy::Rewind, a_then_b);
    assert_eq!(p.tracer.events, vec![]);
    assert!(!p.tracer.enabled);

    let mut silent: Tracer<Span> = Tracer::silent();
    silent.report(TraceEvent::Entry { info: ParserInfo { name: "x", raw: true } });
    assert_eq!(silent.events, vec![]);

    let mut recording: Tracer<Span> = Tracer::recording();
    recording.report(TraceEvent::Entry { info: ParserInfo { name: "x", raw: true } });
    assert_eq!(
        recording.events,
        vec![TraceEvent::Entry { info: ParserInfo { name: "x", raw: true } }]
    );
}

#[test]
fn enter_and_leave_frame_a_body() {
    let mut p = traced("ab");
    let info = ParserInfo { name: "hand", raw: true };
    let frame = p.enter(info);
    assert_eq!(frame.info, info);
    assert_eq!(frame.marker.offset(), 0);
    assert!(!frame.marker.is_spent());
    p.input.advance(2);
    let failed: Res<()> = Err(ParseError::from_cause(ErrorKind::EndOfInput));
    let failure = p.leave(frame, Policy::Rewind, failed).unwrap_err();
    assert_eq!(
        failure.trace,
        vec![TraceEntry { context: Some(Span { start: 0, end: 2 }), info }]
    );
    assert_eq!(p.input.position(), 0);
    assert_eq!(
        p.tracer.events,
        vec![
            TraceEvent::Entry { info },
            TraceEvent::Exit { info, success: false, context: Some(Span { start: 0, end: 2 }) },
        ]
    );
}

#[test]
fn a_marker_is_spent_by_a_rewind() {
    let mut input = Text::from_text("abc");
    let info = ParserInfo { name: "m", raw: true };
    let mut marker = input.mark(&info);
    input.advance(2);
    assert_eq!(input.context(&marker), Some(Span { start: 0, end: 2 }));
    input.rewind_to(&mut marker);
    assert!(marker.is_spent());
    assert_eq!(marker.offset(), 0);
    assert_eq!(input.position(), 0);
    input.advance(1);
    input.unmark(&info, false, marker);
    assert_eq!(input.position(), 1);

    let mut fresh = Marker::at(7);
    assert_eq!(fresh.offset(), 7);
    assert!(!fresh.is_spent());
    fresh.spend();
    assert!(fresh.is_spent());
}

#[test]
fn a_cursor_gives_access_to_its_tokens() {
    let mut input = Cursor::new(vec![7u8, 8, 9]);
    assert_eq!(input.len(), 3);
    assert_eq!(input.position(), 0);
    assert_eq!(input.token(1), 8);
    assert_eq!(input.window(1, 3), &[8, 9]);
    input.advance(1);
    assert_eq!(input.position(), 1);
    assert_eq!(input.rest(), vec![8, 9]);
    assert!('a'.same(&'a'));
    assert!(!'a'.same(&'b'));
    assert!(7u8.same(&7u8));
    assert!(!7u8.same(&8u8));
}

#[test]
fn parse_requires_the_end_of_the_stream() {
    let res = parse(Text::from_text("ab"), a_then_b);
    assert_eq!(res, Ok('b'));

    let failure = parse(Text::from_text("abc"), a_then_b).unwrap_err();
    assert_eq!(failure.cause, ErrorKind::Mismatch { expected: vec![], actual: vec!['c'] });
    assert_eq!(
        failure.trace,
        vec![TraceEntry {
            context: Some(Span { start: 2, end: 2 }),
            info: ParserInfo { name: "eof", raw: true },
        }]
    );

    let failure = parse(Text::from_text("ax"), a_then_b).unwrap_err();
    assert_eq!(failure.cause, ErrorKind::Mismatch { expected: vec!['b'], actual: vec!['x'] });
}

#[test]
fn parse_with_runs_on_a_given_state() {
    let mut p = on("xab");
    eat_any(&mut p).unwrap();
    assert_eq!(parse_with(&mut p, a_then_b), Ok('b'));
    assert_eq!(p.input.position(), 3);
}

#[test]
fn parse_traced_hands_the_tracer_back() {
    let (res, tracer) = parse_traced(Text::from_text("a"), Tracer::recording(), |p: &mut Pear<
        Text,
    >| eat(p, 'a'));
    assert_eq!(res, Ok('a'));
    let eat_info = ParserInfo { name: "eat", raw: true };
    let eof_info = ParserInfo { name: "eof", raw: true };
    assert_eq!(
        tracer.events,
        vec![
            TraceEvent::Entry { info: eat_info },
            TraceEvent::Exit { info: eat_info, success: true, context: None },
            TraceEvent::Entry { info: eof_info },
            TraceEvent::Exit { info: eof_info, success: true, context: None },
        ]
    );
}

#[test]
fn switch_undoes_failing_guards_and_skips_later_ones() {
    let calls = Cell::new(0u32);
    let guard = |want: &'static str| {
        let calls = &calls;
        move |p: &mut Pear<Text>| -> Res<String> {
            calls.set(calls.get() + 1);
            let mut seen = String::new();
            for letter in want.chars() {
                seen.push(eat(p, letter)?);
            }
            Ok(seen)
        }
    };
    let then = |tag: u32| {
        move |p: &mut Pear<Text>, bound: Option<String>| -> Res<(u32, Option<String>, usize)> {
            Ok((tag, bound, p.input.position()))
        }
    };
    let cases = vec![
        Case::Guarded(vec![guard("abx"), guard("aby")], then(1)),
        Case::Guarded(vec![guard("abz"), guard("ab"), guard("a")], then(2)),
        Case::Guarded(vec![guard("abc")], then(3)),
        Case::Wild(then(4)),
    ];
    let mut p = on("abc");
    let res = switch(&mut p, &cases);
    assert_eq!(res, Ok((2, Some("ab".to_string()), 2)));
    assert_eq!(p.input.position(), 2);
    assert_eq!(calls.get(), 4);
}

#[test]
fn switch_reaches_the_wildcard_at_the_starting_position() {
    let guard = |p: &mut Pear<Text>| -> Res<char> {
        eat(p, 'a')?;
        eat(p, 'b')
    };
    let then = |p: &mut Pear<Text>, bound: Option<char>| -> Res<(Option<char>, usize)> {
        Ok((bound, p.input.position()))
    };
    let cases = vec![Case::Guarded(vec![guard], then), Case::Wild(then), Case::Guarded(vec![guard], then)];
    let mut p = on("ac");
    assert_eq!(switch(&mut p, &cases), Ok((None, 0)));
}

#[test]
fn a_consequence_may_go_on_parsing() {
    let guard = |p: &mut Pear<Text>| -> Res<char> { peek(p, '"') };
    let then = |p: &mut Pear<Text>, bound: Option<char>| -> Res<String> {
        match bound {
            Some(quote) => {
                eat(p, quote)?;
                let inner = take_until_slice(p, &[quote])?;
                eat(p, quote)?;
                Ok(text(inner))
            },
            None => Ok(text(take_while(p, |c: &char| *c != ';')?)),
        }
    };
    let cases = vec![Case::Guarded(vec![guard], then), Case::Wild(then)];
    let mut p = on("\"a b\";");
    assert_eq!(switch(&mut p, &cases), Ok("a b".to_string()));
    assert_eq!(p.input.rest(), chars(";"));

    let mut p = on("ab;");
    assert_eq!(switch(&mut p, &cases), Ok("ab".to_string()));
    assert_eq!(p.input.rest(), chars(";"));
}
