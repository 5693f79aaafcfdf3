use pear::cursor::Text;
use pear::engine::{parser, Pear};
use pear::error::{ErrorKind, ParseError};
use pear::info::Policy;
use pear::parse::parse;
use pear::parsers::{eat, eof, Failure, Parsed};
use pear::switch::{switch, Case};

type Res<T> = Parsed<Text, T>;

type Guard = fn(&mut Pear<Text>) -> Res<()>;

type Then = fn(&mut Pear<Text>, Option<()>) -> Res<&'static str>;

fn keep(cause: ErrorKind<char>) -> ErrorKind<char> {
    cause
}

fn ab(p: &mut Pear<Text>) -> Res<()> {
    parser(
        p,
        "ab",
        Policy::Rewind,
        |p: &mut Pear<Text>| {
            eat(p, 'a')?;
            eat(p, 'b')?;
            eof(p)?;
            Ok(())
        },
        keep,
    )
}

fn abc(p: &mut Pear<Text>) -> Res<()> {
    parser(
        p,
        "abc",
        Policy::Rewind,
        |p: &mut Pear<Text>| {
            eat(p, 'a')?;
            eat(p, 'b')?;
            eat(p, 'c')?;
            eof(p)?;
            Ok(())
        },
        keep,
    )
}

fn abcd(p: &mut Pear<Text>) -> Res<()> {
    parser(
        p,
        "abcd",
        Policy::Rewind,
        |p: &mut Pear<Text>| {
            eat(p, 'a')?;
            eat(p, 'b')?;
            eat(p, 'c')?;
            eat(p, 'd')?;
            eof(p)?;
            Ok(())
        },
        keep,
    )
}

fn is_ab(_: &mut Pear<Text>, _: Option<()>) -> Res<&'static str> {
    Ok("ab")
}

fn is_abc(_: &mut Pear<Text>, _: Option<()>) -> Res<&'static str> {
    Ok("abc")
}

fn is_abcd(_: &mut Pear<Text>, _: Option<()>) -> Res<&'static str> {
    Ok("abcd")
}

fn is_none(_: &mut Pear<Text>, _: Option<()>) -> Res<&'static str> {
    let refusal: Failure<Text> = ParseError::user("not ab, abc, or abcd");
    Err(refusal)
}

fn combo(p: &mut Pear<Text>) -> Res<&'static str> {
    parser(
        p,
        "combo",
        Policy::Plain,
        |p: &mut Pear<Text>| {
            let cases: Vec<Case<Guard, Then>> = vec![
                Case::Guarded(vec![ab as Guard], is_ab as Then),
                Case::Guarded(vec![abc as Guard], is_abc as Then),
                Case::Guarded(vec![abcd as Guard], is_abcd as Then),
                Case::Wild(is_none as Then),
            ];
            switch(p, &cases)
        },
        keep,
    )
}

#[test]
fn test_rewinding_ab() {
    let result = parse(Text::from_text("ab"), combo).unwrap();
    assert_eq!(result, "ab")
}

#[test]
fn test_rewinding_abc() {
    let result = parse(Text::from_text("abc"), combo).unwrap();
    assert_eq!(result, "abc")
}

#[test]
fn test_rewinding_abcd() {
    let result = parse(Text::from_text("abcd"), combo).unwrap();
    assert_eq!(result, "abcd")
}

#[test]
fn test_rewinding_fail() {
    let result = parse(Text::from_text("a"), combo);
    assert!(result.is_err());

    let result = parse(Text::from_text("abcdef"), combo);
    assert!(result.is_err());
}
