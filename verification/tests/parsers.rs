use pear::cursor::{Cursor, Text};
use pear::engine::{parser, Pear};
use pear::info::Policy;
use pear::input::Input;
use pear::parse::parse;
use pear::parsers::{eat_any, eat_slice, peek_slice, skip_any, take_while, Failure, Parsed};
use pear::error::ParseError;
use pear::window::{
    take_some_while_some_window, take_some_while_window, take_until_slice, take_while_slice,
    take_while_some_window, take_while_window,
};

type Res<T> = Parsed<Text, T>;

fn chars(s: &str) -> Vec<char> {
    s.chars().collect()
}

fn text(tokens: Vec<char>) -> String {
    tokens.into_iter().collect()
}

fn keep(cause: pear::error::ErrorKind<char>) -> pear::error::ErrorKind<char> {
    cause
}

fn take_until_str(p: &mut Pear<Text>, s: &str) -> Res<Vec<char>> {
    let target = chars(s);
    parser(
        p,
        "take_until_str",
        Policy::Plain,
        |p: &mut Pear<Text>| take_while_slice(p, |slice: &[char]| !slice.ends_with(&target)),
        keep,
    )
}

fn test_until(p: &mut Pear<Text>, s: &str, r: &str) -> Res<Vec<char>> {
    parser(
        p,
        "test_until",
        Policy::Plain,
        |p: &mut Pear<Text>| {
            let taken = take_until_str(p, s)?;
            eat_slice(p, &chars(r))?;
            Ok(taken)
        },
        keep,
    )
}

#[test]
fn test_while_slice() {
    let result = parse(Text::from_text("[[ a ] b c ]]"), |p: &mut Pear<Text>| {
        test_until(p, "]]", "]")
    });
    assert_eq!(text(result.unwrap()), "[[ a ] b c ]");

    let r = parse(Text::from_text("[[ a ]] b c ]]] hi"), |p: &mut Pear<Text>| {
        test_until(p, "]]]", "] hi")
    });
    assert_eq!(text(r.unwrap()), "[[ a ]] b c ]]");

    let r = parse(Text::from_text("[[ a ]] b c ]]]"), |p: &mut Pear<Text>| {
        test_until(p, "]", "]] b c ]]]")
    });
    assert_eq!(text(r.unwrap()), "[[ a ");
}

fn take_until_and_str(p: &mut Pear<Text>, s: &str) -> Res<Vec<char>> {
    let target = chars(s);
    parser(
        p,
        "take_until_and_str",
        Policy::Plain,
        |p: &mut Pear<Text>| {
            if target.is_empty() {
                let refusal: Failure<Text> = ParseError::user("what would that mean?");
                return Err(refusal);
            }

            let slice = take_while_slice(p, |slice: &[char]| !slice.ends_with(&target))?;
            if slice.ends_with(&target[..target.len() - 1]) {
                let _ = skip_any(p);
                Ok(slice[..slice.len() - (target.len() - 1)].to_vec())
            } else {
                Ok(slice)
            }
        },
        keep,
    )
}

fn test_until_and(p: &mut Pear<Text>, s: &str, r: &str) -> Res<Vec<char>> {
    parser(
        p,
        "test_until_and",
        Policy::Plain,
        |p: &mut Pear<Text>| {
            let taken = take_until_and_str(p, s)?;
            eat_slice(p, &chars(r))?;
            Ok(taken)
        },
        keep,
    )
}

#[test]
fn test_while_slice_and() {
    let result = parse(Text::from_text("[[ a ] b c ]]"), |p: &mut Pear<Text>| {
        test_until_and(p, "]]", "")
    });
    assert_eq!(text(result.unwrap()), "[[ a ] b c ");

    let r = parse(Text::from_text("[[ a ]] b c ]]] hi"), |p: &mut Pear<Text>| {
        test_until_and(p, "]]]", " hi")
    });
    assert_eq!(text(r.unwrap()), "[[ a ]] b c ");

    let r = parse(Text::from_text("[[ a ]] b c ]]]"), |p: &mut Pear<Text>| {
        test_until_and(p, "]", "] b c ]]]")
    });
    assert_eq!(text(r.unwrap()), "[[ a ");

    let r = parse(Text::from_text("hi"), |p: &mut Pear<Text>| test_until_and(p, "]", ""));
    assert_eq!(text(r.unwrap()), "hi");

    let r = parse(Text::from_text("🐥hi"), |p: &mut Pear<Text>| test_until_and(p, "]", ""));
    assert_eq!(text(r.unwrap()), "🐥hi");

    let r = parse(Text::from_text("[[ 🐥 ]] b c ]]]"), |p: &mut Pear<Text>| {
        test_until_and(p, "]", "] b c ]]]")
    });
    assert_eq!(text(r.unwrap()), "[[ 🐥 ");
}

fn test_until_window(p: &mut Pear<Text>, s: &str, r: &str) -> Res<Vec<char>> {
    parser(
        p,
        "test_until_window",
        Policy::Plain,
        |p: &mut Pear<Text>| {
            let taken = take_until_slice(p, &chars(s))?;
            eat_slice(p, &chars(r))?;
            Ok(taken)
        },
        keep,
    )
}

#[test]
fn test_while_slice_window() {
    let result = parse(Text::from_text("[[ a ] b c ]]"), |p: &mut Pear<Text>| {
        test_until_window(p, "]]", "]]")
    });
    assert_eq!(text(result.unwrap()), "[[ a ] b c ");

    let r = parse(Text::from_text("[[ a ]] b c ]]] hi"), |p: &mut Pear<Text>| {
        test_until_window(p, "]]]", "]]] hi")
    });
    assert_eq!(text(r.unwrap()), "[[ a ]] b c ");

    let r = parse(Text::from_text("[[ a ]] b c ]]]"), |p: &mut Pear<Text>| {
        test_until_window(p, "]", "]] b c ]]]")
    });
    assert_eq!(text(r.unwrap()), "[[ a ");

    let r = parse(Text::from_text("[[ 🐥 ]] b c ]]]"), |p: &mut Pear<Text>| {
        test_until_window(p, "]", "]] b c ]]]")
    });
    assert_eq!(text(r.unwrap()), "[[ 🐥 ");

    let r = parse(Text::from_text("🐥hi"), |p: &mut Pear<Text>| test_until_window(p, "]", ""));
    assert_eq!(text(r.unwrap()), "🐥hi");
}

#[test]
fn test_window_termination() {
    let result = take_while_window(&mut Pear::quiet(Text::from_text("a")), 2, |_: &[char]| false);
    assert_eq!(text(result.unwrap()), "a");

    let result = take_while_window(&mut Pear::quiet(Text::from_text("aa")), 2, |_: &[char]| false);
    assert_eq!(text(result.unwrap()), "");

    let result =
        take_some_while_some_window(&mut Pear::quiet(Text::from_text("a")), 2, |_: &[char]| false);
    assert!(result.is_err());

    let result =
        take_some_while_window(&mut Pear::quiet(Text::from_text("aa")), 2, |_: &[char]| false);
    assert!(result.is_err());

    let result = take_while_window(&mut Pear::quiet(Text::from_text("aa")), 2, |_: &[char]| true);
    assert_eq!(text(result.unwrap()), "a");

    let result =
        take_some_while_window(&mut Pear::quiet(Text::from_text("aa")), 2, |_: &[char]| true);
    assert_eq!(text(result.unwrap()), "a");

    let aa = chars("aa");
    let result =
        take_while_window(&mut Pear::quiet(Text::from_text("aaab")), 2, |s: &[char]| s == &aa[..]);
    assert_eq!(text(result.unwrap()), "aa");

    let result = take_some_while_window(
        &mut Pear::quiet(Text::from_text("aaab")),
        2,
        |s: &[char]| s == &aa[..],
    );
    assert_eq!(text(result.unwrap()), "aa");

    let result =
        take_while_some_window(&mut Pear::quiet(Text::from_text("aa")), 2, |_: &[char]| false);
    assert_eq!(text(result.unwrap()), "");
}

fn take_until_cursor_str(p: &mut Pear<Cursor<char>>, s: &str) -> Res<(usize, Vec<char>, usize)> {
    let target = chars(s);
    parser(
        p,
        "take_until_cursor_str",
        Policy::Plain,
        |p: &mut Pear<Cursor<char>>| {
            let start = p.input.position();
            let values = take_while_slice(p, |slice: &[char]| !slice.ends_with(&target))?;
            Ok((start, values, p.input.position()))
        },
        keep,
    )
}

#[test]
fn test_cursor() {
    let input = "abchello";
    let result = take_until_cursor_str(&mut Pear::quiet(Cursor::from_text(input)), "hell");
    let (start, values, end) = result.unwrap();
    assert_eq!(text(values.clone()), "abchel");
    assert_eq!(start, 0);
    assert_eq!(end, 6);
    assert_eq!(text(values), &input[start..end]);

    let input = "hellothisishe";
    let mut cursor = Pear::quiet(Cursor::from_text(input));

    peek_slice(&mut cursor, &chars("hello")).unwrap();

    let token = eat_any(&mut cursor).unwrap();
    assert_eq!(token, 'h');

    let (start, values, end) = take_until_cursor_str(&mut cursor, "this").unwrap();
    assert_eq!(text(values.clone()), "ellothi");
    assert_eq!(text(values), &input[start..end]);

    let (start, values, end) = take_until_cursor_str(&mut cursor, "is").unwrap();
    assert_eq!(text(values.clone()), "si");
    assert_eq!(text(values), &input[start..end]);

    println!("{:?}", cursor.input.position());
    let start = cursor.input.position();
    let values = take_while(&mut cursor, |_: &char| true).unwrap();
    let end = cursor.input.position();
    assert_eq!(text(values.clone()), "she");
    assert_eq!(text(values), &input[start..end]);
}
