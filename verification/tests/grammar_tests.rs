//! The reader of sessions agrees with the grammar of sessions as parser
//! combinators write it down.

use nom::branch::alt;
use nom::bytes::complete::{is_a, is_not, tag};
use nom::character::complete::{multispace0, space0, space1};
use nom::combinator::{iterator, opt};
use nom::error::{Error, ErrorKind};
use nom::sequence::{pair, preceded, tuple};
use nom::{IResult, Parser};
use wh::shell::{parse, Item};

fn fail<'a, T>(input: &'a str) -> IResult<&'a str, T> {
    Err(nom::Err::Error(Error::new(input, ErrorKind::Fail)))
}

fn word(input: &str) -> IResult<&str, &str> {
    for (i, c) in input.char_indices() {
        if c == '=' {
            if i == 0 {
                return fail(input);
            }
            return Ok((&input[i + 1..], &input[..i]));
        }
        if c.is_ascii_whitespace() {
            return fail(input);
        }
    }
    fail(input)
}

fn line(input: &str) -> IResult<&str, &str> {
    if let Some(i) = input.find('\n') {
        return Ok((&input[i + 1..], &input[..i + 1]));
    }
    if input.is_empty() {
        fail(input)
    } else {
        Ok(("", input))
    }
}

fn body(input: &str) -> IResult<&str, &str> {
    let mut i = 0;
    while let Some(idx) = input[i..].find("\n}") {
        let remaining = &input[i + idx + 2..];
        match remaining.split_once('\n') {
            Some((ln, rest)) => {
                if ln.trim().is_empty() {
                    return Ok((rest, &input[..i + idx]));
                }
            }
            None => {
                if remaining.trim_start().is_empty() {
                    return Ok(("", &input[..i + idx]));
                } else {
                    return fail(input);
                }
            }
        }
        i += idx + 2;
    }
    fail(input)
}

fn alias(input: &str) -> IResult<&str, (&str, &str)> {
    preceded(pair(tag("alias"), space1), pair(word, line.map(|s| s.trim_end())))(input)
}

fn function(input: &str) -> IResult<&str, (&str, &str)> {
    let not_allowed = "<>[]{}()\t\r\n\0 \\*?$~;#`'\"";
    tuple((
        opt(tuple((tag("function"), space1))),
        is_not(not_allowed),
        tuple((space0, tag("()"), multispace0, tag("{"), space0, is_a("\n"))),
        body,
    ))
    .map(|t| (t.1, t.3))
    .parse(input)
}

/// What the grammar finds: for each item whether it is a function, its name
/// and its text.
fn grammar(input: &str) -> Vec<(bool, String, String)> {
    let mut it = iterator(
        input,
        alt((
            nom::combinator::map(function, |(name, body)| {
                Some((true, name.to_string(), body.trim_matches('\n').to_string()))
            }),
            nom::combinator::map(alias, |(lhs, rhs)| Some((false, lhs.to_string(), rhs.trim_end().to_string()))),
            nom::combinator::map(line, |_| None),
        )),
    );
    let mut found: Vec<(bool, String, String)> = (&mut it).flatten().collect();
    // Aliases come before functions, each kind in its order.
    found.sort_by_key(|item| item.0);
    found
}

/// What the grammar finds, in the order of the session.
fn grammar_in_order(input: &str) -> Vec<(bool, String, String)> {
    let mut it = iterator(
        input,
        alt((
            nom::combinator::map(function, |(name, body)| {
                Some((true, name.to_string(), body.trim_matches('\n').to_string()))
            }),
            nom::combinator::map(alias, |(lhs, rhs)| {
                Some((false, lhs.to_string(), rhs.trim_end().to_string()))
            }),
            nom::combinator::map(line, |_| None),
        )),
    );
    let found: Vec<(bool, String, String)> = (&mut it).flatten().collect();
    found
}

/// What the reader discovers, in the order of the session.
fn discovered(input: &str) -> Vec<(bool, String, String)> {
    wh::shell::discover(input)
        .iter()
        .map(|item| match item {
            Item::Alias(a) => (false, a.lhs.to_string(), a.rhs.to_string()),
            Item::Function(f) => (true, f.name.to_string(), f.body.to_string()),
        })
        .collect()
}

/// What the reader finds, in the same shape.
fn reader(input: &str) -> Vec<(bool, String, String)> {
    parse(input)
        .iter()
        .map(|item| match item {
            Item::Alias(a) => (false, a.lhs.to_string(), a.rhs.to_string()),
            Item::Function(f) => (true, f.name.to_string(), f.body.to_string()),
        })
        .collect()
}

const PIECES: [&str; 40] = [
    "alias", "alias ", "function", "function ", " ", "\t", "\n", "\n\n", "\r", "\r\n", "=", "x",
    "y=z", "()", "(", ")", "{", "}", "\n}", "\n}\n", "\n} ", "}\n", " {\n", "() {\n", "()\n{\n",
    "f", "echo hi", ";", "\u{c}", "\u{a0}", "\u{2003}", "é", "日本", "#", "~", "'", "\0", "\\",
    "  body\n", "ll=ls -la\n",
];

struct Dice(u64);

impl Dice {
    fn roll(&mut self, sides: usize) -> usize {
        self.0 = self.0.wrapping_mul(6364136223846793005).wrapping_add(1442695040888963407);
        ((self.0 >> 33) as usize) % sides
    }
}

fn session(dice: &mut Dice, longest: usize) -> String {
    let mut s = String::new();
    for _ in 0..1 + dice.roll(longest) {
        s.push_str(PIECES[dice.roll(PIECES.len())]);
    }
    s
}

#[test]
fn reader_agrees_with_the_grammar_on_short_sessions() {
    let mut dice = Dice(1);
    for _ in 0..40000 {
        let s = session(&mut dice, 6);
        assert_eq!(reader(&s), grammar(&s), "{:?}", s);
        assert_eq!(discovered(&s), grammar_in_order(&s), "{:?}", s);
    }
}

#[test]
fn reader_agrees_with_the_grammar_on_long_sessions() {
    let mut dice = Dice(2);
    for _ in 0..4000 {
        let s = session(&mut dice, 60);
        assert_eq!(reader(&s), grammar(&s), "{:?}", s);
        assert_eq!(discovered(&s), grammar_in_order(&s), "{:?}", s);
    }
}

#[test]
fn reader_agrees_with_the_grammar_on_sessions_of_two_pieces() {
    for a in PIECES {
        for b in PIECES {
            for c in ["", "\n", "\n}\n", "=v\n"] {
                let s = format!("{a}{b}{c}");
                assert_eq!(reader(&s), grammar(&s), "{:?}", s);
                let s = format!("f() {{\n{a}{b}{c}");
                assert_eq!(reader(&s), grammar(&s), "{:?}", s);
                let s = format!("alias {a}{b}{c}");
                assert_eq!(reader(&s), grammar(&s), "{:?}", s);
            }
        }
    }
}

#[test]
fn reader_agrees_with_the_grammar_on_a_session_of_bash() {
    let s = "alias egrep='egrep --color=auto'\nalias l='ls -CF'\nalias ll='ls -alF'\n\
             gawklibpath_append () \n{ \n    [ -z \"$AWKLIBPATH\" ] && AWKLIBPATH=`gawk 'BEGIN {print ENVIRON[\"AWKLIBPATH\"]}'`;\n    export AWKLIBPATH=\"$AWKLIBPATH:$*\"\n}\n\
             quote () \n{ \n    local quoted=${1//\\'/\\'\\\\\\'\\'};\n    printf \"'%s'\" \"$quoted\"\n}\n";
    let found = reader(s);
    assert_eq!(found, grammar(s));
    assert_eq!(found.len(), 5);
    assert_eq!(found[1], (false, "l".to_string(), "'ls -CF'".to_string()));
    assert_eq!(found[4].1, "quote");
    assert_eq!(
        found[4].2,
        "    local quoted=${1//\\'/\\'\\\\\\'\\'};\n    printf \"'%s'\" \"$quoted\""
    );
}
