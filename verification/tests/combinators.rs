//! The grammar once more, written with parser combinators, and held against
//! the library's parser on every short text over the characters that matter.

use jq_clone::error::ParseFailure;
use jq_clone::parser::{parse_filter, parse_key, parse_token};
use jq_clone::token::Token;
use winnow::ascii::digit1;
use winnow::combinator::{alt, delimited, fail, iterator, repeat, terminated};
use winnow::token::{any, take_till};
use winnow::{PResult, Parser};

fn combined_token<'a>(input: &mut &'a str) -> PResult<Token<'a>> {
    match any.parse_next(input)? {
        '.' => alt((
            combined_key_token,
            "[]".value(Token::Iterate),
            "".value(Token::Identity),
        ))
        .parse_next(input),
        '[' => alt((
            combined_index_token,
            combined_key_string_token,
            combined_array.map(Token::Array),
        ))
        .parse_next(input),
        _ => fail.parse_next(input),
    }
}

fn combined_index(input: &mut &str) -> PResult<usize> {
    terminated(digit1, ']')
        .try_map(str::parse)
        .parse_next(input)
}

fn combined_index_token<'a>(input: &mut &'a str) -> PResult<Token<'a>> {
    alt((
        terminated(terminated(combined_index, "[]"), '?').map(Token::IterateOptionalIndex),
        terminated(combined_index, "[]").map(Token::IterateIndex),
        terminated(combined_index, '?').map(Token::OptionalIndex),
        combined_index.map(Token::Index),
    ))
    .parse_next(input)
}

fn combined_key<'a>(input: &mut &'a str) -> PResult<&'a str> {
    take_till(1.., ['.', '[', ']', '"', '?']).parse_next(input)
}

fn combined_key_string<'a>(input: &mut &'a str) -> PResult<&'a str> {
    terminated(delimited('"', combined_key, '"'), ']').parse_next(input)
}

fn combined_key_string_token<'a>(input: &mut &'a str) -> PResult<Token<'a>> {
    alt((
        terminated(terminated(combined_key_string, "[]"), '?').map(Token::IterateOptionalKey),
        terminated(combined_key_string, "[]").map(Token::IterateKey),
        terminated(combined_key_string, '?').map(Token::OptionalKey),
        combined_key_string.map(Token::Key),
    ))
    .parse_next(input)
}

fn combined_key_token<'a>(input: &mut &'a str) -> PResult<Token<'a>> {
    alt((
        terminated(terminated(combined_key, "[]"), '?').map(Token::IterateOptionalKey),
        terminated(combined_key, "[]").map(Token::IterateKey),
        terminated(combined_key, '?').map(Token::OptionalKey),
        combined_key.map(Token::Key),
    ))
    .parse_next(input)
}

fn combined_array<'a>(input: &mut &'a str) -> PResult<Vec<Token<'a>>> {
    terminated(repeat(0.., combined_token), ']').parse_next(input)
}

fn combined_filter(filter: &str) -> Result<Vec<Token<'_>>, ParseFailure> {
    let mut it = iterator(filter, combined_token);
    let tokens = it.collect::<Vec<_>>();
    let (remaining, _) = it.finish().expect("only backtracking failures");
    if remaining.is_empty() {
        Ok(tokens)
    } else {
        Err(ParseFailure::IncompleteFilter(remaining.to_owned()))
    }
}

fn texts_up_to(length: usize) -> Vec<String> {
    let alphabet = ['.', '[', ']', '"', '?', 'a', '7', 'é'];
    let mut all = vec![String::new()];
    let mut last = vec![String::new()];
    for _ in 0..length {
        let mut next = Vec::new();
        for text in &last {
            for c in alphabet {
                let mut longer = text.clone();
                longer.push(c);
                next.push(longer);
            }
        }
        all.extend(next.iter().cloned());
        last = next;
    }
    all
}

fn chosen_texts() -> Vec<&'static str> {
    vec![
        ".hello[]",
        ".quote?[]",
        ".quote[]?",
        ".quote[]?[]",
        "[key]",
        "[\"key\"]",
        "[\"key\"]?",
        "[\"key\"][]",
        "[\"key\"][]?",
        "[\"a b\"].c",
        "[\"\"]",
        "[0]",
        "[007]",
        "[5280][]?",
        "[18446744073709551615]",
        "[18446744073709551616]",
        "[99999999999999999999999999]",
        "[99999999999999999999999999]?",
        "[1",
        "[1a]",
        "[-1]",
        "[+1]",
        "[ 1]",
        "[[.a][0]]",
        "[[[[]]]]",
        "[.a[.b]",
        "[.a.b[]?.c?]",
        ". a",
        ".a b",
        ".\u{1F389}\u{1F386}[]",
        "..a..",
        ".[].[]",
        ".[]?",
        "abc",
        "",
    ]
}

#[test]
fn token_agrees_with_combinators_on_short_texts() {
    for text in texts_up_to(5) {
        let mut left: &str = &text;
        let mut combined_left: &str = &text;
        match (parse_token(&mut left), combined_token(&mut combined_left)) {
            (Ok(found), Ok(expected)) => {
                assert_eq!(found, expected, "token of {text:?}");
                assert_eq!(left, combined_left, "rest of {text:?}");
            }
            (Err(e), Err(_)) => {
                assert_eq!(e, ParseFailure::NoMatch);
                assert_eq!(left, text, "a failure leaves the text as it was");
            }
            (found, expected) => panic!("{text:?}: {found:?} against {expected:?}"),
        }
    }
}

#[test]
fn token_agrees_with_combinators_on_chosen_texts() {
    for text in chosen_texts() {
        let mut left: &str = text;
        let mut combined_left: &str = text;
        match (parse_token(&mut left), combined_token(&mut combined_left)) {
            (Ok(found), Ok(expected)) => {
                assert_eq!(found, expected, "token of {text:?}");
                assert_eq!(left, combined_left, "rest of {text:?}");
            }
            (Err(e), Err(_)) => {
                assert_eq!(e, ParseFailure::NoMatch);
                assert_eq!(left, text, "a failure leaves the text as it was");
            }
            (found, expected) => panic!("{text:?}: {found:?} against {expected:?}"),
        }
    }
}

#[test]
fn key_agrees_with_combinators_on_short_texts() {
    for text in texts_up_to(4) {
        let mut left: &str = &text;
        let mut combined_left: &str = &text;
        match (parse_key(&mut left), combined_key(&mut combined_left)) {
            (Ok(found), Ok(expected)) => {
                assert_eq!(found, expected, "key of {text:?}");
                assert_eq!(left, combined_left, "rest of {text:?}");
            }
            (Err(e), Err(_)) => {
                assert_eq!(e, ParseFailure::NoMatch);
                assert_eq!(left, text, "a failure leaves the text as it was");
            }
            (found, expected) => panic!("{text:?}: {found:?} against {expected:?}"),
        }
    }
}

#[test]
fn filter_agrees_with_combinators_on_short_texts() {
    for text in texts_up_to(5) {
        assert_eq!(parse_filter(&text), combined_filter(&text), "filter {text:?}");
    }
}

#[test]
fn filter_agrees_with_combinators_on_chosen_texts() {
    for text in chosen_texts() {
        assert_eq!(parse_filter(text), combined_filter(text), "filter {text:?}");
    }
}
