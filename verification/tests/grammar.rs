use jq_clone::error::ParseFailure;
use jq_clone::parser::{
    parse_array_wrapper, parse_index, parse_index_token, parse_key, parse_key_string,
    parse_key_string_token, parse_key_token, parse_suffix, parse_token, parse_tokens, Suffix,
};
use jq_clone::token::Token;

#[test]
fn key_stops_at_each_delimiter() {
    for delimiter in ['.', '[', ']', '"', '?'] {
        let text = format!("ab{delimiter}cd");
        let mut input: &str = &text;
        assert_eq!(parse_key(&mut input), Ok("ab"));
        assert_eq!(input, &text[2..]);
    }
}

#[test]
fn key_needs_one_character() {
    for text in ["", ".", "[a", "]a", "\"a", "?a"] {
        let mut input = text;
        assert_eq!(parse_key(&mut input), Err(ParseFailure::NoMatch));
        assert_eq!(input, text);
    }
}

#[test]
fn key_may_hold_spaces_and_any_other_character() {
    let mut input = " a-b c\t\u{e9}\u{1F389}.rest";
    assert_eq!(parse_key(&mut input), Ok(" a-b c\t\u{e9}\u{1F389}"));
    assert_eq!(input, ".rest");
}

#[test]
fn index_is_digits_and_a_closing_bracket() {
    let mut input = "12]rest";
    assert_eq!(parse_index(&mut input), Ok(12));
    assert_eq!(input, "rest");

    let mut input = "007]";
    assert_eq!(parse_index(&mut input), Ok(7));
    assert_eq!(input, "");

    let mut input = "0]";
    assert_eq!(parse_index(&mut input), Ok(0));
    assert_eq!(input, "");
}

#[test]
fn index_is_refused_without_digits_or_bracket() {
    for text in ["", "]", "12", "12a]", "a12]", "-1]", "+1]", " 1]", "1 ]", "١]"] {
        let mut input = text;
        assert_eq!(parse_index(&mut input), Err(ParseFailure::NoMatch));
        assert_eq!(input, text);
    }
}

#[test]
fn index_must_fit_the_machine_word() {
    let largest = format!("{}]", usize::MAX);
    let mut input: &str = &largest;
    assert_eq!(parse_index(&mut input), Ok(usize::MAX));
    assert_eq!(input, "");

    let too_large = format!("{}0]", usize::MAX);
    let mut input: &str = &too_large;
    assert_eq!(parse_index(&mut input), Err(ParseFailure::NoMatch));
    assert_eq!(input, too_large);

    let next = "18446744073709551616]";
    let mut input = next;
    if usize::BITS <= 64 {
        assert_eq!(parse_index(&mut input), Err(ParseFailure::NoMatch));
        assert_eq!(input, next);
    }

    let text = format!("[{}0]", usize::MAX);
    let mut input: &str = &text;
    assert_eq!(parse_token(&mut input), Err(ParseFailure::NoMatch));
    assert_eq!(input, text);
}

#[test]
fn quoted_key_is_a_key_between_quotes_and_a_closing_bracket() {
    let mut input = "\"a b\"]x";
    assert_eq!(parse_key_string(&mut input), Ok("a b"));
    assert_eq!(input, "x");

    for text in ["", "\"a\"", "\"\"]", "a\"]", "\"a]", "\"a.b\"]", "\"a\" ]"] {
        let mut input = text;
        assert_eq!(parse_key_string(&mut input), Err(ParseFailure::NoMatch));
        assert_eq!(input, text);
    }
}

#[test]
fn suffix_looks_for_brackets_before_the_question_mark() {
    let mut input = "[]?x";
    assert_eq!(parse_suffix(&mut input), Suffix::IterateOptional);
    assert_eq!(input, "x");

    let mut input = "[]x?";
    assert_eq!(parse_suffix(&mut input), Suffix::Iterate);
    assert_eq!(input, "x?");

    let mut input = "?[]";
    assert_eq!(parse_suffix(&mut input), Suffix::Optional);
    assert_eq!(input, "[]");

    for text in ["", "x", "[", "[ ]", "]", ".?"] {
        let mut input = text;
        assert_eq!(parse_suffix(&mut input), Suffix::Plain);
        assert_eq!(input, text);
    }
}

#[test]
fn tokens_are_named_by_their_suffix() {
    assert_eq!(Token::of_key("k", Suffix::Plain), Token::Key("k"));
    assert_eq!(Token::of_key("k", Suffix::Optional), Token::OptionalKey("k"));
    assert_eq!(Token::of_key("k", Suffix::Iterate), Token::IterateKey("k"));
    assert_eq!(
        Token::of_key("k", Suffix::IterateOptional),
        Token::IterateOptionalKey("k")
    );
    assert_eq!(Token::of_index(3, Suffix::Plain), Token::Index(3));
    assert_eq!(Token::of_index(3, Suffix::Optional), Token::OptionalIndex(3));
    assert_eq!(Token::of_index(3, Suffix::Iterate), Token::IterateIndex(3));
    assert_eq!(
        Token::of_index(3, Suffix::IterateOptional),
        Token::IterateOptionalIndex(3)
    );
}

#[test]
fn each_form_takes_each_suffix() {
    let mut input = "k[]?.x";
    assert_eq!(parse_key_token(&mut input), Ok(Token::IterateOptionalKey("k")));
    assert_eq!(input, ".x");

    let mut input = "7][].x";
    assert_eq!(parse_index_token(&mut input), Ok(Token::IterateIndex(7)));
    assert_eq!(input, ".x");

    let mut input = "7][]?";
    assert_eq!(parse_index_token(&mut input), Ok(Token::IterateOptionalIndex(7)));
    assert_eq!(input, "");

    let mut input = "\"k\"]?[]";
    assert_eq!(parse_key_string_token(&mut input), Ok(Token::OptionalKey("k")));
    assert_eq!(input, "[]");

    let mut input = "\"k\"][]";
    assert_eq!(parse_key_string_token(&mut input), Ok(Token::IterateKey("k")));
    assert_eq!(input, "");
}

#[test]
fn a_dot_alone_or_before_brackets() {
    let mut input = ".[]";
    assert_eq!(parse_token(&mut input), Ok(Token::Iterate));
    assert_eq!(input, "");

    let mut input = ".[]?";
    assert_eq!(parse_token(&mut input), Ok(Token::Iterate));
    assert_eq!(input, "?");

    let mut input = ".?";
    assert_eq!(parse_token(&mut input), Ok(Token::Identity));
    assert_eq!(input, "?");

    let mut input = ".[0]";
    assert_eq!(parse_token(&mut input), Ok(Token::Identity));
    assert_eq!(input, "[0]");

    let mut input = ". []";
    assert_eq!(parse_token(&mut input), Ok(Token::IterateKey(" ")));
    assert_eq!(input, "");
}

#[test]
fn a_text_that_starts_with_neither_dot_nor_bracket_is_no_token() {
    for text in ["", "a", "]", "?", "\"a\"", " .a", "7"] {
        let mut input = text;
        assert_eq!(parse_token(&mut input), Err(ParseFailure::NoMatch));
        assert_eq!(input, text);
    }
}

#[test]
fn a_bracket_that_is_not_closed_is_no_token() {
    for text in ["[", "[1", "[\"a\"", "[.a", "[.a[0]", "[[.a]", "[key]", "[1a]", "[.a?b]c"] {
        let mut input = text;
        assert_eq!(parse_token(&mut input), Err(ParseFailure::NoMatch));
        assert_eq!(input, text);
    }
}

#[test]
fn array_construction_holds_whole_tokens() {
    let mut input = "[.a[0].b?[]].c";
    assert_eq!(
        parse_token(&mut input),
        Ok(Token::Array(vec![
            Token::Key("a"),
            Token::Index(0),
            Token::OptionalKey("b"),
            Token::Array(vec![]),
        ]))
    );
    assert_eq!(input, ".c");

    let mut input = "[]";
    assert_eq!(parse_token(&mut input), Ok(Token::Array(vec![])));
    assert_eq!(input, "");

    let mut input = "[[[0][\"k\"][]]]";
    assert_eq!(
        parse_token(&mut input),
        Ok(Token::Array(vec![Token::Array(vec![
            Token::Index(0),
            Token::IterateKey("k"),
        ])]))
    );
    assert_eq!(input, "");
}

#[test]
fn tokens_are_read_until_none_is_left() {
    let mut input = ".a.b]c";
    assert_eq!(
        parse_tokens(&mut input),
        vec![Token::Key("a"), Token::Key("b")]
    );
    assert_eq!(input, "]c");

    let mut input = "abc";
    assert_eq!(parse_tokens(&mut input), vec![]);
    assert_eq!(input, "abc");
}

#[test]
fn array_wrapper_needs_its_closing_bracket() {
    let mut input = ".a]x";
    assert_eq!(parse_array_wrapper(&mut input), Ok(vec![Token::Key("a")]));
    assert_eq!(input, "x");

    let mut input = "]";
    assert_eq!(parse_array_wrapper(&mut input), Ok(vec![]));
    assert_eq!(input, "");

    for text in ["", ".a", ".a.b?x]"] {
        let mut input = text;
        assert_eq!(parse_array_wrapper(&mut input), Err(ParseFailure::NoMatch));
        assert_eq!(input, text);
    }
}

#[test]
fn a_clone_of_a_token_is_equal_to_it() {
    let token = Token::Array(vec![
        Token::Key("a"),
        Token::Array(vec![Token::IterateOptionalIndex(2), Token::Iterate]),
    ]);
    assert_eq!(token.clone(), token);
}
