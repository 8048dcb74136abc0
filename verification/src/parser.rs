//! The grammar of filters and the parser that reads it.
//!
//! The grammar is stated on sequences of characters: each rule takes the
//! text that is left and gives what it read together with the text that
//! follows it, or nothing where the text does not start with the rule.

use crate::error::ParseFailure;
use crate::token::{Token, TokenView};
use vstd::prelude::*;
use vstd::string::StrSliceExecFns;

verus! {

/// The five characters that end a key.
pub open spec fn is_delimiter(c: char) -> bool {
    c == '.' || c == '[' || c == ']' || c == '"' || c == '?'
}

/// The decimal digits.
pub open spec fn is_digit(c: char) -> bool {
    '0' <= c <= '9'
}

/// The characters that may stand in a key.
pub open spec fn key_chars() -> spec_fn(char) -> bool {
    |c: char| !is_delimiter(c)
}

/// The characters that may stand in an index.
pub open spec fn digits() -> spec_fn(char) -> bool {
    |c: char| is_digit(c)
}

/// The length of the longest prefix of `s` whose characters are all in
/// `class`.
pub open spec fn run_len(s: Seq<char>, class: spec_fn(char) -> bool) -> nat
    decreases s.len(),
{
    if s.len() > 0 && class(s[0]) {
        1 + run_len(s.drop_first(), class)
    } else {
        0
    }
}

/// The number that a run of decimal digits writes.
pub open spec fn decimal(digits: Seq<char>) -> nat
    decreases digits.len(),
{
    if digits.len() == 0 {
        0
    } else {
        (decimal(digits.drop_last()) * 10 + (digits.last() as nat - '0' as nat)) as nat
    }
}

/// Whether `s` starts with the two characters `[]`.
pub open spec fn starts_with_brackets(s: Seq<char>) -> bool {
    s.len() >= 2 && s[0] == '[' && s[1] == ']'
}

/// A key: the longest run of characters that are not delimiters, at least
/// one.
pub open spec fn key(s: Seq<char>) -> Option<(Seq<char>, Seq<char>)> {
    let n = run_len(s, key_chars()) as int;
    if n == 0 {
        None
    } else {
        Some((s.take(n), s.skip(n)))
    }
}

/// An index: one or more digits and a closing bracket, where the number
/// fits the machine's word.
pub open spec fn index(s: Seq<char>) -> Option<(nat, Seq<char>)> {
    let n = run_len(s, digits()) as int;
    if n > 0 && n < s.len() && s[n] == ']' && decimal(s.take(n)) <= usize::MAX {
        Some((decimal(s.take(n)), s.skip(n + 1)))
    } else {
        None
    }
}

/// A key between double quotes, and a closing bracket.
pub open spec fn key_string(s: Seq<char>) -> Option<(Seq<char>, Seq<char>)> {
    if s.len() > 0 && s[0] == '"' {
        match key(s.skip(1)) {
            Some((name, rest)) => if rest.len() >= 2 && rest[0] == '"' && rest[1] == ']' {
                Some((name, rest.skip(2)))
            } else {
                None
            },
            None => None,
        }
    } else {
        None
    }
}

/// What may follow a key or an index.
#[derive(Debug, Clone, Copy, PartialEq, Eq, Structural)]
pub enum Suffix {
    /// Nothing.
    Plain,
    /// `?`
    Optional,
    /// `[]`
    Iterate,
    /// `[]?`
    IterateOptional,
}

/// The suffix that `s` starts with. `[]` is looked for before `?`, and a `?`
/// is taken after `[]` only where it follows at once.
pub open spec fn suffix(s: Seq<char>) -> (Suffix, Seq<char>) {
    if starts_with_brackets(s) {
        if s.len() >= 3 && s[2] == '?' {
            (Suffix::IterateOptional, s.skip(3))
        } else {
            (Suffix::Iterate, s.skip(2))
        }
    } else if s.len() >= 1 && s[0] == '?' {
        (Suffix::Optional, s.skip(1))
    } else {
        (Suffix::Plain, s)
    }
}

impl TokenView {
    /// The token for a field `name` followed by `suffix`.
    pub open spec fn of_key(name: Seq<char>, suffix: Suffix) -> TokenView {
        match suffix {
            Suffix::Plain => TokenView::Key(name),
            Suffix::Optional => TokenView::OptionalKey(name),
            Suffix::Iterate => TokenView::IterateKey(name),
            Suffix::IterateOptional => TokenView::IterateOptionalKey(name),
        }
    }

    /// The token for an element `n` followed by `suffix`.
    pub open spec fn of_index(n: nat, suffix: Suffix) -> TokenView {
        match suffix {
            Suffix::Plain => TokenView::Index(n),
            Suffix::Optional => TokenView::OptionalIndex(n),
            Suffix::Iterate => TokenView::IterateIndex(n),
            Suffix::IterateOptional => TokenView::IterateOptionalIndex(n),
        }
    }
}

/// A key and its suffix.
pub open spec fn key_token(s: Seq<char>) -> Option<(TokenView, Seq<char>)> {
    match key(s) {
        Some((name, rest)) => Some((TokenView::of_key(name, suffix(rest).0), suffix(rest).1)),
        None => None,
    }
}

/// An index and its suffix.
pub open spec fn index_token(s: Seq<char>) -> Option<(TokenView, Seq<char>)> {
    match index(s) {
        Some((n, rest)) => Some((TokenView::of_index(n, suffix(rest).0), suffix(rest).1)),
        None => None,
    }
}

/// A quoted key and its suffix.
pub open spec fn key_string_token(s: Seq<char>) -> Option<(TokenView, Seq<char>)> {
    match key_string(s) {
        Some((name, rest)) => Some((TokenView::of_key(name, suffix(rest).0), suffix(rest).1)),
        None => None,
    }
}

/// One token. After a dot: a key with its suffix, else `[]`, else nothing.
/// After an opening bracket: an index with its suffix, else a quoted key
/// with its suffix, else the tokens of an array construction. The first
/// form that matches is taken.
pub open spec fn token(s: Seq<char>) -> Option<(TokenView, Seq<char>)>
    decreases s.len(), 0nat,
{
    if s.len() == 0 {
        None
    } else if s[0] == '.' {
        let after = s.skip(1);
        match key_token(after) {
            Some(found) => Some(found),
            None => if starts_with_brackets(after) {
                Some((TokenView::Iterate, after.skip(2)))
            } else {
                Some((TokenView::Identity, after))
            },
        }
    } else if s[0] == '[' {
        let after = s.skip(1);
        match index_token(after) {
            Some(found) => Some(found),
            None => match key_string_token(after) {
                Some(found) => Some(found),
                None => match array_wrapper(after) {
                    Some((inner, rest)) => Some((TokenView::Array(inner), rest)),
                    None => None,
                },
            },
        }
    } else {
        None
    }
}

/// As many tokens as can be read one after the other. Every token takes at
/// least one character (see [`lemma_token_consumes`]), so the test on the
/// lengths never stops the repetition early.
pub open spec fn tokens(s: Seq<char>) -> (Seq<TokenView>, Seq<char>)
    decreases s.len(), 1nat,
{
    match token(s) {
        Some((first, rest)) => if rest.len() < s.len() {
            (seq![first] + tokens(rest).0, tokens(rest).1)
        } else {
            (Seq::empty(), s)
        },
        None => (Seq::empty(), s),
    }
}

/// The inside of an array construction: tokens, then a closing bracket.
pub open spec fn array_wrapper(s: Seq<char>) -> Option<(Seq<TokenView>, Seq<char>)>
    decreases s.len(), 2nat,
{
    let (inner, rest) = tokens(s);
    if rest.len() > 0 && rest[0] == ']' {
        Some((inner, rest.skip(1)))
    } else {
        None
    }
}

/// A whole filter: tokens up to the end of the text. Where text is left
/// over, the result is that text.
pub open spec fn filter_tokens(s: Seq<char>) -> Result<Seq<TokenView>, Seq<char>> {
    let (found, rest) = tokens(s);
    if rest.len() == 0 {
        Ok(found)
    } else {
        Err(rest)
    }
}

/// A run is no longer than the text, its characters are in the class, and
/// the character after it, if there is one, is not.
pub proof fn lemma_run_len(s: Seq<char>, class: spec_fn(char) -> bool)
    ensures
        run_len(s, class) <= s.len(),
        forall|i: int| 0 <= i < run_len(s, class) ==> class(#[trigger] s[i]),
        run_len(s, class) < s.len() ==> !class(s[run_len(s, class) as int]),
    decreases s.len(),
{
    if s.len() > 0 && class(s[0]) {
        let tail = s.drop_first();
        lemma_run_len(tail, class);
        assert forall|i: int| 0 <= i < run_len(s, class) implies class(#[trigger] s[i]) by {
            if i > 0 {
                assert(s[i] == tail[i - 1]);
            }
        }
    }
}

/// Counting a run from position `i` on: a character of the class adds one.
proof fn lemma_run_len_step(s: Seq<char>, class: spec_fn(char) -> bool, i: int)
    requires
        0 <= i <= s.len(),
    ensures
        i < s.len() && class(s[i]) ==> run_len(s.skip(i), class) == 1 + run_len(
            s.skip(i + 1),
            class,
        ),
        i == s.len() || !class(s[i]) ==> run_len(s.skip(i), class) == 0,
{
    if i < s.len() {
        assert(s.skip(i).drop_first() =~= s.skip(i + 1));
    }
}

/// One more digit: ten times the number so far, plus the digit.
proof fn lemma_decimal_step(s: Seq<char>, i: int)
    requires
        0 <= i < s.len(),
        is_digit(s[i]),
    ensures
        decimal(s.take(i + 1)) == decimal(s.take(i)) * 10 + (s[i] as nat - '0' as nat),
{
    assert(s.take(i + 1).drop_last() =~= s.take(i));
}

/// A token always takes at least one character.
pub proof fn lemma_token_consumes(s: Seq<char>)
    ensures
        token(s) matches Some((_, rest)) ==> rest.len() < s.len(),
    decreases s.len(), 0nat,
{
    if s.len() > 0 {
        let after = s.skip(1);
        lemma_run_len(after, key_chars());
        lemma_run_len(after, digits());
        if s[0] == '[' {
            if after.len() > 0 {
                lemma_run_len(after.skip(1), key_chars());
            }
            lemma_tokens_shrink(after);
        }
    }
}

/// What is left after reading tokens is no longer than the text.
pub proof fn lemma_tokens_shrink(s: Seq<char>)
    ensures
        tokens(s).1.len() <= s.len(),
    decreases s.len(), 1nat,
{
    lemma_token_consumes(s);
    if let Some((_, rest)) = token(s) {
        lemma_tokens_shrink(rest);
    }
}

/// Whether `rest` is the end of `s`: what is left of `s` once some of its
/// first characters are taken away.
pub open spec fn is_rest_of(rest: Seq<char>, s: Seq<char>) -> bool {
    rest.len() <= s.len() && rest == s.skip(s.len() - rest.len())
}

/// Taking characters away from the front leaves the end; and the end of an
/// end is an end.
proof fn lemma_rest(s: Seq<char>, n: int, rest: Seq<char>)
    requires
        0 <= n <= s.len(),
    ensures
        is_rest_of(s.skip(n), s),
        is_rest_of(rest, s.skip(n)) ==> is_rest_of(rest, s),
{
    if is_rest_of(rest, s.skip(n)) {
        assert(s.skip(n).skip(s.skip(n).len() - rest.len()) =~= s.skip(s.len() - rest.len()));
    }
}

/// What a suffix leaves is the end of the text.
proof fn lemma_suffix_rest(s: Seq<char>)
    ensures
        is_rest_of(suffix(s).1, s),
{
    if s.len() >= 3 {
        lemma_rest(s, 3, s);
    }
    if s.len() >= 2 {
        lemma_rest(s, 2, s);
    }
    if s.len() >= 1 {
        lemma_rest(s, 1, s);
    }
    lemma_rest(s, 0, s);
    assert(s.skip(0) =~= s);
}

/// What a key and its suffix leave is the end of the text.
proof fn lemma_key_token_rest(s: Seq<char>)
    ensures
        key_token(s) matches Some((_, rest)) ==> is_rest_of(rest, s),
{
    lemma_run_len(s, key_chars());
    if let Some((_, after)) = key(s) {
        lemma_suffix_rest(after);
        lemma_rest(s, run_len(s, key_chars()) as int, suffix(after).1);
    }
}

/// What is left after a token is the end of the text that it was read from.
pub proof fn law_token_rest(s: Seq<char>)
    ensures
        token(s) matches Some((_, rest)) ==> is_rest_of(rest, s),
    decreases s.len(), 0nat,
{
    if s.len() > 0 {
        let after = s.skip(1);
        if s[0] == '.' {
            lemma_key_token_rest(after);
            if let Some((_, rest)) = key_token(after) {
                lemma_rest(s, 1, rest);
            } else if starts_with_brackets(after) {
                lemma_rest(after, 2, after);
                lemma_rest(s, 1, after.skip(2));
            } else {
                lemma_rest(s, 1, after);
            }
        } else if s[0] == '[' {
            lemma_run_len(after, digits());
            if let Some((_, tail)) = index(after) {
                lemma_suffix_rest(tail);
                lemma_rest(after, run_len(after, digits()) as int + 1, suffix(tail).1);
                lemma_rest(s, 1, suffix(tail).1);
            } else if let Some((_, tail)) = key_string(after) {
                let inside = after.skip(1);
                let closing = inside.skip(run_len(inside, key_chars()) as int);
                lemma_run_len(inside, key_chars());
                lemma_suffix_rest(tail);
                lemma_rest(closing, 2, suffix(tail).1);
                lemma_rest(inside, run_len(inside, key_chars()) as int, suffix(tail).1);
                lemma_rest(after, 1, suffix(tail).1);
                lemma_rest(s, 1, suffix(tail).1);
            } else if let Some((_, tail)) = array_wrapper(after) {
                let closing = tokens(after).1;
                law_tokens_rest(after);
                lemma_rest(closing, 1, tail);
                lemma_rest(after, after.len() - closing.len(), tail);
                lemma_rest(s, 1, tail);
            }
        }
    }
}

/// What is left after reading tokens is the end of the text, and it does
/// not start with a token: reading stops only where no token is.
pub proof fn law_tokens_rest(s: Seq<char>)
    ensures
        is_rest_of(tokens(s).1, s),
        token(tokens(s).1) is None,
    decreases s.len(), 1nat,
{
    law_token_rest(s);
    lemma_token_consumes(s);
    if let Some((_, rest)) = token(s) {
        law_tokens_rest(rest);
        lemma_rest(s, s.len() - rest.len(), tokens(rest).1);
    } else {
        lemma_rest(s, 0, s);
        assert(s.skip(0) =~= s);
    }
}

/// A filter is refused only for text at its end that does not start with a
/// token.
pub proof fn law_filter_leftover(s: Seq<char>)
    ensures
        filter_tokens(s) matches Err(rest) ==> rest.len() > 0 && is_rest_of(rest, s) && token(
            rest,
        ) is None,
{
    law_tokens_rest(s);
}

fn delimiter(c: char) -> (r: bool)
    ensures
        r == is_delimiter(c),
{
    c == '.' || c == '[' || c == ']' || c == '"' || c == '?'
}

fn digit(c: char) -> (r: bool)
    ensures
        r == is_digit(c),
{
    '0' <= c && c <= '9'
}

/// Reads a key from the start of `input` and moves `input` past it.
pub fn parse_key<'a>(input: &mut &'a str) -> (r: Result<&'a str, ParseFailure>)
    ensures
        match key(old(input)@) {
            Some((name, rest)) => r matches Ok(found) && found@ == name && final(input)@ == rest,
            None => r matches Err(e) && e == ParseFailure::NoMatch && final(input)@ == old(input)@,
        },
{
    let text: &'a str = *input;
    let len = text.unicode_len();
    let mut n: usize = 0;
    proof {
        assert(text@.skip(0) =~= text@);
    }
    while n < len && !delimiter(text.get_char(n))
        invariant
            n <= len,
            len == text@.len(),
            run_len(text@, key_chars()) == n + run_len(text@.skip(n as int), key_chars()),
        decreases len - n,
    {
        proof {
            lemma_run_len_step(text@, key_chars(), n as int);
        }
        n += 1;
    }
    proof {
        lemma_run_len_step(text@, key_chars(), n as int);
    }
    if n == 0 {
        Err(ParseFailure::NoMatch)
    } else {
        *input = text.substring_char(n, len);
        Ok(text.substring_char(0, n))
    }
}

/// Reads digits and a closing bracket from the start of `input` and moves
/// `input` past them.
pub fn parse_index(input: &mut &str) -> (r: Result<usize, ParseFailure>)
    ensures
        match index(old(input)@) {
            Some((n, rest)) => r matches Ok(found) && found == n && final(input)@ == rest,
            None => r matches Err(e) && e == ParseFailure::NoMatch && final(input)@ == old(input)@,
        },
{
    let text = *input;
    let len = text.unicode_len();
    let mut n: usize = 0;
    let mut value: usize = 0;
    let mut fits = true;
    proof {
        assert(text@.skip(0) =~= text@);
    }
    while n < len && digit(text.get_char(n))
        invariant
            n <= len,
            len == text@.len(),
            run_len(text@, digits()) == n + run_len(text@.skip(n as int), digits()),
            fits ==> value == decimal(text@.take(n as int)),
            !fits ==> decimal(text@.take(n as int)) > usize::MAX,
        decreases len - n,
    {
        proof {
            lemma_run_len_step(text@, digits(), n as int);
            lemma_decimal_step(text@, n as int);
        }
        let d = digit_value(text.get_char(n));
        if fits && value <= (usize::MAX - d) / 10 {
            value = value * 10 + d;
        } else {
            fits = false;
        }
        n += 1;
    }
    proof {
        lemma_run_len_step(text@, digits(), n as int);
    }
    if n > 0 && fits && n < len && text.get_char(n) == ']' {
        *input = text.substring_char(n + 1, len);
        Ok(value)
    } else {
        Err(ParseFailure::NoMatch)
    }
}

/// The number that a digit stands for.
fn digit_value(c: char) -> (d: usize)
    requires
        is_digit(c),
    ensures
        d == c as nat - '0' as nat,
        d <= 9,
{
    (c as u32 - '0' as u32) as usize
}

/// Reads a quoted key and a closing bracket from the start of `input` and
/// moves `input` past them.
pub fn parse_key_string<'a>(input: &mut &'a str) -> (r: Result<&'a str, ParseFailure>)
    ensures
        match key_string(old(input)@) {
            Some((name, rest)) => r matches Ok(found) && found@ == name && final(input)@ == rest,
            None => r matches Err(e) && e == ParseFailure::NoMatch && final(input)@ == old(input)@,
        },
{
    let start: &'a str = *input;
    if !parse_char(input, '"') {
        return Err(ParseFailure::NoMatch);
    }
    let name = match parse_key(input) {
        Ok(name) => name,
        Err(e) => {
            *input = start;
            return Err(e);
        },
    };
    if parse_char(input, '"') {
        if parse_char(input, ']') {
            return Ok(name);
        }
    }
    *input = start;
    Err(ParseFailure::NoMatch)
}

/// Moves `input` past the character `c` where it starts with it, and says
/// whether it did.
fn parse_char(input: &mut &str, c: char) -> (r: bool)
    ensures
        r == (old(input)@.len() >= 1 && old(input)@[0] == c),
        final(input)@ == if r {
            old(input)@.skip(1)
        } else {
            old(input)@
        },
{
    let text = *input;
    let len = text.unicode_len();
    if len >= 1 && text.get_char(0) == c {
        *input = text.substring_char(1, len);
        true
    } else {
        false
    }
}

/// Moves `input` past `[]` where it starts with it, and says whether it did.
fn parse_brackets(input: &mut &str) -> (r: bool)
    ensures
        r == starts_with_brackets(old(input)@),
        final(input)@ == if r {
            old(input)@.skip(2)
        } else {
            old(input)@
        },
{
    let start = *input;
    if parse_char(input, '[') {
        if parse_char(input, ']') {
            return true;
        }
    }
    *input = start;
    false
}

/// Reads the suffix that `input` starts with and moves `input` past it.
pub fn parse_suffix(input: &mut &str) -> (r: Suffix)
    ensures
        (r, final(input)@) == suffix(old(input)@),
{
    if parse_brackets(input) {
        if parse_char(input, '?') {
            Suffix::IterateOptional
        } else {
            Suffix::Iterate
        }
    } else if parse_char(input, '?') {
        Suffix::Optional
    } else {
        Suffix::Plain
    }
}

impl<'a> Token<'a> {
    /// The token for a field `name` followed by `suffix`.
    pub fn of_key(name: &'a str, suffix: Suffix) -> (t: Token<'a>)
        ensures
            t@ == TokenView::of_key(name@, suffix),
    {
        match suffix {
            Suffix::Plain => Token::Key(name),
            Suffix::Optional => Token::OptionalKey(name),
            Suffix::Iterate => Token::IterateKey(name),
            Suffix::IterateOptional => Token::IterateOptionalKey(name),
        }
    }

    /// The token for an element `n` followed by `suffix`.
    pub fn of_index(n: usize, suffix: Suffix) -> (t: Token<'a>)
        ensures
            t@ == TokenView::of_index(n as nat, suffix),
    {
        match suffix {
            Suffix::Plain => Token::Index(n),
            Suffix::Optional => Token::OptionalIndex(n),
            Suffix::Iterate => Token::IterateIndex(n),
            Suffix::IterateOptional => Token::IterateOptionalIndex(n),
        }
    }
}

/// Reads a key and its suffix.
pub fn parse_key_token<'a>(input: &mut &'a str) -> (r: Result<Token<'a>, ParseFailure>)
    ensures
        match key_token(old(input)@) {
            Some((t, rest)) => r matches Ok(found) && found@ == t && final(input)@ == rest,
            None => r matches Err(e) && e == ParseFailure::NoMatch && final(input)@ == old(input)@,
        },
{
    match parse_key(input) {
        Ok(name) => {
            let suffix = parse_suffix(input);
            Ok(Token::of_key(name, suffix))
        },
        Err(e) => Err(e),
    }
}

/// Reads an index and its suffix.
pub fn parse_index_token<'a>(input: &mut &'a str) -> (r: Result<Token<'a>, ParseFailure>)
    ensures
        match index_token(old(input)@) {
            Some((t, rest)) => r matches Ok(found) && found@ == t && final(input)@ == rest,
            None => r matches Err(e) && e == ParseFailure::NoMatch && final(input)@ == old(input)@,
        },
{
    match parse_index(input) {
        Ok(n) => {
            let suffix = parse_suffix(input);
            Ok(Token::of_index(n, suffix))
        },
        Err(e) => Err(e),
    }
}

/// Reads a quoted key and its suffix.
pub fn parse_key_string_token<'a>(input: &mut &'a str) -> (r: Result<Token<'a>, ParseFailure>)
    ensures
        match key_string_token(old(input)@) {
            Some((t, rest)) => r matches Ok(found) && found@ == t && final(input)@ == rest,
            None => r matches Err(e) && e == ParseFailure::NoMatch && final(input)@ == old(input)@,
        },
{
    match parse_key_string(input) {
        Ok(name) => {
            let suffix = parse_suffix(input);
            Ok(Token::of_key(name, suffix))
        },
        Err(e) => Err(e),
    }
}

/// Reads one token from the start of `input` and moves `input` past it.
/// Where no token is there, `input` stays as it was.
pub fn parse_token<'a>(input: &mut &'a str) -> (r: Result<Token<'a>, ParseFailure>)
    ensures
        match token(old(input)@) {
            Some((t, rest)) => r matches Ok(found) && found@ == t && final(input)@ == rest,
            None => r matches Err(e) && e == ParseFailure::NoMatch && final(input)@ == old(input)@,
        },
    decreases old(input)@.len(), 0nat,
{
    let start: &'a str = *input;
    if parse_char(input, '.') {
        match parse_key_token(input) {
            Ok(found) => Ok(found),
            Err(_) => if parse_brackets(input) {
                Ok(Token::Iterate)
            } else {
                Ok(Token::Identity)
            },
        }
    } else if parse_char(input, '[') {
        match parse_index_token(input) {
            Ok(found) => {
                return Ok(found);
            },
            Err(_) => {},
        }
        match parse_key_string_token(input) {
            Ok(found) => {
                return Ok(found);
            },
            Err(_) => {},
        }
        match parse_array_wrapper(input) {
            Ok(inner) => {
                proof {
                    assert(Token::Array(inner)@->Array_0 =~= inner.deep_view());
                }
                Ok(Token::Array(inner))
            },
            Err(e) => {
                *input = start;
                Err(e)
            },
        }
    } else {
        Err(ParseFailure::NoMatch)
    }
}

/// Reads tokens from the start of `input` for as long as there is one, and
/// moves `input` past them.
pub fn parse_tokens<'a>(input: &mut &'a str) -> (r: Vec<Token<'a>>)
    ensures
        (r.deep_view(), final(input)@) == tokens(old(input)@),
    decreases old(input)@.len(), 1nat,
{
    let ghost start = (*input)@;
    let mut found: Vec<Token<'a>> = Vec::new();
    loop
        invariant
            (*input)@.len() <= start.len(),
            start == (*old(input))@,
            tokens(start) == (found.deep_view() + tokens((*input)@).0, tokens((*input)@).1),
        decreases (*input)@.len(),
    {
        let ghost text = (*input)@;
        proof {
            lemma_token_consumes(text);
        }
        match parse_token(input) {
            Ok(next) => {
                found.push(next);
            },
            Err(_) => {
                return found;
            },
        }
    }
}

/// Reads the inside of an array construction: tokens, then a closing
/// bracket.
pub fn parse_array_wrapper<'a>(input: &mut &'a str) -> (r: Result<Vec<Token<'a>>, ParseFailure>)
    ensures
        match array_wrapper(old(input)@) {
            Some((inner, rest)) => r matches Ok(found) && found.deep_view() == inner && final(input)@ == rest,
            None => r matches Err(e) && e == ParseFailure::NoMatch && final(input)@ == old(input)@,
        },
    decreases old(input)@.len(), 2nat,
{
    let start: &'a str = *input;
    let inner = parse_tokens(input);
    if parse_char(input, ']') {
        Ok(inner)
    } else {
        *input = start;
        Err(ParseFailure::NoMatch)
    }
}

/// Reads a whole filter.
pub fn parse_filter<'a>(filter: &'a str) -> (r: Result<Vec<Token<'a>>, ParseFailure>)
    ensures
        match filter_tokens(filter@) {
            Ok(expected) => r matches Ok(found) && found.deep_view() == expected,
            Err(rest) => r matches Err(ParseFailure::IncompleteFilter(left)) && left@ == rest,
        },
{
    let mut input: &'a str = filter;
    let found = parse_tokens(&mut input);
    if input.unicode_len() == 0 {
        Ok(found)
    } else {
        Err(ParseFailure::IncompleteFilter(input.to_owned()))
    }
}

} // verus!
