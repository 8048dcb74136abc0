//! A small query language for JSON documents: a filter is read into tokens,
//! the tokens are applied to a document, and the result is shown as text.

pub mod codec;
pub mod error;
pub mod json;
pub mod laws;
pub mod parser;
pub mod token;

use crate::codec::{error_text, from_str, json_document};
use crate::error::{FilterError, ParseFailure};
use crate::json::Json;
use crate::parser::{filter_tokens, parse_filter};
use crate::token::{apply_tokens, eval, render, token_output_to_string};
use vstd::prelude::*;

verus! {

/// The filter that is meant: the one given, or the identity filter `.`.
pub open spec fn filter_text(filter: Option<&str>) -> Seq<char> {
    match filter {
        Some(text) => text@,
        None => seq!['.'],
    }
}

/// Reads a JSON document.
pub fn read_document(text: &str) -> (r: Result<Json, FilterError>)
    ensures
        match json_document(text@) {
            Some(expected) => r matches Ok(document) && document@ == expected
                && document@.well_formed(),
            None => r matches Err(FilterError::InvalidJson(_)),
        },
{
    match from_str(text) {
        Ok(document) => Ok(document),
        Err(e) => Err(FilterError::InvalidJson(error_text(&e))),
    }
}

/// Applies `filter` to the JSON document `input` and shows the result.
///
/// The document is read first, then the filter; the first of the four steps
/// that fails gives the error.
pub fn apply_filter(input: &str, filter: Option<&str>) -> (r: Result<String, FilterError>)
    ensures
        match json_document(input@) {
            None => r matches Err(FilterError::InvalidJson(_)),
            Some(document) => match filter_tokens(filter_text(filter)) {
                Err(rest) => r matches Err(
                    FilterError::FilterSyntax(ParseFailure::IncompleteFilter(left)),
                ) && left@ == rest,
                Ok(tokens) => match eval(document, tokens) {
                    Err(failure) => r matches Err(FilterError::Eval(e)) && e == failure,
                    Ok(output) => match render(output) {
                        Some(text) => r matches Ok(shown) && shown@ == text,
                        None => r matches Err(FilterError::Unprintable(_)),
                    },
                },
            },
        },
{
    let document = match read_document(input) {
        Ok(document) => document,
        Err(e) => {
            return Err(e);
        },
    };
    let filter = match filter {
        Some(text) => text,
        None => {
            proof {
                reveal_strlit(".");
                assert("."@ =~= seq!['.']);
            }
            "."
        },
    };
    let tokens = match parse_filter(filter) {
        Ok(tokens) => tokens,
        Err(e) => {
            return Err(FilterError::FilterSyntax(e));
        },
    };
    let token_slice = tokens.as_slice();
    match apply_tokens(&document, token_slice) {
        Ok(output) => token_output_to_string(output),
        Err(e) => Err(FilterError::Eval(e)),
    }
}

} // verus!
