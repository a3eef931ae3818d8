//! Splitting a line into words by the quoting rules of a Unix shell.

use crate::error::{ErrorView, ShellError};
use crate::text::texts;
use vstd::prelude::*;

verus! {

/// Declares `shell_words::ParseError`, the error of `shell_words::split`,
/// as a type of which nothing is known.
#[verifier::external_type_specification]
#[verifier::external_body]
pub struct ExParseError(shell_words::ParseError);

/// The words into which `shell_words::split` divides a line, or `None` where
/// it finds a quote that is never closed.
pub uninterp spec fn shell_split(line: Seq<char>) -> Option<Seq<Seq<char>>>;

/// What a result of `shell_words::split` says in terms of `shell_split`.
pub open spec fn split_outcome(r: Result<Vec<String>, shell_words::ParseError>) -> Option<
    Seq<Seq<char>>,
> {
    match r {
        Ok(words) => Some(texts(words@)),
        Err(_) => None,
    }
}

/// Calls `shell_words::split`. That function reads nothing but its argument,
/// so its result is the same for the same line; the contract gives that
/// result the name `shell_split` and claims nothing else of it.
#[verifier::external_body]
pub(crate) fn split(line: &str) -> (r: Result<Vec<String>, shell_words::ParseError>)
    ensures
        split_outcome(r) == shell_split(line@),
{
    shell_words::split(line)
}

/// The words of `line`, or the error of a line with an unclosed quote.
pub fn tokenize(line: &str) -> (r: Result<Vec<String>, ShellError>)
    ensures
        match r {
            Ok(words) => shell_split(line@) == Some(texts(words@)),
            Err(e) => shell_split(line@) is None && e@ == ErrorView::UnclosedQuote,
        },
{
    match split(line) {
        Ok(words) => Ok(words),
        Err(_) => Err(ShellError::UnclosedQuote),
    }
}

} // verus!
