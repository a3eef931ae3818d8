//! What can go wrong with an input line.

use vstd::prelude::*;
use vstd::string::StringExecFns;

verus! {

/// An error of the user: it is reported, sets the status to 1, and ends the
/// input line.
#[derive(Debug, PartialEq, Eq)]
pub enum ShellError {
    /// The line opens a quote and never closes it.
    UnclosedQuote,
    /// The text of the alias named here opens a quote and never closes it.
    BadAlias(String),
    /// The directory named here, wanted for a wildcard, cannot be listed.
    Unlistable(String),
    /// `export` or `unset` was given no variable.
    MissingVariable,
    /// `unalias` was given no alias.
    MissingAlias,
    /// `unalias` was given the name here, which is not an alias.
    UnknownAlias(String),
    /// `config` was called and the environment names no editor.
    EditorUnset,
}

/// An error as the contracts speak of it.
pub enum ErrorView {
    UnclosedQuote,
    BadAlias(Seq<char>),
    Unlistable(Seq<char>),
    MissingVariable,
    MissingAlias,
    UnknownAlias(Seq<char>),
    EditorUnset,
}

impl View for ShellError {
    type V = ErrorView;

    open spec fn view(&self) -> ErrorView {
        match self {
            ShellError::UnclosedQuote => ErrorView::UnclosedQuote,
            ShellError::BadAlias(name) => ErrorView::BadAlias(name@),
            ShellError::Unlistable(directory) => ErrorView::Unlistable(directory@),
            ShellError::MissingVariable => ErrorView::MissingVariable,
            ShellError::MissingAlias => ErrorView::MissingAlias,
            ShellError::UnknownAlias(name) => ErrorView::UnknownAlias(name@),
            ShellError::EditorUnset => ErrorView::EditorUnset,
        }
    }
}

/// The sentence by which an error is reported.
pub open spec fn message_text(error: ErrorView) -> Seq<char> {
    match error {
        ErrorView::UnclosedQuote => "Failed to split command line"@,
        ErrorView::BadAlias(name) => "Failed to split resolved alias: "@ + name,
        ErrorView::Unlistable(directory) => "Failed to list directory: "@ + directory,
        ErrorView::MissingVariable => "No environment variable provided"@,
        ErrorView::MissingAlias => "No alias provided"@,
        ErrorView::UnknownAlias(name) => name + " is not an alias"@,
        ErrorView::EditorUnset => "EDITOR variable not set. Cannot open configuration file"@,
    }
}

impl ShellError {
    /// The sentence by which the error is reported.
    pub fn message(&self) -> (r: String)
        ensures
            r@ == message_text(self@),
    {
        match self {
            ShellError::UnclosedQuote => "Failed to split command line".to_owned(),
            ShellError::BadAlias(name) => {
                let mut text = "Failed to split resolved alias: ".to_owned();
                text.append(name.as_str());
                text
            },
            ShellError::Unlistable(directory) => {
                let mut text = "Failed to list directory: ".to_owned();
                text.append(directory.as_str());
                text
            },
            ShellError::MissingVariable => "No environment variable provided".to_owned(),
            ShellError::MissingAlias => "No alias provided".to_owned(),
            ShellError::UnknownAlias(name) => {
                let mut text = name.clone();
                text.append(" is not an alias");
                text
            },
            ShellError::EditorUnset => {
                "EDITOR variable not set. Cannot open configuration file".to_owned()
            },
        }
    }
}

} // verus!
