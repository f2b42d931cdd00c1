//! The errors of the parser and of the interpreter.

use vstd::prelude::*;
use vstd::string::StringExecFns;
use crate::text::{
    append_chars,
    chars_of,
    copy_range,
    decimal,
    decimal_of,
    find_chars,
    first_occurrence,
    number_read,
    read_number,
    string_of,
};

verus! {

/// Why a source text is no script.
#[derive(Debug, Clone, Copy, PartialEq, Eq)]
pub enum ParseErrorKind {
    /// A double quote opens a string that the line does not close.
    UnterminatedQuote,
    /// A line opens a function body that no later line closes.
    UnclosedBlock,
}

/// A source text that is no script: where it fails, and why.
///
/// Lines are the logical lines of the source, counted from 1; columns are
/// characters of a line, counted from 1.
#[derive(Debug, Clone, Copy, PartialEq, Eq)]
pub struct ParseError {
    pub line: usize,
    pub column: usize,
    pub kind: ParseErrorKind,
}

impl ParseErrorKind {
    /// The kind in words.
    pub open spec fn description(self) -> Seq<char> {
        match self {
            ParseErrorKind::UnterminatedQuote => "unterminated quoted string"@,
            ParseErrorKind::UnclosedBlock => "function body is never closed"@,
        }
    }
}

/// What stands between an error in words and its place.
pub open spec fn arrow() -> Seq<char> {
    seq![' ', '-', '-', '>', ' ']
}

impl ParseError {
    /// The error in words.
    pub fn message(&self) -> (r: String)
        ensures
            r@ == self.kind.description(),
    {
        match self.kind {
            ParseErrorKind::UnterminatedQuote => String::from_str("unterminated quoted string"),
            ParseErrorKind::UnclosedBlock => String::from_str("function body is never closed"),
        }
    }

    /// The error as one line of text: the error in words, then ` --> `, the
    /// line, `:` and the column.
    pub open spec fn text(self) -> Seq<char> {
        self.kind.description() + arrow() + decimal(self.line as nat) + seq![':'] + decimal(
            self.column as nat,
        )
    }

    /// Writes the error as one line of text, with its place after it.
    pub fn describe(&self) -> (r: String)
        ensures
            r@ == self.text(),
    {
        let message = self.message();
        let mut out: Vec<char> = chars_of(message.as_str());
        append_chars(&mut out, &arrow_chars());
        append_chars(&mut out, &decimal_of(self.line));
        out.push(':');
        append_chars(&mut out, &decimal_of(self.column));
        string_of(&out)
    }
}

/// The characters of the arrow.
fn arrow_chars() -> (r: Vec<char>)
    ensures
        r@ == arrow(),
{
    let mut out: Vec<char> = Vec::new();
    out.push(' ');
    out.push('-');
    out.push('-');
    out.push('>');
    out.push(' ');
    assert(out@ =~= arrow());
    out
}

/// The line that the text of an error names, and the text itself.
#[derive(Debug, Clone, PartialEq, Eq)]
pub struct LineInfo {
    pub line: usize,
    pub message: String,
}

/// The line that the text of an error names: the number that stands between
/// the first ` --> ` and the first `:` after it, if the text holds both and
/// what stands between them reads as a number.
pub open spec fn line_in_error(error: Seq<char>) -> Option<nat> {
    match first_occurrence(error, arrow(), 0) {
        None => None,
        Some(at) => match first_occurrence(error, seq![':'], at + 5) {
            None => None,
            Some(colon) => number_read(error.subrange(at + 5, colon)),
        },
    }
}

/// Finds the line that the text of an error names.
pub fn extract_line_from_error(error_str: &str) -> (r: Option<LineInfo>)
    ensures
        match r {
            Some(info) => line_in_error(error_str@) == Some(info.line as nat) && info.message@
                == error_str@,
            None => line_in_error(error_str@) is None,
        },
{
    let text = chars_of(error_str);
    let at: usize = match find_chars(&text, &arrow_chars(), 0) {
        Some(at) => at,
        None => {
            return None;
        },
    };
    let mut colon_pattern: Vec<char> = Vec::new();
    colon_pattern.push(':');
    assert(colon_pattern@ =~= seq![':']);
    let colon: usize = match find_chars(&text, &colon_pattern, at + 5) {
        Some(colon) => colon,
        None => {
            return None;
        },
    };
    match read_number(&copy_range(&text, at + 5, colon)) {
        Some(line) => Some(LineInfo { line, message: string_of(&text) }),
        None => None,
    }
}

/// Why a statement or a call could not be carried out.
#[derive(Debug, Clone, PartialEq, Eq)]
pub enum ExecutionError {
    /// No strategy of the resolution finds a function for the name.
    FunctionNotFound { name: String },
}

/// The view of an [`ExecutionError`].
pub enum ExecutionErrorView {
    FunctionNotFound { name: Seq<char> },
}

impl View for ExecutionError {
    type V = ExecutionErrorView;

    open spec fn view(&self) -> ExecutionErrorView {
        match self {
            ExecutionError::FunctionNotFound { name } => ExecutionErrorView::FunctionNotFound {
                name: name@,
            },
        }
    }
}

impl ExecutionErrorView {
    /// The error in words.
    pub open spec fn description(self) -> Seq<char> {
        match self {
            ExecutionErrorView::FunctionNotFound { name } => "Function '"@ + name
                + "' not found"@,
        }
    }
}

impl ExecutionError {
    /// The error in words.
    pub fn message(&self) -> (r: String)
        ensures
            r@ == self@.description(),
    {
        match self {
            ExecutionError::FunctionNotFound { name } => {
                let mut out = String::from_str("Function '");
                out.append(name.as_str());
                out.append("' not found");
                out
            },
        }
    }
}

} // verus!
