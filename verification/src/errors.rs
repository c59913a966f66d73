//! Error descriptions and the composition of diagnostic messages: the closed
//! table of known error codes, the note that states the expected phrase and
//! the phrase actually found, and the annotations that carry tokenizer and
//! parser failures into the diagnostic engine.

use vstd::prelude::*;
use vstd::string::StringExecFns;
use crate::espan::{AnnotationType, EspanAnnotation};
use crate::lexer::LexError;
use crate::parser::ParseError;
use crate::text::str_eq;
use crate::token::{Span, Tokens, spec_token_text};

verus! {

/// A plain error carrying its message text.
#[derive(Debug, Clone, PartialEq, Eq)]
pub struct Error {
    pub inner: String,
}

impl Error {
    /// Wraps a message.
    pub fn new(inner: String) -> (r: Error)
        ensures
            r.inner@ == inner@,
    {
        Error { inner }
    }
}

/// The severity a diagnostic is emitted with.
#[derive(Debug, Clone, Copy, PartialEq, Eq, Structural)]
pub enum MessageKind {
    ERROR,
    WARNING,
}

/// A source file a diagnostic refers to: its display name and its path.
#[derive(Debug, Clone, PartialEq, Eq)]
pub struct ErrorFile {
    pub name: String,
    pub path: String,
}

/// The closed table of known error codes and their messages.
pub open spec fn spec_error_message(code: Seq<char>) -> Option<Seq<char>> {
    if code == "0001"@ {
        Some("Provided keyword did not match the expected keyword."@)
    } else if code == "0002"@ {
        Some("Non-Existent keyword."@)
    } else {
        None
    }
}

/// Looks up the message for a known error code.
pub fn error_message(code: &str) -> (r: Option<String>)
    ensures
        match spec_error_message(code@) {
            Some(m) => (match r {
                Some(s) => s@ == m,
                None => false,
            }),
            None => r is None,
        },
{
    if str_eq(code, "0001") {
        Some(String::from_str("Provided keyword did not match the expected keyword."))
    } else if str_eq(code, "0002") {
        Some(String::from_str("Non-Existent keyword."))
    } else {
        None
    }
}

/// The note attached to an unexpected-token diagnostic: the expected phrase
/// and the phrase actually found, both rendered via the vocabulary.
pub open spec fn spec_expect_note(expected: Tokens, found: Tokens) -> Seq<char> {
    "Expected the word `"@ + spec_token_text(expected) + "` but instead got `"@ + spec_token_text(
        found,
    ) + "`"@
}

/// Composes the unexpected-token note.
pub fn expect_note(expected: &Tokens, found: &Tokens) -> (r: String)
    ensures
        r@ == spec_expect_note(*expected, *found),
{
    let mut r = String::from_str("Expected the word `");
    let e = expected.to_string();
    r.append(e.as_str());
    r.append("` but instead got `");
    let f = found.to_string();
    r.append(f.as_str());
    r.append("`");
    proof {
        assert(r@ =~= spec_expect_note(*expected, *found));
    }
    r
}

/// The exact span a tokenization error reports.
pub open spec fn lex_error_span(e: LexError) -> Span {
    match e {
        LexError::UnterminatedConstruct { span, .. } => span,
        LexError::UnknownCharacter { span, .. } => span,
        LexError::UnknownKeyword { span, .. } => span,
    }
}

/// The zero-based line a tokenization error starts on.
pub open spec fn lex_error_line(e: LexError) -> usize {
    match e {
        LexError::UnterminatedConstruct { line, .. } => line,
        LexError::UnknownCharacter { line, .. } => line,
        LexError::UnknownKeyword { line, .. } => line,
    }
}

/// The label a tokenization error is annotated with.
pub open spec fn lex_error_label(e: LexError) -> Seq<char> {
    match e {
        LexError::UnterminatedConstruct { .. } => "Unterminated string literal"@,
        LexError::UnknownCharacter { .. } => "Unsupported character"@,
        LexError::UnknownKeyword { .. } => "This is not a valid keyword"@,
    }
}

/// Builds the diagnostic annotation for a tokenization error: an error-severity
/// annotation on the one-based line the error starts on, whose span is exactly
/// the error's offending span, together with the line key it is filed under.
pub fn annotation_for_lex_error(e: &LexError) -> (r: (usize, EspanAnnotation))
    requires
        lex_error_line(*e) < usize::MAX,
    ensures
        r.0 == lex_error_line(*e) + 1,
        r.1.ty == AnnotationType::Error,
        r.1.span == lex_error_span(*e),
        r.1.line == lex_error_line(*e) + 1,
        r.1.label matches Some(l) && l@ == lex_error_label(*e),
{
    let (span, line, label) = match e {
        LexError::UnterminatedConstruct { span, line } => (
            *span,
            *line,
            String::from_str("Unterminated string literal"),
        ),
        LexError::UnknownCharacter { span, line } => (
            *span,
            *line,
            String::from_str("Unsupported character"),
        ),
        LexError::UnknownKeyword { span, line } => (
            *span,
            *line,
            String::from_str("This is not a valid keyword"),
        ),
    };
    (
        line + 1,
        EspanAnnotation { ty: AnnotationType::Error, label: Some(label), span, line: line + 1 },
    )
}

/// The exact span a parse error reports.
pub open spec fn parse_error_span(e: ParseError) -> Span {
    match e {
        ParseError::UnexpectedToken { span, .. } => span,
        ParseError::MismatchedBlockCloser { span, .. } => span,
        ParseError::UnsupportedConstruct { span, .. } => span,
    }
}

/// The zero-based line a parse error reports.
pub open spec fn parse_error_line(e: ParseError) -> usize {
    match e {
        ParseError::UnexpectedToken { line, .. } => line,
        ParseError::MismatchedBlockCloser { line, .. } => line,
        ParseError::UnsupportedConstruct { line, .. } => line,
    }
}

/// The label a parse error is annotated with: for an unexpected token with a
/// single expected phrase and a found token, the note naming both; otherwise
/// a fixed description of the failure.
pub open spec fn spec_parse_error_label(e: ParseError) -> Seq<char> {
    match e {
        ParseError::UnexpectedToken { expected, found, .. } => match (expected, found) {
            (Some(exp), Some(f)) => spec_expect_note(exp, f),
            _ => "Expected a statement"@,
        },
        ParseError::MismatchedBlockCloser { expected_name, found_name, .. } => "Expected the name `"@
            + expected_name@ + "` but instead got `"@ + found_name@ + "`"@,
        ParseError::UnsupportedConstruct { .. } => "This construct is not supported"@,
    }
}

/// Composes the label for a parse error.
pub fn parse_error_label(e: &ParseError) -> (r: String)
    ensures
        r@ == spec_parse_error_label(*e),
{
    match e {
        ParseError::UnexpectedToken { expected, found, .. } => match (expected, found) {
            (Some(exp), Some(f)) => expect_note(exp, f),
            _ => String::from_str("Expected a statement"),
        },
        ParseError::MismatchedBlockCloser { expected_name, found_name, .. } => {
            let mut r = String::from_str("Expected the name `");
            r.append(expected_name.as_str());
            r.append("` but instead got `");
            r.append(found_name.as_str());
            r.append("`");
            proof {
                assert(r@ =~= spec_parse_error_label(*e));
            }
            r
        },
        ParseError::UnsupportedConstruct { .. } => String::from_str(
            "This construct is not supported",
        ),
    }
}

/// Builds the diagnostic annotation for a parse error, together with the line
/// key it is filed under.
pub fn annotation_for_parse_error(e: &ParseError) -> (r: (usize, EspanAnnotation))
    requires
        parse_error_line(*e) < usize::MAX,
    ensures
        r.0 == parse_error_line(*e) + 1,
        r.1.ty == AnnotationType::Error,
        r.1.span == parse_error_span(*e),
        r.1.line == parse_error_line(*e) + 1,
        r.1.label matches Some(l) && l@ == spec_parse_error_label(*e),
{
    let label = parse_error_label(e);
    let (span, line) = match e {
        ParseError::UnexpectedToken { span, line, .. } => (*span, *line),
        ParseError::MismatchedBlockCloser { span, line, .. } => (*span, *line),
        ParseError::UnsupportedConstruct { span, line } => (*span, *line),
    };
    (
        line + 1,
        EspanAnnotation { ty: AnnotationType::Error, label: Some(label), span, line: line + 1 },
    )
}

} // verus!
