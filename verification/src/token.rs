//! The token model: token kinds, source locations, and spans used to slice
//! literal content out of the source buffer.

use vstd::prelude::*;
use vstd::string::StringExecFns;
use crate::words::{Word, word_upper};

verus! {

/// A half-open range of character positions in the source buffer,
/// `start` inclusive, `end` exclusive.
#[derive(Debug, Clone, Copy, PartialEq, Eq, Structural)]
pub struct Span {
    pub start: usize,
    pub end: usize,
}

impl Span {
    /// The number of characters the span covers.
    pub open spec fn spec_len(self) -> int {
        self.end - self.start
    }

    /// True when the span lies inside a buffer of the given length and is
    /// ordered: slicing the buffer at the span is then well defined.
    pub open spec fn in_bounds(self, buf_len: int) -> bool {
        self.start <= self.end <= buf_len
    }
}

/// Where a token sits: how many characters from the start of the file it
/// begins, the line it is on (kept for diagnostics only), and, for tokens
/// with content, the span used to slice that content from the source buffer.
#[derive(Debug, Clone, Copy, PartialEq, Eq)]
pub struct Location {
    pub offset: usize,
    pub line: usize,
    pub span: Option<Span>,
}

/// The kind of a token: a vocabulary word, a standalone punctuation mark
/// (colon, period, and the legacy semicolon and dollar-sign markers), or a
/// double-quoted string literal whose content is recorded as a span.
#[derive(Debug, Clone, Copy, PartialEq, Eq, Structural)]
pub enum Tokens {
    Word(Word),
    SemiColon,
    Colon,
    String,
    DollarSign,
    Period,
}

/// One token: its kind and its location.
#[derive(Debug, Clone, Copy, PartialEq, Eq)]
pub struct Token {
    pub inner: Tokens,
    pub location: Location,
}

/// The display text of a token kind: the punctuation character, or the
/// canonical uppercase keyword spelling. A string token's content lives in
/// the source buffer, not in the token, so it has no display text of its own.
pub open spec fn spec_token_text(t: Tokens) -> Seq<char> {
    match t {
        Tokens::SemiColon => ";"@,
        Tokens::Colon => ":"@,
        Tokens::DollarSign => "$"@,
        Tokens::Period => "."@,
        Tokens::Word(word) => word_upper(word.which),
        Tokens::String => "Unable to turn into string."@,
    }
}

impl Tokens {
    /// The display text of this token kind, used in diagnostic messages.
    pub fn to_string(&self) -> (r: String)
        ensures
            r@ == spec_token_text(*self),
    {
        match self {
            Tokens::SemiColon => String::from_str(";"),
            Tokens::Colon => String::from_str(":"),
            Tokens::DollarSign => String::from_str("$"),
            Tokens::Period => String::from_str("."),
            Tokens::Word(word) => word.which.render(),
            Tokens::String => String::from_str("Unable to turn into string."),
        }
    }
}

} // verus!
