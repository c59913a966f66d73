//! The tokenizer: a single forward pass over the character buffer, with no
//! backtracking, producing the span-annotated token stream.
//!
//! Policy notes, fixed here deliberately:
//! - only a space is consumed as plain whitespace; a newline is consumed too
//!   and increments the line counter (used for diagnostics only);
//! - a newline inside a string literal is an error (`UnterminatedConstruct`),
//!   as is end of input before the closing quote;
//! - keyword runs are runs of ASCII letters; any other character outside a
//!   string literal is an `UnknownCharacter` error;
//! - an alphabetic run that is not in the vocabulary is an `UnknownKeyword`
//!   error, never a bare identifier: names are always quoted strings.

use vstd::prelude::*;
use vstd::string::StringExecFns;
use crate::ast::AST;
use crate::text::{slice_chars, str_to_chars};
use crate::token::{Location, Span, Token, Tokens};
use crate::parser::{token_wf, tokens_wf};
use crate::words::{Word, Words, spec_resolve};

verus! {

/// The file a token stream came from, with its character buffer.
#[derive(Debug, Clone, PartialEq, Eq)]
pub struct Context {
    pub file: String,
    pub source: Vec<char>,
}

/// A tokenization error. Each variant carries the exact offending span and
/// the line it starts on.
#[derive(Debug, Clone, Copy, PartialEq, Eq, Structural)]
pub enum LexError {
    /// A string literal with no closing quote before a newline or the end of
    /// the input. The span covers the opening quote and the scanned content.
    UnterminatedConstruct { span: Span, line: usize },
    /// A character that starts no token. The span covers that character.
    UnknownCharacter { span: Span, line: usize },
    /// An alphabetic run that is not in the vocabulary. The span covers
    /// exactly that run of letters.
    UnknownKeyword { span: Span, line: usize },
}

/// An ASCII letter.
pub open spec fn is_ascii_alpha(c: char) -> bool {
    ('a' <= c && c <= 'z') || ('A' <= c && c <= 'Z')
}

/// Decides whether a character is an ASCII letter.
pub fn is_ascii_alpha_exec(c: char) -> (b: bool)
    ensures
        b == is_ascii_alpha(c),
{
    let x = c as u32;
    (97 <= x && x <= 122) || (65 <= x && x <= 90)
}

/// The length of the maximal run of ASCII letters starting at `i`.
pub open spec fn alpha_run_len(src: Seq<char>, i: int) -> nat
    decreases src.len() - i,
{
    if 0 <= i && i < src.len() && is_ascii_alpha(src[i]) {
        (1 + alpha_run_len(src, i + 1)) as nat
    } else {
        0
    }
}

/// The number of characters from `i` up to (not including) the first quote,
/// newline, or the end of the input.
pub open spec fn str_body_len(src: Seq<char>, i: int) -> nat
    decreases src.len() - i,
{
    if 0 <= i && i < src.len() && src[i] != '"' && src[i] != '\n' {
        (1 + str_body_len(src, i + 1)) as nat
    } else {
        0
    }
}

/// An alphabetic run never reaches past the end of the buffer.
pub proof fn lemma_alpha_run_len_bound(src: Seq<char>, i: int)
    requires
        0 <= i <= src.len(),
    ensures
        i + alpha_run_len(src, i) <= src.len(),
    decreases src.len() - i,
{
    if i < src.len() && is_ascii_alpha(src[i]) {
        lemma_alpha_run_len_bound(src, i + 1);
    }
}

/// A string body never reaches past the end of the buffer.
pub proof fn lemma_str_body_len_bound(src: Seq<char>, i: int)
    requires
        0 <= i <= src.len(),
    ensures
        i + str_body_len(src, i) <= src.len(),
    decreases src.len() - i,
{
    if i < src.len() && src[i] != '"' && src[i] != '\n' {
        lemma_str_body_len_bound(src, i + 1);
    }
}

/// If every character in `[i, j)` is a letter and `j` sits at a non-letter or
/// at the end, the maximal run at `i` is exactly `j - i`.
pub proof fn lemma_alpha_run_exact(src: Seq<char>, i: int, j: int)
    requires
        0 <= i <= j <= src.len(),
        forall|k: int| i <= k < j ==> is_ascii_alpha(src[k]),
        j == src.len() || !is_ascii_alpha(src[j]),
    ensures
        alpha_run_len(src, i) == j - i,
    decreases j - i,
{
    if i < j {
        lemma_alpha_run_exact(src, i + 1, j);
    }
}

/// If no character in `[i, j)` terminates a string body and `j` sits at a
/// terminator or at the end, the body length at `i` is exactly `j - i`.
pub proof fn lemma_str_body_exact(src: Seq<char>, i: int, j: int)
    requires
        0 <= i <= j <= src.len(),
        forall|k: int| i <= k < j ==> src[k] != '"' && src[k] != '\n',
        j == src.len() || src[j] == '"' || src[j] == '\n',
    ensures
        str_body_len(src, i) == j - i,
    decreases j - i,
{
    if i < j {
        lemma_str_body_exact(src, i + 1, j);
    }
}

/// What one tokenizer step at position `i` does: the token it emits (if any),
/// where it continues, the new line counter, and the error it stops on (if
/// any). Only meaningful for `0 <= i < src.len()`.
pub struct LexStep {
    pub token: Option<Token>,
    pub next: int,
    pub next_line: int,
    pub err: Option<LexError>,
}

/// A zero-width token for a standalone punctuation character.
pub open spec fn punct_token(t: Tokens, i: int, line: int) -> Token {
    Token {
        inner: t,
        location: Location { offset: i as usize, line: line as usize, span: None },
    }
}

/// One tokenizer step at position `i` of the buffer.
pub open spec fn lex_step(src: Seq<char>, i: int, line: int) -> LexStep {
    let c = src[i];
    if c == ' ' {
        LexStep { token: None, next: i + 1, next_line: line, err: None }
    } else if c == '\n' {
        LexStep { token: None, next: i + 1, next_line: line + 1, err: None }
    } else if c == ':' {
        LexStep { token: Some(punct_token(Tokens::Colon, i, line)), next: i + 1, next_line: line, err: None }
    } else if c == ';' {
        LexStep { token: Some(punct_token(Tokens::SemiColon, i, line)), next: i + 1, next_line: line, err: None }
    } else if c == '$' {
        LexStep { token: Some(punct_token(Tokens::DollarSign, i, line)), next: i + 1, next_line: line, err: None }
    } else if c == '.' {
        LexStep { token: Some(punct_token(Tokens::Period, i, line)), next: i + 1, next_line: line, err: None }
    } else if c == '"' {
        let body = str_body_len(src, i + 1) as int;
        if i + 1 + body < src.len() && src[i + 1 + body] == '"' {
            LexStep {
                token: Some(Token {
                    inner: Tokens::String,
                    location: Location {
                        offset: (i + 1) as usize,
                        line: line as usize,
                        span: Some(Span { start: (i + 1) as usize, end: (i + 1 + body) as usize }),
                    },
                }),
                next: i + 2 + body,
                next_line: line,
                err: None,
            }
        } else {
            LexStep {
                token: None,
                next: i,
                next_line: line,
                err: Some(LexError::UnterminatedConstruct {
                    span: Span { start: i as usize, end: (i + 1 + body) as usize },
                    line: line as usize,
                }),
            }
        }
    } else if is_ascii_alpha(c) {
        let n = 1 + alpha_run_len(src, i + 1) as int;
        match spec_resolve(src.subrange(i, i + n)) {
            Some(w) => LexStep {
                token: Some(Token {
                    inner: Tokens::Word(Word { which: w, plural: false }),
                    location: Location {
                        offset: i as usize,
                        line: line as usize,
                        span: Some(Span { start: i as usize, end: (i + n) as usize }),
                    },
                }),
                next: i + n,
                next_line: line,
                err: None,
            },
            None => LexStep {
                token: None,
                next: i,
                next_line: line,
                err: Some(LexError::UnknownKeyword {
                    span: Span { start: i as usize, end: (i + n) as usize },
                    line: line as usize,
                }),
            },
        }
    } else {
        LexStep {
            token: None,
            next: i,
            next_line: line,
            err: Some(LexError::UnknownCharacter {
                span: Span { start: i as usize, end: (i + 1) as usize },
                line: line as usize,
            }),
        }
    }
}

/// A step that stops on no error moves strictly forward and stays inside the
/// buffer.
pub proof fn lemma_lex_step_next(src: Seq<char>, i: int, line: int)
    requires
        0 <= i < src.len(),
        lex_step(src, i, line).err is None,
    ensures
        i < lex_step(src, i, line).next <= src.len(),
{
    lemma_str_body_len_bound(src, i + 1);
    lemma_alpha_run_len_bound(src, i + 1);
}

/// The singleton or empty sequence a step's token contributes to the stream.
pub open spec fn opt_tok_seq(t: Option<Token>) -> Seq<Token> {
    match t {
        Some(tok) => seq![tok],
        None => Seq::empty(),
    }
}

/// The whole tokenization from position `i` on: the tokens emitted before
/// the end of the input or the first error, and that error if there is one.
/// Tokenization is deterministic: this function is the tokenizer's contract.
pub open spec fn spec_lex(src: Seq<char>, i: int, line: int) -> (Seq<Token>, Option<LexError>)
    decreases src.len() - i,
{
    if !(0 <= i && i < src.len()) {
        (Seq::empty(), None)
    } else {
        let st = lex_step(src, i, line);
        if st.err is Some {
            (Seq::empty(), st.err)
        } else {
            proof {
                lemma_lex_step_next(src, i, line);
            }
            let rest = spec_lex(src, st.next, st.next_line);
            (opt_tok_seq(st.token) + rest.0, rest.1)
        }
    }
}

/// The tokenizer: single-use, scanning the whole buffer eagerly before any
/// parsing starts.
pub struct Lexer {
    pub source: Vec<char>,
    pub idx: usize,
    pub line: usize,
    pub ctx: Context,
    pub results: AST,
}

/// How one call of `Lexer::lex` relates the lexer's state before and after:
/// on success the state moves exactly one step of the model; on an error the
/// model's step stops on that same error and no token is pushed.
pub open spec fn lex_result_matches(pre: Lexer, post: Lexer, r: Result<(), LexError>) -> bool {
    let st = lex_step(pre.source@, pre.idx as int, pre.line as int);
    match r {
        Ok(()) => st.err is None && post.idx == st.next && post.line == st.next_line
            && post.results.ast@ == pre.results.ast@ + opt_tok_seq(st.token),
        Err(e) => st.err == Some(e) && post.results.ast@ == pre.results.ast@
            && post.idx == pre.idx && post.line == pre.line,
    }
}

impl Lexer {
    /// The cursor never passes the end of the buffer, and the line counter,
    /// which counts newlines already consumed, never exceeds the cursor.
    pub open spec fn wf(self) -> bool {
        self.idx <= self.source@.len() && self.line <= self.idx
    }

    /// A fresh tokenizer over one source file, cursor at the start.
    pub fn init(source: &str, file_name: &str) -> (r: Lexer)
        ensures
            r.wf(),
            r.source@ == source@,
            r.idx == 0,
            r.line == 0,
            r.results.ast@ == Seq::<Token>::empty(),
            r.ctx.file@ == file_name@,
            r.ctx.source@ == source@,
    {
        let chars = str_to_chars(source);
        let ctx_chars = str_to_chars(source);
        Lexer {
            source: chars,
            idx: 0,
            line: 0,
            ctx: Context { file: file_name.to_owned(), source: ctx_chars },
            results: AST { ast: Vec::new() },
        }
    }

    /// The character under the cursor, if the cursor is inside the buffer.
    pub fn current(&self) -> (r: Option<char>)
        ensures
            r == (if self.idx < self.source@.len() {
                Some(self.source@[self.idx as int])
            } else {
                None::<char>
            }),
    {
        if self.idx < self.source.len() {
            Some(self.source[self.idx])
        } else {
            None
        }
    }

    /// True when the given position (the cursor when none is given) is at or
    /// past the end of the buffer.
    pub fn eof(&self, amount: Option<usize>) -> (b: bool)
        ensures
            b == ((match amount {
                Some(k) => k as int,
                None => self.idx as int,
            }) >= self.source@.len()),
    {
        let pos = match amount {
            Some(k) => k,
            None => self.idx,
        };
        pos >= self.source.len()
    }

    /// Moves the cursor forward by `amount` (one character when none is
    /// given) when that keeps it inside or at the end of the buffer; reports
    /// whether it moved.
    pub fn advance(&mut self, amount: Option<usize>) -> (moved: bool)
        requires
            old(self).wf(),
        ensures
            final(self).wf(),
            final(self).source == old(self).source,
            final(self).line == old(self).line,
            final(self).ctx == old(self).ctx,
            final(self).results == old(self).results,
            ({
                let a = (match amount {
                    Some(k) => k as int,
                    None => 1int,
                });
                if old(self).idx + a <= old(self).source@.len() {
                    moved && final(self).idx == old(self).idx + a
                } else {
                    !moved && final(self).idx == old(self).idx
                }
            }),
    {
        let a = match amount {
            Some(k) => k,
            None => 1,
        };
        if a <= self.source.len() - self.idx {
            self.idx = self.idx + a;
            true
        } else {
            false
        }
    }

    /// The character `amount` positions ahead of the cursor (one ahead when
    /// none is given), if that position is inside the buffer.
    pub fn peek(&self, amount: Option<usize>) -> (r: Option<char>)
        requires
            self.wf(),
        ensures
            r == ({
                let a = (match amount {
                    Some(k) => k as int,
                    None => 1int,
                });
                if self.idx + a < self.source@.len() {
                    Some(self.source@[self.idx + a])
                } else {
                    None::<char>
                }
            }),
    {
        let a = match amount {
            Some(k) => k,
            None => 1,
        };
        if a < self.source.len() - self.idx {
            Some(self.source[self.idx + a])
        } else {
            None
        }
    }

    /// Appends one token to the stream. Its offset is the start of its span
    /// when it has one (tokens with content), the cursor position otherwise
    /// (zero-width punctuation).
    pub fn push_back(&mut self, token: Tokens, range: Option<Span>)
        ensures
            final(self).source == old(self).source,
            final(self).idx == old(self).idx,
            final(self).line == old(self).line,
            final(self).ctx == old(self).ctx,
            final(self).results.ast@ == old(self).results.ast@.push(Token {
                inner: token,
                location: Location {
                    offset: (match range {
                        Some(s) => s.start,
                        None => old(self).idx,
                    }),
                    line: old(self).line,
                    span: range,
                },
            }),
    {
        let offset = match range {
            Some(s) => s.start,
            None => self.idx,
        };
        self.results.ast.push(Token {
            inner: token,
            location: Location { offset, line: self.line, span: range },
        });
    }

    /// One tokenizer step: consumes whitespace, one punctuation character,
    /// one string literal, or one keyword run, or stops on the error the
    /// model prescribes for the character under the cursor.
    pub fn lex(&mut self) -> (r: Result<(), LexError>)
        requires
            old(self).wf(),
            old(self).idx < old(self).source@.len(),
        ensures
            final(self).wf(),
            final(self).source == old(self).source,
            final(self).ctx == old(self).ctx,
            lex_result_matches(*old(self), *final(self), r),
    {
        let n = self.source.len();
        let ghost st = lex_step(self.source@, self.idx as int, self.line as int);
        proof {
            assert(self.idx < n);
        }
        let c = self.source[self.idx];
        if c == ' ' {
            self.idx = self.idx + 1;
            proof {
                assert(self.results.ast@ =~= old(self).results.ast@ + opt_tok_seq(st.token));
            }
            Ok(())
        } else if c == '\n' {
            self.idx = self.idx + 1;
            self.line = self.line + 1;
            proof {
                assert(self.results.ast@ =~= old(self).results.ast@ + opt_tok_seq(st.token));
            }
            Ok(())
        } else if c == ':' {
            self.push_back(Tokens::Colon, None);
            self.idx = self.idx + 1;
            proof {
                assert(self.results.ast@ =~= old(self).results.ast@ + opt_tok_seq(st.token));
            }
            Ok(())
        } else if c == ';' {
            self.push_back(Tokens::SemiColon, None);
            self.idx = self.idx + 1;
            proof {
                assert(self.results.ast@ =~= old(self).results.ast@ + opt_tok_seq(st.token));
            }
            Ok(())
        } else if c == '$' {
            self.push_back(Tokens::DollarSign, None);
            self.idx = self.idx + 1;
            proof {
                assert(self.results.ast@ =~= old(self).results.ast@ + opt_tok_seq(st.token));
            }
            Ok(())
        } else if c == '.' {
            self.push_back(Tokens::Period, None);
            self.idx = self.idx + 1;
            proof {
                assert(self.results.ast@ =~= old(self).results.ast@ + opt_tok_seq(st.token));
            }
            Ok(())
        } else if c == '"' {
            let start = self.idx;
            let mut j = start + 1;
            while j < self.source.len() && self.source[j] != '"' && self.source[j] != '\n'
                invariant
                    start + 1 <= j <= self.source@.len(),
                    forall|k: int| start + 1 <= k < j ==> self.source@[k] != '"' && self.source@[k] != '\n',
                decreases self.source@.len() - j,
            {
                j = j + 1;
            }
            proof {
                lemma_str_body_exact(self.source@, start as int + 1, j as int);
            }
            if j < self.source.len() && self.source[j] == '"' {
                self.push_back(Tokens::String, Some(Span { start: start + 1, end: j }));
                self.idx = j + 1;
                proof {
                    assert(self.results.ast@ =~= old(self).results.ast@ + opt_tok_seq(st.token));
                }
                Ok(())
            } else {
                Err(LexError::UnterminatedConstruct {
                    span: Span { start, end: j },
                    line: self.line,
                })
            }
        } else if is_ascii_alpha_exec(c) {
            let start = self.idx;
            let mut j = start + 1;
            while j < self.source.len() && is_ascii_alpha_exec(self.source[j])
                invariant
                    start + 1 <= j <= self.source@.len(),
                    forall|k: int| start + 1 <= k < j ==> is_ascii_alpha(self.source@[k]),
                decreases self.source@.len() - j,
            {
                j = j + 1;
            }
            proof {
                lemma_alpha_run_exact(self.source@, start as int + 1, j as int);
                assert(self.source@.subrange(start as int, j as int) == old(self).source@.subrange(
                    start as int,
                    start as int + 1 + alpha_run_len(old(self).source@, start as int + 1),
                ));
            }
            let kw = slice_chars(&self.source, start, j);
            match Words::resolve(&kw) {
                Some(w) => {
                    self.push_back(
                        Tokens::Word(Word { which: w, plural: false }),
                        Some(Span { start, end: j }),
                    );
                    self.idx = j;
                    proof {
                        assert(self.results.ast@ =~= old(self).results.ast@ + opt_tok_seq(st.token));
                    }
                    Ok(())
                },
                None => Err(LexError::UnknownKeyword {
                    span: Span { start, end: j },
                    line: self.line,
                }),
            }
        } else {
            Err(LexError::UnknownCharacter {
                span: Span { start: self.idx, end: self.idx + 1 },
                line: self.line,
            })
        }
    }

    /// Tokenizes the whole buffer from the cursor on: on success the model's
    /// tokens are appended to the stream and the input is exhausted; on an
    /// error, the tokens the model emits before the error have been appended
    /// and the error is exactly the model's.
    pub fn lex_all(&mut self) -> (r: Result<(), LexError>)
        requires
            old(self).wf(),
        ensures
            final(self).wf(),
            final(self).source == old(self).source,
            final(self).ctx == old(self).ctx,
            ({
                let (toks, err) = spec_lex(
                    old(self).source@,
                    old(self).idx as int,
                    old(self).line as int,
                );
                match r {
                    Ok(()) => err is None && final(self).results.ast@ == old(self).results.ast@
                        + toks && final(self).idx == final(self).source@.len(),
                    Err(e) => err == Some(e) && final(self).results.ast@ == old(self).results.ast@
                        + toks,
                }
            }),
    {
        let ghost mut done: Seq<Token> = Seq::empty();
        proof {
            assert(self.results.ast@ =~= old(self).results.ast@ + done);
        }
        while self.idx < self.source.len()
            invariant
                self.wf(),
                self.source == old(self).source,
                self.ctx == old(self).ctx,
                self.results.ast@ == old(self).results.ast@ + done,
                spec_lex(old(self).source@, old(self).idx as int, old(self).line as int) == (
                    done + spec_lex(self.source@, self.idx as int, self.line as int).0,
                    spec_lex(self.source@, self.idx as int, self.line as int).1,
                ),
            decreases self.source@.len() - self.idx,
        {
            let ghost pre = *self;
            let step = self.lex();
            match step {
                Ok(()) => {
                    proof {
                        let st = lex_step(pre.source@, pre.idx as int, pre.line as int);
                        lemma_lex_step_next(pre.source@, pre.idx as int, pre.line as int);
                        done = done + opt_tok_seq(st.token);
                        assert(self.results.ast@ =~= old(self).results.ast@ + done);
                        assert(done + spec_lex(self.source@, self.idx as int, self.line as int).0
                            =~= spec_lex(old(self).source@, old(self).idx as int, old(self).line as int).0);
                    }
                },
                Err(e) => {
                    proof {
                        assert(spec_lex(pre.source@, pre.idx as int, pre.line as int).1 == Some(e));
                        assert(done + spec_lex(pre.source@, pre.idx as int, pre.line as int).0
                            =~= done);
                    }
                    return Err(e);
                },
            }
        }
        proof {
            assert(spec_lex(old(self).source@, old(self).idx as int, old(self).line as int).0
                =~= done);
        }
        Ok(())
    }
}

/// Every token the tokenizer emits is well formed against the source buffer
/// it was produced from: its span, when it has one, lies inside the buffer.
/// This is what lets the parser slice literal content without further checks.
pub proof fn lemma_lex_tokens_wf(src: Seq<char>, i: int, line: int)
    requires
        src.len() <= usize::MAX,
    ensures
        tokens_wf(spec_lex(src, i, line).0, src),
    decreases src.len() - i,
{
    if 0 <= i && i < src.len() {
        let st = lex_step(src, i, line);
        if st.err is None {
            lemma_lex_step_next(src, i, line);
            lemma_alpha_run_len_bound(src, i + 1);
            lemma_str_body_len_bound(src, i + 1);
            lemma_lex_tokens_wf(src, st.next, st.next_line);
            let toks = spec_lex(src, i, line).0;
            let rest = spec_lex(src, st.next, st.next_line).0;
            assert forall|k: int| 0 <= k < toks.len() implies token_wf(#[trigger] toks[k], src) by {
                match st.token {
                    Some(t) => {
                        if k == 0 {
                            assert(toks[0] == t);
                            if src[i] == '"' {
                                assert(i + 1 + str_body_len(src, i + 1) < src.len());
                            }
                            assert(token_wf(t, src));
                        } else {
                            assert(toks[k] == rest[k - 1]);
                            assert(token_wf(rest[k - 1], src));
                        }
                    },
                    None => {
                        assert(toks[k] == rest[k]);
                        assert(token_wf(rest[k], src));
                    },
                }
            }
        }
    }
}

/// Tokens are emitted in strictly increasing offset order, and no token's
/// offset lies before the position tokenization started at.
pub proof fn lemma_lex_offsets_increase(src: Seq<char>, i: int, line: int)
    requires
        src.len() <= usize::MAX,
    ensures
        forall|k: int|
            0 <= k < spec_lex(src, i, line).0.len() ==> i <= #[trigger] spec_lex(
                src,
                i,
                line,
            ).0[k].location.offset,
        forall|k1: int, k2: int|
            0 <= k1 < k2 < spec_lex(src, i, line).0.len() ==> #[trigger] spec_lex(
                src,
                i,
                line,
            ).0[k1].location.offset < #[trigger] spec_lex(src, i, line).0[k2].location.offset,
    decreases src.len() - i,
{
    if 0 <= i && i < src.len() {
        let st = lex_step(src, i, line);
        if st.err is None {
            lemma_lex_step_next(src, i, line);
            lemma_lex_offsets_increase(src, st.next, st.next_line);
            let toks = spec_lex(src, i, line).0;
            let rest = spec_lex(src, st.next, st.next_line).0;
            assert forall|k: int|
                0 <= k < toks.len() implies i <= #[trigger] toks[k].location.offset by {
                match st.token {
                    Some(t) => {
                        if k == 0 {
                            assert(toks[0] == t);
                            assert(i <= t.location.offset);
                        } else {
                            assert(toks[k] == rest[k - 1]);
                            assert(st.next <= rest[k - 1].location.offset);
                        }
                    },
                    None => {
                        assert(toks[k] == rest[k]);
                        assert(st.next <= rest[k].location.offset);
                    },
                }
            }
            assert forall|k1: int, k2: int|
                0 <= k1 < k2 < toks.len() implies toks[k1].location.offset
                < toks[k2].location.offset by {
                match st.token {
                    Some(t) => {
                        assert(t.location.offset < st.next);
                        if k1 == 0 {
                            assert(toks[0] == t);
                            assert(toks[k2] == rest[k2 - 1]);
                            assert(st.next <= rest[k2 - 1].location.offset);
                        } else {
                            assert(toks[k1] == rest[k1 - 1]);
                            assert(toks[k2] == rest[k2 - 1]);
                            assert(rest[k1 - 1].location.offset < rest[k2 - 1].location.offset);
                        }
                    },
                    None => {
                        assert(toks[k1] == rest[k1]);
                        assert(toks[k2] == rest[k2]);
                        assert(rest[k1].location.offset < rest[k2].location.offset);
                    },
                }
            }
        }
    }
}

/// No character inside a string body's extent is a quote or a newline.
pub proof fn lemma_str_body_chars(src: Seq<char>, i: int)
    ensures
        forall|k: int|
            i <= k < i + str_body_len(src, i) ==> #[trigger] src[k] != '"' && src[k] != '\n',
    decreases src.len() - i,
{
    if 0 <= i && i < src.len() && src[i] != '"' && src[i] != '\n' {
        lemma_str_body_chars(src, i + 1);
    }
}

/// Tokenizes one source buffer in a single forward pass: on success, exactly
/// the model's ordered token stream, whose tokens are well formed against the
/// buffer (so the parser may slice literal content at their spans) and valid
/// for reconstruction; on failure, exactly the model's first error.
pub fn tokenize(source: &str, file_name: &str) -> (r: Result<Lexer, LexError>)
    ensures
        ({
            let (toks, err) = spec_lex(source@, 0, 0);
            match r {
                Ok(lexer) => {
                    &&& err is None
                    &&& lexer.results.ast@ == toks
                    &&& lexer.source@ == source@
                    &&& lexer.ctx.source@ == source@
                    &&& lexer.ctx.file@ == file_name@
                    &&& tokens_wf(toks, source@)
                    &&& crate::ast::valid_tokens(toks, source@)
                },
                Err(e) => err == Some(e),
            }
        }),
{
    let mut lexer = Lexer::init(source, file_name);
    match lexer.lex_all() {
        Ok(()) => {
            proof {
                lemma_lex_tokens_wf(source@, 0, 0);
                crate::ast::lemma_lex_tokens_valid(source@, 0, 0);
                assert(lexer.results.ast@ =~= spec_lex(source@, 0, 0).0);
            }
            Ok(lexer)
        },
        Err(e) => Err(e),
    }
}

} // verus!
