//! The recursive-descent parser: one-token lookahead, no backtracking, and
//! fail-fast error handling — every unexpected token, every unimplemented
//! grammar branch, and every block-closer mismatch is immediately fatal for
//! the whole compilation unit; there is no resynchronization and no partial
//! tree a caller may use.
//!
//! The grammar (keyword forms are case-insensitive at tokenization time):
//!
//! ```text
//! Program        := Stmt*
//! Stmt           := DefineModule | DefineFunction | SetVariable | IfStmt | CallStmt
//! DefineModule   := DEFINE MODULE <str> WITH CONTENTS ':' Block END MODULE <str> '.'
//! DefineFunction := DEFINE FUNCTION <str> THAT RETURNS A ':' Block END FUNCTION <str> '.'
//! SetVariable    := SET <str> EQUAL TO <str> '.'
//! CallStmt       := CALL FUNCTION <str> [ WITH THE ARGUMENT <str> ] '.'
//! IfStmt         := IF <str> IS EQUAL TO <str> THEN DO Block IF
//! ```
//!
//! A named block's closer must repeat, character for character, the name
//! captured at its opener. The conditional block closes on a bare `IF`, not
//! `END IF`: the asymmetry is deliberate and preserved.

use vstd::prelude::*;
use crate::ast::token_content;
use crate::node::{
    Binary, BinaryOperators, BinaryView, Condition, ConditionView, Expr, ExprView, FunctionCall,
    FunctionCallView, LiteralExpr, LiteralExprView, Stmt, StmtView, VariableType, expr_view, exprs_view,
    lemma_stmt_seq_view_push, lemma_stmts_view_push, stmt_seq_view, stmts_view,
};
use crate::text::{chars_to_string, slice_chars};
use crate::token::{Span, Token, Tokens};
use crate::lexer::Context;
use crate::words::{Word, Words};

verus! {

/// A parse error. Every variant carries the exact span of the offending
/// token and the line it is on; when the input ends where a token was
/// required, the reported span is empty at position zero.
#[derive(Debug, PartialEq, Eq)]
pub enum ParseError {
    /// A token other than the one the grammar requires here. `expected` is
    /// `None` when what was required is the start of a statement rather than
    /// one particular token.
    UnexpectedToken { expected: Option<Tokens>, found: Option<Tokens>, span: Span, line: usize },
    /// A named block closed under a different name than it was opened with.
    MismatchedBlockCloser { expected_name: String, found_name: String, span: Span, line: usize },
    /// A grammar branch the language deliberately leaves unimplemented, such
    /// as function definitions or calls with argument forms beyond the single
    /// supported one. These fail loudly, never silently mis-parse.
    UnsupportedConstruct { span: Span, line: usize },
}

/// The view of a parse error, over `Seq<char>`.
pub enum ParseErrorView {
    UnexpectedToken { expected: Option<Tokens>, found: Option<Tokens>, span: Span, line: usize },
    MismatchedBlockCloser { expected_name: Seq<char>, found_name: Seq<char>, span: Span, line: usize },
    UnsupportedConstruct { span: Span, line: usize },
}

impl View for ParseError {
    type V = ParseErrorView;

    open spec fn view(&self) -> ParseErrorView {
        match self {
            ParseError::UnexpectedToken { expected, found, span, line } =>
                ParseErrorView::UnexpectedToken {
                    expected: *expected,
                    found: *found,
                    span: *span,
                    line: *line,
                },
            ParseError::MismatchedBlockCloser { expected_name, found_name, span, line } =>
                ParseErrorView::MismatchedBlockCloser {
                    expected_name: expected_name@,
                    found_name: found_name@,
                    span: *span,
                    line: *line,
                },
            ParseError::UnsupportedConstruct { span, line } =>
                ParseErrorView::UnsupportedConstruct { span: *span, line: *line },
        }
    }
}

/// What a block is closed by: a named `END <KIND> <name> '.'` phrase, where
/// the kind is a small version number (0 for modules, 1 for functions), or
/// the unnamed conditional-block closer.
#[derive(Debug, PartialEq, Eq)]
pub enum BlockType {
    Named(String, usize),
    Unamed(usize),
}

/// The view of a block closer description.
pub enum BlockTypeView {
    Named(Seq<char>, int),
    Unamed(int),
}

impl View for BlockType {
    type V = BlockTypeView;

    open spec fn view(&self) -> BlockTypeView {
        match self {
            BlockType::Named(name, version) => BlockTypeView::Named(name@, *version as int),
            BlockType::Unamed(version) => BlockTypeView::Unamed(*version as int),
        }
    }
}

/// The token kind for one vocabulary word, as the grammar expects it.
pub open spec fn word_tok(w: Words) -> Tokens {
    Tokens::Word(Word { which: w, plural: false })
}

/// The span a token reports in diagnostics: its own span when it has one, a
/// zero-width span at its offset otherwise.
pub open spec fn tok_span(t: Token) -> Span {
    match t.location.span {
        Some(s) => s,
        None => Span { start: t.location.offset, end: t.location.offset },
    }
}

/// The `UnexpectedToken` error reported at position `i` of the token stream.
pub open spec fn unexpected(expected: Option<Tokens>, toks: Seq<Token>, i: int) -> ParseErrorView {
    if 0 <= i && i < toks.len() {
        ParseErrorView::UnexpectedToken {
            expected,
            found: Some(toks[i].inner),
            span: tok_span(toks[i]),
            line: toks[i].location.line,
        }
    } else {
        ParseErrorView::UnexpectedToken {
            expected,
            found: None,
            span: Span { start: 0, end: 0 },
            line: 0,
        }
    }
}

/// The `UnsupportedConstruct` error reported at position `i`.
pub open spec fn unsupported(toks: Seq<Token>, i: int) -> ParseErrorView {
    if 0 <= i && i < toks.len() {
        ParseErrorView::UnsupportedConstruct {
            span: tok_span(toks[i]),
            line: toks[i].location.line,
        }
    } else {
        ParseErrorView::UnsupportedConstruct { span: Span { start: 0, end: 0 }, line: 0 }
    }
}

/// A `<str>` production: the token at `i` must be a string literal; its
/// content is the slice of the source buffer at its span.
pub open spec fn spec_parse_string(toks: Seq<Token>, src: Seq<char>, i: int) -> Result<
    Seq<char>,
    ParseErrorView,
> {
    if 0 <= i && i < toks.len() && toks[i].inner is String {
        Ok(token_content(toks[i], src))
    } else {
        Err(unexpected(Some(Tokens::String), toks, i))
    }
}

/// An `<expr>` production: currently a string literal is the only expression
/// form; any other token in expression position is an unimplemented branch.
pub open spec fn spec_parse_expr(toks: Seq<Token>, src: Seq<char>, i: int) -> Result<
    Seq<char>,
    ParseErrorView,
> {
    if !(0 <= i && i < toks.len()) {
        Err(unexpected(Some(Tokens::String), toks, i))
    } else if toks[i].inner is String {
        Ok(token_content(toks[i], src))
    } else {
        Err(unsupported(toks, i))
    }
}

/// A fixed phrase of tokens starting at `i`: the position after the phrase,
/// or the error for the first token that does not match.
pub open spec fn spec_expect_seq(toks: Seq<Token>, i: int, expected: Seq<Tokens>) -> Result<
    int,
    ParseErrorView,
>
    decreases expected.len(),
{
    if expected.len() == 0 {
        Ok(i)
    } else if 0 <= i && i < toks.len() && toks[i].inner == expected[0] {
        spec_expect_seq(toks, i + 1, expected.drop_first())
    } else {
        Err(unexpected(Some(expected[0]), toks, i))
    }
}

/// Where parsing continues after a statement that began at `i` and reported
/// its end at `j`, in a stream of `n` tokens. A statement always consumes at
/// least one token and never reports an end past the stream, so this is `j`;
/// the fallback only gives the recursion a well-founded measure.
pub open spec fn next_pos(i: int, j: int, n: int) -> int {
    if i < j && j <= n {
        j
    } else {
        i + 1
    }
}

/// A phrase that matched ends exactly its own length further on, inside the
/// stream.
pub proof fn lemma_expect_seq_ok(toks: Seq<Token>, i: int, expected: Seq<Tokens>)
    requires
        expected.len() > 0,
        spec_expect_seq(toks, i, expected) is Ok,
    ensures
        spec_expect_seq(toks, i, expected) == Ok::<int, ParseErrorView>(i + expected.len()),
        0 <= i,
        i + expected.len() <= toks.len(),
    decreases expected.len(),
{
    if expected.len() > 1 {
        lemma_expect_seq_ok(toks, i + 1, expected.drop_first());
    } else {
        assert(spec_expect_seq(toks, i + 1, expected.drop_first())
            == Ok::<int, ParseErrorView>(i + 1));
    }
}

/// `SET <str> EQUAL TO <str> '.'` with the `SET` token at `i`.
pub open spec fn spec_parse_set(toks: Seq<Token>, src: Seq<char>, i: int) -> Result<
    (StmtView, int),
    ParseErrorView,
> {
    match spec_parse_string(toks, src, i + 1) {
        Err(e) => Err(e),
        Ok(name) => match spec_expect_seq(
            toks,
            i + 2,
            seq![word_tok(Words::Equal), word_tok(Words::To)],
        ) {
            Err(e) => Err(e),
            Ok(j) => match spec_parse_string(toks, src, j) {
                Err(e) => Err(e),
                Ok(value) => match spec_expect_seq(toks, j + 1, seq![Tokens::Period]) {
                    Err(e) => Err(e),
                    Ok(k) => Ok((
                        StmtView::Variable {
                            name,
                            ty: VariableType::String,
                            value: Some(ExprView::Literal(LiteralExprView::String(value))),
                        },
                        k,
                    )),
                },
            },
        },
    }
}

/// `CALL FUNCTION <str> [ WITH THE ARGUMENT <str> ] '.'` with `CALL` at `i`.
/// A call of anything but a function, or an argument form other than the
/// single supported one, is an unimplemented branch.
pub open spec fn spec_parse_call(toks: Seq<Token>, src: Seq<char>, i: int) -> Result<
    (StmtView, int),
    ParseErrorView,
> {
    if !(i + 1 < toks.len() && toks[i + 1].inner is Word) {
        Err(unexpected(Some(word_tok(Words::Function)), toks, i + 1))
    } else if toks[i + 1].inner != word_tok(Words::Function) {
        Err(unsupported(toks, i + 1))
    } else {
        match spec_parse_string(toks, src, i + 2) {
            Err(e) => Err(e),
            Ok(name) => {
                let j = i + 3;
                if j < toks.len() && toks[j].inner == word_tok(Words::With) {
                    if j + 1 < toks.len() && toks[j + 1].inner == word_tok(Words::The) {
                        match spec_expect_seq(toks, j + 2, seq![word_tok(Words::Argument)]) {
                            Err(e) => Err(e),
                            Ok(k) => match spec_parse_string(toks, src, k) {
                                Err(e) => Err(e),
                                Ok(arg) => match spec_expect_seq(
                                    toks,
                                    k + 1,
                                    seq![Tokens::Period],
                                ) {
                                    Err(e) => Err(e),
                                    Ok(m) => Ok((
                                        StmtView::Expr(ExprView::Call(FunctionCallView {
                                            func: Box::new(ExprView::Literal(
                                                LiteralExprView::String(name),
                                            )),
                                            args: Some(seq![ExprView::Literal(
                                                LiteralExprView::String(arg),
                                            )]),
                                        })),
                                        m,
                                    )),
                                },
                            },
                        }
                    } else {
                        Err(unsupported(toks, j + 1))
                    }
                } else if j < toks.len() && toks[j].inner is Period {
                    Ok((
                        StmtView::Expr(ExprView::Call(FunctionCallView {
                            func: Box::new(ExprView::Literal(LiteralExprView::String(name))),
                            args: None,
                        })),
                        j + 1,
                    ))
                } else {
                    Err(unexpected(Some(Tokens::Period), toks, j))
                }
            },
        }
    }
}

/// `DEFINE MODULE ...` or `DEFINE FUNCTION ...` with `DEFINE` at `i`. A
/// function form without `THAT` (an argument-taking form) is an
/// unimplemented branch.
pub open spec fn spec_parse_define(toks: Seq<Token>, src: Seq<char>, i: int) -> Result<
    (StmtView, int),
    ParseErrorView,
>
    decreases toks.len() - i, 1int,
{
    if !(i + 1 < toks.len() && toks[i + 1].inner is Word) {
        Err(unexpected(Some(word_tok(Words::Module)), toks, i + 1))
    } else if toks[i + 1].inner == word_tok(Words::Function) {
        match spec_parse_string(toks, src, i + 2) {
            Err(e) => Err(e),
            Ok(name) => {
                let j = i + 3;
                if j < toks.len() && toks[j].inner == word_tok(Words::That) {
                    match spec_expect_seq(
                        toks,
                        j + 1,
                        seq![word_tok(Words::Returns), word_tok(Words::A), Tokens::Colon],
                    ) {
                        Err(e) => Err(e),
                        Ok(_) => {
                            proof {
                                lemma_expect_seq_ok(
                                    toks,
                                    j + 1,
                                    seq![word_tok(Words::Returns), word_tok(Words::A), Tokens::Colon],
                                );
                            }
                            match spec_parse_block(
                            toks,
                            src,
                            j + 4,
                            BlockTypeView::Named(name, 1),
                        ) {
                            Err(e) => Err(e),
                            Ok((stmts, k)) => Ok((
                                StmtView::Function {
                                    name: LiteralExprView::String(name),
                                    nodes: Box::new(StmtView::Block(stmts)),
                                },
                                k,
                            )),
                            }
                        },
                    }
                } else {
                    Err(unsupported(toks, j))
                }
            },
        }
    } else if toks[i + 1].inner == word_tok(Words::Module) {
        match spec_parse_string(toks, src, i + 2) {
            Err(e) => Err(e),
            Ok(name) => match spec_expect_seq(
                toks,
                i + 3,
                seq![word_tok(Words::With), word_tok(Words::Contents), Tokens::Colon],
            ) {
                Err(e) => Err(e),
                Ok(_) => {
                    proof {
                        lemma_expect_seq_ok(
                            toks,
                            i + 3,
                            seq![word_tok(Words::With), word_tok(Words::Contents), Tokens::Colon],
                        );
                    }
                    match spec_parse_block(toks, src, i + 6, BlockTypeView::Named(name, 0)) {
                        Err(e) => Err(e),
                        Ok((stmts, k)) => Ok((
                            StmtView::Module {
                                name: LiteralExprView::String(name),
                                nodes: Box::new(StmtView::Block(stmts)),
                            },
                            k,
                        )),
                    }
                },
            },
        }
    } else {
        Err(unexpected(Some(word_tok(Words::Module)), toks, i + 1))
    }
}

/// `IF <str> IS EQUAL TO <str> THEN DO Block IF` with the opening `IF` at
/// `i`. The single binary predicate is equality; the block closes on the
/// bare `IF` keyword.
pub open spec fn spec_parse_if(toks: Seq<Token>, src: Seq<char>, i: int) -> Result<
    (StmtView, int),
    ParseErrorView,
>
    decreases toks.len() - i, 1int,
{
    match spec_parse_expr(toks, src, i + 1) {
        Err(e) => Err(e),
        Ok(left) => match spec_expect_seq(
            toks,
            i + 2,
            seq![word_tok(Words::Is), word_tok(Words::Equal), word_tok(Words::To)],
        ) {
            Err(e) => Err(e),
            Ok(_) => match spec_parse_expr(toks, src, i + 5) {
                Err(e) => Err(e),
                Ok(right) => match spec_expect_seq(
                    toks,
                    i + 6,
                    seq![word_tok(Words::Then), word_tok(Words::Do)],
                ) {
                    Err(e) => Err(e),
                    Ok(_) => {
                        proof {
                            lemma_expect_seq_ok(
                                toks,
                                i + 6,
                                seq![word_tok(Words::Then), word_tok(Words::Do)],
                            );
                        }
                        match spec_parse_block(toks, src, i + 8, BlockTypeView::Unamed(0)) {
                        Err(e) => Err(e),
                        Ok((stmts, k)) => Ok((
                            StmtView::Condition(ConditionView {
                                then_branch: Box::new(StmtView::Block(stmts)),
                                el: None,
                                condition: Box::new(ExprView::BinaryOp(BinaryView {
                                    l: Box::new(ExprView::Literal(LiteralExprView::String(left))),
                                    r: Box::new(ExprView::Literal(LiteralExprView::String(right))),
                                    op: BinaryOperators::EqualTo,
                                })),
                            }),
                            k,
                        )),
                    }},
                },
            },
        },
    }
}

/// One statement with its first token at `i`: the statement's view and the
/// position just after it. A token that starts none of the five statement
/// forms is an unexpected token with no single expected phrase.
pub open spec fn spec_parse_stmt(toks: Seq<Token>, src: Seq<char>, i: int) -> Result<
    (StmtView, int),
    ParseErrorView,
>
    decreases toks.len() - i, 2int,
{
    if !(0 <= i && i < toks.len()) {
        Err(unexpected(None, toks, i))
    } else {
        match toks[i].inner {
            Tokens::Word(word) => match word.which {
                Words::If => spec_parse_if(toks, src, i),
                Words::Call => spec_parse_call(toks, src, i),
                Words::Define => spec_parse_define(toks, src, i),
                Words::SetKw => spec_parse_set(toks, src, i),
                _ => Err(unexpected(None, toks, i)),
            },
            _ => Err(unexpected(None, toks, i)),
        }
    }
}

/// The closer token a block is waiting for, for the error reported when the
/// input ends inside the block.
pub open spec fn block_closer_tok(bt: BlockTypeView) -> Tokens {
    match bt {
        BlockTypeView::Named(_, _) => word_tok(Words::End),
        BlockTypeView::Unamed(_) => word_tok(Words::If),
    }
}

/// A block: statements until the block's own closer, which the block itself
/// consumes. For a named block the closer is `END <KIND> <name> '.'` and the
/// name must repeat the opener's name exactly; for the conditional block it
/// is a bare `IF`. The result is the statement views and the position just
/// after the consumed closer.
pub open spec fn spec_parse_block(
    toks: Seq<Token>,
    src: Seq<char>,
    i: int,
    bt: BlockTypeView,
) -> Result<(Seq<StmtView>, int), ParseErrorView>
    decreases toks.len() - i, 3int,
{
    let bad_version = match bt {
        BlockTypeView::Named(_, version) => version != 0 && version != 1,
        BlockTypeView::Unamed(version) => version != 0,
    };
    if bad_version {
        Err(unsupported(toks, i))
    } else if !(0 <= i && i < toks.len()) {
        Err(unexpected(Some(block_closer_tok(bt)), toks, i))
    } else if toks[i].inner == block_closer_tok(bt) {
        match bt {
            BlockTypeView::Unamed(_) => Ok((Seq::empty(), i + 1)),
            BlockTypeView::Named(name, version) => {
                let kind = if version == 0 {
                    Words::Module
                } else {
                    Words::Function
                };
                match spec_expect_seq(toks, i + 1, seq![word_tok(kind)]) {
                    Err(e) => Err(e),
                    Ok(_) => match spec_parse_string(toks, src, i + 2) {
                        Err(e) => Err(e),
                        Ok(name2) => if name2 != name {
                            Err(ParseErrorView::MismatchedBlockCloser {
                                expected_name: name,
                                found_name: name2,
                                span: tok_span(toks[i + 2]),
                                line: toks[i + 2].location.line,
                            })
                        } else {
                            match spec_expect_seq(toks, i + 3, seq![Tokens::Period]) {
                                Err(e) => Err(e),
                                Ok(k) => Ok((Seq::empty(), k)),
                            }
                        },
                    },
                }
            },
        }
    } else {
        match spec_parse_stmt(toks, src, i) {
            Err(e) => Err(e),
            Ok((sv, j)) => match spec_parse_block(toks, src, next_pos(i, j, toks.len() as int), bt) {
                Err(e) => Err(e),
                Ok((stmts, k)) => Ok((seq![sv] + stmts, k)),
            },
        }
    }
}

/// The whole program: statements until the token stream is exhausted.
pub open spec fn spec_parse_program(toks: Seq<Token>, src: Seq<char>, i: int) -> Result<
    Seq<StmtView>,
    ParseErrorView,
>
    decreases toks.len() - i, 3int,
{
    if i >= toks.len() {
        Ok(Seq::empty())
    } else {
        match spec_parse_stmt(toks, src, i) {
            Err(e) => Err(e),
            Ok((sv, j)) => match spec_parse_program(toks, src, next_pos(i, j, toks.len() as int)) {
                Err(e) => Err(e),
                Ok(rest) => Ok(seq![sv] + rest),
            },
        }
    }
}


/// A `SET` statement that parses reports its end past its start and inside
/// the stream.
proof fn lemma_parse_set_ok(toks: Seq<Token>, src: Seq<char>, i: int)
    ensures
        spec_parse_set(toks, src, i) matches Ok((sv, k)) ==> i < k <= toks.len(),
{
    if spec_parse_set(toks, src, i) is Ok {
        lemma_expect_seq_ok(toks, i + 2, seq![word_tok(Words::Equal), word_tok(Words::To)]);
        lemma_expect_seq_ok(toks, i + 5, seq![Tokens::Period]);
    }
}

/// A `CALL` statement that parses reports its end past its start and inside
/// the stream.
proof fn lemma_parse_call_ok(toks: Seq<Token>, src: Seq<char>, i: int)
    ensures
        spec_parse_call(toks, src, i) matches Ok((sv, k)) ==> i < k <= toks.len(),
{
    if spec_parse_call(toks, src, i) is Ok {
        let j = i + 3;
        if j < toks.len() && toks[j].inner == word_tok(Words::With) {
            if spec_expect_seq(toks, j + 2, seq![word_tok(Words::Argument)]) is Ok {
                lemma_expect_seq_ok(toks, j + 2, seq![word_tok(Words::Argument)]);
                if spec_expect_seq(toks, j + 4, seq![Tokens::Period]) is Ok {
                    lemma_expect_seq_ok(toks, j + 4, seq![Tokens::Period]);
                }
            }
        }
    }
}

/// A `DEFINE` statement that parses reports its end past its start and
/// inside the stream.
proof fn lemma_parse_define_ok(toks: Seq<Token>, src: Seq<char>, i: int)
    ensures
        spec_parse_define(toks, src, i) matches Ok((sv, k)) ==> i < k <= toks.len(),
    decreases toks.len() - i, 1int,
{
    if spec_parse_define(toks, src, i) is Ok {
        if i + 1 < toks.len() && toks[i + 1].inner == word_tok(Words::Function) {
            let j = i + 3;
            lemma_expect_seq_ok(
                toks,
                j + 1,
                seq![word_tok(Words::Returns), word_tok(Words::A), Tokens::Colon],
            );
            if spec_parse_string(toks, src, i + 2) is Ok {
                lemma_parse_block_ok(toks, src, j + 4, BlockTypeView::Named(
                    spec_parse_string(toks, src, i + 2)->Ok_0,
                    1,
                ));
            }
        } else if i + 1 < toks.len() && toks[i + 1].inner == word_tok(Words::Module) {
            lemma_expect_seq_ok(
                toks,
                i + 3,
                seq![word_tok(Words::With), word_tok(Words::Contents), Tokens::Colon],
            );
            if spec_parse_string(toks, src, i + 2) is Ok {
                lemma_parse_block_ok(toks, src, i + 6, BlockTypeView::Named(
                    spec_parse_string(toks, src, i + 2)->Ok_0,
                    0,
                ));
            }
        }
    }
}

/// An `IF` statement that parses reports its end past its start and inside
/// the stream.
proof fn lemma_parse_if_ok(toks: Seq<Token>, src: Seq<char>, i: int)
    ensures
        spec_parse_if(toks, src, i) matches Ok((sv, k)) ==> i < k <= toks.len(),
    decreases toks.len() - i, 1int,
{
    if spec_parse_if(toks, src, i) is Ok {
        lemma_expect_seq_ok(
            toks,
            i + 2,
            seq![word_tok(Words::Is), word_tok(Words::Equal), word_tok(Words::To)],
        );
        lemma_expect_seq_ok(toks, i + 6, seq![word_tok(Words::Then), word_tok(Words::Do)]);
        lemma_parse_block_ok(toks, src, i + 8, BlockTypeView::Unamed(0));
    }
}

/// A statement that parses consumes at least one token and reports its end
/// inside the stream.
pub proof fn lemma_parse_stmt_ok(toks: Seq<Token>, src: Seq<char>, i: int)
    ensures
        spec_parse_stmt(toks, src, i) matches Ok((sv, j)) ==> i < j <= toks.len(),
    decreases toks.len() - i, 2int,
{
    if spec_parse_stmt(toks, src, i) is Ok {
        lemma_parse_if_ok(toks, src, i);
        lemma_parse_call_ok(toks, src, i);
        lemma_parse_define_ok(toks, src, i);
        lemma_parse_set_ok(toks, src, i);
    }
}

/// A block that parses reports its end past its start and inside the stream.
pub proof fn lemma_parse_block_ok(toks: Seq<Token>, src: Seq<char>, i: int, bt: BlockTypeView)
    ensures
        spec_parse_block(toks, src, i, bt) matches Ok((stmts, k)) ==> i < k <= toks.len(),
    decreases toks.len() - i, 3int,
{
    if spec_parse_block(toks, src, i, bt) is Ok {
        if 0 <= i && i < toks.len() && toks[i].inner == block_closer_tok(bt) {
            match bt {
                BlockTypeView::Unamed(_) => {},
                BlockTypeView::Named(name, version) => {
                    if spec_expect_seq(toks, i + 3, seq![Tokens::Period]) is Ok {
                        lemma_expect_seq_ok(toks, i + 3, seq![Tokens::Period]);
                    }
                },
            }
        } else {
            lemma_parse_stmt_ok(toks, src, i);
            match spec_parse_stmt(toks, src, i) {
                Ok((sv, j)) => {
                    lemma_parse_block_ok(toks, src, next_pos(i, j, toks.len() as int), bt);
                },
                Err(_) => {},
            }
        }
    }
}


/// A token's recorded span, when it has one, lies inside the source buffer,
/// so slicing the buffer at it is well defined.
pub open spec fn token_wf(t: Token, src: Seq<char>) -> bool {
    match t.location.span {
        Some(s) => s.in_bounds(src.len() as int),
        None => true,
    }
}

/// Every token of the stream is well formed against the source buffer. The
/// tokenizer establishes this for the stream it produces.
pub open spec fn tokens_wf(toks: Seq<Token>, src: Seq<char>) -> bool {
    forall|i: int| 0 <= i < toks.len() ==> token_wf(#[trigger] toks[i], src)
}

/// Computes a token's diagnostic span.
pub fn tok_span_exec(t: &Token) -> (s: Span)
    ensures
        s == tok_span(*t),
{
    match t.location.span {
        Some(s) => s,
        None => Span { start: t.location.offset, end: t.location.offset },
    }
}

/// Builds the token kind for one vocabulary word.
pub fn word_tok_exec(w: Words) -> (t: Tokens)
    ensures
        t == word_tok(w),
{
    Tokens::Word(Word { which: w, plural: false })
}

/// The parser: single-use, owning the token stream, the source buffer the
/// token spans slice into, a cursor, and the statements parsed so far.
pub struct Parser {
    pub source: Vec<Token>,
    pub source_str: Vec<char>,
    pub idx: usize,
    pub nodes: Vec<Stmt>,
}

impl Parser {
    /// The cursor never passes the end of the stream, and every token's span
    /// lies inside the source buffer.
    pub open spec fn wf(self) -> bool {
        self.idx <= self.source@.len() && tokens_wf(self.source@, self.source_str@)
    }

    /// True when a call left the stream, the buffer and the finished nodes
    /// untouched.
    pub open spec fn same_frame(pre: Parser, post: Parser) -> bool {
        post.source == pre.source && post.source_str == pre.source_str && post.nodes == pre.nodes
    }

    /// A fresh parser over a token stream and the context it was lexed from,
    /// cursor at the start.
    pub fn init(source: Vec<Token>, ctx: Context) -> (r: Parser)
        requires
            tokens_wf(source@, ctx.source@),
        ensures
            r.wf(),
            r.source@ == source@,
            r.source_str@ == ctx.source@,
            r.idx == 0,
            r.nodes@ == Seq::<Stmt>::empty(),
    {
        Parser { source, source_str: ctx.source, idx: 0, nodes: Vec::new() }
    }

    /// Consumes and returns the token under the cursor, if any.
    pub fn advance(&mut self) -> (r: Option<Token>)
        requires
            old(self).wf(),
        ensures
            final(self).wf(),
            Parser::same_frame(*old(self), *final(self)),
            if old(self).idx < old(self).source@.len() {
                r == Some(old(self).source@[old(self).idx as int]) && final(self).idx == old(
                    self,
                ).idx + 1
            } else {
                r is None && final(self).idx == old(self).idx
            },
    {
        if self.idx < self.source.len() {
            let t = self.source[self.idx];
            self.idx = self.idx + 1;
            Some(t)
        } else {
            None
        }
    }

    /// Consumes the token under the cursor when it is exactly the expected
    /// one; reports whether it did.
    pub fn expect(&mut self, expected: Tokens) -> (b: bool)
        requires
            old(self).wf(),
        ensures
            final(self).wf(),
            Parser::same_frame(*old(self), *final(self)),
            b == (old(self).idx < old(self).source@.len() && old(self).source@[old(
                self,
            ).idx as int].inner == expected),
            final(self).idx == (if b {
                old(self).idx + 1
            } else {
                old(self).idx as int
            }),
    {
        if self.idx < self.source.len() {
            let cur = self.source[self.idx].inner;
            if cur == expected {
                self.idx = self.idx + 1;
                return true;
            }
        }
        false
    }

    /// The token under the cursor, if it is exactly the expected one; the
    /// cursor does not move.
    pub fn expect_and_return(&self, expected: Tokens) -> (r: Option<Token>)
        ensures
            r == (if self.idx < self.source@.len() && self.source@[self.idx as int].inner
                == expected {
                Some(self.source@[self.idx as int])
            } else {
                None::<Token>
            }),
    {
        if self.idx < self.source.len() {
            let t = self.source[self.idx];
            if t.inner == expected {
                return Some(t);
            }
        }
        None
    }

    /// The `UnexpectedToken` error for the token under the cursor (or for the
    /// end of the input).
    fn unexpected_err(&self, expected: Option<Tokens>) -> (e: ParseError)
        ensures
            e@ == unexpected(expected, self.source@, self.idx as int),
    {
        if self.idx < self.source.len() {
            let t = &self.source[self.idx];
            ParseError::UnexpectedToken {
                expected,
                found: Some(t.inner),
                span: tok_span_exec(t),
                line: t.location.line,
            }
        } else {
            ParseError::UnexpectedToken {
                expected,
                found: None,
                span: Span { start: 0, end: 0 },
                line: 0,
            }
        }
    }

    /// The `UnsupportedConstruct` error for the token under the cursor (or
    /// for the end of the input).
    fn unsupported_err(&self) -> (e: ParseError)
        ensures
            e@ == unsupported(self.source@, self.idx as int),
    {
        if self.idx < self.source.len() {
            let t = &self.source[self.idx];
            ParseError::UnsupportedConstruct { span: tok_span_exec(t), line: t.location.line }
        } else {
            ParseError::UnsupportedConstruct { span: Span { start: 0, end: 0 }, line: 0 }
        }
    }

    /// Consumes a fixed phrase of tokens in order; on the first token that
    /// does not match, fails with exactly that expectation.
    pub fn expect_and_skip(&mut self, expect: Vec<Tokens>) -> (r: Result<(), ParseError>)
        requires
            old(self).wf(),
        ensures
            final(self).wf(),
            Parser::same_frame(*old(self), *final(self)),
            match spec_expect_seq(old(self).source@, old(self).idx as int, expect@) {
                Ok(j) => r is Ok && final(self).idx == j,
                Err(ev) => r matches Err(e) && e@ == ev,
            },
    {
        let mut i: usize = 0;
        proof {
            assert(expect@.skip(0) =~= expect@);
        }
        while i < expect.len()
            invariant
                self.wf(),
                Parser::same_frame(*old(self), *self),
                i <= expect@.len(),
                spec_expect_seq(old(self).source@, old(self).idx as int, expect@)
                    == spec_expect_seq(self.source@, self.idx as int, expect@.skip(i as int)),
            decreases expect@.len() - i,
        {
            let exp = expect[i];
            proof {
                assert(expect@.skip(i as int)[0] == expect@[i as int]);
            }
            if self.idx < self.source.len() {
                let cur = self.source[self.idx].inner;
                if cur == exp {
                    self.idx = self.idx + 1;
                    i = i + 1;
                    proof {
                        assert(expect@.skip(i - 1 as int).drop_first() =~= expect@.skip(i as int));
                    }
                } else {
                    return Err(self.unexpected_err(Some(exp)));
                }
            } else {
                return Err(self.unexpected_err(Some(exp)));
            }
        }
        proof {
            assert(expect@.skip(i as int) =~= Seq::<Tokens>::empty());
        }
        Ok(())
    }

    /// The content of the string literal under the cursor, sliced from the
    /// source buffer at the token's span; the cursor does not move.
    fn parse_string_text(&self) -> (r: Option<String>)
        requires
            self.wf(),
        ensures
            match spec_parse_string(self.source@, self.source_str@, self.idx as int) {
                Ok(content) => r matches Some(s) && s@ == content,
                Err(_) => r is None,
            },
    {
        if self.idx < self.source.len() {
            let t = &self.source[self.idx];
            match t.inner {
                Tokens::String => match t.location.span {
                    Some(span) => {
                        proof {
                            assert(token_wf(self.source@[self.idx as int], self.source_str@));
                        }
                        let v = slice_chars(&self.source_str, span.start, span.end);
                        Some(chars_to_string(&v))
                    },
                    None => Some(String::new()),
                },
                _ => None,
            }
        } else {
            None
        }
    }

    /// The string literal under the cursor as a literal expression; `None`
    /// when the token is not a string literal. The cursor does not move:
    /// literal text is obtained by slicing the source buffer at the token's
    /// recorded span, never by re-tokenizing.
    pub fn parse_string(&self) -> (r: Option<Expr>)
        requires
            self.wf(),
        ensures
            match spec_parse_string(self.source@, self.source_str@, self.idx as int) {
                Ok(content) => (match r {
                    Some(e) => e@ == ExprView::Literal(LiteralExprView::String(content)),
                    None => false,
                }),
                Err(_) => r is None,
            },
    {
        match self.parse_string_text() {
            Some(s) => Some(Expr::Literal(LiteralExpr::String(s))),
            None => None,
        }
    }

    /// One expression: currently a string literal is the only form. Consumes
    /// the literal's token.
    pub fn parse_expr(&mut self) -> (r: Result<Expr, ParseError>)
        requires
            old(self).wf(),
        ensures
            final(self).wf(),
            Parser::same_frame(*old(self), *final(self)),
            match spec_parse_expr(old(self).source@, old(self).source_str@, old(self).idx as int) {
                Ok(content) => (match r {
                    Ok(e) => e@ == ExprView::Literal(LiteralExprView::String(content))
                        && final(self).idx == old(self).idx + 1,
                    Err(_) => false,
                }),
                Err(ev) => (match r {
                    Ok(_) => false,
                    Err(e) => e@ == ev,
                }),
            },
    {
        if self.idx >= self.source.len() {
            return Err(self.unexpected_err(Some(Tokens::String)));
        }
        match self.parse_string() {
            Some(e) => {
                let _ = self.advance();
                Ok(e)
            },
            None => Err(self.unsupported_err()),
        }
    }

    /// `SET <str> EQUAL TO <str> '.'`, with the cursor on `SET`.
    fn parse_set_stmt(&mut self) -> (r: Result<Stmt, ParseError>)
        requires
            old(self).wf(),
            old(self).idx < old(self).source@.len(),
        ensures
            final(self).wf(),
            Parser::same_frame(*old(self), *final(self)),
            match spec_parse_set(old(self).source@, old(self).source_str@, old(self).idx as int) {
                Ok((sv, j)) => (match r {
                    Ok(s) => s@ == sv && final(self).idx == j,
                    Err(_) => false,
                }),
                Err(ev) => (match r {
                    Ok(_) => false,
                    Err(e) => e@ == ev,
                }),
            },
        decreases old(self).source@.len() - old(self).idx, 1int,
    {
        let _ = self.advance();
        let name = match self.parse_string_text() {
            Some(s) => s,
            None => return Err(self.unexpected_err(Some(Tokens::String))),
        };
        let _ = self.advance();
        let exp1 = vec![word_tok_exec(Words::Equal), word_tok_exec(Words::To)];
        proof {
            assert(exp1@ =~= seq![word_tok(Words::Equal), word_tok(Words::To)]);
        }
        let r1 = self.expect_and_skip(exp1);
        if let Err(e) = r1 {
            return Err(e);
        }
        proof {
            lemma_expect_seq_ok(
                self.source@,
                old(self).idx + 2,
                seq![word_tok(Words::Equal), word_tok(Words::To)],
            );
        }
        let value = match self.parse_string_text() {
            Some(s) => s,
            None => return Err(self.unexpected_err(Some(Tokens::String))),
        };
        let _ = self.advance();
        let exp2 = vec![Tokens::Period];
        proof {
            assert(exp2@ =~= seq![Tokens::Period]);
        }
        let r2 = self.expect_and_skip(exp2);
        if let Err(e) = r2 {
            return Err(e);
        }
        proof {
            lemma_expect_seq_ok(self.source@, old(self).idx + 5, seq![Tokens::Period]);
        }
        Ok(Stmt::Variable {
            name,
            ty: VariableType::String,
            value: Some(Expr::Literal(LiteralExpr::String(value))),
        })
    }

    /// `CALL FUNCTION <str> [ WITH THE ARGUMENT <str> ] '.'`, with the cursor
    /// on `CALL`.
    fn parse_call_stmt(&mut self) -> (r: Result<Stmt, ParseError>)
        requires
            old(self).wf(),
            old(self).idx < old(self).source@.len(),
        ensures
            final(self).wf(),
            Parser::same_frame(*old(self), *final(self)),
            match spec_parse_call(old(self).source@, old(self).source_str@, old(self).idx as int) {
                Ok((sv, j)) => (match r {
                    Ok(s) => s@ == sv && final(self).idx == j,
                    Err(_) => false,
                }),
                Err(ev) => (match r {
                    Ok(_) => false,
                    Err(e) => e@ == ev,
                }),
            },
        decreases old(self).source@.len() - old(self).idx, 1int,
    {
        let _ = self.advance();
        if self.idx >= self.source.len() {
            return Err(self.unexpected_err(Some(word_tok_exec(Words::Function))));
        }
        let kw = self.source[self.idx].inner;
        if !(kw == word_tok_exec(Words::Function)) {
            match kw {
                Tokens::Word(_) => return Err(self.unsupported_err()),
                _ => return Err(self.unexpected_err(Some(word_tok_exec(Words::Function)))),
            }
        }
        let _ = self.advance();
        let name = match self.parse_string_text() {
            Some(s) => s,
            None => return Err(self.unexpected_err(Some(Tokens::String))),
        };
        let _ = self.advance();
        if self.expect(word_tok_exec(Words::With)) {
            if self.expect(word_tok_exec(Words::The)) {
                let exp1 = vec![word_tok_exec(Words::Argument)];
                proof {
                    assert(exp1@ =~= seq![word_tok(Words::Argument)]);
                }
                let r1 = self.expect_and_skip(exp1);
                if let Err(e) = r1 {
                    return Err(e);
                }
                proof {
                    lemma_expect_seq_ok(
                        self.source@,
                        old(self).idx + 5,
                        seq![word_tok(Words::Argument)],
                    );
                }
                let arg = match self.parse_string_text() {
                    Some(s) => s,
                    None => return Err(self.unexpected_err(Some(Tokens::String))),
                };
                let _ = self.advance();
                let exp2 = vec![Tokens::Period];
                proof {
                    assert(exp2@ =~= seq![Tokens::Period]);
                }
                let r2 = self.expect_and_skip(exp2);
                if let Err(e) = r2 {
                    return Err(e);
                }
                proof {
                    lemma_expect_seq_ok(self.source@, old(self).idx + 7, seq![Tokens::Period]);
                }
                let boxed = Box::new(Expr::Literal(LiteralExpr::String(arg)));
                let ghost bv = expr_view(*boxed);
                let mut args_vec: Vec<Box<Expr>> = Vec::new();
                args_vec.push(boxed);
                proof {
                    reveal_with_fuel(expr_view, 3);
                    assert(args_vec@.drop_first() =~= Seq::<Box<Expr>>::empty());
                    assert(exprs_view(args_vec@.drop_first()) =~= Seq::<ExprView>::empty());
                    assert(exprs_view(args_vec@) =~= seq![bv]);
                }
                Ok(Stmt::Expr(Expr::Call(FunctionCall {
                    func: Box::new(Expr::Literal(LiteralExpr::String(name))),
                    args: Some(args_vec),
                })))
            } else {
                Err(self.unsupported_err())
            }
        } else if self.expect(Tokens::Period) {
            proof {
                reveal_with_fuel(expr_view, 3);
            }
            Ok(Stmt::Expr(Expr::Call(FunctionCall {
                func: Box::new(Expr::Literal(LiteralExpr::String(name))),
                args: None,
            })))
        } else {
            Err(self.unexpected_err(Some(Tokens::Period)))
        }
    }

    /// `DEFINE MODULE ...` or `DEFINE FUNCTION ...`, with the cursor on
    /// `DEFINE`.
    fn parse_define_stmt(&mut self) -> (r: Result<Stmt, ParseError>)
        requires
            old(self).wf(),
            old(self).idx < old(self).source@.len(),
        ensures
            final(self).wf(),
            Parser::same_frame(*old(self), *final(self)),
            match spec_parse_define(
                old(self).source@,
                old(self).source_str@,
                old(self).idx as int,
            ) {
                Ok((sv, j)) => (match r {
                    Ok(s) => s@ == sv && final(self).idx == j,
                    Err(_) => false,
                }),
                Err(ev) => (match r {
                    Ok(_) => false,
                    Err(e) => e@ == ev,
                }),
            },
        decreases old(self).source@.len() - old(self).idx, 1int,
    {
        let _ = self.advance();
        if self.idx >= self.source.len() {
            return Err(self.unexpected_err(Some(word_tok_exec(Words::Module))));
        }
        let kw = self.source[self.idx].inner;
        if kw == word_tok_exec(Words::Function) {
            let _ = self.advance();
            let name = match self.parse_string_text() {
                Some(s) => s,
                None => return Err(self.unexpected_err(Some(Tokens::String))),
            };
            let _ = self.advance();
            if self.expect(word_tok_exec(Words::That)) {
                let exp1 = vec![
                    word_tok_exec(Words::Returns),
                    word_tok_exec(Words::A),
                    Tokens::Colon,
                ];
                proof {
                    assert(exp1@ =~= seq![
                        word_tok(Words::Returns),
                        word_tok(Words::A),
                        Tokens::Colon,
                    ]);
                }
                let r1 = self.expect_and_skip(exp1);
                if let Err(e) = r1 {
                    return Err(e);
                }
                proof {
                    lemma_expect_seq_ok(
                        self.source@,
                        old(self).idx + 4,
                        seq![word_tok(Words::Returns), word_tok(Words::A), Tokens::Colon],
                    );
                }
                let body = match self.parse_block(BlockType::Named(name.clone(), 1)) {
                    Ok(b) => b,
                    Err(e) => return Err(e),
                };
                Ok(Stmt::Function { name: LiteralExpr::String(name), nodes: Box::new(body) })
            } else {
                Err(self.unsupported_err())
            }
        } else if kw == word_tok_exec(Words::Module) {
            let _ = self.advance();
            let name = match self.parse_string_text() {
                Some(s) => s,
                None => return Err(self.unexpected_err(Some(Tokens::String))),
            };
            let _ = self.advance();
            let exp1 = vec![
                word_tok_exec(Words::With),
                word_tok_exec(Words::Contents),
                Tokens::Colon,
            ];
            proof {
                assert(exp1@ =~= seq![
                    word_tok(Words::With),
                    word_tok(Words::Contents),
                    Tokens::Colon,
                ]);
            }
            let r1 = self.expect_and_skip(exp1);
            if let Err(e) = r1 {
                return Err(e);
            }
            proof {
                lemma_expect_seq_ok(
                    self.source@,
                    old(self).idx + 3,
                    seq![word_tok(Words::With), word_tok(Words::Contents), Tokens::Colon],
                );
            }
            let body = match self.parse_block(BlockType::Named(name.clone(), 0)) {
                Ok(b) => b,
                Err(e) => return Err(e),
            };
            Ok(Stmt::Module { name: LiteralExpr::String(name), nodes: Box::new(body) })
        } else {
            Err(self.unexpected_err(Some(word_tok_exec(Words::Module))))
        }
    }

    /// `IF <str> IS EQUAL TO <str> THEN DO Block IF`, with the cursor on the
    /// opening `IF`.
    fn parse_if_stmt(&mut self) -> (r: Result<Stmt, ParseError>)
        requires
            old(self).wf(),
            old(self).idx < old(self).source@.len(),
        ensures
            final(self).wf(),
            Parser::same_frame(*old(self), *final(self)),
            match spec_parse_if(old(self).source@, old(self).source_str@, old(self).idx as int) {
                Ok((sv, j)) => (match r {
                    Ok(s) => s@ == sv && final(self).idx == j,
                    Err(_) => false,
                }),
                Err(ev) => (match r {
                    Ok(_) => false,
                    Err(e) => e@ == ev,
                }),
            },
        decreases old(self).source@.len() - old(self).idx, 1int,
    {
        let _ = self.advance();
        let left = match self.parse_expr() {
            Ok(e) => e,
            Err(e) => return Err(e),
        };
        let exp1 = vec![
            word_tok_exec(Words::Is),
            word_tok_exec(Words::Equal),
            word_tok_exec(Words::To),
        ];
        proof {
            assert(exp1@ =~= seq![
                word_tok(Words::Is),
                word_tok(Words::Equal),
                word_tok(Words::To),
            ]);
        }
        let r1 = self.expect_and_skip(exp1);
        if let Err(e) = r1 {
            return Err(e);
        }
        proof {
            lemma_expect_seq_ok(
                self.source@,
                old(self).idx + 2,
                seq![word_tok(Words::Is), word_tok(Words::Equal), word_tok(Words::To)],
            );
        }
        let right = match self.parse_expr() {
            Ok(e) => e,
            Err(e) => return Err(e),
        };
        let exp2 = vec![word_tok_exec(Words::Then), word_tok_exec(Words::Do)];
        proof {
            assert(exp2@ =~= seq![word_tok(Words::Then), word_tok(Words::Do)]);
        }
        let r2 = self.expect_and_skip(exp2);
        if let Err(e) = r2 {
            return Err(e);
        }
        proof {
            lemma_expect_seq_ok(
                self.source@,
                old(self).idx + 6,
                seq![word_tok(Words::Then), word_tok(Words::Do)],
            );
        }
        let body = match self.parse_block(BlockType::Unamed(0)) {
            Ok(b) => b,
            Err(e) => return Err(e),
        };
        proof {
            reveal_with_fuel(expr_view, 3);
        }
        Ok(Stmt::Condition(Condition {
            then_branch: Box::new(body),
            el: None,
            condition: Box::new(Expr::BinaryOp(Binary {
                l: Box::new(left),
                r: Box::new(right),
                op: BinaryOperators::EqualTo,
            })),
        }))
    }

    /// One statement, dispatched on its first token. A token that starts none
    /// of the five statement forms is immediately fatal.
    pub fn parse_stmt(&mut self) -> (r: Result<Stmt, ParseError>)
        requires
            old(self).wf(),
        ensures
            final(self).wf(),
            Parser::same_frame(*old(self), *final(self)),
            match spec_parse_stmt(old(self).source@, old(self).source_str@, old(self).idx as int) {
                Ok((sv, j)) => (match r {
                    Ok(s) => s@ == sv && final(self).idx == j,
                    Err(_) => false,
                }),
                Err(ev) => (match r {
                    Ok(_) => false,
                    Err(e) => e@ == ev,
                }),
            },
        decreases old(self).source@.len() - old(self).idx, 2int,
    {
        if self.idx >= self.source.len() {
            return Err(self.unexpected_err(None));
        }
        let kw = self.source[self.idx].inner;
        match kw {
            Tokens::Word(word) => match word.which {
                Words::If => self.parse_if_stmt(),
                Words::Call => self.parse_call_stmt(),
                Words::Define => self.parse_define_stmt(),
                Words::SetKw => self.parse_set_stmt(),
                _ => Err(self.unexpected_err(None)),
            },
            _ => Err(self.unexpected_err(None)),
        }
    }

    /// A block: statements until this block's own closer, which this call
    /// itself consumes before returning control to the enclosing loop. The
    /// result is always a `Stmt::Block`.
    #[verifier::rlimit(60)]
    pub fn parse_block(&mut self, block_type: BlockType) -> (r: Result<Stmt, ParseError>)
        requires
            old(self).wf(),
        ensures
            final(self).wf(),
            Parser::same_frame(*old(self), *final(self)),
            match spec_parse_block(
                old(self).source@,
                old(self).source_str@,
                old(self).idx as int,
                block_type@,
            ) {
                Ok((stmts, k)) => (match r {
                    Ok(s) => s@ == StmtView::Block(stmts) && final(self).idx == k,
                    Err(_) => false,
                }),
                Err(ev) => (match r {
                    Ok(_) => false,
                    Err(e) => e@ == ev,
                }),
            },
        decreases old(self).source@.len() - old(self).idx, 3int,
    {
        let version_bad = match &block_type {
            BlockType::Named(_, v) => *v != 0 && *v != 1,
            BlockType::Unamed(v) => *v != 0,
        };
        if version_bad {
            return Err(self.unsupported_err());
        }
        let mut nodes: Vec<Box<Stmt>> = Vec::new();
        loop
            invariant
                self.wf(),
                self.source == old(self).source,
                self.source_str == old(self).source_str,
                self.nodes == old(self).nodes,
                self.idx >= old(self).idx,
                !(match block_type@ {
                    BlockTypeView::Named(_, version) => version != 0 && version != 1,
                    BlockTypeView::Unamed(version) => version != 0,
                }),
                match spec_parse_block(
                    self.source@,
                    self.source_str@,
                    self.idx as int,
                    block_type@,
                ) {
                    Ok((rest, k)) => spec_parse_block(
                        old(self).source@,
                        old(self).source_str@,
                        old(self).idx as int,
                        block_type@,
                    ) == Ok::<(Seq<StmtView>, int), ParseErrorView>((
                        stmts_view(nodes@) + rest,
                        k,
                    )),
                    Err(ev) => spec_parse_block(
                        old(self).source@,
                        old(self).source_str@,
                        old(self).idx as int,
                        block_type@,
                    ) == Err::<(Seq<StmtView>, int), ParseErrorView>(ev),
                },
            decreases self.source@.len() - self.idx,
        {
            let closer = match &block_type {
                BlockType::Named(_, _) => word_tok_exec(Words::End),
                BlockType::Unamed(_) => word_tok_exec(Words::If),
            };
            if self.idx >= self.source.len() {
                return Err(self.unexpected_err(Some(closer)));
            }
            let ghost cpos = self.idx as int;
            let cur = self.source[self.idx].inner;
            if cur == closer {
                match &block_type {
                    BlockType::Unamed(_) => {
                        let _ = self.advance();
                        proof {
                            assert(stmts_view(nodes@) + Seq::<StmtView>::empty() =~= stmts_view(
                                nodes@,
                            ));
                        }
                        return Ok(Stmt::Block(nodes));
                    },
                    BlockType::Named(name, version) => {
                        let _ = self.advance();
                        let kind = if *version == 0 {
                            Words::Module
                        } else {
                            Words::Function
                        };
                        let exp1 = vec![word_tok_exec(kind)];
                        proof {
                            assert(exp1@ =~= seq![word_tok(kind)]);
                        }
                        let r1 = self.expect_and_skip(exp1);
                        if let Err(e) = r1 {
                            return Err(e);
                        }
                        proof {
                            lemma_expect_seq_ok(self.source@, cpos + 1, seq![word_tok(kind)]);
                        }
                        let name2 = match self.parse_string_text() {
                            Some(s) => s,
                            None => return Err(self.unexpected_err(Some(Tokens::String))),
                        };
                        if !(name2 == *name) {
                            let t = &self.source[self.idx];
                            return Err(ParseError::MismatchedBlockCloser {
                                expected_name: name.clone(),
                                found_name: name2,
                                span: tok_span_exec(t),
                                line: t.location.line,
                            });
                        }
                        let _ = self.advance();
                        let exp2 = vec![Tokens::Period];
                        proof {
                            assert(exp2@ =~= seq![Tokens::Period]);
                        }
                        let r2 = self.expect_and_skip(exp2);
                        if let Err(e) = r2 {
                            return Err(e);
                        }
                        proof {
                            lemma_expect_seq_ok(self.source@, cpos + 3, seq![Tokens::Period]);
                        }
                        proof {
                            assert(stmts_view(nodes@) + Seq::<StmtView>::empty() =~= stmts_view(
                                nodes@,
                            ));
                        }
                        return Ok(Stmt::Block(nodes));
                    },
                }
            }
            let ghost pre = *self;
            let stmt = match self.parse_stmt() {
                Ok(s) => s,
                Err(e) => return Err(e),
            };
            let ghost sv = stmt@;
            let ghost nv = stmts_view(nodes@);
            proof {
                lemma_parse_stmt_ok(pre.source@, pre.source_str@, pre.idx as int);
                lemma_stmts_view_push(nodes@, Box::new(stmt));
            }
            nodes.push(Box::new(stmt));
            proof {
                assert(stmts_view(nodes@) == nv.push(sv));
                match spec_parse_block(
                    self.source@,
                    self.source_str@,
                    self.idx as int,
                    block_type@,
                ) {
                    Ok((rest, k)) => {
                        assert(nv + (seq![sv] + rest) =~= nv.push(sv) + rest);
                    },
                    Err(_) => {},
                }
            }
        }
    }

    /// The whole program: statements until the token stream is exhausted,
    /// appended in order to `nodes`. A failing parse yields no usable partial
    /// tree: callers must treat failure as all-or-nothing.
    pub fn parse(&mut self) -> (r: Result<(), ParseError>)
        requires
            old(self).wf(),
        ensures
            final(self).wf(),
            final(self).source == old(self).source,
            final(self).source_str == old(self).source_str,
            match spec_parse_program(
                old(self).source@,
                old(self).source_str@,
                old(self).idx as int,
            ) {
                Ok(svs) => r is Ok && stmt_seq_view(final(self).nodes@) == stmt_seq_view(
                    old(self).nodes@,
                ) + svs && final(self).idx == final(self).source@.len(),
                Err(ev) => (match r {
                    Ok(_) => false,
                    Err(e) => e@ == ev,
                }),
            },
    {
        let ghost mut added: Seq<StmtView> = Seq::empty();
        proof {
            assert(stmt_seq_view(self.nodes@) =~= stmt_seq_view(old(self).nodes@) + added);
        }
        while self.idx < self.source.len()
            invariant
                self.wf(),
                self.source == old(self).source,
                self.source_str == old(self).source_str,
                stmt_seq_view(self.nodes@) == stmt_seq_view(old(self).nodes@) + added,
                match spec_parse_program(self.source@, self.source_str@, self.idx as int) {
                    Ok(rest) => spec_parse_program(
                        old(self).source@,
                        old(self).source_str@,
                        old(self).idx as int,
                    ) == Ok::<Seq<StmtView>, ParseErrorView>(added + rest),
                    Err(ev) => spec_parse_program(
                        old(self).source@,
                        old(self).source_str@,
                        old(self).idx as int,
                    ) == Err::<Seq<StmtView>, ParseErrorView>(ev),
                },
            decreases self.source@.len() - self.idx,
        {
            let ghost pre = *self;
            let stmt = match self.parse_stmt() {
                Ok(s) => s,
                Err(e) => return Err(e),
            };
            let ghost sv = stmt@;
            proof {
                lemma_parse_stmt_ok(pre.source@, pre.source_str@, pre.idx as int);
                lemma_stmt_seq_view_push(self.nodes@, stmt);
                match spec_parse_program(self.source@, self.source_str@, self.idx as int) {
                    Ok(rest) => {
                        assert(added + (seq![sv] + rest) =~= added.push(sv) + rest);
                    },
                    Err(_) => {},
                }
            }
            self.nodes.push(stmt);
            proof {
                added = added.push(sv);
                assert(stmt_seq_view(self.nodes@) =~= stmt_seq_view(old(self).nodes@) + added);
            }
        }
        proof {
            assert(added + Seq::<StmtView>::empty() =~= added);
        }
        Ok(())
    }
}



/// Every module or function body the parser builds is a block: the statement
/// a `DEFINE` form parses to always wraps its body in `Block`.
pub proof fn lemma_bodies_are_blocks(toks: Seq<Token>, src: Seq<char>, i: int)
    ensures
        spec_parse_stmt(toks, src, i) matches Ok((sv, j)) ==> match sv {
            StmtView::Module { nodes, .. } => *nodes is Block,
            StmtView::Function { nodes, .. } => *nodes is Block,
            _ => true,
        },
{
}

} // verus!
