use cbt::ast::AST;
use cbt::lexer::{LexError, Lexer};
use cbt::token::{Span, Token, Tokens};
use cbt::words::{Word, Words};

fn lex(source: &str) -> Result<Vec<Token>, LexError> {
    let mut lexer = Lexer::init(source, "test.cbt");
    lexer.lex_all()?;
    Ok(lexer.results.ast)
}

fn kinds(tokens: &[Token]) -> Vec<Tokens> {
    tokens.iter().map(|t| t.inner).collect()
}

fn word(which: Words) -> Tokens {
    Tokens::Word(Word { which, plural: false })
}

#[test]
fn empty_input_lexes_to_no_tokens() {
    let tokens = lex("").unwrap();
    assert!(tokens.is_empty());
}

#[test]
fn keywords_are_case_insensitive() {
    let tokens = lex("DeFiNe module FUNCTION").unwrap();
    assert_eq!(
        kinds(&tokens),
        vec![word(Words::Define), word(Words::Module), word(Words::Function)]
    );
}

#[test]
fn punctuation_lexes_to_zero_width_tokens() {
    let tokens = lex(": ; $ .").unwrap();
    assert_eq!(
        kinds(&tokens),
        vec![Tokens::Colon, Tokens::SemiColon, Tokens::DollarSign, Tokens::Period]
    );
    assert_eq!(tokens[0].location.span, None);
    assert_eq!(tokens[0].location.offset, 0);
    assert_eq!(tokens[3].location.offset, 6);
}

#[test]
fn string_literal_span_excludes_the_quotes() {
    let tokens = lex("SET \"v\" EQUAL TO \"hello\".").unwrap();
    assert_eq!(
        kinds(&tokens),
        vec![
            word(Words::SetKw),
            Tokens::String,
            word(Words::Equal),
            word(Words::To),
            Tokens::String,
            Tokens::Period,
        ]
    );
    assert_eq!(tokens[1].location.span, Some(Span { start: 5, end: 6 }));
    assert_eq!(tokens[4].location.span, Some(Span { start: 18, end: 23 }));
}

#[test]
fn newlines_count_lines_for_diagnostics_only() {
    let tokens = lex("SET\nEQUAL").unwrap();
    assert_eq!(kinds(&tokens), vec![word(Words::SetKw), word(Words::Equal)]);
    assert_eq!(tokens[0].location.line, 0);
    assert_eq!(tokens[1].location.line, 1);
}

#[test]
fn unknown_word_fails_with_its_exact_span() {
    // a bare unquoted word not in the vocabulary fails tokenization, and the
    // reported span covers exactly that run of letters
    let err = lex("banana").unwrap_err();
    assert_eq!(
        err,
        LexError::UnknownKeyword { span: Span { start: 0, end: 6 }, line: 0 }
    );
}

#[test]
fn unknown_word_fails_anywhere_in_the_input() {
    let err = lex("SET banana").unwrap_err();
    assert_eq!(
        err,
        LexError::UnknownKeyword { span: Span { start: 4, end: 10 }, line: 0 }
    );
}

#[test]
fn unterminated_string_at_end_of_input_is_an_error() {
    let err = lex("SET \"abc").unwrap_err();
    assert_eq!(
        err,
        LexError::UnterminatedConstruct { span: Span { start: 4, end: 8 }, line: 0 }
    );
}

#[test]
fn newline_inside_string_is_an_error() {
    // the chosen policy: an embedded newline terminates nothing silently,
    // it is an unterminated-construct error
    let err = lex("SET \"ab\ncd\"").unwrap_err();
    assert_eq!(
        err,
        LexError::UnterminatedConstruct { span: Span { start: 4, end: 7 }, line: 0 }
    );
}

#[test]
fn unknown_character_is_an_error() {
    let err = lex("SET @").unwrap_err();
    assert_eq!(
        err,
        LexError::UnknownCharacter { span: Span { start: 4, end: 5 }, line: 0 }
    );
}

#[test]
fn token_offsets_strictly_increase() {
    let tokens = lex("DEFINE MODULE \"X\" WITH CONTENTS : END MODULE \"X\".").unwrap();
    for pair in tokens.windows(2) {
        assert!(pair[0].location.offset < pair[1].location.offset);
    }
}

#[test]
fn resolve_is_case_insensitive_exact_phrase_lookup() {
    assert_eq!(Words::resolve(&"define".chars().collect()), Some(Words::Define));
    assert_eq!(Words::resolve(&"DEFINE".chars().collect()), Some(Words::Define));
    assert_eq!(Words::resolve(&"DeFiNe".chars().collect()), Some(Words::Define));
    assert_eq!(Words::resolve(&"defin".chars().collect()), None);
    assert_eq!(Words::resolve(&"defines".chars().collect()), None);
    assert_eq!(Words::resolve(&"banana".chars().collect()), None);
}

#[test]
fn render_gives_the_canonical_uppercase_spelling() {
    assert_eq!(Words::Define.render(), "DEFINE");
    assert_eq!(Words::Contents.render(), "CONTENTS");
    assert_eq!(Words::A.render(), "A");
}

#[test]
fn every_rendered_keyword_resolves_back() {
    let all = vec![
        Words::Define, Words::Module, Words::Function, Words::Call, Words::Equal,
        Words::Argument, Words::The, Words::With, Words::Contents, Words::End,
        Words::Is, Words::To, Words::SetKw, Words::A, Words::Expects, Words::That,
        Words::Returns, Words::Contains, Words::Display, Words::If, Words::Then,
        Words::Do, Words::True, Words::False, Words::Begin, Words::Program,
    ];
    for w in all {
        let spelled = w.render();
        assert_eq!(Words::resolve(&spelled.chars().collect()), Some(w));
    }
}

#[test]
fn tokens_to_string_shows_the_display_text() {
    assert_eq!(Tokens::Colon.to_string(), ":");
    assert_eq!(Tokens::Period.to_string(), ".");
    assert_eq!(word(Words::Module).to_string(), "MODULE");
    assert_eq!(Tokens::String.to_string(), "Unable to turn into string.");
}

#[test]
fn reconstruct_renders_each_token_and_a_space() {
    let source = "set \"v\"  equal to \"hello\".";
    let mut lexer = Lexer::init(source, "test.cbt");
    lexer.lex_all().unwrap();
    let ast = AST { ast: lexer.results.ast };
    let text = ast.reconstruct(&lexer.source);
    assert_eq!(text, "SET \"v\" EQUAL TO \"hello\" . ");
}

#[test]
fn reconstructing_and_relexing_reproduces_the_token_kinds() {
    // the round-trip law on a concrete stream: re-rendering each token via
    // the vocabulary and literal forms, then re-tokenizing, reproduces the
    // identical sequence of token kinds
    let source = "DEFINE MODULE \"X\" WITH CONTENTS : SET \"v\" EQUAL TO \"w\". END MODULE \"X\".";
    let mut lexer = Lexer::init(source, "test.cbt");
    lexer.lex_all().unwrap();
    let first_kinds = kinds(&lexer.results.ast);
    let ast = AST { ast: lexer.results.ast };
    let rendered = ast.reconstruct(&lexer.source);
    let second = lex(&rendered).unwrap();
    assert_eq!(kinds(&second), first_kinds);
}

#[test]
fn lexer_cursor_helpers_report_the_buffer_state() {
    let mut lexer = Lexer::init("ab", "test.cbt");
    assert_eq!(lexer.current(), Some('a'));
    assert_eq!(lexer.peek(None), Some('b'));
    assert_eq!(lexer.peek(Some(2)), None);
    assert!(!lexer.eof(None));
    assert!(lexer.advance(None));
    assert_eq!(lexer.current(), Some('b'));
    assert!(lexer.advance(None));
    assert!(lexer.eof(None));
    assert!(!lexer.advance(None));
    assert_eq!(lexer.current(), None);
}

#[test]
fn tokenize_packages_the_whole_pass() {
    let lexer = cbt::lexer::tokenize("CALL FUNCTION \"f\".", "test.cbt").unwrap();
    assert_eq!(
        kinds(&lexer.results.ast),
        vec![word(Words::Call), word(Words::Function), Tokens::String, Tokens::Period]
    );
    match cbt::lexer::tokenize("banana", "test.cbt") {
        Ok(_) => panic!("an unknown word must not tokenize"),
        Err(err) => assert!(matches!(err, LexError::UnknownKeyword { .. })),
    }
}
