use std::collections::HashMap;
use cbt::errors::{annotation_for_lex_error, annotation_for_parse_error, error_message, expect_note, Error, ErrorFile, MessageKind};
use cbt::espan::{AnnotationType, ESpan, EspanAnnotation};
use cbt::lexer::{LexError, Lexer};
use cbt::parser::{ParseError, Parser};
use cbt::text::usize_to_string;
use cbt::token::{Span, Tokens};
use cbt::words::{Word, Words};

fn word(which: Words) -> Tokens {
    Tokens::Word(Word { which, plural: false })
}

#[test]
fn report_shows_the_source_line_and_a_caret_run_of_the_span_length() {
    // a diagnostic for a known error includes the literal source line text
    // and a caret underline exactly as long as the reported span
    let source = "SET banana";
    let mut lexer = Lexer::init(source, "test.cbt");
    let err = lexer.lex_all().unwrap_err();
    assert_eq!(
        err,
        LexError::UnknownKeyword { span: Span { start: 4, end: 10 }, line: 0 }
    );
    let (key, annotation) = annotation_for_lex_error(&err);
    let mut annotations = HashMap::new();
    annotations.insert(key, annotation);
    let espan = ESpan {
        source_file_name: "test.cbt".to_string(),
        source: source.chars().collect(),
        annotations,
    };
    let report = espan.render();
    assert!(report.contains("SET banana"));
    assert!(report.contains("^^^^^^"));
    assert!(!report.contains("^^^^^^^"));
    assert!(report.contains("This is not a valid keyword"));
}

#[test]
fn report_colors_the_gutter_blue_and_the_carets_by_severity() {
    let mut annotations = HashMap::new();
    annotations.insert(
        1,
        EspanAnnotation {
            ty: AnnotationType::Error,
            label: Some("bad".to_string()),
            span: Span { start: 0, end: 3 },
            line: 1,
        },
    );
    let espan = ESpan {
        source_file_name: "test.cbt".to_string(),
        source: "abc".chars().collect(),
        annotations,
    };
    let report = espan.render();
    // the gutter is painted bold blue, the carets bold red, each reset after
    assert!(report.contains("\u{1b}[1;34m1 | \u{1b}[0m"));
    assert!(report.contains("\u{1b}[1;31m^^^\u{1b}[0m"));
}

#[test]
fn unannotated_lines_render_under_a_bare_gutter() {
    let espan = ESpan {
        source_file_name: "test.cbt".to_string(),
        source: "one\ntwo".chars().collect(),
        annotations: HashMap::new(),
    };
    let report = espan.render();
    assert!(report.contains("one"));
    assert!(report.contains("two"));
    assert!(report.contains("  | "));
    assert_eq!(report.matches('\n').count(), 1);
}

#[test]
fn annotation_for_a_parse_error_carries_span_and_message() {
    let source = "SET \"v\" EQUAL WITH \"w\".";
    let mut lexer = Lexer::init(source, "test.cbt");
    lexer.lex_all().unwrap();
    let mut parser = Parser::init(lexer.results.ast, lexer.ctx);
    let err = parser.parse().unwrap_err();
    let (key, annotation) = annotation_for_parse_error(&err);
    assert_eq!(key, 1);
    assert_eq!(annotation.ty, AnnotationType::Error);
    assert_eq!(annotation.span, Span { start: 14, end: 18 });
    assert_eq!(
        annotation.label,
        Some("Expected the word `TO` but instead got `WITH`".to_string())
    );
    let mut annotations = HashMap::new();
    annotations.insert(key, annotation);
    let espan = ESpan {
        source_file_name: "test.cbt".to_string(),
        source: source.chars().collect(),
        annotations,
    };
    let report = espan.render();
    assert!(report.contains("SET \"v\" EQUAL WITH \"w\"."));
    assert!(report.contains("^^^^"));
}

#[test]
fn expect_note_names_both_phrases() {
    let note = expect_note(&word(Words::Module), &Tokens::Colon);
    assert_eq!(note, "Expected the word `MODULE` but instead got `:`");
}

#[test]
fn the_error_table_knows_its_two_codes() {
    assert_eq!(
        error_message("0001"),
        Some("Provided keyword did not match the expected keyword.".to_string())
    );
    assert_eq!(error_message("0002"), Some("Non-Existent keyword.".to_string()));
    assert_eq!(error_message("0003"), None);
}

#[test]
fn error_wraps_its_message() {
    let e = Error::new("something broke".to_string());
    assert_eq!(e.inner, "something broke");
}

#[test]
fn message_kind_and_error_file_hold_their_data() {
    assert_ne!(MessageKind::ERROR, MessageKind::WARNING);
    let f = ErrorFile { name: "test.cbt".to_string(), path: "./test.cbt".to_string() };
    assert_eq!(f.name, "test.cbt");
    assert_eq!(f.path, "./test.cbt");
}

#[test]
fn line_numbers_render_in_decimal() {
    assert_eq!(usize_to_string(0), "0");
    assert_eq!(usize_to_string(7), "7");
    assert_eq!(usize_to_string(1234), "1234");
}

#[test]
fn lex_error_annotations_are_keyed_one_based() {
    let err = LexError::UnknownCharacter { span: Span { start: 4, end: 5 }, line: 2 };
    let (key, annotation) = annotation_for_lex_error(&err);
    assert_eq!(key, 3);
    assert_eq!(annotation.line, 3);
    assert_eq!(annotation.label, Some("Unsupported character".to_string()));
}

#[test]
fn unterminated_string_annotation_describes_the_literal() {
    let source = "SET \"abc";
    let mut lexer = Lexer::init(source, "test.cbt");
    let err = lexer.lex_all().unwrap_err();
    let (_, annotation) = annotation_for_lex_error(&err);
    assert_eq!(annotation.label, Some("Unterminated string literal".to_string()));
    assert_eq!(annotation.span, Span { start: 4, end: 8 });
}

#[test]
fn mismatched_closer_annotation_names_both_names() {
    let err = ParseError::MismatchedBlockCloser {
        expected_name: "X".to_string(),
        found_name: "Y".to_string(),
        span: Span { start: 40, end: 41 },
        line: 0,
    };
    let (_, annotation) = annotation_for_parse_error(&err);
    assert_eq!(
        annotation.label,
        Some("Expected the name `X` but instead got `Y`".to_string())
    );
}

#[test]
fn annotations_attach_to_their_own_line_in_a_multi_line_file() {
    let mut annotations = HashMap::new();
    annotations.insert(
        2,
        EspanAnnotation {
            ty: AnnotationType::Warning,
            label: None,
            span: Span { start: 0, end: 2 },
            line: 2,
        },
    );
    let espan = ESpan {
        source_file_name: "test.cbt".to_string(),
        source: "aa\nbb\ncc".chars().collect(),
        annotations,
    };
    let report = espan.render();
    assert!(report.contains("bb"));
    assert!(report.contains("\u{1b}[1;33m^^\u{1b}[0m"));
    assert!(report.contains("\u{1b}[1;34m2 | \u{1b}[0m"));
}

#[test]
fn an_empty_span_draws_no_carets() {
    let mut annotations = HashMap::new();
    annotations.insert(
        1,
        EspanAnnotation {
            ty: AnnotationType::Info,
            label: None,
            span: Span { start: 1, end: 1 },
            line: 1,
        },
    );
    let espan = ESpan {
        source_file_name: "test.cbt".to_string(),
        source: "abc".chars().collect(),
        annotations,
    };
    let report = espan.render();
    assert!(!report.contains('^'));
}
