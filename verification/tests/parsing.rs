use cbt::lexer::Lexer;
use cbt::node::{
    Binary, BinaryOperators, Condition, Expr, FunctionCall, LiteralExpr, Stmt, VariableType,
};
use cbt::parser::{ParseError, Parser};
use cbt::token::Tokens;
use cbt::words::{Word, Words};

fn parse(source: &str) -> Result<Vec<Stmt>, ParseError> {
    let mut lexer = Lexer::init(source, "test.cbt");
    let lexed = lexer.lex_all();
    assert!(lexed.is_ok());
    let mut parser = Parser::init(lexer.results.ast, lexer.ctx);
    parser.parse()?;
    Ok(parser.nodes)
}

fn string_lit(text: &str) -> Expr {
    Expr::Literal(LiteralExpr::String(text.to_string()))
}

#[test]
fn empty_token_stream_parses_to_no_statements() {
    assert_eq!(parse("").unwrap(), vec![]);
}

#[test]
fn set_statement_parses_to_a_variable() {
    // SET "v" EQUAL TO "hello". parses to a string variable binding
    let nodes = parse("SET \"v\" EQUAL TO \"hello\".").unwrap();
    assert_eq!(
        nodes,
        vec![Stmt::Variable {
            name: "v".to_string(),
            ty: VariableType::String,
            value: Some(string_lit("hello")),
        }]
    );
}

#[test]
fn define_module_parses_to_a_module_with_a_block_body() {
    let nodes = parse(
        "DEFINE MODULE \"X\" WITH CONTENTS : SET \"v\" EQUAL TO \"w\". END MODULE \"X\".",
    )
    .unwrap();
    assert_eq!(
        nodes,
        vec![Stmt::Module {
            name: LiteralExpr::String("X".to_string()),
            nodes: Box::new(Stmt::Block(vec![Box::new(Stmt::Variable {
                name: "v".to_string(),
                ty: VariableType::String,
                value: Some(string_lit("w")),
            })])),
        }]
    );
}

#[test]
fn module_closer_must_repeat_the_name_exactly() {
    let err = parse(
        "DEFINE MODULE \"X\" WITH CONTENTS : SET \"v\" EQUAL TO \"w\". END MODULE \"Y\".",
    )
    .unwrap_err();
    match err {
        ParseError::MismatchedBlockCloser { expected_name, found_name, .. } => {
            assert_eq!(expected_name, "X");
            assert_eq!(found_name, "Y");
        },
        other => panic!("expected a mismatched block closer, got {:?}", other),
    }
}

#[test]
fn closer_name_comparison_is_case_sensitive() {
    let err = parse("DEFINE MODULE \"X\" WITH CONTENTS : END MODULE \"x\".").unwrap_err();
    assert!(matches!(err, ParseError::MismatchedBlockCloser { .. }));
}

#[test]
fn define_function_parses_to_a_function_with_a_block_body() {
    let nodes = parse(
        "DEFINE FUNCTION \"f\" THAT RETURNS A : SET \"x\" EQUAL TO \"y\". END FUNCTION \"f\".",
    )
    .unwrap();
    assert_eq!(
        nodes,
        vec![Stmt::Function {
            name: LiteralExpr::String("f".to_string()),
            nodes: Box::new(Stmt::Block(vec![Box::new(Stmt::Variable {
                name: "x".to_string(),
                ty: VariableType::String,
                value: Some(string_lit("y")),
            })])),
        }]
    );
}

#[test]
fn if_statement_closes_on_bare_if_not_end_if() {
    // the asymmetric closer is deliberate: modules and functions close with
    // END <KIND> <name> '.', the conditional block closes on a bare IF
    let nodes = parse("IF \"a\" IS EQUAL TO \"b\" THEN DO CALL FUNCTION \"f\". IF").unwrap();
    assert_eq!(
        nodes,
        vec![Stmt::Condition(Condition {
            then_branch: Box::new(Stmt::Block(vec![Box::new(Stmt::Expr(Expr::Call(
                FunctionCall { func: Box::new(string_lit("f")), args: None },
            )))])),
            el: None,
            condition: Box::new(Expr::BinaryOp(Binary {
                l: Box::new(string_lit("a")),
                r: Box::new(string_lit("b")),
                op: BinaryOperators::EqualTo,
            })),
        })]
    );
}

#[test]
fn call_without_argument_parses_to_a_bare_call() {
    let nodes = parse("CALL FUNCTION \"f\".").unwrap();
    assert_eq!(
        nodes,
        vec![Stmt::Expr(Expr::Call(FunctionCall {
            func: Box::new(string_lit("f")),
            args: None,
        }))]
    );
}

#[test]
fn call_with_the_single_argument_form() {
    let nodes = parse("CALL FUNCTION \"f\" WITH THE ARGUMENT \"z\".").unwrap();
    assert_eq!(
        nodes,
        vec![Stmt::Expr(Expr::Call(FunctionCall {
            func: Box::new(string_lit("f")),
            args: Some(vec![Box::new(string_lit("z"))]),
        }))]
    );
}

#[test]
fn call_of_anything_but_a_function_fails_loudly() {
    let err = parse("CALL MODULE \"m\".").unwrap_err();
    assert!(matches!(err, ParseError::UnsupportedConstruct { .. }));
}

#[test]
fn multi_argument_call_forms_fail_loudly() {
    let err = parse("CALL FUNCTION \"f\" WITH EQUAL").unwrap_err();
    assert!(matches!(err, ParseError::UnsupportedConstruct { .. }));
}

#[test]
fn argument_taking_function_definitions_fail_loudly() {
    // only the no-argument form (THAT RETURNS A) is implemented; anything
    // else must fail, never silently mis-parse
    let err = parse("DEFINE FUNCTION \"f\" EXPECTS A : END FUNCTION \"f\".").unwrap_err();
    assert!(matches!(err, ParseError::UnsupportedConstruct { .. }));
}

#[test]
fn missing_period_is_an_unexpected_token() {
    let err = parse("SET \"v\" EQUAL TO \"w\" SET").unwrap_err();
    match err {
        ParseError::UnexpectedToken { expected, found, .. } => {
            assert_eq!(expected, Some(Tokens::Period));
            assert_eq!(found, Some(Tokens::Word(Word { which: Words::SetKw, plural: false })));
        },
        other => panic!("expected an unexpected-token error, got {:?}", other),
    }
}

#[test]
fn wrong_keyword_in_a_phrase_names_the_expected_word() {
    let err = parse("SET \"v\" EQUAL WITH \"w\".").unwrap_err();
    match err {
        ParseError::UnexpectedToken { expected, found, .. } => {
            assert_eq!(expected, Some(Tokens::Word(Word { which: Words::To, plural: false })));
            assert_eq!(found, Some(Tokens::Word(Word { which: Words::With, plural: false })));
        },
        other => panic!("expected an unexpected-token error, got {:?}", other),
    }
}

#[test]
fn a_token_starting_no_statement_is_fatal() {
    let err = parse(".").unwrap_err();
    match err {
        ParseError::UnexpectedToken { expected, found, .. } => {
            assert_eq!(expected, None);
            assert_eq!(found, Some(Tokens::Period));
        },
        other => panic!("expected an unexpected-token error, got {:?}", other),
    }
}

#[test]
fn input_ending_inside_a_block_is_fatal() {
    let err = parse("DEFINE MODULE \"X\" WITH CONTENTS : SET \"v\" EQUAL TO \"w\".").unwrap_err();
    match err {
        ParseError::UnexpectedToken { expected, found, .. } => {
            assert_eq!(expected, Some(Tokens::Word(Word { which: Words::End, plural: false })));
            assert_eq!(found, None);
        },
        other => panic!("expected an unexpected-token error, got {:?}", other),
    }
}

#[test]
fn statements_at_the_top_level_parse_in_order() {
    let nodes = parse("SET \"a\" EQUAL TO \"1\". SET \"b\" EQUAL TO \"2\".").unwrap();
    assert_eq!(nodes.len(), 2);
    assert!(matches!(&nodes[0], Stmt::Variable { name, .. } if name == "a"));
    assert!(matches!(&nodes[1], Stmt::Variable { name, .. } if name == "b"));
}

#[test]
fn modules_nest() {
    let nodes = parse(
        "DEFINE MODULE \"outer\" WITH CONTENTS : DEFINE MODULE \"inner\" WITH CONTENTS : END MODULE \"inner\". END MODULE \"outer\".",
    )
    .unwrap();
    match &nodes[0] {
        Stmt::Module { name, nodes } => {
            assert_eq!(*name, LiteralExpr::String("outer".to_string()));
            match nodes.as_ref() {
                Stmt::Block(inner) => {
                    assert_eq!(inner.len(), 1);
                    assert!(matches!(
                        inner[0].as_ref(),
                        Stmt::Module { name: LiteralExpr::String(n), .. } if n == "inner"
                    ));
                },
                other => panic!("expected a block body, got {:?}", other),
            }
        },
        other => panic!("expected a module, got {:?}", other),
    }
}

#[test]
fn empty_module_body_parses_to_an_empty_block() {
    let nodes = parse("DEFINE MODULE \"X\" WITH CONTENTS : END MODULE \"X\".").unwrap();
    assert_eq!(
        nodes,
        vec![Stmt::Module {
            name: LiteralExpr::String("X".to_string()),
            nodes: Box::new(Stmt::Block(vec![])),
        }]
    );
}

#[test]
fn legacy_marker_tokens_start_no_statement() {
    let err = parse("$").unwrap_err();
    match err {
        ParseError::UnexpectedToken { expected, found, .. } => {
            assert_eq!(expected, None);
            assert_eq!(found, Some(Tokens::DollarSign));
        },
        other => panic!("expected an unexpected-token error, got {:?}", other),
    }
}

#[test]
fn conditionals_nest_inside_named_blocks() {
    let nodes = parse(
        "DEFINE MODULE \"m\" WITH CONTENTS : IF \"a\" IS EQUAL TO \"b\" THEN DO IF END MODULE \"m\".",
    )
    .unwrap();
    match &nodes[0] {
        Stmt::Module { nodes, .. } => match nodes.as_ref() {
            Stmt::Block(body) => {
                assert_eq!(body.len(), 1);
                assert!(matches!(body[0].as_ref(), Stmt::Condition(_)));
            },
            other => panic!("expected a block body, got {:?}", other),
        },
        other => panic!("expected a module, got {:?}", other),
    }
}
