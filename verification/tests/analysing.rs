use std::str::FromStr;

use tardi::analysis::{check_source, parse_source, AnalysisError};
use tardi::ast::NodeKind;
use tardi::parser::ParseError;
use tardi::types::TypeSig;

fn sig(s: &str) -> TypeSig {
    TypeSig::from_str(s).unwrap()
}

#[test]
fn analysis_parse_integer_literal() {
    let ast = parse_source("42", "test").unwrap();
    assert!(matches!(ast.kind, NodeKind::Program(ref items) if items.len() == 1));
}

#[test]
fn parse_definition() {
    let ast = parse_source(": double ( int -- int ) dup + ;", "test").unwrap();
    match &ast.kind {
        NodeKind::Program(items) => {
            assert_eq!(items.len(), 1);
            assert!(
                matches!(&items[0].kind, NodeKind::Definition { name, .. } if name == "double")
            );
        }
        _ => panic!("expected Program"),
    }
}

#[test]
fn parse_quotation() {
    let ast = parse_source("[ 1 2 + ]", "test").unwrap();
    match &ast.kind {
        NodeKind::Program(items) => {
            assert_eq!(items.len(), 1);
            assert!(matches!(&items[0].kind, NodeKind::Quotation(_)));
        }
        _ => panic!("expected Program"),
    }
}

#[test]
fn parse_vector() {
    let ast = parse_source("{ 1 2 3 }", "test").unwrap();
    match &ast.kind {
        NodeKind::Program(items) => {
            assert!(matches!(&items[0].kind, NodeKind::Vector(_)));
        }
        _ => panic!("expected Program"),
    }
}

#[test]
fn parse_error_unclosed_quotation() {
    let result = parse_source("[ 1 2", "test");
    assert!(matches!(result, Err(AnalysisError::Parse(_))));
}

#[test]
fn parse_scanner_error_is_a_parse_error() {
    let result = parse_source("\"open", "test");
    match result {
        Err(AnalysisError::Parse(ParseError::UnexpectedToken { span, message })) => {
            assert_eq!(span.source, "test");
            assert!(message.starts_with("scanner error: "));
        }
        other => panic!("expected a scanner error, got {:?}", other),
    }
}

#[test]
fn check_well_typed_definition() {
    let mut env = Vec::new();
    env.push(("dup".to_string(), sig("( a -- a a )")));
    env.push(("+".to_string(), sig("( int int -- int )")));

    let result = check_source(": double ( int -- int ) dup + ;", "test", env);
    assert!(result.is_ok(), "{:?}", result);

    let ast = result.unwrap();
    match &ast.kind {
        NodeKind::Program(items) => {
            assert!(items[0].type_info.is_some());
        }
        _ => panic!(),
    }
}

#[test]
fn check_type_error_unknown_word() {
    let result = check_source("undefined-word", "test", Vec::new());
    assert!(matches!(result, Err(AnalysisError::Type(_))));
}

#[test]
fn check_effect_error_undeclared() {
    let mut env = Vec::new();
    env.push(("print".to_string(), sig("( str -- | io )")));

    let result = check_source(": silent-print ( str -- ) print ;", "test", env);
    assert!(matches!(result, Err(AnalysisError::Type(_))));
}

#[test]
fn check_forward_references() {
    let mut env = Vec::new();
    env.push(("+".to_string(), sig("( int int -- int )")));

    let result = check_source(
        ": bar ( -- int ) foo ; \
         : foo ( -- int ) 42 ;",
        "test",
        env,
    );
    assert!(result.is_ok(), "{:?}", result);
}

#[test]
fn parse_and_check_nested_quotation() {
    let mut env = Vec::new();
    env.push(("apply".to_string(), sig("( S a -- S | effect )")));

    let result = check_source("[ 1 ] apply", "test", env);
    assert!(result.is_ok(), "{:?}", result);
}
