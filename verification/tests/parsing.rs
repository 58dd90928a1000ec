use tardi::ast::{AstNode, NodeKind};
use tardi::parser::{ParseError, Parser};
use tardi::scanner::Scanner;
use tardi::value::{Value, ValueData};

fn parse(src: &str) -> AstNode {
    let mut scanner = Scanner::from_input_string(src);
    let tokens = scanner
        .scan_to_end()
        .into_iter()
        .map(|r| r.unwrap())
        .collect();
    let mut parser = Parser::new(tokens, "test");
    parser.parse().expect("parse error")
}

fn parse_result(src: &str) -> Result<AstNode, ParseError> {
    let mut scanner = Scanner::from_input_string(src);
    let tokens: Vec<Value> = scanner
        .scan_to_end()
        .into_iter()
        .map(|r| r.unwrap())
        .collect();
    let mut parser = Parser::new(tokens, "test");
    parser.parse()
}

fn program_items(node: AstNode) -> Vec<AstNode> {
    match node.kind {
        NodeKind::Program(items) => items,
        other => panic!("expected Program, got {:?}", other),
    }
}

#[test]
fn mod_parse_integer_literal() {
    let items = program_items(parse("42"));
    assert_eq!(items.len(), 1);
    assert!(matches!(&items[0].kind, NodeKind::Literal(v) if v.data == ValueData::Integer(42)));
}

#[test]
fn parse_string_literal() {
    let items = program_items(parse("\"hello\""));
    assert_eq!(items.len(), 1);
    assert!(
        matches!(&items[0].kind, NodeKind::Literal(v) if v.data == ValueData::String("hello".to_string()))
    );
}

#[test]
fn parse_word() {
    let items = program_items(parse("dup"));
    assert_eq!(items.len(), 1);
    assert!(matches!(&items[0].kind, NodeKind::Word { module: None, name } if name == "dup"));
}

#[test]
fn parse_sequence() {
    let items = program_items(parse("1 2 +"));
    assert_eq!(items.len(), 3);
}

#[test]
fn parse_empty_quotation() {
    let items = program_items(parse("[ ]"));
    assert_eq!(items.len(), 1);
    assert!(matches!(&items[0].kind, NodeKind::Quotation(body) if body.is_empty()));
}

#[test]
fn parse_quotation_with_body() {
    let items = program_items(parse("[ 1 2 + ]"));
    assert_eq!(items.len(), 1);
    match &items[0].kind {
        NodeKind::Quotation(body) => assert_eq!(body.len(), 3),
        other => panic!("expected Quotation, got {:?}", other),
    }
}

#[test]
fn parse_nested_quotation() {
    let items = program_items(parse("[ [ 1 ] ]"));
    assert_eq!(items.len(), 1);
    match &items[0].kind {
        NodeKind::Quotation(body) => {
            assert_eq!(body.len(), 1);
            assert!(matches!(&body[0].kind, NodeKind::Quotation(_)));
        }
        other => panic!("expected Quotation, got {:?}", other),
    }
}

#[test]
fn parse_empty_vector() {
    let items = program_items(parse("{ }"));
    assert_eq!(items.len(), 1);
    assert!(matches!(&items[0].kind, NodeKind::Vector(v) if v.is_empty()));
}

#[test]
fn parse_vector_with_literals() {
    let items = program_items(parse("{ 1 2 3 }"));
    assert_eq!(items.len(), 1);
    match &items[0].kind {
        NodeKind::Vector(items) => assert_eq!(items.len(), 3),
        other => panic!("expected Vector, got {:?}", other),
    }
}

#[test]
fn parse_definition_no_type_sig() {
    let items = program_items(parse(": double   dup + ;"));
    assert_eq!(items.len(), 1);
    match &items[0].kind {
        NodeKind::Definition { name, body, .. } => {
            assert_eq!(name, "double");
            assert_eq!(body.len(), 2);
        }
        other => panic!("expected Definition, got {:?}", other),
    }
}

#[test]
fn parse_definition_with_type_sig() {
    let items = program_items(parse(": double ( S int -- S int )   dup + ;"));
    assert_eq!(items.len(), 1);
    match &items[0].kind {
        NodeKind::Definition {
            name,
            type_sig,
            body,
        } => {
            assert_eq!(name, "double");
            assert_eq!(body.len(), 2);
            assert!(type_sig.to_type_string().contains("int"));
        }
        other => panic!("expected Definition, got {:?}", other),
    }
}

#[test]
fn parse_escape() {
    let items = program_items(parse("\\ ;"));
    assert_eq!(items.len(), 1);
    assert!(matches!(&items[0].kind, NodeKind::Literal(_)));
}

#[test]
fn parse_macro_definition() {
    let items = program_items(parse("MACRO: my-macro   dup swap ;"));
    assert_eq!(items.len(), 1);
    match &items[0].kind {
        NodeKind::MacroDefinition { name, body } => {
            assert_eq!(name, "my-macro");
            assert_eq!(body.len(), 2);
        }
        other => panic!("expected MacroDefinition, got {:?}", other),
    }
}

#[test]
fn parse_definition_containing_quotation() {
    let items = program_items(parse(": dip   swap >r apply r> ;"));
    match &items[0].kind {
        NodeKind::Definition { name, body, .. } => {
            assert_eq!(name, "dip");
            assert_eq!(body.len(), 4);
        }
        other => panic!("{:?}", other),
    }
}

#[test]
fn span_is_present_on_literal() {
    let items = program_items(parse("99"));
    assert_eq!(items[0].span.start.line, 1);
}

#[test]
fn unclosed_quotation_is_error() {
    let mut scanner = Scanner::from_input_string("[ 1 2");
    let tokens = scanner
        .scan_to_end()
        .into_iter()
        .map(|r| r.unwrap())
        .collect();
    let mut parser = Parser::new(tokens, "test");
    assert!(parser.parse().is_err());
}

#[test]
fn unclosed_definition_is_error() {
    let mut scanner = Scanner::from_input_string(": foo 1 2");
    let tokens = scanner
        .scan_to_end()
        .into_iter()
        .map(|r| r.unwrap())
        .collect();
    let mut parser = Parser::new(tokens, "test");
    assert!(parser.parse().is_err());
}

#[test]
fn parse_errors_name_what_went_wrong() {
    assert!(matches!(parse_result("[ 1 2"), Err(ParseError::UnclosedDelimiter { .. })));
    assert!(matches!(parse_result(": foo 1 2"), Err(ParseError::UnclosedDefinition { .. })));
    assert!(matches!(parse_result("]"), Err(ParseError::UnexpectedToken { .. })));
    assert!(matches!(parse_result(": double ( int int ) dup ;"), Err(ParseError::InvalidTypeSig { .. })));
}

#[test]
fn parse_spans_cover_tokens() {
    let items = program_items(parse("  abc\n[ 1 ]"));
    let s0 = &items[0].span;
    assert_eq!((s0.start.line, s0.start.column, s0.start.offset), (1, 3, 2));
    assert_eq!((s0.end.column, s0.end.offset), (6, 5));
    let s1 = &items[1].span;
    assert_eq!((s1.start.line, s1.start.column), (2, 1));
    assert_eq!((s1.end.line, s1.end.column), (2, 6));
    assert_eq!(s1.source, "test");
}
