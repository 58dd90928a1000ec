use std::str::FromStr;

use tardi::ast::{AstNode, NodeKind};
use tardi::span::Span;
use tardi::typechecker::TypeChecker;
use tardi::types::{EffectSet, PrimitiveType, Row, StackType, TypeSig};
use tardi::value::{Value, ValueData};

fn dummy_span() -> Span {
    Span::unknown("test".to_string())
}

fn literal_node(data: ValueData) -> AstNode {
    AstNode::new(NodeKind::Literal(Value::new(data)), dummy_span())
}

fn word_node(name: &str) -> AstNode {
    AstNode::new(
        NodeKind::Word {
            module: None,
            name: name.to_string(),
        },
        dummy_span(),
    )
}

fn sig(s: &str) -> TypeSig {
    TypeSig::from_str(s).unwrap()
}

fn program(items: Vec<AstNode>) -> AstNode {
    AstNode::new(NodeKind::Program(items), dummy_span())
}

fn print_sig() -> TypeSig {
    TypeSig::new(
        Row {
            var: Some("S".to_string()),
            types: vec![StackType::Primitive(PrimitiveType::Str)],
        },
        Row {
            var: Some("S".to_string()),
            types: vec![],
        },
        EffectSet::single("io"),
    )
}

#[test]
fn literal_int_has_int_output() {
    let mut tc = TypeChecker::new();
    let mut node = literal_node(ValueData::Integer(42));
    let result = tc.check_item(&mut node).unwrap();
    assert!(result.to_type_string().contains("int"));
    assert!(node.type_info.is_some());
}

#[test]
fn literal_bool_has_bool_output() {
    let mut tc = TypeChecker::new();
    let mut node = literal_node(ValueData::Boolean(true));
    let result = tc.check_item(&mut node).unwrap();
    assert!(result.to_type_string().contains("bool"));
}

#[test]
fn literal_str_has_str_output() {
    let mut tc = TypeChecker::new();
    let mut node = literal_node(ValueData::String("hi".to_string()));
    let result = tc.check_item(&mut node).unwrap();
    assert!(result.to_type_string().contains("str"));
}

#[test]
fn known_word_returns_its_sig() {
    let mut tc = TypeChecker::new();
    tc.define("dup", sig("( a -- a a )"));
    let mut node = word_node("dup");
    let result = tc.check_item(&mut node).unwrap();
    assert_eq!(result, sig("( a -- a a )"));
}

#[test]
fn unknown_word_is_an_error() {
    let mut tc = TypeChecker::new();
    let mut node = word_node("missing");
    assert!(tc.check_item(&mut node).is_err());
}

#[test]
fn push_two_ints_and_add() {
    let mut tc = TypeChecker::new();
    tc.define("+", sig("( int int -- int )"));
    let mut nodes = vec![
        literal_node(ValueData::Integer(1)),
        literal_node(ValueData::Integer(2)),
        word_node("+"),
    ];
    let result = tc.check_sequence(&mut nodes).unwrap();
    assert!(result.output.types.len() == 1);
    assert_eq!(
        result.output.types[0],
        StackType::Primitive(PrimitiveType::Int)
    );
}

#[test]
fn quotation_wraps_inner_sig() {
    let mut tc = TypeChecker::new();
    tc.define("dup", sig("( a -- a a )"));
    let body = vec![word_node("dup")];
    let mut node = AstNode::new(NodeKind::Quotation(body), dummy_span());
    let result = tc.check_item(&mut node).unwrap();
    assert_eq!(result.input.types.len(), 0);
    assert_eq!(result.output.types.len(), 1);
    assert!(matches!(&result.output.types[0], StackType::Quotation(_)));
}

#[test]
fn definition_body_matches_declaration() {
    let mut tc = TypeChecker::new();
    tc.define("dup", sig("( a -- a a )"));
    tc.define("+", sig("( int int -- int )"));

    let body = vec![word_node("dup"), word_node("+")];
    let mut def = AstNode::new(
        NodeKind::Definition {
            name: "double".to_string(),
            type_sig: sig("( int -- int )"),
            body,
        },
        dummy_span(),
    );
    assert!(tc.check_item(&mut def).is_ok());
}

#[test]
fn definition_output_mismatch_is_error() {
    let mut tc = TypeChecker::new();
    tc.define("dup", sig("( a -- a a )"));

    let body = vec![word_node("dup")];
    let mut def = AstNode::new(
        NodeKind::Definition {
            name: "bad".to_string(),
            type_sig: sig("( int -- int )"),
            body,
        },
        dummy_span(),
    );
    assert!(tc.check_item(&mut def).is_err());
}

#[test]
fn undeclared_effect_is_error() {
    let mut tc = TypeChecker::new();
    tc.define("print", print_sig());

    let body = vec![word_node("print")];
    let mut def = AstNode::new(
        NodeKind::Definition {
            name: "silent-print".to_string(),
            type_sig: sig("( str -- )"),
            body,
        },
        dummy_span(),
    );
    assert!(tc.check_item(&mut def).is_err());
}

#[test]
fn declared_effect_passes() {
    let mut tc = TypeChecker::new();
    tc.define("print", print_sig());

    let body = vec![word_node("print")];
    let mut def = AstNode::new(
        NodeKind::Definition {
            name: "loud-print".to_string(),
            type_sig: TypeSig::from_str("( S str -- S | io )").unwrap(),
            body,
        },
        dummy_span(),
    );
    assert!(tc.check_item(&mut def).is_ok());
}

#[test]
fn forward_reference_in_program() {
    let mut tc = TypeChecker::new();

    let foo_body = vec![literal_node(ValueData::Integer(1))];
    let foo = AstNode::new(
        NodeKind::Definition {
            name: "foo".to_string(),
            type_sig: sig("( -- int )"),
            body: foo_body,
        },
        dummy_span(),
    );

    let bar_body = vec![word_node("foo")];
    let bar = AstNode::new(
        NodeKind::Definition {
            name: "bar".to_string(),
            type_sig: sig("( -- int )"),
            body: bar_body,
        },
        dummy_span(),
    );

    let mut prog = program(vec![bar, foo]);
    assert!(tc.check(&mut prog).is_ok());
}

#[test]
fn type_info_is_set_on_literal() {
    let mut tc = TypeChecker::new();
    let mut node = literal_node(ValueData::Integer(7));
    tc.check_item(&mut node).unwrap();
    assert!(node.type_info.is_some());
}

#[test]
fn type_info_is_set_on_definition_body_nodes() {
    let mut tc = TypeChecker::new();
    tc.define("+", sig("( int int -- int )"));
    let body = vec![
        literal_node(ValueData::Integer(1)),
        literal_node(ValueData::Integer(2)),
        word_node("+"),
    ];
    let mut def = AstNode::new(
        NodeKind::Definition {
            name: "two".to_string(),
            type_sig: sig("( -- int )"),
            body,
        },
        dummy_span(),
    );
    tc.check_item(&mut def).unwrap();
    assert!(def.type_info.is_some());
}

#[test]
fn type_mismatch_wrong_input_arity() {
    let mut tc = TypeChecker::new();
    tc.define("dup", sig("( a -- a a )"));
    let body = vec![word_node("dup")];
    let mut def = AstNode::new(
        NodeKind::Definition {
            name: "bad-arity".to_string(),
            type_sig: sig("( a -- a )"),
            body,
        },
        dummy_span(),
    );
    assert!(tc.check_item(&mut def).is_err());
}

#[test]
fn type_mismatch_wrong_concrete_output_type() {
    let mut tc = TypeChecker::new();
    tc.define("+", sig("( int int -- int )"));
    let body = vec![
        literal_node(ValueData::Integer(1)),
        literal_node(ValueData::Integer(2)),
        word_node("+"),
    ];
    let mut def = AstNode::new(
        NodeKind::Definition {
            name: "wrong-type".to_string(),
            type_sig: sig("( -- bool )"),
            body,
        },
        dummy_span(),
    );
    assert!(tc.check_item(&mut def).is_err());
}

#[test]
fn missing_effect_declaration_is_error() {
    let mut tc = TypeChecker::new();
    tc.define("print", sig("( str -- | io )"));
    let body = vec![
        literal_node(ValueData::String("hello".to_string())),
        word_node("print"),
    ];
    let mut def = AstNode::new(
        NodeKind::Definition {
            name: "greet".to_string(),
            type_sig: sig("( -- )"),
            body,
        },
        dummy_span(),
    );
    assert!(tc.check_item(&mut def).is_err());
}

#[test]
fn multiple_missing_effects_are_caught() {
    let mut tc = TypeChecker::new();
    tc.define("read", sig("( reader -- str | io )"));
    tc.define("alloc-buf", sig("( int -- a | alloc )"));
    let body = vec![
        literal_node(ValueData::Integer(64)),
        word_node("alloc-buf"),
        word_node("read"),
    ];
    let mut def = AstNode::new(
        NodeKind::Definition {
            name: "buffered-read".to_string(),
            type_sig: sig("( reader -- str )"),
            body,
        },
        dummy_span(),
    );
    assert!(tc.check_item(&mut def).is_err());
}

#[test]
fn superset_of_effects_is_ok() {
    let mut tc = TypeChecker::new();
    tc.define("print", sig("( str -- | io )"));
    let body = vec![
        literal_node(ValueData::String("hi".to_string())),
        word_node("print"),
    ];
    let mut def = AstNode::new(
        NodeKind::Definition {
            name: "greet-io".to_string(),
            type_sig: sig("( -- | io )"),
            body,
        },
        dummy_span(),
    );
    assert!(tc.check_item(&mut def).is_ok());
}

#[test]
fn undefined_word_in_body_is_error() {
    let mut tc = TypeChecker::new();
    let mut node = word_node("undefined-word");
    assert!(tc.check_item(&mut node).is_err());
}

#[test]
fn undefined_word_in_definition_body_is_error() {
    let mut tc = TypeChecker::new();
    let body = vec![word_node("does-not-exist")];
    let mut def = AstNode::new(
        NodeKind::Definition {
            name: "caller".to_string(),
            type_sig: sig("( -- )"),
            body,
        },
        dummy_span(),
    );
    assert!(tc.check_item(&mut def).is_err());
}

#[test]
fn defined_word_passes_undefined_word_fails() {
    let mut tc = TypeChecker::new();
    tc.define("real-word", sig("( -- int )"));

    let mut ok_node = word_node("real-word");
    assert!(tc.check_item(&mut ok_node).is_ok());

    let mut bad_node = word_node("ghost-word");
    assert!(tc.check_item(&mut bad_node).is_err());
}

#[test]
fn empty_quotation_has_identity_type() {
    let mut tc = TypeChecker::new();
    let mut node = AstNode::new(NodeKind::Quotation(vec![]), dummy_span());
    let result = tc.check_item(&mut node).unwrap();
    assert_eq!(result.output.types.len(), 1);
    assert!(matches!(&result.output.types[0], StackType::Quotation(_)));
    if let StackType::Quotation(inner_sig) = &result.output.types[0] {
        assert!(inner_sig.input.types.is_empty());
        assert!(inner_sig.output.types.is_empty());
    }
}

#[test]
fn quotation_with_literal_infers_push_type() {
    let mut tc = TypeChecker::new();
    let body = vec![literal_node(ValueData::Integer(42))];
    let mut node = AstNode::new(NodeKind::Quotation(body), dummy_span());
    let result = tc.check_item(&mut node).unwrap();
    assert_eq!(result.output.types.len(), 1);
    if let StackType::Quotation(inner) = &result.output.types[0] {
        assert_eq!(inner.output.types.len(), 1);
        assert_eq!(
            inner.output.types[0],
            StackType::Primitive(PrimitiveType::Int)
        );
    } else {
        panic!("expected quotation type");
    }
}

#[test]
fn quotation_inherits_effects_from_body() {
    let mut tc = TypeChecker::new();
    tc.define("print", sig("( str -- | io )"));
    let body = vec![word_node("print")];
    let mut node = AstNode::new(NodeKind::Quotation(body), dummy_span());
    let result = tc.check_item(&mut node).unwrap();
    if let StackType::Quotation(inner) = &result.output.types[0] {
        assert!(inner.effects.contains("io"), "quotation should propagate io effect");
    } else {
        panic!("expected quotation type");
    }
}

#[test]
fn nested_quotation_type_is_inferred() {
    let mut tc = TypeChecker::new();
    let inner_body = vec![literal_node(ValueData::Boolean(true))];
    let inner_quot = AstNode::new(NodeKind::Quotation(inner_body), dummy_span());
    let outer_body = vec![inner_quot];
    let mut outer = AstNode::new(NodeKind::Quotation(outer_body), dummy_span());
    let result = tc.check_item(&mut outer).unwrap();
    assert_eq!(result.output.types.len(), 1);
    if let StackType::Quotation(outer_inner) = &result.output.types[0] {
        assert_eq!(outer_inner.output.types.len(), 1);
        assert!(matches!(&outer_inner.output.types[0], StackType::Quotation(_)));
    } else {
        panic!("expected outer quotation type");
    }
}

#[test]
fn check_refuses_non_program() {
    let mut tc = TypeChecker::new();
    let mut node = literal_node(ValueData::Integer(1));
    assert!(tc.check(&mut node).is_err());
}

#[test]
fn lookup_finds_latest_definition() {
    let mut tc = TypeChecker::new();
    tc.define("w", sig("( -- int )"));
    tc.define("w", sig("( -- bool )"));
    assert_eq!(tc.lookup(&"w".to_string()), Some(sig("( -- bool )")));
    assert_eq!(tc.lookup(&"v".to_string()), None);
}
