use tardi::ast::{AstNode, NodeKind};
use tardi::span::Span;
use tardi::types::TypeSig;
use tardi::value::{Value, ValueData};

fn dummy_span() -> Span {
    Span::unknown("test".to_string())
}

fn literal_node(n: i64) -> AstNode {
    AstNode::new(
        NodeKind::Literal(Value::new(ValueData::Integer(n))),
        dummy_span(),
    )
}

fn word_node(name: &str) -> AstNode {
    AstNode::new(
        NodeKind::Word { module: None, name: name.to_string() },
        dummy_span(),
    )
}

#[test]
fn literal_has_no_children() {
    let node = literal_node(42);
    assert!(node.children().is_empty());
}

#[test]
fn word_has_no_children() {
    let node = word_node("dup");
    assert!(node.children().is_empty());
}

#[test]
fn quotation_children() {
    let inner = vec![literal_node(1), word_node("dup")];
    let node = AstNode::new(NodeKind::Quotation(inner), dummy_span());
    assert_eq!(node.children().len(), 2);
}

#[test]
fn program_children() {
    let nodes = vec![literal_node(1), literal_node(2), word_node("+")];
    let prog = AstNode::new(NodeKind::Program(nodes), dummy_span());
    assert_eq!(prog.children().len(), 3);
    assert_eq!(prog.children_count(), 3);
    assert_eq!(prog.children()[2], word_node("+"));
}

#[test]
fn type_info_absent_after_construction() {
    let node = literal_node(7);
    assert!(node.type_info.is_none());
}

#[test]
fn definition_has_body_as_children() {
    let body = vec![word_node("dup"), word_node("+")];
    let def = AstNode::new(
        NodeKind::Definition {
            name: "double".to_string(),
            type_sig: "( S int -- S int )".parse::<TypeSig>().unwrap(),
            body,
        },
        dummy_span(),
    );
    assert_eq!(def.children().len(), 2);
}

#[test]
fn span_merge_and_unknown() {
    let a = Span::unknown("f".to_string());
    assert_eq!((a.start.line, a.start.column, a.end.offset), (0, 0, 0));
    let p = tardi::value::Pos::new(2, 5, 17, 3);
    let s = Span::from_pos("f".to_string(), &p);
    assert_eq!((s.start.line, s.start.column, s.start.offset), (2, 5, 17));
    assert_eq!((s.end.line, s.end.column, s.end.offset), (2, 8, 20));
    let m = Span::merge(&s, &a);
    assert_eq!(m.start, s.start);
    assert_eq!(m.end, a.end);
}

#[test]
fn walk_visits_all_nodes() {
    // Program [ [ 1 ] + ]
    let inner = AstNode::new(
        NodeKind::Quotation(vec![literal_node(1)]),
        dummy_span(),
    );
    let prog = AstNode::new(
        NodeKind::Program(vec![inner, word_node("+")]),
        dummy_span(),
    );

    let mut visited = 0usize;
    prog.walk(&mut |_| visited += 1);
    // program + quotation + literal(1) + word("+") = 4
    assert_eq!(visited, 4);
}

#[test]
fn fold_counts_nodes() {
    let prog = AstNode::new(
        NodeKind::Program(vec![literal_node(1), literal_node(2), word_node("+")]),
        dummy_span(),
    );
    let count = prog.fold(0usize, &mut |acc, _| acc + 1);
    assert_eq!(count, 4); // program + 3 children
}

#[test]
fn preorder_lists_parents_before_children() {
    let inner = AstNode::new(NodeKind::Quotation(vec![literal_node(1)]), dummy_span());
    let prog = AstNode::new(NodeKind::Program(vec![inner, word_node("+")]), dummy_span());
    let nodes = prog.preorder();
    assert_eq!(nodes.len(), 4);
    assert!(matches!(nodes[0].kind, NodeKind::Program(_)));
    assert!(matches!(nodes[1].kind, NodeKind::Quotation(_)));
    assert_eq!(nodes[2], literal_node(1));
    assert_eq!(nodes[3], word_node("+"));

    let mut names = Vec::new();
    prog.walk(&mut |n: &AstNode| {
        if let NodeKind::Word { name, .. } = &n.kind {
            names.push(name.clone());
        }
    });
    assert_eq!(names, vec!["+".to_string()]);
}
