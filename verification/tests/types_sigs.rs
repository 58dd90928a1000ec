use tardi::types::{unify_rows, EffectSet, PrimitiveType, Row, StackType, TypeSig};

#[test]
fn parse_sig_with_effects() {
    let sig = "( S -- S str | io )".parse::<TypeSig>().unwrap();
    assert!(sig.effects.contains("io"));
    assert!(!sig.effects.contains("alloc"));
}

#[test]
fn parse_sig_with_multiple_effects() {
    let sig = "( S -- S | io alloc )".parse::<TypeSig>().unwrap();
    assert!(sig.effects.contains("io"));
    assert!(sig.effects.contains("alloc"));
}

#[test]
fn parse_primitive_types() {
    let sig = "( S int int -- S int )".parse::<TypeSig>().unwrap();
    assert_eq!(
        sig.input.types,
        vec![
            StackType::Primitive(PrimitiveType::Int),
            StackType::Primitive(PrimitiveType::Int),
        ]
    );
    assert_eq!(
        sig.output.types,
        vec![StackType::Primitive(PrimitiveType::Int)]
    );
}

#[test]
fn parse_no_row_var() {
    let sig = "( int -- int )".parse::<TypeSig>().unwrap();
    assert_eq!(sig.input.var, None);
    assert_eq!(sig.output.var, None);
}

#[test]
fn parse_error_missing_arrow() {
    let result = "( S a S b )".parse::<TypeSig>();
    assert!(result.is_err());
}

#[test]
fn parse_error_missing_parens() {
    let result = "S a -- S b".parse::<TypeSig>();
    assert!(result.is_err());
}

#[test]
fn effect_union_empty() {
    let a = EffectSet::empty();
    let b = EffectSet::empty();
    assert_eq!(a.union(&b), EffectSet::empty());
}

#[test]
fn effect_union_single() {
    let a = EffectSet::single("io");
    let b = EffectSet::single("alloc");
    let u = a.union(&b);
    assert!(u.contains("io"));
    assert!(u.contains("alloc"));
}

#[test]
fn effect_union_deduplicates() {
    let a = EffectSet::single("io");
    let b = EffectSet::single("io");
    let u = a.union(&b);
    assert_eq!(u.labels.len(), 1);
}

#[test]
fn unify_concrete_mismatch_fails() {
    let a = Row {
        var: None,
        types: vec![StackType::Primitive(PrimitiveType::Int)],
    };
    let b = Row {
        var: None,
        types: vec![StackType::Primitive(PrimitiveType::Str)],
    };
    assert!(unify_rows(&a, &b).is_err());
}

#[test]
fn parse_simple_sig() {
    let sig = "( S a -- S b )".parse::<TypeSig>().unwrap();
    assert_eq!(sig.input.var, Some("S".to_string()));
    assert_eq!(sig.input.types, vec![StackType::TypeVar("a".to_string())]);
    assert_eq!(sig.output.var, Some("S".to_string()));
    assert_eq!(sig.output.types, vec![StackType::TypeVar("b".to_string())]);
    assert!(sig.effects.is_empty());
}

#[test]
fn display_sig_no_effects() {
    let sig = "( S a -- S b )".parse::<TypeSig>().unwrap();
    assert_eq!(sig.to_type_string(), "( S a -- S b )");
}

#[test]
fn display_sig_with_effects() {
    let sig = "( S -- S str | io )".parse::<TypeSig>().unwrap();
    assert_eq!(sig.to_type_string(), "( S -- S str | io )");
}

#[test]
fn unify_matching_rows() {
    let a = Row { var: Some("S".to_string()), types: vec![StackType::TypeVar("a".to_string())] };
    let b = Row { var: Some("S".to_string()), types: vec![StackType::TypeVar("b".to_string())] };
    assert!(unify_rows(&a, &b).is_ok());
}

#[test]
fn unify_row_absorbs_extra_types() {
    let a = Row {
        var: Some("S".to_string()),
        types: vec![
            StackType::Primitive(PrimitiveType::Int),
            StackType::Primitive(PrimitiveType::Int),
        ],
    };
    let b = Row {
        var: Some("S".to_string()),
        types: vec![StackType::Primitive(PrimitiveType::Int)],
    };
    assert!(unify_rows(&a, &b).is_ok());
}

#[test]
fn written_signatures_read_back() {
    let sigs = [
        ("( S a -- S a a )", "( S a -- S a a )"),
        ("( -- )", "(  --  )"),
        ("( int float -- bool | alloc io )", "( int float -- bool | alloc io )"),
        ("( S file-like -- S result char str )", "( S file-like -- S result char str )"),
        ("( R x -- R | io )", "( R x -- R | io )"),
        ("( -- T y | net )", "(  -- T y | net )"),
    ];
    for (text, shown) in sigs.iter() {
        let sig = text.parse::<TypeSig>().unwrap();
        assert_eq!(sig.to_type_string(), *shown);
        let again = sig.to_type_string().parse::<TypeSig>().unwrap();
        assert_eq!(again, sig);
    }
    let sig = TypeSig::new(
        Row { var: Some("S".to_string()), types: vec![StackType::Primitive(PrimitiveType::Named("stream".to_string()))] },
        Row { var: None, types: vec![StackType::TypeVar("q".to_string())] },
        EffectSet::from_labels(vec!["b".to_string(), "a".to_string()]),
    );
    assert_eq!(sig.to_type_string().parse::<TypeSig>().unwrap(), sig);
}
