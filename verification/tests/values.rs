use tardi::equality::{same_data, same_value};
use tardi::modules::create_macro_table;
use tardi::shared::{shared, unshare_clone};
use tardi::value::{Lambda, Pos, Value, ValueData};

fn s(t: &str) -> Value {
    Value::new(ValueData::String(t.to_string()))
}

#[test]
fn display_forms() {
    assert_eq!(ValueData::Integer(-42).to_display_string(), "-42");
    assert_eq!(ValueData::Boolean(true).to_display_string(), "#t");
    assert_eq!(ValueData::Boolean(false).to_display_string(), "#f");
    assert_eq!(ValueData::Char('\n').to_display_string(), "'\\n'");
    assert_eq!(ValueData::Char('a').to_display_string(), "'a'");
    assert_eq!(ValueData::String("hi".to_string()).to_display_string(), "hi");
    assert_eq!(ValueData::Float("3".to_string()).to_display_string(), "3.0");
    assert_eq!(ValueData::Float("2.5".to_string()).to_display_string(), "2.5");
    assert_eq!(
        ValueData::Symbol { module: "std/kernel".to_string(), word: "dup".to_string() }.to_display_string(),
        "std/kernel::dup"
    );
    assert_eq!(ValueData::Macro.to_display_string(), "MACRO:");
    assert_eq!(ValueData::EndOfInput.to_display_string(), "<EOI>");
    assert_eq!(ValueData::Address(7).to_display_string(), "<@7>");
    assert_eq!(ValueData::Return(3, true).to_display_string(), "<@3 - true>");
}

#[test]
fn lists_show_their_items_in_repr() {
    let list = ValueData::List(vec![Value::new(ValueData::Integer(1)), s("a\"b")]);
    assert_eq!(list.to_display_string(), "{ 1 \"a\\\"b\" }");
    assert_eq!(ValueData::List(vec![]).to_display_string(), "{ }");
}

#[test]
fn repr_quotes_strings() {
    assert_eq!(s("back\\slash").to_repr(), "\"back\\\\slash\"");
    assert_eq!(Value::new(ValueData::Integer(5)).to_repr(), "5");
}

#[test]
fn debug_forms() {
    assert_eq!(ValueData::Integer(3).to_debug_string(), "Integer(3)");
    assert_eq!(ValueData::String("x".to_string()).to_debug_string(), "String(\"x\")");
    assert_eq!(ValueData::Return(2, false).to_debug_string(), "Return(2, false)");
}

#[test]
fn accessors() {
    let b = Value::new(ValueData::Boolean(true));
    assert_eq!(b.as_boolean(), Some(true));
    assert_eq!(b.as_integer(), None);
    let n = Value::new(ValueData::Integer(9));
    assert_eq!(n.as_integer(), Some(9));
    assert_eq!(s("t").as_string(), Some("t"));
    assert_eq!(Value::new(ValueData::Char('c')).as_char(), Some('c'));
    let l = Value::new(ValueData::List(vec![n.clone()]));
    assert!(l.is_list());
    assert_eq!(l.as_list().map(|v| v.len()), Some(1));
    assert_eq!(Value::new(ValueData::Return(4, true)).as_address(), Some(4));
    assert!(Value::new(ValueData::Return(4, true)).is_breakpoint());
    assert!(!Value::new(ValueData::Address(4)).is_breakpoint());
    let sym = Value::new(ValueData::Symbol { module: "m".to_string(), word: "w".to_string() });
    assert_eq!(sym.as_word(), Some("w"));
    assert_eq!(sym.as_symbol(), Some(("m", "w")));
    assert_eq!(Value::new(ValueData::Word("x".to_string())).as_word(), Some("x"));
}

#[test]
fn positions_and_lexemes() {
    let p = Pos::new(2, 3, 10, 4);
    let v = Value::with_pos(ValueData::Integer(1), "0x01", p);
    assert_eq!(v.lexeme, Some("0x01".to_string()));
    assert_eq!(v.pos, Some(p));
    let w = Value::from_parts(ValueData::Integer(1), "0x01", 2, 3, 10, 4);
    assert_eq!(v, w);
    let x = Value::with_lexeme(ValueData::Integer(1), "one");
    assert_eq!(x.pos, None);
}

#[test]
fn values_compare_by_data() {
    let a = Value::from_parts(ValueData::Integer(1), "1", 1, 1, 0, 1);
    let b = Value::new(ValueData::Integer(1));
    assert_eq!(a, b);
    let w = ValueData::Word("x".to_string());
    let y = ValueData::Symbol { module: "m".to_string(), word: "x".to_string() };
    assert_eq!(w, y);
    assert_ne!(
        y,
        ValueData::Symbol { module: "n".to_string(), word: "x".to_string() }
    );
    assert_ne!(ValueData::Return(1, true), ValueData::Return(1, true));
    let l1 = ValueData::List(vec![Value::with_lexeme(ValueData::Integer(1), "one")]);
    let l2 = ValueData::List(vec![Value::new(ValueData::Integer(1))]);
    assert_eq!(l1, l2);
    assert_ne!(ValueData::Integer(1), ValueData::Boolean(true));
}

#[test]
fn deep_sameness_looks_at_everything() {
    let a = Value::from_parts(ValueData::Integer(1), "1", 1, 1, 0, 1);
    let b = Value::new(ValueData::Integer(1));
    assert!(!same_value(&a, &b));
    assert!(same_value(&a, &a.clone()));
    assert!(!same_data(&ValueData::Word("x".to_string()), &ValueData::Symbol {
        module: "m".to_string(),
        word: "x".to_string()
    }));
    assert!(same_data(&ValueData::Return(1, true), &ValueData::Return(1, true)));
}

#[test]
fn function_values_and_shared_cells() {
    let f = Value::new(ValueData::Function(Lambda { name: Some("sq".to_string()), body: vec![] }));
    assert_eq!(f.as_function().and_then(|l| l.name.clone()), Some("sq".to_string()));
    assert!(s("x").as_function().is_none());
    let cell = shared(Value::new(ValueData::Integer(3)));
    let copy = unshare_clone(cell.clone());
    assert_eq!(copy.data, ValueData::Integer(3));
    assert_eq!(cell.data, ValueData::Integer(3));
    assert!(create_macro_table().is_empty());
}
