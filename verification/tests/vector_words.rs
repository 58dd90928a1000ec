use tardi::errors::{Error, VMError};
use tardi::value::{Value, ValueData};
use tardi::vectors;

fn s(t: &str) -> Value {
    Value::new(ValueData::String(t.to_string()))
}

fn i(n: i64) -> Value {
    Value::new(ValueData::Integer(n))
}

fn list(vs: Vec<Value>) -> Value {
    Value::new(ValueData::List(vs))
}

// The data of each value, with the text and position of every value in a
// list left out, as value equality ignores them.
fn plain(d: &ValueData) -> ValueData {
    match d {
        ValueData::List(items) => ValueData::List(items.iter().map(|v| Value::new(plain(&v.data))).collect()),
        other => other.clone(),
    }
}

fn data(stack: &[Value]) -> Vec<ValueData> {
    stack.iter().map(|v| plain(&v.data)).collect()
}

#[test]
fn create_and_concat_lists() {
    let mut st = Vec::new();
    vectors::create_list(&mut st).unwrap();
    assert_eq!(data(&st), vec![ValueData::List(vec![])]);

    let mut st = vec![list(vec![i(1)]), list(vec![i(2), i(3)])];
    vectors::concat(&mut st).unwrap();
    assert_eq!(data(&st), vec![ValueData::List(vec![i(1), i(2), i(3)])]);

    let mut st = vec![list(vec![i(1)]), i(2)];
    assert!(matches!(
        vectors::concat(&mut st),
        Err(Error::VMError(VMError::TypeMismatch(ref m))) if m == "concatenate lists"
    ));
}

#[test]
fn nth_item() {
    let mut st = vec![i(1), list(vec![s("a"), s("b"), s("c")])];
    vectors::nth(&mut st).unwrap();
    assert_eq!(data(&st), vec![ValueData::String("b".to_string())]);

    let mut st = vec![i(7), list(vec![s("a")])];
    vectors::nth(&mut st).unwrap();
    assert_eq!(data(&st), vec![ValueData::Boolean(false)]);
}

#[test]
fn length_of_lists() {
    let mut st = vec![list(vec![i(1), i(2)])];
    vectors::length(&mut st).unwrap();
    assert_eq!(data(&st), vec![ValueData::Integer(2)]);

    let mut st = vec![s("abc")];
    assert!(matches!(
        vectors::length(&mut st),
        Err(Error::VMError(VMError::TypeMismatch(ref m))) if m == "length of list: \"abc\""
    ));
}

#[test]
fn subvector_cuts_the_end() {
    let mut st = vec![i(1), i(3), list(vec![s("a"), s("b"), s("c"), s("d")])];
    vectors::subvector(&mut st).unwrap();
    assert_eq!(
        data(&st),
        vec![ValueData::List(vec![s("b"), s("c")])]
    );
    assert_eq!(st[0].lexeme, Some("[ b c ]".to_string()));

    let mut st = vec![i(1), i(10), list(vec![s("a"), s("b")])];
    vectors::subvector(&mut st).unwrap();
    assert_eq!(data(&st), vec![ValueData::List(vec![s("b")])]);
}

#[test]
fn join_displays_items() {
    let mut st = vec![list(vec![s("a"), i(1), Value::new(ValueData::Char('c'))]), s(", ")];
    vectors::join_items(&mut st).unwrap();
    assert_eq!(data(&st), vec![ValueData::String("a, 1, 'c'".to_string())]);

    let mut st = vec![list(vec![]), s(", ")];
    vectors::join_items(&mut st).unwrap();
    assert_eq!(data(&st), vec![ValueData::String(String::new())]);
}

#[test]
fn membership_uses_value_equality() {
    let word = Value::new(ValueData::Word("dup".to_string()));
    let sym = Value::new(ValueData::Symbol { module: "std/kernel".to_string(), word: "dup".to_string() });
    let mut st = vec![word, list(vec![i(1), sym])];
    vectors::is_in(&mut st).unwrap();
    assert_eq!(data(&st), vec![ValueData::Boolean(true)]);

    let mut st = vec![i(3), list(vec![i(1), i(2)])];
    vectors::is_in(&mut st).unwrap();
    assert_eq!(data(&st), vec![ValueData::Boolean(false)]);

    let mut st = vec![i(3), s("nope")];
    assert!(matches!(
        vectors::is_in(&mut st),
        Err(Error::VMError(VMError::TypeMismatch(ref m))) if m == "in? list: \"nope\""
    ));
}

#[test]
fn index_of_finds_the_first() {
    let mut st = vec![i(2), list(vec![i(1), i(2), i(2)])];
    vectors::index_of(&mut st).unwrap();
    assert_eq!(data(&st), vec![ValueData::Integer(1)]);

    let mut st = vec![i(5), list(vec![i(1)])];
    vectors::index_of(&mut st).unwrap();
    assert_eq!(data(&st), vec![ValueData::Boolean(false)]);

    let mut st = vec![i(5), i(6)];
    assert!(matches!(
        vectors::index_of(&mut st),
        Err(Error::VMError(VMError::TypeMismatch(ref m))) if m == "in? list"
    ));
}
