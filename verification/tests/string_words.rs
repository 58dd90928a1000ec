use tardi::errors::{Error, VMError};
use tardi::strings;
use tardi::value::{Value, ValueData};

fn s(t: &str) -> Value {
    Value::new(ValueData::String(t.to_string()))
}

fn i(n: i64) -> Value {
    Value::new(ValueData::Integer(n))
}

// The data of each value, with the text and position of every value in a
// list left out, as value equality ignores them.
fn plain(d: &ValueData) -> ValueData {
    match d {
        ValueData::List(items) => ValueData::List(items.iter().map(|v| Value::new(plain(&v.data))).collect()),
        other => other.clone(),
    }
}

fn data(stack: &[Value]) -> Vec<ValueData> {
    stack.iter().map(|v| plain(&v.data)).collect()
}

fn str_data(t: &str) -> ValueData {
    ValueData::String(t.to_string())
}

fn list_of_strs(ts: &[&str]) -> ValueData {
    ValueData::List(ts.iter().map(|t| s(t)).collect())
}

fn mismatch(r: Result<(), Error>) -> String {
    match r {
        Err(Error::VMError(VMError::TypeMismatch(m))) => m,
        other => panic!("expected a type mismatch, got {:?}", other),
    }
}

#[test]
fn create_and_show_strings() {
    let mut st = vec![i(42)];
    strings::to_string(&mut st).unwrap();
    assert_eq!(data(&st), vec![str_data("42")]);
    strings::create_string(&mut st).unwrap();
    assert_eq!(data(&st), vec![str_data("42"), str_data("")]);
}

#[test]
fn concat_strings() {
    let mut st = vec![s("ab"), s("cd")];
    strings::string_concat(&mut st).unwrap();
    assert_eq!(data(&st), vec![str_data("abcd")]);

    let mut st = vec![s("ab"), i(1)];
    assert_eq!(mismatch(strings::string_concat(&mut st)), "string concatenation");
    assert!(st.is_empty());

    let mut st = vec![s("ab")];
    assert!(matches!(
        strings::string_concat(&mut st),
        Err(Error::VMError(VMError::StackUnderflow))
    ));
    assert!(st.is_empty());
}

#[test]
fn nth_character() {
    let mut st = vec![s("abc"), i(1)];
    strings::nth(&mut st).unwrap();
    assert_eq!(data(&st), vec![ValueData::Char('b')]);

    let mut st = vec![s("abc"), i(5)];
    strings::nth(&mut st).unwrap();
    assert_eq!(data(&st), vec![ValueData::Boolean(false)]);

    let mut st = vec![s("abc"), i(-1)];
    strings::nth(&mut st).unwrap();
    assert_eq!(data(&st), vec![ValueData::Boolean(false)]);

    let mut st = vec![s("abc"), s("x")];
    assert_eq!(mismatch(strings::nth(&mut st)), "nth index should be integer");
}

#[test]
fn empty_length_and_membership() {
    let mut st = vec![s("")];
    strings::is_empty(&mut st).unwrap();
    assert_eq!(data(&st), vec![ValueData::Boolean(true)]);
    assert_eq!(st[0].lexeme, Some("true".to_string()));

    let mut st = vec![s("héllo")];
    strings::length(&mut st).unwrap();
    assert_eq!(data(&st), vec![ValueData::Integer(6)]);
    assert_eq!(st[0].lexeme, Some("6".to_string()));

    let mut st = vec![s("hello"), s("ell")];
    strings::is_in(&mut st).unwrap();
    assert_eq!(data(&st), vec![ValueData::Boolean(true)]);

    let mut st = vec![s("hello"), Value::new(ValueData::Char('z'))];
    strings::is_in(&mut st).unwrap();
    assert_eq!(data(&st), vec![ValueData::Boolean(false)]);

    let mut st = vec![s("hello"), i(5)];
    assert_eq!(mismatch(strings::is_in(&mut st)), "in? needle");

    let mut st = vec![i(5), s("x")];
    assert_eq!(mismatch(strings::is_in(&mut st)), "in? haystack");
}

#[test]
fn prefixes_and_suffixes() {
    let mut st = vec![s("hello"), s("he")];
    strings::starts_with(&mut st).unwrap();
    assert_eq!(data(&st), vec![ValueData::Boolean(true)]);

    let mut st = vec![s("hello"), s("lo")];
    strings::ends_with(&mut st).unwrap();
    assert_eq!(data(&st), vec![ValueData::Boolean(true)]);

    let mut st = vec![s("hello"), s("he")];
    strings::strip_start(&mut st).unwrap();
    assert_eq!(data(&st), vec![str_data("llo")]);

    let mut st = vec![s("hello"), s("xx")];
    strings::strip_start(&mut st).unwrap();
    assert_eq!(data(&st), vec![str_data("hello")]);

    let mut st = vec![s("hello"), s("llo")];
    strings::strip_end(&mut st).unwrap();
    assert_eq!(data(&st), vec![str_data("he")]);

    let mut st = vec![s("hello"), i(1)];
    assert_eq!(mismatch(strings::starts_with(&mut st)), "starts-with? sub");
    let mut st = vec![i(1), s("h")];
    assert_eq!(mismatch(strings::ends_with(&mut st)), "ends-with? str");
}

#[test]
fn index_of_counts_bytes() {
    let mut st = vec![s("héllo"), s("l")];
    strings::index_of(&mut st).unwrap();
    assert_eq!(data(&st), vec![ValueData::Integer(3)]);

    let mut st = vec![s("héllo"), s("z")];
    strings::index_of(&mut st).unwrap();
    assert_eq!(data(&st), vec![ValueData::Boolean(false)]);
}

#[test]
fn split_once() {
    let mut st = vec![s("key=value=x"), s("=")];
    strings::split(&mut st).unwrap();
    assert_eq!(data(&st), vec![str_data("key"), str_data("value=x")]);

    let mut st = vec![s("abc"), s("=")];
    strings::split(&mut st).unwrap();
    assert_eq!(data(&st), vec![str_data("abc"), ValueData::Boolean(false)]);
}

#[test]
fn split_all_pieces() {
    let mut st = vec![s("a,b,,c"), s(",")];
    strings::split_all(&mut st).unwrap();
    assert_eq!(data(&st), vec![list_of_strs(&["a", "b", "", "c"])]);
    assert_eq!(st[0].lexeme, Some("[ a b  c ]".to_string()));

    let mut st = vec![s("abc"), s("")];
    strings::split_all(&mut st).unwrap();
    assert_eq!(data(&st), vec![list_of_strs(&["", "a", "b", "c", ""])]);

    let mut st = vec![s(""), s("")];
    strings::split_all(&mut st).unwrap();
    assert_eq!(data(&st), vec![list_of_strs(&["", ""])]);
}

#[test]
fn replace_every_occurrence() {
    let mut st = vec![s("aaa"), s("aa"), s("b")];
    strings::replace_all(&mut st).unwrap();
    assert_eq!(data(&st), vec![str_data("ba")]);

    let mut st = vec![s("abc"), s(""), s("-")];
    strings::replace_all(&mut st).unwrap();
    assert_eq!(data(&st), vec![str_data("-a-b-c-")]);

    let mut st = vec![s("abc"), s("b"), i(1)];
    assert_eq!(mismatch(strings::replace_all(&mut st)), "replace-all replace");
}

#[test]
fn lines_and_words() {
    let mut st = vec![s("a\r\nb\n\nc\r")];
    strings::lines(&mut st).unwrap();
    assert_eq!(data(&st), vec![list_of_strs(&["a", "b", "", "c\r"])]);

    let mut st = vec![s("")];
    strings::lines(&mut st).unwrap();
    assert_eq!(data(&st), vec![list_of_strs(&[])]);
    assert_eq!(st[0].lexeme, Some("[  ]".to_string()));

    let mut st = vec![s("  a  b\tc ")];
    strings::split_whitespace(&mut st).unwrap();
    assert_eq!(data(&st), vec![list_of_strs(&["a", "b", "c"])]);
}

#[test]
fn split_at_and_substring_use_bytes() {
    let mut st = vec![s("héllo"), i(3)];
    strings::split_at(&mut st).unwrap();
    assert_eq!(data(&st), vec![str_data("hé"), str_data("llo")]);

    let mut st = vec![s("abc"), i(5)];
    strings::split_at(&mut st).unwrap();
    assert_eq!(data(&st), vec![str_data("abc"), ValueData::Boolean(false)]);

    let mut st = vec![s("héllo"), i(1), i(3)];
    strings::substring(&mut st).unwrap();
    assert_eq!(data(&st), vec![str_data("é")]);

    let mut st = vec![s("héllo"), i(1), s("3")];
    assert_eq!(mismatch(strings::substring(&mut st)), "substring end");
}

#[test]
fn case_mapping() {
    let mut st = vec![s("HeLLo")];
    strings::to_lowercase(&mut st).unwrap();
    assert_eq!(data(&st), vec![str_data("hello")]);
    strings::to_uppercase(&mut st).unwrap();
    assert_eq!(data(&st), vec![str_data("HELLO")]);
}

#[test]
fn utf8_round_trip() {
    let mut st = vec![s("hé")];
    strings::to_utf8(&mut st).unwrap();
    assert_eq!(
        data(&st),
        vec![ValueData::List(vec![i(104), i(195), i(169)])]
    );
    assert_eq!(st[0].lexeme, Some("[ 104 195 169 ]".to_string()));
    strings::utf8_to_string(&mut st).unwrap();
    assert_eq!(data(&st), vec![str_data("hé")]);

    let mut st = vec![Value::new(ValueData::List(vec![i(255)]))];
    assert_eq!(mismatch(strings::utf8_to_string(&mut st)), "invalid UTF-8 sequence");

    let mut st = vec![Value::new(ValueData::List(vec![i(300)]))];
    assert_eq!(mismatch(strings::utf8_to_string(&mut st)), "UTF-8 byte value");

    let mut st = vec![s("x")];
    assert_eq!(mismatch(strings::utf8_to_string(&mut st)), "list of bytes");
}

#[test]
fn four_byte_characters_encode() {
    let mut st = vec![s("🦀")];
    strings::to_utf8(&mut st).unwrap();
    assert_eq!(
        data(&st),
        vec![ValueData::List(vec![i(0xF0), i(0x9F), i(0xA6), i(0x80)])]
    );
}

#[test]
fn split_all_then_join_gives_back() {
    let mut st = vec![s("a,b,,c"), s(",")];
    strings::split_all(&mut st).unwrap();
    st.push(s(","));
    tardi::vectors::join_items(&mut st).unwrap();
    assert_eq!(data(&st), vec![str_data("a,b,,c")]);
}

#[test]
fn strip_start_of_prefixed_string() {
    let mut st = vec![s("prefix-rest"), s("prefix-")];
    strings::strip_start(&mut st).unwrap();
    assert_eq!(data(&st), vec![str_data("rest")]);
}

#[test]
fn length_of_concatenation() {
    let mut st = vec![s("hé"), s("🦀")];
    strings::string_concat(&mut st).unwrap();
    strings::length(&mut st).unwrap();
    assert_eq!(data(&st), vec![ValueData::Integer(3 + 4)]);
}
