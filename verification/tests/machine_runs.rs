use tardi::errors::{CompilerError, Error, VMError};
use tardi::machine::Tardi;
use tardi::modules::{create_op_table, define_module};
use tardi::op_code::OpCode;
use tardi::types::parse_type_sig;
use tardi::value::ValueData;

fn run(script: &str) -> (Result<(), Error>, Vec<ValueData>) {
    let mut tardi = Tardi::new(None).unwrap();
    let r = tardi.execute_str(script);
    let stack = tardi.stack().into_iter().map(|v| v.data).collect();
    (r, stack)
}

fn ints(ns: &[i64]) -> Vec<ValueData> {
    ns.iter().map(|n| ValueData::Integer(*n)).collect()
}

#[test]
fn swap_twice_changes_nothing() {
    assert_eq!(run("1 2 swap swap").1, ints(&[1, 2]));
}

#[test]
fn dup_then_drop_changes_nothing() {
    assert_eq!(run("1 2 dup drop").1, ints(&[1, 2]));
}

#[test]
fn rot_three_times_changes_nothing() {
    assert_eq!(run("1 2 3 rot rot rot").1, ints(&[1, 2, 3]));
    assert_eq!(run("1 2 3 rot -rot").1, ints(&[1, 2, 3]));
}

#[test]
fn definitions_run_their_body() {
    assert_eq!(run(": sq dup * ; 7 sq").1, ints(&[49]));
    assert_eq!(run(": sq dup * ; : quad sq sq ; 2 quad").1, ints(&[16]));
}

#[test]
fn arithmetic_and_comparison() {
    assert_eq!(run("7 2 -").1, ints(&[5]));
    assert_eq!(run("-7 2 /").1, ints(&[-3]));
    assert_eq!(run("3 4 <").1, vec![ValueData::Boolean(true)]);
    assert_eq!(run("3 4 >").1, vec![ValueData::Boolean(false)]);
    assert_eq!(run("3 3 ==").1, vec![ValueData::Boolean(true)]);
    assert_eq!(run("#t !").1, vec![ValueData::Boolean(false)]);
    assert_eq!(run("#f 1 2 ?").1, ints(&[2]));
    assert_eq!(run("1 2 3 clear").1, vec![]);
}

#[test]
fn quotations_and_conditionals() {
    assert_eq!(run("[ 1 2 + ] call").1, ints(&[3]));
    assert_eq!(run("#t [ 1 ] [ 2 ] if").1, ints(&[1]));
    assert_eq!(run("#f [ 1 ] [ 2 ] if").1, ints(&[2]));
    assert_eq!(run("1 5 [ 1 + ] dip").1, ints(&[2, 5]));
}

#[test]
fn vector_literals_push_lists() {
    let (r, stack) = run("{ 1 2 }");
    assert!(r.is_ok());
    match &stack[0] {
        ValueData::List(items) => {
            let data: Vec<ValueData> = items.iter().map(|v| v.data.clone()).collect();
            assert_eq!(data, ints(&[1, 2]));
        }
        other => panic!("expected a list, got {:?}", other),
    }
}

#[test]
fn errors_of_the_machine() {
    assert!(matches!(run("drop").0, Err(Error::VMError(VMError::StackUnderflow))));
    assert!(matches!(run("1 0 /").0, Err(Error::VMError(VMError::DivisionByZero))));
    assert!(matches!(
        run("nope").0,
        Err(Error::CompilerError(CompilerError::UndefinedWord(ref w))) if w == "nope"
    ));
    assert!(matches!(
        run("1 [ 1 ] [ 2 ] if").0,
        Err(Error::VMError(VMError::TypeMismatch(ref w))) if w == "if"
    ));
    assert!(matches!(
        run("\"a\" 1 +").0,
        Err(Error::VMError(VMError::TypeMismatch(ref w))) if w == "+"
    ));
    assert!(matches!(run("9223372036854775807 1 +").0, Err(Error::VMError(VMError::TypeMismatch(_)))));
    assert!(matches!(run(": loop loop ; loop").0, Err(Error::VMError(VMError::ReturnStackOverflow))));
    assert!(matches!(run("[ 1").0, Err(Error::ParseError(_))));
    assert!(matches!(run("\"open").0, Err(Error::ScannerError(_))));
}

#[test]
fn error_messages() {
    let e = run("drop").0.unwrap_err();
    assert_eq!(e.message(), "Stack underflow");
    let e = run("nope").0.unwrap_err();
    assert_eq!(e.message(), "Undefined word: nope");
    let e = run("\"a\" 1 +").0.unwrap_err();
    assert_eq!(e.message(), "Type mismatch in + operation");
    let e = run("[ 1").0.unwrap_err();
    assert_eq!(e.message(), "std/sandbox:1:1: unclosed '[' delimiter");
}

#[test]
fn the_bootstrap_runs_first() {
    let mut tardi = Tardi::new(Some(": twice dup + ;")).unwrap();
    tardi.execute_str("21 twice").unwrap();
    let stack: Vec<ValueData> = tardi.stack().into_iter().map(|v| v.data).collect();
    assert_eq!(stack, ints(&[42]));
    tardi.reset();
    assert!(tardi.stack().is_empty());
}

#[test]
fn push_true_and_false() {
    let mut tardi = Tardi::new(None).unwrap();
    tardi.push_true().unwrap();
    tardi.push_false().unwrap();
    let stack: Vec<ValueData> = tardi.stack().into_iter().map(|v| v.data).collect();
    assert_eq!(stack, vec![ValueData::Boolean(true), ValueData::Boolean(false)]);
}

#[test]
fn built_in_modules_place_their_words() {
    let mut table = create_op_table();
    assert_eq!(table.len(), 37);
    let module = define_module("std/strings", &mut table).unwrap();
    assert_eq!(module.name, "std/strings");
    assert_eq!(module.defined[0], ("<string>".to_string(), 37));
    assert_eq!(table[37].name, "<string>");
    assert!(!table[37].immediate);
    assert!(table[37].type_sig.is_none());
    assert_eq!(table.len(), 37 + module.defined.len());
    let before = table.len();
    assert!(matches!(
        define_module("std/nothing", &mut table),
        Err(Error::CompilerError(CompilerError::ModuleNotFound(ref n))) if n == "std/nothing"
    ));
    assert_eq!(table.len(), before);
}

#[test]
fn op_codes_round_trip() {
    for code in 0u8..=255 {
        if let Ok(op) = OpCode::from_code(code) {
            assert_eq!(op.code(), code);
        }
    }
}

#[test]
fn negated_comparisons() {
    assert_eq!(run("1 2 !=").1, vec![ValueData::Boolean(true)]);
    assert_eq!(run("2 2 !=").1, vec![ValueData::Boolean(false)]);
    assert_eq!(run("2 2 <=").1, vec![ValueData::Boolean(true)]);
    assert_eq!(run("3 2 <=").1, vec![ValueData::Boolean(false)]);
    assert_eq!(run("1 2 >=").1, vec![ValueData::Boolean(false)]);
    assert_eq!(run("2 2 >=").1, vec![ValueData::Boolean(true)]);
}

#[test]
fn equality_compares_data() {
    assert_eq!(run("{ 1 2 } { 1 2 } ==").1, vec![ValueData::Boolean(true)]);
    assert_eq!(run("{ 1 2 } { 2 1 } ==").1, vec![ValueData::Boolean(false)]);
    assert_eq!(run("\"a\" \"a\" ==").1, vec![ValueData::Boolean(true)]);
    assert_eq!(run("1 \"1\" ==").1, vec![ValueData::Boolean(false)]);
}

#[test]
fn stack_words_of_the_library() {
    assert_eq!(run("7 8 stack-size").1, ints(&[7, 8, 2]));
    assert_eq!(run("stack-size").1, ints(&[0]));
    assert_eq!(run("1 <nop>").1, ints(&[1]));
    assert_eq!(run("[ 1 2 + ] apply").1, ints(&[3]));
    let (r, stack) = run("5 lit");
    assert!(r.is_ok());
    match &stack[0] {
        ValueData::Literal(inner) => assert_eq!(inner.data, ValueData::Integer(5)),
        other => panic!("expected a literal, got {:?}", other),
    }
    assert!(matches!(run("lit").0, Err(Error::VMError(VMError::StackUnderflow))));
    assert!(matches!(run("1 bye").0, Err(Error::VMError(VMError::Exit))));
}

#[test]
fn string_and_list_words_of_the_library() {
    assert_eq!(
        run("\"ab\" \"cd\" string-concat").1,
        vec![ValueData::String("abcd".to_string())]
    );
    assert_eq!(run("42 >string").1, vec![ValueData::String("42".to_string())]);
    let (r, stack) = run("<list>");
    assert!(r.is_ok());
    assert!(matches!(&stack[0], ValueData::List(items) if items.is_empty()));
}

#[test]
fn kernel_macros_and_scanning_types() {
    let mut table = create_op_table();
    assert!(table.iter().all(|op| !op.immediate && op.type_sig.is_none()));
    let kernel = define_module("std/kernel", &mut table).unwrap();
    assert_eq!(kernel.defined.len(), 33);
    let (name, index) = &kernel.defined[30];
    assert_eq!(name, "loop");
    assert!(table[*index].immediate);
    assert_eq!(kernel.defined[32].0, "exports:");
    assert!(table[kernel.defined[32].1].immediate);
    assert!(!table[kernel.defined[0].1].immediate);
    let scanning = define_module("std/scanning", &mut table).unwrap();
    let (name, index) = &scanning.defined[1];
    assert_eq!(name, "scan-value-list");
    assert_eq!(table[*index].type_sig, Some(parse_type_sig("( a -- vec )").unwrap()));
    let consume = &table[scanning.defined[3].1];
    assert_eq!(consume.name, "<consume-type-sig>");
    assert_eq!(consume.type_sig, Some(parse_type_sig("( -- )").unwrap()));
}
