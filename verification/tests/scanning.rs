use std::iter::from_fn;

use tardi::scanner::{Scanner, ScannerError, Source, SANDBOX};
use tardi::value::{Value, ValueData};

fn scan_raw(input: &str) -> Vec<Result<Value, ScannerError>> {
    let mut scanner = Scanner::from_input_string(input);
    from_fn(|| scanner.scan_value()).collect()
}

fn scan(input: &str) -> Vec<Value> {
    let mut scanner = Scanner::from_input_string(input);
    let tokens = from_fn(|| scanner.scan_value());
    let tokens: Result<Vec<Value>, ScannerError> = tokens.collect();
    assert!(tokens.is_ok());
    tokens.unwrap()
}

fn top<T>(vector: &mut Vec<T>) -> T {
    vector.remove(0)
}

fn assert_top(
    tokens: &mut Vec<Value>,
    line: usize,
    column: usize,
    length: usize,
    lexeme: Option<&str>,
) -> Value {
    let value = top(tokens);

    assert!(value.pos.is_some());
    let pos = value.pos.as_ref().unwrap();
    assert_eq!(pos.line, line);
    assert_eq!(pos.column, column);
    assert_eq!(pos.length, length);

    let lexeme = lexeme.map(|s| s.to_string());
    assert_eq!(lexeme, value.lexeme, "{:?} != {:?}", lexeme, value);

    value.clone()
}

#[test]
fn test_scanner_position_tracking() {
    let mut tokens = scan("abc\ndef");

    // Initial position
    let token = assert_top(&mut tokens, 1, 1, 3, Some("abc"));
    let pos = token.pos.as_ref().unwrap();
    assert_eq!(pos.offset, 0);
    let token = assert_top(&mut tokens, 2, 1, 3, Some("def"));
    let pos = token.pos.as_ref().unwrap();
    assert_eq!(pos.offset, 4);
}

#[test]
fn test_scanner_whitespace_handling() {
    let mut tokens = scan("   abc   \n   def");

    // Test initial whitespace skipping
    let token = assert_top(&mut tokens, 1, 4, 3, Some("abc"));
    let pos = token.pos.as_ref().unwrap();
    assert_eq!(pos.offset, 3);

    // Test skipping spaces and newline
    let token = assert_top(&mut tokens, 2, 4, 3, Some("def"));
    let pos = token.pos.as_ref().unwrap();
    assert_eq!(pos.offset, 13);
}

#[test]
fn test_scan_integers() {
    let mut tokens = scan("42 123 0 -1");

    // Test "42"
    let token = assert_top(&mut tokens, 1, 1, 2, Some("42"));
    assert!(
        matches!(token.data, ValueData::Integer(42)),
        "not an int {:?}",
        token.data
    );

    // Test "123"
    let token = top(&mut tokens);
    assert!(matches!(token.data, ValueData::Integer(123)));
    assert_eq!(token.lexeme, Some("123".to_string()));
}

#[test]
fn test_scan_character_literals() {
    let mut tokens = scan("'a' '\\n' '\\t' '\\r' '\\'' '\\\\' '🦀' '\\u41' '\\u{1F600}'");

    // Test 'a'
    let token = top(&mut tokens);
    assert!(
        matches!(token.data, ValueData::Char('a')),
        "mismatched token type: {:?}",
        token.data
    );
    assert_eq!(token.lexeme, Some("'a'".to_string()));

    // Test '\n'
    let token = top(&mut tokens);
    assert!(
        matches!(token.data, ValueData::Char('\n')),
        "mismatched token type: {:?}",
        token.data
    );
    assert_eq!(token.lexeme, Some("'\\n'".to_string()));

    // Test '\t'
    let token = top(&mut tokens);
    assert!(
        matches!(token.data, ValueData::Char('\t')),
        "mismatched token type: {:?}",
        token.data
    );
    assert_eq!(token.lexeme, Some("'\\t'".to_string()));

    // Test '\r'
    let token = top(&mut tokens);
    assert!(
        matches!(token.data, ValueData::Char('\r')),
        "mismatched token type: {:?}",
        token.data
    );
    assert_eq!(token.lexeme, Some("'\\r'".to_string()));

    // Test '\''
    let token = top(&mut tokens);
    assert!(
        matches!(token.data, ValueData::Char('\'')),
        "mismatched token type: {:?}",
        token.data
    );
    assert_eq!(token.lexeme, Some("'\\''".to_string()));

    // Test '\\'
    let token = top(&mut tokens);
    assert!(
        matches!(token.data, ValueData::Char('\\')),
        "mismatched token type: {:?}",
        token.data
    );
    assert_eq!(token.lexeme, Some("'\\\\'".to_string()));

    // Test '🦀'
    let token = top(&mut tokens);
    assert!(
        matches!(token.data, ValueData::Char('🦀')),
        "mismatched token type: {:?}",
        token.data
    );
    assert_eq!(token.lexeme, Some("'🦀'".to_string()));

    // Test '\u41' (ASCII 'A')
    let token = top(&mut tokens);
    assert!(
        matches!(token.data, ValueData::Char('A')),
        "mismatched token type: {:?}",
        token.data
    );
    assert_eq!(token.lexeme, Some("'\\u41'".to_string()));

    // Test '\u{1F600}' (Unicode emoji 😀)
    let token = top(&mut tokens);
    assert!(
        matches!(token.data, ValueData::Char('😀')),
        "mismatched token type: {:?}",
        token.data
    );
    assert_eq!(token.lexeme, Some("'\\u{1F600}'".to_string()));
}

#[test]
fn test_scan_floats() {
    let mut tokens = scan("3.14 2.0 0.123");

    // Test "3.14"
    let token = assert_top(&mut tokens, 1, 1, 4, Some("3.14"));
    assert!(matches!(token.data, ValueData::Float(ref s) if s.parse::<f64>() == Ok(3.14)));

    // TODO: These tests are commented out since we now parse these as words,
    // and we plan to support this notation in the future
    // Test invalid float formats
    // let mut tokens = scan("3. .14");
    // assert!(scanner.next().unwrap().is_err()); // "3." is invalid
    // assert!(scanner.next().unwrap().is_err()); // ".14" is invalid (no leading digit)
}

#[test]
fn test_scan_booleans() {
    let mut tokens = scan_raw("#t #f #x");

    // Test "#t"
    let token = top(&mut tokens);
    assert!(token.is_ok());
    let token = token.unwrap();
    let pos = token.pos.unwrap();
    assert_eq!(pos.line, 1);
    assert_eq!(pos.column, 1);
    assert_eq!(pos.length, 2);
    assert_eq!(token.lexeme, Some("#t".to_string()));
    assert!(matches!(token.data, ValueData::Boolean(true)));

    // Test "#f"
    let token = top(&mut tokens);
    assert!(token.is_ok());
    let token = token.unwrap();
    assert!(matches!(token.data, ValueData::Boolean(false)));
    assert_eq!(token.lexeme, Some("#f".to_string()));

    // Test error "#x"
    let token = top(&mut tokens);
    assert!(token.is_ok_and(|token| matches!(token.data, ValueData::Symbol { .. })));
}

#[test]
fn test_scan_comments() {
    let mut tokens =
        scan("42 // This is a comment\n<vector> // Another comment\ndup // Final comment");

    // Test "42"
    let token = top(&mut tokens);
    assert!(matches!(token.data, ValueData::Integer(42)));
    assert_eq!(token.lexeme, Some("42".to_string()));

    // Test "<vector>"
    let token = top(&mut tokens);
    assert!(
        matches!(token.data, ValueData::Symbol { word: ref w, .. } if w == "<vector>"),
        "not a symbol: {:?}",
        token.data
    );
    assert_eq!(token.lexeme, Some("<vector>".to_string()));

    // Test "dup"
    let token = top(&mut tokens);
    assert!(matches!(token.data, ValueData::Symbol { word: w, .. } if w == "dup"));
    assert_eq!(token.lexeme, Some("dup".to_string()));

    // Ensure no more tokens were read.
    assert!(tokens.is_empty());
}

#[test]
fn test_set_source() {
    let scanner = Scanner::from_input_string("something something here");
    assert_eq!(*scanner.input(), "something something here".to_string());
    assert_eq!(scanner.index(), 0);
    assert_eq!(scanner.line(), 1);
    assert_eq!(scanner.column(), 1);
    assert_eq!(scanner.offset(), 0);
}

#[test]
fn test_scan_token() {
    let mut scanner = Scanner::from_input_string("24 42 * word");

    let token = scanner.scan_value();
    assert!(matches!(token, Some(Ok(_))));
    let token = token.unwrap().unwrap();
    assert_eq!(
        token,
        Value::from_parts(ValueData::Integer(24), "24", 1, 1, 0, 2),
    );
    let token = scanner.scan_value();
    assert!(matches!(token, Some(Ok(_))));
    let token = token.unwrap().unwrap();
    assert_eq!(
        token,
        Value::from_parts(ValueData::Integer(42), "42", 1, 4, 3, 2),
    );
    let token = scanner.scan_value();
    assert!(matches!(token, Some(Ok(_))));
    let token = token.unwrap().unwrap();
    assert_eq!(
        token,
        Value::from_parts(
            ValueData::Symbol {
                module: SANDBOX.to_string(),
                word: "*".to_string()
            },
            "*",
            1,
            7,
            6,
            1
        ),
    );
    let token = scanner.scan_value();
    assert!(matches!(token, Some(Ok(_))));
    let token = token.unwrap().unwrap();
    assert_eq!(
        token,
        Value::from_parts(
            ValueData::Symbol {
                module: SANDBOX.to_string(),
                word: "word".to_string()
            },
            "word",
            1,
            9,
            8,
            4
        ),
    );
    let token = scanner.scan_value();
    assert!(token.is_none());
}

#[test]
fn test_scan_value_list() {
    let mut scanner = Scanner::from_input_string("\n: double 2 * ;\n7 double\n");

    let token = scanner.scan_value();
    assert!(token.is_some_and(|r| r.is_ok_and(|t| t.data
        == ValueData::Symbol {
            module: SANDBOX.to_string(),
            word: ":".to_string()
        })));

    let tokens = scanner.scan_value_list(ValueData::Word(";".to_string()));
    assert!(tokens.is_ok());
    let tokens = tokens.unwrap();
    let tokens = tokens.into_iter().collect::<Result<Vec<_>, ScannerError>>();
    assert!(tokens.is_ok());
    let tokens = tokens.unwrap();
    assert_eq!(tokens.len(), 3);
    assert_eq!(
        tokens[0],
        Value::from_parts(
            ValueData::Symbol {
                module: SANDBOX.to_string(),
                word: "double".to_string()
            },
            "double",
            2,
            3,
            3,
            6
        )
    );
    assert_eq!(
        tokens[1],
        Value::from_parts(ValueData::Integer(2), "2", 2, 10, 10, 1)
    );
    assert_eq!(
        tokens[2],
        Value::from_parts(
            ValueData::Symbol {
                module: SANDBOX.to_string(),
                word: "*".to_string()
            },
            "*",
            2,
            12,
            12,
            1
        )
    );

    let token = scanner.scan_value();
    assert!(token.is_some_and(|r| r.is_ok_and(|t| t.data == ValueData::Integer(7))));
}

#[test]
fn test_read_string_until() {
    let mut scanner = Scanner::from_input_string("\n<< double 2 * >>\n7 double\n");

    let token = scanner.scan_value();
    assert!(token.is_some_and(|r| r.is_ok_and(|t| t.data
        == ValueData::Symbol {
            module: SANDBOX.to_string(),
            word: "<<".to_string()
        })));

    let result = scanner.read_string_until(">>");
    assert!(result.is_ok(), "error on {:?}", result);
    let text_range = result.unwrap();
    assert_eq!(text_range, " double 2 * ".to_string());

    let token = scanner.scan_value();
    assert!(token.is_some_and(|r| r.is_ok_and(|t| t.data == ValueData::Integer(7))));

    let result = scanner.read_string_until(">>");
    assert!(matches!(result, Err(ScannerError::UnexpectedEndOfInput)));
}

#[test]
fn test_read_string_until_overlapping_delimiters() {
    let mut scanner = Scanner::from_input_string("bcababa");

    let result = scanner.read_string_until("aba");
    assert!(result.is_ok(), "error on {:?}", result);
    let text_range = result.unwrap();
    assert_eq!(text_range, "bc".to_string());
}

#[test]
fn test_words_starting_with_numbers() {
    let mut scanner = Scanner::from_input_string("123abc");
    let token = scanner.scan_value();
    assert!(token.is_some_and(|r| r.is_ok_and(|t| t.data
        == ValueData::Symbol {
            module: SANDBOX.to_string(),
            word: "123abc".to_string()
        })));
}

#[test]
fn test_multi_byte_utf8_characters() {
    let mut scanner = Scanner::from_input_string("こんにちは world");
    let token = scanner.scan_value();
    assert!(token.is_some_and(|r| r.is_ok_and(|t| t.data
        == ValueData::Symbol {
            module: SANDBOX.to_string(),
            word: "こんにちは".to_string()
        })));

    let token = scanner.scan_value();
    assert!(token.is_some_and(|r| r.is_ok_and(|t| t.data
        == ValueData::Symbol {
            module: SANDBOX.to_string(),
            word: "world".to_string()
        })));

    assert_eq!(scanner.line(), 1);
    assert_eq!(scanner.column(), 12); // 'world' starts at column 12 (1-based)
    assert_eq!(scanner.offset(), 21); // 'こんにちは' is 15 bytes + 1 space + 5 bytes for 'world'
}

fn symbol(word: &str) -> ValueData {
    ValueData::Symbol { module: SANDBOX.to_string(), word: word.to_string() }
}

#[test]
fn scan_integer_limits() {
    let tokens = scan("9223372036854775807 -9223372036854775808 9223372036854775808");
    assert_eq!(tokens[0].data, ValueData::Integer(i64::MAX));
    assert_eq!(tokens[1].data, ValueData::Integer(i64::MIN));
    // Too large for an integer: it reads as a float.
    assert_eq!(tokens[2].data, ValueData::Float("9223372036854775808".to_string()));
}

#[test]
fn scan_bad_escapes() {
    let mut scanner = Scanner::from_input_string("'\\q' '\\u{110000}' '\\u99' ''' ''");
    let r = scanner.scan_value().unwrap();
    assert!(matches!(r, Err(ScannerError::InvalidEscapeSequence(ref s)) if s == "\\q"));
    let r = scanner.scan_value().unwrap();
    assert!(
        matches!(r, Err(ScannerError::InvalidEscapeSequence(ref s)) if s == "Invalid Unicode codepoint: 1114112")
    );
    let r = scanner.scan_value().unwrap();
    assert!(
        matches!(r, Err(ScannerError::InvalidEscapeSequence(ref s)) if s == "ASCII value out of range: 153")
    );
    let r = scanner.scan_value().unwrap();
    assert!(matches!(r, Err(ScannerError::InvalidLiteral(ref s)) if s == "Empty character literal"));
    let r = scanner.scan_value().unwrap();
    assert!(matches!(r, Err(ScannerError::UnterminatedChar)));
}

#[test]
fn scan_float_forms() {
    let tokens = scan("3.14 2.0 0.123 1e5 nan -inf");
    assert_eq!(tokens[0].data, ValueData::Float("3.14".to_string()));
    let p = tokens[0].pos.unwrap();
    assert_eq!((p.line, p.column, p.length), (1, 1, 4));
    assert_eq!(tokens[3].data, ValueData::Float("1e5".to_string()));
    assert_eq!(tokens[4].data, ValueData::Float("nan".to_string()));
    assert_eq!(tokens[5].data, ValueData::Float("-inf".to_string()));
}

#[test]
fn scan_not_numbers() {
    let tokens = scan("3. .5 1.2.3 e5 123abc");
    assert_eq!(tokens[0].data, ValueData::Float("3.".to_string()));
    assert_eq!(tokens[1].data, ValueData::Float(".5".to_string()));
    assert_eq!(tokens[2].data, symbol("1.2.3"));
    assert_eq!(tokens[3].data, symbol("e5"));
    assert_eq!(tokens[4].data, symbol("123abc"));
}

#[test]
fn scan_strings() {
    let tokens = scan("\"hello\" \"a \\\"q\\\" b\" \"\" \"\"\"raw \"quoted\" text\"\"\"");
    assert_eq!(tokens[0].data, ValueData::String("hello".to_string()));
    assert_eq!(tokens[1].data, ValueData::String("a \"q\" b".to_string()));
    assert_eq!(tokens[2].data, ValueData::String(String::new()));
    assert_eq!(tokens[3].data, ValueData::String("raw \"quoted\" text".to_string()));
}

#[test]
fn scan_unterminated_string() {
    let mut scanner = Scanner::from_input_string("\"abc");
    let r = scanner.scan_value().unwrap();
    assert!(matches!(r, Err(ScannerError::UnterminatedString)));
    assert!(scanner.scan_value().is_none());
}

#[test]
fn scan_macro_marker() {
    let tokens = scan("MACRO: x ;");
    assert_eq!(tokens[0].data, ValueData::Macro);
}

#[test]
fn scan_value_list_until_value() {
    let mut scanner = Scanner::from_input_string("1 2 3 #t 4");
    let tokens = scanner.scan_value_list(ValueData::Boolean(true)).unwrap();
    assert_eq!(tokens.len(), 3);
    let next = scanner.scan_value().unwrap().unwrap();
    assert_eq!(next.data, ValueData::Integer(4));
    let mut scanner = Scanner::from_input_string("1 2");
    assert!(matches!(
        scanner.scan_value_list(ValueData::Boolean(true)),
        Err(ScannerError::UnexpectedEndOfInput)
    ));
}

#[test]
fn source_keys() {
    assert_eq!(Source::InputString.get_key(), "std/sandbox".to_string());
    let s = Source::ScriptFile { path: "dir/sub/script.tardi".to_string() };
    assert_eq!(s.get_key(), "script".to_string());
    assert_eq!(s.get_path(), Some("dir/sub/script.tardi".to_string()));
    let s = Source::ScriptFile { path: "dir/.hidden".to_string() };
    assert_eq!(s.get_key(), ".hidden".to_string());
    let s = Source::Module { name: "std/io".to_string(), path: "/lib/io.tardi".to_string() };
    assert_eq!(s.get_key(), "std/io".to_string());
    assert_eq!(Source::Internal { name: "k".to_string() }.get_path(), None);
}

#[test]
fn script_words_belong_to_the_script() {
    let mut scanner = Scanner::from_script("tests/hello.tardi", "greet");
    let token = scanner.scan_value().unwrap().unwrap();
    assert_eq!(
        token.data,
        ValueData::Symbol { module: "hello".to_string(), word: "greet".to_string() }
    );
}

#[test]
fn scanner_error_messages() {
    assert_eq!(ScannerError::UnterminatedString.message(), "Unterminated string".to_string());
    assert_eq!(
        ScannerError::InvalidNumber("1x".to_string()).message(),
        "Invalid number: 1x".to_string()
    );
}

#[test]
fn scanners_know_their_source() {
    let scanner = Scanner::from_module("std/strings", "/lib/std/strings.tardi", "1 2");
    assert_eq!(scanner.source.get_key(), "std/strings");
    assert_eq!(scanner.source.get_path(), Some("/lib/std/strings.tardi".to_string()));
    let scanner = Scanner::from_internal_module("std/kernel", "dup");
    assert_eq!(scanner.source.get_key(), "std/kernel");
    assert_eq!(scanner.source.get_path(), None);
    let mut scanner = Scanner::from_input_string("7");
    assert_eq!(scanner.source.get_key(), SANDBOX);
    assert_eq!(scanner.scan_value().unwrap().unwrap().data, ValueData::Integer(7));
}

#[test]
fn setting_the_input_string_keeps_the_position() {
    let mut scanner = Scanner::from_internal_module("std/kernel", "1 2 3");
    assert_eq!(scanner.scan_value().unwrap().unwrap().data, ValueData::Integer(1));
    scanner.set_input_string("4 5 6");
    assert_eq!(scanner.source.get_key(), SANDBOX);
    assert_eq!(scanner.scan_value().unwrap().unwrap().data, ValueData::Integer(5));
    scanner.set_input_string("8");
    assert!(scanner.scan_value().is_none());
}

#[test]
fn written_strings_and_chars_scan_back() {
    for text in ["", "plain", "with \"quotes\"", "back\\slash", "new\nline", "é ü"].iter() {
        let v = Value::new(ValueData::String(text.to_string()));
        let mut scanner = Scanner::from_input_string(&v.to_repr());
        assert_eq!(scanner.scan_value().unwrap().unwrap().data, ValueData::String(text.to_string()));
        assert!(scanner.scan_value().is_none());
    }
    for c in ['a', '\n', '\r', '\t', '\\', '\'', '"', 'é'].iter() {
        let v = Value::new(ValueData::Char(*c));
        let mut scanner = Scanner::from_input_string(&v.to_repr());
        assert_eq!(scanner.scan_value().unwrap().unwrap().data, ValueData::Char(*c));
    }
}

#[test]
fn token_lengths_count_characters() {
    let mut scanner = Scanner::from_input_string("こんにちは world");
    let v = scanner.scan_value().unwrap().unwrap();
    let p = v.pos.unwrap();
    assert_eq!((p.line, p.column, p.offset, p.length), (1, 1, 0, 5));
    let w = scanner.scan_value().unwrap().unwrap();
    let p = w.pos.unwrap();
    assert_eq!((p.line, p.column, p.offset, p.length), (1, 7, 16, 5));
    assert_eq!((scanner.line(), scanner.column(), scanner.offset()), (1, 12, 21));
}

#[test]
fn a_new_input_string_goes_on_counting() {
    let mut scanner = Scanner::from_input_string("\nx");
    assert!(matches!(scanner.scan_value().unwrap().unwrap().data, ValueData::Symbol { .. }));
    assert_eq!((scanner.line(), scanner.column(), scanner.offset()), (2, 2, 2));
    scanner.set_input_string("ab cd");
    assert_eq!((scanner.line(), scanner.column(), scanner.offset()), (2, 2, 2));
    let v = scanner.scan_value().unwrap().unwrap();
    let p = v.pos.unwrap();
    assert_eq!(v.lexeme, Some("cd".to_string()));
    assert_eq!((p.line, p.column, p.offset, p.length), (2, 3, 3, 2));
}
