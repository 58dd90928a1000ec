//! The words of the module `std/strings`, each an operation on the value
//! stack: it pops its arguments (the last argument first), checks their
//! types, and pushes its results.
//!
//! Byte positions (`length`, `index-of?`, `split-at`, `substring`) count the
//! UTF-8 bytes of a string, as Rust's `str` does.

use vstd::prelude::*;

use crate::errors::{ErrV, Error, VMErrV, VMError};
use crate::loader::starts_with_exec;
use crate::machine::{bare, lemma_values_prefix, lemma_values_push, mismatch, vm_err};
use crate::scanner::{char_width, str_byte_len, utf8_len, utf8_width};
use crate::text::{
    chars_of_string, find_from, find_seq, int_text, join, lemma_find_from, lemma_join_front, occurs_at, push_i64, split_words,
    string_from_chars, string_of, words,
};
use crate::value::{lemma_values_v, show_data, values_v, DataV, Value, ValueData, ValueV};

verus! {

// ── The stack ────────────────────────────────────────────────────────────────

/// What a word leaves: the stack, and whether it went wrong.
pub open spec fn outcome(stack: Seq<Value>, r: Result<(), Error>) -> (Seq<ValueV>, Result<(), ErrV>) {
    (
        values_v(stack),
        match r {
            Ok(()) => Ok(()),
            Err(e) => Err(e@),
        },
    )
}

/// The error of popping an empty stack.
pub open spec fn underflow() -> ErrV {
    vm_err(VMErrV::StackUnderflow)
}

/// The stack without its top `k` values.
pub open spec fn below(s: Seq<ValueV>, k: int) -> Seq<ValueV> {
    s.subrange(0, s.len() - k)
}

/// The text of a string value.
pub open spec fn str_of(v: ValueV) -> Option<Seq<char>> {
    match v.data {
        DataV::String(t) => Some(t),
        _ => None,
    }
}

/// The number of an integer value.
pub open spec fn int_of(v: ValueV) -> Option<i64> {
    match v.data {
        DataV::Integer(i) => Some(i),
        _ => None,
    }
}

/// A string value that came from no token.
pub open spec fn text_value(t: Seq<char>) -> ValueV {
    bare(DataV::String(t))
}

/// A boolean value that came from no token.
pub open spec fn flag(b: bool) -> ValueV {
    bare(DataV::Boolean(b))
}

/// A boolean as a word gives it: written `true` or `false`.
pub open spec fn from_bool(b: bool) -> ValueV {
    ValueV { data: DataV::Boolean(b), lexeme: Some(if b { "true"@ } else { "false"@ }), pos: None }
}

/// An integer as a word gives it: written in decimal.
pub open spec fn from_int(i: i64) -> ValueV {
    ValueV { data: DataV::Integer(i), lexeme: Some(int_text(i as int)), pos: None }
}

/// A string as a word gives it: written as its text.
pub open spec fn from_text(t: Seq<char>) -> ValueV {
    ValueV { data: DataV::String(t), lexeme: Some(t), pos: None }
}

/// A list of strings as a word gives it: written `[ a b ]`.
pub open spec fn from_texts(ts: Seq<Seq<char>>) -> ValueV {
    ValueV {
        data: DataV::List(ts.map_values(|t: Seq<char>| from_text(t))),
        lexeme: Some(seq!['[', ' '] + join(ts, seq![' ']) + seq![' ', ']']),
        pos: None,
    }
}

pub(crate) fn pop(stack: &mut Vec<Value>) -> (r: Result<Value, Error>)
    ensures
        values_v(old(stack)@).len() == 0 ==> values_v(final(stack)@) == values_v(old(stack)@) && r is Err
            && r->Err_0@ == underflow(),
        values_v(old(stack)@).len() > 0 ==> values_v(final(stack)@) == values_v(old(stack)@).drop_last()
            && r is Ok && r->Ok_0@ == values_v(old(stack)@).last(),
{
    proof {
        lemma_values_v(stack@);
        if stack@.len() > 0 {
            lemma_values_prefix(stack@, stack@.len() - 1);
            assert(stack@.subrange(0, stack@.len() - 1) =~= stack@.drop_last());
        }
    }
    match stack.pop() {
        Some(v) => Ok(v),
        None => Err(Error::VMError(VMError::StackUnderflow)),
    }
}

pub(crate) fn push(stack: &mut Vec<Value>, v: Value)
    ensures
        values_v(final(stack)@) == values_v(old(stack)@).push(v@),
{
    proof {
        lemma_values_push(stack@, v);
    }
    stack.push(v);
}

fn type_error(what: &str) -> (e: Error)
    ensures
        e@ == mismatch(what@),
{
    Error::VMError(VMError::TypeMismatch(string_of(what)))
}

fn text(chars: &Vec<char>) -> (v: Value)
    ensures
        v@ == text_value(chars@),
{
    Value::new(ValueData::String(string_from_chars(chars.as_slice())))
}

fn flag_value(b: bool) -> (v: Value)
    ensures
        v@ == flag(b),
{
    Value::new(ValueData::Boolean(b))
}

fn char_value(c: char) -> (v: Value)
    ensures
        v@ == bare(DataV::Char(c)),
{
    Value::new(ValueData::Char(c))
}

pub(crate) fn bool_value(b: bool) -> (v: Value)
    ensures
        v@ == from_bool(b),
{
    let lexeme = if b { string_of("true") } else { string_of("false") };
    Value { data: ValueData::Boolean(b), lexeme: Some(lexeme), pos: None }
}

pub(crate) fn int_value(i: i64) -> (v: Value)
    ensures
        v@ == from_int(i),
{
    let mut digits: Vec<char> = Vec::new();
    push_i64(&mut digits, i);
    assert(digits@ =~= int_text(i as int));
    Value { data: ValueData::Integer(i), lexeme: Some(string_from_chars(digits.as_slice())), pos: None }
}

pub(crate) fn text_from(chars: &Vec<char>) -> (v: Value)
    ensures
        v@ == from_text(chars@),
{
    Value {
        data: ValueData::String(string_from_chars(chars.as_slice())),
        lexeme: Some(string_from_chars(chars.as_slice())),
        pos: None,
    }
}

/// The characters of a string value, or `None` for any other value.
fn chars_if_string(v: &Value) -> (r: Option<Vec<char>>)
    ensures
        match str_of(v@) {
            Some(t) => r matches Some(c) && c@ == t && utf8_len(t) <= isize::MAX,
            None => r is None,
        },
{
    match &v.data {
        ValueData::String(s) => {
            let _bytes = str_byte_len(s.as_str());
            Some(chars_of_string(s))
        },
        _ => None,
    }
}

fn int_if_integer(v: &Value) -> (r: Option<i64>)
    ensures
        r == int_of(v@),
{
    match &v.data {
        ValueData::Integer(i) => Some(*i),
        _ => None,
    }
}

// ── Text ─────────────────────────────────────────────────────────────────────

/// Whether `t` ends with `p`.
pub open spec fn has_suffix(t: Seq<char>, p: Seq<char>) -> bool {
    p.len() <= t.len() && t.subrange(t.len() - p.len(), t.len() as int) == p
}

/// Whether the character `c` occurs in `t`.
pub open spec fn has_char(t: Seq<char>, c: char) -> bool {
    exists|i: int| 0 <= i < t.len() && t[i] == c
}

fn ends_with_exec(t: &Vec<char>, p: &Vec<char>) -> (r: bool)
    ensures
        r == has_suffix(t@, p@),
{
    if p.len() > t.len() {
        return false;
    }
    let d = t.len() - p.len();
    let mut i: usize = 0;
    while i < p.len()
        invariant
            d + p@.len() == t@.len(),
            t@.len() == t.len(),
            i <= p@.len(),
            forall|k: int| 0 <= k < i ==> t@[d + k] == p@[k],
        decreases p@.len() - i,
    {
        if t[d + i] != p[i] {
            assert(t@.subrange(d as int, t@.len() as int)[i as int] == t@[d + i]);
            return false;
        }
        i = i + 1;
    }
    assert(t@.subrange(d as int, t@.len() as int) =~= p@);
    true
}

fn has_char_exec(t: &Vec<char>, c: char) -> (r: bool)
    ensures
        r == has_char(t@, c),
{
    let mut i: usize = 0;
    while i < t.len()
        invariant
            i <= t@.len(),
            forall|k: int| 0 <= k < i ==> t@[k] != c,
        decreases t@.len() - i,
    {
        if t[i] == c {
            return true;
        }
        i = i + 1;
    }
    false
}

// ── Words without arguments or with one ──────────────────────────────────────

/// `<string> ( -- string )`
pub open spec fn create_string_word(s: Seq<ValueV>) -> (Seq<ValueV>, Result<(), ErrV>) {
    (s.push(text_value(seq![])), Ok(()))
}

/// `<string> ( -- string )`: pushes the empty string.
pub fn create_string(stack: &mut Vec<Value>) -> (r: Result<(), Error>)
    ensures
        outcome(final(stack)@, r) == create_string_word(values_v(old(stack)@)),
{
    let v: Vec<char> = Vec::new();
    push(stack, text(&v));
    Ok(())
}

/// `>string ( obj -- string )`
pub open spec fn to_string_word(s: Seq<ValueV>) -> (Seq<ValueV>, Result<(), ErrV>) {
    if s.len() == 0 {
        (s, Err(underflow()))
    } else {
        (s.drop_last().push(text_value(show_data(s.last().data))), Ok(()))
    }
}

/// `>string ( obj -- string )`: replaces the top value by its displayed form.
pub fn to_string(stack: &mut Vec<Value>) -> (r: Result<(), Error>)
    ensures
        outcome(final(stack)@, r) == to_string_word(values_v(old(stack)@)),
{
    let v = match pop(stack) {
        Ok(v) => v,
        Err(e) => return Err(e),
    };
    let shown = v.to_display_string();
    push(stack, Value::new(ValueData::String(shown)));
    Ok(())
}

/// A word `( str -- x )` that checks its string with the message `what`
/// and pushes `f` of it.
pub open spec fn on_text(
    s: Seq<ValueV>,
    what: Seq<char>,
    f: spec_fn(Seq<char>) -> ValueV,
) -> (Seq<ValueV>, Result<(), ErrV>) {
    if s.len() == 0 {
        (s, Err(underflow()))
    } else {
        match str_of(s.last()) {
            Some(t) => (s.drop_last().push(f(t)), Ok(())),
            None => (s.drop_last(), Err(mismatch(what))),
        }
    }
}

/// `empty? ( s -- ? )`
pub open spec fn is_empty_word(s: Seq<ValueV>) -> (Seq<ValueV>, Result<(), ErrV>) {
    on_text(s, "empty?"@, |t: Seq<char>| from_bool(t.len() == 0))
}

/// `empty? ( s -- ? )`: whether the string is empty.
pub fn is_empty(stack: &mut Vec<Value>) -> (r: Result<(), Error>)
    ensures
        outcome(final(stack)@, r) == is_empty_word(values_v(old(stack)@)),
{
    let v = match pop(stack) {
        Ok(v) => v,
        Err(e) => return Err(e),
    };
    match chars_if_string(&v) {
        Some(t) => {
            push(stack, bool_value(t.len() == 0));
            Ok(())
        },
        None => Err(type_error("empty?")),
    }
}

/// `length ( s -- l )`
pub open spec fn length_word(s: Seq<ValueV>) -> (Seq<ValueV>, Result<(), ErrV>) {
    on_text(s, "length"@, |t: Seq<char>| from_int(utf8_len(t) as i64))
}

/// `length ( s -- l )`: the length of the string in UTF-8 bytes.
pub fn length(stack: &mut Vec<Value>) -> (r: Result<(), Error>)
    ensures
        outcome(final(stack)@, r) == length_word(values_v(old(stack)@)),
{
    let v = match pop(stack) {
        Ok(v) => v,
        Err(e) => return Err(e),
    };
    match &v.data {
        ValueData::String(s) => {
            let n = str_byte_len(s.as_str());
            push(stack, int_value(n as i64));
            Ok(())
        },
        _ => Err(type_error("length")),
    }
}

// ── Words with a string and a second argument ────────────────────────────────

/// Pops `sub` and then `str` off `s`, both strings, checked with the
/// messages `what_sub` and `what_str`: the two texts, or the stack left and
/// the error.
pub open spec fn two_texts(s: Seq<ValueV>, what_sub: Seq<char>, what_str: Seq<char>) -> Result<
    (Seq<char>, Seq<char>),
    (Seq<ValueV>, ErrV),
> {
    let n = s.len();
    if n == 0 {
        Err((s, underflow()))
    } else {
        match str_of(s[n - 1]) {
            None => Err((below(s, 1), mismatch(what_sub))),
            Some(sub) => if n == 1 {
                Err((seq![], underflow()))
            } else {
                match str_of(s[n - 2]) {
                    None => Err((below(s, 2), mismatch(what_str))),
                    Some(t) => Ok((t, sub)),
                }
            },
        }
    }
}

/// A word `( str sub -- x )` that pushes `f(str, sub)`.
pub open spec fn on_two_texts(
    s: Seq<ValueV>,
    what_sub: Seq<char>,
    what_str: Seq<char>,
    f: spec_fn(Seq<char>, Seq<char>) -> ValueV,
) -> (Seq<ValueV>, Result<(), ErrV>) {
    match two_texts(s, what_sub, what_str) {
        Err((st, e)) => (st, Err(e)),
        Ok((t, sub)) => (below(s, 2).push(f(t, sub)), Ok(())),
    }
}

/// A word `( str sub -- str' | str )` that pushes `f(str, sub)` where it
/// is defined, and gives back the string value itself where it is not.
pub open spec fn or_same(
    s: Seq<ValueV>,
    what_sub: Seq<char>,
    what_str: Seq<char>,
    f: spec_fn(Seq<char>, Seq<char>) -> Option<Seq<char>>,
) -> (Seq<ValueV>, Result<(), ErrV>) {
    match two_texts(s, what_sub, what_str) {
        Err((st, e)) => (st, Err(e)),
        Ok((t, sub)) => match f(t, sub) {
            Some(u) => (below(s, 2).push(from_text(u)), Ok(())),
            None => (below(s, 2).push(s[s.len() - 2]), Ok(())),
        },
    }
}

/// Pops `sub` then `str`, both strings, checked with the given messages;
/// on success also gives back the value of `str`.
fn pop_two_texts(stack: &mut Vec<Value>, what_sub: &str, what_str: &str) -> (r: Result<
    (Vec<char>, Vec<char>, Value),
    Error,
>)
    ensures
        ({
            let s = values_v(old(stack)@);
            match two_texts(s, what_sub@, what_str@) {
                Ok((t, sub)) => r matches Ok((x, y, v)) && x@ == t && y@ == sub && v@ == s[s.len() - 2]
                    && utf8_len(t) <= isize::MAX && values_v(final(stack)@) == below(s, 2),
                Err((st, e)) => r matches Err(x) && x@ == e && values_v(final(stack)@) == st,
            }
        }),
{
    let ghost s = values_v(stack@);
    let b = match pop(stack) {
        Ok(v) => v,
        Err(e) => return Err(e),
    };
    let sub = match chars_if_string(&b) {
        Some(c) => c,
        None => {
            assert(below(s, 1) =~= s.drop_last());
            return Err(type_error(what_sub));
        },
    };
    let a = match pop(stack) {
        Ok(v) => v,
        Err(e) => {
            assert(values_v(stack@) =~= seq![]);
            return Err(e);
        },
    };
    assert(below(s, 2) =~= s.drop_last().drop_last());
    match chars_if_string(&a) {
        Some(t) => Ok((t, sub, a)),
        None => Err(type_error(what_str)),
    }
}

/// `starts-with? ( str sub -- ? )`
pub open spec fn starts_with_word(s: Seq<ValueV>) -> (Seq<ValueV>, Result<(), ErrV>) {
    on_two_texts(s, "starts-with? sub"@, "starts-with? str"@, |t: Seq<char>, p: Seq<char>| from_bool(crate::loader::starts_with(t, p)))
}

/// `starts-with? ( str sub -- ? )`: whether the string begins with `sub`.
pub fn starts_with(stack: &mut Vec<Value>) -> (r: Result<(), Error>)
    ensures
        outcome(final(stack)@, r) == starts_with_word(values_v(old(stack)@)),
{
    let (t, sub, _) = match pop_two_texts(stack, "starts-with? sub", "starts-with? str") {
        Ok(x) => x,
        Err(e) => return Err(e),
    };
    push(stack, bool_value(starts_with_exec(&t, &sub)));
    Ok(())
}

/// `ends-with? ( str sub -- ? )`
pub open spec fn ends_with_word(s: Seq<ValueV>) -> (Seq<ValueV>, Result<(), ErrV>) {
    on_two_texts(s, "ends-with? sub"@, "ends-with? str"@, |t: Seq<char>, p: Seq<char>| from_bool(has_suffix(t, p)))
}

/// `ends-with? ( str sub -- ? )`: whether the string ends with `sub`.
pub fn ends_with(stack: &mut Vec<Value>) -> (r: Result<(), Error>)
    ensures
        outcome(final(stack)@, r) == ends_with_word(values_v(old(stack)@)),
{
    let (t, sub, _) = match pop_two_texts(stack, "ends-with? sub", "ends-with? str") {
        Ok(x) => x,
        Err(e) => return Err(e),
    };
    push(stack, bool_value(ends_with_exec(&t, &sub)));
    Ok(())
}

/// The number of UTF-8 bytes in the first `k` characters of `t`.
fn prefix_bytes(t: &Vec<char>, k: usize) -> (r: usize)
    requires
        k <= t@.len(),
        utf8_len(t@) <= isize::MAX,
    ensures
        r == utf8_len(t@.take(k as int)),
{
    let mut i: usize = 0;
    let mut n: usize = 0;
    proof {
        assert(t@.take(0) =~= seq![]);
    }
    while i < k
        invariant
            i <= k <= t@.len(),
            utf8_len(t@) <= isize::MAX,
            n == utf8_len(t@.take(i as int)),
        decreases k - i,
    {
        proof {
            crate::scanner::lemma_utf8_len_prefix(t@, i + 1);
            assert(t@.take(i + 1).drop_last() =~= t@.take(i as int));
        }
        n = n + char_width(t[i]);
        i = i + 1;
    }
    n
}

/// `index-of? ( str sub -- i/#f )`
pub open spec fn index_of_word(s: Seq<ValueV>) -> (Seq<ValueV>, Result<(), ErrV>) {
    on_two_texts(
        s,
        "index-of? sub"@,
        "index-of? str"@,
        |t: Seq<char>, p: Seq<char>|
            match find_from(t, p, 0) {
                Some(k) => from_int(utf8_len(t.take(k)) as i64),
                None => from_bool(false),
            },
    )
}

/// `index-of? ( str sub -- i/#f )`: the byte position of the first
/// occurrence of `sub`, or false.
pub fn index_of(stack: &mut Vec<Value>) -> (r: Result<(), Error>)
    ensures
        outcome(final(stack)@, r) == index_of_word(values_v(old(stack)@)),
{
    let (t, sub, _) = match pop_two_texts(stack, "index-of? sub", "index-of? str") {
        Ok(x) => x,
        Err(e) => return Err(e),
    };
    match find_seq(t.as_slice(), sub.as_slice()) {
        Some(k) => {
            proof {
                lemma_find_from(t@, sub@, 0);
            }
            let b = prefix_bytes(&t, k);
            push(stack, int_value(b as i64));
        },
        None => push(stack, bool_value(false)),
    }
    Ok(())
}

/// `strip-start ( str pref -- out )`
pub open spec fn strip_start_word(s: Seq<ValueV>) -> (Seq<ValueV>, Result<(), ErrV>) {
    or_same(
        s,
        "strip-start prefix"@,
        "strip-start str"@,
        |t: Seq<char>, p: Seq<char>|
            if crate::loader::starts_with(t, p) {
                Some(t.subrange(p.len() as int, t.len() as int))
            } else {
                None
            },
    )
}

/// `strip-start ( str pref -- out )`: the string without the prefix, or
/// the string itself if it does not begin with it.
pub fn strip_start(stack: &mut Vec<Value>) -> (r: Result<(), Error>)
    ensures
        outcome(final(stack)@, r) == strip_start_word(values_v(old(stack)@)),
{
    let (t, p, v) = match pop_two_texts(stack, "strip-start prefix", "strip-start str") {
        Ok(x) => x,
        Err(e) => return Err(e),
    };
    if starts_with_exec(&t, &p) {
        let rest = crate::text::slice_to_vec(t.as_slice(), p.len(), t.len());
        push(stack, text_from(&rest));
    } else {
        push(stack, v);
    }
    Ok(())
}

/// `strip-end ( str suff -- out )`
pub open spec fn strip_end_word(s: Seq<ValueV>) -> (Seq<ValueV>, Result<(), ErrV>) {
    or_same(
        s,
        "strip-end suffix"@,
        "strip-end str"@,
        |t: Seq<char>, p: Seq<char>|
            if has_suffix(t, p) {
                Some(t.subrange(0, t.len() - p.len()))
            } else {
                None
            },
    )
}

/// `strip-end ( str suff -- out )`: the string without the suffix, or the
/// string itself if it does not end with it.
pub fn strip_end(stack: &mut Vec<Value>) -> (r: Result<(), Error>)
    ensures
        outcome(final(stack)@, r) == strip_end_word(values_v(old(stack)@)),
{
    let (t, p, v) = match pop_two_texts(stack, "strip-end suffix", "strip-end str") {
        Ok(x) => x,
        Err(e) => return Err(e),
    };
    if ends_with_exec(&t, &p) {
        let rest = crate::text::slice_to_vec(t.as_slice(), 0, t.len() - p.len());
        push(stack, text_from(&rest));
    } else {
        push(stack, v);
    }
    Ok(())
}

// ── Concatenation, characters and membership ─────────────────────────────────

/// `concat ( str1 str2 -- str1-2 )`
pub open spec fn concat_word(s: Seq<ValueV>) -> (Seq<ValueV>, Result<(), ErrV>) {
    let n = s.len();
    if n < 2 {
        (seq![], Err(underflow()))
    } else {
        match (str_of(s[n - 2]), str_of(s[n - 1])) {
            (Some(a), Some(b)) => (below(s, 2).push(text_value(a + b)), Ok(())),
            _ => (below(s, 2), Err(mismatch("string concatenation"@))),
        }
    }
}

/// `concat ( str1 str2 -- str1-2 )`: the two strings joined.
pub fn string_concat(stack: &mut Vec<Value>) -> (r: Result<(), Error>)
    ensures
        outcome(final(stack)@, r) == concat_word(values_v(old(stack)@)),
{
    let ghost s = values_v(stack@);
    let b = match pop(stack) {
        Ok(v) => v,
        Err(e) => return Err(e),
    };
    let a = match pop(stack) {
        Ok(v) => v,
        Err(e) => {
            assert(values_v(stack@) =~= seq![]);
            return Err(e);
        },
    };
    assert(below(s, 2) =~= s.drop_last().drop_last());
    match (chars_if_string(&a), chars_if_string(&b)) {
        (Some(x), Some(y)) => {
            let mut joined = x;
            crate::text::push_all(&mut joined, y.as_slice());
            push(stack, text(&joined));
            Ok(())
        },
        _ => Err(type_error("string concatenation")),
    }
}

/// `nth ( s i -- c )`
pub open spec fn nth_word(s: Seq<ValueV>) -> (Seq<ValueV>, Result<(), ErrV>) {
    let n = s.len();
    if n == 0 {
        (s, Err(underflow()))
    } else {
        match int_of(s[n - 1]) {
            None => (below(s, 1), Err(mismatch("nth index should be integer"@))),
            Some(i) => if n == 1 {
                (seq![], Err(underflow()))
            } else {
                match str_of(s[n - 2]) {
                    None => (below(s, 2), Err(mismatch("nth string"@))),
                    Some(t) => (
                        below(s, 2).push(
                            if 0 <= i < t.len() {
                                bare(DataV::Char(t[i as int]))
                            } else {
                                flag(false)
                            },
                        ),
                        Ok(()),
                    ),
                }
            },
        }
    }
}

/// `nth ( s i -- c )`: the character at position `i`, or false if there is
/// none.
pub fn nth(stack: &mut Vec<Value>) -> (r: Result<(), Error>)
    ensures
        outcome(final(stack)@, r) == nth_word(values_v(old(stack)@)),
{
    let ghost s = values_v(stack@);
    let top = match pop(stack) {
        Ok(v) => v,
        Err(e) => return Err(e),
    };
    let i = match int_if_integer(&top) {
        Some(i) => i,
        None => {
            assert(below(s, 1) =~= s.drop_last());
            return Err(type_error("nth index should be integer"));
        },
    };
    let v = match pop(stack) {
        Ok(v) => v,
        Err(e) => {
            assert(values_v(stack@) =~= seq![]);
            return Err(e);
        },
    };
    assert(below(s, 2) =~= s.drop_last().drop_last());
    let t = match chars_if_string(&v) {
        Some(t) => t,
        None => return Err(type_error("nth string")),
    };
    let len = t.len();
    if 0 <= i && (i as u64) < (len as u64) {
        let k = i as usize;
        assert(k == i && k < t@.len());
        let c = t[k];
        push(stack, char_value(c));
    } else {
        assert(!(0 <= i < t@.len()));
        push(stack, flag_value(false));
    }
    Ok(())
}

/// `in? ( haystack needle -- ? )`
pub open spec fn is_in_word(s: Seq<ValueV>) -> (Seq<ValueV>, Result<(), ErrV>) {
    let n = s.len();
    if n == 0 {
        (s, Err(underflow()))
    } else if n == 1 {
        (seq![], Err(underflow()))
    } else {
        match str_of(s[n - 2]) {
            None => (below(s, 2), Err(mismatch("in? haystack"@))),
            Some(h) => match s[n - 1].data {
                DataV::String(p) => (below(s, 2).push(from_bool(find_from(h, p, 0) is Some)), Ok(())),
                DataV::Char(c) => (below(s, 2).push(from_bool(has_char(h, c))), Ok(())),
                _ => (below(s, 2), Err(mismatch("in? needle"@))),
            },
        }
    }
}

/// `in? ( haystack needle -- ? )`: whether the string holds the needle, a
/// string or a character.
pub fn is_in(stack: &mut Vec<Value>) -> (r: Result<(), Error>)
    ensures
        outcome(final(stack)@, r) == is_in_word(values_v(old(stack)@)),
{
    let ghost s = values_v(stack@);
    let needle = match pop(stack) {
        Ok(v) => v,
        Err(e) => return Err(e),
    };
    let v = match pop(stack) {
        Ok(v) => v,
        Err(e) => {
            assert(values_v(stack@) =~= seq![]);
            return Err(e);
        },
    };
    assert(below(s, 2) =~= s.drop_last().drop_last());
    let h = match chars_if_string(&v) {
        Some(h) => h,
        None => return Err(type_error("in? haystack")),
    };
    let found = match &needle.data {
        ValueData::String(p) => {
            let pc = chars_of_string(p);
            find_seq(h.as_slice(), pc.as_slice()).is_some()
        },
        ValueData::Char(c) => has_char_exec(&h, *c),
        _ => return Err(type_error("in? needle")),
    };
    push(stack, bool_value(found));
    Ok(())
}

// ── Splitting and replacing ──────────────────────────────────────────────────

/// The texts of `parts`.
pub open spec fn seqs_v(parts: Seq<Vec<char>>) -> Seq<Seq<char>> {
    parts.map_values(|x: Vec<char>| x@)
}

fn text_list_value(parts: &Vec<Vec<char>>) -> (v: Value)
    ensures
        v@ == from_texts(seqs_v(parts@)),
{
    let mut items: Vec<Value> = Vec::new();
    let mut shown: Vec<char> = Vec::new();
    shown.push('[');
    shown.push(' ');
    let mut i: usize = 0;
    proof {
        assert(parts@.take(0) =~= seq![]);
        assert(shown@ =~= seq!['[', ' '] + join(seqs_v(parts@.take(0)), seq![' ']));
    }
    while i < parts.len()
        invariant
            i <= parts@.len(),
            values_v(items@) == seqs_v(parts@.take(i as int)).map_values(|t: Seq<char>| from_text(t)),
            shown@ == seq!['[', ' '] + join(seqs_v(parts@.take(i as int)), seq![' ']) + (if i > 0 {
                seq![' ']
            } else {
                seq![]
            }),
        decreases parts@.len() - i,
    {
        let item = text_from(&parts[i]);
        proof {
            lemma_values_push(items@, item);
        }
        items.push(item);
        crate::text::push_all(&mut shown, parts[i].as_slice());
        shown.push(' ');
        proof {
            let pre = seqs_v(parts@.take(i as int));
            let now = seqs_v(parts@.take(i + 1));
            assert(now =~= pre.push(parts@[i as int]@));
            assert(now.drop_last() =~= pre);
            assert(now.map_values(|t: Seq<char>| from_text(t)) =~= pre.map_values(|t: Seq<char>| from_text(t)).push(
                from_text(parts@[i as int]@),
            ));
            if i == 0 {
                assert(join(now, seq![' ']) == parts@[0]@);
            }
            assert(shown@ =~= seq!['[', ' '] + join(now, seq![' ']) + seq![' ']);
        }
        i = i + 1;
    }
    proof {
        assert(parts@.take(i as int) =~= parts@);
    }
    if i == 0 {
        shown.push(' ');
    }
    shown.push(']');
    proof {
        assert(shown@ =~= seq!['[', ' '] + join(seqs_v(parts@), seq![' ']) + seq![' ', ']']);
    }
    Value { data: ValueData::List(items), lexeme: Some(string_from_chars(shown.as_slice())), pos: None }
}

/// `split ( str sub -- prefix suffix/#f )`
pub open spec fn split_word(s: Seq<ValueV>) -> (Seq<ValueV>, Result<(), ErrV>) {
    match two_texts(s, "split sub"@, "split str"@) {
        Err((st, e)) => (st, Err(e)),
        Ok((t, p)) => match find_from(t, p, 0) {
            Some(k) => (
                below(s, 2).push(from_text(t.subrange(0, k))).push(
                    from_text(t.subrange(k + p.len(), t.len() as int)),
                ),
                Ok(()),
            ),
            None => (below(s, 2).push(s[s.len() - 2]).push(from_bool(false)), Ok(())),
        },
    }
}

/// `split ( str sub -- prefix suffix/#f )`: the text before and after the
/// first occurrence of `sub`; the string itself and false if there is none.
pub fn split(stack: &mut Vec<Value>) -> (r: Result<(), Error>)
    ensures
        outcome(final(stack)@, r) == split_word(values_v(old(stack)@)),
{
    let (t, p, v) = match pop_two_texts(stack, "split sub", "split str") {
        Ok(x) => x,
        Err(e) => return Err(e),
    };
    match find_seq(t.as_slice(), p.as_slice()) {
        Some(k) => {
            proof {
                lemma_find_from(t@, p@, 0);
            }
            assert(occurs_at(t@, p@, k as int));
            let before = crate::text::slice_to_vec(t.as_slice(), 0, k);
            let n = t.len();
            let after = crate::text::slice_to_vec(t.as_slice(), k + p.len(), n);
            push(stack, text_from(&before));
            push(stack, text_from(&after));
        },
        None => {
            push(stack, v);
            push(stack, bool_value(false));
        },
    }
    Ok(())
}

/// The pieces of `t` from `i` on between the occurrences of the non-empty
/// pattern `p`.
pub open spec fn pieces_from(t: Seq<char>, p: Seq<char>, i: int) -> Seq<Seq<char>>
    decreases t.len() - i,
{
    if p.len() == 0 || i < 0 || i > t.len() {
        seq![]
    } else {
        match find_from(t, p, i) {
            Some(k) => if i <= k && k + p.len() <= t.len() {
                seq![t.subrange(i, k)] + pieces_from(t, p, k + p.len())
            } else {
                seq![]
            },
            None => seq![t.subrange(i, t.len() as int)],
        }
    }
}

/// The pieces of `t` between the occurrences of `p`, as `str::split` yields
/// them; an empty pattern occurs before and after every character.
pub open spec fn split_pieces(t: Seq<char>, p: Seq<char>) -> Seq<Seq<char>> {
    if p.len() == 0 {
        seq![seq![]] + t.map_values(|c: char| seq![c]) + seq![seq![]]
    } else {
        pieces_from(t, p, 0)
    }
}

fn split_all_texts(t: &Vec<char>, p: &Vec<char>) -> (r: Vec<Vec<char>>)
    ensures
        seqs_v(r@) == split_pieces(t@, p@),
{
    let mut out: Vec<Vec<char>> = Vec::new();
    if p.len() == 0 {
        out.push(Vec::new());
        let mut i: usize = 0;
        while i < t.len()
            invariant
                i <= t@.len(),
                seqs_v(out@) == seq![seq![]] + t@.take(i as int).map_values(|c: char| seq![c]),
            decreases t@.len() - i,
        {
            let mut one: Vec<char> = Vec::new();
            one.push(t[i]);
            let ghost before = out@;
            out.push(one);
            proof {
                assert(seqs_v(out@) =~= seqs_v(before).push(one@));
                assert(one@ =~= seq![t@[i as int]]);
                assert(t@.take(i + 1).map_values(|c: char| seq![c]) =~= t@.take(i as int).map_values(
                    |c: char| seq![c],
                ).push(seq![t@[i as int]]));
                assert(seqs_v(out@) =~= seq![seq![]] + t@.take(i + 1).map_values(|c: char| seq![c]));
            }
            i = i + 1;
        }
        out.push(Vec::new());
        proof {
            assert(t@.take(i as int) =~= t@);
            assert(seqs_v(out@) =~= split_pieces(t@, p@));
        }
        return out;
    }
    let mut i: usize = 0;
    loop
        invariant
            p@.len() > 0,
            i <= t@.len(),
            split_pieces(t@, p@) == seqs_v(out@) + pieces_from(t@, p@, i as int),
        decreases t@.len() - i,
    {
        match find_seq_from_start(t, p, i) {
            Some(k) => {
                proof {
                    lemma_find_from(t@, p@, i as int);
                    assert(occurs_at(t@, p@, k as int));
                }
                let piece = crate::text::slice_to_vec(t.as_slice(), i, k);
                let ghost rest = pieces_from(t@, p@, k + p@.len());
                proof {
                    assert(pieces_from(t@, p@, i as int) == seq![piece@] + rest);
                    assert(seqs_v(out@.push(piece)) =~= seqs_v(out@).push(piece@));
                    assert(seqs_v(out@) + (seq![piece@] + rest) =~= seqs_v(out@).push(piece@) + rest);
                }
                out.push(piece);
                let n = t.len();
                i = k + p.len();
            },
            None => {
                let piece = crate::text::slice_to_vec(t.as_slice(), i, t.len());
                proof {
                    assert(seqs_v(out@.push(piece)) =~= seqs_v(out@).push(piece@));
                    assert(seqs_v(out@) + seq![piece@] =~= seqs_v(out@).push(piece@));
                }
                out.push(piece);
                return out;
            },
        }
    }
}

fn find_seq_from_start(t: &Vec<char>, p: &Vec<char>, i: usize) -> (r: Option<usize>)
    ensures
        r matches Some(k) ==> find_from(t@, p@, i as int) == Some(k as int),
        r is None ==> find_from(t@, p@, i as int) is None,
{
    crate::text::find_seq_from(t.as_slice(), p.as_slice(), i)
}

/// `split-all ( str sub -- vec )`
pub open spec fn split_all_word(s: Seq<ValueV>) -> (Seq<ValueV>, Result<(), ErrV>) {
    on_two_texts(s, "split-all sub"@, "split-all str"@, |t: Seq<char>, p: Seq<char>| from_texts(split_pieces(t, p)))
}

/// `split-all ( str sub -- vec )`: the pieces between the occurrences of
/// `sub`.
pub fn split_all(stack: &mut Vec<Value>) -> (r: Result<(), Error>)
    ensures
        outcome(final(stack)@, r) == split_all_word(values_v(old(stack)@)),
{
    let (t, p, _) = match pop_two_texts(stack, "split-all sub", "split-all str") {
        Ok(x) => x,
        Err(e) => return Err(e),
    };
    let parts = split_all_texts(&t, &p);
    push(stack, text_list_value(&parts));
    Ok(())
}

/// `r` before, between and after the characters of `t`: what replacing
/// the empty pattern by `r` gives.
pub open spec fn interleave(t: Seq<char>, r: Seq<char>) -> Seq<char>
    decreases t.len(),
{
    if t.len() == 0 {
        r
    } else {
        interleave(t.drop_last(), r) + seq![t.last()] + r
    }
}

/// `t` from `i` on with each occurrence of the non-empty pattern `p`,
/// scanning left to right without overlaps, replaced by `r`.
pub open spec fn replace_from(t: Seq<char>, p: Seq<char>, r: Seq<char>, i: int) -> Seq<char>
    decreases t.len() - i,
{
    if p.len() == 0 || i < 0 || i > t.len() {
        seq![]
    } else {
        match find_from(t, p, i) {
            Some(k) => if i <= k && k + p.len() <= t.len() {
                t.subrange(i, k) + r + replace_from(t, p, r, k + p.len())
            } else {
                seq![]
            },
            None => t.subrange(i, t.len() as int),
        }
    }
}

/// `t` with every occurrence of `p` replaced by `r`, as `str::replace`
/// gives it.
pub open spec fn replace_all_text(t: Seq<char>, p: Seq<char>, r: Seq<char>) -> Seq<char> {
    if p.len() == 0 {
        interleave(t, r)
    } else {
        replace_from(t, p, r, 0)
    }
}

fn replace_all_chars(t: &Vec<char>, p: &Vec<char>, r: &Vec<char>) -> (out: Vec<char>)
    ensures
        out@ == replace_all_text(t@, p@, r@),
{
    let mut out: Vec<char> = Vec::new();
    if p.len() == 0 {
        crate::text::push_all(&mut out, r.as_slice());
        let mut i: usize = 0;
        proof {
            assert(t@.take(0) =~= seq![]);
        }
        while i < t.len()
            invariant
                i <= t@.len(),
                out@ == interleave(t@.take(i as int), r@),
            decreases t@.len() - i,
        {
            out.push(t[i]);
            crate::text::push_all(&mut out, r.as_slice());
            proof {
                assert(t@.take(i + 1).drop_last() =~= t@.take(i as int));
            }
            i = i + 1;
        }
        proof {
            assert(t@.take(i as int) =~= t@);
        }
        return out;
    }
    let mut i: usize = 0;
    loop
        invariant
            p@.len() > 0,
            i <= t@.len(),
            replace_all_text(t@, p@, r@) == out@ + replace_from(t@, p@, r@, i as int),
        decreases t@.len() - i,
    {
        match find_seq_from_start(t, p, i) {
            Some(k) => {
                proof {
                    lemma_find_from(t@, p@, i as int);
                    assert(occurs_at(t@, p@, k as int));
                }
                let piece = crate::text::slice_to_vec(t.as_slice(), i, k);
                let ghost o = out@;
                crate::text::push_all(&mut out, piece.as_slice());
                crate::text::push_all(&mut out, r.as_slice());
                proof {
                    assert(o + (piece@ + r@ + replace_from(t@, p@, r@, k + p@.len())) =~= out@ + replace_from(
                        t@,
                        p@,
                        r@,
                        k + p@.len(),
                    ));
                }
                let n = t.len();
                i = k + p.len();
            },
            None => {
                let n = t.len();
                let piece = crate::text::slice_to_vec(t.as_slice(), i, n);
                crate::text::push_all(&mut out, piece.as_slice());
                return out;
            },
        }
    }
}

/// `replace-all ( str find repl -- out )`
pub open spec fn replace_all_word(s: Seq<ValueV>) -> (Seq<ValueV>, Result<(), ErrV>) {
    let n = s.len();
    if n == 0 {
        (s, Err(underflow()))
    } else {
        match str_of(s[n - 1]) {
            None => (below(s, 1), Err(mismatch("replace-all replace"@))),
            Some(r) => match two_texts(below(s, 1), "replace-all target"@, "replace-all str"@) {
                Err((st, e)) => (st, Err(e)),
                Ok((t, p)) => (below(s, 3).push(from_text(replace_all_text(t, p, r))), Ok(())),
            },
        }
    }
}

/// `replace-all ( str find repl -- out )`: the string with every
/// occurrence of `find` replaced by `repl`.
pub fn replace_all(stack: &mut Vec<Value>) -> (r: Result<(), Error>)
    ensures
        outcome(final(stack)@, r) == replace_all_word(values_v(old(stack)@)),
{
    let ghost s = values_v(stack@);
    let top = match pop(stack) {
        Ok(v) => v,
        Err(e) => return Err(e),
    };
    let repl = match chars_if_string(&top) {
        Some(c) => c,
        None => {
            assert(below(s, 1) =~= s.drop_last());
            return Err(type_error("replace-all replace"));
        },
    };
    assert(below(s, 1) =~= s.drop_last());
    let (t, p, _) = match pop_two_texts(stack, "replace-all target", "replace-all str") {
        Ok(x) => x,
        Err(e) => return Err(e),
    };
    assert(below(below(s, 1), 2) =~= below(s, 3));
    let out = replace_all_chars(&t, &p, &repl);
    push(stack, text_from(&out));
    Ok(())
}

/// `l` without a carriage return at its end.
pub open spec fn strip_cr(l: Seq<char>) -> Seq<char> {
    if l.len() > 0 && l.last() == '\r' {
        l.drop_last()
    } else {
        l
    }
}

/// The lines of `t` from `i` on, as `str::lines` yields them: split at each
/// `\n`, a `\r` before it dropped, and no empty line after a last `\n`.
pub open spec fn lines_from(t: Seq<char>, i: int) -> Seq<Seq<char>>
    decreases t.len() - i,
{
    if i < 0 || i >= t.len() {
        seq![]
    } else {
        match find_from(t, seq!['\n'], i) {
            Some(k) => if i <= k < t.len() {
                seq![strip_cr(t.subrange(i, k))] + lines_from(t, k + 1)
            } else {
                seq![]
            },
            None => seq![t.subrange(i, t.len() as int)],
        }
    }
}

fn lines_of(t: &Vec<char>) -> (r: Vec<Vec<char>>)
    ensures
        seqs_v(r@) == lines_from(t@, 0),
{
    let mut nl: Vec<char> = Vec::new();
    nl.push('\n');
    assert(nl@ =~= seq!['\n']);
    let mut out: Vec<Vec<char>> = Vec::new();
    let mut i: usize = 0;
    while i < t.len()
        invariant
            nl@ == seq!['\n'],
            i <= t@.len(),
            lines_from(t@, 0) == seqs_v(out@) + lines_from(t@, i as int),
        decreases t@.len() - i,
    {
        match find_seq_from_start(t, &nl, i) {
            Some(k) => {
                proof {
                    lemma_find_from(t@, nl@, i as int);
                    assert(occurs_at(t@, nl@, k as int));
                }
                let mut line = crate::text::slice_to_vec(t.as_slice(), i, k);
                if line.len() > 0 && line[line.len() - 1] == '\r' {
                    line.pop();
                }
                proof {
                    assert(line@ == strip_cr(t@.subrange(i as int, k as int)));
                    assert(seqs_v(out@.push(line)) =~= seqs_v(out@).push(line@));
                    assert(seqs_v(out@) + (seq![line@] + lines_from(t@, k + 1)) =~= seqs_v(out@).push(line@)
                        + lines_from(t@, k + 1));
                }
                out.push(line);
                i = k + 1;
            },
            None => {
                let n = t.len();
                let line = crate::text::slice_to_vec(t.as_slice(), i, n);
                proof {
                    assert(seqs_v(out@.push(line)) =~= seqs_v(out@).push(line@));
                    assert(seqs_v(out@) + seq![line@] =~= seqs_v(out@).push(line@));
                }
                out.push(line);
                return out;
            },
        }
    }
    proof {
        assert(seqs_v(out@) + seq![] =~= seqs_v(out@));
    }
    out
}

/// `lines ( str -- vec )`
pub open spec fn lines_word(s: Seq<ValueV>) -> (Seq<ValueV>, Result<(), ErrV>) {
    on_text(s, "lines"@, |t: Seq<char>| from_texts(lines_from(t, 0)))
}

/// `lines ( str -- vec )`: the lines of the string.
pub fn lines(stack: &mut Vec<Value>) -> (r: Result<(), Error>)
    ensures
        outcome(final(stack)@, r) == lines_word(values_v(old(stack)@)),
{
    let v = match pop(stack) {
        Ok(v) => v,
        Err(e) => return Err(e),
    };
    match chars_if_string(&v) {
        Some(t) => {
            let parts = lines_of(&t);
            push(stack, text_list_value(&parts));
            Ok(())
        },
        None => Err(type_error("lines")),
    }
}

/// `split-whitespace ( str -- vec )`
pub open spec fn split_whitespace_word(s: Seq<ValueV>) -> (Seq<ValueV>, Result<(), ErrV>) {
    on_text(s, "split-whitespace"@, |t: Seq<char>| from_texts(words(t)))
}

/// `split-whitespace ( str -- vec )`: the words of the string, split at
/// runs of whitespace.
pub fn split_whitespace(stack: &mut Vec<Value>) -> (r: Result<(), Error>)
    ensures
        outcome(final(stack)@, r) == split_whitespace_word(values_v(old(stack)@)),
{
    let v = match pop(stack) {
        Ok(v) => v,
        Err(e) => return Err(e),
    };
    match chars_if_string(&v) {
        Some(t) => {
            let parts = split_words(t.as_slice());
            proof {
                assert(seqs_v(parts@) =~= words(t@));
            }
            push(stack, text_list_value(&parts));
            Ok(())
        },
        None => Err(type_error("split-whitespace")),
    }
}

// ── Byte positions ───────────────────────────────────────────────────────────

/// The number of characters of `t`, counted from `k` on, whose UTF-8 bytes
/// come to exactly `b`, if `b` falls between two characters.
pub open spec fn chars_in_bytes(t: Seq<char>, b: int, k: int) -> Option<int>
    decreases t.len() - k,
{
    if k < 0 || k > t.len() {
        None
    } else if utf8_len(t.take(k)) == b {
        Some(k)
    } else if utf8_len(t.take(k)) > b || k == t.len() {
        None
    } else {
        chars_in_bytes(t, b, k + 1)
    }
}

/// The number of characters in the first `b` bytes of `t`, if byte `b`
/// falls between two characters.
pub open spec fn char_boundary(t: Seq<char>, b: int) -> Option<int> {
    chars_in_bytes(t, b, 0)
}

pub proof fn lemma_utf8_take_step(t: Seq<char>, k: int)
    requires
        0 <= k < t.len(),
    ensures
        utf8_len(t.take(k + 1)) == utf8_len(t.take(k)) + utf8_width(t[k]),
        utf8_width(t[k]) >= 1,
{
    assert(t.take(k + 1).drop_last() =~= t.take(k));
}

pub proof fn lemma_chars_in_bytes(t: Seq<char>, b: int, k: int)
    requires
        0 <= k <= t.len(),
    ensures
        chars_in_bytes(t, b, k) matches Some(j) ==> k <= j <= t.len() && utf8_len(t.take(j)) == b,
    decreases t.len() - k,
{
    if utf8_len(t.take(k)) != b && utf8_len(t.take(k)) < b && k < t.len() {
        lemma_chars_in_bytes(t, b, k + 1);
    }
}

/// The byte count of a prefix grows with the prefix.
pub proof fn lemma_utf8_take_increasing(t: Seq<char>, j: int, k: int)
    requires
        0 <= j < k <= t.len(),
    ensures
        utf8_len(t.take(j)) < utf8_len(t.take(k)),
    decreases k - j,
{
    lemma_utf8_take_step(t, k - 1);
    if j < k - 1 {
        lemma_utf8_take_increasing(t, j, k - 1);
    }
}

fn char_boundary_exec(t: &Vec<char>, b: usize) -> (r: Option<usize>)
    requires
        utf8_len(t@) <= isize::MAX,
    ensures
        r matches Some(k) ==> char_boundary(t@, b as int) == Some(k as int),
        r is None ==> char_boundary(t@, b as int) is None,
{
    let mut k: usize = 0;
    let mut acc: usize = 0;
    proof {
        assert(t@.take(0) =~= seq![]);
    }
    while k < t.len() && acc < b
        invariant
            k <= t@.len(),
            utf8_len(t@) <= isize::MAX,
            acc == utf8_len(t@.take(k as int)),
            char_boundary(t@, b as int) == chars_in_bytes(t@, b as int, k as int),
        decreases t@.len() - k,
    {
        proof {
            lemma_utf8_take_step(t@, k as int);
            crate::scanner::lemma_utf8_len_prefix(t@, k + 1);
        }
        acc = acc + char_width(t[k]);
        k = k + 1;
    }
    if acc == b {
        Some(k)
    } else {
        None
    }
}

/// Whether `split-at` is defined on `s`: an index within the string's bytes
/// falls between two characters (elsewhere Rust's `str::split_at` panics).
pub open spec fn split_at_defined(s: Seq<ValueV>) -> bool {
    let n = s.len();
    n >= 2 ==> match (str_of(s[n - 2]), int_of(s[n - 1])) {
        (Some(t), Some(i)) => 0 <= i <= utf8_len(t) ==> char_boundary(t, i as int) is Some,
        _ => true,
    }
}

/// `split-at ( str i -- prefix suffix/#f )`
pub open spec fn split_at_word(s: Seq<ValueV>) -> (Seq<ValueV>, Result<(), ErrV>) {
    let n = s.len();
    if n == 0 {
        (s, Err(underflow()))
    } else {
        match int_of(s[n - 1]) {
            None => (below(s, 1), Err(mismatch("split-at index"@))),
            Some(i) => if n == 1 {
                (seq![], Err(underflow()))
            } else {
                match str_of(s[n - 2]) {
                    None => (below(s, 2), Err(mismatch("split-at str"@))),
                    Some(t) => if 0 <= i <= utf8_len(t) {
                        let k = char_boundary(t, i as int)->0;
                        (
                            below(s, 2).push(from_text(t.take(k))).push(
                                from_text(t.subrange(k, t.len() as int)),
                            ),
                            Ok(()),
                        )
                    } else {
                        (below(s, 2).push(s[n - 2]).push(from_bool(false)), Ok(()))
                    },
                }
            },
        }
    }
}

/// `split-at ( str i -- prefix suffix/#f )`: the string split at byte `i`;
/// the string itself and false if `i` lies past its end.
pub fn split_at(stack: &mut Vec<Value>) -> (r: Result<(), Error>)
    requires
        split_at_defined(values_v(old(stack)@)),
    ensures
        outcome(final(stack)@, r) == split_at_word(values_v(old(stack)@)),
{
    let ghost s = values_v(stack@);
    let top = match pop(stack) {
        Ok(v) => v,
        Err(e) => return Err(e),
    };
    let i = match int_if_integer(&top) {
        Some(i) => i,
        None => {
            assert(below(s, 1) =~= s.drop_last());
            return Err(type_error("split-at index"));
        },
    };
    let v = match pop(stack) {
        Ok(v) => v,
        Err(e) => {
            assert(values_v(stack@) =~= seq![]);
            return Err(e);
        },
    };
    assert(below(s, 2) =~= s.drop_last().drop_last());
    let t = match chars_if_string(&v) {
        Some(t) => t,
        None => return Err(type_error("split-at str")),
    };
    let total = match &v.data {
        ValueData::String(x) => str_byte_len(x.as_str()),
        _ => 0,
    };
    if 0 <= i && (i as u64) <= (total as u64) {
        let b = i as usize;
        match char_boundary_exec(&t, b) {
            Some(k) => {
                proof {
                    lemma_chars_in_bytes(t@, b as int, 0);
                }
                let n = t.len();
                let before = crate::text::slice_to_vec(t.as_slice(), 0, k);
                let after = crate::text::slice_to_vec(t.as_slice(), k, n);
                assert(before@ =~= t@.take(k as int));
                push(stack, text_from(&before));
                push(stack, text_from(&after));
            },
            None => {
                assert(false);
            },
        }
    } else {
        push(stack, v);
        push(stack, bool_value(false));
    }
    Ok(())
}

/// Whether `substring` is defined on `s`: the start lies at or before the
/// end, and both fall between two characters of the string (elsewhere
/// Rust's string slicing panics).
pub open spec fn substring_defined(s: Seq<ValueV>) -> bool {
    let n = s.len();
    n >= 3 ==> match (str_of(s[n - 3]), int_of(s[n - 2]), int_of(s[n - 1])) {
        (Some(t), Some(a), Some(b)) => 0 <= a <= b && char_boundary(t, a as int) is Some
            && char_boundary(t, b as int) is Some,
        _ => true,
    }
}

/// `substring ( str start end -- sub )`
pub open spec fn substring_word(s: Seq<ValueV>) -> (Seq<ValueV>, Result<(), ErrV>) {
    let n = s.len();
    if n == 0 {
        (s, Err(underflow()))
    } else {
        match int_of(s[n - 1]) {
            None => (below(s, 1), Err(mismatch("substring end"@))),
            Some(b) => if n == 1 {
                (seq![], Err(underflow()))
            } else {
                match int_of(s[n - 2]) {
                    None => (below(s, 2), Err(mismatch("substring start"@))),
                    Some(a) => if n == 2 {
                        (seq![], Err(underflow()))
                    } else {
                        match str_of(s[n - 3]) {
                            None => (below(s, 3), Err(mismatch("substring str"@))),
                            Some(t) => (
                                below(s, 3).push(
                                    from_text(
                                        t.subrange(
                                            char_boundary(t, a as int)->0,
                                            char_boundary(t, b as int)->0,
                                        ),
                                    ),
                                ),
                                Ok(()),
                            ),
                        }
                    },
                }
            },
        }
    }
}

/// `substring ( str start end -- sub )`: the bytes from `start` up to `end`.
pub fn substring(stack: &mut Vec<Value>) -> (r: Result<(), Error>)
    requires
        substring_defined(values_v(old(stack)@)),
    ensures
        outcome(final(stack)@, r) == substring_word(values_v(old(stack)@)),
{
    let ghost s = values_v(stack@);
    let top = match pop(stack) {
        Ok(v) => v,
        Err(e) => return Err(e),
    };
    let b = match int_if_integer(&top) {
        Some(i) => i,
        None => {
            assert(below(s, 1) =~= s.drop_last());
            return Err(type_error("substring end"));
        },
    };
    let second = match pop(stack) {
        Ok(v) => v,
        Err(e) => {
            assert(values_v(stack@) =~= seq![]);
            return Err(e);
        },
    };
    assert(below(s, 2) =~= s.drop_last().drop_last());
    let a = match int_if_integer(&second) {
        Some(i) => i,
        None => return Err(type_error("substring start")),
    };
    let v = match pop(stack) {
        Ok(v) => v,
        Err(e) => {
            assert(values_v(stack@) =~= seq![]);
            return Err(e);
        },
    };
    assert(below(s, 3) =~= s.drop_last().drop_last().drop_last());
    let t = match chars_if_string(&v) {
        Some(t) => t,
        None => return Err(type_error("substring str")),
    };
    proof {
        lemma_chars_in_bytes(t@, a as int, 0);
        lemma_chars_in_bytes(t@, b as int, 0);
        crate::scanner::lemma_utf8_len_prefix(t@, char_boundary(t@, a as int)->0);
        crate::scanner::lemma_utf8_len_prefix(t@, char_boundary(t@, b as int)->0);
        assert(0 <= a <= isize::MAX && 0 <= b <= isize::MAX);
    }
    let ka = match char_boundary_exec(&t, a as usize) {
        Some(k) => k,
        None => {
            assert(false);
            0
        },
    };
    let kb = match char_boundary_exec(&t, b as usize) {
        Some(k) => k,
        None => {
            assert(false);
            0
        },
    };
    proof {
        lemma_chars_in_bytes(t@, a as int, 0);
        lemma_chars_in_bytes(t@, b as int, 0);
        if ka > kb {
            lemma_utf8_take_increasing(t@, kb as int, ka as int);
        }
    }
    let piece = crate::text::slice_to_vec(t.as_slice(), ka, kb);
    push(stack, text_from(&piece));
    Ok(())
}

// ── Case ─────────────────────────────────────────────────────────────────────

/// The lowercase form of `t` under Unicode's case mapping.
pub uninterp spec fn lowercase(t: Seq<char>) -> Seq<char>;

/// The uppercase form of `t` under Unicode's case mapping.
pub uninterp spec fn uppercase(t: Seq<char>) -> Seq<char>;

/// `str::to_lowercase`: its result is named `lowercase` of the text; the
/// Unicode case tables it follows are not restated here.
#[verifier::external_body]
fn str_to_lowercase(s: &str) -> (r: String)
    ensures
        r@ == lowercase(s@),
{
    s.to_lowercase()
}

/// `str::to_uppercase`: its result is named `uppercase` of the text; the
/// Unicode case tables it follows are not restated here.
#[verifier::external_body]
fn str_to_uppercase(s: &str) -> (r: String)
    ensures
        r@ == uppercase(s@),
{
    s.to_uppercase()
}

/// `>lowercase ( s -- s' )`
pub open spec fn to_lowercase_word(s: Seq<ValueV>) -> (Seq<ValueV>, Result<(), ErrV>) {
    on_text(s, ">lowercase"@, |t: Seq<char>| from_text(lowercase(t)))
}

/// `>lowercase ( s -- s' )`: the string in lowercase.
pub fn to_lowercase(stack: &mut Vec<Value>) -> (r: Result<(), Error>)
    ensures
        outcome(final(stack)@, r) == to_lowercase_word(values_v(old(stack)@)),
{
    let v = match pop(stack) {
        Ok(v) => v,
        Err(e) => return Err(e),
    };
    match &v.data {
        ValueData::String(x) => {
            let lower = str_to_lowercase(x.as_str());
            let chars = chars_of_string(&lower);
            push(stack, text_from(&chars));
            Ok(())
        },
        _ => Err(type_error(">lowercase")),
    }
}

/// `>uppercase ( s -- s' )`
pub open spec fn to_uppercase_word(s: Seq<ValueV>) -> (Seq<ValueV>, Result<(), ErrV>) {
    on_text(s, ">uppercase"@, |t: Seq<char>| from_text(uppercase(t)))
}

/// `>uppercase ( s -- s' )`: the string in uppercase.
pub fn to_uppercase(stack: &mut Vec<Value>) -> (r: Result<(), Error>)
    ensures
        outcome(final(stack)@, r) == to_uppercase_word(values_v(old(stack)@)),
{
    let v = match pop(stack) {
        Ok(v) => v,
        Err(e) => return Err(e),
    };
    match &v.data {
        ValueData::String(x) => {
            let upper = str_to_uppercase(x.as_str());
            let chars = chars_of_string(&upper);
            push(stack, text_from(&chars));
            Ok(())
        },
        _ => Err(type_error(">uppercase")),
    }
}

// ── UTF-8 ────────────────────────────────────────────────────────────────────

/// The UTF-8 encoding of `c`.
pub open spec fn utf8_char(c: char) -> Seq<u8> {
    let u = c as int;
    if u < 0x80 {
        seq![u as u8]
    } else if u < 0x800 {
        seq![(0xC0 + u / 64) as u8, (0x80 + u % 64) as u8]
    } else if u < 0x10000 {
        seq![(0xE0 + u / 4096) as u8, (0x80 + (u / 64) % 64) as u8, (0x80 + u % 64) as u8]
    } else {
        seq![
            (0xF0 + u / 262144) as u8,
            (0x80 + (u / 4096) % 64) as u8,
            (0x80 + (u / 64) % 64) as u8,
            (0x80 + u % 64) as u8,
        ]
    }
}

/// The UTF-8 encoding of `t`.
pub open spec fn utf8_bytes(t: Seq<char>) -> Seq<u8>
    decreases t.len(),
{
    if t.len() == 0 {
        seq![]
    } else {
        utf8_bytes(t.drop_last()) + utf8_char(t.last())
    }
}

/// Whether `b` continues a character in UTF-8 (`10xxxxxx`).
pub open spec fn continuation(b: u8) -> bool {
    0x80 <= b < 0xC0
}

/// The code point that the UTF-8 bytes `e` of one character stand for.
pub open spec fn decode_one(e: Seq<u8>) -> int {
    if e.len() == 1 {
        e[0] as int
    } else if e.len() == 2 {
        (e[0] - 0xC0) * 64 + (e[1] - 0x80)
    } else if e.len() == 3 {
        (e[0] - 0xE0) * 4096 + (e[1] - 0x80) * 64 + (e[2] - 0x80)
    } else {
        (e[0] - 0xF0) * 262144 + (e[1] - 0x80) * 4096 + (e[2] - 0x80) * 64 + (e[3] - 0x80)
    }
}

pub proof fn lemma_utf8_char(c: char)
    ensures
        utf8_char(c).len() == utf8_width(c),
        !continuation(utf8_char(c)[0]),
        forall|k: int| 1 <= k < utf8_char(c).len() ==> continuation(#[trigger] utf8_char(c)[k]),
        decode_one(utf8_char(c)) == c as int,
{
    let u = c as int;
    assert(0 <= u <= 0x10FFFF);
    assert(u == 64 * (u / 64) + u % 64);
    assert(u / 64 == 64 * (u / 4096) + (u / 64) % 64);
    assert(u / 4096 == 64 * (u / 262144) + (u / 4096) % 64);
}

pub proof fn lemma_utf8_bytes_len(t: Seq<char>)
    ensures
        utf8_bytes(t).len() == utf8_len(t),
        t.len() > 0 ==> utf8_bytes(t).len() > 0,
    decreases t.len(),
{
    if t.len() > 0 {
        lemma_utf8_bytes_len(t.drop_last());
        lemma_utf8_char(t.last());
    }
}

/// Different texts have different UTF-8 encodings.
pub proof fn lemma_utf8_bytes_injective(a: Seq<char>, b: Seq<char>)
    requires
        utf8_bytes(a) == utf8_bytes(b),
    ensures
        a == b,
    decreases a.len() + b.len(),
{
    lemma_utf8_bytes_len(a);
    lemma_utf8_bytes_len(b);
    if a.len() == 0 || b.len() == 0 {
        assert(a.len() == 0 && b.len() == 0);
        assert(a =~= b);
    } else {
        let ea = utf8_char(a.last());
        let eb = utf8_char(b.last());
        let pa = utf8_bytes(a.drop_last());
        let pb = utf8_bytes(b.drop_last());
        let whole = utf8_bytes(a);
        let n = whole.len();
        lemma_utf8_char(a.last());
        lemma_utf8_char(b.last());
        assert(whole == pa + ea);
        assert(whole == pb + eb);
        if ea.len() < eb.len() {
            let k = eb.len() - ea.len();
            assert(whole[n - ea.len()] == ea[0]);
            assert(whole[n - ea.len()] == eb[k]);
            assert(continuation(eb[k]));
        } else if eb.len() < ea.len() {
            let k = ea.len() - eb.len();
            assert(whole[n - eb.len()] == eb[0]);
            assert(whole[n - eb.len()] == ea[k]);
            assert(continuation(ea[k]));
        } else {
            assert(ea =~= whole.subrange(n - ea.len(), n as int));
            assert(eb =~= whole.subrange(n - eb.len(), n as int));
            assert(a.last() as int == b.last() as int);
            assert(pa =~= whole.subrange(0, n - ea.len()));
            assert(pb =~= whole.subrange(0, n - eb.len()));
            lemma_utf8_bytes_injective(a.drop_last(), b.drop_last());
            assert(a =~= a.drop_last().push(a.last()));
            assert(b =~= b.drop_last().push(b.last()));
        }
    }
}

/// The text whose UTF-8 encoding is `bs`, if there is one.
pub open spec fn utf8_decode(bs: Seq<u8>) -> Option<Seq<char>> {
    if exists|t: Seq<char>| utf8_bytes(t) == bs {
        Some(choose|t: Seq<char>| utf8_bytes(t) == bs)
    } else {
        None
    }
}

fn push_utf8_char(out: &mut Vec<u8>, c: char)
    ensures
        final(out)@ == old(out)@ + utf8_char(c),
{
    let u = c as u32;
    if u < 0x80 {
        out.push(u as u8);
    } else if u < 0x800 {
        out.push((0xC0 + u / 64) as u8);
        out.push((0x80 + u % 64) as u8);
    } else if u < 0x10000 {
        out.push((0xE0 + u / 4096) as u8);
        out.push((0x80 + (u / 64) % 64) as u8);
        out.push((0x80 + u % 64) as u8);
    } else {
        out.push((0xF0 + u / 262144) as u8);
        out.push((0x80 + (u / 4096) % 64) as u8);
        out.push((0x80 + (u / 64) % 64) as u8);
        out.push((0x80 + u % 64) as u8);
    }
    assert(final(out)@ =~= old(out)@ + utf8_char(c));
}

fn utf8_of(t: &Vec<char>) -> (r: Vec<u8>)
    ensures
        r@ == utf8_bytes(t@),
{
    let mut out: Vec<u8> = Vec::new();
    let mut i: usize = 0;
    proof {
        assert(t@.take(0) =~= seq![]);
    }
    while i < t.len()
        invariant
            i <= t@.len(),
            out@ == utf8_bytes(t@.take(i as int)),
        decreases t@.len() - i,
    {
        push_utf8_char(&mut out, t[i]);
        proof {
            assert(t@.take(i + 1).drop_last() =~= t@.take(i as int));
        }
        i = i + 1;
    }
    proof {
        assert(t@.take(i as int) =~= t@);
    }
    out
}

/// `String::from_utf8`: the string whose UTF-8 encoding is `bytes`; none
/// where the bytes are not valid UTF-8.
#[verifier::external_body]
fn string_from_utf8(bytes: Vec<u8>) -> (r: Option<String>)
    ensures
        r matches Some(s) ==> utf8_bytes(s@) == bytes@,
        r is None ==> forall|t: Seq<char>| utf8_bytes(t) != bytes@,
{
    String::from_utf8(bytes).ok()
}

/// The bytes a list holds, if each of its values is an integer from 0 to
/// 255.
pub open spec fn byte_items(vs: Seq<ValueV>) -> Option<Seq<u8>> {
    if forall|i: int| 0 <= i < vs.len() ==> (#[trigger] int_of(vs[i]) matches Some(n) && 0 <= n <= 255) {
        Some(Seq::new(vs.len(), |i: int| int_of(vs[i])->0 as u8))
    } else {
        None
    }
}

proof fn lemma_not_bytes(vs: Seq<ValueV>, i: int)
    requires
        0 <= i < vs.len(),
        !(int_of(vs[i]) matches Some(n) && 0 <= n <= 255),
    ensures
        byte_items(vs) is None,
{
}

/// `utf8>string ( vec -- string )`
pub open spec fn utf8_to_string_word(s: Seq<ValueV>) -> (Seq<ValueV>, Result<(), ErrV>) {
    if s.len() == 0 {
        (s, Err(underflow()))
    } else {
        match s.last().data {
            DataV::List(vs) => match byte_items(vs) {
                None => (s.drop_last(), Err(mismatch("UTF-8 byte value"@))),
                Some(bs) => match utf8_decode(bs) {
                    Some(t) => (s.drop_last().push(text_value(t)), Ok(())),
                    None => (s.drop_last(), Err(mismatch("invalid UTF-8 sequence"@))),
                },
            },
            _ => (s.drop_last(), Err(mismatch("list of bytes"@))),
        }
    }
}

/// `utf8>string ( vec -- string )`: the string that a list of UTF-8 bytes
/// encodes.
pub fn utf8_to_string(stack: &mut Vec<Value>) -> (r: Result<(), Error>)
    ensures
        outcome(final(stack)@, r) == utf8_to_string_word(values_v(old(stack)@)),
{
    let v = match pop(stack) {
        Ok(v) => v,
        Err(e) => return Err(e),
    };
    let items = match &v.data {
        ValueData::List(items) => items,
        _ => return Err(type_error("list of bytes")),
    };
    let ghost vs = values_v(items@);
    proof {
        lemma_values_v(items@);
    }
    let mut bytes: Vec<u8> = Vec::new();
    let mut i: usize = 0;
    while i < items.len()
        invariant
            i <= items@.len(),
            vs == values_v(items@),
            values_v(old(stack)@).len() > 0,
            values_v(stack@) == values_v(old(stack)@).drop_last(),
            values_v(old(stack)@).last().data == DataV::List(vs),
            vs.len() == items@.len(),
            forall|k: int| 0 <= k < items@.len() ==> vs[k] == (#[trigger] items@[k])@,
            bytes@.len() == i,
            forall|k: int| 0 <= k < i ==> (#[trigger] int_of(vs[k]) matches Some(n) && 0 <= n <= 255),
            forall|k: int| 0 <= k < i ==> bytes@[k] == #[trigger] int_of(vs[k])->0 as u8,
        decreases items@.len() - i,
    {
        match int_if_integer(&items[i]) {
            Some(n) => {
                if 0 <= n && n <= 255 {
                    bytes.push(n as u8);
                } else {
                    proof {
                        lemma_not_bytes(vs, i as int);
                    }
                    return Err(type_error("UTF-8 byte value"));
                }
            },
            None => {
                proof {
                    lemma_not_bytes(vs, i as int);
                }
                return Err(type_error("UTF-8 byte value"));
            },
        }
        i = i + 1;
    }
    proof {
        assert(byte_items(vs) == Some(bytes@)) by {
            assert(Seq::new(vs.len(), |k: int| int_of(vs[k])->0 as u8) =~= bytes@);
        }
    }
    let ghost bs = bytes@;
    match string_from_utf8(bytes) {
        Some(text_string) => {
            proof {
                let t = choose|t: Seq<char>| utf8_bytes(t) == bs;
                assert(utf8_bytes(text_string@) == bs);
                lemma_utf8_bytes_injective(t, text_string@);
            }
            push(stack, Value::new(ValueData::String(text_string)));
            Ok(())
        },
        None => Err(type_error("invalid UTF-8 sequence")),
    }
}

/// The value of a byte as a word gives it.
pub open spec fn byte_value(b: u8) -> ValueV {
    from_int(b as i64)
}

/// A list of bytes as a word gives it: written `[ 104 105 ]`.
pub open spec fn from_bytes(bs: Seq<u8>) -> ValueV {
    ValueV {
        data: DataV::List(bs.map_values(|b: u8| byte_value(b))),
        lexeme: Some(
            seq!['[', ' '] + join(bs.map_values(|b: u8| int_text(b as int)), seq![' ']) + seq![' ', ']'],
        ),
        pos: None,
    }
}

/// `>utf8 ( str -- bytes-vec )`
pub open spec fn to_utf8_word(s: Seq<ValueV>) -> (Seq<ValueV>, Result<(), ErrV>) {
    on_text(s, ">utf8"@, |t: Seq<char>| from_bytes(utf8_bytes(t)))
}

fn bytes_list_value(bytes: &Vec<u8>) -> (v: Value)
    ensures
        v@ == from_bytes(bytes@),
{
    let ghost bs = bytes@;
    let mut items: Vec<Value> = Vec::new();
    let mut shown: Vec<char> = Vec::new();
    shown.push('[');
    shown.push(' ');
    let mut i: usize = 0;
    proof {
        assert(bs.take(0).map_values(|b: u8| int_text(b as int)) =~= seq![]);
        assert(shown@ =~= seq!['[', ' '] + join(bs.take(0).map_values(|b: u8| int_text(b as int)), seq![' ']));
    }
    while i < bytes.len()
        invariant
            bs == bytes@,
            i <= bs.len(),
            values_v(items@) == bs.take(i as int).map_values(|b: u8| byte_value(b)),
            shown@ == seq!['[', ' '] + join(bs.take(i as int).map_values(|b: u8| int_text(b as int)), seq![' '])
                + (if i > 0 {
                seq![' ']
            } else {
                seq![]
            }),
        decreases bs.len() - i,
    {
        let b = bytes[i];
        let item = int_value(b as i64);
        proof {
            lemma_values_push(items@, item);
        }
        items.push(item);
        let ghost before = shown@;
        push_i64(&mut shown, b as i64);
        shown.push(' ');
        proof {
            let pre = bs.take(i as int).map_values(|x: u8| int_text(x as int));
            let now = bs.take(i + 1).map_values(|x: u8| int_text(x as int));
            assert(now =~= pre.push(int_text(b as int)));
            assert(now.drop_last() =~= pre);
            assert(bs.take(i + 1).map_values(|x: u8| byte_value(x)) =~= bs.take(i as int).map_values(
                |x: u8| byte_value(x),
            ).push(byte_value(b)));
            if i == 0 {
                assert(join(now, seq![' ']) == int_text(b as int));
            }
            assert(shown@ =~= seq!['[', ' '] + join(now, seq![' ']) + seq![' ']);
        }
        i = i + 1;
    }
    proof {
        assert(bs.take(i as int) =~= bs);
    }
    if i == 0 {
        shown.push(' ');
    }
    shown.push(']');
    proof {
        assert(shown@ =~= seq!['[', ' '] + join(bs.map_values(|b: u8| int_text(b as int)), seq![' ']) + seq![
            ' ',
            ']',
        ]);
    }
    Value { data: ValueData::List(items), lexeme: Some(string_from_chars(shown.as_slice())), pos: None }
}

/// `>utf8 ( str -- bytes-vec )`: the UTF-8 bytes of the string.
pub fn to_utf8(stack: &mut Vec<Value>) -> (r: Result<(), Error>)
    ensures
        outcome(final(stack)@, r) == to_utf8_word(values_v(old(stack)@)),
{
    let v = match pop(stack) {
        Ok(v) => v,
        Err(e) => return Err(e),
    };
    match chars_if_string(&v) {
        Some(t) => {
            let bytes = utf8_of(&t);
            push(stack, bytes_list_value(&bytes));
            Ok(())
        },
        None => Err(type_error(">utf8")),
    }
}

// ── Laws ─────────────────────────────────────────────────────────────────────

/// Writing a string as UTF-8 bytes (`>utf8`) and reading them back
/// (`utf8>string`) gives the string again.
pub proof fn law_utf8_round_trip(s: Seq<ValueV>, v: ValueV, t: Seq<char>)
    requires
        str_of(v) == Some(t),
    ensures
        to_utf8_word(s.push(v)) == (s.push(from_bytes(utf8_bytes(t))), Ok::<(), ErrV>(())),
        utf8_to_string_word(s.push(from_bytes(utf8_bytes(t)))) == (s.push(text_value(t)), Ok::<(), ErrV>(())),
{
    let bs = utf8_bytes(t);
    let vs = bs.map_values(|b: u8| byte_value(b));
    assert(s.push(v).drop_last() =~= s);
    assert(s.push(from_bytes(bs)).drop_last() =~= s);
    assert forall|i: int| 0 <= i < vs.len() implies (#[trigger] int_of(vs[i]) matches Some(n) && 0 <= n <= 255) by {
        assert(vs[i] == byte_value(bs[i]));
    }
    assert(Seq::new(vs.len(), |i: int| int_of(vs[i])->0 as u8) =~= bs);
    assert(byte_items(vs) == Some(bs));
    assert(exists|x: Seq<char>| utf8_bytes(x) == bs) by {
        assert(utf8_bytes(t) == bs);
    }
    let chosen = choose|x: Seq<char>| utf8_bytes(x) == bs;
    lemma_utf8_bytes_injective(chosen, t);
    assert(utf8_decode(bs) == Some(t));
}

proof fn lemma_pieces_nonempty(t: Seq<char>, p: Seq<char>, i: int)
    requires
        p.len() > 0,
        0 <= i <= t.len(),
    ensures
        pieces_from(t, p, i).len() > 0,
    decreases t.len() - i,
{
    lemma_find_from(t, p, i);
    if let Some(k) = find_from(t, p, i) {
        assert(occurs_at(t, p, k));
        lemma_pieces_nonempty(t, p, k + p.len());
    }
}

/// The pieces from `i` on, joined by the pattern, give back the text from
/// `i` on.
pub proof fn lemma_join_pieces(t: Seq<char>, p: Seq<char>, i: int)
    requires
        p.len() > 0,
        0 <= i <= t.len(),
    ensures
        join(pieces_from(t, p, i), p) == t.subrange(i, t.len() as int),
    decreases t.len() - i,
{
    lemma_find_from(t, p, i);
    match find_from(t, p, i) {
        Some(k) => {
            assert(occurs_at(t, p, k));
            let j = k + p.len();
            lemma_join_pieces(t, p, j);
            lemma_pieces_nonempty(t, p, j);
            lemma_join_front(t.subrange(i, k), pieces_from(t, p, j), p);
            assert(t.subrange(i, k) + p + t.subrange(j, t.len() as int) =~= t.subrange(i, t.len() as int));
        },
        None => {},
    }
}

/// Splitting a string at every occurrence of a non-empty pattern
/// (`split-all`) and joining the pieces with that pattern (`join`) gives
/// back the string.
pub proof fn law_split_all_then_join(t: Seq<char>, p: Seq<char>)
    requires
        p.len() > 0,
    ensures
        join(split_pieces(t, p), p) == t,
{
    lemma_join_pieces(t, p, 0);
    assert(t.subrange(0, t.len() as int) =~= t);
}

/// Stripping a prefix from a string that begins with it gives the rest.
pub proof fn law_strip_start_of_prefixed(s: Seq<ValueV>, p: Seq<char>, t: Seq<char>)
    ensures
        strip_start_word(s.push(text_value(p + t)).push(text_value(p))) == (s.push(from_text(t)), Ok::<(), ErrV>(())),
{
    let st = s.push(text_value(p + t)).push(text_value(p));
    assert(below(st, 2) =~= s);
    assert((p + t).subrange(0, p.len() as int) =~= p);
    assert((p + t).subrange(p.len() as int, (p + t).len() as int) =~= t);
}

/// Where `split` finds the pattern, the text before it, the pattern and
/// the text after it make up the string.
pub proof fn law_split_rejoins(t: Seq<char>, p: Seq<char>)
    ensures
        find_from(t, p, 0) matches Some(k) ==> t.subrange(0, k) + p + t.subrange(k + p.len(), t.len() as int) == t,
{
    lemma_find_from(t, p, 0);
    if let Some(k) = find_from(t, p, 0) {
        assert(t.subrange(0, k) + p + t.subrange(k + p.len(), t.len() as int) =~= t);
    }
}

/// The byte length of two strings joined is the sum of their byte lengths.
pub proof fn law_length_of_concat(a: Seq<char>, b: Seq<char>)
    ensures
        utf8_len(a + b) == utf8_len(a) + utf8_len(b),
    decreases b.len(),
{
    if b.len() > 0 {
        law_length_of_concat(a, b.drop_last());
        assert((a + b).drop_last() =~= a + b.drop_last());
        assert((a + b).last() == b.last());
    } else {
        assert(a + b =~= a);
    }
}

/// Replacing a pattern that does not occur leaves the string as it was.
pub proof fn law_replace_absent(t: Seq<char>, p: Seq<char>, r: Seq<char>)
    requires
        p.len() > 0,
        find_from(t, p, 0) is None,
    ensures
        replace_all_text(t, p, r) == t,
{
    assert(t.subrange(0, t.len() as int) =~= t);
}


/// `ends-with?` on two strings pushes true exactly when the last
/// characters of the first, as many as the second has, are the second's
/// characters, each in its place; the two strings are taken off.
pub proof fn law_ends_with(s: Seq<ValueV>, a: ValueV, b: ValueV, t: Seq<char>, p: Seq<char>)
    requires
        a.data == DataV::String(t),
        b.data == DataV::String(p),
    ensures
        ends_with_word(s.push(a).push(b)) == (
            s.push(
                from_bool(
                    p.len() <= t.len() && forall|k: int|
                        0 <= k < p.len() ==> #[trigger] t[t.len() - p.len() + k] == p[k],
                ),
            ),
            Ok::<(), ErrV>(()),
        ),
{
    let st = s.push(a).push(b);
    assert(below(st, 2) =~= s);
    let r = p.len() <= t.len() && forall|k: int|
        0 <= k < p.len() ==> #[trigger] t[t.len() - p.len() + k] == p[k];
    if p.len() <= t.len() {
        let tail = t.subrange(t.len() - p.len(), t.len() as int);
        if r {
            assert forall|k: int| 0 <= k < p.len() implies tail[k] == p[k] by {
                assert(tail[k] == t[t.len() - p.len() + k]);
            }
            assert(tail =~= p);
        }
        if tail == p {
            assert forall|k: int| 0 <= k < p.len() implies #[trigger] t[t.len() - p.len() + k] == p[k] by {
                assert(tail[k] == t[t.len() - p.len() + k]);
            }
        }
    }
    assert(has_suffix(t, p) == r);
}


/// `starts-with?` on two strings pushes true exactly when the first
/// characters of the first, as many as the second has, are the second's
/// characters, each in its place; the two strings are taken off.
pub proof fn law_starts_with(s: Seq<ValueV>, a: ValueV, b: ValueV, t: Seq<char>, p: Seq<char>)
    requires
        a.data == DataV::String(t),
        b.data == DataV::String(p),
    ensures
        starts_with_word(s.push(a).push(b)) == (
            s.push(
                from_bool(p.len() <= t.len() && forall|k: int| 0 <= k < p.len() ==> #[trigger] t[k] == p[k]),
            ),
            Ok::<(), ErrV>(()),
        ),
{
    let st = s.push(a).push(b);
    assert(below(st, 2) =~= s);
    let r = p.len() <= t.len() && forall|k: int| 0 <= k < p.len() ==> #[trigger] t[k] == p[k];
    if p.len() <= t.len() {
        let head = t.subrange(0, p.len() as int);
        if r {
            assert forall|k: int| 0 <= k < p.len() implies head[k] == p[k] by {
                assert(head[k] == t[k]);
            }
            assert(head =~= p);
        }
        if head == p {
            assert forall|k: int| 0 <= k < p.len() implies #[trigger] t[k] == p[k] by {
                assert(head[k] == t[k]);
            }
        }
    }
    assert(crate::loader::starts_with(t, p) == r);
}

} // verus!
