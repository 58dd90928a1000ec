//! The words of the module `std/_vectors` that read lists without changing
//! them, each an operation on the value stack.

use vstd::prelude::*;

use crate::errors::{ErrV, Error, VMError};
use crate::machine::{bare, lemma_values_push, mismatch};
use crate::strings::{below, from_bool, from_int, from_text, int_of, outcome, pop, push, str_of, underflow};
use crate::text::{join, push_all, string_from_chars, string_of};
use crate::equality::{data_eq, data_equal};
use crate::value::{clone_value, lemma_values_v, repr_value, show_data, values_v, DataV, Value, ValueData, ValueV};

verus! {

/// The items of a list value.
pub open spec fn items_of(v: ValueV) -> Option<Seq<ValueV>> {
    match v.data {
        DataV::List(vs) => Some(vs),
        _ => None,
    }
}

/// A list value that came from no token.
pub open spec fn list_value(vs: Seq<ValueV>) -> ValueV {
    bare(DataV::List(vs))
}

/// A list as a word gives it: written `[ a b ]`, each item displayed.
pub open spec fn from_items(vs: Seq<ValueV>) -> ValueV {
    ValueV {
        data: DataV::List(vs),
        lexeme: Some(
            seq!['[', ' '] + join(vs.map_values(|v: ValueV| show_data(v.data)), seq![' ']) + seq![' ', ']'],
        ),
        pos: None,
    }
}

fn items_if_list(v: &Value) -> (r: Option<Vec<Value>>)
    ensures
        match items_of(v@) {
            Some(vs) => r matches Some(c) && values_v(c@) == vs,
            None => r is None,
        },
{
    match &v.data {
        ValueData::List(items) => Some(crate::value::clone_values(items)),
        _ => None,
    }
}

fn type_error_text(what: &str) -> (e: Error)
    ensures
        e@ == mismatch(what@),
{
    Error::VMError(VMError::TypeMismatch(string_of(what)))
}

fn list_of(items: Vec<Value>) -> (v: Value)
    ensures
        v@ == list_value(values_v(items@)),
{
    Value::new(ValueData::List(items))
}

/// `<vector> ( -- vec )`
pub open spec fn create_list_word(s: Seq<ValueV>) -> (Seq<ValueV>, Result<(), ErrV>) {
    (s.push(list_value(seq![])), Ok(()))
}

/// `<vector> ( -- vec )`: pushes an empty list.
pub fn create_list(stack: &mut Vec<Value>) -> (r: Result<(), Error>)
    ensures
        outcome(final(stack)@, r) == create_list_word(values_v(old(stack)@)),
{
    let items: Vec<Value> = Vec::new();
    proof {
        assert(values_v(items@) =~= seq![]);
    }
    push(stack, list_of(items));
    Ok(())
}

/// `concat ( vec1 vec2 -- vec )`
pub open spec fn concat_word(s: Seq<ValueV>) -> (Seq<ValueV>, Result<(), ErrV>) {
    let n = s.len();
    if n < 2 {
        (seq![], Err(underflow()))
    } else {
        match (items_of(s[n - 2]), items_of(s[n - 1])) {
            (Some(a), Some(b)) => (below(s, 2).push(list_value(a + b)), Ok(())),
            _ => (below(s, 2), Err(mismatch("concatenate lists"@))),
        }
    }
}

/// `concat ( vec1 vec2 -- vec )`: a new list of the items of both.
pub fn concat(stack: &mut Vec<Value>) -> (r: Result<(), Error>)
    ensures
        outcome(final(stack)@, r) == concat_word(values_v(old(stack)@)),
{
    let ghost s = values_v(stack@);
    let b = match pop(stack) {
        Ok(v) => v,
        Err(e) => return Err(e),
    };
    let a = match pop(stack) {
        Ok(v) => v,
        Err(e) => {
            assert(values_v(stack@) =~= seq![]);
            return Err(e);
        },
    };
    assert(below(s, 2) =~= s.drop_last().drop_last());
    match (items_if_list(&a), items_if_list(&b)) {
        (Some(mut x), Some(y)) => {
            let mut i: usize = 0;
            let ghost x0 = values_v(x@);
            while i < y.len()
                invariant
                    i <= y@.len(),
                    values_v(x@) == x0 + values_v(y@).take(i as int),
                decreases y@.len() - i,
            {
                proof {
                    lemma_values_v(y@);
                    lemma_values_push(x@, y@[i as int]);
                    assert(values_v(y@).take(i + 1) =~= values_v(y@).take(i as int).push(values_v(y@)[i as int]));
                }
                let item = clone_value(&y[i]);
                proof {
                    lemma_values_push(x@, item);
                }
                x.push(item);
                proof {
                    assert(values_v(x@) =~= x0 + values_v(y@).take(i + 1));
                }
                i = i + 1;
            }
            proof {
                lemma_values_v(y@);
                assert(values_v(y@).take(i as int) =~= values_v(y@));
            }
            push(stack, list_of(x));
            Ok(())
        },
        _ => Err(type_error_text("concatenate lists")),
    }
}

/// `nth ( i vec -- item )`
pub open spec fn nth_word(s: Seq<ValueV>) -> (Seq<ValueV>, Result<(), ErrV>) {
    let n = s.len();
    if n < 2 {
        (seq![], Err(underflow()))
    } else {
        match int_of(s[n - 2]) {
            None => (below(s, 2), Err(mismatch("nth index"@))),
            Some(i) => match items_of(s[n - 1]) {
                None => (below(s, 2), Err(mismatch("nth list"@))),
                Some(vs) => (
                    below(s, 2).push(if 0 <= i < vs.len() { vs[i as int] } else { from_bool(false) }),
                    Ok(()),
                ),
            },
        }
    }
}

/// `nth ( i vec -- item )`: the item at position `i`, or false if there is
/// none.
pub fn nth(stack: &mut Vec<Value>) -> (r: Result<(), Error>)
    ensures
        outcome(final(stack)@, r) == nth_word(values_v(old(stack)@)),
{
    let ghost s = values_v(stack@);
    let list = match pop(stack) {
        Ok(v) => v,
        Err(e) => return Err(e),
    };
    let index = match pop(stack) {
        Ok(v) => v,
        Err(e) => {
            assert(values_v(stack@) =~= seq![]);
            return Err(e);
        },
    };
    assert(below(s, 2) =~= s.drop_last().drop_last());
    let i = match &index.data {
        ValueData::Integer(i) => *i,
        _ => return Err(type_error_text("nth index")),
    };
    let items = match items_if_list(&list) {
        Some(items) => items,
        None => return Err(type_error_text("nth list")),
    };
    proof {
        lemma_values_v(items@);
    }
    let len = items.len();
    if 0 <= i && (i as u64) < (len as u64) {
        let k = i as usize;
        assert(k == i);
        let item = clone_value(&items[k]);
        push(stack, item);
    } else {
        push(stack, crate::vectors::false_value());
    }
    Ok(())
}

pub(crate) fn false_value() -> (v: Value)
    ensures
        v@ == from_bool(false),
{
    Value { data: ValueData::Boolean(false), lexeme: Some(string_of("false")), pos: None }
}

/// `length ( vec -- n )`
pub open spec fn length_word(s: Seq<ValueV>) -> (Seq<ValueV>, Result<(), ErrV>) {
    if s.len() == 0 {
        (s, Err(underflow()))
    } else {
        match items_of(s.last()) {
            Some(vs) => (s.drop_last().push(from_int(vs.len() as i64)), Ok(())),
            None => (s.drop_last(), Err(mismatch("length of list: "@ + repr_value(s.last())))),
        }
    }
}

/// `length ( vec -- n )`: the number of items of the list.
pub fn length(stack: &mut Vec<Value>) -> (r: Result<(), Error>)
    ensures
        outcome(final(stack)@, r) == length_word(values_v(old(stack)@)),
{
    let v = match pop(stack) {
        Ok(v) => v,
        Err(e) => return Err(e),
    };
    match &v.data {
        ValueData::List(items) => {
            proof {
                lemma_values_v(items@);
            }
            let n = items.len();
            let out = crate::strings::int_value(n as i64);
            push(stack, out);
            Ok(())
        },
        _ => {
            let mut msg: Vec<char> = Vec::new();
            crate::text::push_lit(&mut msg, "length of list: ");
            let shown = v.to_repr();
            crate::text::push_string(&mut msg, &shown);
            Err(Error::VMError(VMError::TypeMismatch(string_from_chars(msg.as_slice()))))
        },
    }
}

/// `join ( vec glue -- str )`
pub open spec fn join_word(s: Seq<ValueV>) -> (Seq<ValueV>, Result<(), ErrV>) {
    let n = s.len();
    if n == 0 {
        (s, Err(underflow()))
    } else {
        match str_of(s[n - 1]) {
            None => (below(s, 1), Err(mismatch("join glue"@))),
            Some(glue) => if n == 1 {
                (seq![], Err(underflow()))
            } else {
                match items_of(s[n - 2]) {
                    None => (below(s, 2), Err(mismatch("join list"@))),
                    Some(vs) => (
                        below(s, 2).push(from_text(join(vs.map_values(|v: ValueV| show_data(v.data)), glue))),
                        Ok(()),
                    ),
                }
            },
        }
    }
}

/// `join ( vec glue -- str )`: the items displayed and joined by `glue`.
pub fn join_items(stack: &mut Vec<Value>) -> (r: Result<(), Error>)
    ensures
        outcome(final(stack)@, r) == join_word(values_v(old(stack)@)),
{
    let ghost s = values_v(stack@);
    let g = match pop(stack) {
        Ok(v) => v,
        Err(e) => return Err(e),
    };
    let glue = match &g.data {
        ValueData::String(x) => crate::text::chars_of_string(x),
        _ => {
            assert(below(s, 1) =~= s.drop_last());
            return Err(type_error_text("join glue"));
        },
    };
    let l = match pop(stack) {
        Ok(v) => v,
        Err(e) => {
            assert(values_v(stack@) =~= seq![]);
            return Err(e);
        },
    };
    assert(below(s, 2) =~= s.drop_last().drop_last());
    let items = match items_if_list(&l) {
        Some(items) => items,
        None => return Err(type_error_text("join list")),
    };
    let ghost vs = values_v(items@);
    let ghost shown = vs.map_values(|v: ValueV| show_data(v.data));
    proof {
        lemma_values_v(items@);
    }
    let mut out: Vec<char> = Vec::new();
    let mut i: usize = 0;
    proof {
        assert(shown.take(0) =~= seq![]);
    }
    while i < items.len()
        invariant
            i <= items@.len(),
            vs == values_v(items@),
            vs.len() == items@.len(),
            forall|k: int| 0 <= k < items@.len() ==> vs[k] == (#[trigger] items@[k])@,
            shown == vs.map_values(|v: ValueV| show_data(v.data)),
            out@ == join(shown.take(i as int), glue@),
        decreases items@.len() - i,
    {
        if i > 0 {
            push_all(&mut out, glue.as_slice());
        }
        let text = items[i].to_display_string();
        crate::text::push_string(&mut out, &text);
        proof {
            assert(shown.take(i + 1).drop_last() =~= shown.take(i as int));
            assert(shown.take(i + 1).last() == show_data(vs[i as int].data));
            if i == 0 {
                assert(out@ =~= join(shown.take(1), glue@));
            }
        }
        i = i + 1;
    }
    proof {
        assert(shown.take(i as int) =~= shown);
    }
    push(stack, crate::strings::text_from(&out));
    Ok(())
}

/// Whether `subvector` is defined on `s`: the start lies at or before the
/// end, once the end is cut to the list's length (elsewhere Rust's slicing
/// panics).
pub open spec fn subvector_defined(s: Seq<ValueV>) -> bool {
    let n = s.len();
    n >= 3 ==> match (int_of(s[n - 3]), int_of(s[n - 2]), items_of(s[n - 1])) {
        (Some(from), Some(to), Some(vs)) => 0 <= from <= cut_end(to, vs.len()),
        _ => true,
    }
}

/// The end of a subvector: `to` read as an unsigned number, cut to `len`.
pub open spec fn cut_end(to: i64, len: nat) -> int {
    if 0 <= to <= len {
        to as int
    } else {
        len as int
    }
}

/// `subvector ( from to vec -- sub )`
pub open spec fn subvector_word(s: Seq<ValueV>) -> (Seq<ValueV>, Result<(), ErrV>) {
    let n = s.len();
    if n == 0 {
        (s, Err(underflow()))
    } else {
        match items_of(s[n - 1]) {
            None => (below(s, 1), Err(mismatch("subvector list"@))),
            Some(vs) => if n == 1 {
                (seq![], Err(underflow()))
            } else {
                match int_of(s[n - 2]) {
                    None => (below(s, 2), Err(mismatch("subvector to"@))),
                    Some(to) => if n == 2 {
                        (seq![], Err(underflow()))
                    } else {
                        match int_of(s[n - 3]) {
                            None => (below(s, 3), Err(mismatch("subvector from"@))),
                            Some(from) => (
                                below(s, 3).push(from_items(vs.subrange(from as int, cut_end(to, vs.len())))),
                                Ok(()),
                            ),
                        }
                    },
                }
            },
        }
    }
}

/// `subvector ( from to vec -- sub )`: a new list of the items from `from`
/// up to `to` (cut to the list's length).
pub fn subvector(stack: &mut Vec<Value>) -> (r: Result<(), Error>)
    requires
        subvector_defined(values_v(old(stack)@)),
    ensures
        outcome(final(stack)@, r) == subvector_word(values_v(old(stack)@)),
{
    let ghost s = values_v(stack@);
    let l = match pop(stack) {
        Ok(v) => v,
        Err(e) => return Err(e),
    };
    let items = match items_if_list(&l) {
        Some(items) => items,
        None => {
            assert(below(s, 1) =~= s.drop_last());
            return Err(type_error_text("subvector list"));
        },
    };
    let t = match pop(stack) {
        Ok(v) => v,
        Err(e) => {
            assert(values_v(stack@) =~= seq![]);
            return Err(e);
        },
    };
    assert(below(s, 2) =~= s.drop_last().drop_last());
    let to = match &t.data {
        ValueData::Integer(i) => *i,
        _ => return Err(type_error_text("subvector to")),
    };
    let f = match pop(stack) {
        Ok(v) => v,
        Err(e) => {
            assert(values_v(stack@) =~= seq![]);
            return Err(e);
        },
    };
    assert(below(s, 3) =~= s.drop_last().drop_last().drop_last());
    let from = match &f.data {
        ValueData::Integer(i) => *i,
        _ => return Err(type_error_text("subvector from")),
    };
    proof {
        lemma_values_v(items@);
    }
    let len = items.len();
    let end: usize = if 0 <= to && (to as u64) <= (len as u64) {
        to as usize
    } else {
        len
    };
    let start = from as usize;
    let ghost vs = values_v(items@);
    let mut out: Vec<Value> = Vec::new();
    let mut k: usize = start;
    proof {
        assert(values_v(out@) =~= vs.subrange(start as int, start as int));
    }
    while k < end
        invariant
            start <= k <= end <= items@.len(),
            vs == values_v(items@),
            vs.len() == items@.len(),
            forall|j: int| 0 <= j < items@.len() ==> vs[j] == (#[trigger] items@[j])@,
            values_v(out@) == vs.subrange(start as int, k as int),
        decreases end - k,
    {
        let item = clone_value(&items[k]);
        proof {
            lemma_values_push(out@, item);
            assert(vs.subrange(start as int, k + 1) =~= vs.subrange(start as int, k as int).push(vs[k as int]));
        }
        out.push(item);
        k = k + 1;
    }
    push(stack, items_value(out));
    Ok(())
}

fn items_value(items: Vec<Value>) -> (v: Value)
    ensures
        v@ == from_items(values_v(items@)),
{
    let ghost vs = values_v(items@);
    let ghost shown = vs.map_values(|v: ValueV| show_data(v.data));
    proof {
        lemma_values_v(items@);
    }
    let mut text: Vec<char> = Vec::new();
    text.push('[');
    text.push(' ');
    let mut i: usize = 0;
    proof {
        assert(shown.take(0) =~= seq![]);
        assert(text@ =~= seq!['[', ' '] + join(shown.take(0), seq![' ']));
    }
    while i < items.len()
        invariant
            i <= items@.len(),
            vs == values_v(items@),
            vs.len() == items@.len(),
            forall|k: int| 0 <= k < items@.len() ==> vs[k] == (#[trigger] items@[k])@,
            shown == vs.map_values(|v: ValueV| show_data(v.data)),
            text@ == seq!['[', ' '] + join(shown.take(i as int), seq![' ']) + (if i > 0 {
                seq![' ']
            } else {
                seq![]
            }),
        decreases items@.len() - i,
    {
        let piece = items[i].to_display_string();
        crate::text::push_string(&mut text, &piece);
        text.push(' ');
        proof {
            assert(shown.take(i + 1).drop_last() =~= shown.take(i as int));
            assert(shown.take(i + 1).last() == show_data(vs[i as int].data));
            if i == 0 {
                assert(join(shown.take(1), seq![' ']) == shown[0]);
            }
            assert(text@ =~= seq!['[', ' '] + join(shown.take(i + 1), seq![' ']) + seq![' ']);
        }
        i = i + 1;
    }
    proof {
        assert(shown.take(i as int) =~= shown);
    }
    if i == 0 {
        text.push(' ');
    }
    text.push(']');
    proof {
        assert(text@ =~= seq!['[', ' '] + join(shown, seq![' ']) + seq![' ', ']']);
    }
    Value { data: ValueData::List(items), lexeme: Some(string_from_chars(text.as_slice())), pos: None }
}

/// The first position from `k` on of an item of `vs` equal to `x`.
pub open spec fn position_from(vs: Seq<ValueV>, x: ValueV, k: int) -> Option<int>
    decreases vs.len() - k,
{
    if k < 0 || k >= vs.len() {
        None
    } else if data_eq(vs[k].data, x.data) {
        Some(k)
    } else {
        position_from(vs, x, k + 1)
    }
}

/// Pops a list, checked with `what` (followed by the value shown), then the
/// item: the list's items and the item, or the stack left and the error.
pub open spec fn list_then_item(s: Seq<ValueV>, what: Seq<char>, show: bool) -> Result<
    (Seq<ValueV>, ValueV),
    (Seq<ValueV>, ErrV),
> {
    let n = s.len();
    if n == 0 {
        Err((s, underflow()))
    } else {
        match items_of(s[n - 1]) {
            None => Err(
                (below(s, 1), mismatch(if show { what + repr_value(s[n - 1]) } else { what })),
            ),
            Some(vs) => if n == 1 {
                Err((seq![], underflow()))
            } else {
                Ok((vs, s[n - 2]))
            },
        }
    }
}

/// `in? ( item vec -- ? )`
pub open spec fn is_in_word(s: Seq<ValueV>) -> (Seq<ValueV>, Result<(), ErrV>) {
    match list_then_item(s, "in? list: "@, true) {
        Err((st, e)) => (st, Err(e)),
        Ok((vs, x)) => (below(s, 2).push(from_bool(position_from(vs, x, 0) is Some)), Ok(())),
    }
}

/// `index-of? ( item vec -- i/#f )`
pub open spec fn index_of_word(s: Seq<ValueV>) -> (Seq<ValueV>, Result<(), ErrV>) {
    match list_then_item(s, "in? list"@, false) {
        Err((st, e)) => (st, Err(e)),
        Ok((vs, x)) => (
            below(s, 2).push(
                match position_from(vs, x, 0) {
                    Some(i) => from_int(i as i64),
                    None => from_bool(false),
                },
            ),
            Ok(()),
        ),
    }
}

fn pop_list_then_item(stack: &mut Vec<Value>, what: &str, show: bool) -> (r: Result<(Vec<Value>, Value), Error>)
    ensures
        ({
            let s = values_v(old(stack)@);
            match list_then_item(s, what@, show) {
                Ok((vs, x)) => r matches Ok((items, item)) && values_v(items@) == vs && item@ == x
                    && values_v(final(stack)@) == below(s, 2),
                Err((st, e)) => r matches Err(err) && err@ == e && values_v(final(stack)@) == st,
            }
        }),
{
    let ghost s = values_v(stack@);
    let l = match pop(stack) {
        Ok(v) => v,
        Err(e) => return Err(e),
    };
    let items = match items_if_list(&l) {
        Some(items) => items,
        None => {
            assert(below(s, 1) =~= s.drop_last());
            if show {
                let mut msg: Vec<char> = Vec::new();
                crate::text::push_lit(&mut msg, what);
                let shown = l.to_repr();
                crate::text::push_string(&mut msg, &shown);
                return Err(Error::VMError(VMError::TypeMismatch(string_from_chars(msg.as_slice()))));
            }
            return Err(type_error_text(what));
        },
    };
    let x = match pop(stack) {
        Ok(v) => v,
        Err(e) => {
            assert(values_v(stack@) =~= seq![]);
            return Err(e);
        },
    };
    assert(below(s, 2) =~= s.drop_last().drop_last());
    Ok((items, x))
}

/// The first position of an item of `items` equal to `x`.
fn position(items: &Vec<Value>, x: &Value) -> (r: Option<usize>)
    ensures
        match position_from(values_v(items@), x@, 0) {
            Some(i) => r == Some(i as usize),
            None => r is None,
        },
{
    proof {
        lemma_values_v(items@);
    }
    let ghost vs = values_v(items@);
    let mut k: usize = 0;
    while k < items.len()
        invariant
            k <= items@.len(),
            vs == values_v(items@),
            vs.len() == items@.len(),
            forall|j: int| 0 <= j < items@.len() ==> vs[j] == (#[trigger] items@[j])@,
            position_from(vs, x@, 0) == position_from(vs, x@, k as int),
        decreases items@.len() - k,
    {
        if data_equal(&items[k].data, &x.data) {
            return Some(k);
        }
        k = k + 1;
    }
    None
}

/// `in? ( item vec -- ? )`: whether an item of the list equals the item.
pub fn is_in(stack: &mut Vec<Value>) -> (r: Result<(), Error>)
    ensures
        outcome(final(stack)@, r) == is_in_word(values_v(old(stack)@)),
{
    let (items, x) = match pop_list_then_item(stack, "in? list: ", true) {
        Ok(p) => p,
        Err(e) => return Err(e),
    };
    let found = position(&items, &x).is_some();
    push(stack, crate::strings::bool_value(found));
    Ok(())
}

/// `index-of? ( item vec -- i/#f )`: the first position of an item equal to
/// the item, or false.
pub fn index_of(stack: &mut Vec<Value>) -> (r: Result<(), Error>)
    ensures
        outcome(final(stack)@, r) == index_of_word(values_v(old(stack)@)),
{
    let (items, x) = match pop_list_then_item(stack, "in? list", false) {
        Ok(p) => p,
        Err(e) => return Err(e),
    };
    let len = items.len();
    proof {
        lemma_values_v(items@);
        lemma_position_bound(values_v(items@), x@, 0);
    }
    match position(&items, &x) {
        Some(i) => push(stack, crate::strings::int_value(i as i64)),
        None => push(stack, crate::strings::bool_value(false)),
    }
    Ok(())
}

proof fn lemma_position_bound(vs: Seq<ValueV>, x: ValueV, k: int)
    requires
        0 <= k,
    ensures
        position_from(vs, x, k) matches Some(i) ==> k <= i < vs.len(),
    decreases vs.len() - k,
{
    if k < vs.len() && !data_eq(vs[k].data, x.data) {
        lemma_position_bound(vs, x, k + 1);
    }
}

} // verus!
