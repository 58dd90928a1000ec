//! Written values read back: the written form of a string or a character
//! value scans as that same value.

use vstd::prelude::*;

use crate::scanner::{char_lit, escape_at, str_body, string_lit, token_at};
use crate::text::{is_ws, skip_ws};
use crate::value::{escape_repr, repr_string, show_char, DataV};

verus! {

/// How one character of a string is written inside its quotes.
pub open spec fn escaped(c: char) -> Seq<char> {
    if c == '\\' {
        seq!['\\', '\\']
    } else if c == '"' {
        seq!['\\', '"']
    } else {
        seq![c]
    }
}

proof fn lemma_escape_step(s: Seq<char>, k: int)
    requires
        0 <= k < s.len(),
    ensures
        escape_repr(s.subrange(0, k + 1)) == escape_repr(s.subrange(0, k)) + escaped(s[k]),
{
    assert(s.subrange(0, k + 1).drop_last() =~= s.subrange(0, k));
}

/// The written form of a prefix is a prefix of the written form.
proof fn lemma_escape_prefix(s: Seq<char>, k: int)
    requires
        0 <= k <= s.len(),
    ensures
        escape_repr(s.subrange(0, k)).len() <= escape_repr(s).len(),
        escape_repr(s).subrange(0, escape_repr(s.subrange(0, k)).len() as int) == escape_repr(
            s.subrange(0, k),
        ),
    decreases s.len() - k,
{
    if k == s.len() {
        assert(s.subrange(0, k) =~= s);
        assert(escape_repr(s).subrange(0, escape_repr(s).len() as int) =~= escape_repr(s));
    } else {
        lemma_escape_prefix(s, k + 1);
        lemma_escape_step(s, k);
        let a = escape_repr(s.subrange(0, k));
        let b = escape_repr(s.subrange(0, k + 1));
        let e = escape_repr(s);
        assert(e.subrange(0, a.len() as int) =~= b.subrange(0, a.len() as int));
        assert(b.subrange(0, a.len() as int) =~= a);
    }
}

/// Reading the body of a written string from the `k`-th character on.
proof fn lemma_string_body(s: Seq<char>, k: int)
    requires
        0 <= k <= s.len(),
    ensures
        str_body(
            repr_string(s),
            1 + escape_repr(s.subrange(0, k)).len() as int,
            false,
            s.subrange(0, k),
            0,
        ) == (Ok::<Seq<char>, crate::scanner::ScanErrV>(s), repr_string(s).len() as int),
    decreases s.len() - k,
{
    let t = repr_string(s);
    let e = escape_repr(s);
    let pk = 1 + escape_repr(s.subrange(0, k)).len() as int;
    lemma_escape_prefix(s, k);
    assert(t =~= seq!['"'] + e + seq!['"']);
    if k == s.len() {
        assert(s.subrange(0, k) =~= s);
        assert(t[pk] == '"');
    } else {
        lemma_escape_prefix(s, k + 1);
        lemma_escape_step(s, k);
        let c = s[k];
        let a = escape_repr(s.subrange(0, k));
        let b = escape_repr(s.subrange(0, k + 1));
        assert(b == a + escaped(c));
        assert(e.subrange(0, b.len() as int) == b);
        assert(t[pk] == e[a.len() as int]);
        assert(e[a.len() as int] == b[a.len() as int]);
        assert(s.subrange(0, k).push(c) =~= s.subrange(0, k + 1));
        if c == '\\' || c == '"' {
            assert(t[pk] == '\\');
            assert(t[pk + 1] == e[a.len() as int + 1]);
            assert(e[a.len() as int + 1] == b[a.len() as int + 1]);
            assert(t[pk + 1] == c);
            assert(escape_at(t, pk + 1) == (Ok::<char, crate::scanner::ScanErrV>(c), pk + 2));
            lemma_string_body(s, k + 1);
        } else {
            assert(t[pk] == c);
            assert(s.subrange(0, k) + crate::scanner::quotes(0) + seq![c] =~= s.subrange(0, k + 1));
            lemma_string_body(s, k + 1);
        }
    }
}

/// The written form of a string value scans back as that string.
pub proof fn law_string_repr_reads_back(s: Seq<char>, key: Seq<char>)
    ensures
        token_at(repr_string(s), key, 0) == Some(
            (
                Ok::<DataV, crate::scanner::ScanErrV>(DataV::String(s)),
                0int,
                repr_string(s).len() as int,
            ),
        ),
{
    let t = repr_string(s);
    assert(t[0] == '"');
    assert(!is_ws('"'));
    assert(skip_ws(t, 0) == 0);
    assert(s.subrange(0, 0) =~= Seq::<char>::empty());
    lemma_string_body(s, 0);
    if s.len() > 0 {
        lemma_escape_step(s, 0);
        assert(escape_repr(s.subrange(0, 1)) == escaped(s[0]));
        lemma_escape_prefix(s, 1);
        assert(t[1] == escape_repr(s)[0]);
        assert(t[1] != '"');
    }
    assert(string_lit(t, 1) == str_body(t, 1, false, Seq::<char>::empty(), 0));
    assert(escape_repr(s.subrange(0, 0)).len() == 0);
    assert(string_lit(t, 1) == (Ok::<Seq<char>, crate::scanner::ScanErrV>(s), t.len() as int));
    assert(t.len() > 0);
    reveal_with_fuel(token_at, 2);
}

/// The written form of a character value scans back as that character.
pub proof fn law_char_repr_reads_back(c: char, key: Seq<char>)
    ensures
        token_at(show_char(c), key, 0) == Some(
            (Ok::<DataV, crate::scanner::ScanErrV>(DataV::Char(c)), 0int, show_char(c).len() as int),
        ),
{
    reveal_strlit("'\\n'");
    reveal_strlit("'\\r'");
    reveal_strlit("'\\t'");
    reveal_strlit("'\\\\'");
    reveal_strlit("'\\''");
    let t = show_char(c);
    assert(t[0] == '\'');
    assert(!is_ws('\''));
    assert(skip_ws(t, 0) == 0);
    if c == '\n' || c == '\r' || c == '\t' || c == '\\' || c == '\'' {
        assert(t.len() == 4);
        assert(t[1] == '\\');
        assert(escape_at(t, 2) == (Ok::<char, crate::scanner::ScanErrV>(c), 3int));
    } else {
        assert(t =~= seq!['\'', c, '\'']);
    }
    assert(t.len() > 0);
    assert(char_lit(t, 1) == (Ok::<char, crate::scanner::ScanErrV>(c), t.len() as int));
    assert(t[0] != '"');
    reveal_with_fuel(token_at, 2);
}

} // verus!
