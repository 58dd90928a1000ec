//! Character-level text helpers shared by the scanner, the type-signature
//! parser and the interpreter.

use vstd::prelude::*;

verus! {

/// Unicode `White_Space` code points, the set that `char::is_whitespace` tests.
pub open spec fn is_ws(c: char) -> bool {
    let u = c as u32;
    ||| (0x09 <= u && u <= 0x0D)
    ||| u == 0x20
    ||| u == 0x85
    ||| u == 0xA0
    ||| u == 0x1680
    ||| (0x2000 <= u && u <= 0x200A)
    ||| u == 0x2028
    ||| u == 0x2029
    ||| u == 0x202F
    ||| u == 0x205F
    ||| u == 0x3000
}

/// Whether `c` is Unicode whitespace.
pub fn is_whitespace(c: char) -> (r: bool)
    ensures
        r == is_ws(c),
{
    let u = c as u32;
    (0x09 <= u && u <= 0x0D) || u == 0x20 || u == 0x85 || u == 0xA0 || u == 0x1680 || (0x2000
        <= u && u <= 0x200A) || u == 0x2028 || u == 0x2029 || u == 0x202F || u == 0x205F || u
        == 0x3000
}

/// The characters of `s`, in order.
pub fn chars_of(s: &str) -> (v: Vec<char>)
    ensures
        v@ == s@,
{
    let mut v: Vec<char> = Vec::new();
    for c in it: s.chars()
        invariant
            v@ == it.seq().take(it.index() as int),
            it.seq() == s@,
    {
        v.push(c);
    }
    v
}

/// `String::push`: the string afterwards holds its characters and then `c`.
#[verifier::external_body]
fn push_char(s: &mut String, c: char)
    ensures
        final(s)@ == old(s)@.push(c),
{
    s.push(c);
}

/// A `String` holding exactly the characters of `v`.
pub fn string_from_chars(v: &[char]) -> (s: String)
    ensures
        s@ == v@,
{
    let mut s = String::new();
    let mut i: usize = 0;
    while i < v.len()
        invariant
            i <= v@.len(),
            s@ == v@.take(i as int),
        decreases v@.len() - i,
    {
        push_char(&mut s, v[i]);
        i = i + 1;
        assert(s@ =~= v@.take(i as int));
    }
    assert(v@.take(i as int) =~= v@);
    s
}

/// The characters of a `String`, in order.
pub fn chars_of_string(s: &String) -> (v: Vec<char>)
    ensures
        v@ == s@,
{
    chars_of(s.as_str())
}

/// Whether two character sequences are equal.
pub fn seq_eq(a: &[char], b: &[char]) -> (r: bool)
    ensures
        r == (a@ == b@),
{
    if a.len() != b.len() {
        return false;
    }
    let mut i: usize = 0;
    while i < a.len()
        invariant
            a@.len() == b@.len(),
            i <= a@.len(),
            forall|j: int| 0 <= j < i ==> a@[j] == b@[j],
        decreases a@.len() - i,
    {
        if a[i] != b[i] {
            return false;
        }
        i = i + 1;
    }
    assert(a@ =~= b@);
    true
}

/// Whether the characters in `a` spell out the literal `lit`.
pub fn eq_lit(a: &[char], lit: &str) -> (r: bool)
    ensures
        r == (a@ == lit@),
{
    let n = lit.unicode_len();
    if a.len() != n {
        return false;
    }
    let mut i: usize = 0;
    while i < n
        invariant
            a@.len() == lit@.len(),
            n == lit@.len(),
            i <= n,
            forall|j: int| 0 <= j < i ==> a@[j] == lit@[j],
        decreases n - i,
    {
        if a[i] != lit.get_char(i) {
            return false;
        }
        i = i + 1;
    }
    assert(a@ =~= lit@);
    true
}

/// Whether `s` equals the literal `lit`.
pub fn string_eq_lit(s: &String, lit: &str) -> (r: bool)
    ensures
        r == (s@ == lit@),
{
    let v = chars_of_string(s);
    eq_lit(v.as_slice(), lit)
}

/// Whether `s` spells the literal `lit`.
pub fn str_eq_lit(s: &str, lit: &str) -> (r: bool)
    ensures
        r == (s@ == lit@),
{
    let v = chars_of(s);
    eq_lit(v.as_slice(), lit)
}

/// Whether two strings are equal.
pub fn string_eq(a: &String, b: &String) -> (r: bool)
    ensures
        r == (a@ == b@),
{
    a.eq(b)
}

/// A `String` copy of the literal `lit`.
pub fn string_of(lit: &str) -> (s: String)
    ensures
        s@ == lit@,
{
    lit.to_string()
}

// ── Lexicographic order ──────────────────────────────────────────────────────

/// Lexicographic (code point) order on character sequences; it is the order
/// in which Rust orders `String`s.
pub open spec fn lex_lt(a: Seq<char>, b: Seq<char>) -> bool
    decreases a.len(),
{
    if a.len() == 0 {
        b.len() > 0
    } else if b.len() == 0 {
        false
    } else if a[0] < b[0] {
        true
    } else if a[0] == b[0] {
        lex_lt(a.drop_first(), b.drop_first())
    } else {
        false
    }
}

pub proof fn lemma_lex_irreflexive(a: Seq<char>)
    ensures
        !lex_lt(a, a),
    decreases a.len(),
{
    if a.len() > 0 {
        lemma_lex_irreflexive(a.drop_first());
    }
}

pub proof fn lemma_lex_asymmetric(a: Seq<char>, b: Seq<char>)
    ensures
        lex_lt(a, b) ==> !lex_lt(b, a),
    decreases a.len(),
{
    if a.len() > 0 && b.len() > 0 && a[0] == b[0] {
        lemma_lex_asymmetric(a.drop_first(), b.drop_first());
    }
}

pub proof fn lemma_lex_transitive(a: Seq<char>, b: Seq<char>, c: Seq<char>)
    requires
        lex_lt(a, b),
        lex_lt(b, c),
    ensures
        lex_lt(a, c),
    decreases a.len(),
{
    if a.len() > 0 && b.len() > 0 && c.len() > 0 && a[0] == b[0] && b[0] == c[0] {
        lemma_lex_transitive(a.drop_first(), b.drop_first(), c.drop_first());
    }
}

pub proof fn lemma_lex_total(a: Seq<char>, b: Seq<char>)
    ensures
        a != b ==> (lex_lt(a, b) || lex_lt(b, a)),
    decreases a.len(),
{
    if a.len() > 0 && b.len() > 0 && a[0] == b[0] {
        lemma_lex_total(a.drop_first(), b.drop_first());
        if a.drop_first() == b.drop_first() {
            assert(a =~= seq![a[0]] + a.drop_first());
            assert(b =~= seq![b[0]] + b.drop_first());
        }
    } else if a.len() == 0 && b.len() == 0 {
        assert(a =~= b);
    } else if a.len() > 0 && b.len() > 0 {
        assert(a[0] != b[0]);
    }
}

/// Lexicographic comparison: `-1`, `0` or `1` as `a` sorts before, equal to
/// or after `b`.
pub fn lex_compare(a: &[char], b: &[char]) -> (r: i8)
    ensures
        r == 0 <==> a@ == b@,
        r < 0 <==> lex_lt(a@, b@),
        r > 0 <==> lex_lt(b@, a@),
{
    proof {
        lemma_lex_total(a@, b@);
        lemma_lex_asymmetric(a@, b@);
        lemma_lex_irreflexive(a@);
    }
    let mut i: usize = 0;
    assert(a@.skip(0) =~= a@);
    assert(b@.skip(0) =~= b@);
    assert(a@.take(0) =~= b@.take(0));
    while i < a.len() && i < b.len()
        invariant
            i <= a@.len(),
            i <= b@.len(),
            a@.take(i as int) == b@.take(i as int),
            lex_lt(a@, b@) == lex_lt(a@.skip(i as int), b@.skip(i as int)),
            lex_lt(b@, a@) == lex_lt(b@.skip(i as int), a@.skip(i as int)),
        decreases a@.len() - i,
    {
        let x = a[i];
        let y = b[i];
        if x < y {
            return -1;
        }
        if y < x {
            return 1;
        }
        assert(a@.skip(i as int).drop_first() =~= a@.skip(i + 1));
        assert(b@.skip(i as int).drop_first() =~= b@.skip(i + 1));
        assert(a@.take(i + 1) =~= a@.take(i as int).push(x));
        assert(b@.take(i + 1) =~= b@.take(i as int).push(y));
        i = i + 1;
    }
    if a.len() == b.len() {
        assert(a@ =~= a@.take(i as int));
        assert(b@ =~= b@.take(i as int));
        0
    } else if i == a.len() {
        -1
    } else {
        1
    }
}

// ── Whitespace-separated words ───────────────────────────────────────────────

/// The first index at or after `i` that holds no whitespace (or the length).
pub open spec fn skip_ws(s: Seq<char>, i: int) -> int
    decreases s.len() - i,
{
    if i >= s.len() || i < 0 {
        if i < 0 { 0 } else { s.len() as int }
    } else if is_ws(s[i]) {
        skip_ws(s, i + 1)
    } else {
        i
    }
}

/// The first index at or after `i` that holds whitespace (or the length).
pub open spec fn word_end(s: Seq<char>, i: int) -> int
    decreases s.len() - i,
{
    if i >= s.len() || i < 0 {
        if i < 0 { 0 } else { s.len() as int }
    } else if is_ws(s[i]) {
        i
    } else {
        word_end(s, i + 1)
    }
}

pub proof fn lemma_skip_ws_bounds(s: Seq<char>, i: int)
    requires
        0 <= i <= s.len(),
    ensures
        i <= skip_ws(s, i) <= s.len(),
        skip_ws(s, i) < s.len() ==> !is_ws(s[skip_ws(s, i)]),
        forall|k: int| i <= k < skip_ws(s, i) ==> is_ws(#[trigger] s[k]),
    decreases s.len() - i,
{
    if i < s.len() && is_ws(s[i]) {
        lemma_skip_ws_bounds(s, i + 1);
    }
}

pub proof fn lemma_word_end_bounds(s: Seq<char>, i: int)
    requires
        0 <= i <= s.len(),
    ensures
        i <= word_end(s, i) <= s.len(),
        word_end(s, i) < s.len() ==> is_ws(s[word_end(s, i)]),
        forall|k: int| i <= k < word_end(s, i) ==> !is_ws(#[trigger] s[k]),
    decreases s.len() - i,
{
    if i < s.len() && !is_ws(s[i]) {
        lemma_word_end_bounds(s, i + 1);
    }
}

/// The whitespace-separated words of `s` from index `i` on, as
/// `str::split_whitespace` yields them.
pub open spec fn words_from(s: Seq<char>, i: int) -> Seq<Seq<char>>
    decreases s.len() - i,
{
    let j = skip_ws(s, i);
    if i < 0 || i >= s.len() || j >= s.len() {
        seq![]
    } else {
        let k = word_end(s, j);
        if k <= i || k > s.len() {
            seq![]
        } else {
            seq![s.subrange(j, k)] + words_from(s, k)
        }
    }
}

/// The whitespace-separated words of `s`.
pub open spec fn words(s: Seq<char>) -> Seq<Seq<char>> {
    words_from(s, 0)
}

/// Whether every character of `s` is whitespace.
pub open spec fn all_ws(s: Seq<char>) -> bool {
    forall|k: int| 0 <= k < s.len() ==> is_ws(#[trigger] s[k])
}

/// Whether `s` is a single word: not empty, with no whitespace in it.
pub open spec fn bare_word(s: Seq<char>) -> bool {
    s.len() > 0 && forall|k: int| 0 <= k < s.len() ==> !is_ws(#[trigger] s[k])
}

proof fn lemma_skip_ws_shift(a: Seq<char>, b: Seq<char>, i: int)
    requires
        0 <= i <= b.len(),
    ensures
        skip_ws(a + b, a.len() + i) == a.len() + skip_ws(b, i),
    decreases b.len() - i,
{
    if i < b.len() {
        assert((a + b)[a.len() + i] == b[i]);
        if is_ws(b[i]) {
            lemma_skip_ws_shift(a, b, i + 1);
        }
    }
}

proof fn lemma_word_end_shift(a: Seq<char>, b: Seq<char>, i: int)
    requires
        0 <= i <= b.len(),
    ensures
        word_end(a + b, a.len() + i) == a.len() + word_end(b, i),
    decreases b.len() - i,
{
    if i < b.len() {
        assert((a + b)[a.len() + i] == b[i]);
        if !is_ws(b[i]) {
            lemma_word_end_shift(a, b, i + 1);
        }
    }
}

/// The words of `a + b` from inside `b` are those of `b`.
proof fn lemma_words_from_shift(a: Seq<char>, b: Seq<char>, i: int)
    requires
        0 <= i <= b.len(),
    ensures
        words_from(a + b, a.len() + i) == words_from(b, i),
    decreases b.len() - i,
{
    let s = a + b;
    let n = a.len() as int;
    lemma_skip_ws_shift(a, b, i);
    lemma_skip_ws_bounds(b, i);
    let j = skip_ws(b, i);
    if i < b.len() && j < b.len() {
        lemma_word_end_shift(a, b, j);
        lemma_word_end_bounds(b, j);
        let k = word_end(b, j);
        assert(k > j) by {
            if k == j {
                assert(!is_ws(b[j]));
            }
        }
        assert(s.subrange(n + j, n + k) =~= b.subrange(j, k));
        lemma_words_from_shift(a, b, k);
    }
}

proof fn lemma_skip_ws_over(s: Seq<char>, i: int, m: int)
    requires
        0 <= i <= m <= s.len(),
        forall|k: int| i <= k < m ==> is_ws(#[trigger] s[k]),
    ensures
        skip_ws(s, i) == skip_ws(s, m),
    decreases m - i,
{
    if i < m {
        lemma_skip_ws_over(s, i + 1, m);
    }
}

/// Whitespace in front changes no word.
pub proof fn lemma_words_ws_prefix(a: Seq<char>, b: Seq<char>)
    requires
        all_ws(a),
    ensures
        words(a + b) == words(b),
{
    let s = a + b;
    let n = a.len() as int;
    assert forall|k: int| 0 <= k < n implies is_ws(#[trigger] s[k]) by {
        assert(s[k] == a[k]);
    }
    lemma_skip_ws_over(s, 0, n);
    lemma_words_from_shift(a, b, 0);
    lemma_skip_ws_shift(a, b, 0);
    lemma_skip_ws_bounds(b, 0);
    let j = skip_ws(b, 0);
    if j < b.len() {
        lemma_word_end_shift(a, b, j);
        lemma_word_end_bounds(b, j);
        assert(word_end(b, j) > j) by {
            if word_end(b, j) == j {
                assert(!is_ws(b[j]));
            }
        }
    }
}

proof fn lemma_word_end_in_word(w: Seq<char>, b: Seq<char>, i: int)
    requires
        0 <= i <= w.len(),
        forall|k: int| 0 <= k < w.len() ==> !is_ws(#[trigger] w[k]),
        b.len() == 0 || is_ws(b[0]),
    ensures
        word_end(w + b, i) == w.len(),
    decreases w.len() - i,
{
    let s = w + b;
    if i < w.len() {
        assert(s[i] == w[i]);
        lemma_word_end_in_word(w, b, i + 1);
    } else if b.len() > 0 {
        assert(s[i] == b[0]);
    }
}

/// A word followed by nothing or by whitespace is the first word.
pub proof fn lemma_words_word_first(w: Seq<char>, b: Seq<char>)
    requires
        bare_word(w),
        b.len() == 0 || is_ws(b[0]),
    ensures
        words(w + b) == seq![w] + words(b),
{
    let s = w + b;
    assert(s[0] == w[0]);
    lemma_word_end_in_word(w, b, 0);
    assert(s.subrange(0, w.len() as int) =~= w);
    lemma_words_from_shift(w, b, 0);
}

proof fn lemma_skip_ws_to_end(s: Seq<char>, i: int)
    requires
        0 <= i <= s.len(),
        forall|k: int| i <= k < s.len() ==> is_ws(#[trigger] s[k]),
    ensures
        skip_ws(s, i) == s.len(),
    decreases s.len() - i,
{
    if i < s.len() {
        lemma_skip_ws_to_end(s, i + 1);
    }
}

proof fn lemma_skip_ws_ws_suffix(a: Seq<char>, b: Seq<char>, i: int)
    requires
        0 <= i <= a.len(),
        all_ws(b),
    ensures
        skip_ws(a + b, i) == if skip_ws(a, i) < a.len() { skip_ws(a, i) } else { (a + b).len() as int },
    decreases a.len() - i,
{
    let s = a + b;
    if i < a.len() {
        assert(s[i] == a[i]);
        if is_ws(a[i]) {
            lemma_skip_ws_ws_suffix(a, b, i + 1);
        }
    } else {
        assert forall|k: int| i <= k < s.len() implies is_ws(#[trigger] s[k]) by {
            assert(s[k] == b[k - a.len()]);
        }
        lemma_skip_ws_to_end(s, i);
    }
}

proof fn lemma_word_end_ws_suffix(a: Seq<char>, b: Seq<char>, j: int)
    requires
        0 <= j <= a.len(),
        b.len() == 0 || is_ws(b[0]),
    ensures
        word_end(a + b, j) == word_end(a, j),
    decreases a.len() - j,
{
    let s = a + b;
    if j < a.len() {
        assert(s[j] == a[j]);
        if !is_ws(a[j]) {
            lemma_word_end_ws_suffix(a, b, j + 1);
        }
    } else if b.len() > 0 {
        assert(s[j] == b[0]);
    }
}

proof fn lemma_words_from_ws_suffix(a: Seq<char>, b: Seq<char>, i: int)
    requires
        0 <= i <= a.len(),
        all_ws(b),
    ensures
        words_from(a + b, i) == words_from(a, i),
    decreases a.len() - i,
{
    let s = a + b;
    lemma_skip_ws_ws_suffix(a, b, i);
    lemma_skip_ws_bounds(a, i);
    let j = skip_ws(a, i);
    if i < a.len() && j < a.len() {
        if b.len() > 0 {
            assert(is_ws(b[0]));
        }
        lemma_word_end_ws_suffix(a, b, j);
        lemma_word_end_bounds(a, j);
        let k = word_end(a, j);
        assert(k > j) by {
            if k == j {
                assert(!is_ws(a[j]));
            }
        }
        assert(s.subrange(j, k) =~= a.subrange(j, k));
        lemma_words_from_ws_suffix(a, b, k);
    }
}

/// Whitespace behind changes no word.
pub proof fn lemma_words_ws_suffix(a: Seq<char>, b: Seq<char>)
    requires
        all_ws(b),
    ensures
        words(a + b) == words(a),
{
    lemma_words_from_ws_suffix(a, b, 0);
}

/// `join` of a piece in front of at least one more: the piece, the
/// separator, then the rest joined.
pub proof fn lemma_join_front(x: Seq<char>, rest: Seq<Seq<char>>, sep: Seq<char>)
    requires
        rest.len() > 0,
    ensures
        join(seq![x] + rest, sep) == x + sep + join(rest, sep),
    decreases rest.len(),
{
    let all = seq![x] + rest;
    if rest.len() == 1 {
        assert(all.drop_last() =~= seq![x]);
        assert(all.last() == rest[0]);
        assert(join(all.drop_last(), sep) == x);
        assert(join(rest, sep) == rest[0]);
        assert(join(all, sep) == x + sep + rest[0]);
    } else {
        lemma_join_front(x, rest.drop_last(), sep);
        assert(all.drop_last() =~= seq![x] + rest.drop_last());
        assert(all.last() == rest.last());
        assert(join(all, sep) == join(seq![x] + rest.drop_last(), sep) + sep + rest.last());
        assert(join(rest, sep) == join(rest.drop_last(), sep) + sep + rest.last());
        assert(x + sep + join(rest.drop_last(), sep) + sep + rest.last() =~= x + sep + (join(
            rest.drop_last(),
            sep,
        ) + sep + rest.last()));
    }
}

/// Words joined by single spaces split back into those words.
pub proof fn lemma_words_join(ts: Seq<Seq<char>>)
    requires
        forall|k: int| 0 <= k < ts.len() ==> bare_word(#[trigger] ts[k]),
    ensures
        words(join(ts, " "@)) == ts,
    decreases ts.len(),
{
    reveal_strlit(" ");
    assert(" "@ =~= seq![' ']);
    assert(is_ws(' '));
    if ts.len() == 0 {
        assert(words(join(ts, " "@)) =~= ts);
    } else if ts.len() == 1 {
        assert(bare_word(ts[0]));
        lemma_words_word_first(ts[0], seq![]);
        assert(ts[0] + Seq::<char>::empty() =~= ts[0]);
        assert(words(Seq::<char>::empty()) =~= Seq::<Seq<char>>::empty());
        assert(seq![ts[0]] + Seq::<Seq<char>>::empty() =~= ts);
    } else {
        let rest = ts.drop_first();
        assert(ts =~= seq![ts[0]] + rest);
        lemma_join_front(ts[0], rest, " "@);
        assert forall|k: int| 0 <= k < rest.len() implies bare_word(#[trigger] rest[k]) by {
            assert(rest[k] == ts[k + 1]);
        }
        lemma_words_join(rest);
        let tail = " "@ + join(rest, " "@);
        assert(bare_word(ts[0]));
        lemma_words_word_first(ts[0], tail);
        assert(ts[0] + " "@ + join(rest, " "@) =~= ts[0] + tail);
        lemma_words_ws_prefix(" "@, join(rest, " "@));
    }
}

/// Index of the first non-whitespace character at or after `i`.
pub fn skip_whitespace_from(s: &[char], i: usize) -> (j: usize)
    requires
        i <= s@.len(),
    ensures
        j == skip_ws(s@, i as int),
{
    let mut j = i;
    while j < s.len() && is_whitespace(s[j])
        invariant
            i <= j <= s@.len(),
            skip_ws(s@, i as int) == skip_ws(s@, j as int),
        decreases s@.len() - j,
    {
        j = j + 1;
    }
    j
}

/// Index of the first whitespace character at or after `i`.
pub fn word_end_from(s: &[char], i: usize) -> (j: usize)
    requires
        i <= s@.len(),
    ensures
        j == word_end(s@, i as int),
{
    let mut j = i;
    while j < s.len() && !is_whitespace(s[j])
        invariant
            i <= j <= s@.len(),
            word_end(s@, i as int) == word_end(s@, j as int),
        decreases s@.len() - j,
    {
        j = j + 1;
    }
    j
}

/// Copy of `s[from..to]`.
pub fn slice_to_vec(s: &[char], from: usize, to: usize) -> (v: Vec<char>)
    requires
        from <= to <= s@.len(),
    ensures
        v@ == s@.subrange(from as int, to as int),
{
    let mut v: Vec<char> = Vec::new();
    let mut i = from;
    while i < to
        invariant
            from <= i <= to,
            to <= s@.len(),
            v@ == s@.subrange(from as int, i as int),
        decreases to - i,
    {
        v.push(s[i]);
        i = i + 1;
        assert(v@ =~= s@.subrange(from as int, i as int));
    }
    v
}

/// The whitespace-separated words of `s`, as `str::split_whitespace` yields them.
pub fn split_words(s: &[char]) -> (r: Vec<Vec<char>>)
    ensures
        r@.len() == words(s@).len(),
        forall|k: int| 0 <= k < r@.len() ==> (#[trigger] r@[k])@ == words(s@)[k],
{
    let mut r: Vec<Vec<char>> = Vec::new();
    let mut i: usize = 0;
    while i < s.len()
        invariant
            i <= s@.len(),
            r@.len() + words_from(s@, i as int).len() == words(s@).len(),
            forall|k: int| 0 <= k < r@.len() ==> (#[trigger] r@[k])@ == words(s@)[k],
            forall|k: int|
                0 <= k < words_from(s@, i as int).len() ==> #[trigger] words_from(
                    s@,
                    i as int,
                )[k] == words(s@)[r@.len() + k],
        decreases s@.len() - i,
    {
        let j = skip_whitespace_from(s, i);
        proof {
            lemma_skip_ws_bounds(s@, i as int);
        }
        if j >= s.len() {
            i = s.len();
            proof {
                assert(words_from(s@, i as int) =~= seq![]);
            }
        } else {
            let k = word_end_from(s, j);
            proof {
                lemma_word_end_bounds(s@, j as int);
                assert(k > j);
                let w = words_from(s@, i as int);
                assert(w == seq![s@.subrange(j as int, k as int)] + words_from(s@, k as int));
                assert(w[0] == s@.subrange(j as int, k as int));
                assert forall|m: int| 0 <= m < words_from(s@, k as int).len() implies #[trigger] words_from(
                    s@,
                    k as int,
                )[m] == words(s@)[r@.len() + 1 + m] by {
                    assert(w[m + 1] == words_from(s@, k as int)[m]);
                }
            }
            let word = slice_to_vec(s, j, k);
            r.push(word);
            i = k;
        }
    }
    proof {
        assert(words_from(s@, i as int) =~= seq![]);
    }
    r
}

// ── Trimming and searching ───────────────────────────────────────────────────

/// The index just past the last non-whitespace character before `i`.
pub open spec fn trim_end_at(s: Seq<char>, i: int) -> int
    decreases i,
{
    if i <= 0 {
        0
    } else if i > s.len() {
        trim_end_at(s, s.len() as int)
    } else if is_ws(s[i - 1]) {
        trim_end_at(s, i - 1)
    } else {
        i
    }
}

/// `s` without leading and trailing whitespace, as `str::trim` gives it.
pub open spec fn trim(s: Seq<char>) -> Seq<char> {
    let b = skip_ws(s, 0);
    let e = trim_end_at(s, s.len() as int);
    if b >= e {
        seq![]
    } else {
        s.subrange(b, e)
    }
}

pub proof fn lemma_trim_end_bounds(s: Seq<char>, i: int)
    requires
        0 <= i <= s.len(),
    ensures
        0 <= trim_end_at(s, i) <= i,
        trim_end_at(s, i) > 0 ==> !is_ws(s[trim_end_at(s, i) - 1]),
        forall|k: int| trim_end_at(s, i) <= k < i ==> is_ws(#[trigger] s[k]),
    decreases i,
{
    if i > 0 && is_ws(s[i - 1]) {
        lemma_trim_end_bounds(s, i - 1);
    }
}

/// `s` without leading and trailing whitespace.
pub fn trim_chars(s: &[char]) -> (r: Vec<char>)
    ensures
        r@ == trim(s@),
{
    let b = skip_whitespace_from(s, 0);
    let mut e = s.len();
    while e > 0 && is_whitespace(s[e - 1])
        invariant
            e <= s@.len(),
            trim_end_at(s@, s@.len() as int) == trim_end_at(s@, e as int),
        decreases e,
    {
        e = e - 1;
    }
    if b >= e {
        Vec::new()
    } else {
        proof {
            lemma_skip_ws_bounds(s@, 0);
        }
        slice_to_vec(s, b, e)
    }
}

/// Whether `p` occurs in `s` starting at index `j`.
pub open spec fn occurs_at(s: Seq<char>, p: Seq<char>, j: int) -> bool {
    0 <= j && j + p.len() <= s.len() && s.subrange(j, j + p.len()) == p
}

/// The first index at or after `i` at which `p` occurs in `s`, if any.
pub open spec fn find_from(s: Seq<char>, p: Seq<char>, i: int) -> Option<int>
    decreases s.len() + 1 - i,
{
    if i < 0 || i + p.len() > s.len() {
        None
    } else if occurs_at(s, p, i) {
        Some(i)
    } else {
        find_from(s, p, i + 1)
    }
}

pub proof fn lemma_find_from(s: Seq<char>, p: Seq<char>, i: int)
    requires
        0 <= i,
    ensures
        find_from(s, p, i) matches Some(j) ==> i <= j && occurs_at(s, p, j) && forall|k: int|
            i <= k < j ==> !occurs_at(s, p, k),
        find_from(s, p, i) is None ==> forall|k: int| i <= k ==> !occurs_at(s, p, k),
    decreases s.len() + 1 - i,
{
    if i + p.len() <= s.len() && !occurs_at(s, p, i) {
        lemma_find_from(s, p, i + 1);
    }
}

/// The first index at which `p` occurs in `s`, as `str::find` reports it.
pub fn find_seq(s: &[char], p: &[char]) -> (r: Option<usize>)
    ensures
        r matches Some(j) ==> find_from(s@, p@, 0) == Some(j as int),
        r is None ==> find_from(s@, p@, 0) is None,
{
    find_seq_from(s, p, 0)
}

/// The first index at or after `start` at which `p` occurs in `s`.
pub fn find_seq_from(s: &[char], p: &[char], start: usize) -> (r: Option<usize>)
    ensures
        r matches Some(j) ==> find_from(s@, p@, start as int) == Some(j as int),
        r is None ==> find_from(s@, p@, start as int) is None,
{
    if p.len() > s.len() || start > s.len() - p.len() {
        return None;
    }
    let mut i: usize = start;
    while i <= s.len() - p.len()
        invariant
            p@.len() <= s@.len(),
            start <= i <= s@.len() - p@.len() + 1,
            find_from(s@, p@, start as int) == find_from(s@, p@, i as int),
        decreases s@.len() + 1 - i,
    {
        let mut k: usize = 0;
        let mut ok = true;
        while k < p.len()
            invariant
                i + p@.len() <= s@.len(),
                k <= p@.len(),
                ok == forall|m: int| 0 <= m < k ==> s@[i + m] == p@[m],
            decreases p@.len() - k,
        {
            let n = s.len();
            assert(i + k < n);
            if s[i + k] != p[k] {
                ok = false;
            }
            k = k + 1;
        }
        if ok {
            assert(s@.subrange(i as int, i + p@.len()) =~= p@);
            return Some(i);
        } else {
            assert(!occurs_at(s@, p@, i as int)) by {
                if occurs_at(s@, p@, i as int) {
                    let m = choose|m: int| 0 <= m < p@.len() && s@[i + m] != p@[m];
                    assert(s@.subrange(i as int, i + p@.len())[m] == s@[i + m]);
                }
            }
        }
        i = i + 1;
    }
    None
}


// ── Building text ────────────────────────────────────────────────────────────

/// Appends the characters of `s` to `v`.
pub fn push_all(v: &mut Vec<char>, s: &[char])
    ensures
        final(v)@ == old(v)@ + s@,
{
    let mut i: usize = 0;
    while i < s.len()
        invariant
            i <= s@.len(),
            v@ == old(v)@ + s@.take(i as int),
        decreases s@.len() - i,
    {
        v.push(s[i]);
        i = i + 1;
        assert(v@ =~= old(v)@ + s@.take(i as int));
    }
    assert(s@.take(i as int) =~= s@);
}

/// Appends the characters of the literal `lit` to `v`.
pub fn push_lit(v: &mut Vec<char>, lit: &str)
    ensures
        final(v)@ == old(v)@ + lit@,
{
    let n = lit.unicode_len();
    let mut i: usize = 0;
    while i < n
        invariant
            n == lit@.len(),
            i <= n,
            v@ == old(v)@ + lit@.take(i as int),
        decreases n - i,
    {
        v.push(lit.get_char(i));
        i = i + 1;
        assert(v@ =~= old(v)@ + lit@.take(i as int));
    }
    assert(lit@.take(i as int) =~= lit@);
}

/// Appends the characters of `s` to `v`.
pub fn push_string(v: &mut Vec<char>, s: &String)
    ensures
        final(v)@ == old(v)@ + s@,
{
    let c = chars_of_string(s);
    push_all(v, c.as_slice());
}

/// `seqs` joined with `sep` between neighbours.
pub open spec fn join(seqs: Seq<Seq<char>>, sep: Seq<char>) -> Seq<char>
    decreases seqs.len(),
{
    if seqs.len() == 0 {
        seq![]
    } else if seqs.len() == 1 {
        seqs[0]
    } else {
        join(seqs.drop_last(), sep) + sep + seqs.last()
    }
}

/// The decimal digit for `d < 10`.
pub open spec fn digit_char(d: nat) -> char {
    if d == 0 { '0' } else if d == 1 { '1' } else if d == 2 { '2' } else if d == 3 { '3' }
    else if d == 4 { '4' } else if d == 5 { '5' } else if d == 6 { '6' } else if d == 7 { '7' }
    else if d == 8 { '8' } else { '9' }
}

/// The decimal representation of `n`, as `format!("{}", n)` writes it.
pub open spec fn decimal(n: nat) -> Seq<char>
    decreases n,
{
    if n < 10 {
        seq![digit_char(n)]
    } else {
        decimal(n / 10).push(digit_char(n % 10))
    }
}

fn digit_of(d: usize) -> (c: char)
    requires
        d < 10,
    ensures
        c == digit_char(d as nat),
{
    if d == 0 { '0' } else if d == 1 { '1' } else if d == 2 { '2' } else if d == 3 { '3' }
    else if d == 4 { '4' } else if d == 5 { '5' } else if d == 6 { '6' } else if d == 7 { '7' }
    else if d == 8 { '8' } else { '9' }
}

/// Appends the decimal representation of `n` to `v`.
pub fn push_decimal(v: &mut Vec<char>, n: usize)
    ensures
        final(v)@ == old(v)@ + decimal(n as nat),
    decreases n,
{
    if n < 10 {
        v.push(digit_of(n));
        assert(v@ =~= old(v)@ + decimal(n as nat));
    } else {
        push_decimal(v, n / 10);
        v.push(digit_of(n % 10));
        assert(v@ =~= old(v)@ + decimal(n as nat));
    }
}


// ── Quoting ──────────────────────────────────────────────────────────────────

/// How one character is written inside a quoted string: quote, backslash,
/// newline, carriage return, tab and NUL as backslash escapes.
pub open spec fn escape_char(c: char) -> Seq<char> {
    if c == '"' {
        seq!['\\', '"']
    } else if c == '\\' {
        seq!['\\', '\\']
    } else if c == '\n' {
        seq!['\\', 'n']
    } else if c == '\r' {
        seq!['\\', 'r']
    } else if c == '\t' {
        seq!['\\', 't']
    } else if c == '\0' {
        seq!['\\', '0']
    } else {
        seq![c]
    }
}

/// Every character of `s` escaped.
pub open spec fn escape_all(s: Seq<char>) -> Seq<char>
    decreases s.len(),
{
    if s.len() == 0 {
        seq![]
    } else {
        escape_all(s.drop_last()) + escape_char(s.last())
    }
}

/// `s` in double quotes, with its special characters escaped.
pub open spec fn quoted(s: Seq<char>) -> Seq<char> {
    seq!['"'] + escape_all(s) + seq!['"']
}

/// Appends `s` in double quotes, with its special characters escaped.
pub fn push_quoted(out: &mut Vec<char>, s: &[char])
    ensures
        final(out)@ == old(out)@ + quoted(s@),
{
    out.push('"');
    let ghost start = out@;
    let mut i: usize = 0;
    while i < s.len()
        invariant
            i <= s@.len(),
            out@ == start + escape_all(s@.take(i as int)),
        decreases s@.len() - i,
    {
        let c = s[i];
        if c == '"' {
            out.push('\\');
            out.push('"');
        } else if c == '\\' {
            out.push('\\');
            out.push('\\');
        } else if c == '\n' {
            out.push('\\');
            out.push('n');
        } else if c == '\r' {
            out.push('\\');
            out.push('r');
        } else if c == '\t' {
            out.push('\\');
            out.push('t');
        } else if c == '\0' {
            out.push('\\');
            out.push('0');
        } else {
            out.push(c);
        }
        assert(s@.take(i + 1).drop_last() =~= s@.take(i as int));
        i = i + 1;
        assert(out@ =~= start + escape_all(s@.take(i as int)));
    }
    assert(s@.take(i as int) =~= s@);
    out.push('"');
    assert(out@ =~= old(out)@ + quoted(s@));
}


/// Appends the decimal representation of `n` to `v`.
pub fn push_u64(v: &mut Vec<char>, n: u64)
    ensures
        final(v)@ == old(v)@ + decimal(n as nat),
    decreases n,
{
    if n < 10 {
        v.push(digit_of(n as usize));
        assert(v@ =~= old(v)@ + decimal(n as nat));
    } else {
        push_u64(v, n / 10);
        v.push(digit_of((n % 10) as usize));
        assert(v@ =~= old(v)@ + decimal(n as nat));
    }
}

/// The decimal representation of an integer, with a leading `-` when it is
/// negative.
pub open spec fn int_text(n: int) -> Seq<char> {
    if n < 0 {
        seq!['-'] + decimal((-n) as nat)
    } else {
        decimal(n as nat)
    }
}

/// Appends the decimal representation of `n` to `v`.
pub fn push_i64(v: &mut Vec<char>, n: i64)
    ensures
        final(v)@ == old(v)@ + int_text(n as int),
{
    if n < 0 {
        v.push('-');
        let m: u64 = if n == i64::MIN {
            0x8000_0000_0000_0000u64
        } else {
            (-n) as u64
        };
        push_u64(v, m);
        assert(v@ =~= old(v)@ + int_text(n as int));
    } else {
        push_u64(v, n as u64);
    }
}

} // verus!
