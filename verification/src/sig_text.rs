//! Written signatures read back: which signatures `show_sig` writes in a
//! form that `parse_sig_v` reads as the same signature.

use vstd::prelude::*;

use crate::text::{
    all_ws, bare_word, find_from, is_ws, join, lemma_find_from, lemma_join_front, lemma_skip_ws_bounds,
    lemma_trim_end_bounds, lemma_words_join, lemma_words_ws_prefix, lemma_words_ws_suffix, occurs_at,
    skip_ws, trim, trim_end_at, words,
};
use crate::types::{
    is_ascii_lower, is_ascii_upper, labels_of, lemma_effects_union, lemma_sorted_same_members,
    parse_sig_v, prim_from_name, row_from_words, show_row, show_sig, show_stype, show_types,
    stype_from_token, strictly_sorted, effects_union, PrimV, RowV, SigV, STypeV,
};

verus! {

/// Whether no two dashes stand side by side in `s`.
pub open spec fn no_double_dash(s: Seq<char>) -> bool {
    forall|k: int| #![trigger s[k]] 0 <= k && k + 1 < s.len() ==> !(s[k] == '-' && s[k + 1] == '-')
}

/// Whether `s` holds no `|`.
pub open spec fn no_bar(s: Seq<char>) -> bool {
    forall|k: int| 0 <= k < s.len() ==> #[trigger] s[k] != '|'
}

/// A stack type whose written form reads back as that type: a one-letter
/// lowercase type variable, a built-in primitive, or a named type that is a
/// single word and neither a built-in name nor a one-letter lowercase name.
pub open spec fn plain_stype(t: STypeV) -> bool {
    match t {
        STypeV::TypeVar(v) => v.len() == 1 && is_ascii_lower(v[0]),
        STypeV::Primitive(PrimV::Named(n)) => {
            &&& bare_word(n)
            &&& !(n.len() == 1 && is_ascii_lower(n[0]))
            &&& n != "int"@ && n != "float"@ && n != "bool"@ && n != "str"@ && n != "char"@
        },
        STypeV::Primitive(_) => true,
        STypeV::Quotation(_) => false,
    }
}

/// The written forms of the types `ts`.
pub open spec fn type_tokens(ts: Seq<STypeV>) -> Seq<Seq<char>> {
    Seq::new(ts.len(), |i: int| show_stype(ts[i]))
}

/// The words a row is written with: its variable, then its types.
pub open spec fn row_tokens(r: RowV) -> Seq<Seq<char>> {
    match r.var {
        Some(v) => seq![v] + type_tokens(r.types),
        None => type_tokens(r.types),
    }
}

/// A row whose written form reads back as that row: plain types, and a row
/// variable that is a word starting with an uppercase letter; without one,
/// the first type does not start with an uppercase letter.
pub open spec fn plain_row(r: RowV) -> bool {
    &&& forall|i: int| 0 <= i < r.types.len() ==> plain_stype(#[trigger] r.types[i])
    &&& match r.var {
        Some(v) => bare_word(v) && is_ascii_upper(v[0]),
        None => r.types.len() > 0 ==> !is_ascii_upper(show_stype(r.types[0])[0]),
    }
}

proof fn lemma_keywords()
    ensures
        "int"@ =~= seq!['i', 'n', 't'],
        "float"@ =~= seq!['f', 'l', 'o', 'a', 't'],
        "bool"@ =~= seq!['b', 'o', 'o', 'l'],
        "str"@ =~= seq!['s', 't', 'r'],
        "char"@ =~= seq!['c', 'h', 'a', 'r'],
{
    reveal_strlit("int");
    reveal_strlit("float");
    reveal_strlit("bool");
    reveal_strlit("str");
    reveal_strlit("char");
}

/// A plain stack type is written as a single word that reads back as it.
pub proof fn lemma_plain_stype(t: STypeV)
    requires
        plain_stype(t),
    ensures
        bare_word(show_stype(t)),
        stype_from_token(show_stype(t)) == t,
{
    lemma_keywords();
    match t {
        STypeV::TypeVar(v) => {
            assert(!is_ws(v[0]));
        },
        STypeV::Primitive(p) => {
            match p {
                PrimV::Named(n) => {
                    assert(prim_from_name(n) == PrimV::Named(n));
                },
                _ => {
                    let w = show_stype(t);
                    assert(forall|k: int| 0 <= k < w.len() ==> !is_ws(#[trigger] w[k]));
                    assert(w.len() > 1);
                    assert(prim_from_name(w) == p);
                },
            }
        },
        STypeV::Quotation(_) => {},
    }
}

/// Types are written as their written forms separated by single spaces.
pub proof fn lemma_show_types(ts: Seq<STypeV>)
    ensures
        show_types(ts) == join(type_tokens(ts), " "@),
    decreases ts.len(),
{
    let tt = type_tokens(ts);
    if ts.len() == 0 {
        assert(tt =~= Seq::<Seq<char>>::empty());
    } else if ts.len() == 1 {
        assert(tt.len() == 1);
    } else {
        let init = ts.subrange(0, ts.len() - 1);
        lemma_show_types(init);
        assert(type_tokens(init) =~= tt.drop_last());
        assert(tt.last() == show_stype(ts[ts.len() - 1]));
    }
}

/// A row is written as its words separated by single spaces.
pub proof fn lemma_show_row(r: RowV)
    ensures
        show_row(r) == join(row_tokens(r), " "@),
{
    lemma_show_types(r.types);
    let tt = type_tokens(r.types);
    match r.var {
        Some(v) => {
            if r.types.len() > 0 {
                lemma_join_front(v, tt, " "@);
                assert(show_row(r) == v + " "@ + show_types(r.types));
            } else {
                assert(tt =~= Seq::<Seq<char>>::empty());
                assert(seq![v] + tt =~= seq![v]);
                assert(show_row(r) =~= v);
            }
        },
        None => {
            assert(show_row(r) =~= show_types(r.types));
        },
    }
}

/// The words of a plain row are words, and read back as the row.
pub proof fn lemma_plain_row(r: RowV)
    requires
        plain_row(r),
    ensures
        forall|k: int| 0 <= k < row_tokens(r).len() ==> bare_word(#[trigger] row_tokens(r)[k]),
        row_from_words(row_tokens(r)) == r,
{
    let tt = type_tokens(r.types);
    assert forall|k: int| 0 <= k < tt.len() implies bare_word(#[trigger] tt[k])
        && stype_from_token(tt[k]) == r.types[k] by {
        lemma_plain_stype(r.types[k]);
    }
    let ws = row_tokens(r);
    match r.var {
        Some(v) => {
            assert(ws[0] == v);
            assert forall|k: int| 0 <= k < ws.len() implies bare_word(#[trigger] ws[k]) by {
                if k > 0 {
                    assert(ws[k] == tt[k - 1]);
                }
            }
            let got = row_from_words(ws);
            assert(got.types =~= r.types) by {
                assert forall|i: int| 0 <= i < r.types.len() implies got.types[i] == r.types[i] by {
                    assert(ws[i + 1] == tt[i]);
                }
            }
        },
        None => {
            if r.types.len() > 0 {
                lemma_plain_stype(r.types[0]);
                assert(ws[0] == show_stype(r.types[0]));
            }
            let got = row_from_words(ws);
            assert(got.types =~= r.types);
        },
    }
}

/// Joining by spaces puts no two dashes side by side where no word has them.
pub proof fn lemma_join_no_double_dash(ts: Seq<Seq<char>>)
    requires
        forall|k: int| 0 <= k < ts.len() ==> no_double_dash(#[trigger] ts[k]),
    ensures
        no_double_dash(join(ts, " "@)),
    decreases ts.len(),
{
    reveal_strlit(" ");
    if ts.len() > 1 {
        let init = ts.drop_last();
        assert forall|k: int| 0 <= k < init.len() implies no_double_dash(#[trigger] init[k]) by {
            assert(init[k] == ts[k]);
        }
        lemma_join_no_double_dash(init);
        let a = join(init, " "@);
        let l = ts.last();
        assert(no_double_dash(l));
        let j = a + " "@ + l;
        assert(join(ts, " "@) == j);
        assert forall|k: int| #![trigger j[k]] 0 <= k && k + 1 < j.len() implies !(j[k] == '-' && j[k
            + 1] == '-') by {
            if k + 1 < a.len() {
                assert(j[k] == a[k] && j[k + 1] == a[k + 1]);
            } else if k + 1 == a.len() {
                assert(j[k + 1] == ' ');
            } else if k == a.len() {
                assert(j[k] == ' ');
            } else {
                assert(j[k] == l[k - a.len() - 1] && j[k + 1] == l[k + 1 - a.len() - 1]);
            }
        }
    } else if ts.len() == 1 {
        assert(no_double_dash(ts[0]));
    }
}

/// Joining by spaces brings in no `|`.
pub proof fn lemma_join_no_bar(ts: Seq<Seq<char>>)
    requires
        forall|k: int| 0 <= k < ts.len() ==> no_bar(#[trigger] ts[k]),
    ensures
        no_bar(join(ts, " "@)),
    decreases ts.len(),
{
    reveal_strlit(" ");
    if ts.len() > 1 {
        let init = ts.drop_last();
        assert forall|k: int| 0 <= k < init.len() implies no_bar(#[trigger] init[k]) by {
            assert(init[k] == ts[k]);
        }
        lemma_join_no_bar(init);
        let a = join(init, " "@);
        let l = ts.last();
        assert(no_bar(l));
        let j = a + " "@ + l;
        assert forall|k: int| 0 <= k < j.len() implies #[trigger] j[k] != '|' by {
            if k < a.len() {
                assert(j[k] == a[k]);
            } else if k == a.len() {
                assert(j[k] == ' ');
            } else {
                assert(j[k] == l[k - a.len() - 1]);
            }
        }
    } else if ts.len() == 1 {
        assert(no_bar(ts[0]));
    }
}

/// Labels already in increasing order are gathered as they are.
pub proof fn lemma_labels_of_sorted(e: Seq<Seq<char>>)
    requires
        strictly_sorted(e),
    ensures
        labels_of(e) == e,
    decreases e.len(),
{
    if e.len() > 0 {
        let init = e.drop_last();
        assert(strictly_sorted(init)) by {
            assert forall|i: int, j: int| 0 <= i < j < init.len() implies crate::text::lex_lt(
                #[trigger] init[i],
                #[trigger] init[j],
            ) by {
                assert(init[i] == e[i] && init[j] == e[j]);
            }
        }
        lemma_labels_of_sorted(init);
        let one = seq![e.last()];
        lemma_effects_union(init, one);
        let u = effects_union(init, one);
        assert forall|x: Seq<char>| u.contains(x) <==> e.contains(x) by {
            if e.contains(x) {
                let k = choose|k: int| 0 <= k < e.len() && e[k] == x;
                if k < e.len() - 1 {
                    assert(init[k] == x);
                    assert(init.contains(x));
                } else {
                    assert(one[0] == x);
                    assert(one.contains(x));
                }
            }
            if init.contains(x) {
                let k = choose|k: int| 0 <= k < init.len() && init[k] == x;
                assert(e[k] == x);
            }
            if one.contains(x) {
                assert(e[e.len() - 1] == x);
            }
        }
        lemma_sorted_same_members(u, e);
    }
}

/// The first character of words joined by spaces is that of the first word.
pub proof fn lemma_join_first(ts: Seq<Seq<char>>)
    requires
        ts.len() > 0,
        ts[0].len() > 0,
    ensures
        join(ts, " "@).len() > 0,
        join(ts, " "@)[0] == ts[0][0],
{
    if ts.len() > 1 {
        let rest = ts.drop_first();
        assert(ts =~= seq![ts[0]] + rest);
        lemma_join_front(ts[0], rest, " "@);
    }
}

/// The last character of words joined by spaces is that of the last word.
pub proof fn lemma_join_last(ts: Seq<Seq<char>>)
    requires
        ts.len() > 0,
        ts.last().len() > 0,
    ensures
        join(ts, " "@).len() > 0,
        join(ts, " "@).last() == ts.last().last(),
{
}

/// A text that neither starts nor ends with whitespace is its own trim.
proof fn lemma_trim_solid(s: Seq<char>)
    requires
        s.len() > 0,
        !is_ws(s[0]),
        !is_ws(s[s.len() - 1]),
    ensures
        trim(s) == s,
{
    assert(s.subrange(0, s.len() as int) =~= s);
}

/// A plain signature: plain rows, no `--` inside a word of the input row,
/// no `|` inside a word of the output row, and effect labels that are words
/// in increasing order.
pub open spec fn plain_sig(s: SigV) -> bool {
    &&& plain_row(s.input)
    &&& plain_row(s.output)
    &&& forall|k: int| 0 <= k < row_tokens(s.input).len() ==> no_double_dash(#[trigger] row_tokens(s.input)[k])
    &&& forall|k: int| 0 <= k < row_tokens(s.output).len() ==> no_bar(#[trigger] row_tokens(s.output)[k])
    &&& forall|k: int| 0 <= k < s.effects.len() ==> bare_word(#[trigger] s.effects[k])
    &&& strictly_sorted(s.effects)
}

/// The words of ` text ` are those of a row's written form.
proof fn lemma_words_padded_row(r: RowV)
    requires
        plain_row(r),
    ensures
        words(" "@ + show_row(r) + " "@) == row_tokens(r),
{
    reveal_strlit(" ");
    assert(is_ws(' '));
    lemma_show_row(r);
    lemma_plain_row(r);
    lemma_words_join(row_tokens(r));
    let a = show_row(r);
    assert(all_ws(" "@));
    lemma_words_ws_prefix(" "@, a + " "@);
    assert(" "@ + a + " "@ =~= " "@ + (a + " "@));
    lemma_words_ws_suffix(a, " "@);
}

/// In `p -- q` cut to `lo..hi` around the dashes, the first `--` is the
/// one after `p`.
proof fn lemma_dashes_first(p: Seq<char>, q: Seq<char>, lo: int, hi: int)
    requires
        no_double_dash(p),
        p.len() > 0,
        p[p.len() - 1] == ' ',
        0 <= lo <= p.len(),
        p.len() + 2 <= hi <= p.len() + 2 + q.len(),
    ensures
        find_from((p + "--"@ + q).subrange(lo, hi), "--"@, 0) == Some(p.len() - lo),
{
    reveal_strlit("--");
    let x = p + "--"@ + q;
    let t = x.subrange(lo, hi);
    let j = p.len() - lo;
    assert(occurs_at(t, "--"@, j)) by {
        assert(t.subrange(j, j + 2) =~= "--"@);
    }
    assert forall|k: int| 0 <= k < j implies !occurs_at(t, "--"@, k) by {
        if occurs_at(t, "--"@, k) {
            assert(t.subrange(k, k + 2)[0] == '-' && t.subrange(k, k + 2)[1] == '-');
            assert(t[k] == p[lo + k]);
            if lo + k + 1 < p.len() {
                assert(t[k + 1] == p[lo + k + 1]);
            }
        }
    }
    lemma_find_from(t, "--"@, 0);
}

/// In ` b ` followed by `|` and more, cut at `n` past the bar, the first
/// `|` is that bar when `b` has none.
proof fn lemma_bar_first(b: Seq<char>, tail: Seq<char>, n: int)
    requires
        no_bar(b),
        b.len() + 3 <= n <= b.len() + 3 + tail.len(),
    ensures
        find_from((" "@ + b + " "@ + "|"@ + tail).subrange(0, n), "|"@, 0) == Some(b.len() + 2int),
{
    reveal_strlit(" ");
    reveal_strlit("|");
    let q = " "@ + b + " "@ + "|"@ + tail;
    let r = q.subrange(0, n);
    let bar = b.len() + 2int;
    assert(occurs_at(r, "|"@, bar)) by {
        assert(r.subrange(bar, bar + 1) =~= "|"@);
    }
    assert forall|k: int| 0 <= k < bar implies !occurs_at(r, "|"@, k) by {
        if occurs_at(r, "|"@, k) {
            assert(r.subrange(k, k + 1)[0] == '|');
            assert(r[k] == q[k]);
            if k >= 1 && k <= b.len() {
                assert(q[k] == b[k - 1]);
            }
        }
    }
    lemma_find_from(r, "|"@, 0);
}

/// In ` b ` cut at `n`, there is no `|` when `b` has none.
proof fn lemma_no_bar_at_all(b: Seq<char>, n: int)
    requires
        no_bar(b),
        0 <= n <= b.len() + 2,
    ensures
        find_from((" "@ + b + " "@).subrange(0, n), "|"@, 0) is None,
{
    reveal_strlit(" ");
    reveal_strlit("|");
    let q = " "@ + b + " "@;
    let r = q.subrange(0, n);
    assert forall|k: int| 0 <= k implies !occurs_at(r, "|"@, k) by {
        if occurs_at(r, "|"@, k) {
            assert(r.subrange(k, k + 1)[0] == '|');
            assert(r[k] == q[k]);
            if k >= 1 && k <= b.len() {
                assert(q[k] == b[k - 1]);
            }
        }
    }
    lemma_find_from(r, "|"@, 0);
}

/// Cutting whitespace off the end of a text changes none of its words.
proof fn lemma_words_cut(t: Seq<char>, n: int)
    requires
        0 <= n <= t.len(),
        all_ws(t.subrange(n, t.len() as int)),
    ensures
        words(t.subrange(0, n)) == words(t),
{
    assert(t =~= t.subrange(0, n) + t.subrange(n, t.len() as int));
    lemma_words_ws_suffix(t.subrange(0, n), t.subrange(n, t.len() as int));
}

/// The words of effect labels written with a space on each side.
proof fn lemma_words_padded_labels(e: Seq<Seq<char>>)
    requires
        forall|k: int| 0 <= k < e.len() ==> bare_word(#[trigger] e[k]),
    ensures
        words(" "@ + join(e, " "@) + " "@) == e,
{
    reveal_strlit(" ");
    assert(is_ws(' '));
    let l = join(e, " "@);
    lemma_words_join(e);
    assert(all_ws(" "@));
    lemma_words_ws_prefix(" "@, l + " "@);
    assert(" "@ + l + " "@ =~= " "@ + (l + " "@));
    lemma_words_ws_suffix(l, " "@);
}

/// The text after the effect bar, if there are effects.
pub open spec fn effects_text(s: SigV) -> Seq<char> {
    if s.effects.len() == 0 {
        Seq::<char>::empty()
    } else {
        " | "@ + join(s.effects, " "@)
    }
}

/// The input row of a written signature, with a space on each side.
pub open spec fn padded_input(s: SigV) -> Seq<char> {
    " "@ + show_row(s.input) + " "@
}

/// What follows the `--` of a written signature, up to its last space.
pub open spec fn after_dashes(s: SigV) -> Seq<char> {
    " "@ + show_row(s.output) + effects_text(s) + " "@
}

/// The inside of a written signature, trimmed, is the text around its
/// `--` with the outer whitespace cut off at `lo` and `hi`.
proof fn lemma_sig_inside(s: SigV) -> (r: (int, int))
    requires
        plain_sig(s),
    ensures
        ({
            let text = show_sig(s);
            let t1 = text.subrange(1, text.len() as int);
            let p = padded_input(s);
            let x = p + "--"@ + after_dashes(s);
            &&& trim(text) == text
            &&& text.len() > 0 && text[0] == '('
            &&& t1.len() > 0 && t1[t1.len() - 1] == ')'
            &&& trim(t1.subrange(0, t1.len() - 1)) == x.subrange(r.0, r.1)
            &&& 0 <= r.0 <= p.len()
            &&& p.len() + 2 <= r.1 <= x.len()
            &&& all_ws(x.subrange(0, r.0))
            &&& all_ws(x.subrange(r.1, x.len() as int))
        }),
{
    reveal_strlit(" ");
    reveal_strlit("( ");
    reveal_strlit(" -- ");
    reveal_strlit(" )");
    reveal_strlit("--");
    assert(!is_ws('('));
    assert(!is_ws(')'));
    assert(!is_ws('-'));
    let a = show_row(s.input);
    let text = show_sig(s);
    assert(text =~= "( "@ + a + " -- "@ + show_row(s.output) + effects_text(s) + " )"@);
    lemma_trim_solid(text);
    let t1 = text.subrange(1, text.len() as int);
    let x = t1.subrange(0, t1.len() - 1);
    let p = padded_input(s);
    assert(x =~= p + "--"@ + after_dashes(s));
    let pl = p.len() as int;
    lemma_skip_ws_bounds(x, 0);
    lemma_trim_end_bounds(x, x.len() as int);
    let lo = skip_ws(x, 0);
    let hi = trim_end_at(x, x.len() as int);
    assert(lo <= pl) by {
        if lo > pl {
            assert(is_ws(x[pl]));
        }
    }
    assert(hi >= pl + 2) by {
        if hi < pl + 2 {
            assert(is_ws(x[pl + 1]));
        }
    }
    assert(all_ws(x.subrange(0, lo))) by {
        assert forall|k: int| 0 <= k < lo implies is_ws(#[trigger] x.subrange(0, lo)[k]) by {
            assert(x.subrange(0, lo)[k] == x[k]);
        }
    }
    assert(all_ws(x.subrange(hi, x.len() as int))) by {
        assert forall|k: int| 0 <= k < x.len() - hi implies is_ws(
            #[trigger] x.subrange(hi, x.len() as int)[k],
        ) by {
            assert(x.subrange(hi, x.len() as int)[k] == x[hi + k]);
        }
    }
    (lo, hi)
}

/// The input part of a written signature reads back as its input row.
proof fn lemma_sig_input(s: SigV, lo: int)
    requires
        plain_sig(s),
        0 <= lo <= padded_input(s).len(),
        all_ws(padded_input(s).subrange(0, lo)),
    ensures
        row_from_words(words(padded_input(s).subrange(lo, padded_input(s).len() as int))) == s.input,
        no_double_dash(padded_input(s)),
        padded_input(s).len() > 0,
        padded_input(s)[padded_input(s).len() - 1] == ' ',
{
    reveal_strlit(" ");
    let p = padded_input(s);
    let a = show_row(s.input);
    lemma_show_row(s.input);
    lemma_plain_row(s.input);
    lemma_join_no_double_dash(row_tokens(s.input));
    assert forall|k: int| #![trigger p[k]] 0 <= k && k + 1 < p.len() implies !(p[k] == '-' && p[k
        + 1] == '-') by {
        if k >= 1 && k + 1 <= a.len() {
            assert(p[k] == a[k - 1] && p[k + 1] == a[k]);
        }
    }
    let pl = p.len() as int;
    assert(p =~= p.subrange(0, lo) + p.subrange(lo, pl));
    lemma_words_ws_prefix(p.subrange(0, lo), p.subrange(lo, pl));
    lemma_words_padded_row(s.input);
}

/// What follows the `--`, cut at `n` where only whitespace remains, reads
/// back as the output row and the effects.
proof fn lemma_sig_output(s: SigV, n: int)
    requires
        plain_sig(s),
        0 <= n <= after_dashes(s).len(),
        all_ws(after_dashes(s).subrange(n, after_dashes(s).len() as int)),
    ensures
        ({
            let rest = after_dashes(s).subrange(0, n);
            match find_from(rest, "|"@, 0) {
                None => s.effects.len() == 0 && row_from_words(words(rest)) == s.output,
                Some(k) => s.effects.len() > 0 && row_from_words(words(rest.subrange(0, k)))
                    == s.output && labels_of(words(rest.subrange(k + 1, rest.len() as int)))
                    == s.effects,
            }
        }),
{
    reveal_strlit(" ");
    reveal_strlit(" | ");
    reveal_strlit("|");
    assert(is_ws(' '));
    let q = after_dashes(s);
    let b = show_row(s.output);
    let l = join(s.effects, " "@);
    lemma_show_row(s.output);
    lemma_plain_row(s.output);
    lemma_join_no_bar(row_tokens(s.output));
    lemma_words_padded_row(s.output);
    let rest = q.subrange(0, n);
    if s.effects.len() == 0 {
        assert(q =~= " "@ + b + " "@);
        lemma_no_bar_at_all(b, n);
        lemma_words_cut(q, n);
    } else {
        let bar = b.len() + 2int;
        let padded_l = " "@ + l + " "@;
        assert(q =~= " "@ + b + " "@ + "|"@ + padded_l);
        assert(bare_word(s.effects[0]));
        lemma_join_first(s.effects);
        assert(q[bar + 2] == l[0]);
        assert(n > bar + 2) by {
            if n <= bar + 2 {
                assert(q.subrange(n, q.len() as int)[bar + 2 - n] == q[bar + 2]);
            }
        }
        lemma_bar_first(b, padded_l, n);
        assert(rest.subrange(0, bar) =~= " "@ + b + " "@);
        let labels = rest.subrange(bar + 1, rest.len() as int);
        assert(labels =~= padded_l.subrange(0, n - bar - 1));
        assert(all_ws(padded_l.subrange(n - bar - 1, padded_l.len() as int))) by {
            assert forall|k: int| 0 <= k < padded_l.len() - (n - bar - 1) implies is_ws(
                #[trigger] padded_l.subrange(n - bar - 1, padded_l.len() as int)[k],
            ) by {
                assert(padded_l[n - bar - 1 + k] == q[n + k]);
                assert(q.subrange(n, q.len() as int)[k] == q[n + k]);
            }
        }
        lemma_words_cut(padded_l, n - bar - 1);
        lemma_words_padded_labels(s.effects);
        lemma_labels_of_sorted(s.effects);
    }
}

/// A signature written by `show_sig` reads back as itself under
/// `parse_sig_v`, when it is plain: the display and the parser of
/// signatures undo each other.
pub proof fn law_written_sig_reads_back(s: SigV)
    requires
        plain_sig(s),
    ensures
        parse_sig_v(show_sig(s)) == Ok::<SigV, Seq<char>>(s),
{
    reveal_strlit("--");
    let (lo, hi) = lemma_sig_inside(s);
    let p = padded_input(s);
    let q = after_dashes(s);
    let x = p + "--"@ + q;
    let pl = p.len() as int;
    let t2 = x.subrange(lo, hi);
    assert(p.subrange(0, lo) =~= x.subrange(0, lo));
    lemma_sig_input(s, lo);
    lemma_dashes_first(p, q, lo, hi);
    let j = pl - lo;
    assert(t2.subrange(0, j) =~= p.subrange(lo, pl));
    let n = hi - pl - 2;
    assert(t2.subrange(j + 2, t2.len() as int) =~= q.subrange(0, n));
    assert(q.subrange(n, q.len() as int) =~= x.subrange(hi, x.len() as int));
    lemma_sig_output(s, n);
    let text = show_sig(s);
    let t1 = text.subrange(1, text.len() as int);
    assert(trim(t1.subrange(0, t1.len() - 1)) == t2);
    assert(find_from(t2, "--"@, 0) == Some(j));
    let input = t2.subrange(0, j);
    let rest = t2.subrange(j + 2, t2.len() as int);
    assert(row_from_words(words(input)) == s.input);
    match find_from(rest, "|"@, 0) {
        None => {
            assert(s.effects =~= Seq::<Seq<char>>::empty());
            assert(parse_sig_v(text) == Ok::<SigV, Seq<char>>(
                SigV { input: row_from_words(words(input)), output: row_from_words(words(rest)), effects: seq![] },
            ));
        },
        Some(k) => {
            assert(parse_sig_v(text) == Ok::<SigV, Seq<char>>(
                SigV {
                    input: row_from_words(words(input)),
                    output: row_from_words(words(rest.subrange(0, k))),
                    effects: labels_of(words(rest.subrange(k + 1, rest.len() as int))),
                },
            ));
        },
    }
}

} // verus!
