//! The token a single word stands for: punctuation, a boolean, an integer
//! in base 10, 16, 8 or 2, a rational, a float, a quoted string or a plain
//! word.

use vstd::prelude::*;

use crate::errors::Error;
use crate::loader::{starts_with, starts_with_exec};
use crate::scanner::{is_float, is_float_text, parse_i64, parse_i64_spec};
use crate::text::{eq_lit, find_from, find_seq, slice_to_vec, string_from_chars};

verus! {

// ── Integers in a radix ──────────────────────────────────────────────────────

/// The value of `c` as a digit in base `r`, or -1 if it is none.
pub open spec fn digit_in(c: char, r: int) -> int {
    let v = if '0' <= c && c <= '9' {
        c as int - '0' as int
    } else if 'a' <= c && c <= 'z' {
        c as int - 'a' as int + 10
    } else if 'A' <= c && c <= 'Z' {
        c as int - 'A' as int + 10
    } else {
        -1
    };
    if 0 <= v < r { v } else { -1 }
}

/// Whether every character of `s` is a digit in base `r`.
pub open spec fn all_digits_in(s: Seq<char>, r: int) -> bool {
    forall|k: int| 0 <= k < s.len() ==> digit_in(#[trigger] s[k], r) >= 0
}

/// The value of the digits `s` in base `r`.
pub open spec fn value_in(s: Seq<char>, r: int) -> int
    decreases s.len(),
{
    if s.len() == 0 {
        0
    } else {
        value_in(s.drop_last(), r) * r + digit_in(s.last(), r)
    }
}

/// What `i64::from_str_radix(s, r)` gives: an optional sign and one or
/// more digits in base `r` whose value fits in `i64`.
pub open spec fn radix_spec(w: Seq<char>, r: int) -> Option<i64> {
    let signed = w.len() > 0 && (w[0] == '+' || w[0] == '-');
    let body = if signed { w.subrange(1, w.len() as int) } else { w };
    let v = if signed && w[0] == '-' { -value_in(body, r) } else { value_in(body, r) };
    if body.len() > 0 && all_digits_in(body, r) && i64::MIN <= v <= i64::MAX {
        Some(v as i64)
    } else {
        None
    }
}

proof fn lemma_value_nonneg(s: Seq<char>, r: int)
    requires
        2 <= r <= 16,
        all_digits_in(s, r),
    ensures
        value_in(s, r) >= 0,
    decreases s.len(),
{
    if s.len() > 0 {
        lemma_value_nonneg(s.drop_last(), r);
        let v = value_in(s.drop_last(), r);
        assert(digit_in(s.last(), r) >= 0);
        assert(v * r >= 0) by (nonlinear_arith)
            requires
                v >= 0,
                r >= 2,
        ;
    }
}

fn digit_exec(c: char, r: u32) -> (d: i64)
    requires
        2 <= r <= 16,
    ensures
        d == digit_in(c, r as int),
{
    let v: i64 = if '0' <= c && c <= '9' {
        (c as u32 - '0' as u32) as i64
    } else if 'a' <= c && c <= 'z' {
        (c as u32 - 'a' as u32) as i64 + 10
    } else if 'A' <= c && c <= 'Z' {
        (c as u32 - 'A' as u32) as i64 + 10
    } else {
        -1
    };
    if 0 <= v && v < r as i64 {
        v
    } else {
        -1
    }
}

/// `i64::from_str_radix` on the characters `w`.
pub fn parse_radix(w: &[char], r: u32) -> (n: Option<i64>)
    requires
        2 <= r <= 16,
    ensures
        n == radix_spec(w@, r as int),
{
    let len = w.len();
    if len == 0 {
        return None;
    }
    let signed = w[0] == '+' || w[0] == '-';
    let neg = signed && w[0] == '-';
    let start: usize = if signed { 1 } else { 0 };
    let ghost body = if signed { w@.subrange(1, w@.len() as int) } else { w@ };
    if start >= len {
        return None;
    }
    let limit: u128 = 0x8000_0000_0000_0000u128;
    let mut mag: u128 = 0;
    let mut big = false;
    let mut i: usize = start;
    while i < len
        invariant
            2 <= r <= 16,
            limit == 0x8000_0000_0000_0000u128,
            start <= i <= len == w@.len(),
            len > 0,
            signed == (w@[0] == '+' || w@[0] == '-'),
            start == (if signed { 1int } else { 0int }),
            body == w@.subrange(start as int, len as int),
            all_digits_in(w@.subrange(start as int, i as int), r as int),
            !big ==> mag == value_in(w@.subrange(start as int, i as int), r as int),
            !big ==> mag <= limit,
            big ==> value_in(w@.subrange(start as int, i as int), r as int) > limit,
        decreases len - i,
    {
        let d = digit_exec(w[i], r);
        let ghost pre = w@.subrange(start as int, i as int);
        let ghost next = w@.subrange(start as int, i + 1);
        assert(next.drop_last() =~= pre);
        assert(next.last() == w@[i as int]);
        if d < 0 {
            assert(body[i - start] == w@[i as int]);
            assert(!all_digits_in(body, r as int));
            return None;
        }
        proof {
            assert forall|k: int| 0 <= k < next.len() implies digit_in(#[trigger] next[k], r as int) >= 0 by {
                if k < pre.len() {
                    assert(next[k] == pre[k]);
                }
            }
            lemma_value_nonneg(pre, r as int);
        }
        if !big {
            assert(mag * (r as u128) <= 0x8000_0000_0000_0000u128 * 16) by (nonlinear_arith)
                requires
                    mag <= 0x8000_0000_0000_0000u128,
                    r <= 16,
            ;
            let m2 = mag * (r as u128) + (d as u128);
            assert(m2 == value_in(next, r as int));
            if m2 > limit {
                big = true;
            } else {
                mag = m2;
            }
        } else {
            let ghost v = value_in(pre, r as int);
            assert(v * r >= v) by (nonlinear_arith)
                requires
                    v >= 0,
                    r >= 2,
            ;
        }
        i = i + 1;
    }
    assert(w@.subrange(start as int, len as int) =~= body);
    if big {
        return None;
    }
    if neg {
        if mag == limit {
            Some(i64::MIN)
        } else {
            Some(-(mag as i64))
        }
    } else {
        if mag >= limit {
            None
        } else {
            Some(mag as i64)
        }
    }
}


// ── Tokens ───────────────────────────────────────────────────────────────────

/// The token a word stands for. A float is carried as its text.
#[derive(Debug)]
pub enum TokenType {
    Integer(i64),
    Float(String),
    Rational(i64, i64),
    String(String),
    Boolean(bool),
    Word(String),
    Plus,
    Minus,
    Star,
    Slash,
    EqualEqual,
    BangEqual,
    Less,
    Greater,
    LessEqual,
    GreaterEqual,
    Bang,
    OpenBrace,
    CloseBrace,
    OpenParen,
    CloseParen,
    OpenBracket,
    CloseBracket,
    Colon,
    Semicolon,
    LongDash,
    Comment,
    EOF,
    DocComment(String),
}

/// Model of a token.
pub enum TokV {
    Integer(i64),
    Float(Seq<char>),
    Rational(i64, i64),
    String(Seq<char>),
    Boolean(bool),
    Word(Seq<char>),
    Plus,
    Minus,
    Star,
    Slash,
    EqualEqual,
    BangEqual,
    Less,
    Greater,
    LessEqual,
    GreaterEqual,
    Bang,
    OpenBrace,
    CloseBrace,
    OpenParen,
    CloseParen,
    OpenBracket,
    CloseBracket,
    Colon,
    Semicolon,
    LongDash,
    Comment,
    EOF,
    DocComment(Seq<char>),
}

impl View for TokenType {
    type V = TokV;

    open spec fn view(&self) -> TokV {
        match self {
            TokenType::Integer(i) => TokV::Integer(*i),
            TokenType::Float(t) => TokV::Float(t@),
            TokenType::Rational(a, b) => TokV::Rational(*a, *b),
            TokenType::String(s) => TokV::String(s@),
            TokenType::Boolean(b) => TokV::Boolean(*b),
            TokenType::Word(w) => TokV::Word(w@),
            TokenType::Plus => TokV::Plus,
            TokenType::Minus => TokV::Minus,
            TokenType::Star => TokV::Star,
            TokenType::Slash => TokV::Slash,
            TokenType::EqualEqual => TokV::EqualEqual,
            TokenType::BangEqual => TokV::BangEqual,
            TokenType::Less => TokV::Less,
            TokenType::Greater => TokV::Greater,
            TokenType::LessEqual => TokV::LessEqual,
            TokenType::GreaterEqual => TokV::GreaterEqual,
            TokenType::Bang => TokV::Bang,
            TokenType::OpenBrace => TokV::OpenBrace,
            TokenType::CloseBrace => TokV::CloseBrace,
            TokenType::OpenParen => TokV::OpenParen,
            TokenType::CloseParen => TokV::CloseParen,
            TokenType::OpenBracket => TokV::OpenBracket,
            TokenType::CloseBracket => TokV::CloseBracket,
            TokenType::Colon => TokV::Colon,
            TokenType::Semicolon => TokV::Semicolon,
            TokenType::LongDash => TokV::LongDash,
            TokenType::Comment => TokV::Comment,
            TokenType::EOF => TokV::EOF,
            TokenType::DocComment(s) => TokV::DocComment(s@),
        }
    }
}

/// The punctuation, comparison and boolean words, each its own token.
pub open spec fn simple_token(w: Seq<char>) -> Option<TokV> {
    if w == "+"@ {
        Some(TokV::Plus)
    } else if w == "-"@ {
        Some(TokV::Minus)
    } else if w == "*"@ {
        Some(TokV::Star)
    } else if w == "/"@ {
        Some(TokV::Slash)
    } else if w == "true"@ {
        Some(TokV::Boolean(true))
    } else if w == "false"@ {
        Some(TokV::Boolean(false))
    } else if w == "=="@ {
        Some(TokV::EqualEqual)
    } else if w == "!="@ {
        Some(TokV::BangEqual)
    } else if w == "<"@ {
        Some(TokV::Less)
    } else if w == ">"@ {
        Some(TokV::Greater)
    } else if w == "<="@ {
        Some(TokV::LessEqual)
    } else if w == ">="@ {
        Some(TokV::GreaterEqual)
    } else if w == "!"@ {
        Some(TokV::Bang)
    } else if w == "{"@ {
        Some(TokV::OpenBrace)
    } else if w == "}"@ {
        Some(TokV::CloseBrace)
    } else if w == "("@ {
        Some(TokV::OpenParen)
    } else if w == ")"@ {
        Some(TokV::CloseParen)
    } else if w == "["@ {
        Some(TokV::OpenBracket)
    } else if w == "]"@ {
        Some(TokV::CloseBracket)
    } else if w == ":"@ {
        Some(TokV::Colon)
    } else if w == ";"@ {
        Some(TokV::Semicolon)
    } else if w == "--"@ {
        Some(TokV::LongDash)
    } else {
        None
    }
}

fn simple_token_exec(w: &[char]) -> (r: Option<TokenType>)
    ensures
        match simple_token(w@) {
            Some(t) => r matches Some(x) && x@ == t,
            None => r is None,
        },
{
    if eq_lit(w, "+") {
        return Some(TokenType::Plus);
    }
    if eq_lit(w, "-") {
        return Some(TokenType::Minus);
    }
    if eq_lit(w, "*") {
        return Some(TokenType::Star);
    }
    if eq_lit(w, "/") {
        return Some(TokenType::Slash);
    }
    if eq_lit(w, "true") {
        return Some(TokenType::Boolean(true));
    }
    if eq_lit(w, "false") {
        return Some(TokenType::Boolean(false));
    }
    if eq_lit(w, "==") {
        return Some(TokenType::EqualEqual);
    }
    if eq_lit(w, "!=") {
        return Some(TokenType::BangEqual);
    }
    if eq_lit(w, "<") {
        return Some(TokenType::Less);
    }
    if eq_lit(w, ">") {
        return Some(TokenType::Greater);
    }
    if eq_lit(w, "<=") {
        return Some(TokenType::LessEqual);
    }
    if eq_lit(w, ">=") {
        return Some(TokenType::GreaterEqual);
    }
    if eq_lit(w, "!") {
        return Some(TokenType::Bang);
    }
    if eq_lit(w, "{") {
        return Some(TokenType::OpenBrace);
    }
    if eq_lit(w, "}") {
        return Some(TokenType::CloseBrace);
    }
    if eq_lit(w, "(") {
        return Some(TokenType::OpenParen);
    }
    if eq_lit(w, ")") {
        return Some(TokenType::CloseParen);
    }
    if eq_lit(w, "[") {
        return Some(TokenType::OpenBracket);
    }
    if eq_lit(w, "]") {
        return Some(TokenType::CloseBracket);
    }
    if eq_lit(w, ":") {
        return Some(TokenType::Colon);
    }
    if eq_lit(w, ";") {
        return Some(TokenType::Semicolon);
    }
    if eq_lit(w, "--") {
        return Some(TokenType::LongDash);
    }
    None
}

/// A word without its leading sign, and the sign as `1` or `-1`.
pub open spec fn split_sign(w: Seq<char>) -> (Seq<char>, int) {
    if w.len() > 0 && w[0] == '-' {
        (w.subrange(1, w.len() as int), -1)
    } else if w.len() > 0 && w[0] == '+' {
        (w.subrange(1, w.len() as int), 1)
    } else {
        (w, 1)
    }
}

/// `s` with every leading copy of `p` removed.
pub open spec fn trim_all(s: Seq<char>, p: Seq<char>) -> Seq<char>
    decreases s.len(),
{
    if p.len() > 0 && starts_with(s, p) {
        trim_all(s.subrange(p.len() as int, s.len() as int), p)
    } else {
        s
    }
}

/// The integer of a word with the radix prefix `p1` or `p2`, if it has one
/// and the rest reads in base `r`.
pub open spec fn radix_number(nw: Seq<char>, p1: Seq<char>, p2: Seq<char>, r: int) -> Option<i64> {
    if starts_with(nw, p1) || starts_with(nw, p2) {
        radix_spec(trim_all(trim_all(nw, p1), p2), r)
    } else {
        None
    }
}

pub open spec fn fits(x: int) -> bool {
    i64::MIN <= x <= i64::MAX
}

/// `sign * n` as an integer token; `None` where it overflows.
pub open spec fn scaled(sign: int, n: i64) -> Option<TokV> {
    if fits(sign * n) {
        Some(TokV::Integer((sign * n) as i64))
    } else {
        None
    }
}

/// The first index of `c` in `s`.
pub open spec fn first_at(s: Seq<char>, c: char) -> Option<int> {
    find_from(s, seq![c], 0)
}

/// The value of a parsed part, or 0 where it does not parse.
pub open spec fn or_zero(o: Option<i64>) -> int {
    match o {
        Some(n) => n as int,
        None => 0,
    }
}

/// The rational a word without its sign stands for, with the sign
/// `sign`: `None` where its denominator does not parse; `Some(None)` where
/// the arithmetic overflows.
pub open spec fn rational_spec(sign: int, nw: Seq<char>) -> Option<Option<(i64, i64)>> {
    match first_at(nw, '/') {
        None => None,
        Some(k) => {
            let left = nw.subrange(0, k);
            match parse_i64_spec(nw.subrange(k + 1, nw.len() as int)) {
                None => None,
                Some(den) => {
                    let sg: int = if den < 0 { -1 } else { 1 };
                    let (whole, numer, ok) = match first_at(left, '+') {
                        Some(j) => (
                            or_zero(parse_i64_spec(left.subrange(0, j))),
                            or_zero(parse_i64_spec(left.subrange(j + 1, left.len() as int))),
                            true,
                        ),
                        None => match first_at(left, '-') {
                            Some(j) => (
                                or_zero(parse_i64_spec(left.subrange(0, j))),
                                -or_zero(parse_i64_spec(left.subrange(j + 1, left.len() as int))),
                                or_zero(parse_i64_spec(left.subrange(j + 1, left.len() as int)))
                                    != i64::MIN,
                            ),
                            None => (0, or_zero(parse_i64_spec(left)), true),
                        },
                    };
                    let t1 = sg * sign;
                    let d = if den < 0 { -den } else { den as int };
                    if !ok || den == i64::MIN {
                        Some(None)
                    } else if whole == 0 {
                        if fits(t1 * numer) {
                            Some(Some(((t1 * numer) as i64, d as i64)))
                        } else {
                            Some(None)
                        }
                    } else if fits(t1 * whole) && fits(t1 * whole * den) && fits(t1 * whole * den + numer) {
                        Some(Some(((t1 * whole * den + numer) as i64, d as i64)))
                    } else {
                        Some(None)
                    }
                },
            }
        },
    }
}

/// The number of leading double quotes of `s` from `i` on.
pub open spec fn quotes_from(s: Seq<char>, i: int) -> int
    decreases s.len() - i,
{
    if 0 <= i < s.len() && s[i] == '"' {
        quotes_from(s, i + 1)
    } else {
        i
    }
}

/// The end of `s` before its trailing double quotes, looking back from `i`.
pub open spec fn quotes_back(s: Seq<char>, i: int) -> int
    decreases i,
{
    if 0 < i <= s.len() && s[i - 1] == '"' {
        quotes_back(s, i - 1)
    } else {
        i
    }
}

/// `s` without its leading and trailing double quotes.
pub open spec fn trim_quotes(s: Seq<char>) -> Seq<char> {
    let b = quotes_from(s, 0);
    let e = quotes_back(s, s.len() as int);
    if b < e { s.subrange(b, e) } else { seq![] }
}

/// The token the word `w` stands for, in this order: a punctuation,
/// comparison or boolean word; a sign followed by a hexadecimal (`0x`),
/// octal (`0o`) or binary (`0b`) number; a rational such as `3/4` or
/// `1+1/2`; a decimal integer; a float; a quoted string; else a word.
/// `None` where the integer arithmetic overflows.
pub open spec fn word_token(w: Seq<char>) -> Option<TokV> {
    match simple_token(w) {
        Some(t) => Some(t),
        None => {
            let (nw, sign) = split_sign(w);
            match radix_number(nw, seq!['0', 'x'], seq!['0', 'X'], 16) {
                Some(n) => scaled(sign, n),
                None => match radix_number(nw, seq!['0', 'o'], seq!['0', 'O'], 8) {
                    Some(n) => scaled(sign, n),
                    None => match radix_number(nw, seq!['0', 'b'], seq!['0', 'B'], 2) {
                        Some(n) => scaled(sign, n),
                        None => if nw.len() > 0 && crate::scanner::is_digit(nw[0]) && first_at(nw, '/')
                            is Some && rational_spec(sign, nw) is Some {
                            match rational_spec(sign, nw)->0 {
                                Some((a, b)) => Some(TokV::Rational(a, b)),
                                None => None,
                            }
                        } else {
                            match parse_i64_spec(nw) {
                                Some(n) => scaled(sign, n),
                                None => if is_float_text(nw) {
                                    Some(TokV::Float(if sign == -1 { seq!['-'] + nw } else { nw }))
                                } else if w.len() > 0 && w[0] == '"' {
                                    Some(TokV::String(trim_quotes(w)))
                                } else {
                                    Some(TokV::Word(w))
                                },
                            }
                        },
                    },
                },
            }
        },
    }
}


fn split_sign_exec(w: &[char]) -> (r: (Vec<char>, i64))
    ensures
        r.0@ == split_sign(w@).0,
        r.1 as int == split_sign(w@).1,
{
    if w.len() > 0 && w[0] == '-' {
        (slice_to_vec(w, 1, w.len()), -1)
    } else if w.len() > 0 && w[0] == '+' {
        (slice_to_vec(w, 1, w.len()), 1)
    } else {
        (slice_to_vec(w, 0, w.len()), 1)
    }
}

fn trim_all_exec(s: &Vec<char>, p: &Vec<char>) -> (r: Vec<char>)
    ensures
        r@ == trim_all(s@, p@),
{
    let mut cur: Vec<char> = slice_to_vec(s.as_slice(), 0, s.len());
    assert(cur@ =~= s@);
    if p.len() == 0 {
        return cur;
    }
    while starts_with_exec(&cur, p)
        invariant
            p@.len() > 0,
            trim_all(cur@, p@) == trim_all(s@, p@),
        decreases cur@.len(),
    {
        cur = slice_to_vec(cur.as_slice(), p.len(), cur.len());
    }
    cur
}

fn radix_number_exec(nw: &Vec<char>, p1: &Vec<char>, p2: &Vec<char>, r: u32) -> (n: Option<i64>)
    requires
        2 <= r <= 16,
    ensures
        n == radix_number(nw@, p1@, p2@, r as int),
{
    if starts_with_exec(nw, p1) || starts_with_exec(nw, p2) {
        let a = trim_all_exec(nw, p1);
        let b = trim_all_exec(&a, p2);
        parse_radix(b.as_slice(), r)
    } else {
        None
    }
}

fn first_at_exec(s: &[char], c: char) -> (r: Option<usize>)
    ensures
        r matches Some(j) ==> first_at(s@, c) == Some(j as int) && j < s@.len(),
        r is None ==> first_at(s@, c) is None,
{
    let pat: Vec<char> = vec![c];
    assert(pat@ =~= seq![c]);
    let r = find_seq(s, pat.as_slice());
    proof {
        crate::text::lemma_find_from(s@, seq![c], 0);
    }
    r
}

fn or_zero_exec(o: Option<i64>) -> (r: i64)
    ensures
        r as int == or_zero(o),
{
    match o {
        Some(n) => n,
        None => 0,
    }
}

fn in_range(x: i128) -> (r: bool)
    ensures
        r == fits(x as int),
{
    -0x8000_0000_0000_0000i128 <= x && x <= 0x7FFF_FFFF_FFFF_FFFFi128
}

/// The rational of a word without its sign, as `rational_spec` gives it.
fn rational_exec(sign: i64, nw: &[char]) -> (r: Option<Option<(i64, i64)>>)
    requires
        sign == 1 || sign == -1,
    ensures
        r == rational_spec(sign as int, nw@),
{
    let found = first_at_exec(nw, '/');
    if found.is_none() {
        return None;
    }
    let k = found.unwrap();
    let n = nw.len();
    assert(k < n);
    let left = slice_to_vec(nw, 0, k);
    let den_text = slice_to_vec(nw, k + 1, n);
    let den = match parse_i64(den_text.as_slice()) {
        None => return None,
        Some(d) => d,
    };
    let sg: i64 = if den < 0 { -1 } else { 1 };
    let (whole, numer, ok): (i64, i128, bool) = match first_at_exec(left.as_slice(), '+') {
        Some(j) => {
            let a = slice_to_vec(left.as_slice(), 0, j);
            let b = slice_to_vec(left.as_slice(), j + 1, left.len());
            (or_zero_exec(parse_i64(a.as_slice())), or_zero_exec(parse_i64(b.as_slice())) as i128, true)
        },
        None => match first_at_exec(left.as_slice(), '-') {
            Some(j) => {
                let a = slice_to_vec(left.as_slice(), 0, j);
                let b = slice_to_vec(left.as_slice(), j + 1, left.len());
                let nb = or_zero_exec(parse_i64(b.as_slice()));
                (or_zero_exec(parse_i64(a.as_slice())), -(nb as i128), nb != i64::MIN)
            },
            None => (0, or_zero_exec(parse_i64(left.as_slice())) as i128, true),
        },
    };
    let t1: i128 = (sg as i128) * (sign as i128);
    if !ok || den == i64::MIN {
        return Some(None);
    }
    let d: i64 = if den < 0 { -den } else { den };
    assert(t1 == 1 || t1 == -1) by (nonlinear_arith)
        requires
            t1 == sg * sign,
            sg == 1 || sg == -1,
            sign == 1 || sign == -1,
    ;
    if whole == 0 {
        let t2: i128 = if t1 == 1 { numer } else { -numer };
        assert(t2 == t1 * numer) by (nonlinear_arith)
            requires
                t1 == 1 || t1 == -1,
                t2 == (if t1 == 1 { numer as int } else { -(numer as int) }),
        ;
        if in_range(t2) {
            Some(Some((t2 as i64, d)))
        } else {
            Some(None)
        }
    } else {
        let t2: i128 = if t1 == 1 { whole as i128 } else { -(whole as i128) };
        assert(t2 == t1 * whole) by (nonlinear_arith)
            requires
                t1 == 1 || t1 == -1,
                t2 == (if t1 == 1 { whole as int } else { -(whole as int) }),
        ;
        if !in_range(t2) {
            return Some(None);
        }
        assert(-0x8000_0000_0000_0000 * 0x8000_0000_0000_0000 <= t2 * den <= 0x8000_0000_0000_0000
            * 0x8000_0000_0000_0000) by (nonlinear_arith)
            requires
                -0x8000_0000_0000_0000 <= t2 <= 0x7FFF_FFFF_FFFF_FFFF,
                -0x8000_0000_0000_0000 <= den <= 0x7FFF_FFFF_FFFF_FFFF,
        ;
        let t3 = t2 * (den as i128);
        if !in_range(t3) {
            return Some(None);
        }
        let t4 = t3 + numer;
        if !in_range(t4) {
            return Some(None);
        }
        Some(Some((t4 as i64, d)))
    }
}

fn trim_quotes_exec(s: &[char]) -> (r: Vec<char>)
    ensures
        r@ == trim_quotes(s@),
{
    let mut b: usize = 0;
    while b < s.len() && s[b] == '"'
        invariant
            b <= s@.len(),
            quotes_from(s@, b as int) == quotes_from(s@, 0),
        decreases s@.len() - b,
    {
        b = b + 1;
    }
    let mut e: usize = s.len();
    while e > 0 && s[e - 1] == '"'
        invariant
            e <= s@.len(),
            quotes_back(s@, e as int) == quotes_back(s@, s@.len() as int),
        decreases e,
    {
        e = e - 1;
    }
    if b < e {
        slice_to_vec(s, b, e)
    } else {
        Vec::new()
    }
}

fn scale_exec(sign: i64, n: i64) -> (r: i64)
    requires
        sign == 1 || sign == -1,
        fits(sign * n),
    ensures
        r == sign * n,
{
    if sign == -1 {
        assert(sign * n == -n) by (nonlinear_arith)
            requires
                sign == -1,
        ;
        -n
    } else {
        assert(sign * n == n) by (nonlinear_arith)
            requires
                sign == 1,
        ;
        n
    }
}

impl TokenType {
    /// The token the word `word` stands for (see `word_token`); the input
    /// is one whose integer arithmetic stays within `i64`, where
    /// overflowing it would abort.
    pub fn from_str(word: &str) -> (r: Result<TokenType, Error>)
        requires
            word_token(word@) is Some,
        ensures
            r matches Ok(t) && Some(t@) == word_token(word@),
    {
        let w = crate::text::chars_of(word);
        let ws = w.as_slice();
        match simple_token_exec(ws) {
            Some(t) => return Ok(t),
            None => {},
        }
        let (nw, sign) = split_sign_exec(ws);
        let x1 = vec!['0', 'x'];
        let x2 = vec!['0', 'X'];
        let o1 = vec!['0', 'o'];
        let o2 = vec!['0', 'O'];
        let b1 = vec!['0', 'b'];
        let b2 = vec!['0', 'B'];
        assert(x1@ =~= seq!['0', 'x'] && x2@ =~= seq!['0', 'X']);
        assert(o1@ =~= seq!['0', 'o'] && o2@ =~= seq!['0', 'O']);
        assert(b1@ =~= seq!['0', 'b'] && b2@ =~= seq!['0', 'B']);
        let hx = radix_number_exec(&nw, &x1, &x2, 16);
        let oc = radix_number_exec(&nw, &o1, &o2, 8);
        let bn = radix_number_exec(&nw, &b1, &b2, 2);
        if let Some(n) = hx {
            return Ok(TokenType::Integer(scale_exec(sign, n)));
        }
        if let Some(n) = oc {
            return Ok(TokenType::Integer(scale_exec(sign, n)));
        }
        if let Some(n) = bn {
            return Ok(TokenType::Integer(scale_exec(sign, n)));
        }
        if nw.len() > 0 && '0' <= nw[0] && nw[0] <= '9' {
            if let Some(_) = first_at_exec(nw.as_slice(), '/') {
                match rational_exec(sign, nw.as_slice()) {
                    Some(Some((a, b))) => return Ok(TokenType::Rational(a, b)),
                    Some(None) => {
                        // the word's arithmetic overflows, which `requires` rules out
                        proof {
                            assert(false);
                        }
                        return Ok(TokenType::Integer(0));
                    },
                    None => {},
                }
            }
        }
        if let Some(n) = parse_i64(nw.as_slice()) {
            return Ok(TokenType::Integer(scale_exec(sign, n)));
        }
        if is_float(nw.as_slice()) {
            let mut t: Vec<char> = Vec::new();
            if sign == -1 {
                t.push('-');
            }
            crate::text::push_all(&mut t, nw.as_slice());
            return Ok(TokenType::Float(string_from_chars(t.as_slice())));
        }
        if ws.len() > 0 && ws[0] == '"' {
            let q = trim_quotes_exec(ws);
            return Ok(TokenType::String(string_from_chars(q.as_slice())));
        }
        Ok(TokenType::Word(string_from_chars(ws)))
    }
}

} // verus!
