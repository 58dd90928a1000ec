//! Stack-effect types: primitive and stack types, rows, effect sets and
//! complete word signatures `( S a b -- S c | io alloc )`, with their
//! parsing, display, unification and sequential composition.

use vstd::prelude::*;

use crate::text::{
    chars_of_string, eq_lit, find_seq, join, lex_compare, lex_lt, push_all,
    push_decimal, push_lit, push_string, split_words, string_eq, string_from_chars, trim,
    trim_chars, words, decimal, find_from, lemma_lex_asymmetric, lemma_lex_irreflexive,
    lemma_lex_total, lemma_lex_transitive, push_quoted, quoted, slice_to_vec,
    chars_of,
};

verus! {

// ── Mathematical models ──────────────────────────────────────────────────────

/// Model of a primitive type.
pub enum PrimV {
    Int,
    Float,
    Bool,
    Str,
    Char,
    Named(Seq<char>),
}

/// Model of a stack type.
pub enum STypeV {
    Primitive(PrimV),
    TypeVar(Seq<char>),
    Quotation(Box<SigV>),
}

/// Model of a row: optional row variable and the types above it, bottom first.
pub struct RowV {
    pub var: Option<Seq<char>>,
    pub types: Seq<STypeV>,
}

/// Model of a signature; `effects` lists the effect labels in increasing
/// lexicographic order without repetition.
pub struct SigV {
    pub input: RowV,
    pub output: RowV,
    pub effects: Seq<Seq<char>>,
}

// ── Primitive types ──────────────────────────────────────────────────────────

/// A concrete, named type.
#[derive(Debug, PartialEq, Eq)]
pub enum PrimitiveType {
    Int,
    Float,
    Bool,
    Str,
    Char,
    /// User-defined or opaque named type (e.g. `file-like`, `result`).
    Named(String),
}

impl View for PrimitiveType {
    type V = PrimV;

    open spec fn view(&self) -> PrimV {
        match self {
            PrimitiveType::Int => PrimV::Int,
            PrimitiveType::Float => PrimV::Float,
            PrimitiveType::Bool => PrimV::Bool,
            PrimitiveType::Str => PrimV::Str,
            PrimitiveType::Char => PrimV::Char,
            PrimitiveType::Named(n) => PrimV::Named(n@),
        }
    }
}

impl Clone for PrimitiveType {
    fn clone(&self) -> (r: Self)
        ensures
            r == *self,
    {
        match self {
            PrimitiveType::Int => PrimitiveType::Int,
            PrimitiveType::Float => PrimitiveType::Float,
            PrimitiveType::Bool => PrimitiveType::Bool,
            PrimitiveType::Str => PrimitiveType::Str,
            PrimitiveType::Char => PrimitiveType::Char,
            PrimitiveType::Named(n) => PrimitiveType::Named(n.clone()),
        }
    }
}

/// The primitive type a name denotes: the five built-in names, or a named type.
pub open spec fn prim_from_name(s: Seq<char>) -> PrimV {
    if s == "int"@ {
        PrimV::Int
    } else if s == "float"@ {
        PrimV::Float
    } else if s == "bool"@ {
        PrimV::Bool
    } else if s == "str"@ {
        PrimV::Str
    } else if s == "char"@ {
        PrimV::Char
    } else {
        PrimV::Named(s)
    }
}

impl PrimitiveType {
    /// The primitive type a name denotes.
    pub fn from_name(s: &[char]) -> (r: PrimitiveType)
        ensures
            r@ == prim_from_name(s@),
    {
        if eq_lit(s, "int") {
            PrimitiveType::Int
        } else if eq_lit(s, "float") {
            PrimitiveType::Float
        } else if eq_lit(s, "bool") {
            PrimitiveType::Bool
        } else if eq_lit(s, "str") {
            PrimitiveType::Str
        } else if eq_lit(s, "char") {
            PrimitiveType::Char
        } else {
            PrimitiveType::Named(string_from_chars(s))
        }
    }

    /// Whether two primitive types are the same type.
    pub fn same(&self, other: &PrimitiveType) -> (r: bool)
        ensures
            r == (self@ == other@),
    {
        match (self, other) {
            (PrimitiveType::Int, PrimitiveType::Int) => true,
            (PrimitiveType::Float, PrimitiveType::Float) => true,
            (PrimitiveType::Bool, PrimitiveType::Bool) => true,
            (PrimitiveType::Str, PrimitiveType::Str) => true,
            (PrimitiveType::Char, PrimitiveType::Char) => true,
            (PrimitiveType::Named(a), PrimitiveType::Named(b)) => string_eq(a, b),
            _ => false,
        }
    }
}

// ── Stack types, rows, effects, signatures ──────────────────────────────────

/// A single type that can appear on the stack.
#[derive(Debug, PartialEq, Eq)]
pub enum StackType {
    /// A concrete primitive type.
    Primitive(PrimitiveType),
    /// A type variable (polymorphic), e.g. `a`, `b`.
    TypeVar(String),
    /// An anonymous quotation type `[ sig ]`.
    Quotation(Box<TypeSig>),
}

/// A stack row: an optional row variable followed by zero or more stack types.
///
/// Represents the portion of a stack effect on one side of `--`:
///   `S a b`  →  var=Some("S"), types=[a, b]
///   `int`    →  var=None, types=[int]
#[derive(Debug, PartialEq, Eq)]
pub struct Row {
    /// Row variable (convention: uppercase), if present.
    pub var: Option<String>,
    /// Types above the row variable, from bottom to top.
    pub types: Vec<StackType>,
}

/// A single effect label (lowercase identifier).
#[derive(Debug, PartialEq, Eq)]
pub struct EffectLabel(pub String);

/// A set of effect labels, kept in increasing lexicographic order.
#[derive(Debug, PartialEq, Eq)]
pub struct EffectSet {
    pub labels: Vec<EffectLabel>,
}

/// A complete word type: input row, output row, and effect set.
///
/// Syntax: `( S a b -- S c | io alloc )`
#[derive(Debug, PartialEq, Eq)]
pub struct TypeSig {
    pub input: Row,
    pub output: Row,
    pub effects: EffectSet,
}

/// Error raised when a type signature cannot be parsed.
#[derive(Debug, PartialEq, Eq)]
pub struct TypeSigParseError(pub String);

/// Error raised when two rows or stack types do not unify.
#[derive(Debug, PartialEq, Eq)]
pub struct UnificationError(pub String);

pub open spec fn opt_view(o: Option<String>) -> Option<Seq<char>> {
    match o {
        Some(s) => Some(s@),
        None => None,
    }
}

pub open spec fn stype_v(t: StackType) -> STypeV
    decreases t,
{
    match t {
        StackType::Primitive(p) => STypeV::Primitive(p@),
        StackType::TypeVar(v) => STypeV::TypeVar(v@),
        StackType::Quotation(sig) => STypeV::Quotation(Box::new(sig_v(*sig))),
    }
}

pub open spec fn types_v(ts: Seq<StackType>) -> Seq<STypeV>
    decreases ts,
{
    if ts.len() == 0 {
        seq![]
    } else {
        types_v(ts.subrange(0, ts.len() - 1)).push(stype_v(ts[ts.len() - 1]))
    }
}

pub open spec fn row_v(r: Row) -> RowV
    decreases r,
{
    RowV { var: opt_view(r.var), types: types_v(r.types@) }
}

pub open spec fn labels_v(ls: Seq<EffectLabel>) -> Seq<Seq<char>> {
    Seq::new(ls.len(), |i: int| ls[i].0@)
}

pub open spec fn sig_v(s: TypeSig) -> SigV
    decreases s,
{
    SigV { input: row_v(s.input), output: row_v(s.output), effects: labels_v(s.effects.labels@) }
}

pub proof fn lemma_types_v(ts: Seq<StackType>)
    ensures
        types_v(ts).len() == ts.len(),
        forall|i: int| 0 <= i < ts.len() ==> types_v(ts)[i] == stype_v(#[trigger] ts[i]),
    decreases ts.len(),
{
    if ts.len() > 0 {
        let pre = ts.subrange(0, ts.len() - 1);
        lemma_types_v(pre);
        assert forall|i: int| 0 <= i < ts.len() implies types_v(ts)[i] == stype_v(
            #[trigger] ts[i],
        ) by {
            if i < ts.len() - 1 {
                assert(pre[i] == ts[i]);
            }
        }
    }
}

impl View for StackType {
    type V = STypeV;

    open spec fn view(&self) -> STypeV {
        stype_v(*self)
    }
}

impl View for Row {
    type V = RowV;

    open spec fn view(&self) -> RowV {
        row_v(*self)
    }
}

impl View for EffectSet {
    type V = Seq<Seq<char>>;

    open spec fn view(&self) -> Seq<Seq<char>> {
        labels_v(self.labels@)
    }
}

impl View for TypeSig {
    type V = SigV;

    open spec fn view(&self) -> SigV {
        sig_v(*self)
    }
}


// ── Copies ───────────────────────────────────────────────────────────────────

fn clone_opt_string(o: &Option<String>) -> (r: Option<String>)
    ensures
        r == *o,
{
    match o {
        Some(s) => Some(s.clone()),
        None => None,
    }
}

fn clone_stack_type(t: &StackType) -> (r: StackType)
    ensures
        r@ == t@,
    decreases t,
{
    match t {
        StackType::Primitive(p) => StackType::Primitive(p.clone()),
        StackType::TypeVar(v) => StackType::TypeVar(v.clone()),
        StackType::Quotation(sig) => StackType::Quotation(Box::new(clone_sig(&**sig))),
    }
}

fn clone_types(ts: &Vec<StackType>) -> (r: Vec<StackType>)
    ensures
        types_v(r@) == types_v(ts@),
    decreases ts,
{
    let mut r: Vec<StackType> = Vec::new();
    let mut i: usize = 0;
    proof {
        lemma_types_v(ts@);
    }
    while i < ts.len()
        invariant
            i <= ts@.len(),
            r@.len() == i,
            types_v(ts@).len() == ts@.len(),
            forall|k: int| 0 <= k < ts@.len() ==> types_v(ts@)[k] == stype_v(#[trigger] ts@[k]),
            forall|k: int| 0 <= k < i ==> stype_v(#[trigger] r@[k]) == stype_v(ts@[k]),
        decreases ts@.len() - i,
    {
        r.push(clone_stack_type(&ts[i]));
        i = i + 1;
    }
    proof {
        lemma_types_v(r@);
        assert forall|k: int| 0 <= k < ts@.len() implies types_v(r@)[k] == types_v(ts@)[k] by {
            assert(stype_v(r@[k]) == stype_v(ts@[k]));
        }
        assert(types_v(r@) =~= types_v(ts@));
    }
    r
}

fn clone_row(row: &Row) -> (r: Row)
    ensures
        r@ == row@,
    decreases row,
{
    Row { var: clone_opt_string(&row.var), types: clone_types(&row.types) }
}

fn clone_labels(ls: &Vec<EffectLabel>) -> (r: Vec<EffectLabel>)
    ensures
        r@ == ls@,
{
    let mut r: Vec<EffectLabel> = Vec::new();
    let mut i: usize = 0;
    while i < ls.len()
        invariant
            i <= ls@.len(),
            r@ == ls@.take(i as int),
        decreases ls@.len() - i,
    {
        r.push(EffectLabel(ls[i].0.clone()));
        i = i + 1;
        assert(r@ =~= ls@.take(i as int));
    }
    assert(ls@.take(i as int) =~= ls@);
    r
}

fn clone_sig(sig: &TypeSig) -> (r: TypeSig)
    ensures
        r@ == sig@,
    decreases sig,
{
    TypeSig {
        input: clone_row(&sig.input),
        output: clone_row(&sig.output),
        effects: EffectSet { labels: clone_labels(&sig.effects.labels) },
    }
}

impl Clone for StackType {
    fn clone(&self) -> (r: Self)
        ensures
            r@ == self@,
    {
        clone_stack_type(self)
    }
}

impl Clone for Row {
    fn clone(&self) -> (r: Self)
        ensures
            r@ == self@,
    {
        clone_row(self)
    }
}

impl Clone for EffectLabel {
    fn clone(&self) -> (r: Self)
        ensures
            r == *self,
    {
        EffectLabel(self.0.clone())
    }
}

impl Clone for EffectSet {
    fn clone(&self) -> (r: Self)
        ensures
            r@ == self@,
    {
        EffectSet { labels: clone_labels(&self.labels) }
    }
}

impl Clone for TypeSig {
    fn clone(&self) -> (r: Self)
        ensures
            r@ == self@,
    {
        clone_sig(self)
    }
}

// ── Display ──────────────────────────────────────────────────────────────────

/// How a primitive type is written.
pub open spec fn show_prim(p: PrimV) -> Seq<char> {
    match p {
        PrimV::Int => "int"@,
        PrimV::Float => "float"@,
        PrimV::Bool => "bool"@,
        PrimV::Str => "str"@,
        PrimV::Char => "char"@,
        PrimV::Named(n) => n,
    }
}

/// How a stack type is written: a quotation type as `[ sig ]`.
pub open spec fn show_stype(t: STypeV) -> Seq<char>
    decreases t,
{
    match t {
        STypeV::Primitive(p) => show_prim(p),
        STypeV::TypeVar(v) => v,
        STypeV::Quotation(sig) => "[ "@ + show_sig(*sig) + " ]"@,
    }
}

/// The written types of `ts`, separated by single spaces.
pub open spec fn show_types(ts: Seq<STypeV>) -> Seq<char>
    decreases ts,
{
    if ts.len() == 0 {
        seq![]
    } else if ts.len() == 1 {
        show_stype(ts[0])
    } else {
        show_types(ts.subrange(0, ts.len() - 1)) + " "@ + show_stype(ts[ts.len() - 1])
    }
}

/// How a row is written: the row variable, a space if types follow, the types.
pub open spec fn show_row(r: RowV) -> Seq<char>
    decreases r,
{
    let head = match r.var {
        Some(v) => if r.types.len() > 0 { v + " "@ } else { v },
        None => seq![],
    };
    head + show_types(r.types)
}

/// How a signature is written: `( in -- out )` or `( in -- out | effects )`.
pub open spec fn show_sig(s: SigV) -> Seq<char>
    decreases s,
{
    let effects = if s.effects.len() == 0 { seq![] } else { " | "@ + join(s.effects, " "@) };
    "( "@ + show_row(s.input) + " -- "@ + show_row(s.output) + effects + " )"@
}

fn push_prim(out: &mut Vec<char>, p: &PrimitiveType)
    ensures
        final(out)@ == old(out)@ + show_prim(p@),
{
    match p {
        PrimitiveType::Int => push_lit(out, "int"),
        PrimitiveType::Float => push_lit(out, "float"),
        PrimitiveType::Bool => push_lit(out, "bool"),
        PrimitiveType::Str => push_lit(out, "str"),
        PrimitiveType::Char => push_lit(out, "char"),
        PrimitiveType::Named(n) => push_string(out, n),
    }
}

fn push_stype(out: &mut Vec<char>, t: &StackType)
    ensures
        final(out)@ == old(out)@ + show_stype(t@),
    decreases t,
{
    match t {
        StackType::Primitive(p) => push_prim(out, p),
        StackType::TypeVar(v) => push_string(out, v),
        StackType::Quotation(sig) => {
            push_lit(out, "[ ");
            push_sig(out, &**sig);
            push_lit(out, " ]");
            assert(out@ =~= old(out)@ + show_stype(t@));
        },
    }
}

fn push_types(out: &mut Vec<char>, ts: &Vec<StackType>)
    ensures
        final(out)@ == old(out)@ + show_types(types_v(ts@)),
    decreases ts,
{
    proof {
        lemma_types_v(ts@);
    }
    let mut i: usize = 0;
    while i < ts.len()
        invariant
            i <= ts@.len(),
            types_v(ts@).len() == ts@.len(),
            forall|k: int| 0 <= k < ts@.len() ==> types_v(ts@)[k] == stype_v(#[trigger] ts@[k]),
            out@ == old(out)@ + show_types(types_v(ts@).take(i as int)),
        decreases ts@.len() - i,
    {
        let ghost before = out@;
        if i > 0 {
            push_lit(out, " ");
        }
        push_stype(out, &ts[i]);
        proof {
            let vs = types_v(ts@);
            assert(vs.take(i + 1).subrange(0, i as int) =~= vs.take(i as int));
            assert(vs.take(i + 1)[i as int] == stype_v(ts@[i as int]));
            if i == 0 {
                assert(out@ =~= old(out)@ + show_types(vs.take(1)));
            } else {
                assert(out@ =~= old(out)@ + show_types(vs.take(i + 1)));
            }
        }
        i = i + 1;
    }
    assert(types_v(ts@).take(i as int) =~= types_v(ts@));
}

fn push_row(out: &mut Vec<char>, r: &Row)
    ensures
        final(out)@ == old(out)@ + show_row(r@),
    decreases r,
{
    proof {
        lemma_types_v(r.types@);
    }
    match &r.var {
        Some(v) => {
            push_string(out, v);
            if r.types.len() > 0 {
                push_lit(out, " ");
            }
        },
        None => {},
    }
    push_types(out, &r.types);
    assert(out@ =~= old(out)@ + show_row(r@));
}

fn push_labels(out: &mut Vec<char>, ls: &Vec<EffectLabel>)
    ensures
        final(out)@ == old(out)@ + join(labels_v(ls@), " "@),
{
    let mut i: usize = 0;
    while i < ls.len()
        invariant
            i <= ls@.len(),
            out@ == old(out)@ + join(labels_v(ls@).take(i as int), " "@),
        decreases ls@.len() - i,
    {
        if i > 0 {
            push_lit(out, " ");
        }
        push_string(out, &ls[i].0);
        proof {
            let vs = labels_v(ls@);
            assert(vs.take(i + 1).drop_last() =~= vs.take(i as int));
            if i == 0 {
                assert(out@ =~= old(out)@ + join(vs.take(1), " "@));
            } else {
                assert(out@ =~= old(out)@ + join(vs.take(i + 1), " "@));
            }
        }
        i = i + 1;
    }
    assert(labels_v(ls@).take(i as int) =~= labels_v(ls@));
}

fn push_sig(out: &mut Vec<char>, s: &TypeSig)
    ensures
        final(out)@ == old(out)@ + show_sig(s@),
    decreases s,
{
    let ghost o = old(out)@;
    push_lit(out, "( ");
    push_row(out, &s.input);
    push_lit(out, " -- ");
    push_row(out, &s.output);
    let ghost mid = out@;
    assert(mid =~= o + ("( "@ + show_row(s.input@) + " -- "@ + show_row(s.output@)));
    let ghost eff: Seq<char> = if s@.effects.len() == 0 {
        seq![]
    } else {
        " | "@ + join(s@.effects, " "@)
    };
    if s.effects.labels.len() > 0 {
        push_lit(out, " | ");
        push_labels(out, &s.effects.labels);
    }
    assert(out@ =~= mid + eff);
    push_lit(out, " )");
    assert(out@ =~= o + show_sig(s@));
}

impl PrimitiveType {
    /// The name of the type, as it is written in signatures.
    pub fn to_type_string(&self) -> (r: String)
        ensures
            r@ == show_prim(self@),
    {
        let mut out = Vec::new();
        push_prim(&mut out, self);
        string_from_chars(out.as_slice())
    }
}

impl StackType {
    /// The stack type as it is written in signatures.
    pub fn to_type_string(&self) -> (r: String)
        ensures
            r@ == show_stype(self@),
    {
        let mut out = Vec::new();
        push_stype(&mut out, self);
        string_from_chars(out.as_slice())
    }
}

impl Row {
    /// The row as it is written in signatures.
    pub fn to_type_string(&self) -> (r: String)
        ensures
            r@ == show_row(self@),
    {
        let mut out = Vec::new();
        push_row(&mut out, self);
        string_from_chars(out.as_slice())
    }
}

impl EffectSet {
    /// The labels separated by single spaces.
    pub fn to_type_string(&self) -> (r: String)
        ensures
            r@ == join(self@, " "@),
    {
        let mut out = Vec::new();
        push_labels(&mut out, &self.labels);
        string_from_chars(out.as_slice())
    }
}

impl TypeSig {
    /// The signature as it is written: `( S a -- S b )`, with ` | labels`
    /// before the closing parenthesis when there are effects.
    pub fn to_type_string(&self) -> (r: String)
        ensures
            r@ == show_sig(self@),
    {
        let mut out = Vec::new();
        push_sig(&mut out, self);
        string_from_chars(out.as_slice())
    }
}


// ── Effect labels and sets ───────────────────────────────────────────────────

/// Strictly increasing in lexicographic order (hence free of repetition).
pub open spec fn strictly_sorted(v: Seq<Seq<char>>) -> bool {
    forall|i: int, j: int| 0 <= i < j < v.len() ==> lex_lt(#[trigger] v[i], #[trigger] v[j])
}

/// Two strictly sorted label lists with the same members are the same list.
pub proof fn lemma_sorted_same_members(a: Seq<Seq<char>>, b: Seq<Seq<char>>)
    requires
        strictly_sorted(a),
        strictly_sorted(b),
        forall|x: Seq<char>| a.contains(x) <==> b.contains(x),
    ensures
        a == b,
    decreases a.len(),
{
    if a.len() == 0 {
        if b.len() > 0 {
            assert(b.contains(b[0]));
        }
        assert(a =~= b);
    } else if b.len() == 0 {
        assert(a.contains(a[0]));
    } else {
        // the least elements agree
        assert(a.contains(a[0]));
        assert(b.contains(b[0]));
        let ia = choose|i: int| 0 <= i < a.len() && a[i] == b[0];
        let ib = choose|i: int| 0 <= i < b.len() && b[i] == a[0];
        if a[0] != b[0] {
            lemma_lex_total(a[0], b[0]);
            if lex_lt(a[0], b[0]) {
                // b[ib] == a[0] < b[0], impossible
                if ib > 0 {
                    lemma_lex_asymmetric(b[0], b[ib]);
                } else {
                    lemma_lex_irreflexive(a[0]);
                }
            } else {
                if ia > 0 {
                    lemma_lex_asymmetric(a[0], a[ia]);
                } else {
                    lemma_lex_irreflexive(b[0]);
                }
            }
        }
        let a2 = a.drop_first();
        let b2 = b.drop_first();
        assert forall|x: Seq<char>| a2.contains(x) <==> b2.contains(x) by {
            if a2.contains(x) {
                let i = choose|i: int| 0 <= i < a2.len() && a2[i] == x;
                assert(a[i + 1] == x);
                assert(lex_lt(a[0], x));
                lemma_lex_irreflexive(x);
                assert(b.contains(x));
                let j = choose|j: int| 0 <= j < b.len() && b[j] == x;
                assert(j != 0);
                assert(b2[j - 1] == x);
            }
            if b2.contains(x) {
                let i = choose|i: int| 0 <= i < b2.len() && b2[i] == x;
                assert(b[i + 1] == x);
                assert(lex_lt(b[0], x));
                lemma_lex_irreflexive(x);
                assert(a.contains(x));
                let j = choose|j: int| 0 <= j < a.len() && a[j] == x;
                assert(j != 0);
                assert(a2[j - 1] == x);
            }
        }
        lemma_sorted_same_members(a2, b2);
        assert(a =~= seq![a[0]] + a2);
        assert(b =~= seq![b[0]] + b2);
    }
}

/// The union of two label lists in increasing order: their sorted merge.
pub open spec fn effects_union(a: Seq<Seq<char>>, b: Seq<Seq<char>>) -> Seq<Seq<char>>
    decreases a.len() + b.len(),
{
    if a.len() == 0 {
        b
    } else if b.len() == 0 {
        a
    } else if a[0] == b[0] {
        seq![a[0]] + effects_union(a.drop_first(), b.drop_first())
    } else if lex_lt(a[0], b[0]) {
        seq![a[0]] + effects_union(a.drop_first(), b)
    } else {
        seq![b[0]] + effects_union(a, b.drop_first())
    }
}

proof fn lemma_sorted_tail(a: Seq<Seq<char>>)
    requires
        strictly_sorted(a),
        a.len() > 0,
    ensures
        strictly_sorted(a.drop_first()),
        forall|x: Seq<char>| a.drop_first().contains(x) ==> lex_lt(a[0], x),
{
    assert forall|x: Seq<char>| a.drop_first().contains(x) implies lex_lt(a[0], x) by {
        let k = choose|k: int| 0 <= k < a.drop_first().len() && a.drop_first()[k] == x;
        assert(a[k + 1] == x);
    }
}

/// The merge holds exactly the members of both lists, and is strictly sorted.
pub proof fn lemma_effects_union(a: Seq<Seq<char>>, b: Seq<Seq<char>>)
    requires
        strictly_sorted(a),
        strictly_sorted(b),
    ensures
        strictly_sorted(effects_union(a, b)),
        forall|x: Seq<char>|
            #![trigger effects_union(a, b).contains(x)]
            effects_union(a, b).contains(x) <==> (a.contains(x) || b.contains(x)),
    decreases a.len() + b.len(),
{
    let u = effects_union(a, b);
    if a.len() == 0 {
        assert forall|x: Seq<char>| u.contains(x) <==> (a.contains(x) || b.contains(x)) by {}
    } else if b.len() == 0 {
        assert forall|x: Seq<char>| u.contains(x) <==> (a.contains(x) || b.contains(x)) by {}
    } else {
        lemma_sorted_tail(a);
        lemma_sorted_tail(b);
        let (h, ra, rb) = if a[0] == b[0] {
            (a[0], a.drop_first(), b.drop_first())
        } else if lex_lt(a[0], b[0]) {
            (a[0], a.drop_first(), b)
        } else {
            (b[0], a, b.drop_first())
        };
        lemma_effects_union(ra, rb);
        let t = effects_union(ra, rb);
        assert(u == seq![h] + t);
        if a[0] != b[0] && !lex_lt(a[0], b[0]) {
            lemma_lex_total(a[0], b[0]);
        }
        // every member of the rest is above the head
        assert forall|x: Seq<char>| t.contains(x) implies lex_lt(h, x) by {
            if ra.contains(x) {
                if ra == a {
                    assert(a.contains(x));
                    let k = choose|k: int| 0 <= k < a.len() && a[k] == x;
                    if k > 0 {
                        lemma_lex_transitive(h, a[0], a[k]);
                    }
                } else {
                    assert(lex_lt(a[0], x));
                    if h != a[0] {
                        lemma_lex_transitive(h, a[0], x);
                    }
                }
            } else {
                assert(rb.contains(x));
                if rb == b {
                    let k = choose|k: int| 0 <= k < b.len() && b[k] == x;
                    if k > 0 {
                        lemma_lex_transitive(h, b[0], b[k]);
                    }
                } else {
                    assert(lex_lt(b[0], x));
                    if h != b[0] {
                        lemma_lex_transitive(h, b[0], x);
                    }
                }
            }
        }
        assert forall|i: int, j: int| 0 <= i < j < u.len() implies lex_lt(
            #[trigger] u[i],
            #[trigger] u[j],
        ) by {
            if i == 0 {
                assert(u[j] == t[j - 1]);
                assert(t.contains(t[j - 1]));
            } else {
                assert(u[i] == t[i - 1]);
                assert(u[j] == t[j - 1]);
            }
        }
        assert forall|x: Seq<char>| u.contains(x) <==> (a.contains(x) || b.contains(x)) by {
            if u.contains(x) {
                let k = choose|k: int| 0 <= k < u.len() && u[k] == x;
                if k > 0 {
                    assert(t[k - 1] == x);
                    assert(t.contains(x));
                    if ra.contains(x) && ra != a {
                        assert(ra[0] == a[1]);
                        let m = choose|m: int| 0 <= m < ra.len() && ra[m] == x;
                        assert(a[m + 1] == x);
                    }
                    if rb.contains(x) && rb != b {
                        let m = choose|m: int| 0 <= m < rb.len() && rb[m] == x;
                        assert(b[m + 1] == x);
                    }
                } else {
                    assert(x == h);
                    assert(a[0] == h ==> a.contains(x));
                    assert(b[0] == h ==> b.contains(x));
                }
            }
            if a.contains(x) {
                let k = choose|k: int| 0 <= k < a.len() && a[k] == x;
                if k == 0 && h == a[0] {
                    assert(u[0] == x);
                } else if ra == a {
                    assert(ra.contains(x));
                    assert(t.contains(x));
                    let m = choose|m: int| 0 <= m < t.len() && t[m] == x;
                    assert(u[m + 1] == x);
                } else if k == 0 {
                    assert(u[0] == x);
                } else {
                    assert(ra[k - 1] == x);
                    assert(t.contains(x));
                    let m = choose|m: int| 0 <= m < t.len() && t[m] == x;
                    assert(u[m + 1] == x);
                }
            }
            if b.contains(x) {
                let k = choose|k: int| 0 <= k < b.len() && b[k] == x;
                if k == 0 && h == b[0] {
                    assert(u[0] == x);
                } else if rb == b {
                    assert(rb.contains(x));
                    assert(t.contains(x));
                    let m = choose|m: int| 0 <= m < t.len() && t[m] == x;
                    assert(u[m + 1] == x);
                } else if k == 0 {
                    assert(u[0] == x);
                } else {
                    assert(rb[k - 1] == x);
                    assert(t.contains(x));
                    let m = choose|m: int| 0 <= m < t.len() && t[m] == x;
                    assert(u[m + 1] == x);
                }
            }
        }
    }
}

/// Union of effect sets is commutative.
pub proof fn law_effects_union_commutative(a: Seq<Seq<char>>, b: Seq<Seq<char>>)
    requires
        strictly_sorted(a),
        strictly_sorted(b),
    ensures
        effects_union(a, b) == effects_union(b, a),
{
    lemma_effects_union(a, b);
    lemma_effects_union(b, a);
    lemma_sorted_same_members(effects_union(a, b), effects_union(b, a));
}

/// Union of effect sets is associative.
pub proof fn law_effects_union_associative(a: Seq<Seq<char>>, b: Seq<Seq<char>>, c: Seq<Seq<char>>)
    requires
        strictly_sorted(a),
        strictly_sorted(b),
        strictly_sorted(c),
    ensures
        effects_union(effects_union(a, b), c) == effects_union(a, effects_union(b, c)),
{
    lemma_effects_union(a, b);
    lemma_effects_union(b, c);
    lemma_effects_union(effects_union(a, b), c);
    lemma_effects_union(a, effects_union(b, c));
    lemma_sorted_same_members(
        effects_union(effects_union(a, b), c),
        effects_union(a, effects_union(b, c)),
    );
}

/// Union of an effect set with itself is that set, and the empty set is its unit.
pub proof fn law_effects_union_idempotent_and_unit(a: Seq<Seq<char>>)
    requires
        strictly_sorted(a),
    ensures
        effects_union(a, a) == a,
        effects_union(a, Seq::empty()) == a,
        effects_union(Seq::empty(), a) == a,
{
    lemma_effects_union(a, a);
    lemma_sorted_same_members(effects_union(a, a), a);
}

impl EffectLabel {
    /// A label with the given name.
    pub fn new(label: String) -> (r: EffectLabel)
        ensures
            r.0@ == label@,
    {
        EffectLabel(label)
    }
}

impl EffectSet {
    /// Well-formed: the labels are in strictly increasing order.
    pub open spec fn wf(&self) -> bool {
        strictly_sorted(self@)
    }

    /// The empty effect set.
    pub fn empty() -> (r: EffectSet)
        ensures
            r.wf(),
            r@ == Seq::<Seq<char>>::empty(),
    {
        let r = EffectSet { labels: Vec::new() };
        assert(r@ =~= Seq::<Seq<char>>::empty());
        r
    }

    /// The set holding just `label`.
    pub fn single(label: &str) -> (r: EffectSet)
        ensures
            r.wf(),
            r@ == seq![label@],
    {
        let mut labels = Vec::new();
        labels.push(EffectLabel(crate::text::string_of(label)));
        let r = EffectSet { labels };
        assert(r@ =~= seq![label@]);
        r
    }

    /// Whether the set holds no label.
    pub fn is_empty(&self) -> (r: bool)
        ensures
            r == (self@.len() == 0),
    {
        self.labels.len() == 0
    }

    /// Whether the set holds `label`.
    pub fn contains(&self, label: &str) -> (r: bool)
        ensures
            r == self@.contains(label@),
    {
        let target = crate::text::chars_of(label);
        let mut i: usize = 0;
        while i < self.labels.len()
            invariant
                i <= self@.len(),
                self@.len() == self.labels@.len(),
                target@ == label@,
                forall|k: int| 0 <= k < i ==> self@[k] != label@,
            decreases self@.len() - i,
        {
            let l = chars_of_string(&self.labels[i].0);
            if crate::text::seq_eq(l.as_slice(), target.as_slice()) {
                assert(self@[i as int] == label@);
                return true;
            }
            i = i + 1;
        }
        false
    }

    /// Adds `label` to the set, keeping the order; no effect if it is there.
    pub fn insert(&mut self, label: String)
        requires
            old(self).wf(),
        ensures
            final(self).wf(),
            forall|x: Seq<char>| final(self)@.contains(x) <==> (old(self)@.contains(x) || x == label@),
    {
        let target = chars_of_string(&label);
        let mut i: usize = 0;
        let mut stop = false;
        let n = self.labels.len();
        while i < n && !stop
            invariant
                i <= n,
                n == self@.len(),
                self@.len() == self.labels@.len(),
                self@ == old(self)@,
                self.wf(),
                target@ == label@,
                forall|k: int| 0 <= k < i ==> lex_lt(#[trigger] self@[k], label@),
                stop ==> i < n && lex_lt(label@, self@[i as int]),
            decreases n - i + (if stop { 0int } else { 1int }),
        {
            let l = chars_of_string(&self.labels[i].0);
            let c = lex_compare(l.as_slice(), target.as_slice());
            if c == 0 {
                assert(self@[i as int] == label@);
                return;
            }
            if c > 0 {
                stop = true;
            } else {
                i = i + 1;
            }
        }
        let ghost before = self@;
        assert(before == old(self)@);
        self.labels.insert(i, EffectLabel(label));
        proof {
            assert(self@ =~= before.subrange(0, i as int).push(label@) + before.subrange(
                i as int,
                before.len() as int,
            ));
            assert forall|a: int, b: int| 0 <= a < b < self@.len() implies lex_lt(
                #[trigger] self@[a],
                #[trigger] self@[b],
            ) by {
                if b < i {
                } else if b == i {
                } else if a == i {
                } else if a > i {
                }
                if a < i && b > i {
                    assert(self@[a] == before[a]);
                    assert(self@[b] == before[b - 1]);
                    if i < before.len() {
                        if b - 1 > i {
                            lemma_lex_transitive(label@, before[i as int], before[b - 1]);
                        }
                    }
                    lemma_lex_transitive(self@[a], label@, self@[b]);
                }
                if a == i && b > i {
                    if b - 1 > i {
                        lemma_lex_transitive(label@, before[i as int], before[b - 1]);
                    }
                }
            }
            assert forall|x: Seq<char>| self@.contains(x) <==> (before.contains(x) || x == label@) by {
                if self@.contains(x) {
                    let k = choose|k: int| 0 <= k < self@.len() && self@[k] == x;
                    if k < i {
                        assert(before[k] == x);
                    } else if k > i {
                        assert(before[k - 1] == x);
                    }
                }
                if before.contains(x) {
                    let k = choose|k: int| 0 <= k < before.len() && before[k] == x;
                    if k < i {
                        assert(self@[k] == x);
                    } else {
                        assert(self@[k + 1] == x);
                    }
                }
                if x == label@ {
                    assert(self@[i as int] == x);
                }
            }
            assert(forall|x: Seq<char>| self@.contains(x) <==> (old(self)@.contains(x) || x == label@));
        }
    }

    /// The set of the given labels.
    pub fn from_labels(labels: Vec<String>) -> (r: EffectSet)
        ensures
            r.wf(),
            forall|x: Seq<char>|
                r@.contains(x) <==> exists|i: int| 0 <= i < labels@.len() && labels@[i]@ == x,
    {
        let mut r = EffectSet::empty();
        let mut i: usize = 0;
        while i < labels.len()
            invariant
                i <= labels@.len(),
                r.wf(),
                forall|x: Seq<char>|
                    r@.contains(x) <==> exists|k: int| 0 <= k < i && labels@[k]@ == x,
            decreases labels@.len() - i,
        {
            r.insert(labels[i].clone());
            proof {
                assert forall|x: Seq<char>|
                    r@.contains(x) <==> exists|k: int| 0 <= k < i + 1 && labels@[k]@ == x by {
                    if x == labels@[i as int]@ {
                        assert(exists|k: int| 0 <= k < i + 1 && labels@[k]@ == x);
                    }
                    if exists|k: int| 0 <= k < i + 1 && labels@[k]@ == x {
                        let k = choose|k: int| 0 <= k < i + 1 && labels@[k]@ == x;
                        if k < i {
                            assert(exists|k2: int| 0 <= k2 < i && labels@[k2]@ == x);
                        }
                    }
                }
            }
            i = i + 1;
        }
        r
    }

    /// Set union: a new `EffectSet` holding the labels of both sets.
    pub fn union(&self, other: &EffectSet) -> (r: EffectSet)
        requires
            self.wf(),
            other.wf(),
        ensures
            r.wf(),
            r@ == effects_union(self@, other@),
            forall|x: Seq<char>| r@.contains(x) <==> (self@.contains(x) || other@.contains(x)),
    {
        let mut r = self.clone();
        let mut i: usize = 0;
        while i < other.labels.len()
            invariant
                i <= other@.len(),
                other@.len() == other.labels@.len(),
                r.wf(),
                forall|x: Seq<char>|
                    r@.contains(x) <==> (self@.contains(x) || other@.take(i as int).contains(x)),
            decreases other@.len() - i,
        {
            r.insert(other.labels[i].0.clone());
            proof {
                let t0 = other@.take(i as int);
                let t1 = other@.take(i + 1);
                assert(t1 =~= t0.push(other@[i as int]));
                assert forall|x: Seq<char>|
                    r@.contains(x) <==> (self@.contains(x) || t1.contains(x)) by {
                    if t1.contains(x) && x != other@[i as int] {
                        let k = choose|k: int| 0 <= k < t1.len() && t1[k] == x;
                        assert(t0[k] == x);
                    }
                    if t0.contains(x) {
                        let k = choose|k: int| 0 <= k < t0.len() && t0[k] == x;
                        assert(t1[k] == x);
                    }
                    if x == other@[i as int] {
                        assert(t1[i as int] == x);
                    }
                }
            }
            i = i + 1;
        }
        assert(other@.take(i as int) =~= other@);
        proof {
            lemma_effects_union(self@, other@);
            lemma_sorted_same_members(r@, effects_union(self@, other@));
        }
        r
    }
}


// ── Unification ──────────────────────────────────────────────────────────────

/// The message of a mismatch between two written types.
pub open spec fn mismatch_message(a: Seq<char>, b: Seq<char>) -> Seq<char> {
    "type mismatch: "@ + a + " vs "@ + b
}

/// The message of two rows whose lengths differ with no row variable to absorb it.
pub open spec fn length_message(a: nat, b: nat) -> Seq<char> {
    "rows have incompatible lengths ("@ + decimal(a) + " vs "@ + decimal(b)
        + ") and no row variable to absorb"@
}

/// Unification of two stack types: a type variable unifies with anything,
/// primitives with the same primitive, quotations when their input rows and
/// then their output rows unify; otherwise the first mismatch is reported.
pub open spec fn unify_stypes(a: STypeV, b: STypeV) -> Result<(), Seq<char>>
    decreases a,
{
    match (a, b) {
        (STypeV::TypeVar(_), _) => Ok(()),
        (_, STypeV::TypeVar(_)) => Ok(()),
        (STypeV::Primitive(pa), STypeV::Primitive(pb)) => if pa == pb {
            Ok(())
        } else {
            Err(mismatch_message(show_prim(pa), show_prim(pb)))
        },
        (STypeV::Quotation(sa), STypeV::Quotation(sb)) => match unify_rows_v(sa.input, sb.input) {
            Err(e) => Err(e),
            Ok(_) => match unify_rows_v(sa.output, sb.output) {
                Err(e) => Err(e),
                Ok(_) => Ok(()),
            },
        },
        _ => Err(mismatch_message(show_stype(a), show_stype(b))),
    }
}

/// Pairwise unification of `xs` and `ys` from the bottom, up to the shorter
/// length; the first failing pair decides the error.
pub open spec fn unify_pairs(xs: Seq<STypeV>, ys: Seq<STypeV>) -> Result<(), Seq<char>>
    decreases xs,
{
    if xs.len() == 0 || ys.len() == 0 {
        Ok(())
    } else {
        match unify_stypes(xs[0], ys[0]) {
            Err(e) => Err(e),
            Ok(_) => unify_pairs(xs.subrange(1, xs.len() as int), ys.subrange(1, ys.len() as int)),
        }
    }
}

/// Row unification.  Rows of equal length unify pairwise, and the result
/// keeps the types of `a` with the first row variable present.  When one row
/// is longer, the other needs a row variable to absorb the difference; the
/// top of the longer row is unified with the shorter, and the longer row is
/// the result.
pub open spec fn unify_rows_v(a: RowV, b: RowV) -> Result<RowV, Seq<char>>
    decreases a,
{
    let al = a.types.len();
    let bl = b.types.len();
    if al == bl {
        match unify_pairs(a.types, b.types) {
            Err(e) => Err(e),
            Ok(_) => Ok(
                RowV {
                    var: match a.var {
                        Some(v) => Some(v),
                        None => b.var,
                    },
                    types: a.types,
                },
            ),
        }
    } else if al > bl {
        if b.var is None {
            Err(length_message(al, bl))
        } else {
            match unify_pairs(a.types.subrange(al - bl, al as int), b.types) {
                Err(e) => Err(e),
                Ok(_) => Ok(a),
            }
        }
    } else {
        if a.var is None {
            Err(length_message(al, bl))
        } else {
            match unify_pairs(a.types, b.types.subrange(bl - al, bl as int)) {
                Err(e) => Err(e),
                Ok(_) => Ok(b),
            }
        }
    }
}

fn mismatch_error(a: Vec<char>, b: Vec<char>) -> (r: UnificationError)
    ensures
        r.0@ == mismatch_message(a@, b@),
{
    let mut out = Vec::new();
    push_lit(&mut out, "type mismatch: ");
    push_all(&mut out, a.as_slice());
    push_lit(&mut out, " vs ");
    push_all(&mut out, b.as_slice());
    assert(out@ =~= mismatch_message(a@, b@));
    UnificationError(string_from_chars(out.as_slice()))
}

fn length_error(a: usize, b: usize) -> (r: UnificationError)
    ensures
        r.0@ == length_message(a as nat, b as nat),
{
    let mut out = Vec::new();
    push_lit(&mut out, "rows have incompatible lengths (");
    push_decimal(&mut out, a);
    push_lit(&mut out, " vs ");
    push_decimal(&mut out, b);
    push_lit(&mut out, ") and no row variable to absorb");
    assert(out@ =~= length_message(a as nat, b as nat));
    UnificationError(string_from_chars(out.as_slice()))
}

/// Unify two stack types.
pub fn unify_stack_types(a: &StackType, b: &StackType) -> (r: Result<(), UnificationError>)
    ensures
        r matches Ok(_) ==> unify_stypes(a@, b@) is Ok,
        r matches Err(e) ==> unify_stypes(a@, b@) == Err::<(), Seq<char>>(e.0@),
    decreases a,
{
    match (a, b) {
        (StackType::TypeVar(_), _) => Ok(()),
        (_, StackType::TypeVar(_)) => Ok(()),
        (StackType::Primitive(pa), StackType::Primitive(pb)) => {
            if pa.same(pb) {
                Ok(())
            } else {
                let mut x = Vec::new();
                push_prim(&mut x, pa);
                let mut y = Vec::new();
                push_prim(&mut y, pb);
                assert(x@ =~= show_prim(pa@));
                assert(y@ =~= show_prim(pb@));
                Err(mismatch_error(x, y))
            }
        },
        (StackType::Quotation(sa), StackType::Quotation(sb)) => {
            match unify_rows(&sa.input, &sb.input) {
                Err(e) => Err(e),
                Ok(_) => match unify_rows(&sa.output, &sb.output) {
                    Err(e) => Err(e),
                    Ok(_) => Ok(()),
                },
            }
        },
        _ => {
            let mut x = Vec::new();
            push_stype(&mut x, a);
            let mut y = Vec::new();
            push_stype(&mut y, b);
            assert(x@ =~= show_stype(a@));
            assert(y@ =~= show_stype(b@));
            Err(mismatch_error(x, y))
        },
    }
}

/// Unify `n` pairs: `xs[xo + i]` with `ys[yo + i]`.
fn unify_range(xs: &Vec<StackType>, xo: usize, ys: &Vec<StackType>, yo: usize, n: usize) -> (r: Result<
    (),
    UnificationError,
>)
    requires
        xo + n <= xs@.len(),
        yo + n <= ys@.len(),
    ensures
        r matches Ok(_) ==> unify_pairs(
            types_v(xs@).subrange(xo as int, xo + n),
            types_v(ys@).subrange(yo as int, yo + n),
        ) is Ok,
        r matches Err(e) ==> unify_pairs(
            types_v(xs@).subrange(xo as int, xo + n),
            types_v(ys@).subrange(yo as int, yo + n),
        ) == Err::<(), Seq<char>>(e.0@),
    decreases xs,
{
    proof {
        lemma_types_v(xs@);
        lemma_types_v(ys@);
    }
    let ghost xv = types_v(xs@).subrange(xo as int, xo + n);
    let ghost yv = types_v(ys@).subrange(yo as int, yo + n);
    let mut i: usize = 0;
    assert(xv.subrange(0, n as int) =~= xv);
    assert(yv.subrange(0, n as int) =~= yv);
    while i < n
        invariant
            i <= n,
            xo + n <= xs@.len(),
            yo + n <= ys@.len(),
            xv == types_v(xs@).subrange(xo as int, xo + n),
            yv == types_v(ys@).subrange(yo as int, yo + n),
            types_v(xs@).len() == xs@.len(),
            types_v(ys@).len() == ys@.len(),
            forall|k: int| 0 <= k < xs@.len() ==> types_v(xs@)[k] == stype_v(#[trigger] xs@[k]),
            forall|k: int| 0 <= k < ys@.len() ==> types_v(ys@)[k] == stype_v(#[trigger] ys@[k]),
            unify_pairs(xv, yv) == unify_pairs(
                xv.subrange(i as int, n as int),
                yv.subrange(i as int, n as int),
            ),
        decreases n - i,
    {
        let ghost xs_i = xv.subrange(i as int, n as int);
        let ghost ys_i = yv.subrange(i as int, n as int);
        assert(xs_i[0] == stype_v(xs@[xo + i]));
        assert(ys_i[0] == stype_v(ys@[yo + i]));
        let xlen = xs.len();
        let ylen = ys.len();
        assert(xo + i < xlen && yo + i < ylen);
        match unify_stack_types(&xs[xo + i], &ys[yo + i]) {
            Err(e) => {
                return Err(e);
            },
            Ok(_) => {},
        }
        assert(xs_i.subrange(1, xs_i.len() as int) =~= xv.subrange(i + 1, n as int));
        assert(ys_i.subrange(1, ys_i.len() as int) =~= yv.subrange(i + 1, n as int));
        i = i + 1;
    }
    Ok(())
}

/// The row variable of two unified rows: the first one present.  Two
/// different names are compatible, and the first is kept.
fn unify_row_vars(a: &Option<String>, b: &Option<String>) -> (r: Option<String>)
    ensures
        opt_view(r) == match opt_view(*a) {
            Some(v) => Some(v),
            None => opt_view(*b),
        },
{
    match a {
        Some(v) => Some(v.clone()),
        None => match b {
            Some(v) => Some(v.clone()),
            None => None,
        },
    }
}

/// Unify two rows.  Returns the "unified" row if they are compatible.
///
/// Two rows are compatible when:
/// - One or both have a row variable (polymorphic) that can absorb the difference, OR
/// - Both have the same concrete types in the same order.
pub fn unify_rows(a: &Row, b: &Row) -> (r: Result<Row, UnificationError>)
    ensures
        r matches Ok(row) ==> unify_rows_v(a@, b@) == Ok::<RowV, Seq<char>>(row@),
        r matches Err(e) ==> unify_rows_v(a@, b@) == Err::<RowV, Seq<char>>(e.0@),
    decreases a,
{
    proof {
        lemma_types_v(a.types@);
        lemma_types_v(b.types@);
    }
    let al = a.types.len();
    let bl = b.types.len();
    if al == bl {
        assert(types_v(a.types@).subrange(0, al as int) =~= types_v(a.types@));
        assert(types_v(b.types@).subrange(0, bl as int) =~= types_v(b.types@));
        match unify_range(&a.types, 0, &b.types, 0, al) {
            Err(e) => Err(e),
            Ok(_) => Ok(Row { var: unify_row_vars(&a.var, &b.var), types: clone_types(&a.types) }),
        }
    } else if al > bl {
        if b.var.is_none() {
            Err(length_error(al, bl))
        } else {
            assert(types_v(b.types@).subrange(0, bl as int) =~= types_v(b.types@));
            match unify_range(&a.types, al - bl, &b.types, 0, bl) {
                Err(e) => Err(e),
                Ok(_) => Ok(clone_row(a)),
            }
        }
    } else {
        if a.var.is_none() {
            Err(length_error(al, bl))
        } else {
            assert(types_v(a.types@).subrange(0, al as int) =~= types_v(a.types@));
            match unify_range(&a.types, 0, &b.types, bl - al, al) {
                Err(e) => Err(e),
                Ok(_) => Ok(clone_row(b)),
            }
        }
    }
}


// ── Construction and composition ─────────────────────────────────────────────

/// Replace the row variable `var` of `row` with the row `ctx`: when `row`
/// carries exactly that variable, the result is `ctx`'s variable with
/// `ctx`'s types below `row`'s; otherwise `row` is unchanged.
pub open spec fn substitute_row_v(row: RowV, var: Option<Seq<char>>, ctx: RowV) -> RowV {
    match (row.var, var) {
        (Some(rv), Some(cv)) => if rv == cv {
            RowV { var: ctx.var, types: ctx.types + row.types }
        } else {
            row
        },
        _ => row,
    }
}

/// Sequential composition of `s` followed by `n`: `s`'s output must unify
/// with `n`'s input.  What `n` does not consume of `s`'s output stays below
/// `n`'s output, which replaces `n`'s input row variable; effects are joined.
pub open spec fn compose_v(s: SigV, n: SigV) -> Result<SigV, Seq<char>> {
    match unify_rows_v(s.output, n.input) {
        Err(e) => Err(e),
        Ok(_) => {
            let al = s.output.types.len();
            let bl = n.input.types.len();
            let base = RowV {
                var: s.output.var,
                types: if al > bl { s.output.types.subrange(0, al - bl) } else { seq![] },
            };
            Ok(
                SigV {
                    input: s.input,
                    output: substitute_row_v(n.output, n.input.var, base),
                    effects: effects_union(s.effects, n.effects),
                },
            )
        },
    }
}

fn substitute_row(row: &Row, var_name: &Option<String>, context: &Row) -> (r: Row)
    ensures
        r@ == substitute_row_v(row@, opt_view(*var_name), context@),
{
    proof {
        lemma_types_v(row.types@);
        lemma_types_v(context.types@);
    }
    match (&row.var, var_name) {
        (Some(rv), Some(cv)) => {
            if string_eq(rv, cv) {
                let mut types = clone_types(&context.types);
                let ghost front = types@;
                let mut i: usize = 0;
                proof {
                    lemma_types_v(types@);
                }
                while i < row.types.len()
                    invariant
                        i <= row.types@.len(),
                        types@.len() == front.len() + i,
                        front.len() == context.types@.len(),
                        types_v(row.types@).len() == row.types@.len(),
                        forall|k: int|
                            0 <= k < row.types@.len() ==> types_v(row.types@)[k] == stype_v(
                                #[trigger] row.types@[k],
                            ),
                        forall|k: int|
                            0 <= k < front.len() ==> stype_v(#[trigger] types@[k]) == types_v(
                                context.types@,
                            )[k],
                        forall|k: int|
                            front.len() <= k < types@.len() ==> stype_v(#[trigger] types@[k])
                                == stype_v(row.types@[k - front.len()]),
                        types_v(front) == types_v(context.types@),
                    decreases row.types@.len() - i,
                {
                    types.push(clone_stack_type(&row.types[i]));
                    i = i + 1;
                }
                proof {
                    lemma_types_v(types@);
                    lemma_types_v(front);
                    let lhs = types_v(types@);
                    let rhs = types_v(context.types@) + types_v(row.types@);
                    assert forall|k: int| 0 <= k < lhs.len() implies lhs[k] == rhs[k] by {
                        assert(lhs[k] == stype_v(types@[k]));
                        if k >= front.len() {
                            assert(rhs[k] == types_v(row.types@)[k - front.len()]);
                        }
                    }
                    assert(lhs =~= rhs);
                }
                Row { var: clone_opt_string(&context.var), types }
            } else {
                clone_row(row)
            }
        },
        _ => clone_row(row),
    }
}

fn prefix_types(ts: &Vec<StackType>, n: usize) -> (r: Vec<StackType>)
    requires
        n <= ts@.len(),
    ensures
        types_v(r@) == types_v(ts@).subrange(0, n as int),
{
    proof {
        lemma_types_v(ts@);
    }
    let mut r: Vec<StackType> = Vec::new();
    let mut i: usize = 0;
    while i < n
        invariant
            i <= n,
            n <= ts@.len(),
            r@.len() == i,
            types_v(ts@).len() == ts@.len(),
            forall|k: int| 0 <= k < ts@.len() ==> types_v(ts@)[k] == stype_v(#[trigger] ts@[k]),
            forall|k: int| 0 <= k < i ==> stype_v(#[trigger] r@[k]) == stype_v(ts@[k]),
        decreases n - i,
    {
        r.push(clone_stack_type(&ts[i]));
        i = i + 1;
    }
    proof {
        lemma_types_v(r@);
        assert forall|k: int| 0 <= k < n implies types_v(r@)[k] == types_v(ts@).subrange(
            0,
            n as int,
        )[k] by {
            assert(types_v(r@)[k] == stype_v(r@[k]));
        }
        assert(types_v(r@) =~= types_v(ts@).subrange(0, n as int));
    }
    r
}

impl Row {
    /// The row with no row variable and no types.
    pub fn empty() -> (r: Row)
        ensures
            r@ == (RowV { var: None, types: seq![] }),
    {
        let r = Row { var: None, types: Vec::new() };
        assert(types_v(r.types@) =~= seq![]);
        r
    }
}

impl TypeSig {
    /// Well-formed: the effect labels are in strictly increasing order.
    pub open spec fn wf(&self) -> bool {
        strictly_sorted(self@.effects)
    }

    /// A signature from its parts.
    pub fn new(input: Row, output: Row, effects: EffectSet) -> (r: TypeSig)
        ensures
            r@ == (SigV { input: input@, output: output@, effects: effects@ }),
    {
        TypeSig { input, output, effects }
    }

    /// A signature with no effects.
    pub fn pure(input: Row, output: Row) -> (r: TypeSig)
        ensures
            r.wf(),
            r@ == (SigV { input: input@, output: output@, effects: seq![] }),
    {
        TypeSig { input, output, effects: EffectSet::empty() }
    }

    /// Compose two type signatures in sequence (self followed by next).
    ///
    /// Requires that `self.output` unifies with `next.input`.
    /// Returns an error describing the mismatch if they don't.
    pub fn compose(&self, next: &TypeSig) -> (r: Result<TypeSig, UnificationError>)
        requires
            self.wf(),
            next.wf(),
        ensures
            r matches Ok(sig) ==> sig.wf() && compose_v(self@, next@) == Ok::<SigV, Seq<char>>(
                sig@,
            ),
            r matches Err(e) ==> compose_v(self@, next@) == Err::<SigV, Seq<char>>(e.0@),
    {
        match unify_rows(&self.output, &next.input) {
            Err(e) => return Err(e),
            Ok(_) => {},
        }
        proof {
            lemma_types_v(self.output.types@);
            lemma_types_v(next.input.types@);
        }
        let a_len = self.output.types.len();
        let b_len = next.input.types.len();
        let base_types = if a_len > b_len {
            prefix_types(&self.output.types, a_len - b_len)
        } else {
            let v: Vec<StackType> = Vec::new();
            assert(types_v(v@) =~= seq![]);
            v
        };
        let remaining_base = Row { var: clone_opt_string(&self.output.var), types: base_types };
        let composed_output = substitute_row(&next.output, &next.input.var, &remaining_base);
        let effects = self.effects.union(&next.effects);
        proof {
            lemma_effects_union(self@.effects, next@.effects);
        }
        Ok(TypeSig { input: clone_row(&self.input), output: composed_output, effects })
    }
}


// ── Parsing ──────────────────────────────────────────────────────────────────

pub open spec fn is_ascii_upper(c: char) -> bool {
    'A' <= c && c <= 'Z'
}

pub open spec fn is_ascii_lower(c: char) -> bool {
    'a' <= c && c <= 'z'
}

/// The stack type a token denotes: a single lowercase ASCII letter is a type
/// variable, any other token names a primitive type.
pub open spec fn stype_from_token(w: Seq<char>) -> STypeV {
    if w.len() == 1 && is_ascii_lower(w[0]) {
        STypeV::TypeVar(w)
    } else {
        STypeV::Primitive(prim_from_name(w))
    }
}

/// The row the tokens denote: a first token starting with an uppercase ASCII
/// letter is the row variable; the remaining tokens are the stack types.
pub open spec fn row_from_words(ws: Seq<Seq<char>>) -> RowV {
    if ws.len() > 0 && ws[0].len() > 0 && is_ascii_upper(ws[0][0]) {
        RowV {
            var: Some(ws[0]),
            types: Seq::new((ws.len() - 1) as nat, |i: int| stype_from_token(ws[i + 1])),
        }
    } else {
        RowV { var: None, types: Seq::new(ws.len(), |i: int| stype_from_token(ws[i])) }
    }
}

/// The effect labels named by `ws`, in increasing order without repetition.
pub open spec fn labels_of(ws: Seq<Seq<char>>) -> Seq<Seq<char>>
    decreases ws.len(),
{
    if ws.len() == 0 {
        seq![]
    } else {
        effects_union(labels_of(ws.drop_last()), seq![ws.last()])
    }
}

/// What `( inputs -- outputs | effects )` denotes, or the parse error: the
/// trimmed text must open with `(` and close with `)`; inside, `--`
/// separates the input row from the rest, and a `|` in the rest separates
/// the output row from the effect labels.
pub open spec fn parse_sig_v(s: Seq<char>) -> Result<SigV, Seq<char>> {
    let t = trim(s);
    if t.len() == 0 || t[0] != '(' {
        Err("expected '(' at start, got: "@ + quoted(t))
    } else {
        let t1 = t.subrange(1, t.len() as int);
        if t1.len() == 0 || t1[t1.len() - 1] != ')' {
            Err("expected ')' at end"@)
        } else {
            let t2 = trim(t1.subrange(0, t1.len() - 1));
            match find_from(t2, "--"@, 0) {
                None => Err("expected '--' in type signature"@),
                Some(j) => {
                    let input = t2.subrange(0, j);
                    let rest = t2.subrange(j + 2, t2.len() as int);
                    match find_from(rest, "|"@, 0) {
                        None => Ok(
                            SigV {
                                input: row_from_words(words(input)),
                                output: row_from_words(words(rest)),
                                effects: seq![],
                            },
                        ),
                        Some(k) => Ok(
                            SigV {
                                input: row_from_words(words(input)),
                                output: row_from_words(words(rest.subrange(0, k))),
                                effects: labels_of(
                                    words(rest.subrange(k + 1, rest.len() as int)),
                                ),
                            },
                        ),
                    }
                },
            }
        }
    }
}

fn is_upper(c: char) -> (r: bool)
    ensures
        r == is_ascii_upper(c),
{
    'A' <= c && c <= 'Z'
}

fn is_lower(c: char) -> (r: bool)
    ensures
        r == is_ascii_lower(c),
{
    'a' <= c && c <= 'z'
}

impl StackType {
    /// Parse a single stack-type token: a single lowercase letter is a type
    /// variable; other tokens name primitive types.
    pub fn from_token(s: &[char]) -> (r: StackType)
        ensures
            r@ == stype_from_token(s@),
    {
        if s.len() == 1 && is_lower(s[0]) {
            StackType::TypeVar(string_from_chars(s))
        } else {
            StackType::Primitive(PrimitiveType::from_name(s))
        }
    }
}

pub open spec fn words_v(ws: Seq<Vec<char>>) -> Seq<Seq<char>> {
    Seq::new(ws.len(), |i: int| ws[i]@)
}

impl Row {
    /// Parse a token list into a `Row`.  The first token is the row variable
    /// if it starts with an uppercase letter.
    pub fn from_tokens(tokens: &Vec<Vec<char>>) -> (r: Row)
        ensures
            r@ == row_from_words(words_v(tokens@)),
    {
        let ghost ws = words_v(tokens@);
        let n = tokens.len();
        let has_var = n > 0 && tokens[0].len() > 0 && is_upper(tokens[0][0]);
        let start: usize = if has_var { 1 } else { 0 };
        let var = if has_var { Some(string_from_chars(tokens[0].as_slice())) } else { None };
        let mut types: Vec<StackType> = Vec::new();
        let mut i = start;
        while i < n
            invariant
                start <= i <= n,
                n == tokens@.len(),
                ws == words_v(tokens@),
                types@.len() == i - start,
                forall|k: int|
                    0 <= k < types@.len() ==> stype_v(#[trigger] types@[k])
                        == stype_from_token(ws[k + start]),
            decreases n - i,
        {
            types.push(StackType::from_token(tokens[i].as_slice()));
            i = i + 1;
        }
        let r = Row { var, types };
        proof {
            lemma_types_v(r.types@);
            if n > 0 && tokens@[0]@.len() > 0 {
                assert(ws[0] == tokens@[0]@);
                assert(tokens@[0][0] == ws[0][0]);
            }
            assert(has_var == (ws.len() > 0 && ws[0].len() > 0 && is_ascii_upper(ws[0][0])));
            let expect = row_from_words(ws).types;
            assert(expect.len() == types_v(r.types@).len());
            assert forall|k: int| 0 <= k < expect.len() implies types_v(r.types@)[k] == expect[k] by {
                assert(types_v(r.types@)[k] == stype_v(r.types@[k]));
            }
            assert(types_v(r.types@) =~= expect);
        }
        r
    }
}

proof fn lemma_labels_of_sorted(ws: Seq<Seq<char>>)
    ensures
        strictly_sorted(labels_of(ws)),
        forall|x: Seq<char>| labels_of(ws).contains(x) <==> ws.contains(x),
    decreases ws.len(),
{
    if ws.len() > 0 {
        lemma_labels_of_sorted(ws.drop_last());
        lemma_effects_union(labels_of(ws.drop_last()), seq![ws.last()]);
        assert forall|x: Seq<char>| labels_of(ws).contains(x) <==> ws.contains(x) by {
            if ws.drop_last().contains(x) {
                let k = choose|k: int| 0 <= k < ws.drop_last().len() && ws.drop_last()[k] == x;
                assert(ws[k] == x);
            }
            if ws.contains(x) {
                let k = choose|k: int| 0 <= k < ws.len() && ws[k] == x;
                if k < ws.len() - 1 {
                    assert(ws.drop_last()[k] == x);
                } else {
                    assert(seq![ws.last()][0] == x);
                }
            }
            if seq![ws.last()].contains(x) {
                assert(ws[ws.len() - 1] == x);
            }
        }
    }
}

fn effects_from_words(tokens: &Vec<Vec<char>>) -> (r: EffectSet)
    ensures
        r.wf(),
        r@ == labels_of(words_v(tokens@)),
{
    let mut labels: Vec<String> = Vec::new();
    let mut i: usize = 0;
    while i < tokens.len()
        invariant
            i <= tokens@.len(),
            labels@.len() == i,
            forall|k: int| 0 <= k < i ==> (#[trigger] labels@[k])@ == tokens@[k]@,
        decreases tokens@.len() - i,
    {
        labels.push(string_from_chars(tokens[i].as_slice()));
        i = i + 1;
    }
    let r = EffectSet::from_labels(labels);
    proof {
        let ws = words_v(tokens@);
        lemma_labels_of_sorted(ws);
        assert forall|x: Seq<char>| r@.contains(x) <==> labels_of(ws).contains(x) by {
            if r@.contains(x) {
                let k = choose|k: int| 0 <= k < labels@.len() && labels@[k]@ == x;
                assert(ws[k] == x);
            }
            if ws.contains(x) {
                let k = choose|k: int| 0 <= k < ws.len() && ws[k] == x;
                assert(labels@[k]@ == x);
            }
        }
        lemma_sorted_same_members(r@, labels_of(ws));
    }
    r
}

fn words_of(s: &[char]) -> (r: Vec<Vec<char>>)
    ensures
        words_v(r@) == words(s@),
{
    let r = split_words(s);
    assert(words_v(r@) =~= words(s@));
    r
}

/// Parse `( inputs -- outputs | effects )`.
pub fn parse_type_sig(s: &str) -> (r: Result<TypeSig, TypeSigParseError>)
    ensures
        r matches Ok(sig) ==> sig.wf() && parse_sig_v(s@) == Ok::<SigV, Seq<char>>(sig@),
        r matches Err(e) ==> parse_sig_v(s@) == Err::<SigV, Seq<char>>(e.0@),
{
    proof {
        reveal_strlit("--");
        reveal_strlit("|");
    }
    let all = chars_of(s);
    let t = trim_chars(all.as_slice());
    if t.len() == 0 || t[0] != '(' {
        let mut msg = Vec::new();
        push_lit(&mut msg, "expected '(' at start, got: ");
        push_quoted(&mut msg, t.as_slice());
        return Err(TypeSigParseError(string_from_chars(msg.as_slice())));
    }
    let t1 = slice_to_vec(t.as_slice(), 1, t.len());
    if t1.len() == 0 || t1[t1.len() - 1] != ')' {
        return Err(TypeSigParseError(string_of("expected ')' at end")));
    }
    let inner = slice_to_vec(t1.as_slice(), 0, t1.len() - 1);
    let t2 = trim_chars(inner.as_slice());
    let arrow = chars_of("--");
    let j = match find_seq(t2.as_slice(), arrow.as_slice()) {
        None => {
            return Err(TypeSigParseError(string_of("expected '--' in type signature")));
        },
        Some(j) => j,
    };
    proof {
        crate::text::lemma_find_from(t2@, arrow@, 0);
    }
    let t2_len = t2.len();
    assert(arrow@.len() == 2);
    assert(j + 2 <= t2_len);
    let input_str = slice_to_vec(t2.as_slice(), 0, j);
    let rest = slice_to_vec(t2.as_slice(), j + 2, t2_len);
    let bar = chars_of("|");
    let input = Row::from_tokens(&words_of(input_str.as_slice()));
    match find_seq(rest.as_slice(), bar.as_slice()) {
        None => {
            let output = Row::from_tokens(&words_of(rest.as_slice()));
            Ok(TypeSig { input, output, effects: EffectSet::empty() })
        },
        Some(k) => {
            proof {
                crate::text::lemma_find_from(rest@, bar@, 0);
            }
            let out_str = slice_to_vec(rest.as_slice(), 0, k);
            let eff_str = slice_to_vec(rest.as_slice(), k + 1, rest.len());
            let output = Row::from_tokens(&words_of(out_str.as_slice()));
            let effects = effects_from_words(&words_of(eff_str.as_slice()));
            Ok(TypeSig { input, output, effects })
        },
    }
}

fn string_of(lit: &str) -> (s: String)
    ensures
        s@ == lit@,
{
    crate::text::string_of(lit)
}


impl std::str::FromStr for TypeSig {
    type Err = TypeSigParseError;

    fn from_str(s: &str) -> (r: Result<TypeSig, TypeSigParseError>)
        ensures
            r matches Ok(sig) ==> sig.wf() && parse_sig_v(s@) == Ok::<SigV, Seq<char>>(sig@),
            r matches Err(e) ==> parse_sig_v(s@) == Err::<SigV, Seq<char>>(e.0@),
    {
        parse_type_sig(s)
    }
}

// ── Laws ─────────────────────────────────────────────────────────────────────

proof fn lemma_unify_stypes_sym(a: STypeV, b: STypeV)
    ensures
        unify_stypes(a, b) is Ok <==> unify_stypes(b, a) is Ok,
    decreases a,
{
    match (a, b) {
        (STypeV::Quotation(sa), STypeV::Quotation(sb)) => {
            lemma_unify_rows_sym(sa.input, sb.input);
            lemma_unify_rows_sym(sa.output, sb.output);
        },
        _ => {},
    }
}

proof fn lemma_unify_pairs_sym(xs: Seq<STypeV>, ys: Seq<STypeV>)
    ensures
        unify_pairs(xs, ys) is Ok <==> unify_pairs(ys, xs) is Ok,
    decreases xs,
{
    if xs.len() > 0 && ys.len() > 0 {
        lemma_unify_stypes_sym(xs[0], ys[0]);
        lemma_unify_pairs_sym(xs.subrange(1, xs.len() as int), ys.subrange(1, ys.len() as int));
    }
}

proof fn lemma_unify_rows_sym(a: RowV, b: RowV)
    ensures
        unify_rows_v(a, b) is Ok <==> unify_rows_v(b, a) is Ok,
    decreases a,
{
    let al = a.types.len();
    let bl = b.types.len();
    if al == bl {
        lemma_unify_pairs_sym(a.types, b.types);
    } else if al > bl {
        lemma_unify_pairs_sym(a.types.subrange(al - bl, al as int), b.types);
    } else {
        lemma_unify_pairs_sym(a.types, b.types.subrange(bl - al, bl as int));
    }
}

/// Whether two rows unify does not depend on the order they are given in.
pub proof fn law_unify_rows_symmetric(a: RowV, b: RowV)
    ensures
        unify_rows_v(a, b) is Ok <==> unify_rows_v(b, a) is Ok,
{
    lemma_unify_rows_sym(a, b);
}

proof fn lemma_unify_stypes_refl(t: STypeV)
    ensures
        unify_stypes(t, t) is Ok,
    decreases t,
{
    match t {
        STypeV::Quotation(s) => {
            lemma_unify_rows_refl(s.input);
            lemma_unify_rows_refl(s.output);
        },
        _ => {},
    }
}

proof fn lemma_unify_pairs_refl(xs: Seq<STypeV>)
    ensures
        unify_pairs(xs, xs) is Ok,
    decreases xs,
{
    if xs.len() > 0 {
        lemma_unify_stypes_refl(xs[0]);
        lemma_unify_pairs_refl(xs.subrange(1, xs.len() as int));
    }
}

proof fn lemma_unify_rows_refl(r: RowV)
    ensures
        unify_rows_v(r, r) == Ok::<RowV, Seq<char>>(r),
    decreases r,
{
    lemma_unify_pairs_refl(r.types);
}

/// Every row unifies with itself, and the unified row is that row.
pub proof fn law_unify_rows_reflexive(r: RowV)
    ensures
        unify_rows_v(r, r) == Ok::<RowV, Seq<char>>(r),
{
    lemma_unify_rows_refl(r);
}

/// The identity signature `( S -- S )`.
pub open spec fn identity_v() -> SigV {
    SigV {
        input: RowV { var: Some(seq!['S']), types: seq![] },
        output: RowV { var: Some(seq!['S']), types: seq![] },
        effects: seq![],
    }
}

/// Composing a signature with the identity `( S -- S )` after it gives the
/// signature back.
pub proof fn law_compose_right_identity(s: SigV)
    requires
        strictly_sorted(s.effects),
    ensures
        compose_v(s, identity_v()) == Ok::<SigV, Seq<char>>(s),
{
    let id = identity_v();
    if s.output.types.len() == 0 {
        assert(unify_pairs(s.output.types, id.input.types) is Ok);
    } else {
        assert(s.output.types.subrange(s.output.types.len() - 0, s.output.types.len() as int)
            =~= Seq::<STypeV>::empty());
    }
    law_effects_union_idempotent_and_unit(s.effects);
    let base = RowV {
        var: s.output.var,
        types: if s.output.types.len() > 0 {
            s.output.types.subrange(0, s.output.types.len() as int)
        } else {
            seq![]
        },
    };
    assert(base.types =~= s.output.types);
    assert(substitute_row_v(id.output, id.input.var, base).types =~= s.output.types);
}

/// A composition keeps the first signature's input row, and its effects are
/// the union of both signatures' effects.
pub proof fn law_compose_input_and_effects(s: SigV, n: SigV)
    requires
        strictly_sorted(s.effects),
        strictly_sorted(n.effects),
        compose_v(s, n) is Ok,
    ensures
        compose_v(s, n)->Ok_0.input == s.input,
        forall|x: Seq<char>|
            compose_v(s, n)->Ok_0.effects.contains(x) <==> (s.effects.contains(x)
                || n.effects.contains(x)),
{
    lemma_effects_union(s.effects, n.effects);
}

/// Composition fails exactly when the first output does not unify with the
/// second input.
pub proof fn law_compose_fails_iff_no_unifier(s: SigV, n: SigV)
    ensures
        compose_v(s, n) is Err <==> unify_rows_v(s.output, n.input) is Err,
{
}


/// Composing a signature that leaves `xs` on its row with one that takes
/// nothing from that row and pushes `ys` leaves `xs` with `ys` on top: the
/// first signature's values stay below the second's, in order.
pub proof fn law_compose_stacks_outputs(
    input: RowV,
    v: Seq<char>,
    xs: Seq<STypeV>,
    w: Seq<char>,
    ys: Seq<STypeV>,
    e1: Seq<Seq<char>>,
    e2: Seq<Seq<char>>,
)
    ensures
        compose_v(
            SigV { input, output: RowV { var: Some(v), types: xs }, effects: e1 },
            SigV {
                input: RowV { var: Some(w), types: seq![] },
                output: RowV { var: Some(w), types: ys },
                effects: e2,
            },
        ) matches Ok(r) && r.input == input && r.output == (RowV { var: Some(v), types: xs + ys }),
{
    let s = SigV { input, output: RowV { var: Some(v), types: xs }, effects: e1 };
    let n = SigV {
        input: RowV { var: Some(w), types: seq![] },
        output: RowV { var: Some(w), types: ys },
        effects: e2,
    };
    let al = xs.len();
    assert(xs.subrange(al as int, al as int) =~= Seq::<STypeV>::empty());
    assert(unify_pairs(Seq::<STypeV>::empty(), Seq::<STypeV>::empty()) is Ok);
    assert(unify_rows_v(s.output, n.input) is Ok);
    if al > 0 {
        assert(xs.subrange(0, al as int) =~= xs);
    } else {
        assert(xs =~= Seq::<STypeV>::empty());
    }
}

} // verus!
