//! Comparing values.
//!
//! `same_*` functions tell whether two values have the same model: every
//! field equal, deep. `data_equal` is the equality of the language: it
//! looks at the data of values only, and lets a bare word equal a symbol of
//! the same name.

use vstd::prelude::*;

use crate::ast::{lemma_nodes_v, node_v, nodes_v, AstNode, NodeKind, TypeInfo};
use crate::span::Span;
use crate::text::string_eq;
use crate::types::{lemma_types_v, stype_v, types_v, EffectSet, Row, StackType, TypeSig};
use crate::value::{lemma_values_v, value_v, values_v, DataV, Lambda, Pos, Value, ValueData, ValueV};

verus! {

// ── Types ────────────────────────────────────────────────────────────────────

fn same_opt_string(a: &Option<String>, b: &Option<String>) -> (r: bool)
    ensures
        r == (crate::types::opt_view(*a) == crate::types::opt_view(*b)),
{
    match (a, b) {
        (Some(x), Some(y)) => string_eq(x, y),
        (None, None) => true,
        _ => false,
    }
}

/// Whether two stack types are the same.
pub fn same_stype(a: &StackType, b: &StackType) -> (r: bool)
    ensures
        r == (a@ == b@),
    decreases a,
{
    match (a, b) {
        (StackType::Primitive(x), StackType::Primitive(y)) => x.same(y),
        (StackType::TypeVar(x), StackType::TypeVar(y)) => string_eq(x, y),
        (StackType::Quotation(x), StackType::Quotation(y)) => {
            let r = same_sig(x, y);
            proof {
                if r {
                    assert(a@ == b@);
                } else {
                    assert(stype_v(*a) matches crate::types::STypeV::Quotation(p) && *p == crate::types::sig_v(**x));
                }
            }
            r
        },
        _ => false,
    }
}

fn same_stypes(a: &Vec<StackType>, b: &Vec<StackType>) -> (r: bool)
    ensures
        r == (types_v(a@) == types_v(b@)),
    decreases a,
{
    proof {
        lemma_types_v(a@);
        lemma_types_v(b@);
    }
    if a.len() != b.len() {
        return false;
    }
    let mut i: usize = 0;
    while i < a.len()
        invariant
            i <= a@.len(),
            a@.len() == b@.len(),
            types_v(a@).len() == a@.len(),
            types_v(b@).len() == b@.len(),
            forall|k: int| 0 <= k < a@.len() ==> types_v(a@)[k] == stype_v(#[trigger] a@[k]),
            forall|k: int| 0 <= k < b@.len() ==> types_v(b@)[k] == stype_v(#[trigger] b@[k]),
            forall|k: int| 0 <= k < i ==> types_v(a@)[k] == types_v(b@)[k],
        decreases a@.len() - i,
    {
        proof {
            assert(decreases_to!(a => a@));
            assert(decreases_to!(a@ => a@[i as int]));
        }
        if !same_stype(&a[i], &b[i]) {
            assert(types_v(a@)[i as int] != types_v(b@)[i as int]);
            return false;
        }
        i = i + 1;
    }
    assert(types_v(a@) =~= types_v(b@));
    true
}

fn same_row(a: &Row, b: &Row) -> (r: bool)
    ensures
        r == (a@ == b@),
    decreases a,
{
    let v = same_opt_string(&a.var, &b.var);
    if !v {
        return false;
    }
    same_stypes(&a.types, &b.types)
}

fn same_labels(a: &EffectSet, b: &EffectSet) -> (r: bool)
    ensures
        r == (a@ == b@),
{
    if a.labels.len() != b.labels.len() {
        assert(a@.len() != b@.len());
        return false;
    }
    let mut i: usize = 0;
    while i < a.labels.len()
        invariant
            i <= a.labels@.len(),
            a.labels@.len() == b.labels@.len(),
            forall|k: int| 0 <= k < i ==> a@[k] == b@[k],
        decreases a.labels@.len() - i,
    {
        if !string_eq(&a.labels[i].0, &b.labels[i].0) {
            assert(a@[i as int] != b@[i as int]);
            return false;
        }
        i = i + 1;
    }
    assert(a@ =~= b@);
    true
}

/// Whether two signatures are the same.
pub fn same_sig(a: &TypeSig, b: &TypeSig) -> (r: bool)
    ensures
        r == (a@ == b@),
    decreases a,
{
    same_row(&a.input, &b.input) && same_row(&a.output, &b.output) && same_labels(&a.effects, &b.effects)
}

// ── Values and syntax trees ──────────────────────────────────────────────────

fn same_pos(a: &Option<Pos>, b: &Option<Pos>) -> (r: bool)
    ensures
        r == (*a == *b),
{
    match (a, b) {
        (Some(x), Some(y)) => x.line == y.line && x.column == y.column && x.offset == y.offset && x.length
            == y.length,
        (None, None) => true,
        _ => false,
    }
}

fn same_span(a: &Span, b: &Span) -> (r: bool)
    ensures
        r == (a@ == b@),
{
    string_eq(&a.source, &b.source) && a.start.line == b.start.line && a.start.column == b.start.column
        && a.start.offset == b.start.offset && a.end.line == b.end.line && a.end.column == b.end.column
        && a.end.offset == b.end.offset
}

fn same_info(a: &Option<TypeInfo>, b: &Option<TypeInfo>) -> (r: bool)
    ensures
        r == (crate::ast::info_v(*a) == crate::ast::info_v(*b)),
{
    match (a, b) {
        (Some(x), Some(y)) => same_sig(&x.type_sig, &y.type_sig),
        (None, None) => true,
        _ => false,
    }
}

/// Whether two values are the same: the same data, written the same way at
/// the same place.
pub fn same_value(a: &Value, b: &Value) -> (r: bool)
    ensures
        r == (a@ == b@),
    decreases a,
{
    let d = same_data(&a.data, &b.data);
    if !d {
        return false;
    }
    let l = same_opt_string(&a.lexeme, &b.lexeme);
    if !l {
        return false;
    }
    same_pos(&a.pos, &b.pos)
}

fn same_values(a: &Vec<Value>, b: &Vec<Value>) -> (r: bool)
    ensures
        r == (values_v(a@) == values_v(b@)),
    decreases a,
{
    proof {
        lemma_values_v(a@);
        lemma_values_v(b@);
    }
    if a.len() != b.len() {
        return false;
    }
    let mut i: usize = 0;
    while i < a.len()
        invariant
            i <= a@.len(),
            a@.len() == b@.len(),
            values_v(a@).len() == a@.len(),
            values_v(b@).len() == b@.len(),
            forall|k: int| 0 <= k < a@.len() ==> values_v(a@)[k] == value_v(#[trigger] a@[k]),
            forall|k: int| 0 <= k < b@.len() ==> values_v(b@)[k] == value_v(#[trigger] b@[k]),
            forall|k: int| 0 <= k < i ==> values_v(a@)[k] == values_v(b@)[k],
        decreases a@.len() - i,
    {
        proof {
            assert(decreases_to!(a => a@));
            assert(decreases_to!(a@ => a@[i as int]));
        }
        if !same_value(&a[i], &b[i]) {
            assert(values_v(a@)[i as int] != values_v(b@)[i as int]);
            return false;
        }
        i = i + 1;
    }
    assert(values_v(a@) =~= values_v(b@));
    true
}

/// Whether two pieces of data are the same.
pub fn same_data(a: &ValueData, b: &ValueData) -> (r: bool)
    ensures
        r == (a@ == b@),
    decreases a,
{
    match (a, b) {
        (ValueData::Integer(x), ValueData::Integer(y)) => *x == *y,
        (ValueData::Float(x), ValueData::Float(y)) => string_eq(x, y),
        (ValueData::Boolean(x), ValueData::Boolean(y)) => *x == *y,
        (ValueData::Char(x), ValueData::Char(y)) => *x == *y,
        (ValueData::String(x), ValueData::String(y)) => string_eq(x, y),
        (ValueData::List(x), ValueData::List(y)) => same_values(x, y),
        (ValueData::Function(x), ValueData::Function(y)) => same_lambda(x, y),
        (ValueData::Address(x), ValueData::Address(y)) => *x == *y,
        (ValueData::Word(x), ValueData::Word(y)) => string_eq(x, y),
        (ValueData::Symbol { module: m1, word: w1 }, ValueData::Symbol { module: m2, word: w2 }) => string_eq(
            m1,
            m2,
        ) && string_eq(w1, w2),
        (ValueData::Macro, ValueData::Macro) => true,
        (ValueData::Literal(x), ValueData::Literal(y)) => {
            let r = same_value(x, y);
            proof {
                if !r {
                    assert(a@ matches DataV::Literal(p) && *p == value_v(**x));
                }
            }
            r
        },
        (ValueData::Return(x1, y1), ValueData::Return(x2, y2)) => *x1 == *x2 && *y1 == *y2,
        (ValueData::EndOfInput, ValueData::EndOfInput) => true,
        _ => false,
    }
}

/// Whether two functions are the same: the same name and the same body.
pub fn same_lambda(a: &Lambda, b: &Lambda) -> (r: bool)
    ensures
        r == (a@ == b@),
    decreases a,
{
    same_opt_string(&a.name, &b.name) && same_nodes(&a.body, &b.body)
}

fn same_nodes(a: &Vec<AstNode>, b: &Vec<AstNode>) -> (r: bool)
    ensures
        r == (nodes_v(a@) == nodes_v(b@)),
    decreases a,
{
    proof {
        lemma_nodes_v(a@);
        lemma_nodes_v(b@);
    }
    if a.len() != b.len() {
        return false;
    }
    let mut i: usize = 0;
    while i < a.len()
        invariant
            i <= a@.len(),
            a@.len() == b@.len(),
            nodes_v(a@).len() == a@.len(),
            nodes_v(b@).len() == b@.len(),
            forall|k: int| 0 <= k < a@.len() ==> nodes_v(a@)[k] == node_v(#[trigger] a@[k]),
            forall|k: int| 0 <= k < b@.len() ==> nodes_v(b@)[k] == node_v(#[trigger] b@[k]),
            forall|k: int| 0 <= k < i ==> nodes_v(a@)[k] == nodes_v(b@)[k],
        decreases a@.len() - i,
    {
        proof {
            assert(decreases_to!(a => a@));
            assert(decreases_to!(a@ => a@[i as int]));
        }
        if !same_node(&a[i], &b[i]) {
            assert(nodes_v(a@)[i as int] != nodes_v(b@)[i as int]);
            return false;
        }
        i = i + 1;
    }
    assert(nodes_v(a@) =~= nodes_v(b@));
    true
}

/// Whether two syntax tree nodes are the same.
pub fn same_node(a: &AstNode, b: &AstNode) -> (r: bool)
    ensures
        r == (a@ == b@),
    decreases a,
{
    same_kind(&a.kind, &b.kind) && same_span(&a.span, &b.span) && same_info(&a.type_info, &b.type_info)
}

fn same_kind(a: &NodeKind, b: &NodeKind) -> (r: bool)
    ensures
        r == (a@ == b@),
    decreases a,
{
    match (a, b) {
        (NodeKind::Literal(x), NodeKind::Literal(y)) => same_value(x, y),
        (NodeKind::Word { module: m1, name: n1 }, NodeKind::Word { module: m2, name: n2 }) => same_opt_string(
            m1,
            m2,
        ) && string_eq(n1, n2),
        (NodeKind::Quotation(x), NodeKind::Quotation(y)) => same_nodes(x, y),
        (NodeKind::Vector(x), NodeKind::Vector(y)) => same_nodes(x, y),
        (
            NodeKind::Definition { name: n1, type_sig: t1, body: b1 },
            NodeKind::Definition { name: n2, type_sig: t2, body: b2 },
        ) => string_eq(n1, n2) && same_sig(t1, t2) && same_nodes(b1, b2),
        (NodeKind::MacroDefinition { name: n1, body: b1 }, NodeKind::MacroDefinition { name: n2, body: b2 }) =>
            string_eq(n1, n2) && same_values(b1, b2),
        (NodeKind::Program(x), NodeKind::Program(y)) => same_nodes(x, y),
        _ => false,
    }
}

// ── The language's equality ──────────────────────────────────────────────────

/// Whether two pieces of data are equal in the language: values in lists
/// and literals are compared by their data alone, a bare word equals a
/// symbol of the same name, floats are compared as they are written, and a
/// return is equal to nothing.
pub open spec fn data_eq(a: DataV, b: DataV) -> bool
    decreases a,
{
    match (a, b) {
        (DataV::Integer(x), DataV::Integer(y)) => x == y,
        (DataV::Float(x), DataV::Float(y)) => x == y,
        (DataV::Boolean(x), DataV::Boolean(y)) => x == y,
        (DataV::Char(x), DataV::Char(y)) => x == y,
        (DataV::String(x), DataV::String(y)) => x == y,
        (DataV::List(xs), DataV::List(ys)) => items_eq(xs, ys),
        (DataV::Function(x), DataV::Function(y)) => x == y,
        (DataV::Address(x), DataV::Address(y)) => x == y,
        (DataV::Word(x), DataV::Word(y)) => x == y,
        (DataV::Word(x), DataV::Symbol { word, .. }) => x == word,
        (DataV::Symbol { word, .. }, DataV::Word(y)) => word == y,
        (DataV::Symbol { module: m1, word: w1 }, DataV::Symbol { module: m2, word: w2 }) => m1 == m2 && w1
            == w2,
        (DataV::Macro, DataV::Macro) => true,
        (DataV::Literal(x), DataV::Literal(y)) => data_eq(x.data, y.data),
        (DataV::EndOfInput, DataV::EndOfInput) => true,
        _ => false,
    }
}

/// Whether two lists hold equal data, item by item.
pub open spec fn items_eq(xs: Seq<ValueV>, ys: Seq<ValueV>) -> bool
    decreases xs,
{
    if xs.len() != ys.len() {
        false
    } else if xs.len() == 0 {
        true
    } else {
        items_eq(xs.subrange(0, xs.len() - 1), ys.subrange(0, ys.len() - 1)) && data_eq(
            xs[xs.len() - 1].data,
            ys[ys.len() - 1].data,
        )
    }
}

/// Whether two pieces of data are equal in the language.
pub fn data_equal(a: &ValueData, b: &ValueData) -> (r: bool)
    ensures
        r == data_eq(a@, b@),
    decreases a,
{
    match (a, b) {
        (ValueData::Integer(x), ValueData::Integer(y)) => *x == *y,
        (ValueData::Float(x), ValueData::Float(y)) => string_eq(x, y),
        (ValueData::Boolean(x), ValueData::Boolean(y)) => *x == *y,
        (ValueData::Char(x), ValueData::Char(y)) => *x == *y,
        (ValueData::String(x), ValueData::String(y)) => string_eq(x, y),
        (ValueData::List(x), ValueData::List(y)) => items_equal(x, y),
        (ValueData::Function(x), ValueData::Function(y)) => same_lambda(x, y),
        (ValueData::Address(x), ValueData::Address(y)) => *x == *y,
        (ValueData::Word(x), ValueData::Word(y)) => string_eq(x, y),
        (ValueData::Word(x), ValueData::Symbol { word, .. }) => string_eq(x, word),
        (ValueData::Symbol { word, .. }, ValueData::Word(y)) => string_eq(word, y),
        (ValueData::Symbol { module: m1, word: w1 }, ValueData::Symbol { module: m2, word: w2 }) => string_eq(
            m1,
            m2,
        ) && string_eq(w1, w2),
        (ValueData::Macro, ValueData::Macro) => true,
        (ValueData::Literal(x), ValueData::Literal(y)) => data_equal(&x.data, &y.data),
        (ValueData::EndOfInput, ValueData::EndOfInput) => true,
        _ => false,
    }
}

fn items_equal(a: &Vec<Value>, b: &Vec<Value>) -> (r: bool)
    ensures
        r == items_eq(values_v(a@), values_v(b@)),
    decreases a,
{
    proof {
        lemma_values_v(a@);
        lemma_values_v(b@);
    }
    if a.len() != b.len() {
        return false;
    }
    let mut i: usize = 0;
    proof {
        assert(values_v(a@).subrange(0, 0) =~= seq![]);
        assert(values_v(b@).subrange(0, 0) =~= seq![]);
    }
    while i < a.len()
        invariant
            i <= a@.len(),
            a@.len() == b@.len(),
            values_v(a@).len() == a@.len(),
            values_v(b@).len() == b@.len(),
            forall|k: int| 0 <= k < a@.len() ==> values_v(a@)[k] == value_v(#[trigger] a@[k]),
            forall|k: int| 0 <= k < b@.len() ==> values_v(b@)[k] == value_v(#[trigger] b@[k]),
            items_eq(values_v(a@).subrange(0, i as int), values_v(b@).subrange(0, i as int)),
        decreases a@.len() - i,
    {
        proof {
            assert(decreases_to!(a => a@));
            assert(decreases_to!(a@ => a@[i as int]));
        }
        let ghost xa = values_v(a@).subrange(0, i + 1);
        let ghost xb = values_v(b@).subrange(0, i + 1);
        proof {
            assert(xa.subrange(0, xa.len() - 1) =~= values_v(a@).subrange(0, i as int));
            assert(xb.subrange(0, xb.len() - 1) =~= values_v(b@).subrange(0, i as int));
            assert(xa[xa.len() - 1] == value_v(a@[i as int]));
            assert(xb[xb.len() - 1] == value_v(b@[i as int]));
        }
        if !data_equal(&a[i].data, &b[i].data) {
            proof {
                lemma_items_eq_prefix(values_v(a@), values_v(b@), i + 1);
            }
            return false;
        }
        i = i + 1;
    }
    proof {
        assert(values_v(a@).subrange(0, i as int) =~= values_v(a@));
        assert(values_v(b@).subrange(0, i as int) =~= values_v(b@));
    }
    true
}

/// Lists that differ in a prefix differ.
proof fn lemma_items_eq_prefix(xs: Seq<ValueV>, ys: Seq<ValueV>, k: int)
    requires
        0 < k <= xs.len(),
        xs.len() == ys.len(),
        !items_eq(xs.subrange(0, k), ys.subrange(0, k)),
    ensures
        !items_eq(xs, ys),
    decreases xs.len() - k,
{
    if k < xs.len() {
        let xk = xs.subrange(0, k + 1);
        let yk = ys.subrange(0, k + 1);
        assert(xk.subrange(0, k) =~= xs.subrange(0, k));
        assert(yk.subrange(0, k) =~= ys.subrange(0, k));
        lemma_items_eq_prefix(xs, ys, k + 1);
    } else {
        assert(xs.subrange(0, k) =~= xs);
        assert(ys.subrange(0, k) =~= ys);
    }
}

/// The language's equality is symmetric.
pub proof fn law_data_eq_symmetric(a: DataV, b: DataV)
    ensures
        data_eq(a, b) == data_eq(b, a),
    decreases a,
{
    match (a, b) {
        (DataV::List(xs), DataV::List(ys)) => lemma_items_eq_symmetric(xs, ys),
        (DataV::Literal(x), DataV::Literal(y)) => law_data_eq_symmetric(x.data, y.data),
        _ => {},
    }
}

proof fn lemma_items_eq_symmetric(xs: Seq<ValueV>, ys: Seq<ValueV>)
    ensures
        items_eq(xs, ys) == items_eq(ys, xs),
    decreases xs,
{
    if xs.len() == ys.len() && xs.len() > 0 {
        lemma_items_eq_symmetric(xs.subrange(0, xs.len() - 1), ys.subrange(0, ys.len() - 1));
        law_data_eq_symmetric(xs[xs.len() - 1].data, ys[ys.len() - 1].data);
    }
}

impl PartialEq for ValueData {
    fn eq(&self, other: &Self) -> (r: bool) {
        data_equal(self, other)
    }
}

impl vstd::std_specs::cmp::PartialEqSpecImpl for ValueData {
    open spec fn obeys_eq_spec() -> bool {
        true
    }

    open spec fn eq_spec(&self, other: &ValueData) -> bool {
        data_eq(self@, other@)
    }
}

impl PartialEq for Value {
    fn eq(&self, other: &Self) -> (r: bool) {
        data_equal(&self.data, &other.data)
    }
}

impl vstd::std_specs::cmp::PartialEqSpecImpl for Value {
    open spec fn obeys_eq_spec() -> bool {
        true
    }

    open spec fn eq_spec(&self, other: &Value) -> bool {
        data_eq(self@.data, other@.data)
    }
}

} // verus!
