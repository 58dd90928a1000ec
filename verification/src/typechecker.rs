//! The type checker: infers the signature of every node of a program,
//! checks each definition against the signature it declares, and annotates
//! the nodes with what it found.

use vstd::prelude::*;

use crate::ast::{node_v, nodes_v, AstNode, KindV, NodeKind, NodeV, TypeInfo};
use crate::span::{Span, SpanV};
use crate::text::{push_decimal, push_lit, push_string, string_from_chars, string_of};
use crate::types::{
    compose_v, strictly_sorted, unify_rows, unify_rows_v, PrimV, PrimitiveType, Row, RowV, STypeV, SigV,
    StackType, TypeSig,
};
use crate::value::{DataV, ValueData, ValueV};

verus! {

// ── Errors ───────────────────────────────────────────────────────────────────

/// What the type checker found wrong, and where.
#[derive(Debug)]
pub enum TypeError {
    UnknownWord { span: Span, name: String },
    TypeMismatch { span: Span, message: String },
    MissingEffect { span: Span, message: String },
    Internal { message: String },
}

pub enum TErrV {
    UnknownWord { span: SpanV, name: Seq<char> },
    TypeMismatch { span: SpanV, message: Seq<char> },
    MissingEffect { span: SpanV, message: Seq<char> },
    Internal { message: Seq<char> },
}

impl View for TypeError {
    type V = TErrV;

    open spec fn view(&self) -> TErrV {
        match self {
            TypeError::UnknownWord { span, name } => TErrV::UnknownWord { span: span@, name: name@ },
            TypeError::TypeMismatch { span, message } => TErrV::TypeMismatch {
                span: span@,
                message: message@,
            },
            TypeError::MissingEffect { span, message } => TErrV::MissingEffect {
                span: span@,
                message: message@,
            },
            TypeError::Internal { message } => TErrV::Internal { message: message@ },
        }
    }
}

impl Clone for TypeError {
    fn clone(&self) -> (r: Self)
        ensures
            r@ == self@,
    {
        match self {
            TypeError::UnknownWord { span, name } => TypeError::UnknownWord {
                span: span.clone(),
                name: name.clone(),
            },
            TypeError::TypeMismatch { span, message } => TypeError::TypeMismatch {
                span: span.clone(),
                message: message.clone(),
            },
            TypeError::MissingEffect { span, message } => TypeError::MissingEffect {
                span: span.clone(),
                message: message.clone(),
            },
            TypeError::Internal { message } => TypeError::Internal { message: message.clone() },
        }
    }
}

/// How a type error is written.
pub open spec fn type_err_message(e: TErrV) -> Seq<char> {
    match e {
        TErrV::UnknownWord { span, name } => crate::span::span_text(span) + ": unknown word '"@ + name + "'"@,
        TErrV::TypeMismatch { span, message } => crate::span::span_text(span) + ": type mismatch: "@ + message,
        TErrV::MissingEffect { span, message } => crate::span::span_text(span) + ": "@ + message,
        TErrV::Internal { message } => "internal type checker error: "@ + message,
    }
}

impl TypeError {
    /// The error as it is reported.
    pub fn message(&self) -> (r: String)
        ensures
            r@ == type_err_message(self@),
    {
        let mut out: Vec<char> = Vec::new();
        match self {
            TypeError::UnknownWord { span, name } => {
                push_string(&mut out, &span.to_display_string());
                push_lit(&mut out, ": unknown word '");
                push_string(&mut out, name);
                push_lit(&mut out, "'");
            },
            TypeError::TypeMismatch { span, message } => {
                push_string(&mut out, &span.to_display_string());
                push_lit(&mut out, ": type mismatch: ");
                push_string(&mut out, message);
            },
            TypeError::MissingEffect { span, message } => {
                push_string(&mut out, &span.to_display_string());
                push_lit(&mut out, ": ");
                push_string(&mut out, message);
            },
            TypeError::Internal { message } => {
                push_lit(&mut out, "internal type checker error: ");
                push_string(&mut out, message);
            },
        }
        assert(out@ =~= type_err_message(self@));
        string_from_chars(out.as_slice())
    }

    pub fn unknown_word(span: Span, name: String) -> (r: TypeError)
        ensures
            r@ == (TErrV::UnknownWord { span: span@, name: name@ }),
    {
        TypeError::UnknownWord { span, name }
    }

    pub fn type_mismatch(span: Span, message: String) -> (r: TypeError)
        ensures
            r@ == (TErrV::TypeMismatch { span: span@, message: message@ }),
    {
        TypeError::TypeMismatch { span, message }
    }

    pub fn missing_effect(span: Span, message: String) -> (r: TypeError)
        ensures
            r@ == (TErrV::MissingEffect { span: span@, message: message@ }),
    {
        TypeError::MissingEffect { span, message }
    }

    pub fn internal(message: String) -> (r: TypeError)
        ensures
            r@ == (TErrV::Internal { message: message@ }),
    {
        TypeError::Internal { message }
    }
}

// ── Signatures of the checker ────────────────────────────────────────────────

/// A row with variable `v` and the types `ts` above it.
pub open spec fn var_row(v: Seq<char>, ts: Seq<STypeV>) -> RowV {
    RowV { var: Some(v), types: ts }
}

/// `( S -- S )`.
pub open spec fn identity_sig() -> SigV {
    SigV { input: var_row("S"@, seq![]), output: var_row("S"@, seq![]), effects: seq![] }
}

/// `( S -- S t )`.
pub open spec fn push_sig(t: STypeV) -> SigV {
    SigV { input: var_row("S"@, seq![]), output: var_row("S"@, seq![t]), effects: seq![] }
}

/// The type of a literal's value: its primitive type, or the variable `a`.
pub open spec fn literal_type(d: DataV) -> STypeV {
    match d {
        DataV::Integer(_) => STypeV::Primitive(PrimV::Int),
        DataV::Float(_) => STypeV::Primitive(PrimV::Float),
        DataV::Boolean(_) => STypeV::Primitive(PrimV::Bool),
        DataV::String(_) => STypeV::Primitive(PrimV::Str),
        DataV::Char(_) => STypeV::Primitive(PrimV::Char),
        _ => STypeV::TypeVar("a"@),
    }
}

/// A quotation whose body has type `inner` pushes itself:
/// `( R -- R [ inner ] )`.
pub open spec fn quotation_sig(inner: SigV) -> SigV {
    SigV {
        input: var_row("R"@, seq![]),
        output: var_row("R"@, seq![STypeV::Quotation(Box::new(inner))]),
        effects: seq![],
    }
}

/// The word types known to the checker; a later entry for a name hides an
/// earlier one.
pub open spec fn env_lookup(env: Seq<(Seq<char>, SigV)>, name: Seq<char>) -> Option<SigV>
    decreases env.len(),
{
    if env.len() == 0 {
        None
    } else if env.last().0 == name {
        Some(env.last().1)
    } else {
        env_lookup(env.drop_last(), name)
    }
}

/// The first effect of `inferred` that `declared` does not list.
pub open spec fn first_missing(inferred: Seq<Seq<char>>, declared: Seq<Seq<char>>) -> Option<Seq<char>>
    decreases inferred.len(),
{
    if inferred.len() == 0 {
        None
    } else {
        match first_missing(inferred.drop_last(), declared) {
            Some(l) => Some(l),
            None => if declared.contains(inferred.last()) {
                None
            } else {
                Some(inferred.last())
            },
        }
    }
}

/// Checks one row of a definition against the row its body has.
pub open spec fn check_row(span: SpanV, name: Seq<char>, which: Seq<char>, declared: RowV, inferred: RowV) -> Option<TErrV> {
    if declared.var is Some && inferred.var is Some && declared.types.len() != inferred.types.len() {
        Some(
            TErrV::TypeMismatch {
                span,
                message: "'"@ + name + "' "@ + which + " arity mismatch: declared "@
                    + crate::text::decimal(declared.types.len()) + " item(s), body produces "@
                    + crate::text::decimal(inferred.types.len()) + " item(s)"@,
            },
        )
    } else {
        match unify_rows_v(declared, inferred) {
            Ok(_) => None,
            Err(m) => Some(
                TErrV::TypeMismatch {
                    span,
                    message: "'"@ + name + "' declared "@ + which + " doesn't match body: "@ + m,
                },
            ),
        }
    }
}

/// Checks a definition's declared signature against its body's: every
/// effect used must be declared, and the rows must match.
pub open spec fn check_definition(span: SpanV, name: Seq<char>, declared: SigV, inferred: SigV) -> Option<TErrV> {
    match first_missing(inferred.effects, declared.effects) {
        Some(l) => Some(
            TErrV::MissingEffect {
                span,
                message: "'"@ + name + "' uses effect '"@ + l
                    + "' but does not declare it in its signature"@,
            },
        ),
        None => match check_row(span, name, "input"@, declared.input, inferred.input) {
            Some(e) => Some(e),
            None => check_row(span, name, "output"@, declared.output, inferred.output),
        },
    }
}

/// The node, of kind `kind`, annotated with `sig`.
pub open spec fn annotated(n: NodeV, kind: KindV, sig: SigV) -> NodeV {
    NodeV { kind, span: n.span, type_info: Some(sig) }
}

/// The environment with each definition among `ns` declared.
pub open spec fn register_defs(env: Seq<(Seq<char>, SigV)>, ns: Seq<NodeV>) -> Seq<(Seq<char>, SigV)>
    decreases ns.len(),
{
    if ns.len() == 0 {
        env
    } else {
        let e = register_defs(env, ns.drop_last());
        match ns.last().kind {
            KindV::Definition { name, type_sig, .. } => e.push((name, type_sig)),
            _ => e,
        }
    }
}

/// The type of a node, the node annotated (with its children), and the
/// environment after it; or the first error.
pub open spec fn tc_item(env: Seq<(Seq<char>, SigV)>, n: NodeV) -> Result<
    (SigV, NodeV, Seq<(Seq<char>, SigV)>),
    TErrV,
>
    decreases n,
{
    match n.kind {
        KindV::Literal(v) => {
            let sig = push_sig(literal_type(v.data));
            Ok((sig, annotated(n, n.kind, sig), env))
        },
        KindV::Word { name, .. } => match env_lookup(env, name) {
            Some(sig) => Ok((sig, annotated(n, n.kind, sig), env)),
            None => Err(TErrV::UnknownWord { span: n.span, name }),
        },
        KindV::Quotation(body) => match tc_seq(env, body) {
            Ok((inner, body2, env2)) => {
                let sig = quotation_sig(inner);
                Ok((sig, annotated(n, KindV::Quotation(body2), sig), env2))
            },
            Err(e) => Err(e),
        },
        KindV::Vector(_) => {
            let sig = push_sig(STypeV::TypeVar("v"@));
            Ok((sig, annotated(n, n.kind, sig), env))
        },
        KindV::Definition { name, type_sig, body } => match tc_seq(env, body) {
            Ok((inferred, body2, env2)) => match check_definition(n.span, name, type_sig, inferred) {
                Some(e) => Err(e),
                None => Ok(
                    (
                        type_sig,
                        annotated(n, KindV::Definition { name, type_sig, body: body2 }, type_sig),
                        env2,
                    ),
                ),
            },
            Err(e) => Err(e),
        },
        KindV::MacroDefinition { .. } => Ok((identity_sig(), annotated(n, n.kind, identity_sig()), env)),
        KindV::Program(items) => match tc_items(register_defs(env, items), items) {
            Ok((items2, env2)) => Ok(
                (identity_sig(), annotated(n, KindV::Program(items2), identity_sig()), env2),
            ),
            Err(e) => Err(e),
        },
    }
}

/// The type of a sequence of nodes: their types composed left to right
/// (the identity when empty), the nodes annotated, and the environment
/// after them.
pub open spec fn tc_seq(env: Seq<(Seq<char>, SigV)>, ns: Seq<NodeV>) -> Result<
    (SigV, Seq<NodeV>, Seq<(Seq<char>, SigV)>),
    TErrV,
>
    decreases ns,
{
    if ns.len() == 0 {
        Ok((identity_sig(), seq![], env))
    } else if ns.len() == 1 {
        match tc_item(env, ns[0]) {
            Ok((sig, n, env2)) => Ok((sig, seq![n], env2)),
            Err(e) => Err(e),
        }
    } else {
        match tc_seq(env, ns.drop_last()) {
            Err(e) => Err(e),
            Ok((acc, done, env1)) => match tc_item(env1, ns.last()) {
                Err(e) => Err(e),
                Ok((next, n, env2)) => match compose_v(acc, next) {
                    Ok(c) => Ok((c, done.push(n), env2)),
                    Err(m) => Err(TErrV::TypeMismatch { span: ns.last().span, message: m }),
                },
            },
        }
    }
}

/// The items of a program checked in order, annotated, and the environment
/// after them.
pub open spec fn tc_items(env: Seq<(Seq<char>, SigV)>, ns: Seq<NodeV>) -> Result<
    (Seq<NodeV>, Seq<(Seq<char>, SigV)>),
    TErrV,
>
    decreases ns,
{
    if ns.len() == 0 {
        Ok((seq![], env))
    } else {
        match tc_items(env, ns.drop_last()) {
            Err(e) => Err(e),
            Ok((done, env1)) => match tc_item(env1, ns.last()) {
                Err(e) => Err(e),
                Ok((_, n, env2)) => Ok((done.push(n), env2)),
            },
        }
    }
}

/// What checking a node as a program gives: a program's items checked
/// after its definitions are declared; anything else is refused.
pub open spec fn tc_check(env: Seq<(Seq<char>, SigV)>, n: NodeV) -> Result<
    (NodeV, Seq<(Seq<char>, SigV)>),
    TErrV,
> {
    match n.kind {
        KindV::Program(items) => match tc_items(register_defs(env, items), items) {
            Ok((items2, env2)) => Ok((NodeV { kind: KindV::Program(items2), ..n }, env2)),
            Err(e) => Err(e),
        },
        _ => Err(TErrV::Internal { message: "check() expected a Program node"@ }),
    }
}

/// Every signature a node declares lists its effects in order without
/// repetition.
pub open spec fn sigs_wf(n: NodeV) -> bool
    decreases n,
{
    match n.kind {
        KindV::Quotation(b) => seq_sigs_wf(b),
        KindV::Vector(b) => seq_sigs_wf(b),
        KindV::Program(b) => seq_sigs_wf(b),
        KindV::Definition { type_sig, body, .. } => strictly_sorted(type_sig.effects) && seq_sigs_wf(
            body,
        ),
        _ => true,
    }
}

pub open spec fn seq_sigs_wf(ns: Seq<NodeV>) -> bool
    decreases ns,
{
    if ns.len() == 0 {
        true
    } else {
        seq_sigs_wf(ns.drop_last()) && sigs_wf(ns.last())
    }
}

/// Every signature in the environment is well formed.
pub open spec fn env_wf(env: Seq<(Seq<char>, SigV)>) -> bool {
    forall|i: int| 0 <= i < env.len() ==> strictly_sorted(#[trigger] env[i].1.effects)
}


// ── The checker ──────────────────────────────────────────────────────────────

pub open spec fn env_v(env: Seq<(String, TypeSig)>) -> Seq<(Seq<char>, SigV)> {
    Seq::new(env.len(), |i: int| (env[i].0@, env[i].1@))
}

pub proof fn lemma_first_missing_stays(inf: Seq<Seq<char>>, decl: Seq<Seq<char>>, k: int)
    requires
        0 <= k <= inf.len(),
        first_missing(inf.take(k), decl) is Some,
    ensures
        first_missing(inf, decl) == first_missing(inf.take(k), decl),
    decreases inf.len() - k,
{
    if k < inf.len() {
        assert(inf.take(k + 1).drop_last() =~= inf.take(k));
        lemma_first_missing_stays(inf, decl, k + 1);
    } else {
        assert(inf.take(k) =~= inf);
    }
}

fn s_row(types: Vec<StackType>) -> (r: Row)
    ensures
        r@ == var_row("S"@, crate::types::types_v(types@)),
{
    Row { var: Some(string_of("S")), types }
}

fn identity() -> (r: TypeSig)
    ensures
        r.wf(),
        r@ == identity_sig(),
{
    let v: Vec<StackType> = Vec::new();
    let w: Vec<StackType> = Vec::new();
    assert(crate::types::types_v(v@) =~= seq![]);
    assert(crate::types::types_v(w@) =~= seq![]);
    TypeSig::pure(s_row(v), s_row(w))
}

fn pushing(t: StackType) -> (r: TypeSig)
    ensures
        r.wf(),
        r@ == push_sig(t@),
{
    let v: Vec<StackType> = Vec::new();
    assert(crate::types::types_v(v@) =~= seq![]);
    let mut w: Vec<StackType> = Vec::new();
    let ghost tv = t@;
    w.push(t);
    proof {
        crate::types::lemma_types_v(w@);
    }
    assert(crate::types::types_v(w@) =~= seq![tv]);
    TypeSig::pure(s_row(v), s_row(w))
}

fn literal_type_of(d: &ValueData) -> (t: StackType)
    ensures
        t@ == literal_type(d@),
{
    match d {
        ValueData::Integer(_) => StackType::Primitive(PrimitiveType::Int),
        ValueData::Float(_) => StackType::Primitive(PrimitiveType::Float),
        ValueData::Boolean(_) => StackType::Primitive(PrimitiveType::Bool),
        ValueData::String(_) => StackType::Primitive(PrimitiveType::Str),
        ValueData::Char(_) => StackType::Primitive(PrimitiveType::Char),
        _ => StackType::TypeVar(string_of("a")),
    }
}

/// The type of a literal: `( S -- S t )`, with `t` the literal's type.
fn literal_sig_for(d: &ValueData) -> (r: TypeSig)
    ensures
        r.wf(),
        r@ == push_sig(literal_type(d@)),
{
    pushing(literal_type_of(d))
}

/// The type of a vector literal: `( S -- S v )`, with `v` a type variable.
fn vector_sig() -> (r: TypeSig)
    ensures
        r.wf(),
        r@ == push_sig(STypeV::TypeVar("v"@)),
{
    pushing(StackType::TypeVar(string_of("v")))
}

fn quotation_type(inner: TypeSig) -> (r: TypeSig)
    ensures
        r.wf(),
        r@ == quotation_sig(inner@),
{
    let v: Vec<StackType> = Vec::new();
    assert(crate::types::types_v(v@) =~= seq![]);
    let mut w: Vec<StackType> = Vec::new();
    let ghost iv = inner@;
    w.push(StackType::Quotation(Box::new(inner)));
    proof {
        crate::types::lemma_types_v(w@);
    }
    assert(crate::types::types_v(w@) =~= seq![STypeV::Quotation(Box::new(iv))]);
    TypeSig::pure(
        Row { var: Some(string_of("R")), types: v },
        Row { var: Some(string_of("R")), types: w },
    )
}

fn with_sig(n: &AstNode, kind: NodeKind, sig: &TypeSig) -> (r: AstNode)
    ensures
        r@ == annotated(n@, kind@, sig@),
{
    AstNode { kind, span: n.span.clone(), type_info: Some(TypeInfo { type_sig: sig.clone() }) }
}

/// Resolves word references against known word types, checks definitions
/// against their declared signatures and annotates every node with its
/// type.
///
/// The word types are kept in the order they were declared; a later one
/// for a name hides an earlier one.
pub struct TypeChecker {
    env: Vec<(String, TypeSig)>,
}

impl TypeChecker {
    /// The known word types, in the order they were declared.
    pub closed spec fn env(&self) -> Seq<(Seq<char>, SigV)> {
        env_v(self.env@)
    }

    /// The checker with no word types.
    pub fn new() -> (r: TypeChecker)
        ensures
            r.env() == Seq::<(Seq<char>, SigV)>::empty(),
    {
        let r = TypeChecker { env: Vec::new() };
        assert(env_v(r.env@) =~= seq![]);
        r
    }

    /// A checker that knows the given word types.
    pub fn with_env(env: Vec<(String, TypeSig)>) -> (r: TypeChecker)
        ensures
            r.env() == env_v(env@),
    {
        TypeChecker { env }
    }

    /// Declares the type of a word.
    pub fn define(&mut self, name: &str, sig: TypeSig)
        ensures
            final(self).env() == old(self).env().push((name@, sig@)),
    {
        let ghost e0 = self.env@;
        self.env.push((string_of(name), sig));
        assert(env_v(self.env@) =~= env_v(e0).push((name@, sig@)));
    }

    /// The type of a word, if it is known.
    pub fn lookup(&self, name: &String) -> (r: Option<TypeSig>)
        ensures
            match env_lookup(self.env(), name@) {
                Some(sig) => r matches Some(s) && s@ == sig,
                None => r is None,
            },
    {
        let mut i = self.env.len();
        assert(env_v(self.env@).subrange(0, i as int) =~= env_v(self.env@));
        while i > 0
            invariant
                i <= self.env@.len(),
                env_lookup(env_v(self.env@).subrange(0, i as int), name@) == env_lookup(env_v(self.env@), name@),
            decreases i,
        {
            let ghost d = env_v(self.env@).subrange(0, i as int);
            assert(d.last() == (self.env@[i - 1].0@, self.env@[i - 1].1@));
            if crate::text::string_eq(&self.env[i - 1].0, name) {
                return Some(self.env[i - 1].1.clone());
            }
            assert(d.drop_last() =~= env_v(self.env@).subrange(0, i - 1));
            i = i - 1;
        }
        None
    }

    /// Whether every known word type is well formed.
    pub open spec fn wf(&self) -> bool {
        env_wf(self.env())
    }
}

fn check_effects_subsumed(span: &Span, name: &String, declared: &TypeSig, inferred: &TypeSig) -> (r: Option<TypeError>)
    ensures
        match first_missing(inferred@.effects, declared@.effects) {
            Some(l) => r matches Some(e) && e@ == (TErrV::MissingEffect {
                span: span@,
                message: "'"@ + name@ + "' uses effect '"@ + l
                    + "' but does not declare it in its signature"@,
            }),
            None => r is None,
        },
{
    let ghost inf = inferred@.effects;
    let mut i: usize = 0;
    assert(inf.take(0) =~= seq![]);
    while i < inferred.effects.labels.len()
        invariant
            i <= inf.len(),
            inf == inferred@.effects,
            inf.len() == inferred.effects.labels@.len(),
            first_missing(inf.take(i as int), declared@.effects) is None,
        decreases inf.len() - i,
    {
        let label = &inferred.effects.labels[i].0;
        assert(inf.take(i + 1).drop_last() =~= inf.take(i as int));
        assert(inf.take(i + 1).last() == label@);
        if !declared.effects.contains(label.as_str()) {
            proof {
                lemma_first_missing_stays(inf, declared@.effects, i + 1);
            }
            let mut m: Vec<char> = Vec::new();
            push_lit(&mut m, "'");
            push_string(&mut m, name);
            push_lit(&mut m, "' uses effect '");
            push_string(&mut m, label);
            push_lit(&mut m, "' but does not declare it in its signature");
            return Some(TypeError::missing_effect(span.clone(), string_from_chars(m.as_slice())));
        }
        i = i + 1;
    }
    assert(inf.take(i as int) =~= inf);
    None
}

fn check_row_arity_and_types(span: &Span, name: &String, which: &str, declared: &Row, inferred: &Row) -> (r: Option<TypeError>)
    ensures
        match check_row(span@, name@, which@, declared@, inferred@) {
            Some(e) => r matches Some(x) && x@ == e,
            None => r is None,
        },
{
    proof {
        crate::types::lemma_types_v(declared.types@);
        crate::types::lemma_types_v(inferred.types@);
    }
    if declared.var.is_some() && inferred.var.is_some() && declared.types.len() != inferred.types.len() {
        let mut m: Vec<char> = Vec::new();
        push_lit(&mut m, "'");
        push_string(&mut m, name);
        push_lit(&mut m, "' ");
        push_lit(&mut m, which);
        push_lit(&mut m, " arity mismatch: declared ");
        push_decimal(&mut m, declared.types.len());
        push_lit(&mut m, " item(s), body produces ");
        push_decimal(&mut m, inferred.types.len());
        push_lit(&mut m, " item(s)");
        return Some(TypeError::type_mismatch(span.clone(), string_from_chars(m.as_slice())));
    }
    match unify_rows(declared, inferred) {
        Ok(_) => None,
        Err(e) => {
            let mut m: Vec<char> = Vec::new();
            push_lit(&mut m, "'");
            push_string(&mut m, name);
            push_lit(&mut m, "' declared ");
            push_lit(&mut m, which);
            push_lit(&mut m, " doesn't match body: ");
            push_string(&mut m, &e.0);
            Some(TypeError::type_mismatch(span.clone(), string_from_chars(m.as_slice())))
        },
    }
}

fn check_definition_sig(span: &Span, name: &String, declared: &TypeSig, inferred: &TypeSig) -> (r: Option<TypeError>)
    ensures
        match check_definition(span@, name@, declared@, inferred@) {
            Some(e) => r matches Some(x) && x@ == e,
            None => r is None,
        },
{
    match check_effects_subsumed(span, name, declared, inferred) {
        Some(e) => return Some(e),
        None => {},
    }
    check_rows_match(span, name, declared, inferred)
}

/// The first mismatch between the declared and the inferred rows, input
/// first, or `None`.
fn check_rows_match(span: &Span, name: &String, declared: &TypeSig, inferred: &TypeSig) -> (r: Option<TypeError>)
    ensures
        match check_row(span@, name@, "input"@, declared@.input, inferred@.input) {
            Some(e) => r matches Some(x) && x@ == e,
            None => match check_row(span@, name@, "output"@, declared@.output, inferred@.output) {
                Some(e) => r matches Some(x) && x@ == e,
                None => r is None,
            },
        },
{
    match check_row_arity_and_types(span, name, "input", &declared.input, &inferred.input) {
        Some(e) => return Some(e),
        None => {},
    }
    check_row_arity_and_types(span, name, "output", &declared.output, &inferred.output)
}


pub proof fn lemma_seq_sigs_wf(ns: Seq<NodeV>)
    requires
        seq_sigs_wf(ns),
    ensures
        forall|i: int| 0 <= i < ns.len() ==> sigs_wf(#[trigger] ns[i]),
    decreases ns.len(),
{
    if ns.len() > 0 {
        lemma_seq_sigs_wf(ns.drop_last());
        assert forall|i: int| 0 <= i < ns.len() implies sigs_wf(#[trigger] ns[i]) by {
            if i < ns.len() - 1 {
                assert(ns.drop_last()[i] == ns[i]);
            }
        }
    }
}

pub proof fn lemma_tc_seq_err(env: Seq<(Seq<char>, SigV)>, ns: Seq<NodeV>, k: int)
    requires
        1 <= k <= ns.len(),
        tc_seq(env, ns.take(k)) is Err,
    ensures
        tc_seq(env, ns) == tc_seq(env, ns.take(k)),
    decreases ns.len() - k,
{
    if k < ns.len() {
        assert(ns.take(k + 1).drop_last() =~= ns.take(k));
        lemma_tc_seq_err(env, ns, k + 1);
    } else {
        assert(ns.take(k) =~= ns);
    }
}

pub proof fn lemma_tc_items_err(env: Seq<(Seq<char>, SigV)>, ns: Seq<NodeV>, k: int)
    requires
        0 <= k <= ns.len(),
        tc_items(env, ns.take(k)) is Err,
    ensures
        tc_items(env, ns) == tc_items(env, ns.take(k)),
    decreases ns.len() - k,
{
    if k < ns.len() {
        assert(ns.take(k + 1).drop_last() =~= ns.take(k));
        lemma_tc_items_err(env, ns, k + 1);
    } else {
        assert(ns.take(k) =~= ns);
    }
}

impl TypeChecker {
    /// Declares the signature of every definition among `items`.
    fn register(&mut self, items: &Vec<AstNode>)
        requires
            old(self).wf(),
            seq_sigs_wf(nodes_v(items@)),
        ensures
            final(self).wf(),
            final(self).env() == register_defs(old(self).env(), nodes_v(items@)),
    {
        proof {
            crate::ast::lemma_nodes_v(items@);
            lemma_seq_sigs_wf(nodes_v(items@));
        }
        let mut i: usize = 0;
        assert(nodes_v(items@).take(0) =~= seq![]);
        while i < items.len()
            invariant
                i <= items@.len(),
                nodes_v(items@).len() == items@.len(),
                forall|k: int| 0 <= k < items@.len() ==> nodes_v(items@)[k] == node_v(#[trigger] items@[k]),
                forall|k: int| 0 <= k < items@.len() ==> sigs_wf(#[trigger] nodes_v(items@)[k]),
                self.wf(),
                self.env() == register_defs(old(self).env(), nodes_v(items@).take(i as int)),
            decreases items@.len() - i,
        {
            assert(nodes_v(items@).take(i + 1).drop_last() =~= nodes_v(items@).take(i as int));
            assert(nodes_v(items@).take(i + 1).last() == node_v(items@[i as int]));
            assert(sigs_wf(nodes_v(items@)[i as int]));
            match &items[i].kind {
                NodeKind::Definition { name, type_sig, .. } => {
                    let ghost e0 = self.env@;
                    self.env.push((name.clone(), type_sig.clone()));
                    assert(env_v(self.env@) =~= env_v(e0).push((name@, type_sig@)));
                },
                _ => {},
            }
            i = i + 1;
        }
        assert(nodes_v(items@).take(i as int) =~= nodes_v(items@));
    }

    /// Checks one node: its type, the node annotated, or the first error.
    fn check_node(&mut self, n: &AstNode) -> (r: Result<(TypeSig, AstNode), TypeError>)
        requires
            old(self).wf(),
            sigs_wf(n@),
        ensures
            final(self).wf(),
            match tc_item(old(self).env(), n@) {
                Ok((sig, node, env)) => r matches Ok((s, m)) && s@ == sig && s.wf() && m@ == node
                    && final(self).env() == env,
                Err(e) => r matches Err(x) && x@ == e,
            },
        decreases n,
    {
        match &n.kind {
            NodeKind::Literal(v) => {
                let sig = literal_sig_for(&v.data);
                let node = with_sig(n, crate::ast::clone_kind(&n.kind), &sig);
                Ok((sig, node))
            },
            NodeKind::Word { name, .. } => match self.lookup(name) {
                Some(sig) => {
                    proof {
                        lemma_env_lookup_wf(self.env(), name@);
                    }
                    let node = with_sig(n, crate::ast::clone_kind(&n.kind), &sig);
                    Ok((sig, node))
                },
                None => Err(TypeError::unknown_word(n.span.clone(), name.clone())),
            },
            NodeKind::Quotation(body) => match self.check_nodes(body) {
                Ok((inner, body2)) => {
                    let sig = quotation_type(inner);
                    let node = with_sig(n, NodeKind::Quotation(body2), &sig);
                    Ok((sig, node))
                },
                Err(e) => Err(e),
            },
            NodeKind::Vector(_) => {
                let sig = vector_sig();
                let node = with_sig(n, crate::ast::clone_kind(&n.kind), &sig);
                Ok((sig, node))
            },
            NodeKind::Definition { name, type_sig, body } => match self.check_nodes(body) {
                Ok((inferred, body2)) => match check_definition_sig(&n.span, name, type_sig, &inferred) {
                    Some(e) => Err(e),
                    None => {
                        let kind = NodeKind::Definition {
                            name: name.clone(),
                            type_sig: type_sig.clone(),
                            body: body2,
                        };
                        let node = with_sig(n, kind, type_sig);
                        Ok((type_sig.clone(), node))
                    },
                },
                Err(e) => Err(e),
            },
            NodeKind::MacroDefinition { .. } => {
                let sig = identity();
                let node = with_sig(n, crate::ast::clone_kind(&n.kind), &sig);
                Ok((sig, node))
            },
            NodeKind::Program(items) => {
                self.register(items);
                match self.check_items(items) {
                    Ok(items2) => {
                        let sig = identity();
                        let node = with_sig(n, NodeKind::Program(items2), &sig);
                        Ok((sig, node))
                    },
                    Err(e) => Err(e),
                }
            },
        }
    }

    /// Checks a sequence of nodes: their types composed left to right.
    fn check_nodes(&mut self, ns: &Vec<AstNode>) -> (r: Result<(TypeSig, Vec<AstNode>), TypeError>)
        requires
            old(self).wf(),
            seq_sigs_wf(nodes_v(ns@)),
        ensures
            final(self).wf(),
            match tc_seq(old(self).env(), nodes_v(ns@)) {
                Ok((sig, nodes, env)) => r matches Ok((s, m)) && s@ == sig && s.wf() && nodes_v(m@) == nodes
                    && final(self).env() == env,
                Err(e) => r matches Err(x) && x@ == e,
            },
        decreases ns,
    {
        proof {
            crate::ast::lemma_nodes_v(ns@);
            lemma_seq_sigs_wf(nodes_v(ns@));
        }
        let ghost env0 = self.env();
        let ghost t = nodes_v(ns@);
        if ns.len() == 0 {
            let v: Vec<AstNode> = Vec::new();
            assert(nodes_v(v@) =~= seq![]);
            return Ok((identity(), v));
        }
        assert(t.take(1) =~= seq![t[0]]);
        assert(sigs_wf(t[0]));
        let (first_sig, first_node) = match self.check_node(&ns[0]) {
            Ok(x) => x,
            Err(e) => {
                proof {
                    lemma_tc_seq_err(env0, t, 1);
                }
                return Err(e);
            },
        };
        let mut acc = first_sig;
        let mut done: Vec<AstNode> = Vec::new();
        proof {
            crate::parser::lemma_push_node(done@, first_node);
        }
        done.push(first_node);
        assert(nodes_v(done@) =~= seq![first_node@]);
        let mut i: usize = 1;
        while i < ns.len()
            invariant
                1 <= i <= ns@.len(),
                t == nodes_v(ns@),
                t.len() == ns@.len(),
                forall|k: int| 0 <= k < ns@.len() ==> t[k] == node_v(#[trigger] ns@[k]),
                forall|k: int| 0 <= k < ns@.len() ==> sigs_wf(#[trigger] t[k]),
                self.wf(),
                acc.wf(),
                env0 == old(self).env(),
                tc_seq(env0, t.take(i as int)) == Ok::<(SigV, Seq<NodeV>, Seq<(Seq<char>, SigV)>), TErrV>(
                    (acc@, nodes_v(done@), self.env()),
                ),
            decreases ns@.len() - i,
        {
            assert(t.take(i + 1).drop_last() =~= t.take(i as int));
            assert(t.take(i + 1).last() == t[i as int]);
            assert(sigs_wf(t[i as int]));
            let (next, node) = match self.check_node(&ns[i]) {
                Ok(x) => x,
                Err(e) => {
                    proof {
                        lemma_tc_seq_err(env0, t, i + 1);
                    }
                    return Err(e);
                },
            };
            match acc.compose(&next) {
                Ok(c) => {
                    acc = c;
                },
                Err(e) => {
                    proof {
                        lemma_tc_seq_err(env0, t, i + 1);
                    }
                    return Err(TypeError::type_mismatch(ns[i].span.clone(), e.0));
                },
            }
            proof {
                crate::parser::lemma_push_node(done@, node);
            }
            done.push(node);
            i = i + 1;
        }
        assert(t.take(i as int) =~= t);
        Ok((acc, done))
    }

    /// Checks the items of a program in order.
    fn check_items(&mut self, ns: &Vec<AstNode>) -> (r: Result<Vec<AstNode>, TypeError>)
        requires
            old(self).wf(),
            seq_sigs_wf(nodes_v(ns@)),
        ensures
            final(self).wf(),
            match tc_items(old(self).env(), nodes_v(ns@)) {
                Ok((nodes, env)) => r matches Ok(m) && nodes_v(m@) == nodes && final(self).env() == env,
                Err(e) => r matches Err(x) && x@ == e,
            },
        decreases ns,
    {
        proof {
            crate::ast::lemma_nodes_v(ns@);
            lemma_seq_sigs_wf(nodes_v(ns@));
        }
        let ghost env0 = self.env();
        let ghost t = nodes_v(ns@);
        let mut done: Vec<AstNode> = Vec::new();
        let mut i: usize = 0;
        assert(t.take(0) =~= seq![]);
        assert(nodes_v(done@) =~= seq![]);
        while i < ns.len()
            invariant
                i <= ns@.len(),
                t == nodes_v(ns@),
                t.len() == ns@.len(),
                forall|k: int| 0 <= k < ns@.len() ==> t[k] == node_v(#[trigger] ns@[k]),
                forall|k: int| 0 <= k < ns@.len() ==> sigs_wf(#[trigger] t[k]),
                self.wf(),
                env0 == old(self).env(),
                tc_items(env0, t.take(i as int)) == Ok::<(Seq<NodeV>, Seq<(Seq<char>, SigV)>), TErrV>(
                    (nodes_v(done@), self.env()),
                ),
            decreases ns@.len() - i,
        {
            assert(t.take(i + 1).drop_last() =~= t.take(i as int));
            assert(t.take(i + 1).last() == t[i as int]);
            assert(sigs_wf(t[i as int]));
            let (_, node) = match self.check_node(&ns[i]) {
                Ok(x) => x,
                Err(e) => {
                    proof {
                        lemma_tc_items_err(env0, t, i + 1);
                    }
                    return Err(e);
                },
            };
            proof {
                crate::parser::lemma_push_node(done@, node);
            }
            done.push(node);
            i = i + 1;
        }
        assert(t.take(i as int) =~= t);
        Ok(done)
    }

    /// Checks a program and annotates it in place; anything but a program
    /// is refused.
    pub fn check(&mut self, program: &mut AstNode) -> (r: Result<(), TypeError>)
        requires
            old(self).wf(),
            sigs_wf(old(program)@),
        ensures
            final(self).wf(),
            match tc_check(old(self).env(), old(program)@) {
                Ok((n2, env2)) => r is Ok && final(program)@ == n2 && final(self).env() == env2,
                Err(e) => r matches Err(x) && x@ == e,
            },
    {
        let result = match &program.kind {
            NodeKind::Program(items) => {
                self.register(items);
                self.check_items(items)
            },
            _ => {
                return Err(TypeError::internal(string_of("check() expected a Program node")));
            },
        };
        match result {
            Ok(items2) => {
                program.kind = NodeKind::Program(items2);
                Ok(())
            },
            Err(e) => Err(e),
        }
    }

    /// Checks one node and annotates it in place with its type (and its
    /// children with theirs); returns that type. On an error the node is
    /// left as it was.
    pub fn check_item(&mut self, node: &mut AstNode) -> (r: Result<TypeSig, TypeError>)
        requires
            old(self).wf(),
            sigs_wf(old(node)@),
        ensures
            final(self).wf(),
            match tc_item(old(self).env(), old(node)@) {
                Ok((sig, n2, env)) => r matches Ok(s) && s@ == sig && final(node)@ == n2
                    && final(self).env() == env,
                Err(e) => r matches Err(x) && x@ == e && final(node)@ == old(node)@,
            },
    {
        match self.check_node(node) {
            Ok((sig, annotated)) => {
                *node = annotated;
                Ok(sig)
            },
            Err(e) => Err(e),
        }
    }

    /// Checks a sequence of nodes, composing their types left to right, and
    /// annotates each in place; returns the composed type. On an error the
    /// nodes are left as they were.
    pub fn check_sequence(&mut self, nodes: &mut Vec<AstNode>) -> (r: Result<TypeSig, TypeError>)
        requires
            old(self).wf(),
            seq_sigs_wf(nodes_v(old(nodes)@)),
        ensures
            final(self).wf(),
            match tc_seq(old(self).env(), nodes_v(old(nodes)@)) {
                Ok((sig, ns2, env)) => r matches Ok(s) && s@ == sig && nodes_v(final(nodes)@) == ns2
                    && final(self).env() == env,
                Err(e) => r matches Err(x) && x@ == e && final(nodes)@ == old(nodes)@,
            },
    {
        match self.check_nodes(nodes) {
            Ok((sig, annotated)) => {
                *nodes = annotated;
                Ok(sig)
            },
            Err(e) => Err(e),
        }
    }
}

pub proof fn lemma_env_lookup_wf(env: Seq<(Seq<char>, SigV)>, name: Seq<char>)
    requires
        env_wf(env),
    ensures
        env_lookup(env, name) matches Some(s) ==> strictly_sorted(s.effects),
    decreases env.len(),
{
    if env.len() > 0 {
        assert(strictly_sorted(env[env.len() - 1].1.effects));
        assert forall|i: int| 0 <= i < env.drop_last().len() implies strictly_sorted(
            #[trigger] env.drop_last()[i].1.effects,
        ) by {
            assert(env.drop_last()[i] == env[i]);
        }
        lemma_env_lookup_wf(env.drop_last(), name);
    }
}

// ── Laws ─────────────────────────────────────────────────────────────────────

/// Where no effect is missing, every effect of `inferred` is declared.
pub proof fn lemma_first_missing_none(inferred: Seq<Seq<char>>, declared: Seq<Seq<char>>)
    requires
        first_missing(inferred, declared) is None,
    ensures
        forall|i: int| 0 <= i < inferred.len() ==> declared.contains(#[trigger] inferred[i]),
    decreases inferred.len(),
{
    if inferred.len() > 0 {
        lemma_first_missing_none(inferred.drop_last(), declared);
        assert forall|i: int| 0 <= i < inferred.len() implies declared.contains(#[trigger] inferred[i]) by {
            if i < inferred.len() - 1 {
                assert(inferred.drop_last()[i] == inferred[i]);
            }
        }
    }
}

/// A definition that passes the check declares every effect its body
/// uses, and is annotated with its declared signature.
pub proof fn law_checked_definition_declares_its_effects(env: Seq<(Seq<char>, SigV)>, n: NodeV)
    requires
        n.kind is Definition,
        tc_item(env, n) is Ok,
    ensures
        ({
            let type_sig = n.kind->Definition_type_sig;
            let body = n.kind->Definition_body;
            &&& tc_seq(env, body) is Ok
            &&& forall|i: int|
                0 <= i < tc_seq(env, body)->Ok_0.0.effects.len() ==> type_sig.effects.contains(
                    #[trigger] tc_seq(env, body)->Ok_0.0.effects[i],
                )
            &&& tc_item(env, n)->Ok_0.0 == type_sig
            &&& tc_item(env, n)->Ok_0.1.type_info == Some(type_sig)
            &&& tc_item(env, n)->Ok_0.1.span == n.span
        }),
{
    match n.kind {
        KindV::Definition { name, type_sig, body } => {
            let inferred = tc_seq(env, body)->Ok_0.0;
            assert(check_definition(n.span, name, type_sig, inferred) is None);
            assert(first_missing(inferred.effects, type_sig.effects) is None);
            lemma_first_missing_none(inferred.effects, type_sig.effects);
        },
        _ => {},
    }
}

/// A word declared to the checker is then known with the declared type,
/// and every other word keeps the type it had.
pub proof fn law_define_then_lookup(env: Seq<(Seq<char>, SigV)>, name: Seq<char>, sig: SigV, other: Seq<char>)
    ensures
        env_lookup(env.push((name, sig)), name) == Some(sig),
        other != name ==> env_lookup(env.push((name, sig)), other) == env_lookup(env, other),
{
    assert(env.push((name, sig)).drop_last() =~= env);
}

/// A word the checker does not know is refused with `UnknownWord`, naming
/// it, and a known word gets its declared type.
pub proof fn law_word_lookup(env: Seq<(Seq<char>, SigV)>, n: NodeV)
    requires
        n.kind is Word,
    ensures
        ({
            let name = n.kind->Word_name;
            match env_lookup(env, name) {
                None => tc_item(env, n) == Err::<(SigV, NodeV, Seq<(Seq<char>, SigV)>), TErrV>(
                    TErrV::UnknownWord { span: n.span, name },
                ),
                Some(sig) => tc_item(env, n) is Ok && tc_item(env, n)->Ok_0.0 == sig,
            }
        }),
{
}


/// A literal pushes one value of its kind's primitive type and takes
/// nothing: an integer gives `( S -- S int )`, a float `( S -- S float )`,
/// a boolean `( S -- S bool )`, a string `( S -- S str )` and a character
/// `( S -- S char )`; the node is annotated with that type.
pub proof fn law_literal_type(env: Seq<(Seq<char>, SigV)>, n: NodeV, v: ValueV)
    requires
        n.kind == KindV::Literal(v),
    ensures
        tc_item(env, n) matches Ok((sig, node, env2)) && env2 == env && node.kind == n.kind
            && node.type_info == Some(sig) && sig.input == (RowV { var: Some("S"@), types: seq![] })
            && sig.effects.len() == 0 && sig.output.var == Some("S"@) && sig.output.types.len() == 1
            && (v.data is Integer ==> sig.output.types[0] == STypeV::Primitive(PrimV::Int))
            && (v.data is Float ==> sig.output.types[0] == STypeV::Primitive(PrimV::Float))
            && (v.data is Boolean ==> sig.output.types[0] == STypeV::Primitive(PrimV::Bool))
            && (v.data is String ==> sig.output.types[0] == STypeV::Primitive(PrimV::Str))
            && (v.data is Char ==> sig.output.types[0] == STypeV::Primitive(PrimV::Char)),
{
}

} // verus!
