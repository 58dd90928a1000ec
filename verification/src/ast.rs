//! The abstract syntax tree of a Tardi source unit.

use vstd::prelude::*;

use crate::span::{Span, SpanV};
use crate::types::{SigV, TypeSig};
use crate::value::{clone_opt_str, clone_value, clone_values, opt_str_v, value_v, values_v, Value, ValueV};

verus! {

/// Type information attached to an AST node by the type checker.
#[derive(Debug, PartialEq, Eq)]
pub struct TypeInfo {
    /// The inferred/checked type signature of this node.
    pub type_sig: TypeSig,
}

/// The syntactic kind of an AST node.
#[derive(Debug, PartialEq)]
pub enum NodeKind {
    /// A literal value: integer, float, boolean, string, or character.
    Literal(Value),
    /// A reference to a word, optionally module-qualified.
    Word { module: Option<String>, name: String },
    /// An anonymous quotation `[ ... ]`.
    Quotation(Vec<AstNode>),
    /// A vector/list literal `{ ... }`.
    Vector(Vec<AstNode>),
    /// A named word definition `: name ( sig ) body ;`.
    Definition { name: String, type_sig: TypeSig, body: Vec<AstNode> },
    /// A macro definition `MACRO: name body ;`; the body is kept as raw tokens.
    MacroDefinition { name: String, body: Vec<Value> },
    /// The top-level sequence of nodes in a source unit.
    Program(Vec<AstNode>),
}

/// A node in the Tardi AST, carrying its kind, source span, and optional type info.
#[derive(Debug, PartialEq)]
pub struct AstNode {
    pub kind: NodeKind,
    pub span: Span,
    pub type_info: Option<TypeInfo>,
}

// ── Models ───────────────────────────────────────────────────────────────────

pub enum KindV {
    Literal(ValueV),
    Word { module: Option<Seq<char>>, name: Seq<char> },
    Quotation(Seq<NodeV>),
    Vector(Seq<NodeV>),
    Definition { name: Seq<char>, type_sig: SigV, body: Seq<NodeV> },
    MacroDefinition { name: Seq<char>, body: Seq<ValueV> },
    Program(Seq<NodeV>),
}

pub struct NodeV {
    pub kind: KindV,
    pub span: SpanV,
    pub type_info: Option<SigV>,
}

pub open spec fn nodes_v(ns: Seq<AstNode>) -> Seq<NodeV>
    decreases ns,
{
    if ns.len() == 0 {
        seq![]
    } else {
        nodes_v(ns.subrange(0, ns.len() - 1)).push(node_v(ns[ns.len() - 1]))
    }
}

pub open spec fn kind_v(k: NodeKind) -> KindV
    decreases k,
{
    match k {
        NodeKind::Literal(v) => KindV::Literal(value_v(v)),
        NodeKind::Word { module, name } => KindV::Word { module: opt_str_v(module), name: name@ },
        NodeKind::Quotation(ns) => KindV::Quotation(nodes_v(ns@)),
        NodeKind::Vector(ns) => KindV::Vector(nodes_v(ns@)),
        NodeKind::Definition { name, type_sig, body } => KindV::Definition {
            name: name@,
            type_sig: type_sig@,
            body: nodes_v(body@),
        },
        NodeKind::MacroDefinition { name, body } => KindV::MacroDefinition {
            name: name@,
            body: values_v(body@),
        },
        NodeKind::Program(ns) => KindV::Program(nodes_v(ns@)),
    }
}

pub open spec fn info_v(t: Option<TypeInfo>) -> Option<SigV> {
    match t {
        Some(i) => Some(i.type_sig@),
        None => None,
    }
}

pub open spec fn node_v(n: AstNode) -> NodeV
    decreases n,
{
    NodeV { kind: kind_v(n.kind), span: n.span@, type_info: info_v(n.type_info) }
}

pub proof fn lemma_nodes_v(ns: Seq<AstNode>)
    ensures
        nodes_v(ns).len() == ns.len(),
        forall|i: int| 0 <= i < ns.len() ==> nodes_v(ns)[i] == node_v(#[trigger] ns[i]),
    decreases ns.len(),
{
    if ns.len() > 0 {
        let pre = ns.subrange(0, ns.len() - 1);
        lemma_nodes_v(pre);
        assert forall|i: int| 0 <= i < ns.len() implies nodes_v(ns)[i] == node_v(
            #[trigger] ns[i],
        ) by {
            if i < ns.len() - 1 {
                assert(pre[i] == ns[i]);
            }
        }
    }
}

impl View for AstNode {
    type V = NodeV;

    open spec fn view(&self) -> NodeV {
        node_v(*self)
    }
}

impl View for NodeKind {
    type V = KindV;

    open spec fn view(&self) -> KindV {
        kind_v(*self)
    }
}

// ── Copies ───────────────────────────────────────────────────────────────────

pub fn clone_nodes(ns: &Vec<AstNode>) -> (r: Vec<AstNode>)
    ensures
        nodes_v(r@) == nodes_v(ns@),
    decreases ns,
{
    proof {
        lemma_nodes_v(ns@);
    }
    let mut r: Vec<AstNode> = Vec::new();
    let mut i: usize = 0;
    while i < ns.len()
        invariant
            i <= ns@.len(),
            r@.len() == i,
            nodes_v(ns@).len() == ns@.len(),
            forall|k: int| 0 <= k < ns@.len() ==> nodes_v(ns@)[k] == node_v(#[trigger] ns@[k]),
            forall|k: int| 0 <= k < i ==> node_v(#[trigger] r@[k]) == node_v(ns@[k]),
        decreases ns@.len() - i,
    {
        r.push(clone_node(&ns[i]));
        i = i + 1;
    }
    proof {
        lemma_nodes_v(r@);
        assert forall|k: int| 0 <= k < ns@.len() implies nodes_v(r@)[k] == nodes_v(ns@)[k] by {
            assert(node_v(r@[k]) == node_v(ns@[k]));
        }
        assert(nodes_v(r@) =~= nodes_v(ns@));
    }
    r
}

pub fn clone_kind(k: &NodeKind) -> (r: NodeKind)
    ensures
        r@ == k@,
    decreases k,
{
    match k {
        NodeKind::Literal(v) => NodeKind::Literal(clone_value(v)),
        NodeKind::Word { module, name } => NodeKind::Word {
            module: clone_opt_str(module),
            name: name.clone(),
        },
        NodeKind::Quotation(ns) => NodeKind::Quotation(clone_nodes(ns)),
        NodeKind::Vector(ns) => NodeKind::Vector(clone_nodes(ns)),
        NodeKind::Definition { name, type_sig, body } => NodeKind::Definition {
            name: name.clone(),
            type_sig: type_sig.clone(),
            body: clone_nodes(body),
        },
        NodeKind::MacroDefinition { name, body } => NodeKind::MacroDefinition {
            name: name.clone(),
            body: clone_values(body),
        },
        NodeKind::Program(ns) => NodeKind::Program(clone_nodes(ns)),
    }
}

pub fn clone_node(n: &AstNode) -> (r: AstNode)
    ensures
        r@ == n@,
    decreases n,
{
    let type_info = match &n.type_info {
        Some(t) => Some(TypeInfo { type_sig: t.type_sig.clone() }),
        None => None,
    };
    AstNode { kind: clone_kind(&n.kind), span: n.span.clone(), type_info }
}

impl Clone for AstNode {
    fn clone(&self) -> (r: Self)
        ensures
            r@ == self@,
    {
        clone_node(self)
    }
}

impl AstNode {
    /// A node of the given kind and span, not yet annotated with a type.
    pub fn new(kind: NodeKind, span: Span) -> (r: AstNode)
        ensures
            r@ == (NodeV { kind: kind@, span: span@, type_info: None }),
    {
        AstNode { kind, span, type_info: None }
    }

    /// The number of direct child nodes.
    pub fn children_count(&self) -> (r: usize)
        ensures
            r == children_v(self@.kind).len(),
    {
        match &self.kind {
            NodeKind::Literal(_) | NodeKind::Word { .. } | NodeKind::MacroDefinition { .. } => 0,
            NodeKind::Quotation(nodes) => {
                proof { lemma_nodes_v(nodes@); }
                nodes.len()
            },
            NodeKind::Vector(nodes) => {
                proof { lemma_nodes_v(nodes@); }
                nodes.len()
            },
            NodeKind::Definition { body, .. } => {
                proof { lemma_nodes_v(body@); }
                body.len()
            },
            NodeKind::Program(nodes) => {
                proof { lemma_nodes_v(nodes@); }
                nodes.len()
            },
        }
    }

    /// The direct child nodes (one level deep), copied.
    pub fn children(&self) -> (r: Vec<AstNode>)
        ensures
            nodes_v(r@) == children_v(self@.kind),
    {
        match &self.kind {
            NodeKind::Literal(_) | NodeKind::Word { .. } | NodeKind::MacroDefinition { .. } => {
                let v: Vec<AstNode> = Vec::new();
                assert(nodes_v(v@) =~= seq![]);
                v
            },
            NodeKind::Quotation(nodes) => clone_nodes(nodes),
            NodeKind::Vector(nodes) => clone_nodes(nodes),
            NodeKind::Definition { body, .. } => clone_nodes(body),
            NodeKind::Program(nodes) => clone_nodes(nodes),
        }
    }
}

/// The direct children of a node of kind `k`.
pub open spec fn children_v(k: KindV) -> Seq<NodeV> {
    match k {
        KindV::Quotation(ns) => ns,
        KindV::Vector(ns) => ns,
        KindV::Definition { body, .. } => body,
        KindV::Program(ns) => ns,
        _ => seq![],
    }
}

// ── Traversal ────────────────────────────────────────────────────────────────

/// The nodes of the tree rooted at `n` in program order, each before its
/// children.
pub open spec fn preorder(n: NodeV) -> Seq<NodeV>
    decreases n,
{
    seq![n] + match n.kind {
        KindV::Quotation(ns) => preorder_all(ns),
        KindV::Vector(ns) => preorder_all(ns),
        KindV::Definition { body, .. } => preorder_all(body),
        KindV::Program(ns) => preorder_all(ns),
        _ => seq![],
    }
}

/// The nodes of the trees rooted at `ns`, one tree after the other.
pub open spec fn preorder_all(ns: Seq<NodeV>) -> Seq<NodeV>
    decreases ns,
{
    if ns.len() == 0 {
        seq![]
    } else {
        preorder_all(ns.subrange(0, ns.len() - 1)) + preorder(ns[ns.len() - 1])
    }
}

fn push_preorder(n: &AstNode, out: &mut Vec<AstNode>)
    ensures
        nodes_v(final(out)@) == nodes_v(old(out)@) + preorder(n@),
    decreases n,
{
    let ghost before = nodes_v(out@);
    let copy = clone_node(n);
    proof {
        crate::parser::lemma_push_node(out@, copy);
    }
    out.push(copy);
    match &n.kind {
        NodeKind::Quotation(ns) => push_all_preorder(ns, out),
        NodeKind::Vector(ns) => push_all_preorder(ns, out),
        NodeKind::Definition { body, .. } => push_all_preorder(body, out),
        NodeKind::Program(ns) => push_all_preorder(ns, out),
        _ => {},
    }
    assert(nodes_v(out@) =~= before + preorder(n@));
}

fn push_all_preorder(ns: &Vec<AstNode>, out: &mut Vec<AstNode>)
    ensures
        nodes_v(final(out)@) == nodes_v(old(out)@) + preorder_all(nodes_v(ns@)),
    decreases ns,
{
    proof {
        lemma_nodes_v(ns@);
    }
    let ghost before = nodes_v(out@);
    let mut i: usize = 0;
    proof {
        assert(nodes_v(ns@).subrange(0, 0) =~= seq![]);
        assert(before + preorder_all(seq![]) =~= before);
    }
    while i < ns.len()
        invariant
            i <= ns@.len(),
            nodes_v(ns@).len() == ns@.len(),
            forall|k: int| 0 <= k < ns@.len() ==> nodes_v(ns@)[k] == node_v(#[trigger] ns@[k]),
            nodes_v(out@) == before + preorder_all(nodes_v(ns@).subrange(0, i as int)),
        decreases ns@.len() - i,
    {
        let ghost mid = nodes_v(out@);
        proof {
            assert(decreases_to!(ns => ns@));
            assert(decreases_to!(ns@ => ns@[i as int]));
        }
        push_preorder(&ns[i], out);
        proof {
            let t = nodes_v(ns@).subrange(0, i + 1);
            assert(t.subrange(0, t.len() - 1) =~= nodes_v(ns@).subrange(0, i as int));
            assert(t[t.len() - 1] == node_v(ns@[i as int]));
            assert(nodes_v(out@) =~= before + preorder_all(t));
        }
        i = i + 1;
    }
    proof {
        assert(nodes_v(ns@).subrange(0, i as int) =~= nodes_v(ns@));
    }
}

impl AstNode {
    /// This node and all its descendants in program order, each node
    /// before its children; the nodes are copies.
    pub fn preorder(&self) -> (r: Vec<AstNode>)
        ensures
            nodes_v(r@) == preorder(self@),
    {
        let mut out: Vec<AstNode> = Vec::new();
        proof {
            assert(nodes_v(out@) =~= seq![]);
        }
        push_preorder(self, &mut out);
        assert(nodes_v(out@) =~= preorder(self@));
        out
    }

    /// Runs `f` on this node and on each of its descendants in program
    /// order, each node before its children: on copies of the nodes that
    /// `preorder` lists, in that order.
    pub fn walk<F: FnMut(&AstNode)>(&self, f: &mut F)
        requires
            forall|g: F, n: &AstNode| call_requires(g, (n,)),
        ensures
            exists|ns: Seq<AstNode>|
                #![trigger nodes_v(ns)]
                nodes_v(ns) == preorder(self@) && forall|i: int|
                    0 <= i < ns.len() ==> call_ensures(*old(f), (&ns[i],), ()),
    {
        let nodes = self.preorder();
        let ghost f0 = *f;
        let mut i: usize = 0;
        while i < nodes.len()
            invariant
                i <= nodes@.len(),
                forall|g: F, n: &AstNode| call_requires(g, (n,)),
                *f == f0,
                forall|k: int| 0 <= k < i ==> call_ensures(f0, (&nodes@[k],), ()),
            decreases nodes@.len() - i,
        {
            f(&nodes[i]);
            i = i + 1;
        }
        assert(nodes_v(nodes@) == preorder(self@));
    }

    /// Folds `f` over this node and its descendants in program order, each
    /// node before its children: over copies of the nodes that `preorder`
    /// lists, in that order, starting from `init`.
    pub fn fold<A, F: FnMut(A, &AstNode) -> A>(&self, init: A, f: &mut F) -> (r: A)
        requires
            forall|g: F, a: A, n: &AstNode| call_requires(g, (a, n)),
        ensures
            exists|ns: Seq<AstNode>, accs: Seq<A>|
                #![trigger nodes_v(ns), accs.len()]
                {
                    &&& nodes_v(ns) == preorder(self@)
                    &&& accs.len() == ns.len() + 1
                    &&& accs[0] == init
                    &&& accs[ns.len() as int] == r
                    &&& forall|i: int|
                        0 <= i < ns.len() ==> call_ensures(*old(f), (accs[i], &ns[i]), accs[i + 1])
                },
    {
        let nodes = self.preorder();
        let ghost f0 = *f;
        let mut acc = init;
        let ghost mut accs: Seq<A> = seq![acc];
        let mut i: usize = 0;
        while i < nodes.len()
            invariant
                i <= nodes@.len(),
                forall|g: F, a: A, n: &AstNode| call_requires(g, (a, n)),
                *f == f0,
                accs.len() == i + 1,
                accs[0] == init,
                accs[i as int] == acc,
                forall|k: int| 0 <= k < i ==> call_ensures(f0, (accs[k], &nodes@[k]), accs[k + 1]),
            decreases nodes@.len() - i,
        {
            let next = f(acc, &nodes[i]);
            proof {
                accs = accs.push(next);
            }
            acc = next;
            i = i + 1;
        }
        assert(nodes_v(nodes@) == preorder(self@));
        assert(accs.len() == nodes@.len() + 1);
        acc
    }
}

} // verus!
