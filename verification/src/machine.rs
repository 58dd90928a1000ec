//! The stack machine: runs a parsed program over a data stack, with the
//! words of the kernel built in and the words a program defines.

use vstd::prelude::*;

use crate::ast::{node_v, nodes_v, AstNode, KindV, NodeKind, NodeV};
use crate::equality::{data_eq, data_equal};
use crate::errors::{CompErrV, CompilerError, ErrV, Error, VMErrV, VMError};
use crate::text::{string_eq_lit, string_of};
use crate::parser::{p_top, Parser};
use crate::scanner::{all_tokens, scan_all, scanned_values, ScannerError, SANDBOX};
use crate::value::{
    clone_value, lemma_values_v, value_v, values_v, DataV, Lambda, LambdaV, Value, ValueData,
    ValueV,
};

verus! {

/// The state of the machine: the data stack (top last) and the words
/// defined so far, in the order they were defined.
pub struct MachV {
    pub stack: Seq<ValueV>,
    pub defs: Seq<(Seq<char>, Seq<NodeV>)>,
}

/// The most calls that may be open at once.
pub const MAX_DEPTH: usize = 1000;

// ── Stack shuffles ───────────────────────────────────────────────────────────

/// The stack shuffles of the kernel: how many values each takes from the
/// top, and which of them (counted from the deepest taken) it puts back, in
/// order.
pub open spec fn shuffle_spec(w: Seq<char>) -> Option<(usize, Seq<usize>)> {
    if w == "dup"@ {
        Some((1, seq![0usize, 0]))
    } else if w == "drop"@ {
        Some((1, seq![]))
    } else if w == "swap"@ {
        Some((2, seq![1usize, 0]))
    } else if w == "over"@ {
        Some((2, seq![0usize, 1, 0]))
    } else if w == "rot"@ {
        Some((3, seq![1usize, 2, 0]))
    } else if w == "-rot"@ {
        Some((3, seq![2usize, 0, 1]))
    } else if w == "nip"@ {
        Some((2, seq![1usize]))
    } else if w == "2nip"@ {
        Some((3, seq![2usize]))
    } else if w == "3nip"@ {
        Some((4, seq![3usize]))
    } else if w == "4nip"@ {
        Some((5, seq![4usize]))
    } else if w == "5nip"@ {
        Some((6, seq![5usize]))
    } else if w == "2drop"@ {
        Some((2, seq![]))
    } else if w == "3drop"@ {
        Some((3, seq![]))
    } else if w == "4drop"@ {
        Some((4, seq![]))
    } else if w == "5drop"@ {
        Some((5, seq![]))
    } else if w == "dupd"@ {
        Some((2, seq![0usize, 0, 1]))
    } else if w == "swapd"@ {
        Some((3, seq![1usize, 0, 2]))
    } else if w == "overd"@ {
        Some((3, seq![0usize, 1, 0, 2]))
    } else if w == "spin"@ {
        Some((3, seq![2usize, 1, 0]))
    } else if w == "4spin"@ {
        Some((4, seq![3usize, 2, 1, 0]))
    } else if w == "rotd"@ {
        Some((4, seq![1usize, 2, 0, 3]))
    } else if w == "-rotd"@ {
        Some((4, seq![2usize, 0, 1, 3]))
    } else if w == "nipd"@ {
        Some((3, seq![1usize, 2]))
    } else if w == "2nipd"@ {
        Some((4, seq![2usize, 3]))
    } else if w == "3nipd"@ {
        Some((5, seq![3usize, 4]))
    } else if w == "2dup"@ {
        Some((2, seq![0usize, 1, 0, 1]))
    } else if w == "2dupd"@ {
        Some((3, seq![0usize, 1, 0, 1, 2]))
    } else if w == "3dup"@ {
        Some((3, seq![0usize, 1, 2, 0, 1, 2]))
    } else if w == "2over"@ {
        Some((3, seq![0usize, 1, 2, 0, 1]))
    } else if w == "pick"@ {
        Some((3, seq![0usize, 1, 2, 0]))
    } else {
        None
    }
}

/// The stack after a shuffle that takes `k` values and puts back those at
/// `perm`.
pub open spec fn shuffled(s: Seq<ValueV>, k: int, perm: Seq<usize>) -> Seq<ValueV> {
    s.subrange(0, s.len() - k) + Seq::new(perm.len(), |i: int| s[s.len() - k + perm[i]])
}

/// Whether a shuffle table entry only names values it takes.
pub open spec fn perm_ok(k: int, perm: Seq<usize>) -> bool {
    forall|i: int| 0 <= i < perm.len() ==> perm[i] < k
}

pub proof fn lemma_shuffle_table_ok(w: Seq<char>)
    ensures
        shuffle_spec(w) matches Some((k, perm)) ==> perm_ok(k as int, perm),
{
}

// ── Running ──────────────────────────────────────────────────────────────────

pub open spec fn vm_err(e: VMErrV) -> ErrV {
    ErrV::VMError(e)
}

pub open spec fn mismatch(op: Seq<char>) -> ErrV {
    ErrV::VMError(VMErrV::TypeMismatch(op))
}

/// A value that holds `d` and came from no token.
pub open spec fn bare(d: DataV) -> ValueV {
    ValueV { data: d, lexeme: None, pos: None }
}

/// The value of a quotation with body `ns`.
pub open spec fn quotation_value(ns: Seq<NodeV>) -> ValueV {
    bare(DataV::Function(LambdaV { name: None, body: ns }))
}

/// The body of the most recent definition of `w`.
pub open spec fn lookup_def(defs: Seq<(Seq<char>, Seq<NodeV>)>, w: Seq<char>) -> Option<Seq<NodeV>>
    decreases defs.len(),
{
    if defs.len() == 0 {
        None
    } else if defs.last().0 == w {
        Some(defs.last().1)
    } else {
        lookup_def(defs.drop_last(), w)
    }
}

/// The value of each item of a vector literal.
pub open spec fn vec_values(ns: Seq<NodeV>) -> Result<Seq<ValueV>, ErrV>
    decreases ns,
{
    if ns.len() == 0 {
        Ok(seq![])
    } else {
        match vec_values(ns.drop_last()) {
            Err(e) => Err(e),
            Ok(vs) => match vec_item(ns.last()) {
                Err(e) => Err(e),
                Ok(v) => Ok(vs.push(v)),
            },
        }
    }
}

/// The value of one item of a vector literal: a literal's value, a word, a
/// quotation or a nested vector.
pub open spec fn vec_item(n: NodeV) -> Result<ValueV, ErrV>
    decreases n,
{
    match n.kind {
        KindV::Literal(v) => Ok(v),
        KindV::Word { name, .. } => Ok(bare(DataV::Word(name))),
        KindV::Quotation(ns) => Ok(quotation_value(ns)),
        KindV::Vector(ns) => match vec_values(ns) {
            Ok(vs) => Ok(bare(DataV::List(vs))),
            Err(e) => Err(e),
        },
        _ => Err(ErrV::CompilerError(CompErrV::InvalidOperation("vector item"@))),
    }
}

/// Whether a value's data is the false boolean.
pub open spec fn is_false(v: ValueV) -> bool {
    v.data == DataV::Boolean(false)
}

/// The result of an integer operation, if it fits.
pub open spec fn arith(op: Seq<char>, a: i64, b: i64) -> Result<DataV, ErrV> {
    let r: int = if op == "+"@ {
        a + b
    } else if op == "-"@ {
        a - b
    } else if op == "*"@ {
        a * b
    } else {
        if b == 0 { 0 } else { crate::machine::div_trunc(a as int, b as int) }
    };
    if op == "/"@ && b == 0 {
        Err(vm_err(VMErrV::DivisionByZero))
    } else if i64::MIN <= r <= i64::MAX {
        Ok(DataV::Integer(r as i64))
    } else {
        Err(mismatch(op))
    }
}

/// Division that rounds toward zero, as Rust's `/` on integers does.
pub open spec fn div_trunc(a: int, b: int) -> int {
    let q = (if a >= 0 { a } else { -a }) / (if b >= 0 { b } else { -b });
    if (a >= 0) == (b >= 0) {
        q
    } else {
        -q
    }
}

/// The word `w` of the kernel run on `m`, or `None` if there is none.
pub open spec fn kernel_word(m: MachV, w: Seq<char>) -> Option<Result<MachV, ErrV>> {
    let s = m.stack;
    let n = s.len();
    if shuffle_spec(w) is Some {
        let (k, perm) = shuffle_spec(w)->0;
        Some(
            if n < k {
                Err(vm_err(VMErrV::StackUnderflow))
            } else {
                Ok(MachV { stack: shuffled(s, k as int, perm), ..m })
            },
        )
    } else if w == "clear"@ {
        Some(Ok(MachV { stack: seq![], ..m }))
    } else if w == "+"@ || w == "-"@ || w == "*"@ || w == "/"@ || w == "<"@ || w == ">"@ || w
        == "=="@ {
        Some(
            if n < 2 {
                Err(vm_err(VMErrV::StackUnderflow))
            } else {
                let a = s[n - 2];
                let b = s[n - 1];
                let rest = s.subrange(0, n - 2);
                if w == "=="@ {
                    Ok(MachV { stack: rest.push(bare(DataV::Boolean(data_eq(a.data, b.data)))), ..m })
                } else {
                    match (a.data, b.data) {
                        (DataV::Integer(x), DataV::Integer(y)) => if w == "<"@ {
                            Ok(MachV { stack: rest.push(bare(DataV::Boolean(x < y))), ..m })
                        } else if w == ">"@ {
                            Ok(MachV { stack: rest.push(bare(DataV::Boolean(x > y))), ..m })
                        } else {
                            match arith(w, x, y) {
                                Ok(d) => Ok(MachV { stack: rest.push(bare(d)), ..m }),
                                Err(e) => Err(e),
                            }
                        },
                        _ => Err(mismatch(w)),
                    }
                }
            },
        )
    } else if w == "!"@ {
        Some(
            if n < 1 {
                Err(vm_err(VMErrV::StackUnderflow))
            } else {
                match s[n - 1].data {
                    DataV::Boolean(b) => Ok(
                        MachV { stack: s.subrange(0, n - 1).push(bare(DataV::Boolean(!b))), ..m },
                    ),
                    _ => Err(mismatch(w)),
                }
            },
        )
    } else if w == "?"@ {
        Some(
            if n < 3 {
                Err(vm_err(VMErrV::StackUnderflow))
            } else {
                let chosen = if is_false(s[n - 3]) { s[n - 1] } else { s[n - 2] };
                Ok(MachV { stack: s.subrange(0, n - 3).push(chosen), ..m })
            },
        )
    } else {
        None
    }
}

/// What a word working on the stack alone leaves of `m`.
pub open spec fn on_stack(m: MachV, o: (Seq<ValueV>, Result<(), ErrV>)) -> Result<MachV, ErrV> {
    match o.1 {
        Ok(()) => Ok(MachV { stack: o.0, ..m }),
        Err(e) => Err(e),
    }
}

/// The comparison `base` run on `m`, then its answer negated.
pub open spec fn negated(m: MachV, base: Seq<char>) -> Result<MachV, ErrV> {
    match kernel_word(m, base) {
        Some(Ok(m2)) => match kernel_word(m2, "!"@) {
            Some(r) => r,
            None => Ok(m2),
        },
        Some(Err(e)) => Err(e),
        None => Err(mismatch(base)),
    }
}

/// The words built into the machine besides the kernel's, or `None` if `w`
/// is none of them.
pub open spec fn library_word(m: MachV, w: Seq<char>) -> Option<Result<MachV, ErrV>> {
    let s = m.stack;
    let n = s.len();
    if w == "!="@ {
        Some(negated(m, "=="@))
    } else if w == "<="@ {
        Some(negated(m, ">"@))
    } else if w == ">="@ {
        Some(negated(m, "<"@))
    } else if w == "stack-size"@ {
        Some(Ok(MachV { stack: s.push(bare(DataV::Integer(n as i64))), ..m }))
    } else if w == "<nop>"@ {
        Some(Ok(m))
    } else if w == "lit"@ {
        Some(
            if n < 1 {
                Err(vm_err(VMErrV::StackUnderflow))
            } else {
                Ok(MachV { stack: s.drop_last().push(bare(DataV::Literal(Box::new(s.last())))), ..m })
            },
        )
    } else if w == "bye"@ {
        Some(Err(vm_err(VMErrV::Exit)))
    } else if w == "<string>"@ {
        Some(on_stack(m, crate::strings::create_string_word(s)))
    } else if w == ">string"@ {
        Some(on_stack(m, crate::strings::to_string_word(s)))
    } else if w == "utf8>string"@ {
        Some(on_stack(m, crate::strings::utf8_to_string_word(s)))
    } else if w == "string-concat"@ {
        Some(on_stack(m, crate::strings::concat_word(s)))
    } else if w == "<list>"@ {
        Some(on_stack(m, crate::vectors::create_list_word(s)))
    } else {
        None
    }
}

/// Runs the nodes `ns` in order on `m`, with calls at most `fuel` deep.
pub open spec fn run(m: MachV, ns: Seq<NodeV>, fuel: nat) -> Result<MachV, ErrV>
    decreases fuel, ns.len() + 2,
{
    if ns.len() == 0 {
        Ok(m)
    } else {
        match step(m, ns[0], fuel) {
            Ok(m2) => run(m2, ns.drop_first(), fuel),
            Err(e) => Err(e),
        }
    }
}

/// Calls the function value `q` on `m`.
pub open spec fn call_value(m: MachV, q: ValueV, fuel: nat, op: Seq<char>) -> Result<MachV, ErrV>
    decreases fuel, 0int,
{
    match q.data {
        DataV::Function(l) => if fuel == 0 {
            Err(vm_err(VMErrV::ReturnStackOverflow))
        } else {
            run(m, l.body, (fuel - 1) as nat)
        },
        _ => Err(mismatch(op)),
    }
}

/// Runs one node on `m`.
pub open spec fn step(m: MachV, n: NodeV, fuel: nat) -> Result<MachV, ErrV>
    decreases fuel, 1int,
{
    let s = m.stack;
    let len = s.len();
    match n.kind {
        KindV::Literal(v) => Ok(MachV { stack: s.push(v), ..m }),
        KindV::Quotation(ns) => Ok(MachV { stack: s.push(quotation_value(ns)), ..m }),
        KindV::Vector(ns) => match vec_values(ns) {
            Ok(vs) => Ok(MachV { stack: s.push(bare(DataV::List(vs))), ..m }),
            Err(e) => Err(e),
        },
        KindV::Definition { name, body, .. } => Ok(MachV { defs: m.defs.push((name, body)), ..m }),
        KindV::MacroDefinition { .. } => Err(
            ErrV::CompilerError(CompErrV::UnsupportedToken("MACRO:"@)),
        ),
        KindV::Program(ns) => if fuel == 0 {
            Err(vm_err(VMErrV::ReturnStackOverflow))
        } else {
            run(m, ns, (fuel - 1) as nat)
        },
        KindV::Word { name, .. } => match lookup_def(m.defs, name) {
            Some(body) => if fuel == 0 {
                Err(vm_err(VMErrV::ReturnStackOverflow))
            } else {
                run(m, body, (fuel - 1) as nat)
            },
            None => if name == "call"@ || name == "apply"@ {
                if len < 1 {
                    Err(vm_err(VMErrV::StackUnderflow))
                } else {
                    call_value(MachV { stack: s.subrange(0, len - 1), ..m }, s[len - 1], fuel, name)
                }
            } else if name == "dip"@ {
                if len < 2 {
                    Err(vm_err(VMErrV::StackUnderflow))
                } else {
                    match call_value(
                        MachV { stack: s.subrange(0, len - 2), ..m },
                        s[len - 1],
                        fuel,
                        name,
                    ) {
                        Ok(m2) => Ok(MachV { stack: m2.stack.push(s[len - 2]), ..m2 }),
                        Err(e) => Err(e),
                    }
                }
            } else if name == "if"@ {
                if len < 3 {
                    Err(vm_err(VMErrV::StackUnderflow))
                } else {
                    match s[len - 3].data {
                        DataV::Boolean(b) => call_value(
                            MachV { stack: s.subrange(0, len - 3), ..m },
                            if b { s[len - 2] } else { s[len - 1] },
                            fuel,
                            name,
                        ),
                        _ => Err(mismatch(name)),
                    }
                }
            } else {
                match kernel_word(m, name) {
                    Some(r) => r,
                    None => match library_word(m, name) {
                        Some(r) => r,
                        None => Err(ErrV::CompilerError(CompErrV::UndefinedWord(name))),
                    },
                }
            },
        },
    }
}


// ── The machine ──────────────────────────────────────────────────────────────

pub open spec fn defs_v(d: Seq<(String, Vec<AstNode>)>) -> Seq<(Seq<char>, Seq<NodeV>)> {
    Seq::new(d.len(), |i: int| (d[i].0@, nodes_v(d[i].1@)))
}

pub proof fn lemma_values_push(vs: Seq<Value>, v: Value)
    ensures
        values_v(vs.push(v)) == values_v(vs).push(value_v(v)),
{
    assert(vs.push(v).subrange(0, vs.len() as int) =~= vs);
}

pub proof fn lemma_values_prefix(vs: Seq<Value>, k: int)
    requires
        0 <= k <= vs.len(),
    ensures
        values_v(vs.subrange(0, k)) == values_v(vs).subrange(0, k),
{
    lemma_values_v(vs);
    lemma_values_v(vs.subrange(0, k));
    assert forall|i: int| 0 <= i < k implies values_v(vs.subrange(0, k))[i] == values_v(vs).subrange(0, k)[i] by {
        assert(vs.subrange(0, k)[i] == vs[i]);
    }
    assert(values_v(vs.subrange(0, k)) =~= values_v(vs).subrange(0, k));
}

/// The Tardi interpreter: a data stack and the words defined so far.
pub struct Tardi {
    stack: Vec<Value>,
    defs: Vec<(String, Vec<AstNode>)>,
}

impl View for Tardi {
    type V = MachV;

    closed spec fn view(&self) -> MachV {
        MachV { stack: values_v(self.stack@), defs: defs_v(self.defs@) }
    }
}

/// The kernel's shuffle table, as the machine reads it.
fn shuffle_of(w: &String) -> (r: Option<(usize, Vec<usize>)>)
    ensures
        r matches Some((k, p)) ==> shuffle_spec(w@) == Some((k, p@)),
        r is None ==> shuffle_spec(w@) is None,
{
    if string_eq_lit(w, "dup") {
        Some((1, vec![0, 0]))
    } else if string_eq_lit(w, "drop") {
        Some((1, vec![]))
    } else if string_eq_lit(w, "swap") {
        Some((2, vec![1, 0]))
    } else if string_eq_lit(w, "over") {
        Some((2, vec![0, 1, 0]))
    } else if string_eq_lit(w, "rot") {
        Some((3, vec![1, 2, 0]))
    } else if string_eq_lit(w, "-rot") {
        Some((3, vec![2, 0, 1]))
    } else if string_eq_lit(w, "nip") {
        Some((2, vec![1]))
    } else if string_eq_lit(w, "2nip") {
        Some((3, vec![2]))
    } else if string_eq_lit(w, "3nip") {
        Some((4, vec![3]))
    } else if string_eq_lit(w, "4nip") {
        Some((5, vec![4]))
    } else if string_eq_lit(w, "5nip") {
        Some((6, vec![5]))
    } else if string_eq_lit(w, "2drop") {
        Some((2, vec![]))
    } else if string_eq_lit(w, "3drop") {
        Some((3, vec![]))
    } else if string_eq_lit(w, "4drop") {
        Some((4, vec![]))
    } else if string_eq_lit(w, "5drop") {
        Some((5, vec![]))
    } else if string_eq_lit(w, "dupd") {
        Some((2, vec![0, 0, 1]))
    } else if string_eq_lit(w, "swapd") {
        Some((3, vec![1, 0, 2]))
    } else if string_eq_lit(w, "overd") {
        Some((3, vec![0, 1, 0, 2]))
    } else if string_eq_lit(w, "spin") {
        Some((3, vec![2, 1, 0]))
    } else if string_eq_lit(w, "4spin") {
        Some((4, vec![3, 2, 1, 0]))
    } else if string_eq_lit(w, "rotd") {
        Some((4, vec![1, 2, 0, 3]))
    } else if string_eq_lit(w, "-rotd") {
        Some((4, vec![2, 0, 1, 3]))
    } else if string_eq_lit(w, "nipd") {
        Some((3, vec![1, 2]))
    } else if string_eq_lit(w, "2nipd") {
        Some((4, vec![2, 3]))
    } else if string_eq_lit(w, "3nipd") {
        Some((5, vec![3, 4]))
    } else if string_eq_lit(w, "2dup") {
        Some((2, vec![0, 1, 0, 1]))
    } else if string_eq_lit(w, "2dupd") {
        Some((3, vec![0, 1, 0, 1, 2]))
    } else if string_eq_lit(w, "3dup") {
        Some((3, vec![0, 1, 2, 0, 1, 2]))
    } else if string_eq_lit(w, "2over") {
        Some((3, vec![0, 1, 2, 0, 1]))
    } else if string_eq_lit(w, "pick") {
        Some((3, vec![0, 1, 2, 0]))
    } else {
        None
    }
}

impl Tardi {
    /// Applies a shuffle that takes `k` values and puts back those at
    /// `perm`.
    fn shuffle(&mut self, k: usize, perm: &Vec<usize>) -> (r: Result<(), Error>)
        requires
            perm_ok(k as int, perm@),
        ensures
            final(self)@.defs == old(self)@.defs,
            old(self)@.stack.len() < k ==> r is Err && r->Err_0@ == vm_err(VMErrV::StackUnderflow),
            old(self)@.stack.len() >= k ==> r is Ok && final(self)@.stack == shuffled(
                old(self)@.stack,
                k as int,
                perm@,
            ),
    {
        proof {
            lemma_values_v(self.stack@);
        }
        let n = self.stack.len();
        if n < k {
            return Err(Error::VMError(VMError::StackUnderflow));
        }
        let ghost s0 = self.stack@;
        let mut top: Vec<Value> = Vec::new();
        let mut i = n - k;
        while i < n
            invariant
                n == s0.len(),
                k <= n,
                n - k <= i <= n,
                self.stack@ == s0,
                top@.len() == i - (n - k),
                forall|j: int| 0 <= j < top@.len() ==> value_v(#[trigger] top@[j]) == value_v(s0[n - k + j]),
            decreases n - i,
        {
            top.push(clone_value(&self.stack[i]));
            i = i + 1;
        }
        self.stack.truncate(n - k);
        proof {
            lemma_values_prefix(s0, n - k);
            assert(self.stack@ =~= s0.subrange(0, n - k));
        }
        let ghost base = values_v(self.stack@);
        let mut j: usize = 0;
        while j < perm.len()
            invariant
                perm_ok(k as int, perm@),
                n == s0.len(),
                k <= n,
                top@.len() == k,
                forall|q: int| 0 <= q < top@.len() ==> value_v(#[trigger] top@[q]) == value_v(s0[n - k + q]),
                values_v(s0).len() == s0.len(),
                forall|q: int| 0 <= q < s0.len() ==> values_v(s0)[q] == value_v(#[trigger] s0[q]),
                j <= perm@.len(),
                values_v(self.stack@) == base + Seq::new(j as nat, |q: int| values_v(s0)[n - k + perm@[q]]),
                self.defs == old(self).defs,
            decreases perm@.len() - j,
        {
            let idx = perm[j];
            let v = clone_value(&top[idx]);
            proof {
                lemma_values_push(self.stack@, v);
            }
            self.stack.push(v);
            j = j + 1;
            assert(values_v(self.stack@) =~= base + Seq::new(j as nat, |q: int| values_v(s0)[n - k + perm@[q]]));
        }
        assert(values_v(self.stack@) =~= shuffled(values_v(s0), k as int, perm@));
        Ok(())
    }
}


fn bare_value(d: ValueData) -> (v: Value)
    ensures
        v@ == bare(d@),
{
    Value { data: d, lexeme: None, pos: None }
}

fn bool_value(b: bool) -> (v: Value)
    ensures
        v@ == bare(DataV::Boolean(b)),
{
    Value { data: ValueData::Boolean(b), lexeme: None, pos: None }
}

fn is_false_exec(v: &Value) -> (r: bool)
    ensures
        r == is_false(v@),
{
    match v.data {
        ValueData::Boolean(b) => !b,
        _ => false,
    }
}

fn mismatch_error(op: &String) -> (e: Error)
    ensures
        e@ == mismatch(op@),
{
    Error::VMError(VMError::TypeMismatch(op.clone()))
}

fn underflow() -> (e: Error)
    ensures
        e@ == vm_err(VMErrV::StackUnderflow),
{
    Error::VMError(VMError::StackUnderflow)
}

/// An integer operation of the kernel.
fn arith_exec(op: &String, a: i64, b: i64) -> (r: Result<ValueData, Error>)
    ensures
        match arith(op@, a, b) {
            Ok(d) => r is Ok && r->Ok_0@ == d,
            Err(e) => r is Err && r->Err_0@ == e,
        },
{
    let x = a as i128;
    let y = b as i128;
    let is_div = !(string_eq_lit(op, "+") || string_eq_lit(op, "-") || string_eq_lit(op, "*"));
    if string_eq_lit(op, "/") && b == 0 {
        return Err(Error::VMError(VMError::DivisionByZero));
    }
    let r: i128 = if string_eq_lit(op, "+") {
        x + y
    } else if string_eq_lit(op, "-") {
        x - y
    } else if string_eq_lit(op, "*") {
        assert(-0x4000_0000_0000_0000_0000_0000_0000_0000 <= x * y <= 0x4000_0000_0000_0000_0000_0000_0000_0000) by (nonlinear_arith)
            requires
                -0x8000_0000_0000_0000 <= x < 0x8000_0000_0000_0000,
                -0x8000_0000_0000_0000 <= y < 0x8000_0000_0000_0000,
        ;
        x * y
    } else if b == 0 {
        0
    } else {
        let ax: i128 = if x >= 0 { x } else { -x };
        let ay: i128 = if y >= 0 { y } else { -y };
        let q = ax / ay;
        if (x >= 0) == (y >= 0) {
            q
        } else {
            -q
        }
    };
    if -0x8000_0000_0000_0000 <= r && r <= 0x7FFF_FFFF_FFFF_FFFF {
        Ok(ValueData::Integer(r as i64))
    } else {
        Err(mismatch_error(op))
    }
}

fn vector_values(ns: &Vec<AstNode>) -> (r: Result<Vec<Value>, Error>)
    ensures
        match vec_values(nodes_v(ns@)) {
            Ok(vs) => r is Ok && values_v(r->Ok_0@) == vs,
            Err(e) => r is Err && r->Err_0@ == e,
        },
    decreases ns,
{
    proof {
        crate::ast::lemma_nodes_v(ns@);
    }
    let mut out: Vec<Value> = Vec::new();
    let mut i: usize = 0;
    while i < ns.len()
        invariant
            i <= ns@.len(),
            nodes_v(ns@).len() == ns@.len(),
            forall|k: int| 0 <= k < ns@.len() ==> nodes_v(ns@)[k] == node_v(#[trigger] ns@[k]),
            vec_values(nodes_v(ns@).take(i as int)) == Ok::<Seq<ValueV>, ErrV>(values_v(out@)),
        decreases ns@.len() - i,
    {
        assert(nodes_v(ns@).take(i + 1).drop_last() =~= nodes_v(ns@).take(i as int));
        assert(nodes_v(ns@).take(i + 1).last() == node_v(ns@[i as int]));
        match vector_item(&ns[i]) {
            Ok(v) => {
                proof {
                    lemma_values_push(out@, v);
                }
                out.push(v);
            },
            Err(e) => {
                proof {
                    assert(vec_values(nodes_v(ns@).take(i + 1)) == Err::<Seq<ValueV>, ErrV>(e@));
                    lemma_vec_values_err(nodes_v(ns@), i + 1);
                }
                return Err(e);
            },
        }
        i = i + 1;
    }
    assert(nodes_v(ns@).take(i as int) =~= nodes_v(ns@));
    Ok(out)
}

/// A failure on a prefix of a vector's items fails the vector.
pub proof fn lemma_vec_values_err(ns: Seq<NodeV>, i: int)
    requires
        0 <= i <= ns.len(),
        vec_values(ns.take(i)) is Err,
    ensures
        vec_values(ns) == vec_values(ns.take(i)),
    decreases ns.len() - i,
{
    if i < ns.len() {
        assert(ns.take(i + 1).drop_last() =~= ns.take(i));
        lemma_vec_values_err(ns, i + 1);
    } else {
        assert(ns.take(i) =~= ns);
    }
}

fn vector_item(n: &AstNode) -> (r: Result<Value, Error>)
    ensures
        match vec_item(n@) {
            Ok(v) => r is Ok && r->Ok_0@ == v,
            Err(e) => r is Err && r->Err_0@ == e,
        },
    decreases n,
{
    match &n.kind {
        NodeKind::Literal(v) => Ok(clone_value(v)),
        NodeKind::Word { name, .. } => Ok(bare_value(ValueData::Word(name.clone()))),
        NodeKind::Quotation(ns) => Ok(quotation(ns)),
        NodeKind::Vector(ns) => match vector_values(ns) {
            Ok(vs) => Ok(bare_value(ValueData::List(vs))),
            Err(e) => Err(e),
        },
        _ => Err(Error::CompilerError(CompilerError::InvalidOperation(string_of("vector item")))),
    }
}

fn quotation(ns: &Vec<AstNode>) -> (v: Value)
    ensures
        v@ == quotation_value(nodes_v(ns@)),
{
    let l = Lambda { name: None, body: crate::ast::clone_nodes(ns) };
    bare_value(ValueData::Function(l))
}


impl Tardi {
    /// Removes and returns the top value.
    fn pop_value(&mut self) -> (r: Value)
        requires
            old(self)@.stack.len() > 0,
        ensures
            final(self)@.defs == old(self)@.defs,
            final(self)@.stack == old(self)@.stack.drop_last(),
            r@ == old(self)@.stack.last(),
    {
        proof {
            lemma_values_v(self.stack@);
            lemma_values_prefix(self.stack@, self.stack@.len() - 1);
            assert(self.stack@.subrange(0, self.stack@.len() - 1) =~= self.stack@.drop_last());
        }
        let ghost s0 = self.stack@;
        match self.stack.pop() {
            Some(v) => v,
            None => bare_value(ValueData::EndOfInput),
        }
    }

    fn push_value(&mut self, v: Value)
        ensures
            final(self)@.defs == old(self)@.defs,
            final(self)@.stack == old(self)@.stack.push(v@),
    {
        proof {
            lemma_values_push(self.stack@, v);
        }
        self.stack.push(v);
    }

    /// The index of the most recent definition of `w`.
    fn find_def(&self, w: &String) -> (r: Option<usize>)
        ensures
            match lookup_def(self@.defs, w@) {
                Some(b) => r matches Some(i) && i < self.defs@.len() && nodes_v(self.defs@[i as int].1@) == b,
                None => r is None,
            },
    {
        let mut i = self.defs.len();
        assert(defs_v(self.defs@).subrange(0, i as int) =~= defs_v(self.defs@));
        while i > 0
            invariant
                i <= self.defs@.len(),
                lookup_def(defs_v(self.defs@).subrange(0, i as int), w@) == lookup_def(defs_v(self.defs@), w@),
            decreases i,
        {
            let ghost d = defs_v(self.defs@).subrange(0, i as int);
            assert(d.last() == (self.defs@[i - 1].0@, nodes_v(self.defs@[i - 1].1@)));
            if crate::text::string_eq(&self.defs[i - 1].0, w) {
                return Some(i - 1);
            }
            assert(d.drop_last() =~= defs_v(self.defs@).subrange(0, i - 1));
            i = i - 1;
        }
        None
    }

    /// Runs a word of the kernel; `None` if there is no such word.
    fn kernel(&mut self, w: &String) -> (r: Option<Result<(), Error>>)
        ensures
            match kernel_word(old(self)@, w@) {
                None => r is None && final(self)@ == old(self)@,
                Some(Ok(m)) => r matches Some(Ok(_)) && final(self)@ == m,
                Some(Err(e)) => r matches Some(Err(x)) && x@ == e,
            },
    {
        let ghost m = self@;
        let ghost s = self@.stack;
        let n = self.stack.len();
        proof {
            lemma_values_v(self.stack@);
        }
        match shuffle_of(w) {
            Some((k, perm)) => {
                proof {
                    lemma_shuffle_table_ok(w@);
                }
                return Some(self.shuffle(k, &perm));
            },
            None => {},
        }
        if string_eq_lit(w, "clear") {
            self.stack.clear();
            assert(values_v(self.stack@) =~= seq![]);
            return Some(Ok(()));
        }
        if string_eq_lit(w, "+") || string_eq_lit(w, "-") || string_eq_lit(w, "*") || string_eq_lit(w, "/")
            || string_eq_lit(w, "<") || string_eq_lit(w, ">") || string_eq_lit(w, "==") {
            if n < 2 {
                return Some(Err(underflow()));
            }
            let b = self.pop_value();
            let a = self.pop_value();
            assert(s.drop_last().drop_last() =~= s.subrange(0, s.len() - 2));
            if string_eq_lit(w, "==") {
                let eq = data_equal(&a.data, &b.data);
                self.push_value(bool_value(eq));
                return Some(Ok(()));
            }
            match (&a.data, &b.data) {
                (ValueData::Integer(x), ValueData::Integer(y)) => {
                    if string_eq_lit(w, "<") {
                        self.push_value(bool_value(*x < *y));
                        return Some(Ok(()));
                    } else if string_eq_lit(w, ">") {
                        self.push_value(bool_value(*x > *y));
                        return Some(Ok(()));
                    }
                    match arith_exec(w, *x, *y) {
                        Ok(d) => {
                            self.push_value(bare_value(d));
                            return Some(Ok(()));
                        },
                        Err(e) => return Some(Err(e)),
                    }
                },
                _ => return Some(Err(mismatch_error(w))),
            }
        }
        if string_eq_lit(w, "!") {
            if n < 1 {
                return Some(Err(underflow()));
            }
            let a = self.pop_value();
            match a.data {
                ValueData::Boolean(b) => {
                    self.push_value(bool_value(!b));
                    return Some(Ok(()));
                },
                _ => return Some(Err(mismatch_error(w))),
            }
        }
        if string_eq_lit(w, "?") {
            if n < 3 {
                return Some(Err(underflow()));
            }
            let f = self.pop_value();
            let t = self.pop_value();
            let c = self.pop_value();
            assert(s.drop_last().drop_last().drop_last() =~= s.subrange(0, s.len() - 3));
            if is_false_exec(&c) {
                self.push_value(f);
            } else {
                self.push_value(t);
            }
            return Some(Ok(()));
        }
        None
    }
}


impl Tardi {
    /// Runs comparison `base`, then negates its answer.
    fn negated(&mut self, base: &str) -> (r: Result<(), Error>)
        ensures
            match negated(old(self)@, base@) {
                Ok(m) => r is Ok && final(self)@ == m,
                Err(e) => r is Err && r->Err_0@ == e,
            },
    {
        let b = string_of(base);
        match self.kernel(&b) {
            Some(Ok(())) => {
                let not = string_of("!");
                match self.kernel(&not) {
                    Some(r) => r,
                    None => Ok(()),
                }
            },
            Some(Err(e)) => Err(e),
            None => Err(mismatch_error(&b)),
        }
    }

    fn library(&mut self, w: &String) -> (r: Option<Result<(), Error>>)
        ensures
            match library_word(old(self)@, w@) {
                None => r is None && final(self)@ == old(self)@,
                Some(Ok(m)) => r matches Some(Ok(_)) && final(self)@ == m,
                Some(Err(e)) => r matches Some(Err(x)) && x@ == e,
            },
    {
        if string_eq_lit(w, "!=") {
            return Some(self.negated("=="));
        }
        if string_eq_lit(w, "<=") {
            return Some(self.negated(">"));
        }
        if string_eq_lit(w, ">=") {
            return Some(self.negated("<"));
        }
        if string_eq_lit(w, "stack-size") {
            let n = self.stack.len();
            proof {
                lemma_values_v(self.stack@);
            }
            self.push_value(bare_value(ValueData::Integer(n as i64)));
            return Some(Ok(()));
        }
        if string_eq_lit(w, "<nop>") {
            return Some(Ok(()));
        }
        if string_eq_lit(w, "lit") {
            let n = self.stack.len();
            proof {
                lemma_values_v(self.stack@);
            }
            if n < 1 {
                return Some(Err(underflow()));
            }
            let v = self.pop_value();
            self.push_value(bare_value(ValueData::Literal(Box::new(v))));
            return Some(Ok(()));
        }
        if string_eq_lit(w, "bye") {
            return Some(Err(Error::VMError(VMError::Exit)));
        }
        if string_eq_lit(w, "<string>") {
            return Some(crate::strings::create_string(&mut self.stack));
        }
        if string_eq_lit(w, ">string") {
            return Some(crate::strings::to_string(&mut self.stack));
        }
        if string_eq_lit(w, "utf8>string") {
            return Some(crate::strings::utf8_to_string(&mut self.stack));
        }
        if string_eq_lit(w, "string-concat") {
            return Some(crate::strings::string_concat(&mut self.stack));
        }
        if string_eq_lit(w, "<list>") {
            return Some(crate::vectors::create_list(&mut self.stack));
        }
        None
    }

    /// Runs the nodes `ns` in order, with calls at most `fuel` deep.
    fn run_nodes(&mut self, ns: &Vec<AstNode>, fuel: usize) -> (r: Result<(), Error>)
        ensures
            match run(old(self)@, nodes_v(ns@), fuel as nat) {
                Ok(m) => r is Ok && final(self)@ == m,
                Err(e) => r is Err && r->Err_0@ == e,
            },
        decreases fuel, ns@.len() + 2,
    {
        proof {
            crate::ast::lemma_nodes_v(ns@);
        }
        let mut i: usize = 0;
        assert(nodes_v(ns@).skip(0) =~= nodes_v(ns@));
        while i < ns.len()
            invariant
                i <= ns@.len(),
                nodes_v(ns@).len() == ns@.len(),
                forall|k: int| 0 <= k < ns@.len() ==> nodes_v(ns@)[k] == node_v(#[trigger] ns@[k]),
                run(old(self)@, nodes_v(ns@), fuel as nat) == run(self@, nodes_v(ns@).skip(i as int), fuel as nat),
            decreases ns@.len() - i,
        {
            let ghost t = nodes_v(ns@).skip(i as int);
            assert(t[0] == node_v(ns@[i as int]));
            assert(t.drop_first() =~= nodes_v(ns@).skip(i + 1));
            match self.step_node(&ns[i], fuel) {
                Err(e) => return Err(e),
                Ok(()) => {},
            }
            i = i + 1;
        }
        assert(nodes_v(ns@).skip(i as int) =~= seq![]);
        Ok(())
    }

    /// Calls the function value `q`; `op` names the word that called it.
    fn call_value(&mut self, q: &Value, fuel: usize, op: &String) -> (r: Result<(), Error>)
        ensures
            match call_value(old(self)@, q@, fuel as nat, op@) {
                Ok(m) => r is Ok && final(self)@ == m,
                Err(e) => r is Err && r->Err_0@ == e,
            },
        decreases fuel, 0int,
    {
        match &q.data {
            ValueData::Function(l) => {
                assert(q@.data == DataV::Function(crate::value::lambda_v(*l)));
                assert(crate::value::lambda_v(*l).body == nodes_v(l.body@));
                if fuel == 0 {
                    return Err(Error::VMError(VMError::ReturnStackOverflow));
                }
                self.run_nodes(&l.body, fuel - 1)
            },
            _ => Err(mismatch_error(op)),
        }
    }

    /// Runs one node.
    fn step_node(&mut self, n: &AstNode, fuel: usize) -> (r: Result<(), Error>)
        ensures
            match step(old(self)@, n@, fuel as nat) {
                Ok(m) => r is Ok && final(self)@ == m,
                Err(e) => r is Err && r->Err_0@ == e,
            },
        decreases fuel, 1int,
    {
        match &n.kind {
            NodeKind::Literal(v) => {
                self.push_value(clone_value(v));
                Ok(())
            },
            NodeKind::Quotation(ns) => {
                self.push_value(quotation(ns));
                Ok(())
            },
            NodeKind::Vector(ns) => match vector_values(ns) {
                Ok(vs) => {
                    self.push_value(bare_value(ValueData::List(vs)));
                    Ok(())
                },
                Err(e) => Err(e),
            },
            NodeKind::Definition { name, body, .. } => {
                let entry = (name.clone(), crate::ast::clone_nodes(body));
                let ghost d0 = self.defs@;
                self.defs.push(entry);
                assert(defs_v(self.defs@) =~= defs_v(d0).push((name@, nodes_v(body@))));
                Ok(())
            },
            NodeKind::MacroDefinition { .. } => Err(
                Error::CompilerError(CompilerError::UnsupportedToken(string_of("MACRO:"))),
            ),
            NodeKind::Program(ns) => {
                if fuel == 0 {
                    return Err(Error::VMError(VMError::ReturnStackOverflow));
                }
                self.run_nodes(ns, fuel - 1)
            },
            NodeKind::Word { name, .. } => {
                match self.find_def(name) {
                    Some(i) => {
                        if fuel == 0 {
                            return Err(Error::VMError(VMError::ReturnStackOverflow));
                        }
                        let body = crate::ast::clone_nodes(&self.defs[i].1);
                        return self.run_nodes(&body, fuel - 1);
                    },
                    None => {},
                }
                let ghost s = self@.stack;
                let len = self.stack.len();
                proof {
                    lemma_values_v(self.stack@);
                }
                if string_eq_lit(name, "call") || string_eq_lit(name, "apply") {
                    if len < 1 {
                        return Err(underflow());
                    }
                    let q = self.pop_value();
                    assert(s.drop_last() =~= s.subrange(0, s.len() - 1));
                    return self.call_value(&q, fuel, name);
                }
                if string_eq_lit(name, "dip") {
                    if len < 2 {
                        return Err(underflow());
                    }
                    let q = self.pop_value();
                    let x = self.pop_value();
                    assert(s.drop_last().drop_last() =~= s.subrange(0, s.len() - 2));
                    match self.call_value(&q, fuel, name) {
                        Ok(()) => {
                            self.push_value(x);
                            return Ok(());
                        },
                        Err(e) => return Err(e),
                    }
                }
                if string_eq_lit(name, "if") {
                    if len < 3 {
                        return Err(underflow());
                    }
                    let f = self.pop_value();
                    let t = self.pop_value();
                    let c = self.pop_value();
                    assert(s.drop_last().drop_last().drop_last() =~= s.subrange(0, s.len() - 3));
                    match c.data {
                        ValueData::Boolean(true) => return self.call_value(&t, fuel, name),
                        ValueData::Boolean(false) => return self.call_value(&f, fuel, name),
                        _ => return Err(mismatch_error(name)),
                    }
                }
                match self.kernel(name) {
                    Some(r) => r,
                    None => match self.library(name) {
                        Some(r) => r,
                        None => Err(Error::CompilerError(CompilerError::UndefinedWord(name.clone()))),
                    },
                }
            },
        }
    }
}


// ── The interpreter ──────────────────────────────────────────────────────────

/// What running the source text `s` does to `m`: it is scanned (words
/// belong to the sandbox), parsed, and its items run in order.
pub open spec fn execute_spec(m: MachV, s: Seq<char>) -> Result<MachV, ErrV> {
    match scanned_values(all_tokens(s, SANDBOX@, 0), s) {
        Err(x) => Err(ErrV::ScannerError(x)),
        Ok(vs) => match p_top(vs, SANDBOX@, 0) {
            Err(e) => Err(ErrV::ParseError(e)),
            Ok(ns) => run(m, ns, MAX_DEPTH as nat),
        },
    }
}

/// The machine before anything ran.
pub open spec fn fresh() -> MachV {
    MachV { stack: seq![], defs: seq![] }
}

impl Tardi {
    /// An interpreter with an empty stack and no definitions, which then
    /// runs the bootstrap source, if one is given.
    pub fn new(bootstrap: Option<&str>) -> (r: Result<Tardi, Error>)
        ensures
            match bootstrap {
                None => r is Ok && r->Ok_0@ == fresh(),
                Some(src) => match execute_spec(fresh(), src@) {
                    Ok(m) => r is Ok && r->Ok_0@ == m,
                    Err(e) => r is Err && r->Err_0@ == e,
                },
            },
    {
        let mut t = Tardi { stack: Vec::new(), defs: Vec::new() };
        assert(values_v(t.stack@) =~= seq![]);
        assert(defs_v(t.defs@) =~= seq![]);
        match bootstrap {
            None => Ok(t),
            Some(src) => match t.execute_str(src) {
                Ok(()) => Ok(t),
                Err(e) => Err(e),
            },
        }
    }

    /// Pushes the true boolean.
    pub fn push_true(&mut self) -> (r: Result<(), Error>)
        ensures
            r is Ok,
            final(self)@ == (MachV { stack: old(self)@.stack.push(bare(DataV::Boolean(true))), ..old(self)@ }),
    {
        self.push_value(bool_value(true));
        Ok(())
    }

    /// Pushes the false boolean.
    pub fn push_false(&mut self) -> (r: Result<(), Error>)
        ensures
            r is Ok,
            final(self)@ == (MachV { stack: old(self)@.stack.push(bare(DataV::Boolean(false))), ..old(self)@ }),
    {
        self.push_value(bool_value(false));
        Ok(())
    }

    /// A copy of the data stack, bottom first.
    pub fn stack(&self) -> (r: Vec<Value>)
        ensures
            values_v(r@) == self@.stack,
    {
        crate::value::clone_values(&self.stack)
    }

    /// Empties the stack and forgets every definition.
    pub fn reset(&mut self)
        ensures
            final(self)@ == fresh(),
    {
        self.stack = Vec::new();
        self.defs = Vec::new();
        assert(values_v(self.stack@) =~= seq![]);
        assert(defs_v(self.defs@) =~= seq![]);
    }

    /// Scans, parses and runs `input`.
    pub fn execute_str(&mut self, input: &str) -> (r: Result<(), Error>)
        ensures
            match execute_spec(old(self)@, input@) {
                Ok(m) => r is Ok && final(self)@ == m,
                Err(e) => r is Err && r->Err_0@ == e,
            },
    {
        let tokens = match scan_all(input) {
            Ok(t) => t,
            Err(e) => return Err(Error::ScannerError(e)),
        };
        let mut parser = Parser::new(tokens, SANDBOX);
        match parser.parse() {
            Err(e) => Err(Error::ParseError(e)),
            Ok(prog) => match &prog.kind {
                NodeKind::Program(items) => self.run_nodes(items, MAX_DEPTH),
                _ => Ok(()),
            },
        }
    }
}

// ── Laws ─────────────────────────────────────────────────────────────────────

/// How many values the shuffle `w` takes.
pub open spec fn shuffle_arity(w: Seq<char>) -> usize {
    let (k, _) = shuffle_spec(w)->0;
    k
}

/// Which of the values it takes the shuffle `w` puts back.
pub open spec fn shuffle_perm(w: Seq<char>) -> Seq<usize> {
    let (_, p) = shuffle_spec(w)->0;
    p
}

/// Whether `n` is a use of the word `w`.
pub open spec fn is_word(n: NodeV, w: Seq<char>) -> bool {
    n.kind matches KindV::Word { name, .. } && name == w
}

/// The result of running one word on `m`, when it is a kernel shuffle.
pub proof fn lemma_step_shuffle(m: MachV, n: NodeV, w: Seq<char>, fuel: nat)
    requires
        is_word(n, w),
        lookup_def(m.defs, w) is None,
        shuffle_spec(w) is Some,
        w != "call"@ && w != "apply"@ && w != "dip"@ && w != "if"@,
        m.stack.len() >= shuffle_arity(w),
    ensures
        step(m, n, fuel) == Ok::<MachV, ErrV>(
            MachV { stack: shuffled(m.stack, shuffle_arity(w) as int, shuffle_perm(w)), ..m },
        ),
{
}

proof fn lemma_swap_word()
    ensures
        shuffle_spec("swap"@) == Some((2usize, seq![1usize, 0])),
        "swap"@ != "call"@ && "swap"@ != "apply"@ && "swap"@ != "dip"@ && "swap"@ != "if"@,
{
    reveal_strlit("apply");
    assert("apply"@ =~= seq!['a', 'p', 'p', 'l', 'y']);
    reveal_strlit("swap");
    reveal_strlit("call");
    reveal_strlit("dip");
    reveal_strlit("if");
    reveal_strlit("dup");
    reveal_strlit("drop");
    assert("swap"@ =~= seq!['s', 'w', 'a', 'p']);
    assert("call"@ =~= seq!['c', 'a', 'l', 'l']);
    assert("drop"@ =~= seq!['d', 'r', 'o', 'p']);
    assert("swap"@ != "call"@);
    assert("swap"@ != "drop"@);
}

/// `swap swap` leaves the machine as it was, on a stack of two or more
/// values (when `swap` is the kernel's).
pub proof fn law_swap_swap(m: MachV, a: NodeV, b: NodeV, fuel: nat)
    requires
        is_word(a, "swap"@),
        is_word(b, "swap"@),
        lookup_def(m.defs, "swap"@) is None,
        m.stack.len() >= 2,
    ensures
        run(m, seq![a, b], fuel) == Ok::<MachV, ErrV>(m),
{
    lemma_swap_word();
    let s = m.stack;
    let m1 = MachV { stack: shuffled(s, 2, seq![1usize, 0]), ..m };
    lemma_step_shuffle(m, a, "swap"@, fuel);
    lemma_step_shuffle(m1, b, "swap"@, fuel);
    assert(shuffled(m1.stack, 2, seq![1usize, 0]) =~= s);
    assert(lookup_def(m1.defs, "swap"@) is None);
    assert(step(m1, b, fuel) == Ok::<MachV, ErrV>(m));
    assert(seq![b].drop_first() =~= Seq::<NodeV>::empty());
    assert(run(m, Seq::<NodeV>::empty(), fuel) == Ok::<MachV, ErrV>(m));
    assert(run(m1, seq![b], fuel) == Ok::<MachV, ErrV>(m));
    assert(seq![a, b].drop_first() =~= seq![b]);
}


/// Running two nodes runs the first, then the second.
pub proof fn lemma_run_two(m: MachV, a: NodeV, b: NodeV, fuel: nat)
    ensures
        run(m, seq![a, b], fuel) == match step(m, a, fuel) {
            Ok(m1) => step(m1, b, fuel),
            Err(e) => Err(e),
        },
{
    assert(seq![a, b].drop_first() =~= seq![b]);
    assert(seq![b].drop_first() =~= Seq::<NodeV>::empty());
    if let Ok(m1) = step(m, a, fuel) {
        if let Ok(m2) = step(m1, b, fuel) {
            assert(run(m2, Seq::<NodeV>::empty(), fuel) == Ok::<MachV, ErrV>(m2));
        }
        assert(run(m1, seq![b], fuel) == step(m1, b, fuel));
    }
}

/// Running three nodes runs them one after another.
pub proof fn lemma_run_three(m: MachV, a: NodeV, b: NodeV, c: NodeV, fuel: nat)
    ensures
        run(m, seq![a, b, c], fuel) == match step(m, a, fuel) {
            Ok(m1) => run(m1, seq![b, c], fuel),
            Err(e) => Err(e),
        },
{
    assert(seq![a, b, c].drop_first() =~= seq![b, c]);
}

proof fn lemma_kernel_words()
    ensures
        shuffle_spec("dup"@) == Some((1usize, seq![0usize, 0])),
        shuffle_spec("drop"@) == Some((1usize, Seq::<usize>::empty())),
        shuffle_spec("rot"@) == Some((3usize, seq![1usize, 2, 0])),
        shuffle_spec("-rot"@) == Some((3usize, seq![2usize, 0, 1])),
        "dup"@ != "call"@ && "dup"@ != "apply"@ && "dup"@ != "dip"@ && "dup"@ != "if"@,
        "drop"@ != "call"@ && "drop"@ != "apply"@ && "drop"@ != "dip"@ && "drop"@ != "if"@,
        "rot"@ != "call"@ && "rot"@ != "apply"@ && "rot"@ != "dip"@ && "rot"@ != "if"@,
        "-rot"@ != "call"@ && "-rot"@ != "apply"@ && "-rot"@ != "dip"@ && "-rot"@ != "if"@,
{
    reveal_strlit("apply");
    assert("apply"@ =~= seq!['a', 'p', 'p', 'l', 'y']);
    reveal_strlit("swap");
    reveal_strlit("call");
    reveal_strlit("dip");
    reveal_strlit("if");
    reveal_strlit("dup");
    reveal_strlit("drop");
    reveal_strlit("over");
    reveal_strlit("rot");
    reveal_strlit("-rot");
    assert("dup"@ =~= seq!['d', 'u', 'p']);
    assert("dip"@ =~= seq!['d', 'i', 'p']);
    assert("rot"@ =~= seq!['r', 'o', 't']);
    assert("-rot"@ =~= seq!['-', 'r', 'o', 't']);
    assert("drop"@ =~= seq!['d', 'r', 'o', 'p']);
    assert("swap"@ =~= seq!['s', 'w', 'a', 'p']);
    assert("over"@ =~= seq!['o', 'v', 'e', 'r']);
    assert("call"@ =~= seq!['c', 'a', 'l', 'l']);
    assert("dup"@ != "dip"@);
    assert("rot"@ != "dup"@ && "rot"@ != "dip"@);
    assert("drop"@ != "dup"@ && "drop"@ != "call"@);
    assert("-rot"@ != "drop"@ && "-rot"@ != "swap"@ && "-rot"@ != "over"@ && "-rot"@ != "call"@);
}

/// `dup drop` leaves the machine as it was, on a non-empty stack (when both
/// words are the kernel's).
pub proof fn law_dup_drop(m: MachV, a: NodeV, b: NodeV, fuel: nat)
    requires
        is_word(a, "dup"@),
        is_word(b, "drop"@),
        lookup_def(m.defs, "dup"@) is None,
        lookup_def(m.defs, "drop"@) is None,
        m.stack.len() >= 1,
    ensures
        run(m, seq![a, b], fuel) == Ok::<MachV, ErrV>(m),
{
    lemma_kernel_words();
    lemma_run_two(m, a, b, fuel);
    lemma_step_shuffle(m, a, "dup"@, fuel);
    let m1 = MachV { stack: shuffled(m.stack, 1, seq![0usize, 0]), ..m };
    lemma_step_shuffle(m1, b, "drop"@, fuel);
    assert(shuffled(m1.stack, 1, Seq::<usize>::empty()) =~= m.stack);
}

/// `rot -rot` leaves the machine as it was, on a stack of three or more
/// values (when both words are the kernel's).
pub proof fn law_rot_unrot(m: MachV, a: NodeV, b: NodeV, fuel: nat)
    requires
        is_word(a, "rot"@),
        is_word(b, "-rot"@),
        lookup_def(m.defs, "rot"@) is None,
        lookup_def(m.defs, "-rot"@) is None,
        m.stack.len() >= 3,
    ensures
        run(m, seq![a, b], fuel) == Ok::<MachV, ErrV>(m),
{
    lemma_kernel_words();
    lemma_run_two(m, a, b, fuel);
    lemma_step_shuffle(m, a, "rot"@, fuel);
    let m1 = MachV { stack: shuffled(m.stack, 3, seq![1usize, 2, 0]), ..m };
    lemma_step_shuffle(m1, b, "-rot"@, fuel);
    assert(shuffled(m1.stack, 3, seq![2usize, 0, 1]) =~= m.stack);
}

/// `rot rot rot` leaves the machine as it was, on a stack of three or more
/// values (when `rot` is the kernel's).
pub proof fn law_rot_three_times(m: MachV, a: NodeV, b: NodeV, c: NodeV, fuel: nat)
    requires
        is_word(a, "rot"@),
        is_word(b, "rot"@),
        is_word(c, "rot"@),
        lookup_def(m.defs, "rot"@) is None,
        m.stack.len() >= 3,
    ensures
        run(m, seq![a, b, c], fuel) == Ok::<MachV, ErrV>(m),
{
    lemma_kernel_words();
    lemma_run_three(m, a, b, c, fuel);
    lemma_step_shuffle(m, a, "rot"@, fuel);
    let m1 = MachV { stack: shuffled(m.stack, 3, seq![1usize, 2, 0]), ..m };
    lemma_run_two(m1, b, c, fuel);
    lemma_step_shuffle(m1, b, "rot"@, fuel);
    let m2 = MachV { stack: shuffled(m1.stack, 3, seq![1usize, 2, 0]), ..m };
    lemma_step_shuffle(m2, c, "rot"@, fuel);
    assert(shuffled(m2.stack, 3, seq![1usize, 2, 0]) =~= m.stack);
}

/// A word defined by the program runs its body: after `: w body ;`, the
/// word `w` does what `body` does, one call deeper.
pub proof fn law_defined_word_runs_body(m: MachV, d: NodeV, n: NodeV, fuel: nat)
    requires
        d.kind is Definition,
        is_word(n, d.kind->Definition_name),
        fuel > 0,
    ensures
        run(m, seq![d, n], fuel) == run(
            MachV { defs: m.defs.push((d.kind->Definition_name, d.kind->Definition_body)), ..m },
            d.kind->Definition_body,
            (fuel - 1) as nat,
        ),
{
    lemma_run_two(m, d, n, fuel);
    let m1 = MachV { defs: m.defs.push((d.kind->Definition_name, d.kind->Definition_body)), ..m };
    assert(m1.defs.last() == (d.kind->Definition_name, d.kind->Definition_body));
}

/// `x q dip` runs the quotation `q` with `x` set aside, then puts `x`
/// back on top (when `dip` is the kernel's).
pub proof fn law_dip(m: MachV, n: NodeV, x: ValueV, body: Seq<NodeV>, fuel: nat)
    requires
        is_word(n, "dip"@),
        lookup_def(m.defs, "dip"@) is None,
        fuel > 0,
    ensures
        step(MachV { stack: m.stack.push(x).push(quotation_value(body)), ..m }, n, fuel) == match run(
            m,
            body,
            (fuel - 1) as nat,
        ) {
            Ok(m2) => Ok(MachV { stack: m2.stack.push(x), ..m2 }),
            Err(e) => Err(e),
        },
{
    reveal_strlit("call");
    reveal_strlit("apply");
    reveal_strlit("dip");
    assert("call"@ =~= seq!['c', 'a', 'l', 'l']);
    assert("apply"@ =~= seq!['a', 'p', 'p', 'l', 'y']);
    assert("dip"@ =~= seq!['d', 'i', 'p']);
    let s = m.stack.push(x).push(quotation_value(body));
    assert(s.subrange(0, s.len() - 2) =~= m.stack);
}

/// `c t f if` calls `t` when `c` is true and `f` when it is false (when
/// `if` is the kernel's).
pub proof fn law_if(m: MachV, n: NodeV, c: bool, t: Seq<NodeV>, f: Seq<NodeV>, fuel: nat)
    requires
        is_word(n, "if"@),
        lookup_def(m.defs, "if"@) is None,
        fuel > 0,
    ensures
        step(
            MachV {
                stack: m.stack.push(bare(DataV::Boolean(c))).push(quotation_value(t)).push(
                    quotation_value(f),
                ),
                ..m
            },
            n,
            fuel,
        ) == run(m, if c { t } else { f }, (fuel - 1) as nat),
{
    reveal_strlit("call");
    reveal_strlit("apply");
    reveal_strlit("dip");
    reveal_strlit("if");
    assert("apply"@ =~= seq!['a', 'p', 'p', 'l', 'y']);
    assert("call"@ =~= seq!['c', 'a', 'l', 'l']);
    assert("dip"@ =~= seq!['d', 'i', 'p']);
    assert("if"@ =~= seq!['i', 'f']);
    let s = m.stack.push(bare(DataV::Boolean(c))).push(quotation_value(t)).push(quotation_value(f));
    assert(s.subrange(0, s.len() - 3) =~= m.stack);
}


proof fn lemma_question_word()
    ensures
        "call"@ != "?"@,
        "apply"@ != "?"@,
        "dip"@ != "?"@,
        "if"@ != "?"@,
        "clear"@ != "?"@,
        "=="@ != "?"@,
        "dup"@ != "?"@,
        "drop"@ != "?"@,
        "swap"@ != "?"@,
        "over"@ != "?"@,
        "rot"@ != "?"@,
        "-rot"@ != "?"@,
        "nip"@ != "?"@,
        "2nip"@ != "?"@,
        "3nip"@ != "?"@,
        "4nip"@ != "?"@,
        "5nip"@ != "?"@,
        "2drop"@ != "?"@,
        "3drop"@ != "?"@,
        "4drop"@ != "?"@,
        "5drop"@ != "?"@,
        "dupd"@ != "?"@,
        "swapd"@ != "?"@,
        "overd"@ != "?"@,
        "spin"@ != "?"@,
        "4spin"@ != "?"@,
        "rotd"@ != "?"@,
        "-rotd"@ != "?"@,
        "nipd"@ != "?"@,
        "2nipd"@ != "?"@,
        "3nipd"@ != "?"@,
        "2dup"@ != "?"@,
        "2dupd"@ != "?"@,
        "3dup"@ != "?"@,
        "2over"@ != "?"@,
        "pick"@ != "?"@,
        "+"@ != "?"@,
        "-"@ != "?"@,
        "*"@ != "?"@,
        "/"@ != "?"@,
        "<"@ != "?"@,
        ">"@ != "?"@,
        "!"@ != "?"@,
{
    reveal_strlit("call");
    reveal_strlit("apply");
    reveal_strlit("dip");
    reveal_strlit("if");
    reveal_strlit("clear");
    reveal_strlit("==");
    reveal_strlit("dup");
    reveal_strlit("drop");
    reveal_strlit("swap");
    reveal_strlit("over");
    reveal_strlit("rot");
    reveal_strlit("-rot");
    reveal_strlit("nip");
    reveal_strlit("2nip");
    reveal_strlit("3nip");
    reveal_strlit("4nip");
    reveal_strlit("5nip");
    reveal_strlit("2drop");
    reveal_strlit("3drop");
    reveal_strlit("4drop");
    reveal_strlit("5drop");
    reveal_strlit("dupd");
    reveal_strlit("swapd");
    reveal_strlit("overd");
    reveal_strlit("spin");
    reveal_strlit("4spin");
    reveal_strlit("rotd");
    reveal_strlit("-rotd");
    reveal_strlit("nipd");
    reveal_strlit("2nipd");
    reveal_strlit("3nipd");
    reveal_strlit("2dup");
    reveal_strlit("2dupd");
    reveal_strlit("3dup");
    reveal_strlit("2over");
    reveal_strlit("pick");
    reveal_strlit("+");
    reveal_strlit("-");
    reveal_strlit("*");
    reveal_strlit("/");
    reveal_strlit("<");
    reveal_strlit(">");
    reveal_strlit("!");
    reveal_strlit("?");
    assert("?"@ =~= seq!['?']);
    assert("call"@ =~= seq!['c', 'a', 'l', 'l']);
    assert("apply"@ =~= seq!['a', 'p', 'p', 'l', 'y']);
    assert("dip"@ =~= seq!['d', 'i', 'p']);
    assert("if"@ =~= seq!['i', 'f']);
    assert("clear"@ =~= seq!['c', 'l', 'e', 'a', 'r']);
    assert("=="@ =~= seq!['=', '=']);
    assert("dup"@ =~= seq!['d', 'u', 'p']);
    assert("drop"@ =~= seq!['d', 'r', 'o', 'p']);
    assert("swap"@ =~= seq!['s', 'w', 'a', 'p']);
    assert("over"@ =~= seq!['o', 'v', 'e', 'r']);
    assert("rot"@ =~= seq!['r', 'o', 't']);
    assert("-rot"@ =~= seq!['-', 'r', 'o', 't']);
    assert("nip"@ =~= seq!['n', 'i', 'p']);
    assert("2nip"@ =~= seq!['2', 'n', 'i', 'p']);
    assert("3nip"@ =~= seq!['3', 'n', 'i', 'p']);
    assert("4nip"@ =~= seq!['4', 'n', 'i', 'p']);
    assert("5nip"@ =~= seq!['5', 'n', 'i', 'p']);
    assert("2drop"@ =~= seq!['2', 'd', 'r', 'o', 'p']);
    assert("3drop"@ =~= seq!['3', 'd', 'r', 'o', 'p']);
    assert("4drop"@ =~= seq!['4', 'd', 'r', 'o', 'p']);
    assert("5drop"@ =~= seq!['5', 'd', 'r', 'o', 'p']);
    assert("dupd"@ =~= seq!['d', 'u', 'p', 'd']);
    assert("swapd"@ =~= seq!['s', 'w', 'a', 'p', 'd']);
    assert("overd"@ =~= seq!['o', 'v', 'e', 'r', 'd']);
    assert("spin"@ =~= seq!['s', 'p', 'i', 'n']);
    assert("4spin"@ =~= seq!['4', 's', 'p', 'i', 'n']);
    assert("rotd"@ =~= seq!['r', 'o', 't', 'd']);
    assert("-rotd"@ =~= seq!['-', 'r', 'o', 't', 'd']);
    assert("nipd"@ =~= seq!['n', 'i', 'p', 'd']);
    assert("2nipd"@ =~= seq!['2', 'n', 'i', 'p', 'd']);
    assert("3nipd"@ =~= seq!['3', 'n', 'i', 'p', 'd']);
    assert("2dup"@ =~= seq!['2', 'd', 'u', 'p']);
    assert("2dupd"@ =~= seq!['2', 'd', 'u', 'p', 'd']);
    assert("3dup"@ =~= seq!['3', 'd', 'u', 'p']);
    assert("2over"@ =~= seq!['2', 'o', 'v', 'e', 'r']);
    assert("pick"@ =~= seq!['p', 'i', 'c', 'k']);
    assert("+"@ =~= seq!['+']);
    assert("+"@[0] != "?"@[0]);
    assert("-"@ =~= seq!['-']);
    assert("-"@[0] != "?"@[0]);
    assert("*"@ =~= seq!['*']);
    assert("*"@[0] != "?"@[0]);
    assert("/"@ =~= seq!['/']);
    assert("/"@[0] != "?"@[0]);
    assert("<"@ =~= seq!['<']);
    assert("<"@[0] != "?"@[0]);
    assert(">"@ =~= seq!['>']);
    assert(">"@[0] != "?"@[0]);
    assert("!"@ =~= seq!['!']);
    assert("!"@[0] != "?"@[0]);
}

/// `c x y ?` leaves `x` when `c` is anything but `#f`, and `y` when `c` is
/// `#f`; the three values are taken off (when `?` is the kernel's).
pub proof fn law_question(m: MachV, n: NodeV, c: ValueV, x: ValueV, y: ValueV, fuel: nat)
    requires
        is_word(n, "?"@),
        lookup_def(m.defs, "?"@) is None,
    ensures
        step(MachV { stack: m.stack.push(c).push(x).push(y), ..m }, n, fuel) matches Ok(m2)
            && m2.defs == m.defs && m2.stack.drop_last() == m.stack
            && (c.data != DataV::Boolean(false) ==> m2.stack.last() == x)
            && (c.data == DataV::Boolean(false) ==> m2.stack.last() == y),
{
    lemma_question_word();
    let s = m.stack.push(c).push(x).push(y);
    assert(s.subrange(0, s.len() - 3) =~= m.stack);
    assert(s[s.len() - 3] == c && s[s.len() - 2] == x && s[s.len() - 1] == y);
}


proof fn lemma_word_plus_distinct()
    ensures
        "+"@ != "dup"@,
        "+"@ != "drop"@,
        "+"@ != "swap"@,
        "+"@ != "over"@,
        "+"@ != "rot"@,
        "+"@ != "-rot"@,
        "+"@ != "nip"@,
        "+"@ != "2nip"@,
        "+"@ != "3nip"@,
        "+"@ != "4nip"@,
        "+"@ != "5nip"@,
        "+"@ != "2drop"@,
        "+"@ != "3drop"@,
        "+"@ != "4drop"@,
        "+"@ != "5drop"@,
        "+"@ != "dupd"@,
        "+"@ != "swapd"@,
        "+"@ != "overd"@,
        "+"@ != "spin"@,
        "+"@ != "4spin"@,
        "+"@ != "rotd"@,
        "+"@ != "-rotd"@,
        "+"@ != "nipd"@,
        "+"@ != "2nipd"@,
        "+"@ != "3nipd"@,
        "+"@ != "2dup"@,
        "+"@ != "2dupd"@,
        "+"@ != "3dup"@,
        "+"@ != "2over"@,
        "+"@ != "pick"@,
        "+"@ != "call"@,
        "+"@ != "apply"@,
        "+"@ != "dip"@,
        "+"@ != "if"@,
        "+"@ != "clear"@,
        "+"@ != "-"@,
        "+"@ != "*"@,
        "+"@ != "/"@,
        "+"@ != "<"@,
        "+"@ != ">"@,
        "+"@ != "=="@,
        "+"@ != "!"@,
        "+"@ != "?"@,
{
    reveal_strlit("dup");
    assert("dup"@ =~= seq!['d', 'u', 'p']);
    reveal_strlit("drop");
    assert("drop"@ =~= seq!['d', 'r', 'o', 'p']);
    reveal_strlit("swap");
    assert("swap"@ =~= seq!['s', 'w', 'a', 'p']);
    reveal_strlit("over");
    assert("over"@ =~= seq!['o', 'v', 'e', 'r']);
    reveal_strlit("rot");
    assert("rot"@ =~= seq!['r', 'o', 't']);
    reveal_strlit("-rot");
    assert("-rot"@ =~= seq!['-', 'r', 'o', 't']);
    reveal_strlit("nip");
    assert("nip"@ =~= seq!['n', 'i', 'p']);
    reveal_strlit("2nip");
    assert("2nip"@ =~= seq!['2', 'n', 'i', 'p']);
    reveal_strlit("3nip");
    assert("3nip"@ =~= seq!['3', 'n', 'i', 'p']);
    reveal_strlit("4nip");
    assert("4nip"@ =~= seq!['4', 'n', 'i', 'p']);
    reveal_strlit("5nip");
    assert("5nip"@ =~= seq!['5', 'n', 'i', 'p']);
    reveal_strlit("2drop");
    assert("2drop"@ =~= seq!['2', 'd', 'r', 'o', 'p']);
    reveal_strlit("3drop");
    assert("3drop"@ =~= seq!['3', 'd', 'r', 'o', 'p']);
    reveal_strlit("4drop");
    assert("4drop"@ =~= seq!['4', 'd', 'r', 'o', 'p']);
    reveal_strlit("5drop");
    assert("5drop"@ =~= seq!['5', 'd', 'r', 'o', 'p']);
    reveal_strlit("dupd");
    assert("dupd"@ =~= seq!['d', 'u', 'p', 'd']);
    reveal_strlit("swapd");
    assert("swapd"@ =~= seq!['s', 'w', 'a', 'p', 'd']);
    reveal_strlit("overd");
    assert("overd"@ =~= seq!['o', 'v', 'e', 'r', 'd']);
    reveal_strlit("spin");
    assert("spin"@ =~= seq!['s', 'p', 'i', 'n']);
    reveal_strlit("4spin");
    assert("4spin"@ =~= seq!['4', 's', 'p', 'i', 'n']);
    reveal_strlit("rotd");
    assert("rotd"@ =~= seq!['r', 'o', 't', 'd']);
    reveal_strlit("-rotd");
    assert("-rotd"@ =~= seq!['-', 'r', 'o', 't', 'd']);
    reveal_strlit("nipd");
    assert("nipd"@ =~= seq!['n', 'i', 'p', 'd']);
    reveal_strlit("2nipd");
    assert("2nipd"@ =~= seq!['2', 'n', 'i', 'p', 'd']);
    reveal_strlit("3nipd");
    assert("3nipd"@ =~= seq!['3', 'n', 'i', 'p', 'd']);
    reveal_strlit("2dup");
    assert("2dup"@ =~= seq!['2', 'd', 'u', 'p']);
    reveal_strlit("2dupd");
    assert("2dupd"@ =~= seq!['2', 'd', 'u', 'p', 'd']);
    reveal_strlit("3dup");
    assert("3dup"@ =~= seq!['3', 'd', 'u', 'p']);
    reveal_strlit("2over");
    assert("2over"@ =~= seq!['2', 'o', 'v', 'e', 'r']);
    reveal_strlit("pick");
    assert("pick"@ =~= seq!['p', 'i', 'c', 'k']);
    reveal_strlit("call");
    assert("call"@ =~= seq!['c', 'a', 'l', 'l']);
    reveal_strlit("apply");
    assert("apply"@ =~= seq!['a', 'p', 'p', 'l', 'y']);
    reveal_strlit("dip");
    assert("dip"@ =~= seq!['d', 'i', 'p']);
    reveal_strlit("if");
    assert("if"@ =~= seq!['i', 'f']);
    reveal_strlit("clear");
    assert("clear"@ =~= seq!['c', 'l', 'e', 'a', 'r']);
    reveal_strlit("+");
    assert("+"@ =~= seq!['+']);
    reveal_strlit("-");
    assert("-"@ =~= seq!['-']);
    reveal_strlit("*");
    assert("*"@ =~= seq!['*']);
    reveal_strlit("/");
    assert("/"@ =~= seq!['/']);
    reveal_strlit("<");
    assert("<"@ =~= seq!['<']);
    reveal_strlit(">");
    assert(">"@ =~= seq!['>']);
    reveal_strlit("==");
    assert("=="@ =~= seq!['=', '=']);
    reveal_strlit("!");
    assert("!"@ =~= seq!['!']);
    reveal_strlit("?");
    assert("?"@ =~= seq!['?']);
    assert("+"@[0] != "-"@[0]);
    assert("+"@[0] != "*"@[0]);
    assert("+"@[0] != "/"@[0]);
    assert("+"@[0] != "<"@[0]);
    assert("+"@[0] != ">"@[0]);
    assert("+"@[0] != "!"@[0]);
    assert("+"@[0] != "?"@[0]);
}

proof fn lemma_word_minus_distinct()
    ensures
        "-"@ != "dup"@,
        "-"@ != "drop"@,
        "-"@ != "swap"@,
        "-"@ != "over"@,
        "-"@ != "rot"@,
        "-"@ != "-rot"@,
        "-"@ != "nip"@,
        "-"@ != "2nip"@,
        "-"@ != "3nip"@,
        "-"@ != "4nip"@,
        "-"@ != "5nip"@,
        "-"@ != "2drop"@,
        "-"@ != "3drop"@,
        "-"@ != "4drop"@,
        "-"@ != "5drop"@,
        "-"@ != "dupd"@,
        "-"@ != "swapd"@,
        "-"@ != "overd"@,
        "-"@ != "spin"@,
        "-"@ != "4spin"@,
        "-"@ != "rotd"@,
        "-"@ != "-rotd"@,
        "-"@ != "nipd"@,
        "-"@ != "2nipd"@,
        "-"@ != "3nipd"@,
        "-"@ != "2dup"@,
        "-"@ != "2dupd"@,
        "-"@ != "3dup"@,
        "-"@ != "2over"@,
        "-"@ != "pick"@,
        "-"@ != "call"@,
        "-"@ != "apply"@,
        "-"@ != "dip"@,
        "-"@ != "if"@,
        "-"@ != "clear"@,
        "-"@ != "+"@,
        "-"@ != "*"@,
        "-"@ != "/"@,
        "-"@ != "<"@,
        "-"@ != ">"@,
        "-"@ != "=="@,
        "-"@ != "!"@,
        "-"@ != "?"@,
{
    reveal_strlit("dup");
    assert("dup"@ =~= seq!['d', 'u', 'p']);
    reveal_strlit("drop");
    assert("drop"@ =~= seq!['d', 'r', 'o', 'p']);
    reveal_strlit("swap");
    assert("swap"@ =~= seq!['s', 'w', 'a', 'p']);
    reveal_strlit("over");
    assert("over"@ =~= seq!['o', 'v', 'e', 'r']);
    reveal_strlit("rot");
    assert("rot"@ =~= seq!['r', 'o', 't']);
    reveal_strlit("-rot");
    assert("-rot"@ =~= seq!['-', 'r', 'o', 't']);
    reveal_strlit("nip");
    assert("nip"@ =~= seq!['n', 'i', 'p']);
    reveal_strlit("2nip");
    assert("2nip"@ =~= seq!['2', 'n', 'i', 'p']);
    reveal_strlit("3nip");
    assert("3nip"@ =~= seq!['3', 'n', 'i', 'p']);
    reveal_strlit("4nip");
    assert("4nip"@ =~= seq!['4', 'n', 'i', 'p']);
    reveal_strlit("5nip");
    assert("5nip"@ =~= seq!['5', 'n', 'i', 'p']);
    reveal_strlit("2drop");
    assert("2drop"@ =~= seq!['2', 'd', 'r', 'o', 'p']);
    reveal_strlit("3drop");
    assert("3drop"@ =~= seq!['3', 'd', 'r', 'o', 'p']);
    reveal_strlit("4drop");
    assert("4drop"@ =~= seq!['4', 'd', 'r', 'o', 'p']);
    reveal_strlit("5drop");
    assert("5drop"@ =~= seq!['5', 'd', 'r', 'o', 'p']);
    reveal_strlit("dupd");
    assert("dupd"@ =~= seq!['d', 'u', 'p', 'd']);
    reveal_strlit("swapd");
    assert("swapd"@ =~= seq!['s', 'w', 'a', 'p', 'd']);
    reveal_strlit("overd");
    assert("overd"@ =~= seq!['o', 'v', 'e', 'r', 'd']);
    reveal_strlit("spin");
    assert("spin"@ =~= seq!['s', 'p', 'i', 'n']);
    reveal_strlit("4spin");
    assert("4spin"@ =~= seq!['4', 's', 'p', 'i', 'n']);
    reveal_strlit("rotd");
    assert("rotd"@ =~= seq!['r', 'o', 't', 'd']);
    reveal_strlit("-rotd");
    assert("-rotd"@ =~= seq!['-', 'r', 'o', 't', 'd']);
    reveal_strlit("nipd");
    assert("nipd"@ =~= seq!['n', 'i', 'p', 'd']);
    reveal_strlit("2nipd");
    assert("2nipd"@ =~= seq!['2', 'n', 'i', 'p', 'd']);
    reveal_strlit("3nipd");
    assert("3nipd"@ =~= seq!['3', 'n', 'i', 'p', 'd']);
    reveal_strlit("2dup");
    assert("2dup"@ =~= seq!['2', 'd', 'u', 'p']);
    reveal_strlit("2dupd");
    assert("2dupd"@ =~= seq!['2', 'd', 'u', 'p', 'd']);
    reveal_strlit("3dup");
    assert("3dup"@ =~= seq!['3', 'd', 'u', 'p']);
    reveal_strlit("2over");
    assert("2over"@ =~= seq!['2', 'o', 'v', 'e', 'r']);
    reveal_strlit("pick");
    assert("pick"@ =~= seq!['p', 'i', 'c', 'k']);
    reveal_strlit("call");
    assert("call"@ =~= seq!['c', 'a', 'l', 'l']);
    reveal_strlit("apply");
    assert("apply"@ =~= seq!['a', 'p', 'p', 'l', 'y']);
    reveal_strlit("dip");
    assert("dip"@ =~= seq!['d', 'i', 'p']);
    reveal_strlit("if");
    assert("if"@ =~= seq!['i', 'f']);
    reveal_strlit("clear");
    assert("clear"@ =~= seq!['c', 'l', 'e', 'a', 'r']);
    reveal_strlit("+");
    assert("+"@ =~= seq!['+']);
    reveal_strlit("-");
    assert("-"@ =~= seq!['-']);
    reveal_strlit("*");
    assert("*"@ =~= seq!['*']);
    reveal_strlit("/");
    assert("/"@ =~= seq!['/']);
    reveal_strlit("<");
    assert("<"@ =~= seq!['<']);
    reveal_strlit(">");
    assert(">"@ =~= seq!['>']);
    reveal_strlit("==");
    assert("=="@ =~= seq!['=', '=']);
    reveal_strlit("!");
    assert("!"@ =~= seq!['!']);
    reveal_strlit("?");
    assert("?"@ =~= seq!['?']);
    assert("-"@[0] != "+"@[0]);
    assert("-"@[0] != "*"@[0]);
    assert("-"@[0] != "/"@[0]);
    assert("-"@[0] != "<"@[0]);
    assert("-"@[0] != ">"@[0]);
    assert("-"@[0] != "!"@[0]);
    assert("-"@[0] != "?"@[0]);
}

proof fn lemma_word_star_distinct()
    ensures
        "*"@ != "dup"@,
        "*"@ != "drop"@,
        "*"@ != "swap"@,
        "*"@ != "over"@,
        "*"@ != "rot"@,
        "*"@ != "-rot"@,
        "*"@ != "nip"@,
        "*"@ != "2nip"@,
        "*"@ != "3nip"@,
        "*"@ != "4nip"@,
        "*"@ != "5nip"@,
        "*"@ != "2drop"@,
        "*"@ != "3drop"@,
        "*"@ != "4drop"@,
        "*"@ != "5drop"@,
        "*"@ != "dupd"@,
        "*"@ != "swapd"@,
        "*"@ != "overd"@,
        "*"@ != "spin"@,
        "*"@ != "4spin"@,
        "*"@ != "rotd"@,
        "*"@ != "-rotd"@,
        "*"@ != "nipd"@,
        "*"@ != "2nipd"@,
        "*"@ != "3nipd"@,
        "*"@ != "2dup"@,
        "*"@ != "2dupd"@,
        "*"@ != "3dup"@,
        "*"@ != "2over"@,
        "*"@ != "pick"@,
        "*"@ != "call"@,
        "*"@ != "apply"@,
        "*"@ != "dip"@,
        "*"@ != "if"@,
        "*"@ != "clear"@,
        "*"@ != "+"@,
        "*"@ != "-"@,
        "*"@ != "/"@,
        "*"@ != "<"@,
        "*"@ != ">"@,
        "*"@ != "=="@,
        "*"@ != "!"@,
        "*"@ != "?"@,
{
    reveal_strlit("dup");
    assert("dup"@ =~= seq!['d', 'u', 'p']);
    reveal_strlit("drop");
    assert("drop"@ =~= seq!['d', 'r', 'o', 'p']);
    reveal_strlit("swap");
    assert("swap"@ =~= seq!['s', 'w', 'a', 'p']);
    reveal_strlit("over");
    assert("over"@ =~= seq!['o', 'v', 'e', 'r']);
    reveal_strlit("rot");
    assert("rot"@ =~= seq!['r', 'o', 't']);
    reveal_strlit("-rot");
    assert("-rot"@ =~= seq!['-', 'r', 'o', 't']);
    reveal_strlit("nip");
    assert("nip"@ =~= seq!['n', 'i', 'p']);
    reveal_strlit("2nip");
    assert("2nip"@ =~= seq!['2', 'n', 'i', 'p']);
    reveal_strlit("3nip");
    assert("3nip"@ =~= seq!['3', 'n', 'i', 'p']);
    reveal_strlit("4nip");
    assert("4nip"@ =~= seq!['4', 'n', 'i', 'p']);
    reveal_strlit("5nip");
    assert("5nip"@ =~= seq!['5', 'n', 'i', 'p']);
    reveal_strlit("2drop");
    assert("2drop"@ =~= seq!['2', 'd', 'r', 'o', 'p']);
    reveal_strlit("3drop");
    assert("3drop"@ =~= seq!['3', 'd', 'r', 'o', 'p']);
    reveal_strlit("4drop");
    assert("4drop"@ =~= seq!['4', 'd', 'r', 'o', 'p']);
    reveal_strlit("5drop");
    assert("5drop"@ =~= seq!['5', 'd', 'r', 'o', 'p']);
    reveal_strlit("dupd");
    assert("dupd"@ =~= seq!['d', 'u', 'p', 'd']);
    reveal_strlit("swapd");
    assert("swapd"@ =~= seq!['s', 'w', 'a', 'p', 'd']);
    reveal_strlit("overd");
    assert("overd"@ =~= seq!['o', 'v', 'e', 'r', 'd']);
    reveal_strlit("spin");
    assert("spin"@ =~= seq!['s', 'p', 'i', 'n']);
    reveal_strlit("4spin");
    assert("4spin"@ =~= seq!['4', 's', 'p', 'i', 'n']);
    reveal_strlit("rotd");
    assert("rotd"@ =~= seq!['r', 'o', 't', 'd']);
    reveal_strlit("-rotd");
    assert("-rotd"@ =~= seq!['-', 'r', 'o', 't', 'd']);
    reveal_strlit("nipd");
    assert("nipd"@ =~= seq!['n', 'i', 'p', 'd']);
    reveal_strlit("2nipd");
    assert("2nipd"@ =~= seq!['2', 'n', 'i', 'p', 'd']);
    reveal_strlit("3nipd");
    assert("3nipd"@ =~= seq!['3', 'n', 'i', 'p', 'd']);
    reveal_strlit("2dup");
    assert("2dup"@ =~= seq!['2', 'd', 'u', 'p']);
    reveal_strlit("2dupd");
    assert("2dupd"@ =~= seq!['2', 'd', 'u', 'p', 'd']);
    reveal_strlit("3dup");
    assert("3dup"@ =~= seq!['3', 'd', 'u', 'p']);
    reveal_strlit("2over");
    assert("2over"@ =~= seq!['2', 'o', 'v', 'e', 'r']);
    reveal_strlit("pick");
    assert("pick"@ =~= seq!['p', 'i', 'c', 'k']);
    reveal_strlit("call");
    assert("call"@ =~= seq!['c', 'a', 'l', 'l']);
    reveal_strlit("apply");
    assert("apply"@ =~= seq!['a', 'p', 'p', 'l', 'y']);
    reveal_strlit("dip");
    assert("dip"@ =~= seq!['d', 'i', 'p']);
    reveal_strlit("if");
    assert("if"@ =~= seq!['i', 'f']);
    reveal_strlit("clear");
    assert("clear"@ =~= seq!['c', 'l', 'e', 'a', 'r']);
    reveal_strlit("+");
    assert("+"@ =~= seq!['+']);
    reveal_strlit("-");
    assert("-"@ =~= seq!['-']);
    reveal_strlit("*");
    assert("*"@ =~= seq!['*']);
    reveal_strlit("/");
    assert("/"@ =~= seq!['/']);
    reveal_strlit("<");
    assert("<"@ =~= seq!['<']);
    reveal_strlit(">");
    assert(">"@ =~= seq!['>']);
    reveal_strlit("==");
    assert("=="@ =~= seq!['=', '=']);
    reveal_strlit("!");
    assert("!"@ =~= seq!['!']);
    reveal_strlit("?");
    assert("?"@ =~= seq!['?']);
    assert("*"@[0] != "+"@[0]);
    assert("*"@[0] != "-"@[0]);
    assert("*"@[0] != "/"@[0]);
    assert("*"@[0] != "<"@[0]);
    assert("*"@[0] != ">"@[0]);
    assert("*"@[0] != "!"@[0]);
    assert("*"@[0] != "?"@[0]);
}

proof fn lemma_word_slash_distinct()
    ensures
        "/"@ != "dup"@,
        "/"@ != "drop"@,
        "/"@ != "swap"@,
        "/"@ != "over"@,
        "/"@ != "rot"@,
        "/"@ != "-rot"@,
        "/"@ != "nip"@,
        "/"@ != "2nip"@,
        "/"@ != "3nip"@,
        "/"@ != "4nip"@,
        "/"@ != "5nip"@,
        "/"@ != "2drop"@,
        "/"@ != "3drop"@,
        "/"@ != "4drop"@,
        "/"@ != "5drop"@,
        "/"@ != "dupd"@,
        "/"@ != "swapd"@,
        "/"@ != "overd"@,
        "/"@ != "spin"@,
        "/"@ != "4spin"@,
        "/"@ != "rotd"@,
        "/"@ != "-rotd"@,
        "/"@ != "nipd"@,
        "/"@ != "2nipd"@,
        "/"@ != "3nipd"@,
        "/"@ != "2dup"@,
        "/"@ != "2dupd"@,
        "/"@ != "3dup"@,
        "/"@ != "2over"@,
        "/"@ != "pick"@,
        "/"@ != "call"@,
        "/"@ != "apply"@,
        "/"@ != "dip"@,
        "/"@ != "if"@,
        "/"@ != "clear"@,
        "/"@ != "+"@,
        "/"@ != "-"@,
        "/"@ != "*"@,
        "/"@ != "<"@,
        "/"@ != ">"@,
        "/"@ != "=="@,
        "/"@ != "!"@,
        "/"@ != "?"@,
{
    reveal_strlit("dup");
    assert("dup"@ =~= seq!['d', 'u', 'p']);
    reveal_strlit("drop");
    assert("drop"@ =~= seq!['d', 'r', 'o', 'p']);
    reveal_strlit("swap");
    assert("swap"@ =~= seq!['s', 'w', 'a', 'p']);
    reveal_strlit("over");
    assert("over"@ =~= seq!['o', 'v', 'e', 'r']);
    reveal_strlit("rot");
    assert("rot"@ =~= seq!['r', 'o', 't']);
    reveal_strlit("-rot");
    assert("-rot"@ =~= seq!['-', 'r', 'o', 't']);
    reveal_strlit("nip");
    assert("nip"@ =~= seq!['n', 'i', 'p']);
    reveal_strlit("2nip");
    assert("2nip"@ =~= seq!['2', 'n', 'i', 'p']);
    reveal_strlit("3nip");
    assert("3nip"@ =~= seq!['3', 'n', 'i', 'p']);
    reveal_strlit("4nip");
    assert("4nip"@ =~= seq!['4', 'n', 'i', 'p']);
    reveal_strlit("5nip");
    assert("5nip"@ =~= seq!['5', 'n', 'i', 'p']);
    reveal_strlit("2drop");
    assert("2drop"@ =~= seq!['2', 'd', 'r', 'o', 'p']);
    reveal_strlit("3drop");
    assert("3drop"@ =~= seq!['3', 'd', 'r', 'o', 'p']);
    reveal_strlit("4drop");
    assert("4drop"@ =~= seq!['4', 'd', 'r', 'o', 'p']);
    reveal_strlit("5drop");
    assert("5drop"@ =~= seq!['5', 'd', 'r', 'o', 'p']);
    reveal_strlit("dupd");
    assert("dupd"@ =~= seq!['d', 'u', 'p', 'd']);
    reveal_strlit("swapd");
    assert("swapd"@ =~= seq!['s', 'w', 'a', 'p', 'd']);
    reveal_strlit("overd");
    assert("overd"@ =~= seq!['o', 'v', 'e', 'r', 'd']);
    reveal_strlit("spin");
    assert("spin"@ =~= seq!['s', 'p', 'i', 'n']);
    reveal_strlit("4spin");
    assert("4spin"@ =~= seq!['4', 's', 'p', 'i', 'n']);
    reveal_strlit("rotd");
    assert("rotd"@ =~= seq!['r', 'o', 't', 'd']);
    reveal_strlit("-rotd");
    assert("-rotd"@ =~= seq!['-', 'r', 'o', 't', 'd']);
    reveal_strlit("nipd");
    assert("nipd"@ =~= seq!['n', 'i', 'p', 'd']);
    reveal_strlit("2nipd");
    assert("2nipd"@ =~= seq!['2', 'n', 'i', 'p', 'd']);
    reveal_strlit("3nipd");
    assert("3nipd"@ =~= seq!['3', 'n', 'i', 'p', 'd']);
    reveal_strlit("2dup");
    assert("2dup"@ =~= seq!['2', 'd', 'u', 'p']);
    reveal_strlit("2dupd");
    assert("2dupd"@ =~= seq!['2', 'd', 'u', 'p', 'd']);
    reveal_strlit("3dup");
    assert("3dup"@ =~= seq!['3', 'd', 'u', 'p']);
    reveal_strlit("2over");
    assert("2over"@ =~= seq!['2', 'o', 'v', 'e', 'r']);
    reveal_strlit("pick");
    assert("pick"@ =~= seq!['p', 'i', 'c', 'k']);
    reveal_strlit("call");
    assert("call"@ =~= seq!['c', 'a', 'l', 'l']);
    reveal_strlit("apply");
    assert("apply"@ =~= seq!['a', 'p', 'p', 'l', 'y']);
    reveal_strlit("dip");
    assert("dip"@ =~= seq!['d', 'i', 'p']);
    reveal_strlit("if");
    assert("if"@ =~= seq!['i', 'f']);
    reveal_strlit("clear");
    assert("clear"@ =~= seq!['c', 'l', 'e', 'a', 'r']);
    reveal_strlit("+");
    assert("+"@ =~= seq!['+']);
    reveal_strlit("-");
    assert("-"@ =~= seq!['-']);
    reveal_strlit("*");
    assert("*"@ =~= seq!['*']);
    reveal_strlit("/");
    assert("/"@ =~= seq!['/']);
    reveal_strlit("<");
    assert("<"@ =~= seq!['<']);
    reveal_strlit(">");
    assert(">"@ =~= seq!['>']);
    reveal_strlit("==");
    assert("=="@ =~= seq!['=', '=']);
    reveal_strlit("!");
    assert("!"@ =~= seq!['!']);
    reveal_strlit("?");
    assert("?"@ =~= seq!['?']);
    assert("/"@[0] != "+"@[0]);
    assert("/"@[0] != "-"@[0]);
    assert("/"@[0] != "*"@[0]);
    assert("/"@[0] != "<"@[0]);
    assert("/"@[0] != ">"@[0]);
    assert("/"@[0] != "!"@[0]);
    assert("/"@[0] != "?"@[0]);
}

proof fn lemma_word_less_distinct()
    ensures
        "<"@ != "dup"@,
        "<"@ != "drop"@,
        "<"@ != "swap"@,
        "<"@ != "over"@,
        "<"@ != "rot"@,
        "<"@ != "-rot"@,
        "<"@ != "nip"@,
        "<"@ != "2nip"@,
        "<"@ != "3nip"@,
        "<"@ != "4nip"@,
        "<"@ != "5nip"@,
        "<"@ != "2drop"@,
        "<"@ != "3drop"@,
        "<"@ != "4drop"@,
        "<"@ != "5drop"@,
        "<"@ != "dupd"@,
        "<"@ != "swapd"@,
        "<"@ != "overd"@,
        "<"@ != "spin"@,
        "<"@ != "4spin"@,
        "<"@ != "rotd"@,
        "<"@ != "-rotd"@,
        "<"@ != "nipd"@,
        "<"@ != "2nipd"@,
        "<"@ != "3nipd"@,
        "<"@ != "2dup"@,
        "<"@ != "2dupd"@,
        "<"@ != "3dup"@,
        "<"@ != "2over"@,
        "<"@ != "pick"@,
        "<"@ != "call"@,
        "<"@ != "apply"@,
        "<"@ != "dip"@,
        "<"@ != "if"@,
        "<"@ != "clear"@,
        "<"@ != "+"@,
        "<"@ != "-"@,
        "<"@ != "*"@,
        "<"@ != "/"@,
        "<"@ != ">"@,
        "<"@ != "=="@,
        "<"@ != "!"@,
        "<"@ != "?"@,
{
    reveal_strlit("dup");
    assert("dup"@ =~= seq!['d', 'u', 'p']);
    reveal_strlit("drop");
    assert("drop"@ =~= seq!['d', 'r', 'o', 'p']);
    reveal_strlit("swap");
    assert("swap"@ =~= seq!['s', 'w', 'a', 'p']);
    reveal_strlit("over");
    assert("over"@ =~= seq!['o', 'v', 'e', 'r']);
    reveal_strlit("rot");
    assert("rot"@ =~= seq!['r', 'o', 't']);
    reveal_strlit("-rot");
    assert("-rot"@ =~= seq!['-', 'r', 'o', 't']);
    reveal_strlit("nip");
    assert("nip"@ =~= seq!['n', 'i', 'p']);
    reveal_strlit("2nip");
    assert("2nip"@ =~= seq!['2', 'n', 'i', 'p']);
    reveal_strlit("3nip");
    assert("3nip"@ =~= seq!['3', 'n', 'i', 'p']);
    reveal_strlit("4nip");
    assert("4nip"@ =~= seq!['4', 'n', 'i', 'p']);
    reveal_strlit("5nip");
    assert("5nip"@ =~= seq!['5', 'n', 'i', 'p']);
    reveal_strlit("2drop");
    assert("2drop"@ =~= seq!['2', 'd', 'r', 'o', 'p']);
    reveal_strlit("3drop");
    assert("3drop"@ =~= seq!['3', 'd', 'r', 'o', 'p']);
    reveal_strlit("4drop");
    assert("4drop"@ =~= seq!['4', 'd', 'r', 'o', 'p']);
    reveal_strlit("5drop");
    assert("5drop"@ =~= seq!['5', 'd', 'r', 'o', 'p']);
    reveal_strlit("dupd");
    assert("dupd"@ =~= seq!['d', 'u', 'p', 'd']);
    reveal_strlit("swapd");
    assert("swapd"@ =~= seq!['s', 'w', 'a', 'p', 'd']);
    reveal_strlit("overd");
    assert("overd"@ =~= seq!['o', 'v', 'e', 'r', 'd']);
    reveal_strlit("spin");
    assert("spin"@ =~= seq!['s', 'p', 'i', 'n']);
    reveal_strlit("4spin");
    assert("4spin"@ =~= seq!['4', 's', 'p', 'i', 'n']);
    reveal_strlit("rotd");
    assert("rotd"@ =~= seq!['r', 'o', 't', 'd']);
    reveal_strlit("-rotd");
    assert("-rotd"@ =~= seq!['-', 'r', 'o', 't', 'd']);
    reveal_strlit("nipd");
    assert("nipd"@ =~= seq!['n', 'i', 'p', 'd']);
    reveal_strlit("2nipd");
    assert("2nipd"@ =~= seq!['2', 'n', 'i', 'p', 'd']);
    reveal_strlit("3nipd");
    assert("3nipd"@ =~= seq!['3', 'n', 'i', 'p', 'd']);
    reveal_strlit("2dup");
    assert("2dup"@ =~= seq!['2', 'd', 'u', 'p']);
    reveal_strlit("2dupd");
    assert("2dupd"@ =~= seq!['2', 'd', 'u', 'p', 'd']);
    reveal_strlit("3dup");
    assert("3dup"@ =~= seq!['3', 'd', 'u', 'p']);
    reveal_strlit("2over");
    assert("2over"@ =~= seq!['2', 'o', 'v', 'e', 'r']);
    reveal_strlit("pick");
    assert("pick"@ =~= seq!['p', 'i', 'c', 'k']);
    reveal_strlit("call");
    assert("call"@ =~= seq!['c', 'a', 'l', 'l']);
    reveal_strlit("apply");
    assert("apply"@ =~= seq!['a', 'p', 'p', 'l', 'y']);
    reveal_strlit("dip");
    assert("dip"@ =~= seq!['d', 'i', 'p']);
    reveal_strlit("if");
    assert("if"@ =~= seq!['i', 'f']);
    reveal_strlit("clear");
    assert("clear"@ =~= seq!['c', 'l', 'e', 'a', 'r']);
    reveal_strlit("+");
    assert("+"@ =~= seq!['+']);
    reveal_strlit("-");
    assert("-"@ =~= seq!['-']);
    reveal_strlit("*");
    assert("*"@ =~= seq!['*']);
    reveal_strlit("/");
    assert("/"@ =~= seq!['/']);
    reveal_strlit("<");
    assert("<"@ =~= seq!['<']);
    reveal_strlit(">");
    assert(">"@ =~= seq!['>']);
    reveal_strlit("==");
    assert("=="@ =~= seq!['=', '=']);
    reveal_strlit("!");
    assert("!"@ =~= seq!['!']);
    reveal_strlit("?");
    assert("?"@ =~= seq!['?']);
    assert("<"@[0] != "+"@[0]);
    assert("<"@[0] != "-"@[0]);
    assert("<"@[0] != "*"@[0]);
    assert("<"@[0] != "/"@[0]);
    assert("<"@[0] != ">"@[0]);
    assert("<"@[0] != "!"@[0]);
    assert("<"@[0] != "?"@[0]);
}

proof fn lemma_word_greater_distinct()
    ensures
        ">"@ != "dup"@,
        ">"@ != "drop"@,
        ">"@ != "swap"@,
        ">"@ != "over"@,
        ">"@ != "rot"@,
        ">"@ != "-rot"@,
        ">"@ != "nip"@,
        ">"@ != "2nip"@,
        ">"@ != "3nip"@,
        ">"@ != "4nip"@,
        ">"@ != "5nip"@,
        ">"@ != "2drop"@,
        ">"@ != "3drop"@,
        ">"@ != "4drop"@,
        ">"@ != "5drop"@,
        ">"@ != "dupd"@,
        ">"@ != "swapd"@,
        ">"@ != "overd"@,
        ">"@ != "spin"@,
        ">"@ != "4spin"@,
        ">"@ != "rotd"@,
        ">"@ != "-rotd"@,
        ">"@ != "nipd"@,
        ">"@ != "2nipd"@,
        ">"@ != "3nipd"@,
        ">"@ != "2dup"@,
        ">"@ != "2dupd"@,
        ">"@ != "3dup"@,
        ">"@ != "2over"@,
        ">"@ != "pick"@,
        ">"@ != "call"@,
        ">"@ != "apply"@,
        ">"@ != "dip"@,
        ">"@ != "if"@,
        ">"@ != "clear"@,
        ">"@ != "+"@,
        ">"@ != "-"@,
        ">"@ != "*"@,
        ">"@ != "/"@,
        ">"@ != "<"@,
        ">"@ != "=="@,
        ">"@ != "!"@,
        ">"@ != "?"@,
{
    reveal_strlit("dup");
    assert("dup"@ =~= seq!['d', 'u', 'p']);
    reveal_strlit("drop");
    assert("drop"@ =~= seq!['d', 'r', 'o', 'p']);
    reveal_strlit("swap");
    assert("swap"@ =~= seq!['s', 'w', 'a', 'p']);
    reveal_strlit("over");
    assert("over"@ =~= seq!['o', 'v', 'e', 'r']);
    reveal_strlit("rot");
    assert("rot"@ =~= seq!['r', 'o', 't']);
    reveal_strlit("-rot");
    assert("-rot"@ =~= seq!['-', 'r', 'o', 't']);
    reveal_strlit("nip");
    assert("nip"@ =~= seq!['n', 'i', 'p']);
    reveal_strlit("2nip");
    assert("2nip"@ =~= seq!['2', 'n', 'i', 'p']);
    reveal_strlit("3nip");
    assert("3nip"@ =~= seq!['3', 'n', 'i', 'p']);
    reveal_strlit("4nip");
    assert("4nip"@ =~= seq!['4', 'n', 'i', 'p']);
    reveal_strlit("5nip");
    assert("5nip"@ =~= seq!['5', 'n', 'i', 'p']);
    reveal_strlit("2drop");
    assert("2drop"@ =~= seq!['2', 'd', 'r', 'o', 'p']);
    reveal_strlit("3drop");
    assert("3drop"@ =~= seq!['3', 'd', 'r', 'o', 'p']);
    reveal_strlit("4drop");
    assert("4drop"@ =~= seq!['4', 'd', 'r', 'o', 'p']);
    reveal_strlit("5drop");
    assert("5drop"@ =~= seq!['5', 'd', 'r', 'o', 'p']);
    reveal_strlit("dupd");
    assert("dupd"@ =~= seq!['d', 'u', 'p', 'd']);
    reveal_strlit("swapd");
    assert("swapd"@ =~= seq!['s', 'w', 'a', 'p', 'd']);
    reveal_strlit("overd");
    assert("overd"@ =~= seq!['o', 'v', 'e', 'r', 'd']);
    reveal_strlit("spin");
    assert("spin"@ =~= seq!['s', 'p', 'i', 'n']);
    reveal_strlit("4spin");
    assert("4spin"@ =~= seq!['4', 's', 'p', 'i', 'n']);
    reveal_strlit("rotd");
    assert("rotd"@ =~= seq!['r', 'o', 't', 'd']);
    reveal_strlit("-rotd");
    assert("-rotd"@ =~= seq!['-', 'r', 'o', 't', 'd']);
    reveal_strlit("nipd");
    assert("nipd"@ =~= seq!['n', 'i', 'p', 'd']);
    reveal_strlit("2nipd");
    assert("2nipd"@ =~= seq!['2', 'n', 'i', 'p', 'd']);
    reveal_strlit("3nipd");
    assert("3nipd"@ =~= seq!['3', 'n', 'i', 'p', 'd']);
    reveal_strlit("2dup");
    assert("2dup"@ =~= seq!['2', 'd', 'u', 'p']);
    reveal_strlit("2dupd");
    assert("2dupd"@ =~= seq!['2', 'd', 'u', 'p', 'd']);
    reveal_strlit("3dup");
    assert("3dup"@ =~= seq!['3', 'd', 'u', 'p']);
    reveal_strlit("2over");
    assert("2over"@ =~= seq!['2', 'o', 'v', 'e', 'r']);
    reveal_strlit("pick");
    assert("pick"@ =~= seq!['p', 'i', 'c', 'k']);
    reveal_strlit("call");
    assert("call"@ =~= seq!['c', 'a', 'l', 'l']);
    reveal_strlit("apply");
    assert("apply"@ =~= seq!['a', 'p', 'p', 'l', 'y']);
    reveal_strlit("dip");
    assert("dip"@ =~= seq!['d', 'i', 'p']);
    reveal_strlit("if");
    assert("if"@ =~= seq!['i', 'f']);
    reveal_strlit("clear");
    assert("clear"@ =~= seq!['c', 'l', 'e', 'a', 'r']);
    reveal_strlit("+");
    assert("+"@ =~= seq!['+']);
    reveal_strlit("-");
    assert("-"@ =~= seq!['-']);
    reveal_strlit("*");
    assert("*"@ =~= seq!['*']);
    reveal_strlit("/");
    assert("/"@ =~= seq!['/']);
    reveal_strlit("<");
    assert("<"@ =~= seq!['<']);
    reveal_strlit(">");
    assert(">"@ =~= seq!['>']);
    reveal_strlit("==");
    assert("=="@ =~= seq!['=', '=']);
    reveal_strlit("!");
    assert("!"@ =~= seq!['!']);
    reveal_strlit("?");
    assert("?"@ =~= seq!['?']);
    assert(">"@[0] != "+"@[0]);
    assert(">"@[0] != "-"@[0]);
    assert(">"@[0] != "*"@[0]);
    assert(">"@[0] != "/"@[0]);
    assert(">"@[0] != "<"@[0]);
    assert(">"@[0] != "!"@[0]);
    assert(">"@[0] != "?"@[0]);
}

proof fn lemma_word_bang_distinct()
    ensures
        "!"@ != "dup"@,
        "!"@ != "drop"@,
        "!"@ != "swap"@,
        "!"@ != "over"@,
        "!"@ != "rot"@,
        "!"@ != "-rot"@,
        "!"@ != "nip"@,
        "!"@ != "2nip"@,
        "!"@ != "3nip"@,
        "!"@ != "4nip"@,
        "!"@ != "5nip"@,
        "!"@ != "2drop"@,
        "!"@ != "3drop"@,
        "!"@ != "4drop"@,
        "!"@ != "5drop"@,
        "!"@ != "dupd"@,
        "!"@ != "swapd"@,
        "!"@ != "overd"@,
        "!"@ != "spin"@,
        "!"@ != "4spin"@,
        "!"@ != "rotd"@,
        "!"@ != "-rotd"@,
        "!"@ != "nipd"@,
        "!"@ != "2nipd"@,
        "!"@ != "3nipd"@,
        "!"@ != "2dup"@,
        "!"@ != "2dupd"@,
        "!"@ != "3dup"@,
        "!"@ != "2over"@,
        "!"@ != "pick"@,
        "!"@ != "call"@,
        "!"@ != "apply"@,
        "!"@ != "dip"@,
        "!"@ != "if"@,
        "!"@ != "clear"@,
        "!"@ != "+"@,
        "!"@ != "-"@,
        "!"@ != "*"@,
        "!"@ != "/"@,
        "!"@ != "<"@,
        "!"@ != ">"@,
        "!"@ != "=="@,
        "!"@ != "?"@,
{
    reveal_strlit("dup");
    assert("dup"@ =~= seq!['d', 'u', 'p']);
    reveal_strlit("drop");
    assert("drop"@ =~= seq!['d', 'r', 'o', 'p']);
    reveal_strlit("swap");
    assert("swap"@ =~= seq!['s', 'w', 'a', 'p']);
    reveal_strlit("over");
    assert("over"@ =~= seq!['o', 'v', 'e', 'r']);
    reveal_strlit("rot");
    assert("rot"@ =~= seq!['r', 'o', 't']);
    reveal_strlit("-rot");
    assert("-rot"@ =~= seq!['-', 'r', 'o', 't']);
    reveal_strlit("nip");
    assert("nip"@ =~= seq!['n', 'i', 'p']);
    reveal_strlit("2nip");
    assert("2nip"@ =~= seq!['2', 'n', 'i', 'p']);
    reveal_strlit("3nip");
    assert("3nip"@ =~= seq!['3', 'n', 'i', 'p']);
    reveal_strlit("4nip");
    assert("4nip"@ =~= seq!['4', 'n', 'i', 'p']);
    reveal_strlit("5nip");
    assert("5nip"@ =~= seq!['5', 'n', 'i', 'p']);
    reveal_strlit("2drop");
    assert("2drop"@ =~= seq!['2', 'd', 'r', 'o', 'p']);
    reveal_strlit("3drop");
    assert("3drop"@ =~= seq!['3', 'd', 'r', 'o', 'p']);
    reveal_strlit("4drop");
    assert("4drop"@ =~= seq!['4', 'd', 'r', 'o', 'p']);
    reveal_strlit("5drop");
    assert("5drop"@ =~= seq!['5', 'd', 'r', 'o', 'p']);
    reveal_strlit("dupd");
    assert("dupd"@ =~= seq!['d', 'u', 'p', 'd']);
    reveal_strlit("swapd");
    assert("swapd"@ =~= seq!['s', 'w', 'a', 'p', 'd']);
    reveal_strlit("overd");
    assert("overd"@ =~= seq!['o', 'v', 'e', 'r', 'd']);
    reveal_strlit("spin");
    assert("spin"@ =~= seq!['s', 'p', 'i', 'n']);
    reveal_strlit("4spin");
    assert("4spin"@ =~= seq!['4', 's', 'p', 'i', 'n']);
    reveal_strlit("rotd");
    assert("rotd"@ =~= seq!['r', 'o', 't', 'd']);
    reveal_strlit("-rotd");
    assert("-rotd"@ =~= seq!['-', 'r', 'o', 't', 'd']);
    reveal_strlit("nipd");
    assert("nipd"@ =~= seq!['n', 'i', 'p', 'd']);
    reveal_strlit("2nipd");
    assert("2nipd"@ =~= seq!['2', 'n', 'i', 'p', 'd']);
    reveal_strlit("3nipd");
    assert("3nipd"@ =~= seq!['3', 'n', 'i', 'p', 'd']);
    reveal_strlit("2dup");
    assert("2dup"@ =~= seq!['2', 'd', 'u', 'p']);
    reveal_strlit("2dupd");
    assert("2dupd"@ =~= seq!['2', 'd', 'u', 'p', 'd']);
    reveal_strlit("3dup");
    assert("3dup"@ =~= seq!['3', 'd', 'u', 'p']);
    reveal_strlit("2over");
    assert("2over"@ =~= seq!['2', 'o', 'v', 'e', 'r']);
    reveal_strlit("pick");
    assert("pick"@ =~= seq!['p', 'i', 'c', 'k']);
    reveal_strlit("call");
    assert("call"@ =~= seq!['c', 'a', 'l', 'l']);
    reveal_strlit("apply");
    assert("apply"@ =~= seq!['a', 'p', 'p', 'l', 'y']);
    reveal_strlit("dip");
    assert("dip"@ =~= seq!['d', 'i', 'p']);
    reveal_strlit("if");
    assert("if"@ =~= seq!['i', 'f']);
    reveal_strlit("clear");
    assert("clear"@ =~= seq!['c', 'l', 'e', 'a', 'r']);
    reveal_strlit("+");
    assert("+"@ =~= seq!['+']);
    reveal_strlit("-");
    assert("-"@ =~= seq!['-']);
    reveal_strlit("*");
    assert("*"@ =~= seq!['*']);
    reveal_strlit("/");
    assert("/"@ =~= seq!['/']);
    reveal_strlit("<");
    assert("<"@ =~= seq!['<']);
    reveal_strlit(">");
    assert(">"@ =~= seq!['>']);
    reveal_strlit("==");
    assert("=="@ =~= seq!['=', '=']);
    reveal_strlit("!");
    assert("!"@ =~= seq!['!']);
    reveal_strlit("?");
    assert("?"@ =~= seq!['?']);
    assert("!"@[0] != "+"@[0]);
    assert("!"@[0] != "-"@[0]);
    assert("!"@[0] != "*"@[0]);
    assert("!"@[0] != "/"@[0]);
    assert("!"@[0] != "<"@[0]);
    assert("!"@[0] != ">"@[0]);
    assert("!"@[0] != "?"@[0]);
}

/// `a b +`, `a b -` and `a b *` on two integers leave their sum,
/// difference and product when it fits in `i64`; `a b <` and `a b >` leave
/// whether `a` is less or greater than `b` (when the words are the
/// kernel's).
pub proof fn law_integer_arithmetic(m: MachV, n: NodeV, w: Seq<char>, a: i64, b: i64, fuel: nat)
    requires
        w == "+"@ || w == "-"@ || w == "*"@ || w == "<"@ || w == ">"@,
        is_word(n, w),
        lookup_def(m.defs, w) is None,
    ensures
        ({
            let r = step(
                MachV { stack: m.stack.push(bare(DataV::Integer(a))).push(bare(DataV::Integer(b))), ..m },
                n,
                fuel,
            );
            let exact: int = if w == "+"@ { a + b } else if w == "-"@ { a - b } else { a * b };
            &&& (w == "<"@ ==> r == Ok::<MachV, ErrV>(MachV { stack: m.stack.push(bare(DataV::Boolean(a < b))), ..m }))
            &&& (w == ">"@ ==> r == Ok::<MachV, ErrV>(MachV { stack: m.stack.push(bare(DataV::Boolean(a > b))), ..m }))
            &&& ((w == "+"@ || w == "-"@ || w == "*"@) && i64::MIN <= exact <= i64::MAX ==> r == Ok::<
                MachV,
                ErrV,
            >(MachV { stack: m.stack.push(bare(DataV::Integer(exact as i64))), ..m }))
            &&& ((w == "+"@ || w == "-"@ || w == "*"@) && !(i64::MIN <= exact <= i64::MAX) ==> r is Err)
        }),
{
    lemma_word_plus_distinct();
    lemma_word_minus_distinct();
    lemma_word_star_distinct();
    lemma_word_less_distinct();
    lemma_word_greater_distinct();
    let s = m.stack.push(bare(DataV::Integer(a))).push(bare(DataV::Integer(b)));
    assert(s.subrange(0, s.len() - 2) =~= m.stack);
}

/// `a b /` with `b` not zero leaves the quotient `q` of Rust's division:
/// `a == q * b + r` with the remainder `r` smaller than `b` in size and of
/// `a`'s sign, when `q` fits; with `b` zero it fails with division by zero.
pub proof fn law_integer_division(m: MachV, n: NodeV, a: i64, b: i64, fuel: nat)
    requires
        is_word(n, "/"@),
        lookup_def(m.defs, "/"@) is None,
    ensures
        ({
            let r = step(
                MachV { stack: m.stack.push(bare(DataV::Integer(a))).push(bare(DataV::Integer(b))), ..m },
                n,
                fuel,
            );
            &&& (b == 0 ==> r == Err::<MachV, ErrV>(vm_err(VMErrV::DivisionByZero)))
            &&& (b != 0 && !(a == i64::MIN && b == -1) ==> (r matches Ok(m2) && m2.defs == m.defs
                && m2.stack.drop_last() == m.stack && (m2.stack.last().data matches DataV::Integer(q)
                && ({
                let rem = a - q * b;
                &&& (if rem >= 0 { rem } else { -rem }) < (if b >= 0 { b as int } else { -b })
                &&& (rem == 0 || (rem > 0) == (a > 0))
            }))))
        }),
{
    lemma_word_slash_distinct();
    let s = m.stack.push(bare(DataV::Integer(a))).push(bare(DataV::Integer(b)));
    assert(s.subrange(0, s.len() - 2) =~= m.stack);
    if b != 0 && !(a == i64::MIN && b == -1) {
        let aa: int = if a >= 0 { a as int } else { -a };
        let bb: int = if b >= 0 { b as int } else { -b };
        let q0 = aa / bb;
        let r0 = aa % bb;
        assert(aa == q0 * bb + r0 && 0 <= r0 < bb) by (nonlinear_arith)
            requires
                bb > 0,
                aa >= 0,
                q0 == aa / bb,
                r0 == aa % bb,
        ;
        assert(0 <= q0 <= aa) by (nonlinear_arith)
            requires
                bb >= 1,
                aa >= 0,
                q0 == aa / bb,
        ;
        let q = div_trunc(a as int, b as int);
        assert(a - q * b == (if a >= 0 { r0 } else { -r0 })) by (nonlinear_arith)
            requires
                aa == (if a >= 0 { a as int } else { -a }),
                bb == (if b >= 0 { b as int } else { -b }),
                aa == q0 * bb + r0,
                q == (if (a >= 0) == (b >= 0) { q0 } else { -q0 }),
        ;
        assert(i64::MIN <= q <= i64::MAX) by (nonlinear_arith)
            requires
                0 <= q0 <= aa,
                aa == (if a >= 0 { a as int } else { -a }),
                q == (if (a >= 0) == (b >= 0) { q0 } else { -q0 }),
                i64::MIN <= a <= i64::MAX,
                !(a == i64::MIN && b == -1),
                bb == (if b >= 0 { b as int } else { -b }),
                bb >= 1,
                b != 0,
                aa == q0 * bb + r0,
                r0 >= 0,
        ;
    }
}

/// `b !` leaves the negation of the boolean `b` (when `!` is the kernel's).
pub proof fn law_not(m: MachV, n: NodeV, b: bool, fuel: nat)
    requires
        is_word(n, "!"@),
        lookup_def(m.defs, "!"@) is None,
    ensures
        step(MachV { stack: m.stack.push(bare(DataV::Boolean(b))), ..m }, n, fuel) == Ok::<MachV, ErrV>(
            MachV { stack: m.stack.push(bare(DataV::Boolean(!b))), ..m },
        ),
{
    lemma_word_bang_distinct();
    let s = m.stack.push(bare(DataV::Boolean(b)));
    assert(s.subrange(0, s.len() - 1) =~= m.stack);
}


/// A literal node pushes its value, a quotation node pushes the function
/// of its body, and a definition adds the word without touching the stack.
pub proof fn law_literals_push(m: MachV, n: NodeV, fuel: nat)
    ensures
        n.kind matches KindV::Literal(v) ==> step(m, n, fuel) == Ok::<MachV, ErrV>(
            MachV { stack: m.stack.push(v), ..m },
        ),
        n.kind matches KindV::Quotation(body) ==> step(m, n, fuel) == Ok::<MachV, ErrV>(
            MachV { stack: m.stack.push(quotation_value(body)), ..m },
        ),
        n.kind matches KindV::Definition { name, body, .. } ==> step(m, n, fuel) == Ok::<
            MachV,
            ErrV,
        >(MachV { defs: m.defs.push((name, body)), ..m }),
{
}

} // verus!
