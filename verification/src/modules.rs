//! The modules built into the interpreter, and the words each defines.

use vstd::prelude::*;

use crate::errors::{CompErrV, CompilerError, ErrV, Error};
use crate::loader::strings_v;
use crate::text::{str_eq_lit, string_of};
use crate::types::{parse_sig_v, parse_type_sig, SigV, TypeSig};

verus! {

/// The key of the module `std/fs`.
pub const FS: &'static str = "std/fs";

/// The key of the module `std/_hashmaps`.
pub const HASHMAPS: &'static str = "std/_hashmaps";

/// The key of the module `std/_internals`.
pub const INTERNALS: &'static str = "std/_internals";

/// The key of the module `std/io`.
pub const IO: &'static str = "std/io";

/// The key of the module `std/kernel`.
pub const KERNEL_MODULE: &'static str = "std/kernel";

/// The key of the module `std/sandbox`.
pub const SANDBOX_MODULE: &'static str = "std/sandbox";

/// The key of the module `std/scanning`.
pub const SCANNING: &'static str = "std/scanning";

/// The key of the module `std/strings`.
pub const STRINGS: &'static str = "std/strings";

/// The key of the module `std/_vectors`.
pub const VECTORS: &'static str = "std/_vectors";

/// The words the module `std/fs` defines, in order.
pub open spec fn fs_words() -> Seq<Seq<char>> {
    seq!["rm"@, "truncate"@, "exists?"@, "rmdir"@, "ensure-dir"@, "touch"@, "ls"@]
}

fn fs_list() -> (v: Vec<String>)
    ensures
        strings_v(v@) == fs_words(),
{
    let mut v: Vec<String> = Vec::new();
    v.push(string_of("rm"));
    v.push(string_of("truncate"));
    v.push(string_of("exists?"));
    v.push(string_of("rmdir"));
    v.push(string_of("ensure-dir"));
    v.push(string_of("touch"));
    v.push(string_of("ls"));
    assert(strings_v(v@) =~= fs_words());
    v
}

/// The words the module `std/_hashmaps` defines, in order.
pub open spec fn hashmaps_words() -> Seq<Seq<char>> {
    seq!["<hashmap>"@, ">hashmap"@, ">vector"@, "is-hashmap?"@, "length"@, "get"@, "add!"@]
}

fn hashmaps_list() -> (v: Vec<String>)
    ensures
        strings_v(v@) == hashmaps_words(),
{
    let mut v: Vec<String> = Vec::new();
    v.push(string_of("<hashmap>"));
    v.push(string_of(">hashmap"));
    v.push(string_of(">vector"));
    v.push(string_of("is-hashmap?"));
    v.push(string_of("length"));
    v.push(string_of("get"));
    v.push(string_of("add!"));
    assert(strings_v(v@) =~= hashmaps_words());
    v
}

/// The words the module `std/_internals` defines, in order.
pub open spec fn internals_words() -> Seq<Seq<char>> {
    seq!["<function>"@, "<predeclare-function>"@]
}

fn internals_list() -> (v: Vec<String>)
    ensures
        strings_v(v@) == internals_words(),
{
    let mut v: Vec<String> = Vec::new();
    v.push(string_of("<function>"));
    v.push(string_of("<predeclare-function>"));
    assert(strings_v(v@) =~= internals_words());
    v
}

/// The words the module `std/io` defines, in order.
pub open spec fn io_words() -> Seq<Seq<char>> {
    seq!["write-file"@, "read-file"@, "<writer>"@, "<reader>"@, "file-path>>"@, "close"@, "write"@, "write-line"@, "write-lines"@, "flush"@, "read"@, "read-line"@, "read-lines"@, "<stdin>"@, "<stdout>"@, "<stderr>"@, "<string-reader>"@, "<string-writer>"@, "print"@, "println"@, "nl"@, "eprint"@, "eprintln"@, "enl"@, "."@, ".s"@]
}

fn io_list() -> (v: Vec<String>)
    ensures
        strings_v(v@) == io_words(),
{
    let mut v: Vec<String> = Vec::new();
    v.push(string_of("write-file"));
    v.push(string_of("read-file"));
    v.push(string_of("<writer>"));
    v.push(string_of("<reader>"));
    v.push(string_of("file-path>>"));
    v.push(string_of("close"));
    v.push(string_of("write"));
    v.push(string_of("write-line"));
    v.push(string_of("write-lines"));
    v.push(string_of("flush"));
    v.push(string_of("read"));
    v.push(string_of("read-line"));
    v.push(string_of("read-lines"));
    v.push(string_of("<stdin>"));
    v.push(string_of("<stdout>"));
    v.push(string_of("<stderr>"));
    v.push(string_of("<string-reader>"));
    v.push(string_of("<string-writer>"));
    v.push(string_of("print"));
    v.push(string_of("println"));
    v.push(string_of("nl"));
    v.push(string_of("eprint"));
    v.push(string_of("eprintln"));
    v.push(string_of("enl"));
    v.push(string_of("."));
    v.push(string_of(".s"));
    assert(strings_v(v@) =~= io_words());
    v
}

/// The ordinary words the module `std/kernel` defines, in order.
pub open spec fn kernel_words() -> Seq<Seq<char>> {
    seq!["<nop>"@, "<lit>"@, "dup"@, "swap"@, "rot"@, "drop"@, "clear"@, "stack-size"@, "+"@, "-"@, "*"@, "/"@, "=="@, "<"@, ">"@, "!"@, "?"@, ">r"@, "r>"@, "r@"@, "apply"@, "return"@, "stop"@, "bye"@, "jump"@, "jump-stack"@, "lit"@, "compile"@, "break"@, "continue"@]
}

/// The entries the module `std/kernel` adds to the operation table: its
/// ordinary words, then its three macros.
pub open spec fn kernel_ops() -> Seq<OpV> {
    plain_ops(kernel_words()) + seq![macro_op("loop"@), macro_op("uses:"@), macro_op("exports:"@)]
}

fn kernel_list() -> (v: Vec<String>)
    ensures
        strings_v(v@) == kernel_words(),
{
    let mut v: Vec<String> = Vec::new();
    v.push(string_of("<nop>"));
    v.push(string_of("<lit>"));
    v.push(string_of("dup"));
    v.push(string_of("swap"));
    v.push(string_of("rot"));
    v.push(string_of("drop"));
    v.push(string_of("clear"));
    v.push(string_of("stack-size"));
    v.push(string_of("+"));
    v.push(string_of("-"));
    v.push(string_of("*"));
    v.push(string_of("/"));
    v.push(string_of("=="));
    v.push(string_of("<"));
    v.push(string_of(">"));
    v.push(string_of("!"));
    v.push(string_of("?"));
    v.push(string_of(">r"));
    v.push(string_of("r>"));
    v.push(string_of("r@"));
    v.push(string_of("apply"));
    v.push(string_of("return"));
    v.push(string_of("stop"));
    v.push(string_of("bye"));
    v.push(string_of("jump"));
    v.push(string_of("jump-stack"));
    v.push(string_of("lit"));
    v.push(string_of("compile"));
    v.push(string_of("break"));
    v.push(string_of("continue"));
    assert(strings_v(v@) =~= kernel_words());
    v
}

/// The words the module `std/sandbox` defines, in order.
pub open spec fn sandbox_words() -> Seq<Seq<char>> {
    Seq::<Seq<char>>::empty()
}

fn sandbox_list() -> (v: Vec<String>)
    ensures
        strings_v(v@) == sandbox_words(),
{
    let mut v: Vec<String> = Vec::new();

    assert(strings_v(v@) =~= sandbox_words());
    v
}

/// The entries the module `std/scanning` adds to the operation table,
/// each with its type.
pub open spec fn scanning_ops() -> Seq<OpV> {
    seq![
        typed_op("scan-value"@, "( -- a )"@),
        typed_op("scan-value-list"@, "( a -- vec )"@),
        typed_op("scan-object-list"@, "( a -- vec )"@),
        typed_op("<consume-type-sig>"@, "( -- )"@),
    ]
}

/// The words the module `std/strings` defines, in order.
pub open spec fn strings_words() -> Seq<Seq<char>> {
    seq!["<string>"@, ">string"@, "utf8>string"@, "concat"@, "nth"@, ">utf8"@, "empty?"@, "in?"@, "starts-with?"@, "ends-with?"@, "index-of?"@, "length"@, "replace-all"@, "split"@, "split-all"@, "split-at"@, "split-whitespace"@, "lines"@, "strip-start"@, "strip-end"@, "substring"@, ">lowercase"@, ">uppercase"@]
}

fn strings_list() -> (v: Vec<String>)
    ensures
        strings_v(v@) == strings_words(),
{
    let mut v: Vec<String> = Vec::new();
    v.push(string_of("<string>"));
    v.push(string_of(">string"));
    v.push(string_of("utf8>string"));
    v.push(string_of("concat"));
    v.push(string_of("nth"));
    v.push(string_of(">utf8"));
    v.push(string_of("empty?"));
    v.push(string_of("in?"));
    v.push(string_of("starts-with?"));
    v.push(string_of("ends-with?"));
    v.push(string_of("index-of?"));
    v.push(string_of("length"));
    v.push(string_of("replace-all"));
    v.push(string_of("split"));
    v.push(string_of("split-all"));
    v.push(string_of("split-at"));
    v.push(string_of("split-whitespace"));
    v.push(string_of("lines"));
    v.push(string_of("strip-start"));
    v.push(string_of("strip-end"));
    v.push(string_of("substring"));
    v.push(string_of(">lowercase"));
    v.push(string_of(">uppercase"));
    assert(strings_v(v@) =~= strings_words());
    v
}

/// The words the module `std/_vectors` defines, in order.
pub open spec fn vectors_words() -> Seq<Seq<char>> {
    seq!["<vector>"@, "push!"@, "push-left!"@, "concat"@, "pop-left!"@, "pop!"@, "nth"@, "set-nth!"@, "length"@, "in?"@, "index-of?"@, "subvector"@, "join"@, "sort!"@]
}

fn vectors_list() -> (v: Vec<String>)
    ensures
        strings_v(v@) == vectors_words(),
{
    let mut v: Vec<String> = Vec::new();
    v.push(string_of("<vector>"));
    v.push(string_of("push!"));
    v.push(string_of("push-left!"));
    v.push(string_of("concat"));
    v.push(string_of("pop-left!"));
    v.push(string_of("pop!"));
    v.push(string_of("nth"));
    v.push(string_of("set-nth!"));
    v.push(string_of("length"));
    v.push(string_of("in?"));
    v.push(string_of("index-of?"));
    v.push(string_of("subvector"));
    v.push(string_of("join"));
    v.push(string_of("sort!"));
    assert(strings_v(v@) =~= vectors_words());
    v
}

/// A module: its key, the file it came from, and the words it defines,
/// each with its place in the operation table.
#[derive(Debug)]
pub struct Module {
    pub name: String,
    pub path: Option<String>,
    pub defined: Vec<(String, usize)>,
}

/// An entry of the operation table: the name of a built-in word, whether
/// it is a macro (run while the source is compiled), and its type when
/// one was given.
#[derive(Debug)]
pub struct Op {
    pub name: String,
    pub immediate: bool,
    pub type_sig: Option<TypeSig>,
}

/// Model of an entry of the operation table.
pub struct OpV {
    pub name: Seq<char>,
    pub immediate: bool,
    pub sig: Option<SigV>,
}

pub open spec fn op_v(o: Op) -> OpV {
    OpV {
        name: o.name@,
        immediate: o.immediate,
        sig: match o.type_sig {
            Some(t) => Some(t@),
            None => None,
        },
    }
}

pub open spec fn ops_v(t: Seq<Op>) -> Seq<OpV> {
    Seq::new(t.len(), |i: int| op_v(t[i]))
}

/// An ordinary word, without a type.
pub open spec fn plain_op(w: Seq<char>) -> OpV {
    OpV { name: w, immediate: false, sig: None }
}

/// A macro, without a type.
pub open spec fn macro_op(w: Seq<char>) -> OpV {
    OpV { name: w, immediate: true, sig: None }
}

pub open spec fn plain_ops(ws: Seq<Seq<char>>) -> Seq<OpV> {
    Seq::new(ws.len(), |i: int| plain_op(ws[i]))
}

/// The type written `text`, or none where `text` is no type.
pub open spec fn given_sig(text: Seq<char>) -> Option<SigV> {
    match parse_sig_v(text) {
        Ok(sig) => Some(sig),
        Err(_) => None,
    }
}

/// A word with the type written `text`, or without a type where `text`
/// does not parse.
pub open spec fn typed_op(w: Seq<char>, text: Seq<char>) -> OpV {
    OpV { name: w, immediate: false, sig: given_sig(text) }
}

/// The entries the built-in module `name` adds to the operation table, if
/// there is such a module.
pub open spec fn module_ops(name: Seq<char>) -> Option<Seq<OpV>> {
    if name == FS@ {
        Some(plain_ops(fs_words()))
    } else if name == HASHMAPS@ {
        Some(plain_ops(hashmaps_words()))
    } else if name == INTERNALS@ {
        Some(plain_ops(internals_words()))
    } else if name == IO@ {
        Some(plain_ops(io_words()))
    } else if name == KERNEL_MODULE@ {
        Some(kernel_ops())
    } else if name == SANDBOX_MODULE@ {
        Some(plain_ops(sandbox_words()))
    } else if name == SCANNING@ {
        Some(scanning_ops())
    } else if name == STRINGS@ {
        Some(plain_ops(strings_words()))
    } else if name == VECTORS@ {
        Some(plain_ops(vectors_words()))
    } else {
        None
    }
}

/// The words appended to an operation table of length `start`, each with
/// its place.
pub open spec fn placed(ops: Seq<OpV>, start: int) -> Seq<(Seq<char>, int)> {
    Seq::new(ops.len(), |i: int| (ops[i].name, start + i))
}

pub open spec fn defined_v(d: Seq<(String, usize)>) -> Seq<(Seq<char>, int)> {
    Seq::new(d.len(), |i: int| (d[i].0@, d[i].1 as int))
}

pub proof fn lemma_defined_push(d: Seq<(String, usize)>, x: (String, usize))
    ensures
        defined_v(d.push(x)) == defined_v(d).push((x.0@, x.1 as int)),
{
    assert forall|k: int| 0 <= k < d.len() implies defined_v(d.push(x))[k] == defined_v(d)[k] by {
        assert(d.push(x)[k] == d[k]);
    }
    assert(defined_v(d.push(x)) =~= defined_v(d).push((x.0@, x.1 as int)));
}

pub proof fn lemma_ops_push(t: Seq<Op>, o: Op)
    ensures
        ops_v(t.push(o)) == ops_v(t).push(op_v(o)),
{
    assert forall|k: int| 0 <= k < t.len() implies ops_v(t.push(o))[k] == ops_v(t)[k] by {
        assert(t.push(o)[k] == t[k]);
    }
    assert(ops_v(t.push(o)) =~= ops_v(t).push(op_v(o)));
}

/// Adds the entry `op` to the operation table and records its place under
/// its name.
fn push_entry(op_table: &mut Vec<Op>, table: &mut Vec<(String, usize)>, op: Op)
    requires
        old(op_table)@.len() < usize::MAX,
    ensures
        final(op_table)@.len() == old(op_table)@.len() + 1,
        ops_v(final(op_table)@) == ops_v(old(op_table)@).push(op_v(op)),
        defined_v(final(table)@) == defined_v(old(table)@).push((op.name@, old(op_table)@.len() as int)),
{
    let index = op_table.len();
    let name = op.name.clone();
    proof {
        lemma_ops_push(op_table@, op);
        lemma_defined_push(table@, (name, index));
    }
    op_table.push(op);
    table.push((name, index));
}

/// Adds the ordinary word `name` to the operation table.
fn push_op(op_table: &mut Vec<Op>, table: &mut Vec<(String, usize)>, name: &str)
    requires
        old(op_table)@.len() < usize::MAX,
    ensures
        final(op_table)@.len() == old(op_table)@.len() + 1,
        ops_v(final(op_table)@) == ops_v(old(op_table)@).push(plain_op(name@)),
        defined_v(final(table)@) == defined_v(old(table)@).push((name@, old(op_table)@.len() as int)),
{
    push_entry(op_table, table, Op { name: string_of(name), immediate: false, type_sig: None });
}

/// Adds the macro `name` to the operation table.
fn push_macro(op_table: &mut Vec<Op>, table: &mut Vec<(String, usize)>, name: &str)
    requires
        old(op_table)@.len() < usize::MAX,
    ensures
        final(op_table)@.len() == old(op_table)@.len() + 1,
        ops_v(final(op_table)@) == ops_v(old(op_table)@).push(macro_op(name@)),
        defined_v(final(table)@) == defined_v(old(table)@).push((name@, old(op_table)@.len() as int)),
{
    push_entry(op_table, table, Op { name: string_of(name), immediate: true, type_sig: None });
}

/// The type written `type_sig`; none where it does not parse.
fn parse_given_sig(type_sig: &str) -> (r: Option<TypeSig>)
    ensures
        match r {
            Some(sig) => given_sig(type_sig@) == Some(sig@),
            None => given_sig(type_sig@) is None,
        },
{
    match parse_type_sig(type_sig) {
        Ok(sig) => Some(sig),
        Err(_) => None,
    }
}

/// Adds the word `name` with the type written `type_sig` to the operation
/// table; where the type does not parse, the word has no type.
fn push_op_typed(op_table: &mut Vec<Op>, table: &mut Vec<(String, usize)>, name: &str, type_sig: &str)
    requires
        old(op_table)@.len() < usize::MAX,
    ensures
        final(op_table)@.len() == old(op_table)@.len() + 1,
        ops_v(final(op_table)@) == ops_v(old(op_table)@).push(typed_op(name@, type_sig@)),
        defined_v(final(table)@) == defined_v(old(table)@).push((name@, old(op_table)@.len() as int)),
{
    let sig = parse_given_sig(type_sig);
    push_entry(op_table, table, Op { name: string_of(name), immediate: false, type_sig: sig });
}

/// Adds the macro `name` with the type written `type_sig` to the operation
/// table; where the type does not parse, the macro has no type.
#[allow(dead_code)]
fn push_macro_typed(op_table: &mut Vec<Op>, table: &mut Vec<(String, usize)>, name: &str, type_sig: &str)
    requires
        old(op_table)@.len() < usize::MAX,
    ensures
        final(op_table)@.len() == old(op_table)@.len() + 1,
        ops_v(final(op_table)@) == ops_v(old(op_table)@).push(
            OpV { name: name@, immediate: true, sig: given_sig(type_sig@) },
        ),
        defined_v(final(table)@) == defined_v(old(table)@).push((name@, old(op_table)@.len() as int)),
{
    let sig = parse_given_sig(type_sig);
    push_entry(op_table, table, Op { name: string_of(name), immediate: true, type_sig: sig });
}

/// Adds `words`, as ordinary words, to the operation table.
fn push_ops(words: &Vec<String>, op_table: &mut Vec<Op>, table: &mut Vec<(String, usize)>)
    requires
        old(op_table)@.len() + words@.len() <= usize::MAX,
    ensures
        final(op_table)@.len() == old(op_table)@.len() + words@.len(),
        ops_v(final(op_table)@) == ops_v(old(op_table)@) + plain_ops(strings_v(words@)),
        defined_v(final(table)@) == defined_v(old(table)@) + placed(
            plain_ops(strings_v(words@)),
            old(op_table)@.len() as int,
        ),
{
    let ghost t0 = op_table@;
    let ghost d0 = table@;
    let ghost ws = plain_ops(strings_v(words@));
    let mut i: usize = 0;
    while i < words.len()
        invariant
            i <= words@.len(),
            t0.len() + words@.len() <= usize::MAX,
            ws == plain_ops(strings_v(words@)),
            op_table@.len() == t0.len() + i,
            ops_v(op_table@) == ops_v(t0) + ws.take(i as int),
            defined_v(table@) == defined_v(d0) + placed(ws.take(i as int), t0.len() as int),
        decreases words@.len() - i,
    {
        push_op(op_table, table, words[i].as_str());
        proof {
            assert(ws.take(i + 1) =~= ws.take(i as int).push(plain_op(words@[i as int]@)));
            assert(placed(ws.take(i + 1), t0.len() as int) =~= placed(ws.take(i as int), t0.len() as int).push(
                (words@[i as int]@, t0.len() + i),
            ));
        }
        i = i + 1;
        assert(ops_v(op_table@) =~= ops_v(t0) + ws.take(i as int));
        assert(defined_v(table@) =~= defined_v(d0) + placed(ws.take(i as int), t0.len() as int));
    }
    assert(ws.take(i as int) =~= ws);
}

/// Adds `words` to the operation table and makes the module `name` of them.
fn build_module(name: &str, words: Vec<String>, op_table: &mut Vec<Op>) -> (r: Module)
    requires
        old(op_table)@.len() + words@.len() <= usize::MAX,
    ensures
        r.name@ == name@,
        r.path is None,
        final(op_table)@.len() == old(op_table)@.len() + words@.len(),
        ops_v(final(op_table)@) == ops_v(old(op_table)@) + plain_ops(strings_v(words@)),
        defined_v(r.defined@) == placed(plain_ops(strings_v(words@)), old(op_table)@.len() as int),
{
    let ghost t0 = op_table@;
    let mut defined: Vec<(String, usize)> = Vec::new();
    assert(defined_v(defined@) =~= seq![]);
    push_ops(&words, op_table, &mut defined);
    assert(defined_v(defined@) =~= placed(plain_ops(strings_v(words@)), t0.len() as int));
    Module { name: string_of(name), path: None, defined }
}

/// The builder of the module `std/fs`.
pub struct FsModule;

impl FsModule {
    /// Adds the module's words to the operation table and returns the
    /// module.
    pub fn define_module(&self, op_table: &mut Vec<Op>) -> (r: Module)
        requires
            old(op_table)@.len() + fs_words().len() <= usize::MAX,
        ensures
            r.name@ == FS@,
            r.path is None,
            ops_v(final(op_table)@) == ops_v(old(op_table)@) + plain_ops(fs_words()),
            defined_v(r.defined@) == placed(plain_ops(fs_words()), old(op_table)@.len() as int),
    {
        build_module(FS, fs_list(), op_table)
    }
}

/// The builder of the module `std/_hashmaps`.
pub struct HashMapsBuilder;

impl HashMapsBuilder {
    /// Adds the module's words to the operation table and returns the
    /// module.
    pub fn define_module(&self, op_table: &mut Vec<Op>) -> (r: Module)
        requires
            old(op_table)@.len() + hashmaps_words().len() <= usize::MAX,
        ensures
            r.name@ == HASHMAPS@,
            r.path is None,
            ops_v(final(op_table)@) == ops_v(old(op_table)@) + plain_ops(hashmaps_words()),
            defined_v(r.defined@) == placed(plain_ops(hashmaps_words()), old(op_table)@.len() as int),
    {
        build_module(HASHMAPS, hashmaps_list(), op_table)
    }
}

/// The builder of the module `std/_internals`.
pub struct InternalsModule;

impl InternalsModule {
    /// Adds the module's words to the operation table and returns the
    /// module.
    pub fn define_module(&self, op_table: &mut Vec<Op>) -> (r: Module)
        requires
            old(op_table)@.len() + internals_words().len() <= usize::MAX,
        ensures
            r.name@ == INTERNALS@,
            r.path is None,
            ops_v(final(op_table)@) == ops_v(old(op_table)@) + plain_ops(internals_words()),
            defined_v(r.defined@) == placed(plain_ops(internals_words()), old(op_table)@.len() as int),
    {
        build_module(INTERNALS, internals_list(), op_table)
    }
}

/// The builder of the module `std/io`.
pub struct IoModule;

impl IoModule {
    /// Adds the module's words to the operation table and returns the
    /// module.
    pub fn define_module(&self, op_table: &mut Vec<Op>) -> (r: Module)
        requires
            old(op_table)@.len() + io_words().len() <= usize::MAX,
        ensures
            r.name@ == IO@,
            r.path is None,
            ops_v(final(op_table)@) == ops_v(old(op_table)@) + plain_ops(io_words()),
            defined_v(r.defined@) == placed(plain_ops(io_words()), old(op_table)@.len() as int),
    {
        build_module(IO, io_list(), op_table)
    }
}

/// The builder of the module `std/kernel`.
pub struct KernelModule;

impl KernelModule {
    /// Adds the module's words to the operation table and returns the
    /// module.
    pub fn define_module(&self, op_table: &mut Vec<Op>) -> (r: Module)
        requires
            old(op_table)@.len() + kernel_ops().len() <= usize::MAX,
        ensures
            r.name@ == KERNEL_MODULE@,
            r.path is None,
            ops_v(final(op_table)@) == ops_v(old(op_table)@) + kernel_ops(),
            defined_v(r.defined@) == placed(kernel_ops(), old(op_table)@.len() as int),
    {
        let ghost t0 = op_table@;
        let ghost p = plain_ops(kernel_words());
        let mut module = build_module(KERNEL_MODULE, kernel_list(), op_table);
        push_macro(op_table, &mut module.defined, "loop");
        push_macro(op_table, &mut module.defined, "uses:");
        push_macro(op_table, &mut module.defined, "exports:");
        let ghost ms = seq![macro_op("loop"@), macro_op("uses:"@), macro_op("exports:"@)];
        assert(ops_v(op_table@) =~= ops_v(t0) + (p + ms));
        assert(placed(p + ms, t0.len() as int) =~= placed(p, t0.len() as int).push(("loop"@, (t0.len() + p.len()) as int)).push(
            ("uses:"@, (t0.len() + p.len() + 1) as int),
        ).push(("exports:"@, (t0.len() + p.len() + 2) as int)));
        module
    }
}

/// The builder of the module `std/sandbox`.
pub struct SandboxBuilder;

impl SandboxBuilder {
    /// Adds the module's words to the operation table and returns the
    /// module.
    pub fn define_module(&self, op_table: &mut Vec<Op>) -> (r: Module)
        requires
            old(op_table)@.len() + sandbox_words().len() <= usize::MAX,
        ensures
            r.name@ == SANDBOX_MODULE@,
            r.path is None,
            ops_v(final(op_table)@) == ops_v(old(op_table)@) + plain_ops(sandbox_words()),
            defined_v(r.defined@) == placed(plain_ops(sandbox_words()), old(op_table)@.len() as int),
    {
        build_module(SANDBOX_MODULE, sandbox_list(), op_table)
    }
}

/// The builder of the module `std/scanning`.
pub struct ScanningBuilder;

impl ScanningBuilder {
    /// Adds the module's words to the operation table and returns the
    /// module.
    pub fn define_module(&self, op_table: &mut Vec<Op>) -> (r: Module)
        requires
            old(op_table)@.len() + scanning_ops().len() <= usize::MAX,
        ensures
            r.name@ == SCANNING@,
            r.path is None,
            ops_v(final(op_table)@) == ops_v(old(op_table)@) + scanning_ops(),
            defined_v(r.defined@) == placed(scanning_ops(), old(op_table)@.len() as int),
    {
        let ghost t0 = op_table@;
        let mut defined: Vec<(String, usize)> = Vec::new();
        assert(defined_v(defined@) =~= seq![]);
        push_op_typed(op_table, &mut defined, "scan-value", "( -- a )");
        push_op_typed(op_table, &mut defined, "scan-value-list", "( a -- vec )");
        push_op_typed(op_table, &mut defined, "scan-object-list", "( a -- vec )");
        push_op_typed(op_table, &mut defined, "<consume-type-sig>", "( -- )");
        assert(ops_v(op_table@) =~= ops_v(t0) + scanning_ops());
        assert(defined_v(defined@) =~= placed(scanning_ops(), t0.len() as int));
        Module { name: string_of(SCANNING), path: None, defined }
    }
}

/// The builder of the module `std/strings`.
pub struct StringsBuilder;

impl StringsBuilder {
    /// Adds the module's words to the operation table and returns the
    /// module.
    pub fn define_module(&self, op_table: &mut Vec<Op>) -> (r: Module)
        requires
            old(op_table)@.len() + strings_words().len() <= usize::MAX,
        ensures
            r.name@ == STRINGS@,
            r.path is None,
            ops_v(final(op_table)@) == ops_v(old(op_table)@) + plain_ops(strings_words()),
            defined_v(r.defined@) == placed(plain_ops(strings_words()), old(op_table)@.len() as int),
    {
        build_module(STRINGS, strings_list(), op_table)
    }
}

/// The builder of the module `std/_vectors`.
pub struct VectorsBuilder;

impl VectorsBuilder {
    /// Adds the module's words to the operation table and returns the
    /// module.
    pub fn define_module(&self, op_table: &mut Vec<Op>) -> (r: Module)
        requires
            old(op_table)@.len() + vectors_words().len() <= usize::MAX,
        ensures
            r.name@ == VECTORS@,
            r.path is None,
            ops_v(final(op_table)@) == ops_v(old(op_table)@) + plain_ops(vectors_words()),
            defined_v(r.defined@) == placed(plain_ops(vectors_words()), old(op_table)@.len() as int),
    {
        build_module(VECTORS, vectors_list(), op_table)
    }
}

/// Defines the built-in module `name`, adding its words to the operation
/// table; `ModuleNotFound` if there is no such module.
pub fn define_module(name: &str, op_table: &mut Vec<Op>) -> (r: Result<Module, Error>)
    requires
        old(op_table)@.len() + 64 <= usize::MAX,
    ensures
        match module_ops(name@) {
            None => r is Err && r->Err_0@ == ErrV::CompilerError(CompErrV::ModuleNotFound(name@))
                && final(op_table)@ == old(op_table)@,
            Some(ops) => r is Ok && r->Ok_0.name@ == name@ && ops_v(final(op_table)@) == ops_v(
                old(op_table)@,
            ) + ops && defined_v(r->Ok_0.defined@) == placed(ops, old(op_table)@.len() as int),
        },
{
    if str_eq_lit(name, FS) {
        return Ok(FsModule.define_module(op_table));
    }
    if str_eq_lit(name, HASHMAPS) {
        return Ok(HashMapsBuilder.define_module(op_table));
    }
    if str_eq_lit(name, INTERNALS) {
        return Ok(InternalsModule.define_module(op_table));
    }
    if str_eq_lit(name, IO) {
        return Ok(IoModule.define_module(op_table));
    }
    if str_eq_lit(name, KERNEL_MODULE) {
        return Ok(KernelModule.define_module(op_table));
    }
    if str_eq_lit(name, SANDBOX_MODULE) {
        return Ok(SandboxBuilder.define_module(op_table));
    }
    if str_eq_lit(name, SCANNING) {
        return Ok(ScanningBuilder.define_module(op_table));
    }
    if str_eq_lit(name, STRINGS) {
        return Ok(StringsBuilder.define_module(op_table));
    }
    if str_eq_lit(name, VECTORS) {
        return Ok(VectorsBuilder.define_module(op_table));
    }
    Err(Error::CompilerError(CompilerError::ModuleNotFound(string_of(name))))
}

/// The operations of the default operation table, in order.
pub open spec fn op_table_words() -> Seq<Seq<char>> {
    seq!["<lit>"@, "dup"@, "swap"@, "rot"@, "drop"@, "stack-size"@, "+"@, "-"@, "*"@, "/"@, "=="@, "<"@, ">"@, "!"@, ">r"@, "r>"@, "r@"@, "create-list"@, "append"@, "prepend"@, "concat"@, "split-head"@, "<string>"@, ">string"@, "utf8>string"@, "string-concat"@, "call"@, "call-stack"@, "return"@, "jump"@, "jump-stack"@, "<function>"@, "scan-value"@, "scan-value-list"@, "scan-object-list"@, "lit"@, "compile"@]
}

/// The default operation table: its operations, ordinary words, in order.
pub fn create_op_table() -> (v: Vec<Op>)
    ensures
        ops_v(v@) == plain_ops(op_table_words()),
{
    let names = op_table_names();
    let mut table: Vec<Op> = Vec::new();
    let mut places: Vec<(String, usize)> = Vec::new();
    assert(ops_v(table@) =~= seq![]);
    assert(strings_v(names@).len() == names@.len());
    push_ops(&names, &mut table, &mut places);
    assert(ops_v(table@) =~= plain_ops(op_table_words()));
    table
}

fn op_table_names() -> (v: Vec<String>)
    ensures
        strings_v(v@) == op_table_words(),
{
    let mut v: Vec<String> = Vec::new();
    v.push(string_of("<lit>"));
    v.push(string_of("dup"));
    v.push(string_of("swap"));
    v.push(string_of("rot"));
    v.push(string_of("drop"));
    v.push(string_of("stack-size"));
    v.push(string_of("+"));
    v.push(string_of("-"));
    v.push(string_of("*"));
    v.push(string_of("/"));
    v.push(string_of("=="));
    v.push(string_of("<"));
    v.push(string_of(">"));
    v.push(string_of("!"));
    v.push(string_of(">r"));
    v.push(string_of("r>"));
    v.push(string_of("r@"));
    v.push(string_of("create-list"));
    v.push(string_of("append"));
    v.push(string_of("prepend"));
    v.push(string_of("concat"));
    v.push(string_of("split-head"));
    v.push(string_of("<string>"));
    v.push(string_of(">string"));
    v.push(string_of("utf8>string"));
    v.push(string_of("string-concat"));
    v.push(string_of("call"));
    v.push(string_of("call-stack"));
    v.push(string_of("return"));
    v.push(string_of("jump"));
    v.push(string_of("jump-stack"));
    v.push(string_of("<function>"));
    v.push(string_of("scan-value"));
    v.push(string_of("scan-value-list"));
    v.push(string_of("scan-object-list"));
    v.push(string_of("lit"));
    v.push(string_of("compile"));
    assert(strings_v(v@) =~= op_table_words());
    v
}

/// The default macro table, which is empty.
pub fn create_macro_table() -> (v: Vec<(String, crate::value::Lambda)>)
    ensures
        v@.len() == 0,
{
    Vec::new()
}

} // verus!
