//! Runtime and token values.

use vstd::prelude::*;

use crate::ast::{nodes_v, AstNode, NodeV};
use crate::text::{chars_of_string, push_all, push_lit, push_string, string_from_chars};

verus! {

/// A position in source: line, column, byte offset and length of a token
/// in characters.
#[derive(Debug, PartialEq, Eq, Clone, Copy)]
pub struct Pos {
    /// Line number in source (1-based)
    pub line: usize,
    /// Column number in source (1-based)
    pub column: usize,
    /// Offset from start of source (0-based)
    pub offset: usize,
    /// Length of the token in characters
    pub length: usize,
}

/// A position whose end (column and offset after the token) can be
/// computed.
pub open spec fn pos_fits(p: Pos) -> bool {
    p.column + p.length <= usize::MAX && p.offset + p.length <= usize::MAX
}

impl Pos {
    pub fn new(line: usize, column: usize, offset: usize, length: usize) -> (r: Pos)
        ensures
            r == (Pos { line, column, offset, length }),
    {
        Pos { line, column, offset, length }
    }
}

/// A quotation or named word body: a sequence of AST nodes to run.
#[derive(Debug, PartialEq)]
pub struct Lambda {
    pub name: Option<String>,
    pub body: Vec<AstNode>,
}

/// The different kinds of values that can be stored on the stack.
///
/// A floating-point literal is carried as the text it was written with.
/// Equality is the language's (see `equality`).
#[derive(Debug)]
pub enum ValueData {
    Integer(i64),
    Float(String),
    Boolean(bool),
    Char(char),
    String(String),
    List(Vec<Value>),
    Function(Lambda),
    Address(usize),
    Word(String),
    Symbol { module: String, word: String },
    Macro,
    Literal(Box<Value>),
    Return(usize, bool),
    EndOfInput,
}

/// A value, with the text of the token it came from and its position.
/// Two values are equal when their data are.
#[derive(Debug)]
pub struct Value {
    pub data: ValueData,
    /// The actual text of the token from source
    pub lexeme: Option<String>,
    pub pos: Option<Pos>,
}

impl Value {
    /// A value that came from no token.
    pub fn new(data: ValueData) -> (r: Value)
        ensures
            r@ == (ValueV { data: data@, lexeme: None, pos: None }),
    {
        Value { data, lexeme: None, pos: None }
    }

    /// A value read from the token `lexeme` at the given position.
    pub fn from_parts(data: ValueData, lexeme: &str, line: usize, column: usize, offset: usize, length: usize) -> (r: Value)
        ensures
            r@ == (ValueV {
                data: data@,
                lexeme: Some(lexeme@),
                pos: Some(Pos { line, column, offset, length }),
            }),
    {
        Value {
            data,
            lexeme: Some(crate::text::string_of(lexeme)),
            pos: Some(Pos { line, column, offset, length }),
        }
    }

    /// A value written with the text `lexeme` at no known place.
    pub fn with_lexeme(data: ValueData, lexeme: &str) -> (r: Value)
        ensures
            r@ == (ValueV { data: data@, lexeme: Some(lexeme@), pos: None }),
    {
        Value { data, lexeme: Some(crate::text::string_of(lexeme)), pos: None }
    }

    /// A value written with the text `lexeme` at `pos`.
    pub fn with_pos(data: ValueData, lexeme: &str, pos: Pos) -> (r: Value)
        ensures
            r@ == (ValueV { data: data@, lexeme: Some(lexeme@), pos: Some(pos) }),
    {
        Value { data, lexeme: Some(crate::text::string_of(lexeme)), pos: Some(pos) }
    }

    /// The boolean the value holds, if it is one.
    pub fn as_boolean(&self) -> (r: Option<bool>)
        ensures
            r == (match self@.data {
                DataV::Boolean(b) => Some(b),
                _ => None::<bool>,
            }),
    {
        match &self.data {
            ValueData::Boolean(b) => Some(*b),
            _ => None,
        }
    }

    /// The integer the value holds, if it is one.
    pub fn as_integer(&self) -> (r: Option<i64>)
        ensures
            r == (match self@.data {
                DataV::Integer(i) => Some(i),
                _ => None::<i64>,
            }),
    {
        match &self.data {
            ValueData::Integer(i) => Some(*i),
            _ => None,
        }
    }

    /// The text the value holds, if it is a string.
    pub fn as_string(&self) -> (r: Option<&str>)
        ensures
            match self@.data {
                DataV::String(t) => r matches Some(x) && x@ == t,
                _ => r is None,
            },
    {
        match &self.data {
            ValueData::String(t) => Some(t.as_str()),
            _ => None,
        }
    }

    /// The character the value holds, if it is one.
    pub fn as_char(&self) -> (r: Option<char>)
        ensures
            r == (match self@.data {
                DataV::Char(c) => Some(c),
                _ => None::<char>,
            }),
    {
        match &self.data {
            ValueData::Char(c) => Some(*c),
            _ => None,
        }
    }

    /// Whether the value is a list.
    pub fn is_list(&self) -> (r: bool)
        ensures
            r == (self@.data is List),
    {
        match &self.data {
            ValueData::List(_) => true,
            _ => false,
        }
    }

    /// The items of the value, if it is a list.
    pub fn as_list(&self) -> (r: Option<&Vec<Value>>)
        ensures
            match self@.data {
                DataV::List(vs) => r matches Some(x) && values_v(x@) == vs,
                _ => r is None,
            },
    {
        match &self.data {
            ValueData::List(vs) => Some(vs),
            _ => None,
        }
    }

    /// The function the value holds, if it is one.
    pub fn as_function(&self) -> (r: Option<&Lambda>)
        ensures
            match self@.data {
                DataV::Function(l) => r matches Some(x) && x@ == l,
                _ => r is None,
            },
    {
        match &self.data {
            ValueData::Function(l) => Some(l),
            _ => None,
        }
    }

    /// The address the value holds: an address, or where a return goes.
    pub fn as_address(&self) -> (r: Option<usize>)
        ensures
            r == (match self@.data {
                DataV::Address(a) => Some(a),
                DataV::Return(a, _) => Some(a),
                _ => None::<usize>,
            }),
    {
        match &self.data {
            ValueData::Address(a) => Some(*a),
            ValueData::Return(a, _) => Some(*a),
            _ => None,
        }
    }

    /// Whether the value is a return that stops at a breakpoint.
    pub fn is_breakpoint(&self) -> (r: bool)
        ensures
            r == (match self@.data {
                DataV::Return(_, b) => b,
                _ => false,
            }),
    {
        match &self.data {
            ValueData::Return(_, b) => *b,
            _ => false,
        }
    }

    /// The word the value names: a bare word, or the word of a symbol.
    pub fn as_word(&self) -> (r: Option<&str>)
        ensures
            match self@.data {
                DataV::Word(w) => r matches Some(x) && x@ == w,
                DataV::Symbol { word, .. } => r matches Some(x) && x@ == word,
                _ => r is None,
            },
    {
        match &self.data {
            ValueData::Word(w) => Some(w.as_str()),
            ValueData::Symbol { word, .. } => Some(word.as_str()),
            _ => None,
        }
    }

    /// The module and word of the value, if it is a symbol.
    pub fn as_symbol(&self) -> (r: Option<(&str, &str)>)
        ensures
            match self@.data {
                DataV::Symbol { module, word } => r matches Some((m, w)) && m@ == module && w@ == word,
                _ => r is None,
            },
    {
        match &self.data {
            ValueData::Symbol { module, word } => Some((module.as_str(), word.as_str())),
            _ => None,
        }
    }
}

/// Error raised when an I/O resource is used after it was closed.
#[derive(Debug, PartialEq, Eq)]
pub enum TardiIoError {
    ResourceClosed(String),
}

// ── Models ───────────────────────────────────────────────────────────────────

pub struct LambdaV {
    pub name: Option<Seq<char>>,
    pub body: Seq<NodeV>,
}

pub enum DataV {
    Integer(i64),
    Float(Seq<char>),
    Boolean(bool),
    Char(char),
    String(Seq<char>),
    List(Seq<ValueV>),
    Function(LambdaV),
    Address(usize),
    Word(Seq<char>),
    Symbol { module: Seq<char>, word: Seq<char> },
    Macro,
    Literal(Box<ValueV>),
    Return(usize, bool),
    EndOfInput,
}

pub struct ValueV {
    pub data: DataV,
    pub lexeme: Option<Seq<char>>,
    pub pos: Option<Pos>,
}

pub open spec fn opt_str_v(o: Option<String>) -> Option<Seq<char>> {
    match o {
        Some(s) => Some(s@),
        None => None,
    }
}

pub open spec fn lambda_v(l: Lambda) -> LambdaV
    decreases l,
{
    LambdaV { name: opt_str_v(l.name), body: nodes_v(l.body@) }
}

pub open spec fn values_v(vs: Seq<Value>) -> Seq<ValueV>
    decreases vs,
{
    if vs.len() == 0 {
        seq![]
    } else {
        values_v(vs.subrange(0, vs.len() - 1)).push(value_v(vs[vs.len() - 1]))
    }
}

pub open spec fn data_v(d: ValueData) -> DataV
    decreases d,
{
    match d {
        ValueData::Integer(i) => DataV::Integer(i),
        ValueData::Float(t) => DataV::Float(t@),
        ValueData::Boolean(b) => DataV::Boolean(b),
        ValueData::Char(c) => DataV::Char(c),
        ValueData::String(s) => DataV::String(s@),
        ValueData::List(vs) => DataV::List(values_v(vs@)),
        ValueData::Function(l) => DataV::Function(lambda_v(l)),
        ValueData::Address(a) => DataV::Address(a),
        ValueData::Word(w) => DataV::Word(w@),
        ValueData::Symbol { module, word } => DataV::Symbol { module: module@, word: word@ },
        ValueData::Macro => DataV::Macro,
        ValueData::Literal(v) => DataV::Literal(Box::new(value_v(*v))),
        ValueData::Return(a, b) => DataV::Return(a, b),
        ValueData::EndOfInput => DataV::EndOfInput,
    }
}

pub open spec fn value_v(v: Value) -> ValueV
    decreases v,
{
    ValueV { data: data_v(v.data), lexeme: opt_str_v(v.lexeme), pos: v.pos }
}

pub proof fn lemma_values_v(vs: Seq<Value>)
    ensures
        values_v(vs).len() == vs.len(),
        forall|i: int| 0 <= i < vs.len() ==> values_v(vs)[i] == value_v(#[trigger] vs[i]),
    decreases vs.len(),
{
    if vs.len() > 0 {
        let pre = vs.subrange(0, vs.len() - 1);
        lemma_values_v(pre);
        assert forall|i: int| 0 <= i < vs.len() implies values_v(vs)[i] == value_v(
            #[trigger] vs[i],
        ) by {
            if i < vs.len() - 1 {
                assert(pre[i] == vs[i]);
            }
        }
    }
}

impl View for Value {
    type V = ValueV;

    open spec fn view(&self) -> ValueV {
        value_v(*self)
    }
}

impl View for ValueData {
    type V = DataV;

    open spec fn view(&self) -> DataV {
        data_v(*self)
    }
}

impl View for Lambda {
    type V = LambdaV;

    open spec fn view(&self) -> LambdaV {
        lambda_v(*self)
    }
}

// ── Copies ───────────────────────────────────────────────────────────────────

pub fn clone_opt_str(o: &Option<String>) -> (r: Option<String>)
    ensures
        opt_str_v(r) == opt_str_v(*o),
{
    match o {
        Some(s) => Some(s.clone()),
        None => None,
    }
}

pub fn clone_values(vs: &Vec<Value>) -> (r: Vec<Value>)
    ensures
        values_v(r@) == values_v(vs@),
    decreases vs,
{
    proof {
        lemma_values_v(vs@);
    }
    let mut r: Vec<Value> = Vec::new();
    let mut i: usize = 0;
    while i < vs.len()
        invariant
            i <= vs@.len(),
            r@.len() == i,
            values_v(vs@).len() == vs@.len(),
            forall|k: int| 0 <= k < vs@.len() ==> values_v(vs@)[k] == value_v(#[trigger] vs@[k]),
            forall|k: int| 0 <= k < i ==> value_v(#[trigger] r@[k]) == value_v(vs@[k]),
        decreases vs@.len() - i,
    {
        r.push(clone_value(&vs[i]));
        i = i + 1;
    }
    proof {
        lemma_values_v(r@);
        assert forall|k: int| 0 <= k < vs@.len() implies values_v(r@)[k] == values_v(vs@)[k] by {
            assert(value_v(r@[k]) == value_v(vs@[k]));
        }
        assert(values_v(r@) =~= values_v(vs@));
    }
    r
}

pub fn clone_lambda(l: &Lambda) -> (r: Lambda)
    ensures
        r@ == l@,
    decreases l,
{
    Lambda { name: clone_opt_str(&l.name), body: crate::ast::clone_nodes(&l.body) }
}

pub fn clone_data(d: &ValueData) -> (r: ValueData)
    ensures
        r@ == d@,
    decreases d,
{
    match d {
        ValueData::Integer(i) => ValueData::Integer(*i),
        ValueData::Float(t) => ValueData::Float(t.clone()),
        ValueData::Boolean(b) => ValueData::Boolean(*b),
        ValueData::Char(c) => ValueData::Char(*c),
        ValueData::String(s) => ValueData::String(s.clone()),
        ValueData::List(vs) => ValueData::List(clone_values(vs)),
        ValueData::Function(l) => ValueData::Function(clone_lambda(l)),
        ValueData::Address(a) => ValueData::Address(*a),
        ValueData::Word(w) => ValueData::Word(w.clone()),
        ValueData::Symbol { module, word } => ValueData::Symbol {
            module: module.clone(),
            word: word.clone(),
        },
        ValueData::Macro => ValueData::Macro,
        ValueData::Literal(v) => ValueData::Literal(Box::new(clone_value(&**v))),
        ValueData::Return(a, b) => ValueData::Return(*a, *b),
        ValueData::EndOfInput => ValueData::EndOfInput,
    }
}

pub fn clone_value(v: &Value) -> (r: Value)
    ensures
        r@ == v@,
    decreases v,
{
    Value { data: clone_data(&v.data), lexeme: clone_opt_str(&v.lexeme), pos: v.pos }
}

impl Clone for Value {
    fn clone(&self) -> (r: Self)
        ensures
            r@ == self@,
    {
        clone_value(self)
    }
}

impl Clone for ValueData {
    fn clone(&self) -> (r: Self)
        ensures
            r@ == self@,
    {
        clone_data(self)
    }
}

impl Clone for Lambda {
    fn clone(&self) -> (r: Self)
        ensures
            r@ == self@,
    {
        clone_lambda(self)
    }
}


// ── Text forms ───────────────────────────────────────────────────────────────

/// How a character value is displayed: in single quotes, with newline,
/// carriage return, tab, backslash and quote escaped.
pub open spec fn show_char(c: char) -> Seq<char> {
    if c == '\n' {
        "'\\n'"@
    } else if c == '\r' {
        "'\\r'"@
    } else if c == '\t' {
        "'\\t'"@
    } else if c == '\\' {
        "'\\\\'"@
    } else if c == '\'' {
        "'\\''"@
    } else {
        seq!['\'', c, '\'']
    }
}

/// How a float is displayed: its text, with `.0` added when the text holds
/// no decimal point or exponent.
pub open spec fn show_float(t: Seq<char>) -> Seq<char> {
    if t.contains('.') || t.contains('e') || t.contains('E') {
        t
    } else {
        t + ".0"@
    }
}

/// A string's characters with backslashes and double quotes escaped.
pub open spec fn escape_repr(s: Seq<char>) -> Seq<char>
    decreases s.len(),
{
    if s.len() == 0 {
        seq![]
    } else {
        let c = s.last();
        escape_repr(s.drop_last()) + (if c == '\\' {
            seq!['\\', '\\']
        } else if c == '"' {
            seq!['\\', '"']
        } else {
            seq![c]
        })
    }
}

/// A string in double quotes with backslashes and double quotes escaped,
/// the way a string item of a list is written.
pub open spec fn repr_string(s: Seq<char>) -> Seq<char> {
    seq!['"'] + escape_repr(s) + seq!['"']
}

/// How a value is displayed.
pub open spec fn show_data(d: DataV) -> Seq<char>
    decreases d,
{
    match d {
        DataV::Integer(n) => crate::text::int_text(n as int),
        DataV::Float(t) => show_float(t),
        DataV::Boolean(b) => if b { "#t"@ } else { "#f"@ },
        DataV::Char(c) => show_char(c),
        DataV::String(s) => s,
        DataV::List(vs) => show_items(vs) + " }"@,
        DataV::Function(l) => match l.name {
            Some(n) => n,
            None => "<lambda>"@,
        },
        DataV::Address(a) => "<@"@ + crate::text::decimal(a as nat) + ">"@,
        DataV::Word(w) => w,
        DataV::Symbol { module, word } => module + "::"@ + word,
        DataV::Macro => "MACRO:"@,
        DataV::Literal(v) => "\\ "@ + show_data(v.data),
        DataV::Return(a, b) => "<@"@ + crate::text::decimal(a as nat) + " - "@ + (if b {
            "true"@
        } else {
            "false"@
        }) + ">"@,
        DataV::EndOfInput => "<EOI>"@,
    }
}

/// An opening brace followed by each item of a list, each after a space.
pub open spec fn show_items(vs: Seq<ValueV>) -> Seq<char>
    decreases vs,
{
    if vs.len() == 0 {
        "{"@
    } else {
        show_items(vs.drop_last()) + " "@ + repr_value(vs.last())
    }
}

/// How a value is written as an item: strings quoted, the rest displayed.
pub open spec fn repr_value(v: ValueV) -> Seq<char>
    decreases v,
{
    match v.data {
        DataV::String(s) => repr_string(s),
        _ => show_data(v.data),
    }
}


fn push_repr_string(out: &mut Vec<char>, s: &Vec<char>)
    ensures
        final(out)@ == old(out)@ + repr_string(s@),
{
    out.push('"');
    let ghost start = out@;
    let mut i: usize = 0;
    assert(s@.take(0) =~= seq![]);
    while i < s.len()
        invariant
            i <= s@.len(),
            out@ == start + escape_repr(s@.take(i as int)),
        decreases s@.len() - i,
    {
        let c = s[i];
        assert(s@.take(i + 1).drop_last() =~= s@.take(i as int));
        if c == '\\' {
            out.push('\\');
            out.push('\\');
        } else if c == '"' {
            out.push('\\');
            out.push('"');
        } else {
            out.push(c);
        }
        i = i + 1;
        assert(out@ =~= start + escape_repr(s@.take(i as int)));
    }
    assert(s@.take(i as int) =~= s@);
    out.push('"');
    assert(out@ =~= old(out)@ + repr_string(s@));
}

fn contains_char(s: &Vec<char>, c: char) -> (r: bool)
    ensures
        r == s@.contains(c),
{
    let mut i: usize = 0;
    while i < s.len()
        invariant
            i <= s@.len(),
            forall|k: int| 0 <= k < i ==> s@[k] != c,
        decreases s@.len() - i,
    {
        if s[i] == c {
            return true;
        }
        i = i + 1;
    }
    false
}

/// Appends the displayed form of `d` to `out`.
pub fn push_data(out: &mut Vec<char>, d: &ValueData)
    ensures
        final(out)@ == old(out)@ + show_data(d@),
    decreases d,
{
    match d {
        ValueData::Integer(n) => crate::text::push_i64(out, *n),
        ValueData::Float(t) => {
            let cs = chars_of_string(t);
            push_all(out, cs.as_slice());
            if !(contains_char(&cs, '.') || contains_char(&cs, 'e') || contains_char(&cs, 'E')) {
                push_lit(out, ".0");
            }
        },
        ValueData::Boolean(b) => if *b {
            push_lit(out, "#t")
        } else {
            push_lit(out, "#f")
        },
        ValueData::Char(c) => {
            let c = *c;
            if c == '\n' {
                push_lit(out, "'\\n'");
            } else if c == '\r' {
                push_lit(out, "'\\r'");
            } else if c == '\t' {
                push_lit(out, "'\\t'");
            } else if c == '\\' {
                push_lit(out, "'\\\\'");
            } else if c == '\'' {
                push_lit(out, "'\\''");
            } else {
                out.push('\'');
                out.push(c);
                out.push('\'');
                assert(out@ =~= old(out)@ + seq!['\'', c, '\'']);
            }
        },
        ValueData::String(s) => push_string(out, s),
        ValueData::List(vs) => {
            push_items(out, vs);
            push_lit(out, " }");
        },
        ValueData::Function(l) => match &l.name {
            Some(n) => push_string(out, n),
            None => push_lit(out, "<lambda>"),
        },
        ValueData::Address(a) => {
            push_lit(out, "<@");
            crate::text::push_decimal(out, *a);
            push_lit(out, ">");
        },
        ValueData::Word(w) => push_string(out, w),
        ValueData::Symbol { module, word } => {
            push_string(out, module);
            push_lit(out, "::");
            push_string(out, word);
        },
        ValueData::Macro => push_lit(out, "MACRO:"),
        ValueData::Literal(v) => {
            push_lit(out, "\\ ");
            push_data(out, &v.data);
        },
        ValueData::Return(a, b) => {
            push_lit(out, "<@");
            crate::text::push_decimal(out, *a);
            push_lit(out, " - ");
            if *b {
                push_lit(out, "true");
            } else {
                push_lit(out, "false");
            }
            push_lit(out, ">");
        },
        ValueData::EndOfInput => push_lit(out, "<EOI>"),
    }
}

/// Appends an opening brace and each item of `vs`, each after a space.
pub fn push_items(out: &mut Vec<char>, vs: &Vec<Value>)
    ensures
        final(out)@ == old(out)@ + show_items(values_v(vs@)),
    decreases vs,
{
    push_lit(out, "{");
    let mut i: usize = 0;
    let ghost start = old(out)@;
    proof {
        lemma_values_v(vs@);
    }
    assert(values_v(vs@).take(0) =~= seq![]);
    while i < vs.len()
        invariant
            i <= vs@.len(),
            values_v(vs@).len() == vs@.len(),
            forall|k: int| 0 <= k < vs@.len() ==> values_v(vs@)[k] == value_v(#[trigger] vs@[k]),
            out@ == start + show_items(values_v(vs@).take(i as int)),
        decreases vs@.len() - i,
    {
        push_lit(out, " ");
        push_repr(out, &vs[i]);
        assert(values_v(vs@).take(i + 1).drop_last() =~= values_v(vs@).take(i as int));
        i = i + 1;
        assert(out@ =~= start + show_items(values_v(vs@).take(i as int)));
    }
    assert(values_v(vs@).take(i as int) =~= values_v(vs@));
}

/// Appends `v` written as a list item.
pub fn push_repr(out: &mut Vec<char>, v: &Value)
    ensures
        final(out)@ == old(out)@ + repr_value(v@),
    decreases v,
{
    match &v.data {
        ValueData::String(s) => {
            let cs = chars_of_string(s);
            push_repr_string(out, &cs);
        },
        _ => push_data(out, &v.data),
    }
}

impl ValueData {
    /// The displayed form of the value.
    pub fn to_display_string(&self) -> (r: String)
        ensures
            r@ == show_data(self@),
    {
        let mut out: Vec<char> = Vec::new();
        push_data(&mut out, self);
        assert(out@ =~= show_data(self@));
        string_from_chars(out.as_slice())
    }
}

impl Value {
    /// The displayed form of the value's data.
    pub fn to_display_string(&self) -> (r: String)
        ensures
            r@ == show_data(self@.data),
    {
        self.data.to_display_string()
    }

    /// The value written as a list item: strings quoted, the rest displayed.
    pub fn to_repr(&self) -> (r: String)
        ensures
            r@ == repr_value(self@),
    {
        let mut out: Vec<char> = Vec::new();
        push_repr(&mut out, self);
        assert(out@ =~= repr_value(self@));
        string_from_chars(out.as_slice())
    }
}


/// How a character is written in debug form: in single quotes, with
/// newline, carriage return, tab, NUL, backslash and quote escaped.
pub open spec fn debug_char(c: char) -> Seq<char> {
    if c == '\n' {
        "'\\n'"@
    } else if c == '\r' {
        "'\\r'"@
    } else if c == '\t' {
        "'\\t'"@
    } else if c == '\0' {
        "'\\0'"@
    } else if c == '\\' {
        "'\\\\'"@
    } else if c == '\'' {
        "'\\''"@
    } else {
        seq!['\'', c, '\'']
    }
}

/// The debug form of a value: its variant's name and its contents; lists,
/// functions and escaped literals are abbreviated.
pub open spec fn debug_data(d: DataV) -> Seq<char> {
    match d {
        DataV::Integer(n) => "Integer("@ + crate::text::int_text(n as int) + ")"@,
        DataV::Float(t) => "Float("@ + t + ")"@,
        DataV::Boolean(b) => if b { "Boolean(true)"@ } else { "Boolean(false)"@ },
        DataV::Char(c) => "Char("@ + debug_char(c) + ")"@,
        DataV::String(s) => "String("@ + crate::text::quoted(s) + ")"@,
        DataV::List(_) => "List([...])"@,
        DataV::Function(_) => "Function(...)"@,
        DataV::Address(a) => "Address("@ + crate::text::decimal(a as nat) + ")"@,
        DataV::Word(w) => "Word("@ + crate::text::quoted(w) + ")"@,
        DataV::Symbol { module, word } => "Symbol { module: "@ + crate::text::quoted(module)
            + ", word: "@ + crate::text::quoted(word) + " }"@,
        DataV::Macro => "Macro"@,
        DataV::Literal(_) => "Literal(...)"@,
        DataV::Return(a, b) => "Return("@ + crate::text::decimal(a as nat) + ", "@ + (if b {
            "true"@
        } else {
            "false"@
        }) + ")"@,
        DataV::EndOfInput => "EndOfInput"@,
    }
}

impl ValueData {
    /// The debug form of the value.
    pub fn to_debug_string(&self) -> (r: String)
        ensures
            r@ == debug_data(self@),
    {
        let mut out: Vec<char> = Vec::new();
        match self {
            ValueData::Integer(n) => {
                push_lit(&mut out, "Integer(");
                crate::text::push_i64(&mut out, *n);
                push_lit(&mut out, ")");
            },
            ValueData::Float(t) => {
                push_lit(&mut out, "Float(");
                push_string(&mut out, t);
                push_lit(&mut out, ")");
            },
            ValueData::Boolean(b) => if *b {
                push_lit(&mut out, "Boolean(true)")
            } else {
                push_lit(&mut out, "Boolean(false)")
            },
            ValueData::Char(c) => {
                let c = *c;
                push_lit(&mut out, "Char(");
                if c == '\n' {
                    push_lit(&mut out, "'\\n'");
                } else if c == '\r' {
                    push_lit(&mut out, "'\\r'");
                } else if c == '\t' {
                    push_lit(&mut out, "'\\t'");
                } else if c == '\0' {
                    push_lit(&mut out, "'\\0'");
                } else if c == '\\' {
                    push_lit(&mut out, "'\\\\'");
                } else if c == '\'' {
                    push_lit(&mut out, "'\\''");
                } else {
                    out.push('\'');
                    out.push(c);
                    out.push('\'');
                }
                push_lit(&mut out, ")");
            },
            ValueData::String(s) => {
                push_lit(&mut out, "String(");
                let cs = chars_of_string(s);
                crate::text::push_quoted(&mut out, cs.as_slice());
                push_lit(&mut out, ")");
            },
            ValueData::List(_) => push_lit(&mut out, "List([...])"),
            ValueData::Function(_) => push_lit(&mut out, "Function(...)"),
            ValueData::Address(a) => {
                push_lit(&mut out, "Address(");
                crate::text::push_decimal(&mut out, *a);
                push_lit(&mut out, ")");
            },
            ValueData::Word(w) => {
                push_lit(&mut out, "Word(");
                let cs = chars_of_string(w);
                crate::text::push_quoted(&mut out, cs.as_slice());
                push_lit(&mut out, ")");
            },
            ValueData::Symbol { module, word } => {
                push_lit(&mut out, "Symbol { module: ");
                let m = chars_of_string(module);
                crate::text::push_quoted(&mut out, m.as_slice());
                push_lit(&mut out, ", word: ");
                let w = chars_of_string(word);
                crate::text::push_quoted(&mut out, w.as_slice());
                push_lit(&mut out, " }");
            },
            ValueData::Macro => push_lit(&mut out, "Macro"),
            ValueData::Literal(_) => push_lit(&mut out, "Literal(...)"),
            ValueData::Return(a, b) => {
                push_lit(&mut out, "Return(");
                crate::text::push_decimal(&mut out, *a);
                push_lit(&mut out, ", ");
                if *b {
                    push_lit(&mut out, "true");
                } else {
                    push_lit(&mut out, "false");
                }
                push_lit(&mut out, ")");
            },
            ValueData::EndOfInput => push_lit(&mut out, "EndOfInput"),
        }
        assert(out@ =~= debug_data(self@));
        string_from_chars(out.as_slice())
    }
}

} // verus!
