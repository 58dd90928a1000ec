//! The parser: turns a stream of scanned values into a Tardi AST.
//!
//! Structural constructs are read here:
//!   - `[ ... ]`       → Quotation node
//!   - `{ ... }`       → Vector node
//!   - `: name sig ;`  → Definition node
//!   - `\ token`       → Literal node (escaped token)
//!   - `MACRO: name ;` → MacroDefinition node (body kept as raw tokens)
//!
//! Everything else becomes a Word or Literal node.

use vstd::prelude::*;

use crate::ast::{node_v, nodes_v, AstNode, KindV, NodeKind, NodeV};
use crate::span::{Position, Span, SpanV};
use crate::text::{push_lit, push_string, string_from_chars, string_of};
use crate::typechecker::{seq_sigs_wf, sigs_wf};
use crate::types::{parse_sig_v, Row, SigV, TypeSig};
use crate::value::{clone_value, lemma_values_v, pos_fits, show_data, value_v, values_v, DataV, Value, ValueData, ValueV};

verus! {

// ── Errors ───────────────────────────────────────────────────────────────────

/// What went wrong while parsing, and where.
#[derive(Debug)]
pub enum ParseError {
    UnexpectedToken { span: Span, message: String },
    UnexpectedEof { span: Span, context: String },
    UnclosedDelimiter { span: Span, delimiter: String },
    UnclosedDefinition { span: Span },
    InvalidTypeSig { span: Span, message: String },
}

pub enum PErrV {
    UnexpectedToken { span: SpanV, message: Seq<char> },
    UnexpectedEof { span: SpanV, context: Seq<char> },
    UnclosedDelimiter { span: SpanV, delimiter: Seq<char> },
    UnclosedDefinition { span: SpanV },
    InvalidTypeSig { span: SpanV, message: Seq<char> },
}

impl View for ParseError {
    type V = PErrV;

    open spec fn view(&self) -> PErrV {
        match self {
            ParseError::UnexpectedToken { span, message } => PErrV::UnexpectedToken {
                span: span@,
                message: message@,
            },
            ParseError::UnexpectedEof { span, context } => PErrV::UnexpectedEof {
                span: span@,
                context: context@,
            },
            ParseError::UnclosedDelimiter { span, delimiter } => PErrV::UnclosedDelimiter {
                span: span@,
                delimiter: delimiter@,
            },
            ParseError::UnclosedDefinition { span } => PErrV::UnclosedDefinition { span: span@ },
            ParseError::InvalidTypeSig { span, message } => PErrV::InvalidTypeSig {
                span: span@,
                message: message@,
            },
        }
    }
}

impl Clone for ParseError {
    fn clone(&self) -> (r: Self)
        ensures
            r@ == self@,
    {
        match self {
            ParseError::UnexpectedToken { span, message } => ParseError::UnexpectedToken {
                span: span.clone(),
                message: message.clone(),
            },
            ParseError::UnexpectedEof { span, context } => ParseError::UnexpectedEof {
                span: span.clone(),
                context: context.clone(),
            },
            ParseError::UnclosedDelimiter { span, delimiter } => ParseError::UnclosedDelimiter {
                span: span.clone(),
                delimiter: delimiter.clone(),
            },
            ParseError::UnclosedDefinition { span } => ParseError::UnclosedDefinition {
                span: span.clone(),
            },
            ParseError::InvalidTypeSig { span, message } => ParseError::InvalidTypeSig {
                span: span.clone(),
                message: message.clone(),
            },
        }
    }
}

/// How a parse error is written.
pub open spec fn parse_err_message(e: PErrV) -> Seq<char> {
    match e {
        PErrV::UnexpectedToken { span, message } => crate::span::span_text(span) + ": "@ + message,
        PErrV::UnexpectedEof { span, context } => crate::span::span_text(span) + ": unexpected end of input ("@
            + context + ")"@,
        PErrV::UnclosedDelimiter { span, delimiter } => crate::span::span_text(span) + ": unclosed '"@
            + delimiter + "' delimiter"@,
        PErrV::UnclosedDefinition { span } => crate::span::span_text(span)
            + ": unclosed ':' definition (missing ';')"@,
        PErrV::InvalidTypeSig { span, message } => crate::span::span_text(span) + ": invalid type signature: "@
            + message,
    }
}

impl ParseError {
    /// The error as it is reported.
    pub fn message(&self) -> (r: String)
        ensures
            r@ == parse_err_message(self@),
    {
        let mut out: Vec<char> = Vec::new();
        match self {
            ParseError::UnexpectedToken { span, message } => {
                push_string(&mut out, &span.to_display_string());
                push_lit(&mut out, ": ");
                push_string(&mut out, message);
            },
            ParseError::UnexpectedEof { span, context } => {
                push_string(&mut out, &span.to_display_string());
                push_lit(&mut out, ": unexpected end of input (");
                push_string(&mut out, context);
                push_lit(&mut out, ")");
            },
            ParseError::UnclosedDelimiter { span, delimiter } => {
                push_string(&mut out, &span.to_display_string());
                push_lit(&mut out, ": unclosed '");
                push_string(&mut out, delimiter);
                push_lit(&mut out, "' delimiter");
            },
            ParseError::UnclosedDefinition { span } => {
                push_string(&mut out, &span.to_display_string());
                push_lit(&mut out, ": unclosed ':' definition (missing ';')");
            },
            ParseError::InvalidTypeSig { span, message } => {
                push_string(&mut out, &span.to_display_string());
                push_lit(&mut out, ": invalid type signature: ");
                push_string(&mut out, message);
            },
        }
        assert(out@ =~= parse_err_message(self@));
        string_from_chars(out.as_slice())
    }

    pub fn unexpected_token(span: Span, message: String) -> (r: ParseError)
        ensures
            r@ == (PErrV::UnexpectedToken { span: span@, message: message@ }),
    {
        ParseError::UnexpectedToken { span, message }
    }

    pub fn unexpected_eof(span: Span, context: String) -> (r: ParseError)
        ensures
            r@ == (PErrV::UnexpectedEof { span: span@, context: context@ }),
    {
        ParseError::UnexpectedEof { span, context }
    }

    pub fn unclosed_delimiter(span: Span, delimiter: String) -> (r: ParseError)
        ensures
            r@ == (PErrV::UnclosedDelimiter { span: span@, delimiter: delimiter@ }),
    {
        ParseError::UnclosedDelimiter { span, delimiter }
    }

    pub fn unclosed_definition(span: Span) -> (r: ParseError)
        ensures
            r@ == (PErrV::UnclosedDefinition { span: span@ }),
    {
        ParseError::UnclosedDefinition { span }
    }

    pub fn invalid_type_sig(span: Span, message: String) -> (r: ParseError)
        ensures
            r@ == (PErrV::InvalidTypeSig { span: span@, message: message@ }),
    {
        ParseError::InvalidTypeSig { span, message }
    }
}

// ── The grammar ──────────────────────────────────────────────────────────────

/// The word a token spells, if it is a word or a symbol.
pub open spec fn word_of(v: ValueV) -> Option<Seq<char>> {
    match v.data {
        DataV::Word(w) => Some(w),
        DataV::Symbol { word, .. } => Some(word),
        _ => None,
    }
}

/// Whether the token at `p` is a closing word `]`, `}` or `;`, which no
/// item can start with.
pub open spec fn closer_at(t: Seq<ValueV>, p: int) -> bool {
    0 <= p < t.len() && match word_of(t[p]) {
        Some(w) => w == "]"@ || w == "}"@ || w == ";"@,
        None => false,
    }
}

proof fn lemma_closers_distinct()
    ensures
        "]"@ != "["@ && "]"@ != "{"@ && "]"@ != ":"@ && "]"@ != "\\"@,
        "}"@ != "["@ && "}"@ != "{"@ && "}"@ != ":"@ && "}"@ != "\\"@,
        ";"@ != "["@ && ";"@ != "{"@ && ";"@ != ":"@ && ";"@ != "\\"@,
{
    reveal_strlit("]");
    reveal_strlit("}");
    reveal_strlit(";");
    reveal_strlit("[");
    reveal_strlit("{");
    reveal_strlit(":");
    reveal_strlit("\\");
    assert("]"@ =~= seq![']']);
    assert("}"@ =~= seq!['}']);
    assert(";"@ =~= seq![';']);
    assert("["@ =~= seq!['[']);
    assert("{"@ =~= seq!['{']);
    assert(":"@ =~= seq![':']);
    assert("\\"@ =~= seq!['\\']);
    assert("]"@[0] != "["@[0]);
    assert("]"@[0] != "{"@[0]);
    assert("]"@[0] != ":"@[0]);
    assert("]"@[0] != "\\"@[0]);
    assert("}"@[0] != "["@[0]);
    assert("}"@[0] != "{"@[0]);
    assert("}"@[0] != ":"@[0]);
    assert("}"@[0] != "\\"@[0]);
    assert(";"@[0] != "["@[0]);
    assert(";"@[0] != "{"@[0]);
    assert(";"@[0] != ":"@[0]);
    assert(";"@[0] != "\\"@[0]);
}

/// Every token's position fits.
pub open spec fn tokens_fit(t: Seq<ValueV>) -> bool {
    forall|i: int| 0 <= i < t.len() ==> ((#[trigger] t[i]).pos matches Some(p) ==> pos_fits(p))
}

pub open spec fn unknown_span(sid: Seq<char>) -> SpanV {
    SpanV {
        source: sid,
        start: Position { line: 0, column: 0, offset: 0 },
        end: Position { line: 0, column: 0, offset: 0 },
    }
}

/// The span of a token: its own range, or the unknown span.
pub open spec fn span_of(v: ValueV, sid: Seq<char>) -> SpanV {
    match v.pos {
        Some(p) => SpanV {
            source: sid,
            start: Position { line: p.line, column: p.column, offset: p.offset },
            end: Position {
                line: p.line,
                column: (p.column + p.length) as usize,
                offset: (p.offset + p.length) as usize,
            },
        },
        None => unknown_span(sid),
    }
}

pub open spec fn merge_v(a: SpanV, b: SpanV) -> SpanV {
    SpanV { source: a.source, start: a.start, end: b.end }
}

/// A node without type information.
pub open spec fn leaf(kind: KindV, span: SpanV) -> NodeV {
    NodeV { kind, span, type_info: None }
}

/// The signature of a definition written without one: `( -- )`.
pub open spec fn default_sig() -> SigV {
    SigV {
        input: crate::types::RowV { var: None, types: seq![] },
        output: crate::types::RowV { var: None, types: seq![] },
        effects: seq![],
    }
}

/// The text a token contributes to a type signature: a word's name, else
/// the token displayed.
pub open spec fn sig_text(v: ValueV) -> Seq<char> {
    match word_of(v) {
        Some(w) => w,
        None => show_data(v.data),
    }
}

/// Collects signature texts from `i`, with `depth` parentheses open, up to
/// the one that closes them: the texts and the index after it, or `None`
/// when the tokens run out first.
pub open spec fn sig_words(t: Seq<ValueV>, i: int, depth: int, parts: Seq<Seq<char>>) -> Option<
    (Seq<Seq<char>>, int),
>
    decreases t.len() - i,
{
    if i < 0 || i >= t.len() {
        None
    } else {
        let w = word_of(t[i]);
        let d = if w == Some("("@) {
            depth + 1
        } else if w == Some(")"@) {
            depth - 1
        } else {
            depth
        };
        let parts2 = parts.push(sig_text(t[i]));
        if d == 0 {
            Some((parts2, i + 1))
        } else {
            sig_words(t, i + 1, d, parts2)
        }
    }
}

/// The signature opened by `(` at `i`: the signature and the index after
/// it, or the error.
pub open spec fn p_sig(t: Seq<ValueV>, sid: Seq<char>, i: int) -> Result<(SigV, int), PErrV> {
    let open = span_of(t[i], sid);
    match sig_words(t, i + 1, 1, seq!["("@]) {
        None => Err(PErrV::UnclosedDelimiter { span: open, delimiter: "("@ }),
        Some((parts, e)) => match parse_sig_v(crate::text::join(parts, " "@)) {
            Ok(sig) => Ok((sig, e)),
            Err(m) => Err(PErrV::InvalidTypeSig { span: open, message: m }),
        },
    }
}

/// The first index at or after `i` holding the word `w`.
pub open spec fn find_word(t: Seq<ValueV>, i: int, w: Seq<char>) -> Option<int>
    decreases t.len() - i,
{
    if i < 0 || i >= t.len() {
        None
    } else if word_of(t[i]) == Some(w) {
        Some(i)
    } else {
        find_word(t, i + 1, w)
    }
}

/// `MACRO: name body ;` with the name at `i`.
pub open spec fn p_macro(t: Seq<ValueV>, sid: Seq<char>, i: int, mspan: SpanV) -> Result<
    (NodeV, int),
    PErrV,
> {
    if i < 0 || i >= t.len() {
        Err(PErrV::UnexpectedEof { span: mspan, context: "macro name after 'MACRO:'"@ })
    } else {
        match word_of(t[i]) {
            None => Err(
                PErrV::UnexpectedToken {
                    span: span_of(t[i], sid),
                    message: "expected macro name after 'MACRO:'"@,
                },
            ),
            Some(name) => match find_word(t, i + 1, ";"@) {
                None => Err(PErrV::UnclosedDefinition { span: mspan }),
                Some(c) => Ok(
                    (
                        leaf(
                            KindV::MacroDefinition { name, body: t.subrange(i + 1, c) },
                            merge_v(mspan, span_of(t[c], sid)),
                        ),
                        c + 1,
                    ),
                ),
            },
        }
    }
}

/// The item at `p`: the node and the index after it, or the error.
pub open spec fn p_item(t: Seq<ValueV>, sid: Seq<char>, p: int) -> Result<(NodeV, int), PErrV>
    decreases t.len() - p, 0int,
{
    if p < 0 || p >= t.len() {
        Err(PErrV::UnexpectedEof { span: unknown_span(sid), context: seq![] })
    } else {
        let v = t[p];
        let span = span_of(v, sid);
        match v.data {
            DataV::Macro => p_macro(t, sid, p + 1, span),
            DataV::Word(_) | DataV::Symbol { .. } => {
                let w = word_of(v)->0;
                if w == "["@ {
                    match p_seq(t, sid, p + 1, "]"@) {
                        Ok((ns, c)) => Ok(
                            (leaf(KindV::Quotation(ns), merge_v(span, span_of(t[c], sid))), c + 1),
                        ),
                        Err(None) => Err(PErrV::UnclosedDelimiter { span, delimiter: "["@ }),
                        Err(Some(e)) => Err(e),
                    }
                } else if w == "{"@ {
                    match p_seq(t, sid, p + 1, "}"@) {
                        Ok((ns, c)) => Ok(
                            (leaf(KindV::Vector(ns), merge_v(span, span_of(t[c], sid))), c + 1),
                        ),
                        Err(None) => Err(PErrV::UnclosedDelimiter { span, delimiter: "{"@ }),
                        Err(Some(e)) => Err(e),
                    }
                } else if w == ":"@ {
                    p_def(t, sid, p + 1, span)
                } else if w == "\\"@ {
                    if p + 1 < t.len() {
                        Ok(
                            (
                                leaf(KindV::Literal(t[p + 1]), merge_v(span, span_of(t[p + 1], sid))),
                                p + 2,
                            ),
                        )
                    } else {
                        Err(PErrV::UnexpectedEof { span, context: "token after '\\'"@ })
                    }
                } else if w == "]"@ || w == "}"@ || w == ";"@ {
                    Err(
                        PErrV::UnexpectedToken {
                            span,
                            message: "unexpected closing delimiter '"@ + w + "'"@,
                        },
                    )
                } else {
                    Ok((leaf(KindV::Word { module: None, name: w }, span), p + 1))
                }
            },
            _ => Ok((leaf(KindV::Literal(v), span), p + 1)),
        }
    }
}

/// `: name ( sig ) body ;` with the name at `i`.
pub open spec fn p_def(t: Seq<ValueV>, sid: Seq<char>, i: int, cspan: SpanV) -> Result<
    (NodeV, int),
    PErrV,
>
    decreases t.len() - i, 2int,
{
    if i < 0 || i >= t.len() {
        Err(PErrV::UnexpectedEof { span: cspan, context: "word name after ':'"@ })
    } else {
        match word_of(t[i]) {
            None => Err(
                PErrV::UnexpectedToken {
                    span: span_of(t[i], sid),
                    message: "expected word name after ':', got "@ + crate::value::debug_data(
                        t[i].data,
                    ),
                },
            ),
            Some(name) => {
                let sig = if i + 1 < t.len() && word_of(t[i + 1]) == Some("("@) {
                    p_sig(t, sid, i + 1)
                } else {
                    Ok((default_sig(), i + 1))
                };
                match sig {
                    Err(e) => Err(e),
                    Ok((type_sig, q)) => if i < q <= t.len() {
                        match p_seq(t, sid, q, ";"@) {
                            Ok((body, c)) => Ok(
                                (
                                    leaf(
                                        KindV::Definition { name, type_sig, body },
                                        merge_v(cspan, span_of(t[c], sid)),
                                    ),
                                    c + 1,
                                ),
                            ),
                            Err(None) => Err(PErrV::UnclosedDefinition { span: cspan }),
                            Err(Some(e)) => Err(e),
                        }
                    } else {
                        Err(PErrV::UnclosedDefinition { span: cspan })
                    },
                }
            },
        }
    }
}

/// Items from `p` up to the word `closer`: the nodes and the closer's
/// index; `Err(None)` when the tokens run out first.
pub open spec fn p_seq(t: Seq<ValueV>, sid: Seq<char>, p: int, closer: Seq<char>) -> Result<
    (Seq<NodeV>, int),
    Option<PErrV>,
>
    decreases t.len() - p, 1int,
{
    if p < 0 || p >= t.len() {
        Err(None)
    } else if word_of(t[p]) == Some(closer) {
        Ok((seq![], p))
    } else {
        match p_item(t, sid, p) {
            Err(e) => Err(Some(e)),
            Ok((n, q)) => if p < q <= t.len() {
                match p_seq(t, sid, q, closer) {
                    Ok((ns, c)) => Ok((seq![n] + ns, c)),
                    Err(x) => Err(x),
                }
            } else {
                Err(None)
            },
        }
    }
}

/// All items from `p` to the end.
pub open spec fn p_top(t: Seq<ValueV>, sid: Seq<char>, p: int) -> Result<Seq<NodeV>, PErrV>
    decreases t.len() - p,
{
    if p < 0 || p >= t.len() {
        Ok(seq![])
    } else {
        match p_item(t, sid, p) {
            Err(e) => Err(e),
            Ok((n, q)) => if p < q <= t.len() {
                match p_top(t, sid, q) {
                    Ok(ns) => Ok(seq![n] + ns),
                    Err(e) => Err(e),
                }
            } else {
                Ok(seq![n])
            },
        }
    }
}

// ── The parser ───────────────────────────────────────────────────────────────

/// `prefix` put in front of the nodes of a block's outcome.
pub open spec fn prepend_nodes(prefix: Seq<NodeV>, r: Result<(Seq<NodeV>, int), Option<PErrV>>) -> Result<
    (Seq<NodeV>, int),
    Option<PErrV>,
> {
    match r {
        Ok((ns, c)) => Ok((prefix + ns, c)),
        Err(x) => Err(x),
    }
}

/// `prefix` put in front of the nodes of a program's outcome.
pub open spec fn prepend_top(prefix: Seq<NodeV>, r: Result<Seq<NodeV>, PErrV>) -> Result<
    Seq<NodeV>,
    PErrV,
> {
    match r {
        Ok(ns) => Ok(prefix + ns),
        Err(e) => Err(e),
    }
}

pub proof fn lemma_push_node(ns: Seq<AstNode>, n: AstNode)
    ensures
        nodes_v(ns.push(n)) == nodes_v(ns).push(node_v(n)),
{
    assert(ns.push(n).subrange(0, ns.len() as int) =~= ns);
}

/// Converts a raw scanned token stream into a Tardi AST.
pub struct Parser {
    tokens: Vec<Value>,
    pos: usize,
    source_id: String,
}

impl Parser {
    /// The tokens, as values.
    pub closed spec fn toks(&self) -> Seq<ValueV> {
        values_v(self.tokens@)
    }

    /// The index of the next token.
    pub closed spec fn at(&self) -> int {
        self.pos as int
    }

    /// The source the spans are reported in.
    pub closed spec fn sid(&self) -> Seq<char> {
        self.source_id@
    }

    pub closed spec fn wf(&self) -> bool {
        &&& self.pos <= self.tokens@.len()
        &&& tokens_fit(values_v(self.tokens@))
        &&& values_v(self.tokens@).len() == self.tokens@.len()
        &&& forall|i: int| 0 <= i < self.tokens@.len() ==> values_v(self.tokens@)[i] == value_v(#[trigger] self.tokens@[i])
    }

    /// Only the position moved, forwards.
    pub closed spec fn moved_from(&self, old: &Parser) -> bool {
        &&& self.wf()
        &&& self.tokens@ == old.tokens@
        &&& self.source_id@ == old.source_id@
        &&& old.pos <= self.pos
    }

    /// A parser over `tokens`, reporting spans in `source_id`.
    pub fn new(tokens: Vec<Value>, source_id: &str) -> (r: Parser)
        requires
            tokens_fit(values_v(tokens@)),
        ensures
            r.wf(),
            r.toks() == values_v(tokens@),
            r.sid() == source_id@,
            r.at() == 0,
    {
        proof {
            lemma_values_v(tokens@);
        }
        Parser { tokens, pos: 0, source_id: string_of(source_id) }
    }

    fn value_span(&self, v: &Value) -> (r: Span)
        requires
            v.pos matches Some(p) ==> pos_fits(p),
        ensures
            r@ == span_of(v@, self.sid()),
    {
        match &v.pos {
            Some(p) => Span::from_pos(self.source_id.clone(), p),
            None => Span::unknown(self.source_id.clone()),
        }
    }

    /// Whether the next token is the word `w`.
    fn peek_word_is(&self, w: &str) -> (r: bool)
        requires
            self.wf(),
        ensures
            r == (self.at() < self.toks().len() && word_of(self.toks()[self.at()]) == Some(w@)),
    {
        if self.pos >= self.tokens.len() {
            return false;
        }
        match &self.tokens[self.pos].data {
            ValueData::Word(x) => crate::text::string_eq_lit(x, w),
            ValueData::Symbol { word, .. } => crate::text::string_eq_lit(word, w),
            _ => false,
        }
    }

    /// The word a token spells, if any.
    fn word_text(v: &Value) -> (r: Option<String>)
        ensures
            r matches Some(w) ==> word_of(v@) == Some(w@),
            r is None ==> word_of(v@) is None,
    {
        match &v.data {
            ValueData::Word(x) => Some(x.clone()),
            ValueData::Symbol { word, .. } => Some(word.clone()),
            _ => None,
        }
    }

    /// Moves past the next token and returns a copy of it.
    fn advance(&mut self) -> (r: Value)
        requires
            old(self).wf(),
            old(self).at() < old(self).toks().len(),
        ensures
            final(self).moved_from(old(self)),
            final(self).at() == old(self).at() + 1,
            r@ == old(self).toks()[old(self).at()],
            r.pos matches Some(p) ==> pos_fits(p),
    {
        let n = self.tokens.len();
        assert(self.pos < n);
        let v = clone_value(&self.tokens[self.pos]);
        assert(self.toks()[self.at()] == value_v(self.tokens@[self.at()]));
        self.pos = self.pos + 1;
        v
    }

    /// Parses the whole token stream (from the current position) into a
    /// `Program` node.
    pub fn parse(&mut self) -> (r: Result<AstNode, ParseError>)
        requires
            old(self).wf(),
        ensures
            final(self).wf(),
            final(self).toks() == old(self).toks(),
            match p_top(old(self).toks(), old(self).sid(), old(self).at()) {
                Ok(ns) => r is Ok && r->Ok_0@ == leaf(KindV::Program(ns), unknown_span(old(self).sid())),
                Err(e) => r is Err && r->Err_0@ == e,
            },
            r matches Ok(n) ==> sigs_wf(n@),
    {
        let ghost t = self.toks();
        let ghost sid = self.sid();
        let ghost p0 = self.at();
        let prog_span = Span::unknown(self.source_id.clone());
        let mut items: Vec<AstNode> = Vec::new();
        while self.pos < self.tokens.len()
            invariant
                self.moved_from(old(self)),
                t == self.toks(),
                sid == self.sid(),
                t == old(self).toks(),
                sid == old(self).sid(),
                p0 == old(self).at(),
                prog_span@ == unknown_span(sid),
                p_top(t, sid, p0) == prepend_top(nodes_v(items@), p_top(t, sid, self.at())),
                seq_sigs_wf(nodes_v(items@)),
            decreases t.len() - self.at(),
        {
            let ghost p = self.at();
            match self.parse_item() {
                Err(e) => {
                    return Err(e);
                },
                Ok(None) => {
                    return Ok(AstNode::new(NodeKind::Program(items), prog_span));
                },
                Ok(Some(node)) => {
                    proof {
                        lemma_push_node(items@, node);
                        assert(nodes_v(items@) + (seq![node_v(node)] + p_top(t, sid, self.at())->Ok_0)
                            =~= nodes_v(items@).push(node_v(node)) + p_top(t, sid, self.at())->Ok_0);
                        assert(nodes_v(items@).push(node_v(node)).drop_last() =~= nodes_v(items@));
                    }
                    items.push(node);
                },
            }
        }
        assert(nodes_v(items@) + seq![] =~= nodes_v(items@));
        Ok(AstNode::new(NodeKind::Program(items), prog_span))
    }

    /// Parses the item at the current position; `None` at the end.
    #[verifier::rlimit(40)]
    fn parse_item(&mut self) -> (r: Result<Option<AstNode>, ParseError>)
        requires
            old(self).wf(),
        ensures
            final(self).moved_from(old(self)),
            old(self).at() >= old(self).toks().len() ==> r matches Ok(None),
            old(self).at() < old(self).toks().len() ==> match p_item(
                old(self).toks(),
                old(self).sid(),
                old(self).at(),
            ) {
                Ok((n, q)) => r matches Ok(Some(node)) && node@ == n && final(self).at() == q
                    && old(self).at() < q <= old(self).toks().len(),
                Err(e) => r is Err && r->Err_0@ == e,
            },
            closer_at(old(self).toks(), old(self).at()) ==> final(self).at() == old(self).at(),
            r matches Ok(Some(node)) ==> sigs_wf(node@),
        decreases old(self).toks().len() - old(self).at(), 0int,
    {
        if self.pos >= self.tokens.len() {
            return Ok(None);
        }
        let ghost t = self.toks();
        let ghost sid = self.sid();
        let ghost p = self.at();
        proof {
            lemma_closers_distinct();
        }
        let value = self.advance();
        let span = self.value_span(&value);
        match &value.data {
            ValueData::Macro => self.parse_macro_definition(span),
            ValueData::Word(_) | ValueData::Symbol { .. } => {
                let w = match Parser::word_text(&value) {
                    Some(w) => w,
                    None => string_of(""),
                };
                if crate::text::string_eq_lit(&w, "[") {
                    match self.parse_until("]") {
                        Ok(nodes) => {
                            let close = self.advance();
                            let close_span = self.value_span(&close);
                            Ok(Some(AstNode::new(NodeKind::Quotation(nodes), Span::merge(&span, &close_span))))
                        },
                        Err(None) => Err(ParseError::unclosed_delimiter(span, string_of("["))),
                        Err(Some(e)) => Err(e),
                    }
                } else if crate::text::string_eq_lit(&w, "{") {
                    match self.parse_until("}") {
                        Ok(nodes) => {
                            let close = self.advance();
                            let close_span = self.value_span(&close);
                            Ok(Some(AstNode::new(NodeKind::Vector(nodes), Span::merge(&span, &close_span))))
                        },
                        Err(None) => Err(ParseError::unclosed_delimiter(span, string_of("{"))),
                        Err(Some(e)) => Err(e),
                    }
                } else if crate::text::string_eq_lit(&w, ":") {
                    self.parse_definition(span)
                } else if crate::text::string_eq_lit(&w, "\\") {
                    if self.pos < self.tokens.len() {
                        let token = self.advance();
                        let token_span = self.value_span(&token);
                        let merged = Span::merge(&span, &token_span);
                        Ok(Some(AstNode::new(NodeKind::Literal(token), merged)))
                    } else {
                        Err(ParseError::unexpected_eof(span, string_of("token after '\\'")))
                    }
                } else if crate::text::string_eq_lit(&w, "]") || crate::text::string_eq_lit(&w, "}")
                    || crate::text::string_eq_lit(&w, ";") {
                    let mut m: Vec<char> = Vec::new();
                    push_lit(&mut m, "unexpected closing delimiter '");
                    push_string(&mut m, &w);
                    push_lit(&mut m, "'");
                    // the closing word is left unread
                    self.pos = self.pos - 1;
                    Err(ParseError::unexpected_token(span, string_from_chars(m.as_slice())))
                } else {
                    Ok(Some(AstNode::new(NodeKind::Word { module: None, name: w }, span)))
                }
            },
            _ => Ok(Some(AstNode::new(NodeKind::Literal(value), span))),
        }
    }

    /// Parses items up to the word `closer`, which is left unread; `None`
    /// as the error when the tokens run out first.
    fn parse_until(&mut self, closer: &str) -> (r: Result<Vec<AstNode>, Option<ParseError>>)
        requires
            old(self).wf(),
        ensures
            final(self).moved_from(old(self)),
            match p_seq(old(self).toks(), old(self).sid(), old(self).at(), closer@) {
                Ok((ns, c)) => r is Ok && nodes_v(r->Ok_0@) == ns && final(self).at() == c
                    && c < old(self).toks().len(),
                Err(None) => r matches Err(None),
                Err(Some(e)) => r matches Err(Some(x)) && x@ == e,
            },
            r matches Ok(nodes) ==> seq_sigs_wf(nodes_v(nodes@)),
        decreases old(self).toks().len() - old(self).at(), 1int,
    {
        let ghost t = self.toks();
        let ghost sid = self.sid();
        let ghost p0 = self.at();
        let mut nodes: Vec<AstNode> = Vec::new();
        loop
            invariant
                self.moved_from(old(self)),
                t == self.toks(),
                sid == self.sid(),
                t == old(self).toks(),
                sid == old(self).sid(),
                p0 == old(self).at(),
                p0 <= self.at() <= t.len(),
                p_seq(t, sid, p0, closer@) == prepend_nodes(nodes_v(nodes@), p_seq(t, sid, self.at(), closer@)),
                seq_sigs_wf(nodes_v(nodes@)),
            decreases t.len() - self.at(),
        {
            if self.pos >= self.tokens.len() {
                return Err(None);
            }
            if self.peek_word_is(closer) {
                assert(nodes_v(nodes@) + seq![] =~= nodes_v(nodes@));
                return Ok(nodes);
            }
            match self.parse_item() {
                Err(e) => {
                    return Err(Some(e));
                },
                Ok(None) => {
                    return Err(None);
                },
                Ok(Some(node)) => {
                    proof {
                        lemma_push_node(nodes@, node);
                        let q = self.at();
                        match p_seq(t, sid, q, closer@) {
                            Ok((ns, c)) => {
                                assert(nodes_v(nodes@) + (seq![node_v(node)] + ns) =~= nodes_v(
                                    nodes@,
                                ).push(node_v(node)) + ns);
                            },
                            Err(x) => {},
                        }
                        assert(nodes_v(nodes@).push(node_v(node)).drop_last() =~= nodes_v(nodes@));
                    }
                    nodes.push(node);
                },
            }
        }
    }

    /// Parses `: name ( sig ) body ;` with the name next.
    fn parse_definition(&mut self, colon_span: Span) -> (r: Result<Option<AstNode>, ParseError>)
        requires
            old(self).wf(),
            colon_span@.source == old(self).sid(),
        ensures
            final(self).moved_from(old(self)),
            match p_def(old(self).toks(), old(self).sid(), old(self).at(), colon_span@) {
                Ok((n, q)) => r matches Ok(Some(node)) && node@ == n && final(self).at() == q
                    && old(self).at() < q <= old(self).toks().len(),
                Err(e) => r is Err && r->Err_0@ == e,
            },
            r matches Ok(Some(node)) ==> sigs_wf(node@),
        decreases old(self).toks().len() - old(self).at(), 2int,
    {
        let ghost t = self.toks();
        let ghost sid = self.sid();
        let ghost i = self.at();
        if self.pos >= self.tokens.len() {
            return Err(ParseError::unexpected_eof(colon_span, string_of("word name after ':'")));
        }
        let name_value = self.advance();
        let name = match Parser::word_text(&name_value) {
            Some(w) => w,
            None => {
                let mut m: Vec<char> = Vec::new();
                push_lit(&mut m, "expected word name after ':', got ");
                let d = name_value.data.to_debug_string();
                push_string(&mut m, &d);
                let span = self.value_span(&name_value);
                return Err(ParseError::unexpected_token(span, string_from_chars(m.as_slice())));
            },
        };
        let type_sig = if self.peek_word_is("(") {
            match self.parse_type_sig() {
                Ok(sig) => sig,
                Err(e) => return Err(e),
            }
        } else {
            TypeSig::pure(Row::empty(), Row::empty())
        };
        match self.parse_until(";") {
            Ok(body) => {
                let close = self.advance();
                let close_span = self.value_span(&close);
                let merged = Span::merge(&colon_span, &close_span);
                Ok(Some(AstNode::new(NodeKind::Definition { name, type_sig, body }, merged)))
            },
            Err(None) => Err(ParseError::unclosed_definition(colon_span)),
            Err(Some(e)) => Err(e),
        }
    }

    /// Parses `( inputs -- outputs | effects )`, with the `(` next.
    fn parse_type_sig(&mut self) -> (r: Result<TypeSig, ParseError>)
        requires
            old(self).wf(),
            old(self).at() < old(self).toks().len(),
        ensures
            final(self).moved_from(old(self)),
            match p_sig(old(self).toks(), old(self).sid(), old(self).at()) {
                Ok((sig, e)) => r is Ok && r->Ok_0@ == sig && final(self).at() == e
                    && old(self).at() < e <= old(self).toks().len(),
                Err(x) => r is Err && r->Err_0@ == x,
            },
            r matches Ok(sig) ==> sig.wf(),
    {
        let ghost t = self.toks();
        let ghost i = self.at();
        let open = self.advance();
        let open_span = self.value_span(&open);
        let mut text: Vec<char> = Vec::new();
        text.push('(');
        let ghost mut parts: Seq<Seq<char>> = seq!["("@];
        proof {
            reveal_strlit("(");
            assert(text@ =~= crate::text::join(parts, " "@));
        }
        let mut depth: usize = 1;
        while self.pos < self.tokens.len()
            invariant
                self.moved_from(old(self)),
                t == self.toks(),
                t == old(self).toks(),
                i == old(self).at(),
                i < self.at() <= t.len(),
                1 <= depth <= self.at() - i,
                parts.len() >= 1,
                text@ == crate::text::join(parts, " "@),
                sig_words(t, self.at(), depth as int, parts) == sig_words(t, i + 1, 1, seq!["("@]),
                open_span@ == span_of(t[i], old(self).sid()),
            decreases t.len() - self.at(),
        {
            let value = self.advance();
            let ghost w = word_of(value@);
            let piece = match Parser::word_text(&value) {
                Some(w) => {
                    if crate::text::string_eq_lit(&w, "(") {
                        depth = depth + 1;
                    } else if crate::text::string_eq_lit(&w, ")") {
                        depth = depth - 1;
                    }
                    w
                },
                None => value.data.to_display_string(),
            };
            text.push(' ');
            push_string(&mut text, &piece);
            proof {
                assert(text@ =~= crate::text::join(parts, " "@) + " "@ + piece@) by {
                    reveal_strlit(" ");
                }
                let old_parts = parts;
                parts = parts.push(piece@);
                assert(parts.drop_last() =~= old_parts);
            }
            if depth == 0 {
                let joined = string_from_chars(text.as_slice());
                return match crate::types::parse_type_sig(joined.as_str()) {
                    Ok(sig) => Ok(sig),
                    Err(e) => Err(ParseError::invalid_type_sig(open_span, e.0)),
                };
            }
        }
        Err(ParseError::unclosed_delimiter(open_span, string_of("(")))
    }

    /// Parses `MACRO: name body ;` with the name next; the body is kept as
    /// raw tokens.
    fn parse_macro_definition(&mut self, macro_span: Span) -> (r: Result<Option<AstNode>, ParseError>)
        requires
            old(self).wf(),
            macro_span@.source == old(self).sid(),
        ensures
            final(self).moved_from(old(self)),
            match p_macro(old(self).toks(), old(self).sid(), old(self).at(), macro_span@) {
                Ok((n, q)) => r matches Ok(Some(node)) && node@ == n && final(self).at() == q
                    && old(self).at() < q <= old(self).toks().len(),
                Err(e) => r is Err && r->Err_0@ == e,
            },
            r matches Ok(Some(node)) ==> sigs_wf(node@),
    {
        let ghost t = self.toks();
        let ghost i = self.at();
        if self.pos >= self.tokens.len() {
            return Err(ParseError::unexpected_eof(macro_span, string_of("macro name after 'MACRO:'")));
        }
        let name_value = self.advance();
        let name = match Parser::word_text(&name_value) {
            Some(w) => w,
            None => {
                let span = self.value_span(&name_value);
                return Err(
                    ParseError::unexpected_token(span, string_of("expected macro name after 'MACRO:'")),
                );
            },
        };
        let mut body: Vec<Value> = Vec::new();
        while self.pos < self.tokens.len()
            invariant
                self.moved_from(old(self)),
                t == self.toks(),
                t == old(self).toks(),
                i == old(self).at(),
                i < self.at() <= t.len(),
                values_v(body@) == t.subrange(i + 1, self.at()),
                macro_span@.source == self.sid(),
                word_of(t[i]) == Some(name@),
                old(self).sid() == self.sid(),
                find_word(t, self.at(), ";"@) == find_word(t, i + 1, ";"@),
            decreases t.len() - self.at(),
        {
            if self.peek_word_is(";") {
                let ghost c = self.at();
                assert(find_word(t, c, ";"@) == Some(c));
                let close = self.advance();
                let close_span = self.value_span(&close);
                let merged = Span::merge(&macro_span, &close_span);
                assert(values_v(body@) == t.subrange(i + 1, c));
                assert(close_span@ == span_of(t[c], old(self).sid()));
                return Ok(Some(AstNode::new(NodeKind::MacroDefinition { name, body }, merged)));
            }
            let v = self.advance();
            proof {
                assert(body@.push(v).subrange(0, body@.len() as int) =~= body@);
            }
            body.push(v);
            assert(values_v(body@) =~= t.subrange(i + 1, self.at()));
        }
        Err(ParseError::unclosed_definition(macro_span))
    }
}


proof fn lemma_escape_word_distinct()
    ensures
        "\\"@ != "["@ && "\\"@ != "{"@ && "\\"@ != ":"@,
{
    reveal_strlit("[");
    reveal_strlit("{");
    reveal_strlit(":");
    reveal_strlit("\\");
    assert("["@ =~= seq!['[']);
    assert("{"@ =~= seq!['{']);
    assert(":"@ =~= seq![':']);
    assert("\\"@ =~= seq!['\\']);
    assert("\\"@[0] != "["@[0]);
    assert("\\"@[0] != "{"@[0]);
    assert("\\"@[0] != ":"@[0]);
}

/// `\ tok` is the literal of exactly the token after the backslash: an
/// item that starts with the word `\` followed by a token is a literal
/// node holding that following token, and parsing goes on after it.
pub proof fn law_escaped_token_is_literal(t: Seq<ValueV>, sid: Seq<char>, p: int)
    requires
        0 <= p,
        p + 1 < t.len(),
        t[p].data is Word || t[p].data is Symbol,
        word_of(t[p]) == Some("\\"@),
    ensures
        p_item(t, sid, p) matches Ok((n, q)) && q == p + 2 && n.kind == KindV::Literal(t[p + 1]),
{
    lemma_escape_word_distinct();
}

} // verus!
