//! The front end run on source text: scan, parse and type-check.
//!
//! ```text
//! source  →  Scanner  →  Parser  →  AstNode
//!                                      ↓
//!                              TypeChecker  →  annotated AstNode
//! ```

use vstd::prelude::*;

use crate::ast::{AstNode, KindV, NodeV};
use crate::parser::{leaf, p_top, unknown_span, PErrV, ParseError, Parser};
use crate::scanner::{all_tokens, scan_all, scan_err_message, scanned_values, SANDBOX};
use crate::span::Span;
use crate::text::{push_lit, push_string, string_from_chars};
use crate::typechecker::{env_v, env_wf, tc_check, TErrV, TypeChecker, TypeError};
use crate::types::TypeSig;

verus! {

/// An error of the front end.
#[derive(Debug)]
pub enum AnalysisError {
    /// The source could not be scanned or parsed into an AST.
    Parse(ParseError),
    /// The AST did not pass type checking.
    Type(TypeError),
}

pub enum AErrV {
    Parse(PErrV),
    Type(TErrV),
}

/// How an error of the front end is written.
pub open spec fn analysis_err_message(e: AErrV) -> Seq<char> {
    match e {
        AErrV::Parse(x) => "parse error: "@ + crate::parser::parse_err_message(x),
        AErrV::Type(x) => "type error: "@ + crate::typechecker::type_err_message(x),
    }
}

impl AnalysisError {
    /// The error as it is reported.
    pub fn message(&self) -> (r: String)
        ensures
            r@ == analysis_err_message(self@),
    {
        let mut out: Vec<char> = Vec::new();
        match self {
            AnalysisError::Parse(e) => {
                push_lit(&mut out, "parse error: ");
                push_string(&mut out, &e.message());
            },
            AnalysisError::Type(e) => {
                push_lit(&mut out, "type error: ");
                push_string(&mut out, &e.message());
            },
        }
        string_from_chars(out.as_slice())
    }
}

impl View for AnalysisError {
    type V = AErrV;

    open spec fn view(&self) -> AErrV {
        match self {
            AnalysisError::Parse(e) => AErrV::Parse(e@),
            AnalysisError::Type(e) => AErrV::Type(e@),
        }
    }
}

/// What scanning and parsing `s` gives: the program, or the first error; a
/// scanner error is reported as an unexpected token at an unknown place.
pub open spec fn parse_source_spec(s: Seq<char>, sid: Seq<char>) -> Result<NodeV, AErrV> {
    match scanned_values(all_tokens(s, SANDBOX@, 0), s) {
        Err(x) => Err(
            AErrV::Parse(
                PErrV::UnexpectedToken {
                    span: unknown_span(sid),
                    message: "scanner error: "@ + scan_err_message(x),
                },
            ),
        ),
        Ok(vs) => match p_top(vs, sid, 0) {
            Ok(ns) => Ok(leaf(KindV::Program(ns), unknown_span(sid))),
            Err(e) => Err(AErrV::Parse(e)),
        },
    }
}

/// Scans and parses `source` into a `Program` node whose spans are
/// reported in `source_id`.
pub fn parse_source(source: &str, source_id: &str) -> (r: Result<AstNode, AnalysisError>)
    ensures
        match parse_source_spec(source@, source_id@) {
            Ok(n) => r is Ok && r->Ok_0@ == n,
            Err(e) => r is Err && r->Err_0@ == e,
        },
        r matches Ok(n) ==> crate::typechecker::sigs_wf(n@),
{
    let tokens = match scan_all(source) {
        Ok(t) => t,
        Err(e) => {
            let mut m: Vec<char> = Vec::new();
            push_lit(&mut m, "scanner error: ");
            let text = e.message();
            push_string(&mut m, &text);
            let span = Span::unknown(crate::text::string_of(source_id));
            return Err(
                AnalysisError::Parse(ParseError::unexpected_token(span, string_from_chars(m.as_slice()))),
            );
        },
    };
    let mut parser = Parser::new(tokens, source_id);
    match parser.parse() {
        Ok(n) => Ok(n),
        Err(e) => Err(AnalysisError::Parse(e)),
    }
}

/// Scans, parses and type-checks `source` against the word types `env`,
/// returning the annotated program.
pub fn check_source(source: &str, source_id: &str, env: Vec<(String, TypeSig)>) -> (r: Result<
    AstNode,
    AnalysisError,
>)
    requires
        env_wf(env_v(env@)),
    ensures
        match parse_source_spec(source@, source_id@) {
            Err(e) => r is Err && r->Err_0@ == e,
            Ok(n) => match tc_check(env_v(env@), n) {
                Ok((n2, _)) => r is Ok && r->Ok_0@ == n2,
                Err(e) => r is Err && r->Err_0@ == AErrV::Type(e),
            },
        },
{
    let mut ast = match parse_source(source, source_id) {
        Ok(a) => a,
        Err(e) => return Err(e),
    };
    let mut checker = TypeChecker::with_env(env);
    match checker.check(&mut ast) {
        Ok(()) => Ok(ast),
        Err(e) => Err(AnalysisError::Type(e)),
    }
}

} // verus!
