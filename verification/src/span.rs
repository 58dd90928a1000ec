//! Source positions and ranges.

use vstd::prelude::*;

use crate::value::Pos;

verus! {

/// A single position (line/column/byte offset) in source.
#[derive(Debug, PartialEq, Eq, Clone, Copy)]
pub struct Position {
    /// 1-based line number
    pub line: usize,
    /// 1-based column number
    pub column: usize,
    /// 0-based byte offset from start of source
    pub offset: usize,
}

/// A source range from `start` (inclusive) to `end` (exclusive).
#[derive(Debug, PartialEq, Eq)]
pub struct Span {
    pub source: String,
    pub start: Position,
    pub end: Position,
}

/// Model of a span.
pub struct SpanV {
    pub source: Seq<char>,
    pub start: Position,
    pub end: Position,
}

impl View for Span {
    type V = SpanV;

    open spec fn view(&self) -> SpanV {
        SpanV { source: self.source@, start: self.start, end: self.end }
    }
}

impl Clone for Span {
    fn clone(&self) -> (r: Self)
        ensures
            r@ == self@,
    {
        Span { source: self.source.clone(), start: self.start, end: self.end }
    }
}

impl Span {
    /// Build a `Span` from a scanner `Pos` (single-token range).
    pub fn from_pos(source: String, pos: &Pos) -> (r: Span)
        requires
            pos.column + pos.length <= usize::MAX,
            pos.offset + pos.length <= usize::MAX,
        ensures
            r@ == (SpanV {
                source: source@,
                start: Position { line: pos.line, column: pos.column, offset: pos.offset },
                end: Position {
                    line: pos.line,
                    column: (pos.column + pos.length) as usize,
                    offset: (pos.offset + pos.length) as usize,
                },
            }),
    {
        Span {
            start: Position { line: pos.line, column: pos.column, offset: pos.offset },
            end: Position {
                line: pos.line,
                column: pos.column + pos.length,
                offset: pos.offset + pos.length,
            },
            source,
        }
    }

    /// Merge two spans of one source into one covering from `start.start`
    /// to `end.end`.
    pub fn merge(start: &Span, end: &Span) -> (r: Span)
        requires
            start@.source == end@.source,
        ensures
            r@ == (SpanV { source: start@.source, start: start.start, end: end.end }),
    {
        Span { source: start.source.clone(), start: start.start, end: end.end }
    }

    /// A sentinel span used when source location is unavailable.
    pub fn unknown(source: String) -> (r: Span)
        ensures
            r@ == (SpanV {
                source: source@,
                start: Position { line: 0, column: 0, offset: 0 },
                end: Position { line: 0, column: 0, offset: 0 },
            }),
    {
        let pos = Position { line: 0, column: 0, offset: 0 };
        Span { source, start: pos, end: pos }
    }
}

/// How a span is written: `source:line:column` of its start.
pub open spec fn span_text(s: SpanV) -> Seq<char> {
    s.source + seq![':'] + crate::text::decimal(s.start.line as nat) + seq![':'] + crate::text::decimal(
        s.start.column as nat,
    )
}

impl Span {
    /// The span written as `source:line:column` of its start.
    pub fn to_display_string(&self) -> (r: String)
        ensures
            r@ == span_text(self@),
    {
        let mut out = crate::text::chars_of_string(&self.source);
        out.push(':');
        crate::text::push_decimal(&mut out, self.start.line);
        out.push(':');
        crate::text::push_decimal(&mut out, self.start.column);
        crate::text::string_from_chars(out.as_slice())
    }
}

} // verus!
