//! Tokens: the kinds of token a word of source can be, and how each is
//! written.

use vstd::prelude::*;

use crate::text::{int_text, push_string, string_from_chars, string_of};
use crate::value::{show_float, ValueData};

verus! {

/// The kind of a token, with its literal value where it has one. A float
/// is carried as the text it was written with.
#[derive(Debug)]
pub enum TokenType {
    Integer(i64),
    Float(String),
    Boolean(bool),
    Char(char),
    String(String),
    Word(String),
    Dup,
    Swap,
    Rot,
    Drop,
    StackSize,
    ToR,
    RFrom,
    RFetch,
    Plus,
    Dash,
    Star,
    Slash,
    EqualEqual,
    BangEqual,
    Less,
    Greater,
    LessEqual,
    GreaterEqual,
    Bang,
    MacroStart,
    Lit,
    CreateList,
    Append,
    Prepend,
    Concat,
    SplitHead,
    CreateString,
    ToString,
    Utf8ToString,
    StringConcat,
    Function,
    Lambda,
    Call,
    LeftCurly,
    RightCurly,
    ScanToken,
    ScanTokenList,
    ScanValueList,
    Error,
    EndOfInput,
}

/// Model of a token's kind.
pub enum TokenV {
    Integer(i64),
    Float(Seq<char>),
    Boolean(bool),
    Char(char),
    String(Seq<char>),
    Word(Seq<char>),
    Dup,
    Swap,
    Rot,
    Drop,
    StackSize,
    ToR,
    RFrom,
    RFetch,
    Plus,
    Dash,
    Star,
    Slash,
    EqualEqual,
    BangEqual,
    Less,
    Greater,
    LessEqual,
    GreaterEqual,
    Bang,
    MacroStart,
    Lit,
    CreateList,
    Append,
    Prepend,
    Concat,
    SplitHead,
    CreateString,
    ToString,
    Utf8ToString,
    StringConcat,
    Function,
    Lambda,
    Call,
    LeftCurly,
    RightCurly,
    ScanToken,
    ScanTokenList,
    ScanValueList,
    Error,
    EndOfInput,
}

impl View for TokenType {
    type V = TokenV;

    open spec fn view(&self) -> TokenV {
        match self {
            TokenType::Integer(i) => TokenV::Integer(*i),
            TokenType::Float(t) => TokenV::Float(t@),
            TokenType::Boolean(b) => TokenV::Boolean(*b),
            TokenType::Char(c) => TokenV::Char(*c),
            TokenType::String(s) => TokenV::String(s@),
            TokenType::Word(w) => TokenV::Word(w@),
            TokenType::Dup => TokenV::Dup,
            TokenType::Swap => TokenV::Swap,
            TokenType::Rot => TokenV::Rot,
            TokenType::Drop => TokenV::Drop,
            TokenType::StackSize => TokenV::StackSize,
            TokenType::ToR => TokenV::ToR,
            TokenType::RFrom => TokenV::RFrom,
            TokenType::RFetch => TokenV::RFetch,
            TokenType::Plus => TokenV::Plus,
            TokenType::Dash => TokenV::Dash,
            TokenType::Star => TokenV::Star,
            TokenType::Slash => TokenV::Slash,
            TokenType::EqualEqual => TokenV::EqualEqual,
            TokenType::BangEqual => TokenV::BangEqual,
            TokenType::Less => TokenV::Less,
            TokenType::Greater => TokenV::Greater,
            TokenType::LessEqual => TokenV::LessEqual,
            TokenType::GreaterEqual => TokenV::GreaterEqual,
            TokenType::Bang => TokenV::Bang,
            TokenType::MacroStart => TokenV::MacroStart,
            TokenType::Lit => TokenV::Lit,
            TokenType::CreateList => TokenV::CreateList,
            TokenType::Append => TokenV::Append,
            TokenType::Prepend => TokenV::Prepend,
            TokenType::Concat => TokenV::Concat,
            TokenType::SplitHead => TokenV::SplitHead,
            TokenType::CreateString => TokenV::CreateString,
            TokenType::ToString => TokenV::ToString,
            TokenType::Utf8ToString => TokenV::Utf8ToString,
            TokenType::StringConcat => TokenV::StringConcat,
            TokenType::Function => TokenV::Function,
            TokenType::Lambda => TokenV::Lambda,
            TokenType::Call => TokenV::Call,
            TokenType::LeftCurly => TokenV::LeftCurly,
            TokenType::RightCurly => TokenV::RightCurly,
            TokenType::ScanToken => TokenV::ScanToken,
            TokenType::ScanTokenList => TokenV::ScanTokenList,
            TokenType::ScanValueList => TokenV::ScanValueList,
            TokenType::Error => TokenV::Error,
            TokenType::EndOfInput => TokenV::EndOfInput,
        }
    }
}

/// How a character of a token is written: as itself.
pub open spec fn format_char_spec(c: char) -> Seq<char> {
    seq![c]
}

/// How the text of a token is written: each character as itself.
pub open spec fn format_str_spec(s: Seq<char>) -> Seq<char>
    decreases s.len(),
{
    if s.len() == 0 {
        seq![]
    } else {
        format_str_spec(s.drop_last()) + format_char_spec(s.last())
    }
}

proof fn lemma_format_str(s: Seq<char>)
    ensures
        format_str_spec(s) == s,
    decreases s.len(),
{
    if s.len() > 0 {
        lemma_format_str(s.drop_last());
        assert(s.drop_last() + seq![s.last()] =~= s);
    }
}

/// How a token is written.
pub open spec fn show_token(t: TokenV) -> Seq<char> {
    match t {
        TokenV::Integer(i) => int_text(i as int),
        TokenV::Float(x) => show_float(x),
        TokenV::Boolean(b) => if b { "#t"@ } else { "#f"@ },
        TokenV::Char(c) => seq!['\''] + format_char_spec(c) + seq!['\''],
        TokenV::String(s) => seq!['"'] + format_str_spec(s) + seq!['"'],
        TokenV::Word(w) => w,
        TokenV::Dup => "dup"@,
        TokenV::Swap => "swap"@,
        TokenV::Rot => "rot"@,
        TokenV::Drop => "drop"@,
        TokenV::StackSize => "stack-size"@,
        TokenV::ToR => ">r"@,
        TokenV::RFrom => "r>"@,
        TokenV::RFetch => "r@"@,
        TokenV::Plus => "+"@,
        TokenV::Dash => "-"@,
        TokenV::Star => "*"@,
        TokenV::Slash => "/"@,
        TokenV::EqualEqual => "=="@,
        TokenV::BangEqual => "!="@,
        TokenV::Less => "<"@,
        TokenV::Greater => ">"@,
        TokenV::LessEqual => "<="@,
        TokenV::GreaterEqual => ">="@,
        TokenV::Bang => "!"@,
        TokenV::MacroStart => "MACRO:"@,
        TokenV::Lit => "lit"@,
        TokenV::CreateList => "<list>"@,
        TokenV::Append => "append"@,
        TokenV::Prepend => "prepend"@,
        TokenV::Concat => "concat"@,
        TokenV::SplitHead => "split-head!"@,
        TokenV::CreateString => "<string>"@,
        TokenV::ToString => ">string"@,
        TokenV::Utf8ToString => "utf8>string"@,
        TokenV::StringConcat => "string-concat"@,
        TokenV::Function => "<function>"@,
        TokenV::Lambda => "<lambda>"@,
        TokenV::Call => "call"@,
        TokenV::LeftCurly => "{"@,
        TokenV::RightCurly => "}"@,
        TokenV::ScanToken => "scan-token"@,
        TokenV::ScanTokenList => "scan-token-list"@,
        TokenV::ScanValueList => "scan-value-list"@,
        TokenV::Error => "<error>"@,
        TokenV::EndOfInput => "<end-of-input>"@,
    }
}

/// A character of a token, written as itself.
pub fn format_char(c: char) -> (r: String)
    ensures
        r@ == format_char_spec(c),
{
    let mut v: Vec<char> = Vec::new();
    if c == '\n' {
        v.push('\n');
    } else if c == '\r' {
        v.push('\r');
    } else if c == '\t' {
        v.push('\t');
    } else {
        v.push(c);
    }
    assert(v@ =~= seq![c]);
    string_from_chars(v.as_slice())
}

/// The text of a token, each character written as itself.
pub fn format_str(s: &str) -> (r: String)
    ensures
        r@ == format_str_spec(s@),
{
    let chars = crate::text::chars_of(s);
    let mut out: Vec<char> = Vec::new();
    let mut i: usize = 0;
    while i < chars.len()
        invariant
            i <= chars@.len(),
            chars@ == s@,
            out@ == format_str_spec(chars@.subrange(0, i as int)),
        decreases chars@.len() - i,
    {
        let piece = format_char(chars[i]);
        let pc = crate::text::chars_of(piece.as_str());
        proof {
            assert(chars@.subrange(0, i + 1).drop_last() =~= chars@.subrange(0, i as int));
        }
        crate::text::push_all(&mut out, &pc);
        i = i + 1;
    }
    assert(chars@.subrange(0, i as int) =~= s@);
    string_from_chars(out.as_slice())
}

impl TokenType {
    /// How the token is written: its value for a literal (a boolean as
    /// `#t` or `#f`, a character in single quotes, a string in double
    /// quotes), its text for a word, and the word it stands for otherwise.
    pub fn to_display_string(&self) -> (r: String)
        ensures
            r@ == show_token(self@),
    {
        match self {
            TokenType::Integer(i) => {
                let mut v: Vec<char> = Vec::new();
                crate::text::push_i64(&mut v, *i);
                string_from_chars(v.as_slice())
            },
            TokenType::Float(t) => {
                let mut v: Vec<char> = Vec::new();
                crate::value::push_data(&mut v, &ValueData::Float(t.clone()));
                assert(v@ =~= show_float(t@));
                string_from_chars(v.as_slice())
            },
            TokenType::Boolean(b) => if *b { string_of("#t") } else { string_of("#f") },
            TokenType::Char(c) => {
                let mut v: Vec<char> = Vec::new();
                v.push('\'');
                let f = format_char(*c);
                push_string(&mut v, &f);
                v.push('\'');
                proof {
                    reveal_strlit("'");
                }
                assert(v@ =~= seq!['\''] + format_char_spec(*c) + seq!['\'']);
                string_from_chars(v.as_slice())
            },
            TokenType::String(s) => {
                let mut v: Vec<char> = Vec::new();
                v.push('"');
                let f = format_str(s.as_str());
                push_string(&mut v, &f);
                v.push('"');
                assert(v@ =~= seq!['"'] + format_str_spec(s@) + seq!['"']);
                string_from_chars(v.as_slice())
            },
            TokenType::Word(w) => w.clone(),
            TokenType::Dup => string_of("dup"),
            TokenType::Swap => string_of("swap"),
            TokenType::Rot => string_of("rot"),
            TokenType::Drop => string_of("drop"),
            TokenType::StackSize => string_of("stack-size"),
            TokenType::ToR => string_of(">r"),
            TokenType::RFrom => string_of("r>"),
            TokenType::RFetch => string_of("r@"),
            TokenType::Plus => string_of("+"),
            TokenType::Dash => string_of("-"),
            TokenType::Star => string_of("*"),
            TokenType::Slash => string_of("/"),
            TokenType::EqualEqual => string_of("=="),
            TokenType::BangEqual => string_of("!="),
            TokenType::Less => string_of("<"),
            TokenType::Greater => string_of(">"),
            TokenType::LessEqual => string_of("<="),
            TokenType::GreaterEqual => string_of(">="),
            TokenType::Bang => string_of("!"),
            TokenType::MacroStart => string_of("MACRO:"),
            TokenType::Lit => string_of("lit"),
            TokenType::CreateList => string_of("<list>"),
            TokenType::Append => string_of("append"),
            TokenType::Prepend => string_of("prepend"),
            TokenType::Concat => string_of("concat"),
            TokenType::SplitHead => string_of("split-head!"),
            TokenType::CreateString => string_of("<string>"),
            TokenType::ToString => string_of(">string"),
            TokenType::Utf8ToString => string_of("utf8>string"),
            TokenType::StringConcat => string_of("string-concat"),
            TokenType::Function => string_of("<function>"),
            TokenType::Lambda => string_of("<lambda>"),
            TokenType::Call => string_of("call"),
            TokenType::LeftCurly => string_of("{"),
            TokenType::RightCurly => string_of("}"),
            TokenType::ScanToken => string_of("scan-token"),
            TokenType::ScanTokenList => string_of("scan-token-list"),
            TokenType::ScanValueList => string_of("scan-value-list"),
            TokenType::Error => string_of("<error>"),
            TokenType::EndOfInput => string_of("<end-of-input>"),
        }
    }
}

/// A token: its kind, where it starts (line and column, 1-based; offset,
/// 0-based), its length in characters and its text.
#[derive(Debug)]
pub struct Token {
    pub token_type: TokenType,
    pub line: usize,
    pub column: usize,
    pub offset: usize,
    pub length: usize,
    pub lexeme: String,
}

impl Token {
    /// A token from its parts.
    pub fn new(token_type: TokenType, line: usize, column: usize, offset: usize, length: usize, lexeme: String) -> (r: Token)
        ensures
            r.token_type@ == token_type@,
            r.line == line,
            r.column == column,
            r.offset == offset,
            r.length == length,
            r.lexeme@ == lexeme@,
    {
        Token { token_type, line, column, offset, length, lexeme }
    }

    /// How the token is written: as its kind is.
    pub fn to_display_string(&self) -> (r: String)
        ensures
            r@ == show_token(self.token_type@),
    {
        self.token_type.to_display_string()
    }
}

} // verus!
