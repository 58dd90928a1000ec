//! The scanner: turns source text into a stream of values with positions.

use vstd::prelude::*;

use crate::text::{chars_of, chars_of_string, push_decimal, push_lit, string_from_chars, string_of};
use crate::value::{values_v, DataV, Pos, Value, ValueData, ValueV};

verus! {

/// The key of the sandbox module, where input strings are read into.
pub const SANDBOX: &'static str = "std/sandbox";

// ── Sources ──────────────────────────────────────────────────────────────────

/// Where the scanner's input came from.
#[derive(Debug)]
pub enum Source {
    InputString,
    ScriptFile { path: String },
    Module { name: String, path: String },
    Internal { name: String },
}

pub enum SourceV {
    InputString,
    ScriptFile { path: Seq<char> },
    Module { name: Seq<char>, path: Seq<char> },
    Internal { name: Seq<char> },
}

impl View for Source {
    type V = SourceV;

    open spec fn view(&self) -> SourceV {
        match self {
            Source::InputString => SourceV::InputString,
            Source::ScriptFile { path } => SourceV::ScriptFile { path: path@ },
            Source::Module { name, path } => SourceV::Module { name: name@, path: path@ },
            Source::Internal { name } => SourceV::Internal { name: name@ },
        }
    }
}

impl Default for Source {
    fn default() -> (r: Self)
        ensures
            r@ == SourceV::InputString,
    {
        Source::InputString
    }
}

/// `p` without its trailing slashes.
pub open spec fn trim_slashes(p: Seq<char>) -> Seq<char>
    decreases p.len(),
{
    if p.len() > 0 && p.last() == '/' {
        trim_slashes(p.drop_last())
    } else {
        p
    }
}

/// The index just after the last `c` in `s[..i]`, or 0.
pub open spec fn after_last(s: Seq<char>, c: char, i: int) -> int
    decreases i,
{
    if i <= 0 {
        0
    } else if s[i - 1] == c {
        i
    } else {
        after_last(s, c, i - 1)
    }
}

/// The last component of a path, as a file name.
pub open spec fn file_name(p: Seq<char>) -> Seq<char> {
    let t = trim_slashes(p);
    t.subrange(after_last(t, '/', t.len() as int), t.len() as int)
}

/// Whether the path names a file (its last component is neither empty, `.`
/// nor `..`).
pub open spec fn has_file_name(p: Seq<char>) -> bool {
    let n = file_name(p);
    n.len() > 0 && n != seq!['.'] && n != seq!['.', '.']
}

/// The file name without its extension: everything before the last `.`,
/// unless that dot opens the name.
pub open spec fn file_stem(p: Seq<char>) -> Seq<char> {
    let n = file_name(p);
    let d = after_last(n, '.', n.len() as int);
    if d <= 1 {
        n
    } else {
        n.subrange(0, d - 1)
    }
}

pub proof fn lemma_after_last(s: Seq<char>, c: char, i: int)
    requires
        0 <= i <= s.len(),
    ensures
        0 <= after_last(s, c, i) <= i,
        after_last(s, c, i) > 0 ==> s[after_last(s, c, i) - 1] == c,
        forall|k: int| after_last(s, c, i) <= k < i ==> s[k] != c,
    decreases i,
{
    if i > 0 && s[i - 1] != c {
        lemma_after_last(s, c, i - 1);
    }
}

pub proof fn lemma_trim_slashes(p: Seq<char>)
    ensures
        trim_slashes(p).len() <= p.len(),
        trim_slashes(p) == p.subrange(0, trim_slashes(p).len() as int),
    decreases p.len(),
{
    if p.len() > 0 && p.last() == '/' {
        lemma_trim_slashes(p.drop_last());
        assert(trim_slashes(p) =~= p.subrange(0, trim_slashes(p).len() as int));
    } else {
        assert(p =~= p.subrange(0, p.len() as int));
    }
}

fn after_last_exec(s: &Vec<char>, c: char, n: usize) -> (r: usize)
    requires
        n <= s@.len(),
    ensures
        r == after_last(s@, c, n as int),
{
    let mut i = n;
    while i > 0
        invariant
            i <= n <= s@.len(),
            after_last(s@, c, i as int) == after_last(s@, c, n as int),
        decreases i,
    {
        if s[i - 1] == c {
            return i;
        }
        i = i - 1;
    }
    0
}

/// The file stem of a path.
pub fn file_stem_of(p: &String) -> (r: String)
    ensures
        r@ == file_stem(p@),
{
    let chars = chars_of_string(p);
    let mut t = chars.len();
    assert(chars@.subrange(0, t as int) =~= chars@);
    while t > 0 && chars[t - 1] == '/'
        invariant
            t <= chars@.len(),
            trim_slashes(chars@.subrange(0, t as int)) == trim_slashes(p@),
            chars@ == p@,
        decreases t,
    {
        assert(chars@.subrange(0, t as int).drop_last() =~= chars@.subrange(0, t - 1));
        t = t - 1;
    }
    let ghost tv = chars@.subrange(0, t as int);
    assert(trim_slashes(tv) == tv);
    let slash = after_last_exec(&chars, '/', t);
    proof {
        lemma_after_last(chars@, '/', t as int);
        assert forall|k: int| 0 <= k <= t implies after_last(chars@, '/', k) == after_last(tv, '/', k)
            by {
            lemma_after_last_prefix(chars@, tv, '/', k);
        }
    }
    let mut name: Vec<char> = Vec::new();
    let mut k = slash;
    while k < t
        invariant
            slash <= k <= t <= chars@.len(),
            name@ == chars@.subrange(slash as int, k as int),
        decreases t - k,
    {
        name.push(chars[k]);
        k = k + 1;
        assert(name@ =~= chars@.subrange(slash as int, k as int));
    }
    assert(name@ =~= file_name(p@));
    let d = after_last_exec(&name, '.', name.len());
    proof {
        lemma_after_last(name@, '.', name@.len() as int);
    }
    if d <= 1 {
        string_from_chars(name.as_slice())
    } else {
        let mut stem: Vec<char> = Vec::new();
        let mut j: usize = 0;
        while j < d - 1
            invariant
                d <= name@.len(),
                j <= d - 1,
                stem@ == name@.subrange(0, j as int),
            decreases d - 1 - j,
        {
            stem.push(name[j]);
            j = j + 1;
            assert(stem@ =~= name@.subrange(0, j as int));
        }
        string_from_chars(stem.as_slice())
    }
}

pub proof fn lemma_after_last_prefix(s: Seq<char>, t: Seq<char>, c: char, i: int)
    requires
        0 <= i <= t.len() <= s.len(),
        t == s.subrange(0, t.len() as int),
    ensures
        after_last(s, c, i) == after_last(t, c, i),
    decreases i,
{
    if i > 0 {
        assert(s[i - 1] == t[i - 1]);
        lemma_after_last_prefix(s, t, c, i - 1);
    }
}

/// The module key of a source.
pub open spec fn key_of(s: SourceV) -> Seq<char> {
    match s {
        SourceV::InputString => SANDBOX@,
        SourceV::ScriptFile { path } => file_stem(path),
        SourceV::Module { name, .. } => name,
        SourceV::Internal { name } => name,
    }
}

/// Whether a source can give a key: a script's path must name a file.
pub open spec fn source_ok(s: SourceV) -> bool {
    match s {
        SourceV::ScriptFile { path } => has_file_name(path),
        _ => true,
    }
}

impl Source {
    /// The module key that words read from this source belong to.
    pub fn get_key(&self) -> (r: String)
        requires
            source_ok(self@),
        ensures
            r@ == key_of(self@),
    {
        match self {
            Source::InputString => string_of(SANDBOX),
            Source::ScriptFile { path } => file_stem_of(path),
            Source::Module { name, .. } => name.clone(),
            Source::Internal { name } => name.clone(),
        }
    }

    /// The path of the file this source was read from, if any.
    pub fn get_path(&self) -> (r: Option<String>)
        ensures
            r is Some <==> (self@ is ScriptFile || self@ is Module),
            r matches Some(p) ==> (match self@ {
                SourceV::ScriptFile { path } => p@ == path,
                SourceV::Module { path, .. } => p@ == path,
                _ => false,
            }),
    {
        match self {
            Source::InputString => None,
            Source::ScriptFile { path } => Some(path.clone()),
            Source::Module { path, .. } => Some(path.clone()),
            Source::Internal { .. } => None,
        }
    }
}

// ── Positions ────────────────────────────────────────────────────────────────

/// The number of bytes `c` takes in UTF-8.
pub open spec fn utf8_width(c: char) -> int {
    let u = c as u32;
    if u < 0x80 {
        1
    } else if u < 0x800 {
        2
    } else if u < 0x10000 {
        3
    } else {
        4
    }
}

/// The number of bytes `s` takes in UTF-8.
pub open spec fn utf8_len(s: Seq<char>) -> int
    decreases s.len(),
{
    if s.len() == 0 {
        0
    } else {
        utf8_len(s.drop_last()) + utf8_width(s.last())
    }
}

pub(crate) fn char_width(c: char) -> (r: usize)
    ensures
        r == utf8_width(c),
{
    let u = c as u32;
    if u < 0x80 {
        1
    } else if u < 0x800 {
        2
    } else if u < 0x10000 {
        3
    } else {
        4
    }
}

pub proof fn lemma_utf8_len_prefix(s: Seq<char>, i: int)
    requires
        0 <= i <= s.len(),
    ensures
        i <= utf8_len(s.take(i)) <= utf8_len(s),
    decreases s.len(),
{
    if i < s.len() {
        lemma_utf8_len_prefix(s.drop_last(), i);
        assert(s.drop_last().take(i) =~= s.take(i));
    } else {
        assert(s.take(i) =~= s);
        if s.len() > 0 {
            lemma_utf8_len_prefix(s.drop_last(), i - 1);
            assert(s.drop_last().take(i - 1) =~= s.drop_last());
        }
    }
}

/// `str::len`: the length of `s` in bytes, which is the sum of the UTF-8
/// widths of its characters; a `str` never spans more than `isize::MAX`
/// bytes.
#[verifier::external_body]
pub(crate) fn str_byte_len(s: &str) -> (r: usize)
    ensures
        r == utf8_len(s@),
        r <= isize::MAX,
{
    s.len()
}

/// A scanner position: index into the characters, line, column and byte
/// offset.
pub struct CursorV {
    pub index: int,
    pub line: int,
    pub column: int,
    pub offset: int,
}

/// The position after reading `c` at `p`.
pub open spec fn step(p: CursorV, c: char) -> CursorV {
    CursorV {
        index: p.index + 1,
        line: if c == '\n' { p.line + 1 } else { p.line },
        column: if c == '\n' { 1 } else { p.column + 1 },
        offset: p.offset + utf8_width(c),
    }
}

/// The position in front of character `i` of `s`, counted from line 1,
/// column 1, offset 0.
pub open spec fn cursor_at(s: Seq<char>, i: int) -> CursorV
    decreases i,
{
    if i <= 0 {
        CursorV { index: 0, line: 1, column: 1, offset: 0 }
    } else {
        step(cursor_at(s, i - 1), s[i - 1])
    }
}

pub proof fn lemma_cursor_at(s: Seq<char>, i: int)
    requires
        0 <= i <= s.len(),
    ensures
        cursor_at(s, i).index == i,
        1 <= cursor_at(s, i).line <= i + 1,
        1 <= cursor_at(s, i).column <= i + 1,
        cursor_at(s, i).offset == utf8_len(s.take(i)),
    decreases i,
{
    if i > 0 {
        lemma_cursor_at(s, i - 1);
        assert(s.take(i).drop_last() =~= s.take(i - 1));
    } else {
        assert(s.take(0) =~= seq![]);
    }
}

/// Where positions are counted from: the cursor `base` stands in front of
/// character `from`, and reading goes on from there.
pub struct FrameV {
    pub from: int,
    pub base: CursorV,
}

/// Counting from line 1, column 1, offset 0 at the first character.
pub open spec fn origin() -> FrameV {
    FrameV { from: 0, base: CursorV { index: 0, line: 1, column: 1, offset: 0 } }
}

/// The position in front of character `i` of `s`, counted in frame `f`.
pub open spec fn cursor_in(s: Seq<char>, f: FrameV, i: int) -> CursorV
    decreases i - f.from,
{
    if i <= f.from {
        CursorV { index: i, ..f.base }
    } else {
        step(cursor_in(s, f, i - 1), s[i - 1])
    }
}

/// In the origin frame, positions are those counted from the start.
pub proof fn lemma_cursor_in_origin(s: Seq<char>, i: int)
    requires
        0 <= i,
    ensures
        cursor_in(s, origin(), i) == cursor_at(s, i),
    decreases i,
{
    if i > 0 {
        lemma_cursor_in_origin(s, i - 1);
    }
}

/// A frame whose positions over all of `s` fit in a `usize`.
pub open spec fn frame_fits(s: Seq<char>, f: FrameV) -> bool {
    &&& 0 <= f.from
    &&& 0 <= f.base.line && 1 <= f.base.column && 0 <= f.base.offset
    &&& f.base.line + s.len() <= usize::MAX
    &&& f.base.column + s.len() <= usize::MAX
    &&& f.base.offset + utf8_len(s) <= usize::MAX
}

pub proof fn lemma_cursor_in(s: Seq<char>, f: FrameV, i: int)
    requires
        0 <= f.from <= i <= s.len(),
        0 <= f.base.line && 1 <= f.base.column && 0 <= f.base.offset,
    ensures
        cursor_in(s, f, i).index == i,
        f.base.line <= cursor_in(s, f, i).line <= f.base.line + (i - f.from),
        1 <= cursor_in(s, f, i).column <= f.base.column + (i - f.from),
        cursor_in(s, f, i).offset == f.base.offset + utf8_len(s.take(i)) - utf8_len(s.take(f.from)),
    decreases i - f.from,
{
    if i > f.from {
        lemma_cursor_in(s, f, i - 1);
        assert(s.take(i).drop_last() =~= s.take(i - 1));
    }
}

/// The position recorded for a token read from `s[start..end]`, counted
/// in frame `f`; the length is the token's number of characters.
pub open spec fn pos_in(s: Seq<char>, f: FrameV, start: int, end: int) -> Pos {
    let a = cursor_in(s, f, start);
    Pos {
        line: a.line as usize,
        column: a.column as usize,
        offset: a.offset as usize,
        length: (end - start) as usize,
    }
}

/// The position recorded for a token read from `s[start..end]`, counted
/// from the start of `s`.
pub open spec fn pos_of(s: Seq<char>, start: int, end: int) -> Pos {
    pos_in(s, origin(), start, end)
}

// ── Errors ───────────────────────────────────────────────────────────────────

/// What went wrong while scanning.
///
/// An I/O failure met while reading a source carries the failure's message.
#[derive(Debug)]
pub enum ScannerError {
    InvalidNumber(String),
    InvalidLiteral(String),
    UnexpectedCharacter(char),
    UnterminatedString,
    UnterminatedChar,
    InvalidEscapeSequence(String),
    IoError(String),
    UnexpectedEndOfInput,
    NotInitialized,
}

pub enum ScanErrV {
    InvalidNumber(Seq<char>),
    InvalidLiteral(Seq<char>),
    UnexpectedCharacter(char),
    UnterminatedString,
    UnterminatedChar,
    InvalidEscapeSequence(Seq<char>),
    IoError(Seq<char>),
    UnexpectedEndOfInput,
    NotInitialized,
}

impl View for ScannerError {
    type V = ScanErrV;

    open spec fn view(&self) -> ScanErrV {
        match self {
            ScannerError::InvalidNumber(s) => ScanErrV::InvalidNumber(s@),
            ScannerError::InvalidLiteral(s) => ScanErrV::InvalidLiteral(s@),
            ScannerError::UnexpectedCharacter(c) => ScanErrV::UnexpectedCharacter(*c),
            ScannerError::UnterminatedString => ScanErrV::UnterminatedString,
            ScannerError::UnterminatedChar => ScanErrV::UnterminatedChar,
            ScannerError::InvalidEscapeSequence(s) => ScanErrV::InvalidEscapeSequence(s@),
            ScannerError::IoError(s) => ScanErrV::IoError(s@),
            ScannerError::UnexpectedEndOfInput => ScanErrV::UnexpectedEndOfInput,
            ScannerError::NotInitialized => ScanErrV::NotInitialized,
        }
    }
}

/// The message of a scanner error, as the error is displayed.
pub open spec fn scan_err_message(e: ScanErrV) -> Seq<char> {
    match e {
        ScanErrV::InvalidNumber(s) => "Invalid number: "@ + s,
        ScanErrV::InvalidLiteral(s) => "Invalid literal: "@ + s,
        ScanErrV::UnexpectedCharacter(c) => "Unexpected character: "@.push(c),
        ScanErrV::UnterminatedString => "Unterminated string"@,
        ScanErrV::UnterminatedChar => "Unterminated character literal"@,
        ScanErrV::InvalidEscapeSequence(s) => "Invalid escape sequence: "@ + s,
        ScanErrV::IoError(s) => s,
        ScanErrV::UnexpectedEndOfInput => "End of input"@,
        ScanErrV::NotInitialized => "Scanner not initialized"@,
    }
}

impl ScannerError {
    /// The error's message.
    pub fn message(&self) -> (r: String)
        ensures
            r@ == scan_err_message(self@),
    {
        let mut out: Vec<char> = Vec::new();
        match self {
            ScannerError::InvalidNumber(s) => {
                push_lit(&mut out, "Invalid number: ");
                crate::text::push_string(&mut out, s);
            },
            ScannerError::InvalidLiteral(s) => {
                push_lit(&mut out, "Invalid literal: ");
                crate::text::push_string(&mut out, s);
            },
            ScannerError::UnexpectedCharacter(c) => {
                push_lit(&mut out, "Unexpected character: ");
                out.push(*c);
            },
            ScannerError::UnterminatedString => push_lit(&mut out, "Unterminated string"),
            ScannerError::UnterminatedChar => push_lit(&mut out, "Unterminated character literal"),
            ScannerError::InvalidEscapeSequence(s) => {
                push_lit(&mut out, "Invalid escape sequence: ");
                crate::text::push_string(&mut out, s);
            },
            ScannerError::IoError(s) => crate::text::push_string(&mut out, s),
            ScannerError::UnexpectedEndOfInput => push_lit(&mut out, "End of input"),
            ScannerError::NotInitialized => push_lit(&mut out, "Scanner not initialized"),
        }
        assert(out@ =~= scan_err_message(self@));
        string_from_chars(out.as_slice())
    }
}


// ── The token grammar ────────────────────────────────────────────────────────

/// The whitespace that ends a word: space, tab, line feed, form feed and
/// carriage return.
pub open spec fn is_ascii_ws(c: char) -> bool {
    c == ' ' || c == '\t' || c == '\n' || c == '\x0C' || c == '\r'
}

/// The first index at or after `i` that holds ASCII whitespace (or the length).
pub open spec fn word_stop(s: Seq<char>, i: int) -> int
    decreases s.len() - i,
{
    if i < 0 {
        0
    } else if i >= s.len() {
        s.len() as int
    } else if is_ascii_ws(s[i]) {
        i
    } else {
        word_stop(s, i + 1)
    }
}

/// The index just after the first line feed at or after `i` (or the length).
pub open spec fn line_skip(s: Seq<char>, i: int) -> int
    decreases s.len() - i,
{
    if i < 0 {
        0
    } else if i >= s.len() {
        s.len() as int
    } else if s[i] == '\n' {
        i + 1
    } else {
        line_skip(s, i + 1)
    }
}

/// The value of a hexadecimal digit.
pub open spec fn hex_val(c: char) -> Option<int> {
    if '0' <= c && c <= '9' {
        Some(c as int - '0' as int)
    } else if 'a' <= c && c <= 'f' {
        Some(c as int - 'a' as int + 10)
    } else if 'A' <= c && c <= 'F' {
        Some(c as int - 'A' as int + 10)
    } else {
        None
    }
}

/// Reads at most `max - count` hexadecimal digits from `i` onto `value`:
/// the value, the number of digits read in all, and where reading stopped.
pub open spec fn hex_scan(s: Seq<char>, i: int, max: int, count: int, value: int) -> (
    int,
    int,
    int,
)
    decreases s.len() - i,
{
    if 0 <= i < s.len() && count < max && hex_val(s[i]) is Some {
        hex_scan(s, i + 1, max, count + 1, value * 16 + hex_val(s[i])->0)
    } else {
        (value, count, i)
    }
}

/// Whether `v` is a Unicode scalar value, a valid `char`.
pub open spec fn scalar_ok(v: int) -> bool {
    0 <= v <= 0x10FFFF && !(0xD800 <= v <= 0xDFFF)
}

pub open spec fn hex_digits_error() -> ScanErrV {
    ScanErrV::InvalidEscapeSequence("Expected hexadecimal digits"@)
}

/// The escape sequence after a backslash at `i`: the character it stands for
/// (or the error) and the index after it.
pub open spec fn escape_at(s: Seq<char>, i: int) -> (Result<char, ScanErrV>, int) {
    if i < 0 || i >= s.len() {
        (Err(ScanErrV::UnterminatedChar), i)
    } else {
        let c = s[i];
        if c == 'n' {
            (Ok('\n'), i + 1)
        } else if c == 'r' {
            (Ok('\r'), i + 1)
        } else if c == 't' {
            (Ok('\t'), i + 1)
        } else if c == '\\' {
            (Ok('\\'), i + 1)
        } else if c == '\'' {
            (Ok('\''), i + 1)
        } else if c == '"' {
            (Ok('"'), i + 1)
        } else if c == 'u' {
            if i + 1 < s.len() && s[i + 1] == '{' {
                let (v, n, j) = hex_scan(s, i + 2, 6, 0, 0);
                if n == 0 {
                    (Err(hex_digits_error()), j)
                } else if j < s.len() && s[j] == '}' {
                    if scalar_ok(v) {
                        (Ok(v as char), j + 1)
                    } else {
                        (
                            Err(
                                ScanErrV::InvalidEscapeSequence(
                                    "Invalid Unicode codepoint: "@ + crate::text::decimal(v as nat),
                                ),
                            ),
                            j + 1,
                        )
                    }
                } else {
                    (
                        Err(ScanErrV::InvalidEscapeSequence("Expected closing '}'"@)),
                        if j < s.len() { j + 1 } else { j },
                    )
                }
            } else {
                let (v, n, j) = hex_scan(s, i + 1, 2, 0, 0);
                if n == 0 {
                    (Err(hex_digits_error()), j)
                } else if v > 0x7F {
                    (
                        Err(
                            ScanErrV::InvalidEscapeSequence(
                                "ASCII value out of range: "@ + crate::text::decimal(v as nat),
                            ),
                        ),
                        j,
                    )
                } else {
                    (Ok(v as char), j)
                }
            }
        } else {
            (Err(ScanErrV::InvalidEscapeSequence(seq!['\\', c])), i + 1)
        }
    }
}

/// A character literal whose body starts at `i` (after the opening quote).
pub open spec fn char_lit(s: Seq<char>, i: int) -> (Result<char, ScanErrV>, int) {
    let (first, j) = if i < 0 || i >= s.len() {
        (Err(ScanErrV::UnterminatedChar), i)
    } else if s[i] == '\\' {
        escape_at(s, i + 1)
    } else if s[i] == '\'' {
        (Err(ScanErrV::InvalidLiteral("Empty character literal"@)), i + 1)
    } else {
        (Ok(s[i]), i + 1)
    };
    if 0 <= j < s.len() && s[j] == '\'' {
        (first, j + 1)
    } else {
        (Err(ScanErrV::UnterminatedChar), if 0 <= j < s.len() { j + 1 } else { j })
    }
}

/// `n` double quotes.
pub open spec fn quotes(n: nat) -> Seq<char>
    decreases n,
{
    if n == 0 {
        seq![]
    } else {
        quotes((n - 1) as nat).push('"')
    }
}

/// The rest of a string literal from `i`, with `acc` read so far and `qc`
/// closing quotes of a triple-quoted string seen in a row.
pub open spec fn str_body(s: Seq<char>, i: int, triple: bool, acc: Seq<char>, qc: nat) -> (
    Result<Seq<char>, ScanErrV>,
    int,
)
    decreases s.len() - i,
{
    if i < 0 || i >= s.len() {
        (Err(ScanErrV::UnterminatedString), i)
    } else if s[i] == '"' {
        if !triple || qc + 1 == 3 {
            (Ok(acc), i + 1)
        } else {
            str_body(s, i + 1, triple, acc, qc + 1)
        }
    } else if s[i] == '\\' && !triple {
        let (e, j) = escape_at(s, i + 1);
        match e {
            Ok(c) => if i < j <= s.len() {
                str_body(s, j, triple, acc.push(c), qc)
            } else {
                (Err(ScanErrV::UnterminatedString), i)
            },
            Err(x) => (Err(x), j),
        }
    } else {
        str_body(s, i + 1, triple, acc + quotes(qc) + seq![s[i]], 0)
    }
}

/// A string literal whose body starts at `i` (after the opening quote); a
/// second and third quote right there open a triple-quoted string.
pub open spec fn string_lit(s: Seq<char>, i: int) -> (Result<Seq<char>, ScanErrV>, int) {
    if 0 <= i && i + 1 < s.len() && s[i] == '"' && s[i + 1] == '"' {
        str_body(s, i + 2, true, seq![], 0)
    } else {
        str_body(s, i, false, seq![], 0)
    }
}

pub open spec fn is_digit(c: char) -> bool {
    '0' <= c && c <= '9'
}

pub open spec fn all_digits(s: Seq<char>) -> bool {
    forall|k: int| 0 <= k < s.len() ==> is_digit(#[trigger] s[k])
}

/// The number written by the decimal digits `s`.
pub open spec fn digits_value(s: Seq<char>) -> int
    decreases s.len(),
{
    if s.len() == 0 {
        0
    } else {
        digits_value(s.drop_last()) * 10 + (s.last() as int - '0' as int)
    }
}

/// What `str::parse::<i64>` gives for `w`: an optional sign and one or more
/// decimal digits whose value fits in `i64`.
pub open spec fn parse_i64_spec(w: Seq<char>) -> Option<i64> {
    let signed = w.len() > 0 && (w[0] == '+' || w[0] == '-');
    let body = if signed { w.subrange(1, w.len() as int) } else { w };
    let v = if signed && w[0] == '-' { -digits_value(body) } else { digits_value(body) };
    if body.len() > 0 && all_digits(body) && i64::MIN <= v <= i64::MAX {
        Some(v as i64)
    } else {
        None
    }
}

/// ASCII lower-casing.
pub open spec fn lower(c: char) -> char {
    if 'A' <= c && c <= 'Z' {
        ((c as int) + 32) as char
    } else {
        c
    }
}

pub open spec fn lower_all(s: Seq<char>) -> Seq<char> {
    Seq::new(s.len(), |k: int| lower(s[k]))
}

/// Digits with at most one `.`, and at least one digit.
pub open spec fn is_mantissa(m: Seq<char>) -> bool {
    &&& exists|k: int| 0 <= k < m.len() && is_digit(#[trigger] m[k])
    &&& forall|k: int| 0 <= k < m.len() ==> (is_digit(#[trigger] m[k]) || m[k] == '.')
    &&& forall|a: int, b: int| 0 <= a < b < m.len() && m[a] == '.' ==> m[b] != '.'
}

/// An optional sign and one or more digits.
pub open spec fn is_exponent(e: Seq<char>) -> bool {
    let body = if e.len() > 0 && (e[0] == '+' || e[0] == '-') {
        e.subrange(1, e.len() as int)
    } else {
        e
    };
    body.len() > 0 && all_digits(body)
}

/// The lowered text of a number without its sign: a mantissa, optionally
/// followed by `e` and an exponent.
pub open spec fn is_number(r: Seq<char>) -> bool {
    (forall|k: int| 0 <= k < r.len() ==> r[k] != 'e') && is_mantissa(r) || exists|k: int|
        0 <= k < r.len() && r[k] == 'e' && (forall|m: int| 0 <= m < k ==> r[m] != 'e')
            && is_mantissa(r.subrange(0, k)) && is_exponent(r.subrange(k + 1, r.len() as int))
}

/// Whether `str::parse::<f64>` accepts `w`: by its documented grammar, once
/// lowered, an optional sign and then `inf`, `infinity`, `nan` or a number.
pub open spec fn is_float_text(w: Seq<char>) -> bool {
    let l = lower_all(w);
    let r = if l.len() > 0 && (l[0] == '+' || l[0] == '-') {
        l.subrange(1, l.len() as int)
    } else {
        l
    };
    r == "inf"@ || r == "infinity"@ || r == "nan"@ || is_number(r)
}

/// The value a word stands for: the macro marker, a boolean, an integer, a
/// float (kept as its text) or else a symbol of module `key`.
pub open spec fn word_data(w: Seq<char>, key: Seq<char>) -> DataV {
    if w == "MACRO:"@ {
        DataV::Macro
    } else if w == "#t"@ {
        DataV::Boolean(true)
    } else if w == "#f"@ {
        DataV::Boolean(false)
    } else if parse_i64_spec(w) is Some {
        DataV::Integer(parse_i64_spec(w)->0)
    } else if is_float_text(w) {
        DataV::Float(w)
    } else {
        DataV::Symbol { module: key, word: w }
    }
}

/// The next token at or after `i`: what it is (or the error met), where it
/// starts and where reading stopped; `None` at the end of the input. A word
/// starting with `//` comments out the rest of its line.
#[verifier::opaque]
pub open spec fn token_at(s: Seq<char>, key: Seq<char>, i: int) -> Option<
    (Result<DataV, ScanErrV>, int, int),
>
    decreases s.len() - i,
{
    let st = crate::text::skip_ws(s, i);
    if i < 0 || st >= s.len() {
        None
    } else if s[st] == '"' {
        let (r, e) = string_lit(s, st + 1);
        Some(
            (
                match r {
                    Ok(t) => Ok(DataV::String(t)),
                    Err(x) => Err(x),
                },
                st,
                e,
            ),
        )
    } else if s[st] == '\'' {
        let (r, e) = char_lit(s, st + 1);
        Some(
            (
                match r {
                    Ok(c) => Ok(DataV::Char(c)),
                    Err(x) => Err(x),
                },
                st,
                e,
            ),
        )
    } else {
        let e = word_stop(s, st + 1);
        let w = s.subrange(st, e);
        if w.len() >= 2 && w[0] == '/' && w[1] == '/' {
            let n = line_skip(s, e);
            if i < n <= s.len() {
                token_at(s, key, n)
            } else {
                None
            }
        } else {
            Some((Ok(word_data(w, key)), st, e))
        }
    }
}

/// The value a token of `s[start..end]` with data `d` becomes.
pub open spec fn token_value(s: Seq<char>, d: DataV, start: int, end: int) -> ValueV {
    token_in(s, origin(), d, start, end)
}

/// The value a token of `s[start..end]` with data `d` becomes, its position
/// counted in frame `f`.
pub open spec fn token_in(s: Seq<char>, f: FrameV, d: DataV, start: int, end: int) -> ValueV {
    ValueV { data: d, lexeme: Some(s.subrange(start, end)), pos: Some(pos_in(s, f, start, end)) }
}


// ── Number recognition ───────────────────────────────────────────────────────

fn is_digit_exec(c: char) -> (r: bool)
    ensures
        r == is_digit(c),
{
    '0' <= c && c <= '9'
}

/// `str::parse::<i64>`, on the characters of a word.
pub fn parse_i64(w: &[char]) -> (r: Option<i64>)
    ensures
        r == parse_i64_spec(w@),
{
    let n = w.len();
    if n == 0 {
        return None;
    }
    let signed = w[0] == '+' || w[0] == '-';
    let neg = signed && w[0] == '-';
    let start: usize = if signed { 1 } else { 0 };
    let ghost body = if signed { w@.subrange(1, w@.len() as int) } else { w@ };
    if start >= n {
        assert(body.len() == 0);
        return None;
    }
    // The magnitude, as long as it stays within 2^63.
    let mut mag: u64 = 0;
    let mut i: usize = start;
    while i < n
        invariant
            start <= i <= n == w@.len(),
            n > 0,
            signed == (w@[0] == '+' || w@[0] == '-'),
            start == (if signed { 1int } else { 0int }),
            body == w@.subrange(start as int, n as int),
            all_digits(w@.subrange(start as int, i as int)),
            mag == digits_value(w@.subrange(start as int, i as int)),
            mag <= 0x8000_0000_0000_0000u64,
        decreases n - i,
    {
        let c = w[i];
        if !is_digit_exec(c) {
            assert(!all_digits(body)) by {
                assert(body[i - start] == c);
            }
            return None;
        }
        let d = (c as u32 - '0' as u32) as u64;
        if mag > (0x8000_0000_0000_0000u64 - d) / 10 {
            proof {
                assert(w@.subrange(start as int, i + 1).drop_last() =~= w@.subrange(
                    start as int,
                    i as int,
                ));
                assert(mag * 10 + d > 0x8000_0000_0000_0000);
                assert(digits_value(w@.subrange(start as int, i + 1)) == mag * 10 + d);
                if all_digits(body) {
                    assert(body.subrange(0, i + 1 - start) =~= w@.subrange(start as int, i + 1));
                    lemma_digits_prefix_le(body, i + 1 - start);
                    assert(digits_value(body) > 0x8000_0000_0000_0000);
                }
                let sb = if w@.len() > 0 && (w@[0] == '+' || w@[0] == '-') {
                    w@.subrange(1, w@.len() as int)
                } else {
                    w@
                };
                assert(sb == body);
                let sv = if w@.len() > 0 && (w@[0] == '+' || w@[0] == '-') && w@[0] == '-' {
                    -digits_value(sb)
                } else {
                    digits_value(sb)
                };
                assert(all_digits(sb) ==> !(i64::MIN <= sv <= i64::MAX));
                assert(parse_i64_spec(w@) is None);
            }
            return None;
        }
        assert(w@.subrange(start as int, i + 1).drop_last() =~= w@.subrange(start as int, i as int));
        mag = mag * 10 + d;
        i = i + 1;
    }
    assert(w@.subrange(start as int, n as int) =~= body);
    if neg {
        if mag == 0x8000_0000_0000_0000u64 {
            Some(i64::MIN)
        } else {
            Some(-(mag as i64))
        }
    } else {
        if mag > 0x7FFF_FFFF_FFFF_FFFFu64 {
            None
        } else {
            Some(mag as i64)
        }
    }
}

/// A digit string's value is at least that of each of its prefixes.
pub proof fn lemma_digits_prefix_le(s: Seq<char>, k: int)
    requires
        0 <= k <= s.len(),
        all_digits(s),
    ensures
        digits_value(s.subrange(0, k)) <= digits_value(s),
    decreases s.len(),
{
    if k == s.len() {
        assert(s.subrange(0, k) =~= s);
    } else {
        assert(all_digits(s.drop_last()));
        assert(is_digit(s[s.len() - 1]));
        lemma_digits_prefix_le(s.drop_last(), k);
        assert(s.drop_last().subrange(0, k) =~= s.subrange(0, k));
        lemma_digits_nonneg(s.drop_last());
    }
}

pub proof fn lemma_digits_nonneg(s: Seq<char>)
    requires
        all_digits(s),
    ensures
        digits_value(s) >= 0,
    decreases s.len(),
{
    if s.len() > 0 {
        assert(all_digits(s.drop_last()));
        assert(is_digit(s[s.len() - 1]));
        lemma_digits_nonneg(s.drop_last());
    }
}

fn lower_exec(c: char) -> (r: char)
    ensures
        r == lower(c),
{
    if 'A' <= c && c <= 'Z' {
        let u = c as u32 + 32;
        let r = u as u8 as char;
        r
    } else {
        c
    }
}

fn is_mantissa_exec(m: &[char], from: usize, to: usize) -> (r: bool)
    requires
        from <= to <= m@.len(),
    ensures
        r == is_mantissa(m@.subrange(from as int, to as int)),
{
    let ghost t = m@.subrange(from as int, to as int);
    let mut digit = false;
    let mut dot = false;
    let mut i = from;
    while i < to
        invariant
            from <= i <= to <= m@.len(),
            t == m@.subrange(from as int, to as int),
            digit == exists|k: int| from <= k < i && is_digit(#[trigger] m@[k]),
            dot == exists|k: int| from <= k < i && m@[k] == '.',
            forall|k: int| from <= k < i ==> (is_digit(#[trigger] m@[k]) || m@[k] == '.'),
            forall|a: int, b: int| from <= a < b < i && m@[a] == '.' ==> m@[b] != '.',
        decreases to - i,
    {
        let c = m[i];
        if is_digit_exec(c) {
            digit = true;
        } else if c == '.' {
            if dot {
                assert(!is_mantissa(t)) by {
                    let a = choose|k: int| from <= k < i && m@[k] == '.';
                    assert(t[a - from] == '.' && t[i - from] == '.');
                }
                return false;
            }
            dot = true;
        } else {
            assert(!is_mantissa(t)) by {
                assert(t[i - from] == c);
            }
            return false;
        }
        i = i + 1;
    }
    if !digit {
        assert(!is_mantissa(t)) by {
            if exists|k: int| 0 <= k < t.len() && is_digit(#[trigger] t[k]) {
                let k = choose|k: int| 0 <= k < t.len() && is_digit(#[trigger] t[k]);
                assert(is_digit(m@[from + k]));
            }
        }
        return false;
    }
    assert(is_mantissa(t)) by {
        let k = choose|k: int| from <= k < i && is_digit(#[trigger] m@[k]);
        assert(is_digit(t[k - from]));
        assert forall|a: int| 0 <= a < t.len() implies (is_digit(#[trigger] t[a]) || t[a] == '.') by {
            assert(t[a] == m@[from + a]);
        }
        assert forall|a: int, b: int| 0 <= a < b < t.len() && t[a] == '.' implies t[b] != '.' by {
            assert(t[a] == m@[from + a] && t[b] == m@[from + b]);
        }
    }
    true
}

fn is_exponent_exec(m: &[char], from: usize, to: usize) -> (r: bool)
    requires
        from <= to <= m@.len(),
    ensures
        r == is_exponent(m@.subrange(from as int, to as int)),
{
    let ghost e = m@.subrange(from as int, to as int);
    let mut i = from;
    if i < to && (m[i] == '+' || m[i] == '-') {
        i = i + 1;
    }
    let ghost body = m@.subrange(i as int, to as int);
    assert(body =~= (if e.len() > 0 && (e[0] == '+' || e[0] == '-') {
        e.subrange(1, e.len() as int)
    } else {
        e
    }));
    if i >= to {
        return false;
    }
    let start = i;
    while i < to
        invariant
            start <= i <= to <= m@.len(),
            body == m@.subrange(start as int, to as int),
            e == m@.subrange(from as int, to as int),
            body == (if e.len() > 0 && (e[0] == '+' || e[0] == '-') {
                e.subrange(1, e.len() as int)
            } else {
                e
            }),
            forall|k: int| start <= k < i ==> is_digit(#[trigger] m@[k]),
        decreases to - i,
    {
        if !is_digit_exec(m[i]) {
            assert(!all_digits(body)) by {
                assert(body[i - start] == m@[i as int]);
            }
            return false;
        }
        i = i + 1;
    }
    assert(all_digits(body)) by {
        assert forall|k: int| 0 <= k < body.len() implies is_digit(#[trigger] body[k]) by {
            assert(body[k] == m@[start + k]);
        }
    }
    true
}

fn lowered(w: &[char]) -> (l: Vec<char>)
    ensures
        l@ == lower_all(w@),
{
    let mut l: Vec<char> = Vec::new();
    let mut i: usize = 0;
    while i < w.len()
        invariant
            i <= w@.len(),
            l@ == lower_all(w@).take(i as int),
        decreases w@.len() - i,
    {
        l.push(lower_exec(w[i]));
        i = i + 1;
        assert(l@ =~= lower_all(w@).take(i as int));
    }
    assert(l@ =~= lower_all(w@));
    l
}

fn is_number_exec(rest: &[char]) -> (ok: bool)
    ensures
        ok == is_number(rest@),
{
    let m = rest.len();
    let mut e: usize = 0;
    while e < m && rest[e] != 'e'
        invariant
            e <= m == rest@.len(),
            forall|q: int| 0 <= q < e ==> rest@[q] != 'e',
        decreases m - e,
    {
        e = e + 1;
    }
    if e == m {
        assert(rest@.subrange(0, m as int) =~= rest@);
        let ok = is_mantissa_exec(rest, 0, m);
        proof {
            if exists|k: int|
                0 <= k < rest@.len() && rest@[k] == 'e' && (forall|q: int| 0 <= q < k ==> rest@[q] != 'e')
                    && is_mantissa(rest@.subrange(0, k)) && is_exponent(
                    rest@.subrange(k + 1, rest@.len() as int),
                ) {
                let k = choose|k: int|
                    0 <= k < rest@.len() && rest@[k] == 'e' && (forall|q: int|
                        0 <= q < k ==> rest@[q] != 'e') && is_mantissa(rest@.subrange(0, k))
                        && is_exponent(rest@.subrange(k + 1, rest@.len() as int));
                assert(rest@[k] != 'e');
            }
        }
        ok
    } else {
        let a = is_mantissa_exec(rest, 0, e);
        let b = is_exponent_exec(rest, e + 1, m);
        proof {
            assert(rest@[e as int] == 'e');
            if exists|k: int|
                0 <= k < rest@.len() && rest@[k] == 'e' && (forall|q: int| 0 <= q < k ==> rest@[q] != 'e')
                    && is_mantissa(rest@.subrange(0, k)) && is_exponent(
                    rest@.subrange(k + 1, rest@.len() as int),
                ) {
                let k = choose|k: int|
                    0 <= k < rest@.len() && rest@[k] == 'e' && (forall|q: int|
                        0 <= q < k ==> rest@[q] != 'e') && is_mantissa(rest@.subrange(0, k))
                        && is_exponent(rest@.subrange(k + 1, rest@.len() as int));
                assert(k == e);
            }
        }
        a && b
    }
}

/// Whether `str::parse::<f64>` accepts the word `w`.
pub fn is_float(w: &[char]) -> (r: bool)
    ensures
        r == is_float_text(w@),
{
    let l = lowered(w);
    let n = l.len();
    let start: usize = if n > 0 && (l[0] == '+' || l[0] == '-') { 1 } else { 0 };
    let mut rest: Vec<char> = Vec::new();
    let mut k = start;
    while k < n
        invariant
            start <= k <= n == l@.len(),
            rest@ == l@.subrange(start as int, k as int),
        decreases n - k,
    {
        rest.push(l[k]);
        k = k + 1;
        assert(rest@ =~= l@.subrange(start as int, k as int));
    }
    assert(rest@ =~= (if l@.len() > 0 && (l@[0] == '+' || l@[0] == '-') {
        l@.subrange(1, l@.len() as int)
    } else {
        l@
    }));
    if crate::text::eq_lit(rest.as_slice(), "inf") || crate::text::eq_lit(rest.as_slice(), "infinity")
        || crate::text::eq_lit(rest.as_slice(), "nan") {
        return true;
    }
    is_number_exec(rest.as_slice())
}


pub proof fn lemma_word_stop(s: Seq<char>, i: int)
    requires
        0 <= i <= s.len(),
    ensures
        i <= word_stop(s, i) <= s.len(),
        forall|k: int| i <= k < word_stop(s, i) ==> !is_ascii_ws(#[trigger] s[k]),
        word_stop(s, i) < s.len() ==> is_ascii_ws(s[word_stop(s, i)]),
    decreases s.len() - i,
{
    if i < s.len() && !is_ascii_ws(s[i]) {
        lemma_word_stop(s, i + 1);
    }
}

pub proof fn lemma_line_skip(s: Seq<char>, i: int)
    requires
        0 <= i <= s.len(),
    ensures
        i <= line_skip(s, i) <= s.len(),
        i < s.len() ==> i < line_skip(s, i),
    decreases s.len() - i,
{
    if i < s.len() && s[i] != '\n' {
        lemma_line_skip(s, i + 1);
    }
}

pub proof fn lemma_str_body_end(s: Seq<char>, i: int, triple: bool, acc: Seq<char>, qc: nat)
    requires
        0 <= i <= s.len(),
    ensures
        i <= str_body(s, i, triple, acc, qc).1 <= s.len(),
    decreases s.len() - i,
{
    if i < s.len() {
        if s[i] == '"' {
            if !(!triple || qc + 1 == 3) {
                lemma_str_body_end(s, i + 1, triple, acc, qc + 1);
            }
        } else if s[i] == '\\' && !triple {
            lemma_escape_end(s, i + 1);
            let (e, j) = escape_at(s, i + 1);
            if e is Ok && i < j <= s.len() {
                lemma_str_body_end(s, j, triple, acc.push(e->Ok_0), qc);
            }
        } else {
            lemma_str_body_end(s, i + 1, triple, acc + quotes(qc) + seq![s[i]], 0);
        }
    }
}

/// A token found from `i` ends after `i`, within the text.
pub proof fn lemma_token_end(s: Seq<char>, key: Seq<char>, i: int)
    requires
        0 <= i <= s.len(),
    ensures
        token_at(s, key, i) matches Some(t) ==> i < t.2 <= s.len() && i <= t.1 < t.2,
    decreases s.len() - i,
{
    reveal(token_at);
    crate::text::lemma_skip_ws_bounds(s, i);
    let st = crate::text::skip_ws(s, i);
    if st < s.len() {
        if s[st] == '"' {
            if st + 2 < s.len() {
                lemma_str_body_end(s, st + 3, true, seq![], 0);
            }
            lemma_str_body_end(s, st + 1, false, seq![], 0);
        } else if s[st] == '\'' {
            if st + 1 < s.len() {
                lemma_escape_end(s, st + 2);
            }
        } else {
            lemma_word_stop(s, st + 1);
            let e = word_stop(s, st + 1);
            lemma_line_skip(s, e);
            let n = line_skip(s, e);
            if i < n <= s.len() {
                lemma_token_end(s, key, n);
            }
        }
    }
}

/// Each character takes at least one byte.
pub proof fn lemma_utf8_len_grows(s: Seq<char>, j: int, k: int)
    requires
        0 <= j <= k <= s.len(),
    ensures
        utf8_len(s.take(j)) + (k - j) <= utf8_len(s.take(k)),
    decreases k - j,
{
    if j < k {
        lemma_utf8_len_grows(s, j, k - 1);
        assert(s.take(k).drop_last() =~= s.take(k - 1));
    }
}

/// The position of a token read within a frame that fits, fits.
pub proof fn lemma_pos_in_fits(s: Seq<char>, f: FrameV, st: int, e: int)
    requires
        f.from <= st <= e <= s.len(),
        frame_fits(s, f),
    ensures
        crate::value::pos_fits(pos_in(s, f, st, e)),
        pos_in(s, f, st, e).length == e - st,
{
    lemma_utf8_len_grows(s, st, e);
    lemma_cursor_in(s, f, st);
    lemma_utf8_len_prefix(s, st);
    lemma_utf8_len_prefix(s, e);
    lemma_utf8_len_prefix(s, f.from);
    lemma_utf8_len_prefix(s, s.len() as int);
    assert(s.take(s.len() as int) =~= s);
    lemma_utf8_len_prefix(s.take(e), st);
    assert(s.take(e).take(st) =~= s.take(st));
    lemma_utf8_len_prefix(s.take(st), f.from);
    assert(s.take(st).take(f.from) =~= s.take(f.from));
    lemma_utf8_len_grows(s, e, s.len() as int);
}

/// Every token from `i` to the end of the text.
pub open spec fn all_tokens(s: Seq<char>, key: Seq<char>, i: int) -> Seq<
    (Result<DataV, ScanErrV>, int, int),
>
    decreases s.len() - i,
{
    match token_at(s, key, i) {
        None => seq![],
        Some(t) => if i < t.2 <= s.len() {
            seq![t] + all_tokens(s, key, t.2)
        } else {
            seq![t]
        },
    }
}

/// The tokens from `i` up to the first one with data `target` (which is
/// consumed, not kept), and where reading stopped; `None` if the text ends
/// first.
pub open spec fn tokens_until(s: Seq<char>, key: Seq<char>, i: int, target: DataV) -> Option<
    (Seq<(Result<DataV, ScanErrV>, int, int)>, int),
>
    decreases s.len() - i,
{
    match token_at(s, key, i) {
        None => None,
        Some(t) => if ends_list(t.0, target) {
            Some((seq![], t.2))
        } else if i < t.2 <= s.len() {
            match tokens_until(s, key, t.2, target) {
                Some((rest, e)) => Some((seq![t] + rest, e)),
                None => None,
            }
        } else {
            None
        },
    }
}

/// What a list is read up to: a symbol stands for the bare word of its
/// name.
pub open spec fn list_target(d: DataV) -> DataV {
    match d {
        DataV::Symbol { word, .. } => DataV::Word(word),
        _ => d,
    }
}

/// Whether a scanned token ends a list read up to `target`: words are
/// compared by name, whatever module a symbol was read into.
pub open spec fn ends_list(t: Result<DataV, ScanErrV>, target: DataV) -> bool {
    t matches Ok(d) && list_target(d) == target
}

/// A list read up to `target` agrees with the tokens of `s` from `i`.
pub open spec fn list_scanned(
    r: Result<Vec<Result<Value, ScannerError>>, ScannerError>,
    s: Seq<char>,
    f: FrameV,
    key: Seq<char>,
    i: int,
    target: DataV,
    at: int,
) -> bool {
    match tokens_until(s, key, i, target) {
        Some((toks, e)) => {
            &&& r is Ok
            &&& at == e
            &&& r->Ok_0@.len() == toks.len()
            &&& forall|k: int| 0 <= k < toks.len() ==> scanned_as(#[trigger] r->Ok_0@[k], toks[k], s, f)
        },
        None => r is Err && r->Err_0@ == ScanErrV::UnexpectedEndOfInput,
    }
}

/// `seen` put in front of the tokens of a search's outcome.
pub open spec fn prepend_tokens(
    seen: Seq<(Result<DataV, ScanErrV>, int, int)>,
    o: Option<(Seq<(Result<DataV, ScanErrV>, int, int)>, int)>,
) -> Option<(Seq<(Result<DataV, ScanErrV>, int, int)>, int)> {
    match o {
        Some((rest, e)) => Some((seen + rest, e)),
        None => None,
    }
}

pub proof fn lemma_prepend_tokens(
    seen: Seq<(Result<DataV, ScanErrV>, int, int)>,
    t: (Result<DataV, ScanErrV>, int, int),
    o: Option<(Seq<(Result<DataV, ScanErrV>, int, int)>, int)>,
)
    ensures
        prepend_tokens(seen, prepend_tokens(seq![t], o)) == prepend_tokens(seen.push(t), o),
{
    if let Some((rest, e)) = o {
        assert(seen + (seq![t] + rest) =~= seen.push(t) + rest);
    }
}

/// A scanned result agrees with a token of `s`.
pub open spec fn scanned_as(
    r: Result<Value, ScannerError>,
    t: (Result<DataV, ScanErrV>, int, int),
    s: Seq<char>,
    f: FrameV,
) -> bool {
    match t.0 {
        Ok(d) => r is Ok && r->Ok_0@ == token_in(s, f, d, t.1, t.2),
        Err(x) => r is Err && r->Err_0@ == x,
    }
}

/// The data a scanner can produce: plain values only.
pub open spec fn is_scalar(d: DataV) -> bool {
    match d {
        DataV::Integer(_) | DataV::Float(_) | DataV::Boolean(_) | DataV::Char(_)
        | DataV::String(_) | DataV::Symbol { .. } | DataV::Macro => true,
        _ => false,
    }
}

pub proof fn lemma_token_scalar(s: Seq<char>, key: Seq<char>, i: int)
    ensures
        token_at(s, key, i) matches Some(t) ==> (t.0 matches Ok(d) ==> is_scalar(d)),
    decreases s.len() - i,
{
    reveal(token_at);
    let st = crate::text::skip_ws(s, i);
    if 0 <= i && st < s.len() && s[st] != '"' && s[st] != '\'' {
        let e = word_stop(s, st + 1);
        let n = line_skip(s, e);
        if i < n <= s.len() {
            lemma_token_scalar(s, key, n);
        }
    }
}

// ── The scanner ──────────────────────────────────────────────────────────────

/// `char::from_u32`: the character with code point `v`, if `v` is a Unicode
/// scalar value.
#[verifier::external_body]
fn char_from_u32(v: u32) -> (r: Option<char>)
    ensures
        r is Some <==> scalar_ok(v as int),
        r matches Some(c) ==> c == v as char,
{
    char::from_u32(v)
}

fn hex_digit(c: char) -> (r: Option<u32>)
    ensures
        r matches Some(d) ==> hex_val(c) == Some(d as int),
        r is None ==> hex_val(c) is None,
{
    if '0' <= c && c <= '9' {
        Some(c as u32 - '0' as u32)
    } else if 'a' <= c && c <= 'f' {
        Some(c as u32 - 'a' as u32 + 10)
    } else if 'A' <= c && c <= 'F' {
        Some(c as u32 - 'A' as u32 + 10)
    } else {
        None
    }
}

pub open spec fn pow16(n: int) -> int
    decreases n,
{
    if n <= 0 {
        1
    } else {
        16 * pow16(n - 1)
    }
}

pub proof fn lemma_pow16_le(a: int, b: int)
    requires
        0 <= a <= b,
    ensures
        1 <= pow16(a) <= pow16(b),
    decreases b,
{
    if a < b {
        lemma_pow16_le(a, b - 1);
    } else if a > 0 {
        lemma_pow16_le(a - 1, a - 1);
    }
}

pub proof fn lemma_hex_scan(s: Seq<char>, i: int, max: int, count: int, value: int)
    requires
        0 <= i <= s.len(),
    ensures
        i <= hex_scan(s, i, max, count, value).2 <= s.len(),
    decreases s.len() - i,
{
    if 0 <= i < s.len() && count < max && hex_val(s[i]) is Some {
        lemma_hex_scan(s, i + 1, max, count + 1, value * 16 + hex_val(s[i])->0);
    }
}

/// An escape sequence read from `i` ends after `i`, within the text.
pub proof fn lemma_escape_end(s: Seq<char>, i: int)
    requires
        0 <= i <= s.len(),
    ensures
        escape_at(s, i).0 is Ok ==> i < escape_at(s, i).1 <= s.len(),
        i <= escape_at(s, i).1 <= s.len(),
{
    if i < s.len() {
        if i + 1 < s.len() {
            lemma_hex_scan(s, i + 2, 6, 0, 0);
        }
        lemma_hex_scan(s, i + 1, 2, 0, 0);
    }
}


fn is_ascii_whitespace(c: char) -> (r: bool)
    ensures
        r == is_ascii_ws(c),
{
    c == ' ' || c == '\t' || c == '\n' || c == '\x0C' || c == '\r'
}

/// Whether `p` occurs in `s` at `i`.
fn occurs_here(s: &Vec<char>, p: &Vec<char>, i: usize) -> (r: bool)
    requires
        i <= s@.len(),
    ensures
        r == crate::text::occurs_at(s@, p@, i as int),
{
    if p.len() > s.len() - i {
        return false;
    }
    let mut k: usize = 0;
    while k < p.len()
        invariant
            i + p@.len() <= s@.len(),
            k <= p@.len(),
            forall|m: int| 0 <= m < k ==> s@[i + m] == p@[m],
        decreases p@.len() - k,
    {
        let n = s.len();
        assert(i + k < n);
        if s[i + k] != p[k] {
            assert(s@.subrange(i as int, i + p@.len())[k as int] != p@[k as int]);
            return false;
        }
        k = k + 1;
    }
    assert(s@.subrange(i as int, i + p@.len()) =~= p@);
    true
}

fn char_value(c: char) -> (v: ValueData)
    ensures
        v@ == DataV::Char(c),
{
    ValueData::Char(c)
}

/// Equality of a scanned value's data with any other.
pub fn scalar_eq(a: &ValueData, b: &ValueData) -> (r: bool)
    requires
        is_scalar(a@),
    ensures
        r == (a@ == b@),
{
    match (a, b) {
        (ValueData::Integer(x), ValueData::Integer(y)) => *x == *y,
        (ValueData::Float(x), ValueData::Float(y)) => crate::text::string_eq(x, y),
        (ValueData::Boolean(x), ValueData::Boolean(y)) => *x == *y,
        (ValueData::Char(x), ValueData::Char(y)) => *x == *y,
        (ValueData::String(x), ValueData::String(y)) => crate::text::string_eq(x, y),
        (
            ValueData::Symbol { module: m1, word: w1 },
            ValueData::Symbol { module: m2, word: w2 },
        ) => crate::text::string_eq(m1, m2) && crate::text::string_eq(w1, w2),
        (ValueData::Macro, ValueData::Macro) => true,
        _ => false,
    }
}

/// Scanner that converts source text into a stream of values.
pub struct Scanner {
    /// The source that the input is from.
    pub source: Source,
    /// Source text being scanned
    input: String,
    /// Vector of source characters
    chars: Vec<char>,
    /// Index of current character (in `chars`).
    index: usize,
    /// Current line number (1-based)
    line: usize,
    /// Current column number (1-based)
    column: usize,
    /// Current offset from start of `source`
    offset: usize,
    /// Where the position is counted from.
    frame: Ghost<FrameV>,
}

pub open spec fn res_char_v(r: Result<char, ScannerError>) -> Result<char, ScanErrV> {
    match r {
        Ok(c) => Ok(c),
        Err(e) => Err(e@),
    }
}

pub open spec fn res_text_v(r: Result<String, ScannerError>) -> Result<Seq<char>, ScanErrV> {
    match r {
        Ok(t) => Ok(t@),
        Err(e) => Err(e@),
    }
}

impl Scanner {
    /// The text being scanned.
    pub closed spec fn text(&self) -> Seq<char> {
        self.chars@
    }

    /// Where the text came from.
    pub closed spec fn source_v(&self) -> SourceV {
        self.source@
    }

    /// The index of the next character to read.
    pub closed spec fn at(&self) -> int {
        self.index as int
    }

    /// The scanner's position agrees with its index, and its text fits in
    /// memory.
    pub closed spec fn wf(&self) -> bool {
        &&& self.input@ == self.chars@
        &&& utf8_len(self.chars@) <= isize::MAX
        &&& self.index <= self.chars@.len()
        &&& self.frame@.from <= self.index
        &&& frame_fits(self.chars@, self.frame@)
        &&& cursor_in(self.chars@, self.frame@, self.index as int) == (CursorV {
            index: self.index as int,
            line: self.line as int,
            column: self.column as int,
            offset: self.offset as int,
        })
    }

    /// The scanner's index, line, column and byte offset.
    pub closed spec fn cursor(&self) -> CursorV {
        CursorV {
            index: self.index as int,
            line: self.line as int,
            column: self.column as int,
            offset: self.offset as int,
        }
    }

    /// Where the scanner's positions are counted from.
    pub closed spec fn frame(&self) -> FrameV {
        self.frame@
    }

    /// Only the position moved.
    pub closed spec fn moved_from(&self, old: &Scanner) -> bool {
        &&& self.wf()
        &&& old.at() <= self.at()
        &&& self.text() == old.text()
        &&& self.source@ == old.source@
        &&& self.frame@ == old.frame@
    }

    fn with_source(source: Source, input: &str) -> (r: Scanner)
        ensures
            r.wf(),
            r.text() == input@,
            r.at() == 0,
            r.frame() == origin(),
            r.source_v() == source@,
    {
        let chars = chars_of(input);
        let n = str_byte_len(input);
        proof {
            lemma_utf8_len_prefix(chars@, chars@.len() as int);
            assert(chars@.take(chars@.len() as int) =~= chars@);
        }
        Scanner {
            source,
            input: string_from_chars(chars.as_slice()),
            chars,
            index: 0,
            line: 1,
            column: 1,
            offset: 0,
            frame: Ghost(origin()),
        }
    }

    /// A scanner over an input string.
    pub fn from_input_string(input: &str) -> (r: Scanner)
        ensures
            r.wf(),
            r.text() == input@,
            r.at() == 0,
            r.frame() == origin(),
            r.source_v() == SourceV::InputString,
    {
        Scanner::with_source(Source::InputString, input)
    }

    /// A scanner over the text of a script file.
    pub fn from_script(path: &str, input: &str) -> (r: Scanner)
        ensures
            r.wf(),
            r.text() == input@,
            r.at() == 0,
            r.frame() == origin(),
            r.source_v() == (SourceV::ScriptFile { path: path@ }),
    {
        Scanner::with_source(Source::ScriptFile { path: string_of(path) }, input)
    }

    /// A scanner over the text of a module file.
    pub fn from_module(name: &str, path: &str, input: &str) -> (r: Scanner)
        ensures
            r.wf(),
            r.text() == input@,
            r.at() == 0,
            r.frame() == origin(),
            r.source_v() == (SourceV::Module { name: name@, path: path@ }),
    {
        Scanner::with_source(Source::Module { name: string_of(name), path: string_of(path) }, input)
    }

    /// A scanner over the text of a module built into the interpreter.
    pub fn from_internal_module(name: &str, input: &str) -> (r: Scanner)
        ensures
            r.wf(),
            r.text() == input@,
            r.at() == 0,
            r.frame() == origin(),
            r.source_v() == (SourceV::Internal { name: name@ }),
    {
        Scanner::with_source(Source::Internal { name: string_of(name) }, input)
    }

    /// Replaces the text with an input string, keeping the line, column
    /// and offset as they were: reading the new text goes on counting from
    /// there. Where the index lies past the new text, the scanner stands at
    /// its end, which reads as the end of input just as an index past it
    /// would.
    pub fn set_input_string(&mut self, input: &str)
        requires
            old(self).wf(),
            old(self).cursor().line + input@.len() <= usize::MAX,
            old(self).cursor().column + input@.len() <= usize::MAX,
            old(self).cursor().offset + utf8_len(input@) <= usize::MAX,
        ensures
            final(self).wf(),
            final(self).text() == input@,
            final(self).source_v() == SourceV::InputString,
            final(self).at() == (if old(self).at() <= input@.len() { old(self).at() } else { input@.len() as int }),
            final(self).cursor() == (CursorV { index: final(self).at(), ..old(self).cursor() }),
            final(self).frame() == (FrameV { from: final(self).at(), base: final(self).cursor() }),
    {
        let chars = chars_of(input);
        // The byte length of a `str` is bounded; this ties it to the characters.
        let _bytes = str_byte_len(input);
        self.source = Source::InputString;
        self.input = string_from_chars(chars.as_slice());
        self.chars = chars;
        if self.index > self.chars.len() {
            self.index = self.chars.len();
        }
        proof {
            lemma_cursor_in(old(self).chars@, old(self).frame@, old(self).index as int);
        }
        self.frame = Ghost(
            FrameV {
                from: self.index as int,
                base: CursorV {
                    index: self.index as int,
                    line: self.line as int,
                    column: self.column as int,
                    offset: self.offset as int,
                },
            },
        );
    }

    /// The text being scanned.
    pub fn input(&self) -> (r: &String)
        requires
            self.wf(),
        ensures
            r@ == self.text(),
    {
        &self.input
    }

    /// The index of the next character to read.
    pub fn index(&self) -> (r: usize)
        ensures
            r == self.at(),
    {
        self.index
    }

    /// The line (1-based) of the next character to read.
    pub fn line(&self) -> (r: usize)
        requires
            self.wf(),
        ensures
            r == cursor_in(self.text(), self.frame(), self.at()).line,
    {
        self.line
    }

    /// The column (1-based) of the next character to read.
    pub fn column(&self) -> (r: usize)
        requires
            self.wf(),
        ensures
            r == cursor_in(self.text(), self.frame(), self.at()).column,
    {
        self.column
    }

    /// The byte offset of the next character to read.
    pub fn offset(&self) -> (r: usize)
        requires
            self.wf(),
        ensures
            r == cursor_in(self.text(), self.frame(), self.at()).offset,
    {
        self.offset
    }

    /// The next character, if any, without consuming it.
    fn peek(&self) -> (r: Option<char>)
        requires
            self.wf(),
        ensures
            r == (if self.at() < self.text().len() {
                Some(self.text()[self.at()])
            } else {
                None::<char>
            }),
    {
        if self.index < self.chars.len() {
            Some(self.chars[self.index])
        } else {
            None
        }
    }

    /// Consumes and returns the next character.
    fn next_char(&mut self) -> (r: Option<char>)
        requires
            old(self).wf(),
        ensures
            final(self).wf(),
            final(self).moved_from(old(self)),
            final(self).chars@ == old(self).chars@,
            r == (if old(self).at() < old(self).text().len() {
                Some(old(self).text()[old(self).at()])
            } else {
                None::<char>
            }),
            final(self).at() == (if old(self).at() < old(self).text().len() {
                old(self).at() + 1
            } else {
                old(self).at()
            }),
    {
        if self.index >= self.chars.len() {
            return None;
        }
        let c = self.chars[self.index];
        proof {
            lemma_cursor_in(self.chars@, self.frame@, self.index as int);
            lemma_cursor_in(self.chars@, self.frame@, self.index + 1);
            lemma_utf8_len_prefix(self.chars@, self.index + 1);
            lemma_utf8_len_prefix(self.chars@, self.frame@.from);
            lemma_utf8_len_prefix(self.chars@, self.chars@.len() as int);
            assert(self.chars@.take(self.chars@.len() as int) =~= self.chars@);
            lemma_utf8_len_prefix(self.chars@.take(self.index + 1), self.frame@.from);
            assert(self.chars@.take(self.index + 1).take(self.frame@.from) =~= self.chars@.take(self.frame@.from));
            lemma_utf8_len_grows(self.chars@, self.index + 1, self.chars@.len() as int);
        }
        self.index = self.index + 1;
        self.offset = self.offset + char_width(c);
        if c == '\n' {
            self.line = self.line + 1;
            self.column = 1;
        } else {
            self.column = self.column + 1;
        }
        Some(c)
    }

    /// Skips Unicode whitespace.
    fn skip_whitespace(&mut self)
        requires
            old(self).wf(),
        ensures
            final(self).moved_from(old(self)),
            final(self).at() == crate::text::skip_ws(old(self).text(), old(self).at()),
    {
        while self.index < self.chars.len() && crate::text::is_whitespace(self.chars[self.index])
            invariant
                self.moved_from(old(self)),
                crate::text::skip_ws(self.text(), self.at()) == crate::text::skip_ws(
                    old(self).text(),
                    old(self).at(),
                ),
            decreases self.text().len() - self.at(),
        {
            self.next_char();
        }
    }

    /// Skips to just after the end of the line.
    fn skip_eol(&mut self)
        requires
            old(self).wf(),
        ensures
            final(self).moved_from(old(self)),
            final(self).at() == line_skip(old(self).text(), old(self).at()),
    {
        while self.index < self.chars.len() && self.chars[self.index] != '\n'
            invariant
                self.moved_from(old(self)),
                line_skip(self.text(), self.at()) == line_skip(old(self).text(), old(self).at()),
            decreases self.text().len() - self.at(),
        {
            self.next_char();
        }
        if self.index < self.chars.len() {
            self.next_char();
        }
    }

    /// Reads up to `max_len` hexadecimal digits.
    fn scan_hex_digits(&mut self, max_len: usize) -> (r: Result<u32, ScannerError>)
        requires
            old(self).wf(),
            max_len <= 6,
        ensures
            final(self).moved_from(old(self)),
            ({
                let (v, n, j) = hex_scan(old(self).text(), old(self).at(), max_len as int, 0, 0);
                &&& final(self).at() == j
                &&& n >= 0
                &&& n == 0 ==> r is Err && r->Err_0@ == hex_digits_error()
                &&& n > 0 ==> r == Ok::<u32, ScannerError>(v as u32)
                &&& 0 <= v < pow16(max_len as int)
            }),
    {
        let mut value: u32 = 0;
        let mut count: usize = 0;
        proof {
            lemma_pow16_le(0, max_len as int);
        }
        proof {
            lemma_pow16_le(max_len as int, 6);
        }
        while self.index < self.chars.len() && count < max_len && hex_digit(self.chars[self.index]).is_some()
            invariant
                self.moved_from(old(self)),
                count <= max_len <= 6,
                value < pow16(count as int),
                pow16(count as int) <= pow16(max_len as int) <= pow16(6),
                hex_scan(self.text(), self.at(), max_len as int, count as int, value as int)
                    == hex_scan(old(self).text(), old(self).at(), max_len as int, 0, 0),
            decreases self.text().len() - self.at(),
        {
            let d = match hex_digit(self.chars[self.index]) {
                Some(d) => d,
                None => 0,
            };
            proof {
                lemma_pow16_le(count + 1, max_len as int);
                assert(pow16(6) == 16777216) by { reveal_with_fuel(pow16, 7); }
            }
            value = value * 16 + d;
            self.next_char();
            count = count + 1;
        }
        if count == 0 {
            return Err(ScannerError::InvalidEscapeSequence(string_of("Expected hexadecimal digits")));
        }
        Ok(value)
    }

    /// Reads an escape sequence after a backslash.
    fn process_escape_sequence(&mut self) -> (r: Result<char, ScannerError>)
        requires
            old(self).wf(),
        ensures
            final(self).moved_from(old(self)),
            (res_char_v(r), final(self).at()) == escape_at(old(self).text(), old(self).at()),
    {
        let ghost s = self.text();
        let ghost i = self.at();
        assert(pow16(2) == 256 && pow16(6) == 16777216) by {
            reveal_with_fuel(pow16, 7);
        }
        match self.next_char() {
            Some('n') => Ok('\n'),
            Some('r') => Ok('\r'),
            Some('t') => Ok('\t'),
            Some('\\') => Ok('\\'),
            Some('\'') => Ok('\''),
            Some('"') => Ok('"'),
            Some('u') => {
                match self.peek() {
                    Some('{') => {
                        self.next_char();
                        let value = match self.scan_hex_digits(6) {
                            Ok(v) => v,
                            Err(e) => {
                                assert(s[i] == 'u' && i + 1 < s.len() && s[i + 1] == '{');
                                assert(hex_scan(s, i + 2, 6, 0, 0).1 == 0);
                                assert(e@ == hex_digits_error());
                                return Err(e);
                            },
                        };
                        match self.next_char() {
                            Some('}') => match char_from_u32(value) {
                                Some(c) => Ok(c),
                                None => {
                                    let mut m: Vec<char> = Vec::new();
                                    push_lit(&mut m, "Invalid Unicode codepoint: ");
                                    push_decimal(&mut m, value as usize);
                                    Err(
                                        ScannerError::InvalidEscapeSequence(
                                            string_from_chars(m.as_slice()),
                                        ),
                                    )
                                },
                            },
                            _ => Err(
                                ScannerError::InvalidEscapeSequence(
                                    string_of("Expected closing '}'"),
                                ),
                            ),
                        }
                    },
                    _ => {
                        let value = match self.scan_hex_digits(2) {
                            Ok(v) => v,
                            Err(e) => {
                                assert(s[i] == 'u' && !(i + 1 < s.len() && s[i + 1] == '{'));
                                assert(hex_scan(s, i + 1, 2, 0, 0).1 == 0);
                                return Err(e);
                            },
                        };
                        let ghost hs = hex_scan(s, i + 1, 2, 0, 0);
                        assert(hs.1 > 0 && value as int == hs.0 && self.at() == hs.2);
                        if value > 0x7F {
                            let mut m: Vec<char> = Vec::new();
                            push_lit(&mut m, "ASCII value out of range: ");
                            push_decimal(&mut m, value as usize);
                            assert(m@ == "ASCII value out of range: "@ + crate::text::decimal(hs.0 as nat));
                            return Err(
                                ScannerError::InvalidEscapeSequence(string_from_chars(m.as_slice())),
                            );
                        }
                        match char_from_u32(value) {
                            Some(c) => Ok(c),
                            None => Ok('\0'),
                        }
                    },
                }
            },
            Some(c) => {
                let mut m: Vec<char> = Vec::new();
                m.push('\\');
                m.push(c);
                assert(m@ =~= seq!['\\', c]);
                Err(ScannerError::InvalidEscapeSequence(string_from_chars(m.as_slice())))
            },
            None => Err(ScannerError::UnterminatedChar),
        }
    }

    /// Reads a character literal after its opening quote.
    fn scan_char(&mut self) -> (r: Result<char, ScannerError>)
        requires
            old(self).wf(),
        ensures
            final(self).moved_from(old(self)),
            (res_char_v(r), final(self).at()) == char_lit(old(self).text(), old(self).at()),
    {
        let c = match self.next_char() {
            Some('\\') => self.process_escape_sequence(),
            Some('\'') => Err(ScannerError::InvalidLiteral(string_of("Empty character literal"))),
            Some(c) => Ok(c),
            None => Err(ScannerError::UnterminatedChar),
        };
        if self.next_char() != Some('\'') {
            return Err(ScannerError::UnterminatedChar);
        }
        c
    }

    /// Reads a string literal (plain or triple-quoted) after its opening
    /// quote.
    fn scan_any_string(&mut self) -> (r: Result<String, ScannerError>)
        requires
            old(self).wf(),
        ensures
            final(self).moved_from(old(self)),
            (res_text_v(r), final(self).at()) == string_lit(old(self).text(), old(self).at()),
    {
        let mut string: Vec<char> = Vec::new();
        let mut is_triple = false;
        let mut quote_count: usize = 0;
        proof {
            lemma_utf8_len_prefix(self.chars@, self.chars@.len() as int);
            assert(self.chars@.take(self.chars@.len() as int) =~= self.chars@);
        }
        if self.index + 1 < self.chars.len() && self.chars[self.index] == '"' && self.chars[self.index
            + 1] == '"' {
            is_triple = true;
            self.next_char();
            self.next_char();
        }
        while self.index < self.chars.len()
            invariant
                self.moved_from(old(self)),
                quote_count < 3,
                !is_triple ==> quote_count == 0,
                str_body(self.text(), self.at(), is_triple, string@, quote_count as nat)
                    == string_lit(old(self).text(), old(self).at()),
            decreases self.text().len() - self.at(),
        {
            let ghost i = self.at();
            let c = self.chars[self.index];
            if c == '"' {
                self.next_char();
                if is_triple {
                    quote_count = quote_count + 1;
                    if quote_count == 3 {
                        return Ok(string_from_chars(string.as_slice()));
                    }
                } else {
                    return Ok(string_from_chars(string.as_slice()));
                }
            } else if c == '\\' && !is_triple {
                self.next_char();
                let e = self.process_escape_sequence();
                match e {
                    Ok(ch) => {
                        proof {
                            lemma_escape_end(self.text(), i + 1);
                        }
                        string.push(ch);
                    },
                    Err(x) => return Err(x),
                }
            } else {
                self.next_char();
                let ghost before = string@;
                let ghost qc0 = quote_count;
                while quote_count > 0
                    invariant
                        quote_count <= qc0,
                        string@ == before + quotes((qc0 - quote_count) as nat),
                    decreases quote_count,
                {
                    string.push('"');
                    quote_count = quote_count - 1;
                    assert(string@ =~= before + quotes((qc0 - quote_count) as nat));
                }
                string.push(c);
                assert(string@ =~= before + quotes(qc0 as nat) + seq![c]);
            }
        }
        Err(ScannerError::UnterminatedString)
    }


    /// Reads the rest of a word whose first character, `first`, was just
    /// read: everything up to ASCII whitespace.
    fn scan_word_chars(&mut self, first: char) -> (w: Vec<char>)
        requires
            old(self).wf(),
            old(self).at() > 0,
            old(self).text()[old(self).at() - 1] == first,
        ensures
            final(self).moved_from(old(self)),
            final(self).at() == word_stop(old(self).text(), old(self).at()),
            w@ == old(self).text().subrange(old(self).at() - 1, final(self).at()),
    {
        let ghost st = self.at() - 1;
        let mut word: Vec<char> = Vec::new();
        word.push(first);
        assert(word@ =~= self.text().subrange(st, self.at()));
        while self.index < self.chars.len() && !is_ascii_whitespace(self.chars[self.index])
            invariant
                self.moved_from(old(self)),
                0 <= st < self.at() <= self.text().len(),
                word_stop(self.text(), self.at()) == word_stop(old(self).text(), old(self).at()),
                word@ == self.text().subrange(st, self.at()),
            decreases self.text().len() - self.at(),
        {
            let ghost a = self.at();
            let c = self.chars[self.index];
            assert(c == self.text()[a]);
            word.push(c);
            self.next_char();
            assert(word@ =~= self.text().subrange(st, self.at()));
        }
        word
    }

    /// The value a word stands for.
    fn parse_word(&self, w: &Vec<char>) -> (r: ValueData)
        requires
            source_ok(self.source@),
        ensures
            r@ == word_data(w@, key_of(self.source@)),
    {
        if crate::text::eq_lit(w.as_slice(), "MACRO:") {
            return ValueData::Macro;
        }
        if crate::text::eq_lit(w.as_slice(), "#t") {
            return ValueData::Boolean(true);
        }
        if crate::text::eq_lit(w.as_slice(), "#f") {
            return ValueData::Boolean(false);
        }
        match parse_i64(w.as_slice()) {
            Some(n) => ValueData::Integer(n),
            None => if is_float(w.as_slice()) {
                ValueData::Float(string_from_chars(w.as_slice()))
            } else {
                ValueData::Symbol { module: self.source.get_key(), word: string_from_chars(w.as_slice()) }
            },
        }
    }

    /// The value of a token that started at `start`, with the line, column
    /// and offset recorded there, and ends here.
    fn create_value(&self, data: ValueData, start: usize, line: usize, column: usize, offset: usize) -> (v: Value)
        requires
            self.wf(),
            start <= self.at(),
            self.frame().from <= start,
            cursor_in(self.text(), self.frame(), start as int) == (CursorV {
                index: start as int,
                line: line as int,
                column: column as int,
                offset: offset as int,
            }),
        ensures
            v@ == token_in(self.text(), self.frame(), data@, start as int, self.at()),
    {
        proof {
            lemma_cursor_in(self.chars@, self.frame@, start as int);
            lemma_cursor_in(self.chars@, self.frame@, self.index as int);
            lemma_utf8_len_prefix(self.chars@.take(self.index as int), start as int);
            assert(self.chars@.take(self.index as int).take(start as int) =~= self.chars@.take(
                start as int,
            ));
        }
        let mut lexeme: Vec<char> = Vec::new();
        let mut k = start;
        while k < self.index
            invariant
                self.wf(),
                start <= k <= self.index,
                lexeme@ == self.chars@.subrange(start as int, k as int),
            decreases self.index - k,
        {
            lexeme.push(self.chars[k]);
            k = k + 1;
            assert(lexeme@ =~= self.chars@.subrange(start as int, k as int));
        }
        Value {
            data,
            lexeme: Some(string_from_chars(lexeme.as_slice())),
            pos: Some(Pos { line, column, offset, length: self.index - start }),
        }
    }

    /// Reads the token that starts with `c`, just read at `start`: its data,
    /// or the error met; `None` for a comment, whose line is skipped.
    fn scan_token(&mut self, c: char) -> (r: Option<Result<ValueData, ScannerError>>)
        requires
            old(self).wf(),
            source_ok(old(self).source_v()),
            old(self).at() > 0,
            old(self).text()[old(self).at() - 1] == c,
            !crate::text::is_ws(c),
        ensures
            final(self).moved_from(old(self)),
            c == '"' ==> ({
                let (x, e) = string_lit(old(self).text(), old(self).at());
                &&& final(self).at() == e
                &&& r is Some
                &&& match x {
                    Ok(t) => r->0 is Ok && r->0->Ok_0@ == DataV::String(t),
                    Err(z) => r->0 is Err && r->0->Err_0@ == z,
                }
            }),
            c == '\'' ==> ({
                let (x, e) = char_lit(old(self).text(), old(self).at());
                &&& final(self).at() == e
                &&& r is Some
                &&& match x {
                    Ok(ch) => r->0 is Ok && r->0->Ok_0@ == DataV::Char(ch),
                    Err(z) => r->0 is Err && r->0->Err_0@ == z,
                }
            }),
            c != '"' && c != '\'' ==> ({
                let s = old(self).text();
                let st = old(self).at() - 1;
                let e = word_stop(s, st + 1);
                let w = s.subrange(st, e);
                if w.len() >= 2 && w[0] == '/' && w[1] == '/' {
                    r is None && final(self).at() == line_skip(s, e)
                } else {
                    &&& final(self).at() == e
                    &&& r is Some
                    &&& r->0 is Ok
                    &&& r->0->Ok_0@ == word_data(w, key_of(old(self).source_v()))
                }
            }),
    {
        if c == '"' {
            match self.scan_any_string() {
                Ok(t) => Some(Ok(ValueData::String(t))),
                Err(e) => Some(Err(e)),
            }
        } else if c == '\'' {
            let ghost s = self.text();
            let ghost i = self.at();
            let x = self.scan_char();
            assert((res_char_v(x), self.at()) == char_lit(s, i));
            match x {
                Ok(ch) => Some(Ok(char_value(ch))),
                Err(e) => Some(Err(e)),
            }
        } else {
            let word = self.scan_word_chars(c);
            if word.len() >= 2 && word[0] == '/' && word[1] == '/' {
                self.skip_eol();
                return None;
            }
            Some(Ok(self.parse_word(&word)))
        }
    }

    /// Scans and returns the next value from the input: `None` at the end
    /// of the input, else the value (or the error met) of the next token.
    #[verifier::spinoff_prover]
    #[verifier::rlimit(40)]
    pub fn scan_value(&mut self) -> (r: Option<Result<Value, ScannerError>>)
        requires
            old(self).wf(),
            source_ok(old(self).source_v()),
        ensures
            final(self).wf(),
            final(self).text() == old(self).text(),
            final(self).source_v() == old(self).source_v(),
            final(self).frame() == old(self).frame(),
            match token_at(old(self).text(), key_of(old(self).source_v()), old(self).at()) {
                None => r is None && final(self).at() == old(self).text().len(),
                Some(t) => r matches Some(x) && scanned_as(x, t, old(self).text(), old(self).frame())
                    && final(self).at() == t.2,
            },
        decreases old(self).text().len() - old(self).at(),
    {
        let ghost s = self.text();
        let ghost key = key_of(self.source@);
        let ghost i = self.at();
        proof {
            reveal(token_at);
            crate::text::lemma_skip_ws_bounds(s, i);
        }
        self.skip_whitespace();
        if self.index >= self.chars.len() {
            return None;
        }
        let start = self.index;
        let line = self.line;
        let column = self.column;
        let offset = self.offset;
        let c = self.chars[self.index];
        self.next_char();
        proof {
            lemma_word_stop(s, start + 1);
            lemma_line_skip(s, word_stop(s, start + 1));
        }
        match self.scan_token(c) {
            None => self.scan_value(),
            Some(Ok(d)) => Some(Ok(self.create_value(d, start, line, column, offset))),
            Some(Err(e)) => Some(Err(e)),
        }
    }

    /// Scans every value to the end of the input.
    pub fn scan_to_end(&mut self) -> (r: Vec<Result<Value, ScannerError>>)
        requires
            old(self).wf(),
            source_ok(old(self).source_v()),
        ensures
            final(self).wf(),
            final(self).text() == old(self).text(),
            final(self).source_v() == old(self).source_v(),
            final(self).frame() == old(self).frame(),
            final(self).at() == old(self).text().len(),
            r@.len() == all_tokens(old(self).text(), key_of(old(self).source_v()), old(self).at()).len(),
            forall|k: int|
                0 <= k < r@.len() ==> scanned_as(
                    #[trigger] r@[k],
                    all_tokens(old(self).text(), key_of(old(self).source_v()), old(self).at())[k],
                    old(self).text(),
                    old(self).frame(),
                ),
            forall|k: int|
                0 <= k < r@.len() ==> (#[trigger] r@[k] matches Ok(v) ==> (v.pos matches Some(p)
                    && crate::value::pos_fits(p))),
    {
        let ghost s = self.text();
        let ghost key = key_of(self.source@);
        let ghost all = all_tokens(s, key, self.at());
        let mut out: Vec<Result<Value, ScannerError>> = Vec::new();
        loop
            invariant_except_break
                all.subrange(0, out@.len() as int) + all_tokens(s, key, self.at()) == all,
            invariant
                self.wf(),
                self.text() == s,
                self.source_v() == old(self).source_v(),
                self.frame() == old(self).frame(),
                key == key_of(self.source_v()),
                source_ok(self.source_v()),
                all == all_tokens(s, key, old(self).at()),
                0 <= self.at() <= s.len(),
                out@.len() <= all.len(),
                forall|k: int| 0 <= k < out@.len() ==> scanned_as(#[trigger] out@[k], all[k], s, old(self).frame()),
                forall|k: int|
                    0 <= k < out@.len() ==> (#[trigger] out@[k] matches Ok(v) ==> (v.pos matches Some(p)
                        && crate::value::pos_fits(p))),
            ensures
                self.wf(),
                self.text() == s,
                self.source_v() == old(self).source_v(),
                self.frame() == old(self).frame(),
                self.at() == s.len(),
                out@.len() == all.len(),
                forall|k: int| 0 <= k < out@.len() ==> scanned_as(#[trigger] out@[k], all[k], s, old(self).frame()),
                forall|k: int|
                    0 <= k < out@.len() ==> (#[trigger] out@[k] matches Ok(v) ==> (v.pos matches Some(p)
                        && crate::value::pos_fits(p))),
            decreases s.len() - self.at(),
        {
            let ghost i = self.at();
            proof {
                lemma_token_end(s, key, i);
            }
            match self.scan_value() {
                None => {
                    assert(all_tokens(s, key, i) =~= seq![]);
                    assert(all.subrange(0, out@.len() as int) =~= all);
                    break;
                },
                Some(x) => {
                    let ghost t = token_at(s, key, i)->0;
                    proof {
                        if t.0 is Ok {
                            lemma_pos_in_fits(s, old(self).frame(), t.1, t.2);
                        }
                    }
                    assert(all_tokens(s, key, i) == seq![t] + all_tokens(s, key, t.2));
                    assert(all[out@.len() as int] == t) by {
                        assert((all.subrange(0, out@.len() as int) + all_tokens(s, key, i))[out@.len() as int] == t);
                    }
                    out.push(x);
                    assert(all.subrange(0, out@.len() as int) =~= all.subrange(0, out@.len() - 1).push(t));
                    assert(all.subrange(0, out@.len() as int) + all_tokens(s, key, self.at()) =~= all.subrange(0, out@.len() - 1) + all_tokens(s, key, i));
                },
            }
        }
        out
    }

    /// Scans values up to the first one whose data is `value_data`, which
    /// is consumed and not kept; `UnexpectedEndOfInput` if the input ends
    /// first. Words are compared by name alone: a symbol, on either side,
    /// stands for the bare word of its name.
    pub fn scan_value_list(&mut self, value_data: ValueData) -> (r: Result<
        Vec<Result<Value, ScannerError>>,
        ScannerError,
    >)
        requires
            old(self).wf(),
            source_ok(old(self).source_v()),
        ensures
            final(self).wf(),
            final(self).text() == old(self).text(),
            final(self).source_v() == old(self).source_v(),
            final(self).frame() == old(self).frame(),
            list_scanned(
                r,
                old(self).text(),
                old(self).frame(),
                key_of(old(self).source_v()),
                old(self).at(),
                list_target(value_data@),
                final(self).at(),
            ),
    {
        let ghost target0 = list_target(value_data@);
        let wanted = match &value_data {
            ValueData::Symbol { word, .. } => ValueData::Word(word.clone()),
            d => crate::value::clone_data(d),
        };
        assert(wanted@ == target0);
        let ghost s = self.text();
        let ghost key = key_of(self.source@);
        let ghost target = wanted@;
        let ghost i0 = self.at();
        let mut buffer: Vec<Result<Value, ScannerError>> = Vec::new();
        let ghost mut seen: Seq<(Result<DataV, ScanErrV>, int, int)> = seq![];
        loop
            invariant
                self.wf(),
                self.text() == s,
                self.source_v() == old(self).source_v(),
                self.frame() == old(self).frame(),
                s == old(self).text(),
                i0 == old(self).at(),
                target == target0,
                target0 == list_target(value_data@),
                key == key_of(self.source_v()),
                source_ok(self.source_v()),
                target == wanted@,
                0 <= self.at() <= s.len(),
                tokens_until(s, key, i0, target) == prepend_tokens(seen, tokens_until(s, key, self.at(), target)),
                buffer@.len() == seen.len(),
                forall|k: int| 0 <= k < buffer@.len() ==> scanned_as(#[trigger] buffer@[k], seen[k], s, old(self).frame()),
            decreases s.len() - self.at(),
        {
            let ghost i = self.at();
            proof {
                lemma_token_end(s, key, i);
            }
            match self.scan_list_item(&wanted) {
                None => {
                    assert(tokens_until(s, key, i, target) is None);
                    assert(tokens_until(s, key, i0, target) is None);
                    assert(tokens_until(old(self).text(), key_of(old(self).source_v()), old(self).at(), target0) is None);
                    assert(target0 == list_target(value_data@));
                    let r: Result<Vec<Result<Value, ScannerError>>, ScannerError> = Err(ScannerError::UnexpectedEndOfInput);
                    assert(list_scanned(r, s, old(self).frame(), key, i0, target, self.at()));
                    return r;
                },
                Some((hit, x)) => {
                    let ghost t = token_at(s, key, i)->0;
                    if hit {
                        let ghost none: Seq<(Result<DataV, ScanErrV>, int, int)> = seq![];
                        assert(tokens_until(s, key, i, target) == Some((none, t.2)));
                        assert(seen + none =~= seen);
                        return Ok(buffer);
                    }
                    proof {
                        lemma_prepend_tokens(seen, t, tokens_until(s, key, t.2, target));
                        seen = seen.push(t);
                    }
                    buffer.push(x);
                },
            }
        }
    }

    /// Scans one value, and tells whether it ends a list read up to `target`.
    fn scan_list_item(&mut self, target: &ValueData) -> (r: Option<(bool, Result<Value, ScannerError>)>)
        requires
            old(self).wf(),
            source_ok(old(self).source_v()),
        ensures
            final(self).wf(),
            final(self).text() == old(self).text(),
            final(self).source_v() == old(self).source_v(),
            final(self).frame() == old(self).frame(),
            match token_at(old(self).text(), key_of(old(self).source_v()), old(self).at()) {
                None => r is None && final(self).at() == old(self).text().len(),
                Some(t) => r is Some && ({
                    let (hit, x) = r->0;
                    &&& hit == ends_list(t.0, target@)
                    &&& scanned_as(x, t, old(self).text(), old(self).frame())
                    &&& final(self).at() == t.2
                }),
            },
    {
        proof {
            lemma_token_scalar(self.text(), key_of(self.source@), self.at());
        }
        match self.scan_value() {
            None => None,
            Some(x) => {
                let hit = match &x {
                    Ok(v) => match (&v.data, target) {
                        (ValueData::Symbol { word, .. }, ValueData::Word(w)) => crate::text::string_eq(word, w),
                        (ValueData::Symbol { .. }, _) => false,
                        (d, _) => scalar_eq(d, target),
                    },
                    Err(_) => false,
                };
                Some((hit, x))
            },
        }
    }

    /// Reads up to the first occurrence of `delimiter`, which is consumed
    /// and not kept; `UnexpectedEndOfInput` if the input ends first.
    pub fn read_string_until(&mut self, delimiter: &str) -> (r: Result<String, ScannerError>)
        requires
            old(self).wf(),
        ensures
            final(self).wf(),
            final(self).text() == old(self).text(),
            final(self).source_v() == old(self).source_v(),
            final(self).frame() == old(self).frame(),
            match crate::text::find_from(old(self).text(), delimiter@, old(self).at()) {
                Some(k) if k < old(self).text().len() => r is Ok && r->Ok_0@ == old(self).text().subrange(
                    old(self).at(),
                    k,
                ) && final(self).at() == k + delimiter@.len(),
                _ => r is Err && r->Err_0@ == ScanErrV::UnexpectedEndOfInput && final(self).at()
                    == old(self).text().len(),
            },
    {
        let d = chars_of(delimiter);
        let ghost s = self.text();
        let ghost i0 = self.at();
        let mut buffer: Vec<char> = Vec::new();
        proof {
            crate::text::lemma_find_from(s, d@, i0);
        }
        while self.index < self.chars.len()
            invariant
                self.moved_from(old(self)),
                self.text() == s,
                s == old(self).text(),
                i0 == old(self).at(),
                d@ == delimiter@,
                0 <= i0 <= self.at() <= s.len(),
                buffer@ == s.subrange(i0, self.at()),
                forall|k: int| i0 <= k < self.at() ==> !crate::text::occurs_at(s, d@, k),
                crate::text::find_from(s, d@, i0) matches Some(j) ==> self.at() <= j && crate::text::occurs_at(s, d@, j)
                    && forall|k: int| i0 <= k < j ==> !crate::text::occurs_at(s, d@, k),
                crate::text::find_from(s, d@, i0) is None ==> forall|k: int| i0 <= k ==> !crate::text::occurs_at(s, d@, k),
            decreases s.len() - self.at(),
        {
            if occurs_here(&self.chars, &d, self.index) {
                let ghost k = self.at();
                proof {
                    match crate::text::find_from(s, d@, i0) {
                        Some(j) => {
                            if k < j {
                                assert(!crate::text::occurs_at(s, d@, k));
                            }
                        },
                        None => {
                            assert(!crate::text::occurs_at(s, d@, k));
                        },
                    }
                }
                let mut n: usize = 0;
                while n < d.len()
                    invariant
                        self.moved_from(old(self)),
                        self.text() == s,
                        s == old(self).text(),
                        i0 == old(self).at(),
                        n <= d@.len(),
                        k + d@.len() <= s.len(),
                        self.at() == k + n,
                        0 <= i0 <= k,
                        buffer@ == s.subrange(i0, k),
                    decreases d@.len() - n,
                {
                    self.next_char();
                    n = n + 1;
                }
                return Ok(string_from_chars(buffer.as_slice()));
            }
            let ghost a = self.at();
            let c = self.chars[self.index];
            assert(c == s[a]);
            buffer.push(c);
            self.next_char();
            assert(self.at() == a + 1);
            assert(buffer@ =~= s.subrange(i0, self.at()));
        }
        Err(ScannerError::UnexpectedEndOfInput)
    }
}

/// The values of scanned tokens, or the first scanning error.
pub open spec fn scanned_values(toks: Seq<(Result<DataV, ScanErrV>, int, int)>, s: Seq<char>) -> Result<
    Seq<ValueV>,
    ScanErrV,
>
    decreases toks.len(),
{
    if toks.len() == 0 {
        Ok(seq![])
    } else {
        match toks[0].0 {
            Err(x) => Err(x),
            Ok(d) => match scanned_values(toks.drop_first(), s) {
                Ok(vs) => Ok(seq![token_value(s, d, toks[0].1, toks[0].2)] + vs),
                Err(x) => Err(x),
            },
        }
    }
}

/// A copy of a scanner error.
pub fn clone_scanner_error(e: &ScannerError) -> (r: ScannerError)
    ensures
        r@ == e@,
{
    match e {
        ScannerError::InvalidNumber(s) => ScannerError::InvalidNumber(s.clone()),
        ScannerError::InvalidLiteral(s) => ScannerError::InvalidLiteral(s.clone()),
        ScannerError::UnexpectedCharacter(c) => ScannerError::UnexpectedCharacter(*c),
        ScannerError::UnterminatedString => ScannerError::UnterminatedString,
        ScannerError::UnterminatedChar => ScannerError::UnterminatedChar,
        ScannerError::InvalidEscapeSequence(s) => ScannerError::InvalidEscapeSequence(s.clone()),
        ScannerError::IoError(s) => ScannerError::IoError(s.clone()),
        ScannerError::UnexpectedEndOfInput => ScannerError::UnexpectedEndOfInput,
        ScannerError::NotInitialized => ScannerError::NotInitialized,
    }
}


/// Scans `input` (its words belong to the sandbox) to the end: the values
/// read, or the first error met.
pub fn scan_all(input: &str) -> (r: Result<Vec<Value>, ScannerError>)
    ensures
        match scanned_values(all_tokens(input@, SANDBOX@, 0), input@) {
            Ok(vs) => r is Ok && values_v(r->Ok_0@) == vs && crate::parser::tokens_fit(vs),
            Err(x) => r is Err && r->Err_0@ == x,
        },
{
    let mut scanner = Scanner::from_input_string(input);
    let ghost s = input@;
    let results = scanner.scan_to_end();
    let ghost all = all_tokens(s, SANDBOX@, 0);
    let mut tokens: Vec<Value> = Vec::new();
    let mut i: usize = 0;
    assert(all.skip(0) =~= all);
    assert(values_v(tokens@) =~= seq![]);
    while i < results.len()
        invariant
            i <= results@.len(),
            s == input@,
            all == all_tokens(s, SANDBOX@, 0),
            results@.len() == all.len(),
            forall|k: int| 0 <= k < results@.len() ==> scanned_as(#[trigger] results@[k], all[k], s, origin()),
            forall|k: int|
                0 <= k < results@.len() ==> (#[trigger] results@[k] matches Ok(v) ==> (v.pos matches Some(p)
                    && crate::value::pos_fits(p))),
            scanned_values(all, s) == match scanned_values(all.skip(i as int), s) {
                Ok(vs) => Ok(values_v(tokens@) + vs),
                Err(x) => Err(x),
            },
            crate::parser::tokens_fit(values_v(tokens@)),
        decreases results@.len() - i,
    {
        let ghost t = all.skip(i as int);
        assert(t[0] == all[i as int]);
        assert(t.drop_first() =~= all.skip(i + 1));
        match &results[i] {
            Ok(v) => {
                let v2 = crate::value::clone_value(v);
                proof {
                    crate::machine::lemma_values_push(tokens@, v2);
                    crate::value::lemma_values_v(tokens@.push(v2));
                    crate::value::lemma_values_v(tokens@);
                    match scanned_values(all.skip(i + 1), s) {
                        Ok(vs) => {
                            assert(values_v(tokens@) + (seq![v2@] + vs) =~= values_v(tokens@).push(v2@) + vs);
                        },
                        Err(x) => {},
                    }
                    assert forall|q: int| 0 <= q < values_v(tokens@.push(v2)).len() implies
                        ((#[trigger] values_v(tokens@.push(v2))[q]).pos matches Some(p) ==> crate::value::pos_fits(p)) by {
                        if q < tokens@.len() {
                            assert(values_v(tokens@.push(v2))[q] == values_v(tokens@)[q]);
                        }
                    }
                }
                tokens.push(v2);
            },
            Err(e) => {
                proof {
                    assert(scanned_as(results@[i as int], all[i as int], s, origin()));
                    assert(all[i as int].0 == Err::<DataV, ScanErrV>(e@));
                    assert(scanned_values(t, s) == Err::<Seq<ValueV>, ScanErrV>(e@));
                }
                return Err(clone_scanner_error(e));
            },
        }
        i = i + 1;
    }
    assert(all.skip(i as int) =~= seq![]);
    assert(values_v(tokens@) + seq![] =~= values_v(tokens@));
    Ok(tokens)
}

} // verus!
