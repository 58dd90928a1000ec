//! The errors of compiling and running Tardi code.

use vstd::prelude::*;

use crate::parser::{PErrV, ParseError};
use crate::scanner::{scan_err_message, ScanErrV, ScannerError};
use crate::text::{push_decimal, push_lit, push_string, string_from_chars};

verus! {

/// An error of the stack machine.
#[derive(Debug)]
pub enum VMError {
    StackUnderflow,
    StackOverflow,
    ReturnStackUnderflow,
    ReturnStackOverflow,
    InvalidInstructionPointer(usize),
    InvalidOpCode(usize, usize),
    InvalidConstantIndex(usize),
    TypeMismatch(String),
    DivisionByZero,
    EmptyList,
    InvalidAddress(usize),
    InvalidWordCall(String),
    MissingModule,
    Exit,
}

pub enum VMErrV {
    StackUnderflow,
    StackOverflow,
    ReturnStackUnderflow,
    ReturnStackOverflow,
    InvalidInstructionPointer(usize),
    InvalidOpCode(usize, usize),
    InvalidConstantIndex(usize),
    TypeMismatch(Seq<char>),
    DivisionByZero,
    EmptyList,
    InvalidAddress(usize),
    InvalidWordCall(Seq<char>),
    MissingModule,
    Exit,
}

impl View for VMError {
    type V = VMErrV;

    open spec fn view(&self) -> VMErrV {
        match self {
            VMError::StackUnderflow => VMErrV::StackUnderflow,
            VMError::StackOverflow => VMErrV::StackOverflow,
            VMError::ReturnStackUnderflow => VMErrV::ReturnStackUnderflow,
            VMError::ReturnStackOverflow => VMErrV::ReturnStackOverflow,
            VMError::InvalidInstructionPointer(i) => VMErrV::InvalidInstructionPointer(*i),
            VMError::InvalidOpCode(i, c) => VMErrV::InvalidOpCode(*i, *c),
            VMError::InvalidConstantIndex(i) => VMErrV::InvalidConstantIndex(*i),
            VMError::TypeMismatch(s) => VMErrV::TypeMismatch(s@),
            VMError::DivisionByZero => VMErrV::DivisionByZero,
            VMError::EmptyList => VMErrV::EmptyList,
            VMError::InvalidAddress(a) => VMErrV::InvalidAddress(*a),
            VMError::InvalidWordCall(s) => VMErrV::InvalidWordCall(s@),
            VMError::MissingModule => VMErrV::MissingModule,
            VMError::Exit => VMErrV::Exit,
        }
    }
}

/// The message of a machine error, as it is displayed; leaving the
/// machine is no failure and is not displayed.
pub open spec fn vm_err_message(e: VMErrV) -> Seq<char> {
    match e {
        VMErrV::StackUnderflow => "Stack underflow"@,
        VMErrV::StackOverflow => "Stack overflow"@,
        VMErrV::InvalidInstructionPointer(ip) => "Invalid IP: "@ + crate::text::decimal(ip as nat),
        VMErrV::InvalidOpCode(ip, code) => "Invalid opcode: "@ + crate::text::decimal(code as nat)
            + " @ "@ + crate::text::decimal(ip as nat),
        VMErrV::InvalidConstantIndex(i) => "Invalid constant index: "@ + crate::text::decimal(
            i as nat,
        ),
        VMErrV::TypeMismatch(op) => "Type mismatch in "@ + op + " operation"@,
        VMErrV::DivisionByZero => "Division by zero"@,
        VMErrV::ReturnStackUnderflow => "Return stack underflow"@,
        VMErrV::ReturnStackOverflow => "Return stack overflow"@,
        VMErrV::EmptyList => "Cannot split head of empty list"@,
        VMErrV::InvalidAddress(a) => "Invalid address: "@ + crate::text::decimal(a as nat),
        VMErrV::InvalidWordCall(w) => "Invalid word call: "@ + w,
        VMErrV::MissingModule => "No module"@,
        VMErrV::Exit => seq![],
    }
}

impl VMError {
    /// The error's message.
    pub fn message(&self) -> (r: String)
        requires
            !(self@ is Exit),
        ensures
            r@ == vm_err_message(self@),
    {
        let mut out: Vec<char> = Vec::new();
        match self {
            VMError::StackUnderflow => push_lit(&mut out, "Stack underflow"),
            VMError::StackOverflow => push_lit(&mut out, "Stack overflow"),
            VMError::InvalidInstructionPointer(ip) => {
                push_lit(&mut out, "Invalid IP: ");
                push_decimal(&mut out, *ip);
            },
            VMError::InvalidOpCode(ip, code) => {
                push_lit(&mut out, "Invalid opcode: ");
                push_decimal(&mut out, *code);
                push_lit(&mut out, " @ ");
                push_decimal(&mut out, *ip);
            },
            VMError::InvalidConstantIndex(i) => {
                push_lit(&mut out, "Invalid constant index: ");
                push_decimal(&mut out, *i);
            },
            VMError::TypeMismatch(op) => {
                push_lit(&mut out, "Type mismatch in ");
                push_string(&mut out, op);
                push_lit(&mut out, " operation");
            },
            VMError::DivisionByZero => push_lit(&mut out, "Division by zero"),
            VMError::ReturnStackUnderflow => push_lit(&mut out, "Return stack underflow"),
            VMError::ReturnStackOverflow => push_lit(&mut out, "Return stack overflow"),
            VMError::EmptyList => push_lit(&mut out, "Cannot split head of empty list"),
            VMError::InvalidAddress(a) => {
                push_lit(&mut out, "Invalid address: ");
                push_decimal(&mut out, *a);
            },
            VMError::InvalidWordCall(w) => {
                push_lit(&mut out, "Invalid word call: ");
                push_string(&mut out, w);
            },
            VMError::MissingModule => push_lit(&mut out, "No module"),
            VMError::Exit => {},
        }
        assert(out@ =~= vm_err_message(self@));
        string_from_chars(out.as_slice())
    }
}

/// An error of compiling Tardi code.
///
/// I/O failures carry their message.
#[derive(Debug)]
pub enum CompilerError {
    IOError(String),
    UnsupportedToken(String),
    InvalidOperation(String),
    UnmatchedBrace,
    UndefinedWord(String),
    InvalidFunction(String),
    MissingEnvironment,
    ValueHasNoTokenType(String),
    ModuleNotFound(String),
    InvalidModulePath(String),
    ImportCycleError(String),
    InvalidState(String),
    ScannerError(ScannerError),
    TypeMismatch(String),
    Infallible,
}

pub enum CompErrV {
    IOError(Seq<char>),
    UnsupportedToken(Seq<char>),
    InvalidOperation(Seq<char>),
    UnmatchedBrace,
    UndefinedWord(Seq<char>),
    InvalidFunction(Seq<char>),
    MissingEnvironment,
    ValueHasNoTokenType(Seq<char>),
    ModuleNotFound(Seq<char>),
    InvalidModulePath(Seq<char>),
    ImportCycleError(Seq<char>),
    InvalidState(Seq<char>),
    ScannerError(ScanErrV),
    TypeMismatch(Seq<char>),
    Infallible,
}

impl View for CompilerError {
    type V = CompErrV;

    open spec fn view(&self) -> CompErrV {
        match self {
            CompilerError::IOError(s) => CompErrV::IOError(s@),
            CompilerError::UnsupportedToken(s) => CompErrV::UnsupportedToken(s@),
            CompilerError::InvalidOperation(s) => CompErrV::InvalidOperation(s@),
            CompilerError::UnmatchedBrace => CompErrV::UnmatchedBrace,
            CompilerError::UndefinedWord(s) => CompErrV::UndefinedWord(s@),
            CompilerError::InvalidFunction(s) => CompErrV::InvalidFunction(s@),
            CompilerError::MissingEnvironment => CompErrV::MissingEnvironment,
            CompilerError::ValueHasNoTokenType(s) => CompErrV::ValueHasNoTokenType(s@),
            CompilerError::ModuleNotFound(s) => CompErrV::ModuleNotFound(s@),
            CompilerError::InvalidModulePath(s) => CompErrV::InvalidModulePath(s@),
            CompilerError::ImportCycleError(s) => CompErrV::ImportCycleError(s@),
            CompilerError::InvalidState(s) => CompErrV::InvalidState(s@),
            CompilerError::ScannerError(e) => CompErrV::ScannerError(e@),
            CompilerError::TypeMismatch(s) => CompErrV::TypeMismatch(s@),
            CompilerError::Infallible => CompErrV::Infallible,
        }
    }
}

/// The message of a compiler error, as it is displayed.
pub open spec fn comp_err_message(e: CompErrV) -> Seq<char> {
    match e {
        CompErrV::IOError(s) => s,
        CompErrV::UnsupportedToken(s) => "Unsupported token: "@ + s,
        CompErrV::InvalidOperation(s) => "Invalid operation: "@ + s,
        CompErrV::UnmatchedBrace => "Unmatched closing brace"@,
        CompErrV::UndefinedWord(s) => "Undefined word: "@ + s,
        CompErrV::InvalidFunction(s) => "Invalid function: "@ + s,
        CompErrV::MissingEnvironment => "Compiling with environment"@,
        CompErrV::ValueHasNoTokenType(s) => "Value has to TokenType: "@ + s,
        CompErrV::ModuleNotFound(name) => "Missing module '"@ + name + "'"@,
        CompErrV::InvalidModulePath(p) => "Invalid module path: "@ + crate::text::quoted(p),
        CompErrV::ImportCycleError(m) => "Import loop on "@ + m,
        CompErrV::InvalidState(s) => "Invalid compiler state: "@ + s,
        CompErrV::ScannerError(e) => scan_err_message(e),
        CompErrV::TypeMismatch(s) => "Type mismatch: "@ + s,
        CompErrV::Infallible => "this shouldn't happen"@,
    }
}

impl CompilerError {
    /// The error's message.
    pub fn message(&self) -> (r: String)
        ensures
            r@ == comp_err_message(self@),
    {
        let mut out: Vec<char> = Vec::new();
        match self {
            CompilerError::IOError(s) => push_string(&mut out, s),
            CompilerError::UnsupportedToken(s) => {
                push_lit(&mut out, "Unsupported token: ");
                push_string(&mut out, s);
            },
            CompilerError::InvalidOperation(s) => {
                push_lit(&mut out, "Invalid operation: ");
                push_string(&mut out, s);
            },
            CompilerError::UnmatchedBrace => push_lit(&mut out, "Unmatched closing brace"),
            CompilerError::UndefinedWord(s) => {
                push_lit(&mut out, "Undefined word: ");
                push_string(&mut out, s);
            },
            CompilerError::InvalidFunction(s) => {
                push_lit(&mut out, "Invalid function: ");
                push_string(&mut out, s);
            },
            CompilerError::MissingEnvironment => push_lit(&mut out, "Compiling with environment"),
            CompilerError::ValueHasNoTokenType(s) => {
                push_lit(&mut out, "Value has to TokenType: ");
                push_string(&mut out, s);
            },
            CompilerError::ModuleNotFound(name) => {
                push_lit(&mut out, "Missing module '");
                push_string(&mut out, name);
                push_lit(&mut out, "'");
            },
            CompilerError::InvalidModulePath(p) => {
                push_lit(&mut out, "Invalid module path: ");
                let cs = crate::text::chars_of_string(p);
                crate::text::push_quoted(&mut out, cs.as_slice());
            },
            CompilerError::ImportCycleError(m) => {
                push_lit(&mut out, "Import loop on ");
                push_string(&mut out, m);
            },
            CompilerError::InvalidState(s) => {
                push_lit(&mut out, "Invalid compiler state: ");
                push_string(&mut out, s);
            },
            CompilerError::ScannerError(e) => {
                let m = e.message();
                push_string(&mut out, &m);
            },
            CompilerError::TypeMismatch(s) => {
                push_lit(&mut out, "Type mismatch: ");
                push_string(&mut out, s);
            },
            CompilerError::Infallible => push_lit(&mut out, "this shouldn't happen"),
        }
        assert(out@ =~= comp_err_message(self@));
        string_from_chars(out.as_slice())
    }
}

/// Any error of the interpreter.
///
/// Failures of I/O, of line editing and of reading configuration carry
/// their messages; a parse error is one of the front end.
#[derive(Debug)]
pub enum Error {
    IoError(String),
    VMError(VMError),
    ScannerError(ScannerError),
    CompilerError(CompilerError),
    ParseError(ParseError),
    InvalidOpCode(u8),
    InvalidOpCodeName(String),
    ReplError(String),
    TomlError(String),
    ConfigReadError(String),
    InfallibleError,
}

pub enum ErrV {
    IoError(Seq<char>),
    VMError(VMErrV),
    ScannerError(ScanErrV),
    CompilerError(CompErrV),
    ParseError(PErrV),
    InvalidOpCode(u8),
    InvalidOpCodeName(Seq<char>),
    ReplError(Seq<char>),
    TomlError(Seq<char>),
    ConfigReadError(Seq<char>),
    InfallibleError,
}

impl View for Error {
    type V = ErrV;

    open spec fn view(&self) -> ErrV {
        match self {
            Error::IoError(s) => ErrV::IoError(s@),
            Error::VMError(e) => ErrV::VMError(e@),
            Error::ScannerError(e) => ErrV::ScannerError(e@),
            Error::CompilerError(e) => ErrV::CompilerError(e@),
            Error::ParseError(e) => ErrV::ParseError(e@),
            Error::InvalidOpCode(c) => ErrV::InvalidOpCode(*c),
            Error::InvalidOpCodeName(s) => ErrV::InvalidOpCodeName(s@),
            Error::ReplError(s) => ErrV::ReplError(s@),
            Error::TomlError(s) => ErrV::TomlError(s@),
            Error::ConfigReadError(s) => ErrV::ConfigReadError(s@),
            Error::InfallibleError => ErrV::InfallibleError,
        }
    }
}

/// What a compiler error becomes as an error of the interpreter: I/O and
/// scanner errors are passed on as such.
pub open spec fn from_compiler(e: CompErrV) -> ErrV {
    match e {
        CompErrV::IOError(s) => ErrV::IoError(s),
        CompErrV::ScannerError(x) => ErrV::ScannerError(x),
        CompErrV::Infallible => ErrV::InfallibleError,
        _ => ErrV::CompilerError(e),
    }
}

impl Error {
    /// A compiler error as an error of the interpreter: I/O and scanner
    /// errors are passed on as such.
    pub fn from_compiler_error(e: CompilerError) -> (r: Error)
        ensures
            r@ == from_compiler(e@),
    {
        match e {
            CompilerError::IOError(s) => Error::IoError(s),
            CompilerError::ScannerError(x) => Error::ScannerError(x),
            CompilerError::Infallible => Error::InfallibleError,
            e => Error::CompilerError(e),
        }
    }
}

/// The message of an error of the interpreter, as it is displayed.
pub open spec fn err_message(e: ErrV) -> Seq<char> {
    match e {
        ErrV::IoError(m) => m,
        ErrV::VMError(x) => vm_err_message(x),
        ErrV::ScannerError(x) => scan_err_message(x),
        ErrV::CompilerError(x) => comp_err_message(x),
        ErrV::ParseError(x) => crate::parser::parse_err_message(x),
        ErrV::InvalidOpCode(c) => "invalid op code: "@ + crate::text::decimal(c as nat),
        ErrV::InvalidOpCodeName(n) => "invalid op code name: "@ + n,
        ErrV::ReplError(m) => m,
        ErrV::TomlError(m) => m,
        ErrV::ConfigReadError(m) => m,
        ErrV::InfallibleError => seq![],
    }
}

impl Error {
    /// The error's message. Leaving the machine, and the error that cannot
    /// happen, are not displayed.
    pub fn message(&self) -> (r: String)
        requires
            !(self@ matches ErrV::VMError(VMErrV::Exit)),
            !(self@ is InfallibleError),
        ensures
            r@ == err_message(self@),
    {
        match self {
            Error::IoError(m) => m.clone(),
            Error::VMError(x) => x.message(),
            Error::ScannerError(x) => x.message(),
            Error::CompilerError(x) => x.message(),
            Error::ParseError(x) => x.message(),
            Error::InvalidOpCode(c) => {
                let mut out: Vec<char> = Vec::new();
                push_lit(&mut out, "invalid op code: ");
                push_decimal(&mut out, *c as usize);
                string_from_chars(out.as_slice())
            },
            Error::InvalidOpCodeName(n) => {
                let mut out: Vec<char> = Vec::new();
                push_lit(&mut out, "invalid op code name: ");
                push_string(&mut out, n);
                string_from_chars(out.as_slice())
            },
            Error::ReplError(m) => m.clone(),
            Error::TomlError(m) => m.clone(),
            Error::ConfigReadError(m) => m.clone(),
            Error::InfallibleError => String::new(),
        }
    }
}

} // verus!
