//! The operation codes of the machine, by number and by name.

use vstd::prelude::*;

use crate::errors::{ErrV, Error};
use crate::text::{str_eq_lit, string_of};

verus! {

/// An operation code.
#[derive(Debug, PartialEq, Eq, Structural, Clone, Copy)]
pub enum OpCode {
    GetConstant,
    Add,
    Sub,
    Mult,
    Div,
    Modulo,
    Not,
    Equal,
    Less,
    Greater,
    Jump,
    MarkJump,
    CallTardiFn,
    ToCallStack,
    FromCallStack,
    CopyCallStack,
    Drop,
    Swap,
    IP,
    Return,
}

/// The operation with number `code`, in order from 0.
pub open spec fn op_of_code(code: u8) -> Option<OpCode> {
    if code == 0 {
        Some(OpCode::GetConstant)
    } else if code == 1 {
        Some(OpCode::Add)
    } else if code == 2 {
        Some(OpCode::Sub)
    } else if code == 3 {
        Some(OpCode::Mult)
    } else if code == 4 {
        Some(OpCode::Div)
    } else if code == 5 {
        Some(OpCode::Modulo)
    } else if code == 6 {
        Some(OpCode::Not)
    } else if code == 7 {
        Some(OpCode::Equal)
    } else if code == 8 {
        Some(OpCode::Less)
    } else if code == 9 {
        Some(OpCode::Greater)
    } else if code == 10 {
        Some(OpCode::Jump)
    } else if code == 11 {
        Some(OpCode::MarkJump)
    } else if code == 12 {
        Some(OpCode::CallTardiFn)
    } else if code == 13 {
        Some(OpCode::ToCallStack)
    } else if code == 14 {
        Some(OpCode::FromCallStack)
    } else if code == 15 {
        Some(OpCode::CopyCallStack)
    } else if code == 16 {
        Some(OpCode::Drop)
    } else if code == 17 {
        Some(OpCode::Swap)
    } else if code == 18 {
        Some(OpCode::IP)
    } else if code == 19 {
        Some(OpCode::Return)
    } else {
        None
    }
}

/// The number of an operation.
pub open spec fn code_of(op: OpCode) -> u8 {
    match op {
        OpCode::GetConstant => 0,
        OpCode::Add => 1,
        OpCode::Sub => 2,
        OpCode::Mult => 3,
        OpCode::Div => 4,
        OpCode::Modulo => 5,
        OpCode::Not => 6,
        OpCode::Equal => 7,
        OpCode::Less => 8,
        OpCode::Greater => 9,
        OpCode::Jump => 10,
        OpCode::MarkJump => 11,
        OpCode::CallTardiFn => 12,
        OpCode::ToCallStack => 13,
        OpCode::FromCallStack => 14,
        OpCode::CopyCallStack => 15,
        OpCode::Drop => 16,
        OpCode::Swap => 17,
        OpCode::IP => 18,
        OpCode::Return => 19,
    }
}

/// The operation a word names, if it names one.
pub open spec fn op_of_name(w: Seq<char>) -> Option<OpCode> {
    if w == "+"@ {
        Some(OpCode::Add)
    } else if w == "-"@ {
        Some(OpCode::Sub)
    } else if w == "*"@ {
        Some(OpCode::Mult)
    } else if w == "/"@ {
        Some(OpCode::Div)
    } else if w == "%"@ {
        Some(OpCode::Modulo)
    } else if w == "!"@ {
        Some(OpCode::Not)
    } else if w == "=="@ {
        Some(OpCode::Equal)
    } else if w == "<"@ {
        Some(OpCode::Less)
    } else if w == ">"@ {
        Some(OpCode::Greater)
    } else if w == ">r"@ {
        Some(OpCode::ToCallStack)
    } else if w == "r>"@ {
        Some(OpCode::FromCallStack)
    } else if w == "r@"@ {
        Some(OpCode::CopyCallStack)
    } else if w == "drop"@ {
        Some(OpCode::Drop)
    } else if w == "swap"@ {
        Some(OpCode::Swap)
    } else if w == "IP"@ {
        Some(OpCode::IP)
    } else if w == "return"@ {
        Some(OpCode::Return)
    } else {
        None
    }
}

impl OpCode {
    /// The operation with number `code`; `InvalidOpCode` for any other
    /// number.
    pub fn from_code(code: u8) -> (r: Result<OpCode, Error>)
        ensures
            match op_of_code(code) {
                Some(op) => r == Ok::<OpCode, Error>(op),
                None => r is Err && r->Err_0@ == ErrV::InvalidOpCode(code),
            },
    {
        match code {
            0 => Ok(OpCode::GetConstant),
            1 => Ok(OpCode::Add),
            2 => Ok(OpCode::Sub),
            3 => Ok(OpCode::Mult),
            4 => Ok(OpCode::Div),
            5 => Ok(OpCode::Modulo),
            6 => Ok(OpCode::Not),
            7 => Ok(OpCode::Equal),
            8 => Ok(OpCode::Less),
            9 => Ok(OpCode::Greater),
            10 => Ok(OpCode::Jump),
            11 => Ok(OpCode::MarkJump),
            12 => Ok(OpCode::CallTardiFn),
            13 => Ok(OpCode::ToCallStack),
            14 => Ok(OpCode::FromCallStack),
            15 => Ok(OpCode::CopyCallStack),
            16 => Ok(OpCode::Drop),
            17 => Ok(OpCode::Swap),
            18 => Ok(OpCode::IP),
            19 => Ok(OpCode::Return),
            c => Err(Error::InvalidOpCode(c)),
        }
    }

    /// The operation a word names; `InvalidOpCodeName` for any other word.
    pub fn try_from(value: &str) -> (r: Result<OpCode, Error>)
        ensures
            match op_of_name(value@) {
                Some(op) => r == Ok::<OpCode, Error>(op),
                None => r is Err && r->Err_0@ == ErrV::InvalidOpCodeName(value@),
            },
    {
        if str_eq_lit(value, "+") {
            Ok(OpCode::Add)
        } else if str_eq_lit(value, "-") {
            Ok(OpCode::Sub)
        } else if str_eq_lit(value, "*") {
            Ok(OpCode::Mult)
        } else if str_eq_lit(value, "/") {
            Ok(OpCode::Div)
        } else if str_eq_lit(value, "%") {
            Ok(OpCode::Modulo)
        } else if str_eq_lit(value, "!") {
            Ok(OpCode::Not)
        } else if str_eq_lit(value, "==") {
            Ok(OpCode::Equal)
        } else if str_eq_lit(value, "<") {
            Ok(OpCode::Less)
        } else if str_eq_lit(value, ">") {
            Ok(OpCode::Greater)
        } else if str_eq_lit(value, ">r") {
            Ok(OpCode::ToCallStack)
        } else if str_eq_lit(value, "r>") {
            Ok(OpCode::FromCallStack)
        } else if str_eq_lit(value, "r@") {
            Ok(OpCode::CopyCallStack)
        } else if str_eq_lit(value, "drop") {
            Ok(OpCode::Drop)
        } else if str_eq_lit(value, "swap") {
            Ok(OpCode::Swap)
        } else if str_eq_lit(value, "IP") {
            Ok(OpCode::IP)
        } else if str_eq_lit(value, "return") {
            Ok(OpCode::Return)
        } else {
            Err(Error::InvalidOpCodeName(string_of(value)))
        }
    }

    /// The operation's number.
    pub fn code(&self) -> (r: u8)
        ensures
            r == code_of(*self),
    {
        match self {
            OpCode::GetConstant => 0,
            OpCode::Add => 1,
            OpCode::Sub => 2,
            OpCode::Mult => 3,
            OpCode::Div => 4,
            OpCode::Modulo => 5,
            OpCode::Not => 6,
            OpCode::Equal => 7,
            OpCode::Less => 8,
            OpCode::Greater => 9,
            OpCode::Jump => 10,
            OpCode::MarkJump => 11,
            OpCode::CallTardiFn => 12,
            OpCode::ToCallStack => 13,
            OpCode::FromCallStack => 14,
            OpCode::CopyCallStack => 15,
            OpCode::Drop => 16,
            OpCode::Swap => 17,
            OpCode::IP => 18,
            OpCode::Return => 19,
        }
    }
}

/// Each operation is the one its number names, and the numbers run from 0
/// to 19 without gaps.
pub proof fn law_code_round_trip(op: OpCode, code: u8)
    ensures
        op_of_code(code_of(op)) == Some(op),
        op_of_code(code) matches Some(o) ==> code_of(o) == code,
        op_of_code(code) is Some <==> code < 20,
{
}

impl TryFrom<u8> for OpCode {
    type Error = Error;

    fn try_from(value: u8) -> (r: Result<Self, Error>) {
        OpCode::from_code(value)
    }
}

impl vstd::std_specs::convert::TryFromSpecImpl<u8> for OpCode {
    open spec fn obeys_try_from_spec() -> bool {
        true
    }

    open spec fn try_from_spec(v: u8) -> Result<Self, Error> {
        match op_of_code(v) {
            Some(op) => Ok(op),
            None => Err(Error::InvalidOpCode(v)),
        }
    }
}

} // verus!
