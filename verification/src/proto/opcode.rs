use vstd::prelude::*;

use crate::error::Error;

verus! {

/// TFTP opcodes: first two bytes of every packet (RFC 1350, section 5).
#[derive(Debug, Copy, Clone, PartialEq, Eq, Hash, Structural)]
pub enum Opcode {
    Rrq,
    Wrq,
    Data,
    Ack,
    Error,
    /// RFC 2347 Option Acknowledgement.
    Oack,
}

impl Opcode {
    /// The number that stands for this opcode on the wire.
    pub open spec fn number(self) -> u16 {
        match self {
            Opcode::Rrq => 1,
            Opcode::Wrq => 2,
            Opcode::Data => 3,
            Opcode::Ack => 4,
            Opcode::Error => 5,
            Opcode::Oack => 6,
        }
    }

    /// The opcode that number `v` stands for; any other number is refused.
    pub fn from_u16(v: u16) -> (r: Result<Opcode, Error>)
        ensures
            match r {
                Ok(op) => op.number() == v,
                Err(e) => e == Error::UnknownOpcode(v) && !(1 <= v <= 6),
            },
    {
        match v {
            1 => Ok(Opcode::Rrq),
            2 => Ok(Opcode::Wrq),
            3 => Ok(Opcode::Data),
            4 => Ok(Opcode::Ack),
            5 => Ok(Opcode::Error),
            6 => Ok(Opcode::Oack),
            other => Err(Error::UnknownOpcode(other)),
        }
    }

    /// The number that stands for this opcode on the wire.
    pub fn to_u16(self) -> (v: u16)
        ensures
            v == self.number(),
    {
        match self {
            Opcode::Rrq => 1,
            Opcode::Wrq => 2,
            Opcode::Data => 3,
            Opcode::Ack => 4,
            Opcode::Error => 5,
            Opcode::Oack => 6,
        }
    }
}

/// TFTP error codes (RFC 1350, section 5, and RFC 2347 for the last one).
#[derive(Debug, Copy, Clone, PartialEq, Eq, Hash, Structural)]
pub enum ErrorCode {
    NotDefined,
    FileNotFound,
    AccessViolation,
    DiskFull,
    IllegalOperation,
    UnknownTid,
    FileExists,
    NoSuchUser,
    /// RFC 2347: option negotiation refused.
    OptionNegotiation,
}

impl ErrorCode {
    /// The number that stands for this code on the wire.
    pub open spec fn number(self) -> u16 {
        match self {
            ErrorCode::NotDefined => 0,
            ErrorCode::FileNotFound => 1,
            ErrorCode::AccessViolation => 2,
            ErrorCode::DiskFull => 3,
            ErrorCode::IllegalOperation => 4,
            ErrorCode::UnknownTid => 5,
            ErrorCode::FileExists => 6,
            ErrorCode::NoSuchUser => 7,
            ErrorCode::OptionNegotiation => 8,
        }
    }

    /// The code with number `v`; a number without a code counts as not
    /// defined.
    pub open spec fn of_number(v: u16) -> ErrorCode {
        if v == 1 {
            ErrorCode::FileNotFound
        } else if v == 2 {
            ErrorCode::AccessViolation
        } else if v == 3 {
            ErrorCode::DiskFull
        } else if v == 4 {
            ErrorCode::IllegalOperation
        } else if v == 5 {
            ErrorCode::UnknownTid
        } else if v == 6 {
            ErrorCode::FileExists
        } else if v == 7 {
            ErrorCode::NoSuchUser
        } else if v == 8 {
            ErrorCode::OptionNegotiation
        } else {
            ErrorCode::NotDefined
        }
    }

    /// The code with number `v`.
    pub fn from_u16(v: u16) -> (code: ErrorCode)
        ensures
            code == ErrorCode::of_number(v),
            v <= 8 ==> code.number() == v,
            v > 8 ==> code == ErrorCode::NotDefined,
    {
        match v {
            1 => ErrorCode::FileNotFound,
            2 => ErrorCode::AccessViolation,
            3 => ErrorCode::DiskFull,
            4 => ErrorCode::IllegalOperation,
            5 => ErrorCode::UnknownTid,
            6 => ErrorCode::FileExists,
            7 => ErrorCode::NoSuchUser,
            8 => ErrorCode::OptionNegotiation,
            _ => ErrorCode::NotDefined,
        }
    }

    /// The number that stands for this code on the wire.
    pub fn to_u16(self) -> (v: u16)
        ensures
            v == self.number(),
    {
        match self {
            ErrorCode::NotDefined => 0,
            ErrorCode::FileNotFound => 1,
            ErrorCode::AccessViolation => 2,
            ErrorCode::DiskFull => 3,
            ErrorCode::IllegalOperation => 4,
            ErrorCode::UnknownTid => 5,
            ErrorCode::FileExists => 6,
            ErrorCode::NoSuchUser => 7,
            ErrorCode::OptionNegotiation => 8,
        }
    }
}

/// Reading back the number of an error code gives the code again.
pub proof fn error_code_numbers_round_trip(code: ErrorCode)
    ensures
        ErrorCode::of_number(code.number()) == code,
{
}

/// The numbers of the packets on the wire.
pub proof fn opcodes_are_numbered(opcode: Opcode)
    ensures
        opcode is Rrq <==> opcode.number() == 1,
        opcode is Wrq <==> opcode.number() == 2,
        opcode is Data <==> opcode.number() == 3,
        opcode is Ack <==> opcode.number() == 4,
        opcode is Error <==> opcode.number() == 5,
        opcode is Oack <==> opcode.number() == 6,
{
}

/// The numbers of the error codes on the wire; any other number is read as
/// not defined.
pub proof fn error_codes_are_numbered(code: ErrorCode, v: u16)
    ensures
        code is NotDefined <==> code.number() == 0,
        code is FileNotFound <==> code.number() == 1,
        code is AccessViolation <==> code.number() == 2,
        code is DiskFull <==> code.number() == 3,
        code is IllegalOperation <==> code.number() == 4,
        code is UnknownTid <==> code.number() == 5,
        code is FileExists <==> code.number() == 6,
        code is NoSuchUser <==> code.number() == 7,
        code is OptionNegotiation <==> code.number() == 8,
        v <= 8 ==> ErrorCode::of_number(v).number() == v,
        v > 8 ==> ErrorCode::of_number(v) is NotDefined,
{
}

} // verus!
