//! What can go wrong when assembling, and what the emulator reports.

use vstd::prelude::*;

verus! {

/// Why a line of source could not be assembled.
#[derive(Clone, Copy, Debug, PartialEq, Eq, Structural)]
pub enum AsmError {
    InvalidNumber,
    ConstantTooLarge,
    InvalidRegisterName,
    ExpectedRegister,
    InvalidLabelSyntax,
    EmptyArgument,
    WrongArgumentCount,
    InvalidOpcode,
    UndefinedLabel,
}

/// The human-readable description of an assembly error.
pub open spec fn message_text(e: AsmError) -> Seq<char> {
    match e {
        AsmError::InvalidNumber => "Invalid integer literal"@,
        AsmError::ConstantTooLarge => "Integer literal too large (max 0xFFFF)"@,
        AsmError::InvalidRegisterName => "Invalid register name"@,
        AsmError::ExpectedRegister => "Expected one register and one literal"@,
        AsmError::InvalidLabelSyntax => "Expected valid label (letters, numbers, _, -, or $)"@,
        AsmError::EmptyArgument => "Empty argument"@,
        AsmError::WrongArgumentCount => "Wrong number of arguments"@,
        AsmError::InvalidOpcode => "invalid opcode"@,
        AsmError::UndefinedLabel => "invalid label reference"@,
    }
}

impl AsmError {
    /// A human-readable description of the error.
    pub fn message(&self) -> (r: &'static str)
        ensures
            r@ == message_text(*self),
    {
        match self {
            AsmError::InvalidNumber => "Invalid integer literal",
            AsmError::ConstantTooLarge => "Integer literal too large (max 0xFFFF)",
            AsmError::InvalidRegisterName => "Invalid register name",
            AsmError::ExpectedRegister => "Expected one register and one literal",
            AsmError::InvalidLabelSyntax => "Expected valid label (letters, numbers, _, -, or $)",
            AsmError::EmptyArgument => "Empty argument",
            AsmError::WrongArgumentCount => "Wrong number of arguments",
            AsmError::InvalidOpcode => "invalid opcode",
            AsmError::UndefinedLabel => "invalid label reference",
        }
    }
}

} // verus!
