//! The assembler's error taxonomy and the command-line usage messages.
//!
//! A tokenizer error carries the 1-based number of the line it was found on
//! and that line's literal text, so the caller can report both.

use vstd::prelude::*;

verus! {

/// An error from tokenizing or assembling.  Tokenizer errors carry the
/// 1-based number of the offending line and that line's text; assembler
/// errors carry the offending payload.
#[derive(Debug)]
pub enum AsmError {
    /// A word at the end of a line matched no mnemonic, sigil or operand.
    Syntax { line: usize, excerpt: String },
    /// The line ended with a nonzero operand budget.
    Operands { line: usize, excerpt: String },
    /// The line ended inside a string literal.
    UnclosedString { line: usize, excerpt: String },
    /// A string literal held a backslash escape outside the escape table.
    UnknownEscape { escape: char },
    /// A label was used but nowhere defined.
    UnresolvedLabel { name: String },
    /// A label was defined twice.
    DuplicateLabel { name: String },
    /// An instruction token named no mnemonic of the table.
    UnknownMnemonic { name: String },
    /// A register token's payload was not a decimal index 0 to 15.
    BadRegister { data: String },
    /// An integer token's payload was not a hexadecimal number of its width.
    BadInteger { data: String },
    /// A label token's payload carried no definition or use marker.
    BadLabel { data: String },
}

/// The mathematical value of an assembler error.
pub enum AsmErrorModel {
    Syntax { line: nat, excerpt: Seq<char> },
    Operands { line: nat, excerpt: Seq<char> },
    UnclosedString { line: nat, excerpt: Seq<char> },
    UnknownEscape { escape: char },
    UnresolvedLabel { name: Seq<char> },
    DuplicateLabel { name: Seq<char> },
    UnknownMnemonic { name: Seq<char> },
    BadRegister { data: Seq<char> },
    BadInteger { data: Seq<char> },
    BadLabel { data: Seq<char> },
}

impl View for AsmError {
    type V = AsmErrorModel;

    open spec fn view(&self) -> AsmErrorModel {
        match self {
            AsmError::Syntax { line, excerpt } => AsmErrorModel::Syntax {
                line: *line as nat,
                excerpt: excerpt@,
            },
            AsmError::Operands { line, excerpt } => AsmErrorModel::Operands {
                line: *line as nat,
                excerpt: excerpt@,
            },
            AsmError::UnclosedString { line, excerpt } => AsmErrorModel::UnclosedString {
                line: *line as nat,
                excerpt: excerpt@,
            },
            AsmError::UnknownEscape { escape } => AsmErrorModel::UnknownEscape { escape: *escape },
            AsmError::UnresolvedLabel { name } => AsmErrorModel::UnresolvedLabel { name: name@ },
            AsmError::DuplicateLabel { name } => AsmErrorModel::DuplicateLabel { name: name@ },
            AsmError::UnknownMnemonic { name } => AsmErrorModel::UnknownMnemonic { name: name@ },
            AsmError::BadRegister { data } => AsmErrorModel::BadRegister { data: data@ },
            AsmError::BadInteger { data } => AsmErrorModel::BadInteger { data: data@ },
            AsmError::BadLabel { data } => AsmErrorModel::BadLabel { data: data@ },
        }
    }
}

/// The usage message printed when the mode argument is missing or unknown.
pub fn err_arg_not_found() -> (r: &'static str)
    ensures
        r@ == "ERROR::CMD_ARG_NOT_FOUND:\n\tUSAGE: vml [-C/-R/-A] [FILENAME]"@,
{
    "ERROR::CMD_ARG_NOT_FOUND:\n\tUSAGE: vml [-C/-R/-A] [FILENAME]"
}

/// The usage message printed when no arguments are given.
pub fn err_no_args() -> (r: &'static str)
    ensures
        r@ == "ERROR::NO_ARGS:\n\tUSAGE: vml [-C/-R/-A] [FILENAME]"@,
{
    "ERROR::NO_ARGS:\n\tUSAGE: vml [-C/-R/-A] [FILENAME]"
}

} // verus!
