//! Structured fatal errors: the run stops at the first one, carrying
//! the offending line index and token.

use vstd::prelude::*;

verus! {

/// What went wrong on a single line.
#[derive(Debug)]
pub enum ErrorKind {
    /// The line matches none of the recognized instruction shapes.
    Syntax,
    /// A destination, operation or jump mnemonic is not in its closed
    /// table; the token is the offending mnemonic.
    InvalidMnemonic(String),
    /// An address operand resolves to a value that does not fit in the
    /// 15-bit address field.
    AddressOutOfRange,
}

/// Mathematical image of an [`ErrorKind`].
pub ghost enum ErrorKindSpec {
    Syntax,
    InvalidMnemonic(Seq<char>),
    AddressOutOfRange,
}

impl View for ErrorKind {
    type V = ErrorKindSpec;

    open spec fn view(&self) -> ErrorKindSpec {
        match self {
            ErrorKind::Syntax => ErrorKindSpec::Syntax,
            ErrorKind::InvalidMnemonic(t) => ErrorKindSpec::InvalidMnemonic(t@),
            ErrorKind::AddressOutOfRange => ErrorKindSpec::AddressOutOfRange,
        }
    }
}

/// A fatal assembly error: `line` is the index of the offending line
/// within the line sequence handed to the assembler.
#[derive(Debug)]
pub struct AsmError {
    pub line: usize,
    pub kind: ErrorKind,
}

/// Mathematical image of an [`AsmError`].
pub ghost struct AsmErrorSpec {
    pub line: nat,
    pub kind: ErrorKindSpec,
}

impl View for AsmError {
    type V = AsmErrorSpec;

    open spec fn view(&self) -> AsmErrorSpec {
        AsmErrorSpec { line: self.line as nat, kind: self.kind@ }
    }
}

impl AsmError {
    pub fn new(line: usize, kind: ErrorKind) -> (r: AsmError)
        ensures
            r@ == (AsmErrorSpec { line: line as nat, kind: kind@ }),
    {
        AsmError { line, kind }
    }
}

} // verus!
