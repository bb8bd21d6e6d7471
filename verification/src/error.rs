//! The failures a lowering pass can end in.
use vstd::prelude::*;

verus! {

/// Why a preprocessing or lowering pass was abandoned. Every failure aborts the
/// whole pass: no partial circuit is ever handed out.
#[derive(Clone, Copy, Debug, PartialEq, Eq, Structural)]
pub enum LoweringError {
    /// A qubit, bit or register name (or an index into a register) that is not
    /// defined in the scope where it is used.
    UndefinedQubit,
    /// A node that is not allowed where it stands, a gate name that resolves to
    /// nothing, or source text that is not a well-formed program.
    InvalidNodeType,
    /// A file named by an inclusion directive is unavailable, or files include
    /// one another in a cycle.
    IOFailure,
}

impl LoweringError {
    /// A short description for people.
    pub fn message(&self) -> (s: &'static str)
        ensures
            s@ == match *self {
                LoweringError::UndefinedQubit => "Qubit not defined"@,
                LoweringError::InvalidNodeType => "Invalid Node type"@,
                LoweringError::IOFailure => "Couldn't Open An Include File"@,
            },
    {
        match self {
            LoweringError::UndefinedQubit => "Qubit not defined",
            LoweringError::InvalidNodeType => "Invalid Node type",
            LoweringError::IOFailure => "Couldn't Open An Include File",
        }
    }
}

} // verus!
