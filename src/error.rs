//! Why an assembly failed, and where.
use vstd::prelude::*;

verus! {

/// The reason an assembly was abandoned. Label definitions are located by
/// their line number in the original text; instructions by their 1-based
/// position in the stream of instructions that remains once label lines are
/// set aside.
#[derive(Debug, Clone, Copy, PartialEq, Eq, Structural)]
pub enum AsmError {
    /// A label name is defined a second time, on this source line.
    DuplicateLabel { line: usize },
    /// A line holds a `:` but is not a label definition `name:`.
    MalformedLabel { line: usize },
    /// A branch at this instruction names a label that is never defined.
    UndefinedLabel { line: usize },
    /// The encoder rejected this instruction, or answered with something
    /// other than 32 binary digits.
    Encoding { line: usize },
}

impl AsmError {
    pub open spec fn line_of(self) -> usize {
        match self {
            AsmError::DuplicateLabel { line } => line,
            AsmError::MalformedLabel { line } => line,
            AsmError::UndefinedLabel { line } => line,
            AsmError::Encoding { line } => line,
        }
    }

    /// The line that the failure is reported at.
    pub fn failing_line(&self) -> (r: usize)
        ensures
            r == self.line_of(),
    {
        match self {
            AsmError::DuplicateLabel { line } => *line,
            AsmError::MalformedLabel { line } => *line,
            AsmError::UndefinedLabel { line } => *line,
            AsmError::Encoding { line } => *line,
        }
    }
}

} // verus!
