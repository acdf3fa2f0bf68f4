//! The ways in which running a command fails.

use vstd::prelude::*;

verus! {

/// Why a command could not be run. Every failure ends the run of the
/// command string that it occurs in.
#[derive(Debug, Clone, Copy, PartialEq, Eq, Structural)]
pub enum ExecError {
    /// An operand is of a kind that the command does not take.
    TypeMismatch,
    /// A variable is read that is not bound.
    UndefinedVariable,
    /// An expression has no operator or too few operands.
    FormulaEval,
    /// The operator of an expression is none of the known ones.
    UnknownOperation,
    /// An expression divides by zero.
    DivisionByZero,
    /// The result of an expression does not fit in an `i32`.
    Overflow,
}

impl ExecError {
    /// The text that describes the failure to the user.
    pub fn message(&self) -> (res: String)
        ensures
            res@ == match *self {
                ExecError::TypeMismatch => "type mismatch"@,
                ExecError::UndefinedVariable => "variables do not exist"@,
                ExecError::FormulaEval => "formula eval error"@,
                ExecError::UnknownOperation => "unknown operation"@,
                ExecError::DivisionByZero => "division by zero"@,
                ExecError::Overflow => "arithmetic overflow"@,
            },
    {
        match self {
            ExecError::TypeMismatch => "type mismatch".to_owned(),
            ExecError::UndefinedVariable => "variables do not exist".to_owned(),
            ExecError::FormulaEval => "formula eval error".to_owned(),
            ExecError::UnknownOperation => "unknown operation".to_owned(),
            ExecError::DivisionByZero => "division by zero".to_owned(),
            ExecError::Overflow => "arithmetic overflow".to_owned(),
        }
    }
}

} // verus!
