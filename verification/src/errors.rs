//! Errors that stop a running program.

use crate::report::{Diagnostic, DiagnosticView};
use vstd::prelude::*;
use vstd::string::StringExecFns;

verus! {

/// Why a program was stopped, and on which source line.
#[derive(Debug, PartialEq)]
pub enum RuntimeError {
    /// A unary operator was applied to something that is no number.
    OperandMustBeNumber { line: usize },
    /// A binary operator on numbers was applied to something else.
    OperandsMustBeNumbers { line: usize },
    /// `+` was applied to operands that are neither two numbers nor two
    /// strings.
    OperandsMustBeNumbersOrStrings { line: usize },
    /// A variable was read or assigned that no scope defines.
    UndefinedVariable { name: String, line: usize },
}

/// The mathematical value of a [`RuntimeError`].
pub enum RuntimeErrorView {
    OperandMustBeNumber { line: nat },
    OperandsMustBeNumbers { line: nat },
    OperandsMustBeNumbersOrStrings { line: nat },
    UndefinedVariable { name: Seq<char>, line: nat },
}

impl View for RuntimeError {
    type V = RuntimeErrorView;

    open spec fn view(&self) -> RuntimeErrorView {
        match *self {
            RuntimeError::OperandMustBeNumber { line } => RuntimeErrorView::OperandMustBeNumber {
                line: line as nat,
            },
            RuntimeError::OperandsMustBeNumbers { line } => RuntimeErrorView::OperandsMustBeNumbers {
                line: line as nat,
            },
            RuntimeError::OperandsMustBeNumbersOrStrings {
                line,
            } => RuntimeErrorView::OperandsMustBeNumbersOrStrings { line: line as nat },
            RuntimeError::UndefinedVariable { name, line } => RuntimeErrorView::UndefinedVariable {
                name: name@,
                line: line as nat,
            },
        }
    }
}

/// What an error says, without its line.
pub open spec fn message_of(error: RuntimeErrorView) -> Seq<char> {
    match error {
        RuntimeErrorView::OperandMustBeNumber { .. } => "Operand must be a number."@,
        RuntimeErrorView::OperandsMustBeNumbers { .. } => "Operands must be numbers."@,
        RuntimeErrorView::OperandsMustBeNumbersOrStrings {
            ..
        } => "Operands must be two numbers or two strings."@,
        RuntimeErrorView::UndefinedVariable { name, .. } => "Undefined variable '"@ + name + "'."@,
    }
}

/// The line that an error was found on.
pub open spec fn line_of(error: RuntimeErrorView) -> nat {
    match error {
        RuntimeErrorView::OperandMustBeNumber { line } => line,
        RuntimeErrorView::OperandsMustBeNumbers { line } => line,
        RuntimeErrorView::OperandsMustBeNumbersOrStrings { line } => line,
        RuntimeErrorView::UndefinedVariable { line, .. } => line,
    }
}

/// The diagnostic that an error is shown as: its line and message, with no
/// location.
pub open spec fn diagnostic_of(error: RuntimeErrorView) -> DiagnosticView {
    DiagnosticView {
        line: line_of(error),
        location: Seq::<char>::empty(),
        message: message_of(error),
    }
}

impl RuntimeError {
    /// The diagnostic that the error is shown as.
    pub fn diagnostic(&self) -> (r: Diagnostic)
        ensures
            r@ == diagnostic_of(self@),
    {
        Diagnostic { line: self.line(), location: String::new(), message: self.message() }
    }

    /// What the error says, without its line.
    pub fn message(&self) -> (r: String)
        ensures
            r@ == message_of(self@),
    {
        match self {
            RuntimeError::OperandMustBeNumber { .. } => String::from_str(
                "Operand must be a number.",
            ),
            RuntimeError::OperandsMustBeNumbers { .. } => String::from_str(
                "Operands must be numbers.",
            ),
            RuntimeError::OperandsMustBeNumbersOrStrings { .. } => String::from_str(
                "Operands must be two numbers or two strings.",
            ),
            RuntimeError::UndefinedVariable { name, .. } => {
                let mut text = String::from_str("Undefined variable '");
                text.append(name.as_str());
                text.append("'.");
                text
            },
        }
    }

    /// The line that the error was found on.
    pub fn line(&self) -> (r: usize)
        ensures
            r as nat == line_of(self@),
    {
        match self {
            RuntimeError::OperandMustBeNumber { line } => *line,
            RuntimeError::OperandsMustBeNumbers { line } => *line,
            RuntimeError::OperandsMustBeNumbersOrStrings { line } => *line,
            RuntimeError::UndefinedVariable { line, .. } => *line,
        }
    }
}

} // verus!
