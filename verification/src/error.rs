//! The errors of the two halves of the pipeline. None is recoverable: a
//! compiler or a machine that has failed must not be used again.

use vstd::prelude::*;

verus! {

/// Why a program could not be compiled.
#[derive(Debug, Clone, Copy, PartialEq, Eq, Structural)]
pub enum CompileError {
    /// A name is read that no enclosing scope defines.
    UndefinedIdent,
    /// The target of an assignment is nothing that can be assigned to.
    InvalidLHS,
    /// The expression is of a form that the compiler does not support.
    Unsupported,
    /// A scope holds more names than a 16-bit slot index can number.
    TooManySymbols,
    /// A constant index, an element count or a jump address does not fit the
    /// 16-bit operand of an instruction.
    TooLarge,
    /// A function names the same parameter twice.
    DuplicateParam,
}

/// Why a program stopped before its end.
#[derive(Debug, Clone, Copy, PartialEq, Eq, Structural)]
pub enum RuntimeError {
    /// An operation is not defined for the types of its operands.
    TypeError,
    /// An index lies outside the string or tuple.
    IndexError,
    /// A division by zero.
    DivByZero,
    /// A global is read before it was assigned.
    UninitVar,
    /// A call passes too few or too many arguments.
    ArityError,
    /// Calls are nested deeper than the machine allows.
    StackOverflow,
    /// An instruction needs more values than the stack holds.
    EmptyStack,
    /// The bytecode is malformed: an unknown or reserved opcode, a missing
    /// operand, or a constant or slot that does not exist.
    InvalidBytecode,
}

/// Why a text is no program or expression.
#[derive(Debug, Clone, Copy, PartialEq, Eq, Structural)]
pub struct ParseError {
    /// The byte position up to which the text could be read.
    pub position: usize,
}

impl ParseError {
    /// A sentence that describes the error.
    pub fn message(&self) -> (text: &'static str)
        ensures
            text@.len() > 0,
    {
        proof {
            reveal_strlit("text does not follow the grammar");
        }
        "text does not follow the grammar"
    }
}

impl CompileError {
    /// A sentence that describes the error.
    pub fn message(&self) -> (text: &'static str)
        ensures
            text@.len() > 0,
    {
        let text = match self {
            CompileError::UndefinedIdent => "name is undefined in the current scope",
            CompileError::InvalidLHS => "cannot assign to this target",
            CompileError::Unsupported => "expression form is not supported",
            CompileError::TooManySymbols => "too many names in one scope",
            CompileError::TooLarge => "operand does not fit in sixteen bits",
            CompileError::DuplicateParam => "parameter is named twice",
        };
        proof {
            reveal_strlit("name is undefined in the current scope");
            reveal_strlit("cannot assign to this target");
            reveal_strlit("expression form is not supported");
            reveal_strlit("too many names in one scope");
            reveal_strlit("operand does not fit in sixteen bits");
            reveal_strlit("parameter is named twice");
        }
        text
    }
}

impl RuntimeError {
    /// A sentence that describes the error.
    pub fn message(&self) -> (text: &'static str)
        ensures
            text@.len() > 0,
    {
        let text = match self {
            RuntimeError::TypeError => "operation is not defined for these operand types",
            RuntimeError::IndexError => "index is out of range",
            RuntimeError::DivByZero => "division by zero",
            RuntimeError::UninitVar => "global variable is read before it is set",
            RuntimeError::ArityError => "wrong number of arguments in a call",
            RuntimeError::StackOverflow => "calls are nested too deeply",
            RuntimeError::EmptyStack => "operand stack is empty",
            RuntimeError::InvalidBytecode => "bytecode is malformed",
        };
        proof {
            reveal_strlit("operation is not defined for these operand types");
            reveal_strlit("index is out of range");
            reveal_strlit("division by zero");
            reveal_strlit("global variable is read before it is set");
            reveal_strlit("wrong number of arguments in a call");
            reveal_strlit("calls are nested too deeply");
            reveal_strlit("operand stack is empty");
            reveal_strlit("bytecode is malformed");
        }
        text
    }
}

} // verus!
