//! The error type shared by the scanner, parser, resolver and evaluator.
//! `Return` is not a user-visible failure: it is the internal control
//! signal that unwinds a `return` statement to its function-call boundary.
use vstd::prelude::*;

use crate::rlvalue::{RlValue, ValueG};

verus! {

/// Everything that can go wrong while running a program, plus the
/// `Return` control signal.
#[derive(Debug)]
pub enum RloxError {
    /// Not an error: carries a `return` statement's value to the function
    /// call that catches it.
    Return(Option<RlValue>),
    /// A call supplied the wrong number of arguments: expected, then got.
    ArityError(usize, usize),
    /// Reading the source failed; raised by embedders, never by the core.
    IoError(String),
    /// The token stream was malformed.
    ParseError(String),
    /// The resolver rejected the program.
    ResolveError(String),
    /// A resolved variable reference led outside the environment chain.
    ResolutionError(String),
    /// A name was found neither in any environment nor among built-ins.
    UndefinedSymbol(String),
    /// An assignment named a variable that was never declared.
    UndefinedVariable(String),
    /// An operator or call target had an operand of the wrong kind.
    IncorrectType(String),
    /// An AST variant the core does not implement.
    Unsupported(String),
    /// An invariant-violating branch was reached.
    Unreachable(String),
    /// Evaluation exceeded the caller's nesting budget.
    RecursionLimit,
}

/// Mathematical image of an error. Failure messages are incidental and
/// carry no meaning, so most variants drop them; the names in
/// `UndefinedSymbol` and `UndefinedVariable`, the values in `ArityError`
/// and the payload of `Return` are part of the behaviour and stay.
pub ghost enum ErrorG {
    Return(Option<ValueG>),
    Arity(int, int),
    Io,
    Parse,
    Resolve,
    Resolution,
    UndefinedSymbol(Seq<char>),
    UndefinedVariable(Seq<char>),
    IncorrectType,
    Unsupported,
    Unreachable,
    RecursionLimit,
}

impl View for RloxError {
    type V = ErrorG;

    open spec fn view(&self) -> ErrorG {
        match self {
            RloxError::Return(v) => ErrorG::Return(
                match v {
                    Option::Some(v) => Option::Some(v@),
                    Option::None => Option::None,
                },
            ),
            RloxError::ArityError(expected, got) => ErrorG::Arity(*expected as int, *got as int),
            RloxError::IoError(_) => ErrorG::Io,
            RloxError::ParseError(_) => ErrorG::Parse,
            RloxError::ResolveError(_) => ErrorG::Resolve,
            RloxError::ResolutionError(_) => ErrorG::Resolution,
            RloxError::UndefinedSymbol(s) => ErrorG::UndefinedSymbol(s@),
            RloxError::UndefinedVariable(s) => ErrorG::UndefinedVariable(s@),
            RloxError::IncorrectType(_) => ErrorG::IncorrectType,
            RloxError::Unsupported(_) => ErrorG::Unsupported,
            RloxError::Unreachable(_) => ErrorG::Unreachable,
            RloxError::RecursionLimit => ErrorG::RecursionLimit,
        }
    }
}

} // verus!
