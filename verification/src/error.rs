//! Faults raised by parsing, resolution and execution.
//!
//! Every failure of the interpreter is immediate and unrecoverable: a fault
//! aborts the run and is reported to the caller as one of these conditions.

use vstd::prelude::*;

verus! {

#[derive(Clone, Copy, Debug, PartialEq, Eq, Structural)]
pub enum Error {
    /// An operand was expected at the cursor but something else was found,
    /// or the input ended where a value was required.
    ExpectedValue,
    /// A bracketed block was opened and the input ended before `]`.
    UnmatchedBracket,
    /// `repeat` or `if` was not followed by `[` where its block must start.
    ExpectedBlock,
    /// The token between the two operands of `if` is not `>` or `<`.
    InvalidComparison,
    /// A procedure definition lacks its keyword, its name, or a body.
    MalformedDefinition,
    /// A bare identifier names a procedure that was never defined.
    UnknownProcedure,
    /// A call found fewer trailing expression statements than the
    /// procedure's declared arity.
    InsufficientArguments,
    /// A parameter reference survived substitution and reached arithmetic
    /// evaluation.
    UnresolvedParameter,
    /// The body of a `repeat` or `if` is not a bracketed block.
    NotABlock,
    /// An unresolved statement (a bare identifier or a leftover expression)
    /// reached execution.
    UnresolvedStatement,
    /// Procedure activations nested deeper than the execution budget allows;
    /// the runaway recursion was cut off.
    RecursionLimit,
}

impl Error {
    /// A short description of the fault.
    pub fn describe(&self) -> (r: &'static str)
        ensures
            r@.len() > 0,
    {
        let r: &'static str = match self {
            Error::ExpectedValue => "expected a value",
            Error::UnmatchedBracket => "unmatched opening bracket",
            Error::ExpectedBlock => "expected a bracketed block",
            Error::InvalidComparison => "invalid comparison operator",
            Error::MalformedDefinition => "malformed procedure definition",
            Error::UnknownProcedure => "call to an undefined procedure",
            Error::InsufficientArguments => "insufficient arguments for call",
            Error::UnresolvedParameter => "unresolved parameter reached evaluation",
            Error::NotABlock => "statement body is not a block",
            Error::UnresolvedStatement => "unresolved statement reached execution",
            Error::RecursionLimit => "recursion depth limit exceeded",
        };
        proof {
            reveal_strlit("expected a value");
            reveal_strlit("unmatched opening bracket");
            reveal_strlit("expected a bracketed block");
            reveal_strlit("invalid comparison operator");
            reveal_strlit("malformed procedure definition");
            reveal_strlit("call to an undefined procedure");
            reveal_strlit("insufficient arguments for call");
            reveal_strlit("unresolved parameter reached evaluation");
            reveal_strlit("statement body is not a block");
            reveal_strlit("unresolved statement reached execution");
            reveal_strlit("recursion depth limit exceeded");
        }
        r
    }
}

} // verus!
