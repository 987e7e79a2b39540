use vstd::prelude::*;
use vstd::string::StringExecFns;

verus! {

/// Everything that scanning, parsing or evaluating can fail with.
#[derive(Debug, Clone, PartialEq, Eq)]
pub enum CalcError {
    DivByZero,
    InvalidExpr,
    UnexpectedChar(String),
    MismatchedParen,
    EmptyExpr,
}

pub type CalcResult<T> = Result<T, CalcError>;

/// A `CalcError` as a mathematical value.
pub enum Fault {
    DivByZero,
    InvalidExpr,
    UnexpectedChar(Seq<char>),
    MismatchedParen,
    EmptyExpr,
}

impl View for CalcError {
    type V = Fault;

    open spec fn view(&self) -> Fault {
        match self {
            CalcError::DivByZero => Fault::DivByZero,
            CalcError::InvalidExpr => Fault::InvalidExpr,
            CalcError::UnexpectedChar(d) => Fault::UnexpectedChar(d@),
            CalcError::MismatchedParen => Fault::MismatchedParen,
            CalcError::EmptyExpr => Fault::EmptyExpr,
        }
    }
}

impl Fault {
    /// The text shown to whoever supplied the expression.
    pub open spec fn message(self) -> Seq<char> {
        match self {
            Fault::DivByZero => "Division by zero"@,
            Fault::InvalidExpr => "Invalid expression"@,
            Fault::UnexpectedChar(d) => "Unexpected character: "@ + d,
            Fault::MismatchedParen => "Mismatched parentheses"@,
            Fault::EmptyExpr => "Empty expression"@,
        }
    }
}

impl CalcError {
    /// The error's human-readable message.
    pub fn message(&self) -> (s: String)
        ensures
            s@ == self@.message(),
    {
        match self {
            CalcError::DivByZero => String::from_str("Division by zero"),
            CalcError::InvalidExpr => String::from_str("Invalid expression"),
            CalcError::UnexpectedChar(d) => String::from_str("Unexpected character: ").concat(
                d.as_str(),
            ),
            CalcError::MismatchedParen => String::from_str("Mismatched parentheses"),
            CalcError::EmptyExpr => String::from_str("Empty expression"),
        }
    }
}

} // verus!
