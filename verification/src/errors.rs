//! Error values for each stage of the pipeline.
//!
//! Scanning, parsing, resolution and evaluation each fail with their own
//! enum; `LoxError` gathers them for the whole-pipeline entry point.  A
//! recorded hop distance that walks past the end of the live frame chain is
//! an internal-consistency violation of the resolver/evaluator contract, not
//! a user error; it is reported as `RuntimeError::Internal`.

use vstd::prelude::*;
use crate::token::TokenType;

verus! {

/// The dynamic type of a runtime value, as named in error messages.
#[derive(Clone, Copy, PartialEq, Eq, Structural, Debug)]
pub enum LoxType {
    Number,
    Text,
    Boolean,
    NilType,
    Array,
    Function,
    Native,
}

/// A lexical error.
#[derive(Clone, Debug)]
pub enum ScanError {
    UnexpectedChar { c: char, line: usize },
    UnterminatedString { line: usize },
    UnterminatedComment { line: usize },
}

/// A syntax error.
#[derive(Clone, Debug)]
pub enum ParseError {
    /// A required token was missing; `expected` names what the grammar wanted.
    Expected { expected: TokenType, line: usize },
    ExpectedExpression { line: usize },
    TooManyArguments { line: usize },
    InvalidAssignmentTarget { line: usize },
    /// A number literal that does not denote an integer in range.
    BadNumberLiteral { line: usize },
}

/// A static-analysis error found before any evaluation.
#[derive(Clone, Debug)]
pub enum ResolveError {
    /// A variable's own initializer reads the variable being declared.
    SelfReferencingInitializer { name: String },
    ReturnOutsideFunction,
}

/// The mathematical value of a resolution error.
pub enum ResolveErrV {
    SelfReferencingInitializer { name: Seq<char> },
    ReturnOutsideFunction,
}

impl View for ResolveError {
    type V = ResolveErrV;

    open spec fn view(&self) -> ResolveErrV {
        match self {
            ResolveError::SelfReferencingInitializer { name } =>
                ResolveErrV::SelfReferencingInitializer { name: name@ },
            ResolveError::ReturnOutsideFunction => ResolveErrV::ReturnOutsideFunction,
        }
    }
}

/// An evaluation error.
#[derive(Clone, Debug)]
pub enum RuntimeError {
    /// `-` applied to a value that is not a number.
    NegationType { operand: LoxType },
    /// A binary operator applied to operand types it does not support.
    BinaryType { op: TokenType, left: LoxType, right: LoxType },
    /// Arithmetic whose exact result does not fit in the number type.
    Overflow { op: TokenType },
    /// `/` or `%` with a zero divisor.
    DivisionByZero { op: TokenType },
    /// A variable read or written that no scope defines.
    UndefinedVariable { name: String },
    /// An index expression that did not evaluate to a number.
    IndexNotNumber { found: LoxType },
    /// A negative index.
    IndexNegative,
    /// An indexed write past the one-slot append window.
    AssignOutOfBounds { position: i64, len: usize },
    /// Writing more than one character into the middle of a string.
    StringAssignTooLong,
    /// An indexed read outside the contents.
    ReadOutOfBounds { position: i64, len: usize },
    /// Indexing into a value that is neither an array nor a string.
    CannotIndex { target: LoxType },
    /// Calling a value that is not callable.
    NotCallable { target: LoxType },
    /// A call whose argument count differs from the declared arity.
    ArityMismatch { name: String, native: bool, expected: usize, actual: usize },
    /// Work past the evaluation budget: loop iterations and nested calls
    /// together exceeded the given budget.
    BudgetExhausted,
    /// A host native reported a failure.
    NativeError { message: String },
    /// The `parse` native's target type was not one of its known names.
    ParseTypeUnknown,
    /// The `parse` native has no conversion for this pairing.
    ParseUndefined { from: LoxType, to: LoxType },
    /// The `parse` native read text that does not denote a value of the target type.
    ParseValueFormat { to: LoxType },
    /// The `parse` native applied to argument shapes it does not accept.
    ParseUsage,
    /// A recorded hop distance walked past the end of the frame chain.
    Internal,
}

/// The mathematical value of a runtime error.
pub enum RunErrV {
    NegationType { operand: LoxType },
    BinaryType { op: TokenType, left: LoxType, right: LoxType },
    Overflow { op: TokenType },
    DivisionByZero { op: TokenType },
    UndefinedVariable { name: Seq<char> },
    IndexNotNumber { found: LoxType },
    IndexNegative,
    AssignOutOfBounds { position: int, len: nat },
    StringAssignTooLong,
    ReadOutOfBounds { position: int, len: nat },
    CannotIndex { target: LoxType },
    NotCallable { target: LoxType },
    ArityMismatch { name: Seq<char>, native: bool, expected: nat, actual: nat },
    BudgetExhausted,
    NativeError { message: Seq<char> },
    ParseTypeUnknown,
    ParseUndefined { from: LoxType, to: LoxType },
    ParseValueFormat { to: LoxType },
    ParseUsage,
    Internal,
}

impl View for RuntimeError {
    type V = RunErrV;

    open spec fn view(&self) -> RunErrV {
        match self {
            RuntimeError::NegationType { operand } => RunErrV::NegationType { operand: *operand },
            RuntimeError::BinaryType { op, left, right } =>
                RunErrV::BinaryType { op: *op, left: *left, right: *right },
            RuntimeError::Overflow { op } => RunErrV::Overflow { op: *op },
            RuntimeError::DivisionByZero { op } => RunErrV::DivisionByZero { op: *op },
            RuntimeError::UndefinedVariable { name } => RunErrV::UndefinedVariable { name: name@ },
            RuntimeError::IndexNotNumber { found } => RunErrV::IndexNotNumber { found: *found },
            RuntimeError::IndexNegative => RunErrV::IndexNegative,
            RuntimeError::AssignOutOfBounds { position, len } =>
                RunErrV::AssignOutOfBounds { position: *position as int, len: *len as nat },
            RuntimeError::StringAssignTooLong => RunErrV::StringAssignTooLong,
            RuntimeError::ReadOutOfBounds { position, len } =>
                RunErrV::ReadOutOfBounds { position: *position as int, len: *len as nat },
            RuntimeError::CannotIndex { target } => RunErrV::CannotIndex { target: *target },
            RuntimeError::NotCallable { target } => RunErrV::NotCallable { target: *target },
            RuntimeError::ArityMismatch { name, native, expected, actual } => RunErrV::ArityMismatch {
                name: name@,
                native: *native,
                expected: *expected as nat,
                actual: *actual as nat,
            },
            RuntimeError::BudgetExhausted => RunErrV::BudgetExhausted,
            RuntimeError::NativeError { message } => RunErrV::NativeError { message: message@ },
            RuntimeError::ParseTypeUnknown => RunErrV::ParseTypeUnknown,
            RuntimeError::ParseUndefined { from, to } =>
                RunErrV::ParseUndefined { from: *from, to: *to },
            RuntimeError::ParseValueFormat { to } => RunErrV::ParseValueFormat { to: *to },
            RuntimeError::ParseUsage => RunErrV::ParseUsage,
            RuntimeError::Internal => RunErrV::Internal,
        }
    }
}

/// Any failure of the whole pipeline: the stage that failed and its errors.
#[derive(Debug)]
pub enum LoxError {
    Scan(ScanError),
    Parse(Vec<ParseError>),
    Resolve(ResolveError),
    Runtime(RuntimeError),
}

} // verus!
