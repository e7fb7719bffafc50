use vstd::prelude::*;
use crate::span::Span;

verus! {

/// How serious an error is.
#[derive(Clone, Copy, Debug, PartialEq, Eq, Structural)]
pub enum ErrorSeverity {
    HIGH,
    LOW,
}

/// An error raised while computing a value (arithmetic, casts, conversions).
#[derive(Debug)]
pub struct ComputationError {
    pub severity: ErrorSeverity,
    pub message: String,
    pub span: Span,
}

impl ComputationError {
    pub fn new(severity: ErrorSeverity, message: String, span: Span) -> (e: ComputationError)
        ensures
            e.severity == severity,
            e.message == message,
            e.span == span,
    {
        ComputationError { severity, message, span }
    }

    /// The error's message.
    pub fn message(&self) -> (m: String)
        ensures
            m@ == self.message@,
    {
        self.message.clone()
    }
}

/// An error raised by a scope or a scope manager (undeclared, redeclared or mistyped variables).
#[derive(Debug)]
pub struct ScopeManagerError {
    pub severity: ErrorSeverity,
    pub message: String,
    pub span: Span,
}

impl ScopeManagerError {
    pub fn new(severity: ErrorSeverity, message: String, span: Span) -> (e: ScopeManagerError)
        ensures
            e.severity == severity,
            e.message == message,
            e.span == span,
    {
        ScopeManagerError { severity, message, span }
    }

    pub fn message(&self) -> (m: String)
        ensures
            m@ == self.message@,
    {
        self.message.clone()
    }
}

/// The error raised when the call stack is full.
#[derive(Debug)]
pub struct StackOverflowError {
    pub severity: ErrorSeverity,
    pub message: String,
    pub span: Span,
}

impl StackOverflowError {
    pub fn new(severity: ErrorSeverity, message: String, span: Span) -> (e: StackOverflowError)
        ensures
            e.severity == severity,
            e.message == message,
            e.span == span,
    {
        StackOverflowError { severity, message, span }
    }

    pub fn message(&self) -> (m: String)
        ensures
            m@ == self.message@,
    {
        self.message.clone()
    }
}

/// An error raised while executing a program; it may say which type was expected and
/// which one was found.
#[derive(Debug)]
pub struct InterpreterError {
    pub severity: ErrorSeverity,
    pub message: String,
    pub expected: Option<String>,
    pub found: Option<String>,
    pub span: Span,
}

impl InterpreterError {
    pub fn at(severity: ErrorSeverity, message: String, span: Span) -> (e: InterpreterError)
        ensures
            e.severity == severity,
            e.message == message,
            e.expected is None,
            e.found is None,
            e.span == span,
    {
        InterpreterError { severity, message, expected: None, found: None, span }
    }

    pub fn expected_found(
        severity: ErrorSeverity,
        message: String,
        expected: String,
        found: String,
        span: Span,
    ) -> (e: InterpreterError)
        ensures
            e.severity == severity,
            e.message == message,
            e.expected == Some(expected),
            e.found == Some(found),
            e.span == span,
    {
        InterpreterError { severity, message, expected: Some(expected), found: Some(found), span }
    }

    pub fn message(&self) -> (m: String)
        ensures
            m@ == self.message@,
    {
        self.message.clone()
    }
}

} // verus!
