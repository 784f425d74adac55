//! Errors raised while building or running a register machine.

use vstd::prelude::*;

verus! {

/// Machine errors
#[derive(Debug, PartialEq)]
pub enum MachineError {
    ProcedureError(ProcedureError),
    TypeError(TypeError),
    RegisterError(RegisterError),
    ToTupleError,
    ConvertError { value: String, src: String, dst: String },
    UnknownLabel(String),
    NoMoreInsts,
    UnableAssemble(String),
    StackError(String),
}

pub type MResult<T> = Result<T, MachineError>;

/// A value of one variant was found where another was expected.
#[derive(Debug, PartialEq)]
pub struct TypeError {
    pub got: Option<String>,
    pub expected: String,
}

impl TypeError {
    /// Create a type error with expected type `expected`.
    pub fn expected(expected: &str) -> (r: Self)
        ensures
            r.expected@ == expected@,
            r.got is None,
    {
        Self { got: None, expected: expected.to_string() }
    }

    /// Set `got` on self.
    pub fn got(self, got: String) -> (r: Self)
        ensures
            r.expected == self.expected,
            r.got == Some(got),
    {
        let mut r = self;
        r.got = Some(got);
        r
    }
}

#[derive(Debug, PartialEq)]
pub enum ProcedureError {
    NotFound(String),
    ExecuteFailure(String),
    ArgsTooFew { name: String, expected: usize, got: usize },
    UnablePerform(String),
}

#[derive(Debug, PartialEq)]
pub enum RegisterError {
    LookupFailure(String),
    AllocateFailure(String),
    UnmatchedContentType { reg_name: String, expected_type: String },
}

/// The content of a `MachineError`.
pub enum ErrorModel {
    NotFound(Seq<char>),
    ExecuteFailure(Seq<char>),
    ArgsTooFew(Seq<char>, nat, nat),
    UnablePerform(Seq<char>),
    TypeError(Seq<char>, Option<Seq<char>>),
    LookupFailure(Seq<char>),
    AllocateFailure(Seq<char>),
    UnmatchedContentType(Seq<char>, Seq<char>),
    ToTupleError,
    ConvertError(Seq<char>, Seq<char>, Seq<char>),
    UnknownLabel(Seq<char>),
    NoMoreInsts,
    UnableAssemble(Seq<char>),
    StackError(Seq<char>),
}

impl MachineError {
    pub open spec fn model(&self) -> ErrorModel {
        match self {
            MachineError::ProcedureError(e) => match e {
                ProcedureError::NotFound(n) => ErrorModel::NotFound(n@),
                ProcedureError::ExecuteFailure(n) => ErrorModel::ExecuteFailure(n@),
                ProcedureError::ArgsTooFew { name, expected, got } => ErrorModel::ArgsTooFew(
                    name@,
                    *expected as nat,
                    *got as nat,
                ),
                ProcedureError::UnablePerform(v) => ErrorModel::UnablePerform(v@),
            },
            MachineError::TypeError(e) => ErrorModel::TypeError(
                e.expected@,
                match e.got {
                    Some(g) => Some(g@),
                    None => None,
                },
            ),
            MachineError::RegisterError(e) => match e {
                RegisterError::LookupFailure(n) => ErrorModel::LookupFailure(n@),
                RegisterError::AllocateFailure(n) => ErrorModel::AllocateFailure(n@),
                RegisterError::UnmatchedContentType { reg_name, expected_type } =>
                    ErrorModel::UnmatchedContentType(reg_name@, expected_type@),
            },
            MachineError::ToTupleError => ErrorModel::ToTupleError,
            MachineError::ConvertError { value, src, dst } => ErrorModel::ConvertError(
                value@,
                src@,
                dst@,
            ),
            MachineError::UnknownLabel(l) => ErrorModel::UnknownLabel(l@),
            MachineError::NoMoreInsts => ErrorModel::NoMoreInsts,
            MachineError::UnableAssemble(m) => ErrorModel::UnableAssemble(m@),
            MachineError::StackError(m) => ErrorModel::StackError(m@),
        }
    }
}

} // verus!
