//! Error taxonomy of the storage engine.

use vstd::prelude::*;

verus! {

/// The failure kinds the engine distinguishes.
#[derive(Debug, Clone, Copy, PartialEq, Eq, Structural)]
pub enum ExceptionType {
    Invalid,
    OutOfRange,
    Conversion,
    UnknownType,
    Decimal,
    MismatchType,
    DivideByZero,
    IncompatibleType,
    OutOfMemory,
    NotImplemented,
    Execution,
    IO,
}

/// A failure, carrying its kind as the variant and a fixed descriptive
/// message as the payload.
#[derive(Debug)]
pub enum Exception {
    Invalid(&'static str),
    OutOfRange(&'static str),
    Conversion(&'static str),
    UnknownType(&'static str),
    Decimal(&'static str),
    MismatchType(&'static str),
    DivideByZero(&'static str),
    IncompatibleType(&'static str),
    OutOfMemory(&'static str),
    NotImplemented(&'static str),
    Execution(&'static str),
    IO(&'static str),
}

impl Exception {
    /// The kind of this exception, as a spec-level value.
    pub open spec fn type_spec(&self) -> ExceptionType {
        match self {
            Exception::Invalid(_) => ExceptionType::Invalid,
            Exception::OutOfRange(_) => ExceptionType::OutOfRange,
            Exception::Conversion(_) => ExceptionType::Conversion,
            Exception::UnknownType(_) => ExceptionType::UnknownType,
            Exception::Decimal(_) => ExceptionType::Decimal,
            Exception::MismatchType(_) => ExceptionType::MismatchType,
            Exception::DivideByZero(_) => ExceptionType::DivideByZero,
            Exception::IncompatibleType(_) => ExceptionType::IncompatibleType,
            Exception::OutOfMemory(_) => ExceptionType::OutOfMemory,
            Exception::NotImplemented(_) => ExceptionType::NotImplemented,
            Exception::Execution(_) => ExceptionType::Execution,
            Exception::IO(_) => ExceptionType::IO,
        }
    }

    /// The message carried by this exception, as a spec-level value.
    pub open spec fn message_spec(&self) -> &'static str {
        match self {
            Exception::Invalid(m) => m,
            Exception::OutOfRange(m) => m,
            Exception::Conversion(m) => m,
            Exception::UnknownType(m) => m,
            Exception::Decimal(m) => m,
            Exception::MismatchType(m) => m,
            Exception::DivideByZero(m) => m,
            Exception::IncompatibleType(m) => m,
            Exception::OutOfMemory(m) => m,
            Exception::NotImplemented(m) => m,
            Exception::Execution(m) => m,
            Exception::IO(m) => m,
        }
    }

    /// Returns the kind of this exception.
    pub fn get_type(&self) -> (t: ExceptionType)
        ensures
            t == self.type_spec(),
    {
        match self {
            Exception::Invalid(_) => ExceptionType::Invalid,
            Exception::OutOfRange(_) => ExceptionType::OutOfRange,
            Exception::Conversion(_) => ExceptionType::Conversion,
            Exception::UnknownType(_) => ExceptionType::UnknownType,
            Exception::Decimal(_) => ExceptionType::Decimal,
            Exception::MismatchType(_) => ExceptionType::MismatchType,
            Exception::DivideByZero(_) => ExceptionType::DivideByZero,
            Exception::IncompatibleType(_) => ExceptionType::IncompatibleType,
            Exception::OutOfMemory(_) => ExceptionType::OutOfMemory,
            Exception::NotImplemented(_) => ExceptionType::NotImplemented,
            Exception::Execution(_) => ExceptionType::Execution,
            Exception::IO(_) => ExceptionType::IO,
        }
    }

    /// Returns the message carried by this exception.
    pub fn message(&self) -> (m: &'static str)
        ensures
            m == self.message_spec(),
    {
        match self {
            Exception::Invalid(m) => m,
            Exception::OutOfRange(m) => m,
            Exception::Conversion(m) => m,
            Exception::UnknownType(m) => m,
            Exception::Decimal(m) => m,
            Exception::MismatchType(m) => m,
            Exception::DivideByZero(m) => m,
            Exception::IncompatibleType(m) => m,
            Exception::OutOfMemory(m) => m,
            Exception::NotImplemented(m) => m,
            Exception::Execution(m) => m,
            Exception::IO(m) => m,
        }
    }

    /// The display name of an exception kind, as a spec-level value.
    pub open spec fn type_name_spec(exception_type: ExceptionType) -> Seq<char> {
        match exception_type {
            ExceptionType::Invalid => "Invalid"@,
            ExceptionType::OutOfRange => "Out of Range"@,
            ExceptionType::Conversion => "Conversion"@,
            ExceptionType::UnknownType => "Unknown Type"@,
            ExceptionType::Decimal => "Decimal"@,
            ExceptionType::MismatchType => "Mismatch Type"@,
            ExceptionType::DivideByZero => "Divide by Zero"@,
            ExceptionType::IncompatibleType => "Incompatible type"@,
            ExceptionType::OutOfMemory => "Out of Memory"@,
            ExceptionType::NotImplemented => "Not implemented"@,
            ExceptionType::Execution => "Execution"@,
            ExceptionType::IO => "IO Error"@,
        }
    }

    /// Returns the display name of an exception kind.
    pub fn type_to_string(exception_type: ExceptionType) -> (s: &'static str)
        ensures
            s@ == Self::type_name_spec(exception_type),
    {
        match exception_type {
            ExceptionType::Invalid => "Invalid",
            ExceptionType::OutOfRange => "Out of Range",
            ExceptionType::Conversion => "Conversion",
            ExceptionType::UnknownType => "Unknown Type",
            ExceptionType::Decimal => "Decimal",
            ExceptionType::MismatchType => "Mismatch Type",
            ExceptionType::DivideByZero => "Divide by Zero",
            ExceptionType::IncompatibleType => "Incompatible type",
            ExceptionType::OutOfMemory => "Out of Memory",
            ExceptionType::NotImplemented => "Not implemented",
            ExceptionType::Execution => "Execution",
            ExceptionType::IO => "IO Error",
        }
    }
}

} // verus!
