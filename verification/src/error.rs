//! The closed set of failures that the crate reports.

use vstd::prelude::*;

verus! {

/// Error of `String::from_utf8`, carried through unchanged.
#[verifier::external_type_specification]
#[verifier::external_body]
pub struct ExFromUtf8Error(std::string::FromUtf8Error);

/// Error of `str::from_utf8`, carried through unchanged.
#[verifier::external_type_specification]
#[verifier::external_body]
pub struct ExUtf8Error(std::str::Utf8Error);

/// Everything that can go wrong, from the engine's own complaint to a
/// malformed byte on the wire.
#[derive(Debug)]
pub enum Error {
    Unknown,
    NoResult,
    InvalidData(String),
    PathError,
    Io(String),
    Nul(String),
    InsufficientPermissions,
    FromUtf8Error(std::string::FromUtf8Error),
    InvalidUtf8Sequence(std::str::Utf8Error),
    NotEnoughData,
    SerializationError(String),
    DeserializationError(String),
    VariantDiscriminatorIsOutOfBound(usize),
    SequenceMustHaveLength,
    DeserializeAnyNotSupported,
    InvalidTagEncoding(usize),
    Unsupported(String),
    QueryError(String),
}

/// What an [`Error`] says, with texts as character sequences and numbers as
/// naturals. Contracts name failures through this type.
pub enum Fault {
    Unknown,
    NoResult,
    InvalidData(Seq<char>),
    PathError,
    Io(Seq<char>),
    Nul(Seq<char>),
    InsufficientPermissions,
    FromUtf8Error,
    InvalidUtf8Sequence,
    NotEnoughData,
    SerializationError(Seq<char>),
    DeserializationError(Seq<char>),
    VariantDiscriminatorIsOutOfBound(nat),
    SequenceMustHaveLength,
    DeserializeAnyNotSupported,
    InvalidTagEncoding(nat),
    Unsupported(Seq<char>),
    QueryError(Seq<char>),
}

impl View for Error {
    type V = Fault;

    open spec fn view(&self) -> Fault {
        match self {
            Error::Unknown => Fault::Unknown,
            Error::NoResult => Fault::NoResult,
            Error::InvalidData(text) => Fault::InvalidData(text@),
            Error::PathError => Fault::PathError,
            Error::Io(text) => Fault::Io(text@),
            Error::Nul(text) => Fault::Nul(text@),
            Error::InsufficientPermissions => Fault::InsufficientPermissions,
            Error::FromUtf8Error(_) => Fault::FromUtf8Error,
            Error::InvalidUtf8Sequence(_) => Fault::InvalidUtf8Sequence,
            Error::NotEnoughData => Fault::NotEnoughData,
            Error::SerializationError(text) => Fault::SerializationError(text@),
            Error::DeserializationError(text) => Fault::DeserializationError(text@),
            Error::VariantDiscriminatorIsOutOfBound(index) => Fault::VariantDiscriminatorIsOutOfBound(
                *index as nat,
            ),
            Error::SequenceMustHaveLength => Fault::SequenceMustHaveLength,
            Error::DeserializeAnyNotSupported => Fault::DeserializeAnyNotSupported,
            Error::InvalidTagEncoding(tag) => Fault::InvalidTagEncoding(*tag as nat),
            Error::Unsupported(text) => Fault::Unsupported(text@),
            Error::QueryError(text) => Fault::QueryError(text@),
        }
    }
}

/// Whether `outcome` reports exactly the failure `fault`.
pub open spec fn fails_with<T>(outcome: std::result::Result<T, Error>, fault: Fault) -> bool {
    outcome is Err && outcome->Err_0@ == fault
}

pub type Result<T, E = Error> = std::result::Result<T, E>;

} // verus!
