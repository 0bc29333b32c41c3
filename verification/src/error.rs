//! Error taxonomy shared by every component of the crate.
//!
//! The taxonomy is parameterized by the error type of the user-provided
//! storage, so that a foreign I/O error can be wrapped without forcing one
//! concrete error type on embedders.

use vstd::prelude::*;

verus! {

/// Error enum with all errors that can be returned by functions from this crate.
///
/// Generic parameter `T` is a type of external error returned by the user
/// provided storage.
#[derive(Debug)]
pub enum Error<T> {
    /// A user provided storage instance returned error during an input/output
    /// operation.
    Io(T),
    /// A read operation cannot be completed because an end of a file has been
    /// reached prematurely.
    UnexpectedEof,
    /// A write operation cannot be completed because `write` returned 0.
    WriteZero,
    /// A parameter was incorrect.
    InvalidInput,
    /// A requested file or directory has not been found.
    NotFound,
    /// A file or a directory with the same name already exists.
    AlreadyExists,
    /// An operation cannot be finished because a directory is not empty.
    DirectoryIsNotEmpty,
    /// File system internal structures are corrupted/invalid.
    CorruptedFileSystem,
    /// There is not enough free space on the storage to finish the requested
    /// operation.
    NotEnoughSpace,
    /// The provided file name is either too long or empty.
    InvalidFileNameLength,
    /// The provided file name contains an invalid character.
    UnsupportedFileNameCharacter,
}

/// Generic four-bucket classification of an error, for host interoperability.
#[derive(Debug, PartialEq, Eq, Structural, Clone, Copy)]
pub enum IoErrorClass {
    /// A requested object was not found.
    NotFound,
    /// An object with the same name already exists.
    AlreadyExists,
    /// A parameter or a name was invalid.
    InvalidInput,
    /// Any other condition, including wrapped storage errors.
    Other,
}

/// What [`Error::io_class`] returns for each variant.
pub open spec fn spec_io_class<T>(e: Error<T>) -> IoErrorClass {
    match e {
        Error::NotFound => IoErrorClass::NotFound,
        Error::AlreadyExists => IoErrorClass::AlreadyExists,
        Error::InvalidInput => IoErrorClass::InvalidInput,
        Error::InvalidFileNameLength => IoErrorClass::InvalidInput,
        Error::UnsupportedFileNameCharacter => IoErrorClass::InvalidInput,
        Error::DirectoryIsNotEmpty => IoErrorClass::InvalidInput,
        _ => IoErrorClass::Other,
    }
}

impl<T> Error<T> {
    /// Maps the error to a generic four-bucket I/O-error classification.
    pub fn io_class(&self) -> (c: IoErrorClass)
        ensures
            c == spec_io_class(*self),
    {
        match self {
            Error::NotFound => IoErrorClass::NotFound,
            Error::AlreadyExists => IoErrorClass::AlreadyExists,
            Error::InvalidInput => IoErrorClass::InvalidInput,
            Error::InvalidFileNameLength => IoErrorClass::InvalidInput,
            Error::UnsupportedFileNameCharacter => IoErrorClass::InvalidInput,
            Error::DirectoryIsNotEmpty => IoErrorClass::InvalidInput,
            _ => IoErrorClass::Other,
        }
    }
}

/// Trait that should be implemented by errors returned from the user supplied
/// storage.
///
/// An implementation for `()` is provided by this crate.
pub trait IoError: core::fmt::Debug + Sized {
    /// What the interrupted-condition query returns for this error.
    spec fn spec_interrupted(&self) -> bool;

    /// The value that stands for a premature end of stream.
    spec fn spec_unexpected_eof() -> Self;

    /// The value that stands for a write that made no progress.
    spec fn spec_write_zero() -> Self;

    /// Whether the error describes an interrupted, retryable I/O condition.
    fn is_interrupted(&self) -> (r: bool)
        ensures
            r == self.spec_interrupted(),
    ;

    /// Constructs the error that stands for a premature end of stream.
    fn new_unexpected_eof_error() -> (r: Self)
        ensures
            r == Self::spec_unexpected_eof(),
    ;

    /// Constructs the error that stands for a write that made no progress.
    fn new_write_zero_error() -> (r: Self)
        ensures
            r == Self::spec_write_zero(),
    ;
}

impl<T: core::fmt::Debug + IoError> IoError for Error<T> {
    /// Delegated to the wrapped storage error; false for every other
    /// variant.
    open spec fn spec_interrupted(&self) -> bool {
        match self {
            Error::Io(io_error) => io_error.spec_interrupted(),
            _ => false,
        }
    }

    open spec fn spec_unexpected_eof() -> Self {
        Error::UnexpectedEof
    }

    open spec fn spec_write_zero() -> Self {
        Error::WriteZero
    }

    fn is_interrupted(&self) -> (r: bool) {
        match self {
            Error::Io(io_error) => io_error.is_interrupted(),
            _ => false,
        }
    }

    fn new_unexpected_eof_error() -> (r: Self) {
        Error::<T>::UnexpectedEof
    }

    fn new_write_zero_error() -> (r: Self) {
        Error::<T>::WriteZero
    }
}

impl IoError for () {
    /// The unit error carries no state and is never an interrupted
    /// condition.
    open spec fn spec_interrupted(&self) -> bool {
        false
    }

    open spec fn spec_unexpected_eof() -> Self {
        ()
    }

    open spec fn spec_write_zero() -> Self {
        ()
    }

    fn is_interrupted(&self) -> (r: bool) {
        false
    }

    fn new_unexpected_eof_error() -> (r: Self) {
        ()
    }

    fn new_write_zero_error() -> (r: Self) {
        ()
    }
}

impl<T: IoError> From<T> for Error<T> {
    fn from(error: T) -> (r: Self) {
        Error::Io(error)
    }
}

impl<T: IoError> vstd::std_specs::convert::FromSpecImpl<T> for Error<T> {
    open spec fn obeys_from_spec() -> bool {
        true
    }

    open spec fn from_spec(error: T) -> Self {
        Error::Io(error)
    }
}

} // verus!
