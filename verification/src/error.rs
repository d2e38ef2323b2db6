//! The errors of this crate.
use core::str::Utf8Error;
use vstd::prelude::*;

verus! {

/// `core::str::Utf8Error`, the reason why bytes are no UTF-8 text. Its value
/// is carried through as it came from the decoder; nothing is stated of what
/// it holds.
#[verifier::external_type_specification]
#[verifier::external_body]
pub struct ExUtf8Error(Utf8Error);

/// Bytes that cannot be placed in a null-terminated buffer, because one of
/// them is zero.
#[derive(Debug)]
pub struct NulError {
    /// Index of the first zero byte.
    pub position: usize,
    /// The bytes that were refused, given back unchanged.
    pub bytes: Vec<u8>,
}

/// An owned C string that is no UTF-8 text.
#[derive(Debug)]
pub struct IntoStringError {
    /// The content of the C string, without its terminator.
    pub bytes: Vec<u8>,
    /// Why the content is not UTF-8.
    pub cause: Utf8Error,
}

/// Describes all errors that may occur
#[derive(Debug)]
pub enum Error {
    /// Error when converting an owned C string into a String
    IntoString(IntoStringError),
    /// Interior nul byte was found
    NulByte(NulError),
    /// Got a NULL pointer
    Null,
    /// Can not create UTF-8 string
    Utf8(Utf8Error),
}

impl From<IntoStringError> for Error {
    fn from(err: IntoStringError) -> (error: Self) {
        Error::IntoString(err)
    }
}

impl vstd::std_specs::convert::FromSpecImpl<IntoStringError> for Error {
    open spec fn obeys_from_spec() -> bool {
        true
    }

    open spec fn from_spec(err: IntoStringError) -> Self {
        Error::IntoString(err)
    }
}

impl From<NulError> for Error {
    fn from(err: NulError) -> (error: Self) {
        Error::NulByte(err)
    }
}

impl vstd::std_specs::convert::FromSpecImpl<NulError> for Error {
    open spec fn obeys_from_spec() -> bool {
        true
    }

    open spec fn from_spec(err: NulError) -> Self {
        Error::NulByte(err)
    }
}

impl From<Utf8Error> for Error {
    fn from(err: Utf8Error) -> (error: Self) {
        Error::Utf8(err)
    }
}

impl vstd::std_specs::convert::FromSpecImpl<Utf8Error> for Error {
    open spec fn obeys_from_spec() -> bool {
        true
    }

    open spec fn from_spec(err: Utf8Error) -> Self {
        Error::Utf8(err)
    }
}

/// A specialized result type for FFI utilities
pub type Result<T> = core::result::Result<T, Error>;

} // verus!
