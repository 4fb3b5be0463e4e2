//! The error type shared by every fallible operation of the reader.

use vstd::prelude::*;
use vstd::std_specs::convert::FromSpecImpl;
use vstd::string::StringExecFns;

verus! {

/// `std::io::Error`, carried along as it is.
#[verifier::external_type_specification]
#[verifier::external_body]
pub struct ExIoError(std::io::Error);

/// `std::string::FromUtf8Error`, carried along as it is.
#[verifier::external_type_specification]
#[verifier::external_body]
pub struct ExFromUtf8Error(std::string::FromUtf8Error);

/// All possible errors that may be returned when reading a TDMS file.
#[derive(Debug)]
pub enum TdmsReadError {
    /// Invalid data format.
    TdmsError(String),
    /// An IO error reading the underlying bytes, such as a short read.
    IoError(std::io::Error),
    /// An error decoding UTF-8 strings.
    Utf8Error(std::string::FromUtf8Error),
}

/// The three kinds of error, without their payload.
#[derive(Clone, Copy, Debug, PartialEq, Eq, Structural)]
pub enum ErrorKind {
    /// A violation of the file format.
    Format,
    /// A short read or another failure of the byte source.
    Io,
    /// Invalid UTF-8 in a string.
    Utf8,
}

/// `std::io::Error::from` on `std::io::ErrorKind::UnexpectedEof`: the error
/// that std's readers give for a read that ends early. The value is opaque
/// and nothing is claimed of it.
#[verifier::external_body]
fn unexpected_eof() -> std::io::Error {
    std::io::Error::from(std::io::ErrorKind::UnexpectedEof)
}

impl TdmsReadError {
    /// The kind of this error.
    pub open spec fn spec_kind(self) -> ErrorKind {
        match self {
            TdmsReadError::TdmsError(_) => ErrorKind::Format,
            TdmsReadError::IoError(_) => ErrorKind::Io,
            TdmsReadError::Utf8Error(_) => ErrorKind::Utf8,
        }
    }

    /// The kind of this error.
    pub fn kind(&self) -> (r: ErrorKind)
        ensures
            r == self.spec_kind(),
    {
        match self {
            TdmsReadError::TdmsError(_) => ErrorKind::Format,
            TdmsReadError::IoError(_) => ErrorKind::Io,
            TdmsReadError::Utf8Error(_) => ErrorKind::Utf8,
        }
    }

    /// The error of a read that found fewer bytes than it needed.
    pub fn short_read() -> (r: TdmsReadError)
        ensures
            r.spec_kind() == ErrorKind::Io,
    {
        TdmsReadError::IoError(unexpected_eof())
    }

    /// The text shown for this error: the message of a format error, and a
    /// fixed text for the two other kinds.
    pub fn message(&self) -> (r: String)
        ensures
            self matches TdmsReadError::TdmsError(s) ==> r@ == s@,
            self is IoError ==> r@ == "IO error"@,
            self is Utf8Error ==> r@ == "UTF-8 decode error"@,
    {
        match self {
            TdmsReadError::TdmsError(s) => s.clone(),
            TdmsReadError::IoError(_) => "IO error".to_owned(),
            TdmsReadError::Utf8Error(_) => "UTF-8 decode error".to_owned(),
        }
    }

    /// A format error with the given message.
    pub fn format(message: &str) -> (r: TdmsReadError)
        ensures
            r matches TdmsReadError::TdmsError(s) && s@ == message@,
            r.spec_kind() == ErrorKind::Format,
    {
        TdmsReadError::TdmsError(message.to_owned())
    }
}

impl TdmsReadError {
    /// Whether this is a format error whose message begins with `text`.
    pub open spec fn begins_with(self, text: Seq<char>) -> bool {
        self matches TdmsReadError::TdmsError(message) && text.len() <= message@.len()
            && message@.subrange(0, text.len() as int) == text
    }

    /// A format error whose message is `text` followed by `number` in
    /// decimal.
    pub fn format_with_number(text: &str, number: u64) -> (r: TdmsReadError)
        ensures
            r.begins_with(text@),
            r.spec_kind() == ErrorKind::Format,
    {
        let digits = number.to_string();
        let message = text.to_owned().concat(digits.as_str());
        assert(message@.subrange(0, text@.len() as int) =~= text@);
        TdmsReadError::TdmsError(message)
    }

    /// A format error whose message is `text` followed by `detail`.
    pub fn format_with_text(text: &str, detail: &str) -> (r: TdmsReadError)
        ensures
            r matches TdmsReadError::TdmsError(s) && s@ == text@ + detail@,
            r.begins_with(text@),
            r.spec_kind() == ErrorKind::Format,
    {
        let message = text.to_owned().concat(detail);
        assert(message@.subrange(0, text@.len() as int) =~= text@);
        TdmsReadError::TdmsError(message)
    }
}

impl From<std::io::Error> for TdmsReadError {
    fn from(err: std::io::Error) -> (r: TdmsReadError) {
        TdmsReadError::IoError(err)
    }
}

impl FromSpecImpl<std::io::Error> for TdmsReadError {
    open spec fn obeys_from_spec() -> bool {
        true
    }

    open spec fn from_spec(err: std::io::Error) -> TdmsReadError {
        TdmsReadError::IoError(err)
    }
}

impl From<std::string::FromUtf8Error> for TdmsReadError {
    fn from(err: std::string::FromUtf8Error) -> (r: TdmsReadError) {
        TdmsReadError::Utf8Error(err)
    }
}

impl FromSpecImpl<std::string::FromUtf8Error> for TdmsReadError {
    open spec fn obeys_from_spec() -> bool {
        true
    }

    open spec fn from_spec(err: std::string::FromUtf8Error) -> TdmsReadError {
        TdmsReadError::Utf8Error(err)
    }
}

pub type Result<T> = std::result::Result<T, TdmsReadError>;

} // verus!
