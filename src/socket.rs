//! Errors in sending or receiving DNS messages.

use vstd::prelude::*;

use crate::message::{rcode_text, DecodeError, DnsError, EncodeError};
use vstd::string::*;

verus! {

/// Declares `std::io::Error`, which `Error::IoError` carries through
/// unopened.
#[verifier::external_type_specification]
#[verifier::external_body]
pub struct ExIoError(std::io::Error);

/// Represents an error in sending or receiving a DNS message.
#[derive(Debug)]
pub enum Error {
    /// A message did not decode.
    DecodeError(DecodeError),
    /// A message did not encode.
    EncodeError(EncodeError),
    /// The server answered with an error code.
    DnsError(DnsError),
    /// Sending or receiving failed.
    IoError(std::io::Error),
}

impl From<DecodeError> for Error {
    fn from(err: DecodeError) -> (r: Error)
        ensures
            r == Error::DecodeError(err),
    {
        Error::DecodeError(err)
    }
}

impl vstd::std_specs::convert::FromSpecImpl<DecodeError> for Error {
    open spec fn obeys_from_spec() -> bool {
        true
    }

    open spec fn from_spec(v: DecodeError) -> Error {
        Error::DecodeError(v)
    }
}

impl From<EncodeError> for Error {
    fn from(err: EncodeError) -> (r: Error)
        ensures
            r == Error::EncodeError(err),
    {
        Error::EncodeError(err)
    }
}

impl vstd::std_specs::convert::FromSpecImpl<EncodeError> for Error {
    open spec fn obeys_from_spec() -> bool {
        true
    }

    open spec fn from_spec(v: EncodeError) -> Error {
        Error::EncodeError(v)
    }
}

impl From<DnsError> for Error {
    fn from(err: DnsError) -> (r: Error)
        ensures
            r == Error::DnsError(err),
    {
        Error::DnsError(err)
    }
}

impl vstd::std_specs::convert::FromSpecImpl<DnsError> for Error {
    open spec fn obeys_from_spec() -> bool {
        true
    }

    open spec fn from_spec(v: DnsError) -> Error {
        Error::DnsError(v)
    }
}

/// The description of a decoding error.
pub open spec fn decode_text(e: DecodeError) -> &'static str {
    match e {
        DecodeError::ExtraneousData => "extraneous data",
        DecodeError::ShortMessage => "short message",
        DecodeError::InvalidMessage => "invalid message",
        DecodeError::InvalidName => "invalid name",
    }
}

/// The description of an encoding error.
pub open spec fn encode_text(e: EncodeError) -> &'static str {
    match e {
        EncodeError::InvalidName => "invalid name value",
        EncodeError::TooLong => "message too long",
    }
}

/// The account given of an error that is not one of input or output.
pub open spec fn error_text(e: Error) -> Seq<char> {
    match e {
        Error::DecodeError(d) => "error decoding message: "@ + decode_text(d)@,
        Error::EncodeError(d) => "error encoding message: "@ + encode_text(d)@,
        Error::DnsError(DnsError(rc)) => "server responded with error: "@ + rcode_text(rc)@,
        Error::IoError(_) => Seq::<char>::empty(),
    }
}

/// Relies on `std::io::Error::new`: an error of kind `Other` that carries
/// the message.
#[verifier::external_body]
fn other_io_error(msg: String) -> std::io::Error {
    std::io::Error::new(std::io::ErrorKind::Other, msg)
}

impl Error {
    /// Returns an account of an error that is not one of input or output;
    /// an empty string for one that is.
    pub fn text(&self) -> (r: String)
        ensures
            r@ == error_text(*self),
    {
        match self {
            Error::DecodeError(d) => String::from_str("error decoding message: ").concat(
                d.description(),
            ),
            Error::EncodeError(d) => String::from_str("error encoding message: ").concat(
                d.description(),
            ),
            Error::DnsError(DnsError(rc)) => String::from_str(
                "server responded with error: ",
            ).concat(rc.get_error()),
            Error::IoError(_) => String::new(),
        }
    }
}

/// Passes an input or output error on as it is, and turns any other error
/// into one of kind `Other` whose message is `desc`, a colon, and the
/// error's account.
pub fn convert_error<T>(desc: &str, r: Result<T, Error>) -> (c: Result<T, std::io::Error>)
    ensures
        r is Ok <==> c is Ok,
        r matches Ok(t) ==> c == Ok::<T, std::io::Error>(t),
        r matches Err(Error::IoError(e)) ==> c == Err::<T, std::io::Error>(e),
{
    match r {
        Ok(t) => Ok(t),
        Err(Error::IoError(e)) => Err(e),
        Err(e) => Err(other_io_error(context_message(desc, &e))),
    }
}

/// The message `desc: account` for an error.
pub fn context_message(desc: &str, e: &Error) -> (r: String)
    ensures
        r@ == desc@ + ": "@ + error_text(*e),
{
    let t = e.text();
    desc.to_owned().concat(": ").concat(t.as_str())
}

} // verus!
