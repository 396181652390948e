//! Errors of a connection attempt.
use fast_socks5::SocksError;
use vstd::prelude::*;

verus! {

/// `std::io::Error`, carried without looking inside.
#[verifier::external_type_specification]
#[verifier::external_body]
pub struct ExIoError(std::io::Error);

/// `fast_socks5::SocksError`, carried without looking inside.
#[verifier::external_type_specification]
#[verifier::external_body]
pub struct ExSocksError(SocksError);

/// Why a connection could not be made.
#[derive(Debug)]
pub enum Error {
    /// The server address is not an IPv4 address followed by a port.
    ParseIPAddress,
    /// The operating system refused the connection.
    IO(std::io::Error),
    /// The socks5 proxy refused the connection.
    FastSocks(SocksError),
}

impl Error {
    /// The text that describes the error to a person.
    pub open spec fn text(self) -> Seq<char> {
        match self {
            Error::ParseIPAddress => "Error parsing ip address."@,
            Error::IO(_) => "IO error"@,
            Error::FastSocks(_) => "Fast socks error"@,
        }
    }

    /// Describes the error to a person.
    pub fn message(&self) -> (text: &'static str)
        ensures
            text@ == self.text(),
    {
        match self {
            Error::ParseIPAddress => "Error parsing ip address.",
            Error::IO(_) => "IO error",
            Error::FastSocks(_) => "Fast socks error",
        }
    }
}

impl From<std::io::Error> for Error {
    fn from(err: std::io::Error) -> (error: Self) {
        Error::IO(err)
    }
}

impl vstd::std_specs::convert::FromSpecImpl<std::io::Error> for Error {
    open spec fn obeys_from_spec() -> bool {
        true
    }

    open spec fn from_spec(err: std::io::Error) -> Self {
        Error::IO(err)
    }
}

impl From<SocksError> for Error {
    fn from(err: SocksError) -> (error: Self) {
        Error::FastSocks(err)
    }
}

impl vstd::std_specs::convert::FromSpecImpl<SocksError> for Error {
    open spec fn obeys_from_spec() -> bool {
        true
    }

    open spec fn from_spec(err: SocksError) -> Self {
        Error::FastSocks(err)
    }
}

} // verus!
