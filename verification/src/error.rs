use vstd::prelude::*;

verus! {

/// An error produced while attempting to resolve.
#[derive(Debug)]
#[non_exhaustive]
pub enum Error {
    /// No or invalid IP address string found.
    Addr,
    /// IP version not requested was returned.
    Version,
    /// DNS resolver error.
    Dns(crate::dns::Error),
    /// HTTP resolver error.
    Http(crate::http::Error),
    /// Other resolver error, carried as its message.
    Other(String),
}

impl Error {
    /// Construct a new error from the message of some other failure.
    pub fn new(message: String) -> (r: Self)
        ensures
            r == Error::Other(message),
    {
        Error::Other(message)
    }
}

impl Clone for Error {
    fn clone(&self) -> (r: Self)
        ensures
            r == *self,
    {
        match self {
            Error::Addr => Error::Addr,
            Error::Version => Error::Version,
            Error::Dns(e) => Error::Dns(e.clone()),
            Error::Http(e) => Error::Http(e.clone()),
            Error::Other(m) => Error::Other(m.clone()),
        }
    }
}

impl From<crate::dns::Error> for Error {
    fn from(error: crate::dns::Error) -> (r: Self) {
        Error::Dns(error)
    }
}

impl vstd::std_specs::convert::FromSpecImpl<crate::dns::Error> for Error {
    open spec fn obeys_from_spec() -> bool {
        true
    }

    open spec fn from_spec(error: crate::dns::Error) -> Self {
        Error::Dns(error)
    }
}

impl From<crate::http::Error> for Error {
    fn from(error: crate::http::Error) -> (r: Self) {
        Error::Http(error)
    }
}

impl vstd::std_specs::convert::FromSpecImpl<crate::http::Error> for Error {
    open spec fn obeys_from_spec() -> bool {
        true
    }

    open spec fn from_spec(error: crate::http::Error) -> Self {
        Error::Http(error)
    }
}

} // verus!
