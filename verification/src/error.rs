//! The errors of the tunnel.

use vstd::prelude::*;
use crate::text::push_str;

verus! {

/// What can go wrong.
#[derive(Debug)]
pub enum Error {
    Connection(String),
    Tunnel(String),
    Crypto(String),
    Protocol(String),
    /// An error of reading or writing, by its message.
    Io(String),
    AuthFailed,
    InvalidMessage,
    Timeout,
}

/// The result of an operation that can go wrong.
pub type Result<T> = core::result::Result<T, Error>;

impl Error {
    /// The message of the error, as a value.
    pub open spec fn text(&self) -> Seq<char> {
        match self {
            Error::Connection(m) => "Connection error: "@ + m@,
            Error::Tunnel(m) => "Tunnel error: "@ + m@,
            Error::Crypto(m) => "Crypto error: "@ + m@,
            Error::Protocol(m) => "Protocol error: "@ + m@,
            Error::Io(m) => "IO error: "@ + m@,
            Error::AuthFailed => "Authentication failed"@,
            Error::InvalidMessage => "Invalid message"@,
            Error::Timeout => "Timeout"@,
        }
    }

    /// The message of the error.
    pub fn message(&self) -> (s: String)
        ensures
            s@ == self.text(),
    {
        let mut s = String::new();
        match self {
            Error::Connection(m) => {
                push_str(&mut s, "Connection error: ");
                push_str(&mut s, m.as_str());
            },
            Error::Tunnel(m) => {
                push_str(&mut s, "Tunnel error: ");
                push_str(&mut s, m.as_str());
            },
            Error::Crypto(m) => {
                push_str(&mut s, "Crypto error: ");
                push_str(&mut s, m.as_str());
            },
            Error::Protocol(m) => {
                push_str(&mut s, "Protocol error: ");
                push_str(&mut s, m.as_str());
            },
            Error::Io(m) => {
                push_str(&mut s, "IO error: ");
                push_str(&mut s, m.as_str());
            },
            Error::AuthFailed => {
                push_str(&mut s, "Authentication failed");
            },
            Error::InvalidMessage => {
                push_str(&mut s, "Invalid message");
            },
            Error::Timeout => {
                push_str(&mut s, "Timeout");
            },
        }
        s
    }
}

} // verus!
