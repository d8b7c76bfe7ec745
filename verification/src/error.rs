//! What can go wrong with an IRC connection.
use vstd::prelude::*;

verus! {

/// Why a connection could not be made or had to be given up.
#[derive(Debug)]
pub enum IrcError {
    /// The server did not answer in time.
    ConnectTimeout,
    /// The server sent too much without ending its line.
    BufferOverflow,
    /// The host is no name that a certificate could be checked against.
    InvalidHostname(String),
    /// The TLS set-up or handshake failed, for this reason.
    Tls(String),
    /// Reading, writing or connecting failed, for this reason.
    Io(String),
}

impl IrcError {
    /// The message of an error.
    pub open spec fn message(&self) -> Seq<char> {
        match self {
            IrcError::ConnectTimeout => "connection timed out"@,
            IrcError::BufferOverflow =>
                "receive buffer overflow: server sent too much data without line terminators"@,
            IrcError::InvalidHostname(host) => "invalid hostname: "@ + host@,
            IrcError::Tls(reason) => "TLS error: "@ + reason@,
            IrcError::Io(reason) => "I/O error: "@ + reason@,
        }
    }

    /// The message of an error, as a user reads it.
    pub fn to_string(&self) -> (text: String)
        ensures
            text@ == self.message(),
    {
        match self {
            IrcError::ConnectTimeout => "connection timed out".to_owned(),
            IrcError::BufferOverflow =>
                "receive buffer overflow: server sent too much data without line terminators".to_owned(),
            IrcError::InvalidHostname(host) => "invalid hostname: ".to_owned().concat(host.as_str()),
            IrcError::Tls(reason) => "TLS error: ".to_owned().concat(reason.as_str()),
            IrcError::Io(reason) => "I/O error: ".to_owned().concat(reason.as_str()),
        }
    }
}

/// A message says what went wrong and ends in the reason, as it was given.
pub proof fn a_message_gives_the_reason(reason: String)
    ensures
        IrcError::ConnectTimeout.message() == "connection timed out"@,
        IrcError::BufferOverflow.message()
            == "receive buffer overflow: server sent too much data without line terminators"@,
        IrcError::InvalidHostname(reason).message() == "invalid hostname: "@ + reason@,
        IrcError::Tls(reason).message() == "TLS error: "@ + reason@,
        IrcError::Io(reason).message() == "I/O error: "@ + reason@,
{
}

} // verus!
