//! DCC (Direct Client-to-Client) transport.
//!
//! Like the IRC transport, a byte pipe: it opens or accepts the peer's socket,
//! wraps it in TLS for the secure variants, and then either moves lines of chat
//! or a file. It knows nothing of CTCP; the caller reads the offer and decides
//! whether to act on it.
//!
//! Two roles: the **offerer** binds a port, so that the caller can put it in the
//! offer, and waits for the peer; the **acceptor** dials the address in an offer.
use vstd::prelude::*;

use crate::client::Encoding;
use crate::text;
use crate::text::decimal;
use crate::views;

pub mod chat;
pub mod listener;
pub mod session;
pub mod stream;
pub mod transfer;
pub mod transfer_laws;

pub use chat::{ChatAction, ChatInput, ChatPhase, ChatPump};
pub use listener::{
    same_host, AcceptAction, AcceptInput, AcceptWait, IpAddr, PortScan, SocketAddr,
};
pub use session::{
    finish, DccConnectOptions, DccListenOptions, SessionAction, SessionDriver, SessionInput, Stage,
    Task,
};
pub use stream::{
    acceptor_config, acceptor_config_from, acceptor_config_with, certificate_from,
    certificate_names, fingerprint_of, format_fingerprint, placeholder_name, placeholder_name_from,
    session_certificate, wrap, SessionCertificate, Wrapping,
};
pub use transfer::{
    decode_ack, encode_ack, ReceiveAction, ReceiveInput, ReceivePhase, ReceivePump, SendAction,
    SendInput, SendPump, CHUNK, FINAL_ACK_TIMEOUT_SECS, PROGRESS_INTERVAL, SEND_AHEAD_WINDOW,
};

verus! {

/// How long to wait for the peer to connect to an advertised port, in seconds.
pub const ACCEPT_TIMEOUT_SECS: u64 = 120;

/// How long to wait when dialling a peer's advertised address, in seconds.
pub const CONNECT_TIMEOUT_SECS: u64 = 30;

/// Why a session failed.
#[derive(Debug)]
pub enum DccError {
    /// No port of the configured range is free.
    NoFreePort,
    /// The peer did not come in time.
    Timeout,
    /// Somebody else came, from this address.
    UnexpectedPeer(String),
    /// A file is not as long as announced.
    SizeMismatch { expected: u64, actual: u64 },
    /// The peer sent too much without ending its line.
    BufferOverflow,
    /// The TLS set-up or handshake failed, for this reason.
    Tls(String),
    /// Reading, writing or connecting failed, for this reason.
    Io(String),
}

/// What an error says.
pub enum DccErrorView {
    NoFreePort,
    Timeout,
    UnexpectedPeer(Seq<char>),
    SizeMismatch { expected: nat, actual: nat },
    BufferOverflow,
    Tls(Seq<char>),
    Io(Seq<char>),
}

impl View for DccError {
    type V = DccErrorView;

    open spec fn view(&self) -> DccErrorView {
        match self {
            DccError::NoFreePort => DccErrorView::NoFreePort,
            DccError::Timeout => DccErrorView::Timeout,
            DccError::UnexpectedPeer(address) => DccErrorView::UnexpectedPeer(address@),
            DccError::SizeMismatch { expected, actual } => DccErrorView::SizeMismatch {
                expected: *expected as nat,
                actual: *actual as nat,
            },
            DccError::BufferOverflow => DccErrorView::BufferOverflow,
            DccError::Tls(reason) => DccErrorView::Tls(reason@),
            DccError::Io(reason) => DccErrorView::Io(reason@),
        }
    }
}

/// The message of an error.
pub open spec fn error_message(error: DccErrorView) -> Seq<char> {
    match error {
        DccErrorView::NoFreePort => "no free port in the configured range"@,
        DccErrorView::Timeout => "timed out waiting for the peer"@,
        DccErrorView::UnexpectedPeer(address) => "connection from unexpected address "@ + address,
        DccErrorView::SizeMismatch { expected, actual } =>
            "transfer size mismatch: expected "@ + text::decimal_text(expected) + " bytes, got "@
                + text::decimal_text(actual),
        DccErrorView::BufferOverflow =>
            "receive buffer overflow: peer sent too much data without line terminators"@,
        DccErrorView::Tls(reason) => "TLS error: "@ + reason,
        DccErrorView::Io(reason) => "I/O error: "@ + reason,
    }
}

impl DccError {
    /// The message of an error, as a user reads it.
    pub fn to_string(&self) -> (message: String)
        ensures
            message@ == error_message(self@),
    {
        match self {
            DccError::NoFreePort => "no free port in the configured range".to_owned(),
            DccError::Timeout => "timed out waiting for the peer".to_owned(),
            DccError::UnexpectedPeer(address) =>
                "connection from unexpected address ".to_owned().concat(address.as_str()),
            DccError::SizeMismatch { expected, actual } =>
                "transfer size mismatch: expected ".to_owned()
                    .concat(decimal(*expected).as_str())
                    .concat(" bytes, got ")
                    .concat(decimal(*actual).as_str()),
            DccError::BufferOverflow =>
                "receive buffer overflow: peer sent too much data without line terminators".to_owned(),
            DccError::Tls(reason) => "TLS error: ".to_owned().concat(reason.as_str()),
            DccError::Io(reason) => "I/O error: ".to_owned().concat(reason.as_str()),
        }
    }
}

/// What a session reports.
#[derive(Clone, Debug)]
pub enum DccEvent {
    /// A port is bound, the one for the offer.
    Listening { port: u16 },
    /// The peer's socket is up. The fingerprint of the peer's certificate is
    /// there only on the dialling side of a secure session.
    Connected { tls_fingerprint: Option<String> },
    /// A line of chat from the peer.
    Line { text: String },
    /// How many bytes of a file have been moved.
    Progress { transferred: u64 },
    /// The session came to its end. A received file is at `path`.
    Completed { path: Option<String> },
    /// The session is over. Always the last event.
    Closed,
    /// The session failed, with this message.
    Error(String),
}

/// What an event says.
pub enum DccEventView {
    Listening { port: u16 },
    Connected { tls_fingerprint: Option<Seq<char>> },
    Line { text: Seq<char> },
    Progress { transferred: nat },
    Completed { path: Option<Seq<char>> },
    Closed,
    Error(Seq<char>),
}

impl View for DccEvent {
    type V = DccEventView;

    open spec fn view(&self) -> DccEventView {
        match self {
            DccEvent::Listening { port } => DccEventView::Listening { port: *port },
            DccEvent::Connected { tls_fingerprint } => DccEventView::Connected {
                tls_fingerprint: views::opt_view(*tls_fingerprint),
            },
            DccEvent::Line { text } => DccEventView::Line { text: text@ },
            DccEvent::Progress { transferred } => DccEventView::Progress {
                transferred: *transferred as nat,
            },
            DccEvent::Completed { path } => DccEventView::Completed {
                path: views::opt_view(*path),
            },
            DccEvent::Closed => DccEventView::Closed,
            DccEvent::Error(message) => DccEventView::Error(message@),
        }
    }
}

/// What the owner of a session asks of it.
#[derive(Debug)]
pub enum DccCommand {
    /// Send a line of chat.
    SendLine(String),
    /// End the session.
    Close,
}

/// What a command says.
pub enum DccCommandView {
    SendLine(Seq<char>),
    Close,
}

impl View for DccCommand {
    type V = DccCommandView;

    open spec fn view(&self) -> DccCommandView {
        match self {
            DccCommand::SendLine(text) => DccCommandView::SendLine(text@),
            DccCommand::Close => DccCommandView::Close,
        }
    }
}

/// A message says what went wrong, with the reason or the counts, as they were given.
pub proof fn a_message_gives_the_reason(reason: Seq<char>, expected: nat, actual: nat)
    ensures
        error_message(DccErrorView::NoFreePort) == "no free port in the configured range"@,
        error_message(DccErrorView::Timeout) == "timed out waiting for the peer"@,
        error_message(DccErrorView::UnexpectedPeer(reason))
            == "connection from unexpected address "@ + reason,
        error_message(DccErrorView::BufferOverflow)
            == "receive buffer overflow: peer sent too much data without line terminators"@,
        error_message(DccErrorView::Tls(reason)) == "TLS error: "@ + reason,
        error_message(DccErrorView::Io(reason)) == "I/O error: "@ + reason,
        exists|first: Seq<char>, second: Seq<char>|
            error_message(DccErrorView::SizeMismatch { expected, actual }) == #[trigger] (
            "transfer size mismatch: expected "@ + first + " bytes, got "@ + second)
                && text::decimal_value(first) == expected && text::decimal_value(second) == actual
                && first.len() > 0 && second.len() > 0,
{
    text::decimal_says_the_number(expected);
    text::decimal_says_the_number(actual);
    let (first, second) = (text::decimal_text(expected), text::decimal_text(actual));
    assert(error_message(DccErrorView::SizeMismatch { expected, actual })
        == "transfer size mismatch: expected "@ + first + " bytes, got "@ + second);
}

/// Errors, events and commands are taken for what they are.
pub proof fn errors_events_and_commands_say_what_they_are(
    error: DccError,
    event: DccEvent,
    command: DccCommand,
)
    ensures
        match error {
            DccError::NoFreePort => error@ == DccErrorView::NoFreePort,
            DccError::Timeout => error@ == DccErrorView::Timeout,
            DccError::UnexpectedPeer(address) => error@ == DccErrorView::UnexpectedPeer(address@),
            DccError::SizeMismatch { expected, actual } => error@ == (DccErrorView::SizeMismatch {
                expected: expected as nat,
                actual: actual as nat,
            }),
            DccError::BufferOverflow => error@ == DccErrorView::BufferOverflow,
            DccError::Tls(reason) => error@ == DccErrorView::Tls(reason@),
            DccError::Io(reason) => error@ == DccErrorView::Io(reason@),
        },
        match event {
            DccEvent::Listening { port } => event@ == (DccEventView::Listening { port }),
            DccEvent::Connected { tls_fingerprint: Some(fingerprint) } => event@ == (
            DccEventView::Connected { tls_fingerprint: Some(fingerprint@) }),
            DccEvent::Connected { tls_fingerprint: None } => event@ == (DccEventView::Connected {
                tls_fingerprint: None,
            }),
            DccEvent::Line { text } => event@ == (DccEventView::Line { text: text@ }),
            DccEvent::Progress { transferred } => event@ == (DccEventView::Progress {
                transferred: transferred as nat,
            }),
            DccEvent::Completed { path: Some(path) } => event@ == (DccEventView::Completed {
                path: Some(path@),
            }),
            DccEvent::Completed { path: None } => event@ == (DccEventView::Completed {
                path: None,
            }),
            DccEvent::Closed => event@ == DccEventView::Closed,
            DccEvent::Error(message) => event@ == DccEventView::Error(message@),
        },
        match command {
            DccCommand::SendLine(text) => command@ == DccCommandView::SendLine(text@),
            DccCommand::Close => command@ == DccCommandView::Close,
        },
{
}

} // verus!
