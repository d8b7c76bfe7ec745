//! The decisions of an IRC and DCC byte-pipe transport.
//!
//! The transport speaks no IRC: it makes a connection, hands on every line that
//! comes in, writes the lines that it is given and reports how the connection
//! ends. What it decides stands here and touches no socket: each driver and pump
//! takes what happened and says what is to be done.

pub mod client;
pub mod codec;
pub mod dcc;
pub mod error;
pub mod ratelimit;
pub mod text;
pub mod tls;
pub mod views;

pub use client::{
    address, ClientCommand, DriverAction, DriverInput, Encoding, IrcClientOptions, IrcDriver,
    IrcEvent, CONNECT_TIMEOUT_SECS, READ_CHUNK,
};
pub use codec::{chat_line, decode, irc_line, strip_crlf, LineBuffer, MAX_RECEIVE_BUFFER};
pub use error::IrcError;
pub use ratelimit::SlidingWindowLimiter;
pub use tls::{client_config, client_config_from, server_name, server_name_from, trusted_roots};
