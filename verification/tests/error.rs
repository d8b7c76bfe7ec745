use sic_irc::dcc::DccError;
use sic_irc::IrcError;

#[test]
fn messages_of_a_connection() {
    assert_eq!(IrcError::ConnectTimeout.to_string(), "connection timed out");
    assert_eq!(
        IrcError::BufferOverflow.to_string(),
        "receive buffer overflow: server sent too much data without line terminators"
    );
    assert_eq!(
        IrcError::InvalidHostname("x: y".to_string()).to_string(),
        "invalid hostname: x: y"
    );
    assert_eq!(IrcError::Tls("bad".to_string()).to_string(), "TLS error: bad");
    assert_eq!(IrcError::Io("gone".to_string()).to_string(), "I/O error: gone");
}

#[test]
fn messages_of_a_session() {
    assert_eq!(DccError::NoFreePort.to_string(), "no free port in the configured range");
    assert_eq!(DccError::Timeout.to_string(), "timed out waiting for the peer");
    assert_eq!(
        DccError::UnexpectedPeer("5.6.7.8".to_string()).to_string(),
        "connection from unexpected address 5.6.7.8"
    );
    assert_eq!(
        DccError::BufferOverflow.to_string(),
        "receive buffer overflow: peer sent too much data without line terminators"
    );
    assert_eq!(DccError::Tls("bad".to_string()).to_string(), "TLS error: bad");
    assert_eq!(DccError::Io("gone".to_string()).to_string(), "I/O error: gone");
}

#[test]
fn size_mismatch_error_names_both_counts() {
    let error = DccError::SizeMismatch {
        expected: 10,
        actual: 4,
    };
    assert_eq!(
        error.to_string(),
        "transfer size mismatch: expected 10 bytes, got 4"
    );
}

#[test]
fn counts_are_written_in_full() {
    let error = DccError::SizeMismatch { expected: u64::MAX, actual: 0 };
    assert_eq!(
        error.to_string(),
        "transfer size mismatch: expected 18446744073709551615 bytes, got 0"
    );
}
