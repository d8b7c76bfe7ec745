use std::io::{Read, Write};
use std::sync::Arc;

use rustls::{ClientConnection, Connection, ServerConnection};
use sic_irc::dcc::{
    acceptor_config, acceptor_config_with, fingerprint_of, placeholder_name, session_certificate,
    ChatAction, ChatInput, ChatPump, DccCommand, DccConnectOptions, DccError, DccEvent,
    DccListenOptions, ReceiveAction, ReceiveInput, ReceivePump, SendAction, SendInput, SendPump,
    SessionAction, SessionDriver, SessionInput, Task, Wrapping, CHUNK,
};
use sic_irc::tls::client_config;
use sic_irc::Encoding;

fn connect_options() -> DccConnectOptions {
    DccConnectOptions {
        host: "127.0.0.1".to_string(),
        port: 9,
        secure: true,
        save_path: None,
        size: None,
        encoding: Encoding::Utf8,
    }
}

fn listen_options() -> DccListenOptions {
    DccListenOptions {
        secure: true,
        port_start: 0,
        port_end: 0,
        expect_peer: None,
        file_path: None,
        encoding: Encoding::Utf8,
    }
}

/// Takes what one side has to send to the other, and gives what arrives there.
fn carry(from: &mut Connection, to: &mut Connection) -> Vec<u8> {
    let mut wire = vec![];
    while from.wants_write() {
        from.write_tls(&mut wire).unwrap();
    }
    let mut rest = wire.as_slice();
    let mut arrived = vec![];
    while !rest.is_empty() {
        to.read_tls(&mut rest).unwrap();
        let n = to.process_new_packets().unwrap().plaintext_bytes_to_read();
        let mut part = vec![0; n];
        to.reader().read_exact(&mut part).unwrap();
        arrived.extend(part);
    }
    arrived
}

fn send(from: &mut Connection, to: &mut Connection, bytes: &[u8]) -> Vec<u8> {
    let mut arrived = vec![];
    for part in bytes.chunks(4096) {
        from.writer().write_all(part).unwrap();
        arrived.extend(carry(from, to));
    }
    arrived
}

/// A session's two sides after the handshake, the one that dialled first. It knows
/// the certificate beforehand.
fn handshake() -> (Connection, Connection) {
    let certificate = session_certificate().unwrap();
    let trusted = client_config(vec![certificate.cert.clone()]).unwrap();
    let name = placeholder_name().unwrap();
    let mut dialler =
        Connection::Client(ClientConnection::new(Arc::new(trusted), name).unwrap());
    let config = acceptor_config_with(certificate).unwrap();
    let mut offerer = Connection::Server(ServerConnection::new(Arc::new(config)).unwrap());
    while dialler.wants_write() || offerer.wants_write() {
        assert!(carry(&mut dialler, &mut offerer).is_empty());
        assert!(carry(&mut offerer, &mut dialler).is_empty());
    }
    assert!(!dialler.is_handshaking());
    assert!(!offerer.is_handshaking());
    (dialler, offerer)
}

/// The certificate that the other side showed.
fn shown_by_the_peer(connection: &Connection) -> Option<Vec<u8>> {
    connection.peer_certificates().map(|chain| chain[0].as_ref().to_vec())
}

fn say(chat: &mut ChatPump, text: &str) -> Vec<u8> {
    let line = DccCommand::SendLine(text.to_string());
    match chat.step(ChatInput::Command(Some(line))).as_slice() {
        [ChatAction::Write(bytes)] => {
            chat.step(ChatInput::Wrote);
            bytes.clone()
        }
        other => panic!("unexpected actions: {other:?}"),
    }
}

fn hear(chat: &mut ChatPump, bytes: Vec<u8>) -> String {
    match chat.step(ChatInput::Received(bytes)).as_slice() {
        [ChatAction::Emit(DccEvent::Line { text })] => text.clone(),
        other => panic!("unexpected actions: {other:?}"),
    }
}

#[test]
fn secure_chat_completes_a_tls_handshake_and_reports_a_fingerprint() {
    let (mut offering, event) = SessionDriver::listen(&listen_options(), 9);
    assert!(matches!(event, DccEvent::Listening { port: 9 }));
    let mut dialling = SessionDriver::connect(&connect_options());
    let actions = offering.step(SessionInput::PeerConnected);
    assert!(matches!(actions.as_slice(), [SessionAction::Wrap(Wrapping::AcceptTls)]));
    let actions = dialling.step(SessionInput::PeerConnected);
    assert!(matches!(actions.as_slice(), [SessionAction::Wrap(Wrapping::ConnectTls)]));

    let (mut dialler, mut offerer) = handshake();
    let cert = shown_by_the_peer(&dialler).unwrap();
    match dialling.step(SessionInput::Wrapped(Some(cert.clone()))).as_slice() {
        [
            SessionAction::Emit(DccEvent::Connected { tls_fingerprint }),
            SessionAction::Run(Task::Chat(Encoding::Utf8)),
        ] => {
            let fingerprint =
                tls_fingerprint.as_deref().expect("secure session reported no fingerprint");
            assert_eq!(fingerprint.len(), 32 * 3 - 1);
            assert!(fingerprint.contains(':'));
            assert_eq!(fingerprint, fingerprint_of(&cert));
        }
        other => panic!("unexpected actions: {other:?}"),
    }
    let actions = offering.step(SessionInput::Wrapped(shown_by_the_peer(&offerer)));
    assert!(matches!(
        actions.as_slice(),
        [SessionAction::Emit(DccEvent::Connected { .. }), SessionAction::Run(Task::Chat(_))]
    ));

    let mut here = ChatPump::new(Encoding::Utf8);
    let mut there = ChatPump::new(Encoding::Utf8);
    let arrived = send(&mut dialler, &mut offerer, &say(&mut here, "secure hello"));
    assert_eq!(hear(&mut there, arrived), "secure hello");
    let arrived = send(&mut offerer, &mut dialler, &say(&mut there, "secure reply"));
    assert_eq!(hear(&mut here, arrived), "secure reply");
}

#[test]
fn secure_transfer_moves_a_file_over_tls() {
    let payload = vec![5u8; 128 * 1024];
    let (mut dialler, mut offerer) = handshake();
    let mut sender = SendPump::new(payload.len() as u64);
    let mut receiver = ReceivePump::new(Some(payload.len() as u64));
    let mut saved = vec![];
    for chunk in payload.chunks(CHUNK) {
        let mut arrived = match sender.step(SendInput::FileRead(chunk.to_vec())).as_slice() {
            [SendAction::WriteChunk(bytes)] => send(&mut offerer, &mut dialler, bytes),
            other => panic!("unexpected actions: {other:?}"),
        };
        sender.step(SendInput::Wrote);
        // The chunk comes in two reads.
        let second = arrived.split_off(1000);
        for part in [arrived, second] {
            match receiver.step(ReceiveInput::Read(part)).as_slice() {
                [ReceiveAction::Store(bytes)] => saved.extend_from_slice(bytes),
                other => panic!("unexpected actions: {other:?}"),
            }
            match receiver.step(ReceiveInput::Stored).as_slice() {
                [ReceiveAction::Ack(bytes)] => {
                    assert_eq!(send(&mut dialler, &mut offerer, bytes), bytes);
                }
                other => panic!("unexpected actions: {other:?}"),
            }
            receiver.step(ReceiveInput::Acked);
        }
    }
    assert!(matches!(
        receiver.step(ReceiveInput::Synced).last(),
        Some(ReceiveAction::Finish(Ok(())))
    ));
    assert!(saved == payload);
}

#[test]
fn a_plain_peer_cannot_speak_to_a_secure_session() {
    let (mut session, _) = SessionDriver::listen(&listen_options(), 1);
    session.step(SessionInput::PeerConnected);
    let config = acceptor_config().unwrap();
    let mut offerer = ServerConnection::new(Arc::new(config)).unwrap();
    offerer.read_tls(&mut b"not tls at all\n".as_slice()).unwrap();
    let reason = offerer.process_new_packets().unwrap_err().to_string();
    let actions = session.step(SessionInput::Failed(DccError::Tls(reason)));
    match actions.as_slice() {
        [SessionAction::Emit(DccEvent::Error(text)), SessionAction::Emit(DccEvent::Closed)] => {
            assert!(text.starts_with("TLS error: "));
        }
        other => panic!("unexpected actions: {other:?}"),
    }
}
