use std::path::PathBuf;

use sic_irc::dcc::{
    finish, ChatAction, ChatInput, ChatPump, DccCommand, DccConnectOptions, DccError, DccEvent,
    DccListenOptions, SessionAction, SessionDriver, SessionInput, Stage, Task,
};
use sic_irc::Encoding;

fn connect_options(port: u16) -> DccConnectOptions {
    DccConnectOptions {
        host: "127.0.0.1".to_string(),
        port,
        secure: false,
        save_path: None,
        size: None,
        encoding: Encoding::Utf8,
    }
}

fn listen_options() -> DccListenOptions {
    DccListenOptions {
        secure: false,
        port_start: 0,
        port_end: 0,
        expect_peer: None,
        file_path: None,
        encoding: Encoding::Utf8,
    }
}

fn shown(actions: &Vec<SessionAction>) -> String {
    format!("{:?}", actions)
}

#[test]
fn listen_reports_its_port_then_accepts_a_chat() {
    let (mut session, event) = SessionDriver::listen(&listen_options(), 4321);
    assert!(matches!(event, DccEvent::Listening { port: 4321 }));
    assert_eq!(session.stage(), Stage::Waiting);
    assert_eq!(shown(&session.step(SessionInput::PeerConnected)), "[Wrap(Plain)]");
    assert_eq!(
        shown(&session.step(SessionInput::Wrapped(None))),
        "[Emit(Connected { tls_fingerprint: None }), Run(Chat(Utf8))]"
    );
    assert_eq!(session.stage(), Stage::Running);
    let mut chat = ChatPump::new(Encoding::Utf8);
    let actions = chat.step(ChatInput::Received(b"from the peer\n".to_vec()));
    assert!(matches!(
        actions.as_slice(),
        [ChatAction::Emit(DccEvent::Line { text })] if text == "from the peer"
    ));
    let line = DccCommand::SendLine("and back".to_string());
    let actions = chat.step(ChatInput::Command(Some(line)));
    assert!(matches!(actions.as_slice(), [ChatAction::Write(bytes)] if bytes == b"and back\n"));
    assert_eq!(
        shown(&session.step(SessionInput::Finished)),
        "[Emit(Completed { path: None }), Emit(Closed)]"
    );
    assert_eq!(session.stage(), Stage::Over);
}

#[test]
fn an_offered_file_is_sent() {
    let mut options = listen_options();
    options.file_path = Some(PathBuf::from("send.bin"));
    let (mut session, _) = SessionDriver::listen(&options, 1);
    session.step(SessionInput::PeerConnected);
    let actions = session.step(SessionInput::Wrapped(None));
    assert!(matches!(actions.last(), Some(SessionAction::Run(Task::SendFile))));
    assert_eq!(
        shown(&session.step(SessionInput::Finished)),
        "[Emit(Completed { path: None }), Emit(Closed)]"
    );
}

#[test]
fn an_accepted_file_is_received_and_named() {
    let mut options = connect_options(9);
    options.save_path = Some(PathBuf::from("dir/recv.bin"));
    options.size = Some(77);
    assert_eq!(options.address(), "127.0.0.1:9");
    let mut session = SessionDriver::connect(&options);
    session.step(SessionInput::PeerConnected);
    let actions = session.step(SessionInput::Wrapped(None));
    assert!(matches!(
        actions.last(),
        Some(SessionAction::Run(Task::ReceiveFile { size: Some(77) }))
    ));
    assert_eq!(
        shown(&session.step(SessionInput::Finished)),
        "[Emit(Completed { path: Some(\"dir/recv.bin\") }), Emit(Closed)]"
    );
}

#[test]
fn the_offering_side_shows_no_fingerprint() {
    let mut options = listen_options();
    options.secure = true;
    let (mut session, _) = SessionDriver::listen(&options, 1);
    assert_eq!(shown(&session.step(SessionInput::PeerConnected)), "[Wrap(AcceptTls)]");
    let actions = session.step(SessionInput::Wrapped(Some(b"cert".to_vec())));
    assert!(matches!(
        actions.first(),
        Some(SessionAction::Emit(DccEvent::Connected { tls_fingerprint: None }))
    ));
}

#[test]
fn connecting_to_a_closed_port_reports_an_error_then_closes() {
    let mut session = SessionDriver::connect(&connect_options(9));
    let actions = session.step(SessionInput::Failed(DccError::Io("refused".to_string())));
    assert_eq!(shown(&actions), "[Emit(Error(\"I/O error: refused\")), Emit(Closed)]");
    assert_eq!(session.stage(), Stage::Over);
}

#[test]
fn a_failed_transfer_is_reported() {
    let mut session = SessionDriver::connect(&connect_options(9));
    session.step(SessionInput::PeerConnected);
    session.step(SessionInput::Wrapped(None));
    let actions = session.step(SessionInput::Failed(DccError::BufferOverflow));
    assert_eq!(actions.len(), 2);
    assert!(matches!(actions.last(), Some(SessionAction::Emit(DccEvent::Closed))));
}

#[test]
fn nothing_follows_the_end_of_a_session() {
    let mut session = SessionDriver::connect(&connect_options(9));
    session.step(SessionInput::Failed(DccError::Timeout));
    for input in [
        SessionInput::PeerConnected,
        SessionInput::Wrapped(None),
        SessionInput::Finished,
        SessionInput::Failed(DccError::Timeout),
    ] {
        assert!(session.step(input).is_empty());
        assert_eq!(session.stage(), Stage::Over);
    }
}

#[test]
fn what_is_out_of_order_changes_nothing_in_a_session() {
    let mut session = SessionDriver::connect(&connect_options(9));
    assert!(session.step(SessionInput::Finished).is_empty());
    assert!(session.step(SessionInput::Wrapped(None)).is_empty());
    session.step(SessionInput::PeerConnected);
    assert!(session.step(SessionInput::PeerConnected).is_empty());
    assert_eq!(session.stage(), Stage::Wrapping);
}

#[test]
fn a_session_finishes_with_its_result() {
    assert_eq!(
        format!("{:?}", finish(Ok(Some("p".to_string())))),
        "[Completed { path: Some(\"p\") }, Closed]"
    );
    assert_eq!(
        format!("{:?}", finish(Err(DccError::NoFreePort))),
        "[Error(\"no free port in the configured range\"), Closed]"
    );
}
