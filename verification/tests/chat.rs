use sic_irc::dcc::{ChatAction, ChatInput, ChatPhase, ChatPump, DccCommand};
use sic_irc::Encoding;

fn send(text: &str) -> ChatInput {
    ChatInput::Command(Some(DccCommand::SendLine(text.to_string())))
}

fn shown(actions: &Vec<ChatAction>) -> String {
    format!("{:?}", actions)
}

#[test]
fn chat_receives_lines_from_the_peer() {
    let mut chat = ChatPump::new(Encoding::Utf8);
    let actions = chat.step(ChatInput::Received(b"hello\nworld\r\n".to_vec()));
    assert_eq!(
        shown(&actions),
        "[Emit(Line { text: \"hello\" }), Emit(Line { text: \"world\" })]"
    );
}

#[test]
fn chat_sends_newline_terminated_lines() {
    let mut chat = ChatPump::new(Encoding::Utf8);
    let actions = chat.step(send("hi there"));
    assert!(matches!(actions.as_slice(), [ChatAction::Write(bytes)] if bytes == b"hi there\n"));
    assert_eq!(chat.phase(), ChatPhase::Writing);
    assert!(chat.step(ChatInput::Wrote).is_empty());
    assert_eq!(chat.phase(), ChatPhase::Open);
}

#[test]
fn chat_strips_embedded_newlines_from_outgoing_text() {
    let mut chat = ChatPump::new(Encoding::Utf8);
    let actions = chat.step(send("a\r\nb"));
    assert!(matches!(actions.as_slice(), [ChatAction::Write(bytes)] if bytes == b"ab\n"));
}

#[test]
fn chat_closes_when_the_peer_hangs_up() {
    let mut chat = ChatPump::new(Encoding::Utf8);
    assert_eq!(shown(&chat.step(ChatInput::Received(vec![]))), "[Finish(Ok(()))]");
    assert_eq!(chat.phase(), ChatPhase::Ended);
}

#[test]
fn chat_ends_when_its_owner_is_done() {
    let mut chat = ChatPump::new(Encoding::Utf8);
    let close = ChatInput::Command(Some(DccCommand::Close));
    assert_eq!(shown(&chat.step(close)), "[Finish(Ok(()))]");
    let mut chat = ChatPump::new(Encoding::Utf8);
    assert_eq!(shown(&chat.step(ChatInput::Command(None))), "[Finish(Ok(()))]");
}

#[test]
fn chat_fails_with_its_socket() {
    let mut chat = ChatPump::new(Encoding::Utf8);
    assert_eq!(
        shown(&chat.step(ChatInput::ReadFailed("reset".to_string()))),
        "[Finish(Err(Io(\"reset\")))]"
    );
    let mut chat = ChatPump::new(Encoding::Utf8);
    chat.step(send("x"));
    assert_eq!(
        shown(&chat.step(ChatInput::WriteFailed("pipe".to_string()))),
        "[Finish(Err(Io(\"pipe\")))]"
    );
}

#[test]
fn chat_that_never_ends_its_line_overflows() {
    let mut chat = ChatPump::new(Encoding::Utf8);
    assert!(chat.step(ChatInput::Received(vec![b'x'; 2 * 1024 * 1024])).is_empty());
    assert_eq!(
        shown(&chat.step(ChatInput::Received(vec![b'x']))),
        "[Finish(Err(BufferOverflow))]"
    );
}

#[test]
fn chat_is_decoded_as_asked() {
    let mut chat = ChatPump::new(Encoding::Latin1);
    assert_eq!(
        shown(&chat.step(ChatInput::Received(b"\xe9\n".to_vec()))),
        "[Emit(Line { text: \"\u{e9}\" })]"
    );
}

#[test]
fn chat_can_be_cut_anywhere() {
    let stream = b"one\r\n\ntwo\n";
    for cut in 1..stream.len() {
        let mut chat = ChatPump::new(Encoding::Utf8);
        let mut actions = chat.step(ChatInput::Received(stream[..cut].to_vec()));
        actions.extend(chat.step(ChatInput::Received(stream[cut..].to_vec())));
        assert_eq!(
            shown(&actions),
            "[Emit(Line { text: \"one\" }), Emit(Line { text: \"two\" })]"
        );
    }
}

#[test]
fn chat_does_nothing_after_its_end() {
    let mut chat = ChatPump::new(Encoding::Utf8);
    chat.step(ChatInput::Received(vec![]));
    assert!(chat.step(ChatInput::Received(b"late\n".to_vec())).is_empty());
    assert!(chat.step(send("late")).is_empty());
    assert!(chat.step(ChatInput::Wrote).is_empty());
    assert_eq!(chat.phase(), ChatPhase::Ended);
}

#[test]
fn chat_reads_nothing_while_it_writes() {
    let mut chat = ChatPump::new(Encoding::Utf8);
    chat.step(send("x"));
    assert!(chat.step(ChatInput::Received(b"early\n".to_vec())).is_empty());
    assert_eq!(chat.phase(), ChatPhase::Writing);
}
