//! DCC CHAT: lines of text over the peer's socket.
//!
//! Uses the same line buffer as IRC, with the same limit: a peer that never ends
//! its line must not be able to grow the buffer without bound.
use vstd::prelude::*;

use crate::client::Encoding;
use crate::codec;
use crate::codec::{chat_line, LineBuffer, MAX_RECEIVE_BUFFER};
use crate::dcc::{DccCommand, DccCommandView, DccError, DccErrorView, DccEvent, DccEventView};
use crate::views;

verus! {

/// What happened to the chat.
#[derive(Debug)]
pub enum ChatInput {
    /// Bytes were read; none, if the peer closed the connection.
    Received(Vec<u8>),
    /// Reading failed, for this reason.
    ReadFailed(String),
    /// A command, or none, if there is nobody left to give one.
    Command(Option<DccCommand>),
    /// The bytes to write are written and flushed.
    Wrote,
    /// They could not be written, for this reason.
    WriteFailed(String),
}

/// What an input says.
pub enum ChatInputView {
    Received(Seq<u8>),
    ReadFailed(Seq<char>),
    Command(Option<DccCommandView>),
    Wrote,
    WriteFailed(Seq<char>),
}

impl View for ChatInput {
    type V = ChatInputView;

    open spec fn view(&self) -> ChatInputView {
        match self {
            ChatInput::Received(data) => ChatInputView::Received(data@),
            ChatInput::ReadFailed(reason) => ChatInputView::ReadFailed(reason@),
            ChatInput::Command(command) => ChatInputView::Command(views::opt_view(*command)),
            ChatInput::Wrote => ChatInputView::Wrote,
            ChatInput::WriteFailed(reason) => ChatInputView::WriteFailed(reason@),
        }
    }
}

/// What is to be done next, in order.
#[derive(Debug)]
pub enum ChatAction {
    /// Report an event.
    Emit(DccEvent),
    /// Write and flush these bytes; answer with `Wrote` or `WriteFailed`.
    Write(Vec<u8>),
    /// The chat is over, with an error or without.
    Finish(Result<(), DccError>),
}

/// What an action says.
pub enum ChatActionView {
    Emit(DccEventView),
    Write(Seq<u8>),
    Finish(Result<(), DccErrorView>),
}

impl View for ChatAction {
    type V = ChatActionView;

    open spec fn view(&self) -> ChatActionView {
        match self {
            ChatAction::Emit(event) => ChatActionView::Emit(event@),
            ChatAction::Write(bytes) => ChatActionView::Write(bytes@),
            ChatAction::Finish(Ok(())) => ChatActionView::Finish(Ok(())),
            ChatAction::Finish(Err(error)) => ChatActionView::Finish(Err(error@)),
        }
    }
}

/// How far a chat has come.
#[derive(Copy, Clone, Debug, PartialEq, Eq, Structural)]
pub enum ChatPhase {
    /// Lines may come in and commands may be given.
    Open,
    /// A line is being written.
    Writing,
    /// The chat is over.
    Ended,
}

/// What a chat decides by.
pub struct ChatView {
    pub encoding: Encoding,
    pub phase: ChatPhase,
    /// The bytes of the line that has begun to come in.
    pub buffer: Seq<u8>,
}

/// Received lines, each as an event.
pub open spec fn chat_lines(encoding: Encoding, lines: Seq<Seq<u8>>) -> Seq<ChatActionView> {
    Seq::new(
        lines.len(),
        |i: int|
            ChatActionView::Emit(DccEventView::Line { text: codec::decoded(encoding, lines[i]) }),
    )
}

/// The chat is over.
pub open spec fn ending(chat: ChatView, result: Result<(), DccErrorView>) -> (
    ChatView,
    Seq<ChatActionView>,
) {
    (ChatView { phase: ChatPhase::Ended, ..chat }, seq![ChatActionView::Finish(result)])
}

/// Bytes come in. None are the peer's goodbye. Otherwise every line that they
/// complete is reported, unless more is buffered than may be.
pub open spec fn chat_received(chat: ChatView, data: Seq<u8>) -> (ChatView, Seq<ChatActionView>) {
    let held = chat.buffer + data;
    if data.len() == 0 {
        ending(chat, Ok(()))
    } else if held.len() > MAX_RECEIVE_BUFFER {
        ending(ChatView { buffer: held, ..chat }, Err(DccErrorView::BufferOverflow))
    } else {
        (
            ChatView { buffer: codec::framing(held).pending, ..chat },
            chat_lines(chat.encoding, codec::framing(held).lines),
        )
    }
}

/// One step of a chat. What cannot happen in a phase changes nothing.
pub open spec fn chat_step(chat: ChatView, input: ChatInputView) -> (
    ChatView,
    Seq<ChatActionView>,
) {
    match (chat.phase, input) {
        (ChatPhase::Open, ChatInputView::Received(data)) => chat_received(chat, data),
        (ChatPhase::Open, ChatInputView::ReadFailed(reason)) => ending(
            chat,
            Err(DccErrorView::Io(reason)),
        ),
        (ChatPhase::Open, ChatInputView::Command(Some(DccCommandView::SendLine(text)))) => (
            ChatView { phase: ChatPhase::Writing, ..chat },
            seq![ChatActionView::Write(codec::wire(text, codec::chat_terminator()))],
        ),
        (ChatPhase::Open, ChatInputView::Command(_)) => ending(chat, Ok(())),
        (ChatPhase::Writing, ChatInputView::Wrote) => (
            ChatView { phase: ChatPhase::Open, ..chat },
            seq![],
        ),
        (ChatPhase::Writing, ChatInputView::WriteFailed(reason)) => ending(
            chat,
            Err(DccErrorView::Io(reason)),
        ),
        _ => (chat, seq![]),
    }
}

/// The decisions of one chat.
pub struct ChatPump {
    encoding: Encoding,
    phase: ChatPhase,
    buffer: LineBuffer,
}

impl View for ChatPump {
    type V = ChatView;

    closed spec fn view(&self) -> ChatView {
        ChatView { encoding: self.encoding, phase: self.phase, buffer: self.buffer@ }
    }
}

impl ChatPump {
    /// A chat that begins.
    pub fn new(encoding: Encoding) -> (chat: Self)
        ensures
            chat@ == (ChatView { encoding, phase: ChatPhase::Open, buffer: seq![] }),
    {
        ChatPump { encoding, phase: ChatPhase::Open, buffer: LineBuffer::new() }
    }

    /// How far the chat has come.
    pub fn phase(&self) -> (phase: ChatPhase)
        ensures
            phase == self@.phase,
    {
        self.phase
    }

    fn end(&mut self, result: Result<(), DccError>) -> (actions: Vec<ChatAction>)
        ensures
            final(self)@ == (ChatView { phase: ChatPhase::Ended, ..old(self)@ }),
            views::views(actions@) == seq![ChatAction::Finish(result)@],
    {
        self.phase = ChatPhase::Ended;
        let actions = vec![ChatAction::Finish(result)];
        assert(views::views(actions@) =~= seq![ChatAction::Finish(result)@]);
        actions
    }

    fn received(&mut self, data: &Vec<u8>) -> (actions: Vec<ChatAction>)
        ensures
            (final(self)@, views::views(actions@)) == chat_received(old(self)@, data@),
    {
        if data.len() == 0 {
            return self.end(Ok(()));
        }
        self.buffer.extend(data.as_slice());
        if self.buffer.len() > MAX_RECEIVE_BUFFER {
            return self.end(Err(DccError::BufferOverflow));
        }
        let lines = self.buffer.take_lines(self.encoding);
        let ghost reported = codec::framing(old(self)@.buffer + data@).lines;
        let mut actions: Vec<ChatAction> = Vec::new();
        for text in it: lines
            invariant
                it.seq() == lines@,
                lines@.len() == reported.len(),
                forall|i: int|
                    0 <= i < lines@.len() ==> (#[trigger] lines@[i])@ == codec::decoded(
                        self.encoding,
                        reported[i],
                    ),
                actions@.len() == it.index(),
                forall|i: int|
                    0 <= i < actions@.len() ==> (#[trigger] actions@[i])@ == chat_lines(
                        self.encoding,
                        reported,
                    )[i],
        {
            actions.push(ChatAction::Emit(DccEvent::Line { text }));
        }
        assert(views::views(actions@) =~= chat_lines(self.encoding, reported));
        actions
    }

    /// Takes the chat one step on, and says what is to be done.
    pub fn step(&mut self, input: ChatInput) -> (actions: Vec<ChatAction>)
        ensures
            (final(self)@, views::views(actions@)) == chat_step(old(self)@, input@),
    {
        match (self.phase, input) {
            (ChatPhase::Open, ChatInput::Received(data)) => self.received(&data),
            (ChatPhase::Open, ChatInput::ReadFailed(reason)) => self.end(Err(DccError::Io(reason))),
            (ChatPhase::Open, ChatInput::Command(Some(DccCommand::SendLine(text)))) => {
                self.phase = ChatPhase::Writing;
                let actions = vec![ChatAction::Write(chat_line(text.as_str()))];
                assert(views::views(actions@) =~= chat_step(old(self)@, input@).1);
                actions
            },
            (ChatPhase::Open, ChatInput::Command(_)) => self.end(Ok(())),
            (ChatPhase::Writing, ChatInput::Wrote) => {
                self.phase = ChatPhase::Open;
                let actions: Vec<ChatAction> = Vec::new();
                assert(views::views(actions@) =~= seq![]);
                actions
            },
            (ChatPhase::Writing, ChatInput::WriteFailed(reason)) => self.end(
                Err(DccError::Io(reason)),
            ),
            _ => {
                let actions: Vec<ChatAction> = Vec::new();
                assert(views::views(actions@) =~= seq![]);
                actions
            },
        }
    }
}

// ---------------------------------------------------------------------------
// Laws

/// A chat after these inputs, and everything that was to be done, in order.
pub open spec fn chat_run(chat: ChatView, inputs: Seq<ChatInputView>) -> (
    ChatView,
    Seq<ChatActionView>,
)
    decreases inputs.len(),
{
    if inputs.len() == 0 {
        (chat, seq![])
    } else {
        let (before, done) = chat_run(chat, inputs.drop_last());
        let (after, actions) = chat_step(before, inputs.last());
        (after, done + actions)
    }
}

/// A chat ends once: its end is the last thing that is done, and comes as soon as
/// the chat is over.
pub proof fn a_chat_ends_once(chat: ChatView, inputs: Seq<ChatInputView>)
    requires
        !(chat.phase is Ended),
    ensures
        ({
            let (after, done) = chat_run(chat, inputs);
            &&& forall|i: int|
                0 <= i < done.len() && #[trigger] done[i] is Finish ==> i == done.len() - 1
            &&& after.phase is Ended <==> done.len() > 0 && done.last() is Finish
        }),
    decreases inputs.len(),
{
    if inputs.len() > 0 {
        a_chat_ends_once(chat, inputs.drop_last());
    }
}

/// A chat says nothing of its own: it reports only lines, and only those that
/// came in; it writes only for a command, and what it writes is one line, that
/// of the command.
pub proof fn a_chat_hands_lines_on(chat: ChatView, input: ChatInputView, action: ChatActionView)
    requires
        chat_step(chat, input).1.contains(action),
    ensures
        match action {
            ChatActionView::Emit(event) => input is Received && event is Line,
            ChatActionView::Write(bytes) => (input matches ChatInputView::Command(
                Some(DccCommandView::SendLine(text)),
            ) && bytes == codec::wire(text, codec::chat_terminator())) && codec::framing(
                bytes,
            ).lines.len() <= 1 && codec::framing(bytes).pending.len() == 0,
            ChatActionView::Finish(_) => chat_step(chat, input).0.phase is Ended,
        },
{
    let actions = chat_step(chat, input).1;
    let i = choose|i: int| 0 <= i < actions.len() && actions[i] == action;
    assert(actions[i] == action);
    if let ChatInputView::Command(Some(DccCommandView::SendLine(text))) = input {
        codec::nothing_can_be_injected(text, codec::chat_terminator());
    }
}

/// Chunks of bytes, each as it is received.
pub open spec fn chat_reads(chunks: Seq<Seq<u8>>) -> Seq<ChatInputView> {
    Seq::new(chunks.len(), |i: int| ChatInputView::Received(chunks[i]))
}

/// Every line that the peer completes is reported, in order and once, however
/// its bytes are cut into chunks, and nothing else is done, for as long as no
/// line together with the chunk that follows it is longer than may be buffered.
pub proof fn every_line_of_chat_is_reported(chat: ChatView, chunks: Seq<Seq<u8>>)
    requires
        chat.phase is Open,
        chat.buffer.len() == 0,
        forall|i: int|
            0 <= i < chunks.len() ==> (#[trigger] chunks[i]).len() > 0 && codec::framing(
                codec::joined(chunks.take(i)),
            ).pending.len() + chunks[i].len() <= MAX_RECEIVE_BUFFER,
    ensures
        chat_run(chat, chat_reads(chunks)) == (
            ChatView { buffer: codec::framing(codec::joined(chunks)).pending, ..chat },
            chat_lines(chat.encoding, codec::framing(codec::joined(chunks)).lines),
        ),
    decreases chunks.len(),
{
    let inputs = chat_reads(chunks);
    if chunks.len() == 0 {
        assert(chat.buffer =~= seq![]);
        assert(chat_lines(chat.encoding, codec::framing(codec::joined(chunks)).lines) =~= seq![]);
    } else {
        let shorter = chunks.drop_last();
        assert forall|i: int| 0 <= i < shorter.len() implies (#[trigger] shorter[i]).len() > 0
            && codec::framing(codec::joined(shorter.take(i))).pending.len() + shorter[i].len()
            <= MAX_RECEIVE_BUFFER by {
            assert(shorter.take(i) =~= chunks.take(i));
            assert(shorter[i] == chunks[i]);
        }
        every_line_of_chat_is_reported(chat, shorter);
        assert(inputs.drop_last() =~= chat_reads(shorter));
        assert(chunks.take(chunks.len() - 1) =~= shorter);
        assert(chunks[chunks.len() - 1].len() > 0);
        codec::lines_do_not_depend_on_chunks(codec::joined(shorter), chunks.last());
        assert(chat_run(chat, inputs).1 =~= chat_lines(
            chat.encoding,
            codec::framing(codec::joined(chunks)).lines,
        ));
    }
}

/// A peer that never ends its line cannot make the buffer grow without bound:
/// for as long as the chat lasts, no more than the limit is held, and no complete
/// line among it.
pub proof fn the_chat_buffer_is_bounded(encoding: Encoding, inputs: Seq<ChatInputView>)
    ensures
        ({
            let after = chat_run(
                ChatView { encoding, phase: ChatPhase::Open, buffer: seq![] },
                inputs,
            ).0;
            !(after.phase is Ended) ==> after.buffer.len() <= MAX_RECEIVE_BUFFER
                && !after.buffer.contains(codec::LF)
        }),
    decreases inputs.len(),
{
    let new = ChatView { encoding, phase: ChatPhase::Open, buffer: seq![] };
    if inputs.len() > 0 {
        the_chat_buffer_is_bounded(encoding, inputs.drop_last());
        let before = chat_run(new, inputs.drop_last()).0;
        if let ChatInputView::Received(data) = inputs.last() {
            codec::pending_holds_no_line(before.buffer + data);
            codec::pending_is_a_part(before.buffer + data);
        }
    }
}

/// What a chat is told and what it says are taken for what they are.
pub proof fn chat_inputs_and_actions_say_what_they_are(input: ChatInput, action: ChatAction)
    ensures
        match input {
            ChatInput::Received(data) => input@ == ChatInputView::Received(data@),
            ChatInput::ReadFailed(reason) => input@ == ChatInputView::ReadFailed(reason@),
            ChatInput::Command(Some(command)) => input@ == ChatInputView::Command(Some(command@)),
            ChatInput::Command(None) => input@ == ChatInputView::Command(None),
            ChatInput::Wrote => input@ == ChatInputView::Wrote,
            ChatInput::WriteFailed(reason) => input@ == ChatInputView::WriteFailed(reason@),
        },
        match action {
            ChatAction::Emit(event) => action@ == ChatActionView::Emit(event@),
            ChatAction::Write(bytes) => action@ == ChatActionView::Write(bytes@),
            ChatAction::Finish(Ok(())) => action@ == ChatActionView::Finish(Ok(())),
            ChatAction::Finish(Err(error)) => action@ == ChatActionView::Finish(Err(error@)),
        },
{
}

/// Bytes that come in are held until they complete a line, and every line that they
/// complete is reported, in order, and nothing else. The peer's goodbye ends the chat
/// well; more than two mebibytes that would have to be held end it with an error.
pub proof fn what_comes_in_is_reported(chat: ChatView, data: Seq<u8>)
    requires
        chat.phase is Open,
    ensures
        ({
            let (after, actions) = chat_step(chat, ChatInputView::Received(data));
            let held = chat.buffer + data;
            let lines = codec::framing(held).lines;
            &&& data.len() == 0 ==> after == (ChatView { phase: ChatPhase::Ended, ..chat })
                && actions == seq![ChatActionView::Finish(Ok(()))]
            &&& data.len() > 0 && held.len() > 2_097_152 ==> after.phase is Ended && actions
                == seq![ChatActionView::Finish(Err(DccErrorView::BufferOverflow))]
            &&& data.len() > 0 && held.len() <= 2_097_152 ==> {
                &&& after == (ChatView { buffer: codec::framing(held).pending, ..chat })
                &&& actions.len() == lines.len()
                &&& forall|i: int|
                    0 <= i < lines.len() ==> #[trigger] actions[i] == ChatActionView::Emit(
                        DccEventView::Line { text: codec::decoded(chat.encoding, lines[i]) },
                    )
            }
        }),
{
}

/// Bytes that are one line have it reported, and are not held.
proof fn lemma_one_line_reported(chat: ChatView, data: Seq<u8>, bytes: Seq<u8>, text: Seq<char>)
    requires
        chat.phase is Open,
        chat.buffer.len() == 0,
        0 < data.len() <= 2_097_152,
        codec::framing(data).lines == seq![bytes],
        codec::framing(data).pending.len() == 0,
        codec::decoded(chat.encoding, bytes) == text,
    ensures
        chat_step(chat, ChatInputView::Received(data)) == (
            chat,
            seq![ChatActionView::Emit(DccEventView::Line { text })],
        ),
{
    assert(chat.buffer + data =~= data);
    assert(codec::framing(data).pending =~= chat.buffer);
    assert(chat_step(chat, ChatInputView::Received(data)).1 =~= seq![
        ChatActionView::Emit(DccEventView::Line { text }),
    ]);
}

/// What one side of a chat says, the other hears: a line that is given is written in
/// UTF-8 with `\n` after it, and the peer reports it as it was given.
pub proof fn what_is_said_is_heard(sender: ChatView, receiver: ChatView, text: Seq<char>)
    requires
        sender.phase is Open,
        receiver.phase is Open,
        receiver.encoding is Utf8,
        receiver.buffer.len() == 0,
        text.len() > 0,
        !text.contains('\r') && !text.contains('\n'),
        vstd::utf8::encode_utf8(text).len() + 1 <= 2_097_152,
    ensures
        ({
            let said = ChatInputView::Command(Some(DccCommandView::SendLine(text)));
            let actions = chat_step(sender, said).1;
            &&& actions.len() == 1
            &&& actions[0] matches ChatActionView::Write(bytes) && chat_step(
                receiver,
                ChatInputView::Received(bytes),
            ) == (receiver, seq![ChatActionView::Emit(DccEventView::Line { text })])
        }),
{
    let bytes = vstd::utf8::encode_utf8(text);
    codec::a_text_goes_out_as_it_is(text);
    codec::a_line_of_text_is_read_back(text);
    lemma_one_line_reported(receiver, bytes + seq![0x0Au8], bytes, text);
}

/// A line that is given is written as it is, but for its carriage returns and line
/// feeds, with `\n` after it; once it is written, the chat is open again, and where it
/// cannot be, the chat ends with the reason. Nothing is reported of it.
pub proof fn a_given_line_is_written(chat: ChatView, text: Seq<char>, reason: Seq<char>)
    requires
        chat.phase is Open,
    ensures
        ({
            let kept = text.filter(|c: char| c != '\r' && c != '\n');
            let said = ChatInputView::Command(Some(DccCommandView::SendLine(text)));
            let (writing, actions) = chat_step(chat, said);
            &&& actions == seq![
                ChatActionView::Write(vstd::utf8::encode_utf8(kept) + seq![0x0Au8]),
            ]
            &&& writing.phase is Writing
            &&& chat_step(writing, ChatInputView::Wrote) == (chat, Seq::<ChatActionView>::empty())
            &&& chat_step(writing, ChatInputView::WriteFailed(reason)) == (
                ChatView { phase: ChatPhase::Ended, ..chat },
                seq![ChatActionView::Finish(Err(DccErrorView::Io(reason)))],
            )
        }),
{
    codec::a_text_goes_out_as_it_is(text);
}

/// A chat that its owner ends, or has no owner left, ends well; one that cannot be
/// read from or written to ends with the reason.
pub proof fn a_chat_ends_as_it_went(chat: ChatView, reason: Seq<char>)
    ensures
        ({
            let over = ChatView { phase: ChatPhase::Ended, ..chat };
            let well = (over, seq![ChatActionView::Finish(Ok(()))]);
            let failed = (over, seq![ChatActionView::Finish(Err(DccErrorView::Io(reason)))]);
            &&& chat.phase is Open ==> {
                &&& chat_step(chat, ChatInputView::Command(Some(DccCommandView::Close))) == well
                &&& chat_step(chat, ChatInputView::Command(None)) == well
                &&& chat_step(chat, ChatInputView::ReadFailed(reason)) == failed
            }
            &&& chat.phase is Writing ==> chat_step(chat, ChatInputView::WriteFailed(reason))
                == failed
        }),
{
}

/// What does not belong to how far a chat has come changes nothing.
pub proof fn what_is_out_of_order_changes_nothing(chat: ChatView, input: ChatInputView)
    requires
        match chat.phase {
            ChatPhase::Open => input is Wrote || input is WriteFailed,
            ChatPhase::Writing => !(input is Wrote) && !(input is WriteFailed),
            ChatPhase::Ended => true,
        },
    ensures
        chat_step(chat, input) == (chat, Seq::<ChatActionView>::empty()),
{
}

} // verus!
