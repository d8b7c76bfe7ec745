//! DCC SEND and GET: the byte pumps of a file transfer.
//!
//! The sender streams the file; the receiver answers each chunk with the running
//! total in four bytes, big-endian. Current clients take these acknowledgements
//! as advice, but old ones stall without them, so the receiver always sends them
//! and the sender reads them to bound how far ahead it runs.
//!
//! The counter has 32 bits and wraps at 4 GiB. That is the protocol, so an
//! acknowledgement is read as the largest total that it can stand for; one of more
//! than was sent is taken at its word. It serves for flow control alone: whether a
//! transfer is complete is decided by the bytes that were moved.
use vstd::prelude::*;

use crate::dcc::{DccError, DccErrorView, DccEvent, DccEventView};
use crate::views;

verus! {

/// How many bytes of a file to move at a time.
pub const CHUNK: usize = 65_536;

/// How far the sender may run ahead of the last acknowledged byte, so that a
/// receiver that stops acknowledging cannot have the whole file in flight.
pub const SEND_AHEAD_WINDOW: u64 = 1_048_576;

/// How many bytes at least lie between two reports of progress, so that a fast
/// transfer does not flood its listener.
pub const PROGRESS_INTERVAL: u64 = 262_144;

/// How long the sender waits for the last acknowledgement, in seconds. The bytes
/// are delivered by then, so a transfer that runs out of it is still complete.
pub const FINAL_ACK_TIMEOUT_SECS: u64 = 30;

// ---------------------------------------------------------------------------
// Acknowledgements

/// The four bytes of an acknowledgement: the running total, of which 32 bits are
/// kept, in big-endian order.
pub open spec fn ack_bytes(total: nat) -> Seq<u8> {
    seq![
        (total / 0x100_0000 % 0x100) as u8,
        (total / 0x1_0000 % 0x100) as u8,
        (total / 0x100 % 0x100) as u8,
        (total % 0x100) as u8,
    ]
}

/// The number that four bytes say.
pub open spec fn ack_value(bytes: Seq<u8>) -> nat {
    (bytes[0] * 0x100_0000 + bytes[1] * 0x1_0000 + bytes[2] * 0x100 + bytes[3]) as nat
}

/// Writes an acknowledgement of a running total.
pub fn encode_ack(total: u64) -> (bytes: [u8; 4])
    ensures
        bytes@ == ack_bytes(total as nat),
{
    let bytes = [
        (total / 0x100_0000 % 0x100) as u8,
        (total / 0x1_0000 % 0x100) as u8,
        (total / 0x100 % 0x100) as u8,
        (total % 0x100) as u8,
    ];
    assert(bytes@ =~= ack_bytes(total as nat));
    bytes
}

/// Reads an acknowledgement.
pub fn decode_ack(bytes: [u8; 4]) -> (value: u64)
    ensures
        value == ack_value(bytes@),
        value <= u32::MAX,
{
    bytes[0] as u64 * 0x100_0000 + bytes[1] as u64 * 0x1_0000 + bytes[2] as u64 * 0x100
        + bytes[3] as u64
}

/// The sender reads what the receiver wrote: the running total, without what is
/// above 32 bits.
pub proof fn acknowledged_total_is_read_back(total: nat)
    ensures
        ack_bytes(total).len() == 4,
        ack_value(ack_bytes(total)) == total % 0x1_0000_0000,
{
    let t1 = total / 0x100;
    let t2 = t1 / 0x100;
    let t3 = t2 / 0x100;
    let rest = (t3 % 0x100) * 0x100_0000 + (t2 % 0x100) * 0x1_0000 + (t1 % 0x100) * 0x100 + total
        % 0x100;
    assert(t2 == total / 0x1_0000 && t3 == total / 0x100_0000);
    assert(total == (t3 / 0x100) * 0x1_0000_0000 + rest);
    assert(total % 0x1_0000_0000 == rest);
    assert(ack_value(ack_bytes(total)) == rest);
}

// ---------------------------------------------------------------------------
// Sending

/// What happened to the file that is sent.
#[derive(Debug)]
pub enum SendInput {
    /// These bytes were read from the file; none at its end.
    FileRead(Vec<u8>),
    /// The chunk is written to the peer.
    Wrote,
    /// The peer acknowledged.
    Ack([u8; 4]),
    /// Everything is flushed to the peer.
    Flushed,
    /// The last acknowledgement did not come in time.
    AckTimedOut,
    /// Reading or writing failed, for this reason.
    Failed(String),
}

/// What an input says.
pub enum SendInputView {
    FileRead(Seq<u8>),
    Wrote,
    Ack(Seq<u8>),
    Flushed,
    AckTimedOut,
    Failed(Seq<char>),
}

impl View for SendInput {
    type V = SendInputView;

    open spec fn view(&self) -> SendInputView {
        match self {
            SendInput::FileRead(chunk) => SendInputView::FileRead(chunk@),
            SendInput::Wrote => SendInputView::Wrote,
            SendInput::Ack(bytes) => SendInputView::Ack(bytes@),
            SendInput::Flushed => SendInputView::Flushed,
            SendInput::AckTimedOut => SendInputView::AckTimedOut,
            SendInput::Failed(reason) => SendInputView::Failed(reason@),
        }
    }
}

/// What is to be done next, in order.
#[derive(Debug)]
pub enum SendAction {
    /// Read a chunk of the file; answer with `FileRead` or `Failed`.
    ReadFile,
    /// Write these bytes to the peer; answer with `Wrote` or `Failed`.
    WriteChunk(Vec<u8>),
    /// Read an acknowledgement; answer with `Ack` or `Failed`.
    ReadAck,
    /// Flush everything to the peer; answer with `Flushed` or `Failed`.
    Flush,
    /// Read an acknowledgement, until the time for the last one is over; answer
    /// with `Ack`, `AckTimedOut` or `Failed`.
    ReadFinalAck,
    /// Shut the socket down, whatever comes of it.
    Shutdown,
    /// Report an event.
    Emit(DccEvent),
    /// The transfer is over, with an error or without.
    Finish(Result<(), DccError>),
}

/// What an action says.
pub enum SendActionView {
    ReadFile,
    WriteChunk(Seq<u8>),
    ReadAck,
    Flush,
    ReadFinalAck,
    Shutdown,
    Emit(DccEventView),
    Finish(Result<(), DccErrorView>),
}

impl View for SendAction {
    type V = SendActionView;

    open spec fn view(&self) -> SendActionView {
        match self {
            SendAction::ReadFile => SendActionView::ReadFile,
            SendAction::WriteChunk(chunk) => SendActionView::WriteChunk(chunk@),
            SendAction::ReadAck => SendActionView::ReadAck,
            SendAction::Flush => SendActionView::Flush,
            SendAction::ReadFinalAck => SendActionView::ReadFinalAck,
            SendAction::Shutdown => SendActionView::Shutdown,
            SendAction::Emit(event) => SendActionView::Emit(event@),
            SendAction::Finish(Ok(())) => SendActionView::Finish(Ok(())),
            SendAction::Finish(Err(error)) => SendActionView::Finish(Err(error@)),
        }
    }
}

/// How far sending has come.
enum Sending {
    Reading,
    Writing(u64),
    AwaitingAck(Vec<u8>),
    Flushing,
    AwaitingFinalAck,
    Done,
}

/// How far sending has come.
pub enum SendPhase {
    /// The file is being read.
    Reading,
    /// A chunk of so many bytes is being written.
    Writing(nat),
    /// A chunk is read and would be too much in flight: an acknowledgement is being
    /// waited for.
    AwaitingAck(Seq<u8>),
    /// The file has been read to its end, and what was written is being flushed.
    Flushing,
    /// The last acknowledgement is being waited for.
    AwaitingFinalAck,
    /// The transfer is over.
    Done,
}

impl View for Sending {
    type V = SendPhase;

    closed spec fn view(&self) -> SendPhase {
        match self {
            Sending::Reading => SendPhase::Reading,
            Sending::Writing(n) => SendPhase::Writing(*n as nat),
            Sending::AwaitingAck(chunk) => SendPhase::AwaitingAck(chunk@),
            Sending::Flushing => SendPhase::Flushing,
            Sending::AwaitingFinalAck => SendPhase::AwaitingFinalAck,
            Sending::Done => SendPhase::Done,
        }
    }
}

/// What a sender decides by.
pub struct SendView {
    /// How long the file was when sending began.
    pub total: nat,
    /// How many bytes are written.
    pub sent: nat,
    /// The highest total acknowledged.
    pub acked: nat,
    /// How many bytes had been written at the last report.
    pub last_reported: nat,
    pub phase: SendPhase,
}

impl SendView {
    /// What holds of every sender: in particular, that what is written and not
    /// acknowledged fits the window, and so does the chunk that is being written, and
    /// that it waits for the last acknowledgement only with the whole file written.
    pub open spec fn wf(self) -> bool {
        &&& self.total <= u64::MAX
        &&& self.sent <= u64::MAX
        &&& self.acked <= u64::MAX
        &&& self.sent <= self.acked + SEND_AHEAD_WINDOW
        &&& self.last_reported <= self.sent
        &&& self.phase matches SendPhase::Writing(n) ==> n > 0 && self.sent + n <= u64::MAX
            && fits(self, n)
        &&& self.phase matches SendPhase::AwaitingAck(chunk) ==> chunk.len() > 0 && self.sent
            + chunk.len() <= u64::MAX && !fits(self, chunk.len())
        &&& self.phase is AwaitingFinalAck ==> self.sent == self.total && self.acked < self.total
            <= u32::MAX
    }

    /// Whether a step can count the bytes that it is given.
    pub open spec fn can_count(self, input: SendInputView) -> bool {
        input matches SendInputView::FileRead(chunk) ==> self.sent + chunk.len() <= u64::MAX
    }
}

/// A sender that begins.
pub open spec fn new_sender(total: nat) -> SendView {
    SendView { total, sent: 0, acked: 0, last_reported: 0, phase: SendPhase::Reading }
}

/// A sender that is over.
pub open spec fn sender_done(sender: SendView) -> SendView {
    SendView { phase: SendPhase::Done, ..sender }
}

/// A report of progress.
pub open spec fn send_progress(transferred: nat) -> SendActionView {
    SendActionView::Emit(DccEventView::Progress { transferred })
}

/// Whether a chunk of so many bytes can be written with no more in flight than the
/// window holds.
pub open spec fn fits(sender: SendView, n: nat) -> bool {
    sender.sent + n <= sender.acked + SEND_AHEAD_WINDOW
}

/// What follows when a chunk is read, or an acknowledgement comes for which it
/// waited: it is written, if it fits the window.
pub open spec fn chunk_ready(sender: SendView, chunk: Seq<u8>) -> (SendView, Seq<SendActionView>) {
    if fits(sender, chunk.len()) {
        (
            SendView { phase: SendPhase::Writing(chunk.len()), ..sender },
            seq![SendActionView::WriteChunk(chunk)],
        )
    } else {
        (
            SendView { phase: SendPhase::AwaitingAck(chunk), ..sender },
            seq![SendActionView::ReadAck],
        )
    }
}

/// The total that an acknowledgement stands for: the largest one up to what was
/// sent whose low 32 bits it says. Where it says more than was sent, there is none,
/// and it is taken at its word.
pub open spec fn acked_total(value: nat, sent: nat) -> nat {
    if value <= sent {
        (sent - (sent - value) % 0x1_0000_0000) as nat
    } else {
        value
    }
}

/// The sender with an acknowledgement counted. A lower total than the highest so
/// far changes nothing.
pub open spec fn acknowledged(sender: SendView, bytes: Seq<u8>) -> SendView {
    let total = acked_total(ack_value(bytes), sender.sent);
    if total > sender.acked {
        SendView { acked: total, ..sender }
    } else {
        sender
    }
}

/// Whether the last report is still to be made: there is one even where there was
/// nothing to move.
pub open spec fn is_report_due(moved: nat, last_reported: nat) -> bool {
    moved != last_reported || moved == 0
}

/// The file is delivered.
pub open spec fn delivered(sender: SendView) -> (SendView, Seq<SendActionView>) {
    (
        sender_done(sender),
        if is_report_due(sender.sent, sender.last_reported) {
            seq![
                SendActionView::Shutdown,
                send_progress(sender.sent),
                SendActionView::Finish(Ok(())),
            ]
        } else {
            seq![SendActionView::Shutdown, SendActionView::Finish(Ok(()))]
        },
    )
}

/// What follows once the whole file is written: the wait for the last
/// acknowledgement, if it is still to come and can be told from another.
pub open spec fn awaiting_final_ack(sender: SendView) -> (SendView, Seq<SendActionView>) {
    if sender.total <= u32::MAX && sender.acked < sender.total {
        (
            SendView { phase: SendPhase::AwaitingFinalAck, ..sender },
            seq![SendActionView::ReadFinalAck],
        )
    } else {
        delivered(sender)
    }
}

/// A chunk is written. It is reported if enough was written since the last
/// report, or everything was.
pub open spec fn chunk_written(sender: SendView, n: nat) -> (SendView, Seq<SendActionView>) {
    let sent = sender.sent + n;
    let next = SendView { sent, phase: SendPhase::Reading, ..sender };
    if sent - sender.last_reported >= PROGRESS_INTERVAL || sent == sender.total {
        (
            SendView { last_reported: sent, ..next },
            seq![send_progress(sent), SendActionView::ReadFile],
        )
    } else {
        (next, seq![SendActionView::ReadFile])
    }
}

/// One step of sending. What cannot happen in a phase changes nothing.
pub open spec fn send_step(sender: SendView, input: SendInputView) -> (
    SendView,
    Seq<SendActionView>,
) {
    match (sender.phase, input) {
        (SendPhase::Reading, SendInputView::FileRead(chunk)) => if chunk.len() == 0 {
            (SendView { phase: SendPhase::Flushing, ..sender }, seq![SendActionView::Flush])
        } else {
            chunk_ready(sender, chunk)
        },
        (SendPhase::Writing(n), SendInputView::Wrote) => chunk_written(sender, n),
        (SendPhase::AwaitingAck(chunk), SendInputView::Ack(bytes)) => chunk_ready(
            acknowledged(sender, bytes),
            chunk,
        ),
        (SendPhase::Flushing, SendInputView::Flushed) => if sender.sent != sender.total {
            (
                sender_done(sender),
                seq![
                    SendActionView::Finish(
                        Err(
                            DccErrorView::SizeMismatch {
                                expected: sender.total,
                                actual: sender.sent,
                            },
                        ),
                    ),
                ],
            )
        } else {
            awaiting_final_ack(sender)
        },
        (SendPhase::AwaitingFinalAck, SendInputView::Ack(bytes)) => awaiting_final_ack(
            acknowledged(sender, bytes),
        ),
        (SendPhase::AwaitingFinalAck, SendInputView::AckTimedOut) => delivered(sender),
        (SendPhase::AwaitingFinalAck, SendInputView::Failed(_)) => delivered(sender),
        (SendPhase::Done, _) => (sender, seq![]),
        (_, SendInputView::Failed(reason)) => (
            sender_done(sender),
            seq![SendActionView::Finish(Err(DccErrorView::Io(reason)))],
        ),
        _ => (sender, seq![]),
    }
}

/// The decisions of sending one file.
pub struct SendPump {
    total: u64,
    sent: u64,
    acked: u64,
    last_reported: u64,
    phase: Sending,
}

impl View for SendPump {
    type V = SendView;

    closed spec fn view(&self) -> SendView {
        SendView {
            total: self.total as nat,
            sent: self.sent as nat,
            acked: self.acked as nat,
            last_reported: self.last_reported as nat,
            phase: self.phase@,
        }
    }
}

impl SendPump {
    /// Begins to send a file of the given length. The first thing to do is to
    /// read a chunk of it.
    pub fn new(total: u64) -> (sender: Self)
        ensures
            sender@ == new_sender(total as nat),
            sender@.wf(),
    {
        SendPump { total, sent: 0, acked: 0, last_reported: 0, phase: Sending::Reading }
    }

    /// How many bytes are written.
    pub fn sent(&self) -> (sent: u64)
        ensures
            sent == self@.sent,
    {
        self.sent
    }

    fn ready(&mut self, chunk: Vec<u8>) -> (actions: Vec<SendAction>)
        requires
            old(self)@.sent + chunk@.len() <= u64::MAX,
        ensures
            (final(self)@, views::views(actions@)) == chunk_ready(old(self)@, chunk@),
    {
        let mut actions: Vec<SendAction> = Vec::new();
        let after: u64 = self.sent + chunk.len() as u64;
        if after <= self.acked || after - self.acked <= SEND_AHEAD_WINDOW {
            self.phase = Sending::Writing(chunk.len() as u64);
            actions.push(SendAction::WriteChunk(chunk));
        } else {
            self.phase = Sending::AwaitingAck(chunk);
            actions.push(SendAction::ReadAck);
        }
        assert(views::views(actions@) =~= chunk_ready(old(self)@, chunk@).1);
        actions
    }

    fn acknowledge(&mut self, bytes: [u8; 4])
        ensures
            final(self)@ == acknowledged(old(self)@, bytes@),
    {
        let value: u64 = decode_ack(bytes);
        let total: u64 = if value <= self.sent {
            self.sent - (self.sent - value) % 0x1_0000_0000
        } else {
            value
        };
        if total > self.acked {
            self.acked = total;
        }
    }

    fn deliver(&mut self) -> (actions: Vec<SendAction>)
        ensures
            (final(self)@, views::views(actions@)) == delivered(old(self)@),
    {
        self.phase = Sending::Done;
        let mut actions = vec![SendAction::Shutdown];
        if self.sent != self.last_reported || self.sent == 0 {
            actions.push(SendAction::Emit(DccEvent::Progress { transferred: self.sent }));
        }
        actions.push(SendAction::Finish(Ok(())));
        assert(views::views(actions@) =~= delivered(old(self)@).1);
        actions
    }

    fn await_final_ack(&mut self) -> (actions: Vec<SendAction>)
        ensures
            (final(self)@, views::views(actions@)) == awaiting_final_ack(old(self)@),
    {
        if self.total <= 0xFFFF_FFFF && self.acked < self.total {
            self.phase = Sending::AwaitingFinalAck;
            let actions = vec![SendAction::ReadFinalAck];
            assert(views::views(actions@) =~= awaiting_final_ack(old(self)@).1);
            actions
        } else {
            self.deliver()
        }
    }

    fn fail(&mut self, error: DccError) -> (actions: Vec<SendAction>)
        ensures
            final(self)@ == sender_done(old(self)@),
            views::views(actions@) == seq![SendActionView::Finish(Err(error@))],
    {
        self.phase = Sending::Done;
        let actions = vec![SendAction::Finish(Err(error))];
        assert(views::views(actions@) =~= seq![SendActionView::Finish(Err(error@))]);
        actions
    }

    fn wrote(&mut self, n: u64) -> (actions: Vec<SendAction>)
        requires
            old(self)@.last_reported <= old(self)@.sent,
            old(self)@.sent + n <= u64::MAX,
        ensures
            (final(self)@, views::views(actions@)) == chunk_written(old(self)@, n as nat),
    {
        let mut actions: Vec<SendAction> = Vec::new();
        self.phase = Sending::Reading;
        self.sent = self.sent + n;
        if self.sent - self.last_reported >= PROGRESS_INTERVAL || self.sent == self.total {
            self.last_reported = self.sent;
            actions.push(SendAction::Emit(DccEvent::Progress { transferred: self.sent }));
        }
        actions.push(SendAction::ReadFile);
        assert(views::views(actions@) =~= chunk_written(old(self)@, n as nat).1);
        actions
    }

    /// Takes the transfer one step on, and says what is to be done.
    pub fn step(&mut self, input: SendInput) -> (actions: Vec<SendAction>)
        requires
            old(self)@.wf(),
            old(self)@.can_count(input@),
        ensures
            (final(self)@, views::views(actions@)) == send_step(old(self)@, input@),
            final(self)@.wf(),
    {
        match input {
            SendInput::FileRead(chunk) => if let Sending::Reading = self.phase {
                if chunk.len() > 0 {
                    return self.ready(chunk);
                }
                self.phase = Sending::Flushing;
                let actions = vec![SendAction::Flush];
                assert(views::views(actions@) =~= seq![SendActionView::Flush]);
                return actions;
            },
            SendInput::Wrote => if let Sending::Writing(n) = self.phase {
                return self.wrote(n);
            },
            SendInput::Ack(bytes) => match &self.phase {
                Sending::AwaitingAck(_) => {
                    self.acknowledge(bytes);
                    let mut phase = Sending::Reading;
                    core::mem::swap(&mut phase, &mut self.phase);
                    if let Sending::AwaitingAck(chunk) = phase {
                        return self.ready(chunk);
                    }
                },
                Sending::AwaitingFinalAck => {
                    self.acknowledge(bytes);
                    return self.await_final_ack();
                },
                _ => {},
            },
            SendInput::Flushed => if let Sending::Flushing = self.phase {
                if self.sent != self.total {
                    return self.fail(
                        DccError::SizeMismatch { expected: self.total, actual: self.sent },
                    );
                }
                return self.await_final_ack();
            },
            SendInput::AckTimedOut => if let Sending::AwaitingFinalAck = self.phase {
                return self.deliver();
            },
            SendInput::Failed(reason) => match &self.phase {
                Sending::AwaitingFinalAck => {
                    return self.deliver();
                },
                Sending::Done => {},
                _ => {
                    return self.fail(DccError::Io(reason));
                },
            },
        }
        let actions: Vec<SendAction> = Vec::new();
        assert(views::views(actions@) =~= seq![]);
        actions
    }
}

// ---------------------------------------------------------------------------
// Receiving

/// What happened to the file that is received.
#[derive(Debug)]
pub enum ReceiveInput {
    /// These bytes came from the peer; none, if it closed the connection.
    Read(Vec<u8>),
    /// The chunk is written to the file.
    Stored,
    /// The acknowledgement is written to the peer.
    Acked,
    /// The file is flushed and synchronised.
    Synced,
    /// Reading or writing failed, for this reason.
    Failed(String),
}

/// What an input says.
pub enum ReceiveInputView {
    Read(Seq<u8>),
    Stored,
    Acked,
    Synced,
    Failed(Seq<char>),
}

impl View for ReceiveInput {
    type V = ReceiveInputView;

    open spec fn view(&self) -> ReceiveInputView {
        match self {
            ReceiveInput::Read(chunk) => ReceiveInputView::Read(chunk@),
            ReceiveInput::Stored => ReceiveInputView::Stored,
            ReceiveInput::Acked => ReceiveInputView::Acked,
            ReceiveInput::Synced => ReceiveInputView::Synced,
            ReceiveInput::Failed(reason) => ReceiveInputView::Failed(reason@),
        }
    }
}

/// What is to be done next, in order.
#[derive(Debug)]
pub enum ReceiveAction {
    /// Read a chunk from the peer; answer with `Read` or `Failed`.
    Read,
    /// Write these bytes to the file; answer with `Stored` or `Failed`.
    Store(Vec<u8>),
    /// Write and flush these bytes to the peer; answer with `Acked` or `Failed`.
    Ack([u8; 4]),
    /// Flush and synchronise the file; answer with `Synced` or `Failed`.
    Sync,
    /// Flush the file, whatever comes of it.
    FlushFile,
    /// Remove the file, whatever comes of it.
    RemoveFile,
    /// Report an event.
    Emit(DccEvent),
    /// The transfer is over, with an error or without.
    Finish(Result<(), DccError>),
}

/// What an action says.
pub enum ReceiveActionView {
    Read,
    Store(Seq<u8>),
    Ack(Seq<u8>),
    Sync,
    FlushFile,
    RemoveFile,
    Emit(DccEventView),
    Finish(Result<(), DccErrorView>),
}

impl View for ReceiveAction {
    type V = ReceiveActionView;

    open spec fn view(&self) -> ReceiveActionView {
        match self {
            ReceiveAction::Read => ReceiveActionView::Read,
            ReceiveAction::Store(chunk) => ReceiveActionView::Store(chunk@),
            ReceiveAction::Ack(bytes) => ReceiveActionView::Ack(bytes@),
            ReceiveAction::Sync => ReceiveActionView::Sync,
            ReceiveAction::FlushFile => ReceiveActionView::FlushFile,
            ReceiveAction::RemoveFile => ReceiveActionView::RemoveFile,
            ReceiveAction::Emit(event) => ReceiveActionView::Emit(event@),
            ReceiveAction::Finish(Ok(())) => ReceiveActionView::Finish(Ok(())),
            ReceiveAction::Finish(Err(error)) => ReceiveActionView::Finish(Err(error@)),
        }
    }
}

/// How far receiving has come.
#[derive(Copy, Clone, Debug, PartialEq, Eq, Structural)]
pub enum ReceivePhase {
    /// A chunk is being waited for.
    Reading,
    /// A chunk is being written to the file.
    Storing,
    /// A chunk is stored and is being acknowledged.
    Acking,
    /// Nothing more will come, and the file is being synchronised.
    Syncing,
    /// The transfer is over.
    Done,
}

/// What a receiver decides by.
pub struct ReceiveView {
    /// The announced length, if one was announced.
    pub expected: Option<nat>,
    /// How many bytes came.
    pub received: nat,
    /// How many bytes had come at the last report.
    pub last_reported: nat,
    pub phase: ReceivePhase,
}

impl ReceiveView {
    /// What holds of every receiver: in particular, that until it is over no
    /// more has come than was announced.
    pub open spec fn wf(self) -> bool {
        &&& self.expected matches Some(total) ==> total <= u64::MAX
        &&& self.received <= u64::MAX
        &&& self.last_reported <= self.received
        &&& !(self.phase is Done) ==> (self.expected matches Some(total) ==> self.received
            <= total)
    }

    /// Whether a step can count the bytes that it is given.
    pub open spec fn can_count(self, input: ReceiveInputView) -> bool {
        input matches ReceiveInputView::Read(chunk) ==> self.received + chunk.len() <= u64::MAX
    }

    /// Whether the file holds all that it is to hold: all that was announced is
    /// stored, or, where nothing was announced, all that came until the peer closed
    /// the connection.
    pub open spec fn is_whole(self) -> bool {
        match self.phase {
            ReceivePhase::Acking => self.expected == Some(self.received),
            ReceivePhase::Syncing => self.expected matches Some(total) ==> self.received == total,
            _ => false,
        }
    }
}

/// A receiver that begins. An announced length of nothing is reached already.
pub open spec fn new_receiver(expected: Option<nat>) -> ReceiveView {
    ReceiveView {
        expected,
        received: 0,
        last_reported: 0,
        phase: if expected == Some(0nat) {
            ReceivePhase::Syncing
        } else {
            ReceivePhase::Reading
        },
    }
}

/// The first thing that a receiver does.
pub open spec fn first_receive_action(receiver: ReceiveView) -> ReceiveActionView {
    if receiver.phase is Syncing {
        ReceiveActionView::Sync
    } else {
        ReceiveActionView::Read
    }
}

/// A receiver that is over.
pub open spec fn receiver_done(receiver: ReceiveView) -> ReceiveView {
    ReceiveView { phase: ReceivePhase::Done, ..receiver }
}

/// A report of progress.
pub open spec fn receive_progress(transferred: nat) -> ReceiveActionView {
    ReceiveActionView::Emit(DccEventView::Progress { transferred })
}

/// The end of a transfer that is not as long as announced.
pub open spec fn size_mismatch(expected: nat, actual: nat) -> ReceiveActionView {
    ReceiveActionView::Finish(Err(DccErrorView::SizeMismatch { expected, actual }))
}

/// A chunk comes. It is stored, unless it goes beyond the announced length, which
/// ends the transfer and removes the file.
pub open spec fn chunk_received(receiver: ReceiveView, chunk: Seq<u8>) -> (
    ReceiveView,
    Seq<ReceiveActionView>,
) {
    let received = receiver.received + chunk.len();
    let counted = ReceiveView { received, ..receiver };
    match receiver.expected {
        Some(total) if received > total => (
            receiver_done(counted),
            seq![
                ReceiveActionView::FlushFile,
                ReceiveActionView::RemoveFile,
                size_mismatch(total, received),
            ],
        ),
        _ => (
            ReceiveView { phase: ReceivePhase::Storing, ..counted },
            seq![ReceiveActionView::Store(chunk)],
        ),
    }
}

/// A chunk is stored. It is acknowledged with the running total.
pub open spec fn chunk_stored(receiver: ReceiveView) -> (ReceiveView, Seq<ReceiveActionView>) {
    (
        ReceiveView { phase: ReceivePhase::Acking, ..receiver },
        seq![ReceiveActionView::Ack(ack_bytes(receiver.received))],
    )
}

/// A chunk is acknowledged. It is reported if enough came since the last report.
/// The announced length ends the transfer: a sender holds its socket open until it
/// has the last acknowledgement, so waiting for its end would never end.
pub open spec fn chunk_acknowledged(receiver: ReceiveView) -> (
    ReceiveView,
    Seq<ReceiveActionView>,
) {
    let due = receiver.received - receiver.last_reported >= PROGRESS_INTERVAL;
    let reported = if due {
        ReceiveView { last_reported: receiver.received, ..receiver }
    } else {
        receiver
    };
    let report = if due {
        seq![receive_progress(receiver.received)]
    } else {
        seq![]
    };
    if receiver.expected == Some(receiver.received) {
        (
            ReceiveView { phase: ReceivePhase::Syncing, ..reported },
            report.push(ReceiveActionView::Sync),
        )
    } else {
        (
            ReceiveView { phase: ReceivePhase::Reading, ..reported },
            report.push(ReceiveActionView::Read),
        )
    }
}

/// The file is synchronised. The transfer is complete, unless less came than was
/// announced, which removes the file. What came is reported, unless it was already.
pub open spec fn file_synced(receiver: ReceiveView) -> (ReceiveView, Seq<ReceiveActionView>) {
    match receiver.expected {
        Some(total) if receiver.received != total => (
            receiver_done(receiver),
            seq![ReceiveActionView::RemoveFile, size_mismatch(total, receiver.received)],
        ),
        _ => (
            receiver_done(receiver),
            if is_report_due(receiver.received, receiver.last_reported) {
                seq![receive_progress(receiver.received), ReceiveActionView::Finish(Ok(()))]
            } else {
                seq![ReceiveActionView::Finish(Ok(()))]
            },
        ),
    }
}

/// Something fails, for a reason. A file that is not whole is removed.
pub open spec fn receiving_failed(receiver: ReceiveView, reason: Seq<char>) -> (
    ReceiveView,
    Seq<ReceiveActionView>,
) {
    let failure = ReceiveActionView::Finish(Err(DccErrorView::Io(reason)));
    (
        receiver_done(receiver),
        if receiver.is_whole() {
            seq![failure]
        } else {
            seq![ReceiveActionView::RemoveFile, failure]
        },
    )
}

/// One step of receiving. What cannot happen in a phase changes nothing.
pub open spec fn receive_step(receiver: ReceiveView, input: ReceiveInputView) -> (
    ReceiveView,
    Seq<ReceiveActionView>,
) {
    match (receiver.phase, input) {
        (ReceivePhase::Reading, ReceiveInputView::Read(chunk)) => if chunk.len() == 0 {
            (
                ReceiveView { phase: ReceivePhase::Syncing, ..receiver },
                seq![ReceiveActionView::Sync],
            )
        } else {
            chunk_received(receiver, chunk)
        },
        (ReceivePhase::Storing, ReceiveInputView::Stored) => chunk_stored(receiver),
        (ReceivePhase::Acking, ReceiveInputView::Acked) => chunk_acknowledged(receiver),
        (ReceivePhase::Syncing, ReceiveInputView::Synced) => file_synced(receiver),
        (ReceivePhase::Done, _) => (receiver, seq![]),
        (_, ReceiveInputView::Failed(reason)) => receiving_failed(receiver, reason),
        _ => (receiver, seq![]),
    }
}

/// The decisions of receiving one file.
///
/// A transfer that ends early, for whatever reason, or that brings more than was
/// announced, fails, and takes its file with it: a file that looks complete and is
/// not would be worse than none. A file that is whole stays, even if it could not be
/// acknowledged or synchronised.
pub struct ReceivePump {
    expected: Option<u64>,
    received: u64,
    last_reported: u64,
    phase: ReceivePhase,
}

impl View for ReceivePump {
    type V = ReceiveView;

    closed spec fn view(&self) -> ReceiveView {
        ReceiveView {
            expected: match self.expected {
                Some(total) => Some(total as nat),
                None => None,
            },
            received: self.received as nat,
            last_reported: self.last_reported as nat,
            phase: self.phase,
        }
    }
}

impl ReceivePump {
    /// Begins to receive a file of the announced length, if one was announced.
    /// The first thing to do is [`Self::first_action`].
    pub fn new(expected: Option<u64>) -> (receiver: Self)
        ensures
            receiver@ == new_receiver(
                match expected {
                    Some(total) => Some(total as nat),
                    None => None,
                },
            ),
            receiver@.wf(),
    {
        let phase = match expected {
            Some(0) => ReceivePhase::Syncing,
            _ => ReceivePhase::Reading,
        };
        ReceivePump { expected, received: 0, last_reported: 0, phase }
    }

    /// The first thing to do: to read a chunk from the peer, or, where nothing is
    /// to come, to synchronise the file.
    pub fn first_action(&self) -> (action: ReceiveAction)
        ensures
            action@ == first_receive_action(self@),
    {
        match self.phase {
            ReceivePhase::Syncing => ReceiveAction::Sync,
            _ => ReceiveAction::Read,
        }
    }

    /// How many bytes came.
    pub fn received(&self) -> (received: u64)
        ensures
            received == self@.received,
    {
        self.received
    }

    /// Whether the file holds all that it is to hold.
    fn is_whole(&self) -> (whole: bool)
        ensures
            whole == self@.is_whole(),
    {
        match (self.phase, self.expected) {
            (ReceivePhase::Acking, Some(total)) => self.received == total,
            (ReceivePhase::Syncing, Some(total)) => self.received == total,
            (ReceivePhase::Syncing, None) => true,
            _ => false,
        }
    }

    /// Takes the transfer one step on, and says what is to be done.
    pub fn step(&mut self, input: ReceiveInput) -> (actions: Vec<ReceiveAction>)
        requires
            old(self)@.wf(),
            old(self)@.can_count(input@),
        ensures
            (final(self)@, views::views(actions@)) == receive_step(old(self)@, input@),
            final(self)@.wf(),
    {
        let mut actions: Vec<ReceiveAction> = Vec::new();
        match (self.phase, input) {
            (ReceivePhase::Reading, ReceiveInput::Read(chunk)) => {
                if chunk.len() == 0 {
                    self.phase = ReceivePhase::Syncing;
                    actions.push(ReceiveAction::Sync);
                } else {
                    self.received = self.received + chunk.len() as u64;
                    match self.expected {
                        Some(total) if self.received > total => {
                            self.phase = ReceivePhase::Done;
                            actions.push(ReceiveAction::FlushFile);
                            actions.push(ReceiveAction::RemoveFile);
                            actions.push(
                                ReceiveAction::Finish(
                                    Err(
                                        DccError::SizeMismatch {
                                            expected: total,
                                            actual: self.received,
                                        },
                                    ),
                                ),
                            );
                        },
                        _ => {
                            self.phase = ReceivePhase::Storing;
                            actions.push(ReceiveAction::Store(chunk));
                        },
                    }
                }
            },
            (ReceivePhase::Storing, ReceiveInput::Stored) => {
                self.phase = ReceivePhase::Acking;
                actions.push(ReceiveAction::Ack(encode_ack(self.received)));
            },
            (ReceivePhase::Acking, ReceiveInput::Acked) => {
                if self.received - self.last_reported >= PROGRESS_INTERVAL {
                    self.last_reported = self.received;
                    actions.push(
                        ReceiveAction::Emit(DccEvent::Progress { transferred: self.received }),
                    );
                }
                let complete = match self.expected {
                    Some(total) => total == self.received,
                    None => false,
                };
                if complete {
                    self.phase = ReceivePhase::Syncing;
                    actions.push(ReceiveAction::Sync);
                } else {
                    self.phase = ReceivePhase::Reading;
                    actions.push(ReceiveAction::Read);
                }
            },
            (ReceivePhase::Syncing, ReceiveInput::Synced) => {
                self.phase = ReceivePhase::Done;
                match self.expected {
                    Some(total) if self.received != total => {
                        actions.push(ReceiveAction::RemoveFile);
                        actions.push(
                            ReceiveAction::Finish(
                                Err(
                                    DccError::SizeMismatch {
                                        expected: total,
                                        actual: self.received,
                                    },
                                ),
                            ),
                        );
                    },
                    _ => {
                        if self.received != self.last_reported || self.received == 0 {
                            actions.push(
                                ReceiveAction::Emit(
                                    DccEvent::Progress { transferred: self.received },
                                ),
                            );
                        }
                        actions.push(ReceiveAction::Finish(Ok(())));
                    },
                }
            },
            (ReceivePhase::Done, _) => {},
            (_, ReceiveInput::Failed(reason)) => {
                if !self.is_whole() {
                    actions.push(ReceiveAction::RemoveFile);
                }
                self.phase = ReceivePhase::Done;
                actions.push(ReceiveAction::Finish(Err(DccError::Io(reason))));
            },
            _ => {},
        }
        assert(views::views(actions@) =~= receive_step(old(self)@, input@).1);
        actions
    }
}

} // verus!
