//! The decisions of the IRC byte-pipe transport.
//!
//! The transport speaks no IRC itself: no registration, no capability
//! negotiation, not even PING and PONG. It establishes the connection, hands
//! every received line on, writes the lines that it is given and reports how the
//! connection ends. [`IrcDriver`] is the part of it that decides; what it asks
//! for, the caller carries out.
use std::time::Instant;

use vstd::prelude::*;

use crate::codec;
use crate::codec::{irc_line, strip_crlf, LineBuffer, MAX_RECEIVE_BUFFER};
use crate::error::IrcError;
use crate::ratelimit;
use crate::ratelimit::{LimiterView, SlidingWindowLimiter};
use crate::text;
use crate::text::decimal;
use crate::views;

verus! {

/// How long to wait for the connection, and again for the TLS handshake, in
/// seconds.
pub const CONNECT_TIMEOUT_SECS: u64 = 30;

/// How many bytes to ask the socket for at a time.
pub const READ_CHUNK: usize = 8192;

/// How the bytes of a received line are turned into text.
#[derive(Copy, Clone, Debug, PartialEq, Eq, Structural)]
pub enum Encoding {
    Utf8,
    Latin1,
}

impl Default for Encoding {
    /// UTF-8.
    fn default() -> (encoding: Self)
        ensures
            encoding == Encoding::Utf8,
    {
        Encoding::Utf8
    }
}

/// Which server to connect to, and how.
#[derive(Clone, Debug)]
pub struct IrcClientOptions {
    pub host: String,
    pub port: u16,
    pub tls: bool,
    pub encoding: Encoding,
}

/// A host and a port as one address.
pub open spec fn address_text(host: Seq<char>, port: u16) -> Seq<char> {
    host + ":"@ + text::decimal_text(port as nat)
}

/// Writes a host and a port as one address.
pub fn address(host: &String, port: u16) -> (text: String)
    ensures
        text@ == address_text(host@, port),
{
    host.clone().concat(":").concat(decimal(port as u64).as_str())
}

impl IrcClientOptions {
    /// A plain connection in UTF-8.
    pub fn new(host: String, port: u16) -> (options: Self)
        ensures
            options.host == host,
            options.port == port,
            !options.tls,
            options.encoding == Encoding::Utf8,
    {
        IrcClientOptions { host, port, tls: false, encoding: Encoding::Utf8 }
    }

    /// The address to dial.
    pub fn address(&self) -> (text: String)
        ensures
            text@ == address_text(self.host@, self.port),
    {
        address(&self.host, self.port)
    }
}

/// What a connection reports.
#[derive(Clone, Debug)]
pub enum IrcEvent {
    /// The TCP connection, and with TLS the handshake, is complete.
    SocketConnected,
    /// A line received from the server (`inbound`), or one that was sent, as it
    /// went out.
    Raw { line: String, inbound: bool },
    /// The connection is closed. Always the last event.
    Closed,
    /// Something went wrong; `Closed` follows.
    Error(String),
}

/// What an event says.
pub enum EventView {
    SocketConnected,
    Raw { line: Seq<char>, inbound: bool },
    Closed,
    Error(Seq<char>),
}

impl View for IrcEvent {
    type V = EventView;

    open spec fn view(&self) -> EventView {
        match self {
            IrcEvent::SocketConnected => EventView::SocketConnected,
            IrcEvent::Raw { line, inbound } => EventView::Raw { line: line@, inbound: *inbound },
            IrcEvent::Closed => EventView::Closed,
            IrcEvent::Error(text) => EventView::Error(text@),
        }
    }
}

/// What the owner of a connection asks of it.
#[derive(Debug)]
pub enum ClientCommand {
    /// Send a line.
    Send(String),
    /// Send `QUIT`, with a message or without, and close.
    Quit(Option<String>),
    /// Close without a word.
    Disconnect,
}

/// What a command says.
pub enum CommandView {
    Send(Seq<char>),
    Quit(Option<Seq<char>>),
    Disconnect,
}

impl View for ClientCommand {
    type V = CommandView;

    open spec fn view(&self) -> CommandView {
        match self {
            ClientCommand::Send(line) => CommandView::Send(line@),
            ClientCommand::Quit(message) => CommandView::Quit(views::opt_view(*message)),
            ClientCommand::Disconnect => CommandView::Disconnect,
        }
    }
}

/// What happened to the connection.
#[derive(Debug)]
pub enum DriverInput {
    /// The TCP connection is up.
    Dialed,
    /// The TLS handshake is complete.
    Secured,
    /// The connection could not be made.
    ConnectFailed(IrcError),
    /// Bytes were read; none, if the server closed the connection.
    Received(Vec<u8>),
    /// Reading failed, for this reason.
    ReadFailed(String),
    /// A command, or none, if there is nobody left to give one.
    Command(Option<ClientCommand>),
    /// The bytes to write are written and flushed.
    Wrote,
    /// They could not be written.
    WriteFailed,
}

/// What an input says. Of an error only its message matters.
pub enum InputView {
    Dialed,
    Secured,
    ConnectFailed(Seq<char>),
    Received(Seq<u8>),
    ReadFailed(Seq<char>),
    Command(Option<CommandView>),
    Wrote,
    WriteFailed,
}

impl View for DriverInput {
    type V = InputView;

    open spec fn view(&self) -> InputView {
        match self {
            DriverInput::Dialed => InputView::Dialed,
            DriverInput::Secured => InputView::Secured,
            DriverInput::ConnectFailed(error) => InputView::ConnectFailed(error.message()),
            DriverInput::Received(data) => InputView::Received(data@),
            DriverInput::ReadFailed(reason) => InputView::ReadFailed(reason@),
            DriverInput::Command(command) => InputView::Command(views::opt_view(*command)),
            DriverInput::Wrote => InputView::Wrote,
            DriverInput::WriteFailed => InputView::WriteFailed,
        }
    }
}

/// What is to be done next, in order.
#[derive(Debug)]
pub enum DriverAction {
    /// Do the TLS handshake; answer with `Secured` or `ConnectFailed`.
    StartTls,
    /// Report an event.
    Emit(IrcEvent),
    /// Write and flush these bytes; answer with `Wrote` or `WriteFailed`.
    Write(Vec<u8>),
    /// Shut the socket down, whatever comes of it.
    Shutdown,
}

/// What an action says.
pub enum ActionView {
    StartTls,
    Emit(EventView),
    Write(Seq<u8>),
    Shutdown,
}

impl View for DriverAction {
    type V = ActionView;

    open spec fn view(&self) -> ActionView {
        match self {
            DriverAction::StartTls => ActionView::StartTls,
            DriverAction::Emit(event) => ActionView::Emit(event@),
            DriverAction::Write(bytes) => ActionView::Write(bytes@),
            DriverAction::Shutdown => ActionView::Shutdown,
        }
    }
}

/// How far a connection has come.
enum Phase {
    Dialing,
    Securing,
    Open,
    Sending { line: String, quitting: bool },
    Closed,
}

/// How far a connection has come.
pub enum PhaseView {
    /// The TCP connection is being made.
    Dialing,
    /// The TLS handshake is being done.
    Securing,
    /// Lines may come in and commands may be given.
    Open,
    /// A line is being written, the last one if `quitting`. The line is held as it
    /// goes out, without CR and LF.
    Sending { line: Seq<char>, quitting: bool },
    /// The connection is over.
    Closed,
}

impl View for Phase {
    type V = PhaseView;

    closed spec fn view(&self) -> PhaseView {
        match self {
            Phase::Dialing => PhaseView::Dialing,
            Phase::Securing => PhaseView::Securing,
            Phase::Open => PhaseView::Open,
            Phase::Sending { line, quitting } => PhaseView::Sending {
                line: line@,
                quitting: *quitting,
            },
            Phase::Closed => PhaseView::Closed,
        }
    }
}

/// What a driver decides by.
pub struct DriverView {
    pub tls: bool,
    pub encoding: Encoding,
    pub phase: PhaseView,
    /// The bytes of the line that has begun to come in.
    pub buffer: Seq<u8>,
    pub limiter: LimiterView,
}

/// The driver of a connection that has yet to be made.
pub open spec fn new_driver(tls: bool, encoding: Encoding) -> DriverView {
    DriverView {
        tls,
        encoding,
        phase: PhaseView::Dialing,
        buffer: seq![],
        limiter: ratelimit::default_irc_limiter(),
    }
}

/// The driver of a connection that has just been made: from here on the limiter
/// counts.
pub open spec fn opened(driver: DriverView) -> DriverView {
    DriverView { phase: PhaseView::Open, limiter: ratelimit::default_irc_limiter(), ..driver }
}

/// Received lines, each as an event.
pub open spec fn inbound(encoding: Encoding, lines: Seq<Seq<u8>>) -> Seq<ActionView> {
    Seq::new(
        lines.len(),
        |i: int|
            ActionView::Emit(
                EventView::Raw { line: codec::decoded(encoding, lines[i]), inbound: true },
            ),
    )
}

/// The line that says goodbye.
pub open spec fn quit_line(message: Option<Seq<char>>) -> Seq<char> {
    match message {
        Some(message) => "QUIT :"@ + codec::stripped(message),
        None => "QUIT"@,
    }
}

/// The driver at the end of its connection.
pub open spec fn closed(driver: DriverView) -> DriverView {
    DriverView { phase: PhaseView::Closed, ..driver }
}

/// A connection that fails: the error, then the end.
pub open spec fn failing(message: Seq<char>) -> Seq<ActionView> {
    seq![ActionView::Emit(EventView::Error(message)), ActionView::Emit(EventView::Closed)]
}

/// Bytes come in. None are the server's goodbye. Otherwise every line that they
/// complete is reported, unless more is buffered than may be.
pub open spec fn on_received(driver: DriverView, data: Seq<u8>) -> (DriverView, Seq<ActionView>) {
    let held = driver.buffer + data;
    if data.len() == 0 {
        (closed(driver), seq![ActionView::Emit(EventView::Closed)])
    } else if held.len() > MAX_RECEIVE_BUFFER {
        (
            DriverView { phase: PhaseView::Closed, buffer: held, ..driver },
            failing(IrcError::BufferOverflow.message()),
        )
    } else {
        (
            DriverView { buffer: codec::framing(held).pending, ..driver },
            inbound(driver.encoding, codec::framing(held).lines),
        )
    }
}

/// A line is to be written.
pub open spec fn writing(driver: DriverView, line: Seq<char>, quitting: bool) -> (
    DriverView,
    Seq<ActionView>,
) {
    (
        DriverView {
            phase: PhaseView::Sending { line: codec::stripped(line), quitting },
            ..driver
        },
        seq![ActionView::Write(codec::wire(line, codec::irc_terminator()))],
    )
}

/// A command is given, or there is nobody left to give one. A line beyond what
/// the limiter lets pass is dropped without a word.
pub open spec fn on_command(driver: DriverView, command: Option<CommandView>, now: nat) -> (
    DriverView,
    Seq<ActionView>,
) {
    match command {
        Some(CommandView::Send(line)) => {
            let (limiter, allowed) = ratelimit::limiter_step(driver.limiter, now);
            let counted = DriverView { limiter, ..driver };
            if allowed {
                writing(counted, line, false)
            } else {
                (counted, seq![])
            }
        },
        Some(CommandView::Quit(message)) => writing(driver, quit_line(message), true),
        Some(CommandView::Disconnect) | None => (
            closed(driver),
            seq![ActionView::Emit(EventView::Closed)],
        ),
    }
}

/// The line is written, or could not be. A written line is reported as it went
/// out. The connection ends after the last line, and where writing failed.
pub open spec fn on_written(
    driver: DriverView,
    line: Seq<char>,
    quitting: bool,
    written: bool,
) -> (DriverView, Seq<ActionView>) {
    let echo = if written {
        seq![ActionView::Emit(EventView::Raw { line, inbound: false })]
    } else {
        seq![]
    };
    if quitting {
        (closed(driver), echo + seq![ActionView::Shutdown, ActionView::Emit(EventView::Closed)])
    } else if written {
        (DriverView { phase: PhaseView::Open, ..driver }, echo)
    } else {
        (closed(driver), seq![ActionView::Emit(EventView::Closed)])
    }
}

/// One step of a connection at a time, which is given in nanoseconds since the
/// connection was made. What cannot happen in a phase changes nothing.
pub open spec fn driver_step(driver: DriverView, input: InputView, now: nat) -> (
    DriverView,
    Seq<ActionView>,
) {
    match (driver.phase, input) {
        (PhaseView::Dialing, InputView::Dialed) => if driver.tls {
            (DriverView { phase: PhaseView::Securing, ..driver }, seq![ActionView::StartTls])
        } else {
            (opened(driver), seq![ActionView::Emit(EventView::SocketConnected)])
        },
        (PhaseView::Securing, InputView::Secured) => (
            opened(driver),
            seq![ActionView::Emit(EventView::SocketConnected)],
        ),
        (PhaseView::Dialing, InputView::ConnectFailed(message)) => (
            closed(driver),
            failing(message),
        ),
        (PhaseView::Securing, InputView::ConnectFailed(message)) => (
            closed(driver),
            failing(message),
        ),
        (PhaseView::Open, InputView::Received(data)) => on_received(driver, data),
        (PhaseView::Open, InputView::ReadFailed(reason)) => (closed(driver), failing(reason)),
        (PhaseView::Open, InputView::Command(command)) => on_command(driver, command, now),
        (PhaseView::Sending { line, quitting }, InputView::Wrote) => on_written(
            driver,
            line,
            quitting,
            true,
        ),
        (PhaseView::Sending { line, quitting }, InputView::WriteFailed) => on_written(
            driver,
            line,
            quitting,
            false,
        ),
        _ => (driver, seq![]),
    }
}

/// The decisions of one connection.
pub struct IrcDriver {
    tls: bool,
    encoding: Encoding,
    phase: Phase,
    buffer: LineBuffer,
    limiter: SlidingWindowLimiter,
}

impl View for IrcDriver {
    type V = DriverView;

    closed spec fn view(&self) -> DriverView {
        DriverView {
            tls: self.tls,
            encoding: self.encoding,
            phase: self.phase@,
            buffer: self.buffer@,
            limiter: self.limiter@,
        }
    }
}

impl IrcDriver {
    /// The driver of a connection that has yet to be made. The first thing to do
    /// is to dial.
    pub fn new(options: &IrcClientOptions) -> (driver: Self)
        ensures
            driver@ == new_driver(options.tls, options.encoding),
    {
        IrcDriver {
            tls: options.tls,
            encoding: options.encoding,
            phase: Phase::Dialing,
            buffer: LineBuffer::new(),
            limiter: SlidingWindowLimiter::default_irc(),
        }
    }

    /// Whether the connection is over.
    pub fn is_closed(&self) -> (over: bool)
        ensures
            over == (self@.phase is Closed),
    {
        match &self.phase {
            Phase::Closed => true,
            _ => false,
        }
    }

    /// Whether bytes or a command may come next, rather than the answer to an
    /// action.
    pub fn is_open(&self) -> (open: bool)
        ensures
            open == (self@.phase is Open),
    {
        match &self.phase {
            Phase::Open => true,
            _ => false,
        }
    }

    fn fail(&mut self, message: String) -> (actions: Vec<DriverAction>)
        ensures
            final(self).since() == old(self).since(),
            final(self)@ == closed(old(self)@),
            views::views(actions@) == failing(message@),
    {
        self.phase = Phase::Closed;
        let actions = vec![
            DriverAction::Emit(IrcEvent::Error(message)),
            DriverAction::Emit(IrcEvent::Closed),
        ];
        assert(views::views(actions@) =~= failing(message@));
        actions
    }

    fn close(&mut self) -> (actions: Vec<DriverAction>)
        ensures
            final(self).since() == old(self).since(),
            final(self)@ == closed(old(self)@),
            views::views(actions@) == seq![ActionView::Emit(EventView::Closed)],
    {
        self.phase = Phase::Closed;
        let actions = vec![DriverAction::Emit(IrcEvent::Closed)];
        assert(views::views(actions@) =~= seq![ActionView::Emit(EventView::Closed)]);
        actions
    }

    fn connected(&mut self) -> (actions: Vec<DriverAction>)
        ensures
            final(self)@ == opened(old(self)@),
            views::views(actions@) == seq![ActionView::Emit(EventView::SocketConnected)],
    {
        self.phase = Phase::Open;
        self.limiter = SlidingWindowLimiter::default_irc();
        let actions = vec![DriverAction::Emit(IrcEvent::SocketConnected)];
        assert(views::views(actions@) =~= seq![ActionView::Emit(EventView::SocketConnected)]);
        actions
    }

    fn received(&mut self, data: &Vec<u8>) -> (actions: Vec<DriverAction>)
        ensures
            final(self).since() == old(self).since(),
            (final(self)@, views::views(actions@)) == on_received(old(self)@, data@),
    {
        if data.len() == 0 {
            return self.close();
        }
        self.buffer.extend(data.as_slice());
        if self.buffer.len() > MAX_RECEIVE_BUFFER {
            let actions = self.fail(IrcError::BufferOverflow.to_string());
            return actions;
        }
        let lines = self.buffer.take_lines(self.encoding);
        let ghost reported = codec::framing(old(self)@.buffer + data@).lines;
        let mut actions: Vec<DriverAction> = Vec::new();
        for line in it: lines
            invariant
                it.seq() == lines@,
                lines@.len() == reported.len(),
                forall|i: int|
                    0 <= i < lines@.len() ==> (#[trigger] lines@[i])@ == codec::decoded(
                        self.encoding,
                        reported[i],
                    ),
                actions@.len() == it.index(),
                forall|i: int|
                    0 <= i < actions@.len() ==> (#[trigger] actions@[i])@ == inbound(
                        self.encoding,
                        reported,
                    )[i],
        {
            actions.push(DriverAction::Emit(IrcEvent::Raw { line, inbound: true }));
        }
        assert(views::views(actions@) =~= inbound(self.encoding, reported));
        actions
    }

    fn write(&mut self, line: String, quitting: bool) -> (actions: Vec<DriverAction>)
        ensures
            final(self).since() == old(self).since(),
            (final(self)@, views::views(actions@)) == writing(old(self)@, line@, quitting),
    {
        let actions = vec![DriverAction::Write(irc_line(line.as_str()))];
        assert(views::views(actions@) =~= writing(old(self)@, line@, quitting).1);
        self.phase = Phase::Sending { line: strip_crlf(line.as_str()), quitting };
        actions
    }

    fn command(&mut self, command: Option<ClientCommand>, now: u128) -> (actions: Vec<DriverAction>)
        ensures
            final(self).since() == old(self).since(),
            (final(self)@, views::views(actions@)) == on_command(
                old(self)@,
                views::opt_view(command),
                now as nat,
            ),
    {
        match command {
            Some(ClientCommand::Send(line)) => {
                if self.limiter.check_and_consume_at(now) {
                    self.write(line, false)
                } else {
                    let actions: Vec<DriverAction> = Vec::new();
                    assert(views::views(actions@) =~= seq![]);
                    actions
                }
            },
            Some(ClientCommand::Quit(message)) => {
                let line = match message {
                    Some(text) => "QUIT :".to_owned().concat(strip_crlf(text.as_str()).as_str()),
                    None => "QUIT".to_owned(),
                };
                self.write(line, true)
            },
            Some(ClientCommand::Disconnect) | None => self.close(),
        }
    }

    fn written(&mut self, line: String, quitting: bool, written: bool) -> (actions: Vec<
        DriverAction,
    >)
        ensures
            final(self).since() == old(self).since(),
            (final(self)@, views::views(actions@)) == on_written(
                old(self)@,
                line@,
                quitting,
                written,
            ),
    {
        let ghost expected = on_written(old(self)@, line@, quitting, written).1;
        let mut actions: Vec<DriverAction> = Vec::new();
        if written {
            actions.push(DriverAction::Emit(IrcEvent::Raw { line, inbound: false }));
        }
        if quitting {
            actions.push(DriverAction::Shutdown);
        }
        if quitting || !written {
            self.phase = Phase::Closed;
            actions.push(DriverAction::Emit(IrcEvent::Closed));
        } else {
            self.phase = Phase::Open;
        }
        assert(views::views(actions@) =~= expected);
        actions
    }

    /// Takes the connection one step on, at a time that is given in nanoseconds
    /// since the connection was made, and says what is to be done.
    pub fn step_at(&mut self, input: DriverInput, now: u128) -> (actions: Vec<DriverAction>)
        ensures
            (final(self)@, views::views(actions@)) == driver_step(old(self)@, input@, now as nat),
            !(old(self)@.phase is Dialing) && !(old(self)@.phase is Securing)
                ==> final(self).since() == old(self).since(),
    {
        match input {
            DriverInput::Dialed => if let Phase::Dialing = self.phase {
                if self.tls {
                    self.phase = Phase::Securing;
                    let actions = vec![DriverAction::StartTls];
                    assert(views::views(actions@) =~= seq![ActionView::StartTls]);
                    return actions;
                }
                return self.connected();
            },
            DriverInput::Secured => if let Phase::Securing = self.phase {
                return self.connected();
            },
            DriverInput::ConnectFailed(error) => match self.phase {
                Phase::Dialing | Phase::Securing => {
                    return self.fail(error.to_string());
                },
                _ => {},
            },
            DriverInput::Received(data) => if self.is_open() {
                return self.received(&data);
            },
            DriverInput::ReadFailed(reason) => if self.is_open() {
                return self.fail(reason);
            },
            DriverInput::Command(command) => if self.is_open() {
                return self.command(command, now);
            },
            DriverInput::Wrote => if let Phase::Sending { line, quitting } = &self.phase {
                let (line, quitting) = (line.clone(), *quitting);
                return self.written(line, quitting, true);
            },
            DriverInput::WriteFailed => if let Phase::Sending { line, quitting } = &self.phase {
                let (line, quitting) = (line.clone(), *quitting);
                return self.written(line, quitting, false);
            },
        }
        let actions: Vec<DriverAction> = Vec::new();
        assert(views::views(actions@) =~= seq![]);
        actions
    }

    /// Since when the driver counts the time: since the connection was made, and
    /// until then since the driver was.
    pub closed spec fn since(&self) -> Instant {
        self.limiter.since()
    }

    /// Takes the connection one step on, at the time that the clock shows, and says
    /// what is to be done. Once the connection is made, the time is not counted anew.
    pub fn step(&mut self, input: DriverInput) -> (actions: Vec<DriverAction>)
        ensures
            !(old(self)@.phase is Dialing) && !(old(self)@.phase is Securing)
                ==> final(self).since() == old(self).since(),
            exists|now: nat|
                ratelimit::is_reading(old(self).since(), now) && (
                    final(self)@,
                    views::views(actions@),
                ) == #[trigger] driver_step(
                    old(self)@,
                    input@,
                    now,
                ),
    {
        let now: u128 = self.limiter.clock();
        self.step_at(input, now)
    }
}

// ---------------------------------------------------------------------------
// Laws

/// A driver after these inputs, each at its time, and everything that was to be
/// done, in order.
pub open spec fn driver_run(driver: DriverView, inputs: Seq<(InputView, nat)>) -> (
    DriverView,
    Seq<ActionView>,
)
    decreases inputs.len(),
{
    if inputs.len() == 0 {
        (driver, seq![])
    } else {
        let (before, done) = driver_run(driver, inputs.drop_last());
        let (after, actions) = driver_step(before, inputs.last().0, inputs.last().1);
        (after, done + actions)
    }
}

/// The report of the end.
pub open spec fn closed_report() -> ActionView {
    ActionView::Emit(EventView::Closed)
}

/// The report of a connection.
pub open spec fn connected_report() -> ActionView {
    ActionView::Emit(EventView::SocketConnected)
}

/// The end is reported at most once, as the last thing that is done, and is
/// reported as soon as the connection is over.
pub proof fn the_end_is_reported_last(driver: DriverView, inputs: Seq<(InputView, nat)>)
    requires
        !(driver.phase is Closed),
    ensures
        ({
            let (after, done) = driver_run(driver, inputs);
            &&& forall|i: int|
                0 <= i < done.len() && #[trigger] done[i] == closed_report() ==> i == done.len()
                    - 1
            &&& after.phase is Closed <==> done.len() > 0 && done.last() == closed_report()
        }),
    decreases inputs.len(),
{
    if inputs.len() > 0 {
        the_end_is_reported_last(driver, inputs.drop_last());
    }
}

/// After the end nothing more is done, whatever comes.
pub proof fn nothing_follows_the_end(driver: DriverView, input: InputView, now: nat)
    requires
        driver.phase is Closed,
    ensures
        driver_step(driver, input, now) == (driver, Seq::<ActionView>::empty()),
{
}

/// An error is reported only where the connection ends, and the report of the
/// end is the next thing that is done.
pub proof fn an_error_is_followed_by_the_end(driver: DriverView, inputs: Seq<(InputView, nat)>)
    requires
        !(driver.phase is Closed),
    ensures
        ({
            let done = driver_run(driver, inputs).1;
            forall|i: int|
                0 <= i < done.len() && (#[trigger] done[i] matches ActionView::Emit(
                    EventView::Error(_),
                )) ==> i == done.len() - 2 && done.last() == closed_report()
        }),
    decreases inputs.len(),
{
    if inputs.len() > 0 {
        an_error_is_followed_by_the_end(driver, inputs.drop_last());
        the_end_is_reported_last(driver, inputs.drop_last());
    }
}

/// Whether something is done that takes a connection: a line is reported or
/// bytes are written.
pub open spec fn takes_a_connection(action: ActionView) -> bool {
    action is Write || (action matches ActionView::Emit(EventView::Raw { .. }))
}

/// A connection is reported at most once, and before any line is reported or
/// written.
pub proof fn the_connection_is_reported_first(
    tls: bool,
    encoding: Encoding,
    inputs: Seq<(InputView, nat)>,
)
    ensures
        ({
            let (after, done) = driver_run(new_driver(tls, encoding), inputs);
            &&& forall|i: int, j: int|
                0 <= i < done.len() && 0 <= j < done.len() && #[trigger] done[i]
                    == connected_report() && #[trigger] done[j] == connected_report() ==> i == j
            &&& forall|i: int|
                0 <= i < done.len() && takes_a_connection(#[trigger] done[i]) ==> exists|j: int|
                    0 <= j < i && #[trigger] done[j] == connected_report()
            &&& after.phase is Open || after.phase is Sending ==> done.contains(connected_report())
        }),
    decreases inputs.len(),
{
    if inputs.len() > 0 {
        the_connection_is_reported_first(tls, encoding, inputs.drop_last());
        let (before, done) = driver_run(new_driver(tls, encoding), inputs.drop_last());
        let (after, actions) = driver_step(before, inputs.last().0, inputs.last().1);
        let all = done + actions;
        lemma_unconnected(tls, encoding, inputs.drop_last());
        assert forall|i: int|
            0 <= i < all.len() && takes_a_connection(#[trigger] all[i]) implies exists|j: int|
            0 <= j < i && #[trigger] all[j] == connected_report() by {
            if i < done.len() {
                let j = choose|j: int| 0 <= j < i && #[trigger] done[j] == connected_report();
                assert(all[j] == connected_report());
            } else {
                let j = choose|j: int| 0 <= j < done.len() && done[j] == connected_report();
                assert(all[j] == connected_report());
            }
        }
        if done.contains(connected_report()) {
            let j = choose|j: int| 0 <= j < done.len() && done[j] == connected_report();
            assert(all[j] == connected_report());
        } else if after.phase is Open {
            assert(all[done.len() as int] == connected_report());
        }
    }
}

proof fn lemma_unconnected(tls: bool, encoding: Encoding, inputs: Seq<(InputView, nat)>)
    ensures
        ({
            let (after, done) = driver_run(new_driver(tls, encoding), inputs);
            after.phase is Dialing || after.phase is Securing ==> !done.contains(connected_report())
        }),
    decreases inputs.len(),
{
    if inputs.len() > 0 {
        lemma_unconnected(tls, encoding, inputs.drop_last());
    }
}

/// The transport says nothing of its own: bytes are written only for a command,
/// and they are one line, that of the command.
pub proof fn only_commands_are_written(
    driver: DriverView,
    input: InputView,
    now: nat,
    bytes: Seq<u8>,
)
    requires
        driver_step(driver, input, now).1.contains(ActionView::Write(bytes)),
    ensures
        match input {
            InputView::Command(Some(CommandView::Send(line))) => bytes == codec::wire(
                line,
                codec::irc_terminator(),
            ),
            InputView::Command(Some(CommandView::Quit(message))) => bytes == codec::wire(
                quit_line(message),
                codec::irc_terminator(),
            ),
            _ => false,
        },
        codec::framing(bytes).lines.len() <= 1,
        codec::framing(bytes).pending.len() == 0,
{
    let actions = driver_step(driver, input, now).1;
    let i = choose|i: int| 0 <= i < actions.len() && actions[i] == ActionView::Write(bytes);
    assert(actions[i] == ActionView::Write(bytes));
    match input {
        InputView::Command(Some(CommandView::Send(line))) => {
            codec::nothing_can_be_injected(line, codec::irc_terminator());
        },
        InputView::Command(Some(CommandView::Quit(message))) => {
            codec::nothing_can_be_injected(quit_line(message), codec::irc_terminator());
        },
        _ => {},
    }
}

/// A line that the limiter lets pass is written, and reported as it went out
/// once it is written; the connection is then open as before.
pub proof fn a_sent_line_is_written_and_reported(
    driver: DriverView,
    line: Seq<char>,
    now: nat,
    later: nat,
)
    requires
        driver.phase is Open,
        ratelimit::limiter_step(driver.limiter, now).1,
    ensures
        ({
            let send = InputView::Command(Some(CommandView::Send(line)));
            driver_run(driver, seq![(send, now), (InputView::Wrote, later)]) == (
                DriverView {
                    limiter: ratelimit::limiter_step(driver.limiter, now).0,
                    ..driver
                },
                seq![
                    ActionView::Write(codec::wire(line, codec::irc_terminator())),
                    ActionView::Emit(
                        EventView::Raw { line: codec::stripped(line), inbound: false },
                    ),
                ],
            )
        }),
{
    let send = InputView::Command(Some(CommandView::Send(line)));
    let inputs = seq![(send, now), (InputView::Wrote, later)];
    assert(inputs.drop_last() =~= seq![(send, now)]);
    assert(inputs.drop_last().drop_last() =~= seq![]);
    reveal_with_fuel(driver_run, 3);
    assert(driver_run(driver, inputs).1 =~= seq![
        ActionView::Write(codec::wire(line, codec::irc_terminator())),
        ActionView::Emit(EventView::Raw { line: codec::stripped(line), inbound: false }),
    ]);
}

/// Which lines are reported does not depend on how the bytes are cut into
/// chunks: two reads do what one read of both does.
pub proof fn reads_can_be_joined(
    driver: DriverView,
    first: Seq<u8>,
    second: Seq<u8>,
    now: nat,
    later: nat,
)
    requires
        driver.phase is Open,
        first.len() > 0,
        second.len() > 0,
        (driver.buffer + first + second).len() <= MAX_RECEIVE_BUFFER,
    ensures
        driver_run(
            driver,
            seq![(InputView::Received(first), now), (InputView::Received(second), later)],
        ) == driver_step(driver, InputView::Received(first + second), later),
{
    let inputs = seq![(InputView::Received(first), now), (InputView::Received(second), later)];
    assert(inputs.drop_last() =~= seq![(InputView::Received(first), now)]);
    assert(inputs.drop_last().drop_last() =~= seq![]);
    reveal_with_fuel(driver_run, 3);
    let held = driver.buffer + first;
    codec::lines_do_not_depend_on_chunks(held, second);
    codec::pending_is_a_part(held);
    assert(driver.buffer + (first + second) =~= held + second);
    assert(driver_run(driver, inputs).1 =~= driver_step(
        driver,
        InputView::Received(first + second),
        later,
    ).1);
}

/// Chunks of bytes, each as it is received, at a time.
pub open spec fn received(chunks: Seq<Seq<u8>>, times: Seq<nat>) -> Seq<(InputView, nat)> {
    Seq::new(chunks.len(), |i: int| (InputView::Received(chunks[i]), times[i]))
}

/// Every line that the server completes is reported, in order and once, and
/// nothing else is done, for as long as no line together with the chunk that
/// follows it is longer than may be buffered.
pub proof fn every_line_is_reported(driver: DriverView, chunks: Seq<Seq<u8>>, times: Seq<nat>)
    requires
        driver.phase is Open,
        driver.buffer.len() == 0,
        forall|i: int|
            0 <= i < chunks.len() ==> (#[trigger] chunks[i]).len() > 0 && codec::framing(
                codec::joined(chunks.take(i)),
            ).pending.len() + chunks[i].len() <= MAX_RECEIVE_BUFFER,
    ensures
        driver_run(driver, received(chunks, times)) == (
            DriverView { buffer: codec::framing(codec::joined(chunks)).pending, ..driver },
            inbound(driver.encoding, codec::framing(codec::joined(chunks)).lines),
        ),
    decreases chunks.len(),
{
    let inputs = received(chunks, times);
    if chunks.len() == 0 {
        assert(driver.buffer =~= seq![]);
        assert(inbound(driver.encoding, codec::framing(codec::joined(chunks)).lines) =~= seq![]);
    } else {
        let shorter = chunks.drop_last();
        assert forall|i: int| 0 <= i < shorter.len() implies (#[trigger] shorter[i]).len() > 0
            && codec::framing(codec::joined(shorter.take(i))).pending.len() + shorter[i].len()
            <= MAX_RECEIVE_BUFFER by {
            assert(shorter.take(i) =~= chunks.take(i));
            assert(shorter[i] == chunks[i]);
        }
        every_line_is_reported(driver, shorter, times);
        assert(inputs.drop_last() =~= received(shorter, times));
        assert(chunks.take(chunks.len() - 1) =~= shorter);
        assert(chunks[chunks.len() - 1].len() > 0);
        let before = driver_run(driver, inputs.drop_last()).0;
        lemma_chunk_received(before, codec::joined(shorter), chunks.last(), inputs.last().1);
    }
}

/// A chunk that follows others has the lines reported that they did not complete.
proof fn lemma_chunk_received(driver: DriverView, whole: Seq<u8>, data: Seq<u8>, now: nat)
    requires
        driver.phase is Open,
        driver.buffer == codec::framing(whole).pending,
        data.len() > 0,
        driver.buffer.len() + data.len() <= MAX_RECEIVE_BUFFER,
    ensures
        ({
            let (after, actions) = driver_step(driver, InputView::Received(data), now);
            &&& after == (DriverView {
                buffer: codec::framing(whole + data).pending,
                ..driver
            })
            &&& inbound(driver.encoding, codec::framing(whole).lines) + actions == inbound(
                driver.encoding,
                codec::framing(whole + data).lines,
            )
        }),
{
    codec::lines_do_not_depend_on_chunks(whole, data);
    let actions = driver_step(driver, InputView::Received(data), now).1;
    assert(inbound(driver.encoding, codec::framing(whole).lines) + actions =~= inbound(
        driver.encoding,
        codec::framing(whole + data).lines,
    ));
}

/// A server that never ends its line cannot make the buffer grow without bound:
/// for as long as the connection lasts, no more than the limit is held, and no
/// complete line among it.
pub proof fn the_buffer_is_bounded(
    tls: bool,
    encoding: Encoding,
    inputs: Seq<(InputView, nat)>,
)
    ensures
        ({
            let after = driver_run(new_driver(tls, encoding), inputs).0;
            !(after.phase is Closed) ==> after.buffer.len() <= MAX_RECEIVE_BUFFER
                && !after.buffer.contains(codec::LF)
        }),
    decreases inputs.len(),
{
    if inputs.len() > 0 {
        the_buffer_is_bounded(tls, encoding, inputs.drop_last());
        let before = driver_run(new_driver(tls, encoding), inputs.drop_last()).0;
        if let InputView::Received(data) = inputs.last().0 {
            codec::pending_holds_no_line(before.buffer + data);
            codec::pending_is_a_part(before.buffer + data);
        }
    }
}

/// The times of inputs.
pub open spec fn times_of(inputs: Seq<(InputView, nat)>) -> Seq<nat> {
    Seq::new(inputs.len(), |i: int| inputs[i].1)
}

/// Whether an input is a line to send, and is written.
pub open spec fn is_sent(driver: DriverView, input: InputView, now: nat) -> bool {
    input matches InputView::Command(Some(CommandView::Send(line))) && driver_step(
        driver,
        input,
        now,
    ).1 == seq![ActionView::Write(codec::wire(line, codec::irc_terminator()))]
}

/// When those of the lines to send are written that are.
pub open spec fn sent_times(driver: DriverView, inputs: Seq<(InputView, nat)>) -> Seq<nat>
    decreases inputs.len(),
{
    if inputs.len() == 0 {
        seq![]
    } else {
        let before = sent_times(driver, inputs.drop_last());
        let (input, now) = inputs.last();
        if is_sent(driver_run(driver, inputs.drop_last()).0, input, now) {
            before.push(now)
        } else {
            before
        }
    }
}

/// However many lines are given, in any span of time as long as the limiter's
/// window, wherever it begins, no more of them are written than the limiter lets
/// through: 50 in 5 seconds. Times are counted from the connection on.
pub proof fn a_flood_is_dropped(driver: DriverView, inputs: Seq<(InputView, nat)>)
    requires
        driver.limiter == ratelimit::default_irc_limiter(),
        ratelimit::in_order(times_of(inputs)),
    ensures
        ratelimit::limited(sent_times(driver, inputs), 50, 5_000_000_000),
{
    lemma_flood(driver, inputs);
}

proof fn lemma_flood(driver: DriverView, inputs: Seq<(InputView, nat)>)
    requires
        driver.limiter == ratelimit::default_irc_limiter(),
        ratelimit::in_order(times_of(inputs)),
    ensures
        ({
            let after = driver_run(driver, inputs).0;
            let sent = sent_times(driver, inputs);
            let last = if inputs.len() == 0 {
                0
            } else {
                inputs.last().1
            };
            &&& after.limiter == (LimiterView { passed: after.limiter.passed, ..driver.limiter })
            &&& after.phase is Dialing || after.phase is Securing ==> sent.len() == 0
                && after.limiter.passed.len() == 0
            &&& ratelimit::remembers(after.limiter, sent, last)
        }),
    decreases inputs.len(),
{
    if inputs.len() == 0 {
        ratelimit::lemma_remembers_nothing(driver.limiter, 0);
    } else {
        let shorter = inputs.drop_last();
        assert forall|i: int, j: int| 0 <= i <= j < shorter.len() implies times_of(shorter)[i]
            <= times_of(shorter)[j] by {
            assert(times_of(inputs)[i] <= times_of(inputs)[j]);
        }
        lemma_flood(driver, shorter);
        let (before, sent) = (driver_run(driver, shorter).0, sent_times(driver, shorter));
        let last = if shorter.len() == 0 {
            0
        } else {
            shorter.last().1
        };
        let (input, now) = inputs.last();
        assert(shorter.len() > 0 ==> times_of(inputs)[shorter.len() - 1] <= times_of(
            inputs,
        )[inputs.len() - 1]);
        let after = driver_step(before, input, now).0;
        if before.phase is Open && (input matches InputView::Command(Some(CommandView::Send(_)))) {
            ratelimit::lemma_step_remembers(before.limiter, sent, last, now);
            lemma_sent_iff_allowed(before, input, now);
        } else {
            lemma_not_sent(before, input, now);
            if after.limiter == before.limiter {
                ratelimit::lemma_time_goes_by(before.limiter, sent, last, now);
            } else {
                assert(sent =~= seq![]);
                ratelimit::lemma_remembers_nothing(after.limiter, now);
            }
        }
    }
}

proof fn lemma_sent_iff_allowed(driver: DriverView, input: InputView, now: nat)
    requires
        driver.phase is Open,
        input matches InputView::Command(Some(CommandView::Send(_))),
    ensures
        is_sent(driver, input, now) == ratelimit::limiter_step(driver.limiter, now).1,
        driver_step(driver, input, now).0.limiter == ratelimit::limiter_step(driver.limiter, now).0,
{
    let actions = driver_step(driver, input, now).1;
    if !ratelimit::limiter_step(driver.limiter, now).1 {
        assert(actions.len() == 0);
    }
}

proof fn lemma_not_sent(driver: DriverView, input: InputView, now: nat)
    requires
        !(driver.phase is Open && (input matches InputView::Command(Some(CommandView::Send(_))))),
    ensures
        !is_sent(driver, input, now),
{
    if input matches InputView::Command(Some(CommandView::Send(_))) {
        assert(driver_step(driver, input, now).1.len() == 0);
    }
}

/// What is dialled is the host, a colon and the port in decimal.
pub proof fn an_address_is_host_and_port(host: Seq<char>, port: u16)
    ensures
        ({
            let address = address_text(host, port);
            let digits = address.skip(host.len() as int + 1);
            &&& address.len() > host.len() + 1
            &&& address.take(host.len() as int) == host
            &&& address[host.len() as int] == ':'
            &&& text::decimal_value(digits) == port
            &&& forall|i: int|
                0 <= i < digits.len() ==> '0' as u32 <= #[trigger] digits[i] as u32
                    && digits[i] as u32 <= '9' as u32
            &&& digits[0] == '0' ==> port == 0
        }),
{
    reveal_strlit(":");
    text::decimal_says_the_number(port as nat);
    let address = address_text(host, port);
    assert(address.take(host.len() as int) =~= host);
    assert(address.skip(host.len() as int + 1) =~= text::decimal_text(port as nat));
}

/// What a driver is told and what it says are taken for what they are.
pub proof fn inputs_and_actions_say_what_they_are(input: DriverInput, action: DriverAction)
    ensures
        match input {
            DriverInput::Dialed => input@ == InputView::Dialed,
            DriverInput::Secured => input@ == InputView::Secured,
            DriverInput::ConnectFailed(error) => input@ == InputView::ConnectFailed(
                error.message(),
            ),
            DriverInput::Received(data) => input@ == InputView::Received(data@),
            DriverInput::ReadFailed(reason) => input@ == InputView::ReadFailed(reason@),
            DriverInput::Command(Some(ClientCommand::Send(line))) => input@ == InputView::Command(
                Some(CommandView::Send(line@)),
            ),
            DriverInput::Command(Some(ClientCommand::Quit(Some(message)))) => input@
                == InputView::Command(Some(CommandView::Quit(Some(message@)))),
            DriverInput::Command(Some(ClientCommand::Quit(None))) => input@ == InputView::Command(
                Some(CommandView::Quit(None)),
            ),
            DriverInput::Command(Some(ClientCommand::Disconnect)) => input@ == InputView::Command(
                Some(CommandView::Disconnect),
            ),
            DriverInput::Command(None) => input@ == InputView::Command(None),
            DriverInput::Wrote => input@ == InputView::Wrote,
            DriverInput::WriteFailed => input@ == InputView::WriteFailed,
        },
        match action {
            DriverAction::StartTls => action@ == ActionView::StartTls,
            DriverAction::Emit(IrcEvent::SocketConnected) => action@ == ActionView::Emit(
                EventView::SocketConnected,
            ),
            DriverAction::Emit(IrcEvent::Raw { line, inbound }) => action@ == ActionView::Emit(
                EventView::Raw { line: line@, inbound },
            ),
            DriverAction::Emit(IrcEvent::Closed) => action@ == ActionView::Emit(EventView::Closed),
            DriverAction::Emit(IrcEvent::Error(text)) => action@ == ActionView::Emit(
                EventView::Error(text@),
            ),
            DriverAction::Write(bytes) => action@ == ActionView::Write(bytes@),
            DriverAction::Shutdown => action@ == ActionView::Shutdown,
        },
{
}

/// A connection is first dialled, with nothing received and nothing sent.
pub proof fn a_connection_begins_empty(tls: bool, encoding: Encoding)
    ensures
        ({
            let new = new_driver(tls, encoding);
            &&& new.tls == tls
            &&& new.encoding == encoding
            &&& new.phase is Dialing
            &&& new.buffer.len() == 0
            &&& new.limiter.max_messages == 50
            &&& new.limiter.window == 5_000_000_000
            &&& new.limiter.passed.len() == 0
        }),
{
}

/// A connection is up as soon as it is dialled, or, with TLS, as soon as the
/// handshake is done that dialling is followed by. Its limiter then begins to count,
/// from nothing.
pub proof fn a_connection_comes_up(driver: DriverView, now: nat, later: nat)
    requires
        driver.phase is Dialing,
    ensures
        ({
            let up = DriverView {
                tls: driver.tls,
                encoding: driver.encoding,
                phase: PhaseView::Open,
                buffer: driver.buffer,
                limiter: LimiterView {
                    max_messages: 50,
                    window: 5_000_000_000,
                    passed: seq![],
                },
            };
            let reported = seq![ActionView::Emit(EventView::SocketConnected)];
            let (dialled, first) = driver_step(driver, InputView::Dialed, now);
            &&& !driver.tls ==> (dialled, first) == (up, reported)
            &&& driver.tls ==> first == seq![ActionView::StartTls] && dialled.phase is Securing
                && driver_step(dialled, InputView::Secured, later) == (up, reported)
        }),
{
}

/// A connection that cannot be made, and one that cannot be read from, ends with the
/// report of the error, as it was given, and the report of the end.
pub proof fn a_failure_ends_a_connection(driver: DriverView, reason: Seq<char>, now: nat)
    ensures
        ({
            let over = (
                DriverView { phase: PhaseView::Closed, ..driver },
                seq![
                    ActionView::Emit(EventView::Error(reason)),
                    ActionView::Emit(EventView::Closed),
                ],
            );
            &&& driver.phase is Dialing || driver.phase is Securing ==> driver_step(
                driver,
                InputView::ConnectFailed(reason),
                now,
            ) == over
            &&& driver.phase is Open ==> driver_step(driver, InputView::ReadFailed(reason), now)
                == over
        }),
{
}

/// Bytes that come in are held until they complete a line, and every line that they
/// complete is reported, in order, and nothing else. The server's goodbye ends the
/// connection, and so do more than two mebibytes that would have to be held, with an
/// error.
pub proof fn what_comes_in_is_reported(driver: DriverView, data: Seq<u8>, now: nat)
    requires
        driver.phase is Open,
    ensures
        ({
            let (after, actions) = driver_step(driver, InputView::Received(data), now);
            let held = driver.buffer + data;
            let lines = codec::framing(held).lines;
            &&& data.len() == 0 ==> after == (DriverView { phase: PhaseView::Closed, ..driver })
                && actions == seq![ActionView::Emit(EventView::Closed)]
            &&& data.len() > 0 && held.len() > 2_097_152 ==> after.phase is Closed && actions
                == seq![
                ActionView::Emit(
                    EventView::Error(
                        "receive buffer overflow: server sent too much data without line terminators"@,
                    ),
                ),
                ActionView::Emit(EventView::Closed),
            ]
            &&& data.len() > 0 && held.len() <= 2_097_152 ==> {
                &&& after == (DriverView { buffer: codec::framing(held).pending, ..driver })
                &&& actions.len() == lines.len()
                &&& forall|i: int|
                    0 <= i < lines.len() ==> #[trigger] actions[i] == ActionView::Emit(
                        EventView::Raw {
                            line: codec::decoded(driver.encoding, lines[i]),
                            inbound: true,
                        },
                    )
            }
        }),
{
}

/// A line of text that the server sends in UTF-8 is reported as that text, whether
/// `\r\n` or `\n` ends it, and the connection is as it was.
pub proof fn a_line_of_text_is_reported(driver: DriverView, line: Seq<char>, now: nat)
    requires
        driver.phase is Open,
        driver.encoding is Utf8,
        driver.buffer.len() == 0,
        line.len() > 0,
        !line.contains('\r') && !line.contains('\n'),
        vstd::utf8::encode_utf8(line).len() + 2 <= 2_097_152,
    ensures
        ({
            let bytes = vstd::utf8::encode_utf8(line);
            let reported = seq![ActionView::Emit(EventView::Raw { line, inbound: true })];
            &&& driver_step(driver, InputView::Received(bytes + seq![0x0Du8, 0x0Au8]), now) == (
                driver,
                reported,
            )
            &&& driver_step(driver, InputView::Received(bytes + seq![0x0Au8]), now) == (
                driver,
                reported,
            )
        }),
{
    let bytes = vstd::utf8::encode_utf8(line);
    let (first, second) = (bytes + seq![0x0Du8, 0x0Au8], bytes + seq![0x0Au8]);
    codec::a_line_of_text_is_read_back(line);
    lemma_one_line_reported(driver, first, bytes, line, now);
    lemma_one_line_reported(driver, second, bytes, line, now);
}

/// Bytes that are one line have it reported, and are not held.
proof fn lemma_one_line_reported(
    driver: DriverView,
    data: Seq<u8>,
    bytes: Seq<u8>,
    line: Seq<char>,
    now: nat,
)
    requires
        driver.phase is Open,
        driver.buffer.len() == 0,
        0 < data.len() <= 2_097_152,
        codec::framing(data).lines == seq![bytes],
        codec::framing(data).pending.len() == 0,
        codec::decoded(driver.encoding, bytes) == line,
    ensures
        driver_step(driver, InputView::Received(data), now) == (
            driver,
            seq![ActionView::Emit(EventView::Raw { line, inbound: true })],
        ),
{
    assert(driver.buffer + data =~= data);
    assert(codec::framing(data).pending =~= driver.buffer);
    assert(driver_step(driver, InputView::Received(data), now).1 =~= seq![
        ActionView::Emit(EventView::Raw { line, inbound: true }),
    ]);
}

/// A line that the server sends in Latin-1 is reported with a character for every
/// byte, of the number of the byte.
pub proof fn a_latin1_line_is_reported(driver: DriverView, line: Seq<u8>, now: nat)
    requires
        driver.phase is Open,
        driver.encoding is Latin1,
        driver.buffer.len() == 0,
        line.len() > 0,
        !line.contains(0x0A),
        line.len() + 2 <= 2_097_152,
    ensures
        ({
            let bytes = line + seq![0x0Du8, 0x0Au8];
            let (after, actions) = driver_step(driver, InputView::Received(bytes), now);
            &&& after == driver
            &&& actions.len() == 1
            &&& actions[0] matches ActionView::Emit(EventView::Raw { line: text, inbound: true })
                && text.len() == line.len() && forall|i: int|
                0 <= i < line.len() ==> #[trigger] text[i] as u32 == line[i] as u32
        }),
{
    let bytes = line + seq![0x0Du8, 0x0Au8];
    let none = Seq::<u8>::empty();
    codec::latin1_keeps_every_byte(line);
    codec::a_line_comes_out_as_it_was_put_in(line, none);
    codec::what_has_no_end_is_kept(none);
    assert(bytes + none =~= bytes);
    assert(driver.buffer =~= none);
    assert(driver.buffer + bytes =~= bytes);
    assert(codec::framing(bytes).lines =~= seq![line]);
}

/// A line that is given is written as it is, but for its carriage returns and line
/// feeds, with `\r\n` after it; once it is written, it is reported as it went out, and
/// the connection is open again. Where it cannot be written, the connection ends. One
/// that the limiter refuses is dropped without a word, and the connection stays open.
pub proof fn a_given_line_is_written(driver: DriverView, line: Seq<char>, now: nat, later: nat)
    requires
        driver.phase is Open,
    ensures
        ({
            let kept = line.filter(|c: char| c != '\r' && c != '\n');
            let send = InputView::Command(Some(CommandView::Send(line)));
            let (sending, actions) = driver_step(driver, send, now);
            let lately = driver.limiter.passed.filter(
                |time: nat| now - time <= driver.limiter.window,
            );
            &&& lately.len() < driver.limiter.max_messages ==> {
                &&& actions == seq![
                    ActionView::Write(vstd::utf8::encode_utf8(kept) + seq![0x0Du8, 0x0Au8]),
                ]
                &&& driver_step(sending, InputView::Wrote, later) == (
                    DriverView {
                        limiter: LimiterView { passed: lately.push(now), ..driver.limiter },
                        ..driver
                    },
                    seq![ActionView::Emit(EventView::Raw { line: kept, inbound: false })],
                )
                &&& driver_step(sending, InputView::WriteFailed, later).0.phase is Closed
                &&& driver_step(sending, InputView::WriteFailed, later).1 == seq![
                    ActionView::Emit(EventView::Closed),
                ]
            }
            &&& lately.len() >= driver.limiter.max_messages ==> actions.len() == 0 && sending == (
            DriverView {
                limiter: LimiterView { passed: lately, ..driver.limiter },
                ..driver
            })
        }),
        !line.contains('\r') && !line.contains('\n') ==> line.filter(
            |c: char| c != '\r' && c != '\n',
        ) == line,
{
    codec::stripping_drops_nothing_else(line);
    codec::a_text_goes_out_as_it_is(line);
    ratelimit::what_passed_lately_decides(driver.limiter, now);
}

/// Quitting writes `QUIT`, with the message if there is one, whatever the limiter
/// says; once it is written, that is reported, the socket is shut down and the end is
/// reported. Where it cannot be written, the connection ends all the same.
pub proof fn quitting_says_goodbye(
    driver: DriverView,
    message: Option<Seq<char>>,
    now: nat,
    later: nat,
)
    requires
        driver.phase is Open,
    ensures
        ({
            let line = match message {
                Some(message) => "QUIT :"@ + message.filter(|c: char| c != '\r' && c != '\n'),
                None => "QUIT"@,
            };
            let quit = InputView::Command(Some(CommandView::Quit(message)));
            let (sending, actions) = driver_step(driver, quit, now);
            let over = DriverView { phase: PhaseView::Closed, ..driver };
            &&& actions == seq![
                ActionView::Write(vstd::utf8::encode_utf8(line) + seq![0x0Du8, 0x0Au8]),
            ]
            &&& driver_step(sending, InputView::Wrote, later) == (
                over,
                seq![
                    ActionView::Emit(EventView::Raw { line, inbound: false }),
                    ActionView::Shutdown,
                    ActionView::Emit(EventView::Closed),
                ],
            )
            &&& driver_step(sending, InputView::WriteFailed, later) == (
                over,
                seq![ActionView::Shutdown, ActionView::Emit(EventView::Closed)],
            )
        }),
{
    let line = quit_line(message);
    lemma_quit_line(message);
    if let Some(message) = message {
        codec::stripping_drops_nothing_else(message);
    }
    lemma_quitting(driver, message, line, now, later);
}

proof fn lemma_quit_line(message: Option<Seq<char>>)
    ensures
        codec::stripped(quit_line(message)) == quit_line(message),
        codec::wire(quit_line(message), codec::irc_terminator()) == vstd::utf8::encode_utf8(
            quit_line(message),
        ) + seq![0x0Du8, 0x0Au8],
{
    let line = quit_line(message);
    match message {
        Some(message) => {
            reveal_strlit("QUIT :");
            codec::stripping_leaves_one_line(message);
            assert forall|i: int| 0 <= i < line.len() implies codec::is_line_char(
                #[trigger] line[i],
            ) by {
                if i >= 6 {
                    assert(line[i] == codec::stripped(message)[i - 6]);
                }
            }
        },
        None => {
            reveal_strlit("QUIT");
        },
    }
    codec::stripping_leaves_one_line(line);
    assert(codec::irc_terminator() =~= seq![0x0Du8, 0x0Au8]);
}

proof fn lemma_quitting(
    driver: DriverView,
    message: Option<Seq<char>>,
    line: Seq<char>,
    now: nat,
    later: nat,
)
    requires
        driver.phase is Open,
        line == quit_line(message),
        codec::stripped(line) == line,
    ensures
        ({
            let quit = InputView::Command(Some(CommandView::Quit(message)));
            let (sending, actions) = driver_step(driver, quit, now);
            let over = DriverView { phase: PhaseView::Closed, ..driver };
            &&& actions == seq![ActionView::Write(codec::wire(line, codec::irc_terminator()))]
            &&& driver_step(sending, InputView::Wrote, later) == (
                over,
                seq![
                    ActionView::Emit(EventView::Raw { line, inbound: false }),
                    ActionView::Shutdown,
                    ActionView::Emit(EventView::Closed),
                ],
            )
            &&& driver_step(sending, InputView::WriteFailed, later) == (
                over,
                seq![ActionView::Shutdown, ActionView::Emit(EventView::Closed)],
            )
        }),
{
    let quit = InputView::Command(Some(CommandView::Quit(message)));
    let sending = driver_step(driver, quit, now).0;
    assert(driver_step(sending, InputView::Wrote, later).1 =~= seq![
        ActionView::Emit(EventView::Raw { line, inbound: false }),
        ActionView::Shutdown,
        ActionView::Emit(EventView::Closed),
    ]);
    assert(driver_step(sending, InputView::WriteFailed, later).1 =~= seq![
        ActionView::Shutdown,
        ActionView::Emit(EventView::Closed),
    ]);
}

/// A connection that its owner drops, or has no owner left, ends without a word.
pub proof fn a_dropped_connection_ends(driver: DriverView, now: nat)
    requires
        driver.phase is Open,
    ensures
        ({
            let over = (
                DriverView { phase: PhaseView::Closed, ..driver },
                seq![ActionView::Emit(EventView::Closed)],
            );
            &&& driver_step(driver, InputView::Command(Some(CommandView::Disconnect)), now) == over
            &&& driver_step(driver, InputView::Command(None), now) == over
        }),
{
}

/// What does not belong to how far a connection has come changes nothing.
pub proof fn what_is_out_of_order_changes_nothing(driver: DriverView, input: InputView, now: nat)
    requires
        match driver.phase {
            PhaseView::Dialing => !(input is Dialed) && !(input is ConnectFailed),
            PhaseView::Securing => !(input is Secured) && !(input is ConnectFailed),
            PhaseView::Open => !(input is Received) && !(input is ReadFailed) && !(
            input is Command),
            PhaseView::Sending { .. } => !(input is Wrote) && !(input is WriteFailed),
            PhaseView::Closed => true,
        },
    ensures
        driver_step(driver, input, now) == (driver, Seq::<ActionView>::empty()),
{
}

/// What one side writes for a line, the other side reports as that line.
pub proof fn a_written_line_is_reported_by_the_peer(
    sender: DriverView,
    receiver: DriverView,
    line: Seq<char>,
    now: nat,
    later: nat,
)
    requires
        sender.phase is Open,
        sender.limiter.passed.len() < sender.limiter.max_messages,
        receiver.phase is Open,
        receiver.encoding is Utf8,
        receiver.buffer.len() == 0,
        line.len() > 0,
        !line.contains('\r') && !line.contains('\n'),
        vstd::utf8::encode_utf8(line).len() + 2 <= 2_097_152,
    ensures
        ({
            let send = InputView::Command(Some(CommandView::Send(line)));
            let actions = driver_step(sender, send, now).1;
            &&& actions.len() == 1
            &&& actions[0] matches ActionView::Write(bytes) && driver_step(
                receiver,
                InputView::Received(bytes),
                later,
            ) == (receiver, seq![ActionView::Emit(EventView::Raw { line, inbound: true })])
        }),
{
    a_given_line_is_written(sender, line, now, later);
    a_line_of_text_is_reported(receiver, line, later);
    sender.limiter.passed.lemma_filter_len(|time: nat| now - time <= sender.limiter.window);
}

/// A line is dropped only in a flood: on a connection that is open, a line that is
/// given is written if and only if fewer than 50 were written in the 5 seconds before
/// it.
pub proof fn a_line_is_dropped_only_in_a_flood(
    tls: bool,
    encoding: Encoding,
    inputs: Seq<(InputView, nat)>,
    line: Seq<char>,
    now: nat,
)
    requires
        ratelimit::in_order(times_of(inputs)),
        inputs.len() > 0 ==> inputs.last().1 <= now,
        driver_run(new_driver(tls, encoding), inputs).0.phase is Open,
    ensures
        ({
            let driver = driver_run(new_driver(tls, encoding), inputs).0;
            let lately = sent_times(new_driver(tls, encoding), inputs).filter(
                |time: nat| now - time <= 5_000_000_000,
            );
            let actions = driver_step(
                driver,
                InputView::Command(Some(CommandView::Send(line))),
                now,
            ).1;
            &&& lately.len() < 50 ==> actions.len() == 1 && actions[0] is Write
            &&& lately.len() >= 50 ==> actions.len() == 0
        }),
{
    let new = new_driver(tls, encoding);
    let driver = driver_run(new, inputs).0;
    let sent = sent_times(new, inputs);
    lemma_flood(new, inputs);
    let last = if inputs.len() == 0 {
        0
    } else {
        inputs.last().1
    };
    ratelimit::lemma_time_goes_by(driver.limiter, sent, last, now);
    ratelimit::lemma_recent_of_all(driver.limiter, sent, now);
    a_given_line_is_written(driver, line, now, now);
    assert((|time: nat| now - time <= driver.limiter.window) =~= (|time: nat|
        now - time <= 5_000_000_000));
}

} // verus!
