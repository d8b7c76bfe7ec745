//! What a DCC session does from its first event to its last.
use std::path::PathBuf;

use vstd::prelude::*;

use crate::client;
use crate::client::{address, Encoding};
use crate::dcc;
use crate::dcc::listener::IpAddr;
use crate::dcc::stream;
use crate::dcc::stream::{fingerprint_of, wrap, Wrapping};
use crate::dcc::{DccError, DccErrorView, DccEvent, DccEventView};
use crate::views;

verus! {

/// A path in the file system.
#[verifier::external_type_specification]
#[verifier::external_body]
pub struct ExPathBuf(PathBuf);

/// What `Path::to_string_lossy` makes of a path.
pub uninterp spec fn lossy_path(path: PathBuf) -> Seq<char>;

/// `Path::to_string_lossy` is the path as text, with replacement characters for
/// what is not Unicode. It depends on the path alone.
#[verifier::external_body]
fn path_text(path: &PathBuf) -> (text: String)
    ensures
        text@ == lossy_path(*path),
{
    path.to_string_lossy().into_owned()
}

/// How to offer a session.
#[derive(Clone, Debug)]
pub struct DccListenOptions {
    /// Whether to wrap the session in TLS.
    pub secure: bool,
    /// One end of the range of ports to bind in. Both ends are in it; both 0
    /// mean any free port.
    pub port_start: u16,
    /// The other end.
    pub port_end: u16,
    /// The only address to take a connection from.
    pub expect_peer: Option<IpAddr>,
    /// The file to send; none for a chat.
    pub file_path: Option<PathBuf>,
    /// How the peer's lines of chat are encoded.
    pub encoding: Encoding,
}

/// How to take up an offered session.
#[derive(Clone, Debug)]
pub struct DccConnectOptions {
    pub host: String,
    pub port: u16,
    /// Whether to wrap the session in TLS.
    pub secure: bool,
    /// Where to put the file that is offered; none for a chat.
    pub save_path: Option<PathBuf>,
    /// The announced length of the file, which tells a short or overlong
    /// transfer.
    pub size: Option<u64>,
    /// How the peer's lines of chat are encoded.
    pub encoding: Encoding,
}

impl DccConnectOptions {
    /// The address to dial.
    pub fn address(&self) -> (text: String)
        ensures
            text@ == client::address_text(self.host@, self.port),
    {
        address(&self.host, self.port)
    }
}

/// What a session is for.
#[derive(Copy, Clone, Debug, PartialEq, Eq, Structural)]
pub enum Task {
    /// A conversation.
    Chat(Encoding),
    /// A file to the peer.
    SendFile,
    /// A file from the peer, of the announced length.
    ReceiveFile { size: Option<u64> },
}

/// What an offered session is for: its file, if it has one, is sent.
pub open spec fn offered_task(options: DccListenOptions) -> Task {
    match options.file_path {
        Some(_) => Task::SendFile,
        None => Task::Chat(options.encoding),
    }
}

/// What a session that was taken up is for: its file, if it has one, is
/// received.
pub open spec fn accepted_task(options: DccConnectOptions) -> Task {
    match options.save_path {
        Some(_) => Task::ReceiveFile { size: options.size },
        None => Task::Chat(options.encoding),
    }
}

/// What a result says.
pub open spec fn outcome(result: Result<Option<String>, DccError>) -> Result<
    Option<Seq<char>>,
    DccErrorView,
> {
    match result {
        Ok(path) => Ok(views::opt_view(path)),
        Err(error) => Err(error@),
    }
}

/// The last events of a session: how it went, then that it is over.
pub open spec fn ending(result: Result<Option<Seq<char>>, DccErrorView>) -> Seq<DccEventView> {
    seq![
        match result {
            Ok(path) => DccEventView::Completed { path },
            Err(error) => DccEventView::Error(dcc::error_message(error)),
        },
        DccEventView::Closed,
    ]
}

/// The last events of a session, which came to its end, perhaps with a file that
/// it received, or failed.
pub fn finish(result: Result<Option<String>, DccError>) -> (events: Vec<DccEvent>)
    ensures
        views::views(events@) == ending(outcome(result)),
{
    let ghost expected = ending(outcome(result));
    let first = match result {
        Ok(path) => DccEvent::Completed { path },
        Err(error) => DccEvent::Error(error.to_string()),
    };
    let events = vec![first, DccEvent::Closed];
    assert(views::views(events@) =~= expected);
    events
}

/// What happened to a session.
#[derive(Debug)]
pub enum SessionInput {
    /// The socket to the peer is up.
    PeerConnected,
    /// The socket is wrapped. The certificate that the peer showed, if it showed
    /// one.
    Wrapped(Option<Vec<u8>>),
    /// The conversation or the transfer came to its end.
    Finished,
    /// Something failed.
    Failed(DccError),
}

/// What an input says.
pub enum SessionInputView {
    PeerConnected,
    Wrapped(Option<Seq<u8>>),
    Finished,
    Failed(DccErrorView),
}

impl View for SessionInput {
    type V = SessionInputView;

    open spec fn view(&self) -> SessionInputView {
        match self {
            SessionInput::PeerConnected => SessionInputView::PeerConnected,
            SessionInput::Wrapped(cert) => SessionInputView::Wrapped(views::opt_view(*cert)),
            SessionInput::Finished => SessionInputView::Finished,
            SessionInput::Failed(error) => SessionInputView::Failed(error@),
        }
    }
}

/// What is to be done next, in order.
#[derive(Debug)]
pub enum SessionAction {
    /// Wrap the socket; answer with `Wrapped` or `Failed`.
    Wrap(Wrapping),
    /// Report an event.
    Emit(DccEvent),
    /// Do what the session is for; answer with `Finished` or `Failed`.
    Run(Task),
}

/// What an action says.
pub enum SessionActionView {
    Wrap(Wrapping),
    Emit(DccEventView),
    Run(Task),
}

impl View for SessionAction {
    type V = SessionActionView;

    open spec fn view(&self) -> SessionActionView {
        match self {
            SessionAction::Wrap(how) => SessionActionView::Wrap(*how),
            SessionAction::Emit(event) => SessionActionView::Emit(event@),
            SessionAction::Run(task) => SessionActionView::Run(*task),
        }
    }
}

/// How far a session has come.
#[derive(Copy, Clone, Debug, PartialEq, Eq, Structural)]
pub enum Stage {
    /// The socket to the peer is waited for.
    Waiting,
    /// The socket is being wrapped.
    Wrapping,
    /// The conversation or the transfer goes on.
    Running,
    /// The session is over.
    Over,
}

/// What a session decides by.
pub struct SessionView {
    /// How the socket is wrapped.
    pub wrapping: Wrapping,
    pub task: Task,
    /// Where the received file is, as text.
    pub saved: Option<Seq<char>>,
    pub stage: Stage,
}

/// An offered session, before the peer comes.
pub open spec fn offered(options: DccListenOptions) -> SessionView {
    SessionView {
        wrapping: stream::wrapping(options.secure, true),
        task: offered_task(options),
        saved: None,
        stage: Stage::Waiting,
    }
}

/// A session that is taken up, before the peer is dialled.
pub open spec fn accepted(options: DccConnectOptions) -> SessionView {
    SessionView {
        wrapping: stream::wrapping(options.secure, false),
        task: accepted_task(options),
        saved: match options.save_path {
            Some(path) => Some(lossy_path(path)),
            None => None,
        },
        stage: Stage::Waiting,
    }
}

/// The fingerprint that a session shows: that of the peer's certificate, where
/// the peer is the TLS server.
pub open spec fn shown_fingerprint(how: Wrapping, cert: Option<Seq<u8>>) -> Option<Seq<char>> {
    match (how, cert) {
        (Wrapping::ConnectTls, Some(cert)) => Some(stream::colon_hex(stream::sha256_of(cert))),
        _ => None,
    }
}

/// Events, as actions that report them.
pub open spec fn emits(events: Seq<DccEventView>) -> Seq<SessionActionView> {
    Seq::new(events.len(), |i: int| SessionActionView::Emit(events[i]))
}

/// The end of a session.
pub open spec fn session_over(
    session: SessionView,
    result: Result<Option<Seq<char>>, DccErrorView>,
) -> (SessionView, Seq<SessionActionView>) {
    (SessionView { stage: Stage::Over, ..session }, emits(ending(result)))
}

/// One step of a session. What cannot happen at a stage changes nothing.
pub open spec fn session_step(session: SessionView, input: SessionInputView) -> (
    SessionView,
    Seq<SessionActionView>,
) {
    match (session.stage, input) {
        (Stage::Waiting, SessionInputView::PeerConnected) => (
            SessionView { stage: Stage::Wrapping, ..session },
            seq![SessionActionView::Wrap(session.wrapping)],
        ),
        (Stage::Wrapping, SessionInputView::Wrapped(cert)) => (
            SessionView { stage: Stage::Running, ..session },
            seq![
                SessionActionView::Emit(
                    DccEventView::Connected {
                        tls_fingerprint: shown_fingerprint(session.wrapping, cert),
                    },
                ),
                SessionActionView::Run(session.task),
            ],
        ),
        (Stage::Running, SessionInputView::Finished) => session_over(session, Ok(session.saved)),
        (Stage::Over, _) => (session, seq![]),
        (_, SessionInputView::Failed(error)) => session_over(session, Err(error)),
        _ => (session, seq![]),
    }
}

/// The decisions of one session.
pub struct SessionDriver {
    wrapping: Wrapping,
    task: Task,
    saved: Option<String>,
    stage: Stage,
}

impl View for SessionDriver {
    type V = SessionView;

    closed spec fn view(&self) -> SessionView {
        SessionView {
            wrapping: self.wrapping,
            task: self.task,
            saved: views::opt_view(self.saved),
            stage: self.stage,
        }
    }
}

impl SessionDriver {
    /// Offers a session on a port that is bound, and reports the port. The first
    /// thing to do is to wait for the peer.
    pub fn listen(options: &DccListenOptions, port: u16) -> (made: (Self, DccEvent))
        ensures
            made.0@ == offered(*options),
            made.1@ == (DccEventView::Listening { port }),
    {
        let task = match &options.file_path {
            Some(_) => Task::SendFile,
            None => Task::Chat(options.encoding),
        };
        let session = SessionDriver {
            wrapping: wrap(options.secure, true),
            task,
            saved: None,
            stage: Stage::Waiting,
        };
        (session, DccEvent::Listening { port })
    }

    /// Takes up an offered session. The first thing to do is to dial the peer.
    pub fn connect(options: &DccConnectOptions) -> (session: Self)
        ensures
            session@ == accepted(*options),
    {
        let (task, saved) = match &options.save_path {
            Some(path) => (Task::ReceiveFile { size: options.size }, Some(path_text(path))),
            None => (Task::Chat(options.encoding), None),
        };
        SessionDriver {
            wrapping: wrap(options.secure, false),
            task,
            saved,
            stage: Stage::Waiting,
        }
    }

    /// How far the session has come.
    pub fn stage(&self) -> (stage: Stage)
        ensures
            stage == self@.stage,
    {
        self.stage
    }

    fn over(&mut self, result: Result<Option<String>, DccError>) -> (actions: Vec<SessionAction>)
        ensures
            (final(self)@, views::views(actions@)) == session_over(old(self)@, outcome(result)),
    {
        self.stage = Stage::Over;
        let events = finish(result);
        let ghost views = views::views(events@);
        let mut actions: Vec<SessionAction> = Vec::new();
        for event in it: events
            invariant
                it.seq() == events@,
                views == views::views(events@),
                actions@.len() == it.index(),
                forall|i: int|
                    0 <= i < actions@.len() ==> (#[trigger] actions@[i])@ == emits(views)[i],
        {
            actions.push(SessionAction::Emit(event));
        }
        assert(views::views(actions@) =~= emits(views));
        actions
    }

    /// Takes the session one step on, and says what is to be done.
    pub fn step(&mut self, input: SessionInput) -> (actions: Vec<SessionAction>)
        ensures
            (final(self)@, views::views(actions@)) == session_step(old(self)@, input@),
    {
        let mut actions: Vec<SessionAction> = Vec::new();
        match (self.stage, input) {
            (Stage::Waiting, SessionInput::PeerConnected) => {
                self.stage = Stage::Wrapping;
                actions.push(SessionAction::Wrap(self.wrapping));
            },
            (Stage::Wrapping, SessionInput::Wrapped(cert)) => {
                self.stage = Stage::Running;
                let tls_fingerprint = match (self.wrapping, &cert) {
                    (Wrapping::ConnectTls, Some(cert)) => Some(fingerprint_of(cert.as_slice())),
                    _ => None,
                };
                actions.push(SessionAction::Emit(DccEvent::Connected { tls_fingerprint }));
                actions.push(SessionAction::Run(self.task));
            },
            (Stage::Running, SessionInput::Finished) => {
                let saved = self.saved.clone();
                return self.over(Ok(saved));
            },
            (Stage::Over, _) => {},
            (_, SessionInput::Failed(error)) => {
                return self.over(Err(error));
            },
            _ => {},
        }
        assert(views::views(actions@) =~= session_step(old(self)@, input@).1);
        actions
    }
}

// ---------------------------------------------------------------------------
// Laws

/// A session after these inputs, and everything that was to be done, in order.
pub open spec fn session_run(session: SessionView, inputs: Seq<SessionInputView>) -> (
    SessionView,
    Seq<SessionActionView>,
)
    decreases inputs.len(),
{
    if inputs.len() == 0 {
        (session, seq![])
    } else {
        let (before, done) = session_run(session, inputs.drop_last());
        let (after, actions) = session_step(before, inputs.last());
        (after, done + actions)
    }
}

/// Whether something is the report of how a session went.
pub open spec fn is_verdict(action: SessionActionView) -> bool {
    action matches SessionActionView::Emit(event) && (event is Completed || event is Error)
}

/// The report that a session is over.
pub open spec fn over_report() -> SessionActionView {
    SessionActionView::Emit(DccEventView::Closed)
}

/// The report that a session is over comes once, as the last thing that is done,
/// and as soon as the session is over. Just before it comes, once, the report of
/// how the session went.
pub proof fn a_session_ends_once(session: SessionView, inputs: Seq<SessionInputView>)
    requires
        !(session.stage is Over),
    ensures
        ({
            let (after, done) = session_run(session, inputs);
            &&& forall|i: int|
                0 <= i < done.len() && #[trigger] done[i] == over_report() ==> i == done.len() - 1
            &&& forall|i: int|
                0 <= i < done.len() && is_verdict(#[trigger] done[i]) ==> after.stage is Over
                    && i == done.len() - 2
            &&& after.stage is Over <==> done.len() > 0 && done.last() == over_report()
            &&& after.stage is Over ==> done.len() >= 2 && is_verdict(done[done.len() - 2])
        }),
    decreases inputs.len(),
{
    if inputs.len() > 0 {
        a_session_ends_once(session, inputs.drop_last());
    }
}

/// After the end nothing more is done, whatever comes.
pub proof fn nothing_follows_the_end_of_a_session(session: SessionView, input: SessionInputView)
    requires
        session.stage is Over,
    ensures
        session_step(session, input) == (session, Seq::<SessionActionView>::empty()),
{
}

/// A session that is not over ends with any failure, which it reports.
pub proof fn a_failure_ends_a_session(session: SessionView, error: DccErrorView)
    requires
        !(session.stage is Over),
    ensures
        session_step(session, SessionInputView::Failed(error)).0.stage is Over,
        session_step(session, SessionInputView::Failed(error)).1 == seq![
            SessionActionView::Emit(DccEventView::Error(dcc::error_message(error))),
            over_report(),
        ],
{
    assert(session_step(session, SessionInputView::Failed(error)).1 =~= seq![
        SessionActionView::Emit(DccEventView::Error(dcc::error_message(error))),
        over_report(),
    ]);
}

/// Whether something is the report that the peer's socket is up.
pub open spec fn is_connected_report(action: SessionActionView) -> bool {
    action matches SessionActionView::Emit(DccEventView::Connected { .. })
}

/// Whether something is the report of a session that came to its end.
pub open spec fn is_completed_report(action: SessionActionView) -> bool {
    action matches SessionActionView::Emit(DccEventView::Completed { .. })
}

/// What a session is for is begun at most once, after the socket is wrapped as
/// the session asks and right after the report that it is up. A session that
/// came to its end had been up, and names the file that it received, if it was
/// for receiving one.
pub proof fn a_session_goes_in_order(session: SessionView, inputs: Seq<SessionInputView>)
    requires
        session.stage is Waiting,
    ensures
        ({
            let (after, done) = session_run(session, inputs);
            &&& forall|i: int|
                0 <= i < done.len() && #[trigger] done[i] is Wrap ==> i == 0 && done[i]
                    == SessionActionView::Wrap(session.wrapping)
            &&& forall|i: int|
                0 <= i < done.len() && is_connected_report(#[trigger] done[i]) ==> i == 1
                    && done[0] == SessionActionView::Wrap(session.wrapping)
            &&& forall|i: int|
                0 <= i < done.len() && #[trigger] done[i] is Run ==> i == 2 && done[i]
                    == SessionActionView::Run(session.task) && is_connected_report(done[1])
            &&& forall|i: int|
                0 <= i < done.len() && is_completed_report(#[trigger] done[i]) ==> i == 3
                    && done[2] is Run && done[i] == SessionActionView::Emit(
                    DccEventView::Completed { path: session.saved },
                )
        }),
    decreases inputs.len(),
{
    lemma_session_progress(session, inputs);
}

proof fn lemma_session_progress(session: SessionView, inputs: Seq<SessionInputView>)
    requires
        session.stage is Waiting,
    ensures
        ({
            let (after, done) = session_run(session, inputs);
            let up = seq![SessionActionView::Wrap(session.wrapping)];
            &&& after == SessionView { stage: after.stage, ..session }
            &&& after.stage is Waiting ==> done.len() == 0
            &&& after.stage is Wrapping ==> done == up
            &&& after.stage is Running ==> done.len() == 3 && done[0] == up[0]
                && is_connected_report(done[1]) && done[2] == SessionActionView::Run(session.task)
            &&& after.stage is Over ==> {
                &&& 2 <= done.len() <= 5
                &&& done.last() == over_report()
                &&& is_verdict(done[done.len() - 2])
                &&& done.len() > 2 ==> done[0] == up[0]
                &&& done.len() > 3 ==> done.len() == 5 && is_connected_report(done[1]) && done[2]
                    == SessionActionView::Run(session.task)
                &&& is_completed_report(done[done.len() - 2]) ==> done.len() == 5 && done[3]
                    == SessionActionView::Emit(DccEventView::Completed { path: session.saved })
            }
        }),
    decreases inputs.len(),
{
    if inputs.len() > 0 {
        lemma_session_progress(session, inputs.drop_last());
    }
}

/// A fingerprint is shown only on the dialling side of a secure session, where it
/// is that of the certificate that the peer showed.
pub proof fn a_fingerprint_is_the_servers(secure: bool, incoming: bool, cert: Option<Seq<u8>>)
    ensures
        shown_fingerprint(stream::wrapping(secure, incoming), cert) is Some <==> secure && !incoming
            && cert is Some,
        shown_fingerprint(stream::wrapping(secure, incoming), cert) matches Some(fingerprint)
            ==> fingerprint == stream::colon_hex(stream::sha256_of(cert->0)),
{
}

/// What a session is told and what it says are taken for what they are.
pub proof fn session_inputs_and_actions_say_what_they_are(
    input: SessionInput,
    action: SessionAction,
)
    ensures
        match input {
            SessionInput::PeerConnected => input@ == SessionInputView::PeerConnected,
            SessionInput::Wrapped(Some(cert)) => input@ == SessionInputView::Wrapped(Some(cert@)),
            SessionInput::Wrapped(None) => input@ == SessionInputView::Wrapped(None),
            SessionInput::Finished => input@ == SessionInputView::Finished,
            SessionInput::Failed(error) => input@ == SessionInputView::Failed(error@),
        },
        match action {
            SessionAction::Wrap(how) => action@ == SessionActionView::Wrap(how),
            SessionAction::Emit(event) => action@ == SessionActionView::Emit(event@),
            SessionAction::Run(task) => action@ == SessionActionView::Run(task),
        },
{
}

/// The last events of a session are how it went and that it is over: a session that
/// came to its end names its file, one that failed says why.
pub proof fn a_session_says_how_it_went(
    path: Option<String>,
    error: DccError,
)
    ensures
        ending(outcome(Ok(path))) == seq![
            DccEventView::Completed { path: views::opt_view(path) },
            DccEventView::Closed,
        ],
        ending(outcome(Err(error))) == seq![
            DccEventView::Error(dcc::error_message(error@)),
            DccEventView::Closed,
        ],
{
}

/// An offered session is wrapped as the server where it is secure, and is for sending
/// its file if it has one, else for a chat in its encoding. It receives no file.
pub proof fn an_offer_is_for_what_it_says(options: DccListenOptions)
    ensures
        ({
            let session = offered(options);
            &&& session.stage is Waiting
            &&& session.wrapping == (if options.secure {
                Wrapping::AcceptTls
            } else {
                Wrapping::Plain
            })
            &&& options.file_path is Some ==> session.task == Task::SendFile
            &&& options.file_path is None ==> session.task == Task::Chat(options.encoding)
            &&& session.saved is None
        }),
{
}

/// A session that is taken up is wrapped as the client where it is secure, and is for
/// receiving a file of the announced length if it has somewhere to put one, which it
/// names, else for a chat in its encoding.
pub proof fn an_accepted_session_is_for_what_it_says(options: DccConnectOptions)
    ensures
        ({
            let session = accepted(options);
            &&& session.stage is Waiting
            &&& session.wrapping == (if options.secure {
                Wrapping::ConnectTls
            } else {
                Wrapping::Plain
            })
            &&& options.save_path matches Some(path) ==> session.task == (Task::ReceiveFile {
                size: options.size,
            }) && session.saved == Some(lossy_path(path))
            &&& options.save_path is None ==> session.task == Task::Chat(options.encoding)
                && session.saved is None
        }),
{
}

/// A session in which nothing fails: the peer's socket is wrapped, that it is up is
/// reported, with the fingerprint of the server's certificate on the dialling side of
/// a secure session, what the session is for is done, and its end is reported.
pub proof fn a_session_that_goes_well(session: SessionView, cert: Option<Seq<u8>>)
    requires
        session.stage is Waiting,
    ensures
        ({
            let (wrapping, first) = session_step(session, SessionInputView::PeerConnected);
            let (running, second) = session_step(wrapping, SessionInputView::Wrapped(cert));
            let (over, third) = session_step(running, SessionInputView::Finished);
            let tls_fingerprint = match cert {
                Some(cert) if session.wrapping is ConnectTls => Some(
                    stream::colon_hex(stream::sha256_of(cert)),
                ),
                _ => None,
            };
            &&& first == seq![SessionActionView::Wrap(session.wrapping)]
            &&& wrapping == (SessionView { stage: Stage::Wrapping, ..session })
            &&& second == seq![
                SessionActionView::Emit(DccEventView::Connected { tls_fingerprint }),
                SessionActionView::Run(session.task),
            ]
            &&& running == (SessionView { stage: Stage::Running, ..session })
            &&& third == seq![
                SessionActionView::Emit(DccEventView::Completed { path: session.saved }),
                SessionActionView::Emit(DccEventView::Closed),
            ]
            &&& over == (SessionView { stage: Stage::Over, ..session })
        }),
{
    let wrapping = session_step(session, SessionInputView::PeerConnected).0;
    let running = session_step(wrapping, SessionInputView::Wrapped(cert)).0;
    assert(session_step(running, SessionInputView::Finished).1 =~= seq![
        SessionActionView::Emit(DccEventView::Completed { path: session.saved }),
        SessionActionView::Emit(DccEventView::Closed),
    ]);
}

/// A failure ends a session at every stage, with the message of the error and the
/// report of the end.
pub proof fn a_failure_is_reported_at_every_stage(session: SessionView, error: DccErrorView)
    requires
        session.stage is Waiting || session.stage is Wrapping || session.stage is Running,
    ensures
        session_step(session, SessionInputView::Failed(error)) == (
            SessionView { stage: Stage::Over, ..session },
            seq![
                SessionActionView::Emit(DccEventView::Error(dcc::error_message(error))),
                SessionActionView::Emit(DccEventView::Closed),
            ],
        ),
{
    assert(session_step(session, SessionInputView::Failed(error)).1 =~= seq![
        SessionActionView::Emit(DccEventView::Error(dcc::error_message(error))),
        SessionActionView::Emit(DccEventView::Closed),
    ]);
}

/// What does not belong to how far a session has come changes nothing.
pub proof fn what_is_out_of_order_changes_nothing(session: SessionView, input: SessionInputView)
    requires
        match session.stage {
            Stage::Waiting => input is Wrapped || input is Finished,
            Stage::Wrapping => input is PeerConnected || input is Finished,
            Stage::Running => input is PeerConnected || input is Wrapped,
            Stage::Over => true,
        },
    ensures
        session_step(session, input) == (session, Seq::<SessionActionView>::empty()),
{
}

} // verus!
