//! The decisions of the one-shot listener on the offering side: which port to
//! bind, and whose connection to take.
use vstd::prelude::*;

use crate::dcc::{DccError, DccErrorView};

verus! {

/// An IP address, as the number that its bytes make in network order.
#[derive(Copy, Clone, Debug, PartialEq, Eq, Structural)]
pub enum IpAddr {
    V4(u32),
    V6(u128),
}

/// An IP address and a port.
#[derive(Copy, Clone, Debug, PartialEq, Eq, Structural)]
pub struct SocketAddr {
    pub ip: IpAddr,
    pub port: u16,
}

/// The address that another one stands for: an IPv4-mapped IPv6 address, that
/// is one in `::ffff:0:0/96`, stands for the IPv4 address in its last 32 bits,
/// and any other for itself.
pub open spec fn canonical_ip(ip: IpAddr) -> IpAddr {
    match ip {
        IpAddr::V6(bits) => if bits / 0x1_0000_0000 == 0xFFFF {
            IpAddr::V4((bits % 0x1_0000_0000) as u32)
        } else {
            ip
        },
        IpAddr::V4(_) => ip,
    }
}

impl IpAddr {
    /// The address that this one stands for.
    pub fn canonical(self) -> (ip: IpAddr)
        ensures
            ip == canonical_ip(self),
    {
        match self {
            IpAddr::V6(bits) => if bits / 0x1_0000_0000 == 0xFFFF {
                IpAddr::V4((bits % 0x1_0000_0000) as u32)
            } else {
                self
            },
            IpAddr::V4(_) => self,
        }
    }
}

/// Whether a connection comes from the expected peer. An IPv4-mapped IPv6
/// address counts as its IPv4 form: a dual-stack listener reports
/// `::ffff:1.2.3.4` for a peer that offered `1.2.3.4`.
pub fn same_host(expected: IpAddr, actual: SocketAddr) -> (same: bool)
    ensures
        same == (canonical_ip(expected) == canonical_ip(actual.ip)),
{
    expected.canonical() == actual.ip.canonical()
}

/// An IPv4 address is the same host as its IPv4-mapped form, and, among IPv4
/// addresses and mapped ones, as no other.
pub proof fn mapped_address_is_its_ipv4_form(v4: u32, other: u32)
    ensures
        ({
            let mapped = IpAddr::V6((0xFFFF_0000_0000 + other) as u128);
            (canonical_ip(IpAddr::V4(v4)) == canonical_ip(mapped)) == (v4 == other)
        }),
{
}

// ---------------------------------------------------------------------------
// Binding

/// Which ports are left to try.
pub struct ScanView {
    /// Whether any free port will do.
    pub any: bool,
    /// The port to try.
    pub port: u16,
    /// The last port to try.
    pub last: u16,
}

/// The ports to try, in order: whichever the system gives (port 0) where both
/// ends of the range are 0, else every port of the range, from its lower end. Port
/// 0 is in no range: for it the system would pick any port.
pub open spec fn port_candidates(start: u16, end: u16) -> Seq<u16> {
    let low = if start <= end {
        start
    } else {
        end
    };
    let high = if start <= end {
        end
    } else {
        start
    };
    if start == 0 && end == 0 {
        seq![0u16]
    } else {
        let first = if low == 0 {
            1
        } else {
            low
        };
        Seq::new((high - first + 1) as nat, |i: int| (first + i) as u16)
    }
}

/// A search that has yet to begin.
pub open spec fn new_scan(start: u16, end: u16) -> ScanView {
    ScanView {
        any: start == 0 && end == 0,
        port: port_candidates(start, end)[0],
        last: port_candidates(start, end).last(),
    }
}

/// The port could not be bound, for a reason: the next one, or why there is
/// none.
pub open spec fn scan_refused(scan: ScanView, reason: Seq<char>) -> (
    ScanView,
    Result<u16, DccErrorView>,
) {
    if scan.any {
        (scan, Err(DccErrorView::Io(reason)))
    } else if scan.port < scan.last {
        let next = (scan.port + 1) as u16;
        (ScanView { port: next, ..scan }, Ok(next))
    } else {
        (scan, Err(DccErrorView::NoFreePort))
    }
}

/// The search for a port to listen on.
///
/// A range is there for users who forwarded certain ports; for everyone else any
/// free port is best.
pub struct PortScan {
    any: bool,
    port: u16,
    last: u16,
}

impl View for PortScan {
    type V = ScanView;

    closed spec fn view(&self) -> ScanView {
        ScanView { any: self.any, port: self.port, last: self.last }
    }
}

impl PortScan {
    /// A search through the ports from one end of a range to the other, both
    /// included and in either order, or for any free port where both are 0.
    pub fn new(start: u16, end: u16) -> (scan: Self)
        ensures
            scan@ == new_scan(start, end),
    {
        let (low, high) = if start <= end {
            (start, end)
        } else {
            (end, start)
        };
        let any = high == 0;
        let port = if low == 0 && !any {
            1
        } else {
            low
        };
        PortScan { any, port, last: high }
    }

    /// The port to try.
    pub fn port(&self) -> (port: u16)
        ensures
            port == self@.port,
    {
        self.port
    }

    /// The port could not be bound, for a reason. The port to try next, or the
    /// error where there is none.
    pub fn refused(&mut self, reason: String) -> (next: Result<u16, DccError>)
        ensures
            final(self)@ == scan_refused(old(self)@, reason@).0,
            match next {
                Ok(port) => scan_refused(old(self)@, reason@).1 == Ok::<u16, DccErrorView>(port),
                Err(error) => scan_refused(old(self)@, reason@).1 == Err::<u16, DccErrorView>(
                    error@,
                ),
            },
    {
        if self.any {
            Err(DccError::Io(reason))
        } else if self.port < self.last {
            self.port = self.port + 1;
            Ok(self.port)
        } else {
            Err(DccError::NoFreePort)
        }
    }
}

/// A search after some ports could not be bound.
pub open spec fn scan_after(start: u16, end: u16, refusals: nat, reason: Seq<char>) -> ScanView
    decreases refusals,
{
    if refusals == 0 {
        new_scan(start, end)
    } else {
        scan_refused(scan_after(start, end, (refusals - 1) as nat, reason), reason).0
    }
}

/// Unless any free port will do, the ports to try are those inside the range and no
/// others, from the lowest to the highest, whichever end of the range is given
/// first.
pub proof fn the_ports_to_try_are_those_of_the_range(start: u16, end: u16)
    requires
        start != 0 || end != 0,
    ensures
        port_candidates(start, end).len() > 0,
        forall|port: u16| #[trigger]
            port_candidates(start, end).contains(port) <==> port != 0 && (start <= port <= end
                || end <= port <= start),
        forall|i: int, j: int|
            0 <= i < j < port_candidates(start, end).len() ==> port_candidates(start, end)[i]
                < port_candidates(start, end)[j],
        port_candidates(start, end) == port_candidates(end, start),
{
    let ports = port_candidates(start, end);
    assert forall|port: u16| port != 0 && (start <= port <= end || end <= port <= start) implies
        #[trigger] ports.contains(port) by {
        assert(ports[port - ports[0]] == port);
    }
}

/// A search tries the ports in order, each of them once, and gives up only when the
/// last one could not be bound either: for any free port with that reason, for a
/// range with the error that none is free.
pub proof fn every_port_is_tried(start: u16, end: u16, refusals: nat, reason: Seq<char>)
    requires
        refusals < port_candidates(start, end).len(),
    ensures
        scan_after(start, end, refusals, reason).port == port_candidates(
            start,
            end,
        )[refusals as int],
        scan_refused(scan_after(start, end, refusals, reason), reason).1 == (if refusals + 1
            < port_candidates(start, end).len() {
            Ok(port_candidates(start, end)[refusals as int + 1])
        } else if start == 0 && end == 0 {
            Err(DccErrorView::Io(reason))
        } else {
            Err(DccErrorView::NoFreePort)
        }),
{
    lemma_scan_after(start, end, refusals, reason);
}

proof fn lemma_scan_after(start: u16, end: u16, refusals: nat, reason: Seq<char>)
    requires
        refusals < port_candidates(start, end).len(),
    ensures
        scan_after(start, end, refusals, reason) == (ScanView {
            port: port_candidates(start, end)[refusals as int],
            ..new_scan(start, end)
        }),
    decreases refusals,
{
    if refusals > 0 {
        lemma_scan_after(start, end, (refusals - 1) as nat, reason);
    }
}

// ---------------------------------------------------------------------------
// Accepting

/// What happened while waiting for the peer. Times are in nanoseconds.
#[derive(Debug)]
pub enum AcceptInput {
    /// About to wait, this long after the wait began.
    Tick(u128),
    /// Somebody connected.
    Connected(SocketAddr),
    /// Nobody connected in time.
    TimedOut,
    /// The socket failed, for this reason.
    Failed(String),
}

/// What is to be done next.
#[derive(Debug)]
pub enum AcceptAction {
    /// Wait for a connection, no longer than this many nanoseconds.
    Wait(u128),
    /// The connection is the peer's: use it.
    Take,
    /// The connection is a stranger's: drop it, and wait on.
    Drop,
    /// Give up.
    Fail(DccError),
}

/// What an action says.
pub enum AcceptView {
    Wait(nat),
    Take,
    Drop,
    Fail(DccErrorView),
}

impl View for AcceptAction {
    type V = AcceptView;

    open spec fn view(&self) -> AcceptView {
        match self {
            AcceptAction::Wait(nanos) => AcceptView::Wait(*nanos as nat),
            AcceptAction::Take => AcceptView::Take,
            AcceptAction::Drop => AcceptView::Drop,
            AcceptAction::Fail(error) => AcceptView::Fail(error@),
        }
    }
}

/// Whether a connection is the one that is waited for: anybody's, or that of a
/// certain peer.
pub open spec fn is_expected(expect_peer: Option<IpAddr>, peer: SocketAddr) -> bool {
    match expect_peer {
        Some(expected) => canonical_ip(expected) == canonical_ip(peer.ip),
        None => true,
    }
}

/// What to do while waiting for the peer, for at most `timeout` nanoseconds in
/// all.
pub open spec fn accept_step(
    expect_peer: Option<IpAddr>,
    timeout: nat,
    input: AcceptInput,
) -> AcceptView {
    match input {
        AcceptInput::Tick(elapsed) => if elapsed >= timeout {
            AcceptView::Fail(DccErrorView::Timeout)
        } else {
            AcceptView::Wait((timeout - elapsed) as nat)
        },
        AcceptInput::Connected(peer) => if is_expected(expect_peer, peer) {
            AcceptView::Take
        } else {
            AcceptView::Drop
        },
        AcceptInput::TimedOut => AcceptView::Fail(DccErrorView::Timeout),
        AcceptInput::Failed(reason) => AcceptView::Fail(DccErrorView::Io(reason@)),
    }
}

/// The wait for exactly one connection, from a certain peer if one is given.
///
/// The port was advertised over IRC, where others can see the offer. Were the
/// address not compared, whoever reached the port first would have the session.
/// A stranger's connection changes nothing, so it cannot use up the place that
/// the peer needs.
pub struct AcceptWait {
    pub expect_peer: Option<IpAddr>,
    pub timeout_nanos: u128,
}

impl AcceptWait {
    /// What to do next.
    pub fn step(&self, input: AcceptInput) -> (action: AcceptAction)
        ensures
            action@ == accept_step(self.expect_peer, self.timeout_nanos as nat, input),
    {
        match input {
            AcceptInput::Tick(elapsed) => if elapsed >= self.timeout_nanos {
                AcceptAction::Fail(DccError::Timeout)
            } else {
                AcceptAction::Wait(self.timeout_nanos - elapsed)
            },
            AcceptInput::Connected(peer) => {
                let expected = match self.expect_peer {
                    Some(expected) => same_host(expected, peer),
                    None => true,
                };
                if expected {
                    AcceptAction::Take
                } else {
                    AcceptAction::Drop
                }
            },
            AcceptInput::TimedOut => AcceptAction::Fail(DccError::Timeout),
            AcceptInput::Failed(reason) => AcceptAction::Fail(DccError::Io(reason)),
        }
    }
}

/// A wait is never longer than the time that is left, and none begins once there
/// is no time left, so a peer that never comes is not waited for without end.
pub proof fn a_wait_ends_in_time(expect_peer: Option<IpAddr>, timeout: nat, elapsed: u128)
    ensures
        match accept_step(expect_peer, timeout, AcceptInput::Tick(elapsed)) {
            AcceptView::Wait(nanos) => nanos > 0 && elapsed + nanos == timeout,
            action => elapsed >= timeout && action == AcceptView::Fail(DccErrorView::Timeout),
        },
        accept_step(expect_peer, timeout, AcceptInput::TimedOut) == AcceptView::Fail(
            DccErrorView::Timeout,
        ),
{
}

/// How a wait ends.
pub enum AcceptEnd {
    Taken(SocketAddr),
    Failed(DccErrorView),
}

/// How a wait ends in which these things happen, in order, if it ends.
pub open spec fn accept_run(
    expect_peer: Option<IpAddr>,
    timeout: nat,
    inputs: Seq<AcceptInput>,
) -> Option<AcceptEnd>
    decreases inputs.len(),
{
    if inputs.len() == 0 {
        None
    } else {
        match (accept_step(expect_peer, timeout, inputs[0]), inputs[0]) {
            (AcceptView::Take, AcceptInput::Connected(peer)) => Some(AcceptEnd::Taken(peer)),
            (AcceptView::Fail(error), _) => Some(AcceptEnd::Failed(error)),
            _ => accept_run(expect_peer, timeout, inputs.drop_first()),
        }
    }
}

/// Whether something is the connection of a stranger.
pub open spec fn is_stranger(expect_peer: Option<IpAddr>, input: AcceptInput) -> bool {
    input matches AcceptInput::Connected(peer) && !is_expected(expect_peer, peer)
}

/// What happens in a wait, without the strangers.
pub open spec fn without_strangers(expect_peer: Option<IpAddr>, inputs: Seq<AcceptInput>) -> Seq<
    AcceptInput,
>
    decreases inputs.len(),
{
    if inputs.len() == 0 {
        seq![]
    } else if is_stranger(expect_peer, inputs[0]) {
        without_strangers(expect_peer, inputs.drop_first())
    } else {
        seq![inputs[0]] + without_strangers(expect_peer, inputs.drop_first())
    }
}

/// Only the expected peer gets the session, and strangers make no difference to
/// how the wait ends: it ends as it would had they not come.
pub proof fn strangers_make_no_difference(
    expect_peer: Option<IpAddr>,
    timeout: nat,
    inputs: Seq<AcceptInput>,
)
    ensures
        accept_run(expect_peer, timeout, inputs) matches Some(AcceptEnd::Taken(peer))
            ==> is_expected(expect_peer, peer),
        accept_run(expect_peer, timeout, inputs) == accept_run(
            expect_peer,
            timeout,
            without_strangers(expect_peer, inputs),
        ),
    decreases inputs.len(),
{
    if inputs.len() > 0 {
        let rest = without_strangers(expect_peer, inputs.drop_first());
        strangers_make_no_difference(expect_peer, timeout, inputs.drop_first());
        assert((seq![inputs[0]] + rest).drop_first() =~= rest);
    }
}

/// Two addresses are the same host where they are the same address, or where one is
/// an IPv4 address and the other its IPv4-mapped form, `::ffff:0:0` and the address;
/// no others are.
pub proof fn the_same_host_has_the_same_address(a: IpAddr, b: IpAddr)
    ensures
        (canonical_ip(a) == canonical_ip(b)) == (match (a, b) {
            (IpAddr::V4(x), IpAddr::V4(y)) => x == y,
            (IpAddr::V6(x), IpAddr::V6(y)) => x == y,
            (IpAddr::V4(x), IpAddr::V6(y)) => y == 0xFFFF_0000_0000 + x,
            (IpAddr::V6(x), IpAddr::V4(y)) => x == 0xFFFF_0000_0000 + y,
        }),
{
    if let (IpAddr::V6(x), IpAddr::V6(y)) = (a, b) {
        assert(x == x / 0x1_0000_0000 * 0x1_0000_0000 + x % 0x1_0000_0000);
        assert(y == y / 0x1_0000_0000 * 0x1_0000_0000 + y % 0x1_0000_0000);
    }
}

/// A connection is taken where nobody in particular is expected or its address is
/// that of the expected peer, in its IPv4 or its IPv4-mapped form, and is dropped
/// otherwise, whatever its port and however long the wait.
pub proof fn the_expected_peer_is_taken(expected: IpAddr, timeout: nat, ip: IpAddr, port: u16)
    ensures
        ({
            let connected = AcceptInput::Connected(SocketAddr { ip, port });
            let same = match (expected, ip) {
                (IpAddr::V4(x), IpAddr::V4(y)) => x == y,
                (IpAddr::V6(x), IpAddr::V6(y)) => x == y,
                (IpAddr::V4(x), IpAddr::V6(y)) => y == 0xFFFF_0000_0000 + x,
                (IpAddr::V6(x), IpAddr::V4(y)) => x == 0xFFFF_0000_0000 + y,
            };
            &&& accept_step(None, timeout, connected) == AcceptView::Take
            &&& same ==> accept_step(Some(expected), timeout, connected) == AcceptView::Take
            &&& !same ==> accept_step(Some(expected), timeout, connected) == AcceptView::Drop
        }),
        accept_step(
            Some(ip),
            timeout,
            AcceptInput::Connected(SocketAddr { ip, port }),
        ) == AcceptView::Take,
{
    the_same_host_has_the_same_address(expected, ip);
}

/// A wait fails for the reason that its socket fails, whoever is expected.
pub proof fn a_wait_fails_with_its_socket(
    expect_peer: Option<IpAddr>,
    timeout: nat,
    reason: String,
)
    ensures
        accept_step(expect_peer, timeout, AcceptInput::Failed(reason)) == AcceptView::Fail(
            DccErrorView::Io(reason@),
        ),
{
}

/// However many strangers come, the expected peer gets the session when it comes in
/// time, from whichever port.
pub proof fn the_peer_gets_the_session(
    expected: IpAddr,
    timeout: nat,
    strangers: Seq<AcceptInput>,
    port: u16,
)
    requires
        forall|i: int|
            0 <= i < strangers.len() ==> (match #[trigger] strangers[i] {
                AcceptInput::Connected(peer) => accept_step(Some(expected), timeout, strangers[i])
                    is Drop,
                AcceptInput::Tick(elapsed) => elapsed < timeout,
                _ => false,
            }),
    ensures
        ({
            let peer = SocketAddr { ip: expected, port };
            accept_run(Some(expected), timeout, strangers.push(AcceptInput::Connected(peer)))
                == Some(AcceptEnd::Taken(peer))
        }),
    decreases strangers.len(),
{
    let peer = SocketAddr { ip: expected, port };
    let inputs = strangers.push(AcceptInput::Connected(peer));
    the_expected_peer_is_taken(expected, timeout, expected, port);
    if strangers.len() > 0 {
        let rest = strangers.drop_first();
        assert forall|i: int| 0 <= i < rest.len() implies (match #[trigger] rest[i] {
            AcceptInput::Connected(peer) => accept_step(Some(expected), timeout, rest[i]) is Drop,
            AcceptInput::Tick(elapsed) => elapsed < timeout,
            _ => false,
        }) by {
            assert(rest[i] == strangers[i + 1]);
        }
        the_peer_gets_the_session(expected, timeout, rest, port);
        assert(inputs.drop_first() =~= rest.push(AcceptInput::Connected(peer)));
        assert(inputs[0] == strangers[0]);
    }
}

/// Where any free port will do, the system is asked for one, once. A port that could
/// not be bound leads to the one above it, as long as there is one in the range, and
/// the range stays as it is.
pub proof fn a_refused_port_leads_to_the_next(scan: ScanView, reason: Seq<char>)
    ensures
        port_candidates(0, 0) == seq![0u16],
        ({
            let (next, answer) = scan_refused(scan, reason);
            &&& scan.any ==> answer == Err::<u16, DccErrorView>(DccErrorView::Io(reason))
                && next == scan
            &&& !scan.any && scan.port < scan.last ==> (answer matches Ok(port) && port == scan.port
                + 1 && next == (ScanView { any: false, port, last: scan.last }))
            &&& !scan.any && scan.port >= scan.last ==> answer == Err::<u16, DccErrorView>(
                DccErrorView::NoFreePort,
            ) && next == scan
        }),
{
}

/// A search begins at the lower end of its range, whichever end is given first, and
/// ends at the upper one; at port 1 where the range begins at 0.
pub proof fn a_search_goes_through_its_range(start: u16, end: u16)
    ensures
        ({
            let scan = new_scan(start, end);
            &&& scan.any <==> start == 0 && end == 0
            &&& start == 0 && end == 0 ==> scan.port == 0
            &&& 0 < start <= end ==> scan.port == start && scan.last == end
            &&& 0 < end <= start ==> scan.port == end && scan.last == start
            &&& start == 0 < end ==> scan.port == 1 && scan.last == end
            &&& end == 0 < start ==> scan.port == 1 && scan.last == start
        }),
{
}

/// An IPv4 address stands for itself, and so does an IPv6 address that is not
/// IPv4-mapped; one that is stands for the IPv4 address that is mapped.
pub proof fn an_address_stands_for_itself_unless_mapped(v4: u32, v6: u128)
    ensures
        canonical_ip(IpAddr::V4(v4)) == IpAddr::V4(v4),
        canonical_ip(IpAddr::V6((0xFFFF_0000_0000 + v4) as u128)) == IpAddr::V4(v4),
        !(0xFFFF_0000_0000 <= v6 <= 0xFFFF_FFFF_FFFF) ==> canonical_ip(IpAddr::V6(v6))
            == IpAddr::V6(v6),
{
}

/// What a wait says to do is taken for what it is.
pub proof fn accept_actions_say_what_they_are(action: AcceptAction)
    ensures
        match action {
            AcceptAction::Wait(nanos) => action@ == AcceptView::Wait(nanos as nat),
            AcceptAction::Take => action@ == AcceptView::Take,
            AcceptAction::Drop => action@ == AcceptView::Drop,
            AcceptAction::Fail(error) => action@ == AcceptView::Fail(error@),
        },
{
}

} // verus!
