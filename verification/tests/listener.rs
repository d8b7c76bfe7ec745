use sic_irc::dcc::{
    same_host, AcceptAction, AcceptInput, AcceptWait, DccError, IpAddr, PortScan, SocketAddr,
    ACCEPT_TIMEOUT_SECS, CONNECT_TIMEOUT_SECS,
};

const ONE_TWO_THREE_FOUR: u32 = 0x0102_0304;
const FIVE_SIX_SEVEN_EIGHT: u32 = 0x0506_0708;

fn v4(ip: u32) -> SocketAddr {
    SocketAddr { ip: IpAddr::V4(ip), port: 1234 }
}

fn mapped(ip: u32) -> SocketAddr {
    SocketAddr { ip: IpAddr::V6(0xFFFF_0000_0000 + ip as u128), port: 1234 }
}

#[test]
fn ipv4_mapped_peer_matches_its_ipv4_form() {
    let expected = IpAddr::V4(ONE_TWO_THREE_FOUR);
    assert!(same_host(expected, mapped(ONE_TWO_THREE_FOUR)));
}

#[test]
fn different_hosts_do_not_match() {
    let expected = IpAddr::V4(ONE_TWO_THREE_FOUR);
    assert!(!same_host(expected, v4(FIVE_SIX_SEVEN_EIGHT)));
}

#[test]
fn both_sides_may_be_mapped() {
    assert!(same_host(mapped(ONE_TWO_THREE_FOUR).ip, v4(ONE_TWO_THREE_FOUR)));
    assert!(same_host(mapped(ONE_TWO_THREE_FOUR).ip, mapped(ONE_TWO_THREE_FOUR)));
    assert!(!same_host(mapped(ONE_TWO_THREE_FOUR).ip, mapped(FIVE_SIX_SEVEN_EIGHT)));
    assert!(!same_host(IpAddr::V4(ONE_TWO_THREE_FOUR), mapped(FIVE_SIX_SEVEN_EIGHT)));
}

#[test]
fn other_ipv6_addresses_stand_for_themselves() {
    let compatible = SocketAddr { ip: IpAddr::V6(ONE_TWO_THREE_FOUR as u128), port: 1 };
    assert!(!same_host(IpAddr::V4(ONE_TWO_THREE_FOUR), compatible));
    assert!(same_host(compatible.ip, compatible));
    let prefixed = SocketAddr { ip: IpAddr::V6((1 << 100) + 0xFFFF_0102_0304), port: 1 };
    assert!(!same_host(IpAddr::V4(ONE_TWO_THREE_FOUR), prefixed));
    assert_eq!(mapped(7).ip.canonical(), IpAddr::V4(7));
    assert_eq!(prefixed.ip.canonical(), prefixed.ip);
}

#[test]
fn any_port_is_tried_once() {
    let mut scan = PortScan::new(0, 0);
    assert_eq!(scan.port(), 0);
    assert!(matches!(scan.refused("in use".to_string()), Err(DccError::Io(why)) if why == "in use"));
}

#[test]
fn every_port_of_a_range_is_tried() {
    for (start, end) in [(5000, 5003), (5003, 5000)] {
        let mut scan = PortScan::new(start, end);
        let mut tried = vec![scan.port()];
        while let Ok(port) = scan.refused("in use".to_string()) {
            assert_eq!(port, scan.port());
            tried.push(port);
        }
        assert_eq!(tried, vec![5000, 5001, 5002, 5003]);
        assert!(matches!(scan.refused("in use".to_string()), Err(DccError::NoFreePort)));
    }
}

#[test]
fn port_zero_is_in_no_range() {
    for (start, end) in [(0, 2), (2, 0)] {
        let mut scan = PortScan::new(start, end);
        assert_eq!(scan.port(), 1);
        assert_eq!(scan.refused(String::new()).unwrap(), 2);
        assert!(matches!(scan.refused(String::new()), Err(DccError::NoFreePort)));
    }
}

#[test]
fn the_highest_port_ends_a_range() {
    let mut scan = PortScan::new(65535, 65535);
    assert_eq!(scan.port(), 65535);
    assert!(matches!(scan.refused(String::new()), Err(DccError::NoFreePort)));
}

#[test]
fn listener_ignores_a_connection_from_the_wrong_address() {
    let wait = AcceptWait {
        expect_peer: Some(IpAddr::V4(0xCB00_7101)),
        timeout_nanos: 1_000,
    };
    let loopback = v4(0x7F00_0001);
    assert!(matches!(wait.step(AcceptInput::Connected(loopback)), AcceptAction::Drop));
    assert!(matches!(wait.step(AcceptInput::Connected(mapped(0xCB00_7101))), AcceptAction::Take));
}

#[test]
fn anybody_will_do_where_nobody_is_expected() {
    let wait = AcceptWait { expect_peer: None, timeout_nanos: 1_000 };
    assert!(matches!(wait.step(AcceptInput::Connected(v4(1))), AcceptAction::Take));
}

#[test]
fn accept_times_out_when_nobody_connects() {
    let wait = AcceptWait { expect_peer: None, timeout_nanos: 50_000_000 };
    assert!(matches!(wait.step(AcceptInput::Tick(0)), AcceptAction::Wait(50_000_000)));
    assert!(matches!(wait.step(AcceptInput::Tick(49_999_999)), AcceptAction::Wait(1)));
    assert!(matches!(
        wait.step(AcceptInput::Tick(50_000_000)),
        AcceptAction::Fail(DccError::Timeout)
    ));
    assert!(matches!(wait.step(AcceptInput::TimedOut), AcceptAction::Fail(DccError::Timeout)));
}

#[test]
fn a_failed_socket_ends_the_wait() {
    let wait = AcceptWait { expect_peer: None, timeout_nanos: 1 };
    match wait.step(AcceptInput::Failed("gone".to_string())) {
        AcceptAction::Fail(error) => assert_eq!(error.to_string(), "I/O error: gone"),
        other => panic!("unexpected action: {other:?}"),
    }
}

#[test]
fn both_roles_give_up_in_time() {
    assert_eq!(ACCEPT_TIMEOUT_SECS, 120);
    assert_eq!(CONNECT_TIMEOUT_SECS, 30);
}
