use sic_irc::dcc::session_certificate;
use sic_irc::{
    address, client_config, client_config_from, server_name, server_name_from, trusted_roots,
    ClientCommand, DriverAction, DriverInput, Encoding, IrcClientOptions, IrcDriver, IrcError,
    IrcEvent, CONNECT_TIMEOUT_SECS, READ_CHUNK,
};

fn options() -> IrcClientOptions {
    IrcClientOptions::new("127.0.0.1".to_string(), 6667)
}

fn connected() -> IrcDriver {
    let mut driver = IrcDriver::new(&options());
    driver.step(DriverInput::Dialed);
    assert!(driver.is_open());
    driver
}

fn send(line: &str) -> DriverInput {
    DriverInput::Command(Some(ClientCommand::Send(line.to_string())))
}

fn shown(actions: &Vec<DriverAction>) -> String {
    format!("{:?}", actions)
}

const CLOSED: &str = "[Emit(Closed)]";

#[test]
fn options_are_plain_utf8_at_first() {
    let options = IrcClientOptions::new("irc.example.org".to_string(), 6697);
    assert_eq!(options.host, "irc.example.org");
    assert_eq!(options.port, 6697);
    assert!(!options.tls);
    assert_eq!(options.encoding, Encoding::Utf8);
    assert_eq!(options.address(), "irc.example.org:6697");
    assert_eq!(Encoding::default(), Encoding::Utf8);
}

#[test]
fn addresses_join_host_and_port() {
    assert_eq!(address(&"h".to_string(), 0), "h:0");
    assert_eq!(address(&"h".to_string(), 65535), "h:65535");
}

#[test]
fn waits_and_reads_are_bounded() {
    assert_eq!(CONNECT_TIMEOUT_SECS, 30);
    assert_eq!(READ_CHUNK, 8192);
}

#[test]
fn raw_mode_connects_and_emits_socket_connected() {
    let mut driver = IrcDriver::new(&options());
    assert!(!driver.is_open());
    assert_eq!(shown(&driver.step(DriverInput::Dialed)), "[Emit(SocketConnected)]");
    assert!(driver.is_open());
}

#[test]
fn tls_comes_before_the_connection_is_reported() {
    let mut options = options();
    options.tls = true;
    let mut driver = IrcDriver::new(&options);
    assert_eq!(shown(&driver.step(DriverInput::Dialed)), "[StartTls]");
    assert!(!driver.is_open());
    assert_eq!(shown(&driver.step(DriverInput::Secured)), "[Emit(SocketConnected)]");
    assert!(driver.is_open());
}

#[test]
fn a_failed_connection_is_an_error_then_closed() {
    let mut driver = IrcDriver::new(&options());
    let actions = driver.step(DriverInput::ConnectFailed(IrcError::ConnectTimeout));
    assert_eq!(shown(&actions), "[Emit(Error(\"connection timed out\")), Emit(Closed)]");
    assert!(driver.is_closed());
    let mut options = options();
    options.tls = true;
    let mut driver = IrcDriver::new(&options);
    driver.step(DriverInput::Dialed);
    let actions = driver.step(DriverInput::ConnectFailed(IrcError::Tls("bad".to_string())));
    assert_eq!(shown(&actions), "[Emit(Error(\"TLS error: bad\")), Emit(Closed)]");
    assert!(driver.is_closed());
}

#[test]
fn closed_event_emitted_on_server_disconnect() {
    let mut driver = connected();
    assert_eq!(shown(&driver.step(DriverInput::Received(vec![]))), CLOSED);
    assert!(driver.is_closed());
}

#[test]
fn a_failed_read_is_an_error_then_closed() {
    let mut driver = connected();
    let actions = driver.step(DriverInput::ReadFailed("reset".to_string()));
    assert_eq!(shown(&actions), "[Emit(Error(\"reset\")), Emit(Closed)]");
}

#[test]
fn received_lines_are_reported() {
    let mut driver = connected();
    let actions = driver.step(DriverInput::Received(b":a 001 x :hi\r\n\nPING :y\nres".to_vec()));
    assert_eq!(
        shown(&actions),
        "[Emit(Raw { line: \":a 001 x :hi\", inbound: true }), \
         Emit(Raw { line: \"PING :y\", inbound: true })]"
    );
    let actions = driver.step(DriverInput::Received(b"t\r\n".to_vec()));
    assert_eq!(shown(&actions), "[Emit(Raw { line: \"rest\", inbound: true })]");
}

#[test]
fn received_lines_are_decoded_as_the_options_say() {
    let mut options = options();
    options.encoding = Encoding::Latin1;
    let mut driver = IrcDriver::new(&options);
    driver.step(DriverInput::Dialed);
    let actions = driver.step(DriverInput::Received(b"\xe9\n".to_vec()));
    assert_eq!(shown(&actions), "[Emit(Raw { line: \"\u{e9}\", inbound: true })]");
}

#[test]
fn reads_can_be_cut_anywhere() {
    let stream = b"one\r\ntwo\r\nthree\r\n";
    let mut whole = connected();
    let expected = whole.step(DriverInput::Received(stream.to_vec()));
    for cut in 1..stream.len() {
        let mut driver = connected();
        let mut actions = driver.step(DriverInput::Received(stream[..cut].to_vec()));
        actions.extend(driver.step(DriverInput::Received(stream[cut..].to_vec())));
        assert_eq!(shown(&actions), shown(&expected));
    }
}

#[test]
fn buffer_overflow_drops_connection() {
    let mut driver = connected();
    let chunk = vec![b'X'; 65_536];
    let mut actions = vec![];
    for _ in 0..40 {
        actions.extend(driver.step(DriverInput::Received(chunk.clone())));
    }
    assert_eq!(
        shown(&actions),
        format!("[Emit(Error({:?})), Emit(Closed)]", IrcError::BufferOverflow.to_string())
    );
    assert!(driver.is_closed());
}

#[test]
fn as_much_as_the_limit_may_be_buffered() {
    let mut driver = connected();
    assert!(driver.step(DriverInput::Received(vec![b'X'; 2 * 1024 * 1024])).is_empty());
    assert!(driver.is_open());
    let actions = driver.step(DriverInput::Received(vec![b'\n']));
    assert_eq!(actions.len(), 2);
    assert!(driver.is_closed());
}

#[test]
fn outbound_rate_limiter_drops_excess() {
    let mut driver = connected();
    let mut count = 0;
    for i in 0..60 {
        let actions = driver.step_at(send(&format!("PRIVMSG #c :{i}")), 1_000_000 * i);
        if actions.is_empty() {
            assert!(driver.is_open());
        } else {
            count += 1;
            driver.step_at(DriverInput::Wrote, 1_000_000 * i);
        }
    }
    assert_eq!(
        count, 50,
        "sliding-window limiter must pass exactly 50 of 60 within the window"
    );
    assert!(driver.step_at(send("early"), 5_000_000_000).is_empty());
    assert_eq!(driver.step_at(send("later"), 5_000_000_001).len(), 1);
    driver.step_at(DriverInput::Wrote, 5_000_000_001);
    assert!(driver.step_at(send("early"), 5_000_000_001).is_empty());
    assert_eq!(driver.step_at(send("later"), 5_001_000_001).len(), 1);
}

#[test]
fn a_goodbye_is_not_limited() {
    let mut driver = connected();
    for _ in 0..50 {
        driver.step_at(send("x"), 0);
        driver.step_at(DriverInput::Wrote, 0);
    }
    assert!(driver.step_at(send("x"), 0).is_empty());
    assert_eq!(driver.step_at(DriverInput::Command(Some(ClientCommand::Quit(None))), 0).len(), 1);
}

#[test]
fn send_writes_line_with_crlf_and_strips_injection() {
    let mut driver = connected();
    let actions = driver.step(send("PRIVMSG #c :hello\r\nINJECTED OPER\nevilworld"));
    match actions.as_slice() {
        [DriverAction::Write(bytes)] => {
            assert_eq!(bytes.as_slice(), b"PRIVMSG #c :helloINJECTED OPERevilworld\r\n")
        }
        other => panic!("unexpected actions: {other:?}"),
    }
}

#[test]
fn a_written_line_is_reported_as_it_went_out() {
    let mut driver = connected();
    driver.step(send("a\r\nb"));
    let actions = driver.step(DriverInput::Wrote);
    assert_eq!(shown(&actions), "[Emit(Raw { line: \"ab\", inbound: false })]");
    assert!(driver.is_open());
}

#[test]
fn a_line_that_cannot_be_written_ends_the_connection() {
    let mut driver = connected();
    driver.step(send("x"));
    assert_eq!(shown(&driver.step(DriverInput::WriteFailed)), CLOSED);
}

#[test]
fn quit_says_goodbye_and_shuts_down() {
    let mut driver = connected();
    let quit = ClientCommand::Quit(Some("by\r\ne".to_string()));
    let actions = driver.step(DriverInput::Command(Some(quit)));
    assert!(matches!(actions.as_slice(), [DriverAction::Write(b)] if b == b"QUIT :bye\r\n"));
    assert_eq!(
        shown(&driver.step(DriverInput::Wrote)),
        "[Emit(Raw { line: \"QUIT :bye\", inbound: false }), Shutdown, Emit(Closed)]"
    );
    assert!(driver.is_closed());
}

#[test]
fn quit_without_a_message_is_a_bare_word() {
    let mut driver = connected();
    let actions = driver.step(DriverInput::Command(Some(ClientCommand::Quit(None))));
    assert!(matches!(actions.as_slice(), [DriverAction::Write(b)] if b == b"QUIT\r\n"));
    assert_eq!(shown(&driver.step(DriverInput::WriteFailed)), "[Shutdown, Emit(Closed)]");
}

#[test]
fn disconnecting_closes_without_a_word() {
    let mut driver = connected();
    let command = DriverInput::Command(Some(ClientCommand::Disconnect));
    assert_eq!(shown(&driver.step(command)), CLOSED);
    let mut driver = connected();
    assert_eq!(shown(&driver.step(DriverInput::Command(None))), CLOSED);
}

#[test]
fn nothing_follows_the_end() {
    let mut driver = connected();
    driver.step(DriverInput::Received(vec![]));
    for input in [
        DriverInput::Dialed,
        DriverInput::Secured,
        DriverInput::ConnectFailed(IrcError::ConnectTimeout),
        DriverInput::Received(b"late\r\n".to_vec()),
        DriverInput::Received(vec![]),
        DriverInput::ReadFailed("late".to_string()),
        send("late"),
        DriverInput::Command(None),
        DriverInput::Wrote,
        DriverInput::WriteFailed,
    ] {
        assert!(driver.step(input).is_empty());
        assert!(driver.is_closed());
    }
}

#[test]
fn what_cannot_happen_changes_nothing() {
    let mut driver = IrcDriver::new(&options());
    assert!(driver.step(DriverInput::Received(b"x\n".to_vec())).is_empty());
    assert!(driver.step(DriverInput::Secured).is_empty());
    assert!(driver.step(send("x")).is_empty());
    assert_eq!(driver.step(DriverInput::Dialed).len(), 1);
    assert!(driver.step(DriverInput::Wrote).is_empty());
    assert!(driver.step(DriverInput::Dialed).is_empty());
    driver.step(send("x"));
    assert!(driver.step(DriverInput::Received(b"x\n".to_vec())).is_empty());
    assert!(!driver.is_open() && !driver.is_closed());
}

#[test]
fn events_are_reported_in_order() {
    let mut driver = IrcDriver::new(&options());
    let mut actions = driver.step(DriverInput::Dialed);
    actions.extend(driver.step(DriverInput::Received(b"a\n".to_vec())));
    actions.extend(driver.step(DriverInput::ReadFailed("e".to_string())));
    let events: Vec<&IrcEvent> = actions
        .iter()
        .map(|action| match action {
            DriverAction::Emit(event) => event,
            other => panic!("unexpected action: {other:?}"),
        })
        .collect();
    assert!(matches!(
        events.as_slice(),
        [IrcEvent::SocketConnected, IrcEvent::Raw { .. }, IrcEvent::Error(_), IrcEvent::Closed]
    ));
}

#[test]
fn server_names_are_hosts_and_addresses() {
    assert_eq!(server_name(&"irc.example.org".to_string()).unwrap().to_str(), "irc.example.org");
    assert_eq!(server_name(&"192.0.2.7".to_string()).unwrap().to_str(), "192.0.2.7");
}

#[test]
fn a_host_that_is_no_name_is_refused() {
    match server_name(&"not a host".to_string()) {
        Err(IrcError::InvalidHostname(text)) => assert_eq!(text, "not a host: invalid dns name"),
        other => panic!("unexpected result: {other:?}"),
    }
    match server_name_from(&"h".to_string(), Err("why".to_string())) {
        Err(error) => assert_eq!(error.to_string(), "invalid hostname: h: why"),
        other => panic!("unexpected result: {other:?}"),
    }
}

#[test]
fn certificates_that_cannot_be_read_are_left_out() {
    let cert = session_certificate().unwrap().cert;
    assert_eq!(trusted_roots(vec![]).len(), 0);
    assert_eq!(trusted_roots(vec![b"no certificate".to_vec()]).len(), 0);
    assert_eq!(trusted_roots(vec![cert.clone(), vec![], cert]).len(), 2);
}

#[test]
fn the_client_side_is_set_up_with_what_it_trusts() {
    assert!(client_config(vec![session_certificate().unwrap().cert, vec![7]]).is_ok());
    assert!(client_config(vec![]).is_ok());
    match client_config_from(Err("why".to_string())) {
        Err(error) => assert_eq!(error.to_string(), "TLS error: why"),
        Ok(_) => panic!("set up without a reason"),
    }
}
