use sic_irc::dcc::{
    decode_ack, encode_ack, DccError, DccEvent, ReceiveAction, ReceiveInput, ReceivePump,
    SendAction, SendInput, SendPump, CHUNK, FINAL_ACK_TIMEOUT_SECS, PROGRESS_INTERVAL,
    SEND_AHEAD_WINDOW,
};

fn sent(actions: &Vec<SendAction>) -> String {
    format!("{:?}", actions)
}

fn got(actions: &Vec<ReceiveAction>) -> String {
    format!("{:?}", actions)
}

#[test]
fn sizes_and_times_are_fixed() {
    assert_eq!(CHUNK, 64 * 1024);
    assert_eq!(SEND_AHEAD_WINDOW, 1024 * 1024);
    assert_eq!(PROGRESS_INTERVAL, 256 * 1024);
    assert_eq!(FINAL_ACK_TIMEOUT_SECS, 30);
}

#[test]
fn acknowledgements_are_big_endian() {
    assert_eq!(encode_ack(0x0102_0304), [1, 2, 3, 4]);
    assert_eq!(decode_ack([1, 2, 3, 4]), 0x0102_0304);
    assert_eq!(decode_ack([0xFF; 4]), u32::MAX as u64);
}

#[test]
fn acknowledgements_wrap_at_four_gibibytes() {
    assert_eq!(encode_ack(0x1_0000_0005), [0, 0, 0, 5]);
    assert_eq!(decode_ack(encode_ack(u64::MAX)), u32::MAX as u64);
}

/// Bytes in which none stands where another does.
fn contents(len: usize) -> Vec<u8> {
    (0..len).map(|i| (i % 251) as u8 ^ (i / 251) as u8).collect()
}

fn zeros(n: u64) -> Vec<u8> {
    vec![0; n as usize]
}

/// Sends a file to a peer that acknowledges all that was written: `read` gives what
/// the file holds, by place and length, and `write` takes what is written. Gives the
/// last actions, the reports of progress and how many bytes were written.
fn send_whole(
    total: u64,
    read: impl Fn(u64, u64) -> Vec<u8>,
    mut write: impl FnMut(&[u8]),
) -> (Vec<SendAction>, Vec<u64>, u64) {
    let mut sender = SendPump::new(total);
    let mut taken: u64 = 0;
    let mut reports = vec![];
    let mut written: u64 = 0;
    let mut actions = vec![SendAction::ReadFile];
    loop {
        let mut next = None;
        for action in &actions {
            match action {
                SendAction::ReadFile => {
                    let n = (CHUNK as u64).min(total - taken);
                    next = Some(SendInput::FileRead(read(taken, n)));
                    taken += n;
                }
                SendAction::WriteChunk(chunk) => {
                    write(chunk);
                    written += chunk.len() as u64;
                    next = Some(SendInput::Wrote);
                }
                SendAction::ReadAck | SendAction::ReadFinalAck => {
                    next = Some(SendInput::Ack(encode_ack(written)));
                }
                SendAction::Flush => next = Some(SendInput::Flushed),
                SendAction::Emit(DccEvent::Progress { transferred }) => reports.push(*transferred),
                SendAction::Emit(other) => panic!("unexpected event: {other:?}"),
                SendAction::Shutdown | SendAction::Finish(_) => {}
            }
        }
        match next {
            Some(answer) => actions = sender.step(answer),
            None => {
                assert_eq!(sender.sent(), written);
                return (actions, reports, written);
            }
        }
    }
}

/// Sends a file to a peer that acknowledges it, and gives the last actions, the
/// reports of progress and what was written.
fn send_file(file: &[u8]) -> (Vec<SendAction>, Vec<u64>, Vec<u8>) {
    let mut written = vec![];
    let (last, reports, _) = send_whole(
        file.len() as u64,
        |at, n| file[at as usize..(at + n) as usize].to_vec(),
        |chunk| written.extend_from_slice(chunk),
    );
    (last, reports, written)
}

#[test]
fn sends_a_file_to_a_peer_that_connects() {
    for payload in [vec![9u8; 300 * 1024], contents(300 * 1024)] {
        let (last, reports, written) = send_file(&payload);
        assert_eq!(sent(&last), "[Shutdown, Finish(Ok(()))]");
        assert!(written == payload);
        assert_eq!(reports, vec![256 * 1024, 300 * 1024]);
    }
}

#[test]
fn a_long_file_waits_for_acknowledgements() {
    let file = contents(3 * 1024 * 1024 + 17);
    let total = file.len() as u64;
    let (last, reports, written) = send_file(&file);
    assert!(matches!(last.last(), Some(SendAction::Finish(Ok(())))));
    assert!(written == file);
    assert_eq!(reports.last(), Some(&total));
    for pair in reports[..reports.len() - 1].windows(2) {
        assert!(pair[1] - pair[0] >= PROGRESS_INTERVAL);
    }
    assert!(reports.windows(2).all(|pair| pair[0] < pair[1]));
}

#[test]
fn a_file_past_four_gibibytes_is_sent() {
    let total = 5 * 1024 * 1024 * 1024 + 17;
    let (last, reports, written) = send_whole(total, |_, n| zeros(n), |_| ());
    assert_eq!(sent(&last), "[Shutdown, Finish(Ok(()))]");
    assert_eq!(written, total);
    assert_eq!(reports.last(), Some(&total));
}

#[test]
fn an_empty_file_is_sent_at_once() {
    let mut sender = SendPump::new(0);
    assert_eq!(sent(&sender.step(SendInput::FileRead(vec![]))), "[Flush]");
    assert_eq!(
        sent(&sender.step(SendInput::Flushed)),
        "[Shutdown, Emit(Progress { transferred: 0 }), Finish(Ok(()))]"
    );
}

/// A sender that has written as much as the window holds, of a file of ten windows.
fn at_the_window() -> SendPump {
    let mut sender = SendPump::new(10 * SEND_AHEAD_WINDOW);
    for _ in 0..16 {
        sender.step(SendInput::FileRead(zeros(CHUNK as u64)));
        let actions = sender.step(SendInput::Wrote);
        assert!(matches!(actions.last(), Some(SendAction::ReadFile)));
    }
    assert_eq!(sender.sent(), SEND_AHEAD_WINDOW);
    sender
}

#[test]
fn the_sender_stops_at_the_window() {
    let mut sender = at_the_window();
    assert_eq!(sent(&sender.step(SendInput::FileRead(vec![7, 8]))), "[ReadAck]");
    assert_eq!(sent(&sender.step(SendInput::Ack([0, 0, 0, 1]))), "[ReadAck]");
    assert_eq!(sent(&sender.step(SendInput::Ack([0, 0, 0, 2]))), "[WriteChunk([7, 8])]");
    assert_eq!(sent(&sender.step(SendInput::Wrote)), "[ReadFile]");
}

#[test]
fn a_file_that_fits_the_window_takes_no_acknowledgement() {
    let mut sender = SendPump::new(SEND_AHEAD_WINDOW);
    for _ in 0..16 {
        sender.step(SendInput::FileRead(zeros(CHUNK as u64)));
        sender.step(SendInput::Wrote);
    }
    assert_eq!(sent(&sender.step(SendInput::FileRead(vec![]))), "[Flush]");
    assert_eq!(sent(&sender.step(SendInput::Flushed)), "[ReadFinalAck]");
    assert_eq!(sent(&sender.step(SendInput::AckTimedOut)), "[Shutdown, Finish(Ok(()))]");
}

#[test]
fn a_lower_acknowledgement_takes_nothing_back() {
    let mut sender = at_the_window();
    assert_eq!(sent(&sender.step(SendInput::FileRead(vec![1; 3]))), "[ReadAck]");
    assert_eq!(sent(&sender.step(SendInput::Ack(encode_ack(2)))), "[ReadAck]");
    assert_eq!(sent(&sender.step(SendInput::Ack(encode_ack(1)))), "[ReadAck]");
    assert_eq!(sent(&sender.step(SendInput::Ack(encode_ack(3)))), "[WriteChunk([1, 1, 1])]");
}

#[test]
fn an_acknowledgement_of_more_than_was_sent_counts() {
    let mut sender = at_the_window();
    assert_eq!(sent(&sender.step(SendInput::FileRead(vec![4]))), "[ReadAck]");
    let more = encode_ack(SEND_AHEAD_WINDOW + 1);
    assert_eq!(sent(&sender.step(SendInput::Ack(more))), "[WriteChunk([4])]");
    sender.step(SendInput::Wrote);
    // A whole window past what was acknowledged, and no byte more.
    let rest = SEND_AHEAD_WINDOW as usize;
    assert!(matches!(
        sender.step(SendInput::FileRead(vec![0; rest])).as_slice(),
        [SendAction::WriteChunk(chunk)] if chunk.len() == rest
    ));
    sender.step(SendInput::Wrote);
    assert_eq!(sent(&sender.step(SendInput::FileRead(vec![0]))), "[ReadAck]");
    // The last acknowledgement may go beyond the file as well.
    let mut sender = waiting_for_the_last_acknowledgement();
    assert_eq!(
        sent(&sender.step(SendInput::Ack(encode_ack(11)))),
        "[Shutdown, Finish(Ok(()))]"
    );
}

#[test]
fn a_file_that_shrank_is_an_error() {
    let mut sender = SendPump::new(10);
    sender.step(SendInput::FileRead(vec![1; 4]));
    sender.step(SendInput::Wrote);
    sender.step(SendInput::FileRead(vec![]));
    assert_eq!(
        sent(&sender.step(SendInput::Flushed)),
        "[Finish(Err(SizeMismatch { expected: 10, actual: 4 }))]"
    );
}

fn waiting_for_the_last_acknowledgement() -> SendPump {
    let mut sender = SendPump::new(10);
    sender.step(SendInput::FileRead(vec![1; 10]));
    assert_eq!(
        sent(&sender.step(SendInput::Wrote)),
        "[Emit(Progress { transferred: 10 }), ReadFile]"
    );
    sender.step(SendInput::FileRead(vec![]));
    assert_eq!(sent(&sender.step(SendInput::Flushed)), "[ReadFinalAck]");
    sender
}

#[test]
fn the_last_acknowledgement_ends_the_transfer() {
    let done = "[Shutdown, Finish(Ok(()))]";
    let mut sender = waiting_for_the_last_acknowledgement();
    assert_eq!(sent(&sender.step(SendInput::Ack([0, 0, 0, 9]))), "[ReadFinalAck]");
    assert_eq!(sent(&sender.step(SendInput::Ack([0, 0, 0, 10]))), done);
    let mut sender = waiting_for_the_last_acknowledgement();
    assert_eq!(sent(&sender.step(SendInput::AckTimedOut)), done);
    let mut sender = waiting_for_the_last_acknowledgement();
    assert_eq!(sent(&sender.step(SendInput::Failed("closed".to_string()))), done);
    assert!(sender.step(SendInput::AckTimedOut).is_empty());
}

#[test]
fn a_file_past_the_counter_has_no_last_acknowledgement() {
    let total = u32::MAX as u64 + 1;
    let mut sender = SendPump::new(total);
    let mut left = total;
    while left > 0 {
        let n = left.min(SEND_AHEAD_WINDOW);
        let mut actions = sender.step(SendInput::FileRead(zeros(n)));
        if matches!(actions.last(), Some(SendAction::ReadAck)) {
            actions = sender.step(SendInput::Ack(encode_ack(sender.sent())));
        }
        assert!(matches!(actions.last(), Some(SendAction::WriteChunk(_))));
        sender.step(SendInput::Wrote);
        left -= n;
    }
    assert_eq!(sender.sent(), total);
    sender.step(SendInput::FileRead(vec![]));
    assert_eq!(sent(&sender.step(SendInput::Flushed)), "[Shutdown, Finish(Ok(()))]");
}

#[test]
fn sending_fails_with_its_socket() {
    let mut sender = SendPump::new(10);
    assert_eq!(
        sent(&sender.step(SendInput::Failed("reset".to_string()))),
        "[Finish(Err(Io(\"reset\")))]"
    );
    assert!(sender.step(SendInput::FileRead(vec![1])).is_empty());
}

/// Receives these chunks, and gives the actions of each step.
fn receive(expected: Option<u64>, chunks: &[&[u8]]) -> Vec<Vec<ReceiveAction>> {
    let mut receiver = ReceivePump::new(expected);
    let mut steps = vec![];
    for chunk in chunks {
        let actions = receiver.step(ReceiveInput::Read(chunk.to_vec()));
        let storing = matches!(actions.first(), Some(ReceiveAction::Store(_)));
        steps.push(actions);
        if storing {
            steps.push(receiver.step(ReceiveInput::Stored));
            steps.push(receiver.step(ReceiveInput::Acked));
        }
    }
    steps.push(receiver.step(ReceiveInput::Synced));
    steps
}

/// What was stored, and what was acknowledged.
fn stored(steps: &[Vec<ReceiveAction>]) -> (Vec<u8>, Vec<u32>) {
    let mut file = vec![];
    let mut acks = vec![];
    for action in steps.iter().flatten() {
        match action {
            ReceiveAction::Store(chunk) => file.extend_from_slice(chunk),
            ReceiveAction::Ack(bytes) => acks.push(u32::from_be_bytes(*bytes)),
            _ => {}
        }
    }
    (file, acks)
}

#[test]
fn receives_a_file_and_acks_every_chunk() {
    for payload in [vec![7u8; 200 * 1024], contents(200 * 1024)] {
        let chunks: Vec<&[u8]> = payload.chunks(CHUNK).collect();
        let steps = receive(Some(payload.len() as u64), &chunks);
        let (written, acks) = stored(&steps);
        assert!(!acks.is_empty(), "receiver never acknowledged any data");
        assert_eq!(acks, vec![65536, 131072, 196608, 204800]);
        assert!(
            acks.windows(2).all(|w| w[0] <= w[1]),
            "acks must be monotonic"
        );
        assert!(written == payload);
        assert_eq!(
            got(steps.last().unwrap()),
            "[Emit(Progress { transferred: 204800 }), Finish(Ok(()))]"
        );
    }
}

#[test]
fn the_announced_length_ends_the_transfer() {
    let steps = receive(Some(10), &[b"abcd", b"efghij"]);
    let shown: Vec<String> = steps.iter().map(got).collect();
    assert_eq!(
        shown,
        vec![
            "[Store([97, 98, 99, 100])]",
            "[Ack([0, 0, 0, 4])]",
            "[Read]",
            "[Store([101, 102, 103, 104, 105, 106])]",
            "[Ack([0, 0, 0, 10])]",
            "[Sync]",
            "[Emit(Progress { transferred: 10 }), Finish(Ok(()))]",
        ]
    );
}

#[test]
fn a_file_of_unknown_length_ends_with_the_connection() {
    let steps = receive(None, &[b"abcd", b""]);
    let shown: Vec<String> = steps.iter().map(got).collect();
    assert_eq!(
        shown,
        vec![
            "[Store([97, 98, 99, 100])]",
            "[Ack([0, 0, 0, 4])]",
            "[Read]",
            "[Sync]",
            "[Emit(Progress { transferred: 4 }), Finish(Ok(()))]",
        ]
    );
}

#[test]
fn fails_and_removes_the_file_when_the_peer_sends_too_little() {
    let steps = receive(Some(4096), &[&[1u8; 100], &[]]);
    match steps.last().unwrap().as_slice() {
        [ReceiveAction::RemoveFile, ReceiveAction::Finish(Err(error))] => {
            assert!(error.to_string().contains("size mismatch"));
            assert!(matches!(error, DccError::SizeMismatch { expected: 4096, actual: 100 }));
        }
        other => panic!("unexpected actions: {other:?}"),
    }
}

#[test]
fn fails_when_the_peer_sends_more_than_it_announced() {
    let mut receiver = ReceivePump::new(Some(1024));
    match receiver.step(ReceiveInput::Read(vec![2u8; CHUNK])).as_slice() {
        [
            ReceiveAction::FlushFile,
            ReceiveAction::RemoveFile,
            ReceiveAction::Finish(Err(error)),
        ] => {
            assert!(error.to_string().contains("size mismatch"));
            assert!(matches!(error, DccError::SizeMismatch { expected: 1024, actual: 65536 }));
        }
        other => panic!("unexpected actions: {other:?}"),
    }
    assert!(receiver.step(ReceiveInput::Stored).is_empty());
}

#[test]
fn an_announced_empty_file_is_received() {
    let mut receiver = ReceivePump::new(Some(0));
    assert!(matches!(receiver.first_action(), ReceiveAction::Sync));
    assert_eq!(
        got(&receiver.step(ReceiveInput::Synced)),
        "[Emit(Progress { transferred: 0 }), Finish(Ok(()))]"
    );
}

#[test]
fn receiving_begins_with_a_read() {
    assert!(matches!(ReceivePump::new(None).first_action(), ReceiveAction::Read));
    assert!(matches!(ReceivePump::new(Some(1)).first_action(), ReceiveAction::Read));
}

#[test]
fn a_file_that_was_reported_whole_is_not_reported_again() {
    let file = contents(PROGRESS_INTERVAL as usize);
    let steps = receive(Some(PROGRESS_INTERVAL), &[&file]);
    assert!(matches!(steps[0].as_slice(), [ReceiveAction::Store(chunk)] if *chunk == file));
    let shown: Vec<String> = steps[1..].iter().map(got).collect();
    assert_eq!(
        shown,
        vec![
            "[Ack([0, 4, 0, 0])]",
            "[Emit(Progress { transferred: 262144 }), Sync]",
            "[Finish(Ok(()))]",
        ]
    );
}

fn reset() -> ReceiveInput {
    ReceiveInput::Failed("reset".to_string())
}

#[test]
fn a_transfer_that_is_cut_short_takes_its_file_with_it() {
    let failed = "[RemoveFile, Finish(Err(Io(\"reset\")))]";
    for expected in [Some(10), None] {
        let mut receiver = ReceivePump::new(expected);
        assert_eq!(got(&receiver.step(reset())), failed);
        assert!(receiver.step(ReceiveInput::Read(vec![1])).is_empty());
        let mut receiver = ReceivePump::new(expected);
        receiver.step(ReceiveInput::Read(vec![1; 10]));
        assert_eq!(got(&receiver.step(reset())), failed);
        let mut receiver = ReceivePump::new(expected);
        receiver.step(ReceiveInput::Read(vec![1; 4]));
        receiver.step(ReceiveInput::Stored);
        assert_eq!(got(&receiver.step(reset())), failed);
        let mut receiver = ReceivePump::new(expected);
        receiver.step(ReceiveInput::Read(vec![1; 4]));
        receiver.step(ReceiveInput::Stored);
        receiver.step(ReceiveInput::Acked);
        assert_eq!(got(&receiver.step(reset())), failed);
    }
    // The peer is gone, and what it announced did not come.
    let mut receiver = ReceivePump::new(Some(10));
    receiver.step(ReceiveInput::Read(vec![]));
    assert_eq!(got(&receiver.step(reset())), failed);
}

#[test]
fn a_whole_file_outlives_its_transfer() {
    let failed = "[Finish(Err(Io(\"reset\")))]";
    // The last acknowledgement cannot be written.
    let mut receiver = ReceivePump::new(Some(10));
    receiver.step(ReceiveInput::Read(vec![1; 10]));
    receiver.step(ReceiveInput::Stored);
    assert_eq!(got(&receiver.step(reset())), failed);
    // The file cannot be synchronised.
    let mut receiver = ReceivePump::new(Some(10));
    receiver.step(ReceiveInput::Read(vec![1; 10]));
    receiver.step(ReceiveInput::Stored);
    assert_eq!(got(&receiver.step(ReceiveInput::Acked)), "[Sync]");
    assert_eq!(got(&receiver.step(reset())), failed);
    let mut receiver = ReceivePump::new(None);
    assert_eq!(got(&receiver.step(ReceiveInput::Read(vec![]))), "[Sync]");
    assert_eq!(got(&receiver.step(reset())), failed);
    let mut receiver = ReceivePump::new(Some(0));
    assert_eq!(got(&receiver.step(reset())), failed);
}

#[test]
fn reports_progress_while_transferring() {
    let payload = vec![3u8; 900 * 1024];
    let chunks: Vec<&[u8]> = payload.chunks(CHUNK).collect();
    let steps = receive(Some(payload.len() as u64), &chunks);
    let mut reports = vec![];
    for action in steps.iter().flatten() {
        if let ReceiveAction::Emit(DccEvent::Progress { transferred }) = action {
            reports.push(*transferred);
        }
    }
    assert_eq!(reports, vec![256 * 1024, 512 * 1024, 768 * 1024, 900 * 1024]);
    assert!(stored(&steps).0 == payload);
}

#[test]
fn a_file_arrives() {
    let file = contents(100_000);
    let (last, _, written) = send_file(&file);
    assert!(matches!(last.last(), Some(SendAction::Finish(Ok(())))));
    let steps = receive(
        Some(file.len() as u64),
        &[&written[..1], &written[1..50_001], &written[50_001..]],
    );
    assert!(matches!(
        steps.last().unwrap().last(),
        Some(ReceiveAction::Finish(Ok(())))
    ));
    assert!(stored(&steps).0 == file);
}
