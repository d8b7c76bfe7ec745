use sic_irc::{chat_line, decode, irc_line, strip_crlf, Encoding, LineBuffer, MAX_RECEIVE_BUFFER};

#[test]
fn splits_on_crlf() {
    let mut buf = LineBuffer::new();
    buf.extend(b"PING :foo\r\nPONG :bar\r\n");
    assert_eq!(buf.next_line(Encoding::Utf8).as_deref(), Some("PING :foo"));
    assert_eq!(buf.next_line(Encoding::Utf8).as_deref(), Some("PONG :bar"));
    assert_eq!(buf.next_line(Encoding::Utf8), None);
}

#[test]
fn drops_empty_lines() {
    let mut buf = LineBuffer::new();
    buf.extend(b"\r\n\r\nPING\r\n");
    assert_eq!(buf.next_line(Encoding::Utf8).as_deref(), Some("PING"));
    assert_eq!(buf.next_line(Encoding::Utf8), None);
}

#[test]
fn splits_on_bare_lf() {
    let mut buf = LineBuffer::new();
    buf.extend(b"PING :foo\nPONG :bar\n");
    assert_eq!(buf.next_line(Encoding::Utf8).as_deref(), Some("PING :foo"));
    assert_eq!(buf.next_line(Encoding::Utf8).as_deref(), Some("PONG :bar"));
    assert_eq!(buf.next_line(Encoding::Utf8), None);
}

#[test]
fn handles_mixed_crlf_and_lf() {
    let mut buf = LineBuffer::new();
    buf.extend(b"A :crlf\r\nB :lf\nC :crlf\r\n");
    assert_eq!(buf.next_line(Encoding::Utf8).as_deref(), Some("A :crlf"));
    assert_eq!(buf.next_line(Encoding::Utf8).as_deref(), Some("B :lf"));
    assert_eq!(buf.next_line(Encoding::Utf8).as_deref(), Some("C :crlf"));
    assert_eq!(buf.next_line(Encoding::Utf8), None);
}

#[test]
fn handles_partial_lines() {
    let mut buf = LineBuffer::new();
    buf.extend(b"PING :fo");
    assert!(buf.next_line(Encoding::Utf8).is_none());
    buf.extend(b"o\r\n");
    assert_eq!(buf.next_line(Encoding::Utf8).as_deref(), Some("PING :foo"));
}

#[test]
fn strip_crlf_removes_both() {
    assert_eq!(strip_crlf("a\r\nb\nc\rd"), "abcd");
}

#[test]
fn limit_is_two_mebibytes() {
    assert_eq!(MAX_RECEIVE_BUFFER, 2 * 1024 * 1024);
}

#[test]
fn a_lone_carriage_return_stays_in_its_line() {
    let mut buf = LineBuffer::new();
    buf.extend(b"a\rb\r\r\nrest");
    assert_eq!(buf.next_line(Encoding::Utf8).as_deref(), Some("a\rb\r"));
    assert_eq!(buf.len(), 4);
    assert_eq!(buf.next_line(Encoding::Utf8), None);
    assert_eq!(buf.len(), 4);
}

#[test]
fn empty_lines_leave_the_buffer() {
    let mut buf = LineBuffer::new();
    buf.extend(b"\n\r\n\n");
    assert_eq!(buf.len(), 4);
    assert_eq!(buf.next_line(Encoding::Utf8), None);
    assert_eq!(buf.len(), 0);
}

#[test]
fn utf8_is_decoded() {
    assert_eq!(decode(Encoding::Utf8, "gr\u{fc}n \u{1F600}".as_bytes()), "gr\u{fc}n \u{1F600}");
    assert_eq!(decode(Encoding::Utf8, b""), "");
}

#[test]
fn bytes_that_are_not_utf8_are_replaced() {
    assert_eq!(decode(Encoding::Utf8, b"caf\xe9!"), "caf\u{FFFD}!");
}

#[test]
fn latin1_gives_every_byte_its_character() {
    assert_eq!(decode(Encoding::Latin1, b"caf\xe9\x80"), "caf\u{e9}\u{80}");
}

#[test]
fn lines_are_decoded_as_asked() {
    let mut buf = LineBuffer::new();
    buf.extend(b"\xe9\r\n\xe9\n");
    assert_eq!(buf.next_line(Encoding::Latin1).as_deref(), Some("\u{e9}"));
    assert_eq!(buf.next_line(Encoding::Utf8).as_deref(), Some("\u{FFFD}"));
}

#[test]
fn all_complete_lines_are_taken() {
    let mut buf = LineBuffer::new();
    buf.extend(b"one\r\n\r\ntwo\nthr");
    assert_eq!(buf.take_lines(Encoding::Utf8), vec!["one".to_string(), "two".to_string()]);
    assert_eq!(buf.len(), 3);
    assert!(buf.take_lines(Encoding::Utf8).is_empty());
}

#[test]
fn lines_do_not_depend_on_chunks() {
    let stream = b"one\r\n\r\ntwo\nthree\r\nfo";
    for cut in 0..stream.len() + 1 {
        let mut buf = LineBuffer::new();
        buf.extend(&stream[..cut]);
        let mut lines = buf.take_lines(Encoding::Utf8);
        buf.extend(&stream[cut..]);
        lines.extend(buf.take_lines(Encoding::Utf8));
        assert_eq!(lines, vec!["one".to_string(), "two".to_string(), "three".to_string()]);
        assert_eq!(buf.len(), 2);
    }
}

#[test]
fn written_lines_are_one_line_each() {
    assert_eq!(irc_line("a\r\nb\nc"), b"abc\r\n".to_vec());
    assert_eq!(irc_line(""), b"\r\n".to_vec());
    assert_eq!(chat_line("a\r\nb"), b"ab\n".to_vec());
    assert_eq!(chat_line("\u{fc}"), b"\xc3\xbc\n".to_vec());
}

#[test]
fn written_lines_are_read_back() {
    let mut buf = LineBuffer::new();
    buf.extend(&irc_line("PRIVMSG #c :gr\u{fc}n"));
    buf.extend(&chat_line("two\r\nlines"));
    assert_eq!(buf.next_line(Encoding::Utf8).as_deref(), Some("PRIVMSG #c :gr\u{fc}n"));
    assert_eq!(buf.next_line(Encoding::Utf8).as_deref(), Some("twolines"));
    assert_eq!(buf.len(), 0);
}
