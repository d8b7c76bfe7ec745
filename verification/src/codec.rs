//! Line-oriented codec.
use vstd::prelude::*;
use vstd::utf8::*;

use crate::client::Encoding;

verus! {

/// How many bytes may be buffered before a peer that never ends its line is
/// given up on: two mebibytes.
pub const MAX_RECEIVE_BUFFER: usize = 2_097_152;

/// What `String::from_utf8_lossy` makes of a byte string.
pub uninterp spec fn utf8_lossy(bytes: Seq<u8>) -> Seq<char>;

/// `String::from_utf8_lossy`: the text of the bytes, with U+FFFD in place of
/// what is not UTF-8. The result depends on the bytes alone, and is their
/// decoding where they are UTF-8 throughout.
#[verifier::external_body]
fn from_utf8_lossy(bytes: &[u8]) -> (text: String)
    ensures
        text@ == utf8_lossy(bytes@),
        valid_utf8(bytes@) ==> text@ == decode_utf8(bytes@),
{
    String::from_utf8_lossy(bytes).into_owned()
}

/// The line feed that ends a line.
pub const LF: u8 = 0x0A;

/// The carriage return that may stand before it.
pub const CR: u8 = 0x0D;

/// Where the first line feed stands, or the length where there is none.
pub open spec fn lf_index(bytes: Seq<u8>) -> nat
    decreases bytes.len(),
{
    if bytes.len() == 0 || bytes[0] == LF {
        0
    } else {
        1 + lf_index(bytes.drop_first())
    }
}

/// A line without the carriage return that a `\r\n` terminator leaves on it.
pub open spec fn strip_cr(raw: Seq<u8>) -> Seq<u8> {
    if raw.len() > 0 && raw.last() == CR {
        raw.drop_last()
    } else {
        raw
    }
}

/// The first line that is not empty, and the bytes that follow its terminator.
/// Where no such line is complete, no line, and the bytes of the line that has
/// begun.
pub open spec fn pop_line(bytes: Seq<u8>) -> (Option<Seq<u8>>, Seq<u8>)
    decreases bytes.len(),
{
    let at = lf_index(bytes);
    if at >= bytes.len() {
        (None, bytes)
    } else {
        let line = strip_cr(bytes.take(at as int));
        let rest = bytes.skip((at + 1) as int);
        if line.len() > 0 {
            (Some(line), rest)
        } else {
            pop_line(rest)
        }
    }
}

/// The text of a line in the given encoding. UTF-8 is decoded, with replacement
/// characters where the bytes are not UTF-8; Latin-1 gives every byte the
/// character of the same number.
pub open spec fn decoded(encoding: Encoding, bytes: Seq<u8>) -> Seq<char> {
    match encoding {
        Encoding::Utf8 => if valid_utf8(bytes) {
            decode_utf8(bytes)
        } else {
            utf8_lossy(bytes)
        },
        Encoding::Latin1 => Seq::new(bytes.len(), |i: int| bytes[i] as char),
    }
}

/// The bytes received that have not been handed out as lines yet.
pub struct LineBuffer {
    inner: Vec<u8>,
}

impl View for LineBuffer {
    type V = Seq<u8>;

    closed spec fn view(&self) -> Seq<u8> {
        self.inner@
    }
}

impl LineBuffer {
    /// An empty buffer.
    pub fn new() -> (buffer: Self)
        ensures
            buffer@ == Seq::<u8>::empty(),
    {
        LineBuffer { inner: Vec::with_capacity(4096) }
    }

    /// Appends received bytes.
    pub fn extend(&mut self, data: &[u8])
        ensures
            final(self)@ == old(self)@ + data@,
    {
        self.inner.extend_from_slice(data);
        assert(self.inner@ =~= old(self).inner@ + data@);
    }

    /// How many bytes are buffered.
    pub fn len(&self) -> (len: usize)
        ensures
            len == self@.len(),
    {
        self.inner.len()
    }

    fn find_lf(&self) -> (at: usize)
        ensures
            at == lf_index(self@),
            at <= self@.len(),
    {
        let mut at: usize = 0;
        assert(self.inner@.skip(0) =~= self.inner@);
        while at < self.inner.len() && self.inner[at] != LF
            invariant
                at <= self.inner@.len(),
                lf_index(self.inner@) == at + lf_index(self.inner@.skip(at as int)),
            decreases self.inner@.len() - at,
        {
            assert(self.inner@.skip(at as int).drop_first() =~= self.inner@.skip(at + 1));
            at += 1;
        }
        at
    }

    /// Takes the next complete line out of the buffer, without its terminator.
    /// Empty lines are skipped.
    ///
    /// A line ends at `\n`, and the `\r` of a `\r\n` goes with it; a lone `\r`
    /// inside a line stays.
    pub fn next_line(&mut self, encoding: Encoding) -> (line: Option<String>)
        ensures
            final(self)@ == pop_line(old(self)@).1,
            match (line, pop_line(old(self)@).0) {
                (Some(text), Some(bytes)) => text@ == decoded(encoding, bytes),
                (None, None) => true,
                _ => false,
            },
    {
        loop
            invariant
                pop_line(self@) == pop_line(old(self)@),
            decreases self@.len(),
        {
            let at = self.find_lf();
            if at == self.inner.len() {
                return None;
            }
            let ghost before = self@;
            let mut line = self.inner.split_off(at + 1);
            core::mem::swap(&mut self.inner, &mut line);
            line.pop();
            assert(line@ =~= before.take(at as int));
            assert(self@ =~= before.skip(at + 1));
            let len = line.len();
            if len > 0 && line[len - 1] == CR {
                line.pop();
            }
            assert(line@ =~= strip_cr(before.take(at as int)));
            if line.len() > 0 {
                return Some(decode(encoding, line.as_slice()));
            }
        }
    }

    /// Takes all complete lines out of the buffer.
    pub fn take_lines(&mut self, encoding: Encoding) -> (lines: Vec<String>)
        ensures
            final(self)@ == framing(old(self)@).pending,
            lines@.len() == framing(old(self)@).lines.len(),
            forall|i: int|
                0 <= i < lines@.len() ==> (#[trigger] lines@[i])@ == decoded(
                    encoding,
                    framing(old(self)@).lines[i],
                ),
    {
        let ghost all = framing(old(self)@).lines;
        let mut lines: Vec<String> = Vec::new();
        loop
            invariant
                framing(self@).pending == framing(old(self)@).pending,
                all == framing(old(self)@).lines,
                lines@.len() + framing(self@).lines.len() == all.len(),
                framing(self@).lines =~= all.skip(lines@.len() as int),
                forall|i: int|
                    0 <= i < lines@.len() ==> (#[trigger] lines@[i])@ == decoded(encoding, all[i]),
            decreases framing(self@).lines.len(),
        {
            let ghost before = self@;
            proof {
                taking_a_line_takes_the_first(before);
            }
            match self.next_line(encoding) {
                Some(line) => {
                    assert(framing(before).lines[0] == all[lines@.len() as int]);
                    lines.push(line);
                    assert(framing(self@).lines =~= framing(before).lines.skip(1));
                },
                None => {
                    return lines;
                },
            }
        }
    }
}

/// Turns the bytes of a line into text.
pub fn decode(encoding: Encoding, bytes: &[u8]) -> (text: String)
    ensures
        text@ == decoded(encoding, bytes@),
        encoding is Latin1 ==> text@.len() == bytes@.len() && forall|i: int|
            0 <= i < bytes@.len() ==> #[trigger] text@[i] as u32 == bytes@[i] as u32,
{
    match encoding {
        Encoding::Utf8 => from_utf8_lossy(bytes),
        Encoding::Latin1 => {
            let mut text = String::new();
            let mut i: usize = 0;
            while i < bytes.len()
                invariant
                    i <= bytes@.len(),
                    text@ =~= Seq::new(i as nat, |k: int| bytes@[k] as char),
                decreases bytes@.len() - i,
            {
                text.push(bytes[i] as char);
                i += 1;
            }
            text
        },
    }
}

/// Whether a character may stand inside an outgoing line.
pub open spec fn is_line_char(c: char) -> bool {
    c != '\r' && c != '\n'
}

/// A text without its carriage returns and line feeds.
pub open spec fn stripped(text: Seq<char>) -> Seq<char> {
    text.filter(|c: char| is_line_char(c))
}

/// Strips CR and LF from an outgoing line, so that it cannot carry a second
/// line with it.
pub fn strip_crlf(s: &str) -> (line: String)
    ensures
        line@ == stripped(s@),
{
    let mut line = String::new();
    let ghost keep = |c: char| is_line_char(c);
    for c in it: s.chars()
        invariant
            it.seq() == s@,
            keep == (|c: char| is_line_char(c)),
            line@ == s@.take(it.index() as int).filter(keep),
    {
        let ghost i = it.index() as int;
        proof {
            assert(s@.take(i + 1).drop_last() =~= s@.take(i));
            reveal(Seq::filter);
        }
        if c != '\r' && c != '\n' {
            line.push(c);
        }
    }
    proof {
        assert(s@.take(s@.len() as int) =~= s@);
    }
    line
}

/// What goes over the wire for a line of text that ends in the given terminator.
pub open spec fn wire(text: Seq<char>, terminator: Seq<u8>) -> Seq<u8> {
    encode_utf8(stripped(text)) + terminator
}

/// The terminator of an IRC line.
pub open spec fn irc_terminator() -> Seq<u8> {
    seq![CR, LF]
}

/// The terminator of a line of DCC CHAT.
pub open spec fn chat_terminator() -> Seq<u8> {
    seq![LF]
}

/// The bytes of an outgoing IRC line.
pub fn irc_line(text: &str) -> (bytes: Vec<u8>)
    ensures
        bytes@ == wire(text@, irc_terminator()),
        bytes@ == encode_utf8(stripped(text@)) + seq![0x0Du8, 0x0Au8],
{
    let mut bytes = strip_crlf(text).as_str().as_bytes_vec();
    bytes.push(CR);
    bytes.push(LF);
    assert(bytes@ =~= wire(text@, irc_terminator()));
    bytes
}

/// The bytes of an outgoing line of DCC CHAT.
pub fn chat_line(text: &str) -> (bytes: Vec<u8>)
    ensures
        bytes@ == wire(text@, chat_terminator()),
        bytes@ == encode_utf8(stripped(text@)) + seq![0x0Au8],
{
    let mut bytes = strip_crlf(text).as_str().as_bytes_vec();
    bytes.push(LF);
    assert(bytes@ =~= wire(text@, chat_terminator()));
    bytes
}

// ---------------------------------------------------------------------------
// A byte stream as lines

/// The lines that a byte stream completes, and the bytes of the one that it
/// leaves unfinished.
pub struct Framing {
    /// The complete lines that are not empty, in order, without terminators.
    pub lines: Seq<Seq<u8>>,
    /// What follows the last line feed.
    pub pending: Seq<u8>,
}

/// A list of lines with one more, unless that one is empty.
pub open spec fn with_line(lines: Seq<Seq<u8>>, line: Seq<u8>) -> Seq<Seq<u8>> {
    if line.len() > 0 {
        lines.push(line)
    } else {
        lines
    }
}

/// A byte stream, read byte by byte.
pub open spec fn framing(bytes: Seq<u8>) -> Framing
    decreases bytes.len(),
{
    if bytes.len() == 0 {
        Framing { lines: seq![], pending: seq![] }
    } else {
        let before = framing(bytes.drop_last());
        if bytes.last() == LF {
            Framing { lines: with_line(before.lines, strip_cr(before.pending)), pending: seq![] }
        } else {
            Framing { lines: before.lines, pending: before.pending.push(bytes.last()) }
        }
    }
}

/// Which lines come out of a stream does not depend on how it is cut into
/// chunks: the lines of the whole are those of the first part, then those of
/// what it left unfinished together with the second.
pub proof fn lines_do_not_depend_on_chunks(first: Seq<u8>, second: Seq<u8>)
    ensures
        framing(first + second).lines == framing(first).lines + framing(
            framing(first).pending + second,
        ).lines,
        framing(first + second).pending == framing(framing(first).pending + second).pending,
    decreases second.len(),
{
    let held = framing(first).pending;
    if second.len() == 0 {
        assert(first + second =~= first);
        assert(held + second =~= held);
        pending_holds_no_line(first);
        lemma_unterminated(held);
        assert(framing(first).lines + framing(held).lines =~= framing(first).lines);
    } else {
        let shorter = second.drop_last();
        lines_do_not_depend_on_chunks(first, shorter);
        assert((first + second).drop_last() =~= first + shorter);
        assert((held + second).drop_last() =~= held + shorter);
        assert(framing(first + second).lines =~= framing(first).lines + framing(
            held + second,
        ).lines);
    }
}

/// What a stream leaves unfinished holds no line feed.
pub proof fn pending_holds_no_line(bytes: Seq<u8>)
    ensures
        !framing(bytes).pending.contains(LF),
    decreases bytes.len(),
{
    if bytes.len() > 0 {
        pending_holds_no_line(bytes.drop_last());
    }
}

/// Chunks of bytes, joined.
pub open spec fn joined(chunks: Seq<Seq<u8>>) -> Seq<u8>
    decreases chunks.len(),
{
    if chunks.len() == 0 {
        seq![]
    } else {
        joined(chunks.drop_last()) + chunks.last()
    }
}

/// What a stream leaves unfinished is no longer than the stream.
pub proof fn pending_is_a_part(bytes: Seq<u8>)
    ensures
        framing(bytes).pending.len() <= bytes.len(),
    decreases bytes.len(),
{
    if bytes.len() > 0 {
        pending_is_a_part(bytes.drop_last());
    }
}

/// No line that comes out of a stream is empty or holds a line feed.
pub proof fn lines_are_not_empty(bytes: Seq<u8>)
    ensures
        forall|i: int|
            0 <= i < framing(bytes).lines.len() ==> (#[trigger] framing(bytes).lines[i]).len() > 0
                && !framing(bytes).lines[i].contains(LF),
    decreases bytes.len(),
{
    if bytes.len() > 0 {
        lines_are_not_empty(bytes.drop_last());
        pending_holds_no_line(bytes.drop_last());
        let held = framing(bytes.drop_last()).pending;
        assert(!strip_cr(held).contains(LF)) by {
            assert forall|i: int| 0 <= i < strip_cr(held).len() implies strip_cr(held)[i] != LF by {
                assert(held.contains(held[i]));
            }
        }
    }
}

/// Bytes without a line feed are all left unfinished.
proof fn lemma_unterminated(bytes: Seq<u8>)
    requires
        !bytes.contains(LF),
    ensures
        framing(bytes).lines == Seq::<Seq<u8>>::empty(),
        framing(bytes).pending == bytes,
    decreases bytes.len(),
{
    if bytes.len() > 0 {
        let shorter = bytes.drop_last();
        assert forall|i: int| 0 <= i < shorter.len() implies shorter[i] != LF by {
            assert(bytes.contains(bytes[i]));
        }
        assert(bytes.contains(bytes.last()));
        lemma_unterminated(shorter);
        assert(shorter.push(bytes.last()) =~= bytes);
    }
}

/// Bytes that end in their only line feed are one line, or none if it is empty.
proof fn lemma_terminated(raw: Seq<u8>)
    requires
        !raw.contains(LF),
    ensures
        framing(raw.push(LF)).lines == with_line(seq![], strip_cr(raw)),
        framing(raw.push(LF)).pending == Seq::<u8>::empty(),
{
    assert(raw.push(LF).drop_last() =~= raw);
    lemma_unterminated(raw);
}

/// Where the first line feed stands.
proof fn lemma_lf_index(bytes: Seq<u8>)
    ensures
        lf_index(bytes) <= bytes.len(),
        !bytes.take(lf_index(bytes) as int).contains(LF),
        lf_index(bytes) < bytes.len() ==> bytes[lf_index(bytes) as int] == LF,
    decreases bytes.len(),
{
    if bytes.len() > 0 && bytes[0] != LF {
        let rest = bytes.drop_first();
        lemma_lf_index(rest);
        let at = lf_index(bytes) as int;
        assert forall|i: int| 0 <= i < at implies bytes.take(at)[i] != LF by {
            if i > 0 {
                assert(rest.take(at - 1)[i - 1] == bytes[i]);
                assert(rest.take(at - 1).contains(rest.take(at - 1)[i - 1]));
            }
        }
    }
}

/// Taking one line out of the buffer takes the first line out of the stream:
/// the others stay, in order, and so does what is unfinished. Where no line is
/// complete, just what is unfinished stays.
pub proof fn taking_a_line_takes_the_first(bytes: Seq<u8>)
    ensures
        match pop_line(bytes) {
            (Some(line), rest) => framing(bytes).lines == seq![line] + framing(rest).lines
                && framing(rest).pending == framing(bytes).pending,
            (None, rest) => framing(bytes).lines.len() == 0 && rest == framing(bytes).pending,
        },
    decreases bytes.len(),
{
    let at = lf_index(bytes) as int;
    lemma_lf_index(bytes);
    if at >= bytes.len() {
        assert(bytes.take(at) =~= bytes);
        lemma_unterminated(bytes);
    } else {
        let raw = bytes.take(at);
        let rest = bytes.skip(at + 1);
        assert(raw.push(LF) + rest =~= bytes);
        lemma_terminated(raw);
        lines_do_not_depend_on_chunks(raw.push(LF), rest);
        assert(Seq::<u8>::empty() + rest =~= rest);
        if strip_cr(raw).len() > 0 {
            assert(with_line(seq![], strip_cr(raw)) =~= seq![strip_cr(raw)]);
        } else {
            taking_a_line_takes_the_first(rest);
            assert(seq![] + framing(rest).lines =~= framing(rest).lines);
        }
    }
}

// ---------------------------------------------------------------------------
// Outgoing lines

/// Stripping leaves no carriage return and no line feed, keeps a text that has
/// none as it is, and so changes nothing the second time.
pub proof fn stripping_leaves_one_line(text: Seq<char>)
    ensures
        forall|i: int| 0 <= i < stripped(text).len() ==> is_line_char(#[trigger] stripped(text)[i]),
        (forall|i: int| 0 <= i < text.len() ==> is_line_char(#[trigger] text[i])) ==> stripped(text)
            == text,
        stripped(stripped(text)) == stripped(text),
    decreases text.len(),
{
    let keep = |c: char| is_line_char(c);
    reveal(Seq::filter);
    if text.len() > 0 {
        let shorter = text.drop_last();
        stripping_leaves_one_line(shorter);
        assert(shorter.push(text.last()) =~= text);
        if is_line_char(text.last()) {
            let kept = stripped(text);
            assert(kept.drop_last() =~= stripped(shorter));
        }
    }
}

proof fn lemma_scalar_bytes(c: char, byte: u8)
    requires
        byte < 0x80,
        c as u32 != byte as u32,
    ensures
        !encode_scalar(c as u32).contains(byte),
{
    char_is_scalar(c);
    let s = c as u32;
    assert(s <= 0x7F ==> (s & 0x7F) as u8 == s) by (bit_vector);
    assert(0xC0 | ((s >> 6) & 0x1F) as u8 >= 0x80) by (bit_vector);
    assert(0xE0 | ((s >> 12) & 0x0F) as u8 >= 0x80) by (bit_vector);
    assert(0xF0 | ((s >> 18) & 0x7) as u8 >= 0x80) by (bit_vector);
    assert(0x80 | (s & 0x3F) as u8 >= 0x80) by (bit_vector);
    assert(0x80 | ((s >> 6) & 0x3F) as u8 >= 0x80) by (bit_vector);
    assert(0x80 | ((s >> 12) & 0x3F) as u8 >= 0x80) by (bit_vector);
}

/// An ASCII byte stands in the UTF-8 of a text only where its character does.
proof fn lemma_encoded_bytes(text: Seq<char>, byte: u8)
    requires
        byte < 0x80,
        forall|i: int| 0 <= i < text.len() ==> (#[trigger] text[i]) as u32 != byte as u32,
    ensures
        !encode_utf8(text).contains(byte),
        text.len() > 0 ==> encode_utf8(text).len() > 0,
    decreases text.len(),
{
    if text.len() > 0 {
        let head = encode_scalar(text[0] as u32);
        let tail = encode_utf8(text.drop_first());
        lemma_scalar_bytes(text[0], byte);
        assert forall|i: int| 0 <= i < text.drop_first().len() implies (
        #[trigger] text.drop_first()[i]) as u32 != byte as u32 by {
            assert(text.drop_first()[i] == text[i + 1]);
        }
        lemma_encoded_bytes(text.drop_first(), byte);
        assert forall|i: int| 0 <= i < (head + tail).len() implies (head + tail)[i] != byte by {
            if i < head.len() {
                assert(head.contains(head[i]));
            } else {
                assert(tail.contains(tail[i - head.len()]));
            }
        }
    }
}

/// The bytes of a stripped text hold neither a carriage return nor a line feed.
proof fn lemma_stripped_bytes(text: Seq<char>)
    ensures
        !encode_utf8(stripped(text)).contains(LF),
        !encode_utf8(stripped(text)).contains(CR),
        stripped(text).len() > 0 ==> encode_utf8(stripped(text)).len() > 0,
{
    stripping_leaves_one_line(text);
    assert forall|i: int| 0 <= i < stripped(text).len() implies (
    #[trigger] stripped(text)[i]) as u32 != LF as u32 && stripped(text)[i] as u32 != CR as u32 by {
        let c = stripped(text)[i];
        assert(is_line_char(c));
        char_is_scalar(c);
        char_u32_cast(c, c as u32);
    }
    lemma_encoded_bytes(stripped(text), LF);
    lemma_encoded_bytes(stripped(text), CR);
}

/// No text can carry a second line with it: a line feed stands in what goes
/// over the wire only as its last byte, and a carriage return only in the
/// terminator.
pub proof fn nothing_can_be_injected(text: Seq<char>, terminator: Seq<u8>)
    requires
        terminator == irc_terminator() || terminator == chat_terminator(),
    ensures
        wire(text, terminator).last() == LF,
        forall|i: int|
            0 <= i < wire(text, terminator).len() - terminator.len() ==> (
            #[trigger] wire(text, terminator)[i]) != LF && wire(text, terminator)[i] != CR,
        framing(wire(text, terminator)).lines.len() <= 1,
        framing(wire(text, terminator)).pending.len() == 0,
{
    let body = encode_utf8(stripped(text));
    lemma_stripped_bytes(text);
    assert forall|i: int|
        0 <= i < wire(text, terminator).len() - terminator.len() implies (
    #[trigger] wire(text, terminator)[i]) != LF && wire(text, terminator)[i] != CR by {
        assert(body.contains(body[i]));
    }
    written_line_is_read_back(text, terminator);
}

/// What is written is read back: the one line of the bytes that go out for a
/// text is the text without its CR and LF, in UTF-8, unless that is empty, which
/// is no line.
pub proof fn written_line_is_read_back(text: Seq<char>, terminator: Seq<u8>)
    requires
        terminator == irc_terminator() || terminator == chat_terminator(),
    ensures
        framing(wire(text, terminator)).lines == with_line(seq![], encode_utf8(stripped(text))),
        framing(wire(text, terminator)).pending == Seq::<u8>::empty(),
        decoded(Encoding::Utf8, encode_utf8(stripped(text))) == stripped(text),
        encode_utf8(stripped(text)).len() == 0 <==> stripped(text).len() == 0,
{
    let body = encode_utf8(stripped(text));
    lemma_stripped_bytes(text);
    encode_utf8_valid_utf8(stripped(text));
    encode_utf8_decode_utf8(stripped(text));
    if terminator == chat_terminator() {
        assert(wire(text, terminator) =~= body.push(LF));
        assert(body.len() > 0 ==> body.contains(body.last()));
        lemma_terminated(body);
    } else {
        let raw = body.push(CR);
        assert(wire(text, terminator) =~= raw.push(LF));
        assert forall|i: int| 0 <= i < raw.len() implies raw[i] != LF by {
            if i < body.len() {
                assert(body.contains(body[i]));
            }
        }
        lemma_terminated(raw);
        assert(strip_cr(raw) =~= body);
    }
}

/// What goes over the wire for several texts, one after the other.
pub open spec fn wire_all(texts: Seq<Seq<char>>, terminator: Seq<u8>) -> Seq<u8>
    decreases texts.len(),
{
    if texts.len() == 0 {
        seq![]
    } else {
        wire_all(texts.drop_last(), terminator) + wire(texts.last(), terminator)
    }
}

/// The lines that these texts are: those that are not empty once stripped.
pub open spec fn lines_of(texts: Seq<Seq<char>>) -> Seq<Seq<u8>>
    decreases texts.len(),
{
    if texts.len() == 0 {
        seq![]
    } else {
        with_line(lines_of(texts.drop_last()), encode_utf8(stripped(texts.last())))
    }
}

/// Texts that are written one after the other are read back one after the
/// other, and nothing is left over.
pub proof fn written_lines_are_read_back(texts: Seq<Seq<char>>, terminator: Seq<u8>)
    requires
        terminator == irc_terminator() || terminator == chat_terminator(),
    ensures
        framing(wire_all(texts, terminator)).lines == lines_of(texts),
        framing(wire_all(texts, terminator)).pending == Seq::<u8>::empty(),
    decreases texts.len(),
{
    if texts.len() > 0 {
        let before = wire_all(texts.drop_last(), terminator);
        let last = wire(texts.last(), terminator);
        written_lines_are_read_back(texts.drop_last(), terminator);
        written_line_is_read_back(texts.last(), terminator);
        lines_do_not_depend_on_chunks(before, last);
        assert(Seq::<u8>::empty() + last =~= last);
        assert(framing(before + last).lines =~= lines_of(texts));
    }
}

// ---------------------------------------------------------------------------
// Text and bytes

/// In Latin-1 every byte is a character, and its number is that of the byte.
pub proof fn latin1_keeps_every_byte(bytes: Seq<u8>)
    ensures
        decoded(Encoding::Latin1, bytes).len() == bytes.len(),
        forall|i: int|
            0 <= i < bytes.len() ==> #[trigger] decoded(Encoding::Latin1, bytes)[i] as u32
                == bytes[i] as u32,
{
}

/// In UTF-8 every text is read back from its bytes, bytes that are UTF-8 are those
/// of the text that is read from them, and what is not UTF-8 is read as
/// `String::from_utf8_lossy` reads it.
pub proof fn utf8_is_read_back(text: Seq<char>, bytes: Seq<u8>)
    ensures
        decoded(Encoding::Utf8, encode_utf8(text)) == text,
        valid_utf8(bytes) ==> encode_utf8(decoded(Encoding::Utf8, bytes)) == bytes,
        !valid_utf8(bytes) ==> decoded(Encoding::Utf8, bytes) == utf8_lossy(bytes),
{
    encode_utf8_valid_utf8(text);
    encode_utf8_decode_utf8(text);
    if valid_utf8(bytes) {
        decode_utf8_encode_utf8(bytes);
    }
}

/// Stripping drops the carriage returns and the line feeds and nothing else: a text
/// that has none stays as it is, and every other character is kept, in order and as
/// often as it stands in the text.
pub proof fn stripping_drops_nothing_else(text: Seq<char>)
    ensures
        !text.contains('\r') && !text.contains('\n') ==> stripped(text) == text,
        !stripped(text).contains('\r') && !stripped(text).contains('\n'),
        forall|c: char|
            c != '\r' && c != '\n' ==> #[trigger] stripped(text).to_multiset().count(c)
                == text.to_multiset().count(c),
        stripped(text) == text.filter(|c: char| c != '\r' && c != '\n'),
{
    let other = |c: char| c != '\r' && c != '\n';
    assert((|c: char| is_line_char(c)) =~= other);
    stripping_leaves_one_line(text);
    assert forall|c: char| c != '\r' && c != '\n' implies #[trigger] stripped(
        text,
    ).to_multiset().count(c) == text.to_multiset().count(c) by {
        lemma_kept_counts(text, c);
    }
    if !text.contains('\r') && !text.contains('\n') {
        assert forall|i: int| 0 <= i < text.len() implies is_line_char(#[trigger] text[i]) by {
            assert(text.contains(text[i]));
        }
    }
    assert forall|i: int| 0 <= i < stripped(text).len() implies stripped(text)[i] != '\r'
        && stripped(text)[i] != '\n' by {
        assert(is_line_char(stripped(text)[i]));
    }
}

/// A text is stripped piece by piece, and of each character only what it is decides
/// whether it stays.
pub proof fn stripping_goes_character_by_character(first: Seq<char>, c: char, second: Seq<char>)
    ensures
        stripped(first + second) == stripped(first) + stripped(second),
        c == '\r' || c == '\n' ==> stripped(first.push(c)) == stripped(first),
        c != '\r' && c != '\n' ==> stripped(first.push(c)) == stripped(first).push(c),
{
    Seq::filter_distributes_over_add(first, second, |c: char| is_line_char(c));
    reveal(Seq::filter);
    assert(first.push(c).drop_last() =~= first);
}

proof fn lemma_kept_counts(text: Seq<char>, c: char)
    requires
        c != '\r' && c != '\n',
    ensures
        stripped(text).to_multiset().count(c) == text.to_multiset().count(c),
    decreases text.len(),
{
    reveal(Seq::filter);
    broadcast use vstd::seq_lib::group_to_multiset_ensures;

    if text.len() > 0 {
        let shorter = text.drop_last();
        let last = text.last();
        lemma_kept_counts(shorter, c);
        assert(shorter.push(last) =~= text);
        assert(text.to_multiset() == shorter.to_multiset().insert(last));
        if is_line_char(last) {
            assert(stripped(text) == stripped(shorter).push(last));
            assert(stripped(text).to_multiset() == stripped(shorter).to_multiset().insert(last));
        } else {
            assert(last != c);
            assert(stripped(text) == stripped(shorter));
        }
    } else {
        assert(stripped(text) =~= text);
    }
}

/// A text goes out in UTF-8, as it is but for its carriage returns and line feeds,
/// with `\r\n` after it for IRC and `\n` for DCC CHAT.
pub proof fn a_text_goes_out_as_it_is(text: Seq<char>)
    ensures
        !text.contains('\r') && !text.contains('\n') ==> {
            &&& wire(text, irc_terminator()) == encode_utf8(text) + seq![0x0Du8, 0x0Au8]
            &&& wire(text, chat_terminator()) == encode_utf8(text) + seq![0x0Au8]
        },
        wire(text, irc_terminator()) == encode_utf8(
            text.filter(|c: char| c != '\r' && c != '\n'),
        ) + seq![0x0Du8, 0x0Au8],
        wire(text, chat_terminator()) == encode_utf8(
            text.filter(|c: char| c != '\r' && c != '\n'),
        ) + seq![0x0Au8],
{
    stripping_drops_nothing_else(text);
    assert(irc_terminator() =~= seq![0x0Du8, 0x0Au8]);
    assert(chat_terminator() =~= seq![0x0Au8]);
}

/// A line of text that goes out comes in as the same line, whether `\r\n` or `\n`
/// ends it, and nothing is left over.
pub proof fn a_line_of_text_is_read_back(line: Seq<char>)
    requires
        line.len() > 0,
        !line.contains('\r') && !line.contains('\n'),
    ensures
        ({
            let bytes = encode_utf8(line);
            let (first, second) = (bytes + seq![0x0Du8, 0x0Au8], bytes + seq![0x0Au8]);
            &&& framing(first).lines == seq![bytes]
            &&& framing(first).pending.len() == 0
            &&& framing(second).lines == seq![bytes]
            &&& framing(second).pending.len() == 0
            &&& decoded(Encoding::Utf8, bytes) == line
        }),
{
    let bytes = encode_utf8(line);
    stripping_drops_nothing_else(line);
    a_text_goes_out_as_it_is(line);
    written_line_is_read_back(line, irc_terminator());
    written_line_is_read_back(line, chat_terminator());
    assert(with_line(seq![], bytes) =~= seq![bytes]);
}

/// Bytes without a line feed end no line: nothing comes out, and all of them stay.
pub proof fn what_has_no_end_is_kept(bytes: Seq<u8>)
    requires
        !bytes.contains(0x0A),
    ensures
        framing(bytes).lines.len() == 0,
        framing(bytes).pending == bytes,
        pop_line(bytes) == (None::<Seq<u8>>, bytes),
{
    lemma_unterminated(bytes);
    lemma_lf_index(bytes);
    if lf_index(bytes) < bytes.len() {
        assert(bytes.contains(bytes[lf_index(bytes) as int]));
    }
}

/// Where the only line feed so far stands.
proof fn lemma_first_lf(raw: Seq<u8>, rest: Seq<u8>)
    requires
        !raw.contains(LF),
    ensures
        lf_index(raw.push(LF) + rest) == raw.len(),
        (raw.push(LF) + rest).take(raw.len() as int) == raw,
        (raw.push(LF) + rest).skip(raw.len() as int + 1) == rest,
{
    let bytes = raw.push(LF) + rest;
    lemma_lf_index(bytes);
    let at = lf_index(bytes) as int;
    if at > raw.len() {
        assert(bytes.take(at)[raw.len() as int] == LF);
        assert(bytes.take(at).contains(LF));
    } else if at < raw.len() {
        assert(raw[at] == LF);
        assert(raw.contains(LF));
    }
    assert(bytes.take(raw.len() as int) =~= raw);
    assert(bytes.skip(raw.len() as int + 1) =~= rest);
}

/// The first line of a stream, and what comes of the rest.
proof fn lemma_first_line(raw: Seq<u8>, rest: Seq<u8>)
    requires
        !raw.contains(LF),
    ensures
        ({
            let bytes = raw.push(LF) + rest;
            let line = strip_cr(raw);
            &&& framing(bytes).lines == with_line(seq![], line) + framing(rest).lines
            &&& framing(bytes).pending == framing(rest).pending
            &&& pop_line(bytes) == (if line.len() > 0 {
                (Some(line), rest)
            } else {
                pop_line(rest)
            })
        }),
{
    lemma_first_lf(raw, rest);
    lemma_terminated(raw);
    lines_do_not_depend_on_chunks(raw.push(LF), rest);
    assert(Seq::<u8>::empty() + rest =~= rest);
}

/// A line comes out of a stream as it was put in, byte for byte, whether `\r\n` or
/// `\n` ends it; only what follows is left, untouched.
pub proof fn a_line_comes_out_as_it_was_put_in(line: Seq<u8>, rest: Seq<u8>)
    requires
        line.len() > 0,
        !line.contains(0x0A),
    ensures
        ({
            let bytes = line + seq![0x0Du8, 0x0Au8] + rest;
            &&& framing(bytes).lines == seq![line] + framing(rest).lines
            &&& framing(bytes).pending == framing(rest).pending
            &&& pop_line(bytes) == (Some(line), rest)
        }),
        line.last() != 0x0D ==> {
            let bytes = line + seq![0x0Au8] + rest;
            &&& framing(bytes).lines == seq![line] + framing(rest).lines
            &&& framing(bytes).pending == framing(rest).pending
            &&& pop_line(bytes) == (Some(line), rest)
        },
{
    lemma_line_with_cr(line, rest);
    if line.last() != 0x0D {
        lemma_first_line(line, rest);
        assert(line.push(LF) + rest =~= line + seq![0x0Au8] + rest);
        assert(with_line(seq![], line) =~= seq![line]);
    }
}

proof fn lemma_line_with_cr(line: Seq<u8>, rest: Seq<u8>)
    requires
        line.len() > 0,
        !line.contains(LF),
    ensures
        ({
            let bytes = line + seq![CR, LF] + rest;
            &&& framing(bytes).lines == seq![line] + framing(rest).lines
            &&& framing(bytes).pending == framing(rest).pending
            &&& pop_line(bytes) == (Some(line), rest)
        }),
{
    let raw = line.push(CR);
    assert forall|i: int| 0 <= i < raw.len() implies raw[i] != LF by {
        if i < line.len() {
            assert(line.contains(line[i]));
        }
    }
    lemma_first_line(raw, rest);
    assert(raw.push(LF) + rest =~= line + seq![CR, LF] + rest);
    assert(strip_cr(raw) =~= line);
    assert(with_line(seq![], line) =~= seq![line]);
}

/// An empty line is no line, whether `\r\n` or `\n` ends it: the stream is as it
/// would be without it.
pub proof fn an_empty_line_is_skipped(rest: Seq<u8>)
    ensures
        framing(seq![0x0Au8] + rest) == framing(rest),
        framing(seq![0x0Du8, 0x0Au8] + rest) == framing(rest),
        pop_line(seq![0x0Au8] + rest) == pop_line(rest),
        pop_line(seq![0x0Du8, 0x0Au8] + rest) == pop_line(rest),
{
    let none = Seq::<u8>::empty();
    lemma_first_line(none, rest);
    lemma_first_line(seq![CR], rest);
    assert(none.push(LF) + rest =~= seq![0x0Au8] + rest);
    assert(seq![CR].push(LF) + rest =~= seq![0x0Du8, 0x0Au8] + rest);
    assert(Seq::<Seq<u8>>::empty() + framing(rest).lines =~= framing(rest).lines);
}

} // verus!
