# sic_irc

A byte-pipe transport for an IRC client and for DCC sessions, with its decisions
verified by [Verus](https://github.com/verus-lang/verus).

The transport speaks no IRC itself: it makes a TCP or TLS connection, hands on
every line that comes in, writes the lines that it is given, and reports how the
connection ends. The DCC side does the same for a chat with a peer, and moves a
file to a peer or from one.

## Layout

- `src/` is the verified library. It touches no socket, no file and no channel.
  Each driver and pump there takes what happened and says what is to be done:
  - `codec` frames a byte stream into lines and lines into bytes;
  - `ratelimit` limits how many lines are sent in a window of time;
  - `client` drives an IRC connection;
  - `tls` sets up both sides of a TLS connection;
  - `dcc::listener` picks a port and tells the expected peer from a stranger;
  - `dcc::stream` makes certificates and their fingerprints;
  - `dcc::session` drives a DCC session from its first event to its last;
  - `dcc::chat` and `dcc::transfer` drive what a session is for, and
    `dcc::transfer_laws` states what holds of whole transfers.
- `tests/` runs the library.
- `app/` is the async transport around the library: sockets, files, channels and
  TLS handshakes.

## What is proved

Every driver and pump has a state machine as its contract, which fixes what it
does on every input in every state. On top of the contracts stand laws about whole
runs, among them:

- which lines come out of a stream does not depend on how it is cut into chunks,
  and what is written is read back as one line;
- an outgoing line cannot carry a second one with it;
- buffers are bounded, whatever the other side sends;
- a connection or session reports its end once, last, and after any error;
- whenever the lines come, at times that never go back, no more of them are sent in
  any span as long as the limiter's window than the limiter lets through;
- a stranger's connection makes no difference to who gets a DCC session;
- a sender never runs further ahead of its peer than the window, and a file of any
  length arrives at a peer that acknowledges it;
- what is written to the peer is what was read of the file, and what is stored is
  what came, byte for byte and in order;
- a file is complete only when all its bytes were moved, and a transfer that fails
  takes its file with it, unless the file is whole.

What is not proved is what the trusted items claim of the standard library and of
rustls, rcgen and sha2; each says in its comment what it claims.
