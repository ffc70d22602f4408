# mles

Mles is a lightweight publish/subscribe message server. This crate holds its
logic as a Verus-verified library, with the server program around it. The
library also holds the decisions of the console and WebSocket-proxy clients
(`client`, `frame::client_key`, `frame::frame_message`); the client programs
themselves are not part of this crate.

Layout:

- `src/` — the verified library. Frame headers and their codec (`hdr`, `frame`,
  `msg`), peer and local databases with their history bounds (`peer`,
  `local_db`, `legacy`, `relay`), the WebSocket hub, history and rate limiting
  (`websocket`), the compression cache (`cache`), HTTP reply and proxy
  decisions (`http`, `proxy`, `config`), metrics (`metrics`), authentication
  (`auth`, `sip`), client decisions (`client`), socket address text (`addr`), the status page rules (`mina`)
  and small text and number helpers (`text`, `num`). Each public function
  states its behaviour in `requires`/`ensures`; the laws that relate several
  functions are public proof functions beside them.
- `tests/` — executable tests of the library.
- `app/` — the server program: argument handling, sockets, TLS, the async
  event loops and serialisation, which hand plain values to the library and
  act on its answers.

Verify with Verus on `src/lib.rs`; the tests run with cargo as usual.
