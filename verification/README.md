# solo_pc

The verified core of a PC simulator for a FIDO2 security key: it speaks the
CTAPHID packet protocol on a Unix socket and hands requests to an
authenticator application.

- `src/frame.rs`: splitting a reply into 64-byte CTAPHID packets.
- `src/reassembly.rs`: reassembling a request from its packets, and the proof
  that framed messages reassemble to themselves.
- `src/server.rs`: what `INIT`, `PING` and application commands are answered.
- `src/exchange.rs`: one request/reply exchange as a state machine, with the
  laws that a framed request reaches routing intact and that every reply fits
  in one framing.
- `src/up_control.rs`, `src/platform.rs`: the user-presence control and the
  board's user interface.
- `src/flash.rs`, `src/littlefs_params.rs`: the file-backed flash image.
- `src/stream.rs`: filling a buffer from partial reads.
- `app/`: the simulator program (sockets, threads, the authenticator and its
  storage), which performs the actions the library decides.
