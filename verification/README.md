# decky_power_host

The host side of Decky power control: a small LAN service that lets a paired
Steam Deck ask a Windows PC for its status and shut it down, and a local
management channel that issues pairing codes.

- `src/` is the verified library. Every decision of the host lives there with
  its contract: request and response authentication with replay and rate
  limits (`auth`), the SPAKE2 pairing-code state machine (`pairing`), the three
  HTTP routes (`server`), code management and restart restoration
  (`management`), the management channel's framing, retries and answers
  (`management_ipc`), version negotiation (`versioning`), configuration and
  start-up rules (`config`, `startup`), and the command line and response
  checks of the protocol test client (`client`, `client_protocol`).
  Cryptography, randomness, the clock, UUID text and hex decoding come from
  their crates through the small trusted items of `crypto`.
  The host state keeps, as ghost sequences, every identity handed to the
  store and every shutdown request made of the power controller, with their
  outcomes, so that the route contracts say what was saved or requested
  before an answer is given. Code and session lifetimes are read from the
  code's own monotonic clock, started at the wall-clock time the code was
  issued or restored; a used, restored-expired or found-expired code is also
  marked spent, so it never accepts another exchange.
- `app/` is the executable: the axum listener and Protobuf codec, the JSON
  development store, the TOML file, logging, the test client's sockets, and on
  Windows the service, DPAPI store, named pipe and power-off call.
- `tests/` exercises the library through its public API.
