# anachro

Anachro is a publish/subscribe protocol for small devices: clients
(components) register with a broker (arbitrator), subscribe to topics,
register short codes for long topic paths, and publish messages that the
broker routes to every other client whose subscriptions match.

The library is written in Verus: each function carries a contract, and the
laws of the protocol are stated as proof functions.

## Layout

- `src/icd.rs`, `src/icd/`: the messages of the protocol, managed strings,
  and topic matching (`#` and `+` wildcards).
- `src/client.rs`: the client's connection state machine, publishing,
  delivery of received publications, and table lookups. A client talks
  through a `ClientLink`, which keeps a record of what was sent and
  received, so that the contracts say which messages a step sends.
- `src/server.rs`: the broker: registration, control and subscription
  requests, and the routing of publications. Requests come in through a
  `RequestLink` and responses go out through a `ResponseSink`; each keeps a
  record of what went through it.
- `src/groundhog.rs`: a rolling 32-bit timer and its conversions to
  seconds, milliseconds and microseconds.
- `src/frame.rs`: taking zero-delimited frames off a byte stream.
- `src/spi.rs`: the decisions of the SPI transport's Component and
  Arbitrator polls.
- `src/twim.rs`, `src/uarte.rs`: the checks and decisions of the nRF52840
  TWIM driver and of the interrupt-driven UARTE transport.
- `app/`: the wire encoding (postcard, COBS), the TCP transport and broker
  loop, the table macro, the SPI polls over their drivers and queues, the
  UARTE link, and the nRF52840 register-level drivers.
- `tests/`: tests of the library.
