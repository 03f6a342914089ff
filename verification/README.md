# ssdp

Streams that arrive as SSDP messages, with the protocol proved in Verus.

- `src/message.rs` is HTTPU: the three start lines, headers, writing and
  reading a datagram.
- `src/node.rs` is a node: what it announces, how it answers a search, what a
  datagram comes to and what a send is.
- `src/loopback.rs` carries a Stream chunk by chunk between a device and a
  control point.
- `src/address.rs`, `src/hex.rs`, `src/number.rs`, `src/text.rs` and
  `src/refusal.rs` are what these are made of.
- `src/round_trip.rs`, `src/lookup.rs`, `src/exchange.rs`,
  `src/addressing.rs` and `src/delivery.rs` state and prove what holds of
  them together.
- `app/` runs a node over UDP sockets.
