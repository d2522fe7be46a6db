# udcn2-common, verified

NDN (Named Data Networking) names and packets, their TLV wire encoding, and
the forwarding decisions of the μDCN XDP fast path, written in Verus and
proved against their contracts.

- `src/` is the library. `wire.rs` models the TLV wire format (runs of writes
  into a bounded buffer, reads of variable-length numbers and TLV blocks);
  `tlv.rs` holds the encoder and decoder held to that model; `ndn.rs` the
  names and packets; `text.rs` how names read as text; `producer.rs` the
  answer of the demonstration producer; `forwarding.rs` the XDP fast path's
  steps; `laws.rs` the properties that relate these operations (round trips
  of numbers, blocks, names and name text; prefix order).
- `tests/` runs the library on concrete values.
- `app/` is the command-line tool around it: NDN over QUIC (client, test
  server, benchmark) and the mock XDP statistics monitor.
