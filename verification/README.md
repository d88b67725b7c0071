# lldpdu

Parse and build IEEE 802.1AB LLDP data units, verified with Verus.

## Layout

- `src/tlv.rs` — the TLV wire format as mathematics (`tlv_items`,
  `tlv_wire`), the bounds-checked walk `TlvIter`, and the encoder.
- `src/types.rs` — Chassis ID, Port ID, System Capabilities, Management
  Address and Organizationally Specific TLV bodies, each with a model, a
  parser and an encoder, and round-trip lemmas for each.
- `src/pdu.rs` — `Lldpdu`: `parse_spec` and `to_bytes_spec` say exactly what
  parsing and building do; `Lldpdu::parse`, `parse_frame` and `to_bytes` are
  proved to do it.
- `src/round_trip.rs` — the laws: a canonical data unit parses back to itself
  after building (whatever padding follows), anything parsed rebuilds into
  bytes that parse back to it, nothing after the preamble is dropped, and
  past a right preamble only truncation can fail.
- `src/frame.rs` — locating the LLDPDU inside an Ethernet frame.
- `src/text.rs` — the text renderings of identifiers and errors; the two
  calls into the standard library that carry trusted contracts
  (`core::str::from_utf8`, `String::push`).
- `app/lib.rs` — conversions to `std::net::IpAddr`, an `Iterator` over TLVs,
  and `Display` / `std::error::Error` adapters.
- `tests/` — the test suite.
