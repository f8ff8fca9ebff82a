# framelink

UART framing for embedded links: COBS framing, CRC-16/CCITT-FALSE error
detection and ACK/NAK retransmission over any serial transport, with an
in-process UART emulator with one-shot byte corruption for testing without
hardware. The library is verified with Verus.

- `src/crc.rs` — the CRC table and the bitwise definition of CRC-16/CCITT-FALSE,
  with proofs that the table matches it and that a single changed byte always
  changes the CRC.
- `src/cobs.rs` — COBS stuffing (blocks of at most 254 bytes) and unstuffing as
  specifications, the proof that unstuffing inverts stuffing, and that a
  replaced data byte leaves the framing intact.
- `src/frame.rs` — `Frame`: building, encoding into a caller's buffer, decoding
  and checking; the encode/decode round trip and the detection of a damaged byte.
- `src/protocol.rs` — `Protocol`: sending a frame and awaiting its ACK, and the
  handling of each received byte (ACK, NAK with resend, frame delivery).
- `src/transport.rs` — the `Transport` trait that users implement; its spec
  functions `written` and `taken` record the bytes that successful writes took
  and successful reads handed back, which is what the protocol's contracts
  speak of.
- `src/emulator.rs` — the emulated UART over two `heapless` SPSC queues; what each
  end enqueues (corruption included) and dequeues is stated through names for
  the log of each queue end.
- `src/hvec.rs` — the `heapless::Vec` buffers of the protocol, behind trusted
  wrappers.
- `app/lib.rs` — the `poll` loop, which reads until the transport has no byte.
