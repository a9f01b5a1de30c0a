# wireless_hart

Streams over WirelessHART (IEC 62591): the HART command set in TDMA-framed
DLPDUs over IEEE 802.15.4. The library is written in Verus, and what each
function does is stated in its contract and proved.

- `src/dlpdu.rs`, `src/crc.rs` — the frame on the radio and its check sequence
- `src/npdu.rs` — the packet inside it and the commands it aggregates
- `src/tdma.rs` — slots, superframes and the network's clock
- `src/gateway.rs` — the gateway's side of an exchange, Streams in chunks, origin URIs
- `src/conversation.rs` — a request from its one frame out to its answer in
- `src/loopback.rs` — the in-process air between a gateway and one device
- `src/exchange.rs` — what the two see of each other over that air
- `src/round.rs` — a Stream written to a device and read back over the air
- `src/bytes.rs`, `src/text.rs`, `src/error.rs` — fields, numbers in text, refusals

`app/` puts the gateway on a radio and joins it to `hart`, whose device
commands it asks, and to `transport`, whose traits it implements. Neither crate
is on crates.io.
