# esphub

A hub that bridges a web page to ESP-NOW stations. The access point serves a
control page, upgrades browser connections to WebSockets, and seals the
commands it relays with AES in CCM mode so that stations can check where a
packet came from and refuse replays.

## Layout

- `src/` — the verified library (Verus):
  - `aesccm.rs` — sealing and opening of command packets with AES-CCM
    (RFC 3610: 8-byte tag, 2-byte length field): the packet format
    and its tag as spec functions, `AESCCM::encrypt` / `decrypt` / `accept`,
    and the laws that opening a sealed packet gives the payload back and
    that replayed or older packets are refused.
  - `nonce.rs` — the 5-byte message counter.
  - `packet.rs` — the packet buffer.
  - `networking.rs` — HTTP request classification, WebSocket frame
    decoding, the request-reading steps and the web server's decisions.
  - `handshake.rs` — the WebSocket upgrade answer (SHA-1 and base64).
  - `station.rs` — what a station does with an authenticated command.
  - `config.rs` — the port, key and seed settings.
  - `bytes.rs` — byte-string search.
- `tests/` — tests of the library.
- `app/` — the firmware around it: radio, network stack, sockets, tasks,
  and the postcard encoding of command payloads.
