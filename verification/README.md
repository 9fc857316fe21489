# ipn

The verified core of a private peer-to-peer network of one's own devices, and of
its desktop client.

- `src/` is a Verus library. It decides who is a member (signed entries folded by
  role rules), where packets go and which inbound packets are let in, and what the
  desktop client knows, shows and asks. Every function states what it returns, and
  the laws that relate several functions are proof functions named `law_..`.
- `tests/` runs the library on concrete values, with the real `blake3`,
  `ciborium`, `ed25519-dalek` and `qrcode` crates.
- `app/` is the GTK client and the other edges: sockets, files, widgets, the
  replicated document, the network interface.

The calls into other crates stand in `src/cbor.rs`, `src/crypto.rs`, `src/qr.rs`
and `src/clock.rs`; what is taken on trust about each is said at the call.
