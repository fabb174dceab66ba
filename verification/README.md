# rsticulum

A mesh network stack with a verified core: cryptographic identities, packets, links,
channels, streams, resources, mesh routing, network interfaces, and a layer that fetches
content by name. The daemon ties them together.

The library under `src/` is written in Verus. Its functions state in their contracts what
they compute, and the verifier proves it. The exceptions are the functions that wrap a call
into another crate or the standard library, which are marked `external_body` and taken at
their word, and `Keys::generate`, which promises nothing of the random keys that it draws.
What spans several functions, such as that a decoder gives back what the encoder wrote,
stands in public proof functions whose names begin with `law_`.

## Layout

- `src/crypto`: hashing, key derivation, tokens; `crypto/primitives.rs` holds the calls
  into the cryptographic crates, with what is assumed of them
- `src/identity`: keys, addresses, announces of identities, ratchets
- `src/packet.rs`, `src/destination.rs`: the packet format and destinations
- `src/transport`: links, suspendable links, fragments, proofs, resources
- `src/channel`, `src/buffer.rs`: ordered messages and byte streams
- `src/interface`: HDLC and KISS framing, serial and TCP interfaces
- `src/mesh`: peers, routes, path requests
- `src/icn`: names, Interests, Data, the content store, the tables and the forwarder
- `src/daemon`: announces, link requests, commands and configuration
- `src/text.rs`, `src/wire.rs`, `src/table.rs`, `src/pieces.rs`, `src/span.rs`,
  `src/codec.rs`: what the other modules share
- `tests/`: tests of the library
- `app/`: the daemon program: sockets, ports, files and the event loop
