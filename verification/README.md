# sonium

Verified core of the Sonium multi-room audio system, written in Verus.

`src/` is the library; every function in it is verified against its
contract:

- `protocol/` — the binary message header, the wire reader and writer, and
  each message's encoding, with round-trip lemmas.
- `codec/` — the choice of codec by name, the PCM passthrough codec, the AAC
  codec header and FLAC stream framing.
- `sync/` — clock-offset arithmetic, drift correction, the jitter buffer,
  fades, the playout-error histogram and the playback timeline that fills
  the audio device's buffer.
- `control/` — the client/group/stream registry, announcement arbitration and
  scheduling, user accounts, sessions and WebSocket tickets, API access
  rules, package commands, media URL admission and subnet hosts.
- `config.rs`, `session.rs` — configuration checks and the client
  connection loop's decisions.

Calls into outside crates (uuid, argon2, sha2, rand) and the clock go through
small trusted wrappers whose contracts are stated in their doc comments.

`app/` holds what cannot be verified: JSON and TOML files, token signing,
persistence, floating-point rendering and clock filtering, process
execution.  `tests/` runs the library.
