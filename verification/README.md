# chacha20poly1305

The core of the ChaCha20-Poly1305 authenticated cipher, written and proved in Verus.

- `src/standard.rs` encrypts and decrypts messages that are at hand as a whole.
- `src/streaming.rs` takes associated data and message piece by piece. Encryption has one
  pass; decryption has one pass, which releases plaintext before the tag is verified, or two.
- `src/construction.rs`, `src/state.rs` and `src/session.rs` say what is computed.
- `src/laws.rs` proves what holds of whole messages: decryption inverts encryption, the
  division into pieces does not matter, and different messages authenticate different bytes.
- `src/keystream.rs`, `src/mac.rs` and `src/wipe.rs` hold the calls into the `chacha20`,
  `poly1305` and `zeroize` crates, with what is trusted of them.
- `app/` lets every seekable stream cipher of the `cipher` crate be used.

The lengths and the buffered bytes are erased when a piece of a message is refused for its
length, as the contracts of the update methods state. They are also erased when a tag does not
match; the cipher is used up by then, so no contract speaks of it.
