//! What a message that is processed piece by piece has come to, and how each
//! step changes it.
use vstd::prelude::*;

use crate::construction::{derive_mac_key, length_block, BLOCK_SIZE};
use crate::keystream::xor_keystream;
use crate::mac::{pad16, poly1305_tag};

verus! {

/// The longest message, in bytes, that can be processed piece by piece.
pub const MAX_PAYLOAD_LEN: u64 = 0xffff_ffff * 64;

/// A message while its tag is being computed.
#[verifier::ext_equal]
pub struct StreamState {
    /// The keystream of the underlying stream cipher.
    pub keystream: Seq<u8>,
    /// The index of the next keystream byte to be used.
    pub position: int,
    /// How many keystream bytes there are.
    pub capacity: int,
    /// The authenticator key.
    pub mac_key: Seq<u8>,
    /// All bytes handed over for authentication so far.
    pub authenticated: Seq<u8>,
    /// The length of the associated data so far.
    pub aad_len: int,
    /// The length of the message so far.
    pub payload_len: int,
}

impl StreamState {
    /// The state before the first byte, for a stream cipher at `position`.
    pub open spec fn initial(keystream: Seq<u8>, position: int, capacity: int) -> StreamState {
        StreamState {
            keystream,
            position: BLOCK_SIZE as int,
            capacity,
            mac_key: derive_mac_key(keystream, position),
            authenticated: Seq::empty(),
            aad_len: 0,
            payload_len: 0,
        }
    }

    /// With `data` handed over for authentication.
    pub open spec fn absorb(self, data: Seq<u8>) -> StreamState {
        StreamState { authenticated: self.authenticated + data, ..self }
    }

    /// Whether the length of the associated data can grow by `len`.
    pub open spec fn accepts_aad(self, len: int) -> bool {
        self.aad_len + len <= u64::MAX
    }

    /// After an update with associated data. Data that would make the length
    /// overflow is refused, but authenticated nevertheless.
    pub open spec fn update_aad(self, data: Seq<u8>) -> StreamState {
        if self.accepts_aad(data.len() as int) {
            StreamState { aad_len: self.aad_len + data.len(), ..self.absorb(data) }
        } else {
            self.absorb(data)
        }
    }

    /// With what has been handed over filled up to whole blocks.
    pub open spec fn padded(self) -> StreamState {
        StreamState { authenticated: pad16(self.authenticated), ..self }
    }

    /// After the end of the associated data.
    pub open spec fn finish_aad(self) -> StreamState {
        self.padded()
    }

    /// Whether the message can grow by `len` bytes.
    pub open spec fn accepts_payload(self, len: int) -> bool {
        self.payload_len + len <= MAX_PAYLOAD_LEN
    }

    /// With the message `len` bytes longer.
    pub open spec fn grow_payload(self, len: int) -> StreamState {
        StreamState { payload_len: self.payload_len + len, ..self }
    }

    /// After a piece of `len` bytes that is too long: the lengths and the
    /// bytes of the unfinished block are erased, unless the new length does
    /// not even fit 64 bits.
    pub open spec fn refuse_payload(self, len: int) -> StreamState {
        if self.payload_len + len > u64::MAX {
            self
        } else {
            self.wiped()
        }
    }

    /// With the lengths and the bytes of the unfinished block erased.
    pub open spec fn wiped(self) -> StreamState {
        StreamState {
            authenticated: self.authenticated.take(
                self.authenticated.len() - self.authenticated.len() as int % 16,
            ),
            aad_len: 0,
            payload_len: 0,
            ..self
        }
    }

    /// `data` combined with the next bytes of the keystream.
    pub open spec fn transform(self, data: Seq<u8>) -> Seq<u8> {
        xor_keystream(data, self.keystream, self.position)
    }

    /// Whether the keystream has `len` bytes left.
    pub open spec fn has_keystream(self, len: int) -> bool {
        self.position + len <= self.capacity
    }

    /// With `len` keystream bytes used.
    pub open spec fn advance(self, len: int) -> StreamState {
        StreamState { position: self.position + len, ..self }
    }

    /// After the encryption of a piece of the message.
    pub open spec fn encrypt(self, plaintext: Seq<u8>) -> StreamState {
        self.grow_payload(plaintext.len() as int).advance(plaintext.len() as int).absorb(
            self.transform(plaintext),
        )
    }

    /// After the decryption of a piece of the message whose tag is yet to be
    /// verified.
    pub open spec fn decrypt(self, ciphertext: Seq<u8>) -> StreamState {
        self.verify_only(ciphertext).advance(ciphertext.len() as int)
    }

    /// After a piece of ciphertext that is authenticated and not decrypted.
    pub open spec fn verify_only(self, ciphertext: Seq<u8>) -> StreamState {
        self.grow_payload(ciphertext.len() as int).absorb(ciphertext)
    }

    /// The tag of what has been handed over.
    pub open spec fn tag(self) -> Seq<u8> {
        poly1305_tag(
            self.mac_key,
            pad16(self.authenticated) + length_block(self.aad_len, self.payload_len),
        )
    }
}

/// `buffer` with `data` written over it from `at` on.
pub open spec fn overwrite(buffer: Seq<u8>, at: int, data: Seq<u8>) -> Seq<u8> {
    buffer.take(at) + data + buffer.skip(at + data.len())
}

/// What a block buffer, of which the first `pending` bytes are in use, holds
/// once `data` has passed through it: the block that was being filled, if it
/// got full, and over it the bytes that fill no block. Bytes that are no
/// longer in use stay where they are.
#[verifier::opaque]
pub open spec fn buffer_after(buffer: Seq<u8>, pending: int, data: Seq<u8>) -> Seq<u8> {
    if pending + data.len() < 16 {
        overwrite(buffer, pending, data)
    } else {
        let filled = if pending > 0 {
            overwrite(buffer, pending, data.take(16 - pending))
        } else {
            buffer
        };
        overwrite(filled, 0, data.skip(data.len() - (pending + data.len()) % 16))
    }
}

/// A message whose tag has been verified, while it is being decrypted.
#[verifier::ext_equal]
pub struct VerifiedState {
    /// The keystream of the underlying stream cipher.
    pub keystream: Seq<u8>,
    /// The index of the next keystream byte to be used.
    pub position: int,
    /// How many keystream bytes there are.
    pub capacity: int,
    /// The length of the associated data.
    pub aad_len: int,
    /// How many bytes of the verified ciphertext are still to be decrypted.
    pub remaining: int,
}

impl VerifiedState {
    /// The state when the tag has been verified in `state`.
    pub open spec fn initial(state: StreamState) -> VerifiedState {
        VerifiedState {
            keystream: state.keystream,
            position: state.position,
            capacity: state.capacity,
            aad_len: state.aad_len,
            remaining: state.payload_len,
        }
    }

    /// `data` combined with the next bytes of the keystream.
    pub open spec fn transform(self, data: Seq<u8>) -> Seq<u8> {
        xor_keystream(data, self.keystream, self.position)
    }

    /// Whether the keystream has `len` bytes left.
    pub open spec fn has_keystream(self, len: int) -> bool {
        self.position + len <= self.capacity
    }

    /// After the decryption of `len` bytes.
    pub open spec fn decrypt(self, len: int) -> VerifiedState {
        VerifiedState {
            position: self.position + len,
            remaining: self.remaining - len,
            ..self
        }
    }
}

} // verus!
