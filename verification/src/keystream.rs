//! Seekable stream ciphers, and ChaCha20 as one of them.
use vstd::prelude::*;

use chacha20::cipher::{KeyIvInit, StreamCipher, StreamCipherSeek};

use crate::buffer::InOutBuf;
use crate::wipe::zeroize_bytes;

verus! {

/// `data` combined byte by byte with the keystream bytes from `position` on.
pub open spec fn xor_keystream(data: Seq<u8>, keystream: Seq<u8>, position: int) -> Seq<u8> {
    Seq::new(data.len(), |i: int| data[i] ^ keystream[position + i])
}

/// A stream cipher whose position in its keystream can be set.
///
/// An impl states its keystream, its position and its capacity. One that does
/// not has the capacity 0, and nothing is promised of its use.
pub trait Keystream {
    /// The keystream, from its first byte on. Only the first `capacity` bytes
    /// are ever used.
    open spec fn keystream(&self) -> Seq<u8> {
        Seq::empty()
    }

    /// The index of the next keystream byte to be used.
    open spec fn position(&self) -> nat {
        0
    }

    /// How many keystream bytes the cipher hands out.
    open spec fn capacity(&self) -> nat {
        0
    }

    /// Combines `data` with the next bytes of the keystream, in place.
    fn apply_keystream(&mut self, data: &mut [u8])
        requires
            old(self).position() + old(data)@.len() <= old(self).capacity(),
        ensures
            final(data)@ == xor_keystream(
                old(data)@,
                old(self).keystream(),
                old(self).position() as int,
            ),
            final(self).keystream() == old(self).keystream(),
            final(self).position() == old(self).position() + old(data)@.len(),
            final(self).capacity() == old(self).capacity(),
    ;

    /// Combines the input of `buffer` with the next bytes of the keystream and
    /// writes the result to its output.
    fn apply_keystream_inout(&mut self, buffer: InOutBuf<'_, '_>)
        requires
            buffer.wf(),
            old(self).position() + buffer.in_bytes().len() <= old(self).capacity(),
        ensures
            final(buffer.out())@ == xor_keystream(
                buffer.in_bytes(),
                old(self).keystream(),
                old(self).position() as int,
            ),
            final(self).keystream() == old(self).keystream(),
            final(self).position() == old(self).position() + buffer.in_bytes().len(),
            final(self).capacity() == old(self).capacity(),
    ;

    /// Makes the keystream byte with index `position` the next one to be used.
    fn seek(&mut self, position: u64)
        requires
            position <= old(self).capacity(),
        ensures
            final(self).keystream() == old(self).keystream(),
            final(self).position() == position,
            final(self).capacity() == old(self).capacity(),
    ;
}

/// How many keystream bytes ChaCha20 offers for one key and nonce: one block
/// of 64 bytes for each value of its 32-bit counter but the last.
pub const CHACHA20_CAPACITY: u64 = 0xffff_ffff * 64;

/// The keystream that the `chacha20` crate generates for a key and a nonce.
pub uninterp spec fn chacha20_keystream(key: Seq<u8>, nonce: Seq<u8>) -> Seq<u8>;

/// Calls `KeyIvInit::new`, `StreamCipherSeek::seek` and
/// `StreamCipher::apply_keystream` of `chacha20::ChaCha20`, in this order.
///
/// Trusted: a cipher made from `key` and `nonce` and moved to `position`
/// replaces each byte by its exclusive or with the keystream byte at the same
/// offset from `position`, and the keystream depends on key and nonce alone.
/// The calls panic where they would need the block of the last counter value,
/// which the bound on `position` rules out.
#[verifier::external_body]
fn chacha20_apply_keystream(key: &[u8; 32], nonce: &[u8; 12], position: u64, data: &mut [u8])
    requires
        position + old(data)@.len() <= CHACHA20_CAPACITY,
    ensures
        final(data)@ == xor_keystream(
            old(data)@,
            chacha20_keystream(key@, nonce@),
            position as int,
        ),
{
    let mut cipher = chacha20::ChaCha20::new(key.into(), nonce.into());
    cipher.seek(position);
    cipher.apply_keystream(data);
}

/// Calls `KeyIvInit::new`, `StreamCipherSeek::seek` and
/// `StreamCipher::apply_keystream_inout` of `chacha20::ChaCha20`, in this
/// order, the last on a buffer that `InOutBuf::new` of the `inout` crate makes.
///
/// Trusted: a cipher made from `key` and `nonce` and moved to `position`
/// writes to `output` the exclusive or of each byte of `input` with the
/// keystream byte at the same offset from `position`. The calls panic where
/// they would need the block of the last counter value, and slices of
/// different lengths make no buffer; the bounds rule out both.
#[verifier::external_body]
fn chacha20_apply_keystream_inout(
    key: &[u8; 32],
    nonce: &[u8; 12],
    position: u64,
    input: &[u8],
    output: &mut [u8],
)
    requires
        input@.len() == old(output)@.len(),
        position + input@.len() <= CHACHA20_CAPACITY,
    ensures
        final(output)@ == xor_keystream(
            input@,
            chacha20_keystream(key@, nonce@),
            position as int,
        ),
{
    let mut cipher = chacha20::ChaCha20::new(key.into(), nonce.into());
    cipher.seek(position);
    let buffer = aead::inout::InOutBuf::new(input, output).expect("equal lengths");
    cipher.apply_keystream_inout(buffer);
}

/// The ChaCha20 stream cipher for one key and nonce, with a 96-bit nonce and a
/// 32-bit block counter. The key is erased when the cipher is dropped.
pub struct ChaCha20 {
    key: [u8; 32],
    nonce: [u8; 12],
    position: u64,
}

impl ChaCha20 {
    /// The key.
    pub closed spec fn key(&self) -> Seq<u8> {
        self.key@
    }

    /// The nonce.
    pub closed spec fn nonce(&self) -> Seq<u8> {
        self.nonce@
    }

    /// The cipher for `key` and `nonce`, at the start of its keystream.
    pub fn new(key: &[u8; 32], nonce: &[u8; 12]) -> (cipher: Self)
        ensures
            cipher.key() == key@,
            cipher.nonce() == nonce@,
            cipher.position() == 0,
            cipher.keystream() == chacha20_keystream(key@, nonce@),
            cipher.capacity() == 274877906880,
    {
        ChaCha20 { key: *key, nonce: *nonce, position: 0 }
    }
}

impl Drop for ChaCha20 {
    fn drop(&mut self)
        opens_invariants none
        no_unwind
    {
        zeroize_bytes(&mut self.key);
    }
}

impl Keystream for ChaCha20 {
    open spec fn keystream(&self) -> Seq<u8> {
        chacha20_keystream(self.key(), self.nonce())
    }

    closed spec fn position(&self) -> nat {
        self.position as nat
    }

    open spec fn capacity(&self) -> nat {
        CHACHA20_CAPACITY as nat
    }

    fn apply_keystream(&mut self, data: &mut [u8]) {
        let len: u64 = data.len() as u64;
        chacha20_apply_keystream(&self.key, &self.nonce, self.position, data);
        self.position = self.position + len;
    }

    fn apply_keystream_inout(&mut self, buffer: InOutBuf<'_, '_>) {
        let len: u64 = buffer.len() as u64;
        let (input, output) = buffer.into_parts();
        match input {
            Some(input) => {
                chacha20_apply_keystream_inout(
                    &self.key,
                    &self.nonce,
                    self.position,
                    input,
                    output,
                );
            },
            None => {
                chacha20_apply_keystream(&self.key, &self.nonce, self.position, output);
            },
        }
        self.position = self.position + len;
    }

    fn seek(&mut self, position: u64) {
        self.position = position;
    }
}

} // verus!
