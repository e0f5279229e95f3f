//! Encryption and decryption of a message that is at hand as a whole.
use vstd::prelude::*;

use poly1305::Poly1305;

use crate::buffer::{lemma_given_up, InOutBuf};
use crate::construction::{
    derive_mac_key, encode_lengths, length_block, mac_data, one_shot_accepts, seal, unseal,
    BLOCK_SIZE, MAX_BLOCKS,
};
use crate::error::Error;
use crate::keystream::Keystream;
use crate::mac::{
    mac_finalize, mac_update, mac_update_padded, mac_verify, pad16, poly1305_absorbed,
    poly1305_key, poly1305_tag, Tag,
};
use crate::setup::start;

verus! {

proof fn lemma_empty_prefix(s: Seq<u8>)
    ensures
        Seq::<u8>::empty() + s == s,
{
    assert(Seq::<u8>::empty() + s =~= s);
}

/// ChaCha20Poly1305 instantiated with a particular nonce.
pub struct Cipher<C: Keystream> {
    cipher: C,
    mac: Poly1305,
}

impl<C: Keystream> Cipher<C> {
    /// The keystream that messages are encrypted with.
    pub closed spec fn keystream(&self) -> Seq<u8> {
        self.cipher.keystream()
    }

    /// How many keystream bytes there are.
    pub closed spec fn capacity(&self) -> nat {
        self.cipher.capacity()
    }

    /// The authenticator key.
    pub closed spec fn mac_key(&self) -> Seq<u8> {
        poly1305_key(self.mac)
    }

    /// The authenticator is fresh and the stream cipher stands at its second
    /// block.
    pub closed spec fn wf(&self) -> bool {
        &&& poly1305_absorbed(self.mac) == Seq::<u8>::empty()
        &&& self.cipher.position() == BLOCK_SIZE
    }

    /// Instantiate the underlying cipher with a particular nonce.
    pub fn new(cipher: C) -> (r: Self)
        requires
            cipher.position() + 32 <= cipher.capacity(),
            BLOCK_SIZE <= cipher.capacity(),
        ensures
            r.wf(),
            r.keystream() == cipher.keystream(),
            r.capacity() == cipher.capacity(),
            r.mac_key() == derive_mac_key(cipher.keystream(), cipher.position() as int),
            r.mac_key().len() == 32,
            forall|i: int|
                0 <= i < 32 ==> #[trigger] r.mac_key()[i] == cipher.keystream()[cipher.position()
                    + i],
    {
        let mut cipher = cipher;
        let mac = start(&mut cipher);
        Cipher { cipher, mac }
    }

    /// Encrypt the given message, returning the authentication tag.
    pub fn encrypt_inout_detached(
        self,
        associated_data: &[u8],
        buffer: InOutBuf<'_, '_>,
    ) -> (r: Result<Tag, Error>)
        requires
            self.wf(),
            buffer.wf(),
            one_shot_accepts(buffer.in_bytes().len() as int) ==> BLOCK_SIZE
                + buffer.in_bytes().len() <= self.capacity(),
        ensures
            match seal(self.keystream(), self.mac_key(), associated_data@, buffer.in_bytes()) {
                Some((ciphertext, tag)) => {
                    &&& r matches Ok(t) && t@ == tag
                    &&& final(buffer.out())@ == ciphertext
                },
                None => {
                    &&& r == Err::<Tag, Error>(Error)
                    &&& final(buffer.out())@ == buffer.out_bytes()
                },
            },
            r is Ok <==> buffer.in_bytes().len() < 274877906880,
            r matches Ok(tag) ==> {
                &&& tag@ == poly1305_tag(
                    self.mac_key(),
                    mac_data(associated_data@, final(buffer.out())@),
                )
                &&& final(buffer.out())@.len() == buffer.in_bytes().len()
                &&& forall|i: int|
                    0 <= i < buffer.in_bytes().len() ==> #[trigger] final(buffer.out())@[i]
                        == buffer.in_bytes()[i] ^ self.keystream()[64 + i]
            },
            r is Err ==> final(buffer.out())@ == buffer.out_bytes(),
    {
        let mut this = self;
        let mut buffer = buffer;
        if buffer.len() / BLOCK_SIZE >= MAX_BLOCKS {
            proof {
                lemma_given_up(buffer);
            }
            return Err(Error);
        }
        mac_update_padded(&mut this.mac, associated_data);
        proof {
            lemma_empty_prefix(pad16(associated_data@));
        }

        this.cipher.apply_keystream_inout(buffer.reborrow());
        mac_update_padded(&mut this.mac, buffer.get_out());

        this.authenticate_lengths(associated_data, buffer.get_out())?;
        proof {
            lemma_given_up(buffer);
        }
        Ok(mac_finalize(this.mac))
    }

    /// Decrypt the given message, first authenticating ciphertext integrity
    /// and returning an error if it's been tampered with.
    pub fn decrypt_inout_detached(
        self,
        associated_data: &[u8],
        buffer: InOutBuf<'_, '_>,
        tag: &Tag,
    ) -> (r: Result<(), Error>)
        requires
            self.wf(),
            buffer.wf(),
            unseal(
                self.keystream(),
                self.mac_key(),
                associated_data@,
                buffer.in_bytes(),
                tag@,
            ) is Some ==> BLOCK_SIZE + buffer.in_bytes().len() <= self.capacity(),
        ensures
            match unseal(
                self.keystream(),
                self.mac_key(),
                associated_data@,
                buffer.in_bytes(),
                tag@,
            ) {
                Some(plaintext) => {
                    &&& r is Ok
                    &&& final(buffer.out())@ == plaintext
                },
                None => {
                    &&& r == Err::<(), Error>(Error)
                    &&& final(buffer.out())@ == buffer.out_bytes()
                },
            },
            r is Ok <==> buffer.in_bytes().len() < 274877906880 && tag@ == poly1305_tag(
                self.mac_key(),
                mac_data(associated_data@, buffer.in_bytes()),
            ),
            r is Ok ==> {
                &&& final(buffer.out())@.len() == buffer.in_bytes().len()
                &&& forall|i: int|
                    0 <= i < buffer.in_bytes().len() ==> #[trigger] final(buffer.out())@[i]
                        == buffer.in_bytes()[i] ^ self.keystream()[64 + i]
            },
            r is Err ==> final(buffer.out())@ == buffer.out_bytes(),
    {
        let mut this = self;
        if buffer.len() / BLOCK_SIZE >= MAX_BLOCKS {
            proof {
                lemma_given_up(buffer);
            }
            return Err(Error);
        }
        mac_update_padded(&mut this.mac, associated_data);
        proof {
            lemma_empty_prefix(pad16(associated_data@));
        }
        mac_update_padded(&mut this.mac, buffer.get_in());
        this.authenticate_lengths(associated_data, buffer.get_in())?;

        // This performs a constant-time comparison
        if mac_verify(this.mac, tag) {
            this.cipher.apply_keystream_inout(buffer);
            Ok(())
        } else {
            proof {
                lemma_given_up(buffer);
            }
            Err(Error)
        }
    }

    /// Authenticate the lengths of the associated data and message.
    fn authenticate_lengths(&mut self, associated_data: &[u8], buffer: &[u8]) -> (r: Result<
        (),
        Error,
    >)
        ensures
            r is Ok,
            final(self).cipher == old(self).cipher,
            poly1305_key(final(self).mac) == poly1305_key(old(self).mac),
            poly1305_absorbed(final(self).mac) == poly1305_absorbed(old(self).mac)
                + length_block(associated_data@.len() as int, buffer@.len() as int),
    {
        let associated_data_len: u64 = match u64::try_from(associated_data.len()) {
            Ok(len) => len,
            Err(_) => return Err(Error),
        };
        let buffer_len: u64 = match u64::try_from(buffer.len()) {
            Ok(len) => len,
            Err(_) => return Err(Error),
        };
        mac_update(&mut self.mac, encode_lengths(associated_data_len, buffer_len));
        Ok(())
    }
}

} // verus!
