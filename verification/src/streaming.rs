//! Encryption and decryption of a message that arrives piece by piece.
use vstd::prelude::*;

use core::marker::PhantomData;
use poly1305::Poly1305;

use crate::buffer::{lemma_given_up, InOutBuf};
use crate::construction::{encode_lengths, length_block, BLOCK_SIZE};
use crate::error::Error;
use crate::keystream::Keystream;
use crate::laws::{is_start, law_absorb_in_pieces, law_progress};
use crate::mac::{
    lemma_pad16_after_blocks, mac_finalize, mac_update, mac_update_padded, mac_verify, pad16,
    poly1305_absorbed, poly1305_key, poly1305_tag, Tag,
};
use crate::phase::{
    AadPhase, DecryptionPhase, EncryptionPhase, OnePassDecryptionPhase, ValidNextPhase,
    VerificationPhase,
};
use crate::session::{aad_session, decrypt_session, encrypt_session, verify_session};
use crate::setup::start;
use crate::state::{buffer_after, overwrite, StreamState, VerifiedState, MAX_PAYLOAD_LEN};
use crate::wipe::{zeroize_bytes, zeroize_u64, zeroize_usize};

verus! {

/// ChaCha20Poly1305 scatter/gather style instantiated with a particular nonce.
#[derive(Debug)]
pub struct StreamingCipher<C, State, MacType = Poly1305> where C: Keystream {
    cipher: C,
    mac: MacType,
    aad_len: u64,
    payload_len: u64,
    buffer: [u8; 16],
    buffer_pos: usize,
    _state: PhantomData<State>,
}

/// The 16 bytes of `data` from `offset` on.
fn block_at(data: &[u8], offset: usize) -> (block: [u8; 16])
    requires
        offset + 16 <= data@.len(),
    ensures
        block@ == data@.subrange(offset as int, offset + 16),
{
    let mut block: [u8; 16] = [0u8; 16];
    let mut i: usize = 0;
    while i < 16
        invariant
            i <= 16,
            offset + 16 <= data.len(),
            forall|j: int| 0 <= j < i ==> block@[j] == data@[offset + j],
        decreases 16 - i,
    {
        block[i] = data[offset + i];
        i = i + 1;
    }
    assert(block@ =~= data@.subrange(offset as int, offset + 16));
    block
}

/// Writes `data` into `block` from `at` on.
fn copy_into(block: &mut [u8; 16], at: usize, data: &[u8])
    requires
        at + data@.len() <= 16,
    ensures
        final(block)@ == overwrite(old(block)@, at as int, data@),
{
    let mut i: usize = 0;
    while i < data.len()
        invariant
            i <= data@.len(),
            at + data@.len() <= 16,
            forall|j: int| 0 <= j < at ==> block@[j] == old(block)@[j],
            forall|j: int| 0 <= j < i ==> block@[at + j] == data@[j],
            forall|j: int| at + i <= j < 16 ==> block@[j] == old(block)@[j],
        decreases data@.len() - i,
    {
        block[at + i] = data[i];
        i = i + 1;
    }
    assert(block@ =~= overwrite(old(block)@, at as int, data@));
}

/// Erases what a message has left behind outside the authenticator.
fn erase(
    buffer: &mut [u8; 16],
    aad_len: &mut u64,
    payload_len: &mut u64,
    buffer_pos: &mut usize,
)
    ensures
        forall|i: int| 0 <= i < 16 ==> #[trigger] final(buffer)@[i] == 0,
        *final(aad_len) == 0,
        *final(payload_len) == 0,
        *final(buffer_pos) == 0,
{
    zeroize_bytes(buffer);
    zeroize_u64(aad_len);
    zeroize_u64(payload_len);
    zeroize_usize(buffer_pos);
}

/// With nothing in the buffer, all has gone to the authenticator.
proof fn lemma_nothing_pending(absorbed: Seq<u8>, buffer: Seq<u8>)
    ensures
        absorbed + buffer.take(0) == absorbed,
        absorbed + Seq::<u8>::empty() == absorbed,
{
    assert(absorbed + buffer.take(0) =~= absorbed);
    assert(absorbed + Seq::<u8>::empty() =~= absorbed);
}

impl<C, State> View for StreamingCipher<C, State, Poly1305> where C: Keystream {
    type V = StreamState;

    closed spec fn view(&self) -> StreamState {
        StreamState {
            keystream: self.cipher.keystream(),
            position: self.cipher.position() as int,
            capacity: self.cipher.capacity() as int,
            mac_key: poly1305_key(self.mac),
            authenticated: poly1305_absorbed(self.mac) + self.buffer@.take(self.buffer_pos as int),
            aad_len: self.aad_len as int,
            payload_len: self.payload_len as int,
        }
    }
}

impl<C, State, MacType> StreamingCipher<C, State, MacType> where C: Keystream {
    /// The block buffer, with the bytes that are no longer in use.
    pub closed spec fn buffered(&self) -> Seq<u8> {
        self.buffer@
    }

    /// How many bytes at the start of the block buffer are in use.
    pub closed spec fn buffered_len(&self) -> int {
        self.buffer_pos as int
    }

    /// Whether the block buffer holds nothing but zero bytes.
    pub open spec fn pending_erased(&self) -> bool {
        forall|i: int| 0 <= i < 16 ==> #[trigger] self.buffered()[i] == 0
    }
}

impl<C, State> StreamingCipher<C, State> where C: Keystream {
    /// The bytes that the authenticator has taken in.
    pub closed spec fn absorbed(&self) -> Seq<u8> {
        poly1305_absorbed(self.mac)
    }

    /// The authenticator has taken in whole blocks, the buffer holds what is
    /// left over, and the message is within its limit.
    pub closed spec fn wf(&self) -> bool {
        &&& poly1305_absorbed(self.mac).len() % 16 == 0
        &&& self.buffer_pos < 16
        &&& self.payload_len <= MAX_PAYLOAD_LEN
    }

    /// In every valid state the lengths are within their limits.
    pub proof fn law_within_limits(&self)
        requires
            self.wf(),
        ensures
            0 <= self@.aad_len <= u64::MAX,
            0 <= self@.payload_len <= MAX_PAYLOAD_LEN,
            0 <= self@.position,
    {
    }

    /// In every valid state the authenticator has taken in all whole blocks of
    /// what was handed over, and the start of the buffer holds the rest.
    pub proof fn law_buffer_holds_the_rest(&self)
        requires
            self.wf(),
        ensures
            self.buffered().len() == 16,
            self.buffered_len() == self@.authenticated.len() as int % 16,
            self.absorbed() == self@.authenticated.take(
                self@.authenticated.len() - self.buffered_len(),
            ),
            self.buffered().take(self.buffered_len()) == self@.authenticated.skip(
                self@.authenticated.len() - self.buffered_len(),
            ),
    {
        let whole = self@.authenticated;
        assert(self.absorbed() =~= whole.take(whole.len() - self.buffered_len()));
        assert(self.buffered().take(self.buffered_len()) =~= whole.skip(
            whole.len() - self.buffered_len(),
        ));
    }

    /// Where data is divided makes no difference to the authenticator: after
    /// `first` and then `second`, it has taken in the same blocks and the same
    /// bytes wait in the buffer as after both at once.
    pub proof fn law_division_does_not_matter(
        start: StreamState,
        divided: &Self,
        at_once: &Self,
        first: Seq<u8>,
        second: Seq<u8>,
    )
        requires
            divided.wf(),
            at_once.wf(),
            divided@ == start.absorb(first).absorb(second),
            at_once@ == start.absorb(first + second),
        ensures
            divided.absorbed() == at_once.absorbed(),
            divided.buffered_len() == at_once.buffered_len(),
            divided.buffered().take(divided.buffered_len()) == at_once.buffered().take(
                at_once.buffered_len(),
            ),
    {
        law_absorb_in_pieces(start, first, second);
        divided.law_buffer_holds_the_rest();
        at_once.law_buffer_holds_the_rest();
    }

    /// Handing over no data leaves the authenticator and the buffer as they
    /// were.
    pub proof fn law_no_data_changes_nothing(before: &Self, after: &Self)
        requires
            before.wf(),
            after.wf(),
            after@ == before@.absorb(Seq::empty()),
            after.buffered() == buffer_after(
                before.buffered(),
                before.buffered_len(),
                Seq::empty(),
            ),
        ensures
            after@ == before@,
            after.absorbed() == before.absorbed(),
            after.buffered() == before.buffered(),
            after.buffered_len() == before.buffered_len(),
    {
        reveal(buffer_after);
        law_absorb_in_pieces(before@, Seq::empty(), Seq::empty());
        before.law_buffer_holds_the_rest();
        after.law_buffer_holds_the_rest();
        assert(after.buffered() =~= before.buffered());
    }

    /// While a message is processed, as many bytes are in use in the buffer as
    /// its length leaves over from whole blocks, be it encrypted, decrypted or
    /// only verified.
    pub proof fn law_buffered_len_follows_payload(
        &self,
        start: StreamState,
        aad: Seq<Seq<u8>>,
        pieces: Seq<Seq<u8>>,
    )
        requires
            self.wf(),
            is_start(start),
            aad_session(start, aad) is Some,
            ({
                let state = aad_session(start, aad)->Some_0.finish_aad();
                ||| (encrypt_session(state, pieces) matches Some((end, _)) && self@ == end)
                ||| (decrypt_session(state, pieces) matches Some((end, _)) && self@ == end)
                ||| verify_session(state, pieces) == Some(self@)
            }),
        ensures
            self.buffered_len() == self@.payload_len % 16,
    {
        law_progress(start, aad, pieces);
        self.law_buffer_holds_the_rest();
    }

    /// Hands `data` over to the authenticator in blocks of 16 bytes; what does
    /// not fill a block waits in the buffer.
    #[verifier::rlimit(30)]
    fn process_mac(&mut self, data: &[u8]) -> (r: Result<(), Error>)
        requires
            old(self).wf(),
        ensures
            r is Ok,
            final(self).wf(),
            final(self)@ == old(self)@.absorb(data@),
            final(self).buffered() == buffer_after(
                old(self).buffered(),
                old(self).buffered_len(),
                data@,
            ),
    {
        let mut data = data;
        let ghost whole = data@;
        let ghost before = old(self)@.authenticated;
        let ghost start = self.buffer@;
        let ghost pos = self.buffer_pos as int;
        if self.buffer_pos > 0 {
            let space: usize = 16 - self.buffer_pos;
            if data.len() >= space {
                copy_into(&mut self.buffer, self.buffer_pos, &data[0..space]);
                assert(self.buffer@ =~= start.take(pos) + whole.take(16 - pos));
                mac_update(&mut self.mac, self.buffer);
                data = &data[space..data.len()];
                self.buffer_pos = 0;
                assert(self@.authenticated + data@ =~= before + whole);
            } else {
                copy_into(&mut self.buffer, self.buffer_pos, data);
                self.buffer_pos = self.buffer_pos + data.len();
                reveal(buffer_after);
                assert(self@.authenticated =~= before + whole);
                return Ok(());
            }
        }
        let ghost filled = self.buffer@;
        let mut offset: usize = 0;
        while data.len() - offset >= 16
            invariant
                offset % 16 == 0,
                self.buffer@ == filled,
                offset <= data@.len(),
                self.wf(),
                self.buffer_pos == 0,
                self@ == (StreamState { authenticated: self@.authenticated, ..old(self)@ }),
                self@.authenticated + data@.skip(offset as int) == before + whole,
            decreases data@.len() - offset,
        {
            let ghost prev = self@.authenticated;
            let block = block_at(data, offset);
            mac_update(&mut self.mac, block);
            assert(self@.authenticated =~= prev + block@);
            assert(data@.skip(offset as int) =~= block@ + data@.skip(offset + 16));
            assert(self@.authenticated + data@.skip(offset + 16) =~= prev + data@.skip(
                offset as int,
            ));
            offset = offset + 16;
        }
        let remainder = &data[offset..data.len()];
        if !remainder.is_empty() {
            copy_into(&mut self.buffer, 0, remainder);
            self.buffer_pos = remainder.len();
        }
        assert(self@.authenticated =~= before + whole);
        proof {
            reveal(buffer_after);
            if pos + whole.len() < 16 {
                assert(self.buffer@ =~= overwrite(start, pos, whole));
            } else {
                let left = (pos + whole.len()) % 16;
                assert(remainder@ =~= whole.skip(whole.len() - left));
                assert(self.buffer@ =~= overwrite(filled, 0, remainder@));
            }
        }
        Ok(())
    }

    /// Counts `len` more bytes of the message, or erases the counts and the
    /// buffer where the message becomes too long.
    fn check_and_update_payload_len(&mut self, len: usize) -> (r: Result<(), Error>)
        requires
            old(self).wf(),
        ensures
            final(self).wf(),
            r is Ok <==> old(self)@.accepts_payload(len as int),
            r is Ok ==> final(self)@ == old(self)@.grow_payload(len as int),
            r is Ok ==> final(self).buffered() == old(self).buffered(),
            r is Err ==> final(self)@ == old(self)@.refuse_payload(len as int),
            (r is Err && old(self)@.payload_len + len <= u64::MAX) ==>
                final(self).pending_erased(),
            (r is Err && old(self)@.payload_len + len > u64::MAX) ==> final(self).buffered()
                == old(self).buffered(),
    {
        let new_payload_len: u64 = match self.payload_len.checked_add(len as u64) {
            Some(sum) => sum,
            None => return Err(Error),
        };
        if new_payload_len > MAX_PAYLOAD_LEN {
            erase(
                &mut self.buffer,
                &mut self.aad_len,
                &mut self.payload_len,
                &mut self.buffer_pos,
            );
            assert(self@.authenticated =~= old(self)@.wiped().authenticated);
            return Err(Error);
        }
        self.payload_len = new_payload_len;
        Ok(())
    }

    /// Hands the buffered bytes, filled up to a block, over to the
    /// authenticator. They stay in the buffer.
    fn pad_pending(&mut self)
        requires
            old(self).wf(),
        ensures
            *final(self) == (StreamingCipher { mac: final(self).mac, ..*old(self) }),
            poly1305_key(final(self).mac) == poly1305_key(old(self).mac),
            poly1305_absorbed(final(self).mac) == pad16(old(self)@.authenticated),
            poly1305_absorbed(final(self).mac).len() % 16 == 0,
    {
        let ghost absorbed = poly1305_absorbed(self.mac);
        let ghost pending = self.buffer@.take(self.buffer_pos as int);
        proof {
            lemma_pad16_after_blocks(absorbed, pending);
        }
        if self.buffer_pos > 0 {
            let remainder = &self.buffer[0..self.buffer_pos];
            assert(remainder@ == pending);
            mac_update_padded(&mut self.mac, remainder);
        } else {
            proof {
                lemma_nothing_pending(absorbed, self.buffer@);
            }
        }
    }

    /// Hands the buffered bytes, filled up to a block, and the two lengths
    /// over to the authenticator.
    fn finish_mac(&mut self)
        requires
            old(self).wf(),
        ensures
            *final(self) == (StreamingCipher { mac: final(self).mac, ..*old(self) }),
            poly1305_key(final(self).mac) == old(self)@.mac_key,
            poly1305_absorbed(final(self).mac) == pad16(old(self)@.authenticated)
                + length_block(old(self)@.aad_len, old(self)@.payload_len),
    {
        self.pad_pending();
        mac_update(&mut self.mac, encode_lengths(self.aad_len, self.payload_len));
    }
}

impl<C> StreamingCipher<C, AadPhase> where C: Keystream {
    /// Creates new StreamingCipher instance.
    pub fn new(cipher: C) -> (r: Self)
        requires
            cipher.position() + 32 <= cipher.capacity(),
            BLOCK_SIZE <= cipher.capacity(),
        ensures
            r.wf(),
            r@ == StreamState::initial(
                cipher.keystream(),
                cipher.position() as int,
                cipher.capacity() as int,
            ),
            r.pending_erased(),
            r.buffered_len() == 0,
            r@.keystream == cipher.keystream(),
            r@.capacity == cipher.capacity(),
            r@.position == 64,
            r@.mac_key.len() == 32,
            forall|i: int|
                0 <= i < 32 ==> #[trigger] r@.mac_key[i] == cipher.keystream()[cipher.position()
                    + i],
            r@.authenticated.len() == 0,
            r@.aad_len == 0,
            r@.payload_len == 0,
            forall|i: int| 0 <= i < 16 ==> #[trigger] r.buffered()[i] == 0,
    {
        let mut cipher = cipher;
        let mac = start(&mut cipher);
        StreamingCipher {
            cipher,
            mac,
            aad_len: 0,
            payload_len: 0,
            buffer: [0u8; 16],
            buffer_pos: 0,
            _state: PhantomData,
        }
    }

    /// Function to incrementally update the AAD.
    /// This function can be called multiple times with different slices of AAD data.
    /// This is step 1 of the streaming encryption/decryption process.
    /// Afterwards, the `finish_aad` function must be called to finalize the AAD processing.
    pub fn update_aad(&mut self, data: &[u8]) -> (r: Result<(), Error>)
        requires
            old(self).wf(),
        ensures
            final(self).wf(),
            r is Ok <==> old(self)@.accepts_aad(data@.len() as int),
            final(self)@ == old(self)@.update_aad(data@),
            r is Ok <==> old(self)@.aad_len + data@.len() <= u64::MAX,
            final(self)@.authenticated == old(self)@.authenticated + data@,
            final(self)@.aad_len == old(self)@.aad_len + if r is Ok {
                data@.len() as int
            } else {
                0
            },
            final(self)@.payload_len == old(self)@.payload_len,
            final(self)@.keystream == old(self)@.keystream,
            final(self)@.position == old(self)@.position,
            final(self)@.capacity == old(self)@.capacity,
            final(self)@.mac_key == old(self)@.mac_key,
            final(self).buffered() == buffer_after(
                old(self).buffered(),
                old(self).buffered_len(),
                data@,
            ),
    {
        self.process_mac(data)?;
        self.aad_len = match self.aad_len.checked_add(data.len() as u64) {
            Some(sum) => sum,
            None => return Err(Error),
        };
        Ok(())
    }

    /// Function to finalize the AAD processing.
    pub fn finish_aad<NextPhase: ValidNextPhase>(self) -> (r: Result<
        StreamingCipher<C, NextPhase>,
        Error,
    >)
        requires
            self.wf(),
        ensures
            r matches Ok(s) && {
                &&& s.wf()
                &&& s@ == self@.finish_aad()
                &&& s.buffered() == self.buffered()
                &&& s.buffered_len() == 0
                &&& s@.authenticated.len() == (self@.authenticated.len() as int + 15) / 16 * 16
                &&& forall|i: int|
                    0 <= i < self@.authenticated.len() ==> #[trigger] s@.authenticated[i]
                        == self@.authenticated[i]
                &&& forall|i: int|
                    self@.authenticated.len() <= i < s@.authenticated.len()
                        ==> #[trigger] s@.authenticated[i] == 0
                &&& s@.aad_len == self@.aad_len
                &&& s@.payload_len == self@.payload_len
                &&& s@.keystream == self@.keystream
                &&& s@.position == self@.position
                &&& s@.capacity == self@.capacity
                &&& s@.mac_key == self@.mac_key
            },
    {
        let mut this = self;
        this.pad_pending();
        if this.buffer_pos > 0 {
            this.buffer_pos = 0;
        }
        proof {
            lemma_nothing_pending(poly1305_absorbed(this.mac), this.buffer@);
        }
        Ok(
            StreamingCipher {
                cipher: this.cipher,
                mac: this.mac,
                aad_len: this.aad_len,
                payload_len: this.payload_len,
                buffer: this.buffer,
                buffer_pos: this.buffer_pos,
                _state: PhantomData,
            },
        )
    }
}

impl<C> StreamingCipher<C, EncryptionPhase> where C: Keystream {
    /// Function to incrementally update the plaintext for encryption.
    /// This function can be called multiple times with different slices of plaintext data.
    /// This is step 2 of the streaming encryption process.
    /// Afterwards, the `finalize` function must be called to finalize
    /// the plaintext processing and obtain the authentication tag.
    pub fn update_plaintext(&mut self, buffer: InOutBuf<'_, '_>) -> (r: Result<(), Error>)
        requires
            old(self).wf(),
            buffer.wf(),
            old(self)@.accepts_payload(buffer.in_bytes().len() as int) ==> old(
                self,
            )@.has_keystream(buffer.in_bytes().len() as int),
        ensures
            final(self).wf(),
            r is Ok <==> old(self)@.accepts_payload(buffer.in_bytes().len() as int),
            r is Ok ==> {
                &&& final(buffer.out())@ == old(self)@.transform(buffer.in_bytes())
                &&& final(self)@ == old(self)@.encrypt(buffer.in_bytes())
                &&& final(self).buffered() == buffer_after(
                    old(self).buffered(),
                    old(self).buffered_len(),
                    old(self)@.transform(buffer.in_bytes()),
                )
            },
            r is Err ==> {
                &&& final(buffer.out())@ == buffer.out_bytes()
                &&& final(self)@ == old(self)@.refuse_payload(buffer.in_bytes().len() as int)
            },
            r is Ok <==> old(self)@.payload_len + buffer.in_bytes().len() <= 274877906880,
            final(self)@.keystream == old(self)@.keystream,
            final(self)@.capacity == old(self)@.capacity,
            final(self)@.mac_key == old(self)@.mac_key,
            r is Ok ==> {
                &&& final(buffer.out())@.len() == buffer.in_bytes().len()
                &&& forall|i: int|
                    0 <= i < buffer.in_bytes().len() ==> #[trigger] final(buffer.out())@[i]
                        == buffer.in_bytes()[i] ^ old(self)@.keystream[old(self)@.position + i]
                &&& final(self)@.authenticated == old(self)@.authenticated + final(buffer.out())@
                &&& final(self)@.payload_len == old(self)@.payload_len + buffer.in_bytes().len()
                &&& final(self)@.position == old(self)@.position + buffer.in_bytes().len()
                &&& final(self)@.aad_len == old(self)@.aad_len
            },
            r is Err ==> final(self)@.position == old(self)@.position,
            (r is Err && old(self)@.payload_len + buffer.in_bytes().len() <= u64::MAX) ==> {
                &&& final(self)@.authenticated == old(self)@.authenticated.take(
                    old(self)@.authenticated.len() - old(self)@.authenticated.len() as int % 16,
                )
                &&& final(self)@.aad_len == 0
                &&& final(self)@.payload_len == 0
                &&& forall|i: int| 0 <= i < 16 ==> #[trigger] final(self).buffered()[i] == 0
            },
            (r is Err && old(self)@.payload_len + buffer.in_bytes().len() > u64::MAX) ==> final(self)@
                == old(self)@,
            (r is Err && old(self)@.payload_len + buffer.in_bytes().len() <= u64::MAX) ==>
                final(self).pending_erased(),
            (r is Err && old(self)@.payload_len + buffer.in_bytes().len() > u64::MAX) ==>
                final(self).buffered() == old(self).buffered(),
    {
        let ghost plaintext = buffer.in_bytes();
        let mut buffer = buffer;
        match self.check_and_update_payload_len(buffer.len()) {
            Ok(()) => {},
            Err(e) => {
                proof {
                    lemma_given_up(buffer);
                }
                return Err(e);
            },
        }

        self.cipher.apply_keystream_inout(buffer.reborrow());
        let ciphertext = buffer.get_out();
        assert(ciphertext@ == old(self)@.transform(plaintext));
        self.process_mac(ciphertext)?;
        proof {
            lemma_given_up(buffer);
        }
        Ok(())
    }

    /// Function to finalize the streaming encryption process and obtain the authentication tag.
    pub fn finalize(self) -> (r: Result<Tag, Error>)
        requires
            self.wf(),
        ensures
            r matches Ok(tag) && tag@ == self@.tag(),
            r->Ok_0@ == poly1305_tag(
                self@.mac_key,
                pad16(self@.authenticated) + length_block(self@.aad_len, self@.payload_len),
            ),
    {
        let mut this = self;
        this.finish_mac();
        Ok(mac_finalize(this.mac))
    }
}

impl<C> StreamingCipher<C, OnePassDecryptionPhase> where C: Keystream {
    /// Function to incrementally update the ciphertext for verification and decryption.
    /// This function can be called multiple times with different slices of ciphertext data.
    /// This is step 2 of the streaming decryption process.
    /// Afterwards, the `verify_and_finalize` function must be called to finalize
    /// the processing, and verify the tag.
    ///
    /// # SECURITY WARNING: Release of Unverified Plaintext (RUP)
    /// This streaming API decrypts data **before** the Poly1305 tag is verified.
    /// This means:
    ///
    /// 1. **Do not trust, parse, or evaluate** the plaintext until
    ///    `verify_and_finalize` returns `Ok(())`.
    /// 2. **Immediately discard/zeroize** all decrypted data if
    ///    verification fails.
    pub fn update_ciphertext_unverified(&mut self, buffer: InOutBuf<'_, '_>) -> (r: Result<
        (),
        Error,
    >)
        requires
            old(self).wf(),
            buffer.wf(),
            old(self)@.accepts_payload(buffer.in_bytes().len() as int) ==> old(
                self,
            )@.has_keystream(buffer.in_bytes().len() as int),
        ensures
            final(self).wf(),
            r is Ok <==> old(self)@.accepts_payload(buffer.in_bytes().len() as int),
            r is Ok ==> {
                &&& final(buffer.out())@ == old(self)@.transform(buffer.in_bytes())
                &&& final(self)@ == old(self)@.decrypt(buffer.in_bytes())
                &&& final(self).buffered() == buffer_after(
                    old(self).buffered(),
                    old(self).buffered_len(),
                    buffer.in_bytes(),
                )
            },
            r is Err ==> {
                &&& final(buffer.out())@ == buffer.out_bytes()
                &&& final(self)@ == old(self)@.refuse_payload(buffer.in_bytes().len() as int)
            },
            r is Ok <==> old(self)@.payload_len + buffer.in_bytes().len() <= 274877906880,
            final(self)@.keystream == old(self)@.keystream,
            final(self)@.capacity == old(self)@.capacity,
            final(self)@.mac_key == old(self)@.mac_key,
            r is Ok ==> {
                &&& final(buffer.out())@.len() == buffer.in_bytes().len()
                &&& forall|i: int|
                    0 <= i < buffer.in_bytes().len() ==> #[trigger] final(buffer.out())@[i]
                        == buffer.in_bytes()[i] ^ old(self)@.keystream[old(self)@.position + i]
                &&& final(self)@.authenticated == old(self)@.authenticated + buffer.in_bytes()
                &&& final(self)@.payload_len == old(self)@.payload_len + buffer.in_bytes().len()
                &&& final(self)@.position == old(self)@.position + buffer.in_bytes().len()
                &&& final(self)@.aad_len == old(self)@.aad_len
            },
            r is Err ==> final(self)@.position == old(self)@.position,
            (r is Err && old(self)@.payload_len + buffer.in_bytes().len() <= u64::MAX) ==> {
                &&& final(self)@.authenticated == old(self)@.authenticated.take(
                    old(self)@.authenticated.len() - old(self)@.authenticated.len() as int % 16,
                )
                &&& final(self)@.aad_len == 0
                &&& final(self)@.payload_len == 0
                &&& forall|i: int| 0 <= i < 16 ==> #[trigger] final(self).buffered()[i] == 0
            },
            (r is Err && old(self)@.payload_len + buffer.in_bytes().len() > u64::MAX) ==> final(self)@
                == old(self)@,
            (r is Err && old(self)@.payload_len + buffer.in_bytes().len() <= u64::MAX) ==>
                final(self).pending_erased(),
            (r is Err && old(self)@.payload_len + buffer.in_bytes().len() > u64::MAX) ==>
                final(self).buffered() == old(self).buffered(),
    {
        match self.check_and_update_payload_len(buffer.len()) {
            Ok(()) => {},
            Err(e) => {
                proof {
                    lemma_given_up(buffer);
                }
                return Err(e);
            },
        }
        self.process_mac(buffer.get_in())?;
        self.cipher.apply_keystream_inout(buffer);
        Ok(())
    }

    /// Function to verify the authentication tag and finalize the streaming decryption process.
    pub fn verify_and_finalize(self, expected_tag: &Tag) -> (r: Result<(), Error>)
        requires
            self.wf(),
        ensures
            r is Ok <==> expected_tag@ == self@.tag(),
            r is Ok <==> expected_tag@ == poly1305_tag(
                self@.mac_key,
                pad16(self@.authenticated) + length_block(self@.aad_len, self@.payload_len),
            ),
    {
        let mut this = self;
        this.finish_mac();
        if mac_verify(this.mac, expected_tag) {
            Ok(())
        } else {
            erase(
                &mut this.buffer,
                &mut this.aad_len,
                &mut this.payload_len,
                &mut this.buffer_pos,
            );
            Err(Error)
        }
    }
}

impl<C> StreamingCipher<C, VerificationPhase> where C: Keystream {
    /// Function to incrementally update the ciphertext for verification.
    pub fn update_ciphertext(&mut self, data: &[u8]) -> (r: Result<(), Error>)
        requires
            old(self).wf(),
        ensures
            final(self).wf(),
            r is Ok <==> old(self)@.accepts_payload(data@.len() as int),
            r is Ok ==> final(self)@ == old(self)@.verify_only(data@),
            r is Ok ==> final(self).buffered() == buffer_after(
                old(self).buffered(),
                old(self).buffered_len(),
                data@,
            ),
            r is Err ==> final(self)@ == old(self)@.refuse_payload(data@.len() as int),
            r is Ok <==> old(self)@.payload_len + data@.len() <= 274877906880,
            final(self)@.keystream == old(self)@.keystream,
            final(self)@.capacity == old(self)@.capacity,
            final(self)@.mac_key == old(self)@.mac_key,
            r is Ok ==> {
                &&& final(self)@.authenticated == old(self)@.authenticated + data@
                &&& final(self)@.payload_len == old(self)@.payload_len + data@.len()
                &&& final(self)@.position == old(self)@.position
                &&& final(self)@.aad_len == old(self)@.aad_len
            },
            r is Err ==> final(self)@.position == old(self)@.position,
            (r is Err && old(self)@.payload_len + data@.len() <= u64::MAX) ==> {
                &&& final(self)@.authenticated == old(self)@.authenticated.take(
                    old(self)@.authenticated.len() - old(self)@.authenticated.len() as int % 16,
                )
                &&& final(self)@.aad_len == 0
                &&& final(self)@.payload_len == 0
                &&& forall|i: int| 0 <= i < 16 ==> #[trigger] final(self).buffered()[i] == 0
            },
            (r is Err && old(self)@.payload_len + data@.len() > u64::MAX) ==> final(self)@
                == old(self)@,
            (r is Err && old(self)@.payload_len + data@.len() <= u64::MAX) ==>
                final(self).pending_erased(),
            (r is Err && old(self)@.payload_len + data@.len() > u64::MAX) ==>
                final(self).buffered() == old(self).buffered(),
    {
        self.check_and_update_payload_len(data.len())?;
        self.process_mac(data)?;
        Ok(())
    }

    /// Function to verify the authentication tag.
    pub fn verify(self, expected_tag: &Tag) -> (r: Result<
        StreamingCipher<C, DecryptionPhase, ()>,
        Error,
    >)
        requires
            self.wf(),
        ensures
            r is Ok <==> expected_tag@ == self@.tag(),
            r is Ok <==> expected_tag@ == poly1305_tag(
                self@.mac_key,
                pad16(self@.authenticated) + length_block(self@.aad_len, self@.payload_len),
            ),
            r matches Ok(s) ==> {
                &&& s@ == VerifiedState::initial(self@)
                &&& s@.keystream == self@.keystream
                &&& s@.position == self@.position
                &&& s@.capacity == self@.capacity
                &&& s@.aad_len == self@.aad_len
                &&& s@.remaining == self@.payload_len
                &&& s.buffered() == self.buffered()
                &&& s.buffered_len() == self.buffered_len()
            },
    {
        let mut this = self;
        this.finish_mac();
        if mac_verify(this.mac, expected_tag) {
            Ok(
                StreamingCipher {
                    cipher: this.cipher,
                    mac: (),
                    aad_len: this.aad_len,
                    payload_len: this.payload_len,
                    buffer: this.buffer,
                    buffer_pos: this.buffer_pos,
                    _state: PhantomData,
                },
            )
        } else {
            erase(
                &mut this.buffer,
                &mut this.aad_len,
                &mut this.payload_len,
                &mut this.buffer_pos,
            );
            Err(Error)
        }
    }
}

impl<C> View for StreamingCipher<C, DecryptionPhase, ()> where C: Keystream {
    type V = VerifiedState;

    closed spec fn view(&self) -> VerifiedState {
        VerifiedState {
            keystream: self.cipher.keystream(),
            position: self.cipher.position() as int,
            capacity: self.cipher.capacity() as int,
            aad_len: self.aad_len as int,
            remaining: self.payload_len as int,
        }
    }
}

impl<C> StreamingCipher<C, DecryptionPhase, ()> where C: Keystream {
    /// Function to incrementally update the ciphertext for decryption after tag verification.
    pub fn update_ciphertext_verified(&mut self, buffer: InOutBuf<'_, '_>) -> (r: Result<
        (),
        Error,
    >)
        requires
            buffer.wf(),
            buffer.in_bytes().len() <= old(self)@.remaining ==> old(self)@.has_keystream(
                buffer.in_bytes().len() as int,
            ),
        ensures
            r is Ok <==> buffer.in_bytes().len() <= old(self)@.remaining,
            r is Ok ==> {
                &&& final(buffer.out())@ == old(self)@.transform(buffer.in_bytes())
                &&& final(self)@ == old(self)@.decrypt(buffer.in_bytes().len() as int)
                &&& final(buffer.out())@.len() == buffer.in_bytes().len()
                &&& forall|i: int|
                    0 <= i < buffer.in_bytes().len() ==> #[trigger] final(buffer.out())@[i]
                        == buffer.in_bytes()[i] ^ old(self)@.keystream[old(self)@.position + i]
                &&& final(self)@.position == old(self)@.position + buffer.in_bytes().len()
                &&& final(self)@.remaining == old(self)@.remaining - buffer.in_bytes().len()
            },
            final(self)@.keystream == old(self)@.keystream,
            final(self)@.capacity == old(self)@.capacity,
            final(self)@.aad_len == old(self)@.aad_len,
            r is Err ==> {
                &&& final(buffer.out())@ == buffer.out_bytes()
                &&& final(self)@ == old(self)@
            },
            final(self).buffered() == old(self).buffered(),
            final(self).buffered_len() == old(self).buffered_len(),
    {
        // Check whether the length of the supplied ciphertext in this phase exceeds the length
        // of the one supplied in the previous phase. Done by incrementally reducing the previous
        // count.
        let len: u64 = buffer.len() as u64;
        if len > self.payload_len {
            proof {
                lemma_given_up(buffer);
            }
            return Err(Error);
        }
        self.payload_len = self.payload_len - len;

        self.cipher.apply_keystream_inout(buffer);
        Ok(())
    }

    /// Function to finalize the decryption process. Must be called to ensure the exact amount of
    /// authenticated data was processed.
    pub fn finalize(self) -> (r: Result<(), Error>)
        ensures
            r is Ok <==> self@.remaining == 0,
    {
        if self.payload_len != 0 {
            return Err(Error);
        }
        Ok(())
    }
}

} // verus!
