//! What the terms of the contracts amount to, byte by byte and in numbers.
use vstd::arithmetic::div_mod::lemma_div_denominator;
use vstd::prelude::*;

use crate::construction::{
    aead_tag, derive_mac_key, le_byte, le_bytes, length_block, mac_data, one_shot_accepts, seal,
    unseal, BLOCK_SIZE, MAX_BLOCKS,
};
use crate::keystream::{chacha20_keystream, xor_keystream, ChaCha20, Keystream, CHACHA20_CAPACITY};
use crate::laws::{is_progress, is_start};
use crate::mac::{pad16, poly1305_tag};
use crate::state::{buffer_after, overwrite, StreamState, VerifiedState, MAX_PAYLOAD_LEN};

verus! {

/// A ChaCha20 block has 64 bytes, its counter takes 2^32 - 1 values, and
/// keystream and message in pieces are limited to as many blocks.
pub proof fn law_limits()
    ensures
        BLOCK_SIZE == 64,
        MAX_BLOCKS == 4294967295,
        MAX_PAYLOAD_LEN == 274877906880,
        CHACHA20_CAPACITY == 274877906880,
{
}

/// Combining data with the keystream keeps its length, and each byte becomes
/// its exclusive or with the keystream byte at the same distance from the
/// position.
pub proof fn law_xor_keystream_bytes(data: Seq<u8>, keystream: Seq<u8>, position: int)
    ensures
        xor_keystream(data, keystream, position).len() == data.len(),
        forall|i: int|
            0 <= i < data.len() ==> #[trigger] xor_keystream(data, keystream, position)[i]
                == data[i] ^ keystream[position + i],
{
}

/// The keystream of a ChaCha20 is that of its whole key and its whole nonce,
/// wherever it stands.
pub proof fn law_chacha20_keystream(cipher: &ChaCha20)
    ensures
        cipher.keystream() == chacha20_keystream(cipher.key(), cipher.nonce()),
        cipher.capacity() == 274877906880,
{
}

/// The authenticator key consists of the 32 keystream bytes from the position
/// on, in their order.
pub proof fn law_mac_key_bytes(keystream: Seq<u8>, position: int)
    ensures
        derive_mac_key(keystream, position).len() == 32,
        forall|i: int|
            0 <= i < 32 ==> #[trigger] derive_mac_key(keystream, position)[i]
                == keystream[position + i],
{
}

/// Different keystream bytes give different authenticator keys.
pub proof fn law_mac_key_tells_keystreams_apart(
    keystream: Seq<u8>,
    position: int,
    other: Seq<u8>,
    other_position: int,
    i: int,
)
    requires
        0 <= i < 32,
        keystream[position + i] != other[other_position + i],
    ensures
        derive_mac_key(keystream, position) != derive_mac_key(other, other_position),
{
    law_mac_key_bytes(keystream, position);
    law_mac_key_bytes(other, other_position);
    assert(derive_mac_key(keystream, position)[i] != derive_mac_key(other, other_position)[i]);
}

/// Padding appends fewer than 16 bytes, all of them zero, and makes the length
/// a multiple of 16.
pub proof fn law_pad16_bytes(data: Seq<u8>)
    ensures
        pad16(data).len() == (data.len() as int + 15) / 16 * 16,
        forall|i: int| 0 <= i < data.len() ==> #[trigger] pad16(data)[i] == data[i],
        forall|i: int| data.len() <= i < pad16(data).len() ==> #[trigger] pad16(data)[i] == 0,
{
    let n = data.len() as int;
    assert(pad16(data).len() == n + (16 - n % 16) % 16);
}

/// The first eight bytes of the length block stand for the length of the
/// associated data and the last eight for that of the message, the least
/// significant byte first.
pub proof fn law_length_block_values(aad_len: int, payload_len: int)
    requires
        0 <= aad_len <= u64::MAX,
        0 <= payload_len <= u64::MAX,
    ensures
        length_block(aad_len, payload_len).len() == 16,
        ({
            let b = length_block(aad_len, payload_len);
            b[0] + b[1] * 0x100 + b[2] * 0x1_0000 + b[3] * 0x100_0000 + b[4] * 0x1_0000_0000 + b[5]
                * 0x100_0000_0000 + b[6] * 0x1_0000_0000_0000 + b[7] * 0x100_0000_0000_0000
        }) == aad_len,
        ({
            let b = length_block(aad_len, payload_len);
            b[8] + b[9] * 0x100 + b[10] * 0x1_0000 + b[11] * 0x100_0000 + b[12] * 0x1_0000_0000
                + b[13] * 0x100_0000_0000 + b[14] * 0x1_0000_0000_0000 + b[15]
                * 0x100_0000_0000_0000
        }) == payload_len,
{
    lemma_digits(aad_len);
    lemma_digits(payload_len);
    let b = length_block(aad_len, payload_len);
    assert(forall|i: int| 0 <= i < 8 ==> #[trigger] b[i] == le_byte(aad_len, i));
    assert forall|i: int| 8 <= i < 16 implies #[trigger] b[i] == le_byte(payload_len, i - 8) by {
        assert(b[i] == le_bytes(payload_len)[i - 8]);
    }
}

/// The eight digits of a number to the base 256 make up the number.
pub(crate) proof fn lemma_digits(n: int)
    requires
        0 <= n <= u64::MAX,
    ensures
        le_byte(n, 0) + le_byte(n, 1) * 0x100 + le_byte(n, 2) * 0x1_0000 + le_byte(n, 3)
            * 0x100_0000 + le_byte(n, 4) * 0x1_0000_0000 + le_byte(n, 5) * 0x100_0000_0000
            + le_byte(n, 6) * 0x1_0000_0000_0000 + le_byte(n, 7) * 0x100_0000_0000_0000 == n,
{
    lemma_div_denominator(n, 0x100, 0x100);
    lemma_div_denominator(n, 0x1_0000, 0x100);
    lemma_div_denominator(n, 0x100_0000, 0x100);
    lemma_div_denominator(n, 0x1_0000_0000, 0x100);
    lemma_div_denominator(n, 0x100_0000_0000, 0x100);
    lemma_div_denominator(n, 0x1_0000_0000_0000, 0x100);
}

/// What is authenticated of a message is, in this order and with nothing in
/// between: the associated data, zero bytes up to a whole number of blocks, the
/// ciphertext, zero bytes up to a whole number of blocks, and the two lengths
/// in eight bytes each, the least significant first.
pub proof fn law_mac_data_bytes(aad: Seq<u8>, ciphertext: Seq<u8>)
    requires
        aad.len() <= u64::MAX,
        ciphertext.len() <= u64::MAX,
    ensures
        ({
            let data = mac_data(aad, ciphertext);
            let c = (aad.len() as int + 15) / 16 * 16;
            let l = c + (ciphertext.len() as int + 15) / 16 * 16;
            &&& data.len() == l + 16
            &&& forall|i: int| 0 <= i < aad.len() ==> #[trigger] data[i] == aad[i]
            &&& forall|i: int| aad.len() <= i < c ==> #[trigger] data[i] == 0
            &&& forall|i: int|
                c <= i < c + ciphertext.len() ==> #[trigger] data[i] == ciphertext[i - c]
            &&& forall|i: int| c + ciphertext.len() <= i < l ==> #[trigger] data[i] == 0
            &&& data[l] + data[l + 1] * 0x100 + data[l + 2] * 0x1_0000 + data[l + 3] * 0x100_0000
                + data[l + 4] * 0x1_0000_0000 + data[l + 5] * 0x100_0000_0000 + data[l + 6]
                * 0x1_0000_0000_0000 + data[l + 7] * 0x100_0000_0000_0000 == aad.len()
            &&& data[l + 8] + data[l + 9] * 0x100 + data[l + 10] * 0x1_0000 + data[l + 11]
                * 0x100_0000 + data[l + 12] * 0x1_0000_0000 + data[l + 13] * 0x100_0000_0000
                + data[l + 14] * 0x1_0000_0000_0000 + data[l + 15] * 0x100_0000_0000_0000
                == ciphertext.len()
        }),
{
    law_pad16_bytes(aad);
    law_pad16_bytes(ciphertext);
    let lengths = length_block(aad.len() as int, ciphertext.len() as int);
    law_length_block_values(aad.len() as int, ciphertext.len() as int);
    lemma_layout_bytes(aad, ciphertext, lengths);
}

/// Where the bytes of padded associated data, padded ciphertext and a block of
/// lengths are found in their concatenation.
proof fn lemma_layout_bytes(aad: Seq<u8>, ciphertext: Seq<u8>, lengths: Seq<u8>)
    requires
        lengths.len() == 16,
    ensures
        ({
            let data = pad16(aad) + pad16(ciphertext) + lengths;
            let c = (aad.len() as int + 15) / 16 * 16;
            let l = c + (ciphertext.len() as int + 15) / 16 * 16;
            &&& data.len() == l + 16
            &&& forall|i: int| 0 <= i < aad.len() ==> #[trigger] data[i] == aad[i]
            &&& forall|i: int| aad.len() <= i < c ==> #[trigger] data[i] == 0
            &&& forall|i: int|
                c <= i < c + ciphertext.len() ==> #[trigger] data[i] == ciphertext[i - c]
            &&& forall|i: int| c + ciphertext.len() <= i < l ==> #[trigger] data[i] == 0
            &&& forall|i: int| l <= i < l + 16 ==> #[trigger] data[i] == lengths[i - l]
        }),
{
    law_pad16_bytes(aad);
    law_pad16_bytes(ciphertext);
    let data = pad16(aad) + pad16(ciphertext) + lengths;
    let c = (aad.len() as int + 15) / 16 * 16;
    let l = c + (ciphertext.len() as int + 15) / 16 * 16;
    assert forall|i: int| 0 <= i < c implies #[trigger] data[i] == pad16(aad)[i] by {}
    assert forall|i: int| c <= i < l implies #[trigger] data[i] == pad16(ciphertext)[i - c] by {}
}

/// A tag is what Poly1305 gives under the authenticator key for the bytes that
/// are authenticated, unchanged, whether the message is processed in one go or
/// in pieces.
pub proof fn law_tag_is_poly1305(
    mac_key: Seq<u8>,
    aad: Seq<u8>,
    ciphertext: Seq<u8>,
    state: StreamState,
)
    ensures
        aead_tag(mac_key, aad, ciphertext) == poly1305_tag(mac_key, mac_data(aad, ciphertext)),
        state.tag() == poly1305_tag(
            state.mac_key,
            pad16(state.authenticated) + length_block(state.aad_len, state.payload_len),
        ),
{
}

/// Encryption in one go accepts up to 2^32 - 1 whole blocks less one byte, uses
/// the keystream from its 65th byte on, and gives the Poly1305 tag.
pub proof fn law_seal_bytes(
    keystream: Seq<u8>,
    mac_key: Seq<u8>,
    aad: Seq<u8>,
    plaintext: Seq<u8>,
)
    ensures
        one_shot_accepts(plaintext.len() as int) <==> plaintext.len() < 274877906880,
        seal(keystream, mac_key, aad, plaintext) is Some <==> plaintext.len() < 274877906880,
        seal(keystream, mac_key, aad, plaintext) matches Some((ciphertext, tag)) ==> {
            &&& ciphertext.len() == plaintext.len()
            &&& forall|i: int|
                0 <= i < plaintext.len() ==> #[trigger] ciphertext[i] == plaintext[i]
                    ^ keystream[64 + i]
            &&& tag == poly1305_tag(mac_key, mac_data(aad, ciphertext))
        },
{
}

/// Decryption in one go accepts a message of at most 2^32 - 1 whole blocks less
/// one byte if and only if its tag is the Poly1305 tag, and then uses the
/// keystream from its 65th byte on.
pub proof fn law_unseal_bytes(
    keystream: Seq<u8>,
    mac_key: Seq<u8>,
    aad: Seq<u8>,
    ciphertext: Seq<u8>,
    tag: Seq<u8>,
)
    ensures
        unseal(keystream, mac_key, aad, ciphertext, tag) is Some <==> ciphertext.len()
            < 274877906880 && tag == poly1305_tag(mac_key, mac_data(aad, ciphertext)),
        unseal(keystream, mac_key, aad, ciphertext, tag) matches Some(plaintext) ==> {
            &&& plaintext.len() == ciphertext.len()
            &&& forall|i: int|
                0 <= i < ciphertext.len() ==> #[trigger] plaintext[i] == ciphertext[i]
                    ^ keystream[64 + i]
        },
{
}

/// A message starts with nothing handed over, at the 65th keystream byte, under
/// the key made of 32 keystream bytes.
pub proof fn law_initial_state(keystream: Seq<u8>, position: int, capacity: int)
    ensures
        ({
            let state = StreamState::initial(keystream, position, capacity);
            &&& is_start(state)
            &&& state.keystream == keystream
            &&& state.position == 64
            &&& state.capacity == capacity
            &&& state.mac_key.len() == 32
            &&& forall|i: int|
                0 <= i < 32 ==> #[trigger] state.mac_key[i] == keystream[position + i]
            &&& state.authenticated.len() == 0
            &&& state.aad_len == 0
            &&& state.payload_len == 0
        }),
{
}

/// Which pieces are accepted, in numbers.
pub proof fn law_acceptance(state: StreamState, verified: VerifiedState, len: int)
    ensures
        state.accepts_aad(len) <==> state.aad_len + len <= 18446744073709551615,
        state.accepts_payload(len) <==> state.payload_len + len <= 274877906880,
        state.has_keystream(len) <==> state.position + len <= state.capacity,
        verified.has_keystream(len) <==> verified.position + len <= verified.capacity,
{
}

/// What each step changes of a message, and that it changes nothing else.
pub proof fn law_steps(state: StreamState, data: Seq<u8>, len: int)
    ensures
        state.absorb(data) == (StreamState {
            authenticated: state.authenticated + data,
            ..state
        }),
        state.grow_payload(len) == (StreamState {
            payload_len: state.payload_len + len,
            ..state
        }),
        state.advance(len) == (StreamState { position: state.position + len, ..state }),
        state.verify_only(data) == (StreamState {
            authenticated: state.authenticated + data,
            payload_len: state.payload_len + data.len(),
            ..state
        }),
        state.decrypt(data) == (StreamState {
            authenticated: state.authenticated + data,
            payload_len: state.payload_len + data.len(),
            position: state.position + data.len(),
            ..state
        }),
        state.encrypt(data) == (StreamState {
            authenticated: state.authenticated + Seq::new(
                data.len(),
                |i: int| data[i] ^ state.keystream[state.position + i],
            ),
            payload_len: state.payload_len + data.len(),
            position: state.position + data.len(),
            ..state
        }),
        state.wiped() == (StreamState {
            authenticated: state.authenticated.take(
                state.authenticated.len() as int / 16 * 16,
            ),
            aad_len: 0,
            payload_len: 0,
            ..state
        }),
        VerifiedState::initial(state) == (VerifiedState {
            keystream: state.keystream,
            position: state.position,
            capacity: state.capacity,
            aad_len: state.aad_len,
            remaining: state.payload_len,
        }),
{
    assert(state.transform(data) =~= Seq::new(
        data.len(),
        |i: int| data[i] ^ state.keystream[state.position + i],
    ));
    let n = state.authenticated.len() as int;
    assert(n - n % 16 == n / 16 * 16);
}

/// A message that has made progress has the lengths of what was handed over,
/// and as many bytes in its unfinished block as its length leaves over.
pub proof fn law_progress_in_numbers(
    state: StreamState,
    aad: Seq<Seq<u8>>,
    pieces: Seq<Seq<u8>>,
)
    ensures
        is_progress(state, aad, pieces) <==> {
            &&& state.aad_len == aad.flatten().len()
            &&& state.payload_len == pieces.flatten().len()
            &&& state.payload_len <= 274877906880
            &&& state.authenticated.len() as int % 16 == state.payload_len % 16
        },
{
}

/// What a 16-byte block buffer holds, index by index, once data has passed
/// through it.
pub proof fn law_buffer_after_bytes(buffer: Seq<u8>, pending: int, data: Seq<u8>)
    requires
        buffer.len() == 16,
        0 <= pending < 16,
    ensures
        buffer_after(buffer, pending, data).len() == 16,
        forall|i: int|
            0 <= i < 16 ==> #[trigger] buffer_after(buffer, pending, data)[i] == {
                let rest = (pending + data.len()) % 16;
                if pending + data.len() < 16 {
                    if pending <= i < pending + data.len() {
                        data[i - pending]
                    } else {
                        buffer[i]
                    }
                } else if i < rest {
                    data[data.len() - rest + i]
                } else if 0 < pending <= i {
                    data[i - pending]
                } else {
                    buffer[i]
                }
            },
{
    reveal(buffer_after);
    if pending + data.len() >= 16 {
        let rest = (pending + data.len()) % 16;
        let filled = if pending > 0 {
            overwrite(buffer, pending, data.take(16 - pending))
        } else {
            buffer
        };
        assert(filled.len() == 16);
        assert(data.skip(data.len() - rest).len() == rest);
    }
}

} // verus!
