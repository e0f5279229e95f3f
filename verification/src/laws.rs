//! What holds of the construction as a whole.
use vstd::prelude::*;

use crate::construction::{
    aead_tag, derive_mac_key, le_bytes, mac_data, one_shot_accepts, seal, unseal, BLOCK_SIZE,
};
use crate::keystream::xor_keystream;
use crate::mac::{lemma_pad16_after_blocks, pad16, poly1305_tag};
use crate::meaning::lemma_digits;
use crate::session::{
    aad_session, decrypt_session, encrypt_session, release_session, stream_seal,
    stream_unseal_one_pass, stream_unseal_two_pass, verify_session,
};
use crate::state::{StreamState, VerifiedState, MAX_PAYLOAD_LEN};

verus! {

/// Combining with the keystream twice gives the data back.
pub proof fn law_xor_keystream_inverts_itself(data: Seq<u8>, keystream: Seq<u8>, position: int)
    ensures
        xor_keystream(xor_keystream(data, keystream, position), keystream, position) == data,
{
    assert(forall|a: u8, b: u8| #![trigger a ^ b] (a ^ b) ^ b == a) by (bit_vector);
    assert(xor_keystream(xor_keystream(data, keystream, position), keystream, position) =~= data);
}

/// Two pieces that follow each other are combined as the one piece that they
/// make up.
pub proof fn law_xor_keystream_in_pieces(
    first: Seq<u8>,
    second: Seq<u8>,
    keystream: Seq<u8>,
    position: int,
)
    ensures
        xor_keystream(first + second, keystream, position) == xor_keystream(
            first,
            keystream,
            position,
        ) + xor_keystream(second, keystream, position + first.len()),
{
    assert(xor_keystream(first + second, keystream, position) =~= xor_keystream(
        first,
        keystream,
        position,
    ) + xor_keystream(second, keystream, position + first.len()));
}

/// Bytes may be handed over for authentication in any pieces, and handing over
/// none changes nothing.
pub proof fn law_absorb_in_pieces(state: StreamState, first: Seq<u8>, second: Seq<u8>)
    ensures
        state.absorb(first).absorb(second) == state.absorb(first + second),
        state.absorb(Seq::empty()) == state,
{
    assert(state.absorb(first).absorb(second) =~= state.absorb(first + second));
    assert(state.absorb(Seq::empty()) =~= state);
}

/// The limit on the message cannot be got past by division: two pieces are
/// accepted exactly where the one piece that they make up is, and count as
/// much.
pub proof fn law_payload_limit_in_pieces(state: StreamState, first: int, second: int)
    requires
        0 <= first,
        0 <= second,
    ensures
        state.accepts_payload(first + second) <==> state.accepts_payload(first)
            && state.grow_payload(first).accepts_payload(second),
        state.grow_payload(first).grow_payload(second) == state.grow_payload(first + second),
{
}

/// Associated data may be handed over in any pieces: the outcome is that of
/// handing it over at once, and a piece is refused exactly where the whole is
/// too long.
pub proof fn law_aad_in_pieces(state: StreamState, aad: Seq<Seq<u8>>)
    requires
        state.aad_len <= u64::MAX,
    ensures
        aad_session(state, aad) == if state.accepts_aad(aad.flatten().len() as int) {
            Some(state.update_aad(aad.flatten()))
        } else {
            None
        },
    decreases aad.len(),
{
    if aad.len() == 0 {
        assert(state.update_aad(aad.flatten()) =~= state);
    } else {
        let rest = aad.drop_first();
        if state.accepts_aad(aad.first().len() as int) {
            let next = state.update_aad(aad.first());
            law_aad_in_pieces(next, rest);
            if state.accepts_aad(aad.flatten().len() as int) {
                assert(next.update_aad(rest.flatten()) =~= state.update_aad(aad.flatten()));
            }
        }
    }
}

/// Plaintext may be encrypted in any pieces: ciphertext and outcome are those
/// of encrypting it at once, and a piece is refused exactly where the whole is
/// too long.
pub proof fn law_encrypt_in_pieces(state: StreamState, plaintext: Seq<Seq<u8>>)
    requires
        state.payload_len <= MAX_PAYLOAD_LEN,
    ensures
        encrypt_session(state, plaintext) == if state.accepts_payload(
            plaintext.flatten().len() as int,
        ) {
            Some((state.encrypt(plaintext.flatten()), state.transform(plaintext.flatten())))
        } else {
            None
        },
    decreases plaintext.len(),
{
    let whole = plaintext.flatten();
    if plaintext.len() == 0 {
        assert(state.transform(whole) =~= Seq::<u8>::empty());
        assert(state.encrypt(whole) =~= state);
    } else {
        let first = plaintext.first();
        let rest = plaintext.drop_first();
        if state.accepts_payload(first.len() as int) {
            let next = state.encrypt(first);
            law_encrypt_in_pieces(next, rest);
            law_xor_keystream_in_pieces(first, rest.flatten(), state.keystream, state.position);
            if state.accepts_payload(whole.len() as int) {
                assert(next.encrypt(rest.flatten()) =~= state.encrypt(whole));
            }
        }
    }
}

/// Ciphertext may be decrypted in any pieces before its tag is verified:
/// plaintext and outcome are those of decrypting it at once, and a piece is
/// refused exactly where the whole is too long.
pub proof fn law_decrypt_in_pieces(state: StreamState, ciphertext: Seq<Seq<u8>>)
    requires
        state.payload_len <= MAX_PAYLOAD_LEN,
    ensures
        decrypt_session(state, ciphertext) == if state.accepts_payload(
            ciphertext.flatten().len() as int,
        ) {
            Some((state.decrypt(ciphertext.flatten()), state.transform(ciphertext.flatten())))
        } else {
            None
        },
    decreases ciphertext.len(),
{
    let whole = ciphertext.flatten();
    if ciphertext.len() == 0 {
        assert(state.transform(whole) =~= Seq::<u8>::empty());
        assert(state.decrypt(whole) =~= state);
    } else {
        let first = ciphertext.first();
        let rest = ciphertext.drop_first();
        if state.accepts_payload(first.len() as int) {
            let next = state.decrypt(first);
            law_decrypt_in_pieces(next, rest);
            law_xor_keystream_in_pieces(first, rest.flatten(), state.keystream, state.position);
            if state.accepts_payload(whole.len() as int) {
                assert(next.decrypt(rest.flatten()) =~= state.decrypt(whole));
            }
        }
    }
}

/// Ciphertext may be authenticated in any pieces: the outcome is that of
/// authenticating it at once, and a piece is refused exactly where the whole
/// is too long.
pub proof fn law_verify_in_pieces(state: StreamState, ciphertext: Seq<Seq<u8>>)
    requires
        state.payload_len <= MAX_PAYLOAD_LEN,
    ensures
        verify_session(state, ciphertext) == if state.accepts_payload(
            ciphertext.flatten().len() as int,
        ) {
            Some(state.verify_only(ciphertext.flatten()))
        } else {
            None
        },
    decreases ciphertext.len(),
{
    let whole = ciphertext.flatten();
    if ciphertext.len() == 0 {
        assert(state.verify_only(whole) =~= state);
    } else {
        let first = ciphertext.first();
        let rest = ciphertext.drop_first();
        if state.accepts_payload(first.len() as int) {
            let next = state.verify_only(first);
            law_verify_in_pieces(next, rest);
            if state.accepts_payload(whole.len() as int) {
                assert(next.verify_only(rest.flatten()) =~= state.verify_only(whole));
            }
        }
    }
}

/// Verified ciphertext may be decrypted in any pieces, as long as it is not
/// more than was verified.
pub proof fn law_release_in_pieces(state: VerifiedState, ciphertext: Seq<Seq<u8>>)
    requires
        state.remaining >= 0,
    ensures
        release_session(state, ciphertext) == if ciphertext.flatten().len() <= state.remaining {
            Some(
                (
                    state.decrypt(ciphertext.flatten().len() as int),
                    state.transform(ciphertext.flatten()),
                ),
            )
        } else {
            None
        },
    decreases ciphertext.len(),
{
    let whole = ciphertext.flatten();
    if ciphertext.len() == 0 {
        assert(state.transform(whole) =~= Seq::<u8>::empty());
        assert(state.decrypt(whole.len() as int) =~= state);
    } else {
        let first = ciphertext.first();
        let rest = ciphertext.drop_first();
        if first.len() <= state.remaining {
            let next = state.decrypt(first.len() as int);
            law_release_in_pieces(next, rest);
            law_xor_keystream_in_pieces(first, rest.flatten(), state.keystream, state.position);
            if whole.len() <= state.remaining {
                assert(next.decrypt(rest.flatten().len() as int) =~= state.decrypt(
                    whole.len() as int,
                ));
            }
        }
    }
}

/// What comes before a piece and the piece itself are no longer than the whole.
proof fn lemma_prefix_and_piece(pieces: Seq<Seq<u8>>, k: int)
    requires
        0 <= k < pieces.len(),
    ensures
        pieces.take(k).flatten().len() + pieces[k].len() <= pieces.flatten().len(),
    decreases k,
{
    let rest = pieces.drop_first();
    if k == 0 {
        assert(pieces.take(0).flatten() =~= Seq::<u8>::empty());
    } else {
        lemma_prefix_and_piece(rest, k - 1);
        assert(pieces.take(k).drop_first() =~= rest.take(k - 1));
        assert(pieces.take(k).first() == pieces.first());
    }
}

/// Where the keystream lasts for a message, it lasts for each step of
/// processing that message in pieces, whether it is encrypted, decrypted, or
/// decrypted after its tag has been verified.
pub proof fn law_keystream_lasts(
    state: StreamState,
    verified: VerifiedState,
    pieces: Seq<Seq<u8>>,
    k: int,
)
    requires
        state.payload_len <= MAX_PAYLOAD_LEN,
        verified.remaining >= 0,
        state.has_keystream(pieces.flatten().len() as int),
        verified.has_keystream(pieces.flatten().len() as int),
        0 <= k < pieces.len(),
    ensures
        encrypt_session(state, pieces.take(k)) matches Some((next, _)) ==> next.has_keystream(
            pieces[k].len() as int,
        ),
        decrypt_session(state, pieces.take(k)) matches Some((next, _)) ==> next.has_keystream(
            pieces[k].len() as int,
        ),
        release_session(verified, pieces.take(k)) matches Some((next, _)) ==> next.has_keystream(
            pieces[k].len() as int,
        ),
{
    lemma_prefix_and_piece(pieces, k);
    law_encrypt_in_pieces(state, pieces.take(k));
    law_decrypt_in_pieces(state, pieces.take(k));
    law_release_in_pieces(verified, pieces.take(k));
}

/// The tag after `aad` and `ciphertext` have been handed over from the start.
proof fn lemma_tag_from_start(start: StreamState, end: StreamState, aad: Seq<u8>, ct: Seq<u8>)
    requires
        start.authenticated.len() == 0,
        end.mac_key == start.mac_key,
        end.authenticated == pad16(start.authenticated + aad) + ct,
        end.aad_len == aad.len(),
        end.payload_len == ct.len(),
    ensures
        end.tag() == aead_tag(start.mac_key, aad, ct),
{
    assert(start.authenticated + aad =~= aad);
    assert(pad16(aad).len() % 16 == 0);
    lemma_pad16_after_blocks(pad16(aad), ct);
}

/// Whether a state is one that a message starts in.
pub open spec fn is_start(state: StreamState) -> bool {
    exists|keystream: Seq<u8>, position: int, capacity: int|
        state == #[trigger] StreamState::initial(keystream, position, capacity)
}

/// Where a message stands after any number of accepted pieces: the lengths are
/// those of all that was handed over, the message is within its limit, the
/// stream cipher stands as far behind its first block as the message is long,
/// or at the start of the message where nothing is decrypted, and the
/// unfinished block is what is left of the message.
pub proof fn law_progress(start: StreamState, aad: Seq<Seq<u8>>, pieces: Seq<Seq<u8>>)
    requires
        is_start(start),
        aad_session(start, aad) is Some,
    ensures
        ({
            let state = aad_session(start, aad)->Some_0.finish_aad();
            &&& encrypt_session(state, pieces) matches Some((end, _)) ==> is_progress(
                end,
                aad,
                pieces,
            ) && end.position == BLOCK_SIZE + end.payload_len
            &&& decrypt_session(state, pieces) matches Some((end, _)) ==> is_progress(
                end,
                aad,
                pieces,
            ) && end.position == BLOCK_SIZE + end.payload_len
            &&& verify_session(state, pieces) matches Some(end) ==> is_progress(end, aad, pieces)
                && end.position == BLOCK_SIZE
        }),
{
    law_aad_in_pieces(start, aad);
    let state = aad_session(start, aad)->Some_0.finish_aad();
    assert(state.authenticated.len() % 16 == 0);
    law_encrypt_in_pieces(state, pieces);
    law_decrypt_in_pieces(state, pieces);
    law_verify_in_pieces(state, pieces);
}

/// Whether `state` accounts for the associated data `aad` and for a message of
/// the pieces `pieces`.
pub open spec fn is_progress(state: StreamState, aad: Seq<Seq<u8>>, pieces: Seq<Seq<u8>>) -> bool {
    &&& state.aad_len == aad.flatten().len()
    &&& state.payload_len == pieces.flatten().len()
    &&& state.payload_len <= MAX_PAYLOAD_LEN
    &&& state.authenticated.len() as int % 16 == state.payload_len % 16
}

/// Encryption in pieces gives, for any division of associated data and
/// message, the ciphertext and tag of the construction. It fails exactly where
/// the message is longer than `MAX_PAYLOAD_LEN`.
pub proof fn law_stream_seal(start: StreamState, aad: Seq<Seq<u8>>, plaintext: Seq<Seq<u8>>)
    requires
        is_start(start),
        aad.flatten().len() <= u64::MAX,
    ensures
        stream_seal(start, aad, plaintext) == if plaintext.flatten().len() <= MAX_PAYLOAD_LEN {
            let ciphertext = xor_keystream(
                plaintext.flatten(),
                start.keystream,
                BLOCK_SIZE as int,
            );
            Some((ciphertext, aead_tag(start.mac_key, aad.flatten(), ciphertext)))
        } else {
            None
        },
{
    law_aad_in_pieces(start, aad);
    let state = start.update_aad(aad.flatten()).finish_aad();
    law_encrypt_in_pieces(state, plaintext);
    if plaintext.flatten().len() <= MAX_PAYLOAD_LEN {
        let ciphertext = state.transform(plaintext.flatten());
        let end = state.encrypt(plaintext.flatten());
        lemma_tag_from_start(start, end, aad.flatten(), ciphertext);
    }
}

/// Encryption in pieces and encryption in one go agree. The one message length
/// on which they differ is `MAX_PAYLOAD_LEN` itself, which only encryption in
/// pieces accepts.
pub proof fn law_stream_seal_matches_seal(
    start: StreamState,
    aad: Seq<Seq<u8>>,
    plaintext: Seq<Seq<u8>>,
)
    requires
        is_start(start),
        aad.flatten().len() <= u64::MAX,
        plaintext.flatten().len() != MAX_PAYLOAD_LEN,
    ensures
        stream_seal(start, aad, plaintext) == seal(
            start.keystream,
            start.mac_key,
            aad.flatten(),
            plaintext.flatten(),
        ),
{
    law_stream_seal(start, aad, plaintext);
}

/// Decryption in one pass gives, for any division of associated data and
/// ciphertext, the plaintext. It fails exactly where the ciphertext is longer
/// than `MAX_PAYLOAD_LEN` or the tag is not that of the construction.
pub proof fn law_stream_unseal_one_pass(
    start: StreamState,
    aad: Seq<Seq<u8>>,
    ciphertext: Seq<Seq<u8>>,
    tag: Seq<u8>,
)
    requires
        is_start(start),
        aad.flatten().len() <= u64::MAX,
    ensures
        stream_unseal_one_pass(start, aad, ciphertext, tag) == if ciphertext.flatten().len()
            <= MAX_PAYLOAD_LEN && tag == aead_tag(
            start.mac_key,
            aad.flatten(),
            ciphertext.flatten(),
        ) {
            Some(xor_keystream(ciphertext.flatten(), start.keystream, BLOCK_SIZE as int))
        } else {
            None
        },
{
    law_aad_in_pieces(start, aad);
    let state = start.update_aad(aad.flatten()).finish_aad();
    law_decrypt_in_pieces(state, ciphertext);
    if ciphertext.flatten().len() <= MAX_PAYLOAD_LEN {
        let end = state.decrypt(ciphertext.flatten());
        lemma_tag_from_start(start, end, aad.flatten(), ciphertext.flatten());
    }
}

/// Decryption in two passes gives the plaintext of what is released. It fails
/// exactly where the verified ciphertext is longer than `MAX_PAYLOAD_LEN`, the
/// tag is not that of the construction, or less or more is released than was
/// verified.
pub proof fn law_stream_unseal_two_pass(
    start: StreamState,
    aad: Seq<Seq<u8>>,
    ciphertext: Seq<Seq<u8>>,
    tag: Seq<u8>,
    released: Seq<Seq<u8>>,
)
    requires
        is_start(start),
        aad.flatten().len() <= u64::MAX,
    ensures
        stream_unseal_two_pass(start, aad, ciphertext, tag, released) == if
            ciphertext.flatten().len()
            <= MAX_PAYLOAD_LEN && tag == aead_tag(
            start.mac_key,
            aad.flatten(),
            ciphertext.flatten(),
        ) && released.flatten().len() == ciphertext.flatten().len() {
            Some(xor_keystream(released.flatten(), start.keystream, BLOCK_SIZE as int))
        } else {
            None
        },
{
    law_aad_in_pieces(start, aad);
    let state = start.update_aad(aad.flatten()).finish_aad();
    law_verify_in_pieces(state, ciphertext);
    if ciphertext.flatten().len() <= MAX_PAYLOAD_LEN {
        let end = state.verify_only(ciphertext.flatten());
        lemma_tag_from_start(start, end, aad.flatten(), ciphertext.flatten());
        law_release_in_pieces(VerifiedState::initial(end), released);
    }
}

/// Decryption in one pass, in two passes and in one go accept the same
/// messages and give the same plaintext, but for ciphertexts of exactly
/// `MAX_PAYLOAD_LEN` bytes, which decryption in one go refuses.
pub proof fn law_stream_unseal_matches_unseal(
    start: StreamState,
    aad: Seq<Seq<u8>>,
    ciphertext: Seq<Seq<u8>>,
    tag: Seq<u8>,
    released: Seq<Seq<u8>>,
)
    requires
        is_start(start),
        aad.flatten().len() <= u64::MAX,
        ciphertext.flatten().len() != MAX_PAYLOAD_LEN,
        released.flatten() == ciphertext.flatten(),
    ensures
        stream_unseal_one_pass(start, aad, ciphertext, tag) == unseal(
            start.keystream,
            start.mac_key,
            aad.flatten(),
            ciphertext.flatten(),
            tag,
        ),
        stream_unseal_two_pass(start, aad, ciphertext, tag, released) == unseal(
            start.keystream,
            start.mac_key,
            aad.flatten(),
            ciphertext.flatten(),
            tag,
        ),
{
    law_stream_unseal_one_pass(start, aad, ciphertext, tag);
    law_stream_unseal_two_pass(start, aad, ciphertext, tag, released);
}

/// Decryption gives back what encryption was given.
pub proof fn law_unseal_inverts_seal(
    keystream: Seq<u8>,
    mac_key: Seq<u8>,
    aad: Seq<u8>,
    plaintext: Seq<u8>,
)
    ensures
        seal(keystream, mac_key, aad, plaintext) matches Some((ciphertext, tag)) ==> unseal(
            keystream,
            mac_key,
            aad,
            ciphertext,
            tag,
        ) == Some(plaintext),
{
    law_xor_keystream_inverts_itself(plaintext, keystream, BLOCK_SIZE as int);
}

/// Decryption in pieces, in one pass or two, gives back what encryption in
/// pieces was given, however associated data, message and ciphertext are
/// divided on either side.
pub proof fn law_stream_unseal_inverts_stream_seal(
    start: StreamState,
    aad: Seq<Seq<u8>>,
    plaintext: Seq<Seq<u8>>,
    other_aad: Seq<Seq<u8>>,
    ciphertext: Seq<Seq<u8>>,
    released: Seq<Seq<u8>>,
)
    requires
        is_start(start),
        aad.flatten().len() <= u64::MAX,
        other_aad.flatten() == aad.flatten(),
        stream_seal(start, aad, plaintext) is Some,
        ciphertext.flatten() == stream_seal(start, aad, plaintext)->Some_0.0,
        released.flatten() == ciphertext.flatten(),
    ensures
        ({
            let tag = stream_seal(start, aad, plaintext)->Some_0.1;
            &&& stream_unseal_one_pass(start, other_aad, ciphertext, tag) == Some(
                plaintext.flatten(),
            )
            &&& stream_unseal_two_pass(start, other_aad, ciphertext, tag, released) == Some(
                plaintext.flatten(),
            )
        }),
{
    let tag = stream_seal(start, aad, plaintext)->Some_0.1;
    law_stream_seal(start, aad, plaintext);
    law_stream_unseal_one_pass(start, other_aad, ciphertext, tag);
    law_stream_unseal_two_pass(start, other_aad, ciphertext, tag, released);
    law_xor_keystream_inverts_itself(plaintext.flatten(), start.keystream, BLOCK_SIZE as int);
}

/// The eight bytes of a 64-bit number determine it.
pub proof fn law_le_bytes_injective(m: int, n: int)
    requires
        0 <= m <= u64::MAX,
        0 <= n <= u64::MAX,
        le_bytes(m) == le_bytes(n),
    ensures
        m == n,
{
    lemma_le_bytes_value(m);
    lemma_le_bytes_value(n);
}

/// The number that eight bytes, least significant first, stand for.
spec fn le_value(bytes: Seq<u8>) -> int {
    bytes[0] + bytes[1] * 0x100 + bytes[2] * 0x1_0000 + bytes[3] * 0x100_0000 + bytes[4]
        * 0x1_0000_0000 + bytes[5] * 0x100_0000_0000 + bytes[6] * 0x1_0000_0000_0000 + bytes[7]
        * 0x100_0000_0000_0000
}

proof fn lemma_le_bytes_value(n: int)
    requires
        0 <= n <= u64::MAX,
    ensures
        le_value(le_bytes(n)) == n,
{
    lemma_digits(n);
}

/// What is authenticated of a message determines its associated data and its
/// ciphertext: two different messages never authenticate the same bytes.
pub proof fn law_mac_data_injective(
    aad: Seq<u8>,
    ciphertext: Seq<u8>,
    other_aad: Seq<u8>,
    other_ciphertext: Seq<u8>,
)
    requires
        aad.len() <= u64::MAX,
        ciphertext.len() <= u64::MAX,
        other_aad.len() <= u64::MAX,
        other_ciphertext.len() <= u64::MAX,
        mac_data(aad, ciphertext) == mac_data(other_aad, other_ciphertext),
    ensures
        aad == other_aad,
        ciphertext == other_ciphertext,
{
    let a = aad.len() as int;
    let b = other_aad.len() as int;
    let c = ciphertext.len() as int;
    let d = other_ciphertext.len() as int;
    assert(le_bytes(a) == le_bytes(b) ==> a == b) by {
        if le_bytes(a) == le_bytes(b) {
            law_le_bytes_injective(a, b);
        }
    }
    assert(le_bytes(c) == le_bytes(d) ==> c == d) by {
        if le_bytes(c) == le_bytes(d) {
            law_le_bytes_injective(c, d);
        }
    }
    lemma_layout_injective(
        aad,
        ciphertext,
        (le_bytes(a), le_bytes(c)),
        other_aad,
        other_ciphertext,
        (le_bytes(b), le_bytes(d)),
    );
}

/// Padded data and a pair of 8-byte codes of their lengths determine the data.
proof fn lemma_layout_injective(
    aad: Seq<u8>,
    ciphertext: Seq<u8>,
    lengths: (Seq<u8>, Seq<u8>),
    other_aad: Seq<u8>,
    other_ciphertext: Seq<u8>,
    other_lengths: (Seq<u8>, Seq<u8>),
)
    requires
        lengths.0.len() == 8 && lengths.1.len() == 8,
        other_lengths.0.len() == 8 && other_lengths.1.len() == 8,
        lengths.0 == other_lengths.0 ==> aad.len() == other_aad.len(),
        lengths.1 == other_lengths.1 ==> ciphertext.len() == other_ciphertext.len(),
        pad16(aad) + pad16(ciphertext) + (lengths.0 + lengths.1) == pad16(other_aad) + pad16(
            other_ciphertext,
        ) + (other_lengths.0 + other_lengths.1),
    ensures
        aad == other_aad,
        ciphertext == other_ciphertext,
{
    let data = pad16(aad) + pad16(ciphertext) + (lengths.0 + lengths.1);
    let other = pad16(other_aad) + pad16(other_ciphertext) + (other_lengths.0 + other_lengths.1);
    let n = data.len() as int;
    assert(data.subrange(n - 16, n - 8) =~= lengths.0);
    assert(other.subrange(n - 16, n - 8) =~= other_lengths.0);
    assert(data.subrange(n - 8, n) =~= lengths.1);
    assert(other.subrange(n - 8, n) =~= other_lengths.1);
    assert(data.take(aad.len() as int) =~= aad);
    assert(other.take(aad.len() as int) =~= other_aad);
    let at = pad16(aad).len() as int;
    assert(data.subrange(at, at + ciphertext.len()) =~= ciphertext);
    assert(other.subrange(at, at + ciphertext.len()) =~= other_ciphertext);
}

/// Tampering is noticed: with a changed tag a message is refused, and with
/// changed associated data or ciphertext it is accepted only if Poly1305 gives
/// two different inputs the same tag.
pub proof fn law_tampering_needs_a_collision(
    keystream: Seq<u8>,
    mac_key: Seq<u8>,
    aad: Seq<u8>,
    plaintext: Seq<u8>,
    other_aad: Seq<u8>,
    other_ciphertext: Seq<u8>,
    other_tag: Seq<u8>,
)
    requires
        aad.len() <= u64::MAX,
        other_aad.len() <= u64::MAX,
        seal(keystream, mac_key, aad, plaintext) is Some,
    ensures
        ({
            let (ciphertext, tag) = seal(keystream, mac_key, aad, plaintext)->Some_0;
            let data = mac_data(aad, ciphertext);
            let other_data = mac_data(other_aad, other_ciphertext);
            &&& other_tag != tag ==> unseal(keystream, mac_key, aad, ciphertext, other_tag) is None
            &&& (other_aad != aad || other_ciphertext != ciphertext) && unseal(
                keystream,
                mac_key,
                other_aad,
                other_ciphertext,
                tag,
            ) is Some ==> other_data != data && poly1305_tag(mac_key, other_data) == poly1305_tag(
                mac_key,
                data,
            )
        }),
{
    let (ciphertext, tag) = seal(keystream, mac_key, aad, plaintext)->Some_0;
    if one_shot_accepts(other_ciphertext.len() as int) && mac_data(aad, ciphertext) == mac_data(
        other_aad,
        other_ciphertext,
    ) {
        law_mac_data_injective(aad, ciphertext, other_aad, other_ciphertext);
    }
}

/// Keystream bytes have one use each: for a stream cipher at its start, the
/// authenticator key depends on the first 32 alone, and the ciphertext on none
/// of the first 64.
pub proof fn law_key_and_message_use_separate_keystream(
    keystream: Seq<u8>,
    other: Seq<u8>,
    data: Seq<u8>,
)
    ensures
        (forall|i: int| 0 <= i < 32 ==> keystream[i] == other[i]) ==> derive_mac_key(keystream, 0)
            == derive_mac_key(other, 0),
        (forall|i: int| BLOCK_SIZE <= i ==> keystream[i] == other[i]) ==> xor_keystream(
            data,
            keystream,
            BLOCK_SIZE as int,
        ) == xor_keystream(data, other, BLOCK_SIZE as int),
{
    if forall|i: int| 0 <= i < 32 ==> keystream[i] == other[i] {
        assert(derive_mac_key(keystream, 0) =~= derive_mac_key(other, 0));
    }
    if forall|i: int| BLOCK_SIZE <= i ==> keystream[i] == other[i] {
        assert(xor_keystream(data, keystream, BLOCK_SIZE as int) =~= xor_keystream(
            data,
            other,
            BLOCK_SIZE as int,
        ));
    }
}

} // verus!
