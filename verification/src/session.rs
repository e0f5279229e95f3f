//! Whole messages, processed in any number of pieces.
//!
//! Each function below follows the steps of one kind of session and gives its
//! outcome, or `None` where a step is refused. A step is taken only where the
//! keystream lasts for it.
use vstd::prelude::*;

use crate::state::{StreamState, VerifiedState};

verus! {

/// Updates with the pieces of `aad`, one after the other.
pub open spec fn aad_session(state: StreamState, aad: Seq<Seq<u8>>) -> Option<StreamState>
    decreases aad.len(),
{
    if aad.len() == 0 {
        Some(state)
    } else if state.accepts_aad(aad.first().len() as int) {
        aad_session(state.update_aad(aad.first()), aad.drop_first())
    } else {
        None
    }
}

/// Encrypts the pieces of `plaintext`, one after the other. The second
/// component is the ciphertext of them all.
pub open spec fn encrypt_session(state: StreamState, plaintext: Seq<Seq<u8>>) -> Option<
    (StreamState, Seq<u8>),
>
    decreases plaintext.len(),
{
    if plaintext.len() == 0 {
        Some((state, Seq::empty()))
    } else if state.accepts_payload(plaintext.first().len() as int) {
        match encrypt_session(state.encrypt(plaintext.first()), plaintext.drop_first()) {
            Some((end, rest)) => Some((end, state.transform(plaintext.first()) + rest)),
            None => None,
        }
    } else {
        None
    }
}

/// Decrypts the pieces of `ciphertext` before their tag is verified, one after
/// the other. The second component is the plaintext of them all.
pub open spec fn decrypt_session(state: StreamState, ciphertext: Seq<Seq<u8>>) -> Option<
    (StreamState, Seq<u8>),
>
    decreases ciphertext.len(),
{
    if ciphertext.len() == 0 {
        Some((state, Seq::empty()))
    } else if state.accepts_payload(ciphertext.first().len() as int) {
        match decrypt_session(state.decrypt(ciphertext.first()), ciphertext.drop_first()) {
            Some((end, rest)) => Some((end, state.transform(ciphertext.first()) + rest)),
            None => None,
        }
    } else {
        None
    }
}

/// Authenticates the pieces of `ciphertext`, one after the other.
pub open spec fn verify_session(state: StreamState, ciphertext: Seq<Seq<u8>>) -> Option<
    StreamState,
>
    decreases ciphertext.len(),
{
    if ciphertext.len() == 0 {
        Some(state)
    } else if state.accepts_payload(ciphertext.first().len() as int) {
        verify_session(state.verify_only(ciphertext.first()), ciphertext.drop_first())
    } else {
        None
    }
}

/// Decrypts the pieces of a verified `ciphertext`, one after the other. The
/// second component is the plaintext of them all.
pub open spec fn release_session(state: VerifiedState, ciphertext: Seq<Seq<u8>>) -> Option<
    (VerifiedState, Seq<u8>),
>
    decreases ciphertext.len(),
{
    if ciphertext.len() == 0 {
        Some((state, Seq::empty()))
    } else if ciphertext.first().len() <= state.remaining {
        match release_session(
            state.decrypt(ciphertext.first().len() as int),
            ciphertext.drop_first(),
        ) {
            Some((end, rest)) => Some((end, state.transform(ciphertext.first()) + rest)),
            None => None,
        }
    } else {
        None
    }
}

/// A whole encryption: the ciphertext and the tag.
pub open spec fn stream_seal(
    start: StreamState,
    aad: Seq<Seq<u8>>,
    plaintext: Seq<Seq<u8>>,
) -> Option<(Seq<u8>, Seq<u8>)> {
    match aad_session(start, aad) {
        Some(state) => match encrypt_session(state.finish_aad(), plaintext) {
            Some((end, ciphertext)) => Some((ciphertext, end.tag())),
            None => None,
        },
        None => None,
    }
}

/// A whole decryption in one pass: the plaintext, once the tag has been found
/// to be right.
pub open spec fn stream_unseal_one_pass(
    start: StreamState,
    aad: Seq<Seq<u8>>,
    ciphertext: Seq<Seq<u8>>,
    tag: Seq<u8>,
) -> Option<Seq<u8>> {
    match aad_session(start, aad) {
        Some(state) => match decrypt_session(state.finish_aad(), ciphertext) {
            Some((end, plaintext)) => if tag == end.tag() {
                Some(plaintext)
            } else {
                None
            },
            None => None,
        },
        None => None,
    }
}

/// A whole decryption in two passes: `ciphertext` is verified, then `released`
/// is decrypted, all of it and no more.
pub open spec fn stream_unseal_two_pass(
    start: StreamState,
    aad: Seq<Seq<u8>>,
    ciphertext: Seq<Seq<u8>>,
    tag: Seq<u8>,
    released: Seq<Seq<u8>>,
) -> Option<Seq<u8>> {
    match aad_session(start, aad) {
        Some(state) => match verify_session(state.finish_aad(), ciphertext) {
            Some(end) => if tag == end.tag() {
                match release_session(VerifiedState::initial(end), released) {
                    Some((last, plaintext)) => if last.remaining == 0 {
                        Some(plaintext)
                    } else {
                        None
                    },
                    None => None,
                }
            } else {
                None
            },
            None => None,
        },
        None => None,
    }
}

} // verus!
