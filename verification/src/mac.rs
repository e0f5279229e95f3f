//! The Poly1305 one-time authenticator.
use vstd::prelude::*;

use poly1305::universal_hash::{KeyInit, UniversalHash};
use poly1305::Poly1305;

verus! {

/// An authentication tag.
pub type Tag = [u8; 16];

/// `count` zero bytes.
pub open spec fn zeros(count: int) -> Seq<u8> {
    Seq::new(count as nat, |i: int| 0u8)
}

/// `data`, followed by as few zero bytes as make the length a multiple of 16.
pub open spec fn pad16(data: Seq<u8>) -> Seq<u8> {
    data + zeros((16 - data.len() as int % 16) % 16)
}

/// Padding a whole number of blocks and a rest pads the rest.
pub proof fn lemma_pad16_after_blocks(blocks: Seq<u8>, rest: Seq<u8>)
    requires
        blocks.len() % 16 == 0,
    ensures
        pad16(blocks + rest) == blocks + pad16(rest),
        pad16(rest).len() % 16 == 0,
        rest.len() == 0 ==> pad16(rest) == Seq::<u8>::empty(),
{
    assert((blocks + rest).len() as int % 16 == rest.len() as int % 16);
    assert(pad16(blocks + rest) =~= blocks + pad16(rest));
    if rest.len() == 0 {
        assert(pad16(rest) =~= Seq::<u8>::empty());
    }
}

/// The authenticator of the `poly1305` crate.
#[verifier::external_type_specification]
#[verifier::external_body]
pub struct ExPoly1305(poly1305::Poly1305);

/// The key that an authenticator was made with.
pub uninterp spec fn poly1305_key(mac: Poly1305) -> Seq<u8>;

/// The bytes that an authenticator has taken in, a whole number of blocks.
pub uninterp spec fn poly1305_absorbed(mac: Poly1305) -> Seq<u8>;

/// The tag that the `poly1305` crate computes under `key` for a whole number
/// of blocks.
pub uninterp spec fn poly1305_tag(key: Seq<u8>, blocks: Seq<u8>) -> Seq<u8>;

/// Calls `KeyInit::new` of `poly1305::Poly1305`.
///
/// Trusted: the authenticator has the given key and has taken in nothing.
#[verifier::external_body]
pub(crate) fn mac_new(key: &[u8; 32]) -> (mac: Poly1305)
    ensures
        poly1305_key(mac) == key@,
        poly1305_absorbed(mac) == Seq::<u8>::empty(),
{
    Poly1305::new(key.into())
}

/// Calls `UniversalHash::update` of `poly1305::Poly1305` on one block.
///
/// Trusted: the authenticator takes in the block and keeps its key.
#[verifier::external_body]
pub(crate) fn mac_update(mac: &mut Poly1305, block: [u8; 16])
    ensures
        poly1305_key(*final(mac)) == poly1305_key(*old(mac)),
        poly1305_absorbed(*final(mac)) == poly1305_absorbed(*old(mac)) + block@,
{
    mac.update(&[block.into()]);
}

/// Calls `UniversalHash::update_padded` of `poly1305::Poly1305`.
///
/// Trusted: the authenticator takes in `data`, filled up with zero bytes to a
/// whole number of blocks, and keeps its key.
#[verifier::external_body]
pub(crate) fn mac_update_padded(mac: &mut Poly1305, data: &[u8])
    ensures
        poly1305_key(*final(mac)) == poly1305_key(*old(mac)),
        poly1305_absorbed(*final(mac)) == poly1305_absorbed(*old(mac)) + pad16(data@),
{
    mac.update_padded(data);
}

/// Calls `UniversalHash::finalize` of `poly1305::Poly1305`.
///
/// Trusted: the tag is a function of the key and of the bytes taken in.
#[verifier::external_body]
pub(crate) fn mac_finalize(mac: Poly1305) -> (tag: Tag)
    ensures
        tag@ == poly1305_tag(poly1305_key(mac), poly1305_absorbed(mac)),
{
    mac.finalize().into()
}

/// Calls `UniversalHash::verify` of `poly1305::Poly1305`, which compares in
/// constant time.
///
/// Trusted: the answer is whether `expected` is the tag that finalizing the
/// authenticator would give.
#[verifier::external_body]
pub(crate) fn mac_verify(mac: Poly1305, expected: &Tag) -> (matches: bool)
    ensures
        matches <==> expected@ == poly1305_tag(poly1305_key(mac), poly1305_absorbed(mac)),
{
    mac.verify(expected.into()).is_ok()
}

} // verus!
