//! Preparation of a stream cipher for one message.
use vstd::prelude::*;

use crate::construction::{derive_mac_key, BLOCK_SIZE};
use crate::keystream::Keystream;
use crate::mac::{mac_new, poly1305_absorbed, poly1305_key};
use crate::wipe::zeroize_bytes;
use poly1305::Poly1305;

verus! {

/// Derives the authenticator key from the next 32 bytes of the keystream and
/// moves the cipher to the second block, where the message starts.
pub(crate) fn start<C: Keystream>(cipher: &mut C) -> (mac: Poly1305)
    requires
        old(cipher).position() + 32 <= old(cipher).capacity(),
        BLOCK_SIZE <= old(cipher).capacity(),
    ensures
        poly1305_key(mac) == derive_mac_key(
            old(cipher).keystream(),
            old(cipher).position() as int,
        ),
        poly1305_key(mac).len() == 32,
        forall|i: int|
            0 <= i < 32 ==> #[trigger] poly1305_key(mac)[i] == old(cipher).keystream()[old(
                cipher,
            ).position() + i],
        poly1305_absorbed(mac) == Seq::<u8>::empty(),
        final(cipher).keystream() == old(cipher).keystream(),
        final(cipher).capacity() == old(cipher).capacity(),
        final(cipher).position() == BLOCK_SIZE,
        final(cipher).position() == 64,
{
    let mut mac_key: [u8; 32] = [0u8; 32];
    cipher.apply_keystream(&mut mac_key);
    proof {
        assert(forall|k: u8| 0u8 ^ k == k) by (bit_vector);
        assert(mac_key@ =~= derive_mac_key(
            old(cipher).keystream(),
            old(cipher).position() as int,
        ));
    }
    let mac = mac_new(&mac_key);
    zeroize_bytes(&mut mac_key);

    // The block counter is now 1.
    cipher.seek(BLOCK_SIZE as u64);
    mac
}

} // verus!
