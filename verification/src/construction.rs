//! What the ChaCha20-Poly1305 construction authenticates.
use vstd::prelude::*;

use crate::keystream::xor_keystream;
use crate::mac::{pad16, poly1305_tag};
use crate::meaning::law_length_block_values;

verus! {

/// Size of a ChaCha20 block in bytes.
pub const BLOCK_SIZE: usize = 64;

/// How many ChaCha20 blocks can be encrypted before the block counter, which
/// starts at 1, overflows.
pub const MAX_BLOCKS: usize = 0xffff_ffff;

/// The byte of `n` with index `i`, counted from the least significant one.
pub open spec fn le_byte(n: int, i: int) -> u8 {
    let digits = if i == 0 {
        n
    } else if i == 1 {
        n / 0x100
    } else if i == 2 {
        n / 0x1_0000
    } else if i == 3 {
        n / 0x100_0000
    } else if i == 4 {
        n / 0x1_0000_0000
    } else if i == 5 {
        n / 0x100_0000_0000
    } else if i == 6 {
        n / 0x1_0000_0000_0000
    } else {
        n / 0x100_0000_0000_0000
    };
    (digits % 0x100) as u8
}

/// The eight bytes of a 64-bit number, least significant first.
pub open spec fn le_bytes(n: int) -> Seq<u8> {
    Seq::new(8, |i: int| le_byte(n, i))
}

/// The block that authenticates the lengths of associated data and message.
pub open spec fn length_block(aad_len: int, payload_len: int) -> Seq<u8> {
    le_bytes(aad_len) + le_bytes(payload_len)
}

/// Everything that is authenticated of a message: associated data and
/// ciphertext, each filled up to whole blocks, and their lengths.
pub open spec fn mac_data(aad: Seq<u8>, ciphertext: Seq<u8>) -> Seq<u8> {
    pad16(aad) + pad16(ciphertext) + length_block(aad.len() as int, ciphertext.len() as int)
}

/// The tag of a message.
pub open spec fn aead_tag(mac_key: Seq<u8>, aad: Seq<u8>, ciphertext: Seq<u8>) -> Seq<u8> {
    poly1305_tag(mac_key, mac_data(aad, ciphertext))
}

/// The authenticator key: the 32 keystream bytes from `position` on.
pub open spec fn derive_mac_key(keystream: Seq<u8>, position: int) -> Seq<u8> {
    Seq::new(32, |i: int| keystream[position + i])
}

/// Whether a message of `len` bytes is short enough to be processed in one go.
pub open spec fn one_shot_accepts(len: int) -> bool {
    len / (BLOCK_SIZE as int) < MAX_BLOCKS
}

/// The ciphertext of a message and its tag, or `None` where the message is too
/// long. The message uses the keystream from its second block on.
pub open spec fn seal(
    keystream: Seq<u8>,
    mac_key: Seq<u8>,
    aad: Seq<u8>,
    plaintext: Seq<u8>,
) -> Option<(Seq<u8>, Seq<u8>)> {
    if one_shot_accepts(plaintext.len() as int) {
        let ciphertext = xor_keystream(plaintext, keystream, BLOCK_SIZE as int);
        Some((ciphertext, aead_tag(mac_key, aad, ciphertext)))
    } else {
        None
    }
}

/// The message behind a ciphertext, or `None` where the ciphertext is too long
/// or `tag` is not its tag.
pub open spec fn unseal(
    keystream: Seq<u8>,
    mac_key: Seq<u8>,
    aad: Seq<u8>,
    ciphertext: Seq<u8>,
    tag: Seq<u8>,
) -> Option<Seq<u8>> {
    if one_shot_accepts(ciphertext.len() as int) && tag == aead_tag(mac_key, aad, ciphertext) {
        Some(xor_keystream(ciphertext, keystream, BLOCK_SIZE as int))
    } else {
        None
    }
}

/// Makes the block that authenticates the two lengths.
pub fn encode_lengths(aad_len: u64, payload_len: u64) -> (block: [u8; 16])
    ensures
        block@ == length_block(aad_len as int, payload_len as int),
        block@[0] + block@[1] * 0x100 + block@[2] * 0x1_0000 + block@[3] * 0x100_0000 + block@[4]
            * 0x1_0000_0000 + block@[5] * 0x100_0000_0000 + block@[6] * 0x1_0000_0000_0000
            + block@[7] * 0x100_0000_0000_0000 == aad_len,
        block@[8] + block@[9] * 0x100 + block@[10] * 0x1_0000 + block@[11] * 0x100_0000 + block@[12]
            * 0x1_0000_0000 + block@[13] * 0x100_0000_0000 + block@[14] * 0x1_0000_0000_0000
            + block@[15] * 0x100_0000_0000_0000 == payload_len,
{
    let a: u64 = aad_len;
    let p: u64 = payload_len;
    let block: [u8; 16] = [
        (a % 0x100) as u8,
        (a / 0x100 % 0x100) as u8,
        (a / 0x1_0000 % 0x100) as u8,
        (a / 0x100_0000 % 0x100) as u8,
        (a / 0x1_0000_0000 % 0x100) as u8,
        (a / 0x100_0000_0000 % 0x100) as u8,
        (a / 0x1_0000_0000_0000 % 0x100) as u8,
        (a / 0x100_0000_0000_0000 % 0x100) as u8,
        (p % 0x100) as u8,
        (p / 0x100 % 0x100) as u8,
        (p / 0x1_0000 % 0x100) as u8,
        (p / 0x100_0000 % 0x100) as u8,
        (p / 0x1_0000_0000 % 0x100) as u8,
        (p / 0x100_0000_0000 % 0x100) as u8,
        (p / 0x1_0000_0000_0000 % 0x100) as u8,
        (p / 0x100_0000_0000_0000 % 0x100) as u8,
    ];
    assert(block@ =~= length_block(aad_len as int, payload_len as int));
    proof {
        law_length_block_values(aad_len as int, payload_len as int);
    }
    block
}

} // verus!
