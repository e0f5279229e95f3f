use chacha20poly1305::{ChaCha20, Cipher, Error, InOutBuf, Keystream, Tag};

const NONCE: [u8; 12] = [7, 0, 0, 0, 0x40, 0x41, 0x42, 0x43, 0x44, 0x45, 0x46, 0x47];
const AAD: [u8; 12] = [0x50, 0x51, 0x52, 0x53, 0xc0, 0xc1, 0xc2, 0xc3, 0xc4, 0xc5, 0xc6, 0xc7];
const PLAINTEXT: &[u8] = b"Ladies and Gentlemen of the class of '99: \
If I could offer you only one tip for the future, sunscreen would be it.";
const CIPHERTEXT: &str = "d31a8d34648e60db7b86afbc53ef7ec2a4aded51296e08fea9e2b5a736ee62d6\
3dbea45e8ca9671282fafb69da92728b1a71de0a9e060b2905d6a5b67ecd3b36\
92ddbd7f2d778b8c9803aee328091b58fab324e4fad675945585808b4831d7bc\
3ff4def08e4b7a9de576d26586cec64b6116";
const TAG: &str = "1ae10b594f09e26a7e902ecbd0600691";

fn unhex(s: &str) -> Vec<u8> {
    (0..s.len() / 2).map(|i| u8::from_str_radix(&s[2 * i..2 * i + 2], 16).unwrap()).collect()
}

fn tag(s: &str) -> Tag {
    unhex(s).try_into().unwrap()
}

fn key() -> [u8; 32] {
    let mut key = [0u8; 32];
    for i in 0..32 {
        key[i] = 0x80 + i as u8;
    }
    key
}

fn cipher() -> Cipher<ChaCha20> {
    Cipher::new(ChaCha20::new(&key(), &NONCE))
}

#[test]
fn encrypt_known_message_in_place() {
    let mut data = PLAINTEXT.to_vec();
    let r = cipher().encrypt_inout_detached(&AAD, InOutBuf::from_mut(&mut data));
    assert_eq!(r, Ok(tag(TAG)));
    assert_eq!(data, unhex(CIPHERTEXT));
}

#[test]
fn encrypt_known_message_to_another_buffer() {
    let mut out = vec![0xaa; PLAINTEXT.len()];
    let buffer = InOutBuf::new(PLAINTEXT, &mut out).unwrap();
    assert_eq!(cipher().encrypt_inout_detached(&AAD, buffer), Ok(tag(TAG)));
    assert_eq!(out, unhex(CIPHERTEXT));
}

#[test]
fn decrypt_known_message_in_place() {
    let mut data = unhex(CIPHERTEXT);
    let r = cipher().decrypt_inout_detached(&AAD, InOutBuf::from_mut(&mut data), &tag(TAG));
    assert_eq!(r, Ok(()));
    assert_eq!(data, PLAINTEXT);
}

#[test]
fn decrypt_known_message_to_another_buffer() {
    let ciphertext = unhex(CIPHERTEXT);
    let mut out = vec![0xaa; ciphertext.len()];
    let buffer = InOutBuf::new(&ciphertext, &mut out).unwrap();
    assert_eq!(cipher().decrypt_inout_detached(&AAD, buffer, &tag(TAG)), Ok(()));
    assert_eq!(out, PLAINTEXT);
}

#[test]
fn empty_message_and_empty_associated_data() {
    let r = cipher().encrypt_inout_detached(&[], InOutBuf::from_mut(&mut []));
    assert_eq!(r, Ok(tag("a0784d7a4716f3feb4f64e7f4b39bf04")));
    let r = cipher().encrypt_inout_detached(&AAD, InOutBuf::from_mut(&mut []));
    assert_eq!(r, Ok(tag("e622e5647a38d967a7ecbcb46c7f675c")));
    let mut data = *b"abc";
    let r = cipher().encrypt_inout_detached(&[], InOutBuf::from_mut(&mut data));
    assert_eq!(r, Ok(tag("ee33b7c3cf0742d9c56155b194616080")));
    assert_eq!(data.to_vec(), unhex("fe198a"));
}

#[test]
fn authenticator_key_comes_from_where_the_stream_stands() {
    let mut stream = ChaCha20::new(&key(), &NONCE);
    stream.seek(5);
    let mut data = *b"abc";
    let r = Cipher::new(stream).encrypt_inout_detached(&AAD, InOutBuf::from_mut(&mut data));
    assert_eq!(r, Ok(tag("36ef9ec252f26d7df4a1b64ca0853075")));
    assert_eq!(data.to_vec(), unhex("fe198a"));
}

#[test]
fn every_changed_tag_bit_is_refused_and_leaves_the_buffer() {
    for bit in 0..128 {
        let mut wrong = tag(TAG);
        wrong[bit / 8] ^= 1 << (bit % 8);
        let mut data = unhex(CIPHERTEXT);
        let r = cipher().decrypt_inout_detached(&AAD, InOutBuf::from_mut(&mut data), &wrong);
        assert_eq!(r, Err(Error));
        assert_eq!(data, unhex(CIPHERTEXT));
    }
}

#[test]
fn changed_ciphertext_is_refused_and_leaves_the_output() {
    for i in 0..PLAINTEXT.len() {
        let mut ciphertext = unhex(CIPHERTEXT);
        ciphertext[i] ^= 1;
        let mut out = vec![0xaa; ciphertext.len()];
        let buffer = InOutBuf::new(&ciphertext, &mut out).unwrap();
        assert_eq!(cipher().decrypt_inout_detached(&AAD, buffer, &tag(TAG)), Err(Error));
        assert_eq!(out, vec![0xaa; PLAINTEXT.len()]);
    }
}

#[test]
fn changed_associated_data_is_refused() {
    let mut longer = AAD.to_vec();
    longer.push(0);
    let mut data = unhex(CIPHERTEXT);
    let r = cipher().decrypt_inout_detached(&longer, InOutBuf::from_mut(&mut data), &tag(TAG));
    assert_eq!(r, Err(Error));
    let r = cipher().decrypt_inout_detached(&AAD[1..], InOutBuf::from_mut(&mut data), &tag(TAG));
    assert_eq!(r, Err(Error));
}

#[test]
fn bytes_moved_from_associated_data_to_message_are_refused() {
    // Both authenticate the same bytes but for the lengths.
    let mut data = [0u8; 16];
    let t = cipher().encrypt_inout_detached(&[0; 16], InOutBuf::from_mut(&mut data)).unwrap();
    let mut joined = [0u8; 16].to_vec();
    joined.extend_from_slice(&data);
    let r = cipher().decrypt_inout_detached(&joined, InOutBuf::from_mut(&mut []), &t);
    assert_eq!(r, Err(Error));
    let r = cipher().decrypt_inout_detached(&[0; 16], InOutBuf::from_mut(&mut data), &t);
    assert_eq!(r, Ok(()));
    assert_eq!(data, [0u8; 16]);
}

#[test]
fn decryption_inverts_encryption_for_all_short_lengths() {
    for len in 0..200usize {
        let plaintext: Vec<u8> = (0..len).map(|i| (i * 7) as u8).collect();
        let aad: Vec<u8> = (0..len % 37).map(|i| i as u8).collect();
        let mut data = plaintext.clone();
        let t = cipher().encrypt_inout_detached(&aad, InOutBuf::from_mut(&mut data)).unwrap();
        let r = cipher().decrypt_inout_detached(&aad, InOutBuf::from_mut(&mut data), &t);
        assert_eq!(r, Ok(()));
        assert_eq!(data, plaintext);
    }
}
