use chacha20poly1305::construction::encode_lengths;
use chacha20poly1305::{ChaCha20, Error, InOutBuf, Keystream};

const PLAINTEXT: &[u8] = b"Ladies and Gentlemen of the clas";
const KEYSTREAM_START: [u8; 16] = [
    0xaf, 0x05, 0x1e, 0x40, 0xbb, 0xa0, 0x35, 0x49, 0x81, 0x32, 0x9a, 0x80, 0x6a, 0x14, 0x0e, 0xaf,
];
const CIPHERTEXT: [u8; 32] = [
    0x6e, 0x2e, 0x35, 0x9a, 0x25, 0x68, 0xf9, 0x80, 0x41, 0xba, 0x07, 0x28, 0xdd, 0x0d, 0x69, 0x81,
    0xe9, 0x7e, 0x7a, 0xec, 0x1d, 0x43, 0x60, 0xc2, 0x0a, 0x27, 0xaf, 0xcc, 0xfd, 0x9f, 0xae, 0x0b,
];

fn cipher() -> ChaCha20 {
    let mut key = [0u8; 32];
    for i in 0..32 {
        key[i] = i as u8;
    }
    ChaCha20::new(&key, &[0, 0, 0, 0, 0, 0, 0, 0x4a, 0, 0, 0, 0])
}

#[test]
fn lengths_are_encoded_least_significant_byte_first() {
    assert_eq!(encode_lengths(12, 114), [12, 0, 0, 0, 0, 0, 0, 0, 114, 0, 0, 0, 0, 0, 0, 0]);
    assert_eq!(
        encode_lengths(0x0102_0304_0506_0708, u64::MAX),
        [8, 7, 6, 5, 4, 3, 2, 1, 255, 255, 255, 255, 255, 255, 255, 255]
    );
}

#[test]
fn keystream_starts_at_its_first_byte() {
    let mut data = [0u8; 16];
    cipher().apply_keystream(&mut data);
    assert_eq!(data, KEYSTREAM_START);
}

#[test]
fn keystream_from_the_second_block_on() {
    let mut c = cipher();
    c.seek(64);
    let mut data = PLAINTEXT.to_vec();
    c.apply_keystream(&mut data);
    assert_eq!(data, CIPHERTEXT);
}

#[test]
fn keystream_in_pieces() {
    for at in 0..33 {
        let mut c = cipher();
        c.seek(64);
        let mut data = PLAINTEXT.to_vec();
        let (first, second) = data.split_at_mut(at);
        c.apply_keystream(first);
        c.apply_keystream_inout(InOutBuf::from_mut(second));
        assert_eq!(data, CIPHERTEXT);
    }
}

#[test]
fn keystream_to_another_buffer() {
    let mut c = cipher();
    c.seek(64 + 3);
    let mut out = [0u8; 29];
    c.apply_keystream_inout(InOutBuf::new(&PLAINTEXT[3..], &mut out).unwrap());
    assert_eq!(out, CIPHERTEXT[3..]);
}

#[test]
fn keystream_applied_twice_gives_the_data_back() {
    let mut data = PLAINTEXT.to_vec();
    cipher().apply_keystream(&mut data);
    assert_ne!(data, PLAINTEXT);
    cipher().apply_keystream(&mut data);
    assert_eq!(data, PLAINTEXT);
}

#[test]
fn last_bytes_of_the_keystream_can_be_used() {
    let mut c = cipher();
    let end = 0xffff_ffff * 64;
    c.seek(end - 10);
    let mut first = [0u8; 10];
    c.apply_keystream(&mut first);
    c.apply_keystream(&mut []);
    c.seek(end - 4);
    let mut last = [0u8; 4];
    c.apply_keystream(&mut last);
    assert_eq!(first[6..], last);
}

#[test]
fn buffers_of_different_lengths_are_refused() {
    let mut out = [0u8; 3];
    assert_eq!(InOutBuf::new(&[1, 2], &mut out).err(), Some(Error));
    assert_eq!(InOutBuf::new(&[1, 2, 3, 4], &mut out).err(), Some(Error));
    let buffer = InOutBuf::new(&[1, 2, 3], &mut out).unwrap();
    assert_eq!(buffer.len(), 3);
    assert_eq!(buffer.get_in(), [1, 2, 3]);
    assert_eq!(buffer.get_out(), [0, 0, 0]);
}

#[test]
fn buffers_in_place_read_what_they_write() {
    let mut data = [1u8, 2, 3];
    let mut buffer = InOutBuf::from_mut(&mut data);
    assert_eq!(buffer.get_in(), [1, 2, 3]);
    let (input, output) = buffer.reborrow().into_parts();
    assert!(input.is_none());
    output[1] = 9;
    assert_eq!(buffer.get_in(), [1, 9, 3]);
    assert_eq!(buffer.get_out(), [1, 9, 3]);
}
