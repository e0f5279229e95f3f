use chacha20poly1305::{
    AadPhase, ChaCha20, Cipher, DecryptionPhase, EncryptionPhase, Error, InOutBuf,
    OnePassDecryptionPhase, StreamingCipher, Tag, VerificationPhase,
};

const NONCE: [u8; 12] = [7, 0, 0, 0, 0x40, 0x41, 0x42, 0x43, 0x44, 0x45, 0x46, 0x47];
const AAD: [u8; 12] = [0x50, 0x51, 0x52, 0x53, 0xc0, 0xc1, 0xc2, 0xc3, 0xc4, 0xc5, 0xc6, 0xc7];
const PLAINTEXT: &[u8] = b"Ladies and Gentlemen of the class of '99: \
If I could offer you only one tip for the future, sunscreen would be it.";
const CIPHERTEXT: &str = "d31a8d34648e60db7b86afbc53ef7ec2a4aded51296e08fea9e2b5a736ee62d6\
3dbea45e8ca9671282fafb69da92728b1a71de0a9e060b2905d6a5b67ecd3b36\
92ddbd7f2d778b8c9803aee328091b58fab324e4fad675945585808b4831d7bc\
3ff4def08e4b7a9de576d26586cec64b6116";
const TAG: &str = "1ae10b594f09e26a7e902ecbd0600691";

fn unhex(s: &str) -> Vec<u8> {
    (0..s.len() / 2).map(|i| u8::from_str_radix(&s[2 * i..2 * i + 2], 16).unwrap()).collect()
}

fn tag(s: &str) -> Tag {
    unhex(s).try_into().unwrap()
}

fn key() -> [u8; 32] {
    let mut key = [0u8; 32];
    for i in 0..32 {
        key[i] = 0x80 + i as u8;
    }
    key
}

fn start() -> StreamingCipher<ChaCha20, AadPhase> {
    StreamingCipher::new(ChaCha20::new(&key(), &NONCE))
}

fn encryption(aad: &[u8], step: usize) -> StreamingCipher<ChaCha20, EncryptionPhase> {
    let mut c = start();
    for piece in aad.chunks(step) {
        assert_eq!(c.update_aad(piece), Ok(()));
    }
    c.finish_aad().ok().unwrap()
}

fn one_pass(aad: &[u8], step: usize) -> StreamingCipher<ChaCha20, OnePassDecryptionPhase> {
    let mut c = start();
    for piece in aad.chunks(step) {
        assert_eq!(c.update_aad(piece), Ok(()));
    }
    c.finish_aad().ok().unwrap()
}

fn verification(aad: &[u8], step: usize) -> StreamingCipher<ChaCha20, VerificationPhase> {
    let mut c = start();
    for piece in aad.chunks(step) {
        assert_eq!(c.update_aad(piece), Ok(()));
    }
    c.finish_aad().ok().unwrap()
}

fn verified(ciphertext: &[u8], t: &Tag) -> StreamingCipher<ChaCha20, DecryptionPhase, ()> {
    let mut c = verification(&AAD, 100);
    assert_eq!(c.update_ciphertext(ciphertext), Ok(()));
    c.verify(t).ok().unwrap()
}

#[test]
fn encrypt_known_message_in_pieces_of_every_size() {
    for step in 1..130 {
        let mut c = encryption(&AAD, step);
        let mut data = PLAINTEXT.to_vec();
        for piece in data.chunks_mut(step) {
            assert_eq!(c.update_plaintext(InOutBuf::from_mut(piece)), Ok(()));
        }
        assert_eq!(data, unhex(CIPHERTEXT));
        assert_eq!(c.finalize(), Ok(tag(TAG)));
    }
}

#[test]
fn encrypt_pieces_to_another_buffer() {
    let mut c = encryption(&AAD, 5);
    let mut out = vec![0u8; PLAINTEXT.len()];
    for (input, output) in PLAINTEXT.chunks(17).zip(out.chunks_mut(17)) {
        assert_eq!(c.update_plaintext(InOutBuf::new(input, output).unwrap()), Ok(()));
    }
    assert_eq!(out, unhex(CIPHERTEXT));
    assert_eq!(c.finalize(), Ok(tag(TAG)));
}

#[test]
fn empty_pieces_change_nothing() {
    let mut c = start();
    assert_eq!(c.update_aad(&[]), Ok(()));
    assert_eq!(c.update_aad(&AAD), Ok(()));
    assert_eq!(c.update_aad(&[]), Ok(()));
    let mut c: StreamingCipher<ChaCha20, EncryptionPhase> = c.finish_aad().ok().unwrap();
    let mut data = PLAINTEXT.to_vec();
    assert_eq!(c.update_plaintext(InOutBuf::from_mut(&mut [])), Ok(()));
    assert_eq!(c.update_plaintext(InOutBuf::from_mut(&mut data)), Ok(()));
    assert_eq!(c.update_plaintext(InOutBuf::from_mut(&mut [])), Ok(()));
    assert_eq!(c.finalize(), Ok(tag(TAG)));
}

#[test]
fn nothing_at_all_has_a_tag() {
    let c = encryption(&[], 1);
    assert_eq!(c.finalize(), Ok(tag("a0784d7a4716f3feb4f64e7f4b39bf04")));
    let c = encryption(&AAD, 3);
    assert_eq!(c.finalize(), Ok(tag("e622e5647a38d967a7ecbcb46c7f675c")));
}

#[test]
fn decrypt_known_message_in_one_pass() {
    for step in 1..130 {
        let mut c = one_pass(&AAD, step);
        let mut data = unhex(CIPHERTEXT);
        for piece in data.chunks_mut(step) {
            assert_eq!(c.update_ciphertext_unverified(InOutBuf::from_mut(piece)), Ok(()));
        }
        assert_eq!(data, PLAINTEXT);
        assert_eq!(c.verify_and_finalize(&tag(TAG)), Ok(()));
    }
}

#[test]
fn one_pass_to_another_buffer() {
    let ciphertext = unhex(CIPHERTEXT);
    let mut out = vec![0u8; ciphertext.len()];
    let mut c = one_pass(&AAD, 1);
    let buffer = InOutBuf::new(&ciphertext, &mut out).unwrap();
    assert_eq!(c.update_ciphertext_unverified(buffer), Ok(()));
    assert_eq!(out, PLAINTEXT);
    assert_eq!(c.verify_and_finalize(&tag(TAG)), Ok(()));
}

#[test]
fn one_pass_refuses_a_wrong_tag() {
    let mut c = one_pass(&AAD, 4);
    let mut data = unhex(CIPHERTEXT);
    assert_eq!(c.update_ciphertext_unverified(InOutBuf::from_mut(&mut data)), Ok(()));
    let mut wrong = tag(TAG);
    wrong[15] ^= 0x80;
    assert_eq!(c.verify_and_finalize(&wrong), Err(Error));
}

#[test]
fn one_pass_refuses_a_truncated_message() {
    let mut c = one_pass(&AAD, 4);
    let mut data = unhex(CIPHERTEXT);
    data.pop();
    assert_eq!(c.update_ciphertext_unverified(InOutBuf::from_mut(&mut data)), Ok(()));
    assert_eq!(c.verify_and_finalize(&tag(TAG)), Err(Error));
}

#[test]
fn decrypt_known_message_in_two_passes() {
    for step in 1..130 {
        let mut c = verification(&AAD, step);
        let mut data = unhex(CIPHERTEXT);
        for piece in data.chunks(step) {
            assert_eq!(c.update_ciphertext(piece), Ok(()));
        }
        let mut c = c.verify(&tag(TAG)).ok().unwrap();
        for piece in data.chunks_mut(131 - step) {
            assert_eq!(c.update_ciphertext_verified(InOutBuf::from_mut(piece)), Ok(()));
        }
        assert_eq!(data, PLAINTEXT);
        assert_eq!(c.finalize(), Ok(()));
    }
}

#[test]
fn two_passes_refuse_a_wrong_tag() {
    let mut c = verification(&AAD, 4);
    assert_eq!(c.update_ciphertext(&unhex(CIPHERTEXT)), Ok(()));
    let mut wrong = tag(TAG);
    wrong[0] ^= 1;
    assert!(c.verify(&wrong).is_err());
}

#[test]
fn two_passes_refuse_more_than_was_verified() {
    let mut data = unhex(CIPHERTEXT);
    let mut c = verified(&data, &tag(TAG));
    let mut longer = data.clone();
    longer.push(0);
    let before = longer.clone();
    assert_eq!(c.update_ciphertext_verified(InOutBuf::from_mut(&mut longer)), Err(Error));
    assert_eq!(longer, before);
    // A refused piece uses up nothing.
    assert_eq!(c.update_ciphertext_verified(InOutBuf::from_mut(&mut data)), Ok(()));
    assert_eq!(data, PLAINTEXT);
    assert_eq!(c.update_ciphertext_verified(InOutBuf::from_mut(&mut [0])), Err(Error));
    assert_eq!(c.finalize(), Ok(()));
}

#[test]
fn two_passes_refuse_less_than_was_verified() {
    let mut data = unhex(CIPHERTEXT);
    let n = data.len();
    let mut c = verified(&data, &tag(TAG));
    let r = c.update_ciphertext_verified(InOutBuf::from_mut(&mut data[..n - 1]));
    assert_eq!(r, Ok(()));
    assert_eq!(c.finalize(), Err(Error));
    assert_eq!(verified(&unhex(CIPHERTEXT), &tag(TAG)).finalize(), Err(Error));
}

#[test]
fn pieces_and_one_go_agree() {
    for len in 0..150usize {
        let plaintext: Vec<u8> = (0..len).map(|i| (i * 31 + 5) as u8).collect();
        let aad: Vec<u8> = (0..(len * 3) % 53).map(|i| i as u8).collect();

        let mut whole = plaintext.clone();
        let t = Cipher::new(ChaCha20::new(&key(), &NONCE))
            .encrypt_inout_detached(&aad, InOutBuf::from_mut(&mut whole))
            .unwrap();

        let mut pieces = plaintext.clone();
        let mut c = encryption(&aad, len % 7 + 1);
        for piece in pieces.chunks_mut(len % 23 + 1) {
            assert_eq!(c.update_plaintext(InOutBuf::from_mut(piece)), Ok(()));
        }
        assert_eq!(pieces, whole);
        assert_eq!(c.finalize(), Ok(t));

        let r = Cipher::new(ChaCha20::new(&key(), &NONCE)).decrypt_inout_detached(
            &aad,
            InOutBuf::from_mut(&mut pieces),
            &t,
        );
        assert_eq!(r, Ok(()));
        assert_eq!(pieces, plaintext);
    }
}
