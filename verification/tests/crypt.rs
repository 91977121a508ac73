use aes::cipher::{BlockEncrypt, KeyInit};
use unpak::{decrypt, Error, IoKind};

fn hex(s: &str) -> Vec<u8> {
    (0..s.len()).step_by(2).map(|i| u8::from_str_radix(&s[i..i + 2], 16).unwrap()).collect()
}

fn encrypt(key: &[u8], data: &[u8]) -> Vec<u8> {
    let cipher = aes::Aes256Enc::new_from_slice(key).unwrap();
    let mut out = data.to_vec();
    for chunk in out.chunks_mut(16) {
        cipher.encrypt_block(aes::Block::from_mut_slice(chunk));
    }
    out
}

#[test]
fn known_answer() {
    // the example of the standard for a key of 256 bits
    let key = hex("000102030405060708090a0b0c0d0e0f101112131415161718191a1b1c1d1e1f");
    let mut data = hex("8ea2b7ca516745bfeafc49904b496089");
    assert_eq!(decrypt(Some(&key), &mut data), Ok(()));
    assert_eq!(data, hex("00112233445566778899aabbccddeeff"));
}

#[test]
fn every_block_is_decrypted_on_its_own() {
    let key = [7u8; 32];
    let plain: Vec<u8> = (0..160u32).map(|i| (i * 7 + 3) as u8).collect();
    let mut data = encrypt(&key, &plain);
    assert_ne!(data, plain);
    assert_eq!(decrypt(Some(&key), &mut data), Ok(()));
    assert_eq!(data, plain);
    // equal blocks of cipher text give equal blocks of plain text
    let block = hex("8ea2b7ca516745bfeafc49904b496089");
    let mut twice = [block.clone(), block].concat();
    let key = hex("000102030405060708090a0b0c0d0e0f101112131415161718191a1b1c1d1e1f");
    decrypt(Some(&key), &mut twice).unwrap();
    assert_eq!(twice[..16], twice[16..]);
    assert_eq!(twice[..16], hex("00112233445566778899aabbccddeeff"));
}

#[test]
fn nothing_to_decrypt() {
    let mut data = Vec::new();
    assert_eq!(decrypt(Some(&[0u8; 32]), &mut data), Ok(()));
    assert!(data.is_empty());
}

#[test]
fn no_key() {
    let mut data = vec![1u8; 16];
    assert_eq!(decrypt(None, &mut data), Err(Error::Encrypted));
    assert_eq!(data, vec![1u8; 16]);
}

#[test]
fn key_of_the_wrong_length() {
    for len in [0usize, 1, 16, 24, 31, 33, 64] {
        let mut data = vec![1u8; 16];
        assert_eq!(decrypt(Some(&vec![0u8; len]), &mut data), Err(Error::Aes));
        assert_eq!(data, vec![1u8; 16]);
    }
}

#[test]
fn region_that_ends_inside_a_block() {
    for len in [1usize, 15, 17, 31] {
        let mut data = vec![1u8; len];
        assert_eq!(decrypt(Some(&[0u8; 32]), &mut data), Err(Error::Io(IoKind::UnexpectedEof)));
        assert_eq!(data, vec![1u8; len]);
    }
}

#[test]
fn put_block_replaces_sixteen_bytes() {
    let block: [u8; 16] = [0xA0, 0xA1, 0xA2, 0xA3, 0xA4, 0xA5, 0xA6, 0xA7, 0xA8, 0xA9, 0xAA, 0xAB, 0xAC, 0xAD, 0xAE, 0xAF];
    let mut bytes: Vec<u8> = (0..40).collect();
    assert!(unpak::crypt::put_block(&mut bytes, 16, &block));
    let mut expected: Vec<u8> = (0..40).collect();
    expected[16..32].copy_from_slice(&block);
    assert_eq!(bytes, expected);
    assert!(unpak::crypt::put_block(&mut bytes, 24, &block));
    expected[24..40].copy_from_slice(&block);
    assert_eq!(bytes, expected);
}

#[test]
fn put_block_needs_sixteen_bytes() {
    let block = [1u8; 16];
    let mut bytes: Vec<u8> = (0..40).collect();
    assert!(!unpak::crypt::put_block(&mut bytes, 25, &block));
    assert!(!unpak::crypt::put_block(&mut bytes, 40, &block));
    assert!(!unpak::crypt::put_block(&mut bytes, usize::MAX, &block));
    assert_eq!(bytes, (0..40).collect::<Vec<u8>>());
    let mut short = vec![0u8; 15];
    assert!(!unpak::crypt::put_block(&mut short, 0, &block));
    assert_eq!(short, vec![0u8; 15]);
}
