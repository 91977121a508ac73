//! AES-256 in ECB mode: every 16 bytes of a region are decrypted on their
//! own, with the same key.

use vstd::prelude::*;
use vstd::slice::slice_subrange;
use crate::error::{Error, IoKind};

verus! {

/// What AES-256 decryption with the 32 bytes `key` makes of the 16 bytes
/// `block`: the result of `decrypt_block` of the crate `aes`.
pub uninterp spec fn aes256_decrypted(key: Seq<u8>, block: Seq<u8>) -> Seq<u8>;

/// Calls `Aes256Dec::new_from_slice`, which accepts a key of 32 bytes and no
/// other.
#[verifier::external_body]
fn key_accepted(key: &[u8]) -> (r: bool)
    ensures
        r == (key@.len() == 32),
{
    <aes::Aes256Dec as aes::cipher::KeyInit>::new_from_slice(key).is_ok()
}

/// Calls `decrypt_block` of an `Aes256Dec` made from `key`: one block of 16
/// bytes is decrypted with AES-256.
#[verifier::external_body]
fn decrypt_block(key: &[u8], block: &[u8]) -> (r: [u8; 16])
    requires
        key@.len() == 32,
        block@.len() == 16,
    ensures
        r@ == aes256_decrypted(key@, block@),
{
    let cipher = <aes::Aes256Dec as aes::cipher::KeyInit>::new_from_slice(key).unwrap();
    let mut data = aes::Block::clone_from_slice(block);
    aes::cipher::BlockDecrypt::decrypt_block(&cipher, &mut data);
    data.into()
}

/// The model of a key that may be missing.
pub open spec fn key_view(key: Option<&[u8]>) -> Option<Seq<u8>> {
    match key {
        Some(key) => Some(key@),
        None => None,
    }
}

/// The block of 16 bytes of `data` in which the byte `i` lies.
pub open spec fn block_of(data: Seq<u8>, i: int) -> Seq<u8> {
    data.subrange(16 * (i / 16), 16 * (i / 16) + 16)
}

/// `data`, a whole number of blocks, decrypted block by block.
pub open spec fn ecb_decrypted(key: Seq<u8>, data: Seq<u8>) -> Seq<u8> {
    Seq::new(data.len(), |i: int| aes256_decrypted(key, block_of(data, i))[i % 16])
}

/// What decryption makes of an encrypted region: it needs a key, the key
/// must have 32 bytes, and the region must end with a whole block.
pub open spec fn decrypted(key: Option<Seq<u8>>, data: Seq<u8>) -> Result<Seq<u8>, Error> {
    match key {
        None => Err(Error::Encrypted),
        Some(key) => if key.len() != 32 {
            Err(Error::Aes)
        } else if data.len() % 16 != 0 {
            Err(Error::Io(IoKind::UnexpectedEof))
        } else {
            Ok(ecb_decrypted(key, data))
        },
    }
}

/// `bytes` with the bytes from `at` on replaced by those of `block`.
pub open spec fn with_block(bytes: Seq<u8>, at: int, block: Seq<u8>) -> Seq<u8> {
    Seq::new(
        bytes.len(),
        |i: int|
            if at <= i < at + block.len() {
                block[i - at]
            } else {
                bytes[i]
            },
    )
}

/// Puts a block that has been decrypted in the place of its cipher text:
/// the bytes of `bytes` from `at` on become those of `block`. Where 16
/// bytes do not lie there, nothing is changed, and the result says so.
pub fn put_block(bytes: &mut Vec<u8>, at: usize, block: &[u8; 16]) -> (r: bool)
    ensures
        r == (at + 16 <= old(bytes)@.len()),
        r ==> final(bytes)@ == with_block(old(bytes)@, at as int, block@),
        !r ==> final(bytes)@ == old(bytes)@,
{
    let len = bytes.len();
    if at > len || len - at < 16 {
        return false;
    }
    let ghost before = bytes@;
    let mut j: usize = 0;
    while j < 16
        invariant
            j <= 16,
            at + 16 <= len == before.len(),
            bytes@.len() == before.len(),
            forall|i: int| at <= i < at + j ==> bytes@[i] == block@[i - at],
            forall|i: int| 0 <= i < before.len() && !(at <= i < at + j) ==> bytes@[i] == before[i],
        decreases 16 - j,
    {
        bytes.set(at + j, block[j]);
        j = j + 1;
    }
    assert(bytes@ =~= with_block(before, at as int, block@));
    true
}

/// Decrypts `bytes` in place. On an error they stay as they were.
pub fn decrypt(key: Option<&[u8]>, bytes: &mut Vec<u8>) -> (r: Result<(), Error>)
    ensures
        match decrypted(key_view(key), old(bytes)@) {
            Ok(plain) => r is Ok && final(bytes)@ == plain,
            Err(e) => r == Err::<(), Error>(e) && final(bytes)@ == old(bytes)@,
        },
{
    match key {
        Some(key) => {
            if !key_accepted(key) {
                return Err(Error::Aes);
            }
            let len = bytes.len();
            if len % 16 != 0 {
                return Err(Error::Io(IoKind::UnexpectedEof));
            }
            let ghost cipher = bytes@;
            let mut at: usize = 0;
            while at < len
                invariant
                    key@.len() == 32,
                    len == cipher.len(),
                    len % 16 == 0,
                    at % 16 == 0,
                    at <= len,
                    bytes@.len() == len,
                    forall|i: int| 0 <= i < at ==> bytes@[i] == #[trigger] ecb_decrypted(key@, cipher)[i],
                    forall|i: int| at <= i < len ==> bytes@[i] == cipher[i],
                decreases len - at,
            {
                let plain = decrypt_block(key, slice_subrange(bytes.as_slice(), at, at + 16));
                assert(bytes@.subrange(at as int, at + 16) =~= cipher.subrange(at as int, at + 16));
                assert forall|i: int| at <= i < at + 16 implies block_of(cipher, i)
                    == cipher.subrange(at as int, at + 16) && i % 16 == i - at by {}
                put_block(bytes, at, &plain);
                at = at + 16;
            }
            assert(bytes@ =~= ecb_decrypted(key@, cipher));
            Ok(())
        },
        None => Err(Error::Encrypted),
    }
}

} // verus!
