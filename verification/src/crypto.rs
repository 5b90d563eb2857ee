//! AES-128, cipher block chaining and SHA-1, as the `aes`, `cbc` and `sha1`
//! crates compute them.
use cipher::block_padding::NoPadding;
use cipher::{BlockDecrypt, BlockDecryptMut, BlockEncrypt, KeyInit, KeyIvInit};
use sha1::Digest;
use vstd::prelude::*;

verus! {

/// The AES-128 encryption of a block of 16 bytes under a key of 16 bytes.
pub uninterp spec fn aes128_encrypt(key: Seq<u8>, block: Seq<u8>) -> Seq<u8>;

/// The AES-128 decryption of a block of 16 bytes under a key of 16 bytes.
pub uninterp spec fn aes128_decrypt(key: Seq<u8>, block: Seq<u8>) -> Seq<u8>;

/// The SHA-1 digest of data.
pub uninterp spec fn sha1(data: Seq<u8>) -> Seq<u8>;

/// The bytes of two blocks of 16 bytes, combined by exclusive or.
pub open spec fn xor16(a: Seq<u8>, b: Seq<u8>) -> Seq<u8> {
    Seq::new(16, |i: int| a[i] ^ b[i])
}

/// What cipher block chaining with AES-128 makes of encrypted blocks: each is
/// decrypted and combined with the encrypted block before it, the first with
/// `previous`.
pub open spec fn cbc_decrypted(key: Seq<u8>, previous: Seq<u8>, data: Seq<u8>) -> Seq<u8>
    decreases data.len(),
{
    if data.len() < 16 {
        seq![]
    } else {
        xor16(aes128_decrypt(key, data.take(16)), previous) + cbc_decrypted(
            key,
            data.take(16),
            data.skip(16),
        )
    }
}

/// Decryption keeps the length of whole blocks.
pub proof fn lemma_cbc_len(key: Seq<u8>, previous: Seq<u8>, data: Seq<u8>)
    requires
        data.len() % 16 == 0,
    ensures
        cbc_decrypted(key, previous, data).len() == data.len(),
    decreases data.len(),
{
    if data.len() >= 16 {
        lemma_cbc_len(key, data.take(16), data.skip(16));
    }
}

/// Encrypts a block with `aes::Aes128`. Decryption under the same key gives
/// the block back.
#[verifier::external_body]
pub(crate) fn encrypt_aes128(key: &[u8; 16], block: &[u8; 16]) -> (encrypted: [u8; 16])
    ensures
        encrypted@ == aes128_encrypt(key@, block@),
        aes128_decrypt(key@, encrypted@) == block@,
{
    let mut state = aes::Block::clone_from_slice(block);
    aes::Aes128::new(key.into()).encrypt_block(&mut state);
    state.into()
}

/// Decrypts a block with `aes::Aes128`. Encryption under the same key gives
/// the block back.
#[verifier::external_body]
pub(crate) fn decrypt_aes128(key: &[u8; 16], block: &[u8; 16]) -> (decrypted: [u8; 16])
    ensures
        decrypted@ == aes128_decrypt(key@, block@),
        aes128_encrypt(key@, decrypted@) == block@,
{
    let mut state = aes::Block::clone_from_slice(block);
    aes::Aes128::new(key.into()).decrypt_block(&mut state);
    state.into()
}

/// Decrypts whole blocks in place with `cbc::Decryptor` over `aes::Aes128`,
/// without padding.
#[verifier::external_body]
pub(crate) fn decrypt_cbc(key: &[u8; 16], iv: &[u8; 16], data: &mut Vec<u8>)
    requires
        old(data)@.len() % 16 == 0,
    ensures
        final(data)@ == cbc_decrypted(key@, iv@, old(data)@),
{
    let decryptor = cbc::Decryptor::<aes::Aes128>::new(key.into(), iv.into());
    let _ = decryptor.decrypt_padded_mut::<NoPadding>(data);
}

/// Computes a digest with `sha1::Sha1`.
#[verifier::external_body]
pub(crate) fn digest_sha1(data: &[u8]) -> (digest: [u8; 20])
    ensures
        digest@ == sha1(data@),
{
    sha1::Sha1::digest(data).into()
}

} // verus!
