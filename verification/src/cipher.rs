//! AES-256 in CBC mode with PKCS#7 padding.

use aes::Aes256;
use block_modes::block_padding::Pkcs7;
use block_modes::{BlockMode, BlockModeError, Cbc, InvalidKeyIvLength};
use vstd::prelude::*;

verus! {

/// Length in bytes of a cipher key.
pub const KEY_LENGTH: usize = 32;

/// Length in bytes of an initialization vector, which is one cipher block.
pub const IV_LENGTH: usize = 16;

/// The ciphertext of `plain` under a 32-byte `key` and a 16-byte `iv`.
pub uninterp spec fn cbc_ciphertext(key: Seq<u8>, iv: Seq<u8>, plain: Seq<u8>) -> Seq<u8>;

/// The plaintext of `data` under a 32-byte `key` and a 16-byte `iv`, or
/// `None` where `data` is no whole number of blocks or its padding is
/// malformed once decrypted.
pub uninterp spec fn cbc_plaintext(key: Seq<u8>, iv: Seq<u8>, data: Seq<u8>) -> Option<Seq<u8>>;

/// Whether a key and an initialization vector have the lengths the cipher takes.
pub open spec fn fits_cipher(key: Seq<u8>, iv: Seq<u8>) -> bool {
    key.len() == KEY_LENGTH && iv.len() == IV_LENGTH
}

/// The error of `BlockMode::new_from_slices`, carried through unread.
#[verifier::external_type_specification]
#[verifier::external_body]
pub struct ExInvalidKeyIvLength(InvalidKeyIvLength);

/// The error of `BlockMode::decrypt_vec`, carried through unread.
#[verifier::external_type_specification]
#[verifier::external_body]
pub struct ExBlockModeError(BlockModeError);

/// Builds the cipher with `BlockMode::new_from_slices` and calls
/// `BlockMode::encrypt_vec` on it. Trusted: the cipher is built exactly when
/// the key has 32 bytes and the IV 16; the bytes returned are the ciphertext,
/// and decrypting them under the same key and IV gives `plain` back.
#[verifier::external_body]
pub(crate) fn cbc_encrypt(key: &[u8], iv: &[u8], plain: &[u8]) -> (sealed: Result<Vec<u8>, InvalidKeyIvLength>)
    ensures
        sealed is Ok <==> fits_cipher(key@, iv@),
        sealed matches Ok(data) ==> data@ == cbc_ciphertext(key@, iv@, plain@),
        sealed matches Ok(data) ==> cbc_plaintext(key@, iv@, data@) == Some(plain@),
{
    let cipher = Cbc::<Aes256, Pkcs7>::new_from_slices(key, iv)?;
    Ok(cipher.encrypt_vec(plain))
}

/// Builds the cipher with `BlockMode::new_from_slices` and calls
/// `BlockMode::decrypt_vec` on it. Trusted: the cipher is built exactly when
/// the key has 32 bytes and the IV 16; the inner result is then the
/// plaintext, or the error where there is none.
#[verifier::external_body]
pub(crate) fn cbc_decrypt(key: &[u8], iv: &[u8], data: &[u8]) -> (opened: Result<Result<Vec<u8>, BlockModeError>, InvalidKeyIvLength>)
    ensures
        opened is Ok <==> fits_cipher(key@, iv@),
        opened matches Ok(Ok(plain)) ==> cbc_plaintext(key@, iv@, data@) == Some(plain@),
        opened matches Ok(Err(_)) ==> cbc_plaintext(key@, iv@, data@) is None,
{
    let cipher = Cbc::<Aes256, Pkcs7>::new_from_slices(key, iv)?;
    Ok(cipher.decrypt_vec(data))
}

} // verus!
