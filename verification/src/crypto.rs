//! The two outside computations of the container format: AES-128 in ECB mode with PKCS#7
//! padding (crates `aes`, `ecb`) and standard Base64 (crate `base64`).

use aes::cipher::block_padding::Pkcs7;
use aes::cipher::{BlockDecryptMut, KeyInit};
use aes::Aes128;
use base64::Engine;
use ecb::Decryptor;
use vstd::prelude::*;

verus! {

/// Raw AES-128 decryption in ECB mode of `data` under `key`, every 16-byte block on its own,
/// with no padding removed.
pub uninterp spec fn aes128_ecb_decrypt(key: Seq<u8>, data: Seq<u8>) -> Seq<u8>;

/// PKCS#7 unpadding of a decrypted text whose last 16-byte block carries the padding: the last
/// byte `n` must lie in 1..=16 and the `n - 1` bytes before it must all equal `n`; the result
/// drops those `n` bytes.
pub open spec fn pkcs7_unpad(plain: Seq<u8>) -> Option<Seq<u8>> {
    if plain.len() < 16 {
        None
    } else {
        let n = plain.last() as int;
        let len = plain.len() as int;
        if n == 0 || n > 16 {
            None
        } else if exists|i: int| len - n <= i < len - 1 && plain[i] != n as u8 {
            None
        } else {
            Some(plain.take(len - n))
        }
    }
}

/// AES-128-ECB decryption with PKCS#7 padding: refused for an input that is empty or not made
/// of whole 16-byte blocks, and for malformed padding.
pub open spec fn aes128_ecb_pkcs7_decrypt(key: Seq<u8>, data: Seq<u8>) -> Option<Seq<u8>> {
    if data.len() == 0 || data.len() % 16 != 0 {
        None
    } else {
        pkcs7_unpad(aes128_ecb_decrypt(key, data))
    }
}

/// The bytes of an optional byte vector.
pub open spec fn bytes_of(v: Option<Vec<u8>>) -> Option<Seq<u8>> {
    match v {
        Some(b) => Some(b@),
        None => None,
    }
}

/// `ecb::Decryptor::<aes::Aes128>::decrypt_padded_mut::<Pkcs7>` on a copy of `data`.
/// As the `cipher` and `block-padding` sources show, the call refuses a buffer that is not made
/// of whole blocks, decrypts every block in place, and removes strict PKCS#7 padding from the last
/// block, refusing an empty buffer. The contract claims exactly that, with the block decryption
/// itself left as the name `aes128_ecb_decrypt`. Since decryption in place keeps the length and
/// unpadding drops 1 to 16 bytes, a result is shorter than the input by 1 to 16 bytes. The key
/// has the fixed length 16, so the key setup never fails.
#[verifier::external_body]
pub(crate) fn aes128_ecb_decrypt_padded(key: &[u8; 16], data: &[u8]) -> (plain: Option<Vec<u8>>)
    ensures
        data@.len() == 0 || data@.len() % 16 != 0 ==> plain is None,
        data@.len() > 0 && data@.len() % 16 == 0 ==> bytes_of(plain) == pkcs7_unpad(
            aes128_ecb_decrypt(key@, data@),
        ),
        plain matches Some(p) ==> p@.len() < data@.len() && data@.len() <= p@.len() + 16,
{
    let mut buf = data.to_vec();
    let decryptor = Decryptor::<Aes128>::new_from_slice(key).expect("AES-128 key length is fixed");
    match decryptor.decrypt_padded_mut::<Pkcs7>(&mut buf) {
        Ok(plain) => Some(plain.to_vec()),
        Err(_) => None,
    }
}

/// Decoding of standard Base64 (alphabet `A-Z a-z 0-9 + /`, canonical `=` padding required):
/// the decoded bytes, or the text of the decoder's error where the input is refused.
pub uninterp spec fn base64_standard_decode(input: Seq<u8>) -> Result<Seq<u8>, Seq<char>>;

/// `base64::engine::general_purpose::STANDARD.decode` (crate `base64`), its error turned into
/// the error's `Display` text (such as "Invalid symbol 46, offset 3."). Both are functions of
/// the input bytes alone; the contract names them `base64_standard_decode` and claims no more.
#[verifier::external_body]
pub(crate) fn base64_standard_decode_bytes(input: &[u8]) -> (res: Result<Vec<u8>, String>)
    ensures
        match res {
            Ok(v) => base64_standard_decode(input@) == Ok::<Seq<u8>, Seq<char>>(v@),
            Err(t) => base64_standard_decode(input@) == Err::<Seq<u8>, Seq<char>>(t@),
        },
{
    match base64::engine::general_purpose::STANDARD.decode(input) {
        Ok(bytes) => Ok(bytes),
        Err(err) => Err(err.to_string()),
    }
}

} // verus!
