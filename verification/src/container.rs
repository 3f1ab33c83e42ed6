//! The container's header: magic bytes, the encrypted core key, the encrypted metadata and the
//! cover image, read one field at a time.

use vstd::prelude::*;

use crate::crypto::{
    aes128_ecb_decrypt_padded, aes128_ecb_pkcs7_decrypt, base64_standard_decode,
    base64_standard_decode_bytes,
};
use crate::error::{ErrorKind, UnpackError};
use crate::keybox::{build_key_box, is_byte_permutation, key_box_of};
use crate::text::{
    is_kept_byte, lemma_trim_ascii_control_surrounded, trim_ascii_control, trim_ascii_control_spec,
    trim_chars, trim_str, utf8_lossy, utf8_lossy_string,
};
use vstd::utf8::encode_utf8;

verus! {

/// The eight bytes every container starts with.
pub const MAGIC: [u8; 8] = [0x43, 0x54, 0x45, 0x4e, 0x46, 0x44, 0x41, 0x4d];

/// The AES-128 key of the core key chunk.
pub const CORE_BOX_KEY: [u8; 16] = [
    0x68, 0x7A, 0x48, 0x52, 0x41, 0x6D, 0x73, 0x6F, 0x35, 0x6B, 0x49, 0x6E, 0x62, 0x61, 0x78, 0x57,
];

/// The AES-128 key of the metadata chunk.
pub const MODIFY_BOX_KEY: [u8; 16] = [
    0x23, 0x31, 0x34, 0x6C, 0x6A, 0x6B, 0x5F, 0x21, 0x5C, 0x5D, 0x26, 0x30, 0x55, 0x3C, 0x27, 0x28,
];

/// The byte every byte of the core key chunk is XORed with.
pub const CORE_KEY_MASK: u8 = 0x64;

/// The byte every byte of the metadata chunk is XORed with.
pub const METADATA_MASK: u8 = 0x63;

/// The number of bytes before the key material in the decrypted core key.
pub const CORE_KEY_PREFIX: usize = 17;

/// The size of the buffers in which the audio is decrypted.
pub const BUFFER_SIZE: usize = 0x8000;

/// Every byte of `data` XORed with `mask`.
pub open spec fn xor_all(data: Seq<u8>, mask: u8) -> Seq<u8> {
    data.map_values(|b: u8| b ^ mask)
}

/// Unmasking keeps the length, and byte `i` of the result is byte `i` of the data XORed with the
/// mask; masking twice with the same byte gives the data back.
pub proof fn lemma_xor_all_bytes(data: Seq<u8>, mask: u8)
    ensures
        xor_all(data, mask).len() == data.len(),
        forall|i: int| 0 <= i < data.len() ==> #[trigger] xor_all(data, mask)[i] == data[i] ^ mask,
        xor_all(xor_all(data, mask), mask) == data,
{
    let once = xor_all(data, mask);
    let twice = xor_all(once, mask);
    assert forall|i: int| 0 <= i < data.len() implies twice[i] == data[i] by {
        let x = data[i];
        assert((x ^ mask) ^ mask == x) by (bit_vector);
    }
    assert(twice =~= data);
}

/// XORs every byte of `data` with `mask`.
pub fn xor_bytes(data: &[u8], mask: u8) -> (r: Vec<u8>)
    ensures
        r@ == xor_all(data@, mask),
        r@.len() == data@.len(),
        forall|i: int| 0 <= i < data@.len() ==> #[trigger] r@[i] == data@[i] ^ mask,
{
    proof {
        lemma_xor_all_bytes(data@, mask);
    }
    let mut r: Vec<u8> = Vec::new();
    let n = data.len();
    let mut i: usize = 0;
    while i < n
        invariant
            i <= n == data@.len(),
            r@ == xor_all(data@.take(i as int), mask),
        decreases n - i,
    {
        r.push(data[i] ^ mask);
        assert(xor_all(data@.take(i + 1), mask) == xor_all(data@.take(i as int), mask).push(
            data@[i as int] ^ mask,
        ));
        i = i + 1;
    }
    assert(data@.take(n as int) == data@);
    r
}

/// The unsigned little-endian number in four bytes.
pub open spec fn le_u32(b: Seq<u8>) -> nat {
    (b[0] as nat) + 256 * (b[1] as nat) + 65536 * (b[2] as nat) + 16777216 * (b[3] as nat)
}

/// The length of a chunk from the four little-endian bytes that precede it.
pub fn chunk_length(raw: &[u8]) -> (len: usize)
    requires
        raw@.len() == 4,
    ensures
        len == le_u32(raw@),
{
    let v: u32 = raw[0] as u32 + 256 * (raw[1] as u32) + 65536 * (raw[2] as u32) + 16777216 * (
    raw[3] as u32);
    v as usize
}

/// The key box that the core key chunk yields: the chunk XORed with `0x64`, decrypted with
/// `CORE_BOX_KEY`; the key material is what follows the first 17 bytes, and there must be some.
pub open spec fn core_key_box_spec(chunk: Seq<u8>) -> Result<Seq<u8>, ErrorKind> {
    match aes128_ecb_pkcs7_decrypt(CORE_BOX_KEY@, xor_all(chunk, CORE_KEY_MASK)) {
        None => Err(ErrorKind::CoreKeyDecrypt),
        Some(core) => key_box_of_core(core),
    }
}

/// The key box that a decrypted core key yields: the key material is what follows its first 17
/// bytes, and there must be some.
pub open spec fn key_box_of_core(core: Seq<u8>) -> Result<Seq<u8>, ErrorKind> {
    if core.len() <= 17 {
        Err(ErrorKind::CoreKeyTooShort)
    } else {
        Ok(key_box_of(core.skip(17)))
    }
}

/// A decrypted core key made of a 17-byte prefix and some key material yields the key box of all
/// of that material; a core key of 17 bytes or fewer yields none.
pub proof fn lemma_key_box_of_core(prefix: Seq<u8>, material: Seq<u8>)
    requires
        prefix.len() == 17,
    ensures
        material.len() > 0 ==> key_box_of_core(prefix + material) == Ok::<Seq<u8>, ErrorKind>(
            key_box_of(material),
        ),
        forall|k: int| 0 <= k <= 17 ==> #[trigger] key_box_of_core(prefix.take(k)) is Err,
{
    assert((prefix + material).skip(17) == material);
}

/// Derives the key box from a decrypted core key.
pub fn key_box_from_core(core: &[u8]) -> (r: Result<Vec<u8>, UnpackError>)
    ensures
        match r {
            Ok(kb) => key_box_of_core(core@) == Ok::<Seq<u8>, ErrorKind>(kb@) && is_byte_permutation(
                kb@,
            ),
            Err(e) => key_box_of_core(core@) == Err::<Seq<u8>, ErrorKind>(e.kind)
                && e.detail@ == Seq::<char>::empty(),
        },
{
    if core.len() <= CORE_KEY_PREFIX {
        return Err(UnpackError::new(ErrorKind::CoreKeyTooShort));
    }
    let material = &core[CORE_KEY_PREFIX..core.len()];
    assert(material@ == core@.skip(17));
    Ok(build_key_box(material))
}

/// Derives the key box from the core key chunk.
pub fn core_key_box(chunk: &[u8]) -> (r: Result<Vec<u8>, UnpackError>)
    ensures
        match r {
            Ok(kb) => core_key_box_spec(chunk@) == Ok::<Seq<u8>, ErrorKind>(kb@) && is_byte_permutation(
                kb@,
            ),
            Err(e) => core_key_box_spec(chunk@) == Err::<Seq<u8>, ErrorKind>(e.kind)
                && e.detail@ == Seq::<char>::empty(),
        },
{
    let masked = xor_bytes(chunk, CORE_KEY_MASK);
    let core = match aes128_ecb_decrypt_padded(&CORE_BOX_KEY, masked.as_slice()) {
        Some(core) => core,
        None => return Err(UnpackError::new(ErrorKind::CoreKeyDecrypt)),
    };
    key_box_from_core(core.as_slice())
}

/// Where the Base64 text of the metadata chunk starts: just after its first ':', or at 0 where
/// it holds none.
pub open spec fn payload_start(text: Seq<u8>) -> int {
    if exists|i: int| 0 <= i < text.len() && text[i] == 0x3A {
        (choose|i: int|
            0 <= i < text.len() && text[i] == 0x3A && forall|k: int|
                0 <= k < i ==> text[k] != 0x3A) + 1
    } else {
        0
    }
}

/// The Base64 text starts just after the first ':' of the unmasked chunk, whatever follows it,
/// and at 0 where the chunk holds no ':'.
pub proof fn lemma_payload_start(head: Seq<u8>, tail: Seq<u8>)
    requires
        forall|k: int| 0 <= k < head.len() ==> head[k] != 0x3A,
    ensures
        payload_start(head + seq![0x3Au8] + tail) == head.len() + 1,
        payload_start(head) == 0,
{
    let t = head + seq![0x3Au8] + tail;
    let i = head.len() as int;
    assert(t[i] == 0x3A);
    assert(forall|k: int| 0 <= k < i ==> t[k] == head[k]);
    let c = choose|j: int| 0 <= j < t.len() && t[j] == 0x3A && forall|k: int| 0 <= k < j ==> t[k] != 0x3A;
    assert(0 <= i < t.len() && t[i] == 0x3A && forall|k: int| 0 <= k < i ==> t[k] != 0x3A);
    assert(c == i) by {
        if c < i {
            assert(t[c] == head[c]);
        } else if c > i {
            assert(t[i] != 0x3A);
        }
    }
}

/// The six bytes `music:` that may lead the decrypted metadata.
pub open spec fn music_prefix() -> Seq<u8> {
    seq![0x6Du8, 0x75u8, 0x73u8, 0x69u8, 0x63u8, 0x3Au8]
}

/// The decrypted metadata without its `music:` prefix, where it has one.
pub open spec fn strip_music_prefix(plain: Seq<u8>) -> Seq<u8> {
    if plain.len() >= 6 && plain.take(6) == music_prefix() {
        plain.skip(6)
    } else {
        plain
    }
}

/// The JSON text in decrypted metadata: at least 6 bytes, without a leading `music:`, trimmed
/// of ASCII control bytes.
pub open spec fn json_text_of_plain(plain: Seq<u8>) -> Result<Seq<u8>, ErrorKind> {
    if plain.len() < 6 {
        Err(ErrorKind::MetadataTooShort)
    } else {
        Ok(trim_ascii_control_spec(strip_music_prefix(plain)))
    }
}

/// The `music:` prefix of decrypted metadata is optional: with or without it, the JSON text is
/// the same.
pub proof fn lemma_music_prefix_optional(j: Seq<u8>)
    requires
        j.len() >= 6,
        j.take(6) != music_prefix(),
    ensures
        json_text_of_plain(music_prefix() + j) == json_text_of_plain(j),
{
    let w = music_prefix() + j;
    assert(w.take(6) == music_prefix());
    assert(w.skip(6) == j);
}

/// ASCII control bytes (but line feed, carriage return and tab) before and after decrypted
/// metadata make no difference to its JSON text.
pub proof fn lemma_control_bytes_ignored(c1: Seq<u8>, j: Seq<u8>, c2: Seq<u8>)
    requires
        c1.len() > 0,
        forall|i: int| 0 <= i < c1.len() ==> !is_kept_byte(#[trigger] c1[i]),
        forall|i: int| 0 <= i < c2.len() ==> !is_kept_byte(#[trigger] c2[i]),
        exists|i: int| 0 <= i < j.len() && is_kept_byte(#[trigger] j[i]),
        j.len() >= 6,
        j.take(6) != music_prefix(),
    ensures
        json_text_of_plain(c1 + j + c2) == json_text_of_plain(j),
{
    let w = c1 + j + c2;
    assert(w[0] == c1[0]);
    assert(w.take(6)[0] == w[0]);
    assert(music_prefix()[0] == 0x6D);
    assert(is_kept_byte(0x6Du8));
    assert(w.take(6) != music_prefix());
    lemma_trim_ascii_control_surrounded(c1, j, c2);
}

/// The Base64 text of the metadata chunk: the chunk XORed with `0x63`, from just after its first
/// ':', read as UTF-8 (invalid sequences replaced), trimmed of white space, as UTF-8 bytes.
pub open spec fn metadata_base64_text(chunk: Seq<u8>) -> Seq<u8> {
    let text = xor_all(chunk, METADATA_MASK);
    encode_utf8(trim_chars(utf8_lossy(text.skip(payload_start(text)))))
}

/// The JSON text that the metadata chunk yields: its Base64 text decoded; decrypted with
/// `MODIFY_BOX_KEY`; at least 6 bytes long; without a leading `music:`; trimmed of ASCII
/// control bytes.
pub open spec fn metadata_json_spec(chunk: Seq<u8>) -> Result<Seq<u8>, ErrorKind> {
    match base64_standard_decode(metadata_base64_text(chunk)) {
        Err(_) => Err(ErrorKind::MetadataBase64),
        Ok(cipher) => match aes128_ecb_pkcs7_decrypt(MODIFY_BOX_KEY@, cipher) {
            None => Err(ErrorKind::MetadataDecrypt),
            Some(plain) => json_text_of_plain(plain),
        },
    }
}

/// The detail of a failure to read the metadata chunk: the Base64 decoder's message where the
/// Base64 text is refused, else nothing.
pub open spec fn metadata_error_detail(chunk: Seq<u8>) -> Seq<char> {
    match base64_standard_decode(metadata_base64_text(chunk)) {
        Err(text) => text,
        Ok(_) => Seq::empty(),
    }
}

fn find_payload_start(text: &[u8]) -> (start: usize)
    ensures
        start == payload_start(text@),
        start <= text@.len(),
{
    let n = text.len();
    let mut i: usize = 0;
    while i < n
        invariant
            i <= n == text@.len(),
            forall|k: int| 0 <= k < i ==> text@[k] != 0x3A,
        decreases n - i,
    {
        if text[i] == 0x3A {
            let ghost c = choose|j: int|
                0 <= j < text@.len() && text@[j] == 0x3A && forall|k: int|
                    0 <= k < j ==> text@[k] != 0x3A;
            assert(0 <= i < text@.len() && text@[i as int] == 0x3A && forall|k: int|
                0 <= k < i ==> text@[k] != 0x3A);
            assert(c == i as int) by {
                if c < i {
                    assert(text@[c] != 0x3A);
                } else if c > i {
                    assert(text@[i as int] != 0x3A);
                }
            }
            return i + 1;
        }
        i = i + 1;
    }
    0
}

fn has_music_prefix(plain: &[u8]) -> (r: bool)
    ensures
        r == (plain@.len() >= 6 && plain@.take(6) == music_prefix()),
{
    if plain.len() < 6 {
        return false;
    }
    let r = plain[0] == 0x6D && plain[1] == 0x75 && plain[2] == 0x73 && plain[3] == 0x69 && plain[4]
        == 0x63 && plain[5] == 0x3A;
    assert(r ==> plain@.take(6) == music_prefix());
    assert(plain@.take(6) == music_prefix() ==> plain@.take(6)[0] == 0x6D && plain@.take(6)[5]
        == 0x3A && plain@.take(6)[1] == 0x75 && plain@.take(6)[2] == 0x73 && plain@.take(6)[3]
        == 0x69 && plain@.take(6)[4] == 0x63);
    r
}

/// Extracts the JSON text of the metadata from the metadata chunk.
pub fn metadata_json_text(chunk: &[u8]) -> (r: Result<Vec<u8>, UnpackError>)
    ensures
        match r {
            Ok(json) => metadata_json_spec(chunk@) == Ok::<Seq<u8>, ErrorKind>(json@),
            Err(e) => {
                &&& metadata_json_spec(chunk@) == Err::<Seq<u8>, ErrorKind>(e.kind)
                &&& e.detail@ == metadata_error_detail(chunk@)
            },
        },
{
    let text = xor_bytes(chunk, METADATA_MASK);
    let start = find_payload_start(text.as_slice());
    let tail = &text.as_slice()[start..text.len()];
    assert(tail@ == text@.skip(start as int));
    let lossy = utf8_lossy_string(tail);
    let trimmed = trim_str(lossy.as_str());
    let encoded = trimmed.as_bytes();
    assert(encoded@ == metadata_base64_text(chunk@));
    let cipher = match base64_standard_decode_bytes(encoded) {
        Ok(cipher) => cipher,
        Err(detail) => {
            return Err(UnpackError { kind: ErrorKind::MetadataBase64, detail });
        },
    };
    let plain = match aes128_ecb_decrypt_padded(&MODIFY_BOX_KEY, cipher.as_slice()) {
        Some(plain) => plain,
        None => return Err(UnpackError::new(ErrorKind::MetadataDecrypt)),
    };
    json_text_from_plain(plain.as_slice())
}

/// Extracts the JSON text from decrypted metadata.
pub fn json_text_from_plain(plain: &[u8]) -> (r: Result<Vec<u8>, UnpackError>)
    ensures
        match r {
            Ok(json) => json_text_of_plain(plain@) == Ok::<Seq<u8>, ErrorKind>(json@),
            Err(e) => json_text_of_plain(plain@) == Err::<Seq<u8>, ErrorKind>(e.kind)
                && e.detail@ == Seq::<char>::empty(),
        },
{
    if plain.len() < 6 {
        return Err(UnpackError::new(ErrorKind::MetadataTooShort));
    }
    let payload = if has_music_prefix(plain) {
        let p = &plain[6..plain.len()];
        assert(p@ == plain@.skip(6));
        p
    } else {
        plain
    };
    let json = trim_ascii_control(payload);
    Ok(vstd::slice::slice_to_vec(json))
}

} // verus!
