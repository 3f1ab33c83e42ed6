use aes::cipher::block_padding::Pkcs7;
use aes::cipher::{BlockEncryptMut, KeyInit};
use aes::Aes128;
use base64::Engine;

use audio_unpack::container::{
    chunk_length, core_key_box, metadata_json_text, xor_bytes, CORE_BOX_KEY, MAGIC, MODIFY_BOX_KEY,
};
use audio_unpack::decoder::NcmDecoder;
use audio_unpack::error::ErrorKind;
use audio_unpack::header::{HeaderReader, HeaderStep};
use audio_unpack::keybox::{apply_keystream_in_place, build_key_box};
use audio_unpack::metadata::{parse_metadata, JsonValue};

fn encrypt(key: &[u8; 16], data: &[u8]) -> Vec<u8> {
    let mut buf = vec![0_u8; data.len() + 16];
    buf[..data.len()].copy_from_slice(data);
    let ct = ecb::Encryptor::<Aes128>::new(key.into())
        .encrypt_padded_mut::<Pkcs7>(&mut buf, data.len())
        .unwrap();
    ct.to_vec()
}

fn reference_key_box(key_material: &[u8]) -> Vec<u8> {
    let mut key_box: Vec<u8> = (0..=255u8).collect();
    let mut last_byte = 0_u8;
    let mut key_offset = 0_usize;
    for i in 0..256 {
        let swap = key_box[i];
        let c = ((swap as usize + last_byte as usize + key_material[key_offset] as usize) & 0xff) as u8;
        key_offset += 1;
        if key_offset >= key_material.len() {
            key_offset = 0;
        }
        key_box[i] = key_box[c as usize];
        key_box[c as usize] = swap;
        last_byte = c;
    }
    key_box
}

fn reference_decrypt(key_box: &[u8], data: &[u8]) -> Vec<u8> {
    data.iter()
        .enumerate()
        .map(|(i, byte)| {
            let j = (i + 1) & 0xff;
            let index = (key_box[j] as usize + key_box[(key_box[j] as usize + j) & 0xff] as usize) & 0xff;
            byte ^ key_box[index]
        })
        .collect()
}

fn core_chunk(material: &[u8]) -> Vec<u8> {
    let mut core = b"neteasecloudmusic".to_vec();
    core.extend_from_slice(material);
    xor_bytes(&encrypt(&CORE_BOX_KEY, &core), 0x64)
}

fn metadata_chunk(json: &str) -> Vec<u8> {
    let mut plain = b"music:".to_vec();
    plain.extend_from_slice(json.as_bytes());
    let cipher = encrypt(&MODIFY_BOX_KEY, &plain);
    let mut text = b"163 key(Don't modify):".to_vec();
    text.extend_from_slice(base64::engine::general_purpose::STANDARD.encode(cipher).as_bytes());
    xor_bytes(&text, 0x63)
}

fn le(n: usize) -> Vec<u8> {
    (n as u32).to_le_bytes().to_vec()
}

#[test]
fn key_box_matches_schedule_and_is_a_permutation() {
    let material = b"3177261984957E7fT49x7dof9OKCgg9cdvhEuezy3iZCL1nFvBFd1T4uSktAJKmwZXsijPbijliionVUXXg9plTbXEclAE9Lb";
    let kb = build_key_box(material);
    assert_eq!(kb, reference_key_box(material));
    let mut sorted = kb.clone();
    sorted.sort();
    assert_eq!(sorted, (0..=255u8).collect::<Vec<_>>());
}

#[test]
fn key_box_of_single_byte_material() {
    let kb = build_key_box(&[7]);
    assert_eq!(kb, reference_key_box(&[7]));
    assert_eq!(kb.len(), 256);
}

#[test]
fn keystream_matches_reference_and_undoes_itself() {
    let kb = reference_key_box(b"abc");
    let data: Vec<u8> = (0..1000u32).map(|i| (i * 7 % 251) as u8).collect();
    let mut buf = data.clone();
    apply_keystream_in_place(&kb, 0, &mut buf);
    assert_eq!(buf, reference_decrypt(&kb, &data));
    assert_ne!(buf, data);
    apply_keystream_in_place(&kb, 0, &mut buf);
    assert_eq!(buf, data);
}

#[test]
fn keystream_in_pieces_equals_whole() {
    let kb = reference_key_box(b"key material");
    let data: Vec<u8> = (0..1300u32).map(|i| (i % 256) as u8).collect();
    let mut whole = data.clone();
    apply_keystream_in_place(&kb, 0, &mut whole);
    let mut head = data[..517].to_vec();
    let mut tail = data[517..].to_vec();
    apply_keystream_in_place(&kb, 0, &mut head);
    apply_keystream_in_place(&kb, 517, &mut tail);
    head.extend_from_slice(&tail);
    assert_eq!(head, whole);
}

#[test]
fn key_box_ignores_repetition_and_bytes_past_256() {
    let material: Vec<u8> = (0..300u32).map(|i| (i * 13 % 256) as u8).collect();
    assert_eq!(build_key_box(&material), build_key_box(&material[..256]));
    let short = b"short key";
    let twice = [&short[..], &short[..]].concat();
    assert_eq!(build_key_box(&twice), build_key_box(short));
}

#[test]
fn chunk_length_is_little_endian() {
    assert_eq!(chunk_length(&[0x01, 0x02, 0x03, 0x04]), 0x04030201);
    assert_eq!(chunk_length(&[0xff, 0xff, 0xff, 0xff]), 0xffff_ffff);
    assert_eq!(chunk_length(&[0, 0, 0, 0]), 0);
}

#[test]
fn core_key_box_decrypts_the_chunk() {
    let material = b"0123456789abcdef-material";
    let kb = core_key_box(&core_chunk(material)).unwrap();
    assert_eq!(kb, reference_key_box(material));
}

#[test]
fn core_key_without_material_is_too_short() {
    let err = core_key_box(&core_chunk(b"")).unwrap_err();
    assert_eq!(err.kind, ErrorKind::CoreKeyTooShort);
    assert_eq!(err.message(), "core key chunk is too short");
}

#[test]
fn core_key_of_bad_length_does_not_decrypt() {
    let err = core_key_box(&[1, 2, 3]).unwrap_err();
    assert_eq!(err.kind, ErrorKind::CoreKeyDecrypt);
    assert_eq!(err.message(), "failed to decrypt core key chunk: invalid PKCS7 padding");
    let err = core_key_box(&[]).unwrap_err();
    assert_eq!(err.kind, ErrorKind::CoreKeyDecrypt);
}

#[test]
fn core_key_with_bad_padding_does_not_decrypt() {
    // A block that decrypts to garbage padding: encrypt 16 bytes ending in 0 without padding.
    let mut block = [0_u8; 16];
    ecb::Encryptor::<Aes128>::new((&CORE_BOX_KEY).into())
        .encrypt_padded_mut::<aes::cipher::block_padding::NoPadding>(&mut block, 16)
        .unwrap();
    let chunk = xor_bytes(&block, 0x64);
    assert_eq!(core_key_box(&chunk).unwrap_err().kind, ErrorKind::CoreKeyDecrypt);
}

#[test]
fn metadata_text_is_decrypted_and_stripped() {
    let json = r#"{"format":"flac","musicName":"Song"}"#;
    let text = metadata_json_text(&metadata_chunk(json)).unwrap();
    assert_eq!(text, json.as_bytes());
}

#[test]
fn metadata_text_without_colon_starts_at_zero() {
    let plain = b"music:{\"format\":\"mp3\"}\x01\x02";
    let encoded = base64::engine::general_purpose::STANDARD.encode(encrypt(&MODIFY_BOX_KEY, plain));
    let chunk = xor_bytes(format!("  {}\n", encoded).as_bytes(), 0x63);
    assert_eq!(metadata_json_text(&chunk).unwrap(), b"{\"format\":\"mp3\"}");
}

#[test]
fn metadata_text_trims_unicode_white_space_around_base64() {
    let plain = b"{\"format\":\"mp3\"}";
    let encoded = base64::engine::general_purpose::STANDARD.encode(encrypt(&MODIFY_BOX_KEY, plain));
    let chunk = xor_bytes(format!("x:\u{3000}{}\u{a0}", encoded).as_bytes(), 0x63);
    assert_eq!(metadata_json_text(&chunk).unwrap(), plain);
}

#[test]
fn metadata_text_errors() {
    let bad = xor_bytes(b"key:not*base64", 0x63);
    let err = metadata_json_text(&bad).unwrap_err();
    assert_eq!(err.kind, ErrorKind::MetadataBase64);
    assert!(err.message().starts_with("failed to decode metadata base64: "));
    assert!(err.message().len() > "failed to decode metadata base64: ".len());

    let not_blocks = xor_bytes(b"k:AAAA", 0x63);
    let err = metadata_json_text(&not_blocks).unwrap_err();
    assert_eq!(err.kind, ErrorKind::MetadataDecrypt);
    assert_eq!(err.message(), "failed to decrypt metadata chunk: invalid PKCS7 padding");

    let short = base64::engine::general_purpose::STANDARD.encode(encrypt(&MODIFY_BOX_KEY, b"abc"));
    let err = metadata_json_text(&xor_bytes(format!(":{}", short).as_bytes(), 0x63)).unwrap_err();
    assert_eq!(err.kind, ErrorKind::MetadataTooShort);
    assert_eq!(err.message(), "metadata chunk is too short");
}

#[test]
fn metadata_text_reads_invalid_utf8_as_replacement_characters() {
    let chunk = xor_bytes(b"k:\xFF", 0x63);
    let err = metadata_json_text(&chunk).unwrap_err();
    assert_eq!(err.kind, ErrorKind::MetadataBase64);
    assert_eq!(err.detail, "Invalid symbol 239, offset 0.");
    assert_eq!(err.message(), "failed to decode metadata base64: Invalid symbol 239, offset 0.");
}

fn container(material: &[u8], json: &str, cover: &[u8]) -> Vec<Vec<u8>> {
    let core = core_chunk(material);
    let meta = metadata_chunk(json);
    vec![
        MAGIC.to_vec(),
        vec![1, 2],
        le(core.len()),
        core,
        le(meta.len()),
        meta,
        vec![9; 9],
        le(cover.len()),
        cover.to_vec(),
    ]
}

#[test]
fn header_reader_reads_a_container() {
    let material = b"some key material";
    let json = r#"{"format":"mp3","musicName":" Title ","album":"Album","artist":[["A",1],["B",2]]}"#;
    let cover = [0xFF, 0xD8, 0xFF, 0xE0, 1, 2, 3];
    let fields = container(material, json, &cover);
    let mut reader = HeaderReader::new();
    let mut json_seen = None;
    for field in &fields {
        assert_eq!(reader.request(), Some(field.len()));
        reader = reader.feed(field).unwrap();
        if reader.step() == HeaderStep::CoverGap {
            json_seen = Some(reader.metadata_json().to_vec());
        }
    }
    assert_eq!(reader.step(), HeaderStep::Done);
    assert_eq!(reader.request(), None);
    assert_eq!(json_seen.unwrap(), json.as_bytes());
    assert_eq!(reader.cover(), &cover);

    let value = JsonValue::Object(vec![(String::from("format"), JsonValue::Str(String::from("mp3")))]);
    let mut warnings = Vec::new();
    let metadata = parse_metadata(&value, false, &mut warnings).unwrap();
    let mut decoder = NcmDecoder::new(reader, metadata, warnings);
    let audio: Vec<u8> = (0..700u32).map(|i| (i % 200) as u8).collect();
    // Short, unaligned buffers: the keystream follows the position in the stream.
    let mut decrypted = Vec::new();
    for piece in audio.chunks(77) {
        let mut buf = piece.to_vec();
        decoder.decrypt_buffer(&mut buf);
        decrypted.extend_from_slice(&buf);
    }
    assert_eq!(decrypted, reference_decrypt(&reference_key_box(material), &audio));
    assert_eq!(decoder.cover(), &cover);
    assert_eq!(decoder.metadata().format(), "mp3");
}

#[test]
fn header_reader_rejects_bad_magic() {
    let reader = HeaderReader::new();
    assert_eq!(reader.request(), Some(8));
    let err = reader.feed(b"CTENFDAX").unwrap_err();
    assert_eq!(err.kind, ErrorKind::InvalidContainer);
    assert_eq!(err.message(), "not a valid supported container file");
}

#[test]
fn header_reader_asks_for_announced_lengths() {
    let mut reader = HeaderReader::new();
    reader = reader.feed(&MAGIC).unwrap();
    assert_eq!(reader.request(), Some(2));
    reader = reader.feed(&[0, 0]).unwrap();
    assert_eq!(reader.request(), Some(4));
    reader = reader.feed(&[0x10, 0x01, 0, 0]).unwrap();
    assert_eq!(reader.step(), HeaderStep::CoreKey);
    assert_eq!(reader.request(), Some(0x110));
}

#[test]
fn finish_turns_tag_failures_into_warnings_unless_strict() {
    let make = || {
        let fields = container(b"m", r#"{}"#, b"");
        let mut reader = HeaderReader::new();
        for field in &fields {
            reader = reader.feed(field).unwrap();
        }
        let value = JsonValue::Object(vec![]);
        let mut warnings = Vec::new();
        let metadata = parse_metadata(&value, false, &mut warnings).unwrap();
        NcmDecoder::new(reader, metadata, warnings)
    };
    let ok = make().finish(None, true).unwrap();
    assert_eq!(ok, vec!["metadata is missing format, falling back to mp3".to_string()]);
    let lenient = make().finish(Some("boom".to_string()), false).unwrap();
    assert_eq!(
        lenient,
        vec![
            "metadata is missing format, falling back to mp3".to_string(),
            "failed to write metadata: boom".to_string()
        ]
    );
    let strict = make().finish(Some("boom".to_string()), true).unwrap_err();
    assert_eq!(strict, "failed to write metadata: boom");
}
