use audio_unpack::output::{
    detect_mime_type, has_supported_extension, output_extension, skip_existing, tag_format,
    tag_plan, FileOutcome, Summary, TagFormat,
};
use audio_unpack::metadata::{parse_metadata, JsonValue};
use audio_unpack::text::{join_strings, str_equal, trim_ascii_control, trim_str};

#[test]
fn mime_types() {
    assert_eq!(detect_mime_type(&[0xFF, 0xD8, 0xFF, 0x00]), "image/jpeg");
    assert_eq!(detect_mime_type(&[0x89, b'P', b'N', b'G', 0x0D]), "image/png");
    assert_eq!(detect_mime_type(b"GIF87a..."), "image/gif");
    assert_eq!(detect_mime_type(b"GIF89a"), "image/gif");
    assert_eq!(detect_mime_type(b"GIF88a"), "application/octet-stream");
    assert_eq!(detect_mime_type(b"BM"), "image/bmp");
    assert_eq!(detect_mime_type(&[0xFF, 0xD8]), "application/octet-stream");
    assert_eq!(detect_mime_type(&[]), "application/octet-stream");
}

#[test]
fn output_extension_is_trimmed_lower_case() {
    assert_eq!(output_extension(" FLAC "), Some("flac".to_string()));
    assert_eq!(output_extension("Mp3"), Some("mp3".to_string()));
    assert_eq!(output_extension(" \t "), None);
    assert_eq!(output_extension(""), None);
}

#[test]
fn tag_formats() {
    assert_eq!(tag_format("mp3"), Ok(TagFormat::Mp3));
    assert_eq!(tag_format("flac"), Ok(TagFormat::Flac));
    assert_eq!(tag_format("MP3"), Ok(TagFormat::Mp3));
    assert_eq!(tag_format(" FLaC "), Ok(TagFormat::Flac));
    assert_eq!(
        tag_format("mp4"),
        Err("tag writing is not implemented for format mp4".to_string())
    );
    assert_eq!(
        tag_format("ogg"),
        Err("tag writing is not implemented for format ogg".to_string())
    );
}

#[test]
fn tag_plans() {
    let value = JsonValue::Object(vec![
        ("format".to_string(), JsonValue::Str("mp3".to_string())),
        ("musicName".to_string(), JsonValue::Str("T".to_string())),
        (
            "artist".to_string(),
            JsonValue::Array(vec![JsonValue::Str("A".to_string()), JsonValue::Str("B".to_string())]),
        ),
    ]);
    let mut warnings = Vec::new();
    let m = parse_metadata(&value, true, &mut warnings).unwrap();
    let plan = tag_plan(&m, &[0x89, b'P', b'N', b'G'], TagFormat::Mp3);
    assert_eq!(plan.title.as_deref(), Some("T"));
    assert_eq!(plan.album, None);
    assert_eq!(plan.artists, vec!["A".to_string(), "B".to_string()]);
    assert_eq!(plan.joined_artists.as_deref(), Some("A/B"));
    assert_eq!(plan.cover_mime, Some("image/png"));
    assert!(!plan.clear_text_fields);

    let empty = parse_metadata(&JsonValue::Null, false, &mut warnings).unwrap();
    let plan = tag_plan(&empty, &[], TagFormat::Flac);
    assert_eq!(plan.title, None);
    assert!(plan.artists.is_empty());
    assert_eq!(plan.joined_artists, None);
    assert_eq!(plan.cover_mime, None);
    assert!(plan.clear_text_fields);
}

#[test]
fn supported_extensions() {
    assert!(has_supported_extension("song.ncm"));
    assert!(has_supported_extension("Song.NCM"));
    assert!(has_supported_extension("a.b.nCm"));
    assert!(has_supported_extension("..ncm"));
    assert!(!has_supported_extension(".ncm"));
    assert!(!has_supported_extension("song.ncm.mp3"));
    assert!(!has_supported_extension("ncm"));
    assert!(!has_supported_extension("song.ncmx"));
    assert!(!has_supported_extension("song."));
    assert!(!has_supported_extension(""));
}

#[test]
fn existing_outputs_are_skipped_unless_overwriting() {
    assert!(skip_existing(true, false));
    assert!(!skip_existing(true, true));
    assert!(!skip_existing(false, false));
    assert!(!skip_existing(false, true));
}

#[test]
fn summary_counts_each_file_once() {
    let mut summary = Summary::new();
    summary.record(FileOutcome::Decoded(2));
    summary.record(FileOutcome::Decoded(0));
    summary.record(FileOutcome::Skipped);
    assert_eq!(summary.exit_code(), 0);
    summary.record(FileOutcome::Failed);
    assert_eq!(
        summary,
        Summary { success: 2, skipped: 1, failed: 1, warnings: 2 }
    );
    assert_eq!(summary.exit_code(), 1);
}

#[test]
fn trimming_text() {
    assert_eq!(trim_str("\u{a0} a b \u{2029}\n"), "a b");
    assert_eq!(trim_str("   "), "");
    assert_eq!(trim_str("x"), "x");
    assert_eq!(trim_str(" \u{3000}ab\u{200a}\t"), "ab");
}

#[test]
fn trimming_control_bytes() {
    assert_eq!(trim_ascii_control(b"\x00\x01{}\x10\x7f"), b"{}");
    assert_eq!(trim_ascii_control(b"\x00\n{}\r\x05"), b"\n{}\r");
    assert_eq!(trim_ascii_control(b"\x00\x01\x02"), b"\x00\x01\x02");
    assert_eq!(trim_ascii_control(b""), b"");
}

#[test]
fn joining_and_comparing() {
    let parts = vec!["A".to_string(), "B".to_string(), "C".to_string()];
    assert_eq!(join_strings(&parts, "/"), "A/B/C");
    assert_eq!(join_strings(&vec![], "/"), "");
    assert_eq!(join_strings(&vec!["only".to_string()], "/"), "only");
    assert!(str_equal("héllo", "héllo"));
    assert!(!str_equal("hello", "hell"));
}
