use audio_unpack::error::ErrorKind;
use audio_unpack::metadata::{get, parse_artists, parse_json_text, parse_metadata, read_metadata, JsonValue};
use audio_unpack::container::{json_text_from_plain, key_box_from_core};

fn s(text: &str) -> JsonValue {
    JsonValue::Str(text.to_string())
}

fn obj(members: Vec<(&str, JsonValue)>) -> JsonValue {
    JsonValue::Object(members.into_iter().map(|(k, v)| (k.to_string(), v)).collect())
}

#[test]
fn full_metadata_is_read_and_trimmed() {
    let value = obj(vec![
        ("format", s(" flac ")),
        ("musicName", s("\u{3000}Song\t")),
        ("album", s("Album")),
        (
            "artist",
            JsonValue::Array(vec![
                JsonValue::Array(vec![s(" First "), JsonValue::Number("1".to_string())]),
                s("Second"),
            ]),
        ),
    ]);
    let mut warnings = Vec::new();
    let m = parse_metadata(&value, true, &mut warnings).unwrap();
    assert_eq!(m.format(), "flac");
    assert_eq!(m.title(), Some("Song"));
    assert_eq!(m.album(), Some("Album"));
    assert_eq!(m.artists(), &vec!["First".to_string(), "Second".to_string()]);
    assert!(warnings.is_empty());
}

#[test]
fn missing_format_falls_back_to_mp3_with_a_warning() {
    let value = obj(vec![("musicName", s("Song"))]);
    let mut warnings = vec!["earlier".to_string()];
    let m = parse_metadata(&value, false, &mut warnings).unwrap();
    assert_eq!(m.format(), "mp3");
    assert_eq!(
        warnings,
        vec!["earlier".to_string(), "metadata is missing format, falling back to mp3".to_string()]
    );
}

#[test]
fn blank_or_non_string_format_counts_as_missing() {
    for format in [s("   "), JsonValue::Number("3".to_string()), JsonValue::Null] {
        let value = obj(vec![("format", format)]);
        let mut warnings = Vec::new();
        let m = parse_metadata(&value, false, &mut warnings).unwrap();
        assert_eq!(m.format(), "mp3");
        assert_eq!(warnings.len(), 1);
    }
}

#[test]
fn missing_format_is_an_error_when_strict() {
    let value = obj(vec![("artist", s("not an array"))]);
    let mut warnings = Vec::new();
    let err = parse_metadata(&value, true, &mut warnings).unwrap_err();
    assert_eq!(err.kind, ErrorKind::MissingFormat);
    assert_eq!(err.message(), "metadata is missing format");
    assert_eq!(warnings, vec!["artist field is not an array".to_string()]);
}

#[test]
fn metadata_of_a_non_object_is_empty() {
    let mut warnings = Vec::new();
    let m = parse_metadata(&JsonValue::Array(vec![]), false, &mut warnings).unwrap();
    assert_eq!(m.format(), "mp3");
    assert_eq!(m.title(), None);
    assert_eq!(m.album(), None);
    assert!(m.artists().is_empty());
}

#[test]
fn artist_shapes() {
    let value = obj(vec![(
        "artist",
        JsonValue::Array(vec![
            JsonValue::Array(vec![s("A"), JsonValue::Number("5".to_string())]),
            JsonValue::Array(vec![]),
            JsonValue::Array(vec![JsonValue::Number("5".to_string())]),
            s("  "),
            JsonValue::Bool(true),
            s(" B "),
            JsonValue::Object(vec![]),
        ]),
    )]);
    let mut warnings = Vec::new();
    let artists = parse_artists(&value, &mut warnings);
    assert_eq!(artists, vec!["A".to_string(), "B".to_string()]);
    assert_eq!(
        warnings,
        vec![
            "artist item has unsupported shape".to_string(),
            "artist item has unsupported shape".to_string()
        ]
    );
}

#[test]
fn absent_artist_gives_nothing() {
    let mut warnings = Vec::new();
    assert!(parse_artists(&obj(vec![]), &mut warnings).is_empty());
    assert!(warnings.is_empty());
}

#[test]
fn artist_not_an_array_warns() {
    let mut warnings = Vec::new();
    assert!(parse_artists(&obj(vec![("artist", JsonValue::Null)]), &mut warnings).is_empty());
    assert_eq!(warnings, vec!["artist field is not an array".to_string()]);
}

#[test]
fn get_finds_the_member_by_exact_name() {
    let value = obj(vec![("a", s("1")), ("format", s("2"))]);
    assert!(matches!(get(&value, "format"), Some(JsonValue::Str(t)) if t == "2"));
    assert!(get(&value, "Format").is_none());
    assert!(get(&s("x"), "format").is_none());
}

#[test]
fn read_metadata_parses_the_json_text() {
    let text = br#"{"format":" FLAC ","musicName":"Song","artist":[["A",1],7]}"#;
    let mut warnings = Vec::new();
    let m = read_metadata(text, false, &mut warnings).unwrap();
    assert_eq!(m.format(), "FLAC");
    assert_eq!(m.title(), Some("Song"));
    assert_eq!(m.artists(), &vec!["A".to_string()]);
    assert_eq!(warnings, vec!["artist item has unsupported shape".to_string()]);
}

#[test]
fn read_metadata_rejects_text_that_is_not_json() {
    let mut warnings = vec!["kept".to_string()];
    let err = read_metadata(b"{not json", false, &mut warnings).unwrap_err();
    assert_eq!(err.kind, ErrorKind::MetadataJson);
    assert!(!err.detail.is_empty());
    assert_eq!(err.message(), format!("failed to parse metadata JSON: {}", err.detail));
    assert_eq!(warnings, vec!["kept".to_string()]);
}

#[test]
fn read_metadata_strict_without_format_fails() {
    let mut warnings = Vec::new();
    let err = read_metadata(br#"{"album":"X"}"#, true, &mut warnings).unwrap_err();
    assert_eq!(err.kind, ErrorKind::MissingFormat);
}

#[test]
fn parse_json_text_models_values() {
    let v = parse_json_text(br#"{"a":[1,"x",null,true],"b":{}}"#).unwrap();
    match v {
        JsonValue::Object(members) => {
            assert_eq!(members.len(), 2);
            assert_eq!(members[0].0, "a");
            match &members[0].1 {
                JsonValue::Array(items) => {
                    assert!(matches!(&items[0], JsonValue::Number(n) if n == "1"));
                    assert!(matches!(&items[1], JsonValue::Str(s) if s == "x"));
                    assert!(matches!(&items[2], JsonValue::Null));
                    assert!(matches!(&items[3], JsonValue::Bool(true)));
                }
                _ => panic!("expected an array"),
            }
            assert!(matches!(&members[1].1, JsonValue::Object(m) if m.is_empty()));
        }
        _ => panic!("expected an object"),
    }
    assert!(parse_json_text(b"").is_err());
}

#[test]
fn key_box_from_core_needs_material() {
    let short = [0_u8; 17];
    assert_eq!(key_box_from_core(&short).unwrap_err().kind, ErrorKind::CoreKeyTooShort);
    let mut core = vec![0_u8; 17];
    core.extend_from_slice(b"k");
    let kb = key_box_from_core(&core).unwrap();
    assert_eq!(kb, audio_unpack::keybox::build_key_box(b"k"));
}

#[test]
fn json_text_from_plain_strips_prefix_and_control_bytes() {
    assert_eq!(json_text_from_plain(b"music:{\"a\":1}").unwrap(), b"{\"a\":1}");
    assert_eq!(json_text_from_plain(b"\x01{\"a\":1}\x00").unwrap(), b"{\"a\":1}");
    assert_eq!(json_text_from_plain(b"{\"ab\"}").unwrap(), b"{\"ab\"}");
    assert_eq!(json_text_from_plain(b"music").unwrap_err().kind, ErrorKind::MetadataTooShort);
    assert_eq!(json_text_from_plain(b"music:").unwrap(), b"");
}
