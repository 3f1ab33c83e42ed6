//! The song's metadata, read from the JSON text that the container carries.

use vstd::prelude::*;
use vstd::string::*;

use crate::container::{
    json_text_of_plain, lemma_control_bytes_ignored, lemma_music_prefix_optional, music_prefix,
};
use crate::error::{ErrorKind, UnpackError};
use crate::text::{is_kept_byte, is_white_space_char, lemma_trim_chars_shape, lemma_trim_chars_fixed, lemma_trim_chars_idempotent, str_equal, texts, trim_chars, trim_str};

verus! {

/// A JSON value. Numbers are kept as their text; an object keeps its members in order, and a
/// member is looked up as the first one of its name.
#[derive(Debug)]
pub enum JsonValue {
    Null,
    Bool(bool),
    Number(String),
    Str(String),
    Array(Vec<JsonValue>),
    Object(Vec<(String, JsonValue)>),
}

/// The value of the first member of `members` named `key`.
pub open spec fn lookup(members: Seq<(String, JsonValue)>, key: Seq<char>) -> Option<JsonValue>
    decreases members.len(),
{
    if members.len() == 0 {
        None
    } else if members[0].0@ == key {
        Some(members[0].1)
    } else {
        lookup(members.drop_first(), key)
    }
}

/// The member `key` of an object; `None` for a value that is no object.
pub open spec fn json_get(value: JsonValue, key: Seq<char>) -> Option<JsonValue> {
    match value {
        JsonValue::Object(members) => lookup(members@, key),
        _ => None,
    }
}

/// The trimmed text of the member `key`, where it is a string with something besides white space.
pub open spec fn text_field(value: JsonValue, key: Seq<char>) -> Option<Seq<char>> {
    match json_get(value, key) {
        Some(JsonValue::Str(s)) => if trim_chars(s@).len() > 0 {
            Some(trim_chars(s@))
        } else {
            None
        },
        _ => None,
    }
}

/// What one item of the `artist` array contributes: a name, nothing, or (for an item of an
/// unsupported shape) `None`. A string item gives its trimmed text; an array item gives the
/// trimmed text of its first element where that is a string; empty texts give nothing.
pub open spec fn artist_item(item: JsonValue) -> Option<Option<Seq<char>>> {
    match item {
        JsonValue::Array(parts) => if parts@.len() > 0 && parts@[0] is Str && trim_chars(
            parts@[0]->Str_0@,
        ).len() > 0 {
            Some(Some(trim_chars(parts@[0]->Str_0@)))
        } else {
            Some(None)
        },
        JsonValue::Str(name) => if trim_chars(name@).len() > 0 {
            Some(Some(trim_chars(name@)))
        } else {
            Some(None)
        },
        _ => None,
    }
}

/// A member is found as the first one of its name, wherever it stands; a name that no member has
/// is not found.
pub proof fn lemma_lookup(members: Seq<(String, JsonValue)>, key: Seq<char>, i: int)
    requires
        0 <= i < members.len(),
        members[i].0@ == key,
        forall|j: int| 0 <= j < i ==> members[j].0@ != key,
    ensures
        lookup(members, key) == Some(members[i].1),
    decreases i,
{
    if i > 0 {
        let d = members.drop_first();
        assert forall|j: int| 0 <= j < i - 1 implies d[j].0@ != key by {
            assert(d[j] == members[j + 1]);
        }
        assert(d[i - 1] == members[i]);
        lemma_lookup(d, key, i - 1);
    }
}

/// A name that no member has is not found.
pub proof fn lemma_lookup_absent(members: Seq<(String, JsonValue)>, key: Seq<char>)
    requires
        forall|j: int| 0 <= j < members.len() ==> members[j].0@ != key,
    ensures
        lookup(members, key) is None,
    decreases members.len(),
{
    if members.len() > 0 {
        let d = members.drop_first();
        assert forall|j: int| 0 <= j < d.len() implies d[j].0@ != key by {
            assert(d[j] == members[j + 1]);
        }
        lemma_lookup_absent(d, key);
    }
}

/// A text member is read with white space removed at its ends only: a string that does not
/// start or end with white space is read as it is; a string of white space only, or a member that
/// is no string, gives nothing; and what is read is a non-empty part of the string between a
/// white-space prefix and a white-space suffix.
pub proof fn lemma_text_field(value: JsonValue, key: Seq<char>)
    ensures
        match json_get(value, key) {
            Some(JsonValue::Str(s)) => {
                &&& s@.len() > 0 && !is_white_space_char(s@[0]) && !is_white_space_char(s@.last())
                    ==> text_field(value, key) == Some(s@)
                &&& (forall|k: int| 0 <= k < s@.len() ==> is_white_space_char(#[trigger] s@[k]))
                    ==> text_field(value, key) is None
                &&& text_field(value, key) matches Some(t) ==> {
                    &&& t.len() > 0
                    &&& !is_white_space_char(t[0]) && !is_white_space_char(t.last())
                    &&& exists|a: int, b: int|
                        {
                            &&& 0 <= a <= b <= s@.len()
                            &&& t == s@.subrange(a, b)
                            &&& forall|k: int| 0 <= k < a ==> is_white_space_char(#[trigger] s@[k])
                            &&& forall|k: int|
                                b <= k < s@.len() ==> is_white_space_char(#[trigger] s@[k])
                        }
                }
            },
            _ => text_field(value, key) is None,
        },
{
    match json_get(value, key) {
        Some(JsonValue::Str(s)) => {
            lemma_trim_chars_shape(s@);
            if forall|k: int| 0 <= k < s@.len() ==> is_white_space_char(#[trigger] s@[k]) {
                let t = trim_chars(s@);
                if t.len() > 0 {
                    let (a, b) = choose|a: int, b: int|
                        {
                            &&& 0 <= a <= b <= s@.len()
                            &&& t == s@.subrange(a, b)
                            &&& forall|k: int| 0 <= k < a ==> is_white_space_char(#[trigger] s@[k])
                            &&& forall|k: int|
                                b <= k < s@.len() ==> is_white_space_char(#[trigger] s@[k])
                        };
                    assert(t[0] == s@[a]);
                }
            }
        },
        _ => {},
    }
}

/// What an artist item gives, stated over its shape: an array whose first element is a string
/// gives that string trimmed, whatever else the array holds, and a string gives itself trimmed
/// (text that neither starts nor ends with white space comes out unchanged; blank text gives
/// nothing); an empty array or one that does not start with a string gives nothing; any other
/// item has an unsupported shape.
pub proof fn lemma_artist_item(item: JsonValue)
    ensures
        match item {
            JsonValue::Array(parts) => if parts@.len() > 0 && parts@[0] is Str {
                let name = parts@[0]->Str_0@;
                &&& trim_chars(name).len() > 0 ==> artist_item(item) == Some(Some(trim_chars(name)))
                &&& trim_chars(name).len() == 0 ==> artist_item(item) == Some(None::<Seq<char>>)
                &&& name.len() > 0 && !is_white_space_char(name[0]) && !is_white_space_char(
                    name.last(),
                ) ==> artist_item(item) == Some(Some(name))
            } else {
                artist_item(item) == Some(None::<Seq<char>>)
            },
            JsonValue::Str(name) => {
                &&& trim_chars(name@).len() > 0 ==> artist_item(item) == Some(Some(trim_chars(name@)))
                &&& trim_chars(name@).len() == 0 ==> artist_item(item) == Some(None::<Seq<char>>)
                &&& name@.len() > 0 && !is_white_space_char(name@[0]) && !is_white_space_char(
                    name@.last(),
                ) ==> artist_item(item) == Some(Some(name@))
            },
            _ => artist_item(item) is None,
        },
{
    match item {
        JsonValue::Array(parts) => {
            if parts@.len() > 0 && parts@[0] is Str {
                lemma_trim_chars_shape(parts@[0]->Str_0@);
            }
        },
        JsonValue::Str(name) => {
            lemma_trim_chars_shape(name@);
        },
        _ => {},
    }
}

/// The warning for an artist item of an unsupported shape.
pub open spec fn unsupported_artist_warning() -> Seq<char> {
    "artist item has unsupported shape"@
}

/// The warning for an `artist` member that is not an array.
pub open spec fn artist_not_array_warning() -> Seq<char> {
    "artist field is not an array"@
}

/// The warning for metadata without a format, where the format falls back to mp3.
pub open spec fn missing_format_warning() -> Seq<char> {
    "metadata is missing format, falling back to mp3"@
}

/// The artist names and the warnings that a sequence of artist items gives, in order.
pub open spec fn artists_from_items(items: Seq<JsonValue>) -> (Seq<Seq<char>>, Seq<Seq<char>>)
    decreases items.len(),
{
    if items.len() == 0 {
        (Seq::empty(), Seq::empty())
    } else {
        let prev = artists_from_items(items.drop_last());
        match artist_item(items.last()) {
            Some(Some(name)) => (prev.0.push(name), prev.1),
            Some(None) => prev,
            None => (prev.0, prev.1.push(unsupported_artist_warning())),
        }
    }
}

/// The artist names and warnings of the metadata: none without an `artist` member, a warning
/// where it is no array, else those of its items.
pub open spec fn artists_of(value: JsonValue) -> (Seq<Seq<char>>, Seq<Seq<char>>) {
    match json_get(value, "artist"@) {
        None => (Seq::empty(), Seq::empty()),
        Some(JsonValue::Array(items)) => artists_from_items(items@),
        Some(_) => (Seq::empty(), seq![artist_not_array_warning()]),
    }
}

/// The texts of optional strings.
pub open spec fn opt_text(s: Option<String>) -> Option<Seq<char>> {
    match s {
        Some(t) => Some(t@),
        None => None,
    }
}

/// What a song's metadata holds.
pub struct MetadataView {
    pub format: Seq<char>,
    pub title: Option<Seq<char>>,
    pub album: Option<Seq<char>>,
    pub artists: Seq<Seq<char>>,
}

/// The metadata of a song: its format (never empty, trimmed), and its title, album and artists,
/// each trimmed.
#[derive(Debug)]
pub struct Metadata {
    format: String,
    title: Option<String>,
    album: Option<String>,
    artists: Vec<String>,
}

impl View for Metadata {
    type V = MetadataView;

    closed spec fn view(&self) -> MetadataView {
        MetadataView {
            format: self.format@,
            title: opt_text(self.title),
            album: opt_text(self.album),
            artists: texts(self.artists@),
        }
    }
}

/// The text of an optional string slice.
pub open spec fn opt_str_text(s: Option<&str>) -> Option<Seq<char>> {
    match s {
        Some(t) => Some(t@),
        None => None,
    }
}

impl Metadata {
    /// The format is never empty and is its own trim.
    #[verifier::type_invariant]
    closed spec fn format_trimmed(self) -> bool {
        self.format@.len() > 0 && trim_chars(self.format@) == self.format@
    }

    /// The audio format, such as `mp3` or `flac`: never empty, and its own trim.
    pub fn format(&self) -> (f: &str)
        ensures
            f@ == self@.format,
            f@.len() > 0,
            trim_chars(f@) == f@,
    {
        proof {
            use_type_invariant(self);
        }
        self.format.as_str()
    }

    /// The title, where there is one.
    pub fn title(&self) -> (t: Option<&str>)
        ensures
            opt_str_text(t) == self@.title,
    {
        match &self.title {
            Some(t) => Some(t.as_str()),
            None => None,
        }
    }

    /// The album, where there is one.
    pub fn album(&self) -> (a: Option<&str>)
        ensures
            opt_str_text(a) == self@.album,
    {
        match &self.album {
            Some(a) => Some(a.as_str()),
            None => None,
        }
    }

    /// The artists, in order.
    pub fn artists(&self) -> (a: &Vec<String>)
        ensures
            texts(a@) == self@.artists,
    {
        &self.artists
    }
}

/// The member `key` of an object.
pub fn get<'a>(value: &'a JsonValue, key: &str) -> (r: Option<&'a JsonValue>)
    ensures
        match r {
            Some(v) => json_get(*value, key@) == Some(*v),
            None => json_get(*value, key@) is None,
        },
{
    match value {
        JsonValue::Object(members) => {
            let n = members.len();
            let mut i: usize = 0;
            assert(members@.skip(0) == members@);
            while i < n
                invariant
                    i <= n == members@.len(),
                    lookup(members@, key@) == lookup(members@.skip(i as int), key@),
                    json_get(*value, key@) == lookup(members@, key@),
                decreases n - i,
            {
                assert(members@.skip(i as int).drop_first() == members@.skip(i + 1));
                if str_equal(members[i].0.as_str(), key) {
                    assert(members@.skip(i as int)[0] == members@[i as int]);
                    assert(members@[i as int].0@ == key@);
                    assert(lookup(members@.skip(i as int), key@) == Some(members@[i as int].1));
                    return Some(&members[i].1);
                }
                i = i + 1;
            }
            None
        },
        _ => None,
    }
}

/// The trimmed text of the member `key`, where it is a string with something besides white space.
fn text_member(value: &JsonValue, key: &str) -> (r: Option<String>)
    ensures
        opt_text(r) == text_field(*value, key@),
{
    match get(value, key) {
        Some(JsonValue::Str(s)) => {
            let t = trim_str(s.as_str());
            if t.unicode_len() > 0 {
                Some(String::from_str(t))
            } else {
                None
            }
        },
        _ => None,
    }
}

/// The name that one artist item gives, or `Err(())` for an item of an unsupported shape.
fn artist_name(item: &JsonValue) -> (r: Result<Option<String>, ()>)
    ensures
        match r {
            Ok(name) => artist_item(*item) == Some(opt_text(name)),
            Err(_) => artist_item(*item) is None,
        },
{
    match item {
        JsonValue::Array(parts) => {
            if parts.len() > 0 {
                match &parts[0] {
                    JsonValue::Str(name) => {
                        let t = trim_str(name.as_str());
                        if t.unicode_len() > 0 {
                            return Ok(Some(String::from_str(t)));
                        }
                    },
                    _ => {},
                }
            }
            Ok(None)
        },
        JsonValue::Str(name) => {
            let t = trim_str(name.as_str());
            if t.unicode_len() > 0 {
                Ok(Some(String::from_str(t)))
            } else {
                Ok(None)
            }
        },
        _ => Err(()),
    }
}

/// Collects the artists of the metadata and appends a warning for each part that has an
/// unsupported shape.
pub fn parse_artists(value: &JsonValue, warnings: &mut Vec<String>) -> (artists: Vec<String>)
    ensures
        texts(artists@) == artists_of(*value).0,
        texts(final(warnings)@) == texts(old(warnings)@) + artists_of(*value).1,
{
    let ghost w0 = warnings@;
    let mut artists: Vec<String> = Vec::new();
    match get(value, "artist") {
        None => {
            assert(texts(warnings@) == texts(w0) + Seq::<Seq<char>>::empty());
            assert(texts(artists@) == Seq::<Seq<char>>::empty());
            artists
        },
        Some(JsonValue::Array(items)) => {
            let n = items.len();
            let mut i: usize = 0;
            while i < n
                invariant
                    i <= n == items@.len(),
                    texts(artists@) == artists_from_items(items@.take(i as int)).0,
                    texts(warnings@) == texts(w0) + artists_from_items(items@.take(i as int)).1,
                decreases n - i,
            {
                assert(items@.take(i + 1).drop_last() == items@.take(i as int));
                assert(items@.take(i + 1).last() == items@[i as int]);
                match artist_name(&items[i]) {
                    Ok(Some(name)) => {
                        artists.push(name);
                        assert(texts(artists@) == artists_from_items(items@.take(i + 1)).0);
                    },
                    Ok(None) => {},
                    Err(_) => {
                        let ghost before = warnings@;
                        let w = String::from_str("artist item has unsupported shape");
                        warnings.push(w);
                        assert(texts(warnings@) == texts(before).push(w@));
                        assert(texts(warnings@) == texts(w0) + artists_from_items(
                            items@.take(i + 1),
                        ).1);
                    },
                }
                i = i + 1;
            }
            assert(items@.take(n as int) == items@);
            artists
        },
        Some(_) => {
            let w = String::from_str("artist field is not an array");
            warnings.push(w);
            assert(texts(warnings@) == texts(w0).push(w@));
            assert(texts(warnings@) == texts(w0) + seq![artist_not_array_warning()]);
            assert(texts(artists@) == Seq::<Seq<char>>::empty());
            artists
        },
    }
}

/// The text of the member `key`, where it is a string.
pub open spec fn json_get_str(value: JsonValue, key: Seq<char>) -> Seq<char> {
    match json_get(value, key) {
        Some(JsonValue::Str(s)) => s@,
        _ => Seq::empty(),
    }
}

/// The format of the metadata: its `format` member, else `mp3`.
pub open spec fn format_or_default(value: JsonValue) -> Seq<char> {
    match text_field(value, "format"@) {
        Some(f) => f,
        None => "mp3"@,
    }
}

/// The warning that the format gives: one where it is missing.
pub open spec fn format_warnings(value: JsonValue) -> Seq<Seq<char>> {
    if text_field(value, "format"@) is None {
        seq![missing_format_warning()]
    } else {
        Seq::empty()
    }
}

/// Reads the metadata from its JSON value. Missing or empty members are left out; a missing
/// format is an error under strict metadata handling, and otherwise falls back to `mp3` with a
/// warning. Warnings are appended to `warnings`, those of the artists first.
pub fn parse_metadata(value: &JsonValue, strict_metadata: bool, warnings: &mut Vec<String>) -> (r:
    Result<Metadata, UnpackError>)
    ensures
        r is Ok <==> (!strict_metadata || text_field(*value, "format"@) is Some),
        match r {
            Ok(m) => {
                &&& m@.format == format_or_default(*value)
                &&& m@.title == text_field(*value, "musicName"@)
                &&& m@.album == text_field(*value, "album"@)
                &&& m@.artists == artists_of(*value).0
                &&& texts(final(warnings)@) == texts(old(warnings)@) + artists_of(*value).1
                    + format_warnings(*value)
            },
            Err(e) => {
                &&& e.kind == ErrorKind::MissingFormat
                &&& e.detail@ == Seq::<char>::empty()
                &&& texts(final(warnings)@) == texts(old(warnings)@) + artists_of(*value).1
            },
        },
{
    let format = text_member(value, "format");
    let title = text_member(value, "musicName");
    let album = text_member(value, "album");
    let artists = parse_artists(value, warnings);
    let format = match format {
        Some(format) => {
            proof {
                lemma_trim_chars_idempotent(json_get_str(*value, "format"@));
            }
            format
        },
        None => {
            if strict_metadata {
                return Err(UnpackError::new(ErrorKind::MissingFormat));
            }
            let ghost before = warnings@;
            let w = String::from_str("metadata is missing format, falling back to mp3");
            warnings.push(w);
            assert(texts(warnings@) == texts(before).push(w@));
            let mp3 = String::from_str("mp3");
            proof {
                reveal_strlit("mp3");
                assert(mp3@.len() == 3);
                assert(!is_white_space_char(mp3@[0]) && !is_white_space_char(mp3@[2]));
                lemma_trim_chars_fixed(mp3@);
            }
            mp3
        },
    };
    Ok(Metadata { format, title, album, artists })
}

/// What reading the metadata from its JSON value gives: the metadata, or the failure with its
/// detail.
pub open spec fn metadata_result_of_value(value: JsonValue, strict_metadata: bool) -> Result<
    MetadataView,
    (ErrorKind, Seq<char>),
> {
    if strict_metadata && text_field(value, "format"@) is None {
        Err((ErrorKind::MissingFormat, Seq::empty()))
    } else {
        Ok(
            MetadataView {
                format: format_or_default(value),
                title: text_field(value, "musicName"@),
                album: text_field(value, "album"@),
                artists: artists_of(value).0,
            },
        )
    }
}

/// The warnings that reading the metadata from its JSON value gives, in order.
pub open spec fn metadata_warnings_of_value(value: JsonValue, strict_metadata: bool) -> Seq<
    Seq<char>,
> {
    if strict_metadata && text_field(value, "format"@) is None {
        artists_of(value).1
    } else {
        artists_of(value).1 + format_warnings(value)
    }
}

/// The JSON value that a JSON text holds, or the parser's message where the text is refused.
pub uninterp spec fn json_parse(text: Seq<u8>) -> Result<JsonValue, Seq<char>>;

#[verifier::external_type_specification]
#[verifier::external_body]
pub struct ExJsonValue(serde_json::Value);

/// A `serde_json::Value` as a `JsonValue`, variant by variant: numbers by their text, arrays and
/// objects member by member, in the order in which serde_json keeps them. Nothing is claimed of
/// the result; `parse_json_text` names it.
#[verifier::external_body]
fn json_of_value(value: serde_json::Value) -> JsonValue {
    match value {
        serde_json::Value::Null => JsonValue::Null,
        serde_json::Value::Bool(b) => JsonValue::Bool(b),
        serde_json::Value::Number(n) => JsonValue::Number(n.to_string()),
        serde_json::Value::String(s) => JsonValue::Str(s),
        serde_json::Value::Array(items) => JsonValue::Array(items.into_iter().map(json_of_value).collect()),
        serde_json::Value::Object(map) => JsonValue::Object(
            map.into_iter().map(|(key, value)| (key, json_of_value(value))).collect(),
        ),
    }
}

/// `serde_json::from_slice::<serde_json::Value>` (crate `serde_json`), the value turned into a
/// `JsonValue` and an error into its `Display` text. Both are functions of the text alone; the
/// contract names them `json_parse` and claims no more.
#[verifier::external_body]
pub fn parse_json_text(text: &[u8]) -> (r: Result<JsonValue, String>)
    ensures
        match r {
            Ok(v) => json_parse(text@) == Ok::<JsonValue, Seq<char>>(v),
            Err(t) => json_parse(text@) == Err::<JsonValue, Seq<char>>(t@),
        },
{
    match serde_json::from_slice::<serde_json::Value>(text) {
        Ok(value) => Ok(json_of_value(value)),
        Err(err) => Err(err.to_string()),
    }
}

/// What reading the metadata from its JSON text gives.
pub open spec fn metadata_result_of_text(text: Seq<u8>, strict_metadata: bool) -> Result<
    MetadataView,
    (ErrorKind, Seq<char>),
> {
    match json_parse(text) {
        Err(message) => Err((ErrorKind::MetadataJson, message)),
        Ok(value) => metadata_result_of_value(value, strict_metadata),
    }
}

/// The warnings that reading the metadata from its JSON text gives.
pub open spec fn metadata_warnings_of_text(text: Seq<u8>, strict_metadata: bool) -> Seq<Seq<char>> {
    match json_parse(text) {
        Err(_) => Seq::empty(),
        Ok(value) => metadata_warnings_of_value(value, strict_metadata),
    }
}

/// Parses the metadata's JSON text and reads the metadata from it; a text that is not JSON is
/// an error with the parser's message, and gives no warning.
pub fn read_metadata(json_text: &[u8], strict_metadata: bool, warnings: &mut Vec<String>) -> (r:
    Result<Metadata, UnpackError>)
    ensures
        match r {
            Ok(m) => metadata_result_of_text(json_text@, strict_metadata) == Ok::<
                MetadataView,
                (ErrorKind, Seq<char>),
            >(m@),
            Err(e) => metadata_result_of_text(json_text@, strict_metadata) == Err::<
                MetadataView,
                (ErrorKind, Seq<char>),
            >((e.kind, e.detail@)),
        },
        texts(final(warnings)@) == texts(old(warnings)@) + metadata_warnings_of_text(
            json_text@,
            strict_metadata,
        ),
{
    let value = match parse_json_text(json_text) {
        Ok(value) => value,
        Err(detail) => {
            assert(texts(warnings@) == texts(warnings@) + Seq::<Seq<char>>::empty());
            return Err(UnpackError { kind: ErrorKind::MetadataJson, detail });
        },
    };
    let r = parse_metadata(&value, strict_metadata, warnings);
    assert(format_warnings(value) == Seq::<Seq<char>>::empty() ==> artists_of(value).1
        + format_warnings(value) == artists_of(value).1);
    r
}

/// What reading the metadata from its decrypted bytes gives: the failure of the JSON text, or
/// what reading the metadata from that text gives.
pub open spec fn metadata_result_of_plain(plain: Seq<u8>, strict_metadata: bool) -> Result<
    MetadataView,
    (ErrorKind, Seq<char>),
> {
    match json_text_of_plain(plain) {
        Err(kind) => Err((kind, Seq::empty())),
        Ok(text) => metadata_result_of_text(text, strict_metadata),
    }
}

/// The warnings that reading the metadata from its decrypted bytes gives.
pub open spec fn metadata_warnings_of_plain(plain: Seq<u8>, strict_metadata: bool) -> Seq<
    Seq<char>,
> {
    match json_text_of_plain(plain) {
        Err(_) => Seq::empty(),
        Ok(text) => metadata_warnings_of_text(text, strict_metadata),
    }
}

/// The `music:` prefix of decrypted metadata is optional: with or without it, reading the
/// metadata gives the same result and the same warnings.
pub proof fn lemma_metadata_music_prefix_optional(j: Seq<u8>, strict_metadata: bool)
    requires
        j.len() >= 6,
        j.take(6) != music_prefix(),
    ensures
        metadata_result_of_plain(music_prefix() + j, strict_metadata) == metadata_result_of_plain(
            j,
            strict_metadata,
        ),
        metadata_warnings_of_plain(music_prefix() + j, strict_metadata)
            == metadata_warnings_of_plain(j, strict_metadata),
{
    lemma_music_prefix_optional(j);
}

/// ASCII control bytes (but line feed, carriage return and tab) before and after decrypted
/// metadata make no difference to the metadata read from it, nor to the warnings.
pub proof fn lemma_metadata_control_bytes_ignored(
    c1: Seq<u8>,
    j: Seq<u8>,
    c2: Seq<u8>,
    strict_metadata: bool,
)
    requires
        c1.len() > 0,
        forall|i: int| 0 <= i < c1.len() ==> !is_kept_byte(#[trigger] c1[i]),
        forall|i: int| 0 <= i < c2.len() ==> !is_kept_byte(#[trigger] c2[i]),
        exists|i: int| 0 <= i < j.len() && is_kept_byte(#[trigger] j[i]),
        j.len() >= 6,
        j.take(6) != music_prefix(),
    ensures
        metadata_result_of_plain(c1 + j + c2, strict_metadata) == metadata_result_of_plain(
            j,
            strict_metadata,
        ),
        metadata_warnings_of_plain(c1 + j + c2, strict_metadata) == metadata_warnings_of_plain(
            j,
            strict_metadata,
        ),
{
    lemma_control_bytes_ignored(c1, j, c2);
}

} // verus!
