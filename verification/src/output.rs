//! Decisions about the files around a decoding: which inputs are taken, which outputs are
//! skipped, the output's extension, the tag format, the cover's MIME type, and the tally.

use vstd::prelude::*;
use vstd::string::*;

use crate::metadata::{opt_text, Metadata};
use crate::text::{
    ascii_lowercase_char, join_strings, join_with, texts, to_ascii_lowercase, trim_chars, trim_str,
};

verus! {

/// The MIME type of an image from its first bytes: JPEG, PNG, GIF (87a or 89a) or BMP,
/// else `application/octet-stream`.
pub open spec fn mime_type_of(bytes: Seq<u8>) -> Seq<char> {
    if bytes.len() >= 3 && bytes[0] == 0xFF && bytes[1] == 0xD8 && bytes[2] == 0xFF {
        "image/jpeg"@
    } else if bytes.len() >= 4 && bytes[0] == 0x89 && bytes[1] == 0x50 && bytes[2] == 0x4E
        && bytes[3] == 0x47 {
        "image/png"@
    } else if bytes.len() >= 6 && bytes[0] == 0x47 && bytes[1] == 0x49 && bytes[2] == 0x46
        && bytes[3] == 0x38 && (bytes[4] == 0x37 || bytes[4] == 0x39) && bytes[5] == 0x61 {
        "image/gif"@
    } else if bytes.len() >= 2 && bytes[0] == 0x42 && bytes[1] == 0x4D {
        "image/bmp"@
    } else {
        "application/octet-stream"@
    }
}

/// Each signature decides the MIME type whatever bytes follow it: JPEG for `FF D8 FF`, PNG for
/// `89 'P' 'N' 'G'`, GIF for `GIF87a` and `GIF89a`, BMP for `BM`; data shorter than two bytes,
/// or starting with none of these, is `application/octet-stream`.
pub proof fn lemma_mime_signatures(rest: Seq<u8>)
    ensures
        mime_type_of(seq![0xFFu8, 0xD8u8, 0xFFu8] + rest) == "image/jpeg"@,
        mime_type_of(seq![0x89u8, 0x50u8, 0x4Eu8, 0x47u8] + rest) == "image/png"@,
        mime_type_of(seq![0x47u8, 0x49u8, 0x46u8, 0x38u8, 0x37u8, 0x61u8] + rest) == "image/gif"@,
        mime_type_of(seq![0x47u8, 0x49u8, 0x46u8, 0x38u8, 0x39u8, 0x61u8] + rest) == "image/gif"@,
        mime_type_of(seq![0x42u8, 0x4Du8] + rest) == "image/bmp"@,
        rest.len() < 2 ==> mime_type_of(rest) == "application/octet-stream"@,
        mime_type_of(seq![0x00u8] + rest) == "application/octet-stream"@,
{
    let j = seq![0xFFu8, 0xD8u8, 0xFFu8] + rest;
    assert(j[0] == 0xFF && j[1] == 0xD8 && j[2] == 0xFF);
    let p = seq![0x89u8, 0x50u8, 0x4Eu8, 0x47u8] + rest;
    assert(p[0] == 0x89 && p[1] == 0x50 && p[2] == 0x4E && p[3] == 0x47);
    let g7 = seq![0x47u8, 0x49u8, 0x46u8, 0x38u8, 0x37u8, 0x61u8] + rest;
    assert(g7[0] == 0x47 && g7[1] == 0x49 && g7[2] == 0x46 && g7[3] == 0x38 && g7[4] == 0x37
        && g7[5] == 0x61);
    let g9 = seq![0x47u8, 0x49u8, 0x46u8, 0x38u8, 0x39u8, 0x61u8] + rest;
    assert(g9[0] == 0x47 && g9[1] == 0x49 && g9[2] == 0x46 && g9[3] == 0x38 && g9[4] == 0x39
        && g9[5] == 0x61);
    let b = seq![0x42u8, 0x4Du8] + rest;
    assert(b[0] == 0x42 && b[1] == 0x4D);
    let z = seq![0x00u8] + rest;
    assert(z[0] == 0x00);
}

/// The MIME type of an image from its first bytes.
pub fn detect_mime_type(bytes: &[u8]) -> (mime: &'static str)
    ensures
        mime@ == mime_type_of(bytes@),
{
    let n = bytes.len();
    if n >= 3 && bytes[0] == 0xFF && bytes[1] == 0xD8 && bytes[2] == 0xFF {
        "image/jpeg"
    } else if n >= 4 && bytes[0] == 0x89 && bytes[1] == 0x50 && bytes[2] == 0x4E && bytes[3]
        == 0x47 {
        "image/png"
    } else if n >= 6 && bytes[0] == 0x47 && bytes[1] == 0x49 && bytes[2] == 0x46 && bytes[3]
        == 0x38 && (bytes[4] == 0x37 || bytes[4] == 0x39) && bytes[5] == 0x61 {
        "image/gif"
    } else if n >= 2 && bytes[0] == 0x42 && bytes[1] == 0x4D {
        "image/bmp"
    } else {
        "application/octet-stream"
    }
}

/// The extension of the output file for a format: the format trimmed and in ASCII lower case;
/// `None` where the format holds nothing but white space.
pub fn output_extension(format: &str) -> (ext: Option<String>)
    ensures
        ext is None <==> trim_chars(format@).len() == 0,
        ext matches Some(e) ==> e@ == trim_chars(format@).map_values(
            |c: char| ascii_lowercase_char(c),
        ),
{
    let trimmed = trim_str(format);
    if trimmed.unicode_len() == 0 {
        None
    } else {
        Some(to_ascii_lowercase(trimmed))
    }
}

/// The tag formats that can be written.
#[derive(Clone, Copy, Debug, PartialEq, Eq, Structural)]
pub enum TagFormat {
    Mp3,
    Flac,
}

/// The text of the failure for a format whose tags cannot be written.
pub open spec fn unsupported_tag_message(format: Seq<char>) -> Seq<char> {
    "tag writing is not implemented for format "@ + format
}

/// The tag format for the metadata's format: `mp3` or `flac` once trimmed, in any ASCII case.
/// Any other format has no tags written, with the reason as the error.
pub fn tag_format(format: &str) -> (r: Result<TagFormat, String>)
    ensures
        eq_ignore_ascii_case(trim_chars(format@), "mp3"@) ==> r == Ok::<TagFormat, String>(
            TagFormat::Mp3,
        ),
        eq_ignore_ascii_case(trim_chars(format@), "flac"@) ==> r == Ok::<TagFormat, String>(
            TagFormat::Flac,
        ),
        !eq_ignore_ascii_case(trim_chars(format@), "mp3"@) && !eq_ignore_ascii_case(
            trim_chars(format@),
            "flac"@,
        ) ==> r is Err && r->Err_0@ == unsupported_tag_message(format@),
{
    proof {
        reveal_strlit("mp3");
        reveal_strlit("flac");
    }
    let trimmed = trim_str(format);
    if str_eq_ignore_ascii_case(trimmed, "mp3") {
        Ok(TagFormat::Mp3)
    } else if str_eq_ignore_ascii_case(trimmed, "flac") {
        Ok(TagFormat::Flac)
    } else {
        Err(String::from_str("tag writing is not implemented for format ").concat(format))
    }
}

/// What is written into the tags of an output file.
#[derive(Debug)]
pub struct TagPlan {
    /// The title to set, where there is one.
    pub title: Option<String>,
    /// The album to set, where there is one.
    pub album: Option<String>,
    /// The artists to set one by one (FLAC); none are set where this is empty.
    pub artists: Vec<String>,
    /// The artists joined with `/` into one text (ID3), where there are any.
    pub joined_artists: Option<String>,
    /// The MIME type of the cover to put in place of the front cover, where there is a cover.
    pub cover_mime: Option<&'static str>,
    /// Whether the title, artist and album already in the file are removed first (FLAC).
    pub clear_text_fields: bool,
}

/// The optional text of an optional string slice.
pub open spec fn opt_mime(m: Option<&'static str>) -> Option<Seq<char>> {
    match m {
        Some(t) => Some(t@),
        None => None,
    }
}

/// The tag edits for a song's metadata and cover in the given tag format: title and album where
/// there are, the artists where there are any (one by one, and joined with `/`), the cover with
/// its MIME type where there is one, and, for FLAC, the old title, artist and album removed.
pub fn tag_plan(metadata: &Metadata, cover: &[u8], format: TagFormat) -> (plan: TagPlan)
    ensures
        opt_text(plan.title) == metadata@.title,
        opt_text(plan.album) == metadata@.album,
        texts(plan.artists@) == metadata@.artists,
        plan.joined_artists is None <==> metadata@.artists.len() == 0,
        plan.joined_artists matches Some(j) ==> j@ == join_with(metadata@.artists, "/"@),
        plan.cover_mime is None <==> cover@.len() == 0,
        plan.cover_mime matches Some(m) ==> m@ == mime_type_of(cover@),
        plan.clear_text_fields == (format == TagFormat::Flac),
{
    let title = match metadata.title() {
        Some(t) => Some(String::from_str(t)),
        None => None,
    };
    let album = match metadata.album() {
        Some(a) => Some(String::from_str(a)),
        None => None,
    };
    let source = metadata.artists();
    let mut artists: Vec<String> = Vec::new();
    let n = source.len();
    let mut i: usize = 0;
    while i < n
        invariant
            i <= n == source@.len(),
            texts(artists@) == texts(source@).take(i as int),
        decreases n - i,
    {
        let a = String::from_str(source[i].as_str());
        let ghost before = artists@;
        artists.push(a);
        assert(texts(artists@) == texts(before).push(a@));
        assert(texts(source@).take(i + 1) == texts(source@).take(i as int).push(source@[i as int]@));
        assert(texts(artists@) == texts(source@).take(i + 1));
        i = i + 1;
    }
    assert(texts(source@).take(n as int) == texts(source@));
    let joined_artists = if n == 0 {
        None
    } else {
        Some(join_strings(source, "/"))
    };
    let cover_mime = if cover.len() == 0 {
        None
    } else {
        Some(detect_mime_type(cover))
    };
    let clear_text_fields = match format {
        TagFormat::Flac => true,
        TagFormat::Mp3 => false,
    };
    TagPlan { title, album, artists, joined_artists, cover_mime, clear_text_fields }
}

/// Whether two strings are equal once ASCII letters are put in lower case.
pub fn str_eq_ignore_ascii_case(a: &str, b: &str) -> (r: bool)
    ensures
        r == eq_ignore_ascii_case(a@, b@),
{
    let n = a.unicode_len();
    if n != b.unicode_len() {
        return false;
    }
    let mut i: usize = 0;
    while i < n
        invariant
            i <= n == a@.len() == b@.len(),
            forall|k: int| 0 <= k < i ==> ascii_lowercase_char(a@[k]) == ascii_lowercase_char(b@[k]),
        decreases n - i,
    {
        if lower_char(a.get_char(i)) != lower_char(b.get_char(i)) {
            return false;
        }
        i = i + 1;
    }
    true
}

/// The extension of a file name: what follows its last '.', where there is one that is not the
/// name's first character.
pub open spec fn extension_of(name: Seq<char>) -> Option<Seq<char>> {
    if exists|i: int| 0 < i < name.len() && name[i] == '.' && forall|k: int|
        i < k < name.len() ==> name[k] != '.' {
        let d = choose|i: int|
            0 < i < name.len() && name[i] == '.' && forall|k: int| i < k < name.len() ==> name[k] != '.';
        Some(name.skip(d + 1))
    } else {
        None
    }
}

/// The extension is what follows the last '.', whatever the stem before it holds (so long as the
/// stem is not empty); a name with no '.' past its first character has none.
pub proof fn lemma_extension_of(stem: Seq<char>, ext: Seq<char>)
    requires
        stem.len() > 0,
        forall|k: int| 0 <= k < ext.len() ==> ext[k] != '.',
    ensures
        extension_of(stem + seq!['.'] + ext) == Some(ext),
        (forall|k: int| 1 <= k < stem.len() ==> stem[k] != '.') ==> extension_of(stem) is None,
{
    let name = stem + seq!['.'] + ext;
    let d = stem.len() as int;
    assert(name[d] == '.');
    assert forall|k: int| d < k < name.len() implies name[k] != '.' by {
        assert(name[k] == ext[k - d - 1]);
    }
    let c = choose|i: int|
        0 < i < name.len() && name[i] == '.' && forall|k: int| i < k < name.len() ==> name[k] != '.';
    assert(c == d) by {
        if c < d {
            assert(name[d] != '.');
        } else if c > d {
            assert(name[c] != '.');
        }
    }
    assert(name.skip(d + 1) == ext);
}

/// Whether two texts are equal once ASCII letters are put in lower case.
pub open spec fn eq_ignore_ascii_case(a: Seq<char>, b: Seq<char>) -> bool {
    a.len() == b.len() && forall|i: int|
        0 <= i < a.len() ==> ascii_lowercase_char(a[i]) == ascii_lowercase_char(b[i])
}

/// Whether a file is an input: its extension is `ncm`, in any case.
pub open spec fn is_input_name(name: Seq<char>) -> bool {
    match extension_of(name) {
        Some(ext) => eq_ignore_ascii_case(ext, "ncm"@),
        None => false,
    }
}

/// Whether a file with this name is taken as input: its extension is `ncm`, in any case.
pub fn has_supported_extension(file_name: &str) -> (r: bool)
    ensures
        r == is_input_name(file_name@),
{
    let ghost name = file_name@;
    let n = file_name.unicode_len();
    let mut j: usize = n;
    while j > 0 && file_name.get_char(j - 1) != '.'
        invariant
            j <= n == name.len(),
            name == file_name@,
            forall|k: int| j <= k < n ==> name[k] != '.',
        decreases j,
    {
        j = j - 1;
    }
    if j <= 1 {
        assert(!(exists|i: int| 0 < i < name.len() && name[i] == '.' && forall|k: int|
            i < k < name.len() ==> name[k] != '.')) by {
            if exists|i: int| 0 < i < name.len() && name[i] == '.' && forall|k: int|
                i < k < name.len() ==> name[k] != '.' {
                let i = choose|i: int| 0 < i < name.len() && name[i] == '.' && forall|k: int|
                    i < k < name.len() ==> name[k] != '.';
                if j == 1 {
                    assert(name[0] == '.');
                    assert(i > 0);
                }
            }
        }
        return false;
    }
    let d = j - 1;
    proof {
        let c = choose|i: int|
            0 < i < name.len() && name[i] == '.' && forall|k: int| i < k < name.len() ==> name[k] != '.';
        assert(0 < d < name.len() && name[d as int] == '.' && forall|k: int|
            d < k < name.len() ==> name[k] != '.');
        assert(c == d as int) by {
            if c < d {
                assert(name[d as int] != '.');
            } else if c > d {
                assert(name[c] != '.');
            }
        }
    }
    let ext = file_name.substring_char(j, n);
    assert(extension_of(name) == Some(ext@));
    proof {
        reveal_strlit("ncm");
    }
    if n - j != 3 {
        return false;
    }
    let c0 = lower_char(ext.get_char(0));
    let c1 = lower_char(ext.get_char(1));
    let c2 = lower_char(ext.get_char(2));
    let r = c0 == 'n' && c1 == 'c' && c2 == 'm';
    assert(r == eq_ignore_ascii_case(ext@, "ncm"@)) by {
        assert(ascii_lowercase_char('n') == 'n');
        assert(ascii_lowercase_char('c') == 'c');
        assert(ascii_lowercase_char('m') == 'm');
    }
    r
}

fn lower_char(c: char) -> (l: char)
    ensures
        l == ascii_lowercase_char(c),
{
    let v = c as u32;
    if 0x41 <= v && v <= 0x5A {
        let w: u8 = (v + 0x20) as u8;
        w as char
    } else {
        c
    }
}

/// Whether an input is skipped: its output exists already and overwriting was not asked for.
pub fn skip_existing(output_exists: bool, overwrite: bool) -> (skip: bool)
    ensures
        skip == (output_exists && !overwrite),
{
    output_exists && !overwrite
}

/// What became of one input file.
#[derive(Clone, Copy, Debug, PartialEq, Eq, Structural)]
pub enum FileOutcome {
    /// Decoded, with this many warnings.
    Decoded(usize),
    /// Skipped, its output being there already.
    Skipped,
    /// Not decoded.
    Failed,
}

/// The counts of a run over many input files.
#[derive(Clone, Copy, Debug, PartialEq, Eq, Structural)]
pub struct Summary {
    pub success: usize,
    pub skipped: usize,
    pub failed: usize,
    pub warnings: usize,
}

impl Summary {
    /// No file counted yet.
    pub fn new() -> (s: Summary)
        ensures
            s.success == 0 && s.skipped == 0 && s.failed == 0 && s.warnings == 0,
    {
        Summary { success: 0, skipped: 0, failed: 0, warnings: 0 }
    }

    /// Counts one more file (the counters wrap around at `usize::MAX`).
    pub fn record(&mut self, outcome: FileOutcome)
        ensures
            match outcome {
                FileOutcome::Decoded(n) => *final(self) == Summary {
                    success: old(self).success.wrapping_add(1),
                    warnings: old(self).warnings.wrapping_add(n),
                    ..*old(self)
                },
                FileOutcome::Skipped => *final(self) == Summary {
                    skipped: old(self).skipped.wrapping_add(1),
                    ..*old(self)
                },
                FileOutcome::Failed => *final(self) == Summary {
                    failed: old(self).failed.wrapping_add(1),
                    ..*old(self)
                },
            },
    {
        match outcome {
            FileOutcome::Decoded(n) => {
                self.success = self.success.wrapping_add(1);
                self.warnings = self.warnings.wrapping_add(n);
            },
            FileOutcome::Skipped => {
                self.skipped = self.skipped.wrapping_add(1);
            },
            FileOutcome::Failed => {
                self.failed = self.failed.wrapping_add(1);
            },
        }
    }

    /// The exit status of the run: 1 where some file failed, else 0.
    pub fn exit_code(&self) -> (code: i32)
        ensures
            code == if self.failed > 0 { 1i32 } else { 0i32 },
    {
        if self.failed > 0 {
            1
        } else {
            0
        }
    }
}

} // verus!
