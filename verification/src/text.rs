//! Trimming and comparing text, as bytes and as `char` sequences.

use vstd::prelude::*;
use vstd::string::*;
use vstd::utf8::{decode_utf8, valid_utf8};

verus! {

/// The text that `String::from_utf8_lossy` makes of bytes.
pub uninterp spec fn utf8_lossy(bytes: Seq<u8>) -> Seq<char>;

/// `String::from_utf8_lossy` (std), made an owned `String`. Its documentation says that it
/// converts bytes to text, replacing each invalid UTF-8 sequence with U+FFFD; the contract names
/// the result `utf8_lossy` and states only that valid UTF-8 is decoded as it stands.
#[verifier::external_body]
pub(crate) fn utf8_lossy_string(bytes: &[u8]) -> (s: String)
    ensures
        s@ == utf8_lossy(bytes@),
        valid_utf8(bytes@) ==> s@ == decode_utf8(bytes@),
{
    String::from_utf8_lossy(bytes).into_owned()
}

/// A control byte that is kept at the ends of the metadata text: any byte that is not an
/// ASCII control character, and line feed, carriage return and tab.
pub open spec fn is_kept_byte(b: u8) -> bool {
    !(b < 0x20 || b == 0x7F) || b == 0x0A || b == 0x0D || b == 0x09
}

/// `s` without the bytes that are not kept at its start.
pub open spec fn drop_leading_control(s: Seq<u8>) -> Seq<u8>
    decreases s.len(),
{
    if s.len() > 0 && !is_kept_byte(s[0]) {
        drop_leading_control(s.drop_first())
    } else {
        s
    }
}

/// `s` without the bytes that are not kept at its end.
pub open spec fn drop_trailing_control(s: Seq<u8>) -> Seq<u8>
    decreases s.len(),
{
    if s.len() > 0 && !is_kept_byte(s.last()) {
        drop_trailing_control(s.drop_last())
    } else {
        s
    }
}

/// `s` without the ASCII control bytes (other than line feed, carriage return and tab) at its
/// ends; a sequence made of such bytes only is left as it is.
pub open spec fn trim_ascii_control_spec(s: Seq<u8>) -> Seq<u8> {
    if forall|i: int| 0 <= i < s.len() ==> !is_kept_byte(#[trigger] s[i]) {
        s
    } else {
        drop_trailing_control(drop_leading_control(s))
    }
}

proof fn lemma_drop_leading_shape(s: Seq<u8>)
    ensures
        drop_leading_control(s).len() <= s.len(),
        drop_leading_control(s) == s.skip(s.len() - drop_leading_control(s).len()),
        drop_leading_control(s).len() > 0 ==> is_kept_byte(drop_leading_control(s)[0]),
        (exists|i: int| 0 <= i < s.len() && is_kept_byte(#[trigger] s[i])) ==> drop_leading_control(
            s,
        ).len() > 0,
    decreases s.len(),
{
    if s.len() > 0 && !is_kept_byte(s[0]) {
        let t = s.drop_first();
        lemma_drop_leading_shape(t);
        let r = drop_leading_control(t);
        assert(t.skip(t.len() - r.len()) == s.skip(s.len() - r.len()));
        if exists|i: int| 0 <= i < s.len() && is_kept_byte(#[trigger] s[i]) {
            let i = choose|i: int| 0 <= i < s.len() && is_kept_byte(#[trigger] s[i]);
            assert(t[i - 1] == s[i]);
        }
    } else {
        assert(s.skip(0) == s);
    }
}

proof fn lemma_drop_trailing_shape(s: Seq<u8>)
    ensures
        drop_trailing_control(s).len() <= s.len(),
        drop_trailing_control(s) == s.take(drop_trailing_control(s).len() as int),
        drop_trailing_control(s).len() > 0 ==> is_kept_byte(drop_trailing_control(s).last()),
        s.len() > 0 && is_kept_byte(s[0]) ==> drop_trailing_control(s).len() > 0,
    decreases s.len(),
{
    if s.len() > 0 && !is_kept_byte(s.last()) {
        let t = s.drop_last();
        lemma_drop_trailing_shape(t);
        let r = drop_trailing_control(t);
        assert(t.take(r.len() as int) == s.take(r.len() as int));
        if s.len() > 0 && is_kept_byte(s[0]) {
            assert(s.len() > 1);
            assert(t[0] == s[0]);
        }
    } else {
        assert(s.take(s.len() as int) == s);
    }
}

/// Trimming control bytes twice gives what trimming once gives.
pub proof fn lemma_trim_ascii_control_idempotent(s: Seq<u8>)
    ensures
        trim_ascii_control_spec(trim_ascii_control_spec(s)) == trim_ascii_control_spec(s),
{
    if !(forall|i: int| 0 <= i < s.len() ==> !is_kept_byte(#[trigger] s[i])) {
        let a = drop_leading_control(s);
        lemma_drop_leading_shape(s);
        lemma_drop_trailing_shape(a);
        let t = drop_trailing_control(a);
        assert(t.len() > 0);
        assert(t[0] == a[0]);
        assert(is_kept_byte(t[0]));
        assert(drop_leading_control(t) == t);
        assert(drop_trailing_control(t) == t);
    }
}

/// Control bytes (but line feed, carriage return and tab) around a text that holds some other
/// byte make no difference to its trim.
pub proof fn lemma_trim_ascii_control_surrounded(c1: Seq<u8>, j: Seq<u8>, c2: Seq<u8>)
    requires
        forall|i: int| 0 <= i < c1.len() ==> !is_kept_byte(#[trigger] c1[i]),
        forall|i: int| 0 <= i < c2.len() ==> !is_kept_byte(#[trigger] c2[i]),
        exists|i: int| 0 <= i < j.len() && is_kept_byte(#[trigger] j[i]),
    ensures
        trim_ascii_control_spec(c1 + j + c2) == trim_ascii_control_spec(j),
{
    let w = c1 + j + c2;
    let k = choose|i: int| 0 <= i < j.len() && is_kept_byte(#[trigger] j[i]);
    assert(w[c1.len() + k] == j[k]);
    assert(!(forall|i: int| 0 <= i < w.len() ==> !is_kept_byte(#[trigger] w[i])));
    lemma_drop_leading_prefix(c1, j + c2);
    assert(w == c1 + (j + c2));
    lemma_drop_leading_keeps_tail(j, c2);
    lemma_drop_leading_shape(j);
    let a = drop_leading_control(j);
    lemma_drop_trailing_suffix(a, c2);
}

proof fn lemma_drop_leading_prefix(c: Seq<u8>, x: Seq<u8>)
    requires
        forall|i: int| 0 <= i < c.len() ==> !is_kept_byte(#[trigger] c[i]),
    ensures
        drop_leading_control(c + x) == drop_leading_control(x),
    decreases c.len(),
{
    if c.len() > 0 {
        let d = c.drop_first();
        assert((c + x)[0] == c[0]);
        assert((c + x).drop_first() == d + x);
        assert forall|i: int| 0 <= i < d.len() implies !is_kept_byte(#[trigger] d[i]) by {
            assert(d[i] == c[i + 1]);
        }
        lemma_drop_leading_prefix(d, x);
    } else {
        assert(c + x == x);
    }
}

proof fn lemma_drop_leading_keeps_tail(j: Seq<u8>, c: Seq<u8>)
    requires
        exists|i: int| 0 <= i < j.len() && is_kept_byte(#[trigger] j[i]),
    ensures
        drop_leading_control(j + c) == drop_leading_control(j) + c,
    decreases j.len(),
{
    if !is_kept_byte(j[0]) {
        let d = j.drop_first();
        let i = choose|i: int| 0 <= i < j.len() && is_kept_byte(#[trigger] j[i]);
        assert(d[i - 1] == j[i]);
        assert((j + c).drop_first() == d + c);
        lemma_drop_leading_keeps_tail(d, c);
    }
}

proof fn lemma_drop_trailing_suffix(x: Seq<u8>, c: Seq<u8>)
    requires
        forall|i: int| 0 <= i < c.len() ==> !is_kept_byte(#[trigger] c[i]),
    ensures
        drop_trailing_control(x + c) == drop_trailing_control(x),
    decreases c.len(),
{
    if c.len() > 0 {
        let d = c.drop_last();
        assert((x + c).last() == c.last());
        assert((x + c).drop_last() == x + d);
        assert forall|i: int| 0 <= i < d.len() implies !is_kept_byte(#[trigger] d[i]) by {
            assert(d[i] == c[i]);
        }
        lemma_drop_trailing_suffix(x, d);
    } else {
        assert(x + c == x);
    }
}

fn is_kept_byte_exec(b: u8) -> (r: bool)
    ensures
        r == is_kept_byte(b),
{
    !(b < 0x20 || b == 0x7F) || b == 0x0A || b == 0x0D || b == 0x09
}

/// Removes the ASCII control bytes (but line feed, carriage return and tab) at both ends of
/// `bytes`; where every byte is such a control byte, `bytes` is returned as it is.
pub fn trim_ascii_control(bytes: &[u8]) -> (t: &[u8])
    ensures
        t@ == trim_ascii_control_spec(bytes@),
{
    let n = bytes.len();
    let mut i: usize = 0;
    assert(bytes@.subrange(0, n as int) == bytes@);
    while i < n && !is_kept_byte_exec(bytes[i])
        invariant
            i <= n == bytes@.len(),
            forall|k: int| 0 <= k < i ==> !is_kept_byte(#[trigger] bytes@[k]),
            drop_leading_control(bytes@) == drop_leading_control(
                bytes@.subrange(i as int, n as int),
            ),
        decreases n - i,
    {
        assert(bytes@.subrange(i as int, n as int).drop_first() == bytes@.subrange(
            i + 1,
            n as int,
        ));
        i = i + 1;
    }
    if i == n {
        return bytes;
    }
    assert(is_kept_byte(bytes@[i as int]));
    assert(!(forall|k: int| 0 <= k < bytes@.len() ==> !is_kept_byte(#[trigger] bytes@[k])));
    assert(drop_leading_control(bytes@) == bytes@.subrange(i as int, n as int));
    let mut j: usize = n;
    while !is_kept_byte_exec(bytes[j - 1])
        invariant
            i < j <= n == bytes@.len(),
            is_kept_byte(bytes@[i as int]),
            drop_trailing_control(bytes@.subrange(i as int, n as int)) == drop_trailing_control(
                bytes@.subrange(i as int, j as int),
            ),
        decreases j,
    {
        assert(bytes@.subrange(i as int, j as int).drop_last() == bytes@.subrange(
            i as int,
            j - 1,
        ));
        j = j - 1;
    }
    &bytes[i..j]
}

/// A `char` with the Unicode property White_Space.
pub open spec fn is_white_space_char(c: char) -> bool {
    let v = c as u32;
    ||| 0x09 <= v && v <= 0x0D
    ||| v == 0x20 || v == 0x85 || v == 0xA0 || v == 0x1680
    ||| 0x2000 <= v && v <= 0x200A
    ||| v == 0x2028 || v == 0x2029 || v == 0x202F || v == 0x205F || v == 0x3000
}

fn is_white_space_char_exec(c: char) -> (r: bool)
    ensures
        r == is_white_space_char(c),
{
    let v = c as u32;
    (0x09 <= v && v <= 0x0D) || v == 0x20 || v == 0x85 || v == 0xA0 || v == 0x1680 || (0x2000
        <= v && v <= 0x200A) || v == 0x2028 || v == 0x2029 || v == 0x202F || v == 0x205F || v
        == 0x3000
}

/// `s` without the white-space characters at its start.
pub open spec fn trim_start_chars(s: Seq<char>) -> Seq<char>
    decreases s.len(),
{
    if s.len() > 0 && is_white_space_char(s[0]) {
        trim_start_chars(s.drop_first())
    } else {
        s
    }
}

/// `s` without the white-space characters at its end.
pub open spec fn trim_end_chars(s: Seq<char>) -> Seq<char>
    decreases s.len(),
{
    if s.len() > 0 && is_white_space_char(s.last()) {
        trim_end_chars(s.drop_last())
    } else {
        s
    }
}

/// `s` without the white-space characters at either end.
pub open spec fn trim_chars(s: Seq<char>) -> Seq<char> {
    trim_end_chars(trim_start_chars(s))
}

proof fn lemma_trim_start_chars_shape(s: Seq<char>)
    ensures
        trim_start_chars(s).len() <= s.len(),
        trim_start_chars(s) == s.skip(s.len() - trim_start_chars(s).len()),
        trim_start_chars(s).len() > 0 ==> !is_white_space_char(trim_start_chars(s)[0]),
    decreases s.len(),
{
    if s.len() > 0 && is_white_space_char(s[0]) {
        lemma_trim_start_chars_shape(s.drop_first());
        let r = trim_start_chars(s.drop_first());
        assert(s.drop_first().skip(s.drop_first().len() - r.len()) == s.skip(s.len() - r.len()));
    } else {
        assert(s.skip(0) == s);
    }
}

proof fn lemma_trim_end_chars_shape(s: Seq<char>)
    ensures
        trim_end_chars(s).len() <= s.len(),
        trim_end_chars(s) == s.take(trim_end_chars(s).len() as int),
        trim_end_chars(s).len() > 0 ==> !is_white_space_char(trim_end_chars(s).last()),
    decreases s.len(),
{
    if s.len() > 0 && is_white_space_char(s.last()) {
        lemma_trim_end_chars_shape(s.drop_last());
        let r = trim_end_chars(s.drop_last());
        assert(s.drop_last().take(r.len() as int) == s.take(r.len() as int));
    } else {
        assert(s.take(s.len() as int) == s);
    }
}

/// Text that neither starts nor ends with white space is its own trim.
pub proof fn lemma_trim_chars_fixed(t: Seq<char>)
    requires
        t.len() > 0 ==> !is_white_space_char(t[0]) && !is_white_space_char(t.last()),
    ensures
        trim_chars(t) == t,
{
}

/// Trimming twice gives what trimming once gives; a trimmed text neither starts nor ends with
/// white space.
pub proof fn lemma_trim_chars_idempotent(s: Seq<char>)
    ensures
        trim_chars(trim_chars(s)) == trim_chars(s),
        trim_chars(s).len() > 0 ==> !is_white_space_char(trim_chars(s)[0])
            && !is_white_space_char(trim_chars(s).last()),
{
    let a = trim_start_chars(s);
    lemma_trim_start_chars_shape(s);
    lemma_trim_end_chars_shape(a);
    let t = trim_end_chars(a);
    if t.len() > 0 {
        assert(t[0] == a[0]);
    }
    lemma_trim_chars_fixed(t);
}

/// Trimming removes white space at the ends only: the trim of `s` is the part of `s` between a
/// white-space prefix and a white-space suffix, and where it is not empty it neither starts nor
/// ends with white space. Text without white space at its ends is its own trim.
pub proof fn lemma_trim_chars_shape(s: Seq<char>)
    ensures
        exists|a: int, b: int|
            {
                &&& 0 <= a <= b <= s.len()
                &&& trim_chars(s) == s.subrange(a, b)
                &&& forall|k: int| 0 <= k < a ==> is_white_space_char(#[trigger] s[k])
                &&& forall|k: int| b <= k < s.len() ==> is_white_space_char(#[trigger] s[k])
            },
        trim_chars(s).len() > 0 ==> !is_white_space_char(trim_chars(s)[0])
            && !is_white_space_char(trim_chars(s).last()),
        s.len() > 0 && !is_white_space_char(s[0]) && !is_white_space_char(s.last()) ==> trim_chars(s)
            == s,
{
    lemma_trim_start_prefix_white(s);
    let a0 = trim_start_chars(s);
    lemma_trim_end_suffix_white(a0);
    lemma_trim_chars_idempotent(s);
    let a = s.len() - a0.len();
    let t = trim_end_chars(a0);
    let b = a + t.len();
    assert(t == s.subrange(a, b)) by {
        assert(a0 == s.skip(a));
        assert(t == a0.take(t.len() as int));
    }
    assert forall|k: int| b <= k < s.len() implies is_white_space_char(#[trigger] s[k]) by {
        assert(s[k] == a0[k - a]);
    }
}

proof fn lemma_trim_start_prefix_white(s: Seq<char>)
    ensures
        trim_start_chars(s).len() <= s.len(),
        trim_start_chars(s) == s.skip(s.len() - trim_start_chars(s).len()),
        forall|k: int|
            0 <= k < s.len() - trim_start_chars(s).len() ==> is_white_space_char(#[trigger] s[k]),
    decreases s.len(),
{
    lemma_trim_start_chars_shape(s);
    if s.len() > 0 && is_white_space_char(s[0]) {
        let d = s.drop_first();
        lemma_trim_start_prefix_white(d);
        assert forall|k: int|
            0 <= k < s.len() - trim_start_chars(s).len() implies is_white_space_char(#[trigger] s[k]) by {
            if k > 0 {
                assert(s[k] == d[k - 1]);
            }
        }
    }
}

proof fn lemma_trim_end_suffix_white(s: Seq<char>)
    ensures
        trim_end_chars(s).len() <= s.len(),
        trim_end_chars(s) == s.take(trim_end_chars(s).len() as int),
        forall|k: int|
            trim_end_chars(s).len() <= k < s.len() ==> is_white_space_char(#[trigger] s[k]),
    decreases s.len(),
{
    lemma_trim_end_chars_shape(s);
    if s.len() > 0 && is_white_space_char(s.last()) {
        let d = s.drop_last();
        lemma_trim_end_suffix_white(d);
        assert forall|k: int|
            trim_end_chars(s).len() <= k < s.len() implies is_white_space_char(#[trigger] s[k]) by {
            if k < s.len() - 1 {
                assert(s[k] == d[k]);
            }
        }
    }
}

/// Removes the white-space characters at both ends of `s`.
pub fn trim_str(s: &str) -> (t: &str)
    ensures
        t@ == trim_chars(s@),
{
    let n = s.unicode_len();
    let mut i: usize = 0;
    assert(s@.subrange(0, n as int) == s@);
    while i < n && is_white_space_char_exec(s.get_char(i))
        invariant
            i <= n == s@.len(),
            trim_start_chars(s@) == trim_start_chars(s@.subrange(i as int, n as int)),
        decreases n - i,
    {
        assert(s@.subrange(i as int, n as int).drop_first() == s@.subrange(i + 1, n as int));
        i = i + 1;
    }
    assert(trim_start_chars(s@) == s@.subrange(i as int, n as int));
    let mut j: usize = n;
    while j > i && is_white_space_char_exec(s.get_char(j - 1))
        invariant
            i <= j <= n == s@.len(),
            trim_chars(s@) == trim_end_chars(s@.subrange(i as int, j as int)),
        decreases j,
    {
        assert(s@.subrange(i as int, j as int).drop_last() == s@.subrange(i as int, j - 1));
        j = j - 1;
    }
    s.substring_char(i, j)
}

/// Whether two strings hold the same characters.
pub fn str_equal(a: &str, b: &str) -> (r: bool)
    ensures
        r == (a@ == b@),
{
    let n = a.unicode_len();
    if n != b.unicode_len() {
        return false;
    }
    let mut i: usize = 0;
    while i < n
        invariant
            i <= n == a@.len() == b@.len(),
            forall|k: int| 0 <= k < i ==> a@[k] == b@[k],
        decreases n - i,
    {
        if a.get_char(i) != b.get_char(i) {
            return false;
        }
        i = i + 1;
    }
    assert(a@ == b@);
    true
}

/// The ASCII lower-case form of a `char`: 'A' to 'Z' become 'a' to 'z', others stay.
pub open spec fn ascii_lowercase_char(c: char) -> char {
    if 0x41 <= (c as u32) && (c as u32) <= 0x5A {
        ((c as u32) + 0x20) as char
    } else {
        c
    }
}

/// `str::to_ascii_lowercase` (std): its documentation says that each character is mapped to
/// its ASCII lower-case equivalent, 'A' to 'Z' to 'a' to 'z', and that all others are unchanged;
/// that is what the contract states.
#[verifier::external_body]
pub(crate) fn to_ascii_lowercase(s: &str) -> (r: String)
    ensures
        r@ == s@.map_values(|c: char| ascii_lowercase_char(c)),
{
    s.to_ascii_lowercase()
}

/// The characters of each string of a sequence.
pub open spec fn texts(v: Seq<String>) -> Seq<Seq<char>> {
    v.map_values(|s: String| s@)
}

/// The parts joined into one text, with `sep` between each two neighbours.
pub open spec fn join_with(parts: Seq<Seq<char>>, sep: Seq<char>) -> Seq<char>
    decreases parts.len(),
{
    if parts.len() == 0 {
        Seq::empty()
    } else if parts.len() == 1 {
        parts[0]
    } else {
        join_with(parts.drop_last(), sep) + sep + parts.last()
    }
}

/// Joins the strings with `sep` between each two neighbours.
pub fn join_strings(parts: &Vec<String>, sep: &str) -> (r: String)
    ensures
        r@ == join_with(texts(parts@), sep@),
{
    let mut r = String::new();
    let n = parts.len();
    let mut i: usize = 0;
    while i < n
        invariant
            i <= n == parts@.len(),
            r@ == join_with(texts(parts@).take(i as int), sep@),
        decreases n - i,
    {
        assert(texts(parts@).take(i + 1).drop_last() == texts(parts@).take(i as int));
        if i > 0 {
            r.append(sep);
        }
        r.append(parts[i].as_str());
        i = i + 1;
    }
    assert(texts(parts@).take(n as int) == texts(parts@));
    r
}

} // verus!
