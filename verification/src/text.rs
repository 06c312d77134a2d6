//! Character-level text handling: the views, predicates and splitting rules
//! that the tools' small text formats are read with.
use vstd::prelude::*;
use vstd::utf8::{encode_utf8, encode_scalar};

verus! {

/// What `str::to_lowercase` gives for a text: its lower case by Unicode's
/// tables (a capital sigma depends on the letters around it).
pub uninterp spec fn lowercase_of(s: Seq<char>) -> Seq<char>;

/// Lower-cases a text with `str::to_lowercase`; the result is named
/// [`lowercase_of`] of the text and nothing more is claimed of it.
#[verifier::external_body]
pub(crate) fn lowercase(s: &str) -> (r: String)
    ensures
        r@ == lowercase_of(s@),
{
    s.to_lowercase()
}

/// What `{:?}` writes for a text: the text in double quotes, with quotes,
/// backslashes and unprintable characters escaped as `char::escape_debug`
/// does.
pub uninterp spec fn debug_text(s: Seq<char>) -> Seq<char>;

/// Writes a text as `{:?}` does; the result is named [`debug_text`] of the
/// text and nothing more is claimed of it.
#[verifier::external_body]
pub(crate) fn debug_str(s: &str) -> (r: String)
    ensures
        r@ == debug_text(s@),
{
    format!("{s:?}")
}

/// Appends one character to a string with `String::push`, which the
/// standard library documents as appending the character to the end.
#[verifier::external_body]
pub(crate) fn push_char(s: &mut String, c: char)
    ensures
        final(s)@ == old(s)@.push(c),
{
    s.push(c);
}

/// The characters of a string slice, in order.
pub fn chars_of(s: &str) -> (v: Vec<char>)
    ensures
        v@ == s@,
{
    let mut v: Vec<char> = Vec::new();
    for c in it: s.chars()
        invariant
            v@ == it.seq().take(it.index() as int),
            it.seq() == s@,
    {
        v.push(c);
    }
    v
}

/// A string holding exactly the given characters.
pub fn string_of(v: &[char]) -> (s: String)
    ensures
        s@ == v@,
{
    let mut s = String::new();
    let mut i: usize = 0;
    while i < v.len()
        invariant
            i <= v.len(),
            s@ == v@.take(i as int),
        decreases v.len() - i,
    {
        push_char(&mut s, v[i]);
        assert(v@.take(i as int + 1) =~= v@.take(i as int).push(v@[i as int]));
        i += 1;
    }
    assert(v@.take(v.len() as int) =~= v@);
    s
}

/// The characters of an optional string.
pub open spec fn opt_view(u: Option<String>) -> Option<Seq<char>> {
    match u {
        Some(s) => Some(s@),
        None => None,
    }
}

/// The views of a sequence of character vectors.
pub open spec fn views(v: Seq<Vec<char>>) -> Seq<Seq<char>> {
    v.map_values(|x: Vec<char>| x@)
}

/// The views of a sequence of strings.
pub open spec fn string_views(v: Seq<String>) -> Seq<Seq<char>> {
    v.map_values(|x: String| x@)
}

/// Strings holding the given character vectors.
pub fn strings_of(v: &Vec<Vec<char>>) -> (r: Vec<String>)
    ensures
        string_views(r@) == views(v@),
{
    let mut r: Vec<String> = Vec::new();
    let mut i: usize = 0;
    while i < v.len()
        invariant
            i <= v.len(),
            r@.len() == i,
            forall|k: int| 0 <= k < i ==> #[trigger] r@[k]@ == v@[k]@,
        decreases v.len() - i,
    {
        r.push(string_of(v[i].as_slice()));
        i += 1;
    }
    assert(string_views(r@) =~= views(v@));
    r
}

// ---------------------------------------------------------------- characters

pub open spec fn is_digit(c: char) -> bool {
    '0' <= c && c <= '9'
}

pub fn digit_char(c: char) -> (r: bool)
    ensures
        r == is_digit(c),
{
    c >= '0' && c <= '9'
}

pub open spec fn is_hex_digit(c: char) -> bool {
    ||| is_digit(c)
    ||| 'a' <= c && c <= 'f'
    ||| 'A' <= c && c <= 'F'
}

pub fn hex_digit_char(c: char) -> (r: bool)
    ensures
        r == is_hex_digit(c),
{
    (c >= '0' && c <= '9') || (c >= 'a' && c <= 'f') || (c >= 'A' && c <= 'F')
}

pub open spec fn is_ascii_alphanumeric(c: char) -> bool {
    ||| is_digit(c)
    ||| 'a' <= c && c <= 'z'
    ||| 'A' <= c && c <= 'Z'
}

pub fn ascii_alphanumeric_char(c: char) -> (r: bool)
    ensures
        r == is_ascii_alphanumeric(c),
{
    (c >= '0' && c <= '9') || (c >= 'a' && c <= 'z') || (c >= 'A' && c <= 'Z')
}

/// Unicode `White_Space`, the property `char::is_whitespace` tests.
pub open spec fn is_whitespace(c: char) -> bool {
    ||| '\t' <= c && c <= '\r'
    ||| c == ' '
    ||| c == '\u{85}'
    ||| c == '\u{a0}'
    ||| c == '\u{1680}'
    ||| '\u{2000}' <= c && c <= '\u{200a}'
    ||| c == '\u{2028}'
    ||| c == '\u{2029}'
    ||| c == '\u{202f}'
    ||| c == '\u{205f}'
    ||| c == '\u{3000}'
}

pub fn whitespace_char(c: char) -> (r: bool)
    ensures
        r == is_whitespace(c),
{
    (c >= '\t' && c <= '\r') || c == ' ' || c == '\u{85}' || c == '\u{a0}' || c == '\u{1680}'
        || (c >= '\u{2000}' && c <= '\u{200a}') || c == '\u{2028}' || c == '\u{2029}'
        || c == '\u{202f}' || c == '\u{205f}' || c == '\u{3000}'
}

/// Unicode general category `Cc`, the property `char::is_control` tests.
pub open spec fn is_control(c: char) -> bool {
    c <= '\u{1f}' || ('\u{7f}' <= c && c <= '\u{9f}')
}

pub fn control_char(c: char) -> (r: bool)
    ensures
        r == is_control(c),
{
    c <= '\u{1f}' || (c >= '\u{7f}' && c <= '\u{9f}')
}

pub open spec fn ascii_lower(c: char) -> char {
    if 'A' <= c && c <= 'Z' {
        ((c as u32) + 32) as char
    } else {
        c
    }
}

pub open spec fn ascii_upper(c: char) -> char {
    if 'a' <= c && c <= 'z' {
        ((c as u32) - 32) as char
    } else {
        c
    }
}

pub fn lower_char(c: char) -> (r: char)
    ensures
        r == ascii_lower(c),
{
    if c >= 'A' && c <= 'Z' {
        let u: u32 = (c as u32) + 32;
        assert(u <= 0x7f);
        char_from_ascii(u)
    } else {
        c
    }
}

pub fn upper_char(c: char) -> (r: char)
    ensures
        r == ascii_upper(c),
{
    if c >= 'a' && c <= 'z' {
        let u: u32 = (c as u32) - 32;
        char_from_ascii(u)
    } else {
        c
    }
}

/// The character with an ASCII code.
pub fn char_from_ascii(u: u32) -> (c: char)
    requires
        u < 128,
    ensures
        c == u as char,
        c as u32 == u,
{
    let b: u8 = u as u8;
    assert(b as u32 == u);
    let c = b as char;
    assert(c as u32 == u) by {
        assert(b as char as u32 == b as u32);
    }
    c
}

// ------------------------------------------------------------- byte length

/// How many bytes UTF-8 takes for one character.
pub fn utf8_width(c: char) -> (r: usize)
    ensures
        r == encode_scalar(c as u32).len(),
{
    if (c as u32) < 0x80 {
        1
    } else if (c as u32) < 0x800 {
        2
    } else if (c as u32) < 0x10000 {
        3
    } else {
        4
    }
}

proof fn lemma_encode_push(s: Seq<char>, c: char)
    ensures
        encode_utf8(s.push(c)).len() == encode_utf8(s).len() + encode_scalar(c as u32).len(),
    decreases s.len(),
{
    if s.len() > 0 {
        assert(s.push(c)[0] == s[0]);
        assert(s.push(c).drop_first() =~= s.drop_first().push(c));
        lemma_encode_push(s.drop_first(), c);
        assert(encode_utf8(s.push(c)) == encode_scalar(s[0] as u32) + encode_utf8(s.drop_first().push(c)));
        assert(encode_utf8(s) == encode_scalar(s[0] as u32) + encode_utf8(s.drop_first()));
    } else {
        assert(s.push(c).drop_first() =~= Seq::<char>::empty());
        assert(encode_utf8(Seq::<char>::empty()).len() == 0);
        assert(encode_utf8(s.push(c)) == encode_scalar(c as u32) + encode_utf8(Seq::<char>::empty()));
    }
}

/// Whether the UTF-8 encoding of `s` (what `str::len` counts) is longer than
/// `limit` bytes.
pub fn utf8_len_exceeds(s: &[char], limit: usize) -> (r: bool)
    ensures
        r == (encode_utf8(s@).len() > limit),
{
    let mut n: usize = 0;
    let mut i: usize = 0;
    while i < s.len()
        invariant
            i <= s@.len(),
            n == encode_utf8(s@.take(i as int)).len(),
            n <= limit,
        decreases s.len() - i,
    {
        let w = utf8_width(s[i]);
        proof {
            lemma_encode_push(s@.take(i as int), s@[i as int]);
            assert(s@.take(i as int).push(s@[i as int]) =~= s@.take(i + 1));
        }
        if w > limit - n {
            proof {
                lemma_encode_prefix_grows(s@, i + 1);
            }
            return true;
        }
        n = n + w;
        i += 1;
    }
    assert(s@.take(s@.len() as int) =~= s@);
    false
}

proof fn lemma_encode_prefix_grows(s: Seq<char>, i: int)
    requires
        0 <= i <= s.len(),
    ensures
        encode_utf8(s.take(i)).len() <= encode_utf8(s).len(),
    decreases s.len() - i,
{
    if i < s.len() {
        lemma_encode_push(s.take(i), s[i]);
        assert(s.take(i).push(s[i]) =~= s.take(i + 1));
        lemma_encode_prefix_grows(s, i + 1);
    } else {
        assert(s.take(i) =~= s);
    }
}

} // verus!
