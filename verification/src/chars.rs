//! Character-level building blocks: the ASCII case fold, the whitespace
//! test, and thin trusted bridges to std's Unicode tables for characters
//! outside the ASCII range.

use vstd::prelude::*;

verus! {

/// Whether `c` lies in the ASCII range.
pub open spec fn is_ascii_char(c: char) -> bool {
    c <= '\u{7f}'
}

/// ASCII lowercase mapping: `A`..`Z` map to `a`..`z`, everything else is
/// unchanged.
pub open spec fn ascii_lower_char(c: char) -> char {
    if 'A' <= c && c <= 'Z' {
        ((c as u32) + 32) as char
    } else {
        c
    }
}

/// The ASCII characters with the Unicode `White_Space` property.
pub open spec fn is_ascii_ws(c: char) -> bool {
    c == ' ' || c == '\t' || c == '\n' || c == '\r' || c == '\u{b}' || c == '\u{c}'
}

/// The `White_Space` property of a non-ASCII character, as std's Unicode
/// tables define it.
pub uninterp spec fn unicode_ws(c: char) -> bool;

/// Whether `c` is whitespace in the sense of `str::trim`.
pub open spec fn is_ws_char(c: char) -> bool {
    if is_ascii_char(c) {
        is_ascii_ws(c)
    } else {
        unicode_ws(c)
    }
}

/// The lowercase expansion of a non-ASCII character, as std's Unicode
/// tables define it. One character may expand to several.
pub uninterp spec fn unicode_lower(c: char) -> Seq<char>;

/// The full case fold of a single character: the ASCII mapping inside the
/// ASCII range, std's Unicode mapping outside it.
pub open spec fn fold_char(c: char) -> Seq<char> {
    if is_ascii_char(c) {
        seq![ascii_lower_char(c)]
    } else {
        unicode_lower(c)
    }
}

/// The lowercase form of a character sequence that is not entirely ASCII,
/// as `str::to_lowercase` produces it (it depends on the characters alone).
pub uninterp spec fn unicode_lower_str(s: Seq<char>) -> Seq<char>;

/// The lowercase form of a whole string: a per-character ASCII fold when
/// the string is ASCII, std's Unicode lowering otherwise.
pub open spec fn lower_str(s: Seq<char>) -> Seq<char> {
    if vstd::utf8::is_ascii_chars(s) {
        s.map_values(|c: char| ascii_lower_char(c))
    } else {
        unicode_lower_str(s)
    }
}

/// Relies on char::is_whitespace: whether the character has the Unicode
/// `White_Space` property. Called only outside the ASCII range.
#[verifier::external_body]
fn char_is_ws_unicode(c: char) -> (r: bool)
    requires
        !is_ascii_char(c),
    ensures
        r == unicode_ws(c),
{
    c.is_whitespace()
}

/// Relies on char::to_lowercase: the lowercase expansion of the character,
/// a function of the character alone. Called only outside the ASCII range.
#[verifier::external_body]
fn char_lower_unicode(c: char) -> (r: Vec<char>)
    requires
        !is_ascii_char(c),
    ensures
        r@ == unicode_lower(c),
{
    c.to_lowercase().collect()
}

/// Relies on str::to_lowercase: the lowercase form of the string, a
/// function of its characters alone. Called only on strings that are not
/// entirely ASCII.
#[verifier::external_body]
fn str_lower_unicode(s: &str) -> (r: String)
    requires
        !vstd::utf8::is_ascii_chars(s@),
    ensures
        r@ == unicode_lower_str(s@),
{
    s.to_lowercase()
}

/// Relies on String's FromIterator impl: collecting characters yields the
/// string holding exactly those characters in order.
#[verifier::external_body]
pub(crate) fn chars_to_string(v: &Vec<char>) -> (r: String)
    ensures
        r@ == v@,
{
    v.iter().collect()
}

/// Whether `c` is whitespace in the sense of `str::trim`.
pub fn is_ws(c: char) -> (r: bool)
    ensures
        r == is_ws_char(c),
{
    if c <= '\u{7f}' {
        c == ' ' || c == '\t' || c == '\n' || c == '\r' || c == '\u{b}' || c == '\u{c}'
    } else {
        char_is_ws_unicode(c)
    }
}

/// ASCII lowercase of a single character.
pub fn ascii_lower(c: char) -> (r: char)
    ensures
        r == ascii_lower_char(c),
{
    match c {
        'A' => 'a',
        'B' => 'b',
        'C' => 'c',
        'D' => 'd',
        'E' => 'e',
        'F' => 'f',
        'G' => 'g',
        'H' => 'h',
        'I' => 'i',
        'J' => 'j',
        'K' => 'k',
        'L' => 'l',
        'M' => 'm',
        'N' => 'n',
        'O' => 'o',
        'P' => 'p',
        'Q' => 'q',
        'R' => 'r',
        'S' => 's',
        'T' => 't',
        'U' => 'u',
        'V' => 'v',
        'W' => 'w',
        'X' => 'x',
        'Y' => 'y',
        'Z' => 'z',
        _ => c,
    }
}

/// The full case fold of one character, possibly several characters long.
pub fn char_fold(c: char) -> (r: Vec<char>)
    ensures
        r@ == fold_char(c),
{
    if c <= '\u{7f}' {
        let mut v: Vec<char> = Vec::new();
        v.push(ascii_lower(c));
        v
    } else {
        char_lower_unicode(c)
    }
}

/// The characters of `s`, in order.
pub fn str_to_chars(s: &str) -> (r: Vec<char>)
    ensures
        r@ == s@,
{
    let n = s.unicode_len();
    let mut v: Vec<char> = Vec::new();
    let mut i: usize = 0;
    while i < n
        invariant
            n == s@.len(),
            i <= n,
            v@ == s@.take(i as int),
        decreases n - i,
    {
        v.push(s.get_char(i));
        i = i + 1;
        assert(v@ =~= s@.take(i as int));
    }
    assert(v@ =~= s@);
    v
}

/// The lowercase form of a whole string, as `str::to_lowercase` gives it.
pub fn to_lower(s: &str) -> (r: String)
    ensures
        r@ == lower_str(s@),
{
    if s.is_ascii() {
        let chars = str_to_chars(s);
        let n = chars.len();
        let mut v: Vec<char> = Vec::new();
        let mut i: usize = 0;
        while i < n
            invariant
                n == chars@.len(),
                chars@ == s@,
                i <= n,
                v@ == s@.take(i as int).map_values(|c: char| ascii_lower_char(c)),
        decreases n - i,
        {
            v.push(ascii_lower(chars[i]));
            i = i + 1;
            assert(v@ =~= s@.take(i as int).map_values(|c: char| ascii_lower_char(c)));
        }
        assert(v@ =~= s@.map_values(|c: char| ascii_lower_char(c)));
        chars_to_string(&v)
    } else {
        str_lower_unicode(s)
    }
}

} // verus!
