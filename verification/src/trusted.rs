//! The calls this library makes into code it does not verify: std's Unicode
//! lowercasing and lossy UTF-8 decoding, and `serde_json`'s parser.
use vstd::prelude::*;

verus! {

/// What `str::to_lowercase` gives for a string: the full Unicode lowercase
/// mapping, including its context-dependent rules.
pub uninterp spec fn unicode_lowercase(s: Seq<char>) -> Seq<char>;

/// What `String::from_utf8_lossy` gives for a byte string: its UTF-8 decoding,
/// with each invalid sequence replaced by U+FFFD.
pub uninterp spec fn utf8_lossy(bytes: Seq<u8>) -> Seq<char>;

/// What `serde_json::from_slice::<serde_json::Value>` followed by
/// `Value::get(key)` and `Value::as_str` gives for a byte string: `None` when
/// the bytes are not one JSON value, `Some(None)` when the value has no
/// string member `key`, and `Some(Some(t))` when that member is the string
/// `t`.
pub uninterp spec fn json_string_member(body: Seq<u8>, key: Seq<char>) -> Option<Option<Seq<char>>>;

/// The lowercase of an ASCII character: `A`-`Z` become `a`-`z`, every other
/// character stays.
pub open spec fn ascii_lowercase_char(c: char) -> char {
    if 'A' <= c && c <= 'Z' {
        ((c as u32) + 32) as char
    } else {
        c
    }
}

/// Calls `str::to_lowercase`. Claimed: the result is `unicode_lowercase` of
/// the argument, and so depends on the argument alone; on ASCII text it maps
/// `A`-`Z` to `a`-`z` and keeps every other character, which is the Unicode
/// lowercase mapping on the ASCII range that the function's documentation
/// refers to.
#[verifier::external_body]
pub(crate) fn to_lowercase(s: &str) -> (r: String)
    ensures
        r@ == unicode_lowercase(s@),
        vstd::utf8::is_ascii_chars(s@) ==> r@ == s@.map_values(|c: char| ascii_lowercase_char(c)),
{
    s.to_lowercase()
}

/// Calls `String::from_utf8_lossy`. Claimed: the result is `utf8_lossy` of
/// the bytes, and for valid UTF-8 it is the plain decoding, as the function's
/// documentation says.
#[verifier::external_body]
pub(crate) fn from_utf8_lossy(bytes: &[u8]) -> (r: String)
    ensures
        r@ == utf8_lossy(bytes@),
        vstd::utf8::valid_utf8(bytes@) ==> r@ == vstd::utf8::decode_utf8(bytes@),
{
    String::from_utf8_lossy(bytes).into_owned()
}

/// Calls `serde_json::from_slice::<serde_json::Value>`, then `Value::get`
/// with `key` and `Value::as_str` on what it finds. Claimed: the result is
/// `json_string_member` of the bytes and the key; nothing is claimed of JSON
/// syntax.
#[verifier::external_body]
pub(crate) fn parse_string_member(body: &[u8], key: &str) -> (r: Option<Option<String>>)
    ensures
        json_string_member(body@, key@) == match r {
            None => None,
            Some(None) => Some(None),
            Some(Some(t)) => Some(Some(t@)),
        },
{
    match serde_json::from_slice::<serde_json::Value>(body) {
        Err(_) => None,
        Ok(v) => Some(v.get(key).and_then(serde_json::Value::as_str).map(String::from)),
    }
}

} // verus!
