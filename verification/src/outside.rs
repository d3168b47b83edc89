//! Trusted declarations for the outside crates the library relies on:
//! content digests, fresh identifiers and timestamps.

use vstd::prelude::*;

verus! {

/// The MD5 digest of a text, written as lowercase hexadecimal digits. The
/// digest is a function of the text alone.
pub uninterp spec fn md5_hex_of(s: Seq<char>) -> Seq<char>;

/// Relies on md5::compute: the 128-bit MD5 digest of the string's bytes,
/// formatted as 32 lowercase hexadecimal digits (two per digest byte).
#[verifier::external_body]
pub fn md5_hex(s: &str) -> (r: String)
    ensures
        r@ == md5_hex_of(s@),
        r@.len() == 32,
{
    format!("{:x}", md5::compute(s.as_bytes()))
}

/// Relies on uuid::Uuid::new_v4: a random version-4 UUID, shown in its
/// hyphenated form of 36 characters. The value is random; nothing beyond its
/// length is assumed.
#[verifier::external_body]
pub fn new_uuid() -> (r: String)
    ensures
        r@.len() == 36,
{
    uuid::Uuid::new_v4().to_string()
}

/// The fixed tail of a `YYYY-MM-DDTHH:MM:SSZ` timestamp: at least twenty
/// characters ending in `Z`, with the date and time separators at their fixed
/// offsets from the end. Only the year may widen.
pub open spec fn iso_utc_shape(s: Seq<char>) -> bool {
    let n = s.len() as int;
    &&& n >= 20
    &&& s[n - 1] == 'Z'
    &&& s[n - 4] == ':'
    &&& s[n - 7] == ':'
    &&& s[n - 10] == 'T'
    &&& s[n - 13] == '-'
    &&& s[n - 16] == '-'
}

/// Relies on chrono::Utc::now, formatted as `%Y-%m-%dT%H:%M:%SZ`: every field
/// but the year is zero-padded to two digits and the separators are literal,
/// so the shape's tail is fixed whatever the clock returns; nothing else is
/// assumed of the value.
#[verifier::external_body]
pub fn now_utc_iso() -> (r: String)
    ensures
        iso_utc_shape(r@),
{
    chrono::Utc::now().format("%Y-%m-%dT%H:%M:%SZ").to_string()
}

/// An ASCII capital letter, lowered; any other character unchanged.
pub open spec fn ascii_lower_char(c: char) -> char {
    if 'A' <= c <= 'Z' {
        (((c as u8) + 32) as char)
    } else {
        c
    }
}

/// A text with its ASCII capital letters lowered.
pub open spec fn ascii_lower_of(s: Seq<char>) -> Seq<char> {
    s.map_values(|c: char| ascii_lower_char(c))
}

/// Relies on str::to_ascii_lowercase: ASCII capital letters are replaced by
/// their lowercase equivalents; every other character is kept.
#[verifier::external_body]
pub fn ascii_lower(s: &str) -> (r: String)
    ensures
        r@ == ascii_lower_of(s@),
{
    s.to_ascii_lowercase()
}

} // verus!
