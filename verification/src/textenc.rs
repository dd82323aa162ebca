//! Text encodings the protocol layer leans on: lossy UTF-8 decoding of raw
//! header and form bytes, and percent-encoding of urlencoded pairs and
//! cookies.

use vstd::prelude::*;

verus! {

/// Every byte is ASCII.
pub open spec fn ascii_bytes(s: Seq<u8>) -> bool {
    forall|i: int| 0 <= i < s.len() ==> s[i] < 128
}

/// The characters an ASCII byte sequence spells.
pub open spec fn chars_of_bytes(s: Seq<u8>) -> Seq<char> {
    s.map_values(|b: u8| b as char)
}

/// What `String::from_utf8_lossy` makes of a byte sequence; a function of
/// the bytes alone.
pub uninterp spec fn lossy_decoded(s: Seq<u8>) -> Seq<char>;

/// Relies on `String::from_utf8_lossy`: the result depends on the bytes
/// alone, and ASCII bytes decode to their own characters.
#[verifier::external_body]
pub fn lossy_string(v: &[u8]) -> (r: String)
    ensures
        r@ == lossy_decoded(v@),
        ascii_bytes(v@) ==> r@ == chars_of_bytes(v@),
{
    String::from_utf8_lossy(v).to_string()
}

/// What `urlencoding::decode` makes of a string; a function of the
/// characters alone. `None` is a percent sequence that decodes to invalid
/// UTF-8.
pub uninterp spec fn url_decoded(s: Seq<char>) -> Option<Seq<char>>;

/// Relies on `urlencoding::decode`: the result depends on the characters
/// alone, and a string without `%` comes back unchanged.
#[verifier::external_body]
pub fn url_decode(s: &str) -> (r: Option<String>)
    ensures
        r is Some <==> url_decoded(s@) is Some,
        r is Some ==> r->Some_0@ == url_decoded(s@)->Some_0,
        !s@.contains('%') ==> r is Some && r->Some_0@ == s@,
{
    match urlencoding::decode(s) {
        Ok(v) => Some(v.into_owned()),
        Err(_) => None,
    }
}

/// A byte percent-encoding keeps unchanged: ASCII alphanumerics and
/// `-`, `.`, `_`, `~`.
pub open spec fn is_url_unreserved(b: u8) -> bool {
    (48 <= b <= 57) || (65 <= b <= 90) || (97 <= b <= 122) || b == 45 || b == 46 || b == 95
        || b == 126
}

/// The upper-case hex digit of a value below sixteen.
pub open spec fn hex_digit_upper(n: u8) -> u8 {
    if n < 10 {
        (48 + n) as u8
    } else {
        (55 + n) as u8
    }
}

/// Percent-encodes a byte sequence: every byte except the unreserved
/// ones becomes `%` and two upper-case hex digits.
pub open spec fn url_encode_bytes(s: Seq<u8>) -> Seq<u8>
    decreases s.len(),
{
    if s.len() == 0 {
        Seq::empty()
    } else {
        url_encode_bytes(s.drop_last()) + (if is_url_unreserved(s.last()) {
            seq![s.last()]
        } else {
            seq![37u8, hex_digit_upper(s.last() >> 4), hex_digit_upper(s.last() & 15)]
        })
    }
}

/// Relies on `urlencoding::encode`: percent-encodes the string's UTF-8
/// bytes exactly as `url_encode_bytes` says, and the result is ASCII, so
/// its characters are its bytes.
#[verifier::external_body]
pub fn url_encode(s: &str) -> (r: String)
    ensures
        r@ == chars_of_bytes(url_encode_bytes(crate::headers::str_bytes(s@))),
{
    urlencoding::encode(s).into_owned()
}

} // verus!
