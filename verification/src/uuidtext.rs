//! Text form of the 16 raw bytes of a UUID column value.
//!
//! Rendering is fully specified: `uuid_hyphenated` is the canonical lowercase
//! hyphenated form (8-4-4-4-12 hex digits). Parsing is done by the `uuid`
//! crate, which accepts several equivalent spellings; what it reads from a
//! given text is named by `uuid_text_bytes`.

use vstd::prelude::*;

verus! {

pub open spec fn hex_digit_char(d: int) -> char {
    if d < 10 {
        crate::numtext::digit_char(d)
    } else if d == 10 {
        'a'
    } else if d == 11 {
        'b'
    } else if d == 12 {
        'c'
    } else if d == 13 {
        'd'
    } else if d == 14 {
        'e'
    } else {
        'f'
    }
}

/// Two lowercase hex digits, high nibble first.
pub open spec fn byte_hex(b: u8) -> Seq<char> {
    seq![hex_digit_char(b as int / 16), hex_digit_char(b as int % 16)]
}

pub open spec fn bytes_hex(bs: Seq<u8>) -> Seq<char>
    decreases bs.len(),
{
    if bs.len() == 0 {
        Seq::empty()
    } else {
        byte_hex(bs[0]) + bytes_hex(bs.drop_first())
    }
}

/// The canonical lowercase hyphenated rendering of 16 UUID bytes.
pub open spec fn uuid_hyphenated(b: Seq<u8>) -> Seq<char> {
    bytes_hex(b.subrange(0, 4)) + seq!['-'] + bytes_hex(b.subrange(4, 6)) + seq!['-'] + bytes_hex(
        b.subrange(6, 8),
    ) + seq!['-'] + bytes_hex(b.subrange(8, 10)) + seq!['-'] + bytes_hex(b.subrange(10, 16))
}

/// The 16 bytes that `uuid::Uuid::parse_str` reads from a text, when it
/// accepts the text; the parser accepts several spellings (simple,
/// hyphenated, urn, braced), so the relation is named rather than written
/// out.
pub uninterp spec fn uuid_text_bytes(s: Seq<char>) -> Option<Seq<u8>>;

/// Relies on `uuid::Uuid::parse_str` and `Uuid::as_bytes`: parsing either
/// succeeds with the 16 bytes the text denotes or fails, depending on the
/// text alone.
#[verifier::external_body]
pub fn uuid_from_text(s: &str) -> (r: Option<Vec<u8>>)
    ensures
        r matches Some(v) ==> uuid_text_bytes(s@) == Some(v@) && v@.len() == 16,
        r is None ==> uuid_text_bytes(s@) is None,
{
    match uuid::Uuid::parse_str(s) {
        Ok(u) => Some(u.as_bytes().to_vec()),
        Err(_) => None,
    }
}

/// Relies on `uuid::Uuid::from_bytes` and its `Display` form: the rendering
/// is the lowercase hyphenated hex of the 16 bytes, and `Uuid::parse_str`
/// accepts that rendering and reads the same bytes back.
#[verifier::external_body]
pub fn uuid_to_text(b: &[u8]) -> (r: String)
    requires
        b@.len() == 16,
    ensures
        r@ == uuid_hyphenated(b@),
        uuid_text_bytes(r@) == Some(b@),
{
    let mut a = [0u8; 16];
    a.copy_from_slice(b);
    uuid::Uuid::from_bytes(a).to_string()
}

} // verus!
