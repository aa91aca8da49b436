//! The calls into other crates, with what is claimed of each.

use crate::text;
use sha2::Digest;
use vstd::prelude::*;

verus! {

/// The error of `hex::decode`.
#[verifier::external_type_specification]
#[verifier::external_body]
pub struct ExFromHexError(hex::FromHexError);

/// Whether `c` is a hexadecimal digit of either case.
pub open spec fn is_hex(c: char) -> bool {
    '0' <= c <= '9' || 'a' <= c <= 'f' || 'A' <= c <= 'F'
}

/// The value of a hexadecimal digit.
pub open spec fn hex_value(c: char) -> int {
    if c <= '9' {
        c as int - '0' as int
    } else if c <= 'F' {
        c as int - 'A' as int + 10
    } else {
        c as int - 'a' as int + 10
    }
}

/// The bytes a hexadecimal text stands for: two digits of either case
/// per byte, the high one first.
pub open spec fn hex_decoded(s: Seq<char>) -> Option<Seq<u8>> {
    if s.len() % 2 == 0 && forall|i: int| 0 <= i < s.len() ==> is_hex(#[trigger] s[i]) {
        Some(
            Seq::new(
                s.len() / 2,
                |i: int| (hex_value(s[2 * i]) * 16 + hex_value(s[2 * i + 1])) as u8,
            ),
        )
    } else {
        None
    }
}

/// The lower-case hexadecimal text of `b`: two digits per byte, the
/// high one first.
pub open spec fn hex_encoded(b: Seq<u8>) -> Seq<char> {
    Seq::new(
        2 * b.len(),
        |i: int|
            if i % 2 == 0 {
                text::digit(b[i / 2] as int / 16)
            } else {
                text::digit(b[i / 2] as int % 16)
            },
    )
}

/// `hex::decode` on text: the decoded bytes where every character is a
/// hexadecimal digit and their number is even, an error everywhere else.
#[verifier::external_body]
pub(crate) fn hex_decode(s: &str) -> (r: Result<Vec<u8>, hex::FromHexError>)
    ensures
        match r {
            Ok(v) => hex_decoded(s@) == Some(v@),
            Err(_) => hex_decoded(s@) is None,
        },
{
    hex::decode(s)
}

/// `hex::encode`: the lower-case hexadecimal text of the bytes.
#[verifier::external_body]
pub(crate) fn hex_encode(bytes: &[u8]) -> (r: String)
    ensures
        r@ == hex_encoded(bytes@),
{
    hex::encode(bytes)
}

/// The SHA-256 digest of `data`.
pub uninterp spec fn sha256(data: Seq<u8>) -> Seq<u8>;

/// `sha2::Sha256::digest`: the digest, which is 32 bytes long.
#[verifier::external_body]
pub(crate) fn sha256_digest(data: &[u8]) -> (r: Vec<u8>)
    ensures
        r@ == sha256(data@),
        r@.len() == 32,
{
    sha2::Sha256::digest(data).to_vec()
}

/// `rand::random` for 32 bytes; nothing is claimed of them.
#[verifier::external_body]
pub(crate) fn random_bytes() -> (r: [u8; 32])
{
    rand::random()
}

/// `rand::random` for a `u32`; nothing is claimed of it.
#[verifier::external_body]
pub(crate) fn random_u32() -> (r: u32)
{
    rand::random()
}

/// Decoding what was encoded gives the bytes back.
pub proof fn law_hex_round_trip(b: Seq<u8>)
    ensures
        hex_decoded(hex_encoded(b)) == Some(b),
{
    let s = hex_encoded(b);
    assert forall|i: int| 0 <= i < s.len() implies is_hex(#[trigger] s[i]) by {
        assert(0 <= i / 2 < b.len());
    }
    assert(s.len() % 2 == 0);
    assert forall|i: int| 0 <= i < b.len() implies (hex_value(s[2 * i]) * 16 + hex_value(
        s[2 * i + 1],
    )) as u8 == #[trigger] b[i] by {
        assert((2 * i) / 2 == i && (2 * i + 1) / 2 == i);
        assert(0 <= b[i] as int / 16 < 16);
    }
    assert(hex_decoded(s)->0 =~= b);
}

/// The text of bytes has two lower-case digits for each, and upper-case
/// digits read as the same bytes; a text of odd length, or with any other
/// character in it, reads as none.
pub proof fn law_hex_is_two_digits_a_byte(b: Seq<u8>, i: int, s: Seq<char>, j: int)
    requires
        0 <= i < b.len(),
        0 <= j < s.len(),
    ensures
        hex_encoded(b).len() == 2 * b.len(),
        ({
            let value = |c: char|
                if '0' <= c <= '9' {
                    c as int - '0' as int
                } else {
                    c as int - 'a' as int + 10
                };
            let (high, low) = (hex_encoded(b)[2 * i], hex_encoded(b)[2 * i + 1]);
            &&& '0' <= high <= '9' || 'a' <= high <= 'f'
            &&& '0' <= low <= '9' || 'a' <= low <= 'f'
            &&& value(high) * 16 + value(low) == b[i]
        }),
        s.len() % 2 == 1 ==> hex_decoded(s) is None,
        !('0' <= s[j] <= '9' || 'a' <= s[j] <= 'f' || 'A' <= s[j] <= 'F') ==> hex_decoded(s) is None,
{
    assert((2 * i) / 2 == i && (2 * i + 1) / 2 == i);
    assert(0 <= b[i] as int / 16 < 16);
    assert(!is_hex(s[j]) ==> hex_decoded(s) is None);
}

} // verus!
