//! Content digests and their hexadecimal text form.

use vstd::prelude::*;

verus! {

/// The MD5 digest of a byte string (RFC 1321), as sixteen bytes.
pub uninterp spec fn md5_of(data: Seq<u8>) -> Seq<u8>;

/// Calls `md5::compute` and takes the sixteen bytes out of the `Digest` it
/// returns. Trusted: the result is the digest of exactly the bytes given,
/// the same for the same bytes on every call.
#[verifier::external_body]
fn md5_digest(data: &[u8]) -> (out: [u8; 16])
    ensures
        out@ == md5_of(data@),
{
    md5::compute(data).0
}

/// The sixteen lower-case hexadecimal digits, by value.
pub open spec fn hex_digits() -> Seq<char> {
    seq!['0', '1', '2', '3', '4', '5', '6', '7', '8', '9', 'a', 'b', 'c', 'd', 'e', 'f']
}

/// The digit at position `i` of the lower-case hexadecimal text of `bytes`:
/// two digits per byte, the high half first.
pub open spec fn hex_digit_at(bytes: Seq<u8>, i: int) -> char {
    if i % 2 == 0 {
        hex_digits()[bytes[i / 2] as int / 16]
    } else {
        hex_digits()[bytes[i / 2] as int % 16]
    }
}

/// Lower-case hexadecimal text of `bytes`.
pub open spec fn hex_lower(bytes: Seq<u8>) -> Seq<char> {
    Seq::new(2 * bytes.len(), |i: int| hex_digit_at(bytes, i))
}

/// The one-character text of a hexadecimal digit.
fn hex_digit_text(d: u8) -> (text: &'static str)
    requires
        d < 16,
    ensures
        text@ == seq![hex_digits()[d as int]],
{
    proof {
        reveal_strlit("0");
        reveal_strlit("1");
        reveal_strlit("2");
        reveal_strlit("3");
        reveal_strlit("4");
        reveal_strlit("5");
        reveal_strlit("6");
        reveal_strlit("7");
        reveal_strlit("8");
        reveal_strlit("9");
        reveal_strlit("a");
        reveal_strlit("b");
        reveal_strlit("c");
        reveal_strlit("d");
        reveal_strlit("e");
        reveal_strlit("f");
    }
    let text = match d {
        0 => "0",
        1 => "1",
        2 => "2",
        3 => "3",
        4 => "4",
        5 => "5",
        6 => "6",
        7 => "7",
        8 => "8",
        9 => "9",
        10 => "a",
        11 => "b",
        12 => "c",
        13 => "d",
        14 => "e",
        _ => "f",
    };
    text
}

/// Writes `bytes` as lower-case hexadecimal text, two digits per byte.
pub fn to_hex(bytes: &[u8]) -> (text: String)
    ensures
        text@ == hex_lower(bytes@),
{
    let mut text = String::new();
    let mut i: usize = 0;
    while i < bytes.len()
        invariant
            i <= bytes.len(),
            text@.len() == 2 * i,
            forall|k: int| 0 <= k < 2 * i ==> text@[k] == hex_digit_at(bytes@, k),
        decreases bytes.len() - i,
    {
        let b: u8 = bytes[i];
        let ghost before = text@;
        text.append(hex_digit_text(b / 16));
        text.append(hex_digit_text(b % 16));
        proof {
            assert(text@ =~= before.push(hex_digits()[b as int / 16]).push(
                hex_digits()[b as int % 16],
            ));
            assert forall|k: int| 0 <= k < 2 * (i + 1) implies text@[k] == hex_digit_at(
                bytes@,
                k,
            ) by {}
        }
        i = i + 1;
    }
    text
}

/// The digest of `data` as thirty-two lower-case hexadecimal digits.
pub open spec fn digest_text(data: Seq<u8>) -> Seq<char> {
    hex_lower(md5_of(data))
}

/// Digest of `data`, in hexadecimal.
pub fn hex_digest(data: &[u8]) -> (text: String)
    ensures
        text@ == digest_text(data@),
        text@.len() == 32,
{
    let raw = md5_digest(data);
    to_hex(raw.as_slice())
}

} // verus!
