//! The key of a report: which group it belongs to.

use vstd::prelude::*;
use vstd::utf8::*;
use crate::digest::{digest_text, hex_digest};
use crate::normalize::{normalize_bytes, normalized};
use crate::text::{extend_bytes, has_prefix, starts_with_bytes};

verus! {

/// The bytes of `error`, with which the category of every grouped report
/// begins.
pub open spec fn error_prefix() -> Seq<u8> {
    seq![0x65u8, 0x72u8, 0x72u8, 0x6fu8, 0x72u8]
}

/// Whether reports of this category are grouped.
pub open spec fn is_error_category(category: Seq<char>) -> bool {
    has_prefix(encode_utf8(category), error_prefix())
}

/// What is digested for a report: the normalized message, a hyphen, and the
/// category.
pub open spec fn signature(message: Seq<char>, category: Seq<char>) -> Seq<u8> {
    normalized(encode_utf8(message)) + seq![0x2du8] + encode_utf8(category)
}

/// The key of a report: the digest of its signature, in hexadecimal.
pub open spec fn key_text(message: Seq<char>, category: Seq<char>) -> Seq<char> {
    digest_text(signature(message, category))
}

/// Whether reports of this category are grouped: those whose category begins
/// with `error`.
pub fn is_error_log(log_type: &str) -> (grouped: bool)
    ensures
        grouped == is_error_category(log_type@),
{
    let prefix: [u8; 5] = [0x65, 0x72, 0x72, 0x6f, 0x72];
    starts_with_bytes(log_type.as_bytes(), prefix.as_slice())
}

/// The key of the group that a report with this message and category belongs
/// to.
pub fn group_key(message: &str, log_type: &str) -> (key: String)
    ensures
        key@ == key_text(message@, log_type@),
        key@.len() == 32,
{
    let mut data = normalize_bytes(message.as_bytes());
    data.push(0x2d);
    extend_bytes(&mut data, log_type.as_bytes());
    assert(data@ =~= signature(message@, log_type@));
    hex_digest(data.as_slice())
}

/// Two reports whose normalized messages agree, in the same category, have
/// the same key.
pub proof fn lemma_same_normalized_message_same_key(
    first: Seq<char>,
    second: Seq<char>,
    category: Seq<char>,
)
    requires
        normalized(encode_utf8(first)) == normalized(encode_utf8(second)),
    ensures
        key_text(first, category) == key_text(second, category),
{
}

} // verus!
