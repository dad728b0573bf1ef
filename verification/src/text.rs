//! Small helpers on text.

use vstd::prelude::*;
use vstd::slice::slice_subrange;
use vstd::utf8::*;

verus! {

/// Two texts with the same encoding are the same text.
pub proof fn lemma_encoding_is_injective(a: Seq<char>, b: Seq<char>)
    requires
        encode_utf8(a) == encode_utf8(b),
    ensures
        a == b,
{
    encode_utf8_decode_utf8(a);
    encode_utf8_decode_utf8(b);
}

/// Whether two byte strings are equal.
pub fn bytes_equal(a: &[u8], b: &[u8]) -> (same: bool)
    ensures
        same == (a@ == b@),
{
    if a.len() != b.len() {
        return false;
    }
    let mut i: usize = 0;
    while i < a.len()
        invariant
            a.len() == b.len(),
            i <= a.len(),
            forall|k: int| 0 <= k < i ==> a@[k] == b@[k],
        decreases a.len() - i,
    {
        if a[i] != b[i] {
            return false;
        }
        i = i + 1;
    }
    assert(a@ =~= b@);
    true
}

/// Whether two texts are equal.
pub fn text_equal(a: &str, b: &str) -> (same: bool)
    ensures
        same == (a@ == b@),
{
    let same = bytes_equal(a.as_bytes(), b.as_bytes());
    proof {
        if same {
            lemma_encoding_is_injective(a@, b@);
        }
    }
    same
}

/// Whether `text` begins with `prefix`.
pub open spec fn has_prefix(text: Seq<u8>, prefix: Seq<u8>) -> bool {
    prefix.len() <= text.len() && text.subrange(0, prefix.len() as int) == prefix
}

/// Whether `text` begins with `prefix`.
pub fn starts_with_bytes(text: &[u8], prefix: &[u8]) -> (starts: bool)
    ensures
        starts == has_prefix(text@, prefix@),
{
    if prefix.len() > text.len() {
        return false;
    }
    let mut i: usize = 0;
    while i < prefix.len()
        invariant
            prefix.len() <= text.len(),
            i <= prefix.len(),
            forall|k: int| 0 <= k < i ==> text@[k] == prefix@[k],
        decreases prefix.len() - i,
    {
        if text[i] != prefix[i] {
            return false;
        }
        i = i + 1;
    }
    assert(text@.subrange(0, prefix.len() as int) =~= prefix@);
    true
}

/// Whether `needle` stands somewhere in `text`.
pub open spec fn has_part(text: Seq<u8>, needle: Seq<u8>) -> bool {
    exists|k: int| 0 <= k <= text.len() && #[trigger] has_prefix(text.skip(k), needle)
}

/// Whether `needle` stands somewhere in `text`.
pub fn contains_bytes(text: &[u8], needle: &[u8]) -> (found: bool)
    ensures
        found == has_part(text@, needle@),
{
    let mut k: usize = 0;
    while k < text.len()
        invariant
            k <= text.len(),
            forall|j: int| 0 <= j < k ==> !has_prefix(text@.skip(j), needle@),
        decreases text.len() - k,
    {
        let rest = slice_subrange(text, k, text.len());
        if starts_with_bytes(rest, needle) {
            return true;
        }
        k = k + 1;
    }
    let end = slice_subrange(text, k, text.len());
    starts_with_bytes(end, needle)
}

/// The part of `text` before the first byte `stop`: all of it where it has
/// none.
pub open spec fn part_before(text: Seq<u8>, stop: u8) -> Seq<u8>
    decreases text.len(),
{
    if text.len() == 0 || text[0] == stop {
        Seq::empty()
    } else {
        seq![text[0]] + part_before(text.drop_first(), stop)
    }
}

/// The part of `text` before its first line break: all of it where it has
/// none.
pub open spec fn first_line(text: Seq<u8>) -> Seq<u8> {
    part_before(text, 0x0a)
}

/// How long the part of `text` before the first byte `stop` is. Where the
/// result is short of the length of `text`, `stop` stands there.
pub fn part_before_len(text: &[u8], stop: u8) -> (len: usize)
    ensures
        len <= text.len(),
        text@.take(len as int) == part_before(text@, stop),
        len < text.len() ==> text@[len as int] == stop,
{
    let mut i: usize = 0;
    proof {
        assert(text@.skip(0) =~= text@);
    }
    while i < text.len() && text[i] != stop
        invariant
            i <= text.len(),
            text@.take(i as int) + part_before(text@.skip(i as int), stop) == part_before(
                text@,
                stop,
            ),
        decreases text.len() - i,
    {
        proof {
            let rest = text@.skip(i as int);
            assert(rest.drop_first() =~= text@.skip(i + 1));
            assert(text@.take(i + 1) + part_before(text@.skip(i + 1), stop) =~= text@.take(
                i as int,
            ) + part_before(rest, stop));
        }
        i = i + 1;
    }
    i
}

/// How long the first line of `text` is.
pub fn first_line_len(text: &[u8]) -> (len: usize)
    ensures
        len <= text.len(),
        text@.take(len as int) == first_line(text@),
{
    part_before_len(text, 0x0a)
}

/// Appends `tail` to `bytes`.
pub fn extend_bytes(bytes: &mut Vec<u8>, tail: &[u8])
    ensures
        final(bytes)@ == old(bytes)@ + tail@,
{
    let mut i: usize = 0;
    while i < tail.len()
        invariant
            i <= tail.len(),
            bytes@ == old(bytes)@ + tail@.subrange(0, i as int),
        decreases tail.len() - i,
    {
        bytes.push(tail[i]);
        i = i + 1;
    }
}

} // verus!
