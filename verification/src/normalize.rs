//! Message normalization: volatile memory addresses are replaced by a fixed
//! token, so that the same failure at different addresses reads the same.

use vstd::prelude::*;

verus! {

/// Whether `b` is an ASCII hexadecimal digit, in either case.
pub open spec fn is_hex_digit(b: u8) -> bool {
    (0x30 <= b && b <= 0x39) || (0x41 <= b && b <= 0x46) || (0x61 <= b && b <= 0x66)
}

/// How many hexadecimal digits `s` begins with.
pub open spec fn hex_run(s: Seq<u8>) -> nat
    decreases s.len(),
{
    if s.len() > 0 && is_hex_digit(s[0]) {
        1 + hex_run(s.drop_first())
    } else {
        0
    }
}

/// Whether an address stands at the start of `s`: `0x` and at least one
/// hexadecimal digit.
pub open spec fn starts_address(s: Seq<u8>) -> bool {
    s.len() >= 3 && s[0] == 0x30 && s[1] == 0x78 && is_hex_digit(s[2])
}

/// The token that stands for an address: the bytes of `<addr>`.
pub open spec fn placeholder() -> Seq<u8> {
    seq![0x3cu8, 0x61u8, 0x64u8, 0x64u8, 0x72u8, 0x3eu8]
}

/// `s` with every address replaced by the placeholder. Addresses are taken
/// from left to right, each with all the digits that follow its `0x`.
pub open spec fn normalized(s: Seq<u8>) -> Seq<u8>
    decreases s.len(),
{
    if s.len() == 0 {
        s
    } else if starts_address(s) {
        proof {
            lemma_hex_run_bounded(s.skip(2));
        }
        placeholder() + normalized(s.skip(2 + hex_run(s.skip(2)) as int))
    } else {
        seq![s[0]] + normalized(s.drop_first())
    }
}

/// A run of digits is no longer than the text it starts.
pub proof fn lemma_hex_run_bounded(s: Seq<u8>)
    ensures
        hex_run(s) <= s.len(),
    decreases s.len(),
{
    if s.len() > 0 && is_hex_digit(s[0]) {
        lemma_hex_run_bounded(s.drop_first());
    }
}

/// Whether `b` is an ASCII hexadecimal digit, in either case.
fn hex_digit_byte(b: u8) -> (r: bool)
    ensures
        r == is_hex_digit(b),
{
    (0x30 <= b && b <= 0x39) || (0x41 <= b && b <= 0x46) || (0x61 <= b && b <= 0x66)
}

/// Replaces every address in `message` by the placeholder.
pub fn normalize_bytes(message: &[u8]) -> (out: Vec<u8>)
    ensures
        out@ == normalized(message@),
{
    let n = message.len();
    let mut out: Vec<u8> = Vec::new();
    let mut i: usize = 0;
    proof {
        assert(message@.skip(0) =~= message@);
    }
    while i < n
        invariant
            n == message.len(),
            i <= n,
            out@ + normalized(message@.skip(i as int)) == normalized(message@),
        decreases n - i,
    {
        let ghost rest = message@.skip(i as int);
        if n - i >= 3 && message[i] == 0x30 && message[i + 1] == 0x78 && hex_digit_byte(
            message[i + 2],
        ) {
            let mut j: usize = i + 2;
            while j < n && hex_digit_byte(message[j])
                invariant
                    n == message.len(),
                    i + 2 <= j <= n,
                    hex_run(message@.skip(i + 2)) == (j - (i + 2)) + hex_run(
                        message@.skip(j as int),
                    ),
                decreases n - j,
            {
                proof {
                    assert(message@.skip(j as int).drop_first() =~= message@.skip(j + 1));
                }
                j = j + 1;
            }
            out.push(0x3c);
            out.push(0x61);
            out.push(0x64);
            out.push(0x64);
            out.push(0x72);
            out.push(0x3e);
            proof {
                assert(rest.skip(2) =~= message@.skip(i + 2));
                assert(rest.skip(2 + (j - (i + 2))) =~= message@.skip(j as int));
            }
            i = j;
        } else {
            out.push(message[i]);
            proof {
                assert(rest.drop_first() =~= message@.skip(i + 1));
            }
            i = i + 1;
        }
    }
    out
}

/// Whether `s` holds hexadecimal digits only.
pub open spec fn all_hex(s: Seq<u8>) -> bool {
    forall|i: int| 0 <= i < s.len() ==> is_hex_digit(#[trigger] s[i])
}

/// Whether `s` is empty or begins with something else than a hexadecimal
/// digit, so that a run of digits before it ends there.
pub open spec fn ends_run(s: Seq<u8>) -> bool {
    s.len() == 0 || !is_hex_digit(s[0])
}

/// Digits followed by something else make a run of exactly those digits.
pub proof fn lemma_hex_run_of_digits(digits: Seq<u8>, rest: Seq<u8>)
    requires
        all_hex(digits),
        ends_run(rest),
    ensures
        hex_run(digits + rest) == digits.len(),
    decreases digits.len(),
{
    if digits.len() > 0 {
        assert((digits + rest).drop_first() =~= digits.drop_first() + rest);
        lemma_hex_run_of_digits(digits.drop_first(), rest);
    }
}

/// An address at the start of a text becomes the placeholder, whatever its
/// digits are.
pub proof fn lemma_address_is_replaced(digits: Seq<u8>, rest: Seq<u8>)
    requires
        digits.len() >= 1,
        all_hex(digits),
        ends_run(rest),
    ensures
        normalized(seq![0x30u8, 0x78u8] + digits + rest) == placeholder() + normalized(rest),
{
    let s = seq![0x30u8, 0x78u8] + digits + rest;
    assert(s.skip(2) =~= digits + rest);
    lemma_hex_run_of_digits(digits, rest);
    assert(s.skip(2 + digits.len() as int) =~= rest);
}

/// Text without the digit `0` holds no address, and is kept as it is
/// before whatever follows it.
pub proof fn lemma_plain_front_is_kept(front: Seq<u8>, rest: Seq<u8>)
    requires
        forall|i: int| 0 <= i < front.len() ==> front[i] != 0x30,
    ensures
        normalized(front + rest) == front + normalized(rest),
    decreases front.len(),
{
    let s = front + rest;
    if front.len() > 0 {
        assert(s.drop_first() =~= front.drop_first() + rest);
        lemma_plain_front_is_kept(front.drop_first(), rest);
    }
}

/// Two messages that differ only in the digits of one address read the
/// same once normalized: the text before the address holds no `0`, and the
/// text after it does not go on with a digit.
pub proof fn lemma_address_digits_do_not_matter(
    front: Seq<u8>,
    first: Seq<u8>,
    second: Seq<u8>,
    rest: Seq<u8>,
)
    requires
        forall|i: int| 0 <= i < front.len() ==> front[i] != 0x30,
        first.len() >= 1,
        all_hex(first),
        second.len() >= 1,
        all_hex(second),
        ends_run(rest),
    ensures
        normalized(front + (seq![0x30u8, 0x78u8] + first + rest)) == normalized(
            front + (seq![0x30u8, 0x78u8] + second + rest),
        ),
        normalized(front + (seq![0x30u8, 0x78u8] + first + rest)) == front + placeholder()
            + normalized(rest),
{
    lemma_plain_front_is_kept(front, seq![0x30u8, 0x78u8] + first + rest);
    lemma_plain_front_is_kept(front, seq![0x30u8, 0x78u8] + second + rest);
    lemma_address_is_replaced(first, rest);
    lemma_address_is_replaced(second, rest);
    assert(front + (placeholder() + normalized(rest)) =~= front + placeholder() + normalized(
        rest,
    ));
}

/// Whether no address stands anywhere in `s`.
pub open spec fn is_address_free(s: Seq<u8>) -> bool {
    forall|k: int| 0 <= k <= s.len() ==> !starts_address(#[trigger] s.skip(k))
}

/// Text that holds no address is kept as it is.
pub proof fn lemma_address_free_text_is_kept(s: Seq<u8>)
    requires
        is_address_free(s),
    ensures
        normalized(s) == s,
    decreases s.len(),
{
    assert(s.skip(0) =~= s);
    if s.len() > 0 {
        let rest = s.drop_first();
        assert forall|k: int| 0 <= k <= rest.len() implies !starts_address(
            #[trigger] rest.skip(k),
        ) by {
            assert(rest.skip(k) =~= s.skip(k + 1));
        }
        lemma_address_free_text_is_kept(rest);
    }
}

/// Normalized text begins with the placeholder where the text began with
/// an address, and with the same byte where it did not.
pub proof fn lemma_normalized_head(s: Seq<u8>)
    requires
        s.len() > 0,
    ensures
        normalized(s).len() > 0,
        normalized(s)[0] == if starts_address(s) {
            0x3c
        } else {
            s[0]
        },
{
}

/// Normalized text holds no address.
pub proof fn lemma_normalized_is_address_free(s: Seq<u8>)
    ensures
        is_address_free(normalized(s)),
    decreases s.len(),
{
    let out = normalized(s);
    if s.len() == 0 {
        assert forall|k: int| 0 <= k <= out.len() implies !starts_address(
            #[trigger] out.skip(k),
        ) by {}
    } else if starts_address(s) {
        lemma_hex_run_bounded(s.skip(2));
        let rest = s.skip(2 + hex_run(s.skip(2)) as int);
        lemma_normalized_is_address_free(rest);
        let tail = normalized(rest);
        assert forall|k: int| 0 <= k <= out.len() implies !starts_address(
            #[trigger] out.skip(k),
        ) by {
            if k < 6 {
                assert(out.skip(k)[0] == placeholder()[k]);
            } else {
                assert(out.skip(k) =~= tail.skip(k - 6));
            }
        }
    } else {
        let rest = s.drop_first();
        lemma_normalized_is_address_free(rest);
        let tail = normalized(rest);
        assert(out == seq![s[0]] + tail);
        assert forall|k: int| 0 <= k <= out.len() implies !starts_address(
            #[trigger] out.skip(k),
        ) by {
            if k >= 1 {
                assert(out.skip(k) =~= tail.skip(k - 1));
            } else {
                assert(out.skip(0) =~= out);
                if starts_address(out) {
                    assert(out[1] == tail[0]);
                    assert(out[2] == tail[1]);
                    lemma_normalized_head(rest);
                    assert(!starts_address(rest));
                    assert(rest[0] == 0x78);
                    let after = rest.drop_first();
                    assert(tail == seq![rest[0]] + normalized(after));
                    assert(tail[1] == normalized(after)[0]);
                    assert(after.len() > 0) by {
                        if after.len() == 0 {
                            assert(normalized(after).len() == 0);
                        }
                    }
                    lemma_normalized_head(after);
                    assert(after[0] == s[2]);
                    assert(rest[0] == s[1]);
                    assert(starts_address(s));
                }
            }
        }
    }
}

/// Normalizing a second time changes nothing.
pub proof fn lemma_normalizing_twice_is_once(s: Seq<u8>)
    ensures
        normalized(normalized(s)) == normalized(s),
{
    lemma_normalized_is_address_free(s);
    lemma_address_free_text_is_kept(normalized(s));
}

} // verus!
