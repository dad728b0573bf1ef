//! The list of a group's reporters as storage keeps it: the ids in decimal,
//! with commas between them.

use vstd::prelude::*;
use vstd::slice::slice_subrange;
use vstd::utf8::*;
use crate::decimal::{decimal_digits, decimal_text, natural_text, push_decimal};
use crate::text::{part_before, part_before_len};

verus! {

/// Whether `b` is an ASCII decimal digit.
pub open spec fn is_digit(b: u8) -> bool {
    0x30 <= b && b <= 0x39
}

/// Whether `s` holds decimal digits only.
pub open spec fn all_digits(s: Seq<u8>) -> bool {
    forall|i: int| 0 <= i < s.len() ==> is_digit(#[trigger] s[i])
}

/// What a decimal digit counts for; any other byte counts for nothing.
pub open spec fn digit_value(b: u8) -> nat {
    if is_digit(b) {
        (b - 0x30) as nat
    } else {
        0
    }
}

/// The number that the decimal digits `s` write.
pub open spec fn digits_value(s: Seq<u8>) -> nat
    decreases s.len(),
{
    if s.len() == 0 {
        0
    } else {
        digits_value(s.drop_last()) * 10 + digit_value(s.last())
    }
}

/// Whether `s` begins with a plus or a minus sign.
pub open spec fn is_signed(s: Seq<u8>) -> bool {
    s.len() > 0 && (s[0] == 0x2d || s[0] == 0x2b)
}

/// The id that `segment` writes, if it writes one: an optional sign and at
/// least one decimal digit, of a value that an id can have.
pub open spec fn id_of(segment: Seq<u8>) -> Option<i32> {
    let body = if is_signed(segment) {
        segment.drop_first()
    } else {
        segment
    };
    let value = if segment.len() > 0 && segment[0] == 0x2d {
        -digits_value(body)
    } else {
        digits_value(body) as int
    };
    if body.len() > 0 && all_digits(body) && i32::MIN <= value <= i32::MAX {
        Some(value as i32)
    } else {
        None
    }
}

/// The ids that `list` holds: of its segments between commas, those that
/// write an id, in order. Any other segment is passed over.
pub open spec fn member_ids(list: Seq<u8>) -> Seq<i32>
    decreases list.len(),
{
    let first = part_before(list, 0x2c);
    let rest = if first.len() < list.len() {
        member_ids(list.skip(first.len() + 1 as int))
    } else {
        Seq::empty()
    };
    match id_of(first) {
        Some(id) => seq![id] + rest,
        None => rest,
    }
}

/// The text of `ids`: each in decimal, with a comma between two.
pub open spec fn joined_ids(ids: Seq<i32>) -> Seq<char>
    decreases ids.len(),
{
    if ids.len() == 0 {
        Seq::empty()
    } else if ids.len() == 1 {
        decimal_text(ids[0] as int)
    } else {
        joined_ids(ids.drop_last()) + ","@ + decimal_text(ids.last() as int)
    }
}

/// More digits never write a smaller number.
pub proof fn lemma_digits_value_grows(s: Seq<u8>, k: int)
    requires
        0 <= k <= s.len(),
    ensures
        digits_value(s.take(k)) <= digits_value(s),
    decreases s.len(),
{
    if k == s.len() {
        assert(s.take(k) =~= s);
    } else {
        assert(s.drop_last().take(k) =~= s.take(k));
        lemma_digits_value_grows(s.drop_last(), k);
    }
}

/// Reads one id.
pub fn parse_id(segment: &[u8]) -> (id: Option<i32>)
    ensures
        id == id_of(segment@),
{
    let n = segment.len();
    if n == 0 {
        return None;
    }
    let negative = segment[0] == 0x2d;
    let start: usize = if segment[0] == 0x2d || segment[0] == 0x2b {
        1
    } else {
        0
    };
    let ghost body = segment@.subrange(start as int, n as int);
    if start == n {
        return None;
    }
    let mut value: i64 = 0;
    let mut i: usize = start;
    while i < n
        invariant
            start <= i <= n,
            n == segment.len(),
            n > 0,
            negative == (segment@[0] == 0x2d),
            body == segment@.subrange(start as int, n as int),
            body == if is_signed(segment@) {
                segment@.drop_first()
            } else {
                segment@
            },
            all_digits(body.take(i - start)),
            value == digits_value(body.take(i - start)),
            value <= 0x8000_0000,
        decreases n - i,
    {
        let b: u8 = segment[i];
        if b < 0x30 || b > 0x39 {
            return None;
        }
        proof {
            assert(body.take(i - start + 1).drop_last() =~= body.take(i - start));
        }
        value = value * 10 + (b - 0x30) as i64;
        if value > 0x8000_0000 {
            proof {
                lemma_digits_value_grows(body, i - start + 1);
            }
            return None;
        }
        i = i + 1;
    }
    assert(body.take(n - start) =~= body);
    if negative {
        Some((-value) as i32)
    } else if value > 0x7fff_ffff {
        None
    } else {
        Some(value as i32)
    }
}

/// Reads the reporters of a group from the text that storage keeps: the
/// ids between the commas, in order. A segment that writes no id is passed
/// over.
pub fn parse_member_ids(list: &str) -> (ids: Vec<i32>)
    ensures
        ids@ == member_ids(encode_utf8(list@)),
{
    let bytes = list.as_bytes();
    let n = bytes.len();
    let mut ids: Vec<i32> = Vec::new();
    let mut i: usize = 0;
    let mut done = false;
    proof {
        assert(bytes@.skip(0) =~= bytes@);
        assert(ids@ + member_ids(bytes@) =~= member_ids(bytes@));
    }
    while !done
        invariant
            n == bytes.len(),
            i <= n,
            !done ==> ids@ + member_ids(bytes@.skip(i as int)) == member_ids(bytes@),
            done ==> ids@ == member_ids(bytes@),
        decreases n - i + (if done { 0int } else { 1int }),
    {
        let rest = slice_subrange(bytes, i, n);
        assert(rest@ =~= bytes@.skip(i as int));
        let k = part_before_len(rest, 0x2c);
        let segment = slice_subrange(rest, 0, k);
        assert(segment@ =~= part_before(rest@, 0x2c));
        let ghost before = ids@;
        if let Some(id) = parse_id(segment) {
            ids.push(id);
        }
        if k == rest.len() {
            proof {
                assert(ids@ =~= before + member_ids(rest@));
            }
            done = true;
        } else {
            proof {
                assert(rest@.skip(k + 1) =~= bytes@.skip(i + k + 1));
                assert(ids@ + member_ids(bytes@.skip(i + k + 1)) =~= before + member_ids(rest@));
            }
            i = i + k + 1;
        }
    }
    ids
}

/// Writes the reporters of a group as storage keeps them.
pub fn join_member_ids(ids: &Vec<i32>) -> (list: String)
    ensures
        list@ == joined_ids(ids@),
{
    let mut list = String::new();
    let mut i: usize = 0;
    while i < ids.len()
        invariant
            i <= ids.len(),
            list@ == joined_ids(ids@.take(i as int)),
        decreases ids.len() - i,
    {
        let ghost before = list@;
        let ghost shown = ids@.take(i + 1);
        if i > 0 {
            list.append(",");
        }
        push_decimal(&mut list, ids[i] as i64);
        proof {
            assert(shown.drop_last() =~= ids@.take(i as int));
            assert(shown.last() == ids@[i as int]);
            if i > 0 {
                assert(list@ =~= before + ","@ + decimal_text(ids@[i as int] as int));
            } else {
                assert(shown[0] == ids@[0]);
                assert(before =~= Seq::<char>::empty());
                assert(list@ =~= decimal_text(ids@[0] as int));
            }
        }
        i = i + 1;
    }
    assert(ids@.take(ids.len() as int) =~= ids@);
    list
}

/// The bytes of a text of ASCII characters, one for one.
pub open spec fn ascii_bytes(text: Seq<char>) -> Seq<u8> {
    Seq::new(text.len(), |i: int| text[i] as u8)
}

/// Whether `s` holds no comma.
pub open spec fn no_comma(s: Seq<u8>) -> bool {
    forall|i: int| 0 <= i < s.len() ==> #[trigger] s[i] != 0x2c
}

/// A text of ASCII characters is encoded by its bytes, one for one.
pub proof fn lemma_ascii_encoding(text: Seq<char>)
    requires
        is_ascii_chars(text),
    ensures
        encode_utf8(text) == ascii_bytes(text),
{
    is_ascii_chars_encode_utf8(text);
}

/// The byte of a decimal digit is the byte of `0` and the digit's value.
pub proof fn lemma_digit_byte(d: int)
    requires
        0 <= d < 10,
    ensures
        decimal_digits()[d] as u8 == 0x30 + d,
        '\0' <= decimal_digits()[d] <= '\u{7f}',
{
    let digits = decimal_digits();
    assert(digits[0] == '0' && digits[1] == '1' && digits[2] == '2' && digits[3] == '3'
        && digits[4] == '4');
    assert(digits[5] == '5' && digits[6] == '6' && digits[7] == '7' && digits[8] == '8'
        && digits[9] == '9');
}

/// The decimal text of a natural number is made of digits, at least one,
/// and they write that number.
pub proof fn lemma_natural_text_reads_back(n: nat)
    ensures
        is_ascii_chars(natural_text(n)),
        ascii_bytes(natural_text(n)).len() >= 1,
        all_digits(ascii_bytes(natural_text(n))),
        digits_value(ascii_bytes(natural_text(n))) == n,
    decreases n,
{
    let text = natural_text(n);
    let bytes = ascii_bytes(text);
    lemma_digit_byte((n % 10) as int);
    if n < 10 {
        assert(digits_value(bytes.drop_last()) == 0);
    } else {
        lemma_natural_text_reads_back(n / 10);
        let front = natural_text(n / 10);
        assert(bytes.drop_last() =~= ascii_bytes(front));
        assert forall|i: int| 0 <= i < bytes.len() implies is_digit(#[trigger] bytes[i]) by {
            if i < front.len() {
                assert(bytes[i] == ascii_bytes(front)[i]);
            }
        }
        assert forall|i: int| 0 <= i < text.len() implies '\0' <= #[trigger] text[i]
            <= '\u{7f}' by {}
    }
}

/// The decimal text of an id reads back as that id, and holds no comma.
pub proof fn lemma_decimal_text_reads_back(id: i32)
    ensures
        is_ascii_chars(decimal_text(id as int)),
        id_of(ascii_bytes(decimal_text(id as int))) == Some(id),
        no_comma(ascii_bytes(decimal_text(id as int))),
{
    let text = decimal_text(id as int);
    let bytes = ascii_bytes(text);
    if id < 0 {
        let magnitude = (-id) as nat;
        lemma_natural_text_reads_back(magnitude);
        let digits = ascii_bytes(natural_text(magnitude));
        assert(bytes =~= seq![0x2du8] + digits);
        assert(bytes.drop_first() =~= digits);
        assert forall|i: int| 0 <= i < text.len() implies '\0' <= #[trigger] text[i]
            <= '\u{7f}' by {}
        assert forall|i: int| 0 <= i < bytes.len() implies #[trigger] bytes[i] != 0x2c by {}
    } else {
        lemma_natural_text_reads_back(id as nat);
        assert forall|i: int| 0 <= i < bytes.len() implies #[trigger] bytes[i] != 0x2c by {}
    }
}

/// Text without a comma, followed by a comma, is the part before that
/// comma.
pub proof fn lemma_part_before_comma(first: Seq<u8>, rest: Seq<u8>)
    requires
        no_comma(first),
    ensures
        part_before(first + seq![0x2cu8] + rest, 0x2c) == first,
        part_before(first, 0x2c) == first,
    decreases first.len(),
{
    let whole = first + seq![0x2cu8] + rest;
    if first.len() > 0 {
        assert(whole.drop_first() =~= first.drop_first() + seq![0x2cu8] + rest);
        lemma_part_before_comma(first.drop_first(), rest);
    }
}

/// A list of at least two ids is written as its first id, a comma, and the
/// list of the others.
pub proof fn lemma_joined_ids_by_first(ids: Seq<i32>)
    requires
        ids.len() >= 2,
    ensures
        joined_ids(ids) == decimal_text(ids[0] as int) + ","@ + joined_ids(ids.drop_first()),
    decreases ids.len(),
{
    let head = decimal_text(ids[0] as int);
    let last = decimal_text(ids.last() as int);
    let front = ids.drop_last();
    let others = ids.drop_first();
    assert(joined_ids(ids) == joined_ids(front) + ","@ + last);
    if ids.len() > 2 {
        lemma_joined_ids_by_first(front);
        assert(front.drop_first() =~= others.drop_last());
        assert(head + ","@ + joined_ids(others.drop_last()) + ","@ + last =~= head + ","@ + (
        joined_ids(others.drop_last()) + ","@ + last));
    }
}

/// A list of ids is written in ASCII.
pub proof fn lemma_joined_ids_ascii(ids: Seq<i32>)
    ensures
        is_ascii_chars(joined_ids(ids)),
    decreases ids.len(),
{
    reveal_strlit(",");
    if ids.len() == 1 {
        lemma_decimal_text_reads_back(ids[0]);
    } else if ids.len() >= 2 {
        lemma_joined_ids_ascii(ids.drop_last());
        lemma_decimal_text_reads_back(ids.last());
        let front = joined_ids(ids.drop_last());
        let last = decimal_text(ids.last() as int);
        let text = joined_ids(ids);
        assert forall|i: int| 0 <= i < text.len() implies '\0' <= #[trigger] text[i]
            <= '\u{7f}' by {
            if i < front.len() {
                assert(text[i] == front[i]);
            } else if i > front.len() {
                assert(text[i] == last[i - front.len() - 1]);
            }
        }
    }
}

/// A list of ids that was written reads back as the same list.
pub proof fn lemma_written_list_reads_back(ids: Seq<i32>)
    ensures
        member_ids(encode_utf8(joined_ids(ids))) == ids,
    decreases ids.len(),
{
    reveal_strlit(",");
    lemma_joined_ids_ascii(ids);
    lemma_ascii_encoding(joined_ids(ids));
    let bytes = ascii_bytes(joined_ids(ids));
    if ids.len() > 0 {
        lemma_decimal_text_reads_back(ids[0]);
        let first = ascii_bytes(decimal_text(ids[0] as int));
        if ids.len() == 1 {
            lemma_part_before_comma(first, Seq::empty());
        } else {
            let others = ids.drop_first();
            lemma_joined_ids_by_first(ids);
            lemma_written_list_reads_back(others);
            lemma_joined_ids_ascii(others);
            lemma_ascii_encoding(joined_ids(others));
            let rest = ascii_bytes(joined_ids(others));
            assert(bytes =~= first + seq![0x2cu8] + rest);
            lemma_part_before_comma(first, rest);
            assert(bytes.skip(first.len() + 1 as int) =~= rest);
        }
    }
}

} // verus!
