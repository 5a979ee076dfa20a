//! Text: the order of names, and what the standard library does to strings.

use vstd::prelude::*;
use vstd::relations::total_ordering;
use vstd::utf8::{encode_utf8, encode_utf8_decode_utf8};

verus! {

/// The number of leading positions at which two byte strings agree.
pub open spec fn common_prefix(a: Seq<u8>, b: Seq<u8>) -> nat
    decreases a.len(),
{
    if a.len() > 0 && b.len() > 0 && a[0] == b[0] {
        1 + common_prefix(a.drop_first(), b.drop_first())
    } else {
        0
    }
}

/// Lexicographic order on byte strings: `a` comes first where it is a prefix
/// of `b`, or holds the smaller byte at the first position where they differ.
pub open spec fn bytes_leq(a: Seq<u8>, b: Seq<u8>) -> bool {
    let k: int = common_prefix(a, b) as int;
    k == a.len() || (k < b.len() && a[k] < b[k])
}

/// The order of names: that of their UTF-8 encodings, byte by byte. This is
/// the order in which the standard library compares strings.
pub open spec fn name_leq(a: Seq<char>, b: Seq<char>) -> bool {
    bytes_leq(encode_utf8(a), encode_utf8(b))
}

/// What `common_prefix` computes: the strings agree below it, and differ at
/// it unless one of them ends there.
pub proof fn lemma_common_prefix(a: Seq<u8>, b: Seq<u8>)
    ensures
        common_prefix(a, b) <= a.len(),
        common_prefix(a, b) <= b.len(),
        forall|i: int| 0 <= i < common_prefix(a, b) ==> a[i] == b[i],
        common_prefix(a, b) < a.len() && common_prefix(a, b) < b.len() ==> a[common_prefix(
            a,
            b,
        ) as int] != b[common_prefix(a, b) as int],
    decreases a.len(),
{
    if a.len() > 0 && b.len() > 0 && a[0] == b[0] {
        let x = a.drop_first();
        let y = b.drop_first();
        lemma_common_prefix(x, y);
        assert forall|i: int| 0 <= i < common_prefix(a, b) implies a[i] == b[i] by {
            if i > 0 {
                assert(b[i] == y[i - 1]);
            }
        }
    }
}

/// A position below which two strings agree, and at which they differ or one
/// of them ends, is their common prefix.
pub proof fn lemma_common_prefix_is(a: Seq<u8>, b: Seq<u8>, k: int)
    requires
        0 <= k <= a.len(),
        k <= b.len(),
        forall|i: int| 0 <= i < k ==> a[i] == b[i],
        k < a.len() && k < b.len() ==> a[k] != b[k],
    ensures
        common_prefix(a, b) == k,
{
    lemma_common_prefix(a, b);
}

/// Byte strings are totally ordered by `bytes_leq`.
pub proof fn lemma_bytes_leq_total()
    ensures
        total_ordering(|a: Seq<u8>, b: Seq<u8>| bytes_leq(a, b)),
{
    let leq = |a: Seq<u8>, b: Seq<u8>| bytes_leq(a, b);
    assert forall|a: Seq<u8>| #[trigger] leq(a, a) by {
        lemma_common_prefix_is(a, a, a.len() as int);
    }
    assert forall|a: Seq<u8>, b: Seq<u8>| #[trigger] leq(a, b) && #[trigger] leq(b, a) implies a
        == b by {
        lemma_common_prefix(a, b);
        lemma_common_prefix(b, a);
        lemma_common_prefix_is(b, a, common_prefix(a, b) as int);
    }
    assert forall|a: Seq<u8>, b: Seq<u8>, c: Seq<u8>| #[trigger]
        leq(a, b) && #[trigger] leq(b, c) implies leq(a, c) by {
        lemma_bytes_leq_transitive(a, b, c);
    }
    assert forall|a: Seq<u8>, b: Seq<u8>| #[trigger] leq(a, b) || #[trigger] leq(b, a) by {
        lemma_common_prefix(a, b);
        lemma_common_prefix_is(b, a, common_prefix(a, b) as int);
    }
}

/// `bytes_leq` is transitive.
pub proof fn lemma_bytes_leq_transitive(a: Seq<u8>, b: Seq<u8>, c: Seq<u8>)
    requires
        bytes_leq(a, b),
        bytes_leq(b, c),
    ensures
        bytes_leq(a, c),
{
    lemma_common_prefix(a, b);
    lemma_common_prefix(b, c);
    let ab: int = common_prefix(a, b) as int;
    let bc: int = common_prefix(b, c) as int;
    let k: int = if ab < bc {
        ab
    } else {
        bc
    };
    assert(forall|i: int| 0 <= i < k ==> a[i] == c[i]);
    lemma_common_prefix_is(a, c, k);
}

/// Names are totally ordered by `name_leq`.
pub proof fn lemma_name_leq_total()
    ensures
        total_ordering(|a: Seq<char>, b: Seq<char>| name_leq(a, b)),
{
    lemma_bytes_leq_total();
    let bytes = |a: Seq<u8>, b: Seq<u8>| bytes_leq(a, b);
    let leq = |a: Seq<char>, b: Seq<char>| name_leq(a, b);
    assert forall|a: Seq<char>| #[trigger] leq(a, a) by {
        assert(bytes(encode_utf8(a), encode_utf8(a)));
    }
    assert forall|a: Seq<char>, b: Seq<char>| #[trigger] leq(a, b) && #[trigger] leq(b, a) implies a
        == b by {
        assert(bytes(encode_utf8(a), encode_utf8(b)) && bytes(encode_utf8(b), encode_utf8(a)));
        encode_utf8_decode_utf8(a);
        encode_utf8_decode_utf8(b);
    }
    assert forall|a: Seq<char>, b: Seq<char>, c: Seq<char>| #[trigger]
        leq(a, b) && #[trigger] leq(b, c) implies leq(a, c) by {
        assert(bytes(encode_utf8(a), encode_utf8(b)) && bytes(encode_utf8(b), encode_utf8(c)));
    }
    assert forall|a: Seq<char>, b: Seq<char>| #[trigger] leq(a, b) || #[trigger] leq(b, a) by {
        assert(bytes(encode_utf8(a), encode_utf8(b)) || bytes(encode_utf8(b), encode_utf8(a)));
    }
}

/// Whether `a` comes before `b`, or is `b`, in the order of names.
pub fn name_precedes(a: &str, b: &str) -> (before: bool)
    ensures
        before == name_leq(a@, b@),
{
    let x = a.as_bytes();
    let y = b.as_bytes();
    let mut i: usize = 0;
    while i < x.len() && i < y.len() && x[i] == y[i]
        invariant
            i <= x.len(),
            i <= y.len(),
            forall|j: int| 0 <= j < i ==> x@[j] == y@[j],
        decreases x.len() - i,
    {
        i += 1;
    }
    proof {
        lemma_common_prefix_is(x@, y@, i as int);
    }
    i == x.len() || (i < y.len() && x[i] < y[i])
}

/// Whether a character is white space: whether it has the Unicode property
/// `White_Space`, which twenty-five characters have.
pub open spec fn white_space(c: char) -> bool {
    let code: u32 = c as u32;
    ||| 0x0009 <= code <= 0x000D
    ||| code == 0x0020
    ||| code == 0x0085
    ||| code == 0x00A0
    ||| code == 0x1680
    ||| 0x2000 <= code <= 0x200A
    ||| code == 0x2028
    ||| code == 0x2029
    ||| code == 0x202F
    ||| code == 0x205F
    ||| code == 0x3000
}

/// What is left of a text once the white space at both of its ends is gone.
pub open spec fn trimmed(text: Seq<char>) -> Seq<char>
    decreases text.len(),
{
    if text.len() > 0 && white_space(text.first()) {
        trimmed(text.drop_first())
    } else if text.len() > 0 && white_space(text.last()) {
        trimmed(text.drop_last())
    } else {
        text
    }
}

/// A trimmed text neither begins nor ends with white space, and trimming it
/// again changes nothing.
pub proof fn lemma_trimmed(text: Seq<char>)
    ensures
        trimmed(text).len() > 0 ==> !white_space(trimmed(text).first()) && !white_space(
            trimmed(text).last(),
        ),
        trimmed(trimmed(text)) == trimmed(text),
    decreases text.len(),
{
    if text.len() > 0 && white_space(text.first()) {
        lemma_trimmed(text.drop_first());
    } else if text.len() > 0 && white_space(text.last()) {
        lemma_trimmed(text.drop_last());
    }
}

/// Whether `pattern` stands somewhere in `text`, character for character.
pub open spec fn occurs_in(pattern: Seq<char>, text: Seq<char>) -> bool {
    exists|i: int|
        0 <= i <= text.len() - pattern.len() && #[trigger] text.subrange(i, i + pattern.len())
            == pattern
}

/// Whether a character is one of the decimal digits `0` to `9`.
pub open spec fn is_digit(c: char) -> bool {
    '0' as u32 <= c as u32 <= '9' as u32
}

/// The number that a string of decimal digits writes.
pub open spec fn decimal_value(digits: Seq<char>) -> nat
    decreases digits.len(),
{
    if digits.len() == 0 {
        0
    } else {
        (10 * decimal_value(digits.drop_last()) + (digits.last() as u32 - '0' as u32)) as nat
    }
}

/// Whether every character is a decimal digit.
pub open spec fn all_digits(digits: Seq<char>) -> bool {
    forall|i: int| 0 <= i < digits.len() ==> is_digit(#[trigger] digits[i])
}

/// The unsigned 32-bit number that a string of digits writes: there is one
/// digit or more and nothing else, and the number is within range.
pub open spec fn digits_u32(digits: Seq<char>) -> Option<u32> {
    if digits.len() > 0 && all_digits(digits) && decimal_value(digits) <= u32::MAX {
        Some(decimal_value(digits) as u32)
    } else {
        None
    }
}

/// The unsigned 32-bit number that a text writes in decimal: an optional `+`,
/// then one digit or more and nothing else, the number within range.
pub open spec fn decimal_u32(text: Seq<char>) -> Option<u32> {
    if text.len() > 0 && text[0] == '+' {
        digits_u32(text.skip(1))
    } else {
        digits_u32(text)
    }
}

/// A text with a character that is neither a digit nor a `+` in front writes
/// no number.
pub proof fn lemma_not_decimal(text: Seq<char>, at: int)
    requires
        0 <= at < text.len(),
        !is_digit(text[at]),
        at > 0 || text[0] != '+',
    ensures
        decimal_u32(text) is None,
{
    if text[0] == '+' {
        assert(text.skip(1)[at - 1] == text[at]);
    }
}

/// `str::trim`: the text without its leading and trailing white space, which
/// is every character that has the Unicode property `White_Space`.
#[verifier::external_body]
pub(crate) fn trim(text: &str) -> (inner: &str)
    ensures
        inner@ == trimmed(text@),
{
    text.trim()
}

/// `str::contains` with a string pattern: whether the pattern occurs in the
/// text.
#[verifier::external_body]
pub(crate) fn contains(text: &str, pattern: &str) -> (found: bool)
    ensures
        found == occurs_in(pattern@, text@),
{
    text.contains(pattern)
}

/// `str::ends_with` with a character pattern: whether the text's last
/// character is the given one.
#[verifier::external_body]
pub(crate) fn ends_with(text: &str, last: char) -> (found: bool)
    ensures
        found == (text@.len() > 0 && text@.last() == last),
{
    text.ends_with(last)
}

/// `str::parse::<u32>`: the number that the text writes in decimal, or `None`
/// where it writes none that fits.
#[verifier::external_body]
pub(crate) fn parse_u32(text: &str) -> (number: Option<u32>)
    ensures
        number == decimal_u32(text@),
{
    match text.parse::<u32>() {
        Ok(n) => Some(n),
        Err(_) => None,
    }
}

} // verus!
