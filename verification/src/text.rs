//! Text as bytes: splitting into fields, comparing with a word, reading
//! a number.

use vstd::prelude::*;

verus! {

/// What each of the byte vectors holds.
pub open spec fn views(items: Seq<Vec<u8>>) -> Seq<Seq<u8>> {
    Seq::new(items.len(), |i: int| items[i]@)
}

/// The fields of `text` between the separators `sep`: one more field
/// than there are separators, empty fields included.
pub open spec fn spec_split(text: Seq<u8>, sep: u8) -> Seq<Seq<u8>>
    decreases text.len(),
{
    if text.len() == 0 {
        seq![Seq::empty()]
    } else {
        let earlier = spec_split(text.drop_last(), sep);
        if text.last() == sep {
            earlier.push(Seq::empty())
        } else {
            earlier.drop_last().push(earlier.last().push(text.last()))
        }
    }
}

/// Splits `text` at every `sep`.
pub fn split(text: &[u8], sep: u8) -> (parts: Vec<Vec<u8>>)
    ensures
        views(parts@) == spec_split(text@, sep),
{
    let mut parts: Vec<Vec<u8>> = Vec::new();
    let mut current: Vec<u8> = Vec::new();
    let mut i: usize = 0;
    proof {
        assert(text@.take(0) =~= Seq::<u8>::empty());
        assert(views(parts@).push(current@) =~= spec_split(text@.take(0), sep));
    }
    while i < text.len()
        invariant
            i <= text@.len(),
            views(parts@).push(current@) == spec_split(text@.take(i as int), sep),
        decreases text@.len() - i,
    {
        let ghost before = views(parts@);
        let ghost field = current@;
        proof {
            assert(text@.take(i + 1).drop_last() =~= text@.take(i as int));
            assert(before.push(field).drop_last() =~= before);
        }
        if text[i] == sep {
            parts.push(current);
            current = Vec::new();
            proof {
                assert(views(parts@) =~= before.push(field));
            }
        } else {
            current.push(text[i]);
            proof {
                assert(views(parts@).push(current@) =~= before.push(field).drop_last().push(
                    before.push(field).last().push(text@[i as int]),
                ));
            }
        }
        i += 1;
    }
    let ghost before = views(parts@);
    let ghost field = current@;
    parts.push(current);
    proof {
        assert(text@.take(text@.len() as int) =~= text@);
        assert(views(parts@) =~= before.push(field));
    }
    parts
}

/// Whether two texts hold the same bytes.
pub fn same_bytes(a: &[u8], b: &[u8]) -> (same: bool)
    ensures
        same == (a@ == b@),
{
    if a.len() != b.len() {
        return false;
    }
    let mut i: usize = 0;
    while i < a.len()
        invariant
            i <= a@.len(),
            a@.len() == b@.len(),
            forall|j: int| 0 <= j < i ==> a@[j] == b@[j],
        decreases a@.len() - i,
    {
        if a[i] != b[i] {
            return false;
        }
        i += 1;
    }
    proof {
        assert(a@ =~= b@);
    }
    true
}

/// The value of a run of decimal digits; nothing where a byte is no
/// digit. The empty run has the value 0.
pub open spec fn digits_value(text: Seq<u8>) -> Option<int>
    decreases text.len(),
{
    if text.len() == 0 {
        Some(0)
    } else {
        match digits_value(text.drop_last()) {
            Some(value) => if 0x30 <= text.last() <= 0x39 {
                Some(value * 10 + (text.last() - 0x30))
            } else {
                None
            },
            None => None,
        }
    }
}

/// The digits of a number: the text without a leading plus sign.
pub open spec fn number_digits(text: Seq<u8>) -> Seq<u8> {
    if text.len() > 0 && text[0] == 0x2b {
        text.subrange(1, text.len() as int)
    } else {
        text
    }
}

/// The number that a text stands for: at least one decimal digit, after
/// at most one plus sign, with a value that fits 64 bits.
pub open spec fn spec_number(text: Seq<u8>) -> Option<u64> {
    let digits = number_digits(text);
    if digits.len() == 0 {
        None
    } else {
        match digits_value(digits) {
            Some(value) => if value <= u64::MAX {
                Some(value as u64)
            } else {
                None
            },
            None => None,
        }
    }
}

/// A run with a bad start is bad, and a run is worth no less than its start.
proof fn lemma_digits_grow(text: Seq<u8>, k: int)
    requires
        0 <= k <= text.len(),
    ensures
        digits_value(text.take(k)) is None ==> digits_value(text) is None,
        digits_value(text) matches Some(whole) ==> digits_value(text.take(k)) matches Some(part)
            && 0 <= part <= whole,
    decreases text.len() - k,
{
    if k == text.len() {
        assert(text.take(k) =~= text);
        lemma_digits_positive(text);
    } else {
        lemma_digits_grow(text, k + 1);
        assert(text.take(k + 1).drop_last() =~= text.take(k));
        lemma_digits_positive(text.take(k));
    }
}

/// No run of digits has a negative value.
proof fn lemma_digits_positive(text: Seq<u8>)
    ensures
        digits_value(text) matches Some(value) ==> value >= 0,
    decreases text.len(),
{
    if text.len() > 0 {
        lemma_digits_positive(text.drop_last());
    }
}

/// Reads a decimal number.
pub fn number(text: &[u8]) -> (r: Option<u64>)
    ensures
        r == spec_number(text@),
{
    let start: usize = if text.len() > 0 && text[0] == 0x2b {
        1
    } else {
        0
    };
    if start == text.len() {
        return None;
    }
    let ghost digits = number_digits(text@);
    let mut value: u64 = 0;
    let mut i: usize = start;
    proof {
        assert(digits.take(0) =~= Seq::<u8>::empty());
    }
    while i < text.len()
        invariant
            start <= i <= text@.len(),
            start <= 1,
            digits == number_digits(text@),
            digits.len() == text@.len() - start,
            forall|j: int| 0 <= j < digits.len() ==> digits[j] == text@[j + start],
            digits_value(digits.take(i - start)) == Some(value as int),
        decreases text@.len() - i,
    {
        let byte: u8 = text[i];
        proof {
            assert(digits.take(i - start + 1).drop_last() =~= digits.take(i - start));
            lemma_digits_grow(digits, i - start + 1);
        }
        if byte < 0x30 || byte > 0x39 {
            return None;
        }
        let digit: u64 = (byte - 0x30) as u64;
        if value > (u64::MAX - digit) / 10 {
            return None;
        }
        value = value * 10 + digit;
        i += 1;
    }
    proof {
        assert(digits.take(digits.len() as int) =~= digits);
    }
    Some(value)
}

/// The fields of a text between runs of white space, each as its bytes.
pub uninterp spec fn whitespace_tokens(text: Seq<char>) -> Seq<Seq<u8>>;

/// Splits a line at white space with `str::split_whitespace`, and hands
/// out each field as its bytes. Trusted: that the fields are those that
/// `split_whitespace` yields for the text, in its order.
#[verifier::external_body]
pub(crate) fn split_whitespace(line: &str) -> (tokens: Vec<Vec<u8>>)
    ensures
        views(tokens@) == whitespace_tokens(line@),
{
    let mut tokens: Vec<Vec<u8>> = Vec::new();
    for token in line.split_whitespace() {
        tokens.push(token.as_bytes().to_vec());
    }
    tokens
}

} // verus!
