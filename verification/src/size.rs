//! Sizes as the user writes them: a decimal number and a unit, such as
//! `39bytes`, `3kb` or `1GB`.

use vstd::prelude::*;
use crate::text::chars_of;

verus! {

/// The bytes in a `kb`.
pub const KB: u64 = 1024;

/// The bytes in an `mb`.
pub const MB: u64 = 1_048_576;

/// The bytes in a `gb`.
pub const GB: u64 = 1_073_741_824;

/// The lower-case form of a text: what `str::to_lowercase` makes of it.
pub uninterp spec fn lowercase(text: Seq<char>) -> Seq<char>;

/// Whether `c` is a decimal digit.
pub open spec fn is_digit(c: char) -> bool {
    '0' <= c && c <= '9'
}

/// How many characters at the front of `text` are digits or `+`: where the
/// number ends and the unit begins.
pub open spec fn number_len(text: Seq<char>) -> int
    decreases text.len(),
{
    if text.len() > 0 && (text[0] == '+' || is_digit(text[0])) {
        1 + number_len(text.skip(1))
    } else {
        0
    }
}

/// Whether `text` holds digits only.
pub open spec fn all_digits(text: Seq<char>) -> bool {
    forall|i: int| 0 <= i < text.len() ==> is_digit(#[trigger] text[i])
}

/// The number that a sequence of digits writes.
pub open spec fn digits_value(digits: Seq<char>) -> nat
    decreases digits.len(),
{
    if digits.len() == 0 {
        0
    } else {
        digits_value(digits.drop_last()) * 10 + (digits.last() as u32 - '0' as u32) as nat
    }
}

/// The number that `digits` writes, where they are digits, at least one,
/// and write a number that a `u64` holds.
pub open spec fn digits_number(digits: Seq<char>) -> Option<u64> {
    if digits.len() > 0 && all_digits(digits) && digits_value(digits) <= u64::MAX {
        Some(digits_value(digits) as u64)
    } else {
        None
    }
}

/// The number that `text` writes: digits, with or without a `+` before
/// them.
pub open spec fn decimal_value(text: Seq<char>) -> Option<u64> {
    if text.len() > 0 && text[0] == '+' {
        digits_number(text.skip(1))
    } else {
        digits_number(text)
    }
}

/// The number of bytes in one of `unit`, where `unit` is the name of a unit.
pub open spec fn unit_factor(unit: Seq<char>) -> Option<u64> {
    if unit == seq!['b'] || unit == seq!['b', 'y', 't', 'e', 's'] {
        Some(1)
    } else if unit == seq!['k', 'b'] {
        Some(KB)
    } else if unit == seq!['m', 'b'] {
        Some(MB)
    } else if unit == seq!['g', 'b'] {
        Some(GB)
    } else {
        None
    }
}

/// The size in bytes that a lower-case `text` writes: a number, then a unit,
/// with nothing before, between or behind them, and a product that a `u64`
/// holds.
pub open spec fn size_of(text: Seq<char>) -> Option<u64> {
    let split = number_len(text);
    match (decimal_value(text.take(split)), unit_factor(text.skip(split))) {
        (Some(number), Some(factor)) => if number * factor <= u64::MAX {
            Some((number * factor) as u64)
        } else {
            None
        },
        _ => None,
    }
}

/// More digits never write a smaller number.
proof fn lemma_digits_value_grows(digits: Seq<char>, n: int)
    requires
        0 <= n <= digits.len(),
    ensures
        digits_value(digits.take(n)) <= digits_value(digits),
    decreases digits.len() - n,
{
    if n < digits.len() {
        assert(digits.take(n + 1).drop_last() == digits.take(n));
        lemma_digits_value_grows(digits, n + 1);
    } else {
        assert(digits.take(n) == digits);
    }
}

/// A position up to which the text holds digits and `+` only, and at which
/// it holds neither, is where the number ends.
proof fn lemma_number_len_unique(text: Seq<char>, k: int)
    requires
        0 <= k <= text.len(),
        forall|i: int| 0 <= i < k ==> (#[trigger] text[i]) == '+' || is_digit(text[i]),
        k < text.len() ==> text[k] != '+' && !is_digit(text[k]),
    ensures
        number_len(text) == k,
    decreases text.len(),
{
    if k > 0 {
        lemma_number_len_unique(text.skip(1), k - 1);
    }
}

/// Lower case: `str::to_lowercase`, which returns the lower-case form of
/// `text` as a new `String`.
#[verifier::external_body]
fn to_lowercase(text: &str) -> (lower: String)
    ensures
        lower@ == lowercase(text@),
{
    text.to_lowercase()
}

/// Reads `chars[lo..hi]` as a number.
fn decimal(chars: &[char], lo: usize, hi: usize) -> (r: Option<u64>)
    requires
        lo <= hi <= chars@.len(),
    ensures
        r == decimal_value(chars@.subrange(lo as int, hi as int)),
{
    let ghost text = chars@.subrange(lo as int, hi as int);
    let start = if lo < hi && chars[lo] == '+' {
        lo + 1
    } else {
        lo
    };
    let ghost digits = chars@.subrange(start as int, hi as int);
    assert(digits == if text.len() > 0 && text[0] == '+' {
        text.skip(1)
    } else {
        text
    });
    if start == hi {
        return None;
    }
    let mut value: u64 = 0;
    let mut i: usize = start;
    while i < hi
        invariant
            start <= i <= hi <= chars@.len(),
            digits == chars@.subrange(start as int, hi as int),
            decimal_value(chars@.subrange(lo as int, hi as int)) == digits_number(digits),
            all_digits(digits.take(i - start)),
            value == digits_value(digits.take(i - start)),
        decreases hi - i,
    {
        let c = chars[i];
        let ghost upto = digits.take(i - start + 1);
        proof {
            assert(upto.drop_last() == digits.take(i - start));
        }
        if !('0' <= c && c <= '9') {
            assert(!is_digit(digits[i - start]));
            return None;
        }
        let digit: u64 = (c as u32 - 48) as u64;
        let next = match value.checked_mul(10) {
            Some(tens) => tens.checked_add(digit),
            None => None,
        };
        match next {
            Some(sum) => {
                value = sum;
            },
            None => {
                proof {
                    lemma_digits_value_grows(digits, i - start + 1);
                }
                return None;
            },
        }
        i += 1;
    }
    assert(digits.take(i - start) == digits);
    Some(value)
}

/// The names of the units, character by character.
proof fn lemma_unit_names(name: Seq<char>)
    ensures
        name == seq!['b'] <==> name.len() == 1 && name[0] == 'b',
        name == seq!['b', 'y', 't', 'e', 's'] <==> name.len() == 5 && name[0] == 'b' && name[1]
            == 'y' && name[2] == 't' && name[3] == 'e' && name[4] == 's',
        name == seq!['k', 'b'] <==> name.len() == 2 && name[0] == 'k' && name[1] == 'b',
        name == seq!['m', 'b'] <==> name.len() == 2 && name[0] == 'm' && name[1] == 'b',
        name == seq!['g', 'b'] <==> name.len() == 2 && name[0] == 'g' && name[1] == 'b',
{
    if name.len() == 1 && name[0] == 'b' {
        assert(name =~= seq!['b']);
    }
    if name.len() == 5 && name[0] == 'b' && name[1] == 'y' && name[2] == 't' && name[3] == 'e'
        && name[4] == 's' {
        assert(name =~= seq!['b', 'y', 't', 'e', 's']);
    }
    if name.len() == 2 && name[1] == 'b' {
        assert(name[0] == 'k' ==> name =~= seq!['k', 'b']);
        assert(name[0] == 'm' ==> name =~= seq!['m', 'b']);
        assert(name[0] == 'g' ==> name =~= seq!['g', 'b']);
    }
}

/// Reads `chars[lo..hi]` as the name of a unit.
fn unit(chars: &[char], lo: usize, hi: usize) -> (r: Option<u64>)
    requires
        lo <= hi <= chars@.len(),
    ensures
        r == unit_factor(chars@.subrange(lo as int, hi as int)),
{
    proof {
        lemma_unit_names(chars@.subrange(lo as int, hi as int));
    }
    let len = hi - lo;
    if len == 1 && chars[lo] == 'b' {
        Some(1)
    } else if len == 5 && chars[lo] == 'b' && chars[lo + 1] == 'y' && chars[lo + 2] == 't'
        && chars[lo + 3] == 'e' && chars[lo + 4] == 's' {
        Some(1)
    } else if len == 2 && chars[lo + 1] == 'b' && chars[lo] == 'k' {
        Some(KB)
    } else if len == 2 && chars[lo + 1] == 'b' && chars[lo] == 'm' {
        Some(MB)
    } else if len == 2 && chars[lo + 1] == 'b' && chars[lo] == 'g' {
        Some(GB)
    } else {
        None
    }
}

/// Reads a size from a text in lower case. It is there exactly where the
/// text is a number followed by one of the units `b`, `bytes`, `kb`, `mb`
/// and `gb`, and the size fits a `u64`.
pub fn parse_size(text: &str) -> (size: Option<u64>)
    ensures
        size == size_of(text@),
{
    let chars = chars_of(text);
    let n = chars.len();
    let mut split: usize = 0;
    while split < n && (chars[split] == '+' || ('0' <= chars[split] && chars[split] <= '9'))
        invariant
            split <= n == chars@.len(),
            forall|i: int| 0 <= i < split ==> (#[trigger] chars@[i]) == '+' || is_digit(chars@[i]),
        decreases n - split,
    {
        split += 1;
    }
    proof {
        lemma_number_len_unique(chars@, split as int);
    }
    match (decimal(chars.as_slice(), 0, split), unit(chars.as_slice(), split, n)) {
        (Some(number), Some(factor)) => number.checked_mul(factor),
        _ => None,
    }
}

/// Reads a size, in upper or lower case: the size that the lower-case form
/// of `size_str` writes.
pub fn parse_size_string(size_str: &str) -> (size: Option<u64>)
    ensures
        size == size_of(lowercase(size_str@)),
{
    let lower = to_lowercase(size_str);
    parse_size(lower.as_str())
}

} // verus!
