//! Character-level helpers for the attribute values of a dialect file.

use vstd::prelude::*;
use vstd::string::*;

verus! {

/// The characters of `s`, in order.
pub fn chars_of(s: &str) -> (r: Vec<char>)
    ensures
        r@ == s@,
{
    let n = s.unicode_len();
    let mut out: Vec<char> = Vec::new();
    let mut i: usize = 0;
    while i < n
        invariant
            n == s@.len(),
            i <= n,
            out@ == s@.subrange(0, i as int),
        decreases n - i,
    {
        let c = s.get_char(i);
        out.push(c);
        i += 1;
        assert(out@ == s@.subrange(0, i as int));
    }
    assert(s@.subrange(0, n as int) == s@);
    out
}

/// Does the slice `text[from..to]` spell `word`?
pub fn range_is_word(text: &Vec<char>, from: usize, to: usize, word: &str) -> (r: bool)
    requires
        from <= to <= text.len(),
    ensures
        r == (text@.subrange(from as int, to as int) == word@),
{
    let n = word.unicode_len();
    if to - from != n {
        return false;
    }
    let ghost part = text@.subrange(from as int, to as int);
    let mut i: usize = 0;
    while i < n
        invariant
            n == word@.len(),
            from <= to <= text.len(),
            to - from == n,
            i <= n,
            part == text@.subrange(from as int, to as int),
            forall|j: int| 0 <= j < i ==> part[j] == word@[j],
        decreases n - i,
    {
        if text[from + i] != word.get_char(i) {
            assert(part[i as int] != word@[i as int]);
            return false;
        }
        i += 1;
    }
    assert(part =~= word@);
    true
}

/// Position of the first occurrence of `c` in `text[from..]`.
pub open spec fn spec_find(text: Seq<char>, from: int, c: char) -> Option<int>
    decreases text.len() - from,
{
    if from < 0 || from >= text.len() {
        None
    } else if text[from] == c {
        Some(from)
    } else {
        spec_find(text, from + 1, c)
    }
}

/// What `spec_find` returns: the least position at or after `from` that holds `c`.
pub proof fn lemma_find_is_first(text: Seq<char>, from: int, c: char)
    requires
        0 <= from,
    ensures
        match spec_find(text, from, c) {
            Some(i) => from <= i < text.len() && text[i] == c && forall|j: int|
                from <= j < i ==> text[j] != c,
            None => forall|j: int| from <= j < text.len() ==> text[j] != c,
        },
    decreases text.len() - from,
{
    if from < text.len() && text[from] != c {
        lemma_find_is_first(text, from + 1, c);
    }
}

/// Finds the first `c` at or after `from`.
pub fn find_char(text: &Vec<char>, from: usize, c: char) -> (r: Option<usize>)
    requires
        from <= text.len(),
    ensures
        match r {
            Some(i) => spec_find(text@, from as int, c) == Some(i as int),
            None => spec_find(text@, from as int, c) is None,
        },
{
    let mut i: usize = from;
    while i < text.len()
        invariant
            from <= i <= text.len(),
            spec_find(text@, from as int, c) == spec_find(text@, i as int, c),
        decreases text.len() - i,
    {
        if text[i] == c {
            return Some(i);
        }
        i += 1;
    }
    None
}

/// The value of a decimal digit character.
pub open spec fn spec_digit(c: char) -> int {
    c as u32 as int - 0x30
}

pub open spec fn spec_is_digit(c: char) -> bool {
    0x30 <= c as u32 <= 0x39
}

/// The number that a run of decimal digits writes, most significant first.
pub open spec fn spec_decimal(digits: Seq<char>) -> nat
    decreases digits.len(),
{
    if digits.len() == 0 {
        0
    } else {
        (spec_decimal(digits.drop_last()) * 10 + spec_digit(digits.last())) as nat
    }
}

/// An unsigned decimal number as text: an optional `+`, then one or more
/// ASCII digits, with a value of at most `max`.
pub open spec fn spec_parse_decimal(text: Seq<char>, max: nat) -> Option<nat> {
    if text.len() > 0 && text[0] == '+' {
        spec_parse_digits(text.skip(1), max)
    } else {
        spec_parse_digits(text, max)
    }
}

/// One or more ASCII digits with a value of at most `max`.
pub open spec fn spec_parse_digits(digits: Seq<char>, max: nat) -> Option<nat> {
    if digits.len() == 0 {
        None
    } else if !(forall|i: int| 0 <= i < digits.len() ==> spec_is_digit(#[trigger] digits[i])) {
        None
    } else if spec_decimal(digits) > max {
        None
    } else {
        Some(spec_decimal(digits))
    }
}

/// A decimal number that fits the machine word.
pub open spec fn spec_parse_usize(text: Seq<char>) -> Option<usize> {
    match spec_parse_decimal(text, usize::MAX as nat) {
        Some(n) => Some(n as usize),
        None => None,
    }
}

/// A decimal number that fits 32 bits.
pub open spec fn spec_parse_u32(text: Seq<char>) -> Option<u32> {
    match spec_parse_decimal(text, u32::MAX as nat) {
        Some(n) => Some(n as u32),
        None => None,
    }
}

/// A prefix of a digit run never writes a larger number than the whole run.
pub proof fn lemma_decimal_prefix_le(digits: Seq<char>, k: int)
    requires
        0 <= k <= digits.len(),
        forall|i: int| 0 <= i < digits.len() ==> spec_is_digit(#[trigger] digits[i]),
    ensures
        spec_decimal(digits.subrange(0, k)) <= spec_decimal(digits),
    decreases digits.len() - k,
{
    if k == digits.len() {
        assert(digits.subrange(0, k) == digits);
    } else {
        let next = digits.subrange(0, k + 1);
        assert(next.drop_last() == digits.subrange(0, k));
        assert(spec_is_digit(digits[k]));
        assert(next.last() == digits[k]);
        lemma_decimal_prefix_le(digits, k + 1);
    }
}

/// Reads `text[from..to]` as an unsigned decimal number of at most `max`.
pub fn parse_decimal(text: &Vec<char>, from: usize, to: usize, max: u64) -> (r: Option<u64>)
    requires
        from <= to <= text.len(),
    ensures
        r == match spec_parse_decimal(text@.subrange(from as int, to as int), max as nat) {
            Some(n) => Some(n as u64),
            None => None,
        },
        r matches Some(n) ==> n <= max,
{
    let ghost whole = text@.subrange(from as int, to as int);
    let start: usize = if from < to && text[from] == '+' {
        from + 1
    } else {
        from
    };
    let ghost digits = text@.subrange(start as int, to as int);
    proof {
        if start == from {
            assert(digits == whole);
            if from < to {
                assert(whole[0] == text@[from as int]);
            }
        } else {
            assert(whole[0] == text@[from as int]);
            assert(digits == whole.skip(1));
        }
    }
    assert(spec_parse_decimal(whole, max as nat) == spec_parse_digits(digits, max as nat));
    if start == to {
        return None;
    }
    let mut acc: u64 = 0;
    let mut i: usize = start;
    while i < to
        invariant
            start <= i <= to <= text.len(),
            digits == text@.subrange(start as int, to as int),
            start < to,
            spec_parse_decimal(text@.subrange(from as int, to as int), max as nat)
                == spec_parse_digits(digits, max as nat),
            forall|j: int| 0 <= j < i - start ==> spec_is_digit(#[trigger] digits[j]),
            acc == spec_decimal(digits.subrange(0, i - start)),
            acc <= max,
        decreases to - i,
    {
        let c = text[i];
        assert(c == digits[i - start]);
        let code: u32 = c as u32;
        if code < 0x30 || code > 0x39 {
            assert(!spec_is_digit(digits[i - start]));
            return None;
        }
        let d: u64 = (code - 0x30) as u64;
        let ghost next = digits.subrange(0, i - start + 1);
        proof {
            assert(next.drop_last() == digits.subrange(0, i - start));
            assert(next.last() == c);
            assert(spec_decimal(next) == acc * 10 + d);
        }
        let over: bool = d > max || acc > (max - d) / 10;
        if over {
            proof {
                assert(acc * 10 + d > max);
                if forall|j: int| 0 <= j < digits.len() ==> spec_is_digit(#[trigger] digits[j]) {
                    lemma_decimal_prefix_le(digits, i - start + 1);
                }
            }
            return None;
        }
        acc = acc * 10 + d;
        i += 1;
    }
    assert(digits.subrange(0, to - start) == digits);
    Some(acc)
}

/// Reads `text[from..to]` as a `usize`.
pub fn parse_usize(text: &Vec<char>, from: usize, to: usize) -> (r: Option<usize>)
    requires
        from <= to <= text.len(),
    ensures
        r == spec_parse_usize(text@.subrange(from as int, to as int)),
{
    match parse_decimal(text, from, to, usize::MAX as u64) {
        Some(n) => Some(n as usize),
        None => None,
    }
}

/// Reads the whole of `text` as a `u32`.
pub fn parse_u32(text: &str) -> (r: Option<u32>)
    ensures
        r == spec_parse_u32(text@),
{
    let chars = chars_of(text);
    assert(chars@.subrange(0, chars.len() as int) == chars@);
    match parse_decimal(&chars, 0, chars.len(), u32::MAX as u64) {
        Some(n) => Some(n as u32),
        None => None,
    }
}

/// Are two strings the same text?
pub fn str_equal(a: &str, b: &str) -> (r: bool)
    ensures
        r == (a@ == b@),
{
    let x = a.to_owned();
    let y = b.to_owned();
    x == y
}

} // verus!
