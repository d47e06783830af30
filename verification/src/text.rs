//! Scanning of byte text: spaces, words, tokens and numbers.
//!
//! Every function works on a range `from..to` of a text, so that a line
//! or a token is a pair of positions and nothing is copied.

use vstd::prelude::*;

verus! {

/// ASCII white space: the space, and tab to carriage return.
pub open spec fn is_space(b: u8) -> bool {
    b == 32 || (9 <= b && b <= 13)
}

/// An ASCII decimal digit.
pub open spec fn is_digit(b: u8) -> bool {
    48 <= b && b <= 57
}

/// Position of the first `byte` in `from..to`, or `to` where there is none.
pub open spec fn find_byte(text: Seq<u8>, from: int, to: int, byte: u8) -> int
    decreases to - from,
{
    if from >= to {
        to
    } else if text[from] == byte {
        from
    } else {
        find_byte(text, from + 1, to, byte)
    }
}

/// Position of the first byte in `from..to` that is no space, or `to`.
pub open spec fn first_non_space(text: Seq<u8>, from: int, to: int) -> int
    decreases to - from,
{
    if from >= to {
        to
    } else if !is_space(text[from]) {
        from
    } else {
        first_non_space(text, from + 1, to)
    }
}

/// Position of the first space in `from..to`, or `to`.
pub open spec fn first_space(text: Seq<u8>, from: int, to: int) -> int
    decreases to - from,
{
    if from >= to {
        to
    } else if is_space(text[from]) {
        from
    } else {
        first_space(text, from + 1, to)
    }
}

/// Position after the last byte in `from..to` that is no space, or `from`.
pub open spec fn trimmed_end(text: Seq<u8>, from: int, to: int) -> int
    decreases to - from,
{
    if to <= from {
        from
    } else if !is_space(text[to - 1]) {
        to
    } else {
        trimmed_end(text, from, to - 1)
    }
}

/// Whether `word` stands at position `at` and ends by `to`.
pub open spec fn has_at(text: Seq<u8>, at: int, to: int, word: Seq<u8>) -> bool {
    &&& at + word.len() <= to
    &&& forall|k: int| 0 <= k < word.len() ==> text[at + k] == #[trigger] word[k]
}

/// Position of the first occurrence of `word` inside `from..to`.
pub open spec fn find_word(text: Seq<u8>, from: int, to: int, word: Seq<u8>) -> Option<int>
    decreases to - from,
{
    if from + word.len() > to {
        None
    } else if has_at(text, from, to, word) {
        Some(from)
    } else {
        find_word(text, from + 1, to, word)
    }
}

/// The `n`-th token of `from..to`, counted from zero, as its start and the
/// position after its end. Tokens are the runs of bytes between spaces.
pub open spec fn nth_token(text: Seq<u8>, from: int, to: int, n: nat) -> Option<(int, int)>
    decreases n,
{
    let start = first_non_space(text, from, to);
    if start >= to {
        None
    } else if n == 0 {
        Some((start, first_space(text, start, to)))
    } else {
        nth_token(text, first_space(text, start, to), to, (n - 1) as nat)
    }
}

/// Whether every byte of `from..to` is a digit.
pub open spec fn all_digits(text: Seq<u8>, from: int, to: int) -> bool {
    forall|i: int| from <= i < to ==> is_digit(#[trigger] text[i])
}

/// The number that the digits of `from..to` write in base ten.
pub open spec fn digits_value(text: Seq<u8>, from: int, to: int) -> nat
    decreases to - from,
{
    if to <= from {
        0
    } else {
        digits_value(text, from, to - 1) * 10 + (text[to - 1] - 48) as nat
    }
}

/// The number that `from..to` writes: one or more digits, with or without
/// a plus sign before them.
pub open spec fn number_value(text: Seq<u8>, from: int, to: int) -> Option<nat> {
    let start = if from < to && text[from] == 43 {
        from + 1
    } else {
        from
    };
    if start < to && all_digits(text, start, to) {
        Some(digits_value(text, start, to))
    } else {
        None
    }
}

/// The number that `from..to` writes, where it fits the machine word.
pub open spec fn word_value(text: Seq<u8>, from: int, to: int) -> Option<usize> {
    match number_value(text, from, to) {
        Some(v) => if v <= usize::MAX {
            Some(v as usize)
        } else {
            None
        },
        None => None,
    }
}

/// The digit at `at`, or zero where `at` is not before `to`.
pub open spec fn digit_or_zero(text: Seq<u8>, at: int, to: int) -> nat {
    if at < to {
        (text[at] - 48) as nat
    } else {
        0
    }
}

/// The whole part `from..dot` followed by the first `places` digits after
/// the point, read as one number; digits that are missing count as zero.
pub open spec fn shifted_value(text: Seq<u8>, from: int, dot: int, to: int, places: nat) -> nat
    decreases places,
{
    if places == 0 {
        digits_value(text, from, dot)
    } else {
        shifted_value(text, from, dot, to, (places - 1) as nat) * 10 + digit_or_zero(
            text,
            dot + places,
            to,
        )
    }
}

/// The decimal number that `from..to` writes, in units of `10^-places`,
/// rounded to the nearest unit, a half upwards. The number is digits, a
/// point and digits; either run of digits may be missing, not both, and
/// the point may be missing after a whole number.
pub open spec fn decimal_value(text: Seq<u8>, from: int, to: int, places: nat) -> Option<nat> {
    let dot = find_byte(text, from, to, 46);
    let after = if dot < to {
        dot + 1
    } else {
        to
    };
    if all_digits(text, from, dot) && all_digits(text, after, to) && (from < dot || after < to) {
        Some(
            shifted_value(text, from, dot, to, places) + if digit_or_zero(
                text,
                dot + places + 1,
                to,
            ) >= 5 {
                1nat
            } else {
                0nat
            },
        )
    } else {
        None
    }
}

/// A value, or the largest that 64 bits hold where it is beyond that.
pub open spec fn saturated(value: nat) -> u64 {
    if value > u64::MAX {
        u64::MAX
    } else {
        value as u64
    }
}

/// A found position lies in the range that was searched, or at its end.
pub proof fn lemma_find_byte_bounds(text: Seq<u8>, from: int, to: int, byte: u8)
    requires
        from <= to,
    ensures
        from <= find_byte(text, from, to, byte) <= to,
    decreases to - from,
{
    if from < to && text[from] != byte {
        lemma_find_byte_bounds(text, from + 1, to, byte);
    }
}

/// The first byte that is no space lies in the range, or at its end.
pub proof fn lemma_first_non_space_bounds(text: Seq<u8>, from: int, to: int)
    requires
        from <= to,
    ensures
        from <= first_non_space(text, from, to) <= to,
        first_non_space(text, from, to) < to ==> !is_space(
            text[first_non_space(text, from, to)],
        ),
    decreases to - from,
{
    if from < to && is_space(text[from]) {
        lemma_first_non_space_bounds(text, from + 1, to);
    }
}

/// A token that starts inside the range ends after its start, in the range.
pub proof fn lemma_first_space_bounds(text: Seq<u8>, from: int, to: int)
    requires
        from <= to,
    ensures
        from <= first_space(text, from, to) <= to,
        from < to && !is_space(text[from]) ==> from < first_space(text, from, to),
    decreases to - from,
{
    if from < to && !is_space(text[from]) {
        lemma_first_space_bounds(text, from + 1, to);
    }
}

/// Reading more digits never makes the number smaller.
pub proof fn lemma_digits_value_grows(text: Seq<u8>, from: int, mid: int, to: int)
    requires
        from <= mid <= to,
        all_digits(text, from, to),
    ensures
        digits_value(text, from, mid) <= digits_value(text, from, to),
    decreases to - mid,
{
    if mid < to {
        lemma_digits_value_grows(text, from, mid, to - 1);
        assert(is_digit(text[to - 1]));
    }
}

/// Position of the first `byte` in `from..to`, or `to`.
pub(crate) fn scan_byte(text: &[u8], from: usize, to: usize, byte: u8) -> (at: usize)
    requires
        from <= to <= text@.len(),
    ensures
        at == find_byte(text@, from as int, to as int, byte),
        from <= at <= to,
        at < to ==> text@[at as int] == byte,
        forall|i: int| from <= i < at ==> text@[i] != byte,
{
    let mut i = from;
    while i < to && text[i] != byte
        invariant
            from <= i <= to <= text@.len(),
            find_byte(text@, from as int, to as int, byte) == find_byte(
                text@,
                i as int,
                to as int,
                byte,
            ),
            forall|k: int| from <= k < i ==> text@[k] != byte,
        decreases to - i,
    {
        i = i + 1;
    }
    i
}

/// Whether `b` is a space.
pub(crate) fn space(b: u8) -> (yes: bool)
    ensures
        yes == is_space(b),
{
    b == 32 || (9 <= b && b <= 13)
}

/// Position of the first byte in `from..to` that is no space, or `to`.
pub(crate) fn skip_spaces(text: &[u8], from: usize, to: usize) -> (at: usize)
    requires
        from <= to <= text@.len(),
    ensures
        at == first_non_space(text@, from as int, to as int),
        from <= at <= to,
        at < to ==> !is_space(text@[at as int]),
{
    let mut i = from;
    while i < to && space(text[i])
        invariant
            from <= i <= to <= text@.len(),
            first_non_space(text@, from as int, to as int) == first_non_space(
                text@,
                i as int,
                to as int,
            ),
        decreases to - i,
    {
        i = i + 1;
    }
    i
}

/// Position of the first space in `from..to`, or `to`.
pub(crate) fn skip_word(text: &[u8], from: usize, to: usize) -> (at: usize)
    requires
        from <= to <= text@.len(),
    ensures
        at == first_space(text@, from as int, to as int),
        from <= at <= to,
        from < to && !is_space(text@[from as int]) ==> from < at,
        forall|i: int| from <= i < at ==> !is_space(text@[i]),
{
    let mut i = from;
    while i < to && !space(text[i])
        invariant
            from <= i <= to <= text@.len(),
            first_space(text@, from as int, to as int) == first_space(text@, i as int, to as int),
            forall|k: int| from <= k < i ==> !is_space(text@[k]),
        decreases to - i,
    {
        i = i + 1;
    }
    i
}

/// Position after the last byte in `from..to` that is no space, or `from`.
pub(crate) fn trim_end(text: &[u8], from: usize, to: usize) -> (at: usize)
    requires
        from <= to <= text@.len(),
    ensures
        at == trimmed_end(text@, from as int, to as int),
        from <= at <= to,
{
    let mut i = to;
    while i > from && space(text[i - 1])
        invariant
            from <= i <= to <= text@.len(),
            trimmed_end(text@, from as int, to as int) == trimmed_end(text@, from as int, i as int),
        decreases i - from,
    {
        i = i - 1;
    }
    i
}

/// Whether `word` stands at position `at` and ends by `to`.
pub(crate) fn word_at(text: &[u8], at: usize, to: usize, word: &[u8]) -> (yes: bool)
    requires
        at <= to <= text@.len(),
    ensures
        yes == has_at(text@, at as int, to as int, word@),
{
    if word.len() > to - at {
        return false;
    }
    let mut k: usize = 0;
    while k < word.len()
        invariant
            k <= word@.len(),
            at + word@.len() <= to <= text@.len(),
            forall|j: int| 0 <= j < k ==> text@[at + j] == #[trigger] word@[j],
        decreases word@.len() - k,
    {
        if text[at + k] != word[k] {
            return false;
        }
        k = k + 1;
    }
    true
}

/// Position of the first occurrence of `word` inside `from..to`.
pub(crate) fn search_word(text: &[u8], from: usize, to: usize, word: &[u8]) -> (at: Option<usize>)
    requires
        from <= to <= text@.len(),
    ensures
        match at {
            Some(p) => find_word(text@, from as int, to as int, word@) == Some(p as int) && from
                <= p && p + word@.len() <= to,
            None => find_word(text@, from as int, to as int, word@) is None,
        },
{
    let mut i = from;
    while word.len() <= to - i
        invariant
            from <= i <= to <= text@.len(),
            find_word(text@, from as int, to as int, word@) == find_word(
                text@,
                i as int,
                to as int,
                word@,
            ),
        decreases to - i,
    {
        if word_at(text, i, to, word) {
            return Some(i);
        }
        if i == to {
            // only the empty word fits here, and it was found above
            return None;
        }
        i = i + 1;
    }
    None
}

/// The first token of `from..to`, as its start and the position after its end.
pub(crate) fn next_token(text: &[u8], from: usize, to: usize) -> (token: Option<(usize, usize)>)
    requires
        from <= to <= text@.len(),
    ensures
        match token {
            Some((start, end)) => nth_token(text@, from as int, to as int, 0) == Some(
                (start as int, end as int),
            ) && from <= start < end <= to && start == first_non_space(
                text@,
                from as int,
                to as int,
            ) && end == first_space(text@, start as int, to as int),
            None => nth_token(text@, from as int, to as int, 0) is None && first_non_space(
                text@,
                from as int,
                to as int,
            ) >= to,
        },
{
    let start = skip_spaces(text, from, to);
    if start >= to {
        None
    } else {
        Some((start, skip_word(text, start, to)))
    }
}

/// The `n`-th token of `from..to`, counted from zero.
pub(crate) fn token(text: &[u8], from: usize, to: usize, n: usize) -> (out: Option<(usize, usize)>)
    requires
        from <= to <= text@.len(),
    ensures
        match out {
            Some((start, end)) => nth_token(text@, from as int, to as int, n as nat) == Some(
                (start as int, end as int),
            ) && from <= start < end <= to,
            None => nth_token(text@, from as int, to as int, n as nat) is None,
        },
{
    let mut at = from;
    let mut left = n;
    loop
        invariant
            from <= at <= to <= text@.len(),
            left <= n,
            nth_token(text@, from as int, to as int, n as nat) == nth_token(
                text@,
                at as int,
                to as int,
                left as nat,
            ),
        decreases left,
    {
        match next_token(text, at, to) {
            None => {
                return None;
            },
            Some((start, end)) => {
                if left == 0 {
                    return Some((start, end));
                }
                at = end;
                left = left - 1;
            },
        }
    }
}

/// The number that `from..to` writes, where it is one and fits.
pub(crate) fn parse_number(text: &[u8], from: usize, to: usize) -> (out: Option<usize>)
    requires
        from <= to <= text@.len(),
    ensures
        out == word_value(text@, from as int, to as int),
{
    let start = if from < to && text[from] == 43 {
        from + 1
    } else {
        from
    };
    if start >= to {
        return None;
    }
    let mut value: usize = 0;
    let mut i = start;
    while i < to
        invariant
            start <= i <= to <= text@.len(),
            start < to,
            start == if from < to && text@[from as int] == 43 {
                from + 1
            } else {
                from as int
            },
            all_digits(text@, start as int, i as int),
            value == digits_value(text@, start as int, i as int),
        decreases to - i,
    {
        let b = text[i];
        if b < 48 || b > 57 {
            assert(!is_digit(text@[i as int]));
            assert(!all_digits(text@, start as int, to as int));
            return None;
        }
        let digit = (b - 48) as usize;
        if value > (usize::MAX - digit) / 10 {
            proof {
                assert(digits_value(text@, start as int, i + 1) == value * 10 + digit);
                if all_digits(text@, start as int, to as int) {
                    lemma_digits_value_grows(text@, start as int, i + 1, to as int);
                }
            }
            return None;
        }
        value = value * 10 + digit;
        i = i + 1;
    }
    Some(value)
}

/// `value * 10 + digit`, or the largest value where that is beyond it.
fn push_digit(value: u64, digit: u8, Ghost(exact): Ghost<nat>) -> (out: u64)
    requires
        digit <= 9,
        value == saturated(exact),
    ensures
        out == saturated(exact * 10 + digit as nat),
{
    if value > (u64::MAX - digit as u64) / 10 {
        u64::MAX
    } else {
        value * 10 + digit as u64
    }
}

/// The decimal number that `from..to` writes, in units of `10^-places`,
/// or the largest value where it is beyond that.
pub(crate) fn parse_decimal(text: &[u8], from: usize, to: usize, places: u8) -> (out: Option<u64>)
    requires
        from <= to <= text@.len(),
    ensures
        match decimal_value(text@, from as int, to as int, places as nat) {
            Some(v) => out == Some(saturated(v)),
            None => out is None,
        },
{
    let dot = scan_byte(text, from, to, 46);
    let after = if dot < to {
        dot + 1
    } else {
        to
    };
    if from == dot && after == to {
        return None;
    }
    let mut value: u64 = 0;
    let mut i = from;
    while i < dot
        invariant
            from <= i <= dot <= to <= text@.len(),
            dot == find_byte(text@, from as int, to as int, 46),
            all_digits(text@, from as int, i as int),
            value == saturated(digits_value(text@, from as int, i as int)),
        decreases dot - i,
    {
        let b = text[i];
        if b < 48 || b > 57 {
            assert(!is_digit(text@[i as int]));
            assert(!all_digits(text@, from as int, dot as int));
            return None;
        }
        value = push_digit(value, b - 48, Ghost(digits_value(text@, from as int, i as int)));
        i = i + 1;
    }
    let mut j = after;
    while j < to
        invariant
            after <= j <= to <= text@.len(),
            dot == find_byte(text@, from as int, to as int, 46),
            after == if dot < to {
                dot + 1
            } else {
                to as int
            },
            all_digits(text@, after as int, j as int),
        decreases to - j,
    {
        let b = text[j];
        if b < 48 || b > 57 {
            assert(!is_digit(text@[j as int]));
            assert(!all_digits(text@, after as int, to as int));
            return None;
        }
        j = j + 1;
    }
    let mut k: u8 = 0;
    while k < places
        invariant
            k <= places,
            from <= dot <= to <= text@.len(),
            all_digits(text@, after as int, to as int),
            after == if dot < to {
                dot + 1
            } else {
                to as int
            },
            value == saturated(shifted_value(text@, from as int, dot as int, to as int, k as nat)),
        decreases places - k,
    {
        let digit: u8 = if dot < to && (k as usize) < to - dot - 1 {
            assert(is_digit(text@[dot + 1 + k]));
            text[dot + 1 + k as usize] - 48
        } else {
            0
        };
        value = push_digit(
            value,
            digit,
            Ghost(shifted_value(text@, from as int, dot as int, to as int, k as nat)),
        );
        k = k + 1;
    }
    let up = if dot < to && (places as usize) < to - dot - 1 {
        assert(is_digit(text@[dot + 1 + places]));
        text[dot + 1 + places as usize] >= 53
    } else {
        false
    };
    if up && value < u64::MAX {
        value = value + 1;
    }
    Some(value)
}

} // verus!
