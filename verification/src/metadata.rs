//! Reading the report that the codec prints about a sequence.
//!
//! The report is text for people, not a protocol. It is read line by line;
//! a line that does not fit is passed over, and nothing here fails on
//! malformed text.

use vstd::prelude::*;
use crate::text::{
    decimal_value, find_byte, find_word, first_non_space, first_space, has_at,
    lemma_find_byte_bounds, lemma_first_non_space_bounds, lemma_first_space_bounds, next_token,
    nth_token, parse_decimal, parse_number, saturated, scan_byte, search_word, skip_spaces, token,
    trim_end, trimmed_end, word_at, word_value,
};

verus! {

/// The word `images`, which marks the line that counts the frames.
pub open spec fn images_word() -> Seq<u8> {
    seq!['i' as u8, 'm' as u8, 'a' as u8, 'g' as u8, 'e' as u8, 's' as u8]
}

/// The word `delay`, which stands before a frame's display time.
pub open spec fn delay_word() -> Seq<u8> {
    seq!['d' as u8, 'e' as u8, 'l' as u8, 'a' as u8, 'y' as u8]
}

/// The words `logical screen`, which mark the line with the screen size.
pub open spec fn screen_words() -> Seq<u8> {
    seq![
        'l' as u8,
        'o' as u8,
        'g' as u8,
        'i' as u8,
        'c' as u8,
        'a' as u8,
        'l' as u8,
        ' ' as u8,
        's' as u8,
        'c' as u8,
        'r' as u8,
        'e' as u8,
        'e' as u8,
        'n' as u8,
    ]
}

/// The words `+ image #`, which begin the line of one frame.
pub open spec fn image_words() -> Seq<u8> {
    seq![
        '+' as u8,
        ' ' as u8,
        'i' as u8,
        'm' as u8,
        'a' as u8,
        'g' as u8,
        'e' as u8,
        ' ' as u8,
        '#' as u8,
    ]
}

/// The word `at`, which stands before a frame's offset.
pub open spec fn at_word() -> Seq<u8> {
    seq!['a' as u8, 't' as u8]
}

/// Position of the line feed that ends the line beginning at `from`, or
/// the end of the text.
pub open spec fn line_end(text: Seq<u8>, from: int) -> int {
    find_byte(text, from, text.len() as int, 10)
}

/// A line ends at or after its beginning, inside the text.
pub proof fn lemma_line_end_bounds(text: Seq<u8>, from: int)
    requires
        from <= text.len(),
    ensures
        from <= line_end(text, from) <= text.len(),
{
    lemma_find_byte_bounds(text, from, text.len() as int, 10);
}

/// The value of the first token of `from..to` that writes a number.
pub open spec fn first_number(text: Seq<u8>, from: int, to: int) -> Option<usize>
    decreases to - from,
{
    let start = first_non_space(text, from, to);
    if from > to || start >= to {
        None
    } else {
        let end = first_space(text, start, to);
        proof {
            lemma_first_non_space_bounds(text, from, to);
            lemma_first_space_bounds(text, start, to);
        }
        match word_value(text, start, end) {
            Some(v) => Some(v),
            None => first_number(text, end, to),
        }
    }
}

/// The first token of `from..to` that holds `byte`.
pub open spec fn first_token_with(text: Seq<u8>, from: int, to: int, byte: u8) -> Option<
    (int, int),
>
    decreases to - from,
{
    let start = first_non_space(text, from, to);
    if from > to || start >= to {
        None
    } else {
        let end = first_space(text, start, to);
        proof {
            lemma_first_non_space_bounds(text, from, to);
            lemma_first_space_bounds(text, start, to);
        }
        if find_byte(text, start, end, byte) < end {
            Some((start, end))
        } else {
            first_token_with(text, end, to, byte)
        }
    }
}

/// The token that follows the first token of `from..to` that is `word`.
pub open spec fn token_after(text: Seq<u8>, from: int, to: int, word: Seq<u8>) -> Option<
    (int, int),
>
    decreases to - from,
{
    let start = first_non_space(text, from, to);
    if from > to || start >= to {
        None
    } else {
        let end = first_space(text, start, to);
        proof {
            lemma_first_non_space_bounds(text, from, to);
            lemma_first_space_bounds(text, start, to);
        }
        if end - start == word.len() && has_at(text, start, end, word) {
            nth_token(text, end, to, 0)
        } else {
            token_after(text, end, to, word)
        }
    }
}

/// The frame count that the line `from..to` gives: the first number on a
/// line that holds the word `images`.
pub open spec fn line_frame_count(text: Seq<u8>, from: int, to: int) -> Option<usize> {
    if find_word(text, from, to, images_word()) is Some {
        first_number(text, from, to)
    } else {
        None
    }
}

/// The frame count after the lines from `from` on, where `current` is the
/// count so far: the last line that gives one decides.
pub open spec fn frame_count_from(text: Seq<u8>, from: int, current: usize) -> usize
    decreases text.len() + 1 - from,
{
    if from < 0 || from >= text.len() {
        current
    } else {
        let end = line_end(text, from);
        proof {
            lemma_line_end_bounds(text, from);
        }
        frame_count_from(
            text,
            end + 1,
            match line_frame_count(text, from, end) {
                Some(n) => n,
                None => current,
            },
        )
    }
}

/// The number of frames that a report states, or zero where it states none.
pub open spec fn frame_count(text: Seq<u8>) -> usize {
    frame_count_from(text, 0, 0)
}

/// The display time that the line `from..to` gives, in units of
/// `10^-places` seconds: the decimal number between the word `delay` and
/// the next `s`, on a line that holds both.
pub open spec fn line_delay(text: Seq<u8>, from: int, to: int, places: nat) -> Option<nat> {
    match find_word(text, from, to, delay_word()) {
        None => None,
        Some(p) => if find_byte(text, from, to, 's' as u8) >= to {
            None
        } else {
            let start = p + 5;
            let stop = match find_word(text, start, to, delay_word()) {
                Some(q) => q,
                None => to,
            };
            let a = first_non_space(text, start, stop);
            let b = trimmed_end(text, a, stop);
            decimal_value(text, a, find_byte(text, a, b, 's' as u8), places)
        },
    }
}

/// The display times that the lines from `from` on give, in order.
pub open spec fn delays_from(text: Seq<u8>, from: int, places: nat) -> Seq<u64>
    decreases text.len() + 1 - from,
{
    if from < 0 || from >= text.len() {
        Seq::empty()
    } else {
        let end = line_end(text, from);
        proof {
            lemma_line_end_bounds(text, from);
        }
        let rest = delays_from(text, end + 1, places);
        match line_delay(text, from, end, places) {
            Some(v) => seq![saturated(v)] + rest,
            None => rest,
        }
    }
}

/// A parsed number as a 32-bit size: zero where there is none or it does
/// not fit.
pub open spec fn size_or_zero(value: Option<usize>) -> u32 {
    match value {
        Some(v) => if v <= u32::MAX {
            v as u32
        } else {
            0
        },
        None => 0,
    }
}

/// A parsed number, or zero where there is none.
pub open spec fn value_or_zero(value: Option<usize>) -> usize {
    match value {
        Some(v) => v,
        None => 0,
    }
}

/// The two numbers of the first token of `from..to` that holds an `x`:
/// what stands before the first `x`, and what stands after it.
pub open spec fn line_dimensions(text: Seq<u8>, from: int, to: int) -> Option<
    (Option<usize>, Option<usize>),
> {
    match first_token_with(text, from, to, 'x' as u8) {
        None => None,
        Some((start, end)) => {
            let x = find_byte(text, start, end, 'x' as u8);
            Some((word_value(text, start, x), word_value(text, x + 1, end)))
        },
    }
}

/// The screen size after the lines from `from` on, where `current` is the
/// size so far: the last line that holds the words `logical screen` and a
/// size decides.
pub open spec fn screen_from(text: Seq<u8>, from: int, current: (u32, u32)) -> (u32, u32)
    decreases text.len() + 1 - from,
{
    if from < 0 || from >= text.len() {
        current
    } else {
        let end = line_end(text, from);
        proof {
            lemma_line_end_bounds(text, from);
        }
        let found = if find_word(text, from, end, screen_words()) is Some {
            line_dimensions(text, from, end)
        } else {
            None
        };
        screen_from(
            text,
            end + 1,
            match found {
                Some((w, h)) => (size_or_zero(w), size_or_zero(h)),
                None => current,
            },
        )
    }
}

/// Whether the frame line `from..to` shows a frame that does not fill the
/// screen: its size, the fourth token, differs from a known screen size,
/// or its offset, the token after the word `at`, is not zero.
pub open spec fn frame_is_partial(
    text: Seq<u8>,
    from: int,
    to: int,
    screen: (Option<usize>, Option<usize>),
) -> bool {
    match nth_token(text, from, to, 3) {
        None => false,
        Some((start, end)) => {
            let x = find_byte(text, start, end, 'x' as u8);
            let size_differs = x < end && screen.0 is Some && screen.1 is Some && (value_or_zero(
                word_value(text, start, x),
            ) != screen.0->0 || value_or_zero(word_value(text, x + 1, end)) != screen.1->0);
            size_differs || match token_after(text, from, to, at_word()) {
                None => false,
                Some((s, e)) => {
                    let comma = find_byte(text, s, e, ',' as u8);
                    comma < e && (value_or_zero(word_value(text, s, comma)) != 0 || value_or_zero(
                        word_value(text, comma + 1, e),
                    ) != 0)
                },
            }
        },
    }
}

/// Whether a line from `from` on shows a partial frame, where `screen` is
/// the screen size known so far. A line that begins with `logical screen`
/// sets the screen size; a line that begins with `+ image #` is a frame
/// line.
pub open spec fn optimized_from(
    text: Seq<u8>,
    from: int,
    screen: (Option<usize>, Option<usize>),
) -> bool
    decreases text.len() + 1 - from,
{
    if from < 0 || from >= text.len() {
        false
    } else {
        let end = line_end(text, from);
        let a = first_non_space(text, from, end);
        proof {
            lemma_line_end_bounds(text, from);
        }
        if has_at(text, a, end, screen_words()) {
            optimized_from(
                text,
                end + 1,
                match line_dimensions(text, a, end) {
                    Some(d) => d,
                    None => screen,
                },
            )
        } else if has_at(text, a, end, image_words()) {
            frame_is_partial(text, a, end, screen) || optimized_from(text, end + 1, screen)
        } else {
            optimized_from(text, end + 1, screen)
        }
    }
}

/// Whether a report shows a sequence stored with partial frames.
pub open spec fn is_optimized(text: Seq<u8>) -> bool {
    optimized_from(text, 0, (None, None))
}

/// The words `logical screen` as bytes.
fn screen_bytes() -> (word: [u8; 14])
    ensures
        word@ == screen_words(),
{
    let word: [u8; 14] = [
        'l' as u8,
        'o' as u8,
        'g' as u8,
        'i' as u8,
        'c' as u8,
        'a' as u8,
        'l' as u8,
        ' ' as u8,
        's' as u8,
        'c' as u8,
        'r' as u8,
        'e' as u8,
        'e' as u8,
        'n' as u8,
    ];
    assert(word@ =~= screen_words());
    word
}

/// The words `+ image #` as bytes.
fn image_bytes() -> (word: [u8; 9])
    ensures
        word@ == image_words(),
{
    let word: [u8; 9] = [
        '+' as u8,
        ' ' as u8,
        'i' as u8,
        'm' as u8,
        'a' as u8,
        'g' as u8,
        'e' as u8,
        ' ' as u8,
        '#' as u8,
    ];
    assert(word@ =~= image_words());
    word
}

/// The value of the first token of `from..to` that writes a number.
fn scan_number(text: &[u8], from: usize, to: usize) -> (out: Option<usize>)
    requires
        from <= to <= text@.len(),
    ensures
        out == first_number(text@, from as int, to as int),
{
    let mut at = from;
    loop
        invariant
            from <= at <= to <= text@.len(),
            first_number(text@, from as int, to as int) == first_number(
                text@,
                at as int,
                to as int,
            ),
        decreases to - at,
    {
        match next_token(text, at, to) {
            None => {
                return None;
            },
            Some((start, end)) => {
                match parse_number(text, start, end) {
                    Some(v) => {
                        return Some(v);
                    },
                    None => {
                        at = end;
                    },
                }
            },
        }
    }
}

/// The first token of `from..to` that holds `byte`.
fn scan_token_with(text: &[u8], from: usize, to: usize, byte: u8) -> (out: Option<(usize, usize)>)
    requires
        from <= to <= text@.len(),
    ensures
        match out {
            Some((start, end)) => first_token_with(text@, from as int, to as int, byte) == Some(
                (start as int, end as int),
            ) && from <= start < end <= to && find_byte(text@, start as int, end as int, byte)
                < end,
            None => first_token_with(text@, from as int, to as int, byte) is None,
        },
{
    let mut at = from;
    loop
        invariant
            from <= at <= to <= text@.len(),
            first_token_with(text@, from as int, to as int, byte) == first_token_with(
                text@,
                at as int,
                to as int,
                byte,
            ),
        decreases to - at,
    {
        match next_token(text, at, to) {
            None => {
                return None;
            },
            Some((start, end)) => {
                if scan_byte(text, start, end, byte) < end {
                    return Some((start, end));
                }
                at = end;
            },
        }
    }
}

/// The token that follows the first token of `from..to` that is `word`.
fn scan_token_after(text: &[u8], from: usize, to: usize, word: &[u8]) -> (out: Option<
    (usize, usize),
>)
    requires
        from <= to <= text@.len(),
    ensures
        match out {
            Some((start, end)) => token_after(text@, from as int, to as int, word@) == Some(
                (start as int, end as int),
            ) && from <= start < end <= to,
            None => token_after(text@, from as int, to as int, word@) is None,
        },
{
    let mut at = from;
    loop
        invariant
            from <= at <= to <= text@.len(),
            token_after(text@, from as int, to as int, word@) == token_after(
                text@,
                at as int,
                to as int,
                word@,
            ),
        decreases to - at,
    {
        match next_token(text, at, to) {
            None => {
                return None;
            },
            Some((start, end)) => {
                if end - start == word.len() && word_at(text, start, end, word) {
                    return next_token(text, end, to);
                }
                at = end;
            },
        }
    }
}

/// Position of the end of the line that begins at `from`.
fn end_of_line(text: &[u8], from: usize) -> (end: usize)
    requires
        from <= text@.len(),
    ensures
        end == line_end(text@, from as int),
        from <= end <= text@.len(),
{
    scan_byte(text, from, text.len(), 10)
}

/// The number of frames that a report states: the first number on the
/// last line that holds the word `images` and a number, or zero.
pub fn parse_frame_count(text: &[u8]) -> (count: usize)
    ensures
        count == frame_count(text@),
{
    let word: [u8; 6] = ['i' as u8, 'm' as u8, 'a' as u8, 'g' as u8, 'e' as u8, 's' as u8];
    assert(word@ == images_word());
    let mut count: usize = 0;
    let mut at: usize = 0;
    while at < text.len()
        invariant
            at <= text@.len() + 1,
            word@ == images_word(),
            frame_count(text@) == frame_count_from(text@, at as int, count),
        decreases text@.len() + 1 - at,
    {
        let end = end_of_line(text, at);
        if search_word(text, at, end, word.as_slice()).is_some() {
            match scan_number(text, at, end) {
                Some(n) => {
                    count = n;
                },
                None => {},
            }
        }
        at = if end < text.len() {
            end + 1
        } else {
            proof {
                assert(frame_count_from(text@, end + 1, count) == count);
            }
            end
        };
    }
    count
}

/// The display time that the line `from..to` gives.
fn scan_delay(text: &[u8], from: usize, to: usize, places: u8) -> (out: Option<u64>)
    requires
        from <= to <= text@.len(),
    ensures
        match line_delay(text@, from as int, to as int, places as nat) {
            Some(v) => out == Some(saturated(v)),
            None => out is None,
        },
{
    let word: [u8; 5] = ['d' as u8, 'e' as u8, 'l' as u8, 'a' as u8, 'y' as u8];
    assert(word@ == delay_word());
    match search_word(text, from, to, word.as_slice()) {
        None => None,
        Some(p) => {
            if scan_byte(text, from, to, 's' as u8) >= to {
                return None;
            }
            let start = p + 5;
            let stop = match search_word(text, start, to, word.as_slice()) {
                Some(q) => q,
                None => to,
            };
            let a = skip_spaces(text, start, stop);
            let b = trim_end(text, a, stop);
            let e = scan_byte(text, a, b, 's' as u8);
            parse_decimal(text, a, e, places)
        },
    }
}

/// The display times that a report lists, one for each line that holds
/// the word `delay` followed by a decimal number of seconds and an `s`,
/// in units of `10^-places` seconds (2 for hundredths, 3 for thousandths).
pub fn parse_delays(text: &[u8], places: u8) -> (delays: Vec<u64>)
    ensures
        delays@ == delays_from(text@, 0, places as nat),
{
    let mut delays: Vec<u64> = Vec::new();
    let mut at: usize = 0;
    while at < text.len()
        invariant
            at <= text@.len() + 1,
            delays_from(text@, 0, places as nat) == delays@ + delays_from(
                text@,
                at as int,
                places as nat,
            ),
        decreases text@.len() + 1 - at,
    {
        let end = end_of_line(text, at);
        let ghost before = delays@;
        let ghost rest = delays_from(text@, end + 1, places as nat);
        match scan_delay(text, at, end, places) {
            Some(v) => {
                delays.push(v);
                assert(before + (seq![v] + rest) =~= delays@ + rest);
            },
            None => {},
        }
        at = if end < text.len() {
            end + 1
        } else {
            proof {
                assert(rest =~= Seq::<u64>::empty());
            }
            end
        };
    }
    assert(delays@ + Seq::<u64>::empty() =~= delays@);
    delays
}

/// The two numbers of the first token of `from..to` that holds an `x`.
fn scan_dimensions(text: &[u8], from: usize, to: usize) -> (out: Option<
    (Option<usize>, Option<usize>),
>)
    requires
        from <= to <= text@.len(),
    ensures
        out == line_dimensions(text@, from as int, to as int),
{
    match scan_token_with(text, from, to, 'x' as u8) {
        None => None,
        Some((start, end)) => {
            let x = scan_byte(text, start, end, 'x' as u8);
            Some((parse_number(text, start, x), parse_number(text, x + 1, end)))
        },
    }
}

/// A parsed number as a 32-bit size.
fn to_size(value: Option<usize>) -> (size: u32)
    ensures
        size == size_or_zero(value),
{
    match value {
        Some(v) => if v <= u32::MAX as usize {
            v as u32
        } else {
            0
        },
        None => 0,
    }
}

/// The size of the logical screen that a report states, as width and
/// height; a part that is missing or not a number is zero.
pub fn parse_logical_screen(text: &[u8]) -> (size: (u32, u32))
    ensures
        size == screen_from(text@, 0, (0u32, 0u32)),
{
    let word = screen_bytes();
    let mut size: (u32, u32) = (0, 0);
    let mut at: usize = 0;
    while at < text.len()
        invariant
            at <= text@.len() + 1,
            word@ == screen_words(),
            screen_from(text@, 0, (0u32, 0u32)) == screen_from(text@, at as int, size),
        decreases text@.len() + 1 - at,
    {
        let end = end_of_line(text, at);
        if search_word(text, at, end, word.as_slice()).is_some() {
            match scan_dimensions(text, at, end) {
                Some((w, h)) => {
                    size = (to_size(w), to_size(h));
                },
                None => {},
            }
        }
        at = if end < text.len() {
            end + 1
        } else {
            proof {
                assert(screen_from(text@, end + 1, size) == size);
            }
            end
        };
    }
    size
}

/// A parsed number, or zero.
fn or_zero(value: Option<usize>) -> (n: usize)
    ensures
        n == value_or_zero(value),
{
    match value {
        Some(v) => v,
        None => 0,
    }
}

/// Whether the frame line `from..to` shows a partial frame.
fn scan_partial(
    text: &[u8],
    from: usize,
    to: usize,
    screen: (Option<usize>, Option<usize>),
) -> (partial: bool)
    requires
        from <= to <= text@.len(),
    ensures
        partial == frame_is_partial(text@, from as int, to as int, screen),
{
    let word: [u8; 2] = ['a' as u8, 't' as u8];
    assert(word@ == at_word());
    match token(text, from, to, 3) {
        None => false,
        Some((start, end)) => {
            let x = scan_byte(text, start, end, 'x' as u8);
            if x < end {
                let width = or_zero(parse_number(text, start, x));
                let height = or_zero(parse_number(text, x + 1, end));
                match screen {
                    (Some(w), Some(h)) => {
                        if width != w || height != h {
                            return true;
                        }
                    },
                    _ => {},
                }
            }
            match scan_token_after(text, from, to, word.as_slice()) {
                None => false,
                Some((s, e)) => {
                    let comma = scan_byte(text, s, e, ',' as u8);
                    if comma < e {
                        let left = or_zero(parse_number(text, s, comma));
                        let top = or_zero(parse_number(text, comma + 1, e));
                        left != 0 || top != 0
                    } else {
                        false
                    }
                },
            }
        },
    }
}

/// Whether a verbose report shows a sequence stored with partial frames:
/// one frame whose size differs from the logical screen's, or whose
/// offset is not zero.
pub fn check_if_optimized(text: &[u8]) -> (optimized: bool)
    ensures
        optimized == is_optimized(text@),
{
    let screen_word = screen_bytes();
    let image_word = image_bytes();
    let mut screen: (Option<usize>, Option<usize>) = (None, None);
    let mut at: usize = 0;
    while at < text.len()
        invariant
            at <= text@.len() + 1,
            screen_word@ == screen_words(),
            image_word@ == image_words(),
            is_optimized(text@) == optimized_from(text@, at as int, screen),
        decreases text@.len() + 1 - at,
    {
        let end = end_of_line(text, at);
        let a = skip_spaces(text, at, end);
        if word_at(text, a, end, screen_word.as_slice()) {
            match scan_dimensions(text, a, end) {
                Some(d) => {
                    screen = d;
                },
                None => {},
            }
        } else if word_at(text, a, end, image_word.as_slice()) {
            if scan_partial(text, a, end, screen) {
                return true;
            }
        }
        at = if end < text.len() {
            end + 1
        } else {
            proof {
                assert(!optimized_from(text@, end + 1, screen));
            }
            end
        };
    }
    false
}

} // verus!
