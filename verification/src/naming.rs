//! Names of the artifacts on disk, and the selectors that name frames to
//! the codec. All of them are plain ASCII, written here as bytes.

use vstd::prelude::*;
use crate::text::{all_digits, digits_value, has_at, is_digit, parse_number, word_at, word_value};

verus! {

/// What an artifact holds.
#[derive(Clone, Copy, Debug, PartialEq, Eq, Structural)]
pub enum ArtifactKind {
    /// A frame in full resolution, named `frame.<index>`.
    FullFrame,
    /// A thumbnail, named `preview.<index>`.
    Preview,
}

/// The widths to which codecs are known to pad the index in a name; a
/// file found under such a name is renamed to the name without padding.
pub const PADDED_WIDTHS: [usize; 2] = [4, 3];

/// The digits of `n` in base ten, without leading zeros.
pub open spec fn decimal_digits(n: nat) -> Seq<u8>
    decreases n,
{
    if n < 10 {
        seq![(48 + n) as u8]
    } else {
        decimal_digits(n / 10).push((48 + n % 10) as u8)
    }
}

/// `count` zero digits.
pub open spec fn zeros(count: nat) -> Seq<u8> {
    Seq::new(count, |i: int| 48u8)
}

/// The digits of `n`, with zeros before them where they are fewer than `width`.
pub open spec fn padded_digits(n: nat, width: nat) -> Seq<u8> {
    if decimal_digits(n).len() < width {
        zeros((width - decimal_digits(n).len()) as nat) + decimal_digits(n)
    } else {
        decimal_digits(n)
    }
}

/// What the name of an artifact begins with: `frame.` or `preview.`.
pub open spec fn prefix_of(kind: ArtifactKind) -> Seq<u8> {
    match kind {
        ArtifactKind::FullFrame => seq![
            'f' as u8,
            'r' as u8,
            'a' as u8,
            'm' as u8,
            'e' as u8,
            '.' as u8,
        ],
        ArtifactKind::Preview => seq![
            'p' as u8,
            'r' as u8,
            'e' as u8,
            'v' as u8,
            'i' as u8,
            'e' as u8,
            'w' as u8,
            '.' as u8,
        ],
    }
}

/// The name of the artifact of unit `index`: the prefix and the index
/// without padding.
pub open spec fn name_of(kind: ArtifactKind, index: nat) -> Seq<u8> {
    prefix_of(kind) + decimal_digits(index)
}

/// The index that a name carries: the number after the prefix.
pub open spec fn index_of(name: Seq<u8>, kind: ArtifactKind) -> Option<usize> {
    if has_at(name, 0, name.len() as int, prefix_of(kind)) {
        word_value(name, prefix_of(kind).len() as int, name.len() as int)
    } else {
        None
    }
}

/// The selector of frames `first..=last`: `#first`, or `#first-last`
/// where the two differ.
pub open spec fn selector_of(first: nat, last: nat) -> Seq<u8> {
    if first == last {
        seq!['#' as u8] + decimal_digits(first)
    } else {
        seq!['#' as u8] + decimal_digits(first) + seq!['-' as u8] + decimal_digits(last)
    }
}

/// An ASCII letter or digit.
pub open spec fn is_plain(c: char) -> bool {
    ('0' <= c && c <= '9') || ('A' <= c && c <= 'Z') || ('a' <= c && c <= 'z')
}

/// What one character of a base name becomes: itself where it is plain,
/// else an underscore and its code point in decimal.
pub open spec fn safe_piece(c: char) -> Seq<u8> {
    if is_plain(c) {
        seq![c as u8]
    } else {
        seq!['_' as u8] + decimal_digits(c as nat)
    }
}

/// A base name with every character that is not plain replaced.
pub open spec fn safe_base_of(name: Seq<char>) -> Seq<u8>
    decreases name.len(),
{
    if name.len() == 0 {
        Seq::empty()
    } else {
        safe_base_of(name.drop_last()) + safe_piece(name.last())
    }
}

/// The digits of a number are digits, at least one of them, and the first
/// is no zero unless the number is zero.
pub proof fn lemma_decimal_digits_are_digits(n: nat)
    ensures
        decimal_digits(n).len() >= 1,
        forall|i: int| 0 <= i < decimal_digits(n).len() ==> is_digit(#[trigger] decimal_digits(n)[i]),
        n > 0 ==> decimal_digits(n)[0] != 48,
    decreases n,
{
    if n >= 10 {
        lemma_decimal_digits_are_digits(n / 10);
    }
}

/// Reading back the digits of `n`, wherever in a text they stand, gives `n`.
pub proof fn lemma_digits_read_back(text: Seq<u8>, from: int, n: nat)
    requires
        0 <= from,
        from + decimal_digits(n).len() <= text.len(),
        forall|i: int|
            0 <= i < decimal_digits(n).len() ==> text[from + i] == #[trigger] decimal_digits(n)[i],
    ensures
        all_digits(text, from, from + decimal_digits(n).len()),
        digits_value(text, from, from + decimal_digits(n).len()) == n,
    decreases n,
{
    let digits = decimal_digits(n);
    lemma_decimal_digits_are_digits(n);
    assert forall|i: int| from <= i < from + digits.len() implies is_digit(#[trigger] text[i]) by {
        assert(text[from + (i - from)] == digits[i - from]);
    }
    if n < 10 {
        assert(text[from + 0] == digits[0]);
        reveal_with_fuel(digits_value, 2);
    } else {
        let shorter = decimal_digits(n / 10);
        assert forall|i: int| 0 <= i < shorter.len() implies text[from + i] == #[trigger] shorter[i] by {
            assert(text[from + i] == digits[i]);
        }
        lemma_digits_read_back(text, from, n / 10);
        assert(text[from + shorter.len()] == digits[shorter.len() as int]);
    }
}

/// The index that the name of an artifact carries is the artifact's own.
pub proof fn lemma_name_carries_index(kind: ArtifactKind, index: usize)
    ensures
        index_of(name_of(kind, index as nat), kind) == Some(index),
{
    let name = name_of(kind, index as nat);
    let prefix = prefix_of(kind);
    lemma_decimal_digits_are_digits(index as nat);
    lemma_digits_read_back(name, prefix.len() as int, index as nat);
    assert(name[prefix.len() as int] == decimal_digits(index as nat)[0]);
}

/// Appends the digits of `n` to `out`.
fn push_decimal(out: &mut Vec<u8>, n: usize)
    ensures
        final(out)@ == old(out)@ + decimal_digits(n as nat),
    decreases n,
{
    if n >= 10 {
        push_decimal(out, n / 10);
    }
    out.push(48 + (n % 10) as u8);
    assert(out@ =~= old(out)@ + decimal_digits(n as nat));
}

/// Appends every byte of `word` to `out`.
fn push_all(out: &mut Vec<u8>, word: &[u8])
    ensures
        final(out)@ == old(out)@ + word@,
{
    let mut k: usize = 0;
    while k < word.len()
        invariant
            k <= word@.len(),
            out@ == old(out)@ + word@.subrange(0, k as int),
        decreases word@.len() - k,
    {
        out.push(word[k]);
        assert(out@ =~= old(out)@ + word@.subrange(0, k + 1));
        k = k + 1;
    }
    assert(word@.subrange(0, k as int) =~= word@);
}

/// The digits of `n` in base ten.
pub fn decimal(n: usize) -> (out: Vec<u8>)
    ensures
        out@ == decimal_digits(n as nat),
{
    let mut out: Vec<u8> = Vec::new();
    push_decimal(&mut out, n);
    assert(out@ =~= decimal_digits(n as nat));
    out
}

/// The digits of `n`, padded with zeros to `width` digits.
pub fn padded_decimal(n: usize, width: usize) -> (out: Vec<u8>)
    ensures
        out@ == padded_digits(n as nat, width as nat),
{
    let digits = decimal(n);
    let mut out: Vec<u8> = Vec::new();
    let mut k: usize = digits.len();
    while k < width
        invariant
            digits@.len() <= k,
            k <= width || k == digits@.len(),
            out@ == zeros((k - digits@.len()) as nat),
        decreases width - k,
    {
        out.push(48);
        assert(out@ =~= zeros((k + 1 - digits@.len()) as nat));
        k = k + 1;
    }
    push_all(&mut out, digits.as_slice());
    assert(zeros(0) + digits@ =~= digits@);
    out
}

/// The bytes that the name of an artifact begins with.
fn push_prefix(out: &mut Vec<u8>, kind: ArtifactKind)
    ensures
        final(out)@ == old(out)@ + prefix_of(kind),
{
    match kind {
        ArtifactKind::FullFrame => {
            let word: [u8; 6] = ['f' as u8, 'r' as u8, 'a' as u8, 'm' as u8, 'e' as u8, '.' as u8];
            assert(word@ =~= prefix_of(kind));
            push_all(out, word.as_slice());
        },
        ArtifactKind::Preview => {
            let word: [u8; 8] = [
                'p' as u8,
                'r' as u8,
                'e' as u8,
                'v' as u8,
                'i' as u8,
                'e' as u8,
                'w' as u8,
                '.' as u8,
            ];
            assert(word@ =~= prefix_of(kind));
            push_all(out, word.as_slice());
        },
    }
}

/// The name of the artifact of unit `index`, without padding: the name
/// under which a batch counts as done.
pub fn artifact_name(kind: ArtifactKind, index: usize) -> (name: Vec<u8>)
    ensures
        name@ == name_of(kind, index as nat),
{
    let mut name: Vec<u8> = Vec::new();
    push_prefix(&mut name, kind);
    push_decimal(&mut name, index);
    assert(name@ =~= name_of(kind, index as nat));
    name
}

/// The name of the artifact of unit `index` as a codec writes it that
/// pads the index with zeros to `width` digits.
pub fn padded_artifact_name(kind: ArtifactKind, index: usize, width: usize) -> (name: Vec<u8>)
    ensures
        name@ == prefix_of(kind) + padded_digits(index as nat, width as nat),
{
    let mut name: Vec<u8> = Vec::new();
    push_prefix(&mut name, kind);
    let digits = padded_decimal(index, width);
    push_all(&mut name, digits.as_slice());
    assert(name@ =~= prefix_of(kind) + padded_digits(index as nat, width as nat));
    name
}

/// The index that a name carries, where the name begins with the prefix
/// of `kind` and a number follows it.
pub fn artifact_index(name: &[u8], kind: ArtifactKind) -> (index: Option<usize>)
    ensures
        index == index_of(name@, kind),
{
    let mut prefix: Vec<u8> = Vec::new();
    push_prefix(&mut prefix, kind);
    assert(prefix@ =~= prefix_of(kind));
    if word_at(name, 0, name.len(), prefix.as_slice()) {
        parse_number(name, prefix.len(), name.len())
    } else {
        None
    }
}

/// Whether `name` begins with the prefix of `kind`.
pub fn is_artifact(name: &[u8], kind: ArtifactKind) -> (yes: bool)
    ensures
        yes == has_at(name@, 0, name@.len() as int, prefix_of(kind)),
{
    let mut prefix: Vec<u8> = Vec::new();
    push_prefix(&mut prefix, kind);
    assert(prefix@ =~= prefix_of(kind));
    word_at(name, 0, name.len(), prefix.as_slice())
}

/// Number of frames that the selector of `first..=last` names: none where
/// `last` is before `first`.
pub open spec fn selected_count(first: int, last: int) -> int {
    if last >= first {
        last - first + 1
    } else {
        0
    }
}

/// Whether there is one delay for each frame of `first..=last`.
pub fn slice_matches(first: usize, last: usize, delay_count: usize) -> (yes: bool)
    ensures
        yes == (delay_count == selected_count(first as int, last as int)),
{
    if last >= first {
        delay_count >= 1 && delay_count - 1 == last - first
    } else {
        delay_count == 0
    }
}

/// The selector of frames `first..=last`.
pub fn frame_selector(first: usize, last: usize) -> (selector: Vec<u8>)
    ensures
        selector@ == selector_of(first as nat, last as nat),
{
    let mut selector: Vec<u8> = Vec::new();
    selector.push('#' as u8);
    push_decimal(&mut selector, first);
    if first != last {
        selector.push('-' as u8);
        push_decimal(&mut selector, last);
    }
    assert(selector@ =~= selector_of(first as nat, last as nat));
    selector
}

/// A base name made safe for a file name: letters and digits stay, every
/// other character becomes an underscore and its code point.
pub fn safe_base(name: &str) -> (out: Vec<u8>)
    ensures
        out@ == safe_base_of(name@),
{
    let mut out: Vec<u8> = Vec::new();
    let count = name.unicode_len();
    let mut i: usize = 0;
    while i < count
        invariant
            i <= count,
            count == name@.len(),
            out@ == safe_base_of(name@.subrange(0, i as int)),
        decreases count - i,
    {
        let c = name.get_char(i);
        let ghost before = out@;
        if ('0' <= c && c <= '9') || ('A' <= c && c <= 'Z') || ('a' <= c && c <= 'z') {
            out.push(c as u8);
        } else {
            out.push('_' as u8);
            push_decimal(&mut out, c as u32 as usize);
        }
        proof {
            let upto = name@.subrange(0, i + 1);
            assert(upto.drop_last() =~= name@.subrange(0, i as int));
            assert(upto.last() == c);
            assert(out@ =~= before + safe_piece(c));
        }
        i = i + 1;
    }
    assert(name@.subrange(0, i as int) =~= name@);
    out
}

/// A delay in milliseconds as the codec takes it, in hundredths of a
/// second, rounded down.
pub fn to_centiseconds(delay_ms: u16) -> (delay: u16)
    ensures
        delay == delay_ms / 10,
{
    delay_ms / 10
}

/// A delay as 16 bits hold it: the value, or the largest one where it is
/// beyond that.
pub fn clamp_delay(delay: u64) -> (out: u16)
    ensures
        out == if delay > u16::MAX {
            u16::MAX as int
        } else {
            delay as int
        },
{
    if delay > u16::MAX as u64 {
        u16::MAX
    } else {
        delay as u16
    }
}

} // verus!
