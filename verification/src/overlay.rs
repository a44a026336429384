//! The debug overlay: the resident memory of the process, read from the
//! text of `/proc/self/statm`.

use vstd::prelude::*;
use crate::text::{is_white_space, char_is_whitespace, push_char};

verus! {

/// The word list holding `word`, or the empty list when `word` is empty.
pub open spec fn nonempty_word(word: Seq<char>) -> Seq<Seq<char>> {
    if word.len() == 0 {
        Seq::empty()
    } else {
        seq![word]
    }
}

/// The words of `rest`, given that the non-whitespace characters in `cur`
/// have just been read: maximal runs of characters that are not
/// whitespace.
pub open spec fn words_from(rest: Seq<char>, cur: Seq<char>) -> Seq<Seq<char>>
    decreases rest.len(),
{
    if rest.len() == 0 {
        nonempty_word(cur)
    } else if is_white_space(rest[0]) {
        nonempty_word(cur) + words_from(rest.drop_first(), Seq::empty())
    } else {
        words_from(rest.drop_first(), cur.push(rest[0]))
    }
}

/// The whitespace-separated words of a text (what `str::split_whitespace`
/// yields).
pub open spec fn words(text: Seq<char>) -> Seq<Seq<char>> {
    words_from(text, Seq::empty())
}

/// Whether `c` is an ASCII decimal digit.
pub open spec fn is_digit(c: char) -> bool {
    '0' <= c <= '9'
}

/// The value of a string of decimal digits.
pub open spec fn digits_value(d: Seq<char>) -> nat
    decreases d.len(),
{
    if d.len() == 0 {
        0
    } else {
        digits_value(d.drop_last()) * 10 + ((d.last() as int) - ('0' as int)) as nat
    }
}

/// Whether every character of `d` is a decimal digit.
pub open spec fn all_digits(d: Seq<char>) -> bool {
    forall|i: int| 0 <= i < d.len() ==> is_digit(#[trigger] d[i])
}

/// `text` without a leading `+`.
pub open spec fn unsigned_digits(text: Seq<char>) -> Seq<char> {
    if text.len() > 0 && text[0] == '+' {
        text.drop_first()
    } else {
        text
    }
}

/// What `u64::from_str` gives: an optional `+` followed by at least one
/// decimal digit and nothing else, whose value fits in 64 bits.
pub open spec fn parsed_u64(text: Seq<char>) -> Option<u64> {
    let d = unsigned_digits(text);
    if d.len() > 0 && all_digits(d) && digits_value(d) <= u64::MAX {
        Some(digits_value(d) as u64)
    } else {
        None
    }
}

/// The number of resident pages that a `statm` text gives: its second
/// word, read as a decimal number.
pub open spec fn statm_resident(statm: Seq<char>) -> Option<u64> {
    if words(statm).len() >= 2 {
        parsed_u64(words(statm)[1])
    } else {
        None
    }
}

/// Splits a text into its whitespace-separated words.
pub fn split_words(text: &str) -> (out: Vec<String>)
    ensures
        out@.map_values(|w: String| w@) == words(text@),
{
    let n = text.unicode_len();
    let mut out: Vec<String> = Vec::new();
    let mut cur = String::new();
    let mut i: usize = 0;
    assert(text@.subrange(0, n as int) =~= text@);
    while i < n
        invariant
            n == text@.len(),
            i <= n,
            out@.map_values(|w: String| w@) + words_from(text@.subrange(i as int, n as int), cur@)
                == words(text@),
        decreases n - i,
    {
        let c = text.get_char(i);
        let ghost rest = text@.subrange(i as int, n as int);
        assert(rest.drop_first() =~= text@.subrange(i + 1, n as int));
        assert(rest[0] == c);
        if char_is_whitespace(c) {
            let ghost before = out@.map_values(|w: String| w@);
            let ghost word = cur@;
            let mut done = String::new();
            std::mem::swap(&mut done, &mut cur);
            if done.unicode_len() > 0 {
                out.push(done);
            }
            assert(out@.map_values(|w: String| w@) =~= before + nonempty_word(word));
            assert(cur@ =~= Seq::<char>::empty());
        } else {
            push_char(&mut cur, c);
        }
        i = i + 1;
    }
    let ghost before = out@.map_values(|w: String| w@);
    let ghost last = cur@;
    assert(text@.subrange(n as int, n as int) =~= Seq::<char>::empty());
    if cur.unicode_len() > 0 {
        out.push(cur);
    }
    assert(out@.map_values(|w: String| w@) =~= before + nonempty_word(last));
    out
}

/// Reads a decimal number as `u64::from_str` does.
pub fn parse_u64(text: &str) -> (value: Option<u64>)
    ensures
        value == parsed_u64(text@),
{
    let n = text.unicode_len();
    let start: usize = if n > 0 && text.get_char(0) == '+' { 1 } else { 0 };
    let ghost d = unsigned_digits(text@);
    assert(d =~= text@.subrange(start as int, n as int));
    if start == n {
        return None;
    }
    let mut value: u64 = 0;
    let mut overflow = false;
    let mut i: usize = start;
    while i < n
        invariant
            n == text@.len(),
            start <= i <= n,
            d == text@.subrange(start as int, n as int),
            d == unsigned_digits(text@),
            forall|k: int| 0 <= k < i - start ==> is_digit(#[trigger] d[k]),
            !overflow ==> value == digits_value(d.take(i - start)),
            overflow ==> digits_value(d.take(i - start)) > u64::MAX,
        decreases n - i,
    {
        let c = text.get_char(i);
        assert(d[i - start] == c);
        if !('0' <= c && c <= '9') {
            assert(!is_digit(d[i - start]));
            assert(!all_digits(d));
            assert(parsed_u64(text@) is None);
            return None;
        }
        let ghost prefix = d.take(i - start + 1);
        assert(prefix.drop_last() =~= d.take(i - start));
        assert(prefix.last() == c);
        let digit: u64 = (c as u64) - ('0' as u64);
        if !overflow {
            if value > (u64::MAX - digit) / 10 {
                overflow = true;
            } else {
                value = value * 10 + digit;
            }
        }
        i = i + 1;
    }
    assert(d.take(n - start) =~= d);
    if overflow {
        None
    } else {
        Some(value)
    }
}

/// The number of resident pages in the text of `/proc/self/statm`.
pub fn resident_pages(statm: &str) -> (pages: Option<u64>)
    ensures
        pages == statm_resident(statm@),
{
    let w = split_words(statm);
    if w.len() >= 2 {
        assert(w@[1]@ == words(statm@)[1]);
        parse_u64(w[1].as_str())
    } else {
        None
    }
}

} // verus!
