//! Characters and strings: the few operations of the standard library that the
//! tokenizer and the parser need and that carry no specification of their own.
//!
//! Every function in this file that is marked `external_body` is trusted: its
//! contract is believed, not proved.

use vstd::prelude::*;
use vstd::string::*;

verus! {

/// Whether a character has the Unicode property `Alphabetic`.
pub uninterp spec fn alphabetic(c: char) -> bool;

/// Whether a character is alphabetic or numeric in the sense of Unicode.
pub uninterp spec fn alphanumeric(c: char) -> bool;

/// Whether a character has the Unicode property `White_Space`.
pub uninterp spec fn whitespace(c: char) -> bool;

/// An ASCII letter, `A` to `Z` or `a` to `z`.
pub open spec fn ascii_letter(c: char) -> bool {
    ('A' <= c && c <= 'Z') || ('a' <= c && c <= 'z')
}

/// A decimal digit, `0` to `9`.
pub open spec fn decimal_digit(c: char) -> bool {
    '0' <= c && c <= '9'
}

/// The value of a decimal digit.
pub open spec fn digit_value(c: char) -> int {
    c as u32 as int - 48
}

/// An ASCII white-space character: tab, line feed, vertical tab, form feed,
/// carriage return or space.
pub open spec fn ascii_space(c: char) -> bool {
    ('\u{9}' <= c && c <= '\u{d}') || c == ' '
}

/// A character of the ASCII range.
pub open spec fn ascii(c: char) -> bool {
    (c as u32) < 128
}

/// A letter: on ASCII characters the letters `A` to `Z` and `a` to `z`,
/// beyond them whatever Unicode calls alphabetic.
pub open spec fn is_letter(c: char) -> bool {
    if ascii(c) {
        ascii_letter(c)
    } else {
        alphabetic(c)
    }
}

/// A letter or a digit: on ASCII characters the letters and the decimal
/// digits, beyond them whatever Unicode calls alphabetic or numeric.
pub open spec fn is_letter_or_digit(c: char) -> bool {
    if ascii(c) {
        ascii_letter(c) || decimal_digit(c)
    } else {
        alphanumeric(c)
    }
}

/// White space: on ASCII characters tab, line feed, vertical tab, form feed,
/// carriage return and space, beyond them whatever Unicode calls white space.
pub open spec fn is_space(c: char) -> bool {
    if ascii(c) {
        ascii_space(c)
    } else {
        whitespace(c)
    }
}

/// Trusted: `char::is_alphabetic`. The result is the Unicode property, which
/// on ASCII characters holds of the letters and of nothing else.
#[verifier::external_body]
pub(crate) fn is_alphabetic(c: char) -> (r: bool)
    ensures
        r == (if ascii(c) {
            ascii_letter(c)
        } else {
            alphabetic(c)
        }),
{
    c.is_alphabetic()
}

/// Trusted: `char::is_alphanumeric`. The result is the Unicode property, which
/// on ASCII characters holds of the letters and the decimal digits and of
/// nothing else.
#[verifier::external_body]
pub(crate) fn is_alphanumeric(c: char) -> (r: bool)
    ensures
        r == (if ascii(c) {
            ascii_letter(c) || decimal_digit(c)
        } else {
            alphanumeric(c)
        }),
{
    c.is_alphanumeric()
}

/// Trusted: `char::is_whitespace`. The result is the Unicode property, which
/// on ASCII characters holds of tab, line feed, vertical tab, form feed,
/// carriage return and space and of nothing else.
#[verifier::external_body]
pub(crate) fn is_whitespace(c: char) -> (r: bool)
    ensures
        r == (if ascii(c) {
            ascii_space(c)
        } else {
            whitespace(c)
        }),
{
    c.is_whitespace()
}

/// Trusted: `String::push`. The string gains the character at its end.
#[verifier::external_body]
pub(crate) fn push_char(s: &mut String, c: char)
    ensures
        final(s)@ == old(s)@.push(c),
{
    s.push(c);
}

/// Trusted: equality of string slices (`str::eq`), which holds exactly when
/// the two hold the same characters.
#[verifier::external_body]
pub(crate) fn same_text(a: &str, b: &str) -> (r: bool)
    ensures
        r == (a@ == b@),
{
    a == b
}

/// The character that a byte stands for: the one with the byte's value as its
/// code point.
pub open spec fn char_of(b: u8) -> char {
    b as char
}

/// The characters that a sequence of bytes stands for, byte by byte.
pub open spec fn chars_of(bytes: Seq<u8>) -> Seq<char> {
    Seq::new(bytes.len(), |i: int| char_of(bytes[i]))
}

/// Converts a byte to the character with the same code point.
pub fn byte_to_char(b: u8) -> (c: char)
    ensures
        c == char_of(b),
{
    b as char
}

/// A text made of decimal digits alone.
pub open spec fn all_digits(s: Seq<char>) -> bool {
    forall|i: int| 0 <= i < s.len() ==> decimal_digit(#[trigger] s[i])
}

/// The number that a text of decimal digits stands for.
pub open spec fn decimal_value(s: Seq<char>) -> nat
    decreases s.len(),
{
    if s.len() == 0 {
        0
    } else {
        (10 * decimal_value(s.drop_last()) + digit_value(s.last())) as nat
    }
}

/// The count that a text stands for: its decimal value, where it is made of
/// digits, has at least one, and the value fits in a machine word.
pub open spec fn count_of(s: Seq<char>) -> Option<usize> {
    if s.len() > 0 && all_digits(s) && decimal_value(s) <= usize::MAX {
        Some(decimal_value(s) as usize)
    } else {
        None
    }
}

/// The value of the digits read so far is no more than the value of them all.
pub proof fn lemma_decimal_prefix(s: Seq<char>, i: int)
    requires
        0 <= i <= s.len(),
        all_digits(s),
    ensures
        decimal_value(s.take(i)) <= decimal_value(s),
    decreases s.len() - i,
{
    if i < s.len() {
        assert(s.take(i + 1).drop_last() =~= s.take(i));
        assert(decimal_digit(s[i]));
        lemma_decimal_prefix(s, i + 1);
    } else {
        assert(s.take(i) =~= s);
    }
}

/// Reads a text as a count: `None` unless it is made of decimal digits whose
/// value fits in a machine word.
pub fn parse_count(s: &str) -> (r: Option<usize>)
    ensures
        r == count_of(s@),
{
    let len = s.unicode_len();
    if len == 0 {
        return None;
    }
    let mut value: usize = 0;
    let mut i: usize = 0;
    while i < len
        invariant
            i <= len == s@.len(),
            forall|j: int| 0 <= j < i ==> decimal_digit(#[trigger] s@[j]),
            value == decimal_value(s@.take(i as int)),
        decreases len - i,
    {
        let c = s.get_char(i);
        if !(c >= '0' && c <= '9') {
            return None;
        }
        let d = (c as u32 - '0' as u32) as usize;
        proof {
            assert(s@.take(i + 1).drop_last() =~= s@.take(i as int));
            assert(decimal_value(s@.take(i + 1)) == 10 * value + d);
        }
        if value > (usize::MAX - d) / 10 {
            proof {
                if all_digits(s@) {
                    lemma_decimal_prefix(s@, i + 1);
                }
            }
            return None;
        }
        value = value * 10 + d;
        i = i + 1;
    }
    assert(s@.take(i as int) =~= s@);
    Some(value)
}

} // verus!
