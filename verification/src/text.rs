//! Small operations on text that the standard library offers and the
//! verifier has no specification for.

use crate::textinput::chars_of;
use vstd::prelude::*;
use vstd::string::StringExecFns;

verus! {

/// The lower-case form of an ASCII upper-case letter, and every other
/// character unchanged.
pub open spec fn ascii_lower_char(c: char) -> char {
    if 'A' <= c <= 'Z' {
        ((c as u32) + 32) as char
    } else {
        c
    }
}

/// A text with each of its ASCII upper-case letters in lower case.
pub open spec fn ascii_lower(s: Seq<char>) -> Seq<char> {
    s.map_values(|c: char| ascii_lower_char(c))
}

/// A copy of `s` in ASCII lower case, by `str::to_ascii_lowercase`: the
/// letters `A` to `Z` become `a` to `z`, every other character stays.
#[verifier::external_body]
pub(crate) fn to_ascii_lowercase(s: &str) -> (r: String)
    ensures
        r@ == ascii_lower(s@),
{
    s.to_ascii_lowercase()
}

/// Appends one character, by `String::push`.
#[verifier::external_body]
pub(crate) fn push_char(s: &mut String, c: char)
    ensures
        final(s)@ == old(s)@.push(c),
{
    s.push(c)
}

/// Removes the last character, if there is one, by `String::pop`.
#[verifier::external_body]
pub(crate) fn pop_char(s: &mut String)
    ensures
        final(s)@ == if old(s)@.len() > 0 {
            old(s)@.drop_last()
        } else {
            old(s)@
        },
{
    s.pop();
}

/// Tells whether a text holds exactly the characters of another.
pub fn text_is(s: &String, other: &str) -> (r: bool)
    ensures
        r == (s@ == other@),
{
    *s == String::from_str(other)
}

/// Tells whether a character is an ASCII decimal digit.
pub open spec fn is_decimal_digit(c: char) -> bool {
    '0' <= c <= '9'
}

/// Tells whether a text is made of ASCII decimal digits only.
pub open spec fn all_decimal_digits(s: Seq<char>) -> bool {
    forall|i: int| 0 <= i < s.len() ==> is_decimal_digit(#[trigger] s[i])
}

/// The number that a text of decimal digits writes.
pub open spec fn decimal_number(s: Seq<char>) -> int
    decreases s.len(),
{
    if s.len() == 0 {
        0
    } else {
        decimal_number(s.drop_last()) * 10 + (s.last() as int - 48)
    }
}

/// Tells whether a text begins with a minus sign.
pub open spec fn has_minus(s: Seq<char>) -> bool {
    s.len() > 0 && s[0] == '-'
}

/// The digits of a number text: the text without its sign, if it has one.
pub open spec fn unsigned_part(s: Seq<char>) -> Seq<char> {
    if s.len() > 0 && (s[0] == '-' || s[0] == '+') {
        s.skip(1)
    } else {
        s
    }
}

/// The number that a text writes in decimal digits, with or without a sign
/// before them, where the text is of that form and the number is of the
/// room index type.
pub open spec fn parse_number(s: Seq<char>) -> Option<i32> {
    let digits = unsigned_part(s);
    let value = if has_minus(s) {
        -decimal_number(digits)
    } else {
        decimal_number(digits)
    };
    if digits.len() > 0 && all_decimal_digits(digits) && i32::MIN <= value <= i32::MAX {
        Some(value as i32)
    } else {
        None
    }
}

/// A text of digits writes at least the number that its beginning writes.
pub proof fn lemma_decimal_number_grows(s: Seq<char>, n: int)
    requires
        0 <= n <= s.len(),
        all_decimal_digits(s),
    ensures
        0 <= decimal_number(s.take(n)) <= decimal_number(s),
    decreases s.len() - n,
{
    if n < s.len() {
        lemma_decimal_number_grows(s, n + 1);
        assert(s.take(n + 1).drop_last() =~= s.take(n));
        assert(is_decimal_digit(s[n]));
        lemma_decimal_number_nonnegative(s.take(n));
    } else {
        assert(s.take(n) =~= s);
        lemma_decimal_number_nonnegative(s);
    }
}

/// A text of digits writes no negative number.
pub proof fn lemma_decimal_number_nonnegative(s: Seq<char>)
    requires
        all_decimal_digits(s),
    ensures
        0 <= decimal_number(s),
    decreases s.len(),
{
    if s.len() > 0 {
        assert(is_decimal_digit(s[s.len() - 1]));
        lemma_decimal_number_nonnegative(s.drop_last());
    }
}

/// Reads a number written in decimal digits, with or without a sign.
pub fn parse_i32(text: &str) -> (r: Option<i32>)
    ensures
        r == parse_number(text@),
{
    let chars = chars_of(text);
    let n = chars.len();
    if n == 0 {
        return None;
    }
    let negative = chars[0] == '-';
    let start: usize = if chars[0] == '-' || chars[0] == '+' {
        1
    } else {
        0
    };
    if start == n {
        return None;
    }
    let ghost digits = unsigned_part(text@);
    assert(digits =~= text@.subrange(start as int, n as int));
    let mut value: i64 = 0;
    let mut i: usize = start;
    assert(digits.take(0) =~= Seq::<char>::empty());
    while i < n
        invariant
            start <= i <= n,
            n == chars@.len(),
            chars@ == text@,
            digits == text@.subrange(start as int, n as int),
            digits == unsigned_part(text@),
            negative == has_minus(text@),
            0 <= value <= 2147483648,
            value == decimal_number(digits.take(i - start)),
            all_decimal_digits(digits.take(i - start)),
        decreases n - i,
    {
        let c = chars[i];
        assert(digits[i - start] == c);
        if !('0' <= c && c <= '9') {
            return None;
        }
        proof {
            assert(digits.take(i + 1 - start).drop_last() =~= digits.take(i - start));
            assert(digits.take(i + 1 - start).last() == c);
        }
        let next: i64 = value * 10 + (c as u32 as i64 - 48);
        if next > 2147483648 {
            proof {
                if all_decimal_digits(digits) {
                    lemma_decimal_number_grows(digits, i + 1 - start);
                }
            }
            return None;
        }
        value = next;
        i += 1;
    }
    assert(digits.take(n - start) =~= digits);
    if negative {
        Some((-value) as i32)
    } else if value <= 2147483647 {
        Some(value as i32)
    } else {
        None
    }
}

} // verus!
