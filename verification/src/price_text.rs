//! Reading a quoted price out of the text of a page element.
//!
//! The text carries digit groups separated by commas, may hold spaces, and
//! may hold a zero-width non-joiner before a trailing glyph. Once those are
//! removed, what is left has to be a run of ASCII digits.

use vstd::prelude::*;
use vstd::std_specs::iter::IteratorSpec;
use crate::error::ErrorKind;

verus! {

/// The characters that normalisation removes: the ASCII comma, the ASCII
/// space and the zero-width non-joiner.
pub open spec fn is_separator(c: char) -> bool {
    c == ',' || c == ' ' || c == '\u{200c}'
}

/// `text` without its separators.
pub open spec fn cleaned(text: Seq<char>) -> Seq<char> {
    text.filter(|c: char| !is_separator(c))
}

/// One of the ten ASCII digits.
pub open spec fn is_digit(c: char) -> bool {
    '0' <= c && c <= '9'
}

/// The number that an ASCII digit stands for.
pub open spec fn digit_value(c: char) -> nat {
    (c as u32 - '0' as u32) as nat
}

/// Every character is an ASCII digit.
pub open spec fn all_digits(s: Seq<char>) -> bool {
    forall|i: int| 0 <= i < s.len() ==> is_digit(#[trigger] s[i])
}

/// The number that a run of digits denotes in base ten.
pub open spec fn decimal_value(s: Seq<char>) -> nat
    decreases s.len(),
{
    if s.len() == 0 {
        0
    } else {
        decimal_value(s.drop_last()) * 10 + digit_value(s.last())
    }
}

/// A cleaned text is a price when it is a non-empty run of digits whose
/// value fits a signed 64-bit integer.
pub open spec fn is_price_literal(clean: Seq<char>) -> bool {
    clean.len() > 0 && all_digits(clean) && decimal_value(clean) <= i64::MAX
}

/// The price that a cleaned text denotes, if it denotes one.
pub open spec fn parsed_price(clean: Seq<char>) -> Option<i64> {
    if is_price_literal(clean) {
        Some(decimal_value(clean) as i64)
    } else {
        None
    }
}

/// The outcome of reading a price from the raw text of an element.
pub open spec fn price_of_text(text: Seq<char>) -> Result<i64, ErrorKind> {
    match parsed_price(cleaned(text)) {
        Some(price) => Ok(price),
        None => Err(ErrorKind::ParseError),
    }
}

/// `String::push` of the standard library appends one character.
pub assume_specification[ String::push ](s: &mut String, c: char)
    ensures
        final(s)@ == old(s)@.push(c),
;

/// Removes commas, spaces and zero-width non-joiners, keeping every other
/// character in place.
pub fn clean_price_text(raw: &str) -> (clean: String)
    ensures
        clean@ == cleaned(raw@),
{
    broadcast use vstd::string::group_string_axioms;

    let mut clean = String::new();
    let mut rest = raw.chars();
    let ghost mut seen: Seq<char> = Seq::empty();
    assert(cleaned(seen) == Seq::<char>::empty()) by {
        reveal(Seq::filter);
    }
    loop
        invariant
            rest.obeys_prophetic_iter_laws(),
            rest.decrease() is Some,
            seen + rest.remaining() == raw@,
            clean@ == cleaned(seen),
        decreases rest.decrease()->0,
    {
        let ghost before = rest.remaining();
        match rest.next() {
            None => {
                assert(seen == raw@);
                return clean;
            },
            Some(c) => {
                proof {
                    lemma_cleaned_push(seen, c);
                    assert(seen.push(c) + rest.remaining() == seen + before);
                    seen = seen.push(c);
                }
                if !(c == ',' || c == ' ' || c == '\u{200c}') {
                    clean.push(c);
                }
            },
        }
    }
}

/// Cleaning goes through a text one character at a time.
pub proof fn lemma_cleaned_push(text: Seq<char>, c: char)
    ensures
        cleaned(text.push(c)) == if is_separator(c) {
            cleaned(text)
        } else {
            cleaned(text).push(c)
        },
{
    reveal(Seq::filter);
    assert(text.push(c).drop_last() == text);
}

/// Reads a cleaned text as a price: a non-empty run of ASCII digits whose
/// value fits a signed 64-bit integer. A sign, a letter, a digit of another
/// script or an empty text gives `None`.
pub fn parse_price(clean: &str) -> (price: Option<i64>)
    ensures
        price == parsed_price(clean@),
        price matches Some(p) ==> p >= 0,
{
    broadcast use vstd::string::group_string_axioms;

    let mut value: i64 = 0;
    let mut any: bool = false;
    let mut rest = clean.chars();
    let ghost mut seen: Seq<char> = Seq::empty();
    loop
        invariant
            rest.obeys_prophetic_iter_laws(),
            rest.decrease() is Some,
            seen + rest.remaining() == clean@,
            all_digits(seen),
            0 <= value,
            value == decimal_value(seen),
            any == (seen.len() > 0),
        decreases rest.decrease()->0,
    {
        let ghost before = rest.remaining();
        match rest.next() {
            None => {
                assert(seen == clean@);
                return if any {
                    Some(value)
                } else {
                    None
                };
            },
            Some(c) => {
                let ghost longer = seen.push(c);
                proof {
                    assert(longer + rest.remaining() == seen + before);
                    assert(longer.drop_last() == seen);
                    assert(clean@.take(longer.len() as int) == longer);
                    lemma_decimal_value_prefix(clean@, longer.len() as int);
                }
                if !(c >= '0' && c <= '9') {
                    assert(clean@[seen.len() as int] == c);
                    return None;
                }
                let digit: i64 = (c as u32 - '0' as u32) as i64;
                if value > (i64::MAX - digit) / 10 {
                    return None;
                }
                value = value * 10 + digit;
                any = true;
                proof {
                    seen = longer;
                }
            },
        }
    }
}

/// Reads the raw text of an element as a price: cleans it, then parses what
/// is left.
pub fn read_price(text: &str) -> (price: Result<i64, ErrorKind>)
    ensures
        price == price_of_text(text@),
        price matches Ok(p) ==> p >= 0,
{
    let clean = clean_price_text(text);
    match parse_price(clean.as_str()) {
        Some(price) => Ok(price),
        None => Err(ErrorKind::ParseError),
    }
}

/// The value of a run of digits is at least that of each of its prefixes.
pub proof fn lemma_decimal_value_prefix(s: Seq<char>, k: int)
    requires
        0 <= k <= s.len(),
    ensures
        decimal_value(s.take(k)) <= decimal_value(s),
    decreases s.len(),
{
    if k == s.len() {
        assert(s.take(k) == s);
    } else {
        lemma_decimal_value_prefix(s.drop_last(), k);
        assert(s.drop_last().take(k) == s.take(k));
    }
}

} // verus!
