//! Unicode character classes, conversions between `str` and `Vec<char>`,
//! and small helpers for building text.
//!
//! The classes come from std's Unicode tables. White_Space is a short fixed
//! list and is stated in full; the case and letter classes are given names.

use vstd::prelude::*;
use vstd::string::*;

verus! {

/// Unicode's White_Space property, which `char::is_whitespace` tests: tab,
/// line feed, vertical tab, form feed, carriage return, space, next line,
/// no-break space, ogham space mark, the spaces U+2000 to U+200A, line and
/// paragraph separators, narrow no-break space, medium mathematical space
/// and ideographic space.
pub open spec fn is_ws(c: char) -> bool {
    ||| '\u{9}' <= c <= '\u{d}'
    ||| c == ' '
    ||| c == '\u{85}'
    ||| c == '\u{a0}'
    ||| c == '\u{1680}'
    ||| '\u{2000}' <= c <= '\u{200a}'
    ||| c == '\u{2028}'
    ||| c == '\u{2029}'
    ||| c == '\u{202f}'
    ||| c == '\u{205f}'
    ||| c == '\u{3000}'
}

/// What `char::is_uppercase` answers (Unicode's Uppercase property) for a
/// character that is not whitespace.
pub uninterp spec fn upper_case(c: char) -> bool;

/// What `char::is_lowercase` answers (Unicode's Lowercase property) for a
/// character that is not whitespace.
pub uninterp spec fn lower_case(c: char) -> bool;

/// What `char::is_alphabetic` answers (Unicode's Alphabetic property) for
/// a character that is not whitespace.
pub uninterp spec fn alphabetic(c: char) -> bool;

/// An upper-case character. No White_Space character has a case.
pub open spec fn is_upper(c: char) -> bool {
    !is_ws(c) && upper_case(c)
}

/// A lower-case character. No White_Space character has a case.
pub open spec fn is_lower(c: char) -> bool {
    !is_ws(c) && lower_case(c)
}

/// An alphabetic character. No White_Space character is alphabetic.
pub open spec fn is_alpha(c: char) -> bool {
    !is_ws(c) && alphabetic(c)
}

/// Relies on `char::is_whitespace`: whether the character has Unicode's
/// White_Space property.
#[verifier::external_body]
pub(crate) fn is_whitespace(c: char) -> (r: bool)
    ensures
        r == is_ws(c),
{
    c.is_whitespace()
}

/// Relies on `char::is_uppercase`: Unicode's Uppercase property, which no
/// White_Space character has.
#[verifier::external_body]
pub(crate) fn is_uppercase(c: char) -> (r: bool)
    ensures
        r == (!is_ws(c) && upper_case(c)),
{
    c.is_uppercase()
}

/// Relies on `char::is_lowercase`: Unicode's Lowercase property, which no
/// White_Space character has.
#[verifier::external_body]
pub(crate) fn is_lowercase(c: char) -> (r: bool)
    ensures
        r == (!is_ws(c) && lower_case(c)),
{
    c.is_lowercase()
}

/// Relies on `char::is_alphabetic`: Unicode's Alphabetic property, which no
/// White_Space character has.
#[verifier::external_body]
pub(crate) fn is_alphabetic(c: char) -> (r: bool)
    ensures
        r == (!is_ws(c) && alphabetic(c)),
{
    c.is_alphabetic()
}

/// Relies on `str::chars`: the characters of the string, in order.
#[verifier::external_body]
pub(crate) fn chars_of(s: &str) -> (r: Vec<char>)
    ensures
        r@ == s@,
{
    s.chars().collect()
}

/// Relies on `String`'s `FromIterator<char>`: the characters, in order.
#[verifier::external_body]
pub(crate) fn string_of(v: &Vec<char>) -> (r: String)
    ensures
        r@ == v@,
{
    v.iter().collect()
}

/// Appends the characters of `src` to `out`.
pub(crate) fn push_all(out: &mut Vec<char>, src: &Vec<char>)
    ensures
        final(out)@ == old(out)@ + src@,
{
    let mut i: usize = 0;
    while i < src.len()
        invariant
            i <= src@.len(),
            out@ == old(out)@ + src@.take(i as int),
        decreases src@.len() - i,
    {
        out.push(src[i]);
        proof {
            assert(src@.take(i as int + 1) =~= src@.take(i as int).push(src@[i as int]));
        }
        i += 1;
    }
    proof {
        assert(src@.take(src@.len() as int) =~= src@);
    }
}

/// `head` followed by `tail`.
pub(crate) fn joined(head: &str, tail: &str) -> (r: String)
    ensures
        r@ == head@ + tail@,
{
    let mut s = String::from_str(head);
    s.append(tail);
    s
}

} // verus!
