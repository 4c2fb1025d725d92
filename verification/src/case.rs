//! Upper and lower case, as the standard library maps them.
//!
//! Unicode's case mappings fill tables, and a mapping may change the number
//! of characters. The library does not restate them: each mapping has a
//! name, and the contracts that depend on one speak of that name.

use vstd::prelude::*;
use crate::text::{chars_of, string_of};

verus! {

/// The lower-case form of a text: what `str::to_lowercase` returns for it.
pub uninterp spec fn lowercase_of(s: Seq<char>) -> Seq<char>;

/// The upper-case form of a text: what `str::to_uppercase` returns for it.
pub uninterp spec fn uppercase_of(s: Seq<char>) -> Seq<char>;

/// The upper-case form of one character, which may be several characters:
/// what `char::to_uppercase` yields for it.
pub uninterp spec fn char_uppercase_of(c: char) -> Seq<char>;

/// `str::to_lowercase` returns the lower-case form of the string. The
/// result depends on the characters alone; nothing else is claimed of it.
pub assume_specification[ str::to_lowercase ](s: &str) -> (lower: String)
    ensures
        lower@ == lowercase_of(s@),
;

/// `str::to_uppercase` returns the upper-case form of the string. The
/// result depends on the characters alone; nothing else is claimed of it.
pub assume_specification[ str::to_uppercase ](s: &str) -> (upper: String)
    ensures
        upper@ == uppercase_of(s@),
;

/// `char::to_uppercase` yields the characters of the upper-case form of
/// `c`; they are collected into a string. The result depends on the
/// character alone; nothing else is claimed of it.
#[verifier::external_body]
fn char_to_uppercase(c: char) -> (upper: String)
    ensures
        upper@ == char_uppercase_of(c),
{
    c.to_uppercase().to_string()
}

/// The lower-case form of a text.
pub fn lowercase(s: &Vec<char>) -> (lower: Vec<char>)
    ensures
        lower@ == lowercase_of(s@),
{
    let plain = string_of(s);
    let lower = plain.as_str().to_lowercase();
    chars_of(lower.as_str())
}

/// The upper-case form of a text.
pub fn uppercase(s: &Vec<char>) -> (upper: Vec<char>)
    ensures
        upper@ == uppercase_of(s@),
{
    let plain = string_of(s);
    let upper = plain.as_str().to_uppercase();
    chars_of(upper.as_str())
}

/// The upper-case form of one character.
pub fn uppercase_char(c: char) -> (upper: Vec<char>)
    ensures
        upper@ == char_uppercase_of(c),
{
    let upper = char_to_uppercase(c);
    chars_of(upper.as_str())
}

} // verus!
