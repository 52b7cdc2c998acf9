//! Checks on what a user types when naming a class.

use vstd::prelude::*;
use vstd::string::*;
use vstd::utf8::encode_utf8;
use crate::error::StringError;
use crate::substitutions::Text;

verus! {

/// Whether a character has the Unicode property `Alphabetic`, as
/// `char::is_alphabetic` tells it.
pub uninterp spec fn alphabetic(c: char) -> bool;

/// The upper-case form of a text, as `str::to_uppercase` gives it: each
/// character replaced by its Unicode upper-case mapping, which may be more
/// than one character.
pub uninterp spec fn uppercase(text: Seq<char>) -> Seq<char>;

/// `char::is_alphabetic` tells whether the character has the Unicode
/// property `Alphabetic`; the result is named [`alphabetic`].
pub assume_specification[ char::is_alphabetic ](c: char) -> (b: bool)
    ensures
        b == alphabetic(c),
;

/// `str::to_uppercase` gives the upper-case form of a text as a new
/// `String`; the result is named [`uppercase`].
pub assume_specification[ str::to_uppercase ](text: &str) -> (upper: String)
    ensures
        upper@ == uppercase(text@),
;

/// The text without the given character: `str::replace` with the character
/// as the pattern and the empty string in its place, which copies the text
/// and leaves out every occurrence of the character.
#[verifier::external_body]
fn without_char(text: &str, dropped: char) -> (rest: String)
    ensures
        rest@ == text@.filter(|c: char| c != dropped),
{
    text.replace(dropped, "")
}

/// Whether a character is one of the digits `0` to `9`.
pub open spec fn is_digit(c: char) -> bool {
    '0' <= c <= '9'
}

/// Whether a text holds a character with the property `Alphabetic`.
pub open spec fn has_letter(text: Text) -> bool {
    exists|i: int| 0 <= i < text.len() && alphabetic(#[trigger] text[i])
}

/// Whether a text holds one of the digits `0` to `9`.
pub open spec fn has_digit(text: Text) -> bool {
    exists|i: int| 0 <= i < text.len() && is_digit(#[trigger] text[i])
}

/// What is left of a class name when its dots are taken out.
pub open spec fn without_dots(input: Text) -> Text {
    input.filter(|c: char| c != '.')
}

/// Whether a class name without its dots can be accepted: it takes at least
/// four bytes in UTF-8 and holds both a letter and a digit.
pub open spec fn acceptable(name: Text) -> bool {
    encode_utf8(name).len() >= 4 && has_letter(name) && has_digit(name)
}

/// Whether the text holds a letter and whether it holds a digit.
fn letter_and_digit(text: &str) -> (found: (bool, bool))
    ensures
        found.0 == has_letter(text@),
        found.1 == has_digit(text@),
{
    let mut letter = false;
    let mut digit = false;
    for c in it: text.chars()
        invariant
            it.seq() == text@,
            letter == has_letter(text@.take(it.index())),
            digit == has_digit(text@.take(it.index())),
    {
        proof {
            let read = text@.take(it.index());
            let more = text@.take(it.index() + 1);
            assert(more =~= read.push(c));
            if has_letter(read) {
                let i = choose|i: int| 0 <= i < read.len() && alphabetic(#[trigger] read[i]);
                assert(alphabetic(more[i]));
            }
            if has_digit(read) {
                let i = choose|i: int| 0 <= i < read.len() && is_digit(#[trigger] read[i]);
                assert(is_digit(more[i]));
            }
            if has_letter(more) && !alphabetic(c) {
                let i = choose|i: int| 0 <= i < more.len() && alphabetic(#[trigger] more[i]);
                assert(alphabetic(read[i]));
            }
            if has_digit(more) && !is_digit(c) {
                let i = choose|i: int| 0 <= i < more.len() && is_digit(#[trigger] more[i]);
                assert(is_digit(read[i]));
            }
            if alphabetic(c) {
                assert(alphabetic(more[it.index()]));
            }
            if is_digit(c) {
                assert(is_digit(more[it.index()]));
            }
        }
        if c.is_alphabetic() {
            letter = true;
        }
        if '0' <= c && c <= '9' {
            digit = true;
        }
    }
    assert(text@.take(text@.len() as int) =~= text@);
    (letter, digit)
}

/// Checks a class name as a user typed it and brings it into the form in
/// which the plan writes class names: the dots are taken out, so that
/// `BGYM19.1` becomes `BGYM191`, and the rest is put in upper case. A name
/// that is too short without its dots, or that lacks a letter or a digit, is
/// refused with a message that says which.
pub fn sanitize_and_check_register_class_input(input: &str) -> (outcome: Result<
    String,
    StringError,
>)
    ensures
        match outcome {
            Ok(class) => acceptable(without_dots(input@)) && class@ == uppercase(
                without_dots(input@),
            ),
            Err(error) => {
                let name = without_dots(input@);
                if encode_utf8(name).len() < 4 {
                    error@ == "Argument too short"@
                } else {
                    !(has_letter(name) && has_digit(name)) && error@
                        == "Argument is incorrectly formatted"@
                }
            },
        },
{
    let name = without_char(input, '.');
    if name.as_str().as_bytes().len() < 4 {
        return Err(StringError::new("Argument too short"));
    }
    let (letter, digit) = letter_and_digit(name.as_str());
    if !(letter && digit) {
        return Err(StringError::new("Argument is incorrectly formatted"));
    }
    Ok(name.as_str().to_uppercase())
}

} // verus!
