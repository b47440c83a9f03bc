use vstd::prelude::*;

verus! {

/// The characters of a string slice, in order.
pub fn chars_of(text: &str) -> (v: Vec<char>)
    ensures
        v@ == text@,
{
    let mut v: Vec<char> = Vec::new();
    for c in iter: text.chars()
        invariant
            v@ == iter.seq().take(iter.index() as int),
    {
        v.push(c);
    }
    v
}

/// The characters that carry the Unicode `White_Space` property.
pub open spec fn spec_is_whitespace(c: char) -> bool {
    ||| '\u{9}' <= c <= '\u{d}'
    ||| c == ' '
    ||| c == '\u{85}'
    ||| c == '\u{a0}'
    ||| c == '\u{1680}'
    ||| '\u{2000}' <= c <= '\u{200a}'
    ||| c == '\u{2028}'
    ||| c == '\u{2029}'
    ||| c == '\u{202f}'
    ||| c == '\u{205f}'
    ||| c == '\u{3000}'
}

/// Whether `c` is white space in the Unicode sense.
pub fn is_whitespace(c: char) -> (b: bool)
    ensures
        b == spec_is_whitespace(c),
{
    ('\u{9}' <= c && c <= '\u{d}') || c == ' ' || c == '\u{85}' || c == '\u{a0}' || c == '\u{1680}'
        || ('\u{2000}' <= c && c <= '\u{200a}') || c == '\u{2028}' || c == '\u{2029}' || c
        == '\u{202f}' || c == '\u{205f}' || c == '\u{3000}'
}

pub open spec fn spec_is_ascii_digit(c: char) -> bool {
    '0' <= c <= '9'
}

/// Whether `c` is one of `0` to `9`.
pub fn is_ascii_digit(c: char) -> (b: bool)
    ensures
        b == spec_is_ascii_digit(c),
{
    '0' <= c && c <= '9'
}

// Whether a character has the Unicode `Alphabetic` property, as `char::is_alphabetic`
// reports it.
pub uninterp spec fn spec_is_alphabetic(c: char) -> bool;

// Whether a character has a Unicode numeric general category, as `char::is_numeric`
// reports it.
pub uninterp spec fn spec_is_numeric(c: char) -> bool;

// The lowercase mapping of a character, as `char::to_lowercase` yields it.
pub uninterp spec fn spec_to_lowercase(c: char) -> Seq<char>;

/// Calls `char::is_alphabetic`; its result is named by `spec_is_alphabetic`.
#[verifier::external_body]
pub(crate) fn is_alphabetic(c: char) -> (b: bool)
    ensures
        b == spec_is_alphabetic(c),
{
    c.is_alphabetic()
}

/// Calls `char::is_alphanumeric`, which std documents as `is_alphabetic() || is_numeric()`.
#[verifier::external_body]
pub(crate) fn is_alphanumeric(c: char) -> (b: bool)
    ensures
        b == (spec_is_alphabetic(c) || spec_is_numeric(c)),
{
    c.is_alphanumeric()
}

/// Collects `char::to_lowercase`; the result is named by `spec_to_lowercase`.
#[verifier::external_body]
pub(crate) fn to_lowercase(c: char) -> (v: Vec<char>)
    ensures
        v@ == spec_to_lowercase(c),
{
    c.to_lowercase().collect()
}

/// Calls `String::from_iter` (`FromIterator<&char> for String`): the string holds the
/// characters, in order.
#[verifier::external_body]
pub(crate) fn string_from_chars(chars: &Vec<char>) -> (s: String)
    ensures
        s@ == chars@,
{
    String::from_iter(chars.iter())
}

/// A character inside a token: alphabetic or numeric (`char::is_alphanumeric`).
pub open spec fn is_token_char(c: char) -> bool {
    spec_is_alphabetic(c) || spec_is_numeric(c)
}

/// For each character, whether it is a letter.
pub open spec fn letter_flags(s: Seq<char>) -> Seq<bool> {
    Seq::new(s.len(), |i: int| spec_is_alphabetic(s[i]))
}

/// For each character, whether it belongs to a token (is alphanumeric).
pub open spec fn token_flags(s: Seq<char>) -> Seq<bool> {
    Seq::new(s.len(), |i: int| is_token_char(s[i]))
}

/// Marks each character that is a letter.
pub fn classify_letters(chars: &Vec<char>) -> (v: Vec<bool>)
    ensures
        v@ == letter_flags(chars@),
{
    let mut v: Vec<bool> = Vec::new();
    let mut i: usize = 0;
    while i < chars.len()
        invariant
            0 <= i <= chars@.len(),
            v@.len() == i,
            forall|j: int| 0 <= j < i ==> v@[j] == spec_is_alphabetic(chars@[j]),
        decreases chars@.len() - i,
    {
        v.push(is_alphabetic(chars[i]));
        i += 1;
    }
    proof {
        assert(v@ =~= letter_flags(chars@));
    }
    v
}

/// Marks each character that belongs to a token.
pub fn classify_token_chars(chars: &Vec<char>) -> (v: Vec<bool>)
    ensures
        v@ == token_flags(chars@),
{
    let mut v: Vec<bool> = Vec::new();
    let mut i: usize = 0;
    while i < chars.len()
        invariant
            0 <= i <= chars@.len(),
            v@.len() == i,
            forall|j: int| 0 <= j < i ==> v@[j] == is_token_char(chars@[j]),
        decreases chars@.len() - i,
    {
        v.push(is_alphanumeric(chars[i]));
        i += 1;
    }
    proof {
        assert(v@ =~= token_flags(chars@));
    }
    v
}

// The lowercase form of a text, as `str::to_lowercase` produces it.
pub uninterp spec fn spec_lowercase_text(text: Seq<char>) -> Seq<char>;

/// Calls `str::to_lowercase`; its result is named by `spec_lowercase_text`.
#[verifier::external_body]
pub(crate) fn lowercase_text(text: &str) -> (s: String)
    ensures
        s@ == spec_lowercase_text(text@),
{
    text.to_lowercase()
}

} // verus!
