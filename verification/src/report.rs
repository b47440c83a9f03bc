use vstd::prelude::*;

use crate::decision::{Action, ResurrectionPercentage};
use crate::detection::DialogCandidate;
use crate::image::Rect;
use crate::text::{
    chars_of, classify_letters, is_whitespace, letter_flags, spec_is_whitespace, string_from_chars,
};

verus! {

/// Three letters stand in a row from position `i` (`letters` marks the letters).
pub open spec fn letter_run_at(letters: Seq<bool>, i: int) -> bool {
    &&& 0 <= i
    &&& i + 2 < letters.len()
    &&& letters[i]
    &&& letters[i + 1]
    &&& letters[i + 2]
}

/// Three letters stand in a row somewhere.
pub open spec fn spec_has_letter_run(letters: Seq<bool>) -> bool {
    exists|i: int| letter_run_at(letters, i)
}

/// The text holds a word of at least three letters.
pub open spec fn spec_contains_name_like_token(s: Seq<char>) -> bool {
    spec_has_letter_run(letter_flags(s))
}

/// Whether three marked positions follow one another, given which characters are letters.
pub fn has_letter_run(letters: &Vec<bool>) -> (b: bool)
    ensures
        b == spec_has_letter_run(letters@),
{
    let n = letters.len();
    let mut i: usize = 0;
    while n >= 3 && i <= n - 3
        invariant
            n == letters@.len(),
            i <= n,
            forall|j: int| 0 <= j < i ==> !#[trigger] letter_run_at(letters@, j),
        decreases n - i,
    {
        if letters[i] && letters[i + 1] && letters[i + 2] {
            assert(letter_run_at(letters@, i as int));
            return true;
        }
        i += 1;
    }
    proof {
        assert forall|j: int| !#[trigger] letter_run_at(letters@, j) by {
            if 0 <= j && j + 2 < n {
                assert(j < i);
            }
        }
    }
    false
}

/// Whether OCR text looks like it holds a name: a run of three or more letters.
pub fn contains_name_like_token(text: &str) -> (b: bool)
    ensures
        b == spec_contains_name_like_token(text@),
{
    let chars = chars_of(text);
    let letters = classify_letters(&chars);
    has_letter_run(&letters)
}

/// The words of the text (runs without white space) joined by single spaces.
pub open spec fn collapse_whitespace(s: Seq<char>) -> Seq<char>
    decreases s.len(),
{
    if s.len() == 0 {
        s
    } else {
        let earlier = collapse_whitespace(s.drop_last());
        if spec_is_whitespace(s.last()) {
            earlier
        } else if s.len() >= 2 && !spec_is_whitespace(s[s.len() - 2]) {
            earlier.push(s.last())
        } else if earlier.len() == 0 {
            seq![s.last()]
        } else {
            earlier.push(' ').push(s.last())
        }
    }
}

/// The collapsed text, cut to `maximum` characters followed by an ellipsis when longer.
pub open spec fn spec_compact_diagnostic_text(s: Seq<char>, maximum: int) -> Seq<char> {
    let compact = collapse_whitespace(s);
    if compact.len() <= maximum {
        compact
    } else {
        compact.take(maximum).push('…')
    }
}

/// Shortens OCR text for the diagnostic log: one space between words, and at most
/// `maximum_characters` characters before an ellipsis.
pub fn compact_diagnostic_text(text: &str, maximum_characters: usize) -> (s: String)
    ensures
        s@ == spec_compact_diagnostic_text(text@, maximum_characters as int),
{
    let chars = chars_of(text);
    let mut compact: Vec<char> = Vec::new();
    let mut i: usize = 0;
    while i < chars.len()
        invariant
            chars@ == text@,
            0 <= i <= chars@.len(),
            compact@ == collapse_whitespace(chars@.take(i as int)),
            compact@.len() <= 2 * i,
        decreases chars@.len() - i,
    {
        let c = chars[i];
        proof {
            assert(chars@.take(i + 1).drop_last() =~= chars@.take(i as int));
            assert(chars@.take(i + 1).last() == c);
            if i >= 1 {
                assert(chars@.take(i + 1)[i - 1] == chars@[i - 1]);
            }
        }
        if !is_whitespace(c) {
            if i >= 1 && !is_whitespace(chars[i - 1]) {
                compact.push(c);
            } else if compact.len() == 0 {
                compact.push(c);
                proof {
                    assert(compact@ =~= seq![c]);
                }
            } else {
                compact.push(' ');
                compact.push(c);
            }
        }
        i += 1;
    }
    proof {
        assert(chars@.take(chars@.len() as int) =~= chars@);
    }
    if compact.len() <= maximum_characters {
        return string_from_chars(&compact);
    }
    let mut cut: Vec<char> = Vec::new();
    let mut k: usize = 0;
    while k < maximum_characters
        invariant
            0 <= k <= maximum_characters < compact@.len(),
            cut@ == compact@.take(k as int),
        decreases maximum_characters - k,
    {
        proof {
            assert(compact@.take(k + 1) =~= compact@.take(k as int).push(compact@[k as int]));
        }
        cut.push(compact[k]);
        k += 1;
    }
    cut.push('…');
    string_from_chars(&cut)
}

/// The character of a decimal digit.
pub open spec fn digit_char(d: int) -> char {
    if d == 0 {
        '0'
    } else if d == 1 {
        '1'
    } else if d == 2 {
        '2'
    } else if d == 3 {
        '3'
    } else if d == 4 {
        '4'
    } else if d == 5 {
        '5'
    } else if d == 6 {
        '6'
    } else if d == 7 {
        '7'
    } else if d == 8 {
        '8'
    } else {
        '9'
    }
}

/// The decimal digits of a natural number, most significant first.
pub open spec fn decimal_digits(n: nat) -> Seq<char>
    decreases n,
{
    if n < 10 {
        seq![digit_char(n as int)]
    } else {
        decimal_digits(n / 10).push(digit_char((n % 10) as int))
    }
}

/// An integer in decimal, with a minus sign when negative.
pub open spec fn decimal(v: int) -> Seq<char> {
    if v < 0 {
        seq!['-'] + decimal_digits((-v) as nat)
    } else {
        decimal_digits(v as nat)
    }
}

/// Appends the decimal digits of a number.
pub fn push_digits(out: &mut Vec<char>, n: u64)
    ensures
        final(out)@ == old(out)@ + decimal_digits(n as nat),
    decreases n,
{
    if n >= 10 {
        push_digits(out, n / 10);
    }
    let digits = ['0', '1', '2', '3', '4', '5', '6', '7', '8', '9'];
    let d = (n % 10) as usize;
    let c = digits[d];
    assert(c == digit_char(d as int));
    out.push(c);
}

/// Appends an integer in decimal.
pub fn push_decimal(out: &mut Vec<char>, v: i64)
    ensures
        final(out)@ == old(out)@ + decimal(v as int),
{
    if v < 0 {
        out.push('-');
        let magnitude: u64 = ((-(v + 1)) as u64) + 1;
        push_digits(out, magnitude);
    } else {
        push_digits(out, v as u64);
    }
}

/// Appends the characters of a text.
pub fn push_text(out: &mut Vec<char>, text: &str)
    ensures
        final(out)@ == old(out)@ + text@,
{
    let chars = chars_of(text);
    let mut i: usize = 0;
    let ghost start = out@;
    while i < chars.len()
        invariant
            chars@ == text@,
            0 <= i <= chars@.len(),
            out@ == start + chars@.take(i as int),
        decreases chars@.len() - i,
    {
        proof {
            assert(chars@.take(i + 1) =~= chars@.take(i as int).push(chars@[i as int]));
        }
        out.push(chars[i]);
        i += 1;
    }
    proof {
        assert(chars@.take(chars@.len() as int) =~= chars@);
    }
}

/// `x=…,y=…,width=…,height=…` for a rectangle.
pub open spec fn spec_format_rect(rect: Rect) -> Seq<char> {
    "x="@ + decimal(rect.x as int) + ",y="@ + decimal(rect.y as int) + ",width="@ + decimal(
        rect.width as int,
    ) + ",height="@ + decimal(rect.height as int)
}

/// Describes a rectangle for the diagnostic log.
pub fn format_rect(rect: Rect) -> (s: String)
    ensures
        s@ == spec_format_rect(rect),
{
    let mut out: Vec<char> = Vec::new();
    push_text(&mut out, "x=");
    push_decimal(&mut out, rect.x as i64);
    push_text(&mut out, ",y=");
    push_decimal(&mut out, rect.y as i64);
    push_text(&mut out, ",width=");
    push_decimal(&mut out, rect.width as i64);
    push_text(&mut out, ",height=");
    push_decimal(&mut out, rect.height as i64);
    proof {
        assert(out@ =~= spec_format_rect(rect));
    }
    string_from_chars(&out)
}

/// The percentage as the log shows it.
pub fn resurrection_percentage_label(percentage: ResurrectionPercentage) -> (s: &'static str)
    ensures
        percentage == ResurrectionPercentage::Zero ==> s@ == "0%"@,
        percentage == ResurrectionPercentage::Hundred ==> s@ == "100%"@,
{
    match percentage {
        ResurrectionPercentage::Zero => "0%",
        ResurrectionPercentage::Hundred => "100%",
    }
}

/// The action as the log shows it.
pub fn action_label(action: Action) -> (s: &'static str)
    ensures
        action == Action::Accept ==> s@ == "accept"@,
        action == Action::Reject ==> s@ == "reject"@,
{
    match action {
        Action::Accept => "accept",
        Action::Reject => "reject",
    }
}

/// Two sightings show the same dialog: centres within 12 pixels on each axis and sizes
/// within 20 pixels.
pub open spec fn spec_same_dialog(left: DialogCandidate, right: DialogCandidate) -> bool {
    let dx = left.bounds.spec_center_x() - right.bounds.spec_center_x();
    let dy = left.bounds.spec_center_y() - right.bounds.spec_center_y();
    &&& -12 <= dx <= 12
    &&& -12 <= dy <= 12
    &&& -20 <= left.bounds.width - right.bounds.width <= 20
    &&& -20 <= left.bounds.height - right.bounds.height <= 20
}

/// The centres of the two dialog areas differ by an `i32` on each axis.
pub open spec fn centres_comparable(left: DialogCandidate, right: DialogCandidate) -> bool {
    let dx = left.bounds.spec_center_x() - right.bounds.spec_center_x();
    let dy = left.bounds.spec_center_y() - right.bounds.spec_center_y();
    &&& i32::MIN <= dx <= i32::MAX
    &&& i32::MIN <= dy <= i32::MAX
}

/// Whether a dialog seen again is the one seen before.
pub fn same_dialog(left: DialogCandidate, right: DialogCandidate) -> (b: bool)
    requires
        left.bounds.center_fits(),
        right.bounds.center_fits(),
        centres_comparable(left, right),
    ensures
        b == spec_same_dialog(left, right),
{
    let left_center = left.bounds.center();
    let right_center = right.bounds.center();
    let dx: i64 = left_center.x as i64 - right_center.x as i64;
    let dy: i64 = left_center.y as i64 - right_center.y as i64;
    let dw: i64 = left.bounds.width as i64 - right.bounds.width as i64;
    let dh: i64 = left.bounds.height as i64 - right.bounds.height as i64;
    -12 <= dx && dx <= 12 && -12 <= dy && dy <= 12 && -20 <= dw && dw <= 20 && -20 <= dh && dh <= 20
}

/// Two sightings are the same dialog exactly when their centres are at most 12 pixels
/// apart horizontally and at most 12 pixels apart vertically, and their widths and their
/// heights each differ by at most 20 pixels. For areas whose sides fit in `i32`, the
/// centre is the corner moved by half of each side, rounded down.
pub proof fn lemma_same_dialog_tolerances(a: DialogCandidate, b: DialogCandidate)
    ensures
        spec_same_dialog(a, b) <==> {
            &&& -12 <= a.bounds.spec_center_x() - b.bounds.spec_center_x() <= 12
            &&& -12 <= a.bounds.spec_center_y() - b.bounds.spec_center_y() <= 12
            &&& -20 <= a.bounds.width - b.bounds.width <= 20
            &&& -20 <= a.bounds.height - b.bounds.height <= 20
        },
        a.bounds.width <= i32::MAX ==> a.bounds.spec_center_x() == a.bounds.x + a.bounds.width / 2,
        a.bounds.height <= i32::MAX ==> a.bounds.spec_center_y() == a.bounds.y + a.bounds.height / 2,
{
}

/// Every sighting of a dialog is the same as itself, and sameness does not depend on
/// which sighting comes first.
pub proof fn lemma_same_dialog_reflexive_symmetric(left: DialogCandidate, right: DialogCandidate)
    ensures
        spec_same_dialog(left, left),
        spec_same_dialog(left, right) == spec_same_dialog(right, left),
{
}

} // verus!
