use vstd::prelude::*;

use crate::error::AppError;
use crate::text::{
    chars_of, classify_letters, classify_token_chars, is_ascii_digit, is_whitespace, letter_flags,
    spec_is_ascii_digit, spec_is_whitespace, spec_to_lowercase, to_lowercase, token_flags,
};

verus! {

/// The experience share that a resurrection offer restores.
#[derive(Clone, Copy, Debug, PartialEq, Eq, Structural)]
pub enum ResurrectionPercentage {
    Zero,
    Hundred,
}

/// The button to press in the resurrection dialog.
#[derive(Clone, Copy, Debug, PartialEq, Eq, Structural)]
pub enum Action {
    Accept,
    Reject,
}

/// The text with every white-space character removed.
pub open spec fn without_whitespace(s: Seq<char>) -> Seq<char>
    decreases s.len(),
{
    if s.len() == 0 {
        s
    } else if spec_is_whitespace(s.last()) {
        without_whitespace(s.drop_last())
    } else {
        without_whitespace(s.drop_last()).push(s.last())
    }
}

/// `0%` stands at position `i`, not preceded by a digit (so not the end of `100%`).
pub open spec fn zero_percent_at(s: Seq<char>, i: int) -> bool {
    &&& 0 <= i
    &&& i + 1 < s.len()
    &&& s[i] == '0'
    &&& s[i + 1] == '%'
    &&& (i == 0 || !spec_is_ascii_digit(s[i - 1]))
}

/// `100%` stands at position `i`.
pub open spec fn hundred_percent_at(s: Seq<char>, i: int) -> bool {
    &&& 0 <= i
    &&& i + 3 < s.len()
    &&& s[i] == '1'
    &&& s[i + 1] == '0'
    &&& s[i + 2] == '0'
    &&& s[i + 3] == '%'
}

pub open spec fn has_standalone_zero_percent(s: Seq<char>) -> bool {
    exists|i: int| zero_percent_at(s, i)
}

pub open spec fn has_hundred_percent(s: Seq<char>) -> bool {
    exists|i: int| hundred_percent_at(s, i)
}

/// What a dialog text says: `None` when it names both percentages, else the percentage
/// it names, if any. White space is ignored.
pub open spec fn spec_parse_percentage(text: Seq<char>) -> Option<Option<ResurrectionPercentage>> {
    let compact = without_whitespace(text);
    let zero = has_standalone_zero_percent(compact);
    let hundred = has_hundred_percent(compact);
    if zero && hundred {
        None
    } else if zero {
        Some(Some(ResurrectionPercentage::Zero))
    } else if hundred {
        Some(Some(ResurrectionPercentage::Hundred))
    } else {
        Some(None)
    }
}

/// The characters with white space removed.
pub fn remove_whitespace(chars: &Vec<char>) -> (v: Vec<char>)
    ensures
        v@ == without_whitespace(chars@),
{
    let mut v: Vec<char> = Vec::new();
    let mut i: usize = 0;
    while i < chars.len()
        invariant
            0 <= i <= chars@.len(),
            v@ == without_whitespace(chars@.take(i as int)),
        decreases chars@.len() - i,
    {
        let c = chars[i];
        proof {
            assert(chars@.take(i + 1).drop_last() =~= chars@.take(i as int));
        }
        if !is_whitespace(c) {
            v.push(c);
        }
        i += 1;
    }
    proof {
        assert(chars@.take(chars@.len() as int) =~= chars@);
    }
    v
}

/// Whether a standalone `0%` occurs in the (white-space free) characters.
pub fn contains_standalone_zero_percent(chars: &Vec<char>) -> (b: bool)
    ensures
        b == has_standalone_zero_percent(chars@),
{
    let n = chars.len();
    let mut i: usize = 0;
    while n >= 2 && i <= n - 2
        invariant
            i <= n,
            n == chars@.len(),
            forall|j: int| 0 <= j < i ==> !#[trigger] zero_percent_at(chars@, j),
        decreases n - i,
    {
        if chars[i] == '0' && chars[i + 1] == '%' && (i == 0 || !is_ascii_digit(chars[i - 1])) {
            assert(zero_percent_at(chars@, i as int));
            return true;
        }
        i += 1;
    }
    false
}

/// Whether `100%` occurs in the characters.
pub fn contains_hundred_percent(chars: &Vec<char>) -> (b: bool)
    ensures
        b == has_hundred_percent(chars@),
{
    let n = chars.len();
    let mut i: usize = 0;
    while n >= 4 && i <= n - 4
        invariant
            i <= n,
            n == chars@.len(),
            forall|j: int| 0 <= j < i ==> !#[trigger] hundred_percent_at(chars@, j),
        decreases n - i,
    {
        if chars[i] == '1' && chars[i + 1] == '0' && chars[i + 2] == '0' && chars[i + 3] == '%' {
            assert(hundred_percent_at(chars@, i as int));
            return true;
        }
        i += 1;
    }
    false
}

/// Reads the resurrection percentage out of the dialog text. A text that names both
/// `0%` and `100%` is refused.
pub fn parse_percentage(text: &str) -> (r: Result<Option<ResurrectionPercentage>, AppError>)
    ensures
        r matches Ok(p) ==> spec_parse_percentage(text@) == Some(p),
        r matches Err(e) ==> spec_parse_percentage(text@) is None && (e matches AppError::ConflictingPercentage { text: t } && t@ == text@),
        (r is Err) <==> spec_parse_percentage(text@) is None,
{
    let chars = chars_of(text);
    let compact = remove_whitespace(&chars);
    let has_hundred = contains_hundred_percent(&compact);
    let has_zero = contains_standalone_zero_percent(&compact);
    if has_zero && has_hundred {
        Err(AppError::ConflictingPercentage { text: text.to_owned() })
    } else if has_zero {
        Ok(Some(ResurrectionPercentage::Zero))
    } else if has_hundred {
        Ok(Some(ResurrectionPercentage::Hundred))
    } else {
        Ok(None)
    }
}

/// The text with white space removed and every character lowercased.
pub open spec fn lowered_compact(s: Seq<char>) -> Seq<char>
    decreases s.len(),
{
    if s.len() == 0 {
        s
    } else if spec_is_whitespace(s.last()) {
        lowered_compact(s.drop_last())
    } else {
        lowered_compact(s.drop_last()) + spec_to_lowercase(s.last())
    }
}

/// An underscore and exactly two digits stand at position `i`.
pub open spec fn numbered_suffix_at(s: Seq<char>, i: int) -> bool {
    &&& 0 <= i
    &&& i + 3 <= s.len()
    &&& s[i] == '_'
    &&& spec_is_ascii_digit(s[i + 1])
    &&& spec_is_ascii_digit(s[i + 2])
    &&& (i + 3 == s.len() || !spec_is_ascii_digit(s[i + 3]))
}

/// The characters carry an `_NN` suffix: an underscore and exactly two digits.
pub open spec fn spec_has_numbered_suffix(s: Seq<char>) -> bool {
    exists|i: int| numbered_suffix_at(s, i)
}

/// The character sequences on which the suffix check gives an answer: all but the empty
/// one, `_`, and `_` followed by one digit.
pub open spec fn suffix_check_is_defined(s: Seq<char>) -> bool {
    ||| s.len() >= 3
    ||| (s.len() >= 1 && s[0] != '_')
    ||| (s.len() == 2 && !spec_is_ascii_digit(s[1]))
}

/// The nickname carries an `_NN` suffix: an underscore and exactly two digits, once white
/// space is removed and letters are lowercased.
pub open spec fn spec_has_numbered_nickname(text: Seq<char>) -> bool {
    spec_has_numbered_suffix(lowered_compact(text))
}

/// The texts on which the nickname check gives an answer: those whose compact form is
/// not a too-short start of `_NN`.
pub open spec fn nickname_check_is_defined(text: Seq<char>) -> bool {
    suffix_check_is_defined(lowered_compact(text))
}

/// The characters with white space removed and letters lowercased.
pub fn lowercase_compact(chars: &Vec<char>) -> (v: Vec<char>)
    ensures
        v@ == lowered_compact(chars@),
{
    let mut v: Vec<char> = Vec::new();
    let mut i: usize = 0;
    while i < chars.len()
        invariant
            0 <= i <= chars@.len(),
            v@ == lowered_compact(chars@.take(i as int)),
        decreases chars@.len() - i,
    {
        let c = chars[i];
        proof {
            assert(chars@.take(i + 1).drop_last() =~= chars@.take(i as int));
        }
        if !is_whitespace(c) {
            let lower = to_lowercase(c);
            let ghost before = v@;
            let mut k: usize = 0;
            while k < lower.len()
                invariant
                    0 <= k <= lower@.len(),
                    v@ == before + lower@.take(k as int),
                decreases lower@.len() - k,
            {
                proof {
                    assert(lower@.take(k + 1) =~= lower@.take(k as int).push(lower@[k as int]));
                }
                v.push(lower[k]);
                k += 1;
            }
            proof {
                assert(lower@.take(lower@.len() as int) =~= lower@);
            }
        }
        i += 1;
    }
    proof {
        assert(chars@.take(chars@.len() as int) =~= chars@);
    }
    v
}

/// Whether `has_numbered_suffix` answers for these characters: `suffix_check_is_defined`.
pub fn suffix_is_checkable(compact: &Vec<char>) -> (b: bool)
    ensures
        b == suffix_check_is_defined(compact@),
{
    let n = compact.len();
    n >= 3 || (n >= 1 && compact[0] != '_') || (n == 2 && !is_ascii_digit(compact[1]))
}

/// Whether `has_numbered_nickname` answers for this text: `nickname_check_is_defined`.
pub fn nickname_is_checkable(text: &str) -> (b: bool)
    ensures
        b == nickname_check_is_defined(text@),
{
    let chars = chars_of(text);
    let compact = lowercase_compact(&chars);
    suffix_is_checkable(&compact)
}

/// Whether the characters hold `_` and two digits not followed by a third digit.
pub fn has_numbered_suffix(compact: &Vec<char>) -> (b: bool)
    requires
        suffix_check_is_defined(compact@),
    ensures
        b == spec_has_numbered_suffix(compact@),
{
    let n = compact.len();
    let mut i: usize = 0;
    while n >= 4 && i <= n - 4
        invariant
            i <= n,
            n == compact@.len(),
            forall|j: int| 0 <= j < i ==> !#[trigger] numbered_suffix_at(compact@, j),
        decreases n - i,
    {
        if compact[i] == '_' && is_ascii_digit(compact[i + 1]) && is_ascii_digit(compact[i + 2])
            && !is_ascii_digit(compact[i + 3]) {
            assert(numbered_suffix_at(compact@, i as int));
            return true;
        }
        i += 1;
    }
    if n < 3 {
        return false;
    }
    let found = compact[n - 3] == '_' && is_ascii_digit(compact[n - 2]) && is_ascii_digit(
        compact[n - 1],
    );
    proof {
        if found {
            assert(numbered_suffix_at(compact@, n - 3));
        } else {
            assert forall|j: int| !#[trigger] numbered_suffix_at(compact@, j) by {
                if 0 <= j && j + 3 < n {
                    assert(j < i);
                }
            }
        }
    }
    found
}

/// Whether the OCR text of a name ends its nickname with `_NN`.
pub fn has_numbered_nickname(text: &str) -> (b: bool)
    requires
        nickname_check_is_defined(text@),
    ensures
        b == spec_has_numbered_nickname(text@),
{
    let chars = chars_of(text);
    let compact = lowercase_compact(&chars);
    has_numbered_suffix(&compact)
}

/// Where the first `n` characters end once the separators at their end are dropped
/// (`token` marks the token characters).
pub open spec fn end_without_separators(token: Seq<bool>, n: int) -> int
    decreases n,
{
    if n <= 0 {
        0
    } else if !token[n - 1] {
        end_without_separators(token, n - 1)
    } else {
        n
    }
}

/// Where the run of token characters that ends at `end` starts.
pub open spec fn token_start_before(token: Seq<bool>, end: int) -> int
    decreases end,
{
    if end <= 0 {
        0
    } else if !token[end - 1] {
        end
    } else {
        token_start_before(token, end - 1)
    }
}

/// How many of the first `n` flags are set.
pub open spec fn count_set(flags: Seq<bool>, n: int) -> nat
    decreases n,
{
    if n <= 0 {
        0
    } else {
        count_set(flags, n - 1) + if flags[n - 1] {
            1nat
        } else {
            0nat
        }
    }
}

/// The last token is exactly two ASCII digits and the characters before it hold at
/// least two letters, given which characters belong to tokens and which are letters.
pub open spec fn spec_ends_with_two_digit_token(
    chars: Seq<char>,
    token: Seq<bool>,
    letters: Seq<bool>,
) -> bool {
    let end = end_without_separators(token, chars.len() as int);
    let start = token_start_before(token, end);
    &&& end == start + 2
    &&& spec_is_ascii_digit(chars[start])
    &&& spec_is_ascii_digit(chars[start + 1])
    &&& count_set(letters, start) >= 2
}

/// The last token is exactly two ASCII digits and the tokens before it hold at least two
/// letters: a name whose underscore OCR dropped.
pub open spec fn spaced_two_digit_suffix(text: Seq<char>) -> bool {
    spec_ends_with_two_digit_token(text, token_flags(text), letter_flags(text))
}

/// The header of a status panel shows a numbered nickname: an `_NN` suffix, or a last
/// token of two digits after a name.
pub open spec fn spec_has_numbered_nickname_header(text: Seq<char>) -> bool {
    spec_has_numbered_nickname(text) || spaced_two_digit_suffix(text)
}

/// Whether the last token of the characters is two digits after at least two letters;
/// `token` marks the characters that belong to tokens and `letters` the letters.
pub fn ends_with_two_digit_token(chars: &Vec<char>, token: &Vec<bool>, letters: &Vec<bool>) -> (b: bool)
    requires
        token@.len() == chars@.len(),
        letters@.len() == chars@.len(),
    ensures
        b == spec_ends_with_two_digit_token(chars@, token@, letters@),
{
    let n = chars.len();
    let mut end: usize = n;
    while end > 0 && !token[end - 1]
        invariant
            0 <= end <= n,
            n == chars@.len(),
            n == token@.len(),
            end_without_separators(token@, n as int) == end_without_separators(token@, end as int),
        decreases end,
    {
        end -= 1;
    }
    let mut start: usize = end;
    while start > 0 && token[start - 1]
        invariant
            0 <= start <= end <= n,
            n == chars@.len(),
            n == token@.len(),
            end == end_without_separators(token@, n as int),
            token_start_before(token@, end as int) == token_start_before(token@, start as int),
        decreases start,
    {
        start -= 1;
    }
    if end - start != 2 || !is_ascii_digit(chars[start]) || !is_ascii_digit(chars[start + 1]) {
        return false;
    }
    let mut count: usize = 0;
    let mut k: usize = 0;
    while k < start
        invariant
            0 <= k <= start,
            start <= n,
            n == letters@.len(),
            count <= k,
            count == count_set(letters@, k as int),
        decreases start - k,
    {
        if letters[k] {
            count += 1;
        }
        k += 1;
    }
    count >= 2
}

/// Whether the OCR text of a status panel header shows a numbered nickname.
pub fn has_numbered_nickname_header(text: &str) -> (b: bool)
    requires
        nickname_check_is_defined(text@),
    ensures
        b == spec_has_numbered_nickname_header(text@),
{
    if has_numbered_nickname(text) {
        return true;
    }
    let chars = chars_of(text);
    let token = classify_token_chars(&chars);
    let letters = classify_letters(&chars);
    ends_with_two_digit_token(&chars, &token, &letters)
}

/// The nickname check for any text: `None` for a text the check gives no answer for,
/// such as an empty one.
pub fn checked_numbered_nickname(text: &str) -> (r: Option<bool>)
    ensures
        r is None <==> !nickname_check_is_defined(text@),
        r matches Some(b) ==> b == spec_has_numbered_nickname(text@),
{
    if nickname_is_checkable(text) {
        Some(has_numbered_nickname(text))
    } else {
        None
    }
}

/// The header check for any text: `None` for a text the check gives no answer for.
pub fn checked_numbered_nickname_header(text: &str) -> (r: Option<bool>)
    ensures
        r is None <==> !nickname_check_is_defined(text@),
        r matches Some(b) ==> b == spec_has_numbered_nickname_header(text@),
{
    if nickname_is_checkable(text) {
        Some(has_numbered_nickname_header(text))
    } else {
        None
    }
}

/// The action for a dialog: a numbered nickname is always accepted; otherwise only a
/// full (100%) resurrection is.
pub open spec fn spec_choose_action(percentage: ResurrectionPercentage, numbered_nickname: bool) -> Action {
    if numbered_nickname || percentage == ResurrectionPercentage::Hundred {
        Action::Accept
    } else {
        Action::Reject
    }
}

/// Decides which button to press.
pub fn choose_action(percentage: ResurrectionPercentage, numbered_nickname: bool) -> (a: Action)
    ensures
        a == spec_choose_action(percentage, numbered_nickname),
{
    match (numbered_nickname, percentage) {
        (true, _) | (false, ResurrectionPercentage::Hundred) => Action::Accept,
        (false, ResurrectionPercentage::Zero) => Action::Reject,
    }
}

/// Removing white space and lowercasing works piece by piece: the form of a text put
/// in front of another is the form of the first followed by the form of the second.
pub proof fn lemma_lowered_compact_concat(front: Seq<char>, text: Seq<char>)
    ensures
        lowered_compact(front + text) == lowered_compact(front) + lowered_compact(text),
    decreases text.len(),
{
    if text.len() == 0 {
        assert(front + text =~= front);
        assert(lowered_compact(front) + lowered_compact(text) =~= lowered_compact(front));
    } else {
        let whole = front + text;
        assert(whole.drop_last() =~= front + text.drop_last());
        assert(whole.last() == text.last());
        lemma_lowered_compact_concat(front, text.drop_last());
        if !spec_is_whitespace(text.last()) {
            assert(lowered_compact(front) + lowered_compact(text.drop_last()) + spec_to_lowercase(
                text.last(),
            ) =~= lowered_compact(front) + (lowered_compact(text.drop_last()) + spec_to_lowercase(
                text.last(),
            )));
        }
    }
}

/// Text put in front of a nickname never hides its `_NN` suffix.
pub proof fn lemma_numbered_nickname_survives_prefix(front: Seq<char>, text: Seq<char>)
    requires
        spec_has_numbered_nickname(text),
    ensures
        spec_has_numbered_nickname(front + text),
{
    lemma_lowered_compact_concat(front, text);
    let head = lowered_compact(front);
    let tail = lowered_compact(text);
    let i = choose|i: int| numbered_suffix_at(tail, i);
    let whole = head + tail;
    assert(whole[head.len() + i] == tail[i]);
    assert(whole[head.len() + i + 1] == tail[i + 1]);
    assert(whole[head.len() + i + 2] == tail[i + 2]);
    if i + 3 < tail.len() {
        assert(whole[head.len() + i + 3] == tail[i + 3]);
    }
    assert(numbered_suffix_at(whole, head.len() + i));
}

/// The header check accepts every nickname that the plain check accepts.
pub proof fn lemma_header_check_extends(text: Seq<char>)
    ensures
        spec_has_numbered_nickname(text) ==> spec_has_numbered_nickname_header(text),
{
}

/// A numbered nickname is always accepted; without one, only a full resurrection is,
/// and a 0% one is rejected.
pub proof fn lemma_action_rules(percentage: ResurrectionPercentage, numbered_nickname: bool)
    ensures
        spec_choose_action(percentage, true) == Action::Accept,
        spec_choose_action(ResurrectionPercentage::Hundred, numbered_nickname) == Action::Accept,
        spec_choose_action(ResurrectionPercentage::Zero, false) == Action::Reject,
{
}

} // verus!
