use vstd::prelude::*;

use crate::config::{fragments_invalid, is_blank, range_valid, Config};
use crate::error::{AppError, InvalidValue};
use crate::report::{decimal_digits, digit_char, push_digits, push_text};
use crate::text::{chars_of, is_ascii_digit, is_whitespace, spec_is_ascii_digit, spec_is_whitespace, string_from_chars};

verus! {

/// The text without its leading white space.
pub open spec fn trim_start(s: Seq<char>) -> Seq<char>
    decreases s.len(),
{
    if s.len() > 0 && spec_is_whitespace(s[0]) {
        trim_start(s.drop_first())
    } else {
        s
    }
}

/// The text without its trailing white space.
pub open spec fn trim_end(s: Seq<char>) -> Seq<char>
    decreases s.len(),
{
    if s.len() > 0 && spec_is_whitespace(s.last()) {
        trim_end(s.drop_last())
    } else {
        s
    }
}

/// The text without white space at either end (`str::trim`).
pub open spec fn trimmed(s: Seq<char>) -> Seq<char> {
    trim_end(trim_start(s))
}

proof fn lemma_trim_start_skips(s: Seq<char>, a: int)
    requires
        0 <= a <= s.len(),
        forall|j: int| 0 <= j < a ==> spec_is_whitespace(#[trigger] s[j]),
        a == s.len() || !spec_is_whitespace(s[a]),
    ensures
        trim_start(s) == s.skip(a),
    decreases a,
{
    if a == 0 {
        assert(s.skip(0) =~= s);
    } else {
        assert(spec_is_whitespace(s[0]));
        let rest = s.drop_first();
        assert forall|j: int| 0 <= j < a - 1 implies spec_is_whitespace(#[trigger] rest[j]) by {
            assert(rest[j] == s[j + 1]);
        }
        lemma_trim_start_skips(rest, a - 1);
        assert(rest.skip(a - 1) =~= s.skip(a));
    }
}

proof fn lemma_trim_end_takes(s: Seq<char>, b: int)
    requires
        0 <= b <= s.len(),
        forall|j: int| b <= j < s.len() ==> spec_is_whitespace(#[trigger] s[j]),
        b == 0 || !spec_is_whitespace(s[b - 1]),
    ensures
        trim_end(s) == s.take(b),
    decreases s.len() - b,
{
    if b == s.len() {
        assert(s.take(b) =~= s);
    } else {
        assert(spec_is_whitespace(s.last()));
        let rest = s.drop_last();
        assert forall|j: int| b <= j < rest.len() implies spec_is_whitespace(#[trigger] rest[j]) by {
            assert(rest[j] == s[j]);
        }
        lemma_trim_end_takes(rest, b);
        assert(rest.take(b) =~= s.take(b));
    }
}

/// The characters with white space cut from both ends.
pub fn trim_vec(chars: &Vec<char>) -> (v: Vec<char>)
    ensures
        v@ == trimmed(chars@),
{
    let n = chars.len();
    let mut a: usize = 0;
    while a < n && is_whitespace(chars[a])
        invariant
            n == chars@.len(),
            0 <= a <= n,
            forall|j: int| 0 <= j < a ==> spec_is_whitespace(#[trigger] chars@[j]),
        decreases n - a,
    {
        a += 1;
    }
    proof {
        lemma_trim_start_skips(chars@, a as int);
    }
    let mut b: usize = n;
    while b > a && is_whitespace(chars[b - 1])
        invariant
            n == chars@.len(),
            0 <= a <= b <= n,
            forall|j: int| b <= j < n ==> spec_is_whitespace(#[trigger] chars@[j]),
        decreases b - a,
    {
        b -= 1;
    }
    let ghost rest = chars@.skip(a as int);
    proof {
        assert forall|j: int| b - a <= j < rest.len() implies spec_is_whitespace(#[trigger] rest[j]) by {
            assert(rest[j] == chars@[j + a]);
        }
        if b > a {
            assert(rest[b - a - 1] == chars@[b - 1]);
        }
        lemma_trim_end_takes(rest, b - a);
    }
    let mut v: Vec<char> = Vec::new();
    let mut i: usize = a;
    while i < b
        invariant
            0 <= a <= i <= b <= n,
            n == chars@.len(),
            v@ == chars@.subrange(a as int, i as int),
        decreases b - i,
    {
        proof {
            assert(chars@.subrange(a as int, i + 1) =~= chars@.subrange(a as int, i as int).push(chars@[i as int]));
        }
        v.push(chars[i]);
        i += 1;
    }
    proof {
        assert(v@ =~= rest.take(b - a));
    }
    v
}

/// The characters of the text with white space cut from both ends.
pub fn trim_chars(text: &str) -> (v: Vec<char>)
    ensures
        v@ == trimmed(text@),
{
    let chars = chars_of(text);
    trim_vec(&chars)
}

/// The value of a decimal digit character.
pub open spec fn digit_value(c: char) -> int {
    (c as u32) as int - 48
}

/// Every character is one of `0` to `9`.
pub open spec fn all_digits(d: Seq<char>) -> bool {
    forall|i: int| 0 <= i < d.len() ==> spec_is_ascii_digit(#[trigger] d[i])
}

/// The number that a string of decimal digits writes.
pub open spec fn digits_value(d: Seq<char>) -> int
    decreases d.len(),
{
    if d.len() == 0 {
        0
    } else {
        digits_value(d.drop_last()) * 10 + digit_value(d.last())
    }
}

/// The digits after an optional leading `+`.
pub open spec fn unsigned_digits(t: Seq<char>) -> Seq<char> {
    if t.len() >= 1 && t[0] == '+' {
        t.drop_first()
    } else {
        t
    }
}

/// The number that a settings field holds, as `str::trim` and then `str::parse` for an
/// unsigned type read it: an optional `+` and at least one decimal digit, and a value
/// no greater than `maximum`.
pub open spec fn spec_parse_unsigned(s: Seq<char>, maximum: int) -> Option<int> {
    let d = unsigned_digits(trimmed(s));
    if d.len() >= 1 && all_digits(d) && digits_value(d) <= maximum {
        Some(digits_value(d))
    } else {
        None
    }
}

proof fn lemma_digits_value_grows(d: Seq<char>, i: int, j: int)
    requires
        0 <= i <= j <= d.len(),
        all_digits(d),
    ensures
        0 <= digits_value(d.take(i)) <= digits_value(d.take(j)),
    decreases j,
{
    if j == 0 {
        assert(d.take(0) =~= d.take(i));
    } else if i == j {
        lemma_digits_value_grows(d, 0, j - 1);
        assert(d.take(j).drop_last() =~= d.take(j - 1));
        assert(spec_is_ascii_digit(d[j - 1]));
    } else {
        lemma_digits_value_grows(d, i, j - 1);
        assert(d.take(j).drop_last() =~= d.take(j - 1));
        assert(spec_is_ascii_digit(d[j - 1]));
    }
}

/// Reads an unsigned number no greater than `maximum` from a settings field.
pub fn parse_unsigned(value: &str, maximum: u64) -> (r: Option<u64>)
    ensures
        r matches Some(v) ==> spec_parse_unsigned(value@, maximum as int) == Some(v as int),
        r is None ==> spec_parse_unsigned(value@, maximum as int) is None,
{
    let t = trim_chars(value);
    let start: usize = if t.len() >= 1 && t[0] == '+' {
        1
    } else {
        0
    };
    let ghost d = unsigned_digits(t@);
    proof {
        assert(d =~= t@.skip(start as int));
    }
    if start >= t.len() {
        return None;
    }
    let mut acc: u64 = 0;
    let mut i: usize = start;
    while i < t.len()
        invariant
            t@ == trimmed(value@),
            d == unsigned_digits(t@),
            d == t@.skip(start as int),
            start <= i <= t@.len(),
            acc <= maximum,
            acc == digits_value(d.take(i - start)),
            all_digits(d.take(i - start)),
        decreases t@.len() - i,
    {
        let c = t[i];
        proof {
            assert(d.take(i - start + 1).drop_last() =~= d.take(i - start));
            assert(d.take(i - start + 1).last() == c);
        }
        if !is_ascii_digit(c) {
            proof {
                assert(d[i - start] == c);
            }
            return None;
        }
        let next: u128 = acc as u128 * 10 + (c as u32 - 48) as u128;
        proof {
            assert(all_digits(d.take(i - start + 1)));
        }
        if next > maximum as u128 {
            proof {
                if all_digits(d) {
                    lemma_digits_value_grows(d, i - start + 1, d.len() as int);
                    assert(d.take(i - start + 1) =~= d.take(i - start + 1));
                    assert(d.take(d.len() as int) =~= d);
                }
            }
            return None;
        }
        acc = next as u64;
        i += 1;
    }
    proof {
        assert(d.take(d.len() as int) =~= d);
    }
    Some(acc)
}

/// The refusal of a settings field that does not hold a number.
pub open spec fn not_a_number(field: &'static str, value: Seq<char>, e: AppError) -> bool {
    e matches AppError::ConfigValue { field: f, value: InvalidValue::Text(t), reason }
        && f == field && t@ == value && reason@ == "must be a non-negative integer"@
}

/// Reads a 64-bit settings number; the error names the field and quotes the text.
pub fn parse_u64(field: &'static str, value: &str) -> (r: Result<u64, AppError>)
    ensures
        r matches Ok(v) ==> spec_parse_unsigned(value@, u64::MAX as int) == Some(v as int),
        r matches Err(e) ==> spec_parse_unsigned(value@, u64::MAX as int) is None && not_a_number(field, value@, e),
{
    match parse_unsigned(value, u64::MAX) {
        Some(v) => Ok(v),
        None => Err(
            AppError::ConfigValue {
                field,
                value: InvalidValue::Text(value.to_owned()),
                reason: "must be a non-negative integer",
            },
        ),
    }
}

/// Reads a 32-bit settings number; the error names the field and quotes the text.
pub fn parse_u32(field: &'static str, value: &str) -> (r: Result<u32, AppError>)
    ensures
        r matches Ok(v) ==> spec_parse_unsigned(value@, u32::MAX as int) == Some(v as int),
        r matches Err(e) ==> spec_parse_unsigned(value@, u32::MAX as int) is None && not_a_number(field, value@, e),
{
    match parse_unsigned(value, u32::MAX as u64) {
        Some(v) => Ok(v as u32),
        None => Err(
            AppError::ConfigValue {
                field,
                value: InvalidValue::Text(value.to_owned()),
                reason: "must be a non-negative integer",
            },
        ),
    }
}

/// The pieces of a text between commas, first to last (`str::split(',')`).
pub open spec fn comma_pieces(s: Seq<char>) -> Seq<Seq<char>>
    decreases s.len(),
{
    if s.len() == 0 {
        seq![Seq::<char>::empty()]
    } else {
        let earlier = comma_pieces(s.drop_last());
        if s.last() == ',' {
            earlier.push(Seq::<char>::empty())
        } else {
            earlier.update(earlier.len() - 1, earlier.last().push(s.last()))
        }
    }
}

/// The trimmed pieces that are not empty.
pub open spec fn kept_fragments(pieces: Seq<Seq<char>>) -> Seq<Seq<char>>
    decreases pieces.len(),
{
    if pieces.len() == 0 {
        Seq::empty()
    } else {
        let earlier = kept_fragments(pieces.drop_last());
        let t = trimmed(pieces.last());
        if t.len() == 0 {
            earlier
        } else {
            earlier.push(t)
        }
    }
}

/// The window-title fragments that a comma-separated settings field lists.
pub open spec fn title_fragments(s: Seq<char>) -> Seq<Seq<char>> {
    kept_fragments(comma_pieces(s))
}

/// The texts of a list of strings.
pub open spec fn texts(v: Seq<String>) -> Seq<Seq<char>> {
    Seq::new(v.len(), |i: int| v[i]@)
}

proof fn lemma_comma_pieces_nonempty(s: Seq<char>)
    ensures
        comma_pieces(s).len() >= 1,
    decreases s.len(),
{
    if s.len() > 0 {
        lemma_comma_pieces_nonempty(s.drop_last());
    }
}

/// Splits a settings field into window-title fragments: the pieces between commas,
/// trimmed, without the empty ones.
pub fn split_title_fragments(text: &str) -> (fragments: Vec<String>)
    ensures
        texts(fragments@) == title_fragments(text@),
{
    let chars = chars_of(text);
    let mut fragments: Vec<String> = Vec::new();
    let mut current: Vec<char> = Vec::new();
    let ghost mut finished: Seq<Seq<char>> = Seq::empty();
    let mut i: usize = 0;
    while i < chars.len()
        invariant
            chars@ == text@,
            0 <= i <= chars@.len(),
            comma_pieces(chars@.take(i as int)) == finished.push(current@),
            texts(fragments@) == kept_fragments(finished),
        decreases chars@.len() - i,
    {
        let c = chars[i];
        proof {
            assert(chars@.take(i + 1).drop_last() =~= chars@.take(i as int));
            assert(chars@.take(i + 1).last() == c);
        }
        if c == ',' {
            let piece = trim_vec(&current);
            let ghost before = fragments@;
            if piece.len() > 0 {
                fragments.push(string_from_chars(&piece));
            }
            proof {
                assert(finished.push(current@).drop_last() =~= finished);
                assert(texts(fragments@) =~= kept_fragments(finished.push(current@)));
                finished = finished.push(current@);
            }
            current = Vec::new();
            proof {
                assert(comma_pieces(chars@.take(i + 1)) =~= finished.push(current@));
            }
        } else {
            current.push(c);
            proof {
                assert(comma_pieces(chars@.take(i + 1)) =~= finished.push(current@));
            }
        }
        i += 1;
    }
    let piece = trim_vec(&current);
    if piece.len() > 0 {
        fragments.push(string_from_chars(&piece));
    }
    proof {
        assert(chars@.take(chars@.len() as int) =~= chars@);
        assert(finished.push(current@).drop_last() =~= finished);
        assert(texts(fragments@) =~= kept_fragments(finished.push(current@)));
    }
    fragments
}

/// The parts joined with the separator between them (`slice::join`).
pub open spec fn joined(parts: Seq<Seq<char>>, separator: Seq<char>) -> Seq<char>
    decreases parts.len(),
{
    if parts.len() == 0 {
        Seq::empty()
    } else if parts.len() == 1 {
        parts[0]
    } else {
        joined(parts.drop_last(), separator) + separator + parts.last()
    }
}

/// The title fragments as the settings field shows them: joined by a comma and a space.
pub fn join_fragments(fragments: &Vec<String>) -> (text: String)
    ensures
        text@ == joined(texts(fragments@), ", "@),
{
    let mut out: Vec<char> = Vec::new();
    let mut i: usize = 0;
    while i < fragments.len()
        invariant
            0 <= i <= fragments@.len(),
            out@ == joined(texts(fragments@.take(i as int)), ", "@),
        decreases fragments@.len() - i,
    {
        proof {
            assert(texts(fragments@.take(i + 1)).drop_last() =~= texts(fragments@.take(i as int)));
            assert(texts(fragments@.take(i + 1)).last() == fragments@[i as int]@);
        }
        if i > 0 {
            push_text(&mut out, ", ");
        }
        push_text(&mut out, fragments[i].as_str());
        proof {
            if i == 0 {
                assert(texts(fragments@.take(1))[0] == fragments@[0]@);
                assert(out@ =~= fragments@[0]@);
            }
        }
        i += 1;
    }
    proof {
        assert(fragments@.take(fragments@.len() as int) =~= fragments@);
    }
    string_from_chars(&out)
}

fn number_text(n: u64) -> (s: String)
    ensures
        s@ == decimal_digits(n as nat),
{
    let mut out: Vec<char> = Vec::new();
    push_digits(&mut out, n);
    proof {
        assert(out@ =~= decimal_digits(n as nat));
    }
    string_from_chars(&out)
}

/// The number of fields of the settings form.
pub const SETTINGS_FIELD_COUNT: usize = 6;

/// The texts that the settings form shows: the title fragments joined by commas, then
/// the poll interval, the click duration bounds and the pre-click delay bounds in
/// decimal.
pub fn field_texts(config: &Config) -> (values: Vec<String>)
    ensures
        values@.len() == SETTINGS_FIELD_COUNT,
        values@[0]@ == joined(texts(config.window_title_fragments@), ", "@),
        values@[1]@ == decimal_digits(config.poll_interval_seconds as nat),
        values@[2]@ == decimal_digits(config.click_min_duration_ms as nat),
        values@[3]@ == decimal_digits(config.click_max_duration_ms as nat),
        values@[4]@ == decimal_digits(config.pre_click_min_delay_ms as nat),
        values@[5]@ == decimal_digits(config.pre_click_max_delay_ms as nat),
{
    let mut values: Vec<String> = Vec::new();
    values.push(join_fragments(&config.window_title_fragments));
    values.push(number_text(config.poll_interval_seconds));
    values.push(number_text(config.click_min_duration_ms));
    values.push(number_text(config.click_max_duration_ms));
    values.push(number_text(config.pre_click_min_delay_ms));
    values.push(number_text(config.pre_click_max_delay_ms));
    values
}

/// The numbers of the settings fields 1 to 5, as read.
pub open spec fn parsed_field(values: Seq<String>, k: int) -> Option<int> {
    spec_parse_unsigned(values[k]@, u64::MAX as int)
}

/// The names of the numeric settings fields, by position.
pub open spec fn field_name(k: int) -> Seq<char> {
    if k == 1 {
        "poll_interval_seconds"@
    } else if k == 2 {
        "click_min_duration_ms"@
    } else if k == 3 {
        "click_max_duration_ms"@
    } else if k == 4 {
        "pre_click_min_delay_ms"@
    } else {
        "pre_click_max_delay_ms"@
    }
}

/// Field `k` is the first numeric field that does not hold a number.
pub open spec fn first_bad_field(values: Seq<String>, k: int) -> bool {
    &&& 1 <= k <= 5
    &&& parsed_field(values, k) is None
    &&& forall|j: int| 1 <= j < k ==> #[trigger] parsed_field(values, j) is Some
}

/// The refusal that `Config::validate` gives settings with these fragments and numbers:
/// the first of no fragment, a zero poll interval, an invalid click duration range and
/// an invalid pre-click delay range.
pub open spec fn validation_error(
    fragments: Seq<Seq<char>>,
    poll: int,
    click_min: int,
    click_max: int,
    pre_min: int,
    pre_max: int,
    e: AppError,
) -> bool {
    if fragments.len() == 0 {
        e matches AppError::ConfigValue { field, value: InvalidValue::Fragments(v), reason } && field@
            == "window_title_fragments"@ && texts(v@) == fragments && reason@
            == "must contain at least one non-empty fragment"@
    } else if poll == 0 {
        e matches AppError::ConfigValue { field, value: InvalidValue::Number(n), reason } && field@
            == "poll_interval_seconds"@ && n == 0 && reason@ == "must be greater than zero"@
    } else if !(0 < click_min <= click_max) {
        e matches AppError::ConfigValue { field, value: InvalidValue::Range(a, b), reason } && field@
            == "click_duration_ms"@ && a == click_min && b == click_max && reason@
            == "minimum must be greater than zero and no greater than maximum"@
    } else {
        &&& !(0 < pre_min <= pre_max)
        &&& e matches AppError::ConfigValue { field, value: InvalidValue::Range(a, b), reason } && field@
            == "pre_click_delay_ms"@ && a == pre_min && b == pre_max && reason@
            == "minimum must be greater than zero and no greater than maximum"@
    }
}

/// Reads the settings form back into a configuration: the fragments field, then the
/// numbers in order (the first field that is not a number is refused), then the checks
/// of `Config::validate`.
pub fn config_from_fields(values: &Vec<String>) -> (r: Result<Config, AppError>)
    requires
        values@.len() >= SETTINGS_FIELD_COUNT,
    ensures
        forall|k: int| #[trigger] first_bad_field(values@, k) ==> (r matches Err(e) && e matches AppError::ConfigValue {
            field,
            value: InvalidValue::Text(t),
            reason,
        } && field@ == field_name(k) && t@ == values@[k]@ && reason@ == "must be a non-negative integer"@),
        (forall|k: int| 1 <= k <= 5 ==> #[trigger] parsed_field(values@, k) is Some) ==> match r {
            Ok(c) => c.spec_is_valid() && texts(c.window_title_fragments@) == title_fragments(values@[0]@)
                && c.poll_interval_seconds == parsed_field(values@, 1)->0
                && c.click_min_duration_ms == parsed_field(values@, 2)->0
                && c.click_max_duration_ms == parsed_field(values@, 3)->0
                && c.pre_click_min_delay_ms == parsed_field(values@, 4)->0
                && c.pre_click_max_delay_ms == parsed_field(values@, 5)->0,
            Err(e) => validation_error(
                title_fragments(values@[0]@),
                parsed_field(values@, 1)->0,
                parsed_field(values@, 2)->0,
                parsed_field(values@, 3)->0,
                parsed_field(values@, 4)->0,
                parsed_field(values@, 5)->0,
                e,
            ),
        },
{
    let fragments = split_title_fragments(values[0].as_str());
    let poll = match parse_u64("poll_interval_seconds", values[1].as_str()) {
        Ok(v) => v,
        Err(e) => {
            proof {
                assert(first_bad_field(values@, 1));
                assert forall|k: int| #[trigger] first_bad_field(values@, k) implies k == 1 by {
                    if k > 1 {
                        assert(parsed_field(values@, 1) is Some);
                    }
                }
            }
            return Err(e);
        },
    };
    let click_min = match parse_u64("click_min_duration_ms", values[2].as_str()) {
        Ok(v) => v,
        Err(e) => {
            proof {
                assert forall|k: int| #[trigger] first_bad_field(values@, k) implies k == 2 by {
                    if k > 2 {
                        assert(parsed_field(values@, 2) is Some);
                    }
                }
            }
            return Err(e);
        },
    };
    let click_max = match parse_u64("click_max_duration_ms", values[3].as_str()) {
        Ok(v) => v,
        Err(e) => {
            proof {
                assert forall|k: int| #[trigger] first_bad_field(values@, k) implies k == 3 by {
                    if k > 3 {
                        assert(parsed_field(values@, 3) is Some);
                    }
                }
            }
            return Err(e);
        },
    };
    let pre_min = match parse_u64("pre_click_min_delay_ms", values[4].as_str()) {
        Ok(v) => v,
        Err(e) => {
            proof {
                assert forall|k: int| #[trigger] first_bad_field(values@, k) implies k == 4 by {
                    if k > 4 {
                        assert(parsed_field(values@, 4) is Some);
                    }
                }
            }
            return Err(e);
        },
    };
    let pre_max = match parse_u64("pre_click_max_delay_ms", values[5].as_str()) {
        Ok(v) => v,
        Err(e) => {
            proof {
                assert forall|k: int| #[trigger] first_bad_field(values@, k) implies k == 5 by {}
            }
            return Err(e);
        },
    };
    proof {
        assert forall|k: int| !#[trigger] first_bad_field(values@, k) by {}
        lemma_fragments_not_blank(values@[0]@);
        assert(fragments@.len() == title_fragments(values@[0]@).len());
        assert forall|i: int| 0 <= i < fragments@.len() implies !is_blank(#[trigger] fragments@[i]@) by {
            assert(texts(fragments@)[i] == fragments@[i]@);
        }
    }
    let config = Config {
        window_title_fragments: fragments,
        poll_interval_seconds: poll,
        click_min_duration_ms: click_min,
        click_max_duration_ms: click_max,
        pre_click_min_delay_ms: pre_min,
        pre_click_max_delay_ms: pre_max,
    };
    let ghost kept = config.window_title_fragments@;
    let r = config.validate();
    proof {
        if let Err(ref e) = r {
            if kept.len() == 0 {
                assert(fragments_invalid(kept));
                if let AppError::ConfigValue { value: InvalidValue::Fragments(ref v), .. } = e {
                    assert(texts(v@) =~= texts(kept));
                }
            } else {
                assert(!fragments_invalid(kept));
            }
        }
    }
    r
}

proof fn lemma_trim_start_head(s: Seq<char>)
    ensures
        trim_start(s).len() > 0 ==> !spec_is_whitespace(trim_start(s)[0]),
    decreases s.len(),
{
    if s.len() > 0 && spec_is_whitespace(s[0]) {
        lemma_trim_start_head(s.drop_first());
    }
}

proof fn lemma_trim_end_prefix(s: Seq<char>)
    ensures
        trim_end(s).len() <= s.len(),
        trim_end(s) == s.take(trim_end(s).len() as int),
    decreases s.len(),
{
    if s.len() > 0 && spec_is_whitespace(s.last()) {
        lemma_trim_end_prefix(s.drop_last());
        assert(s.drop_last().take(trim_end(s).len() as int) =~= s.take(trim_end(s).len() as int));
    } else {
        assert(s.take(s.len() as int) =~= s);
    }
}

/// A trimmed text that is not empty is not blank.
proof fn lemma_trimmed_not_blank(s: Seq<char>)
    ensures
        trimmed(s).len() > 0 ==> !is_blank(trimmed(s)),
{
    lemma_trim_start_head(s);
    lemma_trim_end_prefix(trim_start(s));
    if trimmed(s).len() > 0 {
        assert(trimmed(s)[0] == trim_start(s)[0]);
    }
}

proof fn lemma_kept_fragments_not_blank(pieces: Seq<Seq<char>>)
    ensures
        forall|i: int| 0 <= i < kept_fragments(pieces).len() ==> !is_blank(#[trigger] kept_fragments(pieces)[i]),
    decreases pieces.len(),
{
    if pieces.len() > 0 {
        let earlier = kept_fragments(pieces.drop_last());
        lemma_kept_fragments_not_blank(pieces.drop_last());
        lemma_trimmed_not_blank(pieces.last());
        assert forall|i: int| 0 <= i < kept_fragments(pieces).len() implies !is_blank(#[trigger] kept_fragments(pieces)[i]) by {
            if i < earlier.len() {
                assert(kept_fragments(pieces)[i] == earlier[i]);
            }
        }
    }
}

/// No window-title fragment read from the settings form is blank.
proof fn lemma_fragments_not_blank(s: Seq<char>)
    ensures
        forall|i: int| 0 <= i < title_fragments(s).len() ==> !is_blank(#[trigger] title_fragments(s)[i]),
{
    lemma_kept_fragments_not_blank(comma_pieces(s));
}

proof fn lemma_digit_char_value(k: int)
    requires
        0 <= k < 10,
    ensures
        digit_value(digit_char(k)) == k,
        spec_is_ascii_digit(digit_char(k)),
{
}

proof fn lemma_decimal_digits_value(n: nat)
    ensures
        decimal_digits(n).len() >= 1,
        all_digits(decimal_digits(n)),
        digits_value(decimal_digits(n)) == n,
        decimal_digits(n)[0] != '+',
        !spec_is_whitespace(decimal_digits(n)[0]),
        !spec_is_whitespace(decimal_digits(n).last()),
    decreases n,
{
    lemma_digit_char_value((n % 10) as int);
    if n >= 10 {
        lemma_decimal_digits_value(n / 10);
        let d = decimal_digits(n);
        assert(d.drop_last() =~= decimal_digits(n / 10));
        assert(d.last() == digit_char((n % 10) as int));
        assert(digits_value(d) == digits_value(decimal_digits(n / 10)) * 10 + digit_value(d.last()));
        assert((n / 10) * 10 + n % 10 == n);
        assert(d[0] == decimal_digits(n / 10)[0]);
        assert forall|i: int| 0 <= i < d.len() implies spec_is_ascii_digit(#[trigger] d[i]) by {
            if i < d.len() - 1 {
                assert(d[i] == decimal_digits(n / 10)[i]);
            }
        }
    } else {
        let d = decimal_digits(n);
        assert(d.drop_last() =~= Seq::<char>::empty());
        assert(digits_value(d) == digits_value(d.drop_last()) * 10 + digit_value(d.last()));
    }
}

proof fn lemma_trim_keeps(s: Seq<char>)
    requires
        s.len() >= 1,
        !spec_is_whitespace(s[0]),
        !spec_is_whitespace(s.last()),
    ensures
        trimmed(s) == s,
{
    assert(trim_start(s) == s);
}

/// A number shown in a settings field reads back as the same number.
pub proof fn lemma_number_field_round_trip(n: u64)
    ensures
        spec_parse_unsigned(decimal_digits(n as nat), u64::MAX as int) == Some(n as int),
{
    let d = decimal_digits(n as nat);
    lemma_decimal_digits_value(n as nat);
    lemma_trim_keeps(d);
}

proof fn lemma_comma_pieces_extend(a: Seq<char>, b: Seq<char>)
    requires
        !b.contains(','),
    ensures
        comma_pieces(a + b) == comma_pieces(a).update(
            comma_pieces(a).len() - 1,
            comma_pieces(a).last() + b,
        ),
    decreases b.len(),
{
    lemma_comma_pieces_nonempty(a);
    if b.len() == 0 {
        assert(a + b =~= a);
        assert(comma_pieces(a).last() + b =~= comma_pieces(a).last());
        assert(comma_pieces(a).update(comma_pieces(a).len() - 1, comma_pieces(a).last()) =~= comma_pieces(a));
    } else {
        let b0 = b.drop_last();
        assert(!b0.contains(',')) by {
            if b0.contains(',') {
                let i = choose|i: int| 0 <= i < b0.len() && b0[i] == ',';
                assert(b[i] == ',');
            }
        }
        lemma_comma_pieces_extend(a, b0);
        assert((a + b).drop_last() =~= a + b0);
        assert((a + b).last() == b.last());
        assert(b.last() != ',') by {
            assert(b[b.len() - 1] == b.last());
        }
        let p = comma_pieces(a);
        let e = comma_pieces(a + b0);
        lemma_comma_pieces_nonempty(a + b0);
        assert(e.len() == p.len());
        assert(e.last() == p.last() + b0);
        assert(comma_pieces(a + b) == e.update(e.len() - 1, e.last().push(b.last())));
        assert((p.last() + b0).push(b.last()) =~= p.last() + b);
        assert(comma_pieces(a + b) =~= p.update(p.len() - 1, p.last() + b));
    }
}

/// A list of fragments fit to be shown and read again: each is non-empty, has no white
/// space at its ends and holds no comma.
pub open spec fn plain_fragments(f: Seq<Seq<char>>) -> bool {
    forall|i: int| 0 <= i < f.len() ==> {
        &&& #[trigger] f[i].len() >= 1
        &&& trimmed(f[i]) == f[i]
        &&& !f[i].contains(',')
    }
}

proof fn lemma_pieces_of_joined(f: Seq<Seq<char>>)
    requires
        f.len() >= 1,
        plain_fragments(f),
    ensures
        comma_pieces(joined(f, ", "@)).len() == f.len(),
        comma_pieces(joined(f, ", "@))[0] == f[0],
        forall|i: int| 1 <= i < f.len() ==> #[trigger] comma_pieces(joined(f, ", "@))[i] == seq![' '] + f[i],
    decreases f.len(),
{
    reveal_strlit(", ");
    if f.len() == 1 {
        assert(f[0].len() >= 1);
        lemma_comma_pieces_extend(Seq::empty(), f[0]);
        assert(Seq::<char>::empty() + f[0] =~= f[0]);
        assert(Seq::<char>::empty() + f[0] =~= f[0]);
    } else {
        let g = f.drop_last();
        assert(plain_fragments(g)) by {
            assert forall|i: int| 0 <= i < g.len() implies #[trigger] g[i].len() >= 1 && trimmed(g[i]) == g[i] && !g[i].contains(',') by {
                assert(g[i] == f[i]);
                assert(f[i].len() >= 1);
            }
        }
        lemma_pieces_of_joined(g);
        let j = joined(g, ", "@);
        let last = f.last();
        assert(f[f.len() - 1].len() >= 1);
        let tail = seq![' '] + last;
        assert(!tail.contains(',')) by {
            if tail.contains(',') {
                let i = choose|i: int| 0 <= i < tail.len() && tail[i] == ',';
                assert(last[i - 1] == ',');
            }
        }
        assert(joined(f, ", "@) =~= j.push(',') + tail);
        lemma_comma_pieces_extend(j.push(','), tail);
        assert(j.push(',').drop_last() =~= j);
        lemma_comma_pieces_nonempty(j);
        let pj = comma_pieces(j);
        assert(comma_pieces(j.push(',')) == pj.push(Seq::<char>::empty()));
        assert(Seq::<char>::empty() + tail =~= tail);
        assert(comma_pieces(joined(f, ", "@)) =~= pj.push(tail));
    }
}

proof fn lemma_trim_padded(y: Seq<char>)
    requires
        y.len() >= 1,
        trimmed(y) == y,
    ensures
        trimmed(seq![' '] + y) == y,
{
    lemma_trim_start_head(y);
    lemma_trim_end_prefix(trim_start(y));
    assert(y[0] == trim_start(y)[0]);
    assert(trim_start(y) == y);
    let p = seq![' '] + y;
    assert(p.drop_first() =~= y);
    assert(trim_start(p) == trim_start(y));
}

proof fn lemma_kept_prefix(pieces: Seq<Seq<char>>, f: Seq<Seq<char>>, n: int)
    requires
        0 <= n <= f.len(),
        pieces.len() == f.len(),
        plain_fragments(f),
        f.len() >= 1 ==> pieces[0] == f[0],
        forall|i: int| 1 <= i < f.len() ==> #[trigger] pieces[i] == seq![' '] + f[i],
    ensures
        kept_fragments(pieces.take(n)) == f.take(n),
    decreases n,
{
    if n > 0 {
        lemma_kept_prefix(pieces, f, n - 1);
        assert(pieces.take(n).drop_last() =~= pieces.take(n - 1));
        assert(f[n - 1].len() >= 1);
        if n == 1 {
            assert(trimmed(pieces[0]) == f[0]);
        } else {
            lemma_trim_padded(f[n - 1]);
        }
        assert(f.take(n) =~= f.take(n - 1).push(f[n - 1]));
    } else {
        assert(f.take(0) =~= Seq::<Seq<char>>::empty());
    }
}

/// What the settings form shows it reads back: title fragments that are non-empty,
/// without white space at their ends and without commas come back from their joined
/// text, and every number comes back from its decimal text.
pub proof fn lemma_settings_round_trip(fragments: Seq<Seq<char>>, n: u64)
    requires
        fragments.len() >= 1,
        plain_fragments(fragments),
    ensures
        title_fragments(joined(fragments, ", "@)) == fragments,
        spec_parse_unsigned(decimal_digits(n as nat), u64::MAX as int) == Some(n as int),
{
    lemma_pieces_of_joined(fragments);
    let pieces = comma_pieces(joined(fragments, ", "@));
    lemma_kept_prefix(pieces, fragments, fragments.len() as int);
    assert(pieces.take(pieces.len() as int) =~= pieces);
    assert(fragments.take(fragments.len() as int) =~= fragments);
    lemma_number_field_round_trip(n);
}

} // verus!
