use vstd::prelude::*;

use crate::error::{AppError, InvalidValue};
use crate::text::{chars_of, is_whitespace, spec_is_whitespace};

verus! {

/// The assistant's settings.
#[derive(Clone, Debug, PartialEq, Eq)]
pub struct Config {
    pub window_title_fragments: Vec<String>,
    pub poll_interval_seconds: u64,
    pub click_min_duration_ms: u64,
    pub click_max_duration_ms: u64,
    pub pre_click_min_delay_ms: u64,
    pub pre_click_max_delay_ms: u64,
}

/// The text is empty once white space is trimmed from both ends.
pub open spec fn is_blank(s: Seq<char>) -> bool {
    forall|i: int| 0 <= i < s.len() ==> spec_is_whitespace(#[trigger] s[i])
}

/// No title fragment is given, or one of them is blank.
pub open spec fn fragments_invalid(fragments: Seq<String>) -> bool {
    fragments.len() == 0 || exists|i: int| 0 <= i < fragments.len() && is_blank(#[trigger] fragments[i]@)
}

/// A `minimum..=maximum` setting is valid when the minimum is positive and not above the maximum.
pub open spec fn range_valid(minimum: u64, maximum: u64) -> bool {
    0 < minimum <= maximum
}

impl Config {
    /// Every setting is acceptable.
    pub open spec fn spec_is_valid(&self) -> bool {
        &&& !fragments_invalid(self.window_title_fragments@)
        &&& self.poll_interval_seconds > 0
        &&& range_valid(self.click_min_duration_ms, self.click_max_duration_ms)
        &&& range_valid(self.pre_click_min_delay_ms, self.pre_click_max_delay_ms)
    }

    /// The settings used when no configuration file exists.
    pub fn built_in() -> (c: Config)
        ensures
            c.window_title_fragments@.len() == 1,
            c.window_title_fragments@[0]@ == "lineage"@,
            c.poll_interval_seconds == 10,
            c.click_min_duration_ms == 280,
            c.click_max_duration_ms == 650,
            c.pre_click_min_delay_ms == 180,
            c.pre_click_max_delay_ms == 480,
    {
        Config {
            window_title_fragments: vec!["lineage".to_owned()],
            poll_interval_seconds: 10,
            click_min_duration_ms: 280,
            click_max_duration_ms: 650,
            pre_click_min_delay_ms: 180,
            pre_click_max_delay_ms: 480,
        }
    }

    /// Accepts the settings or names the first one that is invalid: the title fragments,
    /// the poll interval, the click duration range, then the pre-click delay range.
    pub fn validate(self) -> (r: Result<Config, AppError>)
        ensures
            (r is Ok) <==> self.spec_is_valid(),
            r matches Ok(c) ==> c == self,
            fragments_invalid(self.window_title_fragments@) ==> (r matches Err(AppError::ConfigValue { field, value, reason })
                && field@ == "window_title_fragments"@ && (value matches InvalidValue::Fragments(v) && v@ == self.window_title_fragments@)
                && reason@ == "must contain at least one non-empty fragment"@),
            !fragments_invalid(self.window_title_fragments@) && self.poll_interval_seconds == 0 ==> (r matches Err(
                AppError::ConfigValue { field, value, reason },
            ) && field@ == "poll_interval_seconds"@ && value == InvalidValue::Number(0) && reason@
                == "must be greater than zero"@),
            !fragments_invalid(self.window_title_fragments@) && self.poll_interval_seconds > 0 && !range_valid(
                self.click_min_duration_ms,
                self.click_max_duration_ms,
            ) ==> (r matches Err(AppError::ConfigValue { field, value, reason }) && field@ == "click_duration_ms"@
                && value == InvalidValue::Range(self.click_min_duration_ms, self.click_max_duration_ms)
                && reason@ == "minimum must be greater than zero and no greater than maximum"@),
            !fragments_invalid(self.window_title_fragments@) && self.poll_interval_seconds > 0 && range_valid(
                self.click_min_duration_ms,
                self.click_max_duration_ms,
            ) && !range_valid(self.pre_click_min_delay_ms, self.pre_click_max_delay_ms) ==> (r matches Err(
                AppError::ConfigValue { field, value, reason },
            ) && field@ == "pre_click_delay_ms"@ && value == InvalidValue::Range(
                self.pre_click_min_delay_ms,
                self.pre_click_max_delay_ms,
            ) && reason@ == "minimum must be greater than zero and no greater than maximum"@),
    {
        if self.window_title_fragments.len() == 0 || any_blank(&self.window_title_fragments) {
            return Err(
                AppError::ConfigValue {
                    field: "window_title_fragments",
                    value: InvalidValue::Fragments(self.window_title_fragments),
                    reason: "must contain at least one non-empty fragment",
                },
            );
        }
        if self.poll_interval_seconds == 0 {
            return Err(
                AppError::ConfigValue {
                    field: "poll_interval_seconds",
                    value: InvalidValue::Number(self.poll_interval_seconds),
                    reason: "must be greater than zero",
                },
            );
        }
        match validate_range("click_duration_ms", self.click_min_duration_ms, self.click_max_duration_ms) {
            Ok(()) => {},
            Err(e) => {
                return Err(e);
            },
        }
        match validate_range("pre_click_delay_ms", self.pre_click_min_delay_ms, self.pre_click_max_delay_ms) {
            Ok(()) => {},
            Err(e) => {
                return Err(e);
            },
        }
        Ok(self)
    }
}

/// Whether the text holds nothing but white space.
pub fn is_blank_text(text: &str) -> (b: bool)
    ensures
        b == is_blank(text@),
{
    let chars = chars_of(text);
    let mut i: usize = 0;
    while i < chars.len()
        invariant
            chars@ == text@,
            0 <= i <= chars@.len(),
            forall|k: int| 0 <= k < i ==> spec_is_whitespace(#[trigger] chars@[k]),
        decreases chars@.len() - i,
    {
        if !is_whitespace(chars[i]) {
            return false;
        }
        i += 1;
    }
    true
}

/// Whether some fragment is blank.
fn any_blank(fragments: &Vec<String>) -> (b: bool)
    ensures
        b == exists|i: int| 0 <= i < fragments@.len() && is_blank(#[trigger] fragments@[i]@),
{
    let mut i: usize = 0;
    while i < fragments.len()
        invariant
            0 <= i <= fragments@.len(),
            forall|k: int| 0 <= k < i ==> !is_blank(#[trigger] fragments@[k]@),
        decreases fragments@.len() - i,
    {
        if is_blank_text(fragments[i].as_str()) {
            return true;
        }
        i += 1;
    }
    false
}

/// Refuses a range whose minimum is zero or above its maximum.
pub fn validate_range(field: &'static str, minimum: u64, maximum: u64) -> (r: Result<(), AppError>)
    ensures
        (r is Ok) <==> range_valid(minimum, maximum),
        r matches Err(e) ==> e == (AppError::ConfigValue {
            field,
            value: InvalidValue::Range(minimum, maximum),
            reason: "minimum must be greater than zero and no greater than maximum",
        }),
{
    if minimum == 0 || minimum > maximum {
        return Err(
            AppError::ConfigValue {
                field,
                value: InvalidValue::Range(minimum, maximum),
                reason: "minimum must be greater than zero and no greater than maximum",
            },
        );
    }
    Ok(())
}

/// The built-in settings pass validation.
pub proof fn lemma_built_in_is_valid(c: Config)
    requires
        c.window_title_fragments@.len() == 1,
        c.window_title_fragments@[0]@ == "lineage"@,
        c.poll_interval_seconds == 10,
        c.click_min_duration_ms == 280,
        c.click_max_duration_ms == 650,
        c.pre_click_min_delay_ms == 180,
        c.pre_click_max_delay_ms == 480,
    ensures
        c.spec_is_valid(),
{
    reveal_strlit("lineage");
    assert(!is_blank(c.window_title_fragments@[0]@)) by {
        assert(!spec_is_whitespace(c.window_title_fragments@[0]@[0]));
    }
}

} // verus!
