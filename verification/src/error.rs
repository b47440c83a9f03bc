use vstd::prelude::*;

use crate::report::{decimal_digits, push_digits, push_text};
use crate::text::string_from_chars;

verus! {

/// The offending value of a rejected configuration field.
#[derive(Clone, Debug, PartialEq, Eq)]
pub enum InvalidValue {
    /// The list of window-title fragments.
    Fragments(Vec<String>),
    /// A single number.
    Number(u64),
    /// An inclusive `minimum..=maximum` range.
    Range(u64, u64),
    /// Text that does not read as a number.
    Text(String),
}

// The `Debug` form of a list of strings, as `format!("{:?}", ..)` writes it for a
// `Vec<String>`: the strings quoted and escaped, between brackets, separated by `, `.
pub uninterp spec fn spec_debug_fragments(fragments: Seq<Seq<char>>) -> Seq<char>;

/// Formats the fragments with `Debug` (`format!("{:?}", ..)` on `Vec<String>`); the
/// result is named by `spec_debug_fragments`.
#[verifier::external_body]
fn debug_fragments(fragments: &Vec<String>) -> (s: String)
    ensures
        s@ == spec_debug_fragments(fragments.deep_view()),
{
    format!("{:?}", fragments)
}

/// How a rejected value is written in an error message: fragments in their `Debug`
/// form, a number in decimal, a range as `minimum..=maximum`, text as it is.
pub open spec fn spec_describe_value(value: InvalidValue) -> Seq<char> {
    match value {
        InvalidValue::Fragments(fragments) => spec_debug_fragments(fragments.deep_view()),
        InvalidValue::Number(number) => decimal_digits(number as nat),
        InvalidValue::Range(minimum, maximum) => decimal_digits(minimum as nat) + "..="@
            + decimal_digits(maximum as nat),
        InvalidValue::Text(text) => text@,
    }
}

impl InvalidValue {
    /// The value as an error message shows it.
    pub fn describe(&self) -> (s: String)
        ensures
            s@ == spec_describe_value(*self),
    {
        match self {
            InvalidValue::Fragments(fragments) => debug_fragments(fragments),
            InvalidValue::Number(number) => {
                let mut out: Vec<char> = Vec::new();
                push_digits(&mut out, *number);
                proof {
                    assert(out@ =~= decimal_digits(*number as nat));
                }
                string_from_chars(&out)
            },
            InvalidValue::Range(minimum, maximum) => {
                let mut out: Vec<char> = Vec::new();
                push_digits(&mut out, *minimum);
                push_text(&mut out, "..=");
                push_digits(&mut out, *maximum);
                proof {
                    assert(out@ =~= decimal_digits(*minimum as nat) + "..="@ + decimal_digits(
                        *maximum as nat,
                    ));
                }
                string_from_chars(&out)
            },
            InvalidValue::Text(text) => text.clone(),
        }
    }
}

/// Why an embedded icon file was refused.
#[derive(Clone, Debug, PartialEq, Eq)]
pub enum IconProblem {
    /// The six-byte header is missing or does not describe an icon.
    Header,
    /// The directory holds no entry or does not fit in the file.
    Directory { count: usize, bytes: usize },
    /// An image entry points outside the file.
    EntryOutside { index: usize, offset: usize, length: usize },
    /// A field could not be read because the file ends first.
    UnexpectedEnd { offset: usize },
}

/// Errors of the library's own logic.
#[derive(Clone, Debug, PartialEq, Eq)]
pub enum AppError {
    ConfigValue { field: &'static str, value: InvalidValue, reason: &'static str },
    Win32 { operation: &'static str, code: u32 },
    InvalidImage { width: u32, height: u32, bytes: usize },
    InvalidCrop { x: i32, y: i32, width: u32, height: u32 },
    InvalidVirtualDesktop { x: i32, y: i32, width: i32, height: i32 },
    InvalidIcon { reason: IconProblem },
    ConflictingPercentage { text: String },
    PartialInput { requested: u32, sent: u32 },
    InvalidDpiChange { dpi: u32, suggested_rect: isize },
}

} // verus!
