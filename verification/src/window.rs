use vstd::prelude::*;

use crate::error::AppError;
use crate::image::{Point, Rect};
use crate::text::{chars_of, lowercase_text, spec_lowercase_text};

verus! {

/// The foreground window whose title matched: its handle, the screen rectangle of its
/// client area, and its title.
#[derive(Clone, Debug)]
pub struct GameWindow {
    pub handle: usize,
    pub screen_bounds: Rect,
    pub title: String,
}

impl GameWindow {
    /// The screen position of the client area's top-left corner, where captures start.
    pub fn frame_origin(&self) -> (p: Point)
        ensures
            p == (Point { x: self.screen_bounds.x, y: self.screen_bounds.y }),
    {
        Point { x: self.screen_bounds.x, y: self.screen_bounds.y }
    }
}

/// `needle` occurs in `text` at position `i`.
pub open spec fn occurs_at(text: Seq<char>, needle: Seq<char>, i: int) -> bool {
    0 <= i && i + needle.len() <= text.len() && text.subrange(i, i + needle.len()) == needle
}

/// `needle` occurs somewhere in `text` (`str::contains`); the empty text occurs
/// everywhere.
pub open spec fn contains_text(text: Seq<char>, needle: Seq<char>) -> bool {
    exists|i: int| occurs_at(text, needle, i)
}

fn occurs_at_exec(text: &Vec<char>, needle: &Vec<char>, i: usize) -> (b: bool)
    requires
        i + needle@.len() <= text@.len(),
    ensures
        b == occurs_at(text@, needle@, i as int),
{
    let n = text.len();
    let mut k: usize = 0;
    while k < needle.len()
        invariant
            i + needle@.len() <= text@.len(),
            n == text@.len(),
            0 <= k <= needle@.len(),
            forall|j: int| 0 <= j < k ==> text@[i + j] == needle@[j],
        decreases needle@.len() - k,
    {
        if text[i + k] != needle[k] {
            proof {
                assert(text@.subrange(i as int, i + needle@.len())[k as int] != needle@[k as int]);
            }
            return false;
        }
        k += 1;
    }
    proof {
        assert(text@.subrange(i as int, i + needle@.len()) =~= needle@);
    }
    true
}

/// Whether `needle` occurs in `text`.
pub fn contains_chars(text: &Vec<char>, needle: &Vec<char>) -> (b: bool)
    ensures
        b == contains_text(text@, needle@),
{
    if needle.len() > text.len() {
        proof {
            assert forall|i: int| !#[trigger] occurs_at(text@, needle@, i) by {}
        }
        return false;
    }
    let last = text.len() - needle.len();
    let mut i: usize = 0;
    loop
        invariant_except_break
            last == text@.len() - needle@.len(),
            0 <= i <= last,
            forall|j: int| 0 <= j < i ==> !#[trigger] occurs_at(text@, needle@, j),
        ensures
            forall|j: int| 0 <= j <= last ==> !#[trigger] occurs_at(text@, needle@, j),
        decreases last - i,
    {
        if occurs_at_exec(text, needle, i) {
            return true;
        }
        if i == last {
            break;
        }
        i += 1;
    }
    proof {
        assert forall|j: int| !#[trigger] occurs_at(text@, needle@, j) by {
            if 0 <= j && j + needle@.len() <= text@.len() {
                assert(j <= last);
            }
        }
    }
    false
}

/// The lowercased title contains one of the lowercased fragments.
pub open spec fn spec_title_matches(title: Seq<char>, fragments: Seq<String>) -> bool {
    exists|j: int|
        0 <= j < fragments.len() && contains_text(
            spec_lowercase_text(title),
            spec_lowercase_text(#[trigger] fragments[j]@),
        )
}

/// Whether a window title names the game: it contains one of the configured fragments,
/// ignoring case.
pub fn title_matches(title: &str, fragments: &Vec<String>) -> (b: bool)
    ensures
        b == spec_title_matches(title@, fragments@),
{
    let lowered = lowercase_text(title);
    let text = chars_of(lowered.as_str());
    let mut j: usize = 0;
    while j < fragments.len()
        invariant
            0 <= j <= fragments@.len(),
            text@ == spec_lowercase_text(title@),
            forall|k: int|
                0 <= k < j ==> !contains_text(spec_lowercase_text(title@), spec_lowercase_text(#[trigger] fragments@[k]@)),
        decreases fragments@.len() - j,
    {
        let fragment = lowercase_text(fragments[j].as_str());
        let needle = chars_of(fragment.as_str());
        if contains_chars(&text, &needle) {
            return true;
        }
        j += 1;
    }
    false
}

/// Every character of `needle` equals the character of `text` that many places after
/// position `i`.
pub open spec fn spelled_from(text: Seq<char>, needle: Seq<char>, i: int) -> bool {
    &&& 0 <= i
    &&& i + needle.len() <= text.len()
    &&& forall|k: int| 0 <= k < needle.len() ==> text[i + k] == needle[k]
}

/// A title matches exactly when, for some fragment, the lowercased fragment is spelled
/// out character by character somewhere in the lowercased title. So the matching
/// fragment is never longer than the lowercased title, and a title that lowercases to
/// nothing matches only a fragment that lowercases to nothing.
pub proof fn lemma_title_match_is_containment(title: Seq<char>, fragments: Seq<String>)
    ensures
        spec_title_matches(title, fragments) <==> exists|j: int, i: int|
            0 <= j < fragments.len() && #[trigger] spelled_from(
                spec_lowercase_text(title),
                spec_lowercase_text(fragments[j]@),
                i,
            ),
        spec_title_matches(title, fragments) ==> exists|j: int|
            0 <= j < fragments.len() && spec_lowercase_text(#[trigger] fragments[j]@).len()
                <= spec_lowercase_text(title).len(),
        spec_title_matches(title, fragments) && spec_lowercase_text(title).len() == 0 ==> exists|j: int|
            0 <= j < fragments.len() && spec_lowercase_text(#[trigger] fragments[j]@).len() == 0,
{
    let lowered = spec_lowercase_text(title);
    if spec_title_matches(title, fragments) {
        let j = choose|j: int|
            0 <= j < fragments.len() && contains_text(lowered, spec_lowercase_text(#[trigger] fragments[j]@));
        let needle = spec_lowercase_text(fragments[j]@);
        let i = choose|i: int| occurs_at(lowered, needle, i);
        assert forall|k: int| 0 <= k < needle.len() implies lowered[i + k] == needle[k] by {
            assert(lowered.subrange(i, i + needle.len())[k] == lowered[i + k]);
        }
        assert(spelled_from(lowered, needle, i));
    }
    assert forall|j: int, i: int|
        0 <= j < fragments.len() && #[trigger] spelled_from(lowered, spec_lowercase_text(fragments[j]@), i)
        implies spec_title_matches(title, fragments) by {
        let needle = spec_lowercase_text(fragments[j]@);
        assert(lowered.subrange(i, i + needle.len()) =~= needle);
        assert(occurs_at(lowered, needle, i));
    }
}

/// The screen rectangle of a client area from its corner on screen and its client
/// rectangle; a negative extent counts as 0.
pub fn client_bounds(origin: Point, left: i32, top: i32, right: i32, bottom: i32) -> (r: Rect)
    requires
        i32::MIN <= right - left <= i32::MAX,
        i32::MIN <= bottom - top <= i32::MAX,
    ensures
        r.x == origin.x,
        r.y == origin.y,
        r.width == (if right - left >= 0 { right - left } else { 0 }),
        r.height == (if bottom - top >= 0 { bottom - top } else { 0 }),
{
    let width = right - left;
    let height = bottom - top;
    Rect {
        x: origin.x,
        y: origin.y,
        width: if width >= 0 {
            width as u32
        } else {
            0
        },
        height: if height >= 0 {
            height as u32
        } else {
            0
        },
    }
}

/// How many times a capture or a recognition is tried before its error is returned.
pub const ATTEMPTS: u64 = 3;

/// The pause after failed attempt `attempt` (counting from 1): 80 ms times the attempt.
pub fn retry_delay_ms(attempt: u64) -> (d: u64)
    requires
        1 <= attempt <= ATTEMPTS,
    ensures
        d == 80 * attempt,
{
    80 * attempt
}

/// A client area can be captured only when it has an area; the byte count of its
/// capture is four per pixel.
pub fn capture_size(bounds: Rect) -> (r: Result<usize, AppError>)
    requires
        bounds.width * bounds.height * 4 <= usize::MAX,
    ensures
        (r is Ok) <==> (bounds.width > 0 && bounds.height > 0),
        r matches Ok(n) ==> n == bounds.width * bounds.height * 4,
        r matches Err(e) ==> e == (AppError::InvalidImage { width: bounds.width, height: bounds.height, bytes: 0 }),
{
    if bounds.width == 0 || bounds.height == 0 {
        return Err(AppError::InvalidImage { width: bounds.width, height: bounds.height, bytes: 0 });
    }
    proof {
        assert(bounds.width * bounds.height <= bounds.width * bounds.height * 4);
    }
    Ok(bounds.width as usize * bounds.height as usize * 4)
}

} // verus!
