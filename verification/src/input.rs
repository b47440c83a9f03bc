use vstd::prelude::*;

use crate::error::AppError;
use crate::image::{Point, Rect};
use crate::random::{random_i32_below, random_u64_inclusive};

verus! {

/// What a completed click did.
#[derive(Clone, Copy, Debug, PartialEq, Eq, Structural)]
pub struct ClickOutcome {
    pub target: Point,
    pub duration_ms: u64,
    pub cursor_relocated: bool,
}

/// Why a click was given up.
#[derive(Clone, Copy, Debug, PartialEq, Eq, Structural)]
pub enum ClickCancellation {
    /// The cursor left the commanded path: the user moved the mouse.
    MouseMovedDuringApproach { expected: Point, actual: Point },
}

/// A click that was made, or given up.
#[derive(Clone, Copy, Debug, PartialEq, Eq, Structural)]
pub enum ClickAttempt {
    Clicked(ClickOutcome),
    Cancelled(ClickCancellation),
}

/// The bounds of a cursor movement's duration.
#[derive(Clone, Copy, Debug, PartialEq, Eq, Structural)]
pub struct ClickTiming {
    pub minimum_duration_ms: u64,
    pub maximum_duration_ms: u64,
}

/// The distance between two numbers.
pub open spec fn distance(a: int, b: int) -> int {
    if a >= b {
        a - b
    } else {
        b - a
    }
}

/// The difference of two coordinates is an `i32`.
pub open spec fn difference_fits(a: i32, b: i32) -> bool {
    i32::MIN <= a - b <= i32::MAX
}

/// Either coordinate differs by more than the tolerance, read as an unsigned number.
pub open spec fn spec_point_distance_exceeds(left: Point, right: Point, tolerance: i32) -> bool {
    ||| distance(left.x as int, right.x as int) > (tolerance as u32)
    ||| distance(left.y as int, right.y as int) > (tolerance as u32)
}

fn coordinate_distance(a: i32, b: i32) -> (d: u32)
    requires
        difference_fits(a, b),
    ensures
        d == distance(a as int, b as int),
{
    if a >= b {
        (a as i64 - b as i64) as u32
    } else {
        (b as i64 - a as i64) as u32
    }
}

/// Whether two cursor positions are further apart than the tolerance on either axis.
pub fn point_distance_exceeds(left: Point, right: Point, tolerance: i32) -> (b: bool)
    requires
        difference_fits(left.x, right.x),
        difference_fits(left.y, right.y),
    ensures
        b == spec_point_distance_exceeds(left, right, tolerance),
{
    let limit = tolerance as u32;
    coordinate_distance(left.x, right.x) > limit || coordinate_distance(left.y, right.y) > limit
}

/// The two points can be compared without overflow.
pub open spec fn points_comparable(a: Point, b: Point) -> bool {
    difference_fits(a.x, b.x) && difference_fits(a.y, b.y)
}

/// Every commanded point can be compared with the actual position without overflow.
pub open spec fn path_comparable(actual: Point, commanded: Seq<Point>) -> bool {
    forall|i: int| 0 <= i < commanded.len() ==> #[trigger] points_comparable(commanded[i], actual)
}

/// The actual position lies within the tolerance of one of the commanded points.
pub open spec fn spec_matches_commanded_path(actual: Point, commanded: Seq<Point>, tolerance: i32) -> bool {
    exists|i: int| 0 <= i < commanded.len() && !spec_point_distance_exceeds(#[trigger] commanded[i], actual, tolerance)
}

/// Whether the cursor stands where one of our own movement commands put it: such a
/// position, even a delayed one, is not the user moving the mouse.
pub fn matches_commanded_path(actual: Point, commanded_points: &[Point], tolerance: i32) -> (b: bool)
    requires
        path_comparable(actual, commanded_points@),
    ensures
        b == spec_matches_commanded_path(actual, commanded_points@, tolerance),
{
    let mut i: usize = 0;
    while i < commanded_points.len()
        invariant
            path_comparable(actual, commanded_points@),
            0 <= i <= commanded_points@.len(),
            forall|j: int| 0 <= j < i ==> spec_point_distance_exceeds(#[trigger] commanded_points@[j], actual, tolerance),
        decreases commanded_points@.len() - i,
    {
        let commanded = commanded_points[i];
        proof {
            assert(points_comparable(commanded_points@[i as int], actual));
        }
        if !point_distance_exceeds(commanded, actual, tolerance) {
            return true;
        }
        i += 1;
    }
    false
}

/// The `0..=65535` absolute-input coordinate of a screen coordinate on an axis of the
/// virtual desktop that starts at `origin` and spans `extent` pixels: the offset into
/// the desktop, held inside `0..=max(extent - 1, 1)`, scaled to 65535 and rounded down.
pub open spec fn spec_normalize_absolute_coordinate(coordinate: i32, origin: i32, extent: u32) -> int {
    let maximum = if extent >= 2 { extent - 1 } else { 1 };
    let offset = coordinate - origin;
    let relative = if offset < 0 {
        0
    } else if offset > maximum {
        maximum
    } else {
        offset
    };
    relative * 65535 / maximum
}

/// Converts a screen coordinate to the normalized coordinate of absolute mouse input.
pub fn normalize_absolute_coordinate(coordinate: i32, origin: i32, extent: u32) -> (n: i32)
    requires
        difference_fits(coordinate, origin),
    ensures
        n == spec_normalize_absolute_coordinate(coordinate, origin, extent),
        0 <= n <= 65535,
{
    let maximum: i64 = if extent >= 2 { (extent - 1) as i64 } else { 1 };
    let offset: i64 = coordinate as i64 - origin as i64;
    let relative: i64 = if offset < 0 {
        0
    } else if offset > maximum {
        maximum
    } else {
        offset
    };
    proof {
        assert(relative * 65535 <= maximum * 65535) by (nonlinear_arith)
            requires
                0 <= relative <= maximum,
        ;
        assert((relative * 65535) / (maximum as int) <= 65535) by (nonlinear_arith)
            requires
                0 <= relative <= maximum,
                maximum >= 1,
        ;
        assert((relative * 65535) / (maximum as int) >= 0) by (nonlinear_arith)
            requires
                0 <= relative,
                maximum >= 1,
        ;
    }
    (relative * 65535 / maximum) as i32
}

/// Normalizing keeps the order of coordinates, sends the desktop's first pixel to 0 and
/// its last pixel (and anything beyond) to 65535.
pub proof fn lemma_normalize_is_monotone(a: i32, b: i32, origin: i32, extent: u32)
    requires
        a <= b,
    ensures
        spec_normalize_absolute_coordinate(a, origin, extent) <= spec_normalize_absolute_coordinate(b, origin, extent),
        spec_normalize_absolute_coordinate(origin, origin, extent) == 0,
        extent >= 2 && b - origin >= extent - 1 ==> spec_normalize_absolute_coordinate(b, origin, extent) == 65535,
{
    let maximum: int = if extent >= 2 { extent - 1 } else { 1 };
    let clamp = |offset: int| if offset < 0 { 0 } else if offset > maximum { maximum } else { offset };
    let ra = clamp(a - origin);
    let rb = clamp(b - origin);
    assert(ra * 65535 <= rb * 65535) by (nonlinear_arith)
        requires
            ra <= rb,
    ;
    vstd::arithmetic::div_mod::lemma_div_is_ordered(ra * 65535, rb * 65535, maximum);
    assert((maximum * 65535) / maximum == 65535) by (nonlinear_arith)
        requires
            maximum >= 1,
    ;
}

/// Two cursor positions are apart by the same measure in either order.
pub proof fn lemma_point_distance_is_symmetric(left: Point, right: Point, tolerance: i32)
    ensures
        spec_point_distance_exceeds(left, right, tolerance) == spec_point_distance_exceeds(right, left, tolerance),
{
}

/// A position that was itself commanded always matches the path, whatever the
/// tolerance.
pub proof fn lemma_commanded_point_matches(commanded: Seq<Point>, i: int, tolerance: i32)
    requires
        0 <= i < commanded.len(),
    ensures
        spec_matches_commanded_path(commanded[i], commanded, tolerance),
{
    assert(!spec_point_distance_exceeds(commanded[i], commanded[i], tolerance));
}

/// The margin kept free on each side of a button: a seventh of its width (a fifth of its
/// height, vertically), and at least 2 pixels.
pub open spec fn button_margin(extent: u32, divisor: u32) -> int {
    if extent / divisor >= 2 {
        (extent / divisor) as int
    } else {
        2
    }
}

/// The button is wide and tall enough to keep its margins, and every point inside it
/// stays an `i32` on screen.
pub open spec fn clickable(button: Rect, frame_origin: Point) -> bool {
    &&& button.fits()
    &&& button.width >= 5
    &&& button.height >= 5
    &&& i32::MIN <= frame_origin.x + button.x
    &&& frame_origin.x + button.spec_right() <= i32::MAX
    &&& i32::MIN <= frame_origin.y + button.y
    &&& frame_origin.y + button.spec_bottom() <= i32::MAX
}

/// Whether a random point can be picked in the button: `clickable`.
pub fn is_clickable(button: Rect, frame_origin: Point) -> (b: bool)
    ensures
        b == clickable(button, frame_origin),
{
    let right = button.x as i64 + button.width as i64;
    let bottom = button.y as i64 + button.height as i64;
    button.width <= i32::MAX as u32 && button.height <= i32::MAX as u32 && right <= i32::MAX as i64
        && bottom <= i32::MAX as i64 && button.width >= 5 && button.height >= 5
        && frame_origin.x as i64 + button.x as i64 >= i32::MIN as i64
        && frame_origin.x as i64 + right <= i32::MAX as i64
        && frame_origin.y as i64 + button.y as i64 >= i32::MIN as i64
        && frame_origin.y as i64 + bottom <= i32::MAX as i64
}

/// The point lies in the button less its margins, moved by the frame's origin.
pub open spec fn inside_margins(point: Point, button: Rect, frame_origin: Point) -> bool {
    let hm = button_margin(button.width, 7);
    let vm = button_margin(button.height, 5);
    &&& frame_origin.x + button.x + hm <= point.x < frame_origin.x + button.spec_right() - hm
    &&& frame_origin.y + button.y + vm <= point.y < frame_origin.y + button.spec_bottom() - vm
}

fn margin(extent: u32, divisor: u32) -> (m: u32)
    requires
        divisor > 0,
    ensures
        m == button_margin(extent, divisor),
{
    let share = extent / divisor;
    if share >= 2 {
        share
    } else {
        2
    }
}

/// Picks a random screen point inside the button, away from its edges.
pub fn random_point_in_button(button: Rect, frame_origin: Point) -> (p: Point)
    requires
        clickable(button, frame_origin),
    ensures
        inside_margins(p, button, frame_origin),
{
    let horizontal_margin = margin(button.width, 7);
    let vertical_margin = margin(button.height, 5);
    proof {
        assert(2 * horizontal_margin < button.width) by (nonlinear_arith)
            requires
                horizontal_margin == button_margin(button.width, 7),
                button.width >= 5,
        ;
        assert(2 * vertical_margin < button.height) by (nonlinear_arith)
            requires
                vertical_margin == button_margin(button.height, 5),
                button.height >= 5,
        ;
    }
    let x = random_i32_below(
        button.x + horizontal_margin as i32,
        button.right() - horizontal_margin as i32,
    );
    let y = random_i32_below(
        button.y + vertical_margin as i32,
        button.bottom() - vertical_margin as i32,
    );
    Point { x: frame_origin.x + x, y: frame_origin.y + y }
}

/// Where and how long a click moves the cursor.
#[derive(Clone, Copy, Debug, PartialEq, Eq, Structural)]
pub struct ClickPlan {
    pub target: Point,
    pub duration_ms: u64,
}

/// Chooses the click's target inside the button and the movement's duration within the
/// timing bounds.
pub fn plan_click(button: Rect, frame_origin: Point, timing: ClickTiming) -> (plan: ClickPlan)
    requires
        clickable(button, frame_origin),
        timing.minimum_duration_ms <= timing.maximum_duration_ms,
    ensures
        inside_margins(plan.target, button, frame_origin),
        timing.minimum_duration_ms <= plan.duration_ms <= timing.maximum_duration_ms,
{
    let target = random_point_in_button(button, frame_origin);
    let duration_ms = random_u64_inclusive(timing.minimum_duration_ms, timing.maximum_duration_ms);
    ClickPlan { target, duration_ms }
}

/// The number of moves of a movement: its duration in whole steps, and at least 2.
pub open spec fn spec_movement_steps(duration_ms: u64, step_ms: u64) -> int {
    if duration_ms / step_ms >= 2 {
        (duration_ms / step_ms) as int
    } else {
        2
    }
}

/// A cursor movement's timing: the pause between moves and how many moves it takes.
#[derive(Clone, Copy, Debug, PartialEq, Eq, Structural)]
pub struct MovementTiming {
    pub step_ms: u64,
    pub steps: u64,
}

/// Chooses a pause of 8 to 14 ms between moves and the number of moves that fill the
/// duration.
pub fn plan_movement(duration_ms: u64) -> (timing: MovementTiming)
    ensures
        8 <= timing.step_ms <= 14,
        timing.steps == spec_movement_steps(duration_ms, timing.step_ms),
{
    let step_ms = random_u64_inclusive(8, 14);
    let share = duration_ms / step_ms;
    let steps = if share >= 2 {
        share
    } else {
        2
    };
    MovementTiming { step_ms, steps }
}

/// The duration of the move away from the button after a click: two thirds of the
/// approach, and at least 120 ms.
pub fn relocation_duration(duration_ms: u64) -> (d: u64)
    requires
        duration_ms <= u64::MAX / 2,
    ensures
        d == if duration_ms * 2 / 3 >= 120 { duration_ms * 2 / 3 } else { 120 },
{
    let share = duration_ms * 2 / 3;
    if share >= 120 {
        share
    } else {
        120
    }
}

/// The virtual desktop from the system metrics; a desktop without area is refused.
pub fn desktop_bounds(x: i32, y: i32, width: i32, height: i32) -> (r: Result<Rect, AppError>)
    ensures
        (r is Ok) <==> (width > 0 && height > 0),
        r matches Ok(rect) ==> rect == (Rect { x, y, width: width as u32, height: height as u32 }),
        r matches Err(e) ==> e == (AppError::InvalidVirtualDesktop { x, y, width, height }),
{
    if width <= 0 || height <= 0 {
        return Err(AppError::InvalidVirtualDesktop { x, y, width, height });
    }
    Ok(Rect { x, y, width: width as u32, height: height as u32 })
}

/// The point held inside the desktop, 2 pixels from its left and top edges and 3 from
/// its right and bottom edges.
pub open spec fn spec_keep_inside_desktop(x: int, y: int, desktop: Rect) -> Point {
    let low_x = desktop.x + 2;
    let high_x = desktop.spec_right() - 3;
    let low_y = desktop.y + 2;
    let high_y = desktop.spec_bottom() - 3;
    Point {
        x: (if x < low_x { low_x } else if x > high_x { high_x } else { x }) as i32,
        y: (if y < low_y { low_y } else if y > high_y { high_y } else { y }) as i32,
    }
}

/// Holds a relocation target inside the desktop.
pub fn keep_inside_desktop(x: i32, y: i32, desktop: Rect) -> (p: Point)
    requires
        desktop.fits(),
        desktop.width >= 5,
        desktop.height >= 5,
    ensures
        p == spec_keep_inside_desktop(x as int, y as int, desktop),
        desktop.spec_contains(p),
{
    let low_x = desktop.x + 2;
    let high_x = desktop.right() - 3;
    let low_y = desktop.y + 2;
    let high_y = desktop.bottom() - 3;
    let px = if x < low_x {
        low_x
    } else if x > high_x {
        high_x
    } else {
        x
    };
    let py = if y < low_y {
        low_y
    } else if y > high_y {
        high_y
    } else {
        y
    };
    Point { x: px, y: py }
}

/// The result of handing a batch of input events to the system: all of them sent, a
/// failure with its error code when none was sent and the code is not 0, or a partial
/// send otherwise.
pub fn send_outcome(operation: &'static str, requested: u32, sent: u32, code: u32) -> (r: Result<(), AppError>)
    ensures
        (r is Ok) <==> sent == requested,
        sent != requested && sent == 0 && code != 0 ==> r == Err::<(), AppError>(AppError::Win32 { operation, code }),
        sent != requested && !(sent == 0 && code != 0) ==> r == Err::<(), AppError>(AppError::PartialInput { requested, sent }),
{
    if sent == requested {
        return Ok(());
    }
    if sent == 0 && code != 0 {
        return Err(AppError::Win32 { operation, code });
    }
    Err(AppError::PartialInput { requested, sent })
}

/// The path of a cursor movement: the points commanded so far, starting with the
/// position the movement started from.
pub struct CommandedPath {
    points: Vec<Point>,
}

/// How far the cursor may stray from a commanded point before it counts as moved by the
/// user.
pub const PATH_TOLERANCE: i32 = 8;

impl CommandedPath {
    /// The commanded points, first the start.
    pub closed spec fn view(&self) -> Seq<Point> {
        self.points@
    }

    /// A path always holds its start.
    pub closed spec fn wf(&self) -> bool {
        self.points@.len() >= 1
    }

    /// A path that holds only the start.
    pub fn new(start: Point) -> (path: CommandedPath)
        ensures
            path.wf(),
            path.view() == seq![start],
    {
        let mut points: Vec<Point> = Vec::new();
        points.push(start);
        CommandedPath { points }
    }

    /// Records one more commanded point.
    pub fn push(&mut self, point: Point)
        requires
            old(self).wf(),
        ensures
            final(self).wf(),
            final(self).view() == old(self).view().push(point),
    {
        self.points.push(point);
    }

    /// Whether every commanded point can be compared with the position: `path_comparable`.
    pub fn comparable_with(&self, actual: Point) -> (b: bool)
        ensures
            b == path_comparable(actual, self.view()),
    {
        let mut i: usize = 0;
        while i < self.points.len()
            invariant
                0 <= i <= self.points@.len(),
                forall|j: int| 0 <= j < i ==> #[trigger] points_comparable(self.points@[j], actual),
            decreases self.points@.len() - i,
        {
            let p = self.points[i];
            let dx = p.x as i64 - actual.x as i64;
            let dy = p.y as i64 - actual.y as i64;
            if dx < -0x8000_0000 || dx > 0x7fff_ffff || dy < -0x8000_0000 || dy > 0x7fff_ffff {
                proof {
                    assert(!points_comparable(self.points@[i as int], actual));
                }
                return false;
            }
            proof {
                assert(points_comparable(self.points@[i as int], actual));
            }
            i += 1;
        }
        true
    }

    /// Checks the cursor before the next move: it must stand within the tolerance of a
    /// commanded point, or the movement is given up with the last commanded point and
    /// the actual one.
    pub fn check(&self, actual: Point) -> (r: Result<(), ClickCancellation>)
        requires
            self.wf(),
            path_comparable(actual, self.view()),
        ensures
            (r is Ok) <==> spec_matches_commanded_path(actual, self.view(), PATH_TOLERANCE),
            r matches Err(ClickCancellation::MouseMovedDuringApproach { expected, actual: a }) ==> expected
                == self.view().last() && a == actual,
    {
        if matches_commanded_path(actual, self.points.as_slice(), PATH_TOLERANCE) {
            return Ok(());
        }
        let last = self.points[self.points.len() - 1];
        Err(ClickCancellation::MouseMovedDuringApproach { expected: last, actual })
    }
}

/// What a look at the cursor tells the wait for an idle mouse.
#[derive(Clone, Copy, Debug, PartialEq, Eq, Structural)]
pub enum IdleCheck {
    /// The cursor moved more than 2 pixels: start timing again.
    Moved,
    /// The cursor has rested for the required time.
    Settled,
    /// The cursor rests, but not yet long enough.
    Resting,
}

/// The tolerance, in pixels, within which a resting cursor may drift.
pub const IDLE_TOLERANCE: i32 = 2;

/// Decides one look of the wait for an idle mouse.
pub fn mouse_idle_check(previous: Point, current: Point, rested_ms: u64, required_ms: u64) -> (c: IdleCheck)
    requires
        difference_fits(previous.x, current.x),
        difference_fits(previous.y, current.y),
    ensures
        c == if spec_point_distance_exceeds(previous, current, IDLE_TOLERANCE) {
            IdleCheck::Moved
        } else if rested_ms >= required_ms {
            IdleCheck::Settled
        } else {
            IdleCheck::Resting
        },
{
    if point_distance_exceeds(previous, current, IDLE_TOLERANCE) {
        IdleCheck::Moved
    } else if rested_ms >= required_ms {
        IdleCheck::Settled
    } else {
        IdleCheck::Resting
    }
}

} // verus!
