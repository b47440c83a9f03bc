use vstd::prelude::*;

use crate::components::{mask_components, mask_components_of, Component};
use crate::image::{clamp_rect, flat_channel, max_int, min_int, spec_clamp_rect, Frame, Point, Rect};

verus! {

/// A resurrection dialog: its area and its two buttons.
#[derive(Clone, Copy, Debug, PartialEq, Eq, Structural)]
pub struct DialogCandidate {
    pub bounds: Rect,
    pub accept_button: Rect,
    pub reject_button: Rect,
}

/// The colour families that the interface uses for buttons and status bars.
#[derive(Clone, Copy, Debug, PartialEq, Eq, Structural)]
pub enum ColorClass {
    Green,
    Red,
    Blue,
}

/// A frame small enough that every coordinate and area computed on it fits in 32 bits.
pub open spec fn detectable(frame: &Frame) -> bool {
    &&& frame.wf()
    &&& frame.width * frame.height <= i32::MAX
    &&& frame.width * frame.height * 36 <= usize::MAX
    &&& frame.width <= 0x4000_0000
    &&& frame.height <= 0x4000_0000
}

/// Whether a pixel's colour belongs to the class.
pub open spec fn spec_color_matches(blue: u8, green: u8, red: u8, class: ColorClass) -> bool {
    match class {
        ColorClass::Green => green >= 42 && green > red + 8 && green > blue + 10 && red <= 125 && blue <= 100,
        ColorClass::Red => red >= 52 && red > green + 14 && red > blue + 12 && green <= 105 && blue <= 105,
        ColorClass::Blue => blue >= 40 && blue > red + 10 && blue > green + 5 && red <= 150 && green <= 180,
    }
}

/// Whether the pixel (blue, green, red, alpha) has a colour of the class.
pub fn color_matches(pixel: [u8; 4], class: ColorClass) -> (b: bool)
    ensures
        b == spec_color_matches(pixel@[0], pixel@[1], pixel@[2], class),
{
    let blue = pixel[0] as i16;
    let green = pixel[1] as i16;
    let red = pixel[2] as i16;
    match class {
        ColorClass::Green => green >= 42 && green > red + 8 && green > blue + 10 && red <= 125
            && blue <= 100,
        ColorClass::Red => red >= 52 && red > green + 14 && red > blue + 12 && green <= 105 && blue
            <= 105,
        ColorClass::Blue => blue >= 40 && blue > red + 10 && blue > green + 5 && red <= 150 && green
            <= 180,
    }
}

/// The row-major mask of the frame's pixels that have a colour of the class.
pub open spec fn color_mask(frame: &Frame, class: ColorClass) -> Seq<bool> {
    Seq::new(
        (frame.width * frame.height) as nat,
        |i: int|
            spec_color_matches(
                flat_channel(frame.bgra@, i, 0),
                flat_channel(frame.bgra@, i, 1),
                flat_channel(frame.bgra@, i, 2),
                class,
            ),
    )
}

/// The connected regions of the class's colour, in the scan order of their first pixels.
pub open spec fn spec_color_components(frame: &Frame, class: ColorClass) -> Seq<Component> {
    mask_components(color_mask(frame, class), frame.width as int, frame.height as int)
}

/// The component's box lies inside a `width × height` frame.
pub open spec fn in_frame(c: Component, width: int, height: int) -> bool {
    let b = c.bounds;
    &&& b.fits()
    &&& b.x >= 0 && b.y >= 0 && b.width >= 1 && b.height >= 1
    &&& b.x + b.width <= width && b.y + b.height <= height
}

/// The 4-connected regions of pixels of one colour class.
pub fn color_components(frame: &Frame, class: ColorClass) -> (components: Vec<Component>)
    requires
        detectable(frame),
    ensures
        components@ == spec_color_components(frame, class),
        forall|k: int| 0 <= k < components@.len() ==> in_frame(#[trigger] components@[k], frame.width as int, frame.height as int),
{
    let width = frame.width as usize;
    let height = frame.height as usize;
    let ghost target = color_mask(frame, class);
    let mut mask: Vec<bool> = Vec::new();
    let mut y: usize = 0;
    while y < height
        invariant
            detectable(frame),
            width == frame.width,
            height == frame.height,
            target == color_mask(frame, class),
            0 <= y <= height,
            mask@.len() == y * width,
            forall|i: int| 0 <= i < mask@.len() ==> mask@[i] == target[i],
        decreases height - y,
    {
        let mut x: usize = 0;
        while x < width
            invariant
                detectable(frame),
                width == frame.width,
                height == frame.height,
                target == color_mask(frame, class),
                0 <= y < height,
                0 <= x <= width,
                mask@.len() == y * width + x,
                forall|i: int| 0 <= i < mask@.len() ==> mask@[i] == target[i],
            decreases width - x,
        {
            proof {
                crate::image::lemma_pixel_position(width as int, height as int, x as int, y as int);
            }
            let pixel = frame.pixel(x as u32, y as u32);
            let matches = color_matches(pixel, class);
            assert(matches == target[y * width + x]);
            mask.push(matches);
            x += 1;
        }
        proof {
            crate::image::lemma_next_row(width as int, y as int);
        }
        y += 1;
    }
    proof {
        assert(mask@.len() == width * height) by (nonlinear_arith)
            requires
                mask@.len() == y * width,
                y == height,
        ;
        assert(mask@ =~= target);
    }
    mask_components_of(&mask, width, height)
}

/// A box inside the frame has at most the frame's area.
pub proof fn lemma_area_in_frame(c: Component, width: int, height: int)
    requires
        in_frame(c, width, height),
    ensures
        c.bounds.width * c.bounds.height <= width * height,
{
    let w = c.bounds.width as int;
    let h = c.bounds.height as int;
    assert(w * h <= width * height) by (nonlinear_arith)
        requires
            1 <= w <= width,
            1 <= h <= height,
    ;
}

/// Share of the box, in percent rounded down, that the component's pixels fill.
pub open spec fn fill_percent(c: Component) -> int {
    let area = c.bounds.width * c.bounds.height;
    (c.pixels * 100) / max_int(area, 1)
}

/// A component shaped like a dialog button.
pub open spec fn spec_is_button(c: Component) -> bool {
    &&& 55 <= c.bounds.width <= 360
    &&& 12 <= c.bounds.height <= 90
    &&& fill_percent(c) >= 22
}

/// A component shaped like a health or mana bar.
pub open spec fn spec_is_status_bar(c: Component) -> bool {
    &&& 45 <= c.bounds.width <= 500
    &&& 2 <= c.bounds.height <= 18
    &&& fill_percent(c) >= 35
}

/// The fill share of the component's box, computed without overflow.
fn fills_at_least(component: &Component, percent: u64) -> (b: bool)
    requires
        component.bounds.width * component.bounds.height <= u32::MAX,
    ensures
        b == (fill_percent(*component) >= percent),
{
    let area = component.bounds.width * component.bounds.height;
    let divisor: u64 = if area >= 1 { area as u64 } else { 1 };
    (component.pixels as u64) * 100 / divisor >= percent
}

/// Whether the component has a button's size and fill.
pub fn is_button_component(component: &Component) -> (b: bool)
    requires
        component.bounds.width * component.bounds.height <= u32::MAX,
    ensures
        b == spec_is_button(*component),
{
    let bounds = component.bounds;
    55 <= bounds.width && bounds.width <= 360 && 12 <= bounds.height && bounds.height <= 90
        && fills_at_least(component, 22)
}

/// Whether the component has a status bar's size and fill.
pub fn is_status_bar_component(component: &Component) -> (b: bool)
    requires
        component.bounds.width * component.bounds.height <= u32::MAX,
    ensures
        b == spec_is_status_bar(*component),
{
    let bounds = component.bounds;
    45 <= bounds.width && bounds.width <= 500 && 2 <= bounds.height && bounds.height <= 18
        && fills_at_least(component, 35)
}

/// The components that pass the button test, in order.
pub open spec fn buttons(cs: Seq<Component>) -> Seq<Component>
    decreases cs.len(),
{
    if cs.len() == 0 {
        cs
    } else if spec_is_button(cs.last()) {
        buttons(cs.drop_last()).push(cs.last())
    } else {
        buttons(cs.drop_last())
    }
}

/// The components that pass the status bar test, in order.
pub open spec fn status_bars(cs: Seq<Component>) -> Seq<Component>
    decreases cs.len(),
{
    if cs.len() == 0 {
        cs
    } else if spec_is_status_bar(cs.last()) {
        status_bars(cs.drop_last()).push(cs.last())
    } else {
        status_bars(cs.drop_last())
    }
}

/// Keeps the components that pass the button test (`bars` false) or the status bar test
/// (`bars` true).
fn keep_shaped(components: &Vec<Component>, bars: bool, width: u32, height: u32) -> (kept: Vec<Component>)
    requires
        width * height <= i32::MAX,
        forall|k: int| 0 <= k < components@.len() ==> in_frame(#[trigger] components@[k], width as int, height as int),
    ensures
        !bars ==> kept@ == buttons(components@),
        bars ==> kept@ == status_bars(components@),
        forall|k: int| 0 <= k < kept@.len() ==> in_frame(#[trigger] kept@[k], width as int, height as int),
        forall|k: int| 0 <= k < kept@.len() ==> if bars { spec_is_status_bar(#[trigger] kept@[k]) } else { spec_is_button(kept@[k]) },
{
    let mut kept: Vec<Component> = Vec::new();
    let mut i: usize = 0;
    while i < components.len()
        invariant
            width * height <= i32::MAX,
            forall|k: int| 0 <= k < components@.len() ==> in_frame(#[trigger] components@[k], width as int, height as int),
            0 <= i <= components@.len(),
            !bars ==> kept@ == buttons(components@.take(i as int)),
            bars ==> kept@ == status_bars(components@.take(i as int)),
            forall|k: int| 0 <= k < kept@.len() ==> in_frame(#[trigger] kept@[k], width as int, height as int),
            forall|k: int| 0 <= k < kept@.len() ==> if bars { spec_is_status_bar(#[trigger] kept@[k]) } else { spec_is_button(kept@[k]) },
        decreases components@.len() - i,
    {
        let component = components[i];
        proof {
            assert(components@.take(i + 1).drop_last() =~= components@.take(i as int));
            assert(in_frame(components@[i as int], width as int, height as int));
            lemma_area_in_frame(component, width as int, height as int);
        }
        let keep = if bars { is_status_bar_component(&component) } else { is_button_component(&component) };
        if keep {
            kept.push(component);
        }
        i += 1;
    }
    proof {
        assert(components@.take(components@.len() as int) =~= components@);
    }
    kept
}

/// Both boxes have similar proportions: widths within a factor 1.45, heights within 1.8.
pub open spec fn spec_similar_size(left: Rect, right: Rect) -> bool {
    let max_width = max_int(left.width as int, right.width as int);
    let min_width = min_int(left.width as int, right.width as int);
    let max_height = max_int(left.height as int, right.height as int);
    let min_height = min_int(left.height as int, right.height as int);
    20 * max_width <= 29 * min_width && 5 * max_height <= 9 * min_height
}

/// Whether two boxes have similar sizes.
pub fn similar_size(left: Rect, right: Rect) -> (b: bool)
    ensures
        b == spec_similar_size(left, right),
{
    let max_width = if left.width >= right.width { left.width } else { right.width };
    let min_width = if left.width <= right.width { left.width } else { right.width };
    let max_height = if left.height >= right.height { left.height } else { right.height };
    let min_height = if left.height <= right.height { left.height } else { right.height };
    20 * (max_width as u64) <= 29 * (min_width as u64) && 5 * (max_height as u64) <= 9 * (
    min_height as u64)
}

pub open spec fn abs_int(v: int) -> int {
    if v >= 0 {
        v
    } else {
        -v
    }
}

/// The two boxes can frame a dialog: the reject box sits to the right of the accept box
/// on one line (their tops at most a quarter of their average height apart), with a gap
/// between them of at least 4 pixels and at most their average width, and their sizes
/// are similar.
pub open spec fn pair_accepted(accept: Rect, reject: Rect) -> bool {
    let average_width = (accept.width + reject.width) / 2;
    let average_height = (accept.height + reject.height) / 2;
    let vertical_delta = abs_int(accept.y - reject.y);
    let gap = reject.x - accept.spec_right();
    &&& accept.x < reject.x
    &&& vertical_delta <= average_height / 2
    &&& 4 <= gap <= average_width
    &&& spec_similar_size(accept, reject)
}

/// The dialog framed by an accept box and the reject box to its right, when
/// `pair_accepted`. The dialog area reaches 0.72 of the average box width beside them,
/// 5.25 of their average height above them and 0.55 below them (each rounded to the
/// nearest pixel, halves up), cut to the frame.
pub open spec fn spec_pair_dialog(frame_width: int, frame_height: int, accept: Rect, reject: Rect) -> Option<DialogCandidate> {
    let average_width = (accept.width + reject.width) / 2;
    let average_height = (accept.height + reject.height) / 2;
    if !pair_accepted(accept, reject) {
        None
    } else {
        let horizontal_margin = (average_width * 72 + 50) / 100;
        let top_margin = (average_height * 21 + 2) / 4;
        let bottom_margin = (average_height * 55 + 50) / 100;
        let left = max_int(accept.x - horizontal_margin, 0);
        let top = max_int(min_int(accept.y as int, reject.y as int) - top_margin, 0);
        let right = min_int(reject.spec_right() + horizontal_margin, frame_width);
        let bottom = min_int(max_int(accept.spec_bottom(), reject.spec_bottom()) + bottom_margin, frame_height);
        if right <= left || bottom <= top {
            None
        } else {
            Some(
                DialogCandidate {
                    bounds: Rect { x: left as i32, y: top as i32, width: (right - left) as u32, height: (bottom - top) as u32 },
                    accept_button: accept,
                    reject_button: reject,
                },
            )
        }
    }
}

/// The rectangle lies inside a `width × height` frame and is not empty.
pub open spec fn rect_in_frame(r: Rect, width: int, height: int) -> bool {
    &&& r.fits()
    &&& r.x >= 0 && r.y >= 0 && r.width >= 1 && r.height >= 1
    &&& r.x + r.width <= width && r.y + r.height <= height
}

/// `inner` lies inside `outer`.
pub open spec fn rect_holds(outer: Rect, inner: Rect) -> bool {
    &&& outer.x <= inner.x
    &&& outer.y <= inner.y
    &&& inner.spec_right() <= outer.spec_right()
    &&& inner.spec_bottom() <= outer.spec_bottom()
}

/// The dialog area and both buttons lie inside the frame, and the area holds both
/// buttons.
pub open spec fn dialog_in_frame(d: DialogCandidate, width: int, height: int) -> bool {
    &&& rect_in_frame(d.bounds, width, height)
    &&& rect_in_frame(d.accept_button, width, height)
    &&& rect_in_frame(d.reject_button, width, height)
    &&& rect_holds(d.bounds, d.accept_button)
    &&& rect_holds(d.bounds, d.reject_button)
    &&& d.accept_button.width <= 360 && d.accept_button.height <= 90
    &&& d.reject_button.width <= 360 && d.reject_button.height <= 90
}

/// Pairs two components into a dialog candidate, if they look like one dialog's buttons.
#[verifier::rlimit(40)]
pub fn pair_dialog(frame: &Frame, accept: Component, reject: Component) -> (r: Option<DialogCandidate>)
    requires
        frame.width <= i32::MAX,
        frame.height <= i32::MAX,
        in_frame(accept, frame.width as int, frame.height as int),
        in_frame(reject, frame.width as int, frame.height as int),
    ensures
        r == spec_pair_dialog(frame.width as int, frame.height as int, accept.bounds, reject.bounds),
        r is None <==> !pair_accepted(accept.bounds, reject.bounds),
        r matches Some(d) ==> {
            &&& d.accept_button == accept.bounds
            &&& d.reject_button == reject.bounds
            &&& rect_in_frame(d.bounds, frame.width as int, frame.height as int)
            &&& rect_holds(d.bounds, d.accept_button)
            &&& rect_holds(d.bounds, d.reject_button)
        },
{
    let a = accept.bounds;
    let b = reject.bounds;
    let average_width: i64 = (a.width as i64 + b.width as i64) / 2;
    let average_height: i64 = (a.height as i64 + b.height as i64) / 2;
    let vertical_delta: i64 = if a.y >= b.y { a.y as i64 - b.y as i64 } else { b.y as i64 - a.y as i64 };
    let gap: i64 = b.x as i64 - (a.x as i64 + a.width as i64);
    if a.x >= b.x || vertical_delta > average_height / 2 || gap < 4 || gap > average_width
        || !similar_size(a, b) {
        return None;
    }
    let horizontal_margin: i64 = (average_width * 72 + 50) / 100;
    let top_margin: i64 = (average_height * 21 + 2) / 4;
    let bottom_margin: i64 = (average_height * 55 + 50) / 100;
    let a_bottom: i64 = a.y as i64 + a.height as i64;
    let b_bottom: i64 = b.y as i64 + b.height as i64;
    let raw_left: i64 = a.x as i64 - horizontal_margin;
    let raw_top: i64 = (if a.y <= b.y { a.y as i64 } else { b.y as i64 }) - top_margin;
    let raw_right: i64 = b.x as i64 + b.width as i64 + horizontal_margin;
    let raw_bottom: i64 = (if a_bottom >= b_bottom { a_bottom } else { b_bottom }) + bottom_margin;
    let left: i64 = if raw_left >= 0 { raw_left } else { 0 };
    let top: i64 = if raw_top >= 0 { raw_top } else { 0 };
    let right: i64 = if raw_right <= frame.width as i64 { raw_right } else { frame.width as i64 };
    let bottom: i64 = if raw_bottom <= frame.height as i64 { raw_bottom } else { frame.height as i64 };
    if right <= left || bottom <= top {
        return None;
    }
    let bounds = Rect { x: left as i32, y: top as i32, width: (right - left) as u32, height: (bottom - top) as u32 };
    Some(DialogCandidate { bounds, accept_button: a, reject_button: b })
}

/// The status panel around a health bar (blue) with a mana bar (green) just below it:
/// the bars must start within 30 pixels of each other, the gap between them must be
/// between -3 and 20 pixels, and their widths within a factor 1.8. The panel reaches 22
/// pixels left, 24 right, 55 above and 16 below the bars, cut to the frame.
pub open spec fn spec_panel_region(frame_width: int, frame_height: int, blue: Rect, green: Rect) -> Option<Rect> {
    let vertical_gap = green.y - blue.spec_bottom();
    let left_delta = abs_int(green.x - blue.x);
    let max_width = max_int(blue.width as int, green.width as int);
    let min_width = min_int(blue.width as int, green.width as int);
    if !(-3 <= vertical_gap <= 20) || left_delta > 30 || 5 * max_width > 9 * min_width {
        None
    } else {
        let left = min_int(blue.x as int, green.x as int) - 22;
        let top = blue.y - 55;
        let right = max_int(blue.spec_right(), green.spec_right()) + 24;
        let bottom = green.spec_bottom() + 16;
        spec_clamp_rect(
            Rect {
                x: left as i32,
                y: top as i32,
                width: max_int(right - left, 1) as u32,
                height: max_int(bottom - top, 1) as u32,
            },
            frame_width,
            frame_height,
        )
    }
}

/// The status panel framed by a health bar and a mana bar, if they sit like one panel's bars.
pub fn panel_region(frame: &Frame, blue: Component, green: Component) -> (r: Option<Rect>)
    requires
        detectable(frame),
        in_frame(blue, frame.width as int, frame.height as int),
        in_frame(green, frame.width as int, frame.height as int),
        spec_is_status_bar(blue),
        spec_is_status_bar(green),
    ensures
        r == spec_panel_region(frame.width as int, frame.height as int, blue.bounds, green.bounds),
        r matches Some(p) ==> rect_in_frame(p, frame.width as int, frame.height as int),
{
    let b = blue.bounds;
    let g = green.bounds;
    let vertical_gap = g.y - b.bottom();
    let left_delta: u32 = if g.x >= b.x { (g.x - b.x) as u32 } else { (b.x - g.x) as u32 };
    let max_width = if b.width >= g.width { b.width } else { g.width };
    let min_width = if b.width <= g.width { b.width } else { g.width };
    if !(-3 <= vertical_gap && vertical_gap <= 20) || left_delta > 30 || 5 * max_width > 9 * min_width {
        return None;
    }
    let left = (if b.x <= g.x { b.x } else { g.x }) - 22;
    let top = b.y - 55;
    let b_right = b.right();
    let g_right = g.right();
    let right = (if b_right >= g_right { b_right } else { g_right }) + 24;
    let bottom = g.bottom() + 16;
    let width = if right - left >= 1 { right - left } else { 1 };
    let height = if bottom - top >= 1 { bottom - top } else { 1 };
    clamp_rect(Rect { x: left, y: top, width: width as u32, height: height as u32 }, frame.width, frame.height)
}

/// A candidate's score: the buttons' areas, less the distance (in steps along the axes)
/// from the dialog's centre to the frame's centre.
pub open spec fn spec_candidate_score(frame_width: int, frame_height: int, c: DialogCandidate) -> int {
    let center_x = c.bounds.x + c.bounds.width / 2;
    let center_y = c.bounds.y + c.bounds.height / 2;
    let distance = abs_int(center_x - frame_width / 2) + abs_int(center_y - frame_height / 2);
    c.accept_button.width * c.accept_button.height + c.reject_button.width * c.reject_button.height
        - distance
}

/// Scores a dialog candidate: larger buttons and a more central dialog score higher.
pub fn candidate_score(frame: &Frame, candidate: DialogCandidate) -> (score: i64)
    requires
        detectable(frame),
        dialog_in_frame(candidate, frame.width as int, frame.height as int),
    ensures
        score == spec_candidate_score(frame.width as int, frame.height as int, candidate),
{
    let center = candidate.bounds.center();
    let frame_center = Point { x: frame.width as i32 / 2, y: frame.height as i32 / 2 };
    let dx: u32 = if center.x >= frame_center.x {
        (center.x - frame_center.x) as u32
    } else {
        (frame_center.x - center.x) as u32
    };
    let dy: u32 = if center.y >= frame_center.y {
        (center.y - frame_center.y) as u32
    } else {
        (frame_center.y - center.y) as u32
    };
    let distance = dx + dy;
    proof {
        let a = candidate.accept_button;
        let r = candidate.reject_button;
        assert(a.width * a.height <= 360 * 90) by (nonlinear_arith)
            requires
                a.width <= 360,
                a.height <= 90,
        ;
        assert(r.width * r.height <= 360 * 90) by (nonlinear_arith)
            requires
                r.width <= 360,
                r.height <= 90,
        ;
    }
    candidate.accept_button.width as i64 * candidate.accept_button.height as i64
        + candidate.reject_button.width as i64 * candidate.reject_button.height as i64
        - distance as i64
}

/// The rectangles overlap by at least half of the smaller one's area.
pub open spec fn spec_overlap_significantly(left: Rect, right: Rect) -> bool {
    let overlap_width = min_int(left.spec_right(), right.spec_right()) - max_int(left.x as int, right.x as int);
    let overlap_height = min_int(left.spec_bottom(), right.spec_bottom()) - max_int(left.y as int, right.y as int);
    let smaller = min_int(left.width * left.height, right.width * right.height);
    overlap_width > 0 && overlap_height > 0 && overlap_width * overlap_height * 2 >= smaller
}

/// Whether two rectangles overlap by at least half of the smaller one.
pub fn rectangles_overlap_significantly(left: Rect, right: Rect) -> (b: bool)
    requires
        left.fits(),
        right.fits(),
        left.width * left.height <= i32::MAX,
        right.width * right.height <= i32::MAX,
        i32::MIN <= min_int(left.spec_right(), right.spec_right()) - max_int(left.x as int, right.x as int),
        i32::MIN <= min_int(left.spec_bottom(), right.spec_bottom()) - max_int(left.y as int, right.y as int),
    ensures
        b == spec_overlap_significantly(left, right),
{
    let left_right = left.right();
    let right_right = right.right();
    let left_bottom = left.bottom();
    let right_bottom = right.bottom();
    let overlap_width = (if left_right <= right_right { left_right } else { right_right }) - (if left.x
        >= right.x {
        left.x
    } else {
        right.x
    });
    let overlap_height = (if left_bottom <= right_bottom { left_bottom } else { right_bottom }) - (
    if left.y >= right.y {
        left.y
    } else {
        right.y
    });
    if overlap_width <= 0 || overlap_height <= 0 {
        return false;
    }
    proof {
        assert(overlap_width <= left.width && overlap_height <= left.height);
        assert(overlap_width * overlap_height <= left.width * left.height) by (nonlinear_arith)
            requires
                0 < overlap_width <= left.width,
                0 < overlap_height <= left.height,
        ;
    }
    let overlap = overlap_width as u32 * overlap_height as u32;
    let left_area = left.width * left.height;
    let right_area = right.width * right.height;
    let smaller = if left_area <= right_area { left_area } else { right_area };
    overlap * 2 >= smaller
}

/// The dialog candidates that `accept` forms with each of `rejects`, in order.
pub open spec fn candidates_with(frame_width: int, frame_height: int, accept: Component, rejects: Seq<Component>) -> Seq<DialogCandidate>
    decreases rejects.len(),
{
    if rejects.len() == 0 {
        Seq::empty()
    } else {
        let earlier = candidates_with(frame_width, frame_height, accept, rejects.drop_last());
        match spec_pair_dialog(frame_width, frame_height, accept.bounds, rejects.last().bounds) {
            Some(c) => earlier.push(c),
            None => earlier,
        }
    }
}

/// The dialog candidates of every accept button with every reject button, accept buttons
/// in the outer order.
pub open spec fn dialog_candidates(frame_width: int, frame_height: int, accepts: Seq<Component>, rejects: Seq<Component>) -> Seq<DialogCandidate>
    decreases accepts.len(),
{
    if accepts.len() == 0 {
        Seq::empty()
    } else {
        dialog_candidates(frame_width, frame_height, accepts.drop_last(), rejects) + candidates_with(
            frame_width,
            frame_height,
            accepts.last(),
            rejects,
        )
    }
}

/// The dialog candidates of a frame: green buttons paired with red buttons.
pub open spec fn frame_dialog_candidates(frame: &Frame) -> Seq<DialogCandidate> {
    dialog_candidates(
        frame.width as int,
        frame.height as int,
        buttons(spec_color_components(frame, ColorClass::Green)),
        buttons(spec_color_components(frame, ColorClass::Red)),
    )
}

/// Candidate `i` has the highest score, and every later candidate a lower one.
pub open spec fn is_best_candidate(frame_width: int, frame_height: int, candidates: Seq<DialogCandidate>, i: int) -> bool {
    &&& 0 <= i < candidates.len()
    &&& forall|j: int| 0 <= j < candidates.len() ==> spec_candidate_score(frame_width, frame_height, #[trigger] candidates[j])
        <= spec_candidate_score(frame_width, frame_height, candidates[i])
    &&& forall|j: int| i < j < candidates.len() ==> spec_candidate_score(frame_width, frame_height, #[trigger] candidates[j])
        < spec_candidate_score(frame_width, frame_height, candidates[i])
}

/// The last of the highest-scoring candidates, if there is any candidate.
pub open spec fn best_candidate(frame_width: int, frame_height: int, candidates: Seq<DialogCandidate>) -> Option<DialogCandidate> {
    if candidates.len() == 0 {
        None
    } else {
        Some(candidates[choose|i: int| is_best_candidate(frame_width, frame_height, candidates, i)])
    }
}

/// Only one candidate is the last of the best.
pub proof fn lemma_best_candidate_unique(frame_width: int, frame_height: int, candidates: Seq<DialogCandidate>, i: int)
    requires
        is_best_candidate(frame_width, frame_height, candidates, i),
    ensures
        best_candidate(frame_width, frame_height, candidates) == Some(candidates[i]),
{
    let k = choose|k: int| is_best_candidate(frame_width, frame_height, candidates, k);
    assert(is_best_candidate(frame_width, frame_height, candidates, k));
    if k < i {
        assert(spec_candidate_score(frame_width, frame_height, candidates[i]) < spec_candidate_score(frame_width, frame_height, candidates[k]));
    } else if i < k {
        assert(spec_candidate_score(frame_width, frame_height, candidates[k]) < spec_candidate_score(frame_width, frame_height, candidates[i]));
    }
}

/// The button area a dialog candidate offers: both buttons' areas together.
pub open spec fn button_area(c: DialogCandidate) -> int {
    c.accept_button.width * c.accept_button.height + c.reject_button.width * c.reject_button.height
}

/// How far the dialog's centre lies from the frame's centre, in steps along the axes.
pub open spec fn centre_distance(frame_width: int, frame_height: int, c: DialogCandidate) -> int {
    abs_int(c.bounds.x + c.bounds.width / 2 - frame_width / 2) + abs_int(
        c.bounds.y + c.bounds.height / 2 - frame_height / 2,
    )
}

/// Of two candidates with the same button area, the one closer to the frame's centre
/// scores strictly higher; of two equally far from the centre, the one with the larger
/// buttons scores strictly higher.
pub proof fn lemma_score_prefers_central_and_large(
    frame_width: int,
    frame_height: int,
    a: DialogCandidate,
    b: DialogCandidate,
)
    ensures
        button_area(a) == button_area(b) && centre_distance(frame_width, frame_height, a)
            < centre_distance(frame_width, frame_height, b) ==> spec_candidate_score(frame_width, frame_height, a)
            > spec_candidate_score(frame_width, frame_height, b),
        centre_distance(frame_width, frame_height, a) == centre_distance(frame_width, frame_height, b)
            && button_area(a) > button_area(b) ==> spec_candidate_score(frame_width, frame_height, a)
            > spec_candidate_score(frame_width, frame_height, b),
{
}

/// Every non-empty list of candidates has a best one (the last of the highest scores).
pub proof fn lemma_best_candidate_exists(frame_width: int, frame_height: int, candidates: Seq<DialogCandidate>)
    requires
        candidates.len() > 0,
    ensures
        exists|i: int| is_best_candidate(frame_width, frame_height, candidates, i),
    decreases candidates.len(),
{
    let n = candidates.len() as int;
    if n == 1 {
        assert(is_best_candidate(frame_width, frame_height, candidates, 0));
    } else {
        let rest = candidates.drop_last();
        lemma_best_candidate_exists(frame_width, frame_height, rest);
        let k = choose|k: int| is_best_candidate(frame_width, frame_height, rest, k);
        let last = n - 1;
        if spec_candidate_score(frame_width, frame_height, candidates[last]) >= spec_candidate_score(
            frame_width,
            frame_height,
            candidates[k],
        ) {
            assert forall|j: int| 0 <= j < n implies spec_candidate_score(frame_width, frame_height, #[trigger] candidates[j])
                <= spec_candidate_score(frame_width, frame_height, candidates[last]) by {
                if j < last {
                    assert(candidates[j] == rest[j]);
                }
            }
            assert(is_best_candidate(frame_width, frame_height, candidates, last));
        } else {
            assert forall|j: int| 0 <= j < n implies spec_candidate_score(frame_width, frame_height, #[trigger] candidates[j])
                <= spec_candidate_score(frame_width, frame_height, candidates[k]) by {
                if j < last {
                    assert(candidates[j] == rest[j]);
                }
            }
            assert forall|j: int| k < j < n implies spec_candidate_score(frame_width, frame_height, #[trigger] candidates[j])
                < spec_candidate_score(frame_width, frame_height, candidates[k]) by {
                if j < last {
                    assert(candidates[j] == rest[j]);
                }
            }
            assert(candidates[k] == rest[k]);
            assert(is_best_candidate(frame_width, frame_height, candidates, k));
        }
    }
}

/// The dialog found in a frame is at least as central as every other candidate pair with
/// the same button area, and has at least the button area of every candidate as far
/// from the centre as it is.
pub proof fn lemma_found_dialog_is_most_central(frame: &Frame, d: DialogCandidate, c: DialogCandidate)
    requires
        spec_find_resurrection_dialog(frame) == Some(d),
        frame_dialog_candidates(frame).contains(c),
    ensures
        frame_dialog_candidates(frame).contains(d),
        button_area(c) == button_area(d) ==> centre_distance(frame.width as int, frame.height as int, d)
            <= centre_distance(frame.width as int, frame.height as int, c),
        centre_distance(frame.width as int, frame.height as int, c) == centre_distance(
            frame.width as int,
            frame.height as int,
            d,
        ) ==> button_area(c) <= button_area(d),
{
    let w = frame.width as int;
    let h = frame.height as int;
    let candidates = frame_dialog_candidates(frame);
    lemma_best_candidate_exists(w, h, candidates);
    let i = choose|i: int| is_best_candidate(w, h, candidates, i);
    assert(is_best_candidate(w, h, candidates, i));
    lemma_best_candidate_unique(w, h, candidates, i);
    assert(candidates[i] == d);
    let j = choose|j: int| 0 <= j < candidates.len() && candidates[j] == c;
    assert(spec_candidate_score(w, h, candidates[j]) <= spec_candidate_score(w, h, candidates[i]));
    lemma_score_prefers_central_and_large(w, h, c, d);
}

/// A health bar and a mana bar inside the frame frame a status panel exactly when the
/// mana bar's top is between 3 pixels above and 20 pixels below the health bar's bottom,
/// their left edges are at most 30 pixels apart, and neither is more than 1.8 times as
/// wide as the other; where their right ends lie plays no part. The panel then lies in
/// the frame and holds both bars.
pub proof fn lemma_panel_pairing(frame_width: int, frame_height: int, blue: Rect, green: Rect)
    requires
        0 < frame_width <= 0x4000_0000,
        0 < frame_height <= 0x4000_0000,
        rect_in_frame(blue, frame_width, frame_height),
        rect_in_frame(green, frame_width, frame_height),
    ensures
        spec_panel_region(frame_width, frame_height, blue, green) is Some <==> {
            &&& -3 <= green.y - (blue.y + blue.height) <= 20
            &&& -30 <= green.x - blue.x <= 30
            &&& 5 * blue.width <= 9 * green.width
            &&& 5 * green.width <= 9 * blue.width
        },
        spec_panel_region(frame_width, frame_height, blue, green) matches Some(r) ==> {
            &&& rect_in_frame(r, frame_width, frame_height)
            &&& rect_holds(r, blue)
            &&& rect_holds(r, green)
        },
{
}

/// The resurrection dialog that a frame shows: among all pairs of a green and a red
/// button that frame a dialog, the one with the highest score (the last such one).
pub open spec fn spec_find_resurrection_dialog(frame: &Frame) -> Option<DialogCandidate> {
    best_candidate(frame.width as int, frame.height as int, frame_dialog_candidates(frame))
}

/// Finds the resurrection dialog by its green accept and red reject buttons.
pub fn find_resurrection_dialog(frame: &Frame) -> (r: Option<DialogCandidate>)
    requires
        detectable(frame),
    ensures
        r == spec_find_resurrection_dialog(frame),
        r is None <==> frame_dialog_candidates(frame).len() == 0,
        r matches Some(d) ==> dialog_in_frame(d, frame.width as int, frame.height as int),
{
    let ghost fw = frame.width as int;
    let ghost fh = frame.height as int;
    let green = keep_shaped(&color_components(frame, ColorClass::Green), false, frame.width, frame.height);
    let red = keep_shaped(&color_components(frame, ColorClass::Red), false, frame.width, frame.height);
    let mut best: Option<DialogCandidate> = None;
    let mut best_score: i64 = 0;
    let ghost mut candidates: Seq<DialogCandidate> = Seq::empty();
    let ghost mut best_index: int = 0;
    let mut gi: usize = 0;
    while gi < green.len()
        invariant
            detectable(frame),
            fw == frame.width,
            fh == frame.height,
            forall|k: int| 0 <= k < green@.len() ==> in_frame(#[trigger] green@[k], fw, fh) && spec_is_button(green@[k]),
            forall|k: int| 0 <= k < red@.len() ==> in_frame(#[trigger] red@[k], fw, fh) && spec_is_button(red@[k]),
            0 <= gi <= green@.len(),
            candidates == dialog_candidates(fw, fh, green@.take(gi as int), red@),
            forall|k: int| 0 <= k < candidates.len() ==> dialog_in_frame(#[trigger] candidates[k], fw, fh),
            best is None <==> candidates.len() == 0,
            best matches Some(b) ==> is_best_candidate(fw, fh, candidates, best_index) && candidates[best_index] == b
                && best_score == spec_candidate_score(fw, fh, b),
        decreases green@.len() - gi,
    {
        let accept = green[gi];
        let ghost outer = candidates;
        let mut ri: usize = 0;
        proof {
            assert(outer + candidates_with(fw, fh, accept, red@.take(0)) =~= outer);
        }
        while ri < red.len()
            invariant
                detectable(frame),
                fw == frame.width,
                fh == frame.height,
                in_frame(accept, fw, fh) && spec_is_button(accept),
                forall|k: int| 0 <= k < red@.len() ==> in_frame(#[trigger] red@[k], fw, fh) && spec_is_button(red@[k]),
                0 <= ri <= red@.len(),
                candidates == outer + candidates_with(fw, fh, accept, red@.take(ri as int)),
                forall|k: int| 0 <= k < candidates.len() ==> dialog_in_frame(#[trigger] candidates[k], fw, fh),
                best is None <==> candidates.len() == 0,
                best matches Some(b) ==> is_best_candidate(fw, fh, candidates, best_index) && candidates[best_index] == b
                    && best_score == spec_candidate_score(fw, fh, b),
            decreases red@.len() - ri,
        {
            let reject = red[ri];
            proof {
                assert(red@.take(ri + 1).drop_last() =~= red@.take(ri as int));
                assert(red@.take(ri + 1).last() == reject);
            }
            match pair_dialog(frame, accept, reject) {
                Some(candidate) => {
                    let score = candidate_score(frame, candidate);
                    let ghost previous = candidates;
                    proof {
                        candidates = candidates.push(candidate);
                        assert(outer + candidates_with(fw, fh, accept, red@.take(ri + 1)) =~= candidates);
                    }
                    if best.is_none() || score >= best_score {
                        proof {
                            best_index = candidates.len() - 1;
                            assert forall|j: int| 0 <= j < candidates.len() implies spec_candidate_score(fw, fh, #[trigger] candidates[j])
                                <= spec_candidate_score(fw, fh, candidates[best_index]) by {
                                if j < previous.len() {
                                    assert(candidates[j] == previous[j]);
                                }
                            }
                        }
                        best = Some(candidate);
                        best_score = score;
                    } else {
                        proof {
                            assert(candidates[best_index] == previous[best_index]);
                            assert forall|j: int| 0 <= j < candidates.len() implies spec_candidate_score(fw, fh, #[trigger] candidates[j])
                                <= spec_candidate_score(fw, fh, candidates[best_index]) by {
                                if j < previous.len() {
                                    assert(candidates[j] == previous[j]);
                                }
                            }
                            assert forall|j: int| best_index < j < candidates.len() implies spec_candidate_score(fw, fh, #[trigger] candidates[j])
                                < spec_candidate_score(fw, fh, candidates[best_index]) by {
                                if j < previous.len() {
                                    assert(candidates[j] == previous[j]);
                                }
                            }
                        }
                    }
                },
                None => {
                    proof {
                        assert(outer + candidates_with(fw, fh, accept, red@.take(ri + 1)) =~= candidates);
                    }
                },
            }
            ri += 1;
        }
        proof {
            assert(red@.take(red@.len() as int) =~= red@);
            assert(green@.take(gi + 1).drop_last() =~= green@.take(gi as int));
            assert(green@.take(gi + 1).last() == accept);
        }
        gi += 1;
    }
    proof {
        assert(green@.take(green@.len() as int) =~= green@);
        if best is Some {
            lemma_best_candidate_unique(fw, fh, candidates, best_index);
        }
    }
    best
}

/// The panel regions that `blue` forms with each of `greens`, in order.
pub open spec fn regions_with(frame_width: int, frame_height: int, blue: Component, greens: Seq<Component>) -> Seq<Rect>
    decreases greens.len(),
{
    if greens.len() == 0 {
        Seq::empty()
    } else {
        let earlier = regions_with(frame_width, frame_height, blue, greens.drop_last());
        match spec_panel_region(frame_width, frame_height, blue.bounds, greens.last().bounds) {
            Some(r) => earlier.push(r),
            None => earlier,
        }
    }
}

/// The panel regions of every health bar with every mana bar, health bars in the outer order.
pub open spec fn panel_candidates(frame_width: int, frame_height: int, blues: Seq<Component>, greens: Seq<Component>) -> Seq<Rect>
    decreases blues.len(),
{
    if blues.len() == 0 {
        Seq::empty()
    } else {
        panel_candidates(frame_width, frame_height, blues.drop_last(), greens) + regions_with(
            frame_width,
            frame_height,
            blues.last(),
            greens,
        )
    }
}

/// `a` comes no later than `b` going down the screen, then to the right.
pub open spec fn position_le(a: Rect, b: Rect) -> bool {
    a.y < b.y || (a.y == b.y && a.x <= b.x)
}

/// `r` put into `sorted` after every rectangle that comes no later than it.
pub open spec fn insert_by_position(sorted: Seq<Rect>, r: Rect) -> Seq<Rect>
    decreases sorted.len(),
{
    if sorted.len() == 0 {
        seq![r]
    } else if position_le(sorted.last(), r) {
        sorted.push(r)
    } else {
        insert_by_position(sorted.drop_last(), r).push(sorted.last())
    }
}

/// The rectangles ordered by position, rectangles at the same position kept in their
/// order (a stable sort by `(y, x)`).
pub open spec fn sort_by_position(s: Seq<Rect>) -> Seq<Rect>
    decreases s.len(),
{
    if s.len() == 0 {
        s
    } else {
        insert_by_position(sort_by_position(s.drop_last()), s.last())
    }
}

/// The rectangles with each one dropped that overlaps the last one kept.
pub open spec fn dedup_overlapping(s: Seq<Rect>) -> Seq<Rect>
    decreases s.len(),
{
    if s.len() == 0 {
        s
    } else {
        let kept = dedup_overlapping(s.drop_last());
        if kept.len() > 0 && spec_overlap_significantly(s.last(), kept.last()) {
            kept
        } else {
            kept.push(s.last())
        }
    }
}

/// The status panel regions of a frame: every health bar paired with every mana bar,
/// ordered by position, each region dropped that overlaps the one kept before it.
pub open spec fn spec_find_player_panel_regions(frame: &Frame) -> Seq<Rect> {
    dedup_overlapping(
        sort_by_position(
            panel_candidates(
                frame.width as int,
                frame.height as int,
                status_bars(spec_color_components(frame, ColorClass::Blue)),
                status_bars(spec_color_components(frame, ColorClass::Green)),
            ),
        ),
    )
}

pub open spec fn sorted_by_position(s: Seq<Rect>) -> bool {
    forall|i: int, j: int| 0 <= i < j < s.len() ==> position_le(#[trigger] s[i], #[trigger] s[j])
}

/// Every rectangle of an insertion is the inserted one or one of the sorted ones.
pub proof fn lemma_insert_members(sorted: Seq<Rect>, r: Rect)
    ensures
        insert_by_position(sorted, r).len() == sorted.len() + 1,
        forall|k: int| 0 <= k < insert_by_position(sorted, r).len() ==> (#[trigger] insert_by_position(sorted, r)[k] == r
            || sorted.contains(insert_by_position(sorted, r)[k])),
    decreases sorted.len(),
{
    if sorted.len() > 0 && !position_le(sorted.last(), r) {
        lemma_insert_members(sorted.drop_last(), r);
        let inner = insert_by_position(sorted.drop_last(), r);
        assert forall|k: int| 0 <= k < insert_by_position(sorted, r).len() implies (#[trigger] insert_by_position(sorted, r)[k] == r
            || sorted.contains(insert_by_position(sorted, r)[k])) by {
            if k < inner.len() {
                let e = inner[k];
                if e != r {
                    let i = choose|i: int| 0 <= i < sorted.drop_last().len() && sorted.drop_last()[i] == e;
                    assert(sorted[i] == e);
                }
            } else {
                assert(sorted[sorted.len() - 1] == sorted.last());
            }
        }
    }
}

/// Inserting into a sorted sequence keeps it sorted.
pub proof fn lemma_insert_sorted(sorted: Seq<Rect>, r: Rect)
    requires
        sorted_by_position(sorted),
    ensures
        sorted_by_position(insert_by_position(sorted, r)),
    decreases sorted.len(),
{
    lemma_insert_members(sorted, r);
    if sorted.len() == 0 {
    } else if position_le(sorted.last(), r) {
        let result = sorted.push(r);
        assert forall|i: int, j: int| 0 <= i < j < result.len() implies position_le(#[trigger] result[i], #[trigger] result[j]) by {
            if j == result.len() - 1 && i < sorted.len() - 1 {
                assert(position_le(sorted[i], sorted[sorted.len() - 1]));
            }
        }
    } else {
        let rest = sorted.drop_last();
        assert(sorted_by_position(rest));
        lemma_insert_sorted(rest, r);
        lemma_insert_members(rest, r);
        let inner = insert_by_position(rest, r);
        let result = inner.push(sorted.last());
        assert forall|i: int, j: int| 0 <= i < j < result.len() implies position_le(#[trigger] result[i], #[trigger] result[j]) by {
            if j == result.len() - 1 {
                let e = inner[i];
                if e != r {
                    let k = choose|k: int| 0 <= k < rest.len() && rest[k] == e;
                    assert(position_le(sorted[k], sorted[sorted.len() - 1]));
                }
            }
        }
    }
}

/// The stable sort by position yields a sorted sequence of the same length.
pub proof fn lemma_sort_sorted(s: Seq<Rect>)
    ensures
        sorted_by_position(sort_by_position(s)),
        sort_by_position(s).len() == s.len(),
    decreases s.len(),
{
    if s.len() > 0 {
        lemma_sort_sorted(s.drop_last());
        lemma_insert_sorted(sort_by_position(s.drop_last()), s.last());
        lemma_insert_members(sort_by_position(s.drop_last()), s.last());
    }
}

/// Dropping overlapping rectangles keeps a sorted sequence sorted, and leaves no two
/// neighbours that overlap significantly.
pub proof fn lemma_dedup_sorted(s: Seq<Rect>)
    requires
        sorted_by_position(s),
    ensures
        sorted_by_position(dedup_overlapping(s)),
        forall|i: int| 0 <= i < dedup_overlapping(s).len() - 1 ==> !spec_overlap_significantly(
            #[trigger] dedup_overlapping(s)[i + 1],
            dedup_overlapping(s)[i],
        ),
        forall|i: int| 0 <= i < dedup_overlapping(s).len() ==> s.contains(#[trigger] dedup_overlapping(s)[i]),
    decreases s.len(),
{
    if s.len() > 0 {
        let rest = s.drop_last();
        assert(sorted_by_position(rest));
        lemma_dedup_sorted(rest);
        let kept = dedup_overlapping(rest);
        assert forall|i: int| 0 <= i < kept.len() implies s.contains(#[trigger] kept[i]) by {
            let k = choose|k: int| 0 <= k < rest.len() && rest[k] == kept[i];
            assert(s[k] == kept[i]);
        }
        if !(kept.len() > 0 && spec_overlap_significantly(s.last(), kept.last())) {
            let result = kept.push(s.last());
            assert(s[s.len() - 1] == s.last());
            assert forall|i: int, j: int| 0 <= i < j < result.len() implies position_le(#[trigger] result[i], #[trigger] result[j]) by {
                if j == result.len() - 1 {
                    let k = choose|k: int| 0 <= k < rest.len() && rest[k] == kept[i];
                    assert(position_le(s[k], s[s.len() - 1]));
                }
            }
        }
    }
}

/// Inserting into the whole sequence is inserting into all of it, then appending nothing.
proof fn lemma_insert_whole(s: Seq<Rect>, r: Rect)
    ensures
        insert_by_position(s, r) == insert_by_position(s.take(s.len() as int), r) + s.skip(
            s.len() as int,
        ),
{
    assert(s.take(s.len() as int) =~= s);
    assert(s.skip(s.len() as int) =~= Seq::<Rect>::empty());
    assert(insert_by_position(s, r) + Seq::<Rect>::empty() =~= insert_by_position(s, r));
}

/// A rectangle later than `r` moves from the searched prefix to the kept suffix.
proof fn lemma_insert_step(s: Seq<Rect>, r: Rect, p: int)
    requires
        0 < p <= s.len(),
        !position_le(s[p - 1], r),
    ensures
        insert_by_position(s.take(p), r) + s.skip(p) == insert_by_position(s.take(p - 1), r)
            + s.skip(p - 1),
{
    let t = s.take(p);
    assert(t.drop_last() =~= s.take(p - 1));
    assert(t.last() == s[p - 1]);
    assert(insert_by_position(t, r) == insert_by_position(s.take(p - 1), r).push(s[p - 1]));
    assert(insert_by_position(s.take(p - 1), r).push(s[p - 1]) + s.skip(p) =~= insert_by_position(
        s.take(p - 1),
        r,
    ) + s.skip(p - 1));
}

/// Where the search stops, `r` goes at the end of the prefix.
proof fn lemma_insert_stop(s: Seq<Rect>, r: Rect, p: int)
    requires
        0 <= p <= s.len(),
        p == 0 || position_le(s[p - 1], r),
    ensures
        insert_by_position(s.take(p), r) == s.take(p).push(r),
{
    if p > 0 {
        assert(s.take(p).drop_last() =~= s.take(p - 1));
        assert(s.take(p).last() == s[p - 1]);
    }
    assert(insert_by_position(s.take(p), r) =~= s.take(p).push(r));
}

/// Appends `source[from..to]` to `out`.
fn extend_from_range(out: &mut Vec<Rect>, source: &Vec<Rect>, from: usize, to: usize)
    requires
        from <= to <= source@.len(),
    ensures
        final(out)@ == old(out)@ + source@.subrange(from as int, to as int),
{
    let ghost start = out@;
    let mut j: usize = from;
    while j < to
        invariant
            from <= j <= to <= source@.len(),
            out@ == start + source@.subrange(from as int, j as int),
        decreases to - j,
    {
        proof {
            assert(source@.subrange(from as int, j + 1) =~= source@.subrange(from as int, j as int).push(
                source@[j as int],
            ));
        }
        out.push(source[j]);
        j += 1;
    }
}

/// `r` inserted into `sorted` at its position.
fn insert_by_position_into(sorted: &Vec<Rect>, r: Rect) -> (result: Vec<Rect>)
    ensures
        result@ == insert_by_position(sorted@, r),
{
    let mut p = sorted.len();
    proof {
        lemma_insert_whole(sorted@, r);
    }
    while p > 0 && !(sorted[p - 1].y < r.y || (sorted[p - 1].y == r.y && sorted[p - 1].x <= r.x))
        invariant
            0 <= p <= sorted@.len(),
            insert_by_position(sorted@, r) == insert_by_position(sorted@.take(p as int), r)
                + sorted@.skip(p as int),
        decreases p,
    {
        proof {
            lemma_insert_step(sorted@, r, p as int);
        }
        p -= 1;
    }
    proof {
        lemma_insert_stop(sorted@, r, p as int);
    }
    let mut result: Vec<Rect> = Vec::new();
    extend_from_range(&mut result, sorted, 0, p);
    result.push(r);
    extend_from_range(&mut result, sorted, p, sorted.len());
    proof {
        assert(sorted@.subrange(0, p as int) =~= sorted@.take(p as int));
        assert(sorted@.subrange(p as int, sorted@.len() as int) =~= sorted@.skip(p as int));
        assert(result@ =~= insert_by_position(sorted@, r));
    }
    result
}

/// Sorts rectangles by position, keeping rectangles at one position in their order.
fn sort_by_position_stable(rects: &Vec<Rect>) -> (sorted: Vec<Rect>)
    ensures
        sorted@ == sort_by_position(rects@),
{
    let mut sorted: Vec<Rect> = Vec::new();
    let mut i: usize = 0;
    while i < rects.len()
        invariant
            0 <= i <= rects@.len(),
            sorted@ == sort_by_position(rects@.take(i as int)),
        decreases rects@.len() - i,
    {
        proof {
            assert(rects@.take(i + 1).drop_last() =~= rects@.take(i as int));
            assert(rects@.take(i + 1).last() == rects@[i as int]);
        }
        sorted = insert_by_position_into(&sorted, rects[i]);
        i += 1;
    }
    proof {
        assert(rects@.take(rects@.len() as int) =~= rects@);
    }
    sorted
}

/// Finds the regions of status panels (name, health and mana) by their bars.
pub fn find_player_panel_regions(frame: &Frame) -> (regions: Vec<Rect>)
    requires
        detectable(frame),
    ensures
        regions@ == spec_find_player_panel_regions(frame),
        sorted_by_position(regions@),
        forall|i: int| 0 <= i < regions@.len() - 1 ==> !spec_overlap_significantly(#[trigger] regions@[i + 1], regions@[i]),
        forall|i: int| 0 <= i < regions@.len() ==> rect_in_frame(#[trigger] regions@[i], frame.width as int, frame.height as int),
{
    let ghost fw = frame.width as int;
    let ghost fh = frame.height as int;
    let blue = keep_shaped(&color_components(frame, ColorClass::Blue), true, frame.width, frame.height);
    let green = keep_shaped(&color_components(frame, ColorClass::Green), true, frame.width, frame.height);
    let mut candidates: Vec<Rect> = Vec::new();
    let mut bi: usize = 0;
    while bi < blue.len()
        invariant
            detectable(frame),
            fw == frame.width,
            fh == frame.height,
            forall|k: int| 0 <= k < blue@.len() ==> in_frame(#[trigger] blue@[k], fw, fh) && spec_is_status_bar(blue@[k]),
            forall|k: int| 0 <= k < green@.len() ==> in_frame(#[trigger] green@[k], fw, fh) && spec_is_status_bar(green@[k]),
            0 <= bi <= blue@.len(),
            candidates@ == panel_candidates(fw, fh, blue@.take(bi as int), green@),
            forall|k: int| 0 <= k < candidates@.len() ==> rect_in_frame(#[trigger] candidates@[k], fw, fh),
        decreases blue@.len() - bi,
    {
        let bar = blue[bi];
        let ghost outer = candidates@;
        let mut gi: usize = 0;
        proof {
            assert(outer + regions_with(fw, fh, bar, green@.take(0)) =~= outer);
        }
        while gi < green.len()
            invariant
                detectable(frame),
                fw == frame.width,
                fh == frame.height,
                in_frame(bar, fw, fh) && spec_is_status_bar(bar),
                forall|k: int| 0 <= k < green@.len() ==> in_frame(#[trigger] green@[k], fw, fh) && spec_is_status_bar(green@[k]),
                0 <= gi <= green@.len(),
                candidates@ == outer + regions_with(fw, fh, bar, green@.take(gi as int)),
                forall|k: int| 0 <= k < candidates@.len() ==> rect_in_frame(#[trigger] candidates@[k], fw, fh),
            decreases green@.len() - gi,
        {
            let mana = green[gi];
            proof {
                assert(green@.take(gi + 1).drop_last() =~= green@.take(gi as int));
                assert(green@.take(gi + 1).last() == mana);
            }
            match panel_region(frame, bar, mana) {
                Some(region) => {
                    candidates.push(region);
                },
                None => {},
            }
            proof {
                assert(outer + regions_with(fw, fh, bar, green@.take(gi + 1)) =~= candidates@);
            }
            gi += 1;
        }
        proof {
            assert(green@.take(green@.len() as int) =~= green@);
            assert(blue@.take(bi + 1).drop_last() =~= blue@.take(bi as int));
            assert(blue@.take(bi + 1).last() == bar);
        }
        bi += 1;
    }
    proof {
        assert(blue@.take(blue@.len() as int) =~= blue@);
    }
    let sorted = sort_by_position_stable(&candidates);
    proof {
        lemma_sort_sorted(candidates@);
        lemma_sort_members(candidates@);
    }
    let mut regions: Vec<Rect> = Vec::new();
    let mut i: usize = 0;
    while i < sorted.len()
        invariant
            detectable(frame),
            fw == frame.width,
            fh == frame.height,
            0 <= i <= sorted@.len(),
            forall|k: int| 0 <= k < sorted@.len() ==> rect_in_frame(#[trigger] sorted@[k], fw, fh),
            regions@ == dedup_overlapping(sorted@.take(i as int)),
            forall|k: int| 0 <= k < regions@.len() ==> rect_in_frame(#[trigger] regions@[k], fw, fh),
        decreases sorted@.len() - i,
    {
        let region = sorted[i];
        proof {
            assert(sorted@.take(i + 1).drop_last() =~= sorted@.take(i as int));
            assert(sorted@.take(i + 1).last() == region);
            assert(rect_in_frame(region, fw, fh));
            if regions@.len() > 0 {
                assert(rect_in_frame(regions@[regions@.len() - 1], fw, fh));
                lemma_area_bound(region, fw, fh);
                lemma_area_bound(regions@[regions@.len() - 1], fw, fh);
            }
        }
        let keep = regions.len() == 0 || !rectangles_overlap_significantly(region, regions[regions.len() - 1]);
        if keep {
            regions.push(region);
        }
        i += 1;
    }
    proof {
        assert(sorted@.take(sorted@.len() as int) =~= sorted@);
        lemma_dedup_sorted(sorted@);
    }
    regions
}

/// A rectangle inside the frame has at most the frame's area.
pub proof fn lemma_area_bound(r: Rect, width: int, height: int)
    requires
        rect_in_frame(r, width, height),
    ensures
        r.width * r.height <= width * height,
{
    let w = r.width as int;
    let h = r.height as int;
    assert(w * h <= width * height) by (nonlinear_arith)
        requires
            1 <= w <= width,
            1 <= h <= height,
    ;
}

/// Sorting keeps every rectangle it sorts.
pub proof fn lemma_sort_members(s: Seq<Rect>)
    ensures
        forall|k: int| 0 <= k < sort_by_position(s).len() ==> s.contains(#[trigger] sort_by_position(s)[k]),
    decreases s.len(),
{
    if s.len() > 0 {
        lemma_sort_members(s.drop_last());
        let inner = sort_by_position(s.drop_last());
        lemma_insert_members(inner, s.last());
        assert forall|k: int| 0 <= k < sort_by_position(s).len() implies s.contains(#[trigger] sort_by_position(s)[k]) by {
            let e = sort_by_position(s)[k];
            if e == s.last() {
                assert(s[s.len() - 1] == e);
            } else {
                let i = choose|i: int| 0 <= i < inner.len() && inner[i] == e;
                let j = choose|j: int| 0 <= j < s.drop_last().len() && s.drop_last()[j] == e;
                assert(s[j] == e);
            }
        }
    }
}

/// Whether two rectangles overlap significantly does not depend on their order.
pub proof fn lemma_overlap_is_symmetric(left: Rect, right: Rect)
    ensures
        spec_overlap_significantly(left, right) == spec_overlap_significantly(right, left),
{
    let ow = min_int(left.spec_right(), right.spec_right()) - max_int(left.x as int, right.x as int);
    let oh = min_int(left.spec_bottom(), right.spec_bottom()) - max_int(left.y as int, right.y as int);
    assert(ow == min_int(right.spec_right(), left.spec_right()) - max_int(right.x as int, left.x as int));
    assert(oh == min_int(right.spec_bottom(), left.spec_bottom()) - max_int(right.y as int, left.y as int));
}

} // verus!
