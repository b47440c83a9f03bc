use vstd::prelude::*;

use crate::config::Config;
use crate::decision::{
    choose_action, has_numbered_nickname, nickname_check_is_defined, nickname_is_checkable, parse_percentage,
    spec_choose_action, spec_has_numbered_nickname, spec_parse_percentage, Action,
    ResurrectionPercentage,
};
use crate::detection::{
    detectable, dialog_in_frame, find_player_panel_regions, find_resurrection_dialog,
    rect_holds, rect_in_frame, spec_find_player_panel_regions, spec_find_resurrection_dialog, DialogCandidate,
};
use crate::error::AppError;
use crate::image::{contrast_byte, Frame, Point, Rect};
use crate::random::random_u64_inclusive;
use crate::window::GameWindow;
use crate::report::{
    contains_name_like_token, lemma_same_dialog_tolerances, same_dialog, spec_contains_name_like_token,
    spec_same_dialog,
};

verus! {

/// How many times the text regions are enlarged before OCR.
pub const SCALE_FACTOR: u32 = 3;

/// `image` is the part of `frame` under `region`, enlarged three times.
pub open spec fn is_enlarged_region(image: Frame, frame: Frame, region: Rect) -> bool {
    &&& image.wf()
    &&& image.origin == Point { x: (frame.origin.x + region.x) as i32, y: (frame.origin.y + region.y) as i32 }
    &&& image.width == region.width * 3
    &&& image.height == region.height * 3
    &&& forall|x: int, y: int, c: int|
        0 <= x < image.width && 0 <= y < image.height && 0 <= c < 4 ==> #[trigger] image.byte(x, y, c)
            == frame.byte(region.x + x / 3, region.y + y / 3, c)
}

/// `image` is the part of `frame` under `region` in black text on white, enlarged three times.
pub open spec fn is_enlarged_text_region(image: Frame, frame: Frame, region: Rect) -> bool {
    &&& image.wf()
    &&& image.origin == Point { x: (frame.origin.x + region.x) as i32, y: (frame.origin.y + region.y) as i32 }
    &&& image.width == region.width * 3
    &&& image.height == region.height * 3
    &&& forall|x: int, y: int, c: int|
        0 <= x < image.width && 0 <= y < image.height && 0 <= c < 4 ==> #[trigger] image.byte(x, y, c)
            == contrast_byte(
            frame.byte(region.x + x / 3, region.y + y / 3, 0),
            frame.byte(region.x + x / 3, region.y + y / 3, 1),
            frame.byte(region.x + x / 3, region.y + y / 3, 2),
            c,
        )
}

/// The region can be cut out of the frame and its origin moved without overflow.
pub open spec fn region_fits(frame: &Frame, region: Rect) -> bool {
    &&& detectable(frame)
    &&& rect_in_frame(region, frame.width as int, frame.height as int)
    &&& i32::MIN <= frame.origin.x + region.x <= i32::MAX
    &&& i32::MIN <= frame.origin.y + region.y <= i32::MAX
}

proof fn lemma_enlarged_size(frame: &Frame, region: Rect)
    requires
        region_fits(frame, region),
    ensures
        region.width * 3 <= u32::MAX,
        region.height * 3 <= u32::MAX,
        region.width * 3 * (region.height * 3) * 4 <= usize::MAX,
{
    let w = region.width as int;
    let h = region.height as int;
    assert(w * h <= frame.width * frame.height) by (nonlinear_arith)
        requires
            1 <= w <= frame.width,
            1 <= h <= frame.height,
    ;
    assert(w * 3 * (h * 3) * 4 == w * h * 36) by (nonlinear_arith);
}

/// Prepares a dialog region for OCR: the crop in black text on white, enlarged three times.
pub fn prepare_dialog_image(frame: &Frame, region: Rect) -> (r: Result<Frame, AppError>)
    requires
        region_fits(frame, region),
    ensures
        r matches Ok(image) && is_enlarged_text_region(image, *frame, region),
{
    proof {
        lemma_enlarged_size(frame, region);
    }
    let cropped = match frame.crop(region) {
        Ok(c) => c,
        Err(e) => return Err(e),
    };
    let contrasted = match cropped.high_contrast_text() {
        Ok(c) => c,
        Err(e) => return Err(e),
    };
    let scaled = contrasted.scale_nearest(SCALE_FACTOR);
    proof {
        if let Ok(ref image) = scaled {
            assert forall|x: int, y: int, c: int|
                0 <= x < image.width && 0 <= y < image.height && 0 <= c < 4 implies #[trigger] image.byte(x, y, c)
                    == contrast_byte(
                    frame.byte(region.x + x / 3, region.y + y / 3, 0),
                    frame.byte(region.x + x / 3, region.y + y / 3, 1),
                    frame.byte(region.x + x / 3, region.y + y / 3, 2),
                    c,
                ) by {
                assert(x / 3 < region.width);
                assert(y / 3 < region.height);
                assert(image.byte(x, y, c) == contrasted.byte(x / 3, y / 3, c));
                assert(contrasted.byte(x / 3, y / 3, c) == contrast_byte(
                    cropped.byte(x / 3, y / 3, 0),
                    cropped.byte(x / 3, y / 3, 1),
                    cropped.byte(x / 3, y / 3, 2),
                    c,
                ));
                assert(cropped.byte(x / 3, y / 3, 0) == frame.byte(region.x + x / 3, region.y + y / 3, 0));
                assert(cropped.byte(x / 3, y / 3, 1) == frame.byte(region.x + x / 3, region.y + y / 3, 1));
                assert(cropped.byte(x / 3, y / 3, 2) == frame.byte(region.x + x / 3, region.y + y / 3, 2));
            }
        }
    }
    scaled
}

/// Prepares a status panel region for OCR: the crop enlarged three times.
pub fn prepare_panel_image(frame: &Frame, region: Rect) -> (r: Result<Frame, AppError>)
    requires
        region_fits(frame, region),
    ensures
        r matches Ok(image) && is_enlarged_region(image, *frame, region),
{
    proof {
        lemma_enlarged_size(frame, region);
    }
    let cropped = match frame.crop(region) {
        Ok(c) => c,
        Err(e) => return Err(e),
    };
    let scaled = cropped.scale_nearest(SCALE_FACTOR);
    proof {
        if let Ok(ref image) = scaled {
            assert forall|x: int, y: int, c: int|
                0 <= x < image.width && 0 <= y < image.height && 0 <= c < 4 implies #[trigger] image.byte(x, y, c)
                    == frame.byte(region.x + x / 3, region.y + y / 3, c) by {
                assert(x / 3 < region.width);
                assert(y / 3 < region.height);
                assert(image.byte(x, y, c) == cropped.byte(x / 3, y / 3, c));
            }
        }
    }
    scaled
}

/// A frame that can be analysed and whose regions keep their screen coordinates in range.
pub open spec fn capturable(frame: &Frame) -> bool {
    &&& detectable(frame)
    &&& frame.origin.x + frame.width <= i32::MAX
    &&& frame.origin.y + frame.height <= i32::MAX
}

/// Whether a captured frame can be analysed: `capturable`.
pub fn is_capturable(frame: &Frame) -> (b: bool)
    ensures
        b == capturable(frame),
{
    let width = frame.width as u128;
    let height = frame.height as u128;
    proof {
        assert(width * height <= 0xffff_ffffu128 * 0xffff_ffffu128) by (nonlinear_arith)
            requires
                width <= 0xffff_ffffu128,
                height <= 0xffff_ffffu128,
        ;
    }
    let area = width * height;
    frame.width > 0 && frame.height > 0 && frame.bgra.len() as u128 == area * 4
        && area <= i32::MAX as u128 && area * 36 <= usize::MAX as u128
        && frame.width <= 0x4000_0000 && frame.height <= 0x4000_0000
        && frame.origin.x as i64 + frame.width as i64 <= i32::MAX as i64
        && frame.origin.y as i64 + frame.height as i64 <= i32::MAX as i64
}

/// What the outside world reports back to a cycle.
#[derive(Debug)]
pub enum CycleEvent {
    /// The foreground window, if its title matched.
    WindowFound(Option<GameWindow>),
    /// A capture of the window's client area.
    FrameCaptured(Frame),
    /// The text that OCR read from the image last handed out.
    TextRecognized(String),
    /// The pause before the second look is over.
    PauseElapsed,
}

/// Why a cycle ended without a click.
#[derive(Clone, Debug, PartialEq, Eq)]
pub enum CycleOutcome {
    NoMatchingWindow,
    NoDialog,
    NoPercentage,
    ConflictingPercentage { text: String },
    NoPlayerPanel,
    WindowLost,
    WindowChanged,
    DialogVanished,
    DialogMoved { previous: Rect, current: Rect },
}

/// What a cycle asks the outside world to do next.
#[derive(Debug)]
pub enum CycleCommand {
    /// Look up the foreground window and match its title.
    FindWindow,
    /// Capture the client area of the window found last.
    Capture,
    /// Read the text of the dialog from the prepared image.
    RecognizeDialog { dialog: DialogCandidate, image: Frame },
    /// Read the text of one status panel from the prepared image.
    RecognizePanel { region: Rect, image: Frame },
    /// Wait before looking again.
    Pause { percentage: ResurrectionPercentage, numbered_nickname: bool, action: Action, delay_ms: u64 },
    /// Click the button; the cycle is over.
    Click { action: Action, button: Rect, frame_origin: Point },
    /// The cycle is over without a click.
    Finish(CycleOutcome),
}

/// Where a cycle stands.
#[derive(Debug)]
pub enum CycleState {
    SeekingWindow,
    Capturing { window: GameWindow },
    ReadingDialog { window: GameWindow, frame: Frame, dialog: DialogCandidate },
    ReadingPanels {
        window: GameWindow,
        frame: Frame,
        dialog: DialogCandidate,
        percentage: ResurrectionPercentage,
        regions: Vec<Rect>,
        next: usize,
        name_seen: bool,
    },
    Pausing { window: GameWindow, dialog: DialogCandidate, action: Action },
    Reconfirming { window: GameWindow, dialog: DialogCandidate, action: Action },
    Rechecking { dialog: DialogCandidate, action: Action },
    Done,
}

/// The dialog's area can be compared with a later sighting.
pub open spec fn comparable(dialog: DialogCandidate) -> bool {
    dialog.bounds.fits() && dialog.bounds.x >= 0 && dialog.bounds.y >= 0
}

/// Every status panel region lies inside the frame.
pub open spec fn regions_in_frame(regions: Seq<Rect>, frame: &Frame) -> bool {
    forall|i: int| 0 <= i < regions.len() ==> rect_in_frame(#[trigger] regions[i], frame.width as int, frame.height as int)
}

impl CycleState {
    /// The facts each state carries about what was seen so far.
    pub open spec fn wf(&self) -> bool {
        match self {
            CycleState::ReadingDialog { frame, dialog, .. } => {
                &&& capturable(frame)
                &&& spec_find_resurrection_dialog(frame) == Some(*dialog)
                &&& dialog_in_frame(*dialog, frame.width as int, frame.height as int)
            },
            CycleState::ReadingPanels { frame, dialog, regions, next, .. } => {
                &&& capturable(frame)
                &&& spec_find_resurrection_dialog(frame) == Some(*dialog)
                &&& dialog_in_frame(*dialog, frame.width as int, frame.height as int)
                &&& regions@ == spec_find_player_panel_regions(frame)
                &&& regions_in_frame(regions@, frame)
                &&& next < regions@.len()
            },
            CycleState::Pausing { dialog, .. } => comparable(*dialog),
            CycleState::Reconfirming { dialog, .. } => comparable(*dialog),
            CycleState::Rechecking { dialog, .. } => comparable(*dialog),
            _ => true,
        }
    }

    /// The events each state waits for; a panel text must be one the nickname check
    /// answers, and a frame must be `capturable`.
    pub open spec fn spec_accepts(&self, event: &CycleEvent) -> bool {
        match self {
            CycleState::SeekingWindow => event is WindowFound,
            CycleState::Capturing { .. } => event matches CycleEvent::FrameCaptured(f) && capturable(&f),
            CycleState::ReadingDialog { .. } => event is TextRecognized,
            CycleState::ReadingPanels { .. } => event matches CycleEvent::TextRecognized(t) && nickname_check_is_defined(t@),
            CycleState::Pausing { .. } => event is PauseElapsed,
            CycleState::Reconfirming { .. } => event is WindowFound,
            CycleState::Rechecking { .. } => event matches CycleEvent::FrameCaptured(f) && capturable(&f),
            CycleState::Done => false,
        }
    }

    /// The stage of the cycle, counting down to `Done`.
    pub open spec fn stage(&self) -> nat {
        match self {
            CycleState::SeekingWindow => 7,
            CycleState::Capturing { .. } => 6,
            CycleState::ReadingDialog { .. } => 5,
            CycleState::ReadingPanels { .. } => 4,
            CycleState::Pausing { .. } => 3,
            CycleState::Reconfirming { .. } => 2,
            CycleState::Rechecking { .. } => 1,
            CycleState::Done => 0,
        }
    }

    /// The status panels still to be read.
    pub open spec fn panels_left(&self) -> int {
        match self {
            CycleState::ReadingPanels { regions, next, .. } => regions@.len() - *next,
            _ => 0,
        }
    }
}

/// `later` is strictly closer to the end of the cycle than `earlier`.
pub open spec fn advances(later: &CycleState, earlier: &CycleState) -> bool {
    ||| later.stage() < earlier.stage()
    ||| (later.stage() == earlier.stage() && 0 <= later.panels_left() < earlier.panels_left())
}

/// The button that carries out the action.
pub open spec fn button_for(dialog: DialogCandidate, action: Action) -> Rect {
    match action {
        Action::Accept => dialog.accept_button,
        Action::Reject => dialog.reject_button,
    }
}

/// The decision once the nickname question is answered: pause, then look again.
pub open spec fn decided(
    window: GameWindow,
    dialog: DialogCandidate,
    percentage: ResurrectionPercentage,
    numbered: bool,
    min_delay: u64,
    max_delay: u64,
    next: &CycleState,
    command: &CycleCommand,
) -> bool {
    let action = spec_choose_action(percentage, numbered);
    &&& *next == (CycleState::Pausing { window, dialog, action })
    &&& (*command matches CycleCommand::Pause { percentage: p, numbered_nickname: n, action: a, delay_ms }
        && p == percentage && n == numbered && a == action && min_delay <= delay_ms <= max_delay)
}

/// The request to read status panel `index` of `regions`.
pub open spec fn reads_panel(frame: &Frame, regions: Seq<Rect>, index: int, command: &CycleCommand) -> bool {
    *command matches CycleCommand::RecognizePanel { region, image } && region == regions[index]
        && is_enlarged_region(image, *frame, region)
}

/// After a capture of the window: look for the dialog and read its text.
pub open spec fn from_capturing(window: GameWindow, f: &Frame, next: &CycleState, command: &CycleCommand) -> bool {
    match spec_find_resurrection_dialog(f) {
        None => *next == CycleState::Done && *command == CycleCommand::Finish(CycleOutcome::NoDialog),
        Some(d) => {
            &&& *next matches CycleState::ReadingDialog { window: w2, frame: f2, dialog: d2 } && w2 == window && f2 == *f && d2 == d
            &&& *command matches CycleCommand::RecognizeDialog { dialog: d3, image } && d3 == d
                && is_enlarged_text_region(image, *f, d.bounds)
        },
    }
}

/// After the dialog text: read the percentage, then the first status panel.
pub open spec fn from_reading_dialog(
    window: GameWindow,
    frame: &Frame,
    dialog: DialogCandidate,
    t: Seq<char>,
    next: &CycleState,
    command: &CycleCommand,
) -> bool {
    match spec_parse_percentage(t) {
        None => *next == CycleState::Done && (*command matches CycleCommand::Finish(CycleOutcome::ConflictingPercentage { text }) && text@ == t),
        Some(None) => *next == CycleState::Done && *command == CycleCommand::Finish(CycleOutcome::NoPercentage),
        Some(Some(p)) => {
            let regions = spec_find_player_panel_regions(frame);
            if regions.len() == 0 {
                *next == CycleState::Done && *command == CycleCommand::Finish(CycleOutcome::NoPlayerPanel)
            } else {
                &&& *next matches CycleState::ReadingPanels { window: w2, frame: f2, dialog: d2, percentage: p2, regions: r2, next: n2, name_seen: s2 }
                    && w2 == window && f2 == *frame && d2 == dialog && p2 == p && r2@ == regions && n2 == 0 && !s2
                &&& reads_panel(frame, regions, 0, command)
            }
        },
    }
}

/// After the text of panel `index`: a numbered nickname decides at once; otherwise read
/// the next panel, and after the last one decide if any panel showed a name.
pub open spec fn from_reading_panels(
    window: GameWindow,
    frame: &Frame,
    dialog: DialogCandidate,
    percentage: ResurrectionPercentage,
    regions: Seq<Rect>,
    index: int,
    name_seen: bool,
    t: Seq<char>,
    min_delay: u64,
    max_delay: u64,
    next: &CycleState,
    command: &CycleCommand,
) -> bool {
    if spec_has_numbered_nickname(t) {
        decided(window, dialog, percentage, true, min_delay, max_delay, next, command)
    } else {
        let seen = name_seen || spec_contains_name_like_token(t);
        if index + 1 < regions.len() {
            &&& *next matches CycleState::ReadingPanels { window: w2, frame: f2, dialog: d2, percentage: p2, regions: r2, next: n2, name_seen: s2 }
                && w2 == window && f2 == *frame && d2 == dialog && p2 == percentage && r2@ == regions
                && n2 == index + 1 && s2 == seen
            &&& reads_panel(frame, regions, index + 1, command)
        } else if seen {
            decided(window, dialog, percentage, false, min_delay, max_delay, next, command)
        } else {
            *next == CycleState::Done && *command == CycleCommand::Finish(CycleOutcome::NoPlayerPanel)
        }
    }
}

/// After the second capture: click only if the same dialog is still there.
pub open spec fn from_rechecking(dialog: DialogCandidate, action: Action, f: &Frame, next: &CycleState, command: &CycleCommand) -> bool {
    &&& *next == CycleState::Done
    &&& match spec_find_resurrection_dialog(f) {
        None => *command == CycleCommand::Finish(CycleOutcome::DialogVanished),
        Some(v) => if !spec_same_dialog(dialog, v) {
            *command == CycleCommand::Finish(CycleOutcome::DialogMoved { previous: dialog.bounds, current: v.bounds })
        } else {
            &&& *command == (CycleCommand::Click { action, button: button_for(v, action), frame_origin: f.origin })
            &&& dialog_in_frame(v, f.width as int, f.height as int)
        },
    }
}

/// One step of a cycle: from `state`, on `event`, to `next`, asking for `command`.
pub open spec fn steps_to(
    state: &CycleState,
    event: &CycleEvent,
    min_delay: u64,
    max_delay: u64,
    next: &CycleState,
    command: &CycleCommand,
) -> bool {
    match (*state, *event) {
        (CycleState::SeekingWindow, CycleEvent::WindowFound(found)) => match found {
            None => *next == CycleState::Done && *command == CycleCommand::Finish(CycleOutcome::NoMatchingWindow),
            Some(w) => *next == (CycleState::Capturing { window: w }) && *command == CycleCommand::Capture,
        },
        (CycleState::Capturing { window }, CycleEvent::FrameCaptured(f)) => from_capturing(window, &f, next, command),
        (CycleState::ReadingDialog { window, frame, dialog }, CycleEvent::TextRecognized(t)) =>
            from_reading_dialog(window, &frame, dialog, t@, next, command),
        (CycleState::ReadingPanels { window, frame, dialog, percentage, regions, next: index, name_seen }, CycleEvent::TextRecognized(t)) =>
            from_reading_panels(window, &frame, dialog, percentage, regions@, index as int, name_seen, t@, min_delay, max_delay, next, command),
        (CycleState::Pausing { window, dialog, action }, CycleEvent::PauseElapsed) =>
            *next == (CycleState::Reconfirming { window, dialog, action }) && *command == CycleCommand::FindWindow,
        (CycleState::Reconfirming { window, dialog, action }, CycleEvent::WindowFound(found)) => match found {
            None => *next == CycleState::Done && *command == CycleCommand::Finish(CycleOutcome::WindowLost),
            Some(w) => if w.handle != window.handle {
                *next == CycleState::Done && *command == CycleCommand::Finish(CycleOutcome::WindowChanged)
            } else {
                *next == (CycleState::Rechecking { dialog, action }) && *command == CycleCommand::Capture
            },
        },
        (CycleState::Rechecking { dialog, action }, CycleEvent::FrameCaptured(f)) => from_rechecking(dialog, action, &f, next, command),
        _ => false,
    }
}

impl CycleState {
    /// Whether the state waits for this event: `spec_accepts`.
    pub fn accepts(&self, event: &CycleEvent) -> (b: bool)
        ensures
            b == self.spec_accepts(event),
    {
        match self {
            CycleState::SeekingWindow | CycleState::Reconfirming { .. } => match event {
                CycleEvent::WindowFound(_) => true,
                _ => false,
            },
            CycleState::Capturing { .. } | CycleState::Rechecking { .. } => match event {
                CycleEvent::FrameCaptured(f) => is_capturable(f),
                _ => false,
            },
            CycleState::ReadingDialog { .. } => match event {
                CycleEvent::TextRecognized(_) => true,
                _ => false,
            },
            CycleState::ReadingPanels { .. } => match event {
                CycleEvent::TextRecognized(t) => nickname_is_checkable(t.as_str()),
                _ => false,
            },
            CycleState::Pausing { .. } => match event {
                CycleEvent::PauseElapsed => true,
                _ => false,
            },
            CycleState::Done => false,
        }
    }
}

/// Starts a cycle: the first thing to do is to find the game window.
pub fn begin_cycle() -> (r: (CycleState, CycleCommand))
    ensures
        r.0 == CycleState::SeekingWindow,
        r.1 == CycleCommand::FindWindow,
{
    (CycleState::SeekingWindow, CycleCommand::FindWindow)
}

/// Looks for the dialog in a capture and asks for its text.
fn handle_capture(window: GameWindow, frame: Frame) -> (r: (CycleState, CycleCommand))
    requires
        capturable(&frame),
    ensures
        r.0.wf(),
        from_capturing(window, &frame, &r.0, &r.1),
        r.0.stage() < 6,
{
    match find_resurrection_dialog(&frame) {
        None => (CycleState::Done, CycleCommand::Finish(CycleOutcome::NoDialog)),
        Some(dialog) => {
            proof {
                lemma_region_fits(&frame, dialog.bounds);
            }
            let image = match prepare_dialog_image(&frame, dialog.bounds) {
                Ok(image) => image,
                Err(_) => {
                    proof {
                        assert(false);
                    }
                    return (CycleState::Done, CycleCommand::Finish(CycleOutcome::NoDialog));
                },
            };
            (CycleState::ReadingDialog { window, frame, dialog }, CycleCommand::RecognizeDialog { dialog, image })
        },
    }
}

proof fn lemma_region_fits(frame: &Frame, region: Rect)
    requires
        capturable(frame),
        rect_in_frame(region, frame.width as int, frame.height as int),
    ensures
        region_fits(frame, region),
{
}

/// Asks for the text of status panel `index`.
fn read_panel(frame: &Frame, regions: &Vec<Rect>, index: usize) -> (command: CycleCommand)
    requires
        capturable(frame),
        regions_in_frame(regions@, frame),
        index < regions@.len(),
    ensures
        reads_panel(frame, regions@, index as int, &command),
{
    let region = regions[index];
    proof {
        assert(rect_in_frame(regions@[index as int], frame.width as int, frame.height as int));
        lemma_region_fits(frame, region);
    }
    match prepare_panel_image(frame, region) {
        Ok(image) => CycleCommand::RecognizePanel { region, image },
        Err(_) => {
            proof {
                assert(false);
            }
            CycleCommand::Finish(CycleOutcome::NoPlayerPanel)
        },
    }
}

/// Reads the percentage from the dialog text and asks for the first status panel.
fn handle_dialog_text(window: GameWindow, frame: Frame, dialog: DialogCandidate, text: String) -> (r: (CycleState, CycleCommand))
    requires
        capturable(&frame),
        spec_find_resurrection_dialog(&frame) == Some(dialog),
        dialog_in_frame(dialog, frame.width as int, frame.height as int),
    ensures
        r.0.wf(),
        from_reading_dialog(window, &frame, dialog, text@, &r.0, &r.1),
        r.0.stage() < 5,
{
    let percentage = match parse_percentage(text.as_str()) {
        Ok(Some(p)) => p,
        Ok(None) => return (CycleState::Done, CycleCommand::Finish(CycleOutcome::NoPercentage)),
        Err(_) => return (CycleState::Done, CycleCommand::Finish(CycleOutcome::ConflictingPercentage { text })),
    };
    let regions = find_player_panel_regions(&frame);
    if regions.len() == 0 {
        return (CycleState::Done, CycleCommand::Finish(CycleOutcome::NoPlayerPanel));
    }
    let command = read_panel(&frame, &regions, 0);
    (
        CycleState::ReadingPanels { window, frame, dialog, percentage, regions, next: 0, name_seen: false },
        command,
    )
}

/// Settles the action and asks for the pause before the second look.
fn decide(
    window: GameWindow,
    dialog: DialogCandidate,
    percentage: ResurrectionPercentage,
    numbered: bool,
    config: &Config,
) -> (r: (CycleState, CycleCommand))
    requires
        config.pre_click_min_delay_ms <= config.pre_click_max_delay_ms,
    ensures
        decided(window, dialog, percentage, numbered, config.pre_click_min_delay_ms, config.pre_click_max_delay_ms, &r.0, &r.1),
{
    let action = choose_action(percentage, numbered);
    let delay_ms = random_u64_inclusive(config.pre_click_min_delay_ms, config.pre_click_max_delay_ms);
    (
        CycleState::Pausing { window, dialog, action },
        CycleCommand::Pause { percentage, numbered_nickname: numbered, action, delay_ms },
    )
}

/// Checks a panel text for a numbered nickname, then moves to the next panel or decides.
fn handle_panel_text(
    window: GameWindow,
    frame: Frame,
    dialog: DialogCandidate,
    percentage: ResurrectionPercentage,
    regions: Vec<Rect>,
    index: usize,
    name_seen: bool,
    text: String,
    config: &Config,
) -> (r: (CycleState, CycleCommand))
    requires
        capturable(&frame),
        spec_find_resurrection_dialog(&frame) == Some(dialog),
        regions@ == spec_find_player_panel_regions(&frame),
        regions_in_frame(regions@, &frame),
        index < regions@.len(),
        nickname_check_is_defined(text@),
        dialog_in_frame(dialog, frame.width as int, frame.height as int),
        config.pre_click_min_delay_ms <= config.pre_click_max_delay_ms,
    ensures
        r.0.wf(),
        from_reading_panels(
            window,
            &frame,
            dialog,
            percentage,
            regions@,
            index as int,
            name_seen,
            text@,
            config.pre_click_min_delay_ms,
            config.pre_click_max_delay_ms,
            &r.0,
            &r.1,
        ),
        r.0.stage() < 4 || (r.0.stage() == 4 && 0 <= r.0.panels_left() < regions@.len() - index),
{
    if has_numbered_nickname(text.as_str()) {
        return decide(window, dialog, percentage, true, config);
    }
    let seen = name_seen || contains_name_like_token(text.as_str());
    if index < regions.len() - 1 {
        let command = read_panel(&frame, &regions, index + 1);
        return (
            CycleState::ReadingPanels { window, frame, dialog, percentage, regions, next: index + 1, name_seen: seen },
            command,
        );
    }
    if seen {
        decide(window, dialog, percentage, false, config)
    } else {
        (CycleState::Done, CycleCommand::Finish(CycleOutcome::NoPlayerPanel))
    }
}

/// Compares the dialog of the second capture with the first and clicks if it is the same.
fn handle_recheck(dialog: DialogCandidate, action: Action, frame: Frame) -> (r: (CycleState, CycleCommand))
    requires
        capturable(&frame),
        comparable(dialog),
    ensures
        from_rechecking(dialog, action, &frame, &r.0, &r.1),
{
    match find_resurrection_dialog(&frame) {
        None => (CycleState::Done, CycleCommand::Finish(CycleOutcome::DialogVanished)),
        Some(current) => {
            if !same_dialog(dialog, current) {
                return (
                    CycleState::Done,
                    CycleCommand::Finish(CycleOutcome::DialogMoved { previous: dialog.bounds, current: current.bounds }),
                );
            }
            let button = match action {
                Action::Accept => current.accept_button,
                Action::Reject => current.reject_button,
            };
            (CycleState::Done, CycleCommand::Click { action, button, frame_origin: frame.origin })
        },
    }
}

/// Takes one step of a cycle: hands the event to the state that waits for it and returns
/// the next state and what to do. Every step brings the cycle closer to its end, and a
/// click is only ever asked for after a second capture showed the same dialog in the
/// same window.
pub fn step(state: CycleState, event: CycleEvent, config: &Config) -> (r: (CycleState, CycleCommand))
    requires
        state.wf(),
        state.spec_accepts(&event),
        config.pre_click_min_delay_ms <= config.pre_click_max_delay_ms,
    ensures
        r.0.wf(),
        steps_to(&state, &event, config.pre_click_min_delay_ms, config.pre_click_max_delay_ms, &r.0, &r.1),
        advances(&r.0, &state),
{
    match state {
        CycleState::SeekingWindow => match event {
            CycleEvent::WindowFound(None) => (CycleState::Done, CycleCommand::Finish(CycleOutcome::NoMatchingWindow)),
            CycleEvent::WindowFound(Some(window)) => (CycleState::Capturing { window }, CycleCommand::Capture),
            _ => (CycleState::Done, CycleCommand::Finish(CycleOutcome::NoMatchingWindow)),
        },
        CycleState::Capturing { window } => match event {
            CycleEvent::FrameCaptured(frame) => handle_capture(window, frame),
            _ => (CycleState::Done, CycleCommand::Finish(CycleOutcome::NoDialog)),
        },
        CycleState::ReadingDialog { window, frame, dialog } => match event {
            CycleEvent::TextRecognized(text) => handle_dialog_text(window, frame, dialog, text),
            _ => (CycleState::Done, CycleCommand::Finish(CycleOutcome::NoPercentage)),
        },
        CycleState::ReadingPanels { window, frame, dialog, percentage, regions, next, name_seen } => match event {
            CycleEvent::TextRecognized(text) => handle_panel_text(
                window,
                frame,
                dialog,
                percentage,
                regions,
                next,
                name_seen,
                text,
                config,
            ),
            _ => (CycleState::Done, CycleCommand::Finish(CycleOutcome::NoPlayerPanel)),
        },
        CycleState::Pausing { window, dialog, action } => (
            CycleState::Reconfirming { window, dialog, action },
            CycleCommand::FindWindow,
        ),
        CycleState::Reconfirming { window, dialog, action } => match event {
            CycleEvent::WindowFound(None) => (CycleState::Done, CycleCommand::Finish(CycleOutcome::WindowLost)),
            CycleEvent::WindowFound(Some(current)) => {
                if current.handle != window.handle {
                    (CycleState::Done, CycleCommand::Finish(CycleOutcome::WindowChanged))
                } else {
                    (CycleState::Rechecking { dialog, action }, CycleCommand::Capture)
                }
            },
            _ => (CycleState::Done, CycleCommand::Finish(CycleOutcome::WindowLost)),
        },
        CycleState::Rechecking { dialog, action } => match event {
            CycleEvent::FrameCaptured(frame) => handle_recheck(dialog, action, frame),
            _ => (CycleState::Done, CycleCommand::Finish(CycleOutcome::DialogVanished)),
        },
        CycleState::Done => (CycleState::Done, CycleCommand::Finish(CycleOutcome::NoMatchingWindow)),
    }
}

/// A click is only ever asked for by the second look: the state was `Rechecking`, the
/// new capture shows a dialog that is the same as the one first seen, the button is that
/// dialog's button for the decided action and lies inside the dialog and the capture,
/// and the coordinates are those of the capture.
pub proof fn lemma_click_only_after_recheck(
    state: &CycleState,
    event: &CycleEvent,
    min_delay: u64,
    max_delay: u64,
    next: &CycleState,
    command: &CycleCommand,
)
    requires
        steps_to(state, event, min_delay, max_delay, next, command),
        command is Click,
    ensures
        *state matches CycleState::Rechecking { dialog, action } && *event matches CycleEvent::FrameCaptured(f)
            && spec_find_resurrection_dialog(&f) matches Some(v) && spec_same_dialog(dialog, v)
            && *command == (CycleCommand::Click { action, button: button_for(v, action), frame_origin: f.origin })
            && rect_holds(v.bounds, button_for(v, action))
            && rect_in_frame(button_for(v, action), f.width as int, f.height as int),
        *next == CycleState::Done,
{
}

/// A click lands only on a dialog that, in the second capture, has its centre within 12
/// pixels of where it was first seen on each axis, and its size within 20 pixels.
pub proof fn lemma_click_only_on_unmoved_dialog(
    state: &CycleState,
    event: &CycleEvent,
    min_delay: u64,
    max_delay: u64,
    next: &CycleState,
    command: &CycleCommand,
)
    requires
        steps_to(state, event, min_delay, max_delay, next, command),
        command is Click,
    ensures
        *state matches CycleState::Rechecking { dialog, .. } && *event matches CycleEvent::FrameCaptured(f)
            && spec_find_resurrection_dialog(&f) matches Some(v)
            && -12 <= dialog.bounds.spec_center_x() - v.bounds.spec_center_x() <= 12
            && -12 <= dialog.bounds.spec_center_y() - v.bounds.spec_center_y() <= 12
            && -20 <= dialog.bounds.width - v.bounds.width <= 20
            && -20 <= dialog.bounds.height - v.bounds.height <= 20,
{
    lemma_click_only_after_recheck(state, event, min_delay, max_delay, next, command);
    if let CycleState::Rechecking { dialog, .. } = *state {
        if let CycleEvent::FrameCaptured(f) = *event {
            if let Some(v) = spec_find_resurrection_dialog(&f) {
                lemma_same_dialog_tolerances(dialog, v);
            }
        }
    }
}

/// While status panels are left to read, a panel without a numbered nickname never
/// settles the cycle: the next state reads the following panel of the same frame, and
/// the command asks for exactly that panel's text.
pub proof fn lemma_panels_are_read_in_turn(
    state: &CycleState,
    event: &CycleEvent,
    min_delay: u64,
    max_delay: u64,
    next: &CycleState,
    command: &CycleCommand,
)
    requires
        steps_to(state, event, min_delay, max_delay, next, command),
        *state matches CycleState::ReadingPanels { regions, next: index, .. } && index + 1 < regions@.len(),
        *event matches CycleEvent::TextRecognized(t) && !spec_has_numbered_nickname(t@),
    ensures
        *state matches CycleState::ReadingPanels { frame, regions, next: index, dialog, percentage, .. }
            && *next matches CycleState::ReadingPanels { frame: f2, regions: r2, next: n2, dialog: d2, percentage: p2, .. }
            && f2 == frame && r2@ == regions@ && n2 == index + 1 && d2 == dialog && p2 == percentage
            && (*command matches CycleCommand::RecognizePanel { region, .. } && region == regions@[index + 1]),
        !(command is Pause),
        !(command is Finish),
{
}

/// A decision without a numbered nickname comes only after the last status panel was
/// read; before that, only a numbered nickname settles the cycle, and then it accepts.
pub proof fn lemma_plain_decision_only_after_last_panel(
    state: &CycleState,
    event: &CycleEvent,
    min_delay: u64,
    max_delay: u64,
    next: &CycleState,
    command: &CycleCommand,
)
    requires
        steps_to(state, event, min_delay, max_delay, next, command),
        state is ReadingPanels,
        command is Pause,
    ensures
        *command matches CycleCommand::Pause { numbered_nickname, action, .. } && (numbered_nickname
            ==> action == Action::Accept),
        (*command matches CycleCommand::Pause { numbered_nickname, .. } && !numbered_nickname)
            ==> (*state matches CycleState::ReadingPanels { regions, next: index, .. } && index + 1 >= regions@.len()),
        *command matches CycleCommand::Pause { numbered_nickname, action, .. } ==> (!numbered_nickname
            ==> (*state matches CycleState::ReadingPanels { percentage, .. } && (action == Action::Accept
            <==> percentage == ResurrectionPercentage::Hundred))),
{
}

/// After the last status panel, a text without a numbered nickname settles the cycle
/// only if some panel showed a name (a run of three letters); then, without a numbered
/// nickname, only a full resurrection is accepted. If no panel showed a name, the cycle
/// ends without a click.
pub proof fn lemma_last_panel_needs_a_name(
    state: &CycleState,
    event: &CycleEvent,
    min_delay: u64,
    max_delay: u64,
    next: &CycleState,
    command: &CycleCommand,
)
    requires
        steps_to(state, event, min_delay, max_delay, next, command),
        *state matches CycleState::ReadingPanels { regions, next: index, .. } && index + 1 >= regions@.len(),
        *event matches CycleEvent::TextRecognized(t) && !spec_has_numbered_nickname(t@),
    ensures
        *state matches CycleState::ReadingPanels { name_seen, percentage, .. } && *event matches CycleEvent::TextRecognized(t)
            && ((name_seen || spec_contains_name_like_token(t@)) ==> (*command matches CycleCommand::Pause { numbered_nickname, action, .. }
                && !numbered_nickname && (action == Action::Accept <==> percentage == ResurrectionPercentage::Hundred)))
            && (!(name_seen || spec_contains_name_like_token(t@)) ==> (*next == CycleState::Done
                && *command == CycleCommand::Finish(CycleOutcome::NoPlayerPanel))),
{
}

/// A dialog text that names both 0% and 100% ends the cycle: nothing is clicked and the
/// text is reported.
pub proof fn lemma_conflicting_percentage_ends_cycle(
    state: &CycleState,
    event: &CycleEvent,
    min_delay: u64,
    max_delay: u64,
    next: &CycleState,
    command: &CycleCommand,
)
    requires
        steps_to(state, event, min_delay, max_delay, next, command),
        state is ReadingDialog,
        event matches CycleEvent::TextRecognized(t) && spec_parse_percentage(t@) is None,
    ensures
        *next == CycleState::Done,
        *command matches CycleCommand::Finish(CycleOutcome::ConflictingPercentage { text })
            && *event matches CycleEvent::TextRecognized(t) && text@ == t@,
{
}

/// Once a status panel shows a numbered nickname, the decision is to accept, whatever
/// the percentage, and the pause lies within the configured bounds.
pub proof fn lemma_numbered_nickname_is_accepted(
    state: &CycleState,
    event: &CycleEvent,
    min_delay: u64,
    max_delay: u64,
    next: &CycleState,
    command: &CycleCommand,
)
    requires
        steps_to(state, event, min_delay, max_delay, next, command),
        state is ReadingPanels,
        event matches CycleEvent::TextRecognized(t) && spec_has_numbered_nickname(t@),
    ensures
        *command matches CycleCommand::Pause { action, numbered_nickname, delay_ms, .. }
            && action == Action::Accept && numbered_nickname && min_delay <= delay_ms <= max_delay,
        *next matches CycleState::Pausing { action, .. } && action == Action::Accept,
{
}

/// A cycle ends: along any run of steps the stage never grows, and within a stage the
/// panels left to read shrink, so no run is longer than the stages plus the panels.
pub proof fn lemma_steps_end(earlier: &CycleState, later: &CycleState)
    requires
        advances(later, earlier),
    ensures
        later.stage() <= earlier.stage(),
        later.stage() + later.panels_left() < earlier.stage() + earlier.panels_left()
            || later.stage() < earlier.stage(),
{
}

} // verus!
