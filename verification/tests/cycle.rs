use res_bot::config::Config;
use res_bot::cycle::{begin_cycle, step, CycleCommand, CycleEvent, CycleOutcome, CycleState};
use res_bot::decision::{Action, ResurrectionPercentage};
use res_bot::image::{Frame, Point, Rect};
use res_bot::window::GameWindow;

const ACCEPT: Rect = Rect { x: 310, y: 360, width: 110, height: 28 };
const REJECT: Rect = Rect { x: 432, y: 360, width: 110, height: 28 };

fn frame(origin: Point, rectangles: &[(Rect, [u8; 4])]) -> Frame {
    let width = 800_u32;
    let height = 600_u32;
    let mut pixels = vec![15_u8; width as usize * height as usize * 4];
    for alpha in pixels.iter_mut().skip(3).step_by(4) {
        *alpha = 255;
    }
    for (rect, color) in rectangles {
        for y in rect.y as u32..rect.bottom() as u32 {
            for x in rect.x as u32..rect.right() as u32 {
                let offset = (y as usize * width as usize + x as usize) * 4;
                pixels[offset..offset + 4].copy_from_slice(color);
            }
        }
    }
    Frame::new(origin, width, height, pixels).unwrap()
}

fn dialog_frame(shift: i32, with_panel: bool) -> Frame {
    let mut rectangles = vec![
        (Rect { x: ACCEPT.x + shift, ..ACCEPT }, [24, 70, 44, 255]),
        (Rect { x: REJECT.x + shift, ..REJECT }, [35, 35, 86, 255]),
    ];
    if with_panel {
        rectangles.push((Rect { x: 50, y: 70, width: 150, height: 7 }, [148, 110, 84, 255]));
        rectangles.push((Rect { x: 50, y: 82, width: 150, height: 7 }, [28, 134, 94, 255]));
    }
    frame(Point { x: 100, y: 50 }, &rectangles)
}

fn window(handle: usize) -> GameWindow {
    GameWindow { handle, screen_bounds: Rect { x: 100, y: 50, width: 800, height: 600 }, title: "Lineage II".to_owned() }
}

fn advance(state: CycleState, event: CycleEvent, config: &Config) -> (CycleState, CycleCommand) {
    assert!(state.accepts(&event), "the state does not wait for {event:?}");
    step(state, event, config)
}

/// Runs a cycle up to the dialog text and returns the state that waits for it.
fn up_to_dialog_text(config: &Config, with_panel: bool) -> CycleState {
    let (state, command) = begin_cycle();
    assert!(matches!(command, CycleCommand::FindWindow));
    let (state, command) = advance(state, CycleEvent::WindowFound(Some(window(7))), config);
    assert!(matches!(command, CycleCommand::Capture));
    let (state, command) = advance(state, CycleEvent::FrameCaptured(dialog_frame(0, with_panel)), config);
    match command {
        CycleCommand::RecognizeDialog { dialog, image } => {
            assert_eq!(dialog.accept_button, ACCEPT);
            assert_eq!(image.width, dialog.bounds.width * 3);
            assert_eq!(image.height, dialog.bounds.height * 3);
            assert_eq!(image.origin, Point { x: 100 + dialog.bounds.x, y: 50 + dialog.bounds.y });
        }
        other => panic!("unexpected command: {other:?}"),
    }
    state
}

#[test]
fn a_numbered_nickname_leads_to_an_accept_click_after_a_second_look() {
    let config = Config::built_in();
    let state = up_to_dialog_text(&config, true);
    let (state, command) = advance(state, CycleEvent::TextRecognized("персонажа 0 (0%). Вы согласны?".to_owned()), &config);
    match &command {
        CycleCommand::RecognizePanel { region, image } => {
            assert!(region.contains(Point { x: 70, y: 30 }));
            assert_eq!(image.width, region.width * 3);
        }
        other => panic!("unexpected command: {other:?}"),
    }
    let (state, command) = advance(state, CycleEvent::TextRecognized("113 player_42".to_owned()), &config);
    match command {
        CycleCommand::Pause { percentage, numbered_nickname, action, delay_ms } => {
            assert_eq!(percentage, ResurrectionPercentage::Zero);
            assert!(numbered_nickname);
            assert_eq!(action, Action::Accept);
            assert!((180..=480).contains(&delay_ms));
        }
        other => panic!("unexpected command: {other:?}"),
    }
    let (state, command) = advance(state, CycleEvent::PauseElapsed, &config);
    assert!(matches!(command, CycleCommand::FindWindow));
    let (state, command) = advance(state, CycleEvent::WindowFound(Some(window(7))), &config);
    assert!(matches!(command, CycleCommand::Capture));
    let (state, command) = advance(state, CycleEvent::FrameCaptured(dialog_frame(4, true)), &config);
    match command {
        CycleCommand::Click { action, button, frame_origin } => {
            assert_eq!(action, Action::Accept);
            assert_eq!(button, Rect { x: ACCEPT.x + 4, ..ACCEPT });
            assert_eq!(frame_origin, Point { x: 100, y: 50 });
        }
        other => panic!("unexpected command: {other:?}"),
    }
    assert!(matches!(state, CycleState::Done));
}

#[test]
fn a_plain_name_at_zero_percent_is_rejected() {
    let config = Config::built_in();
    let state = up_to_dialog_text(&config, true);
    let (state, _) = advance(state, CycleEvent::TextRecognized("(0%)".to_owned()), &config);
    let (state, command) = advance(state, CycleEvent::TextRecognized("113 lonedy".to_owned()), &config);
    assert!(matches!(
        command,
        CycleCommand::Pause { action: Action::Reject, numbered_nickname: false, .. }
    ));
    let (state, _) = advance(state, CycleEvent::PauseElapsed, &config);
    let (state, _) = advance(state, CycleEvent::WindowFound(Some(window(7))), &config);
    let (_, command) = advance(state, CycleEvent::FrameCaptured(dialog_frame(0, false)), &config);
    match command {
        CycleCommand::Click { action, button, .. } => {
            assert_eq!(action, Action::Reject);
            assert_eq!(button, REJECT);
        }
        other => panic!("unexpected command: {other:?}"),
    }
}

#[test]
fn panels_without_a_name_end_the_cycle() {
    let config = Config::built_in();
    let state = up_to_dialog_text(&config, true);
    let (state, _) = advance(state, CycleEvent::TextRecognized("100%".to_owned()), &config);
    let (state, command) = advance(state, CycleEvent::TextRecognized("113 HP MP".to_owned()), &config);
    assert!(matches!(command, CycleCommand::Finish(CycleOutcome::NoPlayerPanel)));
    assert!(matches!(state, CycleState::Done));
}

#[test]
fn a_frame_without_panels_ends_the_cycle() {
    let config = Config::built_in();
    let state = up_to_dialog_text(&config, false);
    let (_, command) = advance(state, CycleEvent::TextRecognized("100%".to_owned()), &config);
    assert!(matches!(command, CycleCommand::Finish(CycleOutcome::NoPlayerPanel)));
}

#[test]
fn conflicting_or_missing_percentages_end_the_cycle() {
    let config = Config::built_in();
    let state = up_to_dialog_text(&config, true);
    let (_, command) = advance(state, CycleEvent::TextRecognized("0% 100%".to_owned()), &config);
    match command {
        CycleCommand::Finish(CycleOutcome::ConflictingPercentage { text }) => assert_eq!(text, "0% 100%"),
        other => panic!("unexpected command: {other:?}"),
    }
    let state = up_to_dialog_text(&config, true);
    let (_, command) = advance(state, CycleEvent::TextRecognized("Вы согласны?".to_owned()), &config);
    assert!(matches!(command, CycleCommand::Finish(CycleOutcome::NoPercentage)));
}

#[test]
fn no_window_or_no_dialog_ends_the_cycle() {
    let config = Config::built_in();
    let (state, _) = begin_cycle();
    let (state, command) = advance(state, CycleEvent::WindowFound(None), &config);
    assert!(matches!(command, CycleCommand::Finish(CycleOutcome::NoMatchingWindow)));
    assert!(!state.accepts(&CycleEvent::PauseElapsed));
    let (state, _) = begin_cycle();
    let (state, _) = advance(state, CycleEvent::WindowFound(Some(window(1))), &config);
    let (_, command) = advance(state, CycleEvent::FrameCaptured(frame(Point { x: 0, y: 0 }, &[])), &config);
    assert!(matches!(command, CycleCommand::Finish(CycleOutcome::NoDialog)));
}

/// Runs a cycle up to the second look and returns the state that waits for the window.
fn up_to_second_look(config: &Config) -> CycleState {
    let state = up_to_dialog_text(config, true);
    let (state, _) = advance(state, CycleEvent::TextRecognized("100%".to_owned()), config);
    let (state, _) = advance(state, CycleEvent::TextRecognized("player_07".to_owned()), config);
    let (state, _) = advance(state, CycleEvent::PauseElapsed, config);
    state
}

#[test]
fn the_second_look_cancels_the_click_when_things_changed() {
    let config = Config::built_in();
    let (_, command) = advance(up_to_second_look(&config), CycleEvent::WindowFound(None), &config);
    assert!(matches!(command, CycleCommand::Finish(CycleOutcome::WindowLost)));

    let (_, command) = advance(up_to_second_look(&config), CycleEvent::WindowFound(Some(window(8))), &config);
    assert!(matches!(command, CycleCommand::Finish(CycleOutcome::WindowChanged)));

    let (state, _) = advance(up_to_second_look(&config), CycleEvent::WindowFound(Some(window(7))), &config);
    let (_, command) = advance(state, CycleEvent::FrameCaptured(frame(Point { x: 100, y: 50 }, &[])), &config);
    assert!(matches!(command, CycleCommand::Finish(CycleOutcome::DialogVanished)));

    let (state, _) = advance(up_to_second_look(&config), CycleEvent::WindowFound(Some(window(7))), &config);
    let (_, command) = advance(state, CycleEvent::FrameCaptured(dialog_frame(40, true)), &config);
    match command {
        CycleCommand::Finish(CycleOutcome::DialogMoved { previous, current }) => {
            assert_eq!(current.x, previous.x + 40);
        }
        other => panic!("unexpected command: {other:?}"),
    }
}

#[test]
fn panel_texts_the_nickname_check_cannot_answer_are_not_accepted() {
    let config = Config::built_in();
    let state = up_to_dialog_text(&config, true);
    let (state, _) = advance(state, CycleEvent::TextRecognized("100%".to_owned()), &config);
    assert!(!state.accepts(&CycleEvent::TextRecognized(String::new())));
    assert!(state.accepts(&CycleEvent::TextRecognized("x".to_owned())));
    assert!(!state.accepts(&CycleEvent::PauseElapsed));
}
