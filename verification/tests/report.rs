use res_bot::decision::{Action, ResurrectionPercentage};
use res_bot::detection::DialogCandidate;
use res_bot::image::Rect;
use res_bot::report::{
    action_label, compact_diagnostic_text, contains_name_like_token, format_rect, has_letter_run,
    resurrection_percentage_label, same_dialog,
};

#[test]
fn player_panel_requires_name_like_text() {
    assert!(contains_name_like_token("113 lonedy"));
    assert!(contains_name_like_token("Персонаж_42"));
    assert!(!contains_name_like_token("113 HP MP"));
}

#[test]
fn diagnostic_text_is_compact_and_bounded() {
    assert_eq!(compact_diagnostic_text("  first\r\n second   third  ", 12), "first second…");
}

#[test]
fn short_diagnostic_text_is_only_compacted() {
    assert_eq!(compact_diagnostic_text(" a  b\tc ", 10), "a b c");
    assert_eq!(compact_diagnostic_text("", 3), "");
    assert_eq!(compact_diagnostic_text("abcd", 4), "abcd");
    assert_eq!(compact_diagnostic_text("abcde", 4), "abcd…");
}

#[test]
fn rectangles_are_described_with_all_fields() {
    assert_eq!(
        format_rect(Rect { x: -5, y: 12, width: 300, height: 0 }),
        "x=-5,y=12,width=300,height=0"
    );
}

#[test]
fn labels_name_the_percentage_and_action() {
    assert_eq!(resurrection_percentage_label(ResurrectionPercentage::Zero), "0%");
    assert_eq!(resurrection_percentage_label(ResurrectionPercentage::Hundred), "100%");
    assert_eq!(action_label(Action::Accept), "accept");
    assert_eq!(action_label(Action::Reject), "reject");
}

fn dialog(x: i32, y: i32, width: u32, height: u32) -> DialogCandidate {
    let button = Rect { x, y, width: 10, height: 10 };
    DialogCandidate { bounds: Rect { x, y, width, height }, accept_button: button, reject_button: button }
}

#[test]
fn same_dialog_allows_small_shifts_only() {
    let first = dialog(100, 100, 200, 100);
    assert!(same_dialog(first, first));
    assert!(same_dialog(first, dialog(112, 88, 200, 100)));
    assert!(!same_dialog(first, dialog(113, 100, 200, 100)));
    assert!(same_dialog(first, dialog(100, 100, 220, 100)));
    assert!(!same_dialog(first, dialog(100, 100, 224, 100)));
    assert!(same_dialog(dialog(112, 88, 200, 100), first));
}

#[test]
fn name_tokens_need_three_letters_in_a_row() {
    assert!(!contains_name_like_token("ab 12 cd"));
    assert!(contains_name_like_token("xyz"));
    assert!(!contains_name_like_token(""));
}

#[test]
fn letter_runs_need_three_marked_positions_in_a_row() {
    assert!(has_letter_run(&vec![true, true, false, true, true, true]));
    assert!(!has_letter_run(&vec![true, true, false, true, true]));
    assert!(!has_letter_run(&vec![]));
    assert!(contains_name_like_token("12 Игрок"));
}

#[test]
fn same_dialog_compares_centres_left_of_and_above_the_origin() {
    let first = dialog(-100, -100, 200, 100);
    assert!(same_dialog(first, dialog(-88, -112, 200, 100)));
    assert!(!same_dialog(first, dialog(-113, -100, 200, 100)));
    assert!(same_dialog(dialog(-10, -10, 20, 20), dialog(2, 2, 20, 20)));
}
