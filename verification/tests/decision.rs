use res_bot::decision::{
    checked_numbered_nickname, checked_numbered_nickname_header, choose_action, ends_with_two_digit_token,
    has_numbered_nickname, has_numbered_nickname_header, has_numbered_suffix, nickname_is_checkable, suffix_is_checkable,
    parse_percentage, Action, ResurrectionPercentage,
};
use res_bot::error::AppError;

#[test]
fn parses_supported_percentages() {
    assert_eq!(
        parse_percentage("5,429,441,752 (100%). Вы согласны?").unwrap(),
        Some(ResurrectionPercentage::Hundred)
    );
    assert_eq!(
        parse_percentage("персонажа 0 (0%). Вы согласны?").unwrap(),
        Some(ResurrectionPercentage::Zero)
    );
}

#[test]
fn conflicting_percentages_are_reported_explicitly() {
    let error = parse_percentage("0% and 100%").unwrap_err();

    assert!(matches!(error, AppError::ConflictingPercentage { .. }));
}

#[test]
fn recognizes_exact_two_digit_suffix() {
    assert!(has_numbered_nickname("player_42"));
    assert!(has_numbered_nickname(" OtherName _ 07 "));
    assert!(!has_numbered_nickname("player"));
    assert!(!has_numbered_nickname("player_7"));
    assert!(!has_numbered_nickname("player_123"));
}

#[test]
fn recognizes_suffix_when_panel_ocr_drops_underscore() {
    assert!(has_numbered_nickname_header("120 jd01 17"));
    assert!(has_numbered_nickname_header("120 jd.1 17"));
    assert!(has_numbered_nickname_header("120 player_17"));
    assert!(!has_numbered_nickname_header("120 player"));
    assert!(!has_numbered_nickname_header("120 17"));
    assert!(!has_numbered_nickname_header("120 H 17"));
    assert!(!has_numbered_nickname_header("120 player 7"));
}

#[test]
fn numbered_nickname_overrides_zero_percent() {
    assert_eq!(choose_action(ResurrectionPercentage::Zero, true), Action::Accept);
    assert_eq!(choose_action(ResurrectionPercentage::Zero, false), Action::Reject);
}

#[test]
fn hundred_percent_is_always_accepted() {
    assert_eq!(choose_action(ResurrectionPercentage::Hundred, false), Action::Accept);
    assert_eq!(choose_action(ResurrectionPercentage::Hundred, true), Action::Accept);
}

#[test]
fn text_without_percentage_gives_none() {
    assert_eq!(parse_percentage("Вы согласны?").unwrap(), None);
    assert_eq!(parse_percentage("").unwrap(), None);
}

#[test]
fn zero_percent_after_a_digit_is_not_standalone() {
    assert_eq!(parse_percentage("10%").unwrap(), None);
    assert_eq!(parse_percentage("50 %").unwrap(), None);
    assert_eq!(parse_percentage("1 0 %").unwrap(), None);
    assert_eq!(parse_percentage("( 0 % )").unwrap(), Some(ResurrectionPercentage::Zero));
}

#[test]
fn white_space_inside_the_percentage_is_ignored() {
    assert_eq!(parse_percentage("1 0 0 %").unwrap(), Some(ResurrectionPercentage::Hundred));
}

#[test]
fn conflicting_error_quotes_the_whole_text() {
    match parse_percentage(" 0% / 100% ") {
        Err(AppError::ConflictingPercentage { text }) => assert_eq!(text, " 0% / 100% "),
        other => panic!("unexpected result: {other:?}"),
    }
}

#[test]
fn uppercase_nicknames_are_lowercased_before_the_check() {
    assert!(has_numbered_nickname("PLAYER_42"));
    assert!(has_numbered_nickname("Игрок_05 HP"));
    assert!(!has_numbered_nickname("PLAYER_4X"));
}

#[test]
fn suffix_at_the_very_end_counts() {
    assert!(has_numbered_nickname("_42"));
    assert!(!has_numbered_nickname("_4a"));
}

#[test]
fn header_check_accepts_what_the_plain_check_accepts() {
    for text in ["player_42", " OtherName _ 07 ", "x_00y"] {
        assert!(has_numbered_nickname(text));
        assert!(has_numbered_nickname_header(text));
    }
}

#[test]
fn checkable_texts_are_those_the_nickname_check_answers() {
    assert!(!nickname_is_checkable(""));
    assert!(!nickname_is_checkable("   "));
    assert!(!nickname_is_checkable("_"));
    assert!(!nickname_is_checkable("_4"));
    assert!(nickname_is_checkable("_a"));
    assert!(nickname_is_checkable("a"));
    assert!(nickname_is_checkable("_42"));
}

#[test]
fn checked_variants_answer_every_text() {
    assert_eq!(checked_numbered_nickname(""), None);
    assert_eq!(checked_numbered_nickname("_4"), None);
    assert_eq!(checked_numbered_nickname("player_42"), Some(true));
    assert_eq!(checked_numbered_nickname("player"), Some(false));
    assert_eq!(checked_numbered_nickname_header(" "), None);
    assert_eq!(checked_numbered_nickname_header("120 jd01 17"), Some(true));
}

fn chars(text: &str) -> Vec<char> {
    text.chars().collect()
}

#[test]
fn numbered_suffix_is_found_in_compact_characters() {
    assert!(has_numbered_suffix(&chars("player_42")));
    assert!(has_numbered_suffix(&chars("a_07b")));
    assert!(!has_numbered_suffix(&chars("player_123")));
    assert!(!has_numbered_suffix(&chars("player_4")));
    assert!(!has_numbered_suffix(&chars("player 42")));
    assert!(has_numbered_suffix(&chars("_42")));
}

#[test]
fn suffix_check_needs_more_than_the_start_of_a_suffix() {
    assert!(!suffix_is_checkable(&chars("")));
    assert!(!suffix_is_checkable(&chars("_")));
    assert!(!suffix_is_checkable(&chars("_4")));
    assert!(suffix_is_checkable(&chars("_a")));
    assert!(suffix_is_checkable(&chars("x")));
    assert!(suffix_is_checkable(&chars("_42")));
}

#[test]
fn two_digit_last_token_follows_the_given_classes() {
    let text = chars("ab 17.");
    let token = vec![true, true, false, true, true, false];
    let letters = vec![true, true, false, false, false, false];
    assert!(ends_with_two_digit_token(&text, &token, &letters));
    let one_letter = vec![true, false, false, false, false, false];
    assert!(!ends_with_two_digit_token(&text, &token, &one_letter));
    let joined = vec![true, true, true, true, true, false];
    assert!(!ends_with_two_digit_token(&text, &joined, &letters));
    let three_digits = chars("ab 170");
    assert!(!ends_with_two_digit_token(&three_digits, &vec![true, true, false, true, true, true], &letters));
    assert!(!ends_with_two_digit_token(&chars(""), &vec![], &vec![]));
}

#[test]
fn text_in_front_of_a_nickname_keeps_its_suffix() {
    assert!(has_numbered_nickname("player_42"));
    assert!(has_numbered_nickname("120 HP player_42"));
    assert!(has_numbered_nickname("x_1 player_42"));
}
