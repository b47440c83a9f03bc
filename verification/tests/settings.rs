use res_bot::config::Config;
use res_bot::error::{AppError, InvalidValue};
use res_bot::settings::{
    config_from_fields, field_texts, join_fragments, parse_u32, parse_u64, split_title_fragments,
};

#[test]
fn numeric_fields_require_integers() {
    assert_eq!(parse_u64("poll_interval_seconds", " 10 ").unwrap(), 10);
    assert_eq!(parse_u32("confirmation_frame_count", "3").unwrap(), 3);
    assert!(parse_u64("poll_interval_seconds", "1.5").is_err());
}

#[test]
fn numbers_follow_the_integer_syntax() {
    assert_eq!(parse_u64("f", "+7").unwrap(), 7);
    assert!(parse_u64("f", "+").is_err());
    assert!(parse_u64("f", "-1").is_err());
    assert!(parse_u64("f", "").is_err());
    assert!(parse_u64("f", "1 2").is_err());
    assert_eq!(parse_u64("f", "\u{a0}007\t").unwrap(), 7);
    assert_eq!(parse_u64("f", "18446744073709551615").unwrap(), u64::MAX);
    assert!(parse_u64("f", "18446744073709551616").is_err());
    assert_eq!(parse_u32("f", "4294967295").unwrap(), u32::MAX);
    assert!(parse_u32("f", "4294967296").is_err());
}

#[test]
fn a_bad_number_names_its_field_and_quotes_the_text() {
    assert_eq!(
        parse_u64("poll_interval_seconds", "1.5"),
        Err(AppError::ConfigValue {
            field: "poll_interval_seconds",
            value: InvalidValue::Text("1.5".to_owned()),
            reason: "must be a non-negative integer",
        })
    );
}

#[test]
fn title_fragments_are_split_trimmed_and_kept_when_not_empty() {
    assert_eq!(split_title_fragments(" lineage , , II ,"), vec!["lineage".to_owned(), "II".to_owned()]);
    assert!(split_title_fragments(" , ").is_empty());
    assert_eq!(split_title_fragments("a b"), vec!["a b".to_owned()]);
}

#[test]
fn fragments_are_shown_joined_by_commas() {
    assert_eq!(join_fragments(&vec!["lineage".to_owned(), "II".to_owned()]), "lineage, II");
    assert_eq!(join_fragments(&Vec::new()), "");
}

#[test]
fn the_form_reads_back_what_it_shows() {
    let config = Config::built_in();
    let values = field_texts(&config);
    assert_eq!(values, vec!["lineage", "10", "280", "650", "180", "480"]);
    assert_eq!(config_from_fields(&values).unwrap(), config);
}

#[test]
fn the_form_refuses_the_first_bad_field() {
    let values = ["lineage", "10", "x", "y", "180", "480"].map(str::to_owned).to_vec();
    assert!(matches!(
        config_from_fields(&values),
        Err(AppError::ConfigValue { field: "click_min_duration_ms", .. })
    ));
    let values = ["lineage", "10", "700", "300", "180", "480"].map(str::to_owned).to_vec();
    assert!(matches!(
        config_from_fields(&values),
        Err(AppError::ConfigValue { field: "click_duration_ms", .. })
    ));
    let values = [" , ", "10", "280", "650", "180", "480"].map(str::to_owned).to_vec();
    assert!(matches!(
        config_from_fields(&values),
        Err(AppError::ConfigValue { field: "window_title_fragments", .. })
    ));
}
