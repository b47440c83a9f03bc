use res_bot::config::{validate_range, Config};
use res_bot::error::{AppError, InvalidValue};

#[test]
fn built_in_configuration_is_valid() {
    assert!(Config::built_in().validate().is_ok());
}

#[test]
fn invalid_click_range_is_rejected() {
    let mut config = Config::built_in();
    config.click_min_duration_ms = 700;
    config.click_max_duration_ms = 300;

    assert!(config.validate().is_err());
}

#[test]
fn each_invalid_setting_is_named() {
    let mut config = Config::built_in();
    config.window_title_fragments = vec!["lineage".to_owned(), "  ".to_owned()];
    match config.validate() {
        Err(AppError::ConfigValue { field, value: InvalidValue::Fragments(v), .. }) => {
            assert_eq!(field, "window_title_fragments");
            assert_eq!(v.len(), 2);
        }
        other => panic!("unexpected result: {other:?}"),
    }

    let mut config = Config::built_in();
    config.window_title_fragments = Vec::new();
    assert!(matches!(config.validate(), Err(AppError::ConfigValue { field: "window_title_fragments", .. })));

    let mut config = Config::built_in();
    config.poll_interval_seconds = 0;
    assert_eq!(
        config.validate(),
        Err(AppError::ConfigValue {
            field: "poll_interval_seconds",
            value: InvalidValue::Number(0),
            reason: "must be greater than zero",
        })
    );

    let mut config = Config::built_in();
    config.pre_click_min_delay_ms = 0;
    assert_eq!(
        config.validate(),
        Err(AppError::ConfigValue {
            field: "pre_click_delay_ms",
            value: InvalidValue::Range(0, 480),
            reason: "minimum must be greater than zero and no greater than maximum",
        })
    );
}

#[test]
fn the_first_invalid_setting_is_reported() {
    let mut config = Config::built_in();
    config.poll_interval_seconds = 0;
    config.click_min_duration_ms = 0;
    assert!(matches!(config.validate(), Err(AppError::ConfigValue { field: "poll_interval_seconds", .. })));
}

#[test]
fn equal_range_bounds_are_accepted() {
    assert_eq!(validate_range("x", 5, 5), Ok(()));
    assert!(validate_range("x", 6, 5).is_err());
    assert!(validate_range("x", 0, 5).is_err());
}

#[test]
fn built_in_values_are_the_documented_ones() {
    let config = Config::built_in();
    assert_eq!(config.window_title_fragments, vec!["lineage".to_owned()]);
    assert_eq!(config.poll_interval_seconds, 10);
    assert_eq!((config.click_min_duration_ms, config.click_max_duration_ms), (280, 650));
    assert_eq!((config.pre_click_min_delay_ms, config.pre_click_max_delay_ms), (180, 480));
}
