use res_bot::layout::{diagnostic_layout, scale_dimension, settings_layout, settings_minimum_size, Placement};

#[test]
fn dimensions_scale_for_monitor_dpi() {
    assert_eq!(scale_dimension(12, 96), 12);
    assert_eq!(scale_dimension(12, 144), 18);
    assert_eq!(scale_dimension(30, 192), 60);
}

#[test]
fn scaling_rounds_halves_up_and_truncates_negatives_towards_zero() {
    assert_eq!(scale_dimension(1, 48), 1);
    assert_eq!(scale_dimension(1, 47), 0);
    assert_eq!(scale_dimension(-1, 96), 0);
    assert_eq!(scale_dimension(-3, 96), -2);
    assert_eq!(scale_dimension(7, 0), 0);
}

#[test]
fn diagnostic_buttons_sit_side_by_side_below_the_log() {
    let layout = diagnostic_layout(780, 480, 96);
    assert_eq!(layout.edit, Placement { x: 12, y: 12, width: 756, height: 414 });
    assert_eq!(layout.copy_button, Placement { x: 642, y: 438, width: 126, height: 30 });
    assert_eq!(layout.clear_button, Placement { x: 504, y: 438, width: 126, height: 30 });
    assert!(layout.clear_button.x + layout.clear_button.width < layout.copy_button.x);
}

#[test]
fn a_tiny_diagnostic_window_is_laid_out_at_its_minimum() {
    let layout = diagnostic_layout(10, 10, 96);
    assert_eq!(layout.clear_button.x, 0);
    assert_eq!(layout.edit.height, 40);
}

#[test]
fn settings_rows_stack_and_buttons_line_up() {
    let layout = settings_layout(720, 610, 96, 6);
    assert_eq!(layout.labels.len(), 6);
    assert_eq!(layout.labels[0], Placement { x: 16, y: 22, width: 310, height: 30 });
    assert_eq!(layout.edits[1], Placement { x: 326, y: 52, width: 378, height: 30 });
    assert_eq!(layout.checkbox, Placement { x: 16, y: 232, width: 688, height: 36 });
    assert_eq!(layout.cancel_button, Placement { x: 574, y: 562, width: 130, height: 32 });
    assert_eq!(layout.apply_button, Placement { x: 428, y: 562, width: 130, height: 32 });
    assert_eq!(layout.save_button, Placement { x: 282, y: 562, width: 130, height: 32 });
}

#[test]
fn narrow_settings_windows_keep_controls_at_least_one_pixel_wide() {
    let layout = settings_layout(100, 50, 96, 1);
    assert_eq!(layout.edits[0].width, 1);
}

#[test]
fn settings_minimum_size_follows_dpi() {
    assert_eq!(settings_minimum_size(96), (720, 610));
    assert_eq!(settings_minimum_size(192), (1440, 1220));
}
