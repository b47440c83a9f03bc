use res_bot::error::AppError;
use res_bot::tray::{
    check_dpi_change, diagnostic_command, low_word, menu_command, mode_checked, opens_menu,
    record_error, settings_command, DiagnosticCommand, SettingsCommand, TargetMode, TrayCommand,
};

#[test]
fn menu_identifiers_map_to_commands() {
    assert_eq!(menu_command(0), TrayCommand::Nothing);
    assert_eq!(menu_command(1), TrayCommand::OpenSettings);
    assert_eq!(menu_command(2), TrayCommand::OpenDiagnostics);
    assert_eq!(menu_command(3), TrayCommand::StartSelfCheck);
    assert_eq!(menu_command(4), TrayCommand::Exit);
    assert_eq!(menu_command(5), TrayCommand::SelectTargetMode(TargetMode::Lineage));
    assert_eq!(menu_command(6), TrayCommand::SelectTargetMode(TargetMode::Parsec));
    assert_eq!(menu_command(7), TrayCommand::Nothing);
}

#[test]
fn only_the_current_mode_is_checked() {
    assert!(mode_checked(Some(TargetMode::Parsec), TargetMode::Parsec));
    assert!(!mode_checked(Some(TargetMode::Parsec), TargetMode::Lineage));
    assert!(!mode_checked(None, TargetMode::Lineage));
}

#[test]
fn clicks_on_the_tray_icon_open_the_menu() {
    assert!(opens_menu(0x0205));
    assert!(opens_menu(0x007B));
    assert!(opens_menu(0x0202));
    assert!(!opens_menu(0x0200));
}

#[test]
fn command_identifiers_come_from_the_low_word() {
    assert_eq!(low_word(0x0003_0002), 2);
    assert_eq!(diagnostic_command(0x0001_0001), Some(DiagnosticCommand::Clear));
    assert_eq!(diagnostic_command(2), Some(DiagnosticCommand::Copy));
    assert_eq!(diagnostic_command(3), None);
    assert_eq!(settings_command(0x0010_0003), Some(SettingsCommand::Cancel));
    assert_eq!(settings_command(1), Some(SettingsCommand::Save));
    assert_eq!(settings_command(2), Some(SettingsCommand::Apply));
    assert_eq!(settings_command(0), None);
}

#[test]
fn dpi_changes_need_a_dpi_and_a_rectangle() {
    assert_eq!(check_dpi_change(144, 0x1000), Ok(()));
    assert_eq!(check_dpi_change(0, 0x1000), Err(AppError::InvalidDpiChange { dpi: 0, suggested_rect: 0x1000 }));
    assert_eq!(check_dpi_change(144, 0), Err(AppError::InvalidDpiChange { dpi: 144, suggested_rect: 0 }));
}

#[test]
fn the_first_tray_error_is_kept() {
    let mut slot = None;
    let first = AppError::Win32 { operation: "first", code: 1 };
    let second = AppError::Win32 { operation: "second", code: 2 };
    assert_eq!(record_error(&mut slot, first.clone()), None);
    assert_eq!(record_error(&mut slot, second.clone()), Some(second));
    assert_eq!(slot, Some(first));
}
