use vstd::prelude::*;

use crate::error::AppError;

verus! {

/// Where the assistant takes its images from.
#[derive(Clone, Copy, Debug, PartialEq, Eq, Structural)]
pub enum TargetMode {
    Lineage,
    Parsec,
}

/// What the user picked from the tray menu.
#[derive(Clone, Copy, Debug, PartialEq, Eq, Structural)]
pub enum TrayCommand {
    /// The menu was dismissed or an unknown item was picked.
    Nothing,
    SelectTargetMode(TargetMode),
    OpenSettings,
    OpenDiagnostics,
    StartSelfCheck,
    Exit,
}

pub const SETTINGS_MENU_ID: usize = 1;
pub const DIAGNOSTICS_MENU_ID: usize = 2;
pub const SELF_CHECK_MENU_ID: usize = 3;
pub const EXIT_MENU_ID: usize = 4;
pub const LINEAGE_MODE_MENU_ID: usize = 5;
pub const PARSEC_MODE_MENU_ID: usize = 6;

/// The command of a menu item identifier; anything else, such as 0 for a dismissed menu,
/// is no command.
pub open spec fn spec_menu_command(selected: usize) -> TrayCommand {
    if selected == LINEAGE_MODE_MENU_ID {
        TrayCommand::SelectTargetMode(TargetMode::Lineage)
    } else if selected == PARSEC_MODE_MENU_ID {
        TrayCommand::SelectTargetMode(TargetMode::Parsec)
    } else if selected == SETTINGS_MENU_ID {
        TrayCommand::OpenSettings
    } else if selected == DIAGNOSTICS_MENU_ID {
        TrayCommand::OpenDiagnostics
    } else if selected == SELF_CHECK_MENU_ID {
        TrayCommand::StartSelfCheck
    } else if selected == EXIT_MENU_ID {
        TrayCommand::Exit
    } else {
        TrayCommand::Nothing
    }
}

/// Turns the identifier the tray menu returned into a command.
pub fn menu_command(selected: usize) -> (c: TrayCommand)
    ensures
        c == spec_menu_command(selected),
{
    if selected == LINEAGE_MODE_MENU_ID {
        TrayCommand::SelectTargetMode(TargetMode::Lineage)
    } else if selected == PARSEC_MODE_MENU_ID {
        TrayCommand::SelectTargetMode(TargetMode::Parsec)
    } else if selected == SETTINGS_MENU_ID {
        TrayCommand::OpenSettings
    } else if selected == DIAGNOSTICS_MENU_ID {
        TrayCommand::OpenDiagnostics
    } else if selected == SELF_CHECK_MENU_ID {
        TrayCommand::StartSelfCheck
    } else if selected == EXIT_MENU_ID {
        TrayCommand::Exit
    } else {
        TrayCommand::Nothing
    }
}

/// Whether the mode's menu item carries a check mark: it is the current mode.
pub fn mode_checked(current: Option<TargetMode>, mode: TargetMode) -> (b: bool)
    ensures
        b == (current == Some(mode)),
{
    match current {
        Some(m) => m == mode,
        None => false,
    }
}

/// The mouse messages of the tray icon that open its menu: right button up
/// (`WM_RBUTTONUP`), context menu (`WM_CONTEXTMENU`) and left button up
/// (`WM_LBUTTONUP`).
pub fn opens_menu(event: u32) -> (b: bool)
    ensures
        b == (event == 0x0205 || event == 0x007B || event == 0x0202),
{
    event == 0x0205 || event == 0x007B || event == 0x0202
}

/// The low 16 bits of a message parameter, where a command's control identifier and a
/// new DPI are found.
pub fn low_word(parameter: usize) -> (w: usize)
    ensures
        w == parameter % 0x10000,
{
    let w = parameter & 0xffff;
    proof {
        assert(parameter & 0xffff == parameter % 0x10000) by (bit_vector);
    }
    w
}

/// The buttons of the diagnostic window.
#[derive(Clone, Copy, Debug, PartialEq, Eq, Structural)]
pub enum DiagnosticCommand {
    Clear,
    Copy,
}

/// The button of the diagnostic window that sent a command message, if any.
pub fn diagnostic_command(parameter: usize) -> (c: Option<DiagnosticCommand>)
    ensures
        c == (if parameter % 0x10000 == 1 {
            Some(DiagnosticCommand::Clear)
        } else if parameter % 0x10000 == 2 {
            Some(DiagnosticCommand::Copy)
        } else {
            None
        }),
{
    let id = low_word(parameter);
    if id == 1 {
        Some(DiagnosticCommand::Clear)
    } else if id == 2 {
        Some(DiagnosticCommand::Copy)
    } else {
        None
    }
}

/// The buttons of the settings window.
#[derive(Clone, Copy, Debug, PartialEq, Eq, Structural)]
pub enum SettingsCommand {
    Save,
    Apply,
    Cancel,
}

/// The button of the settings window that sent a command message, if any.
pub fn settings_command(parameter: usize) -> (c: Option<SettingsCommand>)
    ensures
        c == (if parameter % 0x10000 == 1 {
            Some(SettingsCommand::Save)
        } else if parameter % 0x10000 == 2 {
            Some(SettingsCommand::Apply)
        } else if parameter % 0x10000 == 3 {
            Some(SettingsCommand::Cancel)
        } else {
            None
        }),
{
    let id = low_word(parameter);
    if id == 1 {
        Some(SettingsCommand::Save)
    } else if id == 2 {
        Some(SettingsCommand::Apply)
    } else if id == 3 {
        Some(SettingsCommand::Cancel)
    } else {
        None
    }
}

/// A DPI change can be applied only with a DPI and a suggested window rectangle.
pub fn check_dpi_change(dpi: u32, suggested_rect: isize) -> (r: Result<(), AppError>)
    ensures
        (r is Ok) <==> (dpi != 0 && suggested_rect != 0),
        r matches Err(e) ==> e == (AppError::InvalidDpiChange { dpi, suggested_rect }),
{
    if dpi == 0 || suggested_rect == 0 {
        return Err(AppError::InvalidDpiChange { dpi, suggested_rect });
    }
    Ok(())
}

/// Keeps the first error of the tray thread: it is stored if none was, and any later
/// one is handed back to be logged instead.
pub fn record_error<E>(slot: &mut Option<E>, error: E) -> (extra: Option<E>)
    ensures
        *old(slot) is None ==> *final(slot) == Some(error) && extra is None,
        *old(slot) is Some ==> *final(slot) == *old(slot) && extra == Some(error),
{
    if slot.is_none() {
        *slot = Some(error);
        None
    } else {
        Some(error)
    }
}

} // verus!
