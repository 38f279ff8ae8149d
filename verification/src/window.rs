//! The window policy of the program: what each window-system event and each
//! tray-menu entry asks for, whether a toggle shows or hides the window, and
//! when the start-up setting must be saved.
use vstd::prelude::*;

use crate::text::str_eq;

verus! {

/// The label of the search window.
pub const MAIN_WINDOW: &'static str = "main";

/// The identifier of the tray icon.
pub const TRAY_ID: &'static str = "doclinker-tray";

/// The tray-menu entry that shows or hides the search window.
pub const TRAY_MENU_TOGGLE_WINDOW: &'static str = "toggle_window";

/// The tray-menu entry that turns launching at start-up on or off.
pub const TRAY_MENU_LAUNCH_ON_STARTUP: &'static str = "launch_on_startup";

/// The tray-menu entry that quits the program.
pub const TRAY_MENU_QUIT: &'static str = "quit";

/// The window-system events that the policy tells apart.
pub enum ShellEvent {
    /// The program has started.
    Ready,
    /// The user asked to close the window with this label.
    CloseRequested { window: String },
    /// The window with this label lost the focus.
    FocusLost { window: String },
    Other,
}

/// What the program does to the search window.
#[derive(Debug, Clone, Copy, PartialEq, Eq, Structural)]
pub enum WindowAction {
    Hide,
    /// Keep the window open, but hide it.
    PreventCloseAndHide,
    Nothing,
}

/// The search window is hidden when the program starts, and instead of
/// closing or when it loses the focus; other windows are left alone.
pub open spec fn window_action_of(event: ShellEvent) -> WindowAction {
    match event {
        ShellEvent::Ready => WindowAction::Hide,
        ShellEvent::CloseRequested { window } => if window@ == MAIN_WINDOW@ {
            WindowAction::PreventCloseAndHide
        } else {
            WindowAction::Nothing
        },
        ShellEvent::FocusLost { window } => if window@ == MAIN_WINDOW@ {
            WindowAction::Hide
        } else {
            WindowAction::Nothing
        },
        ShellEvent::Other => WindowAction::Nothing,
    }
}

/// What a window-system event asks of the search window.
pub fn window_action(event: &ShellEvent) -> (a: WindowAction)
    ensures
        a == window_action_of(*event),
{
    match event {
        ShellEvent::Ready => WindowAction::Hide,
        ShellEvent::CloseRequested { window } => {
            if str_eq(window.as_str(), MAIN_WINDOW) {
                WindowAction::PreventCloseAndHide
            } else {
                WindowAction::Nothing
            }
        },
        ShellEvent::FocusLost { window } => {
            if str_eq(window.as_str(), MAIN_WINDOW) {
                WindowAction::Hide
            } else {
                WindowAction::Nothing
            }
        },
        ShellEvent::Other => WindowAction::Nothing,
    }
}

/// What a tray-menu entry asks for.
#[derive(Debug, Clone, Copy, PartialEq, Eq, Structural)]
pub enum TrayCommand {
    ToggleWindow,
    SetLaunchOnStartup,
    Quit,
    Ignore,
}

pub open spec fn tray_command_of(id: Seq<char>) -> TrayCommand {
    if id == TRAY_MENU_TOGGLE_WINDOW@ {
        TrayCommand::ToggleWindow
    } else if id == TRAY_MENU_LAUNCH_ON_STARTUP@ {
        TrayCommand::SetLaunchOnStartup
    } else if id == TRAY_MENU_QUIT@ {
        TrayCommand::Quit
    } else {
        TrayCommand::Ignore
    }
}

/// The command of the tray-menu entry with identifier `id`.
pub fn tray_command(id: &str) -> (c: TrayCommand)
    ensures
        c == tray_command_of(id@),
{
    if str_eq(id, TRAY_MENU_TOGGLE_WINDOW) {
        TrayCommand::ToggleWindow
    } else if str_eq(id, TRAY_MENU_LAUNCH_ON_STARTUP) {
        TrayCommand::SetLaunchOnStartup
    } else if str_eq(id, TRAY_MENU_QUIT) {
        TrayCommand::Quit
    } else {
        TrayCommand::Ignore
    }
}

/// Does toggling show the window, given whether it is visible (`None` where
/// that could not be read)? Only a window known to be visible is hidden.
pub fn toggle_shows(visible: Option<bool>) -> (show: bool)
    ensures
        show == (visible != Some(true)),
{
    match visible {
        Some(true) => false,
        _ => true,
    }
}

/// Does a click on the tray icon toggle the window? Only the release of the
/// left button does.
pub fn tray_click_toggles(left_button: bool, released: bool) -> (t: bool)
    ensures
        t == (left_button && released),
{
    left_button && released
}

/// The start-up setting to save in the configuration, given the saved one
/// and the one in effect: the one in effect, where they differ; none where
/// they agree.
pub fn launch_setting_to_save(saved: bool, in_effect: bool) -> (r: Option<bool>)
    ensures
        saved == in_effect ==> r is None,
        saved != in_effect ==> r == Some(in_effect),
{
    if saved == in_effect {
        None
    } else {
        Some(in_effect)
    }
}

} // verus!
