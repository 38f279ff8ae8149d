use doclinker::window::{
    launch_setting_to_save, toggle_shows, tray_click_toggles, tray_command, window_action,
    ShellEvent, TrayCommand, WindowAction, MAIN_WINDOW, TRAY_MENU_LAUNCH_ON_STARTUP,
    TRAY_MENU_QUIT, TRAY_MENU_TOGGLE_WINDOW,
};

#[test]
fn window_events_of_the_search_window() {
    assert_eq!(window_action(&ShellEvent::Ready), WindowAction::Hide);
    let close = ShellEvent::CloseRequested { window: MAIN_WINDOW.to_string() };
    assert_eq!(window_action(&close), WindowAction::PreventCloseAndHide);
    let blur = ShellEvent::FocusLost { window: "main".to_string() };
    assert_eq!(window_action(&blur), WindowAction::Hide);
    assert_eq!(window_action(&ShellEvent::Other), WindowAction::Nothing);
}

#[test]
fn window_events_of_other_windows_are_ignored() {
    let close = ShellEvent::CloseRequested { window: "settings".to_string() };
    assert_eq!(window_action(&close), WindowAction::Nothing);
    let blur = ShellEvent::FocusLost { window: "Main".to_string() };
    assert_eq!(window_action(&blur), WindowAction::Nothing);
}

#[test]
fn tray_menu_entries() {
    assert_eq!(tray_command(TRAY_MENU_TOGGLE_WINDOW), TrayCommand::ToggleWindow);
    assert_eq!(tray_command("launch_on_startup"), TrayCommand::SetLaunchOnStartup);
    assert_eq!(tray_command(TRAY_MENU_LAUNCH_ON_STARTUP), TrayCommand::SetLaunchOnStartup);
    assert_eq!(tray_command(TRAY_MENU_QUIT), TrayCommand::Quit);
    assert_eq!(tray_command("Quit"), TrayCommand::Ignore);
    assert_eq!(tray_command(""), TrayCommand::Ignore);
}

#[test]
fn toggling_and_clicks() {
    assert!(!toggle_shows(Some(true)));
    assert!(toggle_shows(Some(false)));
    assert!(toggle_shows(None));
    assert!(tray_click_toggles(true, true));
    assert!(!tray_click_toggles(true, false));
    assert!(!tray_click_toggles(false, true));
}

#[test]
fn start_up_setting_is_saved_only_when_it_changed() {
    assert_eq!(launch_setting_to_save(false, false), None);
    assert_eq!(launch_setting_to_save(true, true), None);
    assert_eq!(launch_setting_to_save(false, true), Some(true));
    assert_eq!(launch_setting_to_save(true, false), Some(false));
}
