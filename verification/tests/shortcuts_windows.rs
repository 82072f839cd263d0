use replay_rs::config::Env;
use replay_rs::paths::Platform;
use replay_rs::shortcuts_windows::{
    command_target, menu, wide, window_action, window_name, LoopAction, MenuItem, ShortcutState,
    Shortcuts, WindowAction, CONFIGURE, OPEN_FOLDER, QUIT, SAVE, TRAY, WM_APP, WM_CLOSE,
    WM_HOTKEY, WM_LBUTTONUP, WM_RBUTTONUP,
};
use windows_sys::Win32::UI::WindowsAndMessaging as win32;

#[test]
fn message_numbers_are_those_of_the_system() {
    assert_eq!(WM_APP, win32::WM_APP);
    assert_eq!(WM_CLOSE, win32::WM_CLOSE);
    assert_eq!(WM_HOTKEY, win32::WM_HOTKEY);
    assert_eq!(WM_LBUTTONUP, win32::WM_LBUTTONUP);
    assert_eq!(WM_RBUTTONUP, win32::WM_RBUTTONUP);
    assert_eq!([SAVE, QUIT, CONFIGURE, OPEN_FOLDER, TRAY], [32769, 32770, 32771, 32772, 32773]);
}

#[test]
fn wide_strings_are_utf16_with_a_zero() {
    for text in ["", "replay-rs — Ctrl+Alt+S", "Папка с клипами", "a😀b"] {
        let expected: Vec<u16> = text.encode_utf16().chain(Some(0)).collect();
        assert_eq!(wide(text), expected, "{text}");
    }
    assert_eq!(wide("😀"), vec![0xd83d, 0xde00, 0]);
}

#[test]
fn window_is_named_after_the_settings_directory() {
    let env = Env {
        platform: Platform::Windows,
        home: None,
        config_home: Some(r"C:\Roaming".to_string()),
        cache_home: None,
        runtime_dir: None,
        temp_dir: String::new(),
    };
    assert_eq!(window_name(&env), wide(r"replay-rs commands: C:\Roaming\replay-rs"));
}

#[test]
fn error_counts_before_the_key() {
    let mut state = ShortcutState::default();
    assert_eq!(state.summary(), "регистрируется…");
    state.hotkey_registered(true);
    assert_eq!(state.summary(), "Ctrl+Alt+S");
    assert!(state.registered);
    state.failed("нет окна");
    assert_eq!(state.summary(), "Windows: нет окна");
    let mut taken = ShortcutState::default();
    taken.hotkey_registered(false);
    assert_eq!(
        taken.clone().summary(),
        "Ctrl+Alt+S занят или недоступен; используйте кнопку сохранения"
    );
}

#[test]
fn messages_lead_to_actions() {
    let mut shortcuts = Shortcuts::new();
    assert_eq!(shortcuts.received(SAVE, 0), LoopAction::Save);
    assert_eq!(shortcuts.received(WM_HOTKEY, 0), LoopAction::Save);
    assert_eq!(shortcuts.received(CONFIGURE, 0), LoopAction::ShowHelp);
    assert_eq!(shortcuts.received(OPEN_FOLDER, 0), LoopAction::OpenFolder);
    assert_eq!(shortcuts.received(49_500, 49_500), LoopAction::RestoreIcon);
    assert_eq!(shortcuts.received(0, 0), LoopAction::Dispatch);
    assert_eq!(shortcuts.received(TRAY, 49_500), LoopAction::Dispatch);
    assert!(!shortcuts.should_quit());
    assert_eq!(shortcuts.received(QUIT, 0), LoopAction::NoteQuit);
    assert!(shortcuts.should_quit());
}

#[test]
fn without_a_window_nothing_is_posted() {
    let mut shortcuts = Shortcuts::new();
    assert!(!shortcuts.available());
    assert_eq!(shortcuts.open_settings(), None);
    assert_eq!(shortcuts.close(), None);
    shortcuts.window = 7;
    assert!(shortcuts.available());
    assert_eq!(shortcuts.open_settings(), Some(CONFIGURE));
    assert_eq!(shortcuts.close(), Some(WM_CLOSE));
    assert_eq!(shortcuts.state().summary(), "регистрируется…");
}

#[test]
fn menu_opens_on_either_button() {
    assert_eq!(window_action(TRAY, WM_RBUTTONUP), WindowAction::ShowMenu);
    assert_eq!(window_action(TRAY, WM_LBUTTONUP), WindowAction::ShowMenu);
    assert_eq!(window_action(TRAY, 0), WindowAction::Default);
    assert_eq!(window_action(WM_CLOSE, 0), WindowAction::EndLoop);
    assert_eq!(window_action(1, WM_RBUTTONUP), WindowAction::Default);
    let items = menu();
    assert!(matches!(items[0], MenuItem::Command(SAVE, "Сохранить реплей")));
    assert!(matches!(items[1], MenuItem::Command(OPEN_FOLDER, "Папка с клипами")));
    assert!(matches!(items[2], MenuItem::Separator));
    assert!(matches!(items[3], MenuItem::Command(QUIT, "Выход")));
}

#[test]
fn command_needs_a_running_recorder() {
    assert_eq!(command_target(true), Ok(()));
    assert_eq!(command_target(false), Err("replay-rs не запущен в этой сессии".to_string()));
}

#[test]
fn wide_string_has_its_only_zero_at_the_end() {
    let units = wide("replay-rs — 😀");
    assert_eq!(units.iter().position(|u| *u == 0), Some(units.len() - 1));
}
