use btrbk_tui::config::{Config, ConfigLocation};
use btrbk_tui::keys::{
    ERR, KEY_BACKSPACE, KEY_BS, KEY_CR, KEY_DEL, KEY_DOWN, KEY_END, KEY_ENTER, KEY_ESC, KEY_HOME,
    KEY_LEFT, KEY_LF, KEY_RIGHT, KEY_SPACE, KEY_UP,
};
use btrbk_tui::session::{
    App, LineEditor, MainAction, PathSetting, Route, Screen, SettingsAction, Switch, STATUS_LONG,
    STATUS_MEDIUM, STATUS_SHORT,
};
use btrbk_tui::snapshots::SnapshotGroups;

fn app() -> App {
    App::new(
        ConfigLocation { path: b"/new".to_vec(), read_from: Some(b"/old".to_vec()) },
        Some((1000, 100)),
    )
}

fn groups() -> SnapshotGroups {
    let names = |prefix: &str, n: usize| {
        (0..n).rev().map(|i| format!("{}.2026080{}", prefix, i + 1)).collect::<Vec<String>>()
    };
    vec![("@".to_string(), names("@", 5)), ("@home".to_string(), names("@home", 2))]
}

fn shown(app: &App) -> (&str, u64) {
    match &app.status {
        Some(status) => (status.message.as_str(), status.lasting),
        None => ("", 0),
    }
}

#[test]
fn the_selection_moves_inside_the_lists() {
    let groups = groups();
    let mut a = app();
    let press = |a: &mut App, key: i32| {
        assert_eq!(a.handle_main_input(&groups, key, 0), MainAction::Nothing);
        (a.selected_col, a.selected_row)
    };
    assert_eq!(press(&mut a, KEY_UP), (0, 0));
    assert_eq!(press(&mut a, KEY_LEFT), (0, 0));
    assert_eq!(press(&mut a, KEY_DOWN), (0, 1));
    assert_eq!(press(&mut a, KEY_END), (0, 4));
    assert_eq!(press(&mut a, KEY_DOWN), (0, 4));
    // a shorter list: the cursor stays on it
    assert_eq!(press(&mut a, KEY_RIGHT), (1, 1));
    assert_eq!(press(&mut a, KEY_RIGHT), (1, 1));
    assert_eq!(press(&mut a, KEY_HOME), (1, 0));
    // a list that has become shorter
    a.selected_col = 9;
    a.selected_row = 9;
    assert_eq!(press(&mut a, ERR), (1, 1));
}

#[test]
fn keys_work_without_snapshots() {
    let none = vec![];
    let mut a = app();
    for key in [KEY_UP, KEY_DOWN, KEY_LEFT, KEY_RIGHT, KEY_HOME, KEY_END] {
        a.handle_main_input(&none, key, 0);
        assert_eq!((a.selected_col, a.selected_row), (0, 0));
    }
    assert_eq!(a.handle_main_input(&none, 'i' as i32, 0), MainAction::CreateSnapshot);
    assert_eq!(a.handle_main_input(&none, 's' as i32, 0), MainAction::Nothing);
    assert_eq!(a.screen, Screen::Settings);
}

#[test]
fn keys_of_the_main_screen() {
    let groups = groups();
    let mut a = app();
    for key in [KEY_LF, KEY_CR, KEY_ENTER] {
        assert_eq!(a.handle_main_input(&groups, key, 0), MainAction::Restore);
    }
    for (key, action) in [
        ('h', MainAction::Reboot),
        ('P', MainAction::Purge),
        ('b', MainAction::CleanBroken),
        ('I', MainAction::CreateSnapshot),
        ('x', MainAction::Nothing),
    ] {
        assert_eq!(a.handle_main_input(&groups, key as i32, 0), action);
    }
    a.store_snapshots(groups.clone());
    a.handle_main_input(&groups, 'R' as i32, 7);
    assert!(a.snapshots_cached().is_none());
    assert_eq!(shown(&a), ("Snapshots refreshed", STATUS_SHORT));
}

#[test]
fn keys_are_routed_to_the_screen() {
    let mut a = app();
    assert_eq!(a.route(ERR), Route::Nowhere);
    assert_eq!(a.route('Q' as i32), Route::Quit);
    assert_eq!(a.route(KEY_UP), Route::Main);
    a.screen = Screen::Settings;
    assert_eq!(a.route('q' as i32), Route::Quit);
    assert_eq!(a.route('s' as i32), Route::Settings);
}

#[test]
fn messages_are_shown_for_a_while() {
    let mut a = app();
    a.set_status("hello", STATUS_SHORT, 1_000);
    a.expire_status(1_000 + STATUS_SHORT - 1);
    assert_eq!(shown(&a), ("hello", STATUS_SHORT));
    a.expire_status(1_000 + STATUS_SHORT);
    assert_eq!(shown(&a), ("", 0));
    // a message from the future is not lost
    a.set_status("later", STATUS_SHORT, u64::MAX);
    a.expire_status(0);
    assert_eq!(shown(&a), ("later", STATUS_SHORT));
}

#[test]
fn the_config_is_read_from_the_old_place_until_it_is_saved() {
    let mut a = app();
    assert_eq!(a.config, Config::default());
    assert_eq!(a.config_owner, Some((1000, 100)));
    assert_eq!(a.config_source(), b"/old");
    a.load_config(None);
    assert_eq!(a.config, Config::default());
    let mut saved = Config::default();
    saved.theme = "dark".to_string();
    a.load_config(Some(saved));
    assert_eq!(a.config.theme, "dark");
    a.config_written(false);
    assert_eq!(a.config_source(), b"/old");
    a.config_written(true);
    assert_eq!(a.config_source(), b"/new");
}

#[test]
fn snapshots_are_cached_until_they_are_stale() {
    let mut a = app();
    assert!(a.snapshots_cached().is_none());
    assert_eq!(*a.store_snapshots(groups()), groups());
    assert_eq!(*a.snapshots_cached().unwrap(), groups());
    a.invalidate_snapshots();
    assert!(a.snapshots_cached().is_none());
}

#[test]
fn settings_are_navigated() {
    let mut a = app();
    a.screen = Screen::Settings;
    for row in [1, 2, 3, 4, 4] {
        assert_eq!(a.handle_settings_input(KEY_DOWN), SettingsAction::Nothing);
        assert_eq!(a.selected_row, row);
    }
    a.handle_settings_input(KEY_UP);
    assert_eq!(a.selected_row, 3);
    assert_eq!(a.handle_settings_input(KEY_SPACE), SettingsAction::Toggle);
    assert_eq!(a.handle_settings_input('S' as i32), SettingsAction::Save);
    assert_eq!(a.handle_settings_input('x' as i32), SettingsAction::Nothing);
    a.handle_settings_input(KEY_ESC);
    assert_eq!((a.screen, a.selected_row), (Screen::Main, 0));
    assert_eq!(shown(&a), ("", 0));
    a.handle_settings_input(KEY_UP);
    assert_eq!(a.selected_row, 0);
}

#[test]
fn enter_edits_paths_and_turns_switches() {
    for (row, action) in [
        (0, SettingsAction::Edit),
        (1, SettingsAction::Edit),
        (2, SettingsAction::Toggle),
        (3, SettingsAction::Toggle),
        (4, SettingsAction::Toggle),
    ] {
        let mut a = app();
        a.screen = Screen::Settings;
        a.selected_row = row;
        for key in [KEY_ENTER, '\n' as i32, '\r' as i32] {
            assert_eq!(a.handle_settings_input(key), action);
        }
        assert_eq!(a.edited_setting().is_some(), action == SettingsAction::Edit);
        assert_eq!(a.selected_row, row);
        assert_eq!(a.handle_settings_input(KEY_SPACE), SettingsAction::Toggle);
    }
}

#[test]
fn switches_are_toggled_and_reported() {
    for (row, switch, name, turned) in [
        (2, Switch::AutoCleanup, "Auto cleanup", "Yes"),
        (3, Switch::ConfirmActions, "Confirm actions", "No"),
        (4, Switch::ShowTimestamps, "Show timestamps", "No"),
    ] {
        let mut a = app();
        a.selected_row = row;
        assert_eq!(a.edited_setting(), None);
        assert_eq!(a.toggle_setting(), Some(switch));
        a.switch_saved(switch, true, 0);
        assert_eq!(shown(&a), (format!("{}: {}", name, turned).as_str(), STATUS_MEDIUM));
        a.switch_saved(switch, false, 0);
        assert_eq!(
            shown(&a),
            (format!("{}: {} (could NOT save the config file)", name, turned).as_str(), STATUS_LONG)
        );
        // turning it again undoes it
        a.toggle_setting();
        assert_eq!(a.config, Config::default());
    }
    let mut a = app();
    assert_eq!(a.toggle_setting(), None);
    a.settings_saved(true, 0);
    assert_eq!(shown(&a), ("Configuration saved", STATUS_MEDIUM));
    a.settings_saved(false, 0);
    assert_eq!(shown(&a), ("Error: failed to save configuration", STATUS_LONG));
}

fn chars(text: &str) -> Vec<char> {
    text.chars().collect()
}

#[test]
fn paths_are_edited() {
    let mut a = app();
    assert_eq!(a.edited_setting(), Some(PathSetting::BtrPoolDir));
    assert_eq!(a.setting_value(PathSetting::BtrPoolDir), "/mnt/btr_pool");
    a.store_snapshots(groups());
    assert_eq!(a.finish_edit(PathSetting::BtrPoolDir, false, &chars("/x"), 0), None);
    assert_eq!(shown(&a), ("Edit cancelled", STATUS_SHORT));
    assert_eq!(a.finish_edit(PathSetting::BtrPoolDir, true, &chars("  "), 0), None);
    assert!(a.snapshots_cached().is_some());
    assert_eq!(
        a.finish_edit(PathSetting::BtrPoolDir, true, &chars(" /pool "), 0),
        Some("/pool".to_string())
    );
    assert_eq!(a.config.btr_pool_dir, "/pool");
    assert!(a.snapshots_cached().is_none());
    a.path_saved(PathSetting::BtrPoolDir, true, true, 0);
    assert_eq!(shown(&a), ("Updated btr_pool_dir", STATUS_MEDIUM));
    a.path_saved(PathSetting::BtrPoolDir, true, false, 0);
    assert_eq!(shown(&a), ("Updated btr_pool_dir (WARNING: path does not exist)", STATUS_LONG));

    a.selected_row = 1;
    assert_eq!(a.edited_setting(), Some(PathSetting::SnapshotsDir));
    a.finish_edit(PathSetting::SnapshotsDir, true, &chars("/snap"), 0);
    assert_eq!(a.setting_value(PathSetting::SnapshotsDir), "/snap");
    a.path_saved(PathSetting::SnapshotsDir, false, true, 0);
    assert_eq!(
        shown(&a),
        ("Updated snapshots_dir but could NOT save the config file", STATUS_LONG)
    );
}

#[test]
fn a_line_is_entered_key_by_key() {
    let mut editor = LineEditor::new();
    for key in ['/' as i32, 'a' as i32, 'b' as i32, KEY_UP, 200, 31] {
        assert_eq!(editor.press(key), None);
    }
    assert_eq!(editor.input, ['/', 'a', 'b']);
    for key in [KEY_BACKSPACE, KEY_DEL, KEY_BS, KEY_BS] {
        assert_eq!(editor.press(key), None);
    }
    assert!(editor.input.is_empty());
    editor.press('~' as i32);
    editor.press(KEY_SPACE);
    assert_eq!(editor.input, ['~', ' ']);
    assert_eq!(editor.press(KEY_LF), Some(true));
    assert_eq!(editor.press(KEY_CR), Some(true));
    assert_eq!(editor.press(KEY_ENTER), Some(true));
    assert_eq!(editor.press(KEY_ESC), Some(false));
}
