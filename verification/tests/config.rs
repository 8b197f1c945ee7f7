use morning::arguments::{select_action, Action};
use morning::command::edit_command;
use morning::configuration::{is_script_portable, path_join, Configuration, ConfigurationContent};
use morning::reminder::edit_reminder;

#[test]
fn portable_unless_installed() {
    assert!(!is_script_portable(Some(&"/usr/bin".to_string())));
    assert!(is_script_portable(Some(&"/home/someone/bin".to_string())));
    assert!(is_script_portable(None));
}

#[test]
fn path_join_appends_relative_paths() {
    assert_eq!(path_join("/opt/app", "history.json"), "/opt/app/history.json");
    assert_eq!(path_join("/opt/app", "/etc/other"), "/etc/other");
}

#[test]
fn generated_portable_config_sits_beside_the_executable() {
    let c = Configuration::generate_config(
        true,
        &"/opt/app".to_string(),
        &"/home/u".to_string(),
    );
    assert_eq!(c.command_file, "/opt/app/command");
    assert_eq!(c.reminder_file, "/opt/app/reminder.txt");
    assert_eq!(c.history_file, "/opt/app/history.json");
    assert_eq!(c.history_length, 15);
}

#[test]
fn generated_installed_config_hangs_off_the_home_directory() {
    let c = Configuration::generate_config(
        false,
        &"/usr/bin".to_string(),
        &"/home/u".to_string(),
    );
    assert_eq!(c.command_file, "/home/u/~/.morning/command");
    assert_eq!(c.reminder_file, "/home/u/~/.morning/reminder.txt");
    assert_eq!(c.history_file, "/home/u/~/.morning/history.json");
    assert_eq!(c.history_length, 15);
}

#[test]
fn new_configuration_without_stored_content_generates_and_marks_change() {
    let c = Configuration::new(
        "/opt/app".to_string(),
        "/tmp".to_string(),
        "/home/u".to_string(),
        None,
    );
    assert!(c.portable);
    assert!(c.config_change);
    assert_eq!(c.config_file, "/opt/app/morning.conf");
    assert_eq!(c.history_path(), "/opt/app/history.json");
    assert_eq!(c.history_length(), 15);
    assert!(c.is_portable());
}

#[test]
fn new_configuration_with_stored_content_keeps_it() {
    let stored = ConfigurationContent {
        command_file: "/data/cmd".to_string(),
        reminder_file: "/data/rem.txt".to_string(),
        history_file: "/data/hist.json".to_string(),
        history_length: 30,
    };
    let c = Configuration::new(
        "/usr/bin".to_string(),
        "/tmp".to_string(),
        "/home/u".to_string(),
        Some(stored),
    );
    assert!(!c.portable);
    assert!(!c.config_change);
    assert_eq!(c.config_file, "~/.config/morning.conf");
    assert_eq!(c.command_file(), "/data/cmd");
    assert_eq!(c.reminder_file(), "/data/rem.txt");
    assert_eq!(c.history_path(), "/data/hist.json");
    assert_eq!(c.history_length(), 30);
}

#[test]
fn the_edit_targets_are_the_configured_files() {
    let c = Configuration::new(
        "/opt/app".to_string(),
        "/tmp".to_string(),
        "/home/u".to_string(),
        None,
    );
    assert_eq!(edit_command(&c), "/opt/app/command");
    assert_eq!(edit_reminder(&c), "/opt/app/reminder.txt");
}

#[test]
fn flag_decisions() {
    let none: Option<i64> = None;
    assert_eq!(
        select_action(true, false, none, false, none, false, false, false),
        Action::Help
    );
    assert_eq!(
        select_action(false, false, none, false, none, false, false, false),
        Action::Morning
    );
    assert_eq!(
        select_action(false, true, Some(3), false, none, false, false, false),
        Action::Message(3)
    );
    assert_eq!(
        select_action(false, true, none, false, none, false, false, false),
        Action::Message(1)
    );
    assert_eq!(
        select_action(false, false, none, true, Some(2), false, false, false),
        Action::Past(2)
    );
    assert_eq!(
        select_action(false, false, none, true, none, false, false, false),
        Action::Past(1)
    );
    assert_eq!(
        select_action(false, false, none, false, none, true, false, false),
        Action::Reminder
    );
    assert_eq!(
        select_action(false, false, none, false, none, false, true, false),
        Action::Command
    );
}

#[test]
fn clashing_flags_fall_back_to_help() {
    let none: Option<i64> = None;
    assert_eq!(
        select_action(false, true, Some(1), true, Some(1), false, false, false),
        Action::Help
    );
    assert_eq!(
        select_action(false, false, none, false, none, true, true, false),
        Action::Help
    );
}

#[test]
fn stray_arguments_fall_back_to_help() {
    let none: Option<i64> = None;
    assert_eq!(
        select_action(false, true, Some(3), false, none, false, false, true),
        Action::Help
    );
    assert_eq!(
        select_action(false, false, none, false, none, false, false, true),
        Action::Help
    );
}
