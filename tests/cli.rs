use snd::cli::{
    config_command, parse, parse_config_text, render_config, setting_for, CliCommand,
    ConfigCommand, ConfigError, ConfigSetting,
};
use snd::files::{extension, fpre, get_file_type, type_label_for};
use snd::types::{Config, ShModes, TransferMode};

fn args(words: &[&str]) -> Vec<String> {
    words.iter().map(|w| w.to_string()).collect()
}

#[test]
fn command_line_flags() {
    assert_eq!(parse(&args(&["--help"])), CliCommand::Help);
    assert_eq!(parse(&args(&["-V"])), CliCommand::Version);
    assert_eq!(parse(&args(&["x", "-r", "-s"])), CliCommand::Receive);
    assert_eq!(parse(&args(&["--snd"])), CliCommand::Send);
    assert_eq!(parse(&args(&["a", "--config", "set"])), CliCommand::Config(2));
    assert_eq!(parse(&args(&["nothing"])), CliCommand::Unknown);
    assert_eq!(parse(&[]), CliCommand::Unknown);
}

#[test]
fn config_subcommands() {
    assert!(matches!(config_command(&[]), ConfigCommand::Show));
    assert!(matches!(config_command(&args(&["reset"])), ConfigCommand::Reset));
    assert!(matches!(
        config_command(&args(&["bogus"])),
        ConfigCommand::Invalid(ConfigError::InvalidCommand)
    ));
    assert!(matches!(
        config_command(&args(&["set", "send_method"])),
        ConfigCommand::Invalid(ConfigError::SetUsage)
    ));
    match config_command(&args(&["set", "SEND_METHOD", "Legacy"])) {
        ConfigCommand::Change { setting, key, value } => {
            assert_eq!(setting, ConfigSetting::SendMethod(TransferMode::Legacy));
            assert_eq!(key, "send_method");
            assert_eq!(value, "legacy");
        }
        _ => panic!("expected a change"),
    }
    assert!(matches!(
        config_command(&args(&["set", "send_method", "fast"])),
        ConfigCommand::Invalid(ConfigError::InvalidSendMethod)
    ));
    assert!(matches!(
        config_command(&args(&["set", "follow_symlinks", "maybe"])),
        ConfigCommand::Invalid(ConfigError::InvalidFollowSymlinks)
    ));
    assert!(matches!(
        config_command(&args(&["set", "colour", "red"])),
        ConfigCommand::Invalid(ConfigError::InvalidKey)
    ));
}

#[test]
fn setting_values() {
    assert_eq!(setting_for("send_method", "2"), Ok(ConfigSetting::SendMethod(TransferMode::SemiReliable)));
    assert_eq!(setting_for("follow_symlinks", "on"), Ok(ConfigSetting::FollowSymlinks(true)));
    assert_eq!(setting_for("follow_symlinks", "0"), Ok(ConfigSetting::FollowSymlinks(false)));
    let c = Config::default_config().with_setting(ConfigSetting::FollowSymlinks(true));
    assert_eq!(c, Config { send_method: TransferMode::SemiReliable, follow_symlinks: true });
}

#[test]
fn config_file_text() {
    let c = Config { send_method: TransferMode::Legacy, follow_symlinks: true };
    assert_eq!(render_config(c), "send_method = legacy\nfollow_symlinks = true");
    assert_eq!(parse_config_text(&render_config(c)), c);
    assert_eq!(parse_config_text(""), Config::default_config());
    assert_eq!(
        parse_config_text("send_method = legacy\r\nsend_method =  semi-reliable \nnoise"),
        Config { send_method: TransferMode::SemiReliable, follow_symlinks: false }
    );
    assert_eq!(
        parse_config_text("follow_symlinks = yes"),
        Config { send_method: TransferMode::SemiReliable, follow_symlinks: false }
    );
}

#[test]
fn file_types() {
    assert_eq!(get_file_type("main.rs", false), "Rust file");
    assert_eq!(get_file_type("notes.txt", false), "Text file");
    assert_eq!(get_file_type("archive.tar.gz", false), "file");
    assert_eq!(get_file_type("x.JPG", false), "file");
    assert_eq!(get_file_type("photo.jpg", false), "JPEG Image");
    assert_eq!(get_file_type(".bashrc", false), "file");
    assert_eq!(get_file_type("my.bashrc", false), "Shell init script");
    assert_eq!(get_file_type("Makefile", false), "file");
    assert_eq!(get_file_type("src", true), "directory");
    assert_eq!(type_label_for("cpp"), "C++ file");
    assert_eq!(type_label_for("cc"), "C++ file");
    assert_eq!(type_label_for("db"), "Database file");
    assert_eq!(extension("a.b.c"), Some("c".to_string()));
    assert_eq!(extension("a."), Some(String::new()));
    assert_eq!(extension(".."), None);
    assert_eq!(extension(".hidden"), None);
    assert_eq!(extension("plain"), None);
}

#[test]
fn mode_names() {
    assert_eq!(ShModes::REC.name(), "REC");
    assert_eq!(ShModes::SND.name(), "SND");
}

#[test]
fn archive_names() {
    assert_eq!(fpre("photos.tar.gz"), "photos");
    assert_eq!(fpre(".config.tar.gz"), ".config");
    assert_eq!(fpre("plain"), "plain");
    assert_eq!(fpre(".."), "..");
    assert_eq!(fpre(".hidden"), ".hidden");
    assert_eq!(fpre(""), "");
}
