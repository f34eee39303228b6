use hyprsession::cli::{parse_args, Mode};
use hyprsession::config::{AppConfig, AppEntry, Config};

fn argv(items: &[&str]) -> Vec<String> {
    items.iter().map(|s| s.to_string()).collect()
}

#[test]
fn test_default_mode_parsing() {
    let args = parse_args(&argv(&["hyprsession"])).unwrap();
    assert_eq!(args.mode.unwrap_or(Mode::Default), Mode::Default);
    assert_eq!(args.save_duplicate_pids, false);
    assert_eq!(args.save_interval.unwrap_or(60), 60);
    assert_eq!(args.simulate, false);
}

#[test]
fn test_mode_parsing() {
    let test_cases = vec![
        ("default", Mode::Default),
        ("save-only", Mode::SaveOnly),
        ("save-and-exit", Mode::SaveAndExit),
        ("load-and-exit", Mode::LoadAndExit),
    ];

    for (mode_str, expected_mode) in test_cases {
        let args = parse_args(&argv(&["hyprsession", "--mode", mode_str])).unwrap();
        assert_eq!(args.mode.unwrap(), expected_mode);
    }
}

#[test]
fn test_save_interval_parsing() {
    let args = parse_args(&argv(&["hyprsession", "--save-interval", "120"])).unwrap();
    assert_eq!(args.save_interval.unwrap(), 120);
}

#[test]
fn test_session_path_parsing() {
    let test_path = "/custom/session/path";
    let args = parse_args(&argv(&["hyprsession", "--session-path", test_path])).unwrap();
    assert_eq!(args.session_path.unwrap(), test_path);
}

#[test]
fn test_simulate_flag_parsing() {
    let args = parse_args(&argv(&["hyprsession", "--simulate"])).unwrap();
    assert_eq!(args.simulate, true);
}

#[test]
fn test_save_duplicate_pids_flag() {
    let args = parse_args(&argv(&["hyprsession", "--save-duplicate-pids"])).unwrap();
    assert_eq!(args.save_duplicate_pids, true);
}

#[test]
fn test_combined_arguments() {
    let args = parse_args(&argv(&[
        "hyprsession",
        "--mode",
        "save-only",
        "--save-interval",
        "30",
        "--session-path",
        "/tmp/test",
        "--simulate",
        "--save-duplicate-pids",
    ]))
    .unwrap();

    assert_eq!(args.mode.unwrap(), Mode::SaveOnly);
    assert_eq!(args.save_interval.unwrap(), 30);
    assert_eq!(args.session_path.unwrap(), "/tmp/test");
    assert_eq!(args.simulate, true);
    assert_eq!(args.save_duplicate_pids, true);
}

#[test]
fn test_short_flags() {
    let args = parse_args(&argv(&["hyprsession", "-m", "load-and-exit", "-i", "5", "-s", "/p"]))
        .unwrap();
    assert_eq!(args.mode.unwrap(), Mode::LoadAndExit);
    assert_eq!(args.save_interval.unwrap(), 5);
    assert_eq!(args.session_path.unwrap(), "/p");
}

#[test]
fn test_rejected_arguments() {
    assert!(parse_args(&argv(&["hyprsession", "--bogus"])).is_none());
    assert!(parse_args(&argv(&["hyprsession", "--mode"])).is_none());
    assert!(parse_args(&argv(&["hyprsession", "--mode", "sideways"])).is_none());
    assert!(parse_args(&argv(&["hyprsession", "--save-interval", "12x"])).is_none());
    assert!(parse_args(&argv(&["hyprsession", "--save-interval", "-3"])).is_none());
    assert!(parse_args(&argv(&["hyprsession", "--save-interval", "99999999999999999999"]))
        .is_none());
    assert!(parse_args(&argv(&[])).is_none());
}

#[test]
fn test_config_defaults() {
    let conf = Config::with_defaults("/home/user/.local/share/hyprsession".to_string());
    assert_eq!(conf.save_interval, 60);
    assert_eq!(conf.session_path, "/home/user/.local/share/hyprsession");
    assert!(conf.apps.is_empty());
}

#[test]
fn test_config_app_lookup() {
    let mut discord = AppConfig::default();
    discord.ignore_arguments = true;
    discord.single_instance = true;
    let conf = Config {
        save_interval: 100,
        session_path: "~/.local/share/hypr".to_string(),
        apps: vec![AppEntry { name: "discord".to_string(), config: discord }],
    };
    let found = conf.app_config("discord").unwrap();
    assert_eq!(found.ignore, false);
    assert_eq!(found.ignore_arguments, true);
    assert_eq!(found.single_instance, true);
    assert!(conf.app_config("firefox").is_none());
}
