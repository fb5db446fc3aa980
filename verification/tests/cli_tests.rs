use wharf::cli::{help_text, parse_cli_args, parse_non_empty_option_value, resolve_config_path, CliAction, CliOptions};

fn args(list: &[&str]) -> Vec<String> {
    list.iter().map(|a| a.to_string()).collect()
}

#[test]
fn cli_without_args_runs_server() {
    assert_eq!(
        parse_cli_args(args(&[])).unwrap(),
        CliAction::Run(CliOptions::default())
    );
}

#[test]
fn cli_help_flags_short_circuit_startup() {
    assert!(matches!(
        parse_cli_args(args(&["-h"])).unwrap(),
        CliAction::PrintHelp
    ));
    assert!(matches!(
        parse_cli_args(args(&["--help", "-V"])).unwrap(),
        CliAction::PrintHelp
    ));
}

#[test]
fn cli_version_flags_short_circuit_startup() {
    assert!(matches!(
        parse_cli_args(args(&["-V"])).unwrap(),
        CliAction::PrintVersion
    ));
    assert!(matches!(
        parse_cli_args(args(&["--version"])).unwrap(),
        CliAction::PrintVersion
    ));
}

#[test]
fn cli_rejects_unknown_args() {
    assert_eq!(
        parse_cli_args(args(&["--missing"])).unwrap_err(),
        "未知选项 '--missing'"
    );
}

#[test]
fn cli_parses_config_path() {
    assert_eq!(
        parse_cli_args(args(&["--config", "/etc/wharf/config/default.toml"])).unwrap(),
        CliAction::Run(CliOptions {
            config_path: Some("/etc/wharf/config/default.toml".to_string()),
            log_filter: None,
        })
    );
    assert_eq!(
        parse_cli_args(args(&["-c=/etc/wharf/config/default.toml"])).unwrap(),
        CliAction::Run(CliOptions {
            config_path: Some("/etc/wharf/config/default.toml".to_string()),
            log_filter: None,
        })
    );
    assert_eq!(
        parse_cli_args(args(&["--config=/etc/wharf/config/default"])).unwrap(),
        CliAction::Run(CliOptions {
            config_path: Some("/etc/wharf/config/default".to_string()),
            log_filter: None,
        })
    );
}

#[test]
fn cli_parses_log_filter() {
    assert_eq!(
        parse_cli_args(args(&["--log-level", "debug"])).unwrap(),
        CliAction::Run(CliOptions {
            config_path: None,
            log_filter: Some("debug".to_string()),
        })
    );
    assert_eq!(
        parse_cli_args(args(&["--log-level=wharf=debug,actix_web=info"])).unwrap(),
        CliAction::Run(CliOptions {
            config_path: None,
            log_filter: Some("wharf=debug,actix_web=info".to_string()),
        })
    );
}

#[test]
fn cli_rejects_missing_option_values() {
    assert_eq!(
        parse_cli_args(args(&["--config"])).unwrap_err(),
        "选项 '--config' 需要一个配置文件路径"
    );
    assert_eq!(
        parse_cli_args(args(&["--config", "--log-level"])).unwrap_err(),
        "选项 '--config' 需要一个配置文件路径"
    );
    assert_eq!(
        parse_cli_args(args(&["--log-level="])).unwrap_err(),
        "选项 '--log-level' 的值不能为空"
    );
}

#[test]
fn cli_help_text_is_chinese() {
    let help = help_text("wharf", "0.1.0");
    assert!(help.contains("用法:"));
    assert!(help.contains("优先级:"));
    assert!(help.contains("兼容说明:"));
}

#[test]
fn cli_later_options_win_and_values_are_trimmed() {
    assert_eq!(
        parse_cli_args(args(&["-c", " a.toml ", "--config=b", "--log-level", "info", "--log-level=warn"])).unwrap(),
        CliAction::Run(CliOptions {
            config_path: Some("b".to_string()),
            log_filter: Some("warn".to_string()),
        })
    );
    assert_eq!(
        parse_cli_args(args(&["--config=--config=x"])).unwrap(),
        CliAction::Run(CliOptions { config_path: Some("x".to_string()), log_filter: None })
    );
    assert_eq!(parse_cli_args(args(&["--log-level"])).unwrap_err(), "选项 '--log-level' 需要一个日志级别或过滤器");
    assert_eq!(parse_cli_args(args(&["-c", " "])).unwrap_err(), "选项 '-c' 的值不能为空");
    assert_eq!(parse_cli_args(args(&["--unknown", "-h"])).unwrap(), CliAction::PrintHelp);
    assert_eq!(parse_cli_args(args(&["-V", "--bogus"])).unwrap(), CliAction::PrintVersion);
    assert_eq!(parse_non_empty_option_value("-c", " x ".to_string()).unwrap(), "x");
}

#[test]
fn config_path_priority() {
    assert_eq!(resolve_config_path(Some("cli".to_string()), Some("env".to_string())), "cli");
    assert_eq!(resolve_config_path(None, Some(" env ".to_string())), "env");
    assert_eq!(resolve_config_path(None, Some("  ".to_string())), "config/default");
    assert_eq!(resolve_config_path(None, None), "config/default");
    let help = help_text("wharf", "1.2.3");
    assert!(help.starts_with("wharf 1.2.3\n\nDocker Registry"));
    assert!(help.contains("\n  wharf [选项]\n"));
}
