use wharf::config::{ServerSettings, DEFAULT_CONFIG_FILE};
use wharf::error::AppError;
use wharf::startup::{
    check_listener_count, config_load_error_message, http_listener_mode, is_missing_config_error,
    startup_error_message, tls_failure_outcome, HttpMode,
};

#[test]
fn startup_config_error_is_human_readable() {
    let error = AppError::ConfigLoad {
        path: DEFAULT_CONFIG_FILE.to_string(),
        source: ::config::ConfigError::Message(
            "configuration file \"config/default\" not found".to_string(),
        )
        .to_string(),
    };
    let message = startup_error_message(&error);

    assert!(message.contains("配置文件加载失败"));
    assert!(message.contains("路径: config/default"));
    assert!(message.contains("cp config/default.toml.example config/default.toml"));
    assert!(message.contains("wharf --config /etc/wharf/config/default.toml"));
    assert!(!message.contains("TlsConfig"));
}

#[test]
fn config_error_messages() {
    let message = config_load_error_message("/etc/x.toml", "invalid type: expected u16");
    assert!(message.starts_with("配置文件加载失败\n\n路径: /etc/x.toml\n原因: invalid type: expected u16\n"));
    assert!(!message.contains("默认路径"));
    assert!(message.contains("请检查配置文件 TOML 格式"));
    assert!(is_missing_config_error("No such file or directory (os error 2)"));
    assert!(!is_missing_config_error("parse error"));
    let default = config_load_error_message("config/default", "x not found");
    assert!(default.contains("默认路径: config/default"));
}

#[test]
fn startup_error_variants() {
    assert_eq!(
        startup_error_message(&AppError::TlsConfig("bad".to_string())),
        "启动失败: 配置无效\n\n原因: bad\n\n可运行 `wharf -h` 查看启动选项。"
    );
    assert_eq!(
        startup_error_message(&AppError::Io("port".to_string())),
        "启动失败: I/O 错误\n\n原因: port\n\n请检查端口占用、文件权限或 systemd 服务权限。"
    );
    assert_eq!(
        startup_error_message(&AppError::Rustls("key".to_string())),
        "启动失败: TLS 配置无效\n\n原因: key\n\n请检查证书和私钥是否匹配。"
    );
    assert_eq!(
        startup_error_message(&AppError::UpstreamRequest("u".to_string())),
        "启动失败: 上游 Registry 请求失败\n\n原因: u"
    );
    assert_eq!(
        startup_error_message(&AppError::InvalidRequest("r".to_string())),
        "启动失败: 请求配置无效\n\n原因: r"
    );
}

#[test]
fn listener_decisions() {
    let mut server = ServerSettings {
        http_port: 80,
        https_port: 443,
        http_enabled: true,
        https_enabled: true,
        behind_proxy: false,
        public_base_url: None,
    };
    assert_eq!(http_listener_mode(&server), Some(HttpMode::Redirect));
    server.behind_proxy = true;
    assert_eq!(http_listener_mode(&server), Some(HttpMode::Full));
    assert!(tls_failure_outcome(&server).is_ok());
    server.http_enabled = false;
    assert_eq!(http_listener_mode(&server), None);
    match tls_failure_outcome(&server) {
        Err(AppError::TlsConfig(m)) => assert_eq!(m, "HTTPS配置加载失败且HTTP服务已禁用，无法启动服务器"),
        other => panic!("unexpected {:?}", other),
    }
    assert!(check_listener_count(1).is_ok());
    assert!(matches!(check_listener_count(0), Err(AppError::TlsConfig(_))));
}
