//! Startup decisions and the messages shown when startup fails.
use vstd::prelude::*;
use crate::config::{DEFAULT_CONFIG_FILE, ServerSettings};
use crate::error::{AppError, AppErrorView};
use crate::text::{
    chars_of, concat2, contains_sub, contains_sub_exec, push_str_chars, str_eq, string_of,
};

verus! {

/// Whether a loader message says that the file does not exist.
pub open spec fn is_missing_config(message: Seq<char>) -> bool {
    contains_sub(message, "not found"@) || contains_sub(message, "No such file or directory"@)
}

pub fn is_missing_config_error(message: &str) -> (r: bool)
    ensures
        r == is_missing_config(message@),
{
    let m = chars_of(message);
    let a = chars_of("not found");
    let b = chars_of("No such file or directory");
    contains_sub_exec(&m, &a) || contains_sub_exec(&m, &b)
}

/// The explanation shown when the configuration file cannot be loaded: the
/// path and the loader's message, a note on the default path when it was the
/// one tried, then either how to create or name a file (when the file is
/// missing) or what to check in it.
pub open spec fn config_load_message(path: Seq<char>, source: Seq<char>) -> Seq<char> {
    "配置文件加载失败\n\n路径: "@ + path + "\n原因: "@ + source + "\n"@ + (if path
        == DEFAULT_CONFIG_FILE@ {
        "\n默认路径: config/default（会自动查找 config/default.toml）\n"@
    } else {
        Seq::empty()
    }) + if is_missing_config(source) {
        "\n处理方式:\n  1. 创建默认配置文件:\n     cp config/default.toml.example config/default.toml\n  2. 或显式指定配置文件:\n     wharf --config /etc/wharf/config/default.toml\n\nsystemd 兼容说明:\n  当前默认仍兼容 WorkingDirectory=/etc/wharf，此时会读取 /etc/wharf/config/default.toml。\n"@
    } else {
        "\n请检查配置文件 TOML 格式、字段名称和必填字段。可运行 `wharf -h` 查看配置路径优先级。\n"@
    }
}

pub fn config_load_error_message(path: &str, source_message: &str) -> (r: String)
    ensures
        r@ == config_load_message(path@, source_message@),
{
    let mut out: Vec<char> = Vec::new();
    push_str_chars(&mut out, "配置文件加载失败\n\n路径: ");
    push_str_chars(&mut out, path);
    push_str_chars(&mut out, "\n原因: ");
    push_str_chars(&mut out, source_message);
    push_str_chars(&mut out, "\n");
    let ghost head = out@;
    if str_eq(path, DEFAULT_CONFIG_FILE) {
        push_str_chars(&mut out, "\n默认路径: config/default（会自动查找 config/default.toml）\n");
    } else {
        assert(out@ =~= head + Seq::<char>::empty());
    }
    if is_missing_config_error(source_message) {
        push_str_chars(
            &mut out,
            "\n处理方式:\n  1. 创建默认配置文件:\n     cp config/default.toml.example config/default.toml\n  2. 或显式指定配置文件:\n     wharf --config /etc/wharf/config/default.toml\n\nsystemd 兼容说明:\n  当前默认仍兼容 WorkingDirectory=/etc/wharf，此时会读取 /etc/wharf/config/default.toml。\n",
        );
    } else {
        push_str_chars(
            &mut out,
            "\n请检查配置文件 TOML 格式、字段名称和必填字段。可运行 `wharf -h` 查看配置路径优先级。\n",
        );
    }
    string_of(&out)
}

/// The message printed when the server cannot start.
pub open spec fn startup_message(error: AppErrorView) -> Seq<char> {
    match error {
        AppErrorView::ConfigLoad { path, source } => config_load_message(path, source),
        AppErrorView::TlsConfig(m) => "启动失败: 配置无效\n\n原因: "@ + m
            + "\n\n可运行 `wharf -h` 查看启动选项。"@,
        AppErrorView::Io(e) => "启动失败: I/O 错误\n\n原因: "@ + e
            + "\n\n请检查端口占用、文件权限或 systemd 服务权限。"@,
        AppErrorView::Rustls(e) => "启动失败: TLS 配置无效\n\n原因: "@ + e
            + "\n\n请检查证书和私钥是否匹配。"@,
        AppErrorView::UpstreamRequest(e) => "启动失败: 上游 Registry 请求失败\n\n原因: "@ + e,
        AppErrorView::InvalidRequest(m) => "启动失败: 请求配置无效\n\n原因: "@ + m,
    }
}

fn message_around(prefix: &str, middle: &str, suffix: &str) -> (r: String)
    ensures
        r@ == prefix@ + middle@ + suffix@,
{
    let mut out: Vec<char> = Vec::new();
    push_str_chars(&mut out, prefix);
    push_str_chars(&mut out, middle);
    push_str_chars(&mut out, suffix);
    string_of(&out)
}

pub fn startup_error_message(error: &AppError) -> (r: String)
    ensures
        r@ == startup_message(error@),
{
    match error {
        AppError::ConfigLoad { path, source } => config_load_error_message(
            path.as_str(),
            source.as_str(),
        ),
        AppError::TlsConfig(m) => message_around(
            "启动失败: 配置无效\n\n原因: ",
            m.as_str(),
            "\n\n可运行 `wharf -h` 查看启动选项。",
        ),
        AppError::Io(e) => message_around(
            "启动失败: I/O 错误\n\n原因: ",
            e.as_str(),
            "\n\n请检查端口占用、文件权限或 systemd 服务权限。",
        ),
        AppError::Rustls(e) => message_around(
            "启动失败: TLS 配置无效\n\n原因: ",
            e.as_str(),
            "\n\n请检查证书和私钥是否匹配。",
        ),
        AppError::UpstreamRequest(e) => concat2("启动失败: 上游 Registry 请求失败\n\n原因: ", e.as_str()),
        AppError::InvalidRequest(m) => concat2("启动失败: 请求配置无效\n\n原因: ", m.as_str()),
    }
}

/// How the plain HTTP listener serves.
#[derive(Clone, Copy, Debug, PartialEq, Eq, Structural)]
pub enum HttpMode {
    /// Only redirects to HTTPS.
    Redirect,
    /// Serves the whole proxy.
    Full,
}

/// The plain HTTP listener, if enabled: it only redirects when HTTPS is
/// enabled and the server is not behind a proxy, and serves everything otherwise.
pub fn http_listener_mode(server: &ServerSettings) -> (r: Option<HttpMode>)
    ensures
        r == (if !server.http_enabled {
            None
        } else if !server.behind_proxy && server.https_enabled {
            Some(HttpMode::Redirect)
        } else {
            Some(HttpMode::Full)
        }),
{
    if !server.http_enabled {
        None
    } else if !server.behind_proxy && server.https_enabled {
        Some(HttpMode::Redirect)
    } else {
        Some(HttpMode::Full)
    }
}

/// What a failed TLS setup means for startup: fatal only when plain HTTP is
/// disabled too.
pub fn tls_failure_outcome(server: &ServerSettings) -> (r: Result<(), AppError>)
    ensures
        match r {
            Ok(()) => server.http_enabled,
            Err(e) => !server.http_enabled && e@ == AppErrorView::TlsConfig(
                "HTTPS配置加载失败且HTTP服务已禁用，无法启动服务器"@,
            ),
        },
{
    if !server.http_enabled {
        Err(
            AppError::TlsConfig(
                String::from_str("HTTPS配置加载失败且HTTP服务已禁用，无法启动服务器"),
            ),
        )
    } else {
        Ok(())
    }
}

/// Startup needs at least one listener.
pub fn check_listener_count(listeners: usize) -> (r: Result<(), AppError>)
    ensures
        match r {
            Ok(()) => listeners > 0,
            Err(e) => listeners == 0 && e@ == AppErrorView::TlsConfig(
                "HTTP和HTTPS服务均已禁用，无法启动服务器"@,
            ),
        },
{
    if listeners == 0 {
        Err(AppError::TlsConfig(String::from_str("HTTP和HTTPS服务均已禁用，无法启动服务器")))
    } else {
        Ok(())
    }
}

} // verus!
