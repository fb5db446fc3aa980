use wharf::config::{RegistrySettings, RegistryUpstreamSettings, ServerSettings, Settings, TlsSettings};
use wharf::error::AppError;
use wharf::setup::{
    build_app_state, build_registry_targets, normalize_auth_realm, normalize_non_empty,
    normalize_optional_public_base_url, normalize_public_base_url, normalize_registry_base_url,
    resolve_public_base_url, validate_registry_name, check_http_url_parts,
    check_public_base_url_parts, public_base_url_from_href, public_base_url_is_fallback,
};
use wharf::urls::UrlParts;

fn parts(scheme: &str, host: Option<&str>, path: &str) -> UrlParts {
    UrlParts {
        scheme: scheme.to_string(),
        host: host.map(|h| h.to_string()),
        username: String::new(),
        password: None,
        query: None,
        fragment: None,
        path: path.to_string(),
    }
}

fn unit_message(result: Result<(), AppError>) -> String {
    match result {
        Err(AppError::TlsConfig(m)) => m,
        other => panic!("expected a configuration error, got {:?}", other),
    }
}

fn server_settings() -> ServerSettings {
    ServerSettings {
        http_port: 80,
        https_port: 443,
        http_enabled: true,
        https_enabled: true,
        behind_proxy: false,
        public_base_url: Some("https://docker.example.com".to_string()),
    }
}

fn config_message(result: Result<String, AppError>) -> String {
    match result {
        Err(AppError::TlsConfig(m)) => m,
        other => panic!("expected a configuration error, got {:?}", other),
    }
}

#[test]
fn legacy_registry_config_builds_docker_hub_target() {
    let registry_settings = RegistrySettings {
        default: "dockerhub".to_string(),
        upstream_registry: Some("https://registry-1.docker.io".to_string()),
        auth_realm: None,
        auth_service: None,
        auto_library_prefix: true,
        public_base_url: None,
        upstreams: vec![],
    };

    let registries = build_registry_targets(&registry_settings, "https://docker.example.com")
        .expect("legacy registry config should resolve");

    assert_eq!(registries.len(), 1);
    assert_eq!(registries[0].name, "dockerhub");
    assert_eq!(registries[0].auth_service, "registry.docker.io");
    assert!(registries[0].auto_library_prefix);
}

#[test]
fn multi_registry_config_builds_ghcr_and_quay_targets() {
    let registry_settings = RegistrySettings {
        default: "dockerhub".to_string(),
        upstream_registry: None,
        auth_realm: None,
        auth_service: None,
        auto_library_prefix: true,
        public_base_url: None,
        upstreams: vec![
            RegistryUpstreamSettings {
                name: "dockerhub".to_string(),
                hosts: vec!["docker.example.com".to_string()],
                upstream_registry: "https://registry-1.docker.io".to_string(),
                auth_realm: "https://auth.docker.io/token".to_string(),
                auth_service: "registry.docker.io".to_string(),
                auto_library_prefix: true,
                public_base_url: Some("https://docker.example.com".to_string()),
            },
            RegistryUpstreamSettings {
                name: "ghcr".to_string(),
                hosts: vec!["ghcr.example.com".to_string()],
                upstream_registry: "https://ghcr.io".to_string(),
                auth_realm: "https://ghcr.io/token".to_string(),
                auth_service: "ghcr.io".to_string(),
                auto_library_prefix: false,
                public_base_url: Some("https://ghcr.example.com".to_string()),
            },
            RegistryUpstreamSettings {
                name: "quay".to_string(),
                hosts: vec!["quay.example.com".to_string()],
                upstream_registry: "https://quay.io".to_string(),
                auth_realm: "https://quay.io/v2/auth".to_string(),
                auth_service: "quay.io".to_string(),
                auto_library_prefix: false,
                public_base_url: Some("https://quay.example.com".to_string()),
            },
        ],
    };

    let registries = build_registry_targets(&registry_settings, "https://docker.example.com")
        .expect("multi-registry config should resolve");

    assert_eq!(registries.len(), 3);
    assert_eq!(registries[1].name, "ghcr");
    assert_eq!(registries[1].auth_realm, "https://ghcr.io/token");
    assert_eq!(registries[2].name, "quay");
    assert_eq!(registries[2].auth_realm, "https://quay.io/v2/auth");
}

#[test]
fn public_base_url_still_resolves_for_server_config() {
    assert_eq!(
        resolve_public_base_url(&server_settings()).unwrap(),
        "https://docker.example.com"
    );
}

#[test]
fn public_base_url_falls_back_to_localhost() {
    let mut server = server_settings();
    server.public_base_url = Some("   ".to_string());
    assert_eq!(resolve_public_base_url(&server).unwrap(), "https://localhost");
    server.https_port = 8443;
    assert_eq!(resolve_public_base_url(&server).unwrap(), "https://localhost:8443");
    server.https_enabled = false;
    server.http_port = 8080;
    assert_eq!(resolve_public_base_url(&server).unwrap(), "http://localhost:8080");
    server.http_port = 80;
    assert_eq!(resolve_public_base_url(&server).unwrap(), "http://localhost");
    server.http_enabled = false;
    assert_eq!(
        config_message(resolve_public_base_url(&server)),
        "server.public_base_url 未配置，且 HTTP/HTTPS 均禁用，无法推导默认值"
    );
}

#[test]
fn public_base_url_checks() {
    assert_eq!(normalize_public_base_url("HTTPS://Docker.Example.COM/").unwrap(), "https://docker.example.com");
    assert_eq!(normalize_public_base_url("http://proxy:8080").unwrap(), "http://proxy:8080");
    assert_eq!(
        config_message(normalize_public_base_url("ftp://example.com")),
        "server.public_base_url 仅支持 http 或 https 协议"
    );
    assert_eq!(
        config_message(normalize_public_base_url("https://user:pw@example.com")),
        "server.public_base_url 不能包含用户认证信息"
    );
    assert_eq!(
        config_message(normalize_public_base_url("https://example.com/?a=1")),
        "server.public_base_url 不能包含查询参数或锚点"
    );
    assert_eq!(
        config_message(normalize_public_base_url("https://example.com/path")),
        "server.public_base_url 不能包含路径"
    );
    assert!(config_message(normalize_public_base_url("not a url")).starts_with("server.public_base_url 无效: "));
    assert_eq!(
        config_message(normalize_optional_public_base_url(Some(" ftp://x "), "https://f", "registry.public_base_url")),
        "registry.public_base_url: server.public_base_url 仅支持 http 或 https 协议"
    );
    assert_eq!(
        normalize_optional_public_base_url(None, "https://f", "field").unwrap(),
        "https://f"
    );
}

#[test]
fn registry_field_checks() {
    assert_eq!(validate_registry_name(" ghcr.io-mirror_1 ").unwrap(), "ghcr.io-mirror_1");
    assert_eq!(
        config_message(validate_registry_name("bad name")),
        "registry upstream name can only contain ASCII letters, digits, '-', '_' or '.'"
    );
    assert!(validate_registry_name("  ").is_err());
    assert_eq!(
        normalize_registry_base_url(" https://ghcr.io// ", "f").unwrap(),
        "https://ghcr.io"
    );
    assert_eq!(config_message(normalize_registry_base_url("ftp://ghcr.io", "f")), "f only supports http or https");
    assert_eq!(config_message(normalize_registry_base_url("unix:/tmp/x", "f")), "f only supports http or https");
    assert!(config_message(normalize_auth_realm("://", "realm")).starts_with("realm invalid: "));
    assert_eq!(normalize_auth_realm(" https://a.io/token/ ", "r").unwrap(), "https://a.io/token/");
    assert_eq!(config_message(normalize_non_empty(" ", "svc")), "svc cannot be empty");
    assert_eq!(normalize_non_empty(" x ", "svc").unwrap(), "x");
}

#[test]
fn registry_default_must_match_a_target() {
    let settings = RegistrySettings {
        default: " Quay ".to_string(),
        upstream_registry: None,
        auth_realm: None,
        auth_service: None,
        auto_library_prefix: true,
        public_base_url: None,
        upstreams: vec![RegistryUpstreamSettings {
            name: "ghcr".to_string(),
            hosts: vec!["GHCR.example.com:443".to_string()],
            upstream_registry: "https://ghcr.io/".to_string(),
            auth_realm: "https://ghcr.io/token".to_string(),
            auth_service: "ghcr.io".to_string(),
            auto_library_prefix: false,
            public_base_url: None,
        }],
    };
    match build_registry_targets(&settings, "https://proxy.example.com") {
        Err(AppError::TlsConfig(m)) => {
            assert_eq!(m, "registry.default ' Quay ' does not match any configured upstream")
        }
        other => panic!("unexpected {:?}", other),
    }
    let mut ok = settings;
    ok.default = "GHCR".to_string();
    let targets = build_registry_targets(&ok, "https://proxy.example.com").unwrap();
    assert_eq!(targets[0].hosts, vec!["ghcr.example.com".to_string()]);
    assert_eq!(targets[0].upstream_registry, "https://ghcr.io");
    assert_eq!(targets[0].public_base_url, "https://proxy.example.com");
}

#[test]
fn app_state_is_built_from_settings() {
    let settings = Settings {
        server: server_settings(),
        registry: RegistrySettings {
            default: " dockerhub ".to_string(),
            upstream_registry: None,
            auth_realm: None,
            auth_service: None,
            auto_library_prefix: true,
            public_base_url: None,
            upstreams: vec![],
        },
        tls: TlsSettings { cert_path: "c".to_string(), key_path: "k".to_string() },
    };
    let state = build_app_state(&settings).unwrap();
    assert_eq!(state.default_registry, "dockerhub");
    assert_eq!(state.public_base_url, "https://docker.example.com");
    assert_eq!(state.registries[0].upstream_registry, "https://registry-1.docker.io");
    assert_eq!(state.registries[0].auth_realm, "https://auth.docker.io/token");
    assert_eq!(state.default_registry().name, "dockerhub");
}

#[test]
fn http_url_parts_are_checked_in_order() {
    let url = "https://registry.example.com".to_string();
    assert_eq!(
        check_http_url_parts(url.clone(), "upstream", Ok(parts("https", Some("registry.example.com"), "/"))).unwrap(),
        url
    );
    assert_eq!(
        config_message(check_http_url_parts(url.clone(), "upstream", Err("bad url".to_string()))),
        "upstream invalid: bad url"
    );
    assert_eq!(
        config_message(check_http_url_parts(url.clone(), "upstream", Ok(parts("ftp", Some("x"), "/")))),
        "upstream only supports http or https"
    );
    assert_eq!(
        config_message(check_http_url_parts(url, "upstream", Ok(parts("http", None, "/")))),
        "upstream must include a host"
    );
}

#[test]
fn public_base_url_parts_are_checked_in_order() {
    assert!(check_public_base_url_parts(&Ok(parts("https", Some("a.example"), "/"))).is_ok());
    assert_eq!(
        unit_message(check_public_base_url_parts(&Err("empty host".to_string()))),
        "server.public_base_url 无效: empty host"
    );
    assert_eq!(
        unit_message(check_public_base_url_parts(&Ok(parts("https", None, "/")))),
        "server.public_base_url 必须包含主机名"
    );
    let mut with_user = parts("https", Some("a.example"), "/");
    with_user.username = "u".to_string();
    assert_eq!(
        unit_message(check_public_base_url_parts(&Ok(with_user))),
        "server.public_base_url 不能包含用户认证信息"
    );
    let mut with_fragment = parts("https", Some("a.example"), "/");
    with_fragment.fragment = Some(String::new());
    assert_eq!(
        unit_message(check_public_base_url_parts(&Ok(with_fragment))),
        "server.public_base_url 不能包含查询参数或锚点"
    );
    assert_eq!(
        unit_message(check_public_base_url_parts(&Ok(parts("https", Some("a.example"), "")))),
        "server.public_base_url 不能包含路径"
    );
}

#[test]
fn public_base_url_drops_trailing_slashes_of_the_serialization() {
    assert_eq!(public_base_url_from_href("https://a.example/"), "https://a.example");
    assert_eq!(public_base_url_from_href("https://a.example//"), "https://a.example");
    assert_eq!(public_base_url_from_href("https://a.example"), "https://a.example");
}

#[test]
fn public_base_url_fallback_is_detected() {
    let mut server = server_settings();
    assert!(!public_base_url_is_fallback(&server));
    server.public_base_url = Some("   ".to_string());
    assert!(public_base_url_is_fallback(&server));
    server.public_base_url = None;
    assert!(public_base_url_is_fallback(&server));
}

#[test]
fn normalized_public_base_url_normalizes_to_itself() {
    for raw in ["HTTPS://Docker.Example.COM/", "http://proxy:8080", "https://[::1]:8443/"] {
        let once = normalize_public_base_url(raw).unwrap();
        assert_eq!(normalize_public_base_url(&once).unwrap(), once);
    }
}
