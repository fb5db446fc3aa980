use wharf::registry::{host_matches, normalize_host, request_host, AppState, RegistryTarget};

fn target(name: &str, hosts: &[&str]) -> RegistryTarget {
    RegistryTarget {
        name: name.to_string(),
        hosts: hosts.iter().map(|h| h.to_string()).collect(),
        upstream_registry: format!("https://{name}.io"),
        auth_realm: format!("https://{name}.io/token"),
        auth_service: format!("{name}.io"),
        auto_library_prefix: false,
        public_base_url: format!("https://{name}.example.com"),
    }
}

#[test]
fn host_header_selects_matching_registry() {
    let registries = vec![
        RegistryTarget {
            name: "dockerhub".to_string(),
            hosts: vec!["docker.example.com".to_string()],
            upstream_registry: "https://registry-1.docker.io".to_string(),
            auth_realm: "https://auth.docker.io/token".to_string(),
            auth_service: "registry.docker.io".to_string(),
            auto_library_prefix: true,
            public_base_url: "https://docker.example.com".to_string(),
        },
        RegistryTarget {
            name: "ghcr".to_string(),
            hosts: vec!["ghcr.example.com".to_string()],
            upstream_registry: "https://ghcr.io".to_string(),
            auth_realm: "https://ghcr.io/token".to_string(),
            auth_service: "ghcr.io".to_string(),
            auto_library_prefix: false,
            public_base_url: "https://ghcr.example.com".to_string(),
        },
    ];
    let app_state = AppState {
        registries,
        default_registry: "dockerhub".to_string(),
        public_base_url: "https://docker.example.com".to_string(),
    };

    assert_eq!(app_state.registry_for_request(Some("ghcr.example.com:443")).name, "ghcr");
}

#[test]
fn normalizes_hosts() {
    assert_eq!(normalize_host("  Docker.Example.COM.  "), "docker.example.com");
    assert_eq!(normalize_host("ghcr.example.com:443"), "ghcr.example.com");
    assert_eq!(normalize_host("[::1]:8080"), "::1");
    assert_eq!(normalize_host("[fe80::1"), "fe80::1");
    assert_eq!(normalize_host("fe80::1"), "fe80::1");
    assert_eq!(normalize_host(""), "");
    assert!(host_matches("GHCR.example.com", "ghcr.example.com"));
    assert!(!host_matches("ghcr.example.com", "GHCR.example.com"));
    assert_eq!(request_host(Some(" :80")), None);
    assert_eq!(request_host(None), None);
    assert_eq!(request_host(Some("Quay.IO")), Some("quay.io".to_string()));
}

#[test]
fn default_and_named_lookup() {
    let state = AppState {
        registries: vec![target("dockerhub", &[]), target("ghcr", &["ghcr.example.com"])],
        default_registry: "GHCR".to_string(),
        public_base_url: "https://proxy.example.com".to_string(),
    };
    assert_eq!(state.registry_by_name("DockerHub").unwrap().name, "dockerhub");
    assert!(state.registry_by_name("quay").is_none());
    assert_eq!(state.default_registry().name, "ghcr");
    assert_eq!(state.registry_for_request(Some("unknown.example.com")).name, "ghcr");
    assert_eq!(state.registry_for_request(None).name, "ghcr");

    let fallback = AppState {
        registries: vec![target("dockerhub", &[]), target("ghcr", &[])],
        default_registry: "quay".to_string(),
        public_base_url: "https://proxy.example.com".to_string(),
    };
    assert_eq!(fallback.default_registry().name, "dockerhub");
}
