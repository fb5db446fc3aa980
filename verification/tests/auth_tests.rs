use wharf::auth::{
    bearer_param, build_auth_challenge, challenge_header, challenge_request_url,
    escape_auth_param, process_scope_parameter, query_pairs, resolve_registry,
    token_request_pairs, token_request_url, check_auth_realm_parts,
};
use wharf::urls::UrlParts;
use wharf::error::AppError;
use wharf::registry::{AppState, RegistryTarget};

fn test_registry(auto_library_prefix: bool) -> RegistryTarget {
    RegistryTarget {
        name: "dockerhub".to_string(),
        hosts: vec![],
        upstream_registry: "https://registry-1.docker.io".to_string(),
        auth_realm: "https://auth.docker.io/token".to_string(),
        auth_service: "registry.docker.io".to_string(),
        auto_library_prefix,
        public_base_url: "https://proxy.example.com".to_string(),
    }
}

#[test]
fn docker_hub_scope_adds_library_prefix() {
    assert_eq!(
        process_scope_parameter("repository:alpine:pull", true),
        "repository:library/alpine:pull"
    );
    assert_eq!(
        process_scope_parameter("repository:library/alpine:pull", true),
        "repository:library/alpine:pull"
    );
}

#[test]
fn non_docker_hub_scope_is_unchanged() {
    assert_eq!(
        process_scope_parameter("repository:owner/image:pull", false),
        "repository:owner/image:pull"
    );
}

#[test]
fn builds_registry_specific_auth_challenge() {
    let mut registry = test_registry(false);
    registry.name = "ghcr".to_string();
    registry.auth_service = "ghcr.io".to_string();
    registry.public_base_url = "https://ghcr.example.com".to_string();

    assert_eq!(
        build_auth_challenge(
            &registry,
            Some(
                "Bearer realm=\"https://ghcr.io/token\",service=\"ghcr.io\",scope=\"repository:owner/image:pull\""
            )
        ),
        "Bearer realm=\"https://ghcr.example.com/auth/ghcr/token\",service=\"ghcr.io\",scope=\"repository:owner/image:pull\""
    );
}

#[test]
fn parses_quoted_bearer_param() {
    assert_eq!(
        bearer_param(
            "Bearer realm=\"https://quay.io/v2/auth\",service=\"quay.io\",scope=\"repository:org/image:pull\"",
            "scope"
        ),
        Some("repository:org/image:pull".to_string())
    );
}

#[test]
fn scope_processing_leaves_other_scopes_alone() {
    assert_eq!(process_scope_parameter("registry:catalog:*", true), "registry:catalog:*");
    assert_eq!(process_scope_parameter("repository:alpine", true), "repository:alpine");
    assert_eq!(
        process_scope_parameter("repository:alpine:pull:extra", true),
        "repository:alpine:pull:extra"
    );
    assert_eq!(process_scope_parameter("repository::pull", true), "repository:library/:pull");
}

#[test]
fn scope_processing_is_idempotent() {
    let once = process_scope_parameter("repository:nginx:pull,push", true);
    assert_eq!(once, "repository:library/nginx:pull,push");
    assert_eq!(process_scope_parameter(&once, true), once);
}

#[test]
fn escapes_quotes_and_backslashes() {
    assert_eq!(escape_auth_param("a\"b\\c"), "a\\\"b\\\\c");
    assert_eq!(escape_auth_param("plain"), "plain");
}

#[test]
fn bearer_param_edge_cases() {
    assert_eq!(bearer_param("Basic realm=\"x\"", "realm"), None);
    assert_eq!(bearer_param("  Bearer realm=x , scope = y ", "SCOPE"), Some("y".to_string()));
    assert_eq!(bearer_param("Bearer realm=\"a\\\"b\"", "realm"), Some("a\"b".to_string()));
    assert_eq!(bearer_param("Bearer realm=\"unterminated", "realm"), None);
    assert_eq!(bearer_param("Bearer realm=\"x\",broken,scope=\"y\"", "scope"), None);
    assert_eq!(bearer_param("Bearer realm=\"x\"", "scope"), None);
}

#[test]
fn challenge_reads_back_its_parameters() {
    let registry = test_registry(true);
    let challenge = build_auth_challenge(&registry, Some("Bearer scope=\"repository:a\\\"b:pull\""));
    assert_eq!(
        bearer_param(&challenge, "realm"),
        Some("https://proxy.example.com/auth/dockerhub/token".to_string())
    );
    assert_eq!(bearer_param(&challenge, "service"), Some("registry.docker.io".to_string()));
    assert_eq!(bearer_param(&challenge, "scope"), Some("repository:a\"b:pull".to_string()));
    let without_scope = build_auth_challenge(&registry, None);
    assert_eq!(
        without_scope,
        "Bearer realm=\"https://proxy.example.com/auth/dockerhub/token\",service=\"registry.docker.io\""
    );
    assert_eq!(bearer_param(&without_scope, "scope"), None);
}

#[test]
fn query_pairs_are_decoded() {
    let pairs = query_pairs("scope=repository%3Aalpine%3Apull&service=x&a=b+c").unwrap();
    assert_eq!(
        pairs,
        vec![
            ("scope".to_string(), "repository:alpine:pull".to_string()),
            ("service".to_string(), "x".to_string()),
            ("a".to_string(), "b c".to_string()),
        ]
    );
}

#[test]
fn token_pairs_put_the_registry_service_first() {
    let registry = test_registry(true);
    let pairs = token_request_pairs(
        &registry,
        &vec![
            ("Service".to_string(), "evil".to_string()),
            ("scope".to_string(), "repository:alpine:pull".to_string()),
            ("account".to_string(), "me".to_string()),
        ],
    );
    assert_eq!(
        pairs,
        vec![
            ("service".to_string(), "registry.docker.io".to_string()),
            ("scope".to_string(), "repository:library/alpine:pull".to_string()),
            ("account".to_string(), "me".to_string()),
        ]
    );
}

#[test]
fn token_request_url_appends_query() {
    let registry = test_registry(true);
    let url = token_request_url(&registry, "scope=repository:alpine:pull&service=other").unwrap();
    assert_eq!(
        url,
        "https://auth.docker.io/token?service=registry.docker.io&scope=repository%3Alibrary%2Falpine%3Apull"
    );
}

#[test]
fn token_request_url_rejects_bad_realm() {
    let mut registry = test_registry(true);
    registry.auth_realm = "not a url".to_string();
    match token_request_url(&registry, "") {
        Err(AppError::InvalidRequest(m)) => {
            assert!(m.starts_with("invalid auth realm for dockerhub: "))
        }
        other => panic!("unexpected {:?}", other),
    }
}

#[test]
fn challenge_probe_and_header() {
    let registry = test_registry(true);
    assert_eq!(challenge_request_url(&registry), "https://registry-1.docker.io/v2/");
    assert_eq!(challenge_header(&registry, 200), None);
    assert_eq!(
        challenge_header(&registry, 401),
        Some(
            "Bearer realm=\"https://proxy.example.com/auth/dockerhub/token\",service=\"registry.docker.io\""
                .to_string()
        )
    );
}

#[test]
fn resolve_registry_by_route_or_host() {
    let mut ghcr = test_registry(false);
    ghcr.name = "ghcr".to_string();
    ghcr.hosts = vec!["ghcr.example.com".to_string()];
    let state = AppState {
        registries: vec![test_registry(true), ghcr],
        default_registry: "dockerhub".to_string(),
        public_base_url: "https://proxy.example.com".to_string(),
    };
    assert_eq!(resolve_registry(&state, Some("GHCR"), None).unwrap().name, "ghcr");
    match resolve_registry(&state, Some("quay"), None) {
        Err(AppError::InvalidRequest(m)) => assert_eq!(m, "unknown registry target: quay"),
        other => panic!("unexpected {:?}", other),
    }
    assert_eq!(
        resolve_registry(&state, None, Some("ghcr.example.com")).unwrap().name,
        "ghcr"
    );
    assert_eq!(resolve_registry(&state, None, None).unwrap().name, "dockerhub");
}

#[test]
fn auth_realm_parts_error_names_the_registry() {
    let registry = test_registry(false);
    match check_auth_realm_parts(&registry, &Err("relative URL without a base".to_string())) {
        Err(AppError::InvalidRequest(m)) => {
            assert_eq!(m, format!("invalid auth realm for {}: relative URL without a base", registry.name))
        }
        other => panic!("unexpected {:?}", other),
    }
    let parsed = UrlParts {
        scheme: "https".to_string(),
        host: Some("auth.example".to_string()),
        username: String::new(),
        password: None,
        query: None,
        fragment: None,
        path: "/token".to_string(),
    };
    assert!(check_auth_realm_parts(&registry, &Ok(parsed)).is_ok());
}

#[test]
fn quoted_parameter_reads_back_for_any_key_case() {
    let value = "a\\b\"c,d";
    let header = format!("Bearer Realm=\"{}\",x-Key=\"{}\"", escape_auth_param("r"), escape_auth_param(value));
    assert_eq!(bearer_param(&header, "x-key"), Some(value.to_string()));
    assert_eq!(bearer_param(&header, "X-KEY"), Some(value.to_string()));
    assert_eq!(bearer_param(&header, "realm"), Some("r".to_string()));
}
