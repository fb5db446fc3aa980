use wharf::proxy::{
    content_length_value, effective_content_length, forwarded_request_headers, header_value,
    is_hop_by_hop_header, needs_length_probe, parse_content_length, parse_content_range_total,
    plan_upstream_request, probe_length_from_headers, response_headers_to_forward,
    should_forward_response_header, UpstreamMethod, head_length_action, LengthAction,
    https_redirect_location,
};
use wharf::registry::RegistryTarget;

fn pairs(list: &[(&str, &str)]) -> Vec<(String, String)> {
    list.iter().map(|(k, v)| (k.to_string(), v.to_string())).collect()
}

fn registry() -> RegistryTarget {
    RegistryTarget {
        name: "dockerhub".to_string(),
        hosts: vec![],
        upstream_registry: "https://registry-1.docker.io".to_string(),
        auth_realm: "https://auth.docker.io/token".to_string(),
        auth_service: "registry.docker.io".to_string(),
        auto_library_prefix: true,
        public_base_url: "https://proxy.example.com".to_string(),
    }
}

#[test]
fn parses_content_range_total() {
    assert_eq!(parse_content_range_total("bytes 0-0/123456"), Some(123456));
    assert_eq!(
        parse_content_range_total("bytes 1024-2047/4096"),
        Some(4096)
    );
    assert_eq!(parse_content_range_total("bytes */4096"), Some(4096));
    assert_eq!(parse_content_range_total("bytes 0-0/*"), None);
    assert_eq!(parse_content_range_total("invalid"), None);
}

#[test]
fn content_range_edge_cases() {
    assert_eq!(parse_content_range_total("  Bytes 0-0/ 77 "), Some(77));
    assert_eq!(parse_content_range_total("bytes 0-0/18446744073709551615"), Some(u64::MAX));
    assert_eq!(parse_content_range_total("bytes 0-0/18446744073709551616"), None);
    assert_eq!(parse_content_range_total("bytes 0-0"), None);
    assert_eq!(parse_content_range_total("bytes 0-0/+5"), Some(5));
    assert_eq!(parse_content_range_total("bytes 0-0/-5"), None);
}

#[test]
fn hop_by_hop_headers_are_dropped() {
    assert!(is_hop_by_hop_header("Connection"));
    assert!(is_hop_by_hop_header("TRANSFER-ENCODING"));
    assert!(!is_hop_by_hop_header("Content-Type"));
    assert!(!should_forward_response_header("Content-Length"));
    assert!(!should_forward_response_header("keep-alive"));
    assert!(should_forward_response_header("Docker-Content-Digest"));
}

#[test]
fn header_lookup_ignores_case() {
    let headers = pairs(&[("X-A", "1"), ("content-length", " 42 "), ("Content-Length", "7")]);
    assert_eq!(header_value(&headers, "x-a"), Some("1"));
    assert_eq!(header_value(&headers, "missing"), None);
    assert_eq!(parse_content_length(&headers), Some(42));
    assert_eq!(parse_content_length(&pairs(&[("Content-Length", "abc")])), None);
    assert_eq!(effective_content_length(&pairs(&[]), Some(9)), Some(9));
    assert_eq!(effective_content_length(&headers, Some(9)), Some(42));
}

#[test]
fn probe_prefers_content_range() {
    let with_range = pairs(&[("Content-Range", "bytes 0-0/500"), ("Content-Length", "1")]);
    assert_eq!(probe_length_from_headers(&with_range, None), Some(500));
    let zero_range = pairs(&[("Content-Range", "bytes 0-0/0"), ("Content-Length", "1")]);
    assert_eq!(probe_length_from_headers(&zero_range, None), Some(1));
    assert_eq!(probe_length_from_headers(&pairs(&[]), Some(0)), None);
    assert_eq!(probe_length_from_headers(&pairs(&[]), Some(3)), Some(3));
}

#[test]
fn response_headers_are_rewritten() {
    let headers = pairs(&[
        ("Connection", "keep-alive"),
        ("Content-Length", "10"),
        ("Docker-Content-Digest", "sha256:abc"),
        ("www-authenticate", "Bearer realm=\"https://auth.docker.io/token\",service=\"registry.docker.io\",scope=\"repository:library/alpine:pull\""),
    ]);
    let out = response_headers_to_forward(headers, &registry());
    assert_eq!(
        out,
        pairs(&[
            ("Docker-Content-Digest", "sha256:abc"),
            ("WWW-Authenticate", "Bearer realm=\"https://proxy.example.com/auth/dockerhub/token\",service=\"registry.docker.io\",scope=\"repository:library/alpine:pull\""),
        ])
    );
}

#[test]
fn only_listed_request_headers_are_forwarded() {
    let headers = pairs(&[
        ("host", "proxy.example.com"),
        ("accept", "a"),
        ("authorization", "Bearer t"),
        ("accept", "b"),
        ("range", "bytes=0-9"),
        ("cookie", "x"),
    ]);
    assert_eq!(
        forwarded_request_headers(&headers),
        pairs(&[
            ("Authorization", "Bearer t"),
            ("Accept", "a"),
            ("Accept", "b"),
            ("Range", "bytes=0-9"),
        ])
    );
}

#[test]
fn upstream_request_plan() {
    let plan = plan_upstream_request(&registry(), "alpine", "manifests", "latest", None, true);
    assert_eq!(plan.target_url, "https://registry-1.docker.io/v2/library/alpine/manifests/latest");
    assert_eq!(plan.method, UpstreamMethod::Get);
    assert!(plan.is_manifest_request && !plan.is_blob_request);

    let plan = plan_upstream_request(&registry(), "owner/app", "blobs", "sha256:1", Some("n=1"), true);
    assert_eq!(plan.target_url, "https://registry-1.docker.io/v2/owner/app/blobs/sha256:1?n=1");
    assert_eq!(plan.method, UpstreamMethod::Head);
    assert!(plan.is_blob_request);

    let mut no_prefix = registry();
    no_prefix.auto_library_prefix = false;
    let plan = plan_upstream_request(&no_prefix, "alpine", "tags", "list", None, false);
    assert_eq!(plan.target_url, "https://registry-1.docker.io/v2/alpine/tags/list");
    assert_eq!(plan.method, UpstreamMethod::Get);
}

#[test]
fn length_probe_decision() {
    assert!(needs_length_probe(true, true, None));
    assert!(needs_length_probe(true, true, Some(0)));
    assert!(!needs_length_probe(true, true, Some(5)));
    assert!(!needs_length_probe(false, true, None));
    assert!(!needs_length_probe(true, false, None));
    assert_eq!(content_length_value(0), "0");
    assert_eq!(content_length_value(1234567890), "1234567890");
}

#[test]
fn head_length_step_probes_only_blob_heads_without_length() {
    assert_eq!(head_length_action(true, true, true, None), LengthAction::Probe);
    assert_eq!(head_length_action(true, true, true, Some(0)), LengthAction::Probe);
    assert_eq!(head_length_action(true, true, true, Some(7)), LengthAction::Use(Some(7)));
    assert_eq!(head_length_action(false, true, true, None), LengthAction::Use(None));
    assert_eq!(head_length_action(true, false, true, Some(0)), LengthAction::Use(Some(0)));
    assert_eq!(head_length_action(true, true, false, None), LengthAction::Use(None));
}

#[test]
fn redirect_location_drops_the_port_and_keeps_the_uri() {
    assert_eq!(
        https_redirect_location(Some("mirror.example:80"), "/v2/library/nginx/manifests/latest?x=1"),
        "https://mirror.example/v2/library/nginx/manifests/latest?x=1"
    );
    assert_eq!(https_redirect_location(Some("mirror.example"), "/health"), "https://mirror.example/health");
    assert_eq!(https_redirect_location(None, "/v2/"), "https:///v2/");
    assert_eq!(https_redirect_location(Some(":8080"), "/"), "https:///");
}
