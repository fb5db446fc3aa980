//! Turning the settings into the registry targets that the proxy serves:
//! names, upstream URLs, token realms and public base URLs are checked and
//! normalized here, and every refusal is a configuration error.
use vstd::prelude::*;
use crate::config::{RegistrySettings, RegistryUpstreamSettings, ServerSettings, Settings};
use crate::error::{config_error, text_result, AppError, AppErrorView};
use crate::registry::{
    first_named, normalize_host, normalized_host, targets_view, AppState, RegistryTarget,
    TargetView,
};
use crate::text::{
    chars_of, concat2, concat3, decimal, push_decimal, push_str_chars, str_eq, string_of, trim,
    trim_chars, trim_end_chars, trim_end_class, CharClass,
};
use crate::urls::{
    parse_url, parse_view, serialize_without_path, url_parse_result, url_without_path, UrlParts,
    UrlPartsView,
};

verus! {

pub const DOCKER_HUB_REGISTRY: &'static str = "https://registry-1.docker.io";

pub const DOCKER_HUB_AUTH_REALM: &'static str = "https://auth.docker.io/token";

pub const DOCKER_HUB_AUTH_SERVICE: &'static str = "registry.docker.io";

/// The characters allowed in a registry name.
pub open spec fn is_registry_name_char(c: char) -> bool {
    ||| ('a' <= c && c <= 'z')
    ||| ('A' <= c && c <= 'Z')
    ||| ('0' <= c && c <= '9')
    ||| c == '-'
    ||| c == '_'
    ||| c == '.'
}

/// A registry name: trimmed, non-empty, and made of the allowed characters.
pub open spec fn registry_name_result(name: Seq<char>) -> Result<Seq<char>, AppErrorView> {
    let t = trim(name);
    if t.len() == 0 || !(forall|i: int| 0 <= i < t.len() ==> is_registry_name_char(#[trigger] t[i])) {
        Err(
            config_error(
                "registry upstream name can only contain ASCII letters, digits, '-', '_' or '.'"@,
            ),
        )
    } else {
        Ok(t)
    }
}

/// The verdict on a URL given what the parser made of it: it must have
/// parsed, use `http` or `https` and name a host; it is kept as written.
pub open spec fn http_url_outcome(
    url: Seq<char>,
    field: Seq<char>,
    parsed: Result<UrlPartsView, Seq<char>>,
) -> Result<Seq<char>, AppErrorView> {
    match parsed {
        Err(e) => Err(config_error(field + " invalid: "@ + e)),
        Ok(p) => if p.scheme != "http"@ && p.scheme != "https"@ {
            Err(config_error(field + " only supports http or https"@))
        } else if p.host is None {
            Err(config_error(field + " must include a host"@))
        } else {
            Ok(url)
        },
    }
}

/// A URL that must parse, use `http` or `https` and name a host; it is kept as written.
pub open spec fn http_url_result(url: Seq<char>, field: Seq<char>) -> Result<
    Seq<char>,
    AppErrorView,
> {
    http_url_outcome(url, field, url_parse_result(url))
}

/// An upstream registry URL: trimmed, without trailing `/`, and a valid http(s) URL.
pub open spec fn registry_base_url_result(raw: Seq<char>, field: Seq<char>) -> Result<
    Seq<char>,
    AppErrorView,
> {
    http_url_result(trim_end_class(trim(raw), CharClass::Exactly('/')), field)
}

/// A token realm URL: trimmed and a valid http(s) URL.
pub open spec fn auth_realm_result(raw: Seq<char>, field: Seq<char>) -> Result<
    Seq<char>,
    AppErrorView,
> {
    http_url_result(trim(raw), field)
}

/// A value that must not be empty once trimmed.
pub open spec fn non_empty_result(value: Seq<char>, field: Seq<char>) -> Result<
    Seq<char>,
    AppErrorView,
> {
    let t = trim(value);
    if t.len() == 0 {
        Err(config_error(field + " cannot be empty"@))
    } else {
        Ok(t)
    }
}

/// The checks on a parsed public base URL: it must have parsed, use `http`
/// or `https`, name a host, and hold no user information, query, fragment or path.
pub open spec fn public_base_url_checks(parsed: Result<UrlPartsView, Seq<char>>) -> Result<
    (),
    AppErrorView,
> {
    match parsed {
        Err(e) => Err(config_error("server.public_base_url 无效: "@ + e)),
        Ok(p) => if p.scheme != "http"@ && p.scheme != "https"@ {
            Err(config_error("server.public_base_url 仅支持 http 或 https 协议"@))
        } else if p.host is None {
            Err(config_error("server.public_base_url 必须包含主机名"@))
        } else if p.username.len() != 0 || p.password is Some {
            Err(config_error("server.public_base_url 不能包含用户认证信息"@))
        } else if p.query is Some || p.fragment is Some {
            Err(config_error("server.public_base_url 不能包含查询参数或锚点"@))
        } else if p.path != "/"@ {
            Err(config_error("server.public_base_url 不能包含路径"@))
        } else {
            Ok(())
        },
    }
}

/// A public base URL: one that passes [`public_base_url_checks`], written as
/// its serialization without path and without a trailing `/`.
pub open spec fn public_base_url_result(raw: Seq<char>) -> Result<Seq<char>, AppErrorView> {
    match public_base_url_checks(url_parse_result(raw)) {
        Err(e) => Err(e),
        Ok(()) => Ok(trim_end_class(url_without_path(raw).unwrap(), CharClass::Exactly('/'))),
    }
}

/// A public base URL that may be left out: when absent or blank, `fallback`.
pub open spec fn optional_public_base_url_result(
    configured: Option<Seq<char>>,
    fallback: Seq<char>,
    field: Seq<char>,
) -> Result<Seq<char>, AppErrorView> {
    match configured {
        Some(c) => if trim(c).len() > 0 {
            match public_base_url_result(trim(c)) {
                Ok(u) => Ok(u),
                Err(e) => Err(
                    config_error(
                        field + ": "@ + match e {
                            AppErrorView::TlsConfig(m) => m,
                            _ => Seq::empty(),
                        },
                    ),
                ),
            }
        } else {
            Ok(fallback)
        },
        None => Ok(fallback),
    }
}

pub fn validate_registry_name(name: &str) -> (r: Result<String, AppError>)
    ensures
        text_result(r) == registry_name_result(name@),
{
    let v = chars_of(name);
    let t = trim_chars(&v);
    if t.len() == 0 {
        return Err(
            AppError::TlsConfig(
                String::from_str(
                    "registry upstream name can only contain ASCII letters, digits, '-', '_' or '.'",
                ),
            ),
        );
    }
    let mut i: usize = 0;
    while i < t.len()
        invariant
            t@ == trim(name@),
            i <= t@.len(),
            forall|k: int| 0 <= k < i ==> is_registry_name_char(#[trigger] t@[k]),
        decreases t@.len() - i,
    {
        let c = t[i];
        if !(('a' <= c && c <= 'z') || ('A' <= c && c <= 'Z') || ('0' <= c && c <= '9') || c
            == '-' || c == '_' || c == '.') {
            assert(!is_registry_name_char(t@[i as int]));
            return Err(
                AppError::TlsConfig(
                    String::from_str(
                        "registry upstream name can only contain ASCII letters, digits, '-', '_' or '.'",
                    ),
                ),
            );
        }
        i = i + 1;
    }
    Ok(string_of(&t))
}

/// Whether a scheme is `http` or `https`.
fn is_http_scheme(scheme: &str) -> (r: bool)
    ensures
        r == (scheme@ == "http"@ || scheme@ == "https"@),
{
    str_eq(scheme, "http") || str_eq(scheme, "https")
}

/// Judges a URL by what the parser made of it (see [`http_url_outcome`]).
pub fn check_http_url_parts(url: String, field: &str, parsed: Result<UrlParts, String>) -> (r:
    Result<String, AppError>)
    ensures
        text_result(r) == http_url_outcome(url@, field@, parse_view(parsed)),
{
    match parsed {
        Err(e) => Err(AppError::TlsConfig(concat3(field, " invalid: ", e.as_str()))),
        Ok(p) => {
            if !is_http_scheme(p.scheme.as_str()) {
                Err(AppError::TlsConfig(concat2(field, " only supports http or https")))
            } else if p.host.is_none() {
                Err(AppError::TlsConfig(concat2(field, " must include a host")))
            } else {
                Ok(url)
            }
        },
    }
}

fn check_http_url(url: String, field: &str) -> (r: Result<String, AppError>)
    ensures
        text_result(r) == http_url_result(url@, field@),
{
    let parsed = parse_url(url.as_str());
    check_http_url_parts(url, field, parsed)
}

pub fn normalize_registry_base_url(raw_url: &str, field_name: &str) -> (r: Result<
    String,
    AppError,
>)
    ensures
        text_result(r) == registry_base_url_result(raw_url@, field_name@),
{
    let v = chars_of(raw_url);
    let t = trim_chars(&v);
    let t = trim_end_chars(&t, CharClass::Exactly('/'));
    check_http_url(string_of(&t), field_name)
}

pub fn normalize_auth_realm(raw_url: &str, field_name: &str) -> (r: Result<String, AppError>)
    ensures
        text_result(r) == auth_realm_result(raw_url@, field_name@),
{
    let v = chars_of(raw_url);
    let t = trim_chars(&v);
    check_http_url(string_of(&t), field_name)
}

pub fn normalize_non_empty(value: &str, field_name: &str) -> (r: Result<String, AppError>)
    ensures
        text_result(r) == non_empty_result(value@, field_name@),
{
    let v = chars_of(value);
    let t = trim_chars(&v);
    if t.len() == 0 {
        return Err(AppError::TlsConfig(concat2(field_name, " cannot be empty")));
    }
    Ok(string_of(&t))
}

/// Applies [`public_base_url_checks`] to what the parser made of a public base URL.
pub fn check_public_base_url_parts(parsed: &Result<UrlParts, String>) -> (r: Result<(), AppError>)
    ensures
        match r {
            Ok(()) => public_base_url_checks(parse_view(*parsed)) == Ok::<(), AppErrorView>(()),
            Err(e) => public_base_url_checks(parse_view(*parsed)) == Err::<(), AppErrorView>(e@),
        },
{
    let p = match parsed {
        Err(e) => {
            return Err(AppError::TlsConfig(concat2("server.public_base_url 无效: ", e.as_str())));
        },
        Ok(p) => p,
    };
    if !is_http_scheme(p.scheme.as_str()) {
        return Err(
            AppError::TlsConfig(String::from_str("server.public_base_url 仅支持 http 或 https 协议")),
        );
    }
    if p.host.is_none() {
        return Err(AppError::TlsConfig(String::from_str("server.public_base_url 必须包含主机名")));
    }
    let username = chars_of(p.username.as_str());
    if username.len() != 0 || p.password.is_some() {
        return Err(
            AppError::TlsConfig(String::from_str("server.public_base_url 不能包含用户认证信息")),
        );
    }
    if p.query.is_some() || p.fragment.is_some() {
        return Err(
            AppError::TlsConfig(String::from_str("server.public_base_url 不能包含查询参数或锚点")),
        );
    }
    if !str_eq(p.path.as_str(), "/") {
        return Err(AppError::TlsConfig(String::from_str("server.public_base_url 不能包含路径")));
    }
    Ok(())
}

/// The public base URL written from its serialization without path: the
/// trailing `/` removed.
pub fn public_base_url_from_href(href: &str) -> (r: String)
    ensures
        r@ == trim_end_class(href@, CharClass::Exactly('/')),
{
    let h = chars_of(href);
    string_of(&trim_end_chars(&h, CharClass::Exactly('/')))
}

/// Checks and normalizes the public base URL (see [`public_base_url_result`]).
pub fn normalize_public_base_url(raw_url: &str) -> (r: Result<String, AppError>)
    ensures
        text_result(r) == public_base_url_result(raw_url@),
{
    let parsed = parse_url(raw_url);
    check_public_base_url_parts(&parsed)?;
    match serialize_without_path(raw_url) {
        Some(href) => Ok(public_base_url_from_href(href.as_str())),
        None => Err(AppError::TlsConfig(String::from_str("server.public_base_url 无效"))),
    }
}

/// Whether the public base URL is left to the localhost fallback: it is not
/// configured, or configured blank.
pub fn public_base_url_is_fallback(server: &ServerSettings) -> (r: bool)
    ensures
        r == !(server.public_base_url.deep_view() is Some && trim(
            server.public_base_url.deep_view().unwrap(),
        ).len() > 0),
{
    match &server.public_base_url {
        Some(configured) => {
            let v = chars_of(configured.as_str());
            trim_chars(&v).len() == 0
        },
        None => true,
    }
}

pub fn normalize_optional_public_base_url(
    configured: Option<&str>,
    fallback: &str,
    field_name: &str,
) -> (r: Result<String, AppError>)
    ensures
        text_result(r) == optional_public_base_url_result(
            match configured {
                Some(c) => Some(c@),
                None => None,
            },
            fallback@,
            field_name@,
        ),
{
    match configured {
        Some(c) => {
            let v = chars_of(c);
            let t = trim_chars(&v);
            if t.len() > 0 {
                let ts = string_of(&t);
                match normalize_public_base_url(ts.as_str()) {
                    Ok(u) => Ok(u),
                    Err(e) => {
                        let message = match e {
                            AppError::TlsConfig(m) => m,
                            _ => String::new(),
                        };
                        Err(AppError::TlsConfig(concat3(field_name, ": ", message.as_str())))
                    },
                }
            } else {
                Ok(String::from_str(fallback))
            }
        },
        None => Ok(String::from_str(fallback)),
    }
}


/// The public base URL of the server: the configured one when it is set,
/// otherwise `https://localhost` (or `http://localhost`) with the port of the
/// enabled listener, the port left out when it is the scheme's default.
pub open spec fn server_public_base_url(server: ServerSettings) -> Result<Seq<char>, AppErrorView> {
    let configured = server.public_base_url.deep_view();
    if configured is Some && trim(configured.unwrap()).len() > 0 {
        public_base_url_result(trim(configured.unwrap()))
    } else if server.https_enabled {
        if server.https_port == 443 {
            Ok("https://localhost"@)
        } else {
            Ok("https://localhost:"@ + decimal(server.https_port as nat))
        }
    } else if server.http_enabled {
        if server.http_port == 80 {
            Ok("http://localhost"@)
        } else {
            Ok("http://localhost:"@ + decimal(server.http_port as nat))
        }
    } else {
        Err(config_error("server.public_base_url 未配置，且 HTTP/HTTPS 均禁用，无法推导默认值"@))
    }
}

fn localhost_url(prefix: &str, port: u16) -> (r: String)
    ensures
        r@ == prefix@ + decimal(port as nat),
{
    let mut out: Vec<char> = Vec::new();
    push_str_chars(&mut out, prefix);
    push_decimal(&mut out, port as u64);
    string_of(&out)
}

pub fn resolve_public_base_url(server: &ServerSettings) -> (r: Result<String, AppError>)
    ensures
        text_result(r) == server_public_base_url(*server),
{
    match &server.public_base_url {
        Some(configured) => {
            let v = chars_of(configured.as_str());
            let t = trim_chars(&v);
            if t.len() > 0 {
                let ts = string_of(&t);
                return normalize_public_base_url(ts.as_str());
            }
        },
        None => {},
    }
    if server.https_enabled {
        if server.https_port == 443 {
            Ok(String::from_str("https://localhost"))
        } else {
            Ok(localhost_url("https://localhost:", server.https_port))
        }
    } else if server.http_enabled {
        if server.http_port == 80 {
            Ok(String::from_str("http://localhost"))
        } else {
            Ok(localhost_url("http://localhost:", server.http_port))
        }
    } else {
        Err(
            AppError::TlsConfig(
                String::from_str("server.public_base_url 未配置，且 HTTP/HTTPS 均禁用，无法推导默认值"),
            ),
        )
    }
}

/// The target for one `[[registry.upstreams]]` entry; its fields are checked in
/// the order name, upstream URL, token realm, token service, public base URL,
/// and the first failure is the result.
pub open spec fn upstream_target(u: RegistryUpstreamSettings, fallback: Seq<char>) -> Result<
    TargetView,
    AppErrorView,
> {
    match registry_name_result(u.name@) {
        Err(e) => Err(e),
        Ok(name) => match registry_base_url_result(
            u.upstream_registry@,
            "registry.upstreams[].upstream_registry"@,
        ) {
            Err(e) => Err(e),
            Ok(upstream) => match auth_realm_result(u.auth_realm@, "registry.upstreams[].auth_realm"@) {
                Err(e) => Err(e),
                Ok(realm) => match non_empty_result(
                    u.auth_service@,
                    "registry.upstreams[].auth_service"@,
                ) {
                    Err(e) => Err(e),
                    Ok(service) => match optional_public_base_url_result(
                        u.public_base_url.deep_view(),
                        fallback,
                        "registry.upstreams[].public_base_url"@,
                    ) {
                        Err(e) => Err(e),
                        Ok(public) => Ok(
                            TargetView {
                                name,
                                hosts: u.hosts.deep_view().map_values(|h: Seq<char>| normalized_host(h)),
                                upstream_registry: upstream,
                                auth_realm: realm,
                                auth_service: service,
                                auto_library_prefix: u.auto_library_prefix,
                                public_base_url: public,
                            },
                        ),
                    },
                },
            },
        },
    }
}

/// The targets for a list of upstream entries, or the first entry's error.
pub open spec fn upstream_targets(us: Seq<RegistryUpstreamSettings>, fallback: Seq<char>) -> Result<
    Seq<TargetView>,
    AppErrorView,
>
    decreases us.len(),
{
    if us.len() == 0 {
        Ok(Seq::empty())
    } else {
        match upstream_target(us[0], fallback) {
            Err(e) => Err(e),
            Ok(t) => match upstream_targets(us.skip(1), fallback) {
                Err(e) => Err(e),
                Ok(ts) => Ok(seq![t] + ts),
            },
        }
    }
}

/// The single target described by the top-level `[registry]` keys, with Docker
/// Hub's registry, realm and service where those keys are absent.
pub open spec fn legacy_target(rs: RegistrySettings, name: Seq<char>, fallback: Seq<char>) -> Result<
    TargetView,
    AppErrorView,
> {
    let upstream = match rs.upstream_registry.deep_view() {
        Some(u) => u,
        None => DOCKER_HUB_REGISTRY@,
    };
    let realm = match rs.auth_realm.deep_view() {
        Some(r) => r,
        None => DOCKER_HUB_AUTH_REALM@,
    };
    let service = match rs.auth_service.deep_view() {
        Some(s) => s,
        None => DOCKER_HUB_AUTH_SERVICE@,
    };
    match registry_base_url_result(upstream, "registry.upstream_registry"@) {
        Err(e) => Err(e),
        Ok(upstream) => match auth_realm_result(realm, "registry.auth_realm"@) {
            Err(e) => Err(e),
            Ok(realm) => match non_empty_result(service, "registry.auth_service"@) {
                Err(e) => Err(e),
                Ok(service) => match optional_public_base_url_result(
                    rs.public_base_url.deep_view(),
                    fallback,
                    "registry.public_base_url"@,
                ) {
                    Err(e) => Err(e),
                    Ok(public) => Ok(
                        TargetView {
                            name,
                            hosts: Seq::empty(),
                            upstream_registry: upstream,
                            auth_realm: realm,
                            auth_service: service,
                            auto_library_prefix: rs.auto_library_prefix,
                            public_base_url: public,
                        },
                    ),
                },
            },
        },
    }
}

/// The registry targets described by the settings: the upstream entries when
/// there are any, else the single legacy target; the default name must be
/// valid and must name one of them (ignoring ASCII case).
pub open spec fn registry_targets_result(rs: RegistrySettings, fallback: Seq<char>) -> Result<
    Seq<TargetView>,
    AppErrorView,
> {
    match registry_name_result(rs.default@) {
        Err(e) => Err(e),
        Ok(default_name) => {
            let regs = if rs.upstreams@.len() == 0 {
                match legacy_target(rs, default_name, fallback) {
                    Ok(t) => Ok(seq![t]),
                    Err(e) => Err(e),
                }
            } else {
                upstream_targets(rs.upstreams@, fallback)
            };
            match regs {
                Err(e) => Err(e),
                Ok(regs) => if regs.len() == 0 {
                    Err(config_error("registry configuration must include at least one upstream"@))
                } else if first_named(regs, default_name, 0) >= regs.len() {
                    Err(
                        config_error(
                            "registry.default '"@ + rs.default@
                                + "' does not match any configured upstream"@,
                        ),
                    )
                } else {
                    Ok(regs)
                },
            }
        },
    }
}

pub open spec fn targets_result(r: Result<Vec<RegistryTarget>, AppError>) -> Result<
    Seq<TargetView>,
    AppErrorView,
> {
    match r {
        Ok(v) => Ok(targets_view(v@)),
        Err(e) => Err(e@),
    }
}

/// Normalizes each configured host.
fn normalize_hosts(hosts: &Vec<String>) -> (r: Vec<String>)
    ensures
        r.deep_view() == hosts.deep_view().map_values(|h: Seq<char>| normalized_host(h)),
{
    let mut r: Vec<String> = Vec::new();
    let mut i: usize = 0;
    while i < hosts.len()
        invariant
            i <= hosts@.len(),
            r@.len() == i,
            forall|k: int| 0 <= k < i ==> #[trigger] r@[k]@ == normalized_host(hosts@[k]@),
        decreases hosts@.len() - i,
    {
        r.push(normalize_host(hosts[i].as_str()));
        i = i + 1;
    }
    assert(r.deep_view() =~= hosts.deep_view().map_values(|h: Seq<char>| normalized_host(h)));
    r
}

fn build_upstream_target(u: &RegistryUpstreamSettings, fallback: &str) -> (r: Result<
    RegistryTarget,
    AppError,
>)
    ensures
        match r {
            Ok(t) => upstream_target(*u, fallback@) == Ok::<TargetView, AppErrorView>(t@),
            Err(e) => upstream_target(*u, fallback@) == Err::<TargetView, AppErrorView>(e@),
        },
{
    let name = validate_registry_name(u.name.as_str())?;
    let hosts = normalize_hosts(&u.hosts);
    let upstream_registry = normalize_registry_base_url(
        u.upstream_registry.as_str(),
        "registry.upstreams[].upstream_registry",
    )?;
    let auth_realm = normalize_auth_realm(u.auth_realm.as_str(), "registry.upstreams[].auth_realm")?;
    let auth_service = normalize_non_empty(
        u.auth_service.as_str(),
        "registry.upstreams[].auth_service",
    )?;
    let public_base_url = normalize_optional_public_base_url(
        match &u.public_base_url {
            Some(p) => Some(p.as_str()),
            None => None,
        },
        fallback,
        "registry.upstreams[].public_base_url",
    )?;
    Ok(
        RegistryTarget {
            name,
            hosts,
            upstream_registry,
            auth_realm,
            auth_service,
            auto_library_prefix: u.auto_library_prefix,
            public_base_url,
        },
    )
}


fn build_upstream_targets(us: &Vec<RegistryUpstreamSettings>, fallback: &str) -> (r: Result<
    Vec<RegistryTarget>,
    AppError,
>)
    ensures
        targets_result(r) == upstream_targets(us@, fallback@),
{
    let mut out: Vec<RegistryTarget> = Vec::new();
    let mut i: usize = 0;
    proof {
        assert(us@.skip(0) =~= us@);
        if let Ok(ts) = upstream_targets(us@, fallback@) {
            assert(targets_view(out@) + ts =~= ts);
        }
    }
    while i < us.len()
        invariant
            i <= us@.len(),
            upstream_targets(us@, fallback@) == match upstream_targets(
                us@.skip(i as int),
                fallback@,
            ) {
                Ok(ts) => Ok(targets_view(out@) + ts),
                Err(e) => Err(e),
            },
        decreases us@.len() - i,
    {
        proof {
            assert(us@.skip(i as int).skip(1) =~= us@.skip(i + 1));
            assert(us@.skip(i as int)[0] == us@[i as int]);
        }
        let t = build_upstream_target(&us[i], fallback)?;
        proof {
            if let Ok(ts) = upstream_targets(us@.skip(i + 1), fallback@) {
                assert(targets_view(out@.push(t)) =~= targets_view(out@).push(t@));
                assert(targets_view(out@) + (seq![t@] + ts) =~= targets_view(out@.push(t)) + ts);
            }
        }
        out.push(t);
        i = i + 1;
    }
    proof {
        assert(us@.skip(us@.len() as int) =~= Seq::<RegistryUpstreamSettings>::empty());
        assert(targets_view(out@) + Seq::<TargetView>::empty() =~= targets_view(out@));
    }
    Ok(out)
}

fn option_str(o: &Option<String>) -> (r: Option<&str>)
    ensures
        match r {
            Some(s) => o.deep_view() == Some(s@),
            None => o is None,
        },
{
    match o {
        Some(s) => Some(s.as_str()),
        None => None,
    }
}

fn build_legacy_target(rs: &RegistrySettings, name: String, fallback: &str) -> (r: Result<
    RegistryTarget,
    AppError,
>)
    ensures
        match r {
            Ok(t) => legacy_target(*rs, name@, fallback@) == Ok::<TargetView, AppErrorView>(t@),
            Err(e) => legacy_target(*rs, name@, fallback@) == Err::<TargetView, AppErrorView>(e@),
        },
{
    let upstream = match option_str(&rs.upstream_registry) {
        Some(u) => u,
        None => DOCKER_HUB_REGISTRY,
    };
    let realm = match option_str(&rs.auth_realm) {
        Some(r) => r,
        None => DOCKER_HUB_AUTH_REALM,
    };
    let service = match option_str(&rs.auth_service) {
        Some(s) => s,
        None => DOCKER_HUB_AUTH_SERVICE,
    };
    let upstream_registry = normalize_registry_base_url(upstream, "registry.upstream_registry")?;
    let auth_realm = normalize_auth_realm(realm, "registry.auth_realm")?;
    let auth_service = normalize_non_empty(service, "registry.auth_service")?;
    let public_base_url = normalize_optional_public_base_url(
        option_str(&rs.public_base_url),
        fallback,
        "registry.public_base_url",
    )?;
    let hosts: Vec<String> = Vec::new();
    assert(hosts.deep_view() =~= Seq::<Seq<char>>::empty());
    Ok(
        RegistryTarget {
            name,
            hosts,
            upstream_registry,
            auth_realm,
            auth_service,
            auto_library_prefix: rs.auto_library_prefix,
            public_base_url,
        },
    )
}

/// Builds the registry targets from the settings (see [`registry_targets_result`]).
pub fn build_registry_targets(
    registry_settings: &RegistrySettings,
    default_public_base_url: &str,
) -> (r: Result<Vec<RegistryTarget>, AppError>)
    ensures
        targets_result(r) == registry_targets_result(*registry_settings, default_public_base_url@),
{
    let default_registry = validate_registry_name(registry_settings.default.as_str())?;
    let registries = if registry_settings.upstreams.len() == 0 {
        let t = build_legacy_target(registry_settings, default_registry.clone(), default_public_base_url)?;
        let mut v: Vec<RegistryTarget> = Vec::new();
        v.push(t);
        assert(targets_view(v@) =~= seq![t@]);
        v
    } else {
        build_upstream_targets(&registry_settings.upstreams, default_public_base_url)?
    };
    if registries.len() == 0 {
        return Err(
            AppError::TlsConfig(
                String::from_str("registry configuration must include at least one upstream"),
            ),
        );
    }
    let state = AppState {
        registries,
        default_registry: default_registry.clone(),
        public_base_url: String::new(),
    };
    let found = state.registry_by_name(default_registry.as_str());
    if found.is_none() {
        return Err(
            AppError::TlsConfig(
                concat3(
                    "registry.default '",
                    registry_settings.default.as_str(),
                    "' does not match any configured upstream",
                ),
            ),
        );
    }
    Ok(state.registries)
}

/// The state that the server runs with: the public base URL, the registry
/// targets, and the trimmed default registry name.
pub open spec fn app_state_result(settings: Settings) -> Result<(Seq<TargetView>, Seq<char>, Seq<char>), AppErrorView> {
    match server_public_base_url(settings.server) {
        Err(e) => Err(e),
        Ok(public) => match registry_targets_result(settings.registry, public) {
            Err(e) => Err(e),
            Ok(regs) => Ok((regs, trim(settings.registry.default@), public)),
        },
    }
}

/// Builds the server's state from its settings.
pub fn build_app_state(settings: &Settings) -> (r: Result<AppState, AppError>)
    ensures
        match r {
            Ok(state) => app_state_result(*settings) == Ok::<
                (Seq<TargetView>, Seq<char>, Seq<char>),
                AppErrorView,
            >((state.regs(), state.default_registry@, state.public_base_url@)),
            Err(e) => app_state_result(*settings) == Err::<
                (Seq<TargetView>, Seq<char>, Seq<char>),
                AppErrorView,
            >(e@),
        },
{
    let public_base_url = resolve_public_base_url(&settings.server)?;
    let registries = build_registry_targets(&settings.registry, public_base_url.as_str())?;
    let v = chars_of(settings.registry.default.as_str());
    let default_registry = string_of(&trim_chars(&v));
    Ok(AppState { registries, default_registry, public_base_url })
}


/// Every state that the settings build serves at least one registry, and its
/// default name names one of them: looking up the default never falls back to
/// the first registry.
pub proof fn law_built_state_serves_default(
    settings: Settings,
    regs: Seq<TargetView>,
    default_name: Seq<char>,
    public: Seq<char>,
)
    requires
        app_state_result(settings) == Ok::<
            (Seq<TargetView>, Seq<char>, Seq<char>),
            AppErrorView,
        >((regs, default_name, public)),
    ensures
        regs.len() > 0,
        first_named(regs, default_name, 0) < regs.len(),
        crate::registry::default_target(regs, default_name) == regs[first_named(
            regs,
            default_name,
            0,
        )],
{
}

/// A public base URL that the checks accept never ends with `/`, so the
/// paths appended to it (such as `/auth/...`) never produce `//`.
pub proof fn law_public_base_url_has_no_trailing_slash(raw: Seq<char>)
    ensures
        public_base_url_result(raw) matches Ok(u) ==> u.len() == 0 || u.last() != '/',
{
    if let Ok(u) = public_base_url_result(raw) {
        let href = url_without_path(raw).unwrap();
        crate::text::lemma_skip_back_bounds(href, href.len() as int, CharClass::Exactly('/'));
        let b = crate::text::skip_back(href, href.len() as int, CharClass::Exactly('/'));
        if b > 0 {
            assert(u.last() == href[b - 1]);
        }
    }
}


/// Normalizing a normalized public base URL gives it back, whenever the
/// parser reads the normalized text as it read the original: its parts pass
/// the same checks and its serialization without path is the same. (Whether
/// the `url` parser does so is the parser's matter; this states the
/// library's part.)
pub proof fn law_public_base_url_stable(raw: Seq<char>, u: Seq<char>)
    requires
        public_base_url_result(raw) == Ok::<Seq<char>, AppErrorView>(u),
        public_base_url_checks(url_parse_result(u)) == Ok::<(), AppErrorView>(()),
        url_without_path(u) == url_without_path(raw),
    ensures
        public_base_url_result(u) == Ok::<Seq<char>, AppErrorView>(u),
{
}

/// A target carries its configuration entry's checked values: the trimmed
/// name, the trimmed upstream URL without trailing `/`, the trimmed token
/// realm and service, the entry's own library-prefix flag, one host per
/// configured host, and the fallback public base URL when the entry sets none.
pub open spec fn carries_entry(t: TargetView, u: RegistryUpstreamSettings, fallback: Seq<char>) -> bool {
    &&& t.name == trim(u.name@)
    &&& t.upstream_registry == trim_end_class(trim(u.upstream_registry@), CharClass::Exactly('/'))
    &&& t.auth_realm == trim(u.auth_realm@)
    &&& t.auth_service == trim(u.auth_service@)
    &&& t.auto_library_prefix == u.auto_library_prefix
    &&& t.hosts.len() == u.hosts@.len()
    &&& u.public_base_url is None ==> t.public_base_url == fallback
}

proof fn lemma_upstream_target_carries_entry(u: RegistryUpstreamSettings, fallback: Seq<char>)
    ensures
        upstream_target(u, fallback) matches Ok(t) ==> carries_entry(t, u, fallback),
{
}

proof fn lemma_upstream_targets_carry_entries(us: Seq<RegistryUpstreamSettings>, fallback: Seq<char>)
    ensures
        upstream_targets(us, fallback) matches Ok(regs) ==> regs.len() == us.len() && forall|i: int|
            0 <= i < regs.len() ==> carries_entry(#[trigger] regs[i], us[i], fallback),
    decreases us.len(),
{
    if us.len() > 0 {
        lemma_upstream_targets_carry_entries(us.skip(1), fallback);
        lemma_upstream_target_carries_entry(us[0], fallback);
        if let Ok(regs) = upstream_targets(us, fallback) {
            let ts = match upstream_targets(us.skip(1), fallback) {
                Ok(ts) => ts,
                Err(_) => Seq::empty(),
            };
            assert forall|i: int| 0 <= i < regs.len() implies carries_entry(
                #[trigger] regs[i],
                us[i],
                fallback,
            ) by {
                if i > 0 {
                    assert(regs[i] == ts[i - 1]);
                    assert(us.skip(1)[i - 1] == us[i]);
                }
            }
        }
    }
}

/// The targets built from the settings are the configured entries, in order,
/// each with its own checked values and its own library-prefix flag; with no
/// `[[registry.upstreams]]`, the single target is named by `registry.default`
/// and carries the top-level flag.
pub proof fn law_built_targets_carry_their_entries(rs: RegistrySettings, fallback: Seq<char>)
    ensures
        registry_targets_result(rs, fallback) matches Ok(regs) ==> {
            &&& rs.upstreams@.len() > 0 ==> regs.len() == rs.upstreams@.len() && forall|i: int|
                0 <= i < regs.len() ==> carries_entry(#[trigger] regs[i], rs.upstreams@[i], fallback)
            &&& rs.upstreams@.len() == 0 ==> regs.len() == 1 && regs[0].name == trim(rs.default@)
                && regs[0].auto_library_prefix == rs.auto_library_prefix && regs[0].hosts.len() == 0
        },
{
    lemma_upstream_targets_carry_entries(rs.upstreams@, fallback);
}

proof fn lemma_registry_name_plain(name: Seq<char>)
    ensures
        registry_name_result(name) matches Ok(n) ==> crate::auth::is_plain(n),
{
    if let Ok(n) = registry_name_result(name) {
        assert forall|i: int| 0 <= i < n.len() implies #[trigger] n[i] != '"' && n[i] != '\\' by {
            assert(is_registry_name_char(n[i]));
        }
    }
}

proof fn lemma_upstream_target_names_plain(us: Seq<RegistryUpstreamSettings>, fallback: Seq<char>)
    ensures
        upstream_targets(us, fallback) matches Ok(regs) ==> forall|i: int|
            0 <= i < regs.len() ==> crate::auth::is_plain(#[trigger] regs[i].name),
    decreases us.len(),
{
    if us.len() > 0 {
        lemma_upstream_target_names_plain(us.skip(1), fallback);
        lemma_registry_name_plain(us[0].name@);
        if let Ok(regs) = upstream_targets(us, fallback) {
            let ts = match upstream_targets(us.skip(1), fallback) {
                Ok(ts) => ts,
                Err(_) => Seq::empty(),
            };
            assert forall|i: int| 0 <= i < regs.len() implies crate::auth::is_plain(
                #[trigger] regs[i].name,
            ) by {
                if i > 0 {
                    assert(regs[i] == ts[i - 1]);
                }
            }
        }
    }
}

/// Every registry that the settings build has a name made only of ASCII
/// letters, digits, `-`, `_` and `.`, so the challenge's realm, which carries
/// the name, reads back exactly (see `law_challenge_reads_back`).
pub proof fn law_built_registry_names_are_plain(rs: RegistrySettings, fallback: Seq<char>)
    ensures
        registry_targets_result(rs, fallback) matches Ok(regs) ==> forall|i: int|
            0 <= i < regs.len() ==> crate::auth::is_plain(#[trigger] regs[i].name),
{
    lemma_registry_name_plain(rs.default@);
    lemma_upstream_target_names_plain(rs.upstreams@, fallback);
}

} // verus!
