//! The token and challenge side of the proxy: scope rewriting, parsing of
//! `WWW-Authenticate: Bearer` parameters and building the challenge that sends
//! clients to this proxy's own token endpoint.
use vstd::prelude::*;
use crate::error::{text_result, AppError, AppErrorView};
use crate::registry::{first_named, target_for_host, AppState, RegistryTarget, TargetView};
use crate::urls::{
    parse_view, UrlParts,
    parse_url, query_pairs_of_url, url_parse_result, url_query_pairs_of, url_with_pairs_of,
    url_with_query_pairs,
};
use crate::text::{
    ascii_lower, chars_of, concat2, contains_char, copy_range, eq_ic, eq_ic_chars, find_exec,
    is_white_space, lemma_find_from, lemma_skip_fwd_bounds, lemma_split_once_concat,
    lemma_split_once_pieces, lemma_trim_unchanged, push_all, push_str_chars, skip_fwd, split_once,
    split_once_chars, starts_with, starts_with_exec, string_of, trim, trim_chars, trim_start,
    trim_start_chars, trim_start_class, CharClass,
};

verus! {

/// What one character becomes inside a quoted auth parameter.
pub open spec fn escape_char(c: char) -> Seq<char> {
    if c == '\\' {
        seq!['\\', '\\']
    } else if c == '"' {
        seq!['\\', '"']
    } else {
        seq![c]
    }
}

/// `value.replace('\\', "\\\\").replace('"', "\\\"")`: each backslash and each
/// double quote gets a backslash in front of it.
pub open spec fn escape(s: Seq<char>) -> Seq<char>
    decreases s.len(),
{
    if s.len() == 0 {
        Seq::empty()
    } else {
        escape_char(s[0]) + escape(s.skip(1))
    }
}

pub proof fn lemma_escape_push(s: Seq<char>, c: char)
    ensures
        escape(s.push(c)) == escape(s) + escape_char(c),
    decreases s.len(),
{
    if s.len() == 0 {
        assert(s.push(c).skip(1) =~= Seq::<char>::empty());
        assert(escape(s.push(c)) =~= escape_char(c) + escape(Seq::<char>::empty()));
    } else {
        assert(s.push(c).skip(1) =~= s.skip(1).push(c));
        lemma_escape_push(s.skip(1), c);
        assert(escape(s.push(c)) =~= escape_char(s[0]) + escape(s.skip(1).push(c)));
    }
}

pub fn escape_chars(v: &Vec<char>) -> (r: Vec<char>)
    ensures
        r@ == escape(v@),
{
    let mut r: Vec<char> = Vec::new();
    let mut i: usize = 0;
    while i < v.len()
        invariant
            i <= v@.len(),
            r@ == escape(v@.take(i as int)),
        decreases v@.len() - i,
    {
        let c = v[i];
        proof {
            assert(v@.take(i + 1) =~= v@.take(i as int).push(c));
            lemma_escape_push(v@.take(i as int), c);
        }
        if c == '\\' {
            r.push('\\');
            r.push('\\');
        } else if c == '"' {
            r.push('\\');
            r.push('"');
        } else {
            r.push(c);
        }
        i = i + 1;
        assert(r@ =~= escape(v@.take(i as int)));
    }
    assert(v@.take(v@.len() as int) =~= v@);
    r
}

/// Escapes a value for use inside a quoted `WWW-Authenticate` parameter.
pub fn escape_auth_param(value: &str) -> (r: String)
    ensures
        r@ == escape(value@),
{
    let v = chars_of(value);
    string_of(&escape_chars(&v))
}

/// The three pieces of a `kind:image:action` scope, when it splits at `:` into
/// exactly three pieces.
pub open spec fn scope_pieces(scope: Seq<char>) -> Option<(Seq<char>, Seq<char>, Seq<char>)> {
    match split_once(scope, ':') {
        Some((kind, rest)) => match split_once(rest, ':') {
            Some((image, action)) => if !action.contains(':') {
                Some((kind, image, action))
            } else {
                None
            },
            None => None,
        },
        None => None,
    }
}

/// The scope forwarded to the token service: with the library prefix enabled, a
/// `repository:IMAGE:ACTION` scope whose image has no `/` becomes
/// `repository:library/IMAGE:ACTION`; every other scope is forwarded as it is.
pub open spec fn processed_scope(scope: Seq<char>, auto_library_prefix: bool) -> Seq<char> {
    if !auto_library_prefix {
        scope
    } else {
        match scope_pieces(scope) {
            Some((kind, image, action)) => if kind == "repository"@ {
                kind + seq![':'] + (if image.contains('/') {
                    image
                } else {
                    "library/"@ + image
                }) + seq![':'] + action
            } else {
                scope
            },
            None => scope,
        }
    }
}

pub fn process_scope_parameter(scope: &str, auto_library_prefix: bool) -> (r: String)
    ensures
        r@ == processed_scope(scope@, auto_library_prefix),
{
    if !auto_library_prefix {
        return String::from_str(scope);
    }
    let v = chars_of(scope);
    let (kind, rest) = match split_once_chars(&v, ':') {
        Some(p) => p,
        None => return String::from_str(scope),
    };
    let (image, action) = match split_once_chars(&rest, ':') {
        Some(p) => p,
        None => return String::from_str(scope),
    };
    if contains_char(&action, ':') {
        return String::from_str(scope);
    }
    let repository = chars_of("repository");
    if kind.len() != repository.len() || !starts_with_exec(&kind, &repository) {
        proof {
            if kind@ == "repository"@ {
                assert(kind@.take(repository@.len() as int) =~= kind@);
            }
        }
        return String::from_str(scope);
    }
    assert(kind@ =~= "repository"@) by {
        assert(kind@.take(repository@.len() as int) =~= kind@);
    }
    let mut out = kind;
    out.push(':');
    if !contains_char(&image, '/') {
        let library = chars_of("library/");
        push_all(&mut out, &library);
    }
    push_all(&mut out, &image);
    out.push(':');
    push_all(&mut out, &action);
    assert(out@ =~= processed_scope(scope@, auto_library_prefix));
    string_of(&out)
}


/// Scope processing is idempotent: a scope that was processed once passes
/// through a second processing unchanged (so `repository:library/alpine:pull`
/// stays as it is).
pub proof fn law_processed_scope_idempotent(scope: Seq<char>, auto_library_prefix: bool)
    ensures
        processed_scope(processed_scope(scope, auto_library_prefix), auto_library_prefix)
            == processed_scope(scope, auto_library_prefix),
{
    if auto_library_prefix {
        if let Some((kind, image, action)) = scope_pieces(scope) {
            if kind == "repository"@ {
                reveal_strlit("library/");
                let (k0, rest) = split_once(scope, ':').unwrap();
                lemma_split_once_pieces(scope, ':');
                lemma_split_once_pieces(rest, ':');
                let image2 = if image.contains('/') {
                    image
                } else {
                    "library/"@ + image
                };
                assert(!image2.contains(':')) by {
                    if !image.contains('/') {
                        assert forall|k: int| 0 <= k < image2.len() implies image2[k] != ':' by {
                            if k >= 8 {
                                assert(image2[k] == image[k - 8]);
                            }
                        }
                    }
                }
                assert(image2.contains('/')) by {
                    if !image.contains('/') {
                        assert(image2[7] == '/');
                    }
                }
                let r = kind + seq![':'] + image2 + seq![':'] + action;
                assert(r == processed_scope(scope, true));
                assert(r =~= kind + seq![':'] + (image2 + seq![':'] + action));
                lemma_split_once_concat(kind, ':', image2 + seq![':'] + action);
                lemma_split_once_concat(image2, ':', action);
                assert(scope_pieces(r) == Some((kind, image2, action)));
            }
        }
    }
}

/// What scope processing does to a `KIND:IMAGE:ACTION` scope: with the
/// library prefix enabled, a `repository` scope whose image has no `/` gains
/// `library/` in front of its image; every other scope, in particular one
/// whose image already has a namespace (`repository:bitnami/redis:pull`), and
/// every scope when the prefix is disabled, is forwarded unchanged.
pub proof fn law_scope_library_prefix(
    kind: Seq<char>,
    image: Seq<char>,
    action: Seq<char>,
    auto_library_prefix: bool,
)
    requires
        !kind.contains(':'),
        !image.contains(':'),
        !action.contains(':'),
    ensures
        ({
            let scope = kind + seq![':'] + image + seq![':'] + action;
            processed_scope(scope, auto_library_prefix) == if auto_library_prefix && kind
                == "repository"@ && !image.contains('/') {
                kind + seq![':'] + "library/"@ + image + seq![':'] + action
            } else {
                scope
            }
        }),
{
    let scope = kind + seq![':'] + image + seq![':'] + action;
    let rest = image + seq![':'] + action;
    assert(scope =~= kind + seq![':'] + rest);
    lemma_split_once_concat(kind, ':', rest);
    lemma_split_once_concat(image, ':', action);
    assert(scope_pieces(scope) == Some((kind, image, action)));
    if auto_library_prefix && kind == "repository"@ {
        if image.contains('/') {
            assert(kind + seq![':'] + image + seq![':'] + action =~= scope);
        } else {
            assert(kind + seq![':'] + ("library/"@ + image) + seq![':'] + action
                =~= kind + seq![':'] + "library/"@ + image + seq![':'] + action);
        }
    }
}

/// Reads the body of a quoted parameter value (the text after its opening
/// quote): a backslash takes the next character literally, and the first
/// unescaped `"` closes the value. Returns the value and the number of
/// characters read, closing quote included; `None` when the value is not closed.
pub open spec fn unquote(s: Seq<char>) -> Option<(Seq<char>, int)>
    decreases s.len(),
{
    if s.len() == 0 {
        None
    } else if s[0] == '"' {
        Some((Seq::empty(), 1))
    } else if s[0] == '\\' {
        if s.len() < 2 {
            None
        } else {
            match unquote(s.skip(2)) {
                Some((v, n)) => Some((seq![s[1]] + v, n + 2)),
                None => None,
            }
        }
    } else {
        match unquote(s.skip(1)) {
            Some((v, n)) => Some((seq![s[0]] + v, n + 1)),
            None => None,
        }
    }
}

pub proof fn lemma_unquote_len(s: Seq<char>)
    ensures
        unquote(s) matches Some((v, n)) ==> 1 <= n <= s.len(),
    decreases s.len(),
{
    if s.len() > 0 && s[0] != '"' {
        if s[0] == '\\' {
            if s.len() >= 2 {
                lemma_unquote_len(s.skip(2));
            }
        } else {
            lemma_unquote_len(s.skip(1));
        }
    }
}

/// One `key=value` item at the start of `item`: its trimmed key, its value
/// (unquoted, or up to the next comma and trimmed) and the text after it.
pub open spec fn auth_param_item(item: Seq<char>) -> Option<(Seq<char>, Seq<char>, Seq<char>)> {
    match split_once(item, '=') {
        None => None,
        Some((k, r)) => {
            let key = trim(k);
            let rest = trim_start(r);
            if rest.len() > 0 && rest[0] == '"' {
                match unquote(rest.skip(1)) {
                    Some((value, n)) => Some((key, value, rest.skip(1).skip(n))),
                    None => None,
                }
            } else {
                match split_once(rest, ',') {
                    Some((value, remaining)) => Some((key, trim(value), remaining)),
                    None => Some((key, trim(rest), Seq::empty())),
                }
            }
        },
    }
}

pub proof fn lemma_auth_param_item_shorter(item: Seq<char>)
    ensures
        auth_param_item(item) matches Some((key, value, rest)) ==> rest.len() < item.len(),
{
    lemma_find_from(item, '=', 0);
    if let Some((k, r)) = split_once(item, '=') {
        let rest = trim_start(r);
        lemma_skip_fwd_bounds(r, 0, CharClass::WhiteSpace);
        if rest.len() > 0 && rest[0] == '"' {
            lemma_unquote_len(rest.skip(1));
        } else {
            lemma_find_from(rest, ',', 0);
        }
    }
}

/// Looks for the parameter `name` (compared ignoring ASCII case) among the
/// comma-separated `key=value` items of `input`; the first match wins, and a
/// malformed item ends the search.
pub open spec fn find_auth_param(input: Seq<char>, name: Seq<char>) -> Option<Seq<char>>
    decreases input.len(),
{
    if input.len() == 0 {
        None
    } else {
        let item = trim_start_class(input, CharClass::CommaOrAsciiSpace);
        match auth_param_item(item) {
            None => None,
            Some((key, value, rest)) => if eq_ic(key, name) {
                Some(value)
            } else {
                proof {
                    lemma_skip_fwd_bounds(input, 0, CharClass::CommaOrAsciiSpace);
                    lemma_auth_param_item_shorter(item);
                }
                find_auth_param(rest, name)
            },
        }
    }
}

/// The value of parameter `name` in a `Bearer` challenge header.
pub open spec fn bearer_param_of(header: Seq<char>, name: Seq<char>) -> Option<Seq<char>> {
    let h = trim(header);
    if starts_with(h, "Bearer "@) {
        find_auth_param(trim(h.skip("Bearer "@.len() as int)), name)
    } else {
        None
    }
}

/// Reads a quoted value starting at `v[start]` (just after its opening quote).
pub fn unquote_chars(v: &Vec<char>, start: usize) -> (r: Option<(Vec<char>, usize)>)
    requires
        start <= v@.len(),
    ensures
        match r {
            Some((value, n)) => unquote(v@.skip(start as int)) == Some((value@, n as int)),
            None => unquote(v@.skip(start as int)) is None,
        },
{
    let mut value: Vec<char> = Vec::new();
    let mut i = start;
    while i < v.len()
        invariant
            start <= i <= v@.len(),
            unquote(v@.skip(start as int)) == match unquote(v@.skip(i as int)) {
                Some((w, n)) => Some((value@ + w, n + (i - start))),
                None => None,
            },
        decreases v@.len() - i,
    {
        let c = v[i];
        if c == '"' {
            assert(value@ + Seq::<char>::empty() =~= value@);
            return Some((value, i + 1 - start));
        } else if c == '\\' {
            if i + 1 >= v.len() {
                return None;
            }
            let d = v[i + 1];
            proof {
                assert(v@.skip(i as int).skip(2) =~= v@.skip(i + 2));
                assert(v@.skip(i as int)[1] == d);
                if let Some((w, n)) = unquote(v@.skip(i + 2)) {
                    assert(value@ + (seq![d] + w) =~= value@.push(d) + w);
                }
            }
            value.push(d);
            i = i + 2;
        } else {
            proof {
                assert(v@.skip(i as int).skip(1) =~= v@.skip(i + 1));
                if let Some((w, n)) = unquote(v@.skip(i + 1)) {
                    assert(value@ + (seq![c] + w) =~= value@.push(c) + w);
                }
            }
            value.push(c);
            i = i + 1;
        }
    }
    None
}

/// The value of parameter `param_name` in a `Bearer` challenge header.
pub fn bearer_param(auth_header: &str, param_name: &str) -> (r: Option<String>)
    ensures
        r.deep_view() == bearer_param_of(auth_header@, param_name@),
{
    let header = chars_of(auth_header);
    let name = chars_of(param_name);
    let h = trim_chars(&header);
    let prefix = chars_of("Bearer ");
    if !starts_with_exec(&h, &prefix) {
        return None;
    }
    let after = copy_range(&h, prefix.len(), h.len());
    assert(after@ =~= h@.skip("Bearer "@.len() as int));
    let mut input = trim_chars(&after);
    while input.len() > 0
        invariant
            bearer_param_of(auth_header@, param_name@) == find_auth_param(input@, name@),
            name@ == param_name@,
        decreases input@.len(),
    {
        let item = trim_start_chars(&input, CharClass::CommaOrAsciiSpace);
        proof {
            lemma_skip_fwd_bounds(input@, 0, CharClass::CommaOrAsciiSpace);
            lemma_auth_param_item_shorter(item@);
        }
        let (k, r) = match split_once_chars(&item, '=') {
            Some(p) => p,
            None => return None,
        };
        let key = trim_chars(&k);
        let rest = trim_start_chars(&r, CharClass::WhiteSpace);
        let (value, remaining) = if rest.len() > 0 && rest[0] == '"' {
            match unquote_chars(&rest, 1) {
                Some((value, n)) => {
                    proof {
                        lemma_unquote_len(rest@.skip(1));
                    }
                    (value, copy_range(&rest, 1 + n, rest.len()))
                },
                None => return None,
            }
        } else {
            match split_once_chars(&rest, ',') {
                Some((value, remaining)) => (trim_chars(&value), remaining),
                None => (trim_chars(&rest), Vec::new()),
            }
        };
        proof {
            if rest@.len() > 0 && rest@[0] == '"' {
                assert(remaining@ =~= rest@.skip(1).skip(
                    unquote(rest@.skip(1)).unwrap().1,
                ));
            } else if split_once(rest@, ',') is None {
                assert(remaining@ =~= Seq::<char>::empty());
            }
            assert(auth_param_item(item@) == Some((key@, value@, remaining@)));
        }
        if eq_ic_chars(&key, &name) {
            return Some(string_of(&value));
        }
        input = remaining;
    }
    None
}


/// The `WWW-Authenticate` challenge that sends clients to this proxy's token
/// endpoint for the registry, keeping the scope that the upstream challenge asked for.
pub open spec fn auth_challenge(
    public_base_url: Seq<char>,
    name: Seq<char>,
    auth_service: Seq<char>,
    upstream_challenge: Option<Seq<char>>,
) -> Seq<char> {
    let base = "Bearer realm=\""@ + public_base_url + "/auth/"@ + name + "/token\",service=\""@
        + escape(auth_service) + "\""@;
    match upstream_challenge {
        Some(header) => match bearer_param_of(header, "scope"@) {
            Some(scope) => base + ",scope=\""@ + escape(scope) + "\""@,
            None => base,
        },
        None => base,
    }
}

pub fn build_auth_challenge(registry: &RegistryTarget, upstream_challenge: Option<&str>) -> (r:
    String)
    ensures
        r@ == auth_challenge(
            registry.public_base_url@,
            registry.name@,
            registry.auth_service@,
            match upstream_challenge {
                Some(h) => Some(h@),
                None => None,
            },
        ),
{
    let mut out: Vec<char> = Vec::new();
    push_str_chars(&mut out, "Bearer realm=\"");
    push_str_chars(&mut out, registry.public_base_url.as_str());
    push_str_chars(&mut out, "/auth/");
    push_str_chars(&mut out, registry.name.as_str());
    push_str_chars(&mut out, "/token\",service=\"");
    let service = chars_of(registry.auth_service.as_str());
    push_all(&mut out, &escape_chars(&service));
    push_str_chars(&mut out, "\"");
    let ghost base = out@;
    match upstream_challenge {
        Some(header) => match bearer_param(header, "scope") {
            Some(scope) => {
                push_str_chars(&mut out, ",scope=\"");
                let scope_chars = chars_of(scope.as_str());
                push_all(&mut out, &escape_chars(&scope_chars));
                push_str_chars(&mut out, "\"");
            },
            None => {},
        },
        None => {},
    }
    string_of(&out)
}


/// The pairs of a request's query string, decoded as the `url` crate decodes
/// the query of `http://localhost/?` followed by it.
pub open spec fn query_pairs_result(query_string: Seq<char>) -> Result<
    Seq<(Seq<char>, Seq<char>)>,
    AppErrorView,
> {
    match url_query_pairs_of("http://localhost/?"@ + query_string) {
        Some(pairs) => Ok(pairs),
        None => Err(AppErrorView::InvalidRequest("invalid query parameters"@)),
    }
}

pub fn query_pairs(query_string: &str) -> (r: Result<Vec<(String, String)>, AppError>)
    ensures
        match r {
            Ok(pairs) => query_pairs_result(query_string@) == Ok::<
                Seq<(Seq<char>, Seq<char>)>,
                AppErrorView,
            >(pairs.deep_view()),
            Err(e) => query_pairs_result(query_string@) == Err::<
                Seq<(Seq<char>, Seq<char>)>,
                AppErrorView,
            >(e@),
        },
{
    let url = concat2("http://localhost/?", query_string);
    match query_pairs_of_url(url.as_str()) {
        Some(pairs) => Ok(pairs),
        None => Err(AppError::InvalidRequest(String::from_str("invalid query parameters"))),
    }
}

/// What a client's query pair becomes on its way to the token service: a
/// `service` pair is dropped (the proxy sends its own), a `scope` pair has its
/// scope processed, and any other pair is kept (keys compared ignoring ASCII case).
pub open spec fn forwarded_token_pair(pair: (Seq<char>, Seq<char>), auto_library_prefix: bool) -> Seq<
    (Seq<char>, Seq<char>),
> {
    if eq_ic(pair.0, "service"@) {
        Seq::empty()
    } else if eq_ic(pair.0, "scope"@) {
        seq![(pair.0, processed_scope(pair.1, auto_library_prefix))]
    } else {
        seq![pair]
    }
}

pub open spec fn forwarded_token_pairs(
    pairs: Seq<(Seq<char>, Seq<char>)>,
    auto_library_prefix: bool,
) -> Seq<(Seq<char>, Seq<char>)>
    decreases pairs.len(),
{
    if pairs.len() == 0 {
        Seq::empty()
    } else {
        forwarded_token_pairs(pairs.drop_last(), auto_library_prefix) + forwarded_token_pair(
            pairs.last(),
            auto_library_prefix,
        )
    }
}

/// The query pairs sent to the token service: the registry's own `service`
/// first, then the client's pairs as [`forwarded_token_pair`] describes.
pub open spec fn token_query_pairs(
    auth_service: Seq<char>,
    client_pairs: Seq<(Seq<char>, Seq<char>)>,
    auto_library_prefix: bool,
) -> Seq<(Seq<char>, Seq<char>)> {
    seq![("service"@, auth_service)] + forwarded_token_pairs(client_pairs, auto_library_prefix)
}

pub fn token_request_pairs(registry: &RegistryTarget, client_pairs: &Vec<(String, String)>) -> (r:
    Vec<(String, String)>)
    ensures
        r.deep_view() == token_query_pairs(
            registry.auth_service@,
            client_pairs.deep_view(),
            registry.auto_library_prefix,
        ),
{
    let mut out: Vec<(String, String)> = Vec::new();
    out.push((String::from_str("service"), registry.auth_service.clone()));
    let ghost first = seq![("service"@, registry.auth_service@)];
    assert(out.deep_view() =~= first);
    let service = chars_of("service");
    let scope = chars_of("scope");
    let mut i: usize = 0;
    while i < client_pairs.len()
        invariant
            i <= client_pairs@.len(),
            service@ == "service"@,
            scope@ == "scope"@,
            first == seq![("service"@, registry.auth_service@)],
            out.deep_view() == first + forwarded_token_pairs(
                client_pairs.deep_view().take(i as int),
                registry.auto_library_prefix,
            ),
        decreases client_pairs@.len() - i,
    {
        let (key, value) = &client_pairs[i];
        let ghost before = out.deep_view();
        let k = chars_of(key.as_str());
        proof {
            assert(client_pairs.deep_view().take(i + 1).drop_last() =~= client_pairs.deep_view().take(
                i as int,
            ));
            assert(client_pairs.deep_view().take(i + 1).last() == (key@, value@));
        }
        if eq_ic_chars(&k, &service) {
            assert(out.deep_view() =~= before + Seq::<(Seq<char>, Seq<char>)>::empty());
        } else if eq_ic_chars(&k, &scope) {
            let processed = process_scope_parameter(value.as_str(), registry.auto_library_prefix);
            out.push((key.clone(), processed));
            assert(out.deep_view() =~= before + seq![
                (key@, processed_scope(value@, registry.auto_library_prefix)),
            ]);
        } else {
            out.push((key.clone(), value.clone()));
            assert(out.deep_view() =~= before + seq![(key@, value@)]);
        }
        i = i + 1;
    }
    assert(client_pairs.deep_view().take(client_pairs@.len() as int) =~= client_pairs.deep_view());
    out
}

/// The URL of the token request sent upstream: the registry's realm with the
/// query pairs of [`token_query_pairs`] appended to it.
pub open spec fn token_url_result(
    registry: TargetView,
    query_string: Seq<char>,
) -> Result<Seq<char>, AppErrorView> {
    match url_parse_result(registry.auth_realm) {
        Err(e) => Err(
            AppErrorView::InvalidRequest(
                "invalid auth realm for "@ + registry.name + ": "@ + e,
            ),
        ),
        Ok(_) => match query_pairs_result(query_string) {
            Err(e) => Err(e),
            Ok(pairs) => Ok(
                url_with_pairs_of(
                    registry.auth_realm,
                    token_query_pairs(registry.auth_service, pairs, registry.auto_library_prefix),
                ).unwrap(),
            ),
        },
    }
}

/// The verdict on the registry's token realm, given what the parser made of
/// it: a parse error refuses the token request.
pub fn check_auth_realm_parts(registry: &RegistryTarget, parsed: &Result<UrlParts, String>) -> (r:
    Result<(), AppError>)
    ensures
        match parse_view(*parsed) {
            Err(e) => r matches Err(err) && err@ == AppErrorView::InvalidRequest(
                "invalid auth realm for "@ + registry.name@ + ": "@ + e,
            ),
            Ok(_) => r is Ok,
        },
{
    match parsed {
        Err(e) => {
            let mut out: Vec<char> = Vec::new();
            push_str_chars(&mut out, "invalid auth realm for ");
            push_str_chars(&mut out, registry.name.as_str());
            push_str_chars(&mut out, ": ");
            push_str_chars(&mut out, e.as_str());
            Err(AppError::InvalidRequest(string_of(&out)))
        },
        Ok(_) => Ok(()),
    }
}

pub fn token_request_url(registry: &RegistryTarget, query_string: &str) -> (r: Result<
    String,
    AppError,
>)
    ensures
        text_result(r) == token_url_result(registry@, query_string@),
{
    let parsed = parse_url(registry.auth_realm.as_str());
    check_auth_realm_parts(registry, &parsed)?;
    let client_pairs = query_pairs(query_string)?;
    let pairs = token_request_pairs(registry, &client_pairs);
    match url_with_query_pairs(registry.auth_realm.as_str(), &pairs) {
        Some(url) => Ok(url),
        None => Err(AppError::InvalidRequest(String::from_str("invalid auth realm"))),
    }
}

/// The URL probed for the registry's `/v2/` challenge.
pub fn challenge_request_url(registry: &RegistryTarget) -> (r: String)
    ensures
        r@ == registry.upstream_registry@ + "/v2/"@,
{
    concat2(registry.upstream_registry.as_str(), "/v2/")
}

/// The `WWW-Authenticate` header added to the `/v2/` answer: only a `401`
/// from upstream gets one, and it sends the client to this proxy's token endpoint.
pub fn challenge_header(registry: &RegistryTarget, status: u16) -> (r: Option<String>)
    ensures
        r.deep_view() == (if status == 401 {
            Some(
                auth_challenge(registry.public_base_url@, registry.name@, registry.auth_service@, None),
            )
        } else {
            None
        }),
{
    if status == 401 {
        Some(build_auth_challenge(registry, None))
    } else {
        None
    }
}

/// The registry that a token request is for: the one named in the route when
/// the route names one, else the one chosen by the `Host` header.
pub fn resolve_registry(
    app_state: &AppState,
    route_registry: Option<&str>,
    host_header: Option<&str>,
) -> (r: Result<RegistryTarget, AppError>)
    requires
        route_registry is None ==> app_state.registries@.len() > 0,
    ensures
        match route_registry {
            Some(name) => {
                let i = first_named(app_state.regs(), name@, 0);
                match r {
                    Ok(t) => i < app_state.regs().len() && t@ == app_state.regs()[i],
                    Err(e) => i == app_state.regs().len() && e@ == AppErrorView::InvalidRequest(
                        "unknown registry target: "@ + name@,
                    ),
                }
            },
            None => r matches Ok(t) && t@ == target_for_host(
                app_state.regs(),
                app_state.default_registry@,
                match host_header {
                    Some(h) => Some(h@),
                    None => None,
                },
            ),
        },
{
    match route_registry {
        Some(name) => match app_state.registry_by_name(name) {
            Some(t) => Ok(t),
            None => Err(AppError::InvalidRequest(concat2("unknown registry target: ", name))),
        },
        None => Ok(app_state.registry_for_request(host_header)),
    }
}


/// A text that needs no escaping: it holds no `"` and no backslash.
pub open spec fn is_plain(s: Seq<char>) -> bool {
    forall|i: int| 0 <= i < s.len() ==> #[trigger] s[i] != '"' && s[i] != '\\'
}

pub proof fn lemma_escape_plain(s: Seq<char>)
    requires
        is_plain(s),
    ensures
        escape(s) == s,
    decreases s.len(),
{
    if s.len() > 0 {
        assert(is_plain(s.skip(1))) by {
            assert forall|i: int| 0 <= i < s.skip(1).len() implies #[trigger] s.skip(1)[i] != '"'
                && s.skip(1)[i] != '\\' by {
                assert(s.skip(1)[i] == s[i + 1]);
            }
        }
        lemma_escape_plain(s.skip(1));
        assert(escape(s) =~= seq![s[0]] + s.skip(1));
        assert(s =~= seq![s[0]] + s.skip(1));
    }
}

/// Reading back an escaped value: the quoted-value reader returns exactly
/// the value that was escaped, and stops just after the closing quote.
pub proof fn lemma_unquote_escape(v: Seq<char>, t: Seq<char>)
    ensures
        unquote(escape(v) + seq!['"'] + t) == Some((v, escape(v).len() + 1int)),
    decreases v.len(),
{
    let s = escape(v) + seq!['"'] + t;
    if v.len() == 0 {
        assert(escape(v) =~= Seq::<char>::empty());
        assert(s[0] == '"');
    } else {
        let rest = escape(v.skip(1)) + seq!['"'] + t;
        lemma_unquote_escape(v.skip(1), t);
        let c = v[0];
        assert(s =~= escape_char(c) + rest);
        if c == '\\' || c == '"' {
            assert(s.skip(2) =~= rest);
            assert(seq![s[1]] + v.skip(1) =~= v);
        } else {
            assert(s.skip(1) =~= rest);
            assert(seq![s[0]] + v.skip(1) =~= v);
        }
    }
}

/// A parameter key made of lowercase ASCII letters.
pub open spec fn is_simple_key(k: Seq<char>) -> bool {
    k.len() > 0 && forall|i: int| 0 <= i < k.len() ==> 'a' <= #[trigger] k[i] && k[i] <= 'z'
}

/// The text of a quoted parameter `k="v"` followed by `t`.
pub open spec fn quoted_param(k: Seq<char>, v: Seq<char>, t: Seq<char>) -> Seq<char> {
    k + seq!['=', '"'] + escape(v) + seq!['"'] + t
}

/// A parameter key that reads back as written: it holds no `=`, does not
/// start with a comma, and neither starts nor ends with white space.
pub open spec fn is_param_key(k: Seq<char>) -> bool {
    &&& !k.contains('=')
    &&& k.len() > 0 ==> k[0] != ',' && !is_white_space(k[0]) && !is_white_space(k.last())
}

proof fn lemma_simple_key_is_param_key(k: Seq<char>)
    requires
        is_simple_key(k),
    ensures
        is_param_key(k),
{
    assert forall|i: int| 0 <= i < k.len() implies k[i] != '=' by {
        assert('a' <= k[i]);
    }
    assert('a' <= k[0] && 'a' <= k[k.len() - 1]);
}

proof fn lemma_quoted_param_item(k: Seq<char>, v: Seq<char>, t: Seq<char>)
    requires
        is_param_key(k),
    ensures
        auth_param_item(quoted_param(k, v, t)) == Some((k, v, t)),
{
    let s = quoted_param(k, v, t);
    let r = seq!['"'] + escape(v) + seq!['"'] + t;
    assert(s =~= k + seq!['='] + r);
    lemma_split_once_concat(k, '=', r);
    if k.len() > 0 {
        lemma_trim_unchanged(k);
    } else {
        assert(trim(k) =~= k);
    }
    assert(skip_fwd(r, 0, CharClass::WhiteSpace) == 0);
    assert(r.skip(0) =~= r);
    assert(r.skip(1) =~= escape(v) + seq!['"'] + t);
    lemma_unquote_escape(v, t);
    assert(r.skip(1).skip(escape(v).len() + 1int) =~= t);
}

proof fn lemma_find_quoted_param(k: Seq<char>, v: Seq<char>, t: Seq<char>, name: Seq<char>)
    requires
        is_param_key(k),
    ensures
        find_auth_param(quoted_param(k, v, t), name) == if eq_ic(k, name) {
            Some(v)
        } else {
            find_auth_param(t, name)
        },
{
    let s = quoted_param(k, v, t);
    if k.len() > 0 {
        assert(s[0] == k[0]);
    } else {
        assert(s[0] == '=');
    }
    assert(skip_fwd(s, 0, CharClass::CommaOrAsciiSpace) == 0);
    assert(s.skip(0) =~= s);
    lemma_quoted_param_item(k, v, t);
}

proof fn lemma_find_after_comma(k: Seq<char>, v: Seq<char>, t: Seq<char>, name: Seq<char>)
    requires
        is_param_key(k),
    ensures
        find_auth_param(seq![','] + quoted_param(k, v, t), name) == find_auth_param(
            quoted_param(k, v, t),
            name,
        ),
{
    let q = quoted_param(k, v, t);
    let s = seq![','] + q;
    if k.len() > 0 {
        assert(s[1] == k[0]);
    } else {
        assert(s[1] == '=');
    }
    assert(skip_fwd(s, 1, CharClass::CommaOrAsciiSpace) == 1);
    assert(skip_fwd(s, 0, CharClass::CommaOrAsciiSpace) == 1);
    assert(s.skip(1) =~= q);
    lemma_quoted_param_item(k, v, t);
    lemma_find_quoted_param(k, v, t, name);
}

/// A quoted parameter reads back: in `Bearer KEY="escaped value"`, asking
/// for the key (ignoring ASCII case) gives back the value that was escaped.
pub proof fn law_quoted_param_reads_back(key: Seq<char>, value: Seq<char>, name: Seq<char>)
    requires
        is_param_key(key),
        eq_ic(name, key),
    ensures
        bearer_param_of(
            "Bearer "@ + key + "=\""@ + escape(value) + "\""@,
            name,
        ) == Some(value),
{
    reveal_strlit("Bearer ");
    reveal_strlit("=\"");
    reveal_strlit("\"");
    let body = quoted_param(key, value, Seq::empty());
    let h = "Bearer "@ + key + "=\""@ + escape(value) + "\""@;
    assert(h =~= "Bearer "@ + body);
    assert(h[0] == 'B');
    assert(h.last() == '"');
    lemma_trim_unchanged(h);
    assert(h.take(7) =~= "Bearer "@);
    assert(h.skip(7) =~= body);
    if key.len() > 0 {
        assert(body[0] == key[0]);
    } else {
        assert(body[0] == '=');
    }
    assert(body.last() == '"');
    lemma_trim_unchanged(body);
    lemma_find_quoted_param(key, value, Seq::empty(), name);
    assert(eq_ic(key, name));
}

/// The challenge that the proxy sends reads back as intended: its `realm` is
/// this proxy's token endpoint for the registry, its `service` is the
/// registry's token service, and its `scope` is the scope of the upstream
/// challenge (absent when that has none). This holds whenever the public base
/// URL and the registry name need no escaping.
pub proof fn law_challenge_reads_back(
    public_base_url: Seq<char>,
    name: Seq<char>,
    auth_service: Seq<char>,
    upstream_challenge: Option<Seq<char>>,
)
    requires
        is_plain(public_base_url),
        is_plain(name),
    ensures
        bearer_param_of(
            auth_challenge(public_base_url, name, auth_service, upstream_challenge),
            "realm"@,
        ) == Some(public_base_url + "/auth/"@ + name + "/token"@),
        bearer_param_of(
            auth_challenge(public_base_url, name, auth_service, upstream_challenge),
            "service"@,
        ) == Some(auth_service),
        bearer_param_of(
            auth_challenge(public_base_url, name, auth_service, upstream_challenge),
            "scope"@,
        ) == match upstream_challenge {
            Some(h) => bearer_param_of(h, "scope"@),
            None => None,
        },
{
    reveal_strlit("Bearer realm=\"");
    reveal_strlit("/auth/");
    reveal_strlit("/token\",service=\"");
    reveal_strlit("\"");
    reveal_strlit(",scope=\"");
    reveal_strlit("realm");
    reveal_strlit("service");
    reveal_strlit("scope");
    reveal_strlit("Bearer ");
    reveal_strlit("/token");
    let realm = public_base_url + "/auth/"@ + name + "/token"@;
    assert(is_plain(realm)) by {
        assert forall|i: int| 0 <= i < realm.len() implies #[trigger] realm[i] != '"' && realm[i]
            != '\\' by {
            let a = public_base_url.len() as int;
            let b = a + 6;
            let c = b + name.len();
            if i < a {
                assert(realm[i] == public_base_url[i]);
            } else if i < b {
                assert(realm[i] == "/auth/"@[i - a]);
            } else if i < c {
                assert(realm[i] == name[i - b]);
            } else {
                assert(realm[i] == "/token"@[i - c]);
            }
        }
    }
    lemma_escape_plain(realm);
    let scope_opt = match upstream_challenge {
        Some(h) => bearer_param_of(h, "scope"@),
        None => None,
    };
    let tail = match scope_opt {
        Some(sc) => seq![','] + quoted_param("scope"@, sc, Seq::empty()),
        None => Seq::empty(),
    };
    let service_part = quoted_param("service"@, auth_service, tail);
    let body = quoted_param("realm"@, realm, seq![','] + service_part);
    let c = auth_challenge(public_base_url, name, auth_service, upstream_challenge);
    assert(c =~= "Bearer "@ + body) by {
        match scope_opt {
            Some(sc) => {
                assert(c =~= "Bearer "@ + body);
            },
            None => {
                assert(c =~= "Bearer "@ + body);
            },
        }
    }
    assert(is_simple_key("realm"@));
    assert(is_simple_key("service"@));
    assert(is_simple_key("scope"@));
    lemma_simple_key_is_param_key("realm"@);
    lemma_simple_key_is_param_key("service"@);
    lemma_simple_key_is_param_key("scope"@);
    assert(c.len() > 0 && c[0] == 'B');
    assert(c.last() == '"');
    lemma_trim_unchanged(c);
    assert(c.take(7) =~= "Bearer "@);
    assert(c.skip(7) =~= body);
    assert(body[0] == 'r');
    assert(body.last() == '"');
    lemma_trim_unchanged(body);
    let names = seq!["realm"@, "service"@, "scope"@];
    assert forall|j: int| 0 <= j < 3 implies bearer_param_of(c, #[trigger] names[j]) == if j == 0 {
        Some(realm)
    } else if j == 1 {
        Some(auth_service)
    } else {
        scope_opt
    } by {
        let wanted = names[j];
        lemma_find_quoted_param("realm"@, realm, seq![','] + service_part, wanted);
        lemma_find_after_comma("service"@, auth_service, tail, wanted);
        lemma_find_quoted_param("service"@, auth_service, tail, wanted);
        assert(eq_ic("realm"@, "realm"@));
        assert(!eq_ic("realm"@, "scope"@)) by {
            assert(ascii_lower("realm"@[0]) != ascii_lower("scope"@[0]));
        }
        assert(eq_ic("service"@, "service"@));
        assert(!eq_ic("realm"@, "service"@));
        assert(!eq_ic("service"@, "scope"@));
        match scope_opt {
            Some(sc) => {
                lemma_find_after_comma("scope"@, sc, Seq::empty(), wanted);
                lemma_find_quoted_param("scope"@, sc, Seq::empty(), wanted);
                assert(eq_ic("scope"@, "scope"@));
            },
            None => {},
        }
    }
    assert(names[0] == "realm"@);
    assert(names[1] == "service"@);
    assert(names[2] == "scope"@);
}


proof fn lemma_forwarded_token_pairs_keys(pairs: Seq<(Seq<char>, Seq<char>)>, auto_library_prefix: bool)
    ensures
        forall|i: int|
            0 <= i < forwarded_token_pairs(pairs, auto_library_prefix).len() ==> !eq_ic(
                #[trigger] forwarded_token_pairs(pairs, auto_library_prefix)[i].0,
                "service"@,
            ),
    decreases pairs.len(),
{
    if pairs.len() > 0 {
        lemma_forwarded_token_pairs_keys(pairs.drop_last(), auto_library_prefix);
        let a = forwarded_token_pairs(pairs.drop_last(), auto_library_prefix);
        let b = forwarded_token_pair(pairs.last(), auto_library_prefix);
        assert forall|i: int|
            0 <= i < forwarded_token_pairs(pairs, auto_library_prefix).len() implies !eq_ic(
            #[trigger] forwarded_token_pairs(pairs, auto_library_prefix)[i].0,
            "service"@,
        ) by {
            if i >= a.len() {
                assert(forwarded_token_pairs(pairs, auto_library_prefix)[i] == b[i - a.len()]);
            } else {
                assert(forwarded_token_pairs(pairs, auto_library_prefix)[i] == a[i]);
            }
        }
    }
}

/// The token service named upstream is always the registry's own: the query
/// sent to the token endpoint starts with the registry's `service`, and no
/// other pair in it is a `service` pair.
pub proof fn law_token_service_is_the_registrys(
    auth_service: Seq<char>,
    client_pairs: Seq<(Seq<char>, Seq<char>)>,
    auto_library_prefix: bool,
)
    ensures
        token_query_pairs(auth_service, client_pairs, auto_library_prefix)[0] == (
            "service"@,
            auth_service,
        ),
        forall|i: int|
            1 <= i < token_query_pairs(auth_service, client_pairs, auto_library_prefix).len()
                ==> !eq_ic(
                #[trigger] token_query_pairs(auth_service, client_pairs, auto_library_prefix)[i].0,
                "service"@,
            ),
{
    lemma_forwarded_token_pairs_keys(client_pairs, auto_library_prefix);
    let f = forwarded_token_pairs(client_pairs, auto_library_prefix);
    assert forall|i: int|
        1 <= i < token_query_pairs(auth_service, client_pairs, auto_library_prefix).len() implies !eq_ic(
        #[trigger] token_query_pairs(auth_service, client_pairs, auto_library_prefix)[i].0,
        "service"@,
    ) by {
        assert(token_query_pairs(auth_service, client_pairs, auto_library_prefix)[i] == f[i - 1]);
    }
}

} // verus!
