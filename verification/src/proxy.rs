//! The registry API proxy: which upstream request a client request becomes,
//! which headers travel in each direction, and which `Content-Length` the
//! answer carries.
use vstd::prelude::*;
use crate::auth::{auth_challenge, build_auth_challenge};
use crate::registry::RegistryTarget;
use crate::text::{
    chars_of, contains_char, copy_range, decimal, eq_ic, eq_ic_chars, find_exec, first_piece,
    lemma_rfind_before, lower,
    lower_chars, parse_u64, parse_u64_chars, push_all, push_decimal, push_str_chars, rfind_exec,
    rsplit_once, starts_with, starts_with_exec, str_eq, string_of, trim, trim_chars,
};

verus! {

/// Hop-by-hop headers, which a proxy does not pass on.
pub open spec fn is_hop_by_hop(name: Seq<char>) -> bool {
    let l = lower(name);
    ||| l == "connection"@
    ||| l == "keep-alive"@
    ||| l == "proxy-authenticate"@
    ||| l == "proxy-authorization"@
    ||| l == "te"@
    ||| l == "trailer"@
    ||| l == "transfer-encoding"@
    ||| l == "upgrade"@
}

pub fn is_hop_by_hop_header(name: &str) -> (r: bool)
    ensures
        r == is_hop_by_hop(name@),
{
    let v = chars_of(name);
    let l = lower_chars(&v);
    let s = string_of(&l);
    let n = s.as_str();
    str_eq(n, "connection") || str_eq(n, "keep-alive") || str_eq(n, "proxy-authenticate")
        || str_eq(n, "proxy-authorization") || str_eq(n, "te") || str_eq(n, "trailer") || str_eq(
        n,
        "transfer-encoding",
    ) || str_eq(n, "upgrade")
}

/// Response headers passed back to the client: all but the hop-by-hop ones
/// and `Content-Length`, which the proxy sets itself.
pub open spec fn forwards_response_header(name: Seq<char>) -> bool {
    !is_hop_by_hop(name) && !eq_ic(name, "content-length"@)
}

pub fn should_forward_response_header(name: &str) -> (r: bool)
    ensures
        r == forwards_response_header(name@),
{
    if is_hop_by_hop_header(name) {
        return false;
    }
    let v = chars_of(name);
    let c = chars_of("content-length");
    !eq_ic_chars(&v, &c)
}

pub open spec fn headers_view(hs: Seq<(String, String)>) -> Seq<(Seq<char>, Seq<char>)> {
    hs.map_values(|h: (String, String)| (h.0@, h.1@))
}

/// Index of the first header at or after `i` named `name` (ignoring ASCII
/// case), or `hs.len()` when there is none.
pub open spec fn first_header(hs: Seq<(Seq<char>, Seq<char>)>, name: Seq<char>, i: int) -> int
    decreases hs.len() - i,
{
    if i < 0 || i >= hs.len() {
        hs.len() as int
    } else if eq_ic(hs[i].0, name) {
        i
    } else {
        first_header(hs, name, i + 1)
    }
}

/// The value of the first header named `name`.
pub open spec fn header_value_of(hs: Seq<(Seq<char>, Seq<char>)>, name: Seq<char>) -> Option<
    Seq<char>,
> {
    let i = first_header(hs, name, 0);
    if 0 <= i < hs.len() {
        Some(hs[i].1)
    } else {
        None
    }
}

pub proof fn lemma_first_header(hs: Seq<(Seq<char>, Seq<char>)>, name: Seq<char>, i: int)
    requires
        0 <= i <= hs.len(),
    ensures
        i <= first_header(hs, name, i) <= hs.len(),
    decreases hs.len() - i,
{
    if i < hs.len() && !eq_ic(hs[i].0, name) {
        lemma_first_header(hs, name, i + 1);
    }
}

pub fn header_value<'a>(headers: &'a [(String, String)], header_name: &str) -> (r: Option<&'a str>)
    ensures
        match r {
            Some(v) => header_value_of(headers_view(headers@), header_name@) == Some(v@),
            None => header_value_of(headers_view(headers@), header_name@) is None,
        },
{
    let wanted = chars_of(header_name);
    let ghost hs = headers_view(headers@);
    proof {
        lemma_first_header(hs, header_name@, 0);
    }
    let mut i: usize = 0;
    while i < headers.len()
        invariant
            i <= headers@.len(),
            hs == headers_view(headers@),
            wanted@ == header_name@,
            first_header(hs, header_name@, 0) == first_header(hs, header_name@, i as int),
        decreases headers@.len() - i,
    {
        let name = chars_of(headers[i].0.as_str());
        assert(hs[i as int] == (headers@[i as int].0@, headers@[i as int].1@));
        if eq_ic_chars(&name, &wanted) {
            return Some(headers[i].1.as_str());
        }
        i = i + 1;
    }
    None
}

/// The `Content-Length` header's value, when it is a valid `u64` once trimmed.
pub open spec fn content_length_of(hs: Seq<(Seq<char>, Seq<char>)>) -> Option<u64> {
    match header_value_of(hs, "content-length"@) {
        Some(v) => parse_u64(trim(v)),
        None => None,
    }
}

pub fn parse_content_length(headers: &[(String, String)]) -> (r: Option<u64>)
    ensures
        r == content_length_of(headers_view(headers@)),
{
    match header_value(headers, "content-length") {
        Some(v) => {
            let c = chars_of(v);
            parse_u64_chars(&trim_chars(&c))
        },
        None => None,
    }
}

/// The total length in a `Content-Range` value such as `bytes 0-0/123456`:
/// after a `bytes ` (or `Bytes `) unit, the text after the last `/`, unless it
/// is `*`.
pub open spec fn content_range_total(value: Seq<char>) -> Option<u64> {
    let v = trim(value);
    let range = if starts_with(v, "bytes "@) {
        Some(v.skip("bytes "@.len() as int))
    } else if starts_with(v, "Bytes "@) {
        Some(v.skip("Bytes "@.len() as int))
    } else {
        None
    };
    match range {
        Some(range) => match rsplit_once(range, '/') {
            Some((_, total)) => if trim(total) == seq!['*'] {
                None
            } else {
                parse_u64(trim(total))
            },
            None => None,
        },
        None => None,
    }
}

pub fn parse_content_range_total(value: &str) -> (r: Option<u64>)
    ensures
        r == content_range_total(value@),
{
    let c = chars_of(value);
    let v = trim_chars(&c);
    let lower_unit = chars_of("bytes ");
    let upper_unit = chars_of("Bytes ");
    let range = if starts_with_exec(&v, &lower_unit) {
        copy_range(&v, lower_unit.len(), v.len())
    } else if starts_with_exec(&v, &upper_unit) {
        copy_range(&v, upper_unit.len(), v.len())
    } else {
        return None;
    };
    let k = rfind_exec(&range, '/');
    proof {
        lemma_rfind_before(range@, '/', range@.len() as int);
    }
    if k == 0 {
        return None;
    }
    let total = trim_chars(&copy_range(&range, k, range.len()));
    assert(range@.skip(k as int) =~= range@.subrange(k as int, range@.len() as int));
    if total.len() == 1 && total[0] == '*' {
        assert(total@ =~= seq!['*']);
        return None;
    }
    assert(total@ != seq!['*']) by {
        if total@ =~= seq!['*'] {
            assert(total@.len() == 1 && total@[0] == '*');
        }
    }
    parse_u64_chars(&total)
}

/// The length of a response body: its `Content-Length` header, else the
/// length that the HTTP client knows of the body.
pub fn effective_content_length(headers: &[(String, String)], body_length: Option<u64>) -> (r:
    Option<u64>)
    ensures
        r == match content_length_of(headers_view(headers@)) {
            Some(n) => Some(n),
            None => body_length,
        },
{
    match parse_content_length(headers) {
        Some(n) => Some(n),
        None => body_length,
    }
}

/// What a `Range: bytes=0-0` probe learns of a blob's length: the total of its
/// `Content-Range`, else its effective length, each counted only when above zero.
pub open spec fn probed_length(hs: Seq<(Seq<char>, Seq<char>)>, body_length: Option<u64>) -> Option<
    u64,
> {
    let from_range = match header_value_of(hs, "content-range"@) {
        Some(v) => content_range_total(v),
        None => None,
    };
    if from_range matches Some(n) && n > 0 {
        from_range
    } else {
        match (match content_length_of(hs) {
            Some(n) => Some(n),
            None => body_length,
        }) {
            Some(n) => if n > 0 {
                Some(n)
            } else {
                None
            },
            None => None,
        }
    }
}

pub fn probe_length_from_headers(headers: &[(String, String)], body_length: Option<u64>) -> (r:
    Option<u64>)
    ensures
        r == probed_length(headers_view(headers@), body_length),
{
    let from_range = match header_value(headers, "content-range") {
        Some(v) => parse_content_range_total(v),
        None => None,
    };
    match from_range {
        Some(n) => {
            if n > 0 {
                return from_range;
            }
        },
        None => {},
    }
    match effective_content_length(headers, body_length) {
        Some(n) => if n > 0 {
            Some(n)
        } else {
            None
        },
        None => None,
    }
}

/// A response header as passed to the client: the upstream's
/// `WWW-Authenticate` challenge is replaced by one that points at this proxy.
pub open spec fn forwarded_response_header(
    header: (Seq<char>, Seq<char>),
    registry: crate::registry::TargetView,
) -> Seq<(Seq<char>, Seq<char>)> {
    if !forwards_response_header(header.0) {
        Seq::empty()
    } else if eq_ic(header.0, "www-authenticate"@) {
        seq![
            ("WWW-Authenticate"@, auth_challenge(
                registry.public_base_url,
                registry.name,
                registry.auth_service,
                Some(header.1),
            )),
        ]
    } else {
        seq![header]
    }
}

pub open spec fn forwarded_response_headers(
    hs: Seq<(Seq<char>, Seq<char>)>,
    registry: crate::registry::TargetView,
) -> Seq<(Seq<char>, Seq<char>)>
    decreases hs.len(),
{
    if hs.len() == 0 {
        Seq::empty()
    } else {
        forwarded_response_headers(hs.drop_last(), registry) + forwarded_response_header(
            hs.last(),
            registry,
        )
    }
}

/// The upstream response headers to pass to the client, in order.
pub fn response_headers_to_forward(headers: Vec<(String, String)>, registry: &RegistryTarget) -> (r:
    Vec<(String, String)>)
    ensures
        headers_view(r@) == forwarded_response_headers(headers_view(headers@), registry@),
{
    let mut out: Vec<(String, String)> = Vec::new();
    let www = chars_of("www-authenticate");
    let mut i: usize = 0;
    while i < headers.len()
        invariant
            i <= headers@.len(),
            www@ == "www-authenticate"@,
            headers_view(out@) == forwarded_response_headers(
                headers_view(headers@).take(i as int),
                registry@,
            ),
        decreases headers@.len() - i,
    {
        let (name, value) = &headers[i];
        let ghost before = headers_view(out@);
        proof {
            assert(headers_view(headers@).take(i + 1).drop_last() =~= headers_view(headers@).take(
                i as int,
            ));
            assert(headers_view(headers@).take(i + 1).last() == (name@, value@));
        }
        if should_forward_response_header(name.as_str()) {
            let n = chars_of(name.as_str());
            if eq_ic_chars(&n, &www) {
                let challenge = build_auth_challenge(registry, Some(value.as_str()));
                out.push((String::from_str("WWW-Authenticate"), challenge));
            } else {
                out.push((name.clone(), value.clone()));
            }
        }
        assert(headers_view(out@) =~= before + forwarded_response_header(
            (name@, value@),
            registry@,
        ));
        i = i + 1;
    }
    assert(headers_view(headers@).take(headers@.len() as int) =~= headers_view(headers@));
    out
}

/// The request headers that are passed upstream, in this order: those that
/// authenticate, negotiate content, and make ranged or conditional requests.
pub open spec fn forwarded_request_header_names() -> Seq<Seq<char>> {
    seq![
        "Authorization"@,
        "Accept"@,
        "Range"@,
        "If-Range"@,
        "If-Match"@,
        "If-None-Match"@,
        "If-Modified-Since"@,
        "If-Unmodified-Since"@,
    ]
}

/// The headers of `hs` named `name` (ignoring ASCII case), in order, each
/// under the spelling `name`.
pub open spec fn headers_named(hs: Seq<(Seq<char>, Seq<char>)>, name: Seq<char>) -> Seq<
    (Seq<char>, Seq<char>),
>
    decreases hs.len(),
{
    if hs.len() == 0 {
        Seq::empty()
    } else {
        headers_named(hs.drop_last(), name) + if eq_ic(hs.last().0, name) {
            seq![(name, hs.last().1)]
        } else {
            Seq::empty()
        }
    }
}

pub open spec fn headers_named_in(hs: Seq<(Seq<char>, Seq<char>)>, names: Seq<Seq<char>>) -> Seq<
    (Seq<char>, Seq<char>),
>
    decreases names.len(),
{
    if names.len() == 0 {
        Seq::empty()
    } else {
        headers_named_in(hs, names.drop_last()) + headers_named(hs, names.last())
    }
}

proof fn lemma_named_in_step(hs: Seq<(Seq<char>, Seq<char>)>, names: Seq<Seq<char>>, k: int)
    requires
        0 <= k < names.len(),
    ensures
        headers_named_in(hs, names.take(k + 1)) == headers_named_in(hs, names.take(k))
            + headers_named(hs, names[k]),
{
    assert(names.take(k + 1).drop_last() =~= names.take(k));
    assert(names.take(k + 1).last() == names[k]);
}

fn push_headers_named(
    out: &mut Vec<(String, String)>,
    headers: &Vec<(String, String)>,
    name: &str,
)
    ensures
        headers_view(final(out)@) == headers_view(old(out)@) + headers_named(
            headers_view(headers@),
            name@,
        ),
{
    let wanted = chars_of(name);
    let ghost start = headers_view(out@);
    let mut i: usize = 0;
    while i < headers.len()
        invariant
            i <= headers@.len(),
            wanted@ == name@,
            headers_view(out@) == start + headers_named(headers_view(headers@).take(i as int), name@),
        decreases headers@.len() - i,
    {
        let (n, value) = &headers[i];
        let ghost before = headers_view(out@);
        proof {
            assert(headers_view(headers@).take(i + 1).drop_last() =~= headers_view(headers@).take(
                i as int,
            ));
            assert(headers_view(headers@).take(i + 1).last() == (n@, value@));
        }
        let nc = chars_of(n.as_str());
        if eq_ic_chars(&nc, &wanted) {
            out.push((String::from_str(name), value.clone()));
            assert(headers_view(out@) =~= before + seq![(name@, value@)]);
        } else {
            assert(headers_view(out@) =~= before + Seq::<(Seq<char>, Seq<char>)>::empty());
        }
        i = i + 1;
    }
    assert(headers_view(headers@).take(headers@.len() as int) =~= headers_view(headers@));
}

/// The client request headers to send upstream (see
/// [`forwarded_request_header_names`]).
pub fn forwarded_request_headers(request_headers: &Vec<(String, String)>) -> (r: Vec<
    (String, String),
>)
    ensures
        headers_view(r@) == headers_named_in(
            headers_view(request_headers@),
            forwarded_request_header_names(),
        ),
{
    let mut out: Vec<(String, String)> = Vec::new();
    let ghost names = forwarded_request_header_names();
    let ghost hs = headers_view(request_headers@);
    assert(headers_view(out@) =~= headers_named_in(hs, names.take(0)));
    push_headers_named(&mut out, request_headers, "Authorization");
    proof {
        lemma_named_in_step(hs, names, 0);
    }
    push_headers_named(&mut out, request_headers, "Accept");
    proof {
        lemma_named_in_step(hs, names, 1);
    }
    push_headers_named(&mut out, request_headers, "Range");
    proof {
        lemma_named_in_step(hs, names, 2);
    }
    push_headers_named(&mut out, request_headers, "If-Range");
    proof {
        lemma_named_in_step(hs, names, 3);
    }
    push_headers_named(&mut out, request_headers, "If-Match");
    proof {
        lemma_named_in_step(hs, names, 4);
    }
    push_headers_named(&mut out, request_headers, "If-None-Match");
    proof {
        lemma_named_in_step(hs, names, 5);
    }
    push_headers_named(&mut out, request_headers, "If-Modified-Since");
    proof {
        lemma_named_in_step(hs, names, 6);
    }
    push_headers_named(&mut out, request_headers, "If-Unmodified-Since");
    proof {
        lemma_named_in_step(hs, names, 7);
    }
    assert(names.take(8) =~= names);
    out
}

/// The method of the request sent upstream.
#[derive(Clone, Copy, Debug, PartialEq, Eq, Structural)]
pub enum UpstreamMethod {
    Get,
    Head,
}

/// The request that a client's `/v2/{image}/{kind}/{reference}` request becomes.
pub struct UpstreamRequest {
    pub target_url: String,
    pub method: UpstreamMethod,
    pub is_manifest_request: bool,
    pub is_blob_request: bool,
}

/// The image name asked of the upstream registry: with the library prefix
/// enabled, a name without `/` is an official image under `library/`.
pub open spec fn upstream_image_name(image: Seq<char>, auto_library_prefix: bool) -> Seq<char> {
    if auto_library_prefix && !image.contains('/') {
        "library/"@ + image
    } else {
        image
    }
}

/// The upstream URL for a client request, its query string kept.
pub open spec fn upstream_url(
    registry: crate::registry::TargetView,
    image: Seq<char>,
    path_type: Seq<char>,
    reference: Seq<char>,
    query: Option<Seq<char>>,
) -> Seq<char> {
    registry.upstream_registry + "/v2/"@ + upstream_image_name(image, registry.auto_library_prefix)
        + "/"@ + path_type + "/"@ + reference + match query {
        Some(q) => seq!['?'] + q,
        None => Seq::empty(),
    }
}

/// Plans the upstream request. A client `HEAD` stays a `HEAD`, except for
/// manifests, which are fetched with `GET` so that the upstream reports their
/// metadata reliably.
pub fn plan_upstream_request(
    registry: &RegistryTarget,
    image_name: &str,
    path_type: &str,
    reference: &str,
    query: Option<&str>,
    client_is_head: bool,
) -> (r: UpstreamRequest)
    ensures
        r.target_url@ == upstream_url(
            registry@,
            image_name@,
            path_type@,
            reference@,
            match query {
                Some(q) => Some(q@),
                None => None,
            },
        ),
        r.is_manifest_request == (path_type@ == "manifests"@),
        r.is_blob_request == (path_type@ == "blobs"@),
        r.method == (if client_is_head && path_type@ != "manifests"@ {
            UpstreamMethod::Head
        } else {
            UpstreamMethod::Get
        }),
{
    let image = chars_of(image_name);
    let mut out: Vec<char> = Vec::new();
    push_str_chars(&mut out, registry.upstream_registry.as_str());
    push_str_chars(&mut out, "/v2/");
    if registry.auto_library_prefix && !contains_char(&image, '/') {
        push_str_chars(&mut out, "library/");
    }
    push_all(&mut out, &image);
    push_str_chars(&mut out, "/");
    push_str_chars(&mut out, path_type);
    push_str_chars(&mut out, "/");
    push_str_chars(&mut out, reference);
    match query {
        Some(q) => {
            out.push('?');
            push_str_chars(&mut out, q);
        },
        None => {},
    }
    proof {
        let q = match query {
            Some(q) => Some(q@),
            None => None,
        };
        assert(out@ =~= upstream_url(registry@, image_name@, path_type@, reference@, q));
    }
    let is_manifest_request = str_eq(path_type, "manifests");
    let is_blob_request = str_eq(path_type, "blobs");
    let use_get_for_upstream = client_is_head && is_manifest_request;
    let method = if use_get_for_upstream {
        UpstreamMethod::Get
    } else if client_is_head {
        UpstreamMethod::Head
    } else {
        UpstreamMethod::Get
    };
    UpstreamRequest { target_url: string_of(&out), method, is_manifest_request, is_blob_request }
}

/// Whether the answer to a client `HEAD` for a blob must be completed by a
/// ranged probe: the upstream succeeded but gave no usable length.
pub fn needs_length_probe(is_blob_request: bool, status_success: bool, length: Option<u64>) -> (r:
    bool)
    ensures
        r == (is_blob_request && status_success && match length {
            Some(n) => n == 0,
            None => true,
        }),
{
    is_blob_request && status_success && match length {
        Some(n) => n == 0,
        None => true,
    }
}

/// What to do about the length of an answer.
#[derive(Clone, Copy, Debug, PartialEq, Eq)]
pub enum LengthAction {
    /// Ask the upstream with a ranged `GET` for the blob's length.
    Probe,
    /// Answer with this length (none when unknown).
    Use(Option<u64>),
}

/// The length step of an answer: a client `HEAD` for a blob whose upstream
/// answer succeeded without a usable length is probed; every other answer
/// uses the length the upstream gave.
pub fn head_length_action(
    client_is_head: bool,
    is_blob_request: bool,
    status_success: bool,
    length: Option<u64>,
) -> (r: LengthAction)
    ensures
        r == (if client_is_head && is_blob_request && status_success && match length {
            Some(n) => n == 0,
            None => true,
        } {
            LengthAction::Probe
        } else {
            LengthAction::Use(length)
        }),
{
    if client_is_head && needs_length_probe(is_blob_request, status_success, length) {
        LengthAction::Probe
    } else {
        LengthAction::Use(length)
    }
}

/// The `Content-Length` header value for a body of `length` bytes.
pub fn content_length_value(length: u64) -> (r: String)
    ensures
        r@ == decimal(length as nat),
{
    let mut out: Vec<char> = Vec::new();
    push_decimal(&mut out, length);
    string_of(&out)
}

/// Where a plain-HTTP request is redirected: `https://`, the `Host` header up
/// to its first `:` (the port is dropped; empty when there is no header), then
/// the request's path and query.
pub open spec fn https_redirect_location_of(host: Option<Seq<char>>, uri: Seq<char>) -> Seq<char> {
    let h = match host {
        Some(h) => h,
        None => Seq::empty(),
    };
    "https://"@ + first_piece(h, ':') + uri
}

/// The `Location` of the redirect to HTTPS (see [`https_redirect_location_of`]).
pub fn https_redirect_location(host: Option<&str>, uri: &str) -> (r: String)
    ensures
        r@ == https_redirect_location_of(
            match host {
                Some(h) => Some(h@),
                None => None,
            },
            uri@,
        ),
{
    let h = match host {
        Some(h) => chars_of(h),
        None => Vec::new(),
    };
    let end = find_exec(&h, ':', 0);
    let mut out: Vec<char> = Vec::new();
    push_str_chars(&mut out, "https://");
    let name = copy_range(&h, 0, end);
    push_all(&mut out, &name);
    push_str_chars(&mut out, uri);
    proof {
        assert(h@.subrange(0, end as int) =~= h@.take(end as int));
    }
    string_of(&out)
}

/// The upstream URL names the image the same way for every path type
/// (manifests, blobs, tags, ...): with the library prefix enabled, an image
/// without `/` is always asked for as `library/IMAGE`; any other image, and
/// every image when the prefix is disabled, as written. The reference and the
/// client's query follow unchanged.
pub proof fn law_upstream_url_image_part(
    registry: crate::registry::TargetView,
    image: Seq<char>,
    path_type: Seq<char>,
    reference: Seq<char>,
    query: Option<Seq<char>>,
)
    ensures
        ({
            let tail = "/"@ + path_type + "/"@ + reference + match query {
                Some(q) => seq!['?'] + q,
                None => Seq::<char>::empty(),
            };
            upstream_url(registry, image, path_type, reference, query) == if registry.auto_library_prefix
                && !image.contains('/') {
                registry.upstream_registry + "/v2/library/"@ + image + tail
            } else {
                registry.upstream_registry + "/v2/"@ + image + tail
            }
        }),
{
    reveal_strlit("/v2/library/");
    reveal_strlit("/v2/");
    reveal_strlit("library/");
    assert("/v2/"@ + "library/"@ =~= "/v2/library/"@);
    let tail = "/"@ + path_type + "/"@ + reference + match query {
        Some(q) => seq!['?'] + q,
        None => Seq::<char>::empty(),
    };
    let u = upstream_url(registry, image, path_type, reference, query);
    if registry.auto_library_prefix && !image.contains('/') {
        assert(u =~= registry.upstream_registry + "/v2/library/"@ + image + tail);
    } else {
        assert(u =~= registry.upstream_registry + "/v2/"@ + image + tail);
    }
}

/// An upstream header that is neither hop-by-hop, nor `Content-Length`, nor
/// the `WWW-Authenticate` challenge (names compared ignoring ASCII case).
pub open spec fn is_plain_end_to_end(name: Seq<char>) -> bool {
    let l = lower(name);
    &&& l != "connection"@
    &&& l != "keep-alive"@
    &&& l != "proxy-authenticate"@
    &&& l != "proxy-authorization"@
    &&& l != "te"@
    &&& l != "trailer"@
    &&& l != "transfer-encoding"@
    &&& l != "upgrade"@
    &&& !eq_ic(name, "content-length"@)
    &&& !eq_ic(name, "www-authenticate"@)
}

/// Every other upstream response header (`Content-Type`,
/// `Docker-Content-Digest`, ...) reaches the client unchanged and in its
/// place: forwarding a list of such headers gives the list back, and adding
/// one at the end of any list adds it, unchanged, at the end of the answer.
pub proof fn law_end_to_end_response_headers_pass_unchanged(
    hs: Seq<(Seq<char>, Seq<char>)>,
    header: (Seq<char>, Seq<char>),
    registry: crate::registry::TargetView,
)
    ensures
        is_plain_end_to_end(header.0) ==> forwarded_response_headers(hs.push(header), registry)
            == forwarded_response_headers(hs, registry).push(header),
        (forall|i: int| 0 <= i < hs.len() ==> is_plain_end_to_end(#[trigger] hs[i].0))
            ==> forwarded_response_headers(hs, registry) == hs,
    decreases hs.len(),
{
    assert(hs.push(header).drop_last() =~= hs);
    if hs.len() > 0 {
        law_end_to_end_response_headers_pass_unchanged(hs.drop_last(), hs.last(), registry);
        if forall|i: int| 0 <= i < hs.len() ==> is_plain_end_to_end(#[trigger] hs[i].0) {
            assert(is_plain_end_to_end(hs[hs.len() - 1].0));
            assert forall|i: int| 0 <= i < hs.drop_last().len() implies is_plain_end_to_end(
                #[trigger] hs.drop_last()[i].0,
            ) by {
                assert(hs.drop_last()[i] == hs[i]);
            }
            assert(hs.drop_last().push(hs.last()) =~= hs);
        }
    } else {
        assert(forwarded_response_headers(hs, registry) =~= hs);
    }
}

proof fn lemma_www_authenticate_is_forwarded()
    ensures
        forwards_response_header("WWW-Authenticate"@),
{
    reveal_strlit("WWW-Authenticate");
    reveal_strlit("connection");
    reveal_strlit("keep-alive");
    reveal_strlit("proxy-authenticate");
    reveal_strlit("proxy-authorization");
    reveal_strlit("te");
    reveal_strlit("trailer");
    reveal_strlit("transfer-encoding");
    reveal_strlit("upgrade");
    reveal_strlit("content-length");
    assert(lower("WWW-Authenticate"@).len() == 16);
}

/// No hop-by-hop header and no `Content-Length` of the upstream answer is
/// ever passed back to the client.
pub proof fn law_forwarded_response_headers_are_end_to_end(
    hs: Seq<(Seq<char>, Seq<char>)>,
    registry: crate::registry::TargetView,
)
    ensures
        forall|i: int|
            0 <= i < forwarded_response_headers(hs, registry).len() ==> forwards_response_header(
                (#[trigger] forwarded_response_headers(hs, registry)[i]).0,
            ),
    decreases hs.len(),
{
    if hs.len() > 0 {
        law_forwarded_response_headers_are_end_to_end(hs.drop_last(), registry);
        lemma_www_authenticate_is_forwarded();
        let a = forwarded_response_headers(hs.drop_last(), registry);
        let b = forwarded_response_header(hs.last(), registry);
        assert forall|i: int|
            0 <= i < forwarded_response_headers(hs, registry).len() implies forwards_response_header(
            (#[trigger] forwarded_response_headers(hs, registry)[i]).0,
        ) by {
            if i >= a.len() {
                assert(forwarded_response_headers(hs, registry)[i] == b[i - a.len()]);
            } else {
                assert(forwarded_response_headers(hs, registry)[i] == a[i]);
            }
        }
    }
}

proof fn lemma_headers_named_keys(hs: Seq<(Seq<char>, Seq<char>)>, name: Seq<char>)
    ensures
        forall|i: int|
            0 <= i < headers_named(hs, name).len() ==> (#[trigger] headers_named(hs, name)[i]).0
                == name,
    decreases hs.len(),
{
    if hs.len() > 0 {
        lemma_headers_named_keys(hs.drop_last(), name);
        let a = headers_named(hs.drop_last(), name);
        assert forall|i: int| 0 <= i < headers_named(hs, name).len() implies (
        #[trigger] headers_named(hs, name)[i]).0 == name by {
            if i < a.len() {
                assert(headers_named(hs, name)[i] == a[i]);
            }
        }
    }
}

proof fn lemma_headers_named_in_keys(hs: Seq<(Seq<char>, Seq<char>)>, names: Seq<Seq<char>>)
    ensures
        forall|i: int|
            0 <= i < headers_named_in(hs, names).len() ==> names.contains(
                (#[trigger] headers_named_in(hs, names)[i]).0,
            ),
    decreases names.len(),
{
    if names.len() > 0 {
        lemma_headers_named_in_keys(hs, names.drop_last());
        lemma_headers_named_keys(hs, names.last());
        let a = headers_named_in(hs, names.drop_last());
        let b = headers_named(hs, names.last());
        assert forall|i: int| 0 <= i < headers_named_in(hs, names).len() implies names.contains(
            (#[trigger] headers_named_in(hs, names)[i]).0,
        ) by {
            if i < a.len() {
                assert(headers_named_in(hs, names)[i] == a[i]);
                let k = choose|k: int| 0 <= k < names.drop_last().len() && names.drop_last()[k] == a[i].0;
                assert(names[k] == a[i].0);
            } else {
                assert(headers_named_in(hs, names)[i] == b[i - a.len()]);
                assert(names[names.len() - 1] == names.last());
            }
        }
    }
}

/// Only the listed request headers (authorization, content negotiation,
/// ranges and conditions) ever reach the upstream registry, each under its
/// listed spelling.
pub proof fn law_only_listed_request_headers_go_upstream(hs: Seq<(Seq<char>, Seq<char>)>)
    ensures
        forall|i: int|
            0 <= i < headers_named_in(hs, forwarded_request_header_names()).len()
                ==> forwarded_request_header_names().contains(
                (#[trigger] headers_named_in(hs, forwarded_request_header_names())[i]).0,
            ),
{
    lemma_headers_named_in_keys(hs, forwarded_request_header_names());
}

/// A `Content-Range` of the form `bytes RANGE/TOTAL` reads back the total
/// that was written, whatever the range part holds besides `/`.
pub proof fn law_content_range_total_reads_back(range: Seq<char>, total: u64)
    requires
        !range.contains('/'),
    ensures
        content_range_total("bytes "@ + range + seq!['/'] + decimal(total as nat)) == Some(total),
{
    reveal_strlit("bytes ");
    crate::text::lemma_parse_decimal(total);
    crate::text::lemma_decimal(total as nat);
    let d = decimal(total as nat);
    let v = "bytes "@ + range + seq!['/'] + d;
    assert(v[0] == 'b');
    assert(v.last() == d.last());
    assert(crate::text::is_digit(d.last()));
    crate::text::lemma_trim_unchanged(v);
    assert(v.take(6) =~= "bytes "@);
    assert(starts_with(v, "bytes "@));
    assert(v.skip(6) =~= range + seq!['/'] + d);
    crate::text::lemma_rsplit_once_concat(range, '/', d);
    assert(d != seq!['*']) by {
        assert(crate::text::is_digit(d[0]));
    }
}

} // verus!
