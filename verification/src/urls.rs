//! URL handling, done by the `url` parser that `reqwest` exports. The library
//! reads parsed URLs through [`UrlParts`], a copy of the parts it checks.
use vstd::prelude::*;

verus! {

/// The parts of a parsed URL that the configuration checks read.
pub struct UrlParts {
    pub scheme: String,
    pub host: Option<String>,
    pub username: String,
    pub password: Option<String>,
    pub query: Option<String>,
    pub fragment: Option<String>,
    pub path: String,
}

pub struct UrlPartsView {
    pub scheme: Seq<char>,
    pub host: Option<Seq<char>>,
    pub username: Seq<char>,
    pub password: Option<Seq<char>>,
    pub query: Option<Seq<char>>,
    pub fragment: Option<Seq<char>>,
    pub path: Seq<char>,
}

impl View for UrlParts {
    type V = UrlPartsView;

    open spec fn view(&self) -> UrlPartsView {
        UrlPartsView {
            scheme: self.scheme@,
            host: self.host.deep_view(),
            username: self.username@,
            password: self.password.deep_view(),
            query: self.query.deep_view(),
            fragment: self.fragment.deep_view(),
            path: self.path@,
        }
    }
}

/// The view of a parse outcome.
pub open spec fn parse_view(r: Result<UrlParts, String>) -> Result<UrlPartsView, Seq<char>> {
    match r {
        Ok(p) => Ok(p@),
        Err(e) => Err(e@),
    }
}

/// What `Url::parse` makes of a text: its parts, or the message of its error.
pub uninterp spec fn url_parse_result(raw: Seq<char>) -> Result<UrlPartsView, Seq<char>>;

/// The serialization of a URL after `Url::set_path("")`.
pub uninterp spec fn url_without_path(raw: Seq<char>) -> Option<Seq<char>>;

/// The `(key, value)` pairs that `Url::query_pairs` decodes from a URL's query.
pub uninterp spec fn url_query_pairs_of(url: Seq<char>) -> Option<Seq<(Seq<char>, Seq<char>)>>;

/// The serialization of a URL after appending pairs to its query with
/// `Url::query_pairs_mut`.
pub uninterp spec fn url_with_pairs_of(base: Seq<char>, pairs: Seq<(Seq<char>, Seq<char>)>) -> Option<
    Seq<char>,
>;

/// Parses `raw` with `reqwest::Url::parse` (the `url` crate's `Url::parse`)
/// and copies out the scheme, host, user name, password, query, fragment and
/// path; on failure, the parse error's message. Nothing is claimed of either
/// beyond the name [`url_parse_result`].
#[verifier::external_body]
pub(crate) fn parse_url(raw: &str) -> (r: Result<UrlParts, String>)
    ensures
        match r {
            Ok(p) => url_parse_result(raw@) == Ok::<UrlPartsView, Seq<char>>(p@),
            Err(e) => url_parse_result(raw@) == Err::<UrlPartsView, Seq<char>>(e@),
        },
{
    match reqwest::Url::parse(raw) {
        Ok(u) => Ok(UrlParts {
            scheme: u.scheme().to_string(),
            host: u.host_str().map(str::to_string),
            username: u.username().to_string(),
            password: u.password().map(str::to_string),
            query: u.query().map(str::to_string),
            fragment: u.fragment().map(str::to_string),
            path: u.path().to_string(),
        }),
        Err(e) => Err(e.to_string()),
    }
}

/// Parses `raw` with `reqwest::Url::parse`, clears its path with
/// `Url::set_path("")` and returns `Url::as_str`. The result is claimed to be
/// present exactly when the parse succeeds; its text is only named.
#[verifier::external_body]
pub(crate) fn serialize_without_path(raw: &str) -> (r: Option<String>)
    ensures
        r.deep_view() == url_without_path(raw@),
        r is Some <==> url_parse_result(raw@) is Ok,
{
    match reqwest::Url::parse(raw) {
        Ok(mut u) => {
            u.set_path("");
            Some(u.as_str().to_string())
        },
        Err(_) => None,
    }
}

/// Parses `url` with `reqwest::Url::parse` and decodes its query with
/// `Url::query_pairs` (form-urlencoded). Present exactly when the parse
/// succeeds; the pairs are only named.
#[verifier::external_body]
pub(crate) fn query_pairs_of_url(url: &str) -> (r: Option<Vec<(String, String)>>)
    ensures
        r.deep_view() == url_query_pairs_of(url@),
        r is Some <==> url_parse_result(url@) is Ok,
{
    match reqwest::Url::parse(url) {
        Ok(u) => Some(u.query_pairs().map(|(k, v)| (k.into_owned(), v.into_owned())).collect()),
        Err(_) => None,
    }
}

/// Parses `base` with `reqwest::Url::parse`, appends `pairs` in order with
/// `Url::query_pairs_mut` (form-urlencoded) and returns `Url::as_str`. Present
/// exactly when the parse succeeds; the text is only named.
#[verifier::external_body]
pub(crate) fn url_with_query_pairs(base: &str, pairs: &Vec<(String, String)>) -> (r: Option<String>)
    ensures
        r.deep_view() == url_with_pairs_of(base@, pairs.deep_view()),
        r is Some <==> url_parse_result(base@) is Ok,
{
    match reqwest::Url::parse(base) {
        Ok(mut u) => {
            u.query_pairs_mut().extend_pairs(pairs.iter().map(|(k, v)| (k.as_str(), v.as_str())));
            Some(u.as_str().to_string())
        },
        Err(_) => None,
    }
}

} // verus!
