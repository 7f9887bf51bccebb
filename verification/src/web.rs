//! Parsing, resolving and rewriting of URLs, done by the `url` crate.
//!
//! A URL is held as its serialised text. What the parser makes of a text
//! is not modelled here: each operation has a name, and the functions of
//! this module return what the name stands for.

use url::Url;
use vstd::prelude::*;

verus! {

/// The longest text, in characters, that is handed to an operation that
/// rewrites a URL. The `url` crate keeps positions as 32-bit numbers; a
/// text within this limit stays below them after percent-encoding.
pub const MAX_URL_CHARS: usize = 0x0100_0000;

/// The text of an optional string.
pub open spec fn text_of(s: Option<String>) -> Option<Seq<char>> {
    match s {
        Some(t) => Some(t@),
        None => None,
    }
}

/// The serialisation of the absolute URL that `input` parses to, `None`
/// where it does not parse.
pub uninterp spec fn url_parse(input: Seq<char>) -> Option<Seq<char>>;

/// The serialisation of `input` resolved against the URL that `base`
/// parses to, `None` where either fails.
pub uninterp spec fn url_join(base: Seq<char>, input: Seq<char>) -> Option<Seq<char>>;

/// The serialisation of the URL that `url` parses to after its path was
/// set to `path`, `None` where `url` does not parse.
pub uninterp spec fn url_with_path(url: Seq<char>, path: Seq<char>) -> Option<Seq<char>>;

/// The serialisation of the URL that `url` parses to after its host was
/// set to `host`, `None` where `url` does not parse or the host is refused.
pub uninterp spec fn url_with_host(url: Seq<char>, host: Seq<char>) -> Option<Seq<char>>;

/// The serialisation of the URL that `url` parses to after its query was
/// set to `query`, or removed for `None`; `None` where `url` does not parse.
pub uninterp spec fn url_with_query(url: Seq<char>, query: Option<Seq<char>>) -> Option<
    Seq<char>,
>;

/// The query string of the URL that `url` parses to, `None` where it has
/// none or `url` does not parse.
pub uninterp spec fn url_query(url: Seq<char>) -> Option<Seq<char>>;

/// The host of the URL that `url` parses to, `None` where it has none or
/// `url` does not parse.
pub uninterp spec fn url_host(url: Seq<char>) -> Option<Seq<char>>;

/// The ASCII serialisation of the origin of the URL that `url` parses
/// to, `None` where `url` does not parse.
pub uninterp spec fn url_origin(url: Seq<char>) -> Option<Seq<char>>;

/// Calls `Url::parse` on `input` and returns `Url::as_str` of the result,
/// `None` for an error. Nothing is claimed of the text but that it is the
/// same for the same input.
#[verifier::external_body]
pub(crate) fn parse_url(input: &str) -> (parsed: Option<String>)
    ensures
        text_of(parsed) == url_parse(input@),
{
    match Url::parse(input) {
        Ok(url) => Some(String::from(url.as_str())),
        Err(_) => None,
    }
}

/// Parses `base` and calls `Url::join` on it with `input`; returns
/// `Url::as_str` of the result, `None` where either step reports an error.
#[verifier::external_body]
pub(crate) fn join_url(base: &str, input: &str) -> (joined: Option<String>)
    ensures
        text_of(joined) == url_join(base@, input@),
{
    match Url::parse(base) {
        Ok(url) => match url.join(input) {
            Ok(target) => Some(String::from(target.as_str())),
            Err(_) => None,
        },
        Err(_) => None,
    }
}

/// Parses `url` and calls `Url::set_path` on it with `path`; returns
/// `Url::as_str` of the result. `Url::set_path` stops the program where
/// the new serialisation has no 32-bit length: the length limit keeps
/// such texts out.
#[verifier::external_body]
pub(crate) fn with_path(url: &str, path: &str) -> (changed: Option<String>)
    requires
        url@.len() <= MAX_URL_CHARS,
        path@.len() <= MAX_URL_CHARS,
    ensures
        text_of(changed) == url_with_path(url@, path@),
{
    match Url::parse(url) {
        Ok(mut target) => {
            target.set_path(path);
            Some(String::from(target.as_str()))
        },
        Err(_) => None,
    }
}

/// Parses `url` and calls `Url::set_host` on it with `Some(host)`;
/// returns `Url::as_str` of the result, `None` where `Url::set_host`
/// reports an error. The length limit is there for the same reason as in
/// `with_path`.
#[verifier::external_body]
pub(crate) fn with_host(url: &str, host: &str) -> (changed: Option<String>)
    requires
        url@.len() <= MAX_URL_CHARS,
        host@.len() <= MAX_URL_CHARS,
    ensures
        text_of(changed) == url_with_host(url@, host@),
{
    match Url::parse(url) {
        Ok(mut target) => match target.set_host(Some(host)) {
            Ok(_) => Some(String::from(target.as_str())),
            Err(_) => None,
        },
        Err(_) => None,
    }
}

/// Parses `url` and calls `Url::set_query` on it with `query`; returns
/// `Url::as_str` of the result. The length limit is there for the same
/// reason as in `with_path`.
#[verifier::external_body]
pub(crate) fn with_query(url: &str, query: Option<&str>) -> (changed: Option<String>)
    requires
        url@.len() <= MAX_URL_CHARS,
        query matches Some(q) ==> q@.len() <= MAX_URL_CHARS,
    ensures
        text_of(changed) == url_with_query(
            url@,
            match query {
                Some(q) => Some(q@),
                None => None,
            },
        ),
{
    match Url::parse(url) {
        Ok(mut target) => {
            target.set_query(query);
            Some(String::from(target.as_str()))
        },
        Err(_) => None,
    }
}

/// Parses `url` and returns a copy of `Url::query` of the result.
#[verifier::external_body]
pub(crate) fn query_of(url: &str) -> (query: Option<String>)
    ensures
        text_of(query) == url_query(url@),
{
    match Url::parse(url) {
        Ok(target) => target.query().map(String::from),
        Err(_) => None,
    }
}

/// Parses `url` and returns a copy of `Url::host_str` of the result.
#[verifier::external_body]
pub(crate) fn host_of(url: &str) -> (host: Option<String>)
    ensures
        text_of(host) == url_host(url@),
{
    match Url::parse(url) {
        Ok(target) => target.host_str().map(String::from),
        Err(_) => None,
    }
}

/// Parses `url` and returns `Origin::ascii_serialization` of
/// `Url::origin` of the result.
#[verifier::external_body]
pub(crate) fn origin_of(url: &str) -> (origin: Option<String>)
    ensures
        text_of(origin) == url_origin(url@),
{
    match Url::parse(url) {
        Ok(target) => Some(target.origin().ascii_serialization()),
        Err(_) => None,
    }
}

} // verus!
