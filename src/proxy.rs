//! Rewriting a request for its backend: the forward URI and the `Host`
//! header that goes with it.

use vstd::prelude::*;
use crate::routing::RouteError;
use crate::text::{has_prefix, join_text, strip_trailing_slashes, trim_trailing_slashes};

verus! {

/// Host and port of an absolute URI, as the `http` crate's parser reads
/// them: `None` when the text is no URI, `Some(None)` when it has no host.
pub uninterp spec fn uri_authority_of(url: Seq<char>) -> Option<Option<(Seq<char>, Option<u16>)>>;

/// The authority of a forward URI.
pub enum ParsedUri {
    Invalid,
    NoHost,
    Host(String, Option<u16>),
}

impl ParsedUri {
    /// What this parse result says, as plain values.
    pub open spec fn authority(&self) -> Option<Option<(Seq<char>, Option<u16>)>> {
        match self {
            ParsedUri::Invalid => None,
            ParsedUri::NoHost => Some(None),
            ParsedUri::Host(h, p) => Some(Some((h@, *p))),
        }
    }
}

/// Relies on `<http::Uri as FromStr>::from_str`, read through `Uri::host`
/// and `Uri::port_u16`: the result depends on the text alone.
#[verifier::external_body]
fn parse_uri_authority(url: &str) -> (r: ParsedUri)
    ensures
        r.authority() == uri_authority_of(url@),
{
    match url.parse::<axum::http::Uri>() {
        Err(_) => ParsedUri::Invalid,
        Ok(u) => match u.host() {
            None => ParsedUri::NoHost,
            Some(h) => ParsedUri::Host(h.to_string(), u.port_u16()),
        },
    }
}

/// The decimal digit for `d < 10`.
pub open spec fn digit_char(d: nat) -> char {
    "0123456789"@[d as int]
}

/// The decimal text of `n`, without leading zeros.
pub open spec fn decimal(n: nat) -> Seq<char>
    decreases n,
{
    if n < 10 {
        seq![digit_char(n)]
    } else {
        decimal(n / 10).push(digit_char(n % 10))
    }
}

/// `decimal(n)`, executable.
pub fn decimal_text(n: u16) -> (r: String)
    ensures
        r@ == decimal(n as nat),
    decreases n,
{
    let digits = "0123456789";
    proof {
        reveal_strlit("0123456789");
    }
    let d = (n % 10) as usize;
    let last = digits.substring_char(d, d + 1);
    assert(last@ =~= seq![digit_char(d as nat)]);
    if n < 10 {
        String::from_str(last)
    } else {
        let mut front = decimal_text(n / 10);
        front.append(last);
        front
    }
}

/// The `Host` header value for a host and an optional port.
pub open spec fn host_header_of(host: Seq<char>, port: Option<u16>) -> Seq<char> {
    match port {
        Some(p) => host + ":"@ + decimal(p as nat),
        None => host,
    }
}

/// `host_header_of`, executable.
pub fn host_header(host: &str, port: Option<u16>) -> (r: String)
    ensures
        r@ == host_header_of(host@, port),
{
    match port {
        Some(p) => {
            let with_colon = join_text(host, ":");
            let digits = decimal_text(p);
            join_text(with_colon.as_str(), digits.as_str())
        },
        None => String::from_str(host),
    }
}

/// Where a request goes and the `Host` header it then carries (none when
/// the URI has no host).
pub struct ForwardTarget {
    pub uri: String,
    pub host: Option<String>,
}

/// The forward URI: the backend's origin without trailing slashes, then the
/// request's path and query, or `/` when it has none.
pub open spec fn forward_url_of(server_url: Seq<char>, path_and_query: Option<Seq<char>>) -> Seq<char> {
    strip_trailing_slashes(server_url) + match path_and_query {
        Some(pq) => pq,
        None => "/"@,
    }
}

/// `forward_url_of`, executable.
pub fn forward_url(server_url: &str, path_and_query: Option<&str>) -> (r: String)
    ensures
        r@ == forward_url_of(server_url@, match path_and_query {
            Some(pq) => Some(pq@),
            None => None,
        }),
{
    let base = trim_trailing_slashes(server_url);
    match path_and_query {
        Some(pq) => join_text(base, pq),
        None => join_text(base, "/"),
    }
}

/// The target for a forward URI, given what parsing it found.
pub open spec fn target_spec(uri: Seq<char>, authority: Option<Option<(Seq<char>, Option<u16>)>>) -> Result<
    (Seq<char>, Option<Seq<char>>),
    RouteError,
> {
    match authority {
        None => Err(RouteError::BadUri),
        Some(None) => Ok((uri, None)),
        Some(Some((h, p))) => Ok((uri, Some(host_header_of(h, p)))),
    }
}

/// A forward target as plain values.
pub open spec fn target_view(r: Result<ForwardTarget, RouteError>) -> Result<(Seq<char>, Option<Seq<char>>), RouteError> {
    match r {
        Ok(t) => Ok((t.uri@, match t.host {
            Some(h) => Some(h@),
            None => None,
        })),
        Err(e) => Err(e),
    }
}

/// Builds the target of `uri` from what parsing it found.
pub fn target_from_parsed(uri: String, parsed: ParsedUri) -> (r: Result<ForwardTarget, RouteError>)
    ensures
        target_view(r) == target_spec(uri@, parsed.authority()),
{
    match parsed {
        ParsedUri::Invalid => Err(RouteError::BadUri),
        ParsedUri::NoHost => Ok(ForwardTarget { uri, host: None }),
        ParsedUri::Host(h, p) => {
            let header = host_header(h.as_str(), p);
            Ok(ForwardTarget { uri, host: Some(header) })
        },
    }
}

/// The target for a request sent to the backend at `server_url`.
pub fn forward_target(server_url: &str, path_and_query: Option<&str>) -> (r: Result<ForwardTarget, RouteError>)
    ensures
        ({
            let uri = forward_url_of(server_url@, match path_and_query {
                Some(pq) => Some(pq@),
                None => None,
            });
            target_view(r) == target_spec(uri, uri_authority_of(uri))
        }),
{
    let uri = forward_url(server_url, path_and_query);
    let parsed = parse_uri_authority(uri.as_str());
    target_from_parsed(uri, parsed)
}


/// `path` without the leading `prefix`, when it has it.
pub open spec fn without_prefix(path: Seq<char>, prefix: Seq<char>) -> Option<Seq<char>> {
    if prefix.len() <= path.len() && path.subrange(0, prefix.len() as int) == prefix {
        Some(path.subrange(prefix.len() as int, path.len() as int))
    } else {
        None
    }
}

/// The path a request addressed to one backend by URL is forwarded with:
/// the route prefix `/api/v1/backend/{id}` (or `/backend/{id}`) removed.
pub open spec fn backend_path_of(path: Seq<char>, server_id: Seq<char>) -> Seq<char> {
    match without_prefix(path, "/api/v1/backend/"@ + server_id) {
        Some(rest) => rest,
        None => match without_prefix(path, "/backend/"@ + server_id) {
            Some(rest) => rest,
            None => path,
        },
    }
}

fn strip_prefix_text<'a>(path: &'a str, prefix: &str) -> (r: Option<&'a str>)
    ensures
        match without_prefix(path@, prefix@) {
            Some(rest) => r is Some && r->Some_0@ == rest,
            None => r is None,
        },
{
    if has_prefix(path, prefix) {
        Some(path.substring_char(prefix.unicode_len(), path.unicode_len()))
    } else {
        None
    }
}

/// `backend_path_of`, executable.
pub fn backend_path(path: &str, server_id: &str) -> (r: String)
    ensures
        r@ == backend_path_of(path@, server_id@),
{
    let long = join_text("/api/v1/backend/", server_id);
    match strip_prefix_text(path, long.as_str()) {
        Some(rest) => String::from_str(rest),
        None => {
            let short = join_text("/backend/", server_id);
            match strip_prefix_text(path, short.as_str()) {
                Some(rest) => String::from_str(rest),
                None => String::from_str(path),
            }
        },
    }
}

/// The forward URI of a request addressed to one backend by URL.
pub open spec fn specific_url_of(
    server_url: Seq<char>,
    path: Seq<char>,
    server_id: Seq<char>,
    query: Option<Seq<char>>,
) -> Seq<char> {
    strip_trailing_slashes(server_url) + backend_path_of(path, server_id) + match query {
        Some(q) => "?"@ + q,
        None => Seq::<char>::empty(),
    }
}

/// `specific_url_of`, executable.
pub fn specific_backend_url(server_url: &str, path: &str, server_id: &str, query: Option<&str>) -> (r: String)
    ensures
        r@ == specific_url_of(server_url@, path@, server_id@, match query {
            Some(q) => Some(q@),
            None => None,
        }),
{
    let stripped = backend_path(path, server_id);
    let base = join_text(trim_trailing_slashes(server_url), stripped.as_str());
    match query {
        Some(q) => {
            let tail = join_text("?", q);
            let r = join_text(base.as_str(), tail.as_str());
            assert(r@ =~= base@ + ("?"@ + q@));
            r
        },
        None => {
            assert(base@ =~= base@ + Seq::<char>::empty());
            base
        },
    }
}

/// The target for a request addressed to one backend by URL.
pub fn specific_forward_target(server_url: &str, path: &str, server_id: &str, query: Option<&str>) -> (r: Result<
    ForwardTarget,
    RouteError,
>)
    ensures
        ({
            let uri = specific_url_of(server_url@, path@, server_id@, match query {
                Some(q) => Some(q@),
                None => None,
            });
            target_view(r) == target_spec(uri, uri_authority_of(uri))
        }),
{
    let uri = specific_backend_url(server_url, path, server_id, query);
    let parsed = parse_uri_authority(uri.as_str());
    target_from_parsed(uri, parsed)
}


/// A backend confirmed the deletion of an expired file: it answered 2xx.
pub fn delete_confirmed(status: u16) -> (r: bool)
    ensures
        r == (200 <= status <= 299),
{
    200 <= status && status <= 299
}

} // verus!
