//! Configuration of the HTTP client that talks to the Python REST server:
//! base URL, authentication, and the URLs and response handling derived
//! from it. Sending requests is left to the caller.

use crate::json::{parse_json, parsed_json, Json};
use crate::text::{chars_of, concat, decimal, string_of, u64_text};
use vstd::prelude::*;

verus! {

#[derive(Debug, Clone)]
pub struct ProxyConfig {
    pub base_url: String,
    /// `(username, password)` for HTTP Basic auth.
    pub auth: Option<(String, String)>,
    pub bearer: Option<String>,
    pub timeout_seconds: u64,
}

impl Default for ProxyConfig {
    fn default() -> (r: Self)
        ensures
            r.base_url@ == "http://127.0.0.1:6900"@,
            r.auth is None,
            r.bearer is None,
            r.timeout_seconds == 60,
    {
        ProxyConfig {
            base_url: "http://127.0.0.1:6900".to_owned(),
            auth: None,
            bearer: None,
            timeout_seconds: 60,
        }
    }
}

/// Errors of a proxied request. Transport and decoding failures carry the
/// text of the underlying error.
#[derive(Debug, Clone)]
pub enum ProxyError {
    /// The base URL is empty.
    NotConfigured,
    /// The server answered with a non-success status.
    Http { status: u16, body: String },
    /// The request could not be sent or its body read.
    Reqwest(String),
    /// The body was not the expected JSON.
    Json(String),
    Internal(String),
}

/// The text of an error.
pub open spec fn proxy_message(e: ProxyError) -> Seq<char> {
    match e {
        ProxyError::NotConfigured => "proxy not configured (base URL is empty)"@,
        ProxyError::Http { status, body } => "HTTP "@ + decimal(status as nat) + ": "@ + body@,
        ProxyError::Reqwest(m) => "network error: "@ + m@,
        ProxyError::Json(m) => "json error: "@ + m@,
        ProxyError::Internal(m) => "internal: "@ + m@,
    }
}

impl ProxyError {
    /// The text of the error.
    pub fn message(&self) -> (r: String)
        ensures
            r@ == proxy_message(*self),
    {
        match self {
            ProxyError::NotConfigured => "proxy not configured (base URL is empty)".to_owned(),
            ProxyError::Http { status, body } => {
                let a = u64_text(*status as u64);
                let b = concat("HTTP ", a.as_str());
                let c = concat(b.as_str(), ": ");
                concat(c.as_str(), body.as_str())
            },
            ProxyError::Reqwest(m) => concat("network error: ", m.as_str()),
            ProxyError::Json(m) => concat("json error: ", m.as_str()),
            ProxyError::Internal(m) => concat("internal: ", m.as_str()),
        }
    }
}

/// How a response is to be handled, by its status code.
#[derive(Debug, Clone, Copy, PartialEq, Eq, Structural)]
pub enum ResponseKind {
    /// 204: there is no body; the caller decodes JSON `null`.
    NoContent,
    /// A status outside 200..=299: the body becomes an HTTP error.
    Failure,
    /// Any other success status: the body is decoded as JSON.
    Success,
}

/// The handling of a response with status `status` (success is 200..=299,
/// as `reqwest::StatusCode::is_success` defines it).
pub fn response_kind(status: u16) -> (r: ResponseKind)
    ensures
        status == 204 ==> r == ResponseKind::NoContent,
        status != 204 && !(200 <= status <= 299) ==> r == ResponseKind::Failure,
        status != 204 && 200 <= status <= 299 ==> r == ResponseKind::Success,
{
    if status == 204 {
        ResponseKind::NoContent
    } else if !(200 <= status && status <= 299) {
        ResponseKind::Failure
    } else {
        ResponseKind::Success
    }
}

/// The authentication a request carries.
#[derive(Debug, Clone)]
pub enum AuthChoice {
    /// No authentication header.
    Anonymous,
    Basic { user: String, password: String },
    Bearer(String),
}

/// `s` without any trailing occurrences of `c`.
pub open spec fn trim_end_char(s: Seq<char>, c: char) -> Seq<char>
    decreases s.len(),
{
    if s.len() > 0 && s.last() == c {
        trim_end_char(s.drop_last(), c)
    } else {
        s
    }
}

/// `s` without any leading occurrences of `c`.
pub open spec fn trim_start_char(s: Seq<char>, c: char) -> Seq<char>
    decreases s.len(),
{
    if s.len() > 0 && s[0] == c {
        trim_start_char(s.drop_first(), c)
    } else {
        s
    }
}

fn trimmed_end(s: &str, c: char) -> (r: String)
    ensures
        r@ == trim_end_char(s@, c),
{
    let cs = chars_of(s);
    let mut b: usize = cs.len();
    assert(cs@.subrange(0, cs@.len() as int) =~= cs@);
    while b > 0 && cs[b - 1] == c
        invariant
            b <= cs@.len(),
            trim_end_char(s@, c) == trim_end_char(cs@.subrange(0, b as int), c),
        decreases b,
    {
        assert(cs@.subrange(0, b as int).drop_last() =~= cs@.subrange(0, b - 1));
        b = b - 1;
    }
    string_of(&cs, 0, b)
}

fn trimmed_start(s: &str, c: char) -> (r: String)
    ensures
        r@ == trim_start_char(s@, c),
{
    let cs = chars_of(s);
    let n: usize = cs.len();
    let mut a: usize = 0;
    assert(cs@.subrange(0, n as int) =~= s@);
    while a < n && cs[a] == c
        invariant
            a <= n == cs@.len(),
            trim_start_char(s@, c) == trim_start_char(cs@.subrange(a as int, n as int), c),
        decreases n - a,
    {
        assert(cs@.subrange(a as int, n as int).drop_first() =~= cs@.subrange(a + 1, n as int));
        a = a + 1;
    }
    string_of(&cs, a, n)
}

/// `s` starts with `p`.
pub open spec fn has_prefix(s: Seq<char>, p: Seq<char>) -> bool {
    p.len() <= s.len() && s.subrange(0, p.len() as int) == p
}

fn starts_with(s: &str, p: &str) -> (r: bool)
    ensures
        r == has_prefix(s@, p@),
{
    let a = chars_of(s);
    let b = chars_of(p);
    if b.len() > a.len() {
        return false;
    }
    let mut i: usize = 0;
    while i < b.len()
        invariant
            i <= b@.len() <= a@.len(),
            a@ == s@,
            b@ == p@,
            forall|k: int| 0 <= k < i ==> a@[k] == b@[k],
        decreases b@.len() - i,
    {
        if a[i] != b[i] {
            assert(a@.subrange(0, b@.len() as int)[i as int] != b@[i as int]);
            return false;
        }
        i = i + 1;
    }
    assert(a@.subrange(0, b@.len() as int) =~= b@);
    true
}

/// The URL a proxied route is sent to: leading slashes of the route are
/// dropped, `api/v1/` is prepended unless the route already starts with
/// `api/v`, and the result is joined to the base URL with one slash.
pub open spec fn route_url(base: Seq<char>, route: Seq<char>) -> Seq<char> {
    let trimmed = trim_start_char(route, '/');
    let path = if has_prefix(trimmed, "api/v"@) {
        trimmed
    } else {
        "api/v1/"@ + trimmed
    };
    base + "/"@ + path
}

/// The URL of a raw path (no `/api/v1` prefix): the path is joined to the
/// base URL, with a slash added when the path has none in front.
pub open spec fn raw_url(base: Seq<char>, path: Seq<char>) -> Seq<char> {
    if has_prefix(path, "/"@) {
        base + path
    } else {
        base + "/"@ + path
    }
}

/// The configuration of the client, with the HTTP client itself kept by
/// the caller.
pub struct Proxy {
    config: ProxyConfig,
}

impl Proxy {
    pub closed spec fn spec_config(&self) -> ProxyConfig {
        self.config
    }

    /// Basic auth and a bearer token are never both set.
    pub open spec fn wf(&self) -> bool {
        !(self.spec_config().auth is Some && self.spec_config().bearer is Some)
    }

    pub fn new() -> (r: Self)
        ensures
            r.spec_config().base_url@ == "http://127.0.0.1:6900"@,
            r.spec_config().auth is None,
            r.spec_config().bearer is None,
            r.spec_config().timeout_seconds == 60,
            r.wf(),
    {
        Proxy { config: ProxyConfig::default() }
    }

    /// A copy of the current configuration.
    pub fn config(&self) -> (r: ProxyConfig)
        ensures
            r.base_url@ == self.spec_config().base_url@,
            r.auth == self.spec_config().auth,
            r.bearer == self.spec_config().bearer,
            r.timeout_seconds == self.spec_config().timeout_seconds,
    {
        ProxyConfig {
            base_url: self.config.base_url.clone(),
            auth: match &self.config.auth {
                Some((u, p)) => Some((u.clone(), p.clone())),
                None => None,
            },
            bearer: match &self.config.bearer {
                Some(b) => Some(b.clone()),
                None => None,
            },
            timeout_seconds: self.config.timeout_seconds,
        }
    }

    /// Sets the base URL, without its trailing slashes.
    pub fn set_base_url(&mut self, url: String)
        ensures
            final(self).spec_config().base_url@ == trim_end_char(url@, '/'),
            final(self).spec_config().auth == old(self).spec_config().auth,
            final(self).spec_config().bearer == old(self).spec_config().bearer,
            final(self).spec_config().timeout_seconds == old(self).spec_config().timeout_seconds,
            old(self).wf() ==> final(self).wf(),
    {
        self.config.base_url = trimmed_end(url.as_str(), '/');
    }

    /// Uses HTTP Basic auth from now on (dropping any bearer token).
    pub fn set_basic_auth(&mut self, user: String, pass: String)
        ensures
            final(self).spec_config().auth == Some((user, pass)),
            final(self).spec_config().bearer is None,
            final(self).spec_config().base_url == old(self).spec_config().base_url,
            final(self).spec_config().timeout_seconds == old(self).spec_config().timeout_seconds,
            final(self).wf(),
    {
        self.config.auth = Some((user, pass));
        self.config.bearer = None;
    }

    /// Uses a bearer token from now on (dropping any Basic auth).
    pub fn set_bearer(&mut self, token: String)
        ensures
            final(self).spec_config().bearer == Some(token),
            final(self).spec_config().auth is None,
            final(self).spec_config().base_url == old(self).spec_config().base_url,
            final(self).spec_config().timeout_seconds == old(self).spec_config().timeout_seconds,
            final(self).wf(),
    {
        self.config.bearer = Some(token);
        self.config.auth = None;
    }

    /// Drops both kinds of authentication.
    pub fn clear_auth(&mut self)
        ensures
            final(self).spec_config().auth is None,
            final(self).spec_config().bearer is None,
            final(self).spec_config().base_url == old(self).spec_config().base_url,
            final(self).spec_config().timeout_seconds == old(self).spec_config().timeout_seconds,
            final(self).wf(),
    {
        self.config.auth = None;
        self.config.bearer = None;
    }

    /// The authentication the next request carries: Basic auth when set,
    /// else the bearer token, else none.
    pub fn auth_choice(&self) -> (r: AuthChoice)
        ensures
            match self.spec_config().auth {
                Some(a) => r matches AuthChoice::Basic { user, password } && user@ == a.0@ && password@ == a.1@,
                None => match self.spec_config().bearer {
                    Some(b) => r matches AuthChoice::Bearer(t) && t@ == b@,
                    None => r is Anonymous,
                },
            },
    {
        match &self.config.auth {
            Some((u, p)) => AuthChoice::Basic { user: u.clone(), password: p.clone() },
            None => match &self.config.bearer {
                Some(b) => AuthChoice::Bearer(b.clone()),
                None => AuthChoice::Anonymous,
            },
        }
    }

    /// The URL a route is sent to; fails when no base URL is set.
    pub fn build_url(&self, route: &str) -> (r: Result<String, ProxyError>)
        ensures
            self.spec_config().base_url@.len() == 0 ==> r matches Err(ProxyError::NotConfigured),
            self.spec_config().base_url@.len() > 0 ==> (r matches Ok(u) && u@ == route_url(
                self.spec_config().base_url@,
                route@,
            )),
    {
        let trimmed = trimmed_start(route, '/');
        if self.config.base_url.as_str().is_empty() {
            return Err(ProxyError::NotConfigured);
        }
        let path = if starts_with(trimmed.as_str(), "api/v") {
            trimmed
        } else {
            concat("api/v1/", trimmed.as_str())
        };
        let with_slash = concat(self.config.base_url.as_str(), "/");
        let url = concat(with_slash.as_str(), path.as_str());
        assert(url@ =~= route_url(self.spec_config().base_url@, route@));
        Ok(url)
    }

    /// The URL of a raw path such as `/openapi.json`.
    pub fn raw_url(&self, path: &str) -> (r: String)
        ensures
            r@ == raw_url(self.spec_config().base_url@, path@),
    {
        if starts_with(path, "/") {
            concat(self.config.base_url.as_str(), path)
        } else {
            let with_slash = concat(self.config.base_url.as_str(), "/");
            let r = concat(with_slash.as_str(), path);
            assert(r@ =~= raw_url(self.spec_config().base_url@, path@));
            r
        }
    }
}

/// The value a response stands for: JSON `null` for 204, an HTTP error
/// carrying the body for a status outside 200..=299, else the JSON the
/// body reads as (a JSON error when it does not).
pub fn decode_body(status: u16, body: String) -> (r: Result<Json, ProxyError>)
    ensures
        status == 204 ==> r == Ok::<Json, ProxyError>(Json::Null),
        status != 204 && !(200 <= status <= 299) ==> r == Err::<Json, ProxyError>(ProxyError::Http { status, body }),
        status != 204 && 200 <= status <= 299 ==> match parsed_json(body@) {
            Ok(j) => r == Ok::<Json, ProxyError>(j),
            Err(e) => r matches Err(ProxyError::Json(m)) && m@ == e,
        },
{
    match response_kind(status) {
        ResponseKind::NoContent => Ok(Json::Null),
        ResponseKind::Failure => Err(ProxyError::Http { status, body }),
        ResponseKind::Success => match parse_json(body.as_str()) {
            Ok(j) => Ok(j),
            Err(e) => Err(ProxyError::Json(e)),
        },
    }
}

/// A route may be given with or without its leading slash and with or
/// without the `/api/v1` prefix: all forms reach the same URL (for a route
/// `t` that has neither itself).
pub proof fn lemma_route_forms_agree(base: Seq<char>, t: Seq<char>)
    requires
        !(t.len() > 0 && t[0] == '/'),
        !has_prefix(t, "api/v"@),
    ensures
        route_url(base, "/"@ + t) == route_url(base, t),
        route_url(base, "api/v1/"@ + t) == route_url(base, t),
        route_url(base, "/api/v1/"@ + t) == route_url(base, t),
{
    reveal_strlit("/");
    reveal_strlit("api/v1/");
    reveal_strlit("/api/v1/");
    reveal_strlit("api/v");
    let a = "/"@ + t;
    assert(a[0] == '/');
    assert(a.drop_first() =~= t);
    assert(trim_start_char(t, '/') == t);
    assert(trim_start_char(a, '/') == t);
    let b = "api/v1/"@ + t;
    assert(b[0] == 'a');
    assert(trim_start_char(b, '/') == b);
    assert(b.subrange(0, 5) =~= "api/v"@);
    assert(has_prefix(b, "api/v"@));
    let c = "/api/v1/"@ + t;
    assert(c[0] == '/');
    assert(c.drop_first() =~= b);
    assert(trim_start_char(c, '/') == b);
}

} // verus!
