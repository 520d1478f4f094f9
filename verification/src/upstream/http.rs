//! Requests to the upstream, before they are sent.

use vstd::prelude::*;
use vstd::string::*;

use crate::json::{text_of_json, Json, JsonView};
use crate::text::opt_view;

verus! {

/// The address of the upstream.
pub const BASE_URL: &'static str = "https://chat.qwen.ai";

/// The browser that requests come from.
pub const UA: &'static str = "Mozilla/5.0 (Windows NT 10.0; Win64; x64) AppleWebKit/537.36 (KHTML, like Gecko) Chrome/120.0.0.0 Safari/537.36";

/// The method of a request.
#[derive(Clone, Copy, PartialEq, Eq, Structural, Debug)]
pub enum Method {
    Get,
    Post,
    Delete,
}

/// A request.
pub struct HttpRequest {
    pub method: Method,
    pub url: String,
    /// Names and values, in the order in which they are sent.
    pub headers: Vec<(String, String)>,
    /// The text of a JSON body.
    pub body: Option<String>,
    /// How long the request may take, in milliseconds; the client's own limit if none is given.
    pub timeout_ms: Option<u64>,
}

/// A request, as a mathematical value.
#[verifier::ext_equal]
pub struct HttpView {
    pub method: Method,
    pub url: Seq<char>,
    pub headers: Seq<(Seq<char>, Seq<char>)>,
    pub body: Option<Seq<char>>,
    pub timeout_ms: Option<u64>,
}

/// The headers of a vector, as mathematical values.
pub open spec fn header_views(headers: Seq<(String, String)>) -> Seq<(Seq<char>, Seq<char>)> {
    headers.map_values(|h: (String, String)| (h.0@, h.1@))
}

impl View for HttpRequest {
    type V = HttpView;

    open spec fn view(&self) -> HttpView {
        HttpView {
            method: self.method,
            url: self.url@,
            headers: header_views(self.headers@),
            body: opt_view(self.body),
            timeout_ms: self.timeout_ms,
        }
    }
}

/// The view of an optional request.
pub open spec fn opt_http_view(r: Option<HttpRequest>) -> Option<HttpView> {
    match r {
        Some(v) => Some(v@),
        None => None,
    }
}

/// Two texts, one after the other.
pub fn joined(a: &str, b: &str) -> (r: String)
    ensures
        r@ == a@ + b@,
{
    let mut r = String::from_str(a);
    r.append(b);
    r
}

/// The headers of every request of an account.
pub open spec fn account_headers(token: Seq<char>, request_id: Seq<char>) -> Seq<
    (Seq<char>, Seq<char>),
> {
    seq![
        ("Authorization"@, "Bearer "@ + token),
        ("User-Agent"@, UA@),
        ("Accept"@, "application/json, text/plain, */*"@),
        ("Accept-Language"@, "zh-CN,zh;q=0.9,en;q=0.8"@),
        ("Referer"@, "https://chat.qwen.ai/"@),
        ("Origin"@, "https://chat.qwen.ai"@),
        ("x-request-id"@, request_id),
    ]
}

impl HttpView {
    /// A request of an account.
    pub open spec fn of_account(
        method: Method,
        path: Seq<char>,
        token: Seq<char>,
        request_id: Seq<char>,
    ) -> HttpView {
        HttpView {
            method,
            url: BASE_URL@ + path,
            headers: account_headers(token, request_id),
            body: None,
            timeout_ms: None,
        }
    }

    /// The request with one more header.
    pub open spec fn header(self, name: Seq<char>, value: Seq<char>) -> HttpView {
        HttpView { headers: self.headers.push((name, value)), ..self }
    }

    /// The request with a JSON body.
    pub open spec fn json(self, body: JsonView) -> HttpView {
        HttpView { body: Some(text_of_json(body)), ..self }
    }

    /// The request with a limit on its time.
    pub open spec fn timeout(self, ms: u64) -> HttpView {
        HttpView { timeout_ms: Some(ms), ..self }
    }
}

impl HttpRequest {
    /// A request without headers.
    pub fn bare(method: Method, path: &str) -> (r: Self)
        ensures
            r@ == (HttpView {
                method,
                url: BASE_URL@ + path@,
                headers: Seq::empty(),
                body: None,
                timeout_ms: None,
            }),
    {
        let r = HttpRequest {
            method,
            url: joined(BASE_URL, path),
            headers: Vec::new(),
            body: None,
            timeout_ms: None,
        };
        assert(header_views(r.headers@) =~= Seq::empty());
        r
    }

    /// Adds one header.
    pub fn header(self, name: &str, value: &str) -> (r: Self)
        ensures
            r@ == self@.header(name@, value@),
    {
        let mut r = self;
        let ghost h0 = r.headers@;
        r.headers.push((String::from_str(name), String::from_str(value)));
        assert(header_views(r.headers@) =~= header_views(h0).push((name@, value@)));
        r
    }

    /// Sets a JSON body.
    pub fn json(self, body: &Json) -> (r: Self)
        ensures
            r@ == self@.json(body@),
    {
        let mut r = self;
        r.body = Some(body.to_text());
        r
    }

    /// Limits the time of the request.
    pub fn timeout(self, ms: u64) -> (r: Self)
        ensures
            r@ == self@.timeout(ms),
    {
        let mut r = self;
        r.timeout_ms = Some(ms);
        r
    }

    /// A request of an account.
    pub fn of_account(method: Method, path: &str, token: &str, request_id: &str) -> (r: Self)
        ensures
            r@ == HttpView::of_account(method, path@, token@, request_id@),
    {
        let bearer = joined("Bearer ", token);
        let r = HttpRequest::bare(method, path).header("Authorization", bearer.as_str()).header(
            "User-Agent",
            UA,
        ).header("Accept", "application/json, text/plain, */*").header(
            "Accept-Language",
            "zh-CN,zh;q=0.9,en;q=0.8",
        ).header("Referer", "https://chat.qwen.ai/").header(
            "Origin",
            "https://chat.qwen.ai",
        ).header("x-request-id", request_id);
        assert(r@.headers =~= account_headers(token@, request_id@));
        r
    }
}

} // verus!
