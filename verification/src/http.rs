//! The HTTP request/response contract the engine needs from its transport:
//! plain request and response values, method parsing, the success predicate,
//! header lookup, JSON body parsing and the sent-bytes estimate.
//!
//! The wire transport itself (connections, TLS, timeouts) lives outside the
//! library; it hands responses in as plain values.

use crate::errors::ProtocolError;
use crate::model::DurationNanos;
use crate::strutil::{spec_decimal, spec_eq_ignore_ascii_case, eq_ignore_ascii_case, u64_to_string};
use vstd::prelude::*;

verus! {

/// An HTTP method the engine can issue.
#[derive(Clone, Copy, Debug, PartialEq, Eq, Structural)]
pub enum HttpMethod {
    Get,
    Post,
    Put,
    Delete,
    Patch,
    Head,
    Options,
}

/// A request, fully rendered and ready to send.
#[derive(Clone, Debug)]
pub struct HttpRequest {
    pub method: String,
    pub url: String,
    pub headers: Vec<(String, String)>,
    pub body: Option<String>,
    pub timeout: Option<DurationNanos>,
}

/// A response, as the transport hands it back: status, headers, body and the
/// measured sizes and timing.
#[derive(Clone, Debug)]
pub struct HttpResponse {
    pub status: u16,
    pub headers: Vec<(String, String)>,
    pub body: String,
    pub duration: DurationNanos,
    pub bytes_sent: u64,
    pub bytes_received: u64,
}

/// The value of the first entry with the given name, if any.
pub open spec fn spec_header_lookup(hs: Seq<(String, String)>, key: Seq<char>) -> Option<
    Seq<char>,
>
    decreases hs.len(),
{
    if hs.len() == 0 {
        None
    } else if hs.first().0@ == key {
        Some(hs.first().1@)
    } else {
        spec_header_lookup(hs.drop_first(), key)
    }
}

impl HttpResponse {
    /// Whether the status code is in the 2xx class.
    pub fn is_success(&self) -> (r: bool)
        ensures
            r == (200 <= self.status < 300),
    {
        self.status >= 200 && self.status < 300
    }

    /// The value of the first header with the given name, if any.
    pub fn header(&self, key: &str) -> (r: Option<&String>)
        ensures
            match r {
                Some(v) => spec_header_lookup(self.headers@, key@) == Some(v@),
                None => spec_header_lookup(self.headers@, key@) is None,
            },
    {
        let n = self.headers.len();
        let mut i: usize = 0;
        proof {
            assert(self.headers@.subrange(0, n as int) =~= self.headers@);
        }
        while i < n
            invariant
                i <= n,
                n == self.headers@.len(),
                spec_header_lookup(self.headers@, key@) == spec_header_lookup(
                    self.headers@.subrange(i as int, n as int),
                    key@,
                ),
            decreases n - i,
        {
            proof {
                assert(self.headers@.subrange(i as int, n as int).first()
                    == self.headers@[i as int]);
                assert(self.headers@.subrange(i as int, n as int).drop_first()
                    =~= self.headers@.subrange(i + 1, n as int));
            }
            if crate::strutil::str_eq(self.headers[i].0.as_str(), key) {
                return Some(&self.headers[i].1);
            }
            i += 1;
        }
        None
    }

    /// Parse the body as JSON. Succeeds exactly when the body is valid JSON.
    pub fn json(&self) -> (r: Result<serde_json::Value, ProtocolError>)
        ensures
            r is Ok <==> json_parse_ok(self.body@),
            r matches Err(e) ==> (e matches ProtocolError::InvalidResponse(m) && m@.len()
                >= "JSON parse error: "@.len() && m@.subrange(0, "JSON parse error: "@.len() as int)
                == "JSON parse error: "@),
    {
        match parse_json_value(self.body.as_str()) {
            Ok(v) => Ok(v),
            Err(e) => {
                let rendered = json_error_to_string(&e);
                let mut m = prefix_str("JSON parse error: ");
                let ghost prefix = m@;
                m.append(rendered.as_str());
                proof {
                    assert(m@.subrange(0, prefix.len() as int) =~= prefix);
                }
                Err(ProtocolError::InvalidResponse(m))
            },
        }
    }
}

/// serde_json::Value, declared so it can be carried through; opaque to the
/// engine, which never looks inside one.
#[verifier::external_type_specification]
#[verifier::external_body]
pub struct ExValue(serde_json::Value);

/// serde_json::Error, declared so the parse wrapper can return it; mapped to
/// the engine's own error right after the call.
#[verifier::external_type_specification]
#[verifier::external_body]
pub struct ExJsonError(serde_json::Error);

/// Whether the JSON library accepts a text as a complete JSON value; a
/// function of the text alone.
pub uninterp spec fn json_parse_ok(s: Seq<char>) -> bool;

/// Relies on serde_json::from_str::<Value>: parsing succeeds or fails
/// depending on the text alone.
#[verifier::external_body]
fn parse_json_value(s: &str) -> (r: Result<serde_json::Value, serde_json::Error>)
    ensures
        r is Ok <==> json_parse_ok(s@),
{
    serde_json::from_str(s)
}

/// Relies on serde_json::Error's Display implementation to render the error.
#[verifier::external_body]
fn json_error_to_string(e: &serde_json::Error) -> (r: String) {
    format!("{}", e)
}

/// A literal as an owned string.
fn prefix_str(s: &str) -> (r: String)
    ensures
        r@ == s@,
{
    s.to_owned()
}

/// How a method string is understood, up to ASCII letter case.
pub open spec fn spec_parse_method(s: Seq<char>) -> Option<HttpMethod> {
    if spec_eq_ignore_ascii_case(s, "GET"@) {
        Some(HttpMethod::Get)
    } else if spec_eq_ignore_ascii_case(s, "POST"@) {
        Some(HttpMethod::Post)
    } else if spec_eq_ignore_ascii_case(s, "PUT"@) {
        Some(HttpMethod::Put)
    } else if spec_eq_ignore_ascii_case(s, "DELETE"@) {
        Some(HttpMethod::Delete)
    } else if spec_eq_ignore_ascii_case(s, "PATCH"@) {
        Some(HttpMethod::Patch)
    } else if spec_eq_ignore_ascii_case(s, "HEAD"@) {
        Some(HttpMethod::Head)
    } else if spec_eq_ignore_ascii_case(s, "OPTIONS"@) {
        Some(HttpMethod::Options)
    } else {
        None
    }
}

/// Parse a method name, case-insensitively; rejects anything the engine
/// cannot issue, naming the offending method.
pub fn parse_method(method: &str) -> (r: Result<HttpMethod, ProtocolError>)
    ensures
        match r {
            Ok(m) => spec_parse_method(method@) == Some(m),
            Err(e) => {
                &&& spec_parse_method(method@) is None
                &&& e matches ProtocolError::InvalidResponse(msg)
                &&& msg@ == "Unsupported HTTP method: "@ + method@
            },
        },
{
    if eq_ignore_ascii_case(method, "GET") {
        Ok(HttpMethod::Get)
    } else if eq_ignore_ascii_case(method, "POST") {
        Ok(HttpMethod::Post)
    } else if eq_ignore_ascii_case(method, "PUT") {
        Ok(HttpMethod::Put)
    } else if eq_ignore_ascii_case(method, "DELETE") {
        Ok(HttpMethod::Delete)
    } else if eq_ignore_ascii_case(method, "PATCH") {
        Ok(HttpMethod::Patch)
    } else if eq_ignore_ascii_case(method, "HEAD") {
        Ok(HttpMethod::Head)
    } else if eq_ignore_ascii_case(method, "OPTIONS") {
        Ok(HttpMethod::Options)
    } else {
        let mut m = prefix_str("Unsupported HTTP method: ");
        m.append(method);
        Err(ProtocolError::InvalidResponse(m))
    }
}

/// The size estimate of a rendered request: request line, headers with their
/// separators, the blank line, and the body, counted in characters.
pub open spec fn spec_request_size(r: HttpRequest) -> int {
    r.method@.len() + r.url@.len() + 10 + spec_headers_size(r.headers@) + 2 + match r.body {
        Some(b) => b@.len() as int,
        None => 0,
    }
}

/// Combined size of rendered headers: name, value, and four separator
/// characters each.
pub open spec fn spec_headers_size(hs: Seq<(String, String)>) -> int
    decreases hs.len(),
{
    if hs.len() == 0 {
        0
    } else {
        spec_headers_size(hs.drop_last()) + hs.last().0@.len() + hs.last().1@.len() + 4
    }
}

/// Estimate the bytes a request will occupy on the wire. An estimate from
/// the rendered parts, not a wire capture.
pub fn estimate_request_size(request: &HttpRequest) -> (r: u64)
    requires
        spec_request_size(*request) <= u64::MAX,
    ensures
        r == spec_request_size(*request),
{
    proof {
        lemma_headers_size_bounds(request.headers@, request.headers@.len() as int);
        assert(request.headers@.subrange(0, request.headers@.len() as int) =~= request.headers@);
    }
    let mut size: u64 = request.method.as_str().unicode_len() as u64;
    size = size + request.url.as_str().unicode_len() as u64;
    size = size + 10;
    let n = request.headers.len();
    let mut i: usize = 0;
    while i < n
        invariant
            i <= n,
            n == request.headers@.len(),
            spec_request_size(*request) <= u64::MAX,
            size == request.method@.len() + request.url@.len() + 10 + spec_headers_size(
                request.headers@.subrange(0, i as int),
            ),
        decreases n - i,
    {
        proof {
            lemma_headers_size_bounds(request.headers@, i + 1);
            lemma_headers_size_prefix(request.headers@, i + 1, n as int);
            assert(request.headers@.subrange(0, i + 1).drop_last() =~= request.headers@.subrange(
                0,
                i as int,
            ));
            assert(request.headers@.subrange(0, i + 1).last() == request.headers@[i as int]);
            assert(request.headers@.subrange(0, n as int) =~= request.headers@);
        }
        size = size + request.headers[i].0.as_str().unicode_len() as u64;
        size = size + request.headers[i].1.as_str().unicode_len() as u64;
        size = size + 4;
        i += 1;
    }
    proof {
        assert(request.headers@.subrange(0, n as int) =~= request.headers@);
    }
    size = size + 2;
    match &request.body {
        Some(b) => {
            size = size + b.as_str().unicode_len() as u64;
        },
        None => {},
    }
    size
}

/// Prefix sums of header sizes are non-negative.
proof fn lemma_headers_size_bounds(hs: Seq<(String, String)>, i: int)
    requires
        0 <= i <= hs.len(),
    ensures
        0 <= spec_headers_size(hs.subrange(0, i)),
    decreases i,
{
    if i > 0 {
        assert(hs.subrange(0, i).drop_last() =~= hs.subrange(0, i - 1));
        lemma_headers_size_bounds(hs, i - 1);
    }
}

/// A prefix's header size never exceeds a longer prefix's.
proof fn lemma_headers_size_prefix(hs: Seq<(String, String)>, i: int, j: int)
    requires
        0 <= i <= j <= hs.len(),
    ensures
        spec_headers_size(hs.subrange(0, i)) <= spec_headers_size(hs.subrange(0, j)),
    decreases j - i,
{
    if i < j {
        lemma_headers_size_prefix(hs, i, j - 1);
        assert(hs.subrange(0, j).drop_last() =~= hs.subrange(0, j - 1));
    }
}

} // verus!
