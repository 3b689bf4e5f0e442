//! Scan configuration: the HTTP method, the prebuilt raw request, the
//! status and content conditions, and the concurrency and timeout knobs.
//! The request text is built once, before any probe runs, so that every
//! probe sends byte-identical bytes.

use vstd::prelude::*;
use vstd::string::StringExecFns;
use vstd::string::StrSliceExecFns;
use crate::matching::{regex_compiles, ContentMatcher};
use crate::text::{append_decimal, dec_digits};

verus! {

/// The HTTP methods a scan can probe with.
#[derive(Clone, Copy, PartialEq, Eq, Structural, Debug)]
pub enum HttpMethod {
    Head,
    Get,
    Post,
}

/// A fatal configuration fault, reported before any network activity.
#[derive(Clone, Copy, PartialEq, Eq, Structural, Debug)]
pub enum ConfigError {
    /// A custom header is missing its colon separator.
    InvalidHeader,
    /// The content pattern is not a valid regular expression.
    InvalidPattern,
}

/// A custom header line is well formed when it holds a colon separator.
pub open spec fn has_colon(h: Seq<char>) -> bool {
    exists|i: int| 0 <= i < h.len() && h[i] == ':'
}

/// The body a POST sends: the given body text, or nothing.
pub open spec fn body_view(post_body: Option<String>) -> Seq<char> {
    match post_body {
        Some(b) => b@,
        None => Seq::empty(),
    }
}

/// The first line and `Host` header of the request, with the
/// `Content-Length` header for a POST.
pub open spec fn request_head(method: HttpMethod, domain: Seq<char>, body: Seq<char>) -> Seq<
    char,
> {
    match method {
        HttpMethod::Head => "HEAD / HTTP/1.1\r\nHost: "@ + domain + "\r\n"@,
        HttpMethod::Get => "GET / HTTP/1.1\r\nHost: "@ + domain + "\r\n"@,
        HttpMethod::Post => "POST / HTTP/1.1\r\nHost: "@ + domain + "\r\nContent-Length: "@
            + dec_digits(body.len()) + "\r\n"@,
    }
}

/// The first `k` custom header lines, each followed by CRLF.
pub open spec fn headers_block(headers: Seq<Seq<char>>, k: int) -> Seq<char>
    decreases k,
{
    if k <= 0 {
        Seq::empty()
    } else {
        headers_block(headers, k - 1) + headers[k - 1] + "\r\n"@
    }
}

/// The whole raw request: request line and `Host`, custom headers, the
/// standard headers, the blank line, and the body for a POST.
pub open spec fn request_text(
    method: HttpMethod,
    domain: Seq<char>,
    headers: Seq<Seq<char>>,
    body: Seq<char>,
) -> Seq<char> {
    request_head(method, domain, body) + headers_block(headers, headers.len() as int)
        + "Connection: close\r\nUser-Agent: octointel/2.0\r\n\r\n"@ + (if method is Post {
        body
    } else {
        Seq::empty()
    })
}

/// Whether the header holds a colon separator.
fn header_has_colon(h: &String) -> (r: bool)
    ensures
        r == has_colon(h@),
{
    let hs: &str = h.as_str();
    let n = hs.unicode_len();
    let mut i: usize = 0;
    while i < n
        invariant
            0 <= i <= n,
            n == h@.len(),
            hs@ == h@,
            forall|k: int| 0 <= k < i ==> h@[k] != ':',
        decreases n - i,
    {
        if hs.get_char(i) == ':' {
            return true;
        }
        i += 1;
    }
    false
}

/// Builds the raw request text.  Fails exactly when some custom header
/// lacks its colon separator.
pub fn build_request(
    method: HttpMethod,
    domain: &String,
    headers: &Vec<String>,
    post_body: &Option<String>,
) -> (r: Result<String, ConfigError>)
    ensures
        r is Ok <==> (forall|i: int| 0 <= i < headers@.len() ==> has_colon(headers@[i]@)),
        r is Err ==> r->Err_0 == ConfigError::InvalidHeader,
        r is Ok ==> r.unwrap()@ == request_text(
            method,
            domain@,
            headers.deep_view(),
            body_view(*post_body),
        ),
{
    let mut req = String::new();
    match method {
        HttpMethod::Head => {
            req.append("HEAD / HTTP/1.1\r\nHost: ");
            req.append(domain.as_str());
            req.append("\r\n");
        },
        HttpMethod::Get => {
            req.append("GET / HTTP/1.1\r\nHost: ");
            req.append(domain.as_str());
            req.append("\r\n");
        },
        HttpMethod::Post => {
            req.append("POST / HTTP/1.1\r\nHost: ");
            req.append(domain.as_str());
            req.append("\r\nContent-Length: ");
            let blen = match post_body {
                Some(b) => b.as_str().unicode_len(),
                None => 0,
            };
            append_decimal(&mut req, blen as u64);
            req.append("\r\n");
        },
    }
    assert(req@ == request_head(method, domain@, body_view(*post_body)));
    let ghost head = req@;
    let n = headers.len();
    let mut i: usize = 0;
    while i < n
        invariant
            0 <= i <= n,
            n == headers@.len(),
            forall|k: int| 0 <= k < i ==> has_colon(headers@[k]@),
            req@ == head + headers_block(headers.deep_view(), i as int),
        decreases n - i,
    {
        let h = &headers[i];
        if !header_has_colon(h) {
            return Err(ConfigError::InvalidHeader);
        }
        req.append(h.as_str());
        req.append("\r\n");
        proof {
            assert(headers.deep_view()[i as int] == headers@[i as int]@);
            assert(req@ =~= head + headers_block(headers.deep_view(), i + 1));
        }
        i += 1;
    }
    req.append("Connection: close\r\nUser-Agent: octointel/2.0\r\n\r\n");
    if let HttpMethod::Post = method {
        if let Some(b) = post_body {
            req.append(b.as_str());
        }
    }
    proof {
        assert(req@ =~= request_text(
            method,
            domain@,
            headers.deep_view(),
            body_view(*post_body),
        ));
    }
    Ok(req)
}

/// Everything a scan needs, immutable and shared by every probe: the
/// target, the request to send, the match conditions, and the limits.
pub struct ScanConfig {
    /// Target host name, used only as the `Host` header value.
    pub domain: String,
    /// Destination port.
    pub port: u16,
    /// HTTP method of every probe.
    pub method: HttpMethod,
    /// Expected status code.
    pub status_code: u16,
    /// Optional compiled content pattern.
    pub matcher: Option<ContentMatcher>,
    /// The prebuilt raw request; every probe sends exactly these bytes.
    pub request: String,
    /// Per-probe connect and read timeout, in milliseconds.
    pub timeout_ms: u64,
    /// Upper bound on concurrently in-flight probes.
    pub max_concurrent: usize,
}

impl ScanConfig {
    /// A usable configuration admits at least one probe at a time.
    pub open spec fn wf(self) -> bool {
        self.max_concurrent >= 1
    }

    /// Validates the inputs and builds the configuration, compiling the
    /// content pattern and prebuilding the raw request.  Fails exactly on
    /// a header without a colon or a pattern that does not compile; the
    /// header fault is reported first.
    pub fn new(
        domain: String,
        timeout_ms: u64,
        max_concurrent: usize,
        method: HttpMethod,
        status_code: u16,
        content_pattern: Option<String>,
        headers: Vec<String>,
        post_body: Option<String>,
        port: u16,
    ) -> (r: Result<ScanConfig, ConfigError>)
        requires
            max_concurrent >= 1,
        ensures
            r is Ok <==> ((forall|i: int|
                0 <= i < headers@.len() ==> has_colon(headers@[i]@)) && (match content_pattern {
                Some(p) => regex_compiles(p@),
                None => true,
            })),
            r is Err ==> (r->Err_0 == ConfigError::InvalidHeader <==> exists|i: int|
                0 <= i < headers@.len() && !has_colon(headers@[i]@)),
            r is Ok ==> {
                let c = r.unwrap();
                &&& c.wf()
                &&& c.domain@ == domain@
                &&& c.port == port
                &&& c.method == method
                &&& c.status_code == status_code
                &&& c.timeout_ms == timeout_ms
                &&& c.max_concurrent == max_concurrent
                &&& c.request@ == request_text(
                    method,
                    domain@,
                    headers.deep_view(),
                    body_view(post_body),
                )
                &&& (match (c.matcher, content_pattern) {
                    (Some(m), Some(p)) => m.view() == p@,
                    (None, None) => true,
                    _ => false,
                })
            },
    {
        let request = match build_request(method, &domain, &headers, &post_body) {
            Ok(req) => req,
            Err(e) => {
                return Err(e);
            },
        };
        let matcher = match content_pattern {
            Some(p) => {
                match ContentMatcher::compile(p) {
                    Some(m) => Some(m),
                    None => {
                        return Err(ConfigError::InvalidPattern);
                    },
                }
            },
            None => None,
        };
        Ok(ScanConfig {
            domain,
            port,
            method,
            status_code,
            matcher,
            request,
            timeout_ms,
            max_concurrent,
        })
    }

    /// Whether probes should read a full response body: content matching
    /// is configured or the method is GET.
    pub fn wants_body(&self) -> (r: bool)
        ensures
            r == (self.matcher is Some || self.method is Get),
    {
        self.matcher.is_some() || matches!(self.method, HttpMethod::Get)
    }
}

} // verus!
