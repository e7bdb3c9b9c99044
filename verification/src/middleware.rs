//! Per-request context and the checks and headers that wrap a request.

use crate::clock::cap;
use crate::http::{first_value, header_value, lines_of, set_header, with_header, HeaderView};
use crate::http::{is_client_error, is_server_error, HttpRequest, HttpResponse};
use crate::text::{decimal, has_substring, push_decimal, str_contains};
use std::time::Instant;
use vstd::prelude::*;
use vstd::string::*;

verus! {

/// The smallest response that is worth compressing, in bytes.
pub const COMPRESSION_THRESHOLD: usize = 1024;

/// A lower-case hexadecimal digit.
pub open spec fn is_lower_hex(c: char) -> bool {
    ('0' <= c && c <= '9') || ('a' <= c && c <= 'f')
}

/// The text of a random (version 4) UUID: 36 characters, hyphens after the
/// 8th, 12th, 16th and 20th digit, lower-case hexadecimal digits elsewhere,
/// the version digit 4 and a variant digit of 8, 9, a or b.
pub open spec fn is_request_id(id: Seq<char>) -> bool {
    &&& id.len() == 36
    &&& forall|i: int|
        0 <= i < 36 ==> if i == 8 || i == 13 || i == 18 || i == 23 {
            #[trigger] id[i] == '-'
        } else {
            is_lower_hex(id[i])
        }
    &&& id[14] == '4'
    &&& (id[19] == '8' || id[19] == '9' || id[19] == 'a' || id[19] == 'b')
}

/// `uuid::Uuid::new_v4` followed by the UUID's `to_string`: a fresh random
/// UUID in its hyphenated lower-case form. Only the form is claimed, not the
/// digits.
#[verifier::external_body]
fn new_request_id() -> (id: String)
    ensures
        is_request_id(id@),
{
    uuid::Uuid::new_v4().to_string()
}

/// What `str::to_lowercase` of the standard library returns for a string.
pub uninterp spec fn lowercase_of(text: Seq<char>) -> Seq<char>;

/// `str::to_lowercase`: the lower-case form of a string by Unicode's rules.
#[verifier::external_body]
fn lowercase(text: &str) -> (lowered: String)
    ensures
        lowered@ == lowercase_of(text@),
{
    text.to_lowercase()
}

pub struct RequestContext {
    pub request_id: String,
    pub start_time: Instant,
    pub client_ip: String,
    pub user_agent: Option<String>,
    pub path: String,
    pub method: String,
}

/// The characters of an optional string.
pub open spec fn optional_text(text: Option<String>) -> Option<Seq<char>> {
    match text {
        Some(s) => Some(s@),
        None => None,
    }
}

/// The characters of an optional string slice.
pub open spec fn optional_slice(text: Option<&str>) -> Option<Seq<char>> {
    match text {
        Some(s) => Some(s@),
        None => None,
    }
}

impl RequestContext {
    /// The context of a request that arrives now: a fresh request id, the
    /// client's address and what the request says of itself.
    pub fn new(req: &HttpRequest, client_ip: String) -> (context: Self)
        ensures
            is_request_id(context.request_id@),
            context.client_ip == client_ip,
            optional_text(context.user_agent) == first_value(lines_of(req.headers@), "user-agent"@),
            context.path@ == req.path@,
            context.method@ == req.method@,
    {
        let user_agent = match header_value(&req.headers, "user-agent") {
            Some(value) => Some(value.to_owned()),
            None => None,
        };
        RequestContext {
            request_id: new_request_id(),
            start_time: Instant::now(),
            client_ip,
            user_agent,
            path: req.path.clone(),
            method: req.method.clone(),
        }
    }

    /// Whole milliseconds since the request arrived.
    pub fn elapsed(&self) -> u64 {
        let since = self.start_time.elapsed();
        cap(since.as_millis())
    }
}

/// How loud a log line is.
#[derive(Debug, Clone, Copy, PartialEq, Eq, Structural)]
pub enum LogLevel {
    Info,
    Warn,
    Error,
}

/// A line for the log, with its level.
pub struct LogLine {
    pub level: LogLevel,
    pub message: String,
}

/// The level of the line that reports a response: errors of the server are
/// errors, errors of the client warnings, anything else information.
pub open spec fn level_of(status: u16) -> LogLevel {
    if 500 <= status < 600 {
        LogLevel::Error
    } else if 400 <= status < 500 {
        LogLevel::Warn
    } else {
        LogLevel::Info
    }
}

/// The text or, where there is none, `fallback`.
pub open spec fn text_or(text: Option<Seq<char>>, fallback: Seq<char>) -> Seq<char> {
    match text {
        Some(s) => s,
        None => fallback,
    }
}

/// The line that reports the start of a request.
pub open spec fn request_line(context: RequestContext) -> Seq<char> {
    "Request started: "@ + context.method@ + " "@ + context.path@ + " "@ + context.client_ip@
        + " ["@ + context.request_id@ + "] - "@ + text_or(
        optional_text(context.user_agent),
        "unknown"@,
    )
}

/// The line that reports the end of a request. The status is written as its
/// number with its reason phrase behind it.
pub open spec fn response_line(
    context: RequestContext,
    status: u16,
    reason: Seq<char>,
    elapsed_ms: u64,
    upstream: Option<Seq<char>>,
) -> Seq<char> {
    "Request completed: "@ + context.method@ + " "@ + context.path@ + " "@ + decimal(status as nat)
        + " "@ + reason + " ["@ + context.request_id@ + "] - "@ + decimal(elapsed_ms as nat)
        + "ms"@ + (
    match upstream {
        Some(endpoint) => " -> "@ + endpoint,
        None => Seq::empty(),
    })
}

pub struct LoggingMiddleware;

impl LoggingMiddleware {
    /// The line that reports the start of a request.
    pub fn log_request(req: &HttpRequest, context: &RequestContext) -> (line: String)
        ensures
            line@ == request_line(*context),
    {
        let mut line = String::new();
        line.append("Request started: ");
        line.append(context.method.as_str());
        line.append(" ");
        line.append(context.path.as_str());
        line.append(" ");
        line.append(context.client_ip.as_str());
        line.append(" [");
        line.append(context.request_id.as_str());
        line.append("] - ");
        match &context.user_agent {
            Some(agent) => {
                line.append(agent.as_str());
            },
            None => {
                line.append("unknown");
            },
        }
        assert(line@ =~= request_line(*context));
        line
    }

    /// The line that reports a response of status `status`, sent after
    /// `elapsed_ms`, and its level. `reason` is the reason phrase that goes
    /// with the status.
    pub fn response_report(
        status: u16,
        reason: &str,
        context: &RequestContext,
        elapsed_ms: u64,
        upstream_endpoint: Option<&str>,
    ) -> (line: LogLine)
        ensures
            line.level == level_of(status),
            line.message@ == response_line(
                *context,
                status,
                reason@,
                elapsed_ms,
                optional_slice(upstream_endpoint),
            ),
    {
        let level = if is_server_error(status) {
            LogLevel::Error
        } else if is_client_error(status) {
            LogLevel::Warn
        } else {
            LogLevel::Info
        };
        let mut message = String::new();
        message.append("Request completed: ");
        message.append(context.method.as_str());
        message.append(" ");
        message.append(context.path.as_str());
        message.append(" ");
        push_decimal(&mut message, status as u128);
        message.append(" ");
        message.append(reason);
        message.append(" [");
        message.append(context.request_id.as_str());
        message.append("] - ");
        push_decimal(&mut message, elapsed_ms as u128);
        message.append("ms");
        match upstream_endpoint {
            Some(endpoint) => {
                message.append(" -> ");
                message.append(endpoint);
            },
            None => {},
        }
        assert(message@ =~= response_line(
            *context,
            status,
            reason@,
            elapsed_ms,
            optional_slice(upstream_endpoint),
        ));
        LogLine { level, message }
    }

    /// The line that reports a response sent now, and its level.
    pub fn log_response(
        status: u16,
        reason: &str,
        context: &RequestContext,
        upstream_endpoint: Option<&str>,
    ) -> (line: LogLine)
        ensures
            line.level == level_of(status),
            exists|elapsed_ms: u64|
                line.message@ == #[trigger] response_line(
                    *context,
                    status,
                    reason@,
                    elapsed_ms,
                    optional_slice(upstream_endpoint),
                ),
    {
        let elapsed_ms = context.elapsed();
        Self::response_report(status, reason, context, elapsed_ms, upstream_endpoint)
    }
}

/// `lines` with the five security headers set.
pub open spec fn secured(lines: Seq<HeaderView>) -> Seq<HeaderView> {
    with_header(
        with_header(
            with_header(
                with_header(
                    with_header(lines, "x-frame-options"@, "DENY"@),
                    "x-content-type-options"@,
                    "nosniff"@,
                ),
                "x-xss-protection"@,
                "1; mode=block"@,
            ),
            "strict-transport-security"@,
            "max-age=31536000; includeSubDomains"@,
        ),
        "content-security-policy"@,
        "default-src 'self'"@,
    )
}

/// A path is safe if it neither climbs to a parent directory nor holds an
/// empty segment.
pub open spec fn path_is_safe(path: Seq<char>) -> bool {
    !has_substring(path, ".."@) && !has_substring(path, "//"@)
}

/// A user agent is turned away if its lower-case form names a bot, unless
/// the agent itself holds "googlebot".
pub open spec fn agent_is_allowed(agent: Seq<char>, lowered: Seq<char>) -> bool {
    !(has_substring(lowered, "bot"@) && !has_substring(agent, "googlebot"@))
}

/// Whether a request with this path and user agent is let through.
pub open spec fn request_is_allowed(path: Seq<char>, agent: Option<Seq<char>>) -> bool {
    path_is_safe(path) && match agent {
        Some(text) => agent_is_allowed(text, lowercase_of(text)),
        None => true,
    }
}

pub struct SecurityMiddleware;

impl SecurityMiddleware {
    /// Sets the five security headers on a response.
    pub fn add_security_headers(response: HttpResponse) -> (secure: HttpResponse)
        ensures
            secure.status == response.status,
            secure.body == response.body,
            lines_of(secure.headers@) == secured(lines_of(response.headers@)),
    {
        let mut response = response;
        set_header(&mut response.headers, "x-frame-options", "DENY");
        set_header(&mut response.headers, "x-content-type-options", "nosniff");
        set_header(&mut response.headers, "x-xss-protection", "1; mode=block");
        set_header(
            &mut response.headers,
            "strict-transport-security",
            "max-age=31536000; includeSubDomains",
        );
        set_header(&mut response.headers, "content-security-policy", "default-src 'self'");
        response
    }

    /// Whether a path is safe.
    pub fn is_path_safe(path: &str) -> (safe: bool)
        ensures
            safe == path_is_safe(path@),
    {
        !str_contains(path, "..") && !str_contains(path, "//")
    }

    /// Whether a user agent is let through, given its lower-case form.
    pub fn is_agent_allowed(agent: &str, lowered: &str) -> (allowed: bool)
        ensures
            allowed == agent_is_allowed(agent@, lowered@),
    {
        !(str_contains(lowered, "bot") && !str_contains(agent, "googlebot"))
    }

    /// Whether a request is let through: its path is safe and its user
    /// agent, if it names one, is allowed.
    pub fn is_request_allowed(req: &HttpRequest) -> (allowed: bool)
        ensures
            allowed == request_is_allowed(
                req.path@,
                first_value(lines_of(req.headers@), "user-agent"@),
            ),
    {
        if !Self::is_path_safe(req.path.as_str()) {
            return false;
        }
        match header_value(&req.headers, "user-agent") {
            Some(agent) => {
                let lowered = lowercase(agent);
                Self::is_agent_allowed(agent, lowered.as_str())
            },
            None => true,
        }
    }
}

/// `lines` with the four CORS headers set.
pub open spec fn with_cors(lines: Seq<HeaderView>) -> Seq<HeaderView> {
    with_header(
        with_header(
            with_header(
                with_header(lines, "access-control-allow-origin"@, "*"@),
                "access-control-allow-methods"@,
                "GET, POST, PUT, DELETE, OPTIONS"@,
            ),
            "access-control-allow-headers"@,
            "content-type, authorization, x-requested-with"@,
        ),
        "access-control-max-age"@,
        "86400"@,
    )
}

pub struct CorsMiddleware;

impl CorsMiddleware {
    /// Sets the four CORS headers on a response.
    pub fn add_cors_headers(response: HttpResponse) -> (open: HttpResponse)
        ensures
            open.status == response.status,
            open.body == response.body,
            lines_of(open.headers@) == with_cors(lines_of(response.headers@)),
    {
        let mut response = response;
        set_header(&mut response.headers, "access-control-allow-origin", "*");
        set_header(
            &mut response.headers,
            "access-control-allow-methods",
            "GET, POST, PUT, DELETE, OPTIONS",
        );
        set_header(
            &mut response.headers,
            "access-control-allow-headers",
            "content-type, authorization, x-requested-with",
        );
        set_header(&mut response.headers, "access-control-max-age", "86400");
        response
    }

    /// The answer to a preflight request: status 200, no body, the CORS
    /// headers.
    pub fn handle_preflight() -> (response: HttpResponse)
        ensures
            response.status == 200,
            response.body@ == Seq::<u8>::empty(),
            lines_of(response.headers@) == with_cors(Seq::empty()),
    {
        let empty = HttpResponse { status: 200, headers: Vec::new(), body: Vec::new() };
        assert(lines_of(empty.headers@) =~= Seq::<HeaderView>::empty());
        Self::add_cors_headers(empty)
    }
}

/// Whether a response of `response_size` bytes is compressed for a client
/// that sent this `accept-encoding` header.
pub open spec fn compression_wanted(accepted: Option<Seq<char>>, response_size: usize) -> bool {
    response_size >= COMPRESSION_THRESHOLD && match accepted {
        Some(encodings) => has_substring(encodings, "gzip"@) || has_substring(
            encodings,
            "deflate"@,
        ),
        None => false,
    }
}

pub struct CompressionMiddleware;

impl CompressionMiddleware {
    /// Whether the response to `req` is worth compressing: it has at least
    /// 1024 bytes and the client accepts gzip or deflate.
    pub fn should_compress(req: &HttpRequest, response_size: usize) -> (wanted: bool)
        ensures
            wanted == compression_wanted(
                first_value(lines_of(req.headers@), "accept-encoding"@),
                response_size,
            ),
    {
        if response_size < COMPRESSION_THRESHOLD {
            return false;
        }
        match header_value(&req.headers, "accept-encoding") {
            Some(encodings) => str_contains(encodings, "gzip") || str_contains(
                encodings,
                "deflate",
            ),
            None => false,
        }
    }
}

} // verus!
