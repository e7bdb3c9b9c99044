use ai_sidecar_proxy::http::{header_value, set_header, Header, HttpRequest, HttpResponse};
use ai_sidecar_proxy::middleware::{
    CompressionMiddleware, CorsMiddleware, LogLevel, LoggingMiddleware, RequestContext,
    SecurityMiddleware,
};

fn request(method: &str, path: &str, headers: &[(&str, &str)]) -> HttpRequest {
    HttpRequest {
        method: method.to_string(),
        path: path.to_string(),
        query: None,
        headers: headers
            .iter()
            .map(|(name, value)| Header {
                name: name.to_string(),
                value: Some(value.to_string()),
            })
            .collect(),
    }
}

fn pairs(headers: &[Header]) -> Vec<(String, String)> {
    headers
        .iter()
        .map(|h| (h.name.clone(), h.value.clone().unwrap_or_default()))
        .collect()
}

#[test]
fn test_security_middleware_path_traversal() {
    let req = request("GET", "/../etc/passwd", &[]);

    assert!(!SecurityMiddleware::is_request_allowed(&req));
}

#[test]
fn test_security_middleware_double_slash() {
    let req = request("GET", "//admin/secret", &[]);

    assert!(!SecurityMiddleware::is_request_allowed(&req));
}

#[test]
fn test_security_middleware_valid_path() {
    let req = request("GET", "/api/users", &[]);

    assert!(SecurityMiddleware::is_request_allowed(&req));
}

#[test]
fn security_turns_bots_away_but_not_googlebot() {
    let bot = request("GET", "/", &[("user-agent", "EvilBOT/1.0")]);
    assert!(!SecurityMiddleware::is_request_allowed(&bot));
    let google = request("GET", "/", &[("user-agent", "Mozilla/5.0 (compatible; googlebot/2.1)")]);
    assert!(SecurityMiddleware::is_request_allowed(&google));
    // only the lower-case spelling of the exception counts
    let shouting = request("GET", "/", &[("user-agent", "Googlebot/2.1")]);
    assert!(!SecurityMiddleware::is_request_allowed(&shouting));
    let browser = request("GET", "/", &[("user-agent", "Mozilla/5.0")]);
    assert!(SecurityMiddleware::is_request_allowed(&browser));
    // the path is checked before the agent
    let both = request("GET", "/a/../b", &[("user-agent", "Mozilla/5.0")]);
    assert!(!SecurityMiddleware::is_request_allowed(&both));
}

#[test]
fn agent_check_takes_the_lowered_text_as_given() {
    assert!(!SecurityMiddleware::is_agent_allowed("CrawlerBot", "crawlerbot"));
    assert!(SecurityMiddleware::is_agent_allowed("CrawlerBot", "something else"));
    assert!(SecurityMiddleware::is_agent_allowed("a googlebot", "a googlebot"));
    assert!(SecurityMiddleware::is_path_safe("/a/b.c/d"));
    assert!(!SecurityMiddleware::is_path_safe("/a/b../d"));
    assert!(!SecurityMiddleware::is_path_safe("a//"));
    assert!(SecurityMiddleware::is_path_safe(""));
}

#[test]
fn security_headers_are_set_and_replace_old_ones() {
    let response = HttpResponse {
        status: 201,
        headers: vec![
            Header { name: "x-frame-options".to_string(), value: Some("SAMEORIGIN".to_string()) },
            Header { name: "etag".to_string(), value: Some("abc".to_string()) },
        ],
        body: vec![1, 2, 3],
    };
    let secure = SecurityMiddleware::add_security_headers(response);
    assert_eq!(secure.status, 201);
    assert_eq!(secure.body, vec![1, 2, 3]);
    let expected: Vec<(String, String)> = [
        ("etag", "abc"),
        ("x-frame-options", "DENY"),
        ("x-content-type-options", "nosniff"),
        ("x-xss-protection", "1; mode=block"),
        ("strict-transport-security", "max-age=31536000; includeSubDomains"),
        ("content-security-policy", "default-src 'self'"),
    ]
    .iter()
    .map(|(n, v)| (n.to_string(), v.to_string()))
    .collect();
    assert_eq!(pairs(&secure.headers), expected);
}

#[test]
fn preflight_answer_carries_the_cors_headers() {
    let response = CorsMiddleware::handle_preflight();
    assert_eq!(response.status, 200);
    assert!(response.body.is_empty());
    let expected: Vec<(String, String)> = [
        ("access-control-allow-origin", "*"),
        ("access-control-allow-methods", "GET, POST, PUT, DELETE, OPTIONS"),
        ("access-control-allow-headers", "content-type, authorization, x-requested-with"),
        ("access-control-max-age", "86400"),
    ]
    .iter()
    .map(|(n, v)| (n.to_string(), v.to_string()))
    .collect();
    assert_eq!(pairs(&response.headers), expected);
    let again = CorsMiddleware::add_cors_headers(response);
    assert_eq!(pairs(&again.headers), expected);
}

#[test]
fn compression_needs_size_and_an_accepted_encoding() {
    let gzip = request("GET", "/", &[("accept-encoding", "br, gzip")]);
    let deflate = request("GET", "/", &[("accept-encoding", "deflate")]);
    let brotli = request("GET", "/", &[("accept-encoding", "br")]);
    let silent = request("GET", "/", &[]);
    assert!(CompressionMiddleware::should_compress(&gzip, 1024));
    assert!(!CompressionMiddleware::should_compress(&gzip, 1023));
    assert!(CompressionMiddleware::should_compress(&deflate, 5000));
    assert!(!CompressionMiddleware::should_compress(&brotli, 5000));
    assert!(!CompressionMiddleware::should_compress(&silent, 5000));
}

#[test]
fn request_context_takes_what_the_request_says() {
    let req = request("POST", "/api/b/items", &[("user-agent", "curl/8.0")]);
    let context = RequestContext::new(&req, "10.0.0.7".to_string());
    assert_eq!(context.client_ip, "10.0.0.7");
    assert_eq!(context.user_agent.as_deref(), Some("curl/8.0"));
    assert_eq!(context.path, "/api/b/items");
    assert_eq!(context.method, "POST");
    let id: Vec<char> = context.request_id.chars().collect();
    assert_eq!(id.len(), 36);
    for (i, c) in id.iter().enumerate() {
        if i == 8 || i == 13 || i == 18 || i == 23 {
            assert_eq!(*c, '-');
        } else {
            assert!(c.is_ascii_digit() || ('a'..='f').contains(c));
        }
    }
    assert_eq!(id[14], '4');
    assert!(matches!(id[19], '8' | '9' | 'a' | 'b'));
    let other = RequestContext::new(&req, "10.0.0.7".to_string());
    assert_ne!(context.request_id, other.request_id);
    assert!(context.elapsed() < 10_000);
    let bare = RequestContext::new(&request("GET", "/", &[]), String::new());
    assert!(bare.user_agent.is_none());
}

#[test]
fn log_lines_are_written_in_full() {
    let req = request("GET", "/x", &[("user-agent", "ua")]);
    let mut context = RequestContext::new(&req, "1.2.3.4".to_string());
    context.request_id = "id-1".to_string();
    assert_eq!(
        LoggingMiddleware::log_request(&req, &context),
        "Request started: GET /x 1.2.3.4 [id-1] - ua"
    );
    context.user_agent = None;
    assert_eq!(
        LoggingMiddleware::log_request(&req, &context),
        "Request started: GET /x 1.2.3.4 [id-1] - unknown"
    );
    let ok = LoggingMiddleware::response_report(200, "OK", &context, 12, Some("http://a:1"));
    assert_eq!(ok.level, LogLevel::Info);
    assert_eq!(ok.message, "Request completed: GET /x 200 OK [id-1] - 12ms -> http://a:1");
    let missing = LoggingMiddleware::response_report(404, "Not Found", &context, 0, None);
    assert_eq!(missing.level, LogLevel::Warn);
    assert_eq!(missing.message, "Request completed: GET /x 404 Not Found [id-1] - 0ms");
    let broken =
        LoggingMiddleware::response_report(503, "Service Unavailable", &context, 30000, None);
    assert_eq!(broken.level, LogLevel::Error);
    let now = LoggingMiddleware::log_response(302, "Found", &context, None);
    assert_eq!(now.level, LogLevel::Info);
    assert!(now.message.starts_with("Request completed: GET /x 302 Found [id-1] - "));
    assert!(now.message.ends_with("ms"));
}

#[test]
fn a_first_header_that_is_not_text_counts_as_none() {
    let mut req = request("GET", "/", &[("user-agent", "EvilBot"), ("accept-encoding", "gzip")]);
    assert!(!SecurityMiddleware::is_request_allowed(&req));
    assert!(CompressionMiddleware::should_compress(&req, 2048));
    req.headers.insert(0, Header { name: "user-agent".to_string(), value: None });
    req.headers.insert(0, Header { name: "accept-encoding".to_string(), value: None });
    // the first line of each name decides, and it holds no text
    assert!(SecurityMiddleware::is_request_allowed(&req));
    assert!(!CompressionMiddleware::should_compress(&req, 2048));
    assert!(RequestContext::new(&req, String::new()).user_agent.is_none());
    assert_eq!(header_value(&req.headers, "user-agent"), None);
}

#[test]
fn header_lookup_finds_the_first_of_a_name() {
    let mut headers = vec![
        Header { name: "a".to_string(), value: Some("1".to_string()) },
        Header { name: "b".to_string(), value: Some("2".to_string()) },
        Header { name: "a".to_string(), value: Some("3".to_string()) },
    ];
    assert_eq!(header_value(&headers, "a"), Some("1"));
    assert_eq!(header_value(&headers, "b"), Some("2"));
    assert_eq!(header_value(&headers, "c"), None);
    set_header(&mut headers, "a", "4");
    assert_eq!(
        pairs(&headers),
        vec![("b".to_string(), "2".to_string()), ("a".to_string(), "4".to_string())]
    );
}
