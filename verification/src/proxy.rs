//! The request dispatcher: where a request goes, whether it may go there,
//! and what its outcome feeds back.
//!
//! The dispatcher decides and keeps the books. Whoever drives it reads the
//! request, sends the upstream call that `begin_request` plans, and hands
//! the outcome to `complete_request`.

use crate::ai::{
    is_decision, record_before, timeout_for, AIEngine, DecisionView, HealthView, MetricsView,
    RequestMetrics, BASE_TIMEOUT_MS,
};
use crate::circuit_breaker::{BreakerView, CircuitBreaker};
use crate::config::{Config, ServiceView, UpstreamService};
use crate::health_checker::HealthChecker;
use crate::http::{is_success, lines_of, Header, HeaderView, HttpRequest, HttpResponse};
use crate::load_balancer::LoadBalancer;
use crate::metrics::{metrics_before, EndpointMetrics, MetricsCollector};
use crate::rate_limiter::{bucket_before, RateLimitConfig, RateLimiter, TOKEN};
use crate::table::Table;
use crate::text::{
    chars_of, decimal, find_char, padded_decimal, position_of, push_decimal,
    push_padded_decimal, str_eq,
};
use vstd::prelude::*;
use vstd::slice::slice_to_vec;
use vstd::string::*;
use vstd::utf8::encode_utf8;

verus! {

/// What `serde_json` writes for a JSON string that holds `text`: the text
/// between double quotes, with the escapes that JSON asks for.
pub uninterp spec fn json_string_of(text: Seq<char>) -> Seq<char>;

/// `serde_json::Value::String` written out with the value's `to_string`:
/// `text` as a JSON string in compact form.
#[verifier::external_body]
fn json_quote(text: &str) -> (quoted: String)
    ensures
        quoted@ == json_string_of(text@),
{
    serde_json::Value::String(text.to_string()).to_string()
}

/// A response as mathematical values.
pub struct ResponseView {
    pub status: u16,
    pub headers: Seq<HeaderView>,
    pub body: Seq<u8>,
}

impl View for HttpResponse {
    type V = ResponseView;

    open spec fn view(&self) -> ResponseView {
        ResponseView { status: self.status, headers: lines_of(self.headers@), body: self.body@ }
    }
}

/// The administrative endpoints.
#[derive(Debug, Clone, Copy, PartialEq, Eq, Structural)]
pub enum AdminRoute {
    /// A dump of the health table.
    Health,
    /// The static status document.
    Status,
}

/// Where a request goes by its path.
pub enum Route {
    /// The proxy's own liveness endpoint.
    Health,
    /// The metrics exposition.
    Metrics,
    /// One of the two administrative endpoints.
    Admin(AdminRoute),
    /// An upstream service, by name.
    Service(String),
}

/// A route as mathematical values.
pub enum RouteView {
    Health,
    Metrics,
    Admin(AdminRoute),
    Service(Seq<char>),
}

impl View for Route {
    type V = RouteView;

    open spec fn view(&self) -> RouteView {
        match self {
            Route::Health => RouteView::Health,
            Route::Metrics => RouteView::Metrics,
            Route::Admin(to) => RouteView::Admin(*to),
            Route::Service(name) => RouteView::Service(name@),
        }
    }
}

/// Where the first character other than a slash stands in `path`, at or
/// after `from`; the length of `path` if there is none.
pub open spec fn after_slashes(path: Seq<char>, from: int) -> int
    decreases path.len() - from,
{
    if from >= path.len() {
        path.len() as int
    } else if path[from] != '/' {
        from
    } else {
        after_slashes(path, from + 1)
    }
}

/// The service that a path names. Leading slashes do not count. A first
/// segment `api` with a segment behind it names the service of that second
/// segment; any other path names `service-a`.
pub open spec fn service_name_of(path: Seq<char>) -> Seq<char> {
    let start = after_slashes(path, 0);
    let first_end = position_of(path, '/', start);
    if path.subrange(start, first_end) == "api"@ && first_end < path.len() {
        "service-"@ + path.subrange(first_end + 1, position_of(path, '/', first_end + 1))
    } else {
        "service-a"@
    }
}

/// Where a request with this path goes. Four paths are the proxy's own:
/// `/health`, `/metrics`, `/admin/health` and `/admin/status`. Every other
/// path, also one that only begins like these, names a service.
pub open spec fn route_of(path: Seq<char>) -> RouteView {
    if path == "/health"@ {
        RouteView::Health
    } else if path == "/metrics"@ {
        RouteView::Metrics
    } else if path == "/admin/health"@ {
        RouteView::Admin(AdminRoute::Health)
    } else if path == "/admin/status"@ {
        RouteView::Admin(AdminRoute::Status)
    } else {
        RouteView::Service(service_name_of(path))
    }
}

/// The method that is forwarded for a request's method: the seven common
/// methods as they are, any other as GET.
pub open spec fn forward_method_of(method: Seq<char>) -> Seq<char> {
    if method == "GET"@ || method == "POST"@ || method == "PUT"@ || method == "DELETE"@ || method
        == "HEAD"@ || method == "OPTIONS"@ || method == "PATCH"@ {
        method
    } else {
        "GET"@
    }
}

/// The test that passes the header lines that are forwarded upstream: all
/// but `host`, `content-length` and the lines whose value is not text.
pub open spec fn is_forwarded() -> spec_fn(HeaderView) -> bool {
    |h: HeaderView| h.name != "host"@ && h.name != "content-length"@ && h.value is Some
}

/// The path of a request with its query, as it is appended to an endpoint.
pub open spec fn path_and_query(path: Seq<char>, query: Option<Seq<char>>) -> Seq<char> {
    match query {
        Some(q) => path + "?"@ + q,
        None => path,
    }
}

/// A confidence in billionths written as a decimal number with nine
/// decimals.
pub open spec fn confidence_text(confidence: nat) -> Seq<char> {
    decimal(confidence / 1_000_000_000) + "."@ + padded_decimal(confidence % 1_000_000_000, 9)
}

/// The body of an error response, given the message as a JSON string.
pub open spec fn error_body(quoted_message: Seq<char>, status: u16) -> Seq<char> {
    "{\"error\":"@ + quoted_message + ",\"status\":"@ + decimal(status as nat) + "}"@
}

/// A JSON response: the status, a content type of JSON, the text as body.
pub open spec fn json_view(status: u16, text: Seq<char>) -> ResponseView {
    ResponseView {
        status,
        headers: seq![HeaderView { name: "content-type"@, value: Some("application/json"@) }],
        body: encode_utf8(text),
    }
}

/// The error response for a status and a message.
pub open spec fn error_view(status: u16, message: Seq<char>) -> ResponseView {
    json_view(status, error_body(json_string_of(message), status))
}

/// The body of the status document, given the version as a JSON string.
pub open spec fn status_body(quoted_version: Seq<char>) -> Seq<char> {
    "{\"status\":\"healthy\",\"uptime\":\"running\",\"version\":"@ + quoted_version + "}"@
}

/// The service name that a path names.
pub fn extract_service_name(path: &str) -> (name: String)
    ensures
        name@ == service_name_of(path@),
{
    let chars = chars_of(path);
    let mut start: usize = 0;
    while start < chars.len() && chars[start] == '/'
        invariant
            start <= chars@.len(),
            after_slashes(chars@, 0) == after_slashes(chars@, start as int),
        decreases chars@.len() - start,
    {
        start += 1;
    }
    let first_end = find_char(&chars, '/', start);
    let is_api = first_end - start == 3 && chars[start] == 'a' && chars[start + 1] == 'p'
        && chars[start + 2] == 'i';
    proof {
        reveal_strlit("api");
        let first = chars@.subrange(start as int, first_end as int);
        if is_api {
            assert(first =~= "api"@);
        } else if first.len() == 3 {
            assert(first[0] == chars@[start as int]);
            assert(first[1] == chars@[start + 1]);
            assert(first[2] == chars@[start + 2]);
        }
    }
    if is_api && first_end < chars.len() {
        let second_end = find_char(&chars, '/', first_end + 1);
        let mut name = "service-".to_owned();
        name.append(path.substring_char(first_end + 1, second_end));
        name
    } else {
        "service-a".to_owned()
    }
}

/// Where a request with this path goes.
pub fn route(path: &str) -> (to: Route)
    ensures
        to@ == route_of(path@),
{
    if str_eq(path, "/health") {
        Route::Health
    } else if str_eq(path, "/metrics") {
        Route::Metrics
    } else if str_eq(path, "/admin/health") {
        Route::Admin(AdminRoute::Health)
    } else if str_eq(path, "/admin/status") {
        Route::Admin(AdminRoute::Status)
    } else {
        Route::Service(extract_service_name(path))
    }
}

/// The method that is forwarded for a request's method.
pub fn forward_method(method: &str) -> (forwarded: String)
    ensures
        forwarded@ == forward_method_of(method@),
{
    if str_eq(method, "GET") || str_eq(method, "POST") || str_eq(method, "PUT") || str_eq(
        method,
        "DELETE",
    ) || str_eq(method, "HEAD") || str_eq(method, "OPTIONS") || str_eq(method, "PATCH") {
        method.to_owned()
    } else {
        "GET".to_owned()
    }
}

/// The header lines that are forwarded upstream.
pub fn forwarded_headers(headers: &Vec<Header>) -> (kept: Vec<Header>)
    ensures
        lines_of(kept@) == lines_of(headers@).filter(is_forwarded()),
{
    let ghost lines = lines_of(headers@);
    let ghost keep = is_forwarded();
    let mut kept: Vec<Header> = Vec::new();
    let mut i: usize = 0;
    proof {
        reveal(Seq::filter);
        assert(lines_of(kept@) =~= lines.take(0).filter(keep));
    }
    while i < headers.len()
        invariant
            i <= headers@.len(),
            lines == lines_of(headers@),
            keep == is_forwarded(),
            lines_of(kept@) == lines.take(i as int).filter(keep),
        decreases headers@.len() - i,
    {
        proof {
            reveal(Seq::filter);
            assert(lines.take(i + 1).drop_last() =~= lines.take(i as int));
            assert(lines.take(i + 1).last() == headers@[i as int]@);
        }
        let name = headers[i].name.as_str();
        if !str_eq(name, "host") && !str_eq(name, "content-length") && headers[i].value.is_some() {
            kept.push(headers[i].clone());
            assert(lines_of(kept@) =~= lines.take(i as int).filter(keep).push(headers@[i as int]@));
        }
        assert(lines_of(kept@) == lines.take(i + 1).filter(keep));
        i += 1;
    }
    proof {
        assert(lines.take(lines.len() as int) =~= lines);
    }
    kept
}

/// The address of the upstream call: the endpoint with the request's path
/// and query behind it.
pub fn upstream_url(endpoint: &str, request: &HttpRequest) -> (url: String)
    ensures
        url@ == endpoint@ + path_and_query(
            request.path@,
            crate::middleware::optional_text(request.query),
        ),
{
    let mut url = endpoint.to_owned();
    url.append(request.path.as_str());
    match &request.query {
        Some(query) => {
            url.append("?");
            url.append(query.as_str());
            assert(url@ =~= endpoint@ + (request.path@ + "?"@ + query@));
        },
        None => {},
    }
    url
}

/// A confidence in billionths as a decimal number with nine decimals.
pub fn confidence_string(confidence: u64) -> (text: String)
    ensures
        text@ == confidence_text(confidence as nat),
{
    let mut text = String::new();
    push_decimal(&mut text, (confidence / 1_000_000_000) as u128);
    text.append(".");
    push_padded_decimal(&mut text, confidence % 1_000_000_000, 9);
    assert(text@ =~= confidence_text(confidence as nat));
    text
}

/// A response with a JSON body.
pub fn json_response(status: u16, text: &str) -> (response: HttpResponse)
    ensures
        response@ == json_view(status, text@),
{
    let mut headers: Vec<Header> = Vec::new();
    headers.push(
        Header { name: "content-type".to_owned(), value: Some("application/json".to_owned()) },
    );
    let response = HttpResponse { status, headers, body: slice_to_vec(text.as_bytes()) };
    assert(response@.headers =~= seq![
        HeaderView { name: "content-type"@, value: Some("application/json"@) },
    ]);
    response
}

/// The error response for a status and a message that is already written
/// as a JSON string.
pub fn error_response_with(status: u16, quoted_message: &str) -> (response: HttpResponse)
    ensures
        response@ == json_view(status, error_body(quoted_message@, status)),
{
    let mut body = String::new();
    body.append("{\"error\":");
    body.append(quoted_message);
    body.append(",\"status\":");
    push_decimal(&mut body, status as u128);
    body.append("}");
    assert(body@ =~= error_body(quoted_message@, status));
    json_response(status, body.as_str())
}

/// The error response for a status and a message: a JSON object with the
/// message under `error` and the status under `status`.
pub fn error_response(status: u16, message: &str) -> (response: HttpResponse)
    ensures
        response@ == error_view(status, message@),
{
    let quoted = json_quote(message);
    error_response_with(status, quoted.as_str())
}

/// The answer of the liveness endpoint.
pub fn health_response() -> (response: HttpResponse)
    ensures
        response@ == json_view(200, "{\"status\":\"healthy\"}"@),
{
    json_response(200, "{\"status\":\"healthy\"}")
}

/// The status document for a version that is already written as a JSON
/// string.
pub fn status_response_with(quoted_version: &str) -> (response: HttpResponse)
    ensures
        response@ == json_view(200, status_body(quoted_version@)),
{
    let mut body = String::new();
    body.append("{\"status\":\"healthy\",\"uptime\":\"running\",\"version\":");
    body.append(quoted_version);
    body.append("}");
    assert(body@ =~= status_body(quoted_version@));
    json_response(200, body.as_str())
}

/// The status document of the administrative interface.
pub fn status_response(version: &str) -> (response: HttpResponse)
    ensures
        response@ == json_view(200, status_body(json_string_of(version@))),
{
    let quoted = json_quote(version);
    status_response_with(quoted.as_str())
}

/// The answer of the metrics endpoint: the exposition text as plain text.
pub fn text_response(text: &str) -> (response: HttpResponse)
    ensures
        response@ == (ResponseView {
            status: 200,
            headers: seq![HeaderView { name: "content-type"@, value: Some("text/plain"@) }],
            body: encode_utf8(text@),
        }),
{
    let mut headers: Vec<Header> = Vec::new();
    headers.push(Header { name: "content-type".to_owned(), value: Some("text/plain".to_owned()) });
    let response = HttpResponse { status: 200, headers, body: slice_to_vec(text.as_bytes()) };
    assert(response@.headers =~= seq![
        HeaderView { name: "content-type"@, value: Some("text/plain"@) },
    ]);
    response
}

/// The upstream call that the dispatcher has planned for a request.
pub struct UpstreamCall {
    /// The name of the service, under which its circuit breaker is kept.
    pub service: String,
    pub endpoint: String,
    /// The selector's confidence in the endpoint, in billionths.
    pub confidence: u64,
    pub timeout_ms: u64,
    pub method: String,
    pub url: String,
    pub headers: Vec<Header>,
}

/// An upstream call as mathematical values.
pub struct CallView {
    pub service: Seq<char>,
    pub endpoint: Seq<char>,
    pub confidence: nat,
    pub timeout_ms: nat,
    pub method: Seq<char>,
    pub url: Seq<char>,
    pub headers: Seq<HeaderView>,
}

impl View for UpstreamCall {
    type V = CallView;

    open spec fn view(&self) -> CallView {
        CallView {
            service: self.service@,
            endpoint: self.endpoint@,
            confidence: self.confidence as nat,
            timeout_ms: self.timeout_ms as nat,
            method: self.method@,
            url: self.url@,
            headers: lines_of(self.headers@),
        }
    }
}

/// What to do with a request: answer it at once, or send a call upstream.
pub enum Dispatch {
    Respond(HttpResponse),
    Forward(UpstreamCall),
}

/// A dispatch as mathematical values.
pub enum DispatchView {
    Respond(ResponseView),
    Forward(CallView),
}

impl View for Dispatch {
    type V = DispatchView;

    open spec fn view(&self) -> DispatchView {
        match self {
            Dispatch::Respond(response) => DispatchView::Respond(response@),
            Dispatch::Forward(call) => DispatchView::Forward(call@),
        }
    }
}

/// Why a planned call was not sent.
#[derive(Debug, Clone, Copy, PartialEq, Eq, Structural)]
pub enum NotSent {
    /// The client for the call could not be made.
    ClientUnavailable,
    /// The body of the request could not be read.
    BodyUnreadable,
}

/// The answer to a request whose planned call was not sent: 500 where the
/// fault is the proxy's own, 400 where the client's body could not be read.
pub open spec fn not_sent_view(reason: NotSent) -> ResponseView {
    match reason {
        NotSent::ClientUnavailable => error_view(500, "Failed to create HTTP client"@),
        NotSent::BodyUnreadable => error_view(400, "Failed to read request body"@),
    }
}

/// The answer to a request whose planned call was not sent. Nothing is
/// booked for such a request: neither the health table nor the metrics nor
/// a circuit breaker hears of it.
pub fn not_sent_response(reason: NotSent) -> (response: HttpResponse)
    ensures
        response@ == not_sent_view(reason),
{
    match reason {
        NotSent::ClientUnavailable => error_response(500, "Failed to create HTTP client"),
        NotSent::BodyUnreadable => error_response(400, "Failed to read request body"),
    }
}

/// How an upstream call ended.
pub enum UpstreamOutcome {
    /// The upstream answered.
    Response { status: u16, body: Vec<u8> },
    /// No answer came: the connection failed or the call timed out.
    Failed,
}

/// A request as mathematical values.
pub struct RequestView {
    pub method: Seq<char>,
    pub path: Seq<char>,
    pub query: Option<Seq<char>>,
    pub headers: Seq<HeaderView>,
}

impl View for HttpRequest {
    type V = RequestView;

    open spec fn view(&self) -> RequestView {
        RequestView {
            method: self.method@,
            path: self.path@,
            query: crate::middleware::optional_text(self.query),
            headers: lines_of(self.headers@),
        }
    }
}

/// The per-call timeout for an endpoint under a health snapshot.
pub open spec fn timeout_in(health: Map<Seq<char>, HealthView>, endpoint: Seq<char>) -> nat {
    if health.contains_key(endpoint) {
        timeout_for(health[endpoint].avg_latency_us)
    } else {
        BASE_TIMEOUT_MS as nat
    }
}

/// The call that forwards `request` to the endpoint that `decision` chose.
pub open spec fn planned_call(
    health: Map<Seq<char>, HealthView>,
    service: ServiceView,
    request: RequestView,
    decision: DecisionView,
) -> CallView {
    CallView {
        service: service.name,
        endpoint: decision.selected_endpoint,
        confidence: decision.confidence,
        timeout_ms: timeout_in(health, decision.selected_endpoint),
        method: forward_method_of(request.method),
        url: decision.selected_endpoint + path_and_query(request.path, request.query),
        headers: request.headers.filter(is_forwarded()),
    }
}

/// Whether the breaker of the service called `name` rejects calls at `now`.
pub open spec fn rejects(breakers: Map<Seq<char>, BreakerView>, name: Seq<char>, now: nat) -> bool {
    breakers.contains_key(name) && breakers[name].is_open_at(now)
}

/// The breakers after the one of the service called `name` was probed at
/// `now`.
pub open spec fn probed(breakers: Map<Seq<char>, BreakerView>, name: Seq<char>, now: nat) -> Map<
    Seq<char>,
    BreakerView,
> {
    if breakers.contains_key(name) {
        breakers.insert(name, breakers[name].after_probe(now))
    } else {
        breakers
    }
}

/// `dispatch` is what a request for a known service gets at `now`: a 503
/// where the service's breaker rejects calls or no endpoint can be chosen,
/// else the call to the endpoint that the selector chooses.
pub open spec fn is_dispatch(
    health: Map<Seq<char>, HealthView>,
    breakers: Map<Seq<char>, BreakerView>,
    service: ServiceView,
    request: RequestView,
    now: nat,
    dispatch: DispatchView,
) -> bool {
    if rejects(breakers, service.name, now) {
        dispatch == DispatchView::Respond(
            error_view(503, "Service temporarily unavailable"@),
        )
    } else {
        exists|decision: DecisionView|
            #![trigger is_decision(health, service.endpoints, decision)]
            is_decision(health, service.endpoints, decision) && dispatch == (
            if decision.selected_endpoint.len() == 0 {
                DispatchView::Respond(error_view(503, "No available endpoints"@))
            } else {
                DispatchView::Forward(planned_call(health, service, request, decision))
            })
    }
}

/// What an outcome is booked as: the status, whether it counts as a
/// success, and the body that goes back to the client.
pub open spec fn booked_status(outcome: UpstreamOutcome) -> u16 {
    match outcome {
        UpstreamOutcome::Response { status, body } => status,
        UpstreamOutcome::Failed => 503,
    }
}

/// An outcome counts as a success for the health table and the metrics if
/// the upstream answered with a 2xx status.
pub open spec fn booked_success(outcome: UpstreamOutcome) -> bool {
    match outcome {
        UpstreamOutcome::Response { status, body } => 200 <= status < 300,
        UpstreamOutcome::Failed => false,
    }
}

/// An outcome counts as a failure for the circuit breaker if no answer came
/// or the answer has a 5xx status.
pub open spec fn trips_breaker(outcome: UpstreamOutcome) -> bool {
    match outcome {
        UpstreamOutcome::Response { status, body } => 500 <= status < 600,
        UpstreamOutcome::Failed => true,
    }
}

/// The body that goes back to the client.
pub open spec fn booked_body(outcome: UpstreamOutcome) -> Seq<u8> {
    match outcome {
        UpstreamOutcome::Response { status, body } => body@,
        UpstreamOutcome::Failed => encode_utf8("Upstream service unavailable"@),
    }
}

/// What the outcome of a call feeds into the health table.
pub open spec fn outcome_sample(
    call: CallView,
    outcome: UpstreamOutcome,
    elapsed_ms: u64,
    timestamp: u64,
) -> MetricsView {
    MetricsView {
        latency_ms: elapsed_ms as nat,
        status_code: booked_status(outcome) as nat,
        endpoint: call.endpoint,
        timestamp: timestamp as nat,
        success: booked_success(outcome),
    }
}

/// The response that answers a proxied request: the booked status and body,
/// and the two headers that name the endpoint and the confidence.
pub open spec fn proxied_view(call: CallView, outcome: UpstreamOutcome) -> ResponseView {
    ResponseView {
        status: booked_status(outcome),
        headers: seq![
            HeaderView { name: "x-proxy-endpoint"@, value: Some(call.endpoint) },
            HeaderView {
                name: "x-proxy-confidence"@,
                value: Some(confidence_text(call.confidence)),
            },
        ],
        body: booked_body(outcome),
    }
}

/// Every answer to a proxied request names the endpoint and the confidence:
/// the first header called `x-proxy-endpoint` holds the endpoint of the
/// call, the first called `x-proxy-confidence` its confidence.
pub proof fn lemma_proxied_response_names_endpoint(call: CallView, outcome: UpstreamOutcome)
    ensures
        crate::http::first_value(proxied_view(call, outcome).headers, "x-proxy-endpoint"@) == Some(
            call.endpoint,
        ),
        crate::http::first_value(proxied_view(call, outcome).headers, "x-proxy-confidence"@)
            == Some(confidence_text(call.confidence)),
{
    let headers = proxied_view(call, outcome).headers;
    reveal_strlit("x-proxy-endpoint");
    reveal_strlit("x-proxy-confidence");
    assert("x-proxy-endpoint"@[8] != "x-proxy-confidence"@[8]);
    assert(headers.drop_first()[0] == headers[1]);
    reveal_with_fuel(crate::http::first_value, 3);
}

/// The breakers after the outcome of a call was booked at `now`.
pub open spec fn booked_breakers(
    breakers: Map<Seq<char>, BreakerView>,
    call: CallView,
    outcome: UpstreamOutcome,
    now: nat,
) -> Map<Seq<char>, BreakerView> {
    if breakers.contains_key(call.service) {
        breakers.insert(
            call.service,
            if trips_breaker(outcome) {
                breakers[call.service].after_failure(now)
            } else {
                breakers[call.service].after_success()
            },
        )
    } else {
        breakers
    }
}

/// A copy of a table of services.
fn clone_services(services: &Table<UpstreamService>) -> (copy: Table<UpstreamService>)
    ensures
        copy.keys() == services.keys(),
        copy.values().len() == services.values().len(),
        forall|i: int|
            0 <= i < copy.values().len() ==> (#[trigger] copy.values()[i])@ == services.values()[i]@,
{
    proof {
        use_type_invariant(services);
        services.lemma_shape();
    }
    let mut copy: Table<UpstreamService> = Table::new();
    let n = services.len();
    let mut i: usize = 0;
    while i < n
        invariant
            i <= n,
            n == services.keys().len(),
            n == services.values().len(),
            services.wf(),
            copy.keys() == services.keys().take(i as int),
            copy.values().len() == i,
            forall|j: int|
                0 <= j < i ==> (#[trigger] copy.values()[j])@ == services.values()[j]@,
        decreases n - i,
    {
        let ghost before = copy;
        proof {
            use_type_invariant(&copy);
            services.lemma_shape();
            if copy@.contains_key(services.keys()[i as int]) {
                let j = copy.keys().index_of(services.keys()[i as int]);
                assert(services.keys()[j] == services.keys()[i as int]);
            }
        }
        copy.insert(services.key_at(i).as_str(), services.value_at(i).clone());
        proof {
            assert(copy.keys() =~= services.keys().take(i + 1));
            assert forall|j: int| 0 <= j < i + 1 implies (#[trigger] copy.values()[j])@
                == services.values()[j]@ by {
                if j < i {
                    assert(copy.values()[j] == before.values()[j]);
                }
            }
        }
        i += 1;
    }
    proof {
        assert(services.keys().take(n as int) =~= services.keys());
    }
    copy
}

pub struct ProxyServer {
    config: Config,
    ai_engine: AIEngine,
    metrics: MetricsCollector,
    load_balancer: LoadBalancer,
    circuit_breakers: Table<CircuitBreaker>,
    health_checker: HealthChecker,
    rate_limiter: Option<RateLimiter>,
}

impl ProxyServer {
    /// The health snapshot.
    pub closed spec fn health(&self) -> Map<Seq<char>, HealthView> {
        self.ai_engine@
    }

    /// The circuit breakers, by service name.
    pub closed spec fn breakers(&self) -> Map<Seq<char>, BreakerView> {
        Map::new(
            |k: Seq<char>| self.circuit_breakers@.contains_key(k),
            |k: Seq<char>| self.circuit_breakers@[k]@,
        )
    }

    /// The configured services, by the name they are configured under.
    pub closed spec fn services(&self) -> Map<Seq<char>, ServiceView> {
        Map::new(
            |k: Seq<char>| self.config.upstream_services@.contains_key(k),
            |k: Seq<char>| self.config.upstream_services@[k]@,
        )
    }

    /// The health checker.
    pub closed spec fn checker(&self) -> HealthChecker {
        self.health_checker
    }

    /// The load balancer.
    pub closed spec fn balancer(&self) -> LoadBalancer {
        self.load_balancer
    }

    /// The metrics collector.
    pub closed spec fn collector(&self) -> MetricsCollector {
        self.metrics
    }

    /// The rate limiter, if rate limiting is enabled.
    pub closed spec fn limiter(&self) -> Option<RateLimiter> {
        self.rate_limiter
    }

    /// The requests that the metrics have counted.
    pub closed spec fn request_count(&self) -> nat {
        self.metrics.request_count()
    }

    /// The per-endpoint counters of the metrics.
    pub closed spec fn endpoint_metrics(&self) -> Map<Seq<char>, EndpointMetrics> {
        self.metrics.endpoints()
    }

    /// A dispatcher for `config` with one closed circuit breaker per
    /// configured service, armed with the service's threshold.
    pub fn new(config: Config, ai_engine: AIEngine, metrics: MetricsCollector) -> (server: Self)
        ensures
            server.health() == ai_engine@,
            server.collector() == metrics,
            server.checker().statuses() == Map::<
                Seq<char>,
                crate::health_checker::StatusView,
            >::empty(),
            server.checker().services() == Seq::new(
                config.upstream_services.values().len(),
                |i: int| config.upstream_services.values()[i]@,
            ),
            server.balancer().strategy() == crate::load_balancer::LoadBalancingStrategy::RoundRobin,
            server.balancer().counters() == Map::<Seq<char>, usize>::empty(),
            server.balancer().connections() == Map::<Seq<char>, usize>::empty(),
            server.limiter() is None,
            server.request_count() == metrics.request_count(),
            server.endpoint_metrics() == metrics.endpoints(),
            server.services() == Map::new(
                |k: Seq<char>| config.upstream_services@.contains_key(k),
                |k: Seq<char>| config.upstream_services@[k]@,
            ),
            forall|k: Seq<char>|
                server.breakers().contains_key(k) <==> config.upstream_services@.contains_key(k),
            forall|k: Seq<char>| #[trigger]
                server.breakers().contains_key(k) ==> server.breakers()[k] == BreakerView::fresh(
                    config.upstream_services@[k].circuit_breaker_threshold as nat,
                ),
    {
        let ghost services = config.upstream_services;
        proof {
            use_type_invariant(&config.upstream_services);
            services.lemma_shape();
        }
        let mut circuit_breakers: Table<CircuitBreaker> = Table::new();
        let n = config.upstream_services.len();
        let mut i: usize = 0;
        while i < n
            invariant
                i <= n,
                services == config.upstream_services,
                n == services.keys().len(),
                n == services.values().len(),
                services.wf(),
                circuit_breakers.keys() == services.keys().take(i as int),
                circuit_breakers.values().len() == i,
                forall|j: int|
                    0 <= j < i ==> (#[trigger] circuit_breakers.values()[j])@ == BreakerView::fresh(
                        services.values()[j].circuit_breaker_threshold as nat,
                    ),
            decreases n - i,
        {
            let ghost before = circuit_breakers;
            proof {
                use_type_invariant(&circuit_breakers);
                services.lemma_shape();
                if circuit_breakers@.contains_key(services.keys()[i as int]) {
                    let j = circuit_breakers.keys().index_of(services.keys()[i as int]);
                    assert(services.keys()[j] == services.keys()[i as int]);
                }
            }
            circuit_breakers.insert(
                config.upstream_services.key_at(i).as_str(),
                CircuitBreaker::new(config.upstream_services.value_at(i).circuit_breaker_threshold),
            );
            proof {
                assert(circuit_breakers.keys() =~= services.keys().take(i + 1));
                assert forall|j: int| 0 <= j < i + 1 implies (
                #[trigger] circuit_breakers.values()[j])@ == BreakerView::fresh(
                    services.values()[j].circuit_breaker_threshold as nat,
                ) by {
                    if j < i {
                        assert(circuit_breakers.values()[j] == before.values()[j]);
                    }
                }
            }
            i += 1;
        }
        let health_checker = HealthChecker::new(clone_services(&config.upstream_services));
        proof {
            assert(health_checker.services() =~= Seq::new(
                services.values().len(),
                |i: int| services.values()[i]@,
            ));
        }
        let server = ProxyServer {
            config,
            ai_engine,
            metrics,
            load_balancer: LoadBalancer::new(),
            circuit_breakers,
            health_checker,
            rate_limiter: None,
        };
        proof {
            use_type_invariant(&server.circuit_breakers);
            assert(services.keys().take(n as int) =~= services.keys());
            assert forall|k: Seq<char>|
                server.breakers().contains_key(k) <==> services@.contains_key(k) by {}
            assert forall|k: Seq<char>| #[trigger]
                server.breakers().contains_key(k) implies server.breakers()[k]
                == BreakerView::fresh(services@[k].circuit_breaker_threshold as nat) by {
                let j = server.circuit_breakers.keys().index_of(k);
                server.circuit_breakers.lemma_shape();
                server.circuit_breakers.lemma_at(j);
                services.lemma_at(j);
            }
        }
        server
    }

    /// Counts one more open connection.
    pub fn increment_connections(&mut self)
        ensures
            final(self).collector().active_connections() == (if old(self).collector().active_connections() < i64::MAX {
                old(self).collector().active_connections() + 1
            } else {
                old(self).collector().active_connections()
            }),
            final(self).collector().request_count() == old(self).collector().request_count(),
            final(self).collector().bucket_hits() == old(self).collector().bucket_hits(),
            final(self).collector().duration_sum_ms() == old(self).collector().duration_sum_ms(),
            final(self).collector().order() == old(self).collector().order(),
            final(self).collector().counters() == old(self).collector().counters(),
            final(self).request_count() == old(self).request_count(),
            final(self).endpoint_metrics() == old(self).endpoint_metrics(),
            final(self).health() == old(self).health(),
            final(self).breakers() == old(self).breakers(),
            final(self).services() == old(self).services(),
            final(self).checker() == old(self).checker(),
            final(self).balancer() == old(self).balancer(),
            final(self).limiter() == old(self).limiter(),
    {
        self.metrics.increment_connections();
    }

    /// Counts one open connection less.
    pub fn decrement_connections(&mut self)
        ensures
            final(self).collector().active_connections() == (if old(self).collector().active_connections() > i64::MIN {
                old(self).collector().active_connections() - 1
            } else {
                old(self).collector().active_connections()
            }),
            final(self).collector().request_count() == old(self).collector().request_count(),
            final(self).collector().bucket_hits() == old(self).collector().bucket_hits(),
            final(self).collector().duration_sum_ms() == old(self).collector().duration_sum_ms(),
            final(self).collector().order() == old(self).collector().order(),
            final(self).collector().counters() == old(self).collector().counters(),
            final(self).request_count() == old(self).request_count(),
            final(self).endpoint_metrics() == old(self).endpoint_metrics(),
            final(self).health() == old(self).health(),
            final(self).breakers() == old(self).breakers(),
            final(self).services() == old(self).services(),
            final(self).checker() == old(self).checker(),
            final(self).balancer() == old(self).balancer(),
            final(self).limiter() == old(self).limiter(),
    {
        self.metrics.decrement_connections();
    }

    /// Enables rate limiting, with buckets that start full.
    pub fn enable_rate_limit(&mut self, config: RateLimitConfig)
        ensures
            final(self).limiter() matches Some(limiter) && limiter@ == Map::<
                Seq<char>,
                crate::rate_limiter::BucketView,
            >::empty() && limiter.config() == config,
            final(self).health() == old(self).health(),
            final(self).breakers() == old(self).breakers(),
            final(self).services() == old(self).services(),
            final(self).collector() == old(self).collector(),
            final(self).checker() == old(self).checker(),
            final(self).balancer() == old(self).balancer(),
            final(self).request_count() == old(self).request_count(),
            final(self).endpoint_metrics() == old(self).endpoint_metrics(),
    {
        self.rate_limiter = Some(RateLimiter::new(config));
    }

    /// Asks whether a request under `key` may pass at the monotonic time
    /// `now`.
    ///
    /// Without rate limiting every request passes. With it, the request
    /// takes one token from the bucket of `key`; where the bucket does not
    /// hold one, the answer is a 503.
    pub fn check_rate_limit(&mut self, key: &str, now: u64) -> (rejection: Option<HttpResponse>)
        ensures
            match old(self).limiter() {
                None => rejection is None && final(self).limiter() is None,
                Some(before) => {
                    &&& final(self).limiter() matches Some(after) && after.config()
                        == before.config() && after@ == before@.insert(
                        key@,
                        bucket_before(before@, before.config(), key@, now as nat).try_consume(
                            now as nat,
                            TOKEN as nat,
                        ),
                    )
                    &&& rejection is None <==> bucket_before(
                        before@,
                        before.config(),
                        key@,
                        now as nat,
                    ).grants(now as nat, TOKEN as nat)
                    &&& rejection matches Some(response) ==> response@ == error_view(
                        503,
                        "Rate limit exceeded"@,
                    )
                },
            },
            final(self).health() == old(self).health(),
            final(self).breakers() == old(self).breakers(),
            final(self).services() == old(self).services(),
            final(self).collector() == old(self).collector(),
            final(self).checker() == old(self).checker(),
            final(self).balancer() == old(self).balancer(),
            final(self).request_count() == old(self).request_count(),
            final(self).endpoint_metrics() == old(self).endpoint_metrics(),
    {
        let allowed = match &mut self.rate_limiter {
            Some(limiter) => limiter.is_allowed_at(key, now),
            None => true,
        };
        if allowed {
            None
        } else {
            Some(error_response(503, "Rate limit exceeded"))
        }
    }

    /// The health checker of the configured services.
    pub fn health_checker(&self) -> (checker: &HealthChecker)
        ensures
            *checker == self.checker(),
    {
        &self.health_checker
    }

    /// The selector's health table.
    pub fn ai_engine(&self) -> (engine: &AIEngine)
        ensures
            engine@ == self.health(),
    {
        &self.ai_engine
    }

    /// The metrics.
    pub fn metrics(&self) -> (metrics: &MetricsCollector)
        ensures
            *metrics == self.collector(),
            metrics.request_count() == self.request_count(),
            metrics.endpoints() == self.endpoint_metrics(),
    {
        &self.metrics
    }

    /// Asks the load balancer, which the dispatcher keeps but does not
    /// consult on its own, for an endpoint.
    pub fn balance(&mut self, service_name: &str, endpoints: &[String]) -> (selected: Option<String>)
        ensures
            crate::load_balancer::is_selection(
                old(self).balancer(),
                final(self).balancer(),
                service_name@,
                endpoints@,
                selected,
            ),
            endpoints@.len() == 0 <==> selected is None,
            selected matches Some(endpoint) ==> endpoints@.contains(endpoint),
            final(self).health() == old(self).health(),
            final(self).breakers() == old(self).breakers(),
            final(self).services() == old(self).services(),
            final(self).collector() == old(self).collector(),
            final(self).request_count() == old(self).request_count(),
            final(self).endpoint_metrics() == old(self).endpoint_metrics(),
            final(self).checker() == old(self).checker(),
    {
        self.load_balancer.select_endpoint(service_name, endpoints)
    }

    /// Takes in the outcome of a health probe of `endpoint`, sent in a
    /// periodic round or in a check outside the cadence.
    pub fn record_probe(&mut self, endpoint: &str, healthy: bool, response_time_ms: u64, now: u64)
        ensures
            final(self).health() == old(self).health().insert(
                endpoint@,
                record_before(old(self).health(), endpoint@, now as nat).observe(
                    crate::health_checker::probe_sample(
                        endpoint@,
                        healthy,
                        response_time_ms as nat,
                        now as nat,
                    ),
                ),
            ),
            final(self).checker().statuses() == old(self).checker().statuses().insert(
                endpoint@,
                crate::health_checker::status_before(
                    old(self).checker().statuses(),
                    endpoint@,
                ).after_probe(healthy, response_time_ms as nat, now as nat),
            ),
            final(self).breakers() == old(self).breakers(),
            final(self).services() == old(self).services(),
            final(self).collector() == old(self).collector(),
            final(self).balancer() == old(self).balancer(),
            final(self).request_count() == old(self).request_count(),
            final(self).endpoint_metrics() == old(self).endpoint_metrics(),
    {
        self.health_checker.record_probe(
            &mut self.ai_engine,
            endpoint,
            healthy,
            response_time_ms,
            now,
        );
    }

    /// Takes in the outcome of one probe of a check of `service_name` outside
    /// the cadence: booked like a periodic probe for an endpoint of that
    /// service, and not at all otherwise.
    pub fn record_forced_probe(
        &mut self,
        service_name: &str,
        endpoint: &str,
        healthy: bool,
        response_time_ms: u64,
        now: u64,
    )
        ensures
            crate::health_checker::belongs_to(
                old(self).checker().service_map(),
                service_name@,
                endpoint@,
            ) ==> {
                &&& final(self).health() == old(self).health().insert(
                    endpoint@,
                    record_before(old(self).health(), endpoint@, now as nat).observe(
                        crate::health_checker::probe_sample(
                            endpoint@,
                            healthy,
                            response_time_ms as nat,
                            now as nat,
                        ),
                    ),
                )
                &&& final(self).checker().statuses() == old(self).checker().statuses().insert(
                    endpoint@,
                    crate::health_checker::status_before(
                        old(self).checker().statuses(),
                        endpoint@,
                    ).after_probe(healthy, response_time_ms as nat, now as nat),
                )
            },
            !crate::health_checker::belongs_to(
                old(self).checker().service_map(),
                service_name@,
                endpoint@,
            ) ==> {
                &&& final(self).health() == old(self).health()
                &&& final(self).checker().statuses() == old(self).checker().statuses()
            },
            final(self).checker().service_map() == old(self).checker().service_map(),
            final(self).breakers() == old(self).breakers(),
            final(self).services() == old(self).services(),
            final(self).collector() == old(self).collector(),
            final(self).balancer() == old(self).balancer(),
            final(self).request_count() == old(self).request_count(),
            final(self).endpoint_metrics() == old(self).endpoint_metrics(),
    {
        self.health_checker.record_forced_probe(
            &mut self.ai_engine,
            service_name,
            endpoint,
            healthy,
            response_time_ms,
            now,
        );
    }

    /// Marks `endpoint` unhealthy by hand.
    pub fn mark_endpoint_unhealthy(&mut self, endpoint: &str)
        ensures
            final(self).checker().statuses() == (if old(self).checker().statuses().contains_key(
                endpoint@,
            ) {
                old(self).checker().statuses().insert(
                    endpoint@,
                    old(self).checker().statuses()[endpoint@].marked_unhealthy(),
                )
            } else {
                old(self).checker().statuses()
            }),
            final(self).health() == old(self).health(),
            final(self).breakers() == old(self).breakers(),
            final(self).services() == old(self).services(),
            final(self).collector() == old(self).collector(),
            final(self).balancer() == old(self).balancer(),
            final(self).request_count() == old(self).request_count(),
            final(self).endpoint_metrics() == old(self).endpoint_metrics(),
    {
        self.health_checker.mark_endpoint_unhealthy(endpoint);
    }

    /// Plans what to do with `request` for the service configured under
    /// `service_name`, at the monotonic time `now`.
    ///
    /// An unknown service is answered with 404. For a known one the
    /// service's circuit breaker is probed: if it rejects calls, the answer
    /// is 503. Otherwise the selector chooses among the service's
    /// endpoints; without a choice the answer is 503, with one the call to
    /// that endpoint is planned.
    pub fn begin_request(&mut self, service_name: &str, request: &HttpRequest, now: u64) -> (dispatch:
        Dispatch)
        ensures
            final(self).health() == old(self).health(),
            final(self).services() == old(self).services(),
            final(self).collector() == old(self).collector(),
            final(self).checker() == old(self).checker(),
            final(self).balancer() == old(self).balancer(),
            final(self).limiter() == old(self).limiter(),
            final(self).request_count() == old(self).request_count(),
            final(self).endpoint_metrics() == old(self).endpoint_metrics(),
            !old(self).services().contains_key(service_name@) ==> dispatch@
                == DispatchView::Respond(error_view(404, "Service not found"@)) && final(self).breakers() == old(self).breakers(),
            old(self).services().contains_key(service_name@) ==> final(self).breakers() == probed(
                old(self).breakers(),
                old(self).services()[service_name@].name,
                now as nat,
            ) && is_dispatch(
                old(self).health(),
                old(self).breakers(),
                old(self).services()[service_name@],
                request@,
                now as nat,
                dispatch@,
            ),
    {
        let service = match self.config.upstream_services.get(service_name) {
            Some(service) => service,
            None => {
                return Dispatch::Respond(error_response(404, "Service not found"));
            },
        };
        let name = service.name.as_str();
        let found: Option<CircuitBreaker> = match self.circuit_breakers.get(name) {
            Some(breaker) => Some(*breaker),
            None => None,
        };
        match found {
            Some(breaker) => {
                let mut breaker = breaker;
                let open = breaker.is_open_at(now);
                self.circuit_breakers.insert(name, breaker);
                proof {
                    assert(self.breakers() =~= probed(old(self).breakers(), name@, now as nat));
                }
                if open {
                    return Dispatch::Respond(
                        error_response(503, "Service temporarily unavailable"),
                    );
                }
            },
            None => {
                proof {
                    assert(self.breakers() =~= probed(old(self).breakers(), name@, now as nat));
                }
            },
        }
        let decision = self.ai_engine.select_endpoint(name, service.endpoints.as_slice());
        proof {
            assert(crate::ai::names_of(service.endpoints@) =~= service@.endpoints);
        }
        if decision.selected_endpoint.as_str().unicode_len() == 0 {
            return Dispatch::Respond(error_response(503, "No available endpoints"));
        }
        let timeout_ms = self.ai_engine.adaptive_timeout(decision.selected_endpoint.as_str());
        let call = UpstreamCall {
            service: service.name.clone(),
            url: upstream_url(decision.selected_endpoint.as_str(), request),
            endpoint: decision.selected_endpoint,
            confidence: decision.confidence,
            timeout_ms,
            method: forward_method(request.method.as_str()),
            headers: forwarded_headers(&request.headers),
        };
        proof {
            assert(call@ == planned_call(old(self).health(), service@, request@, decision@));
        }
        Dispatch::Forward(call)
    }

    /// Books the outcome of the upstream call `call` and builds the answer
    /// to the client.
    ///
    /// `elapsed_ms` is the time the request took, `timestamp` the wall clock
    /// in seconds since the epoch, `now` the monotonic time. The outcome is
    /// counted into the health table and the metrics as a success if the
    /// upstream answered with a 2xx status. The service's circuit breaker
    /// counts a failure if no answer came or the status is 5xx, else a
    /// success. The answer carries the upstream's status and body, or 503
    /// where no answer came, and names the endpoint and the confidence in
    /// two headers.
    pub fn complete_request(
        &mut self,
        call: &UpstreamCall,
        outcome: UpstreamOutcome,
        elapsed_ms: u64,
        timestamp: u64,
        now: u64,
    ) -> (response: HttpResponse)
        ensures
            response@ == proxied_view(call@, outcome),
            final(self).services() == old(self).services(),
            final(self).health() == old(self).health().insert(
                call@.endpoint,
                record_before(old(self).health(), call@.endpoint, timestamp as nat).observe(
                    outcome_sample(call@, outcome, elapsed_ms, timestamp),
                ),
            ),
            final(self).request_count() == (if old(self).request_count() < u64::MAX {
                old(self).request_count() + 1
            } else {
                old(self).request_count()
            }),
            final(self).endpoint_metrics() == old(self).endpoint_metrics().insert(
                call@.endpoint,
                metrics_before(old(self).endpoint_metrics(), call@.endpoint).recorded(
                    elapsed_ms,
                    booked_success(outcome),
                    timestamp,
                ),
            ),
            final(self).breakers() == booked_breakers(
                old(self).breakers(),
                call@,
                outcome,
                now as nat,
            ),
            crate::metrics::is_recorded(
                old(self).collector(),
                final(self).collector(),
                call@.endpoint,
                elapsed_ms,
                booked_success(outcome),
                timestamp,
            ),
            final(self).checker() == old(self).checker(),
            final(self).balancer() == old(self).balancer(),
            final(self).limiter() == old(self).limiter(),
    {
        let (status, success, trips, body): (u16, bool, bool, Vec<u8>) = match outcome {
            UpstreamOutcome::Response { status, body } => (
                status,
                is_success(status),
                500 <= status && status < 600,
                body,
            ),
            UpstreamOutcome::Failed => (
                503,
                false,
                true,
                slice_to_vec("Upstream service unavailable".as_bytes()),
            ),
        };
        let endpoint = call.endpoint.as_str();
        self.ai_engine.record_request(
            RequestMetrics {
                latency_ms: elapsed_ms,
                status_code: status,
                endpoint: call.endpoint.clone(),
                timestamp,
                success,
            },
        );
        self.metrics.record_request_at(endpoint, elapsed_ms, success, timestamp);
        let name = call.service.as_str();
        let found: Option<CircuitBreaker> = match self.circuit_breakers.get(name) {
            Some(breaker) => Some(*breaker),
            None => None,
        };
        match found {
            Some(breaker) => {
                let mut breaker = breaker;
                if trips {
                    breaker.record_failure_at(now);
                } else {
                    breaker.record_success();
                }
                self.circuit_breakers.insert(name, breaker);
            },
            None => {},
        }
        proof {
            assert(self.breakers() =~= booked_breakers(
                old(self).breakers(),
                call@,
                outcome,
                now as nat,
            ));
        }
        let mut headers: Vec<Header> = Vec::new();
        headers.push(
            Header { name: "x-proxy-endpoint".to_owned(), value: Some(call.endpoint.clone()) },
        );
        headers.push(
            Header {
                name: "x-proxy-confidence".to_owned(),
                value: Some(confidence_string(call.confidence)),
            },
        );
        let response = HttpResponse { status, headers, body };
        proof {
            assert(response@.headers =~= proxied_view(call@, outcome).headers);
        }
        response
    }

    /// The answer of the metrics endpoint: what the registry has encoded,
    /// with the per-endpoint families behind it, as plain text.
    pub fn metrics_response(&self, registry_text: &str) -> (response: HttpResponse)
        ensures
            response@ == (ResponseView {
                status: 200,
                headers: seq![HeaderView { name: "content-type"@, value: Some("text/plain"@) }],
                body: encode_utf8(
                    registry_text@ + crate::metrics::endpoint_blocks(
                        self.collector().order(),
                        self.collector().counters(),
                    ),
                ),
            }),
    {
        let text = self.metrics.get_prometheus_metrics(registry_text);
        text_response(text.as_str())
    }
}

} // verus!
