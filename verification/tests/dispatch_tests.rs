use alcazar::dispatch::route_request;
use alcazar::dispatch::DispatchAction;
use alcazar::dispatch::DispatchState;
use alcazar::error::AlcazarError;
use alcazar::error::HttpError;
use alcazar::middleware::should_process;
use alcazar::middleware::ProcessStrategy;
use alcazar::router::Router;
use alcazar::status_code::StatusCode;

/// Drives the pure part of one connection: parse, resolve, and (for a
/// resolved request) respond with the given handler outcome.  Returns the
/// bytes written back, or `None` when the connection closes silently.
fn drive(router: &Router, wire: &str, outcome: Result<StatusCode, AlcazarError>) -> Option<Vec<u8>> {
    let mut state = DispatchState::Reading;
    state = state.on_head(wire);
    if matches!(state, DispatchState::Resolving { .. }) {
        state = state.on_resolve(router);
    }
    if matches!(state, DispatchState::Executing { .. }) {
        state = state.on_handler_outcome(outcome);
    }
    match state.action() {
        DispatchAction::Write { bytes } => Some(bytes),
        _ => None,
    }
}

#[test]
fn matched_request_receives_the_ok_status_line() {
    let router = Router::new().with_endpoint("/", &["get"], 1);
    let written = drive(&router, "GET / HTTP/1.1\r\n\r\n", Ok(StatusCode::OK));
    assert_eq!(written.unwrap(), b"HTTP/1.1 200 OK\r\n\r\n".to_vec());
}

#[test]
fn incomplete_head_writes_nothing_back() {
    let router = Router::new().with_endpoint("/", &["get"], 1);
    // The peer closed after `GET /`, with no terminating blank line.
    let written = drive(&router, "GET /", Ok(StatusCode::OK));
    assert!(written.is_none());
    // The table is untouched; the next connection proceeds normally.
    let next = drive(&router, "GET / HTTP/1.1\r\n\r\n", Ok(StatusCode::OK));
    assert!(next.is_some());
}

#[test]
fn unknown_method_token_resolves_nothing_and_writes_nothing() {
    let router = Router::new().with_endpoint("/", &["get"], 1);
    assert!(matches!(
        route_request(&router, "FOOBAR / HTTP/1.1\r\n\r\n"),
        Err(AlcazarError::HttpError(HttpError::MethodNotImplemented))
    ));
    let written = drive(&router, "FOOBAR / HTTP/1.1\r\n\r\n", Ok(StatusCode::OK));
    assert!(written.is_none());
}

#[test]
fn routing_miss_closes_without_bytes() {
    let router = Router::new().with_endpoint("/only", &["get"], 1);
    let written = drive(&router, "GET /other HTTP/1.1\r\n\r\n", Ok(StatusCode::OK));
    assert!(written.is_none());
}

#[test]
fn handler_failure_still_answers_with_a_500_line() {
    let router = Router::new().with_endpoint("/", &["get"], 1);
    let written = drive(
        &router,
        "GET / HTTP/1.1\r\n\r\n",
        Err(AlcazarError::HttpError(HttpError::InternalServerError)),
    );
    assert_eq!(
        written.unwrap(),
        b"HTTP/1.1 500 Internal Server Error\r\n\r\n".to_vec()
    );
}

#[test]
fn concurrent_connections_each_get_their_own_route() {
    // Two connections against one shared table: each resolves only its own
    // route and receives only its own response bytes.
    let router = Router::new()
        .with_endpoint("/alpha", &["get"], 10)
        .with_endpoint("/beta", &["get"], 20);
    assert_eq!(route_request(&router, "GET /alpha HTTP/1.1\r\n\r\n").unwrap(), 10);
    assert_eq!(route_request(&router, "GET /beta HTTP/1.1\r\n\r\n").unwrap(), 20);
    let first = drive(&router, "GET /alpha HTTP/1.1\r\n\r\n", Ok(StatusCode::OK));
    let second = drive(
        &router,
        "GET /beta HTTP/1.1\r\n\r\n",
        Err(AlcazarError::HttpError(HttpError::InternalServerError)),
    );
    assert_eq!(first.unwrap(), b"HTTP/1.1 200 OK\r\n\r\n".to_vec());
    assert_eq!(
        second.unwrap(),
        b"HTTP/1.1 500 Internal Server Error\r\n\r\n".to_vec()
    );
}

#[test]
fn route_request_follows_registration_order() {
    let router = Router::new()
        .with_endpoint("/x", &["post"], 1)
        .with_endpoint("/x", &["get"], 2);
    assert_eq!(route_request(&router, "GET /x HTTP/1.1\r\n\r\n").unwrap(), 2);
    assert_eq!(route_request(&router, "POST /x HTTP/1.1\r\n\r\n").unwrap(), 1);
}

#[test]
fn status_codes_map_to_their_lines() {
    assert_eq!(StatusCode::OK.code(), 200);
    assert_eq!(StatusCode::InternalServerError.code(), 500);
    assert_eq!(StatusCode::OK.reason(), "OK");
    assert_eq!(StatusCode::InternalServerError.reason(), "Internal Server Error");
    assert_eq!(
        StatusCode::OK.into_bytes_response(),
        b"HTTP/1.1 200 OK\r\n\r\n".to_vec()
    );
    assert_eq!(
        StatusCode::InternalServerError.into_bytes_response(),
        b"HTTP/1.1 500 Internal Server Error\r\n\r\n".to_vec()
    );
}

#[test]
fn middleware_runs_only_in_its_own_phase() {
    assert!(should_process(ProcessStrategy::Before, ProcessStrategy::Before));
    assert!(should_process(ProcessStrategy::After, ProcessStrategy::After));
    assert!(!should_process(ProcessStrategy::Before, ProcessStrategy::After));
    assert!(!should_process(ProcessStrategy::After, ProcessStrategy::Before));
}
