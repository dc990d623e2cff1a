use alcazar::error::AlcazarError;
use alcazar::error::HttpError;
use alcazar::error::ParseError;
use alcazar::request::HttpRequest;
use alcazar::routing::endpoint::MethodType;

#[test]
fn parses_a_minimal_request_head() {
    let request = HttpRequest::parse_head("GET / HTTP/1.1\r\n\r\n").unwrap();
    assert_eq!(request.path(), "/");
    assert_eq!(request.method(), MethodType::GET);
}

#[test]
fn parses_a_head_with_header_lines() {
    let request = HttpRequest::parse_head(
        "POST /users/7 HTTP/1.0\r\nHost: localhost\r\nAccept: */*\r\n\r\n",
    )
    .unwrap();
    assert_eq!(request.path(), "/users/7");
    assert_eq!(request.method(), MethodType::POST);
}

#[test]
fn incomplete_head_is_partial_content() {
    let err = HttpRequest::parse_head("GET /").unwrap_err();
    assert!(matches!(
        err,
        AlcazarError::HttpError(HttpError::PartialContent)
    ));
    let err = HttpRequest::parse_head("GET / HTTP/1.1\r\n").unwrap_err();
    assert!(matches!(
        err,
        AlcazarError::HttpError(HttpError::PartialContent)
    ));
}

#[test]
fn head_complete_sees_the_terminator() {
    assert!(HttpRequest::head_complete("GET / HTTP/1.1\r\n\r\n"));
    assert!(!HttpRequest::head_complete("GET / HTTP/1.1\r\n"));
    assert!(!HttpRequest::head_complete(""));
}

#[test]
fn unknown_method_token_is_not_implemented() {
    let err = HttpRequest::parse_head("FOOBAR / HTTP/1.1\r\n\r\n").unwrap_err();
    assert!(matches!(
        err,
        AlcazarError::HttpError(HttpError::MethodNotImplemented)
    ));
}

#[test]
fn missing_path_token_is_path_missing() {
    let err = HttpRequest::parse_head("GET\r\n\r\n").unwrap_err();
    assert!(matches!(
        err,
        AlcazarError::ParseError(ParseError::PathMissing)
    ));
}

#[test]
fn empty_request_line_is_method_missing() {
    let err = HttpRequest::parse_head("\r\n\r\n").unwrap_err();
    assert!(matches!(
        err,
        AlcazarError::ParseError(ParseError::MethodMissing)
    ));
    let err = HttpRequest::parse_head(" / HTTP/1.1\r\n\r\n").unwrap_err();
    assert!(matches!(
        err,
        AlcazarError::ParseError(ParseError::MethodMissing)
    ));
}

#[test]
fn malformed_version_is_a_parse_error() {
    let err = HttpRequest::parse_head("GET /\r\n\r\n").unwrap_err();
    assert!(matches!(
        err,
        AlcazarError::ParseError(ParseError::HttpParseError)
    ));
    let err = HttpRequest::parse_head("GET / HTTQ/1.1\r\n\r\n").unwrap_err();
    assert!(matches!(
        err,
        AlcazarError::ParseError(ParseError::HttpParseError)
    ));
    let err = HttpRequest::parse_head("GET / HTTP/1.1 extra\r\n\r\n").unwrap_err();
    assert!(matches!(
        err,
        AlcazarError::ParseError(ParseError::HttpParseError)
    ));
}

#[test]
fn error_messages_render_their_taxonomy() {
    assert_eq!(
        HttpError::PartialContent.message(),
        "partial content sended: status code 206"
    );
    assert_eq!(
        HttpError::InternalServerError.message(),
        "internal server error: status code 500"
    );
    assert_eq!(
        HttpError::MethodNotImplemented.message(),
        "method not implemented: status code 501"
    );
    assert_eq!(
        ParseError::MethodMissing.message(),
        "method is missing in the request"
    );
    assert_eq!(
        ParseError::PathMissing.message(),
        "path is missing in the request"
    );
    assert_eq!(AlcazarError::WrapIOError.message(), "the connection failed");
}
