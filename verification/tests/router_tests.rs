use alcazar::error::AlcazarError;
use alcazar::error::HttpError;
use alcazar::router::Router;
use alcazar::routing::endpoint::MethodType;

#[test]
fn resolve_is_first_match_in_registration_order() {
    // Both endpoints match the path; only the second accepts GET, and the
    // method filter is per-candidate, so the second one resolves.
    let router = Router::new()
        .with_endpoint("/x", &["post"], 1)
        .with_endpoint("/x", &["get"], 2);
    let endpoint = router.get_endpoint(MethodType::GET, "/x").unwrap();
    assert_eq!(endpoint.handler(), 2);
}

#[test]
fn resolve_prefers_the_earlier_of_two_full_matches() {
    let router = Router::new()
        .with_endpoint("/x", &["get"], 1)
        .with_endpoint("/x", &["get"], 2);
    let endpoint = router.get_endpoint(MethodType::GET, "/x").unwrap();
    assert_eq!(endpoint.handler(), 1);
}

#[test]
fn resolve_miss_is_internal_server_error() {
    let router = Router::new().with_endpoint("/x", &["get"], 1);
    let err = router.get_endpoint(MethodType::GET, "/y").unwrap_err();
    assert!(matches!(
        err,
        AlcazarError::HttpError(HttpError::InternalServerError)
    ));
}

#[test]
fn resolve_scans_dynamic_patterns_too() {
    let router = Router::new()
        .with_endpoint("/static", &["get"], 1)
        .with_endpoint("/users/{id}", &["get", "post"], 2);
    assert_eq!(
        router.get_endpoint(MethodType::POST, "/users/7").unwrap().handler(),
        2
    );
    assert_eq!(
        router.get_endpoint(MethodType::GET, "/static").unwrap().handler(),
        1
    );
    assert!(router.get_endpoint(MethodType::DELETE, "/users/7").is_err());
}

#[test]
fn registration_tokens_are_trimmed_and_case_folded() {
    let router = Router::new().with_endpoint("/x", &[" get ", "POST", "nonsense"], 1);
    assert!(router.get_endpoint(MethodType::GET, "/x").is_ok());
    assert!(router.get_endpoint(MethodType::POST, "/x").is_ok());
    assert!(router.get_endpoint(MethodType::HEAD, "/x").is_err());
}

#[test]
fn rejected_template_leaves_the_table_unchanged() {
    let router = Router::new()
        .with_endpoint("/ok", &["get"], 1)
        .with_endpoint("/bad/{id}}/", &["get"], 2);
    assert_eq!(router.endpoints().len(), 1);
    assert!(router.get_endpoint(MethodType::GET, "/ok").is_ok());
}

#[test]
fn merge_appends_in_order() {
    let first = Router::new().with_endpoint("/a", &["get"], 1);
    let second = Router::new()
        .with_endpoint("/a", &["get"], 2)
        .with_endpoint("/b", &["get"], 3);
    let merged = first.merge(&second);
    assert_eq!(merged.endpoints().len(), 3);
    assert_eq!(merged.get_endpoint(MethodType::GET, "/a").unwrap().handler(), 1);
    assert_eq!(merged.get_endpoint(MethodType::GET, "/b").unwrap().handler(), 3);
}

#[test]
fn clone_reads_the_same_table() {
    let router = Router::new().with_endpoint("/a/{x}", &["get"], 9);
    let copy = router.clone();
    assert_eq!(copy.get_endpoint(MethodType::GET, "/a/1").unwrap().handler(), 9);
    assert!(copy.get_endpoint(MethodType::GET, "/a/1/2").is_err());
}

#[test]
fn method_vocabulary_is_exact() {
    assert!(matches!(MethodType::from_str("GET"), Ok(MethodType::GET)));
    assert!(matches!(MethodType::from_str("HEAD"), Ok(MethodType::HEAD)));
    assert!(matches!(
        MethodType::from_str("get"),
        Err(AlcazarError::HttpError(HttpError::MethodNotImplemented))
    ));
    assert!(matches!(
        MethodType::from_str("FOOBAR"),
        Err(AlcazarError::HttpError(HttpError::MethodNotImplemented))
    ));
}
