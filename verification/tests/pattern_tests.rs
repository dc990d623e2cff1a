use alcazar::error::AlcazarError;
use alcazar::error::RoutingError;
use alcazar::routing::pattern::PatternType;

#[test]
fn test_parse_static_path() {
    let path = "/static/files/icons/";

    let result = PatternType::from_str(path);
    assert_eq!(result.is_ok(), true);

    let pattern_type = result.unwrap();
    assert_eq!(pattern_type.is_match(path), true);
}

#[test]
fn test_parse_dynamic_path() {
    let path = "/api/v1/users/{id}/detail/";

    let result = PatternType::from_str(path);
    assert_eq!(result.is_ok(), true);

    let pattern_type = result.unwrap();
    let url_example = "/api/v1/users/1000/detail/";
    assert_eq!(pattern_type.is_match(url_example), true);
}

#[test]
fn test_parse_path_with_multiple_parameters() {
    let path = "/api/v1/blog/{blog_id}/users/{user_id}";

    let result = PatternType::from_str(path);
    assert_eq!(result.is_ok(), true);

    let pattern_type = result.unwrap();
    let url_example = "/api/v1/blog/1/users/100";
    assert_eq!(pattern_type.is_match(url_example), true);
}

#[test]
fn test_get_invalid_path_error_for_incorrect_dynamic_path() {
    let path = "/api/v1/blog/{blog_id}}/";

    let result = PatternType::from_str(path);
    assert_eq!(result.is_err(), true);
    assert_eq!(
        result.unwrap_err().message(),
        "found an invalid \"}/\" part of the \"/api/v1/blog/{blog_id}}/\" path."
    );
}

#[test]
fn static_pattern_rejects_every_other_path() {
    let pattern = PatternType::from_str("/static/files/icons/").unwrap();
    assert!(!pattern.is_match("/static/files/icons"));
    assert!(!pattern.is_match("/static/files/icons/x"));
    assert!(!pattern.is_match(""));
    assert!(!pattern.is_match("/static/files/ICONS/"));
}

#[test]
fn parameter_absorbs_exactly_one_segment() {
    let pattern = PatternType::from_str("/users/{id}").unwrap();
    assert!(pattern.is_match("/users/42"));
    assert!(!pattern.is_match("/users/42/x"));
    assert!(!pattern.is_match("/users"));
    assert!(!pattern.is_match("/users/"));
}

#[test]
fn match_is_anchored_to_the_whole_path() {
    let pattern = PatternType::from_str("/api/{v}/").unwrap();
    assert!(pattern.is_match("/api/v1/"));
    assert!(!pattern.is_match("/prefix/api/v1/"));
    assert!(!pattern.is_match("/api/v1/suffix"));
}

#[test]
fn template_with_lone_brace_is_static() {
    let pattern = PatternType::from_str("/a{b").unwrap();
    assert!(pattern.is_match("/a{b"));
    assert!(!pattern.is_match("/ab"));
}

#[test]
fn spaced_brace_token_is_rejected_verbatim() {
    let result = PatternType::from_str("/x/{ id }/y");
    let err = result.unwrap_err();
    assert_eq!(
        err.message(),
        "found an invalid \"{ id }\" part of the \"/x/{ id }/y\" path."
    );
    assert!(matches!(
        err,
        AlcazarError::RoutingError(RoutingError::InvalidPathError { .. })
    ));
}

#[test]
fn leading_stray_brace_reports_leading_fragment() {
    let result = PatternType::from_str("/a}b/{id}");
    let err = result.unwrap_err();
    assert_eq!(
        err.message(),
        "found an invalid \"/a}b/\" part of the \"/a}b/{id}\" path."
    );
}

#[test]
fn duplicate_parameter_name_fails_compilation() {
    let result = PatternType::from_str("/x/{id}/{id}");
    let err = result.unwrap_err();
    assert!(matches!(
        err,
        AlcazarError::RoutingError(RoutingError::PatternCompileFailure(_))
    ));
    assert_eq!(
        err.message(),
        "can't compile the matcher: parameter \"id\" is declared twice."
    );
}

#[test]
fn parameter_does_not_absorb_braces() {
    let pattern = PatternType::from_str("/x/{id}").unwrap();
    assert!(!pattern.is_match("/x/a{b"));
    assert!(!pattern.is_match("/x/a}b"));
    assert!(pattern.is_match("/x/a.b-c"));
}

#[test]
fn adjacent_parameters_split_one_segment() {
    let pattern = PatternType::from_str("/a/{x}{y}/b").unwrap();
    assert!(pattern.is_match("/a/cd/b"));
    assert!(!pattern.is_match("/a/c/b"));
    assert!(!pattern.is_match("/a//b"));
}
