use dcm_content::auth::{AuthStep, Authentication, RequestMethod, SkipAuthRoute};

#[test]
fn preflight_requests_skip_authentication() {
    let auth = Authentication::new();
    assert!(auth.should_skip_auth(RequestMethod::OPTIONS, "/admin-api/v1/sites"));
}

#[test]
fn listed_routes_skip_authentication() {
    let auth = Authentication::new();
    assert!(auth.should_skip_auth(RequestMethod::POST, "/admin-api/v1/auth/local/login"));
    assert!(auth.should_skip_auth(RequestMethod::GET, "/admin-api/v1/status"));
    assert!(auth.should_skip_auth(RequestMethod::GET, "/docs/index.html"));
    assert!(auth.should_skip_auth(RequestMethod::GET, "/api/v1/sites/s/content"));
    assert!(auth.should_skip_auth(
        RequestMethod::GET,
        "/admin-api/v1/sites/a/storage-repositories/b/files"
    ));
}

#[test]
fn other_requests_need_authentication() {
    let auth = Authentication::new();
    assert!(!auth.should_skip_auth(RequestMethod::GET, "/admin-api/v1/auth/local/login"));
    assert!(!auth.should_skip_auth(RequestMethod::GET, "/admin-api/v1/sites/s/content"));
    assert!(!auth.should_skip_auth(RequestMethod::POST, "/api/v1/sites/s/content"));
    assert!(!auth.should_skip_auth(RequestMethod::DELETE, "/admin-api/v1/status"));
}

#[test]
fn route_matches_pattern_and_method() {
    let route = SkipAuthRoute::new("/items/[0-9]+$", RequestMethod::GET);
    assert!(route.matches_path_and_method("/items/42", RequestMethod::GET));
    assert!(!route.matches_path_and_method("/items/42", RequestMethod::PUT));
    assert!(!route.matches_path_and_method("/items/abc", RequestMethod::GET));
    let broken = SkipAuthRoute::new("(", RequestMethod::GET);
    assert!(!broken.matches_path_and_method("(", RequestMethod::GET));
}

#[test]
fn middleware_steps_follow_the_routes() {
    let middleware = Authentication::new().new_transform("service");
    assert_eq!(*middleware.service(), "service");
    assert_eq!(middleware.first_step(RequestMethod::GET, "/docs/"), AuthStep::Forward);
    assert_eq!(
        middleware.first_step(RequestMethod::PUT, "/admin-api/v1/sites/s"),
        AuthStep::LookUpUser
    );
    assert_eq!(middleware.after_lookup(true), AuthStep::Forward);
    assert_eq!(middleware.after_lookup(false), AuthStep::Reject);
}

#[test]
fn rejection_body_names_the_occurrence() {
    let body = dcm_content::auth::unauthorized_body(0xabc);
    match body {
        dcm_content::json::JsonValue::Object(ms) => {
            let keys: Vec<&str> = ms.iter().map(|m| m.key.as_str()).collect();
            assert_eq!(keys, vec!["message", "status", "identifier", "code"]);
            assert!(matches!(&ms[0].value, dcm_content::json::JsonValue::Str(s) if s == "Please authenticate"));
            assert!(matches!(ms[1].value, dcm_content::json::JsonValue::Int(401)));
            assert!(matches!(&ms[2].value, dcm_content::json::JsonValue::Str(s) if s == "00000000-0000-0000-0000-000000000abc"));
            assert!(matches!(&ms[3].value, dcm_content::json::JsonValue::Str(s) if s == "UNAUTHORIZED"));
        },
        other => panic!("not an object: {:?}", other),
    }
}
