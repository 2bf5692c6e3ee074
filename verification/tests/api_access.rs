use sonium::control::access::{authorize, bearer_token, RequiredRole};
use sonium::control::users::Claims;

fn claims(role: &str) -> Claims {
    Claims {
        sub: "user-1".into(),
        username: "alice".into(),
        role: role.into(),
        must_change_password: false,
        session_version: 0,
        exp: 4_000_000_000,
    }
}

#[test]
fn bearer_token_strips_the_scheme() {
    assert_eq!(bearer_token("Bearer abc.def"), Some("abc.def"));
    assert_eq!(bearer_token("Bearer "), Some(""));
    assert_eq!(bearer_token("bearer abc"), None);
    assert_eq!(bearer_token("Basic abc"), None);
    assert_eq!(bearer_token("Bearer"), None);
}

#[test]
fn missing_token_is_unauthorized() {
    let d = authorize(None, RequiredRole::Viewer).unwrap_err();
    assert_eq!(d.status, 401);
    assert_eq!(d.message, "missing or invalid token");
}

#[test]
fn viewer_reads_but_cannot_operate() {
    let viewer = claims("viewer");
    assert!(authorize(Some(&viewer), RequiredRole::Viewer).is_ok());
    let d = authorize(Some(&viewer), RequiredRole::Operator).unwrap_err();
    assert_eq!(d.status, 403);
    assert_eq!(d.message, "operator or admin role required");
}

#[test]
fn operator_is_not_an_admin() {
    let operator = claims("operator");
    assert!(authorize(Some(&operator), RequiredRole::Operator).is_ok());
    let d = authorize(Some(&operator), RequiredRole::Admin).unwrap_err();
    assert_eq!(d.status, 403);
    assert_eq!(d.message, "admin role required");
}

#[test]
fn admin_passes_every_gate() {
    let admin = claims("admin");
    for required in [RequiredRole::Viewer, RequiredRole::Operator, RequiredRole::Admin] {
        assert!(authorize(Some(&admin), required).is_ok());
    }
}
