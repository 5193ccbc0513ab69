use schedule_api::auth::{
    admin_claims, admit_request, claims_grant_access, is_authorized_route, login,
    new_password_hash, token_from_cookie, LoginError,
};

fn routes() -> Vec<String> {
    vec!["/epoch/update".to_string(), "/groups/create".to_string()]
}

fn pairs(p: &[(&str, &str)]) -> Vec<(String, String)> {
    p.iter().map(|(a, b)| (a.to_string(), b.to_string())).collect()
}

#[test]
fn cookie_token_is_found() {
    assert_eq!(token_from_cookie("a=b; token=xyz; c=d").as_deref(), Some("xyz"));
    assert_eq!(token_from_cookie("token=abc").as_deref(), Some("abc"));
    assert_eq!(token_from_cookie("token; token=second").as_deref(), Some("second"));
    assert_eq!(token_from_cookie("token=a=b").as_deref(), Some("a"));
    assert_eq!(token_from_cookie("token=").as_deref(), Some(""));
    assert_eq!(token_from_cookie("tokens=1;token=2"), None);
    assert_eq!(token_from_cookie(""), None);
    assert_eq!(token_from_cookie("a=b"), None);
}

#[test]
fn protected_routes() {
    assert!(is_authorized_route(&routes(), "/epoch/update"));
    assert!(!is_authorized_route(&routes(), "/epoch"));
    assert!(!is_authorized_route(&vec![], "/epoch/update"));
}

#[test]
fn claims_check() {
    let good = pairs(&[("psw", "HASH"), ("sub", "schedapiadmin")]);
    assert!(claims_grant_access(&good, "HASH"));
    assert!(!claims_grant_access(&good, "OTHER"));
    assert!(!claims_grant_access(&pairs(&[("psw", "HASH"), ("sub", "someone")]), "HASH"));
    assert!(!claims_grant_access(&pairs(&[("sub", "schedapiadmin")]), "HASH"));
    assert!(!claims_grant_access(&vec![], "HASH"));
    assert!(claims_grant_access(&admin_claims("H"), "H"));
}

#[test]
fn new_hash_is_not_the_password_and_verifies() {
    let h = new_password_hash("defaultpassword").unwrap();
    assert_ne!(h, "defaultpassword");
    assert!(h.starts_with("$argon2"));
    assert!(login("defaultpassword", &h, "secret").is_ok());
}

#[test]
fn login_then_protected_request() {
    let h = new_password_hash("pw").unwrap();
    let cookie = login("pw", &h, "secret").unwrap();
    assert!(cookie.starts_with("token="));
    let token = token_from_cookie(&cookie).unwrap();
    assert_eq!(token.split('.').count(), 3);
    assert!(admit_request(&routes(), "/epoch/update", Some(&cookie), "secret", &h));
    let header = format!("theme=dark; {}", cookie);
    assert!(admit_request(&routes(), "/groups/create", Some(&header), "secret", &h));
    // another signing secret
    assert!(!admit_request(&routes(), "/epoch/update", Some(&cookie), "other", &h));
    // the password was changed since
    let h2 = new_password_hash("pw").unwrap();
    assert!(!admit_request(&routes(), "/epoch/update", Some(&cookie), "secret", &h2));
    // no cookie, or a cookie without a valid token
    assert!(!admit_request(&routes(), "/epoch/update", None, "secret", &h));
    assert!(!admit_request(&routes(), "/epoch/update", Some("token=abc"), "secret", &h));
    // unprotected routes need nothing
    assert!(admit_request(&routes(), "/schedule", None, "secret", &h));
}

#[test]
fn login_refusals() {
    let h = new_password_hash("pw").unwrap();
    assert_eq!(login("wrong", &h, "secret"), Err(LoginError::Unauthorized));
    assert_eq!(login("pw", "not a hash", "secret"), Err(LoginError::StoredHashUnreadable));
}
