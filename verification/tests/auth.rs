use traza::auth::{constant_time_eq, AuthConfig, AuthFailure, ConfigDefect, Scope};

fn parsed(raw: &str) -> AuthConfig {
    match AuthConfig::parse(raw) {
        Ok(config) => config,
        Err(error) => panic!("{}", error.to_string()),
    }
}

fn defect(raw: &str) -> ConfigDefect {
    match AuthConfig::parse(raw) {
        Ok(_) => panic!("{raw} parsed"),
        Err(error) => error.defect,
    }
}

#[test]
fn accepts_configured_scopes() {
    let auth = parsed("ro:reader-token,rw:writer-token");
    assert_eq!(auth.authorize(Some("Bearer reader-token"), "GET"), Ok(()));
    assert_eq!(auth.authorize(Some("Bearer writer-token"), "POST"), Ok(()));
    assert_eq!(
        auth.authorize(Some("Bearer reader-token"), "POST"),
        Err(AuthFailure::Forbidden)
    );
}

#[test]
fn rejects_missing_malformed_and_unknown_credentials() {
    let auth = parsed("rw:correct-token");
    assert_eq!(auth.authorize(None, "GET"), Err(AuthFailure::Unauthorized));
    assert_eq!(
        auth.authorize(Some("correct-token"), "GET"),
        Err(AuthFailure::Unauthorized)
    );
    assert_eq!(
        auth.authorize(Some("bearer correct-token"), "GET"),
        Err(AuthFailure::Unauthorized)
    );
    assert_eq!(
        auth.authorize(Some("Bearer incorrect-token"), "GET"),
        Err(AuthFailure::Unauthorized)
    );
}

#[test]
fn configuration_errors_and_debug_do_not_disclose_tokens() {
    let secret = "do-not-print-this-secret";
    let auth = parsed(&format!("rw:{secret}"));
    assert!(!auth.redacted().contains(secret));
    assert_eq!(
        auth.redacted(),
        "AuthConfig { credential_count: 1, credentials: \"<redacted>\" }"
    );

    let error = match AuthConfig::parse(&format!("invalid:{secret}")) {
        Ok(_) => panic!("an unknown scope parsed"),
        Err(error) => error,
    };
    assert!(!error.to_string().contains(secret));
    assert!(!format!("{error:?}").contains(secret));
}

#[test]
fn rejects_invalid_configuration() {
    assert!(AuthConfig::parse("").is_err());
    assert!(AuthConfig::parse("rw:").is_err());
    assert!(AuthConfig::parse("root:token").is_err());
    assert!(AuthConfig::parse("rw:token,rw:token").is_err());
    assert!(AuthConfig::parse("rw:token with-space").is_err());
}

#[test]
fn every_defect_has_an_input() {
    assert_eq!(defect(""), ConfigDefect::Empty);
    assert_eq!(defect("rw:a,,ro:b"), ConfigDefect::InvalidEntry);
    assert_eq!(defect("rw:a, ro:b"), ConfigDefect::InvalidEntry);
    assert_eq!(defect("token"), ConfigDefect::MissingSeparator);
    assert_eq!(defect("root:token"), ConfigDefect::InvalidScope);
    assert_eq!(defect("rw:"), ConfigDefect::EmptyToken);
    assert_eq!(defect("rw:a b"), ConfigDefect::InvalidToken);
    assert_eq!(defect("rw:a,ro:a"), ConfigDefect::DuplicateToken);
    // The first defect in reading order is the one reported.
    assert_eq!(defect("root:a,token"), ConfigDefect::InvalidScope);
}

#[test]
fn erasure_is_an_admin_capability_not_a_method() {
    let auth = parsed("rw:writer-token,admin:root-token");
    assert_eq!(
        auth.scope_for(Some("Bearer root-token")),
        Ok(Scope::Admin),
        "admin parses and authenticates like any scope"
    );
    assert!(Scope::Admin.permits("POST") && Scope::Admin.permits("GET"));
    assert!(Scope::Admin.permits_erasure());
    assert!(!Scope::ReadWrite.permits_erasure());
    assert!(!Scope::ReadOnly.permits_erasure());
}

#[test]
fn constant_time_comparison_handles_different_lengths() {
    assert!(constant_time_eq(b"same", b"same"));
    assert!(!constant_time_eq(b"same", b"different"));
    assert!(!constant_time_eq(b"prefix", b"prefix-extra"));
}

#[test]
fn failures_carry_their_status_body_and_challenge() {
    assert_eq!(AuthFailure::Unauthorized.status(), 401);
    assert_eq!(AuthFailure::Forbidden.status(), 403);
    assert_eq!(
        AuthFailure::Unauthorized.body(),
        "{\"error\":\"unauthorized\"}"
    );
    assert_eq!(AuthFailure::Forbidden.body(), "{\"error\":\"forbidden\"}");
    assert_eq!(AuthFailure::Unauthorized.www_authenticate(), Some("Bearer"));
    assert_eq!(AuthFailure::Forbidden.www_authenticate(), None);
}

#[test]
fn methods_compare_without_case() {
    assert!(Scope::ReadOnly.permits("get"));
    assert!(!Scope::ReadOnly.permits("HEAD"));
    assert!(!Scope::Admin.permits("DELETE"));
}

#[test]
fn a_bearer_token_stands_alone() {
    let auth = parsed("ro:abc");
    assert_eq!(auth.scope_for(Some("Bearer abc")), Ok(Scope::ReadOnly));
    for header in ["Bearer ", "Bearer abc,abc", "Bearer abc def", "Bearer  abc"] {
        assert_eq!(
            auth.scope_for(Some(header)),
            Err(AuthFailure::Unauthorized)
        );
    }
}
