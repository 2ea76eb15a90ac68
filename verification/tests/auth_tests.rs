use passman::auth::{AuthManager, AuthSession, PasswordValidator};
use passman::PassManError;

const NOW: u64 = 1_700_000_000;

#[test]
fn test_auth_session_creation() {
    let session = AuthSession::new(15, NOW);
    assert!(session.is_valid(NOW));
    assert_eq!(session.failed_attempts, 0);
}

#[test]
fn test_auth_session_failed_attempts() {
    let mut session = AuthSession::new(15, NOW);
    session.record_failed_attempt();
    session.record_failed_attempt();
    assert_eq!(session.failed_attempts, 2);
    assert!(!session.is_locked_out(5));
    assert!(session.is_locked_out(2));
}

#[test]
fn test_password_validator() {
    let validator = PasswordValidator::default();

    // Valid password
    assert!(validator.validate("MyStr0ng!P@ssw0rd").is_ok());

    // Too short
    assert!(validator.validate("Short1!").is_err());

    // No uppercase
    assert!(validator.validate("mystr0ng!p@ssw0rd").is_err());

    // No lowercase
    assert!(validator.validate("MYSTR0NG!P@SSW0RD").is_err());

    // No numbers
    assert!(validator.validate("MyStrong!P@ssword").is_err());

    // No special characters
    assert!(validator.validate("MyStr0ngP@ssw0rd").is_err());
}

#[test]
fn validator_reports_invalid_input() {
    let validator = PasswordValidator::default();
    assert_eq!(validator.validate("x"), Err(PassManError::InvalidInput));
}

#[test]
fn session_expires_lazily() {
    let session = AuthSession::new(1, NOW);
    assert!(session.is_valid(NOW));
    assert!(session.is_valid(NOW + 59));
    assert!(!session.is_valid(NOW + 60));
}

#[test]
fn extend_recomputes_expiry_from_last_activity() {
    let mut session = AuthSession::new(1, NOW);
    session.update_activity(NOW + 30);
    session.extend_timeout(2);
    assert_eq!(session.expires_at, NOW + 30 + 120);
    // touch alone does not move the deadline
    let mut other = AuthSession::new(1, NOW);
    other.update_activity(NOW + 30);
    assert_eq!(other.expires_at, NOW + 60);
}

#[test]
fn reset_clears_counter() {
    let mut session = AuthSession::new(15, NOW);
    session.record_failed_attempt();
    session.reset_failed_attempts();
    assert_eq!(session.failed_attempts, 0);
}

#[test]
fn lockout_after_exact_threshold_blocks_correct_password() {
    // max_failed_attempts = 3; three wrong attempts; a fourth attempt with
    // the correct password still fails.
    let mut auth = AuthManager::new(3, 15);
    for _ in 0..3 {
        let r = auth.authenticate(false, NOW);
        assert!(r.is_err());
    }
    assert_eq!(auth.failed_attempts(), 3);
    assert!(auth.is_locked_out());
    let fourth = auth.authenticate(true, NOW);
    assert_eq!(fourth, Err(PassManError::AuthenticationFailed));
    assert!(!auth.is_authenticated(NOW));

    // logout resets the tracking session; afterwards the correct password
    // authenticates again.
    auth.logout();
    assert!(!auth.is_locked_out());
    let after_reset = auth.authenticate(true, NOW);
    assert_eq!(after_reset, Ok(true));
    assert!(auth.is_authenticated(NOW));
}

#[test]
fn failed_attempt_does_not_authenticate() {
    let mut auth = AuthManager::new(5, 15);
    let r = auth.authenticate(false, NOW);
    assert!(r.is_err());
    assert!(!auth.is_authenticated(NOW));
    assert_eq!(auth.failed_attempts(), 1);
}

#[test]
fn successful_authentication_resets_counter_and_expires() {
    let mut auth = AuthManager::new(5, 15);
    let _ = auth.authenticate(false, NOW);
    let r = auth.authenticate(true, NOW);
    assert_eq!(r, Ok(true));
    assert_eq!(auth.failed_attempts(), 0);
    assert!(auth.is_authenticated(NOW));
    assert!(auth.is_authenticated(NOW + 899));
    assert!(!auth.is_authenticated(NOW + 900));
    assert_eq!(auth.time_until_expiry(NOW + 880), Some(20));
    assert_eq!(auth.time_until_expiry(NOW + 900), None);
}

#[test]
fn get_crypto_is_gated() {
    let mut auth = AuthManager::new(5, 15);
    assert!(auth.get_crypto(NOW).is_err());
    let _ = auth.authenticate(true, NOW);
    assert!(auth.get_crypto(NOW).is_ok());
    auth.logout();
    assert!(auth.get_crypto(NOW).is_err());
}
