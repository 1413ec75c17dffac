use control_cards::auth::{generate_token, hash_password, verify_password, verify_token};
use control_cards::errors::ErrorKind;
use control_cards::models::{User, UserRole};

#[test]
fn hash_then_verify_accepts_the_password() {
    let hash = hash_password("secret123").unwrap();
    assert!(verify_password("secret123", &hash).unwrap());
}

#[test]
fn verify_rejects_a_wrong_password() {
    let hash = hash_password("secret123").unwrap();
    assert!(!verify_password("secret124", &hash).unwrap());
}

#[test]
fn short_password_is_rejected_before_hashing() {
    let err = hash_password("five5").unwrap_err();
    assert_eq!(err.kind, ErrorKind::Validation);
    assert!(hash_password("six666").is_ok());
}

#[test]
fn verify_on_a_malformed_hash_is_an_error_not_a_mismatch() {
    let err = verify_password("secret123", "not-a-bcrypt-hash").unwrap_err();
    assert_eq!(err.kind, ErrorKind::Internal);
}

#[test]
fn token_round_trip_keeps_subject_and_role() {
    let token = generate_token(42, "controller").unwrap();
    let claims = verify_token(&token).unwrap();
    assert_eq!(claims.sub, 42);
    assert_eq!(claims.role, "controller");
}

#[test]
fn tampered_token_is_rejected() {
    let token = generate_token(7, "admin").unwrap();
    let mut forged = token.clone();
    forged.push('x');
    let err = verify_token(&forged).unwrap_err();
    assert_eq!(err.kind, ErrorKind::Authentication);
}

#[test]
fn expired_token_is_rejected() {
    // A token signed with the fixed secret but whose expiry is long past.
    let mut claims = serde_json::Map::new();
    claims.insert("sub".to_string(), serde_json::Value::from(1i64));
    claims.insert("role".to_string(), serde_json::Value::from("admin"));
    claims.insert("exp".to_string(), serde_json::Value::from(1000u64));
    let key = jsonwebtoken::EncodingKey::from_secret(
        "your-secret-key-change-in-production".as_ref(),
    );
    let token = jsonwebtoken::encode(
        &jsonwebtoken::Header::default(),
        &serde_json::Value::Object(claims),
        &key,
    )
    .unwrap();
    let err = verify_token(&token).unwrap_err();
    assert_eq!(err.kind, ErrorKind::Authentication);
}

#[test]
fn claims_expire_exactly_a_day_after_issuance() {
    let claims = control_cards::auth::build_claims(9, "user", 1_000_000);
    assert_eq!(claims.sub, 9);
    assert_eq!(claims.role, "user");
    assert_eq!(claims.exp, 1_000_000 + 86_400);
}

#[test]
fn role_text_round_trips() {
    assert_eq!(UserRole::from_str("admin"), Some(UserRole::Admin));
    assert_eq!(UserRole::from_str("user"), Some(UserRole::User));
    assert_eq!(UserRole::from_str("controller"), Some(UserRole::Controller));
    assert_eq!(UserRole::from_str("root"), None);
    assert_eq!(UserRole::from_str(""), None);
    assert_eq!(UserRole::Admin.as_str(), "admin");
    assert_eq!(UserRole::User.as_str(), "user");
    assert_eq!(UserRole::Controller.as_str(), "controller");
    assert_eq!(UserRole::from_str(UserRole::Controller.as_str()), Some(UserRole::Controller));
}

#[test]
fn user_role_enum_parses_the_stored_role() {
    let user = User {
        id: 1,
        username: "ada".to_string(),
        password_hash: "h".to_string(),
        role: "user".to_string(),
        created_at: "2024-01-01 00:00:00".to_string(),
    };
    assert_eq!(user.role_enum(), Some(UserRole::User));
    let odd = User { role: "wizard".to_string(), ..user };
    assert_eq!(odd.role_enum(), None);
}
