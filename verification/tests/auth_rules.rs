use double_riichi_server::auth::audit::{
    contains_forbidden_key, contains_raw_token, is_token_character, redact_audit_target_id,
    string_contains_raw_token, validate_audit_summary,
};
use double_riichi_server::auth::password::{
    hash_password, hash_password_for_cli, is_required_password_hash, validate_password,
    verify_password, PasswordError, SecretsError,
};
use double_riichi_server::auth::secrets::{parse_env_value, AdminSecrets};
use double_riichi_server::auth::session::{
    AdminAuthenticator, AdminSessionStore, CredentialError, SESSION_LIFETIME_SECONDS,
};
use double_riichi_server::auth::tokens::{
    create_bot_token, hash_token, normalize_token_name, BotTokenAuthority, BotTokenRecord,
    RevokeOutcome, TokenState,
};
use double_riichi_server::json::JsonValue;

const RAW: &str = "driichi_AAAAAAAAAAAAAAAAAAAAAAAAAAAAAAAAAAAAAAAAAAA";

#[test]
fn password_length_is_counted_in_bytes() {
    assert_eq!(validate_password("short"), Err(PasswordError::InvalidLength));
    assert_eq!(validate_password("exactly12chr"), Ok(()));
    assert_eq!(validate_password(&"é".repeat(6)), Ok(()));
    assert_eq!(validate_password(&"x".repeat(1025)), Err(PasswordError::InvalidLength));
}

#[test]
fn hashed_password_verifies_and_has_the_required_parameters() {
    let hash = hash_password("correct horse battery").unwrap();
    assert!(hash.starts_with("$argon2id$v=19$m=65536,t=3,p=1$"));
    assert!(is_required_password_hash(&hash));
    assert_eq!(verify_password("correct horse battery", &hash), Ok(true));
    assert_eq!(verify_password("x", "not a hash"), Err(PasswordError::InvalidHash));
}

#[test]
fn hashed_password_refuses_another_password() {
    let hash = hash_password("correct horse battery").unwrap();
    assert_eq!(verify_password("wrong horse battery", &hash), Ok(false));
}

#[test]
fn cli_hashing_requires_matching_confirmation() {
    assert_eq!(hash_password_for_cli("correct horse battery", "different horse"), Ok(None));
    assert_eq!(hash_password_for_cli("short", "short"), Err(PasswordError::InvalidLength));
}

#[test]
fn env_values_are_unquoted() {
    assert_eq!(parse_env_value("plain").unwrap(), "plain");
    assert_eq!(parse_env_value("\"a b\"").unwrap(), "a b");
    assert_eq!(parse_env_value("has space"), Err(SecretsError::Syntax));
    assert_eq!(parse_env_value("\"unterminated"), Err(SecretsError::Syntax));
    assert_eq!(parse_env_value("").unwrap(), "");
}

#[test]
fn admin_secrets_read_both_keys_once() {
    let hash = hash_password("correct horse battery").unwrap();
    let text = format!("# admin\nADMIN_USERNAME=admin\n\nADMIN_PASSWORD_HASH=\"{hash}\"\n");
    let secrets = AdminSecrets::parse(&text).unwrap().unwrap();
    assert_eq!(secrets.username(), "admin");
    assert_eq!(secrets.password_hash(), hash);
    assert_eq!(
        AdminSecrets::parse("ADMIN_USERNAME=admin\nADMIN_PASSWORD_HASH=plain\n").unwrap().err(),
        Some(SecretsError::InvalidPasswordHash)
    );
    assert_eq!(
        AdminSecrets::parse("ADMIN_USERNAME=a\nADMIN_USERNAME=b\n").unwrap().err(),
        Some(SecretsError::Key)
    );
    assert_eq!(AdminSecrets::parse("OTHER=1\n").unwrap().err(), Some(SecretsError::Key));
    assert_eq!(AdminSecrets::parse("no equals sign\n").unwrap().err(), Some(SecretsError::Syntax));
    assert_eq!(AdminSecrets::parse("ADMIN_USERNAME=a\n").unwrap().err(), Some(SecretsError::Missing));
}

#[test]
fn sessions_expire_and_can_be_revoked() {
    let mut store = AdminSessionStore::new();
    let session = store.issue(1000);
    assert_eq!(session.expires_at(), 1000 + SESSION_LIFETIME_SECONDS);
    let credential = session.credential().as_bytes().to_vec();
    assert!(store.validate(&credential, 1001));
    assert_eq!(store.len(), 1);
    store.revoke(&credential);
    assert!(!store.validate(&credential, 1002));
    let other = store.issue(10);
    let other_credential = other.credential().as_bytes().to_vec();
    assert!(!store.validate(&other_credential, 10 + SESSION_LIFETIME_SECONDS));
    assert_eq!(store.len(), 0);
    store.issue(5);
    store.clear();
    assert_eq!(store.len(), 0);
}

#[test]
fn login_refuses_another_username() {
    let hash = hash_password("correct horse battery").unwrap();
    let mut admin = AdminAuthenticator::new("admin", &hash).unwrap();
    assert_eq!(
        admin.login("root", "correct horse battery", 50).err(),
        Some(CredentialError::InvalidCredentials)
    );
}

#[test]
fn login_refuses_a_wrong_password() {
    let hash = hash_password("correct horse battery").unwrap();
    let mut admin = AdminAuthenticator::new("admin", &hash).unwrap();
    assert_eq!(
        admin.login("admin", "wrong horse battery", 50).err(),
        Some(CredentialError::InvalidCredentials)
    );
}

#[test]
fn login_needs_the_configured_username_and_password() {
    let hash = hash_password("correct horse battery").unwrap();
    let mut admin = AdminAuthenticator::new("admin", &hash).unwrap();
    let session = admin.login("admin", "correct horse battery", 50).unwrap();
    let credential = session.credential().as_bytes().to_vec();
    assert!(admin.validate_session(&credential, 60));
    admin.revoke_session(&credential);
    assert!(!admin.validate_session(&credential, 61));
    assert!(AdminAuthenticator::new("admin", "plain text").is_err());
}

#[test]
fn token_names_are_trimmed_and_bounded() {
    assert_eq!(normalize_token_name("  bot one ").unwrap(), "bot one");
    assert_eq!(normalize_token_name("   "), Err(CredentialError::InvalidTokenName));
    assert_eq!(normalize_token_name(&"n".repeat(65)), Err(CredentialError::InvalidTokenName));
    assert_eq!(normalize_token_name("bad\x07"), Err(CredentialError::InvalidTokenName));
}

#[test]
fn created_tokens_authenticate_until_revoked() {
    let created = create_bot_token(" my bot ", 100).unwrap();
    let raw = created.secret().expose().to_owned();
    assert!(raw.starts_with("driichi_"));
    assert_eq!(raw.len(), 51);
    assert!(string_contains_raw_token(&raw));
    assert_eq!(created.record().name(), "my bot");
    assert_eq!(created.record().state(), TokenState::Active);
    assert!(created.record().token_id().starts_with("tok_"));
    assert_eq!(created.record().token_hash(), &hash_token(&raw));

    let token_id = created.record().token_id().to_owned();
    let mut authority = BotTokenAuthority::empty();
    authority.insert_active(created.record().clone());
    assert!(authority.authenticate(&raw).is_ok());
    assert_eq!(
        authority.authenticate("driichi_wrong").err(),
        Some(CredentialError::InvalidCredentials)
    );
    let revoked = authority.revoke(&token_id, 200).unwrap();
    assert_eq!(revoked.token_id(), token_id);
    assert_eq!(revoked.state(), TokenState::Revoked);
    assert!(authority.authenticate(&raw).is_err());
    assert_eq!(authority.revoked_token_ids(), vec![token_id.clone()]);
    assert_eq!(authority.revoke(&token_id, 300).err(), Some(CredentialError::AlreadyRevoked));
    assert_eq!(authority.revoke("tok_missing", 300).err(), Some(CredentialError::InvalidCredentials));
}

#[test]
fn store_outcomes_are_mirrored_by_the_authority() {
    let record = BotTokenRecord::new(
        "tok_a".to_owned(),
        "a".to_owned(),
        hash_token("driichi_a"),
        TokenState::Active,
        1,
        None,
    );
    let mut authority = BotTokenAuthority::from_records(vec![record]);
    let done = authority
        .complete_revoke(&RevokeOutcome::Revoked { name: "a".to_owned() }, "tok_a", 9)
        .unwrap();
    assert_eq!(done.state(), TokenState::Revoked);
    assert_eq!(
        authority.complete_revoke(&RevokeOutcome::AlreadyRevoked, "tok_a", 9).err(),
        Some(CredentialError::AlreadyRevoked)
    );
}

#[test]
fn raw_tokens_are_found_anywhere_in_text() {
    assert!(is_token_character(&b'a'));
    assert!(is_token_character(&b'-'));
    assert!(!is_token_character(&b'.'));
    assert!(string_contains_raw_token(&format!("prefix {RAW} suffix")));
    assert!(!string_contains_raw_token("driichi_short"));
    assert_eq!(redact_audit_target_id(RAW), "[REDACTED]");
    assert_eq!(redact_audit_target_id("tok_123"), "tok_123");
}

#[test]
fn audit_summaries_refuse_secrets() {
    let with_password = JsonValue::Object(vec![(
        "Password".to_owned(),
        JsonValue::String("x".to_owned()),
    )]);
    assert!(contains_forbidden_key(&with_password));
    let nested_token = JsonValue::Array(vec![JsonValue::String(RAW.to_owned())]);
    assert!(contains_raw_token(&nested_token));
    let plain = JsonValue::Object(vec![("name".to_owned(), JsonValue::String("bot".to_owned()))]);
    assert!(!contains_forbidden_key(&plain));
    assert!(!contains_raw_token(&plain));
    assert!(!validate_audit_summary("token_revoke", &with_password));
    let revoke = JsonValue::Object(vec![
        ("name".to_owned(), JsonValue::String("bot".to_owned())),
        ("token_id".to_owned(), JsonValue::String("tok_1".to_owned())),
    ]);
    assert!(validate_audit_summary("token_revoke", &revoke));
    assert!(validate_audit_summary("login", &JsonValue::Object(Vec::new())));
    assert!(!validate_audit_summary("unknown_action", &JsonValue::Object(Vec::new())));
}

#[test]
fn admin_secrets_stop_where_a_quoted_value_starts_with_a_wide_character() {
    assert!(AdminSecrets::parse("ADMIN_USERNAME='éx'\n").is_none());
    assert_eq!(
        AdminSecrets::parse("OTHER=1\nADMIN_USERNAME='éx'\n").unwrap().err(),
        Some(SecretsError::Key)
    );
    assert_eq!(AdminSecrets::parse("ADMIN_USERNAME='ab'\n").unwrap().err(), Some(SecretsError::Missing));
}
