use double_riichi_server::grants::{CodeExchange, OAuthError, RefreshExchange, RefreshFamilyRow, check_grant_scope, code_expires_at, code_redeemable, family_expires_at, grant_from_row, refresh_replay_revokes_family};
use double_riichi_server::oauth::{
    access_expires_at, authorization_fields_from_form, authorization_server_document, client_display_name,
    protected_resource_document, authorization_hidden_fields,
    authorization_request, consent_page, hash_secret, hidden_field, html_escape, new_family_id,
    new_secret, new_token_pair, parse_urlencoded_fields, redirect_is_configured, s256_challenge,
    sign_in_page, valid_code_verifier, valid_s256_challenge,
};

use double_riichi_server::json::JsonValue;

const CHALLENGE: &str = "E9Melhoa2OwvFrEMTJguCHaoeK1t8URWbuGJSstw-cM";

fn form() -> Vec<(String, String)> {
    vec![
        ("client_id", "https://chatgpt.com/oauth/client.json"),
        ("redirect_uri", "https://chatgpt.com/connector_platform_oauth_redirect"),
        ("response_type", "code"),
        ("state", "xyz"),
        ("scope", "driichi:play"),
        ("resource", "https://driichi.example/chatgpt/mcp"),
        ("code_challenge", CHALLENGE),
        ("code_challenge_method", "S256"),
    ]
    .into_iter()
    .map(|(k, v)| (k.to_owned(), v.to_owned()))
    .collect()
}

#[test]
fn html_is_escaped() {
    assert_eq!(html_escape("<a href=\"x\">&'</a>"), "&lt;a href=&quot;x&quot;&gt;&amp;&#39;&lt;/a&gt;");
    assert_eq!(hidden_field("n", "v\""), "<input type=\"hidden\" name=\"n\" value=\"v&quot;\">");
}

#[test]
fn pkce_values_are_checked() {
    assert!(valid_s256_challenge(CHALLENGE));
    assert!(!valid_s256_challenge(&CHALLENGE[..42]));
    assert!(!valid_s256_challenge(&format!("{}=", &CHALLENGE[..42])));
    assert!(valid_code_verifier("dBjftJeZ4CVP-mJ92K9aQ8F9Rj7Xp5XkJtRT4xJ3Ynn.~_"));
    assert!(!valid_code_verifier("short"));
    assert!(!valid_code_verifier(&"a".repeat(129)));
    assert_eq!(s256_challenge("dBjftJeZ4CVP-mJ92K9aQ8F9Rj7Xp5XkJtRT4xJ3Ynn.~_").len(), 43);
    assert!(valid_s256_challenge(&s256_challenge("anything")));
}

#[test]
fn authorization_requests_need_every_field() {
    let request = authorization_request(&form()).unwrap();
    assert_eq!(request.state, "xyz");
    let mut missing = form();
    missing.retain(|(k, _)| k != "resource");
    assert!(authorization_request(&missing).is_none());
    let mut unknown = form();
    unknown.push(("extra".to_owned(), "1".to_owned()));
    assert!(authorization_request(&unknown).is_none());
    let mut wrong_scope = form();
    wrong_scope[4].1 = "admin".to_owned();
    assert!(authorization_request(&wrong_scope).is_none());
    let mut locales = form();
    locales.push(("ui_locales".to_owned(), "en".to_owned()));
    assert!(authorization_request(&locales).is_some());
    let mut with_csrf = form();
    with_csrf.push(("csrf".to_owned(), "token".to_owned()));
    assert!(authorization_fields_from_form(&with_csrf, &vec!["csrf".to_owned()]).is_some());
    assert!(authorization_fields_from_form(&with_csrf, &Vec::new()).is_none());
}

#[test]
fn form_bodies_are_bounded_and_unique() {
    let fields = parse_urlencoded_fields(b"a=1&b=two+words&c=%41", 100).unwrap();
    assert_eq!(fields[1], ("b".to_owned(), "two words".to_owned()));
    assert_eq!(fields[2].1, "A");
    assert!(parse_urlencoded_fields(b"a=1&a=2", 100).is_err());
    assert!(parse_urlencoded_fields(b"=1", 100).is_err());
    assert!(parse_urlencoded_fields(b"a=1", 2).is_err());
    let long_key = format!("{}=1", "k".repeat(129));
    assert!(parse_urlencoded_fields(long_key.as_bytes(), 1000).is_err());
}

#[test]
fn redirects_go_only_to_the_configured_client() {
    let client = "https://chatgpt.com/oauth/client.json";
    let redirect = "https://chatgpt.com/connector_platform_oauth_redirect";
    assert_eq!(redirect_is_configured(&form(), client, redirect).as_deref(), Some("xyz"));
    assert_eq!(redirect_is_configured(&form(), client, "https://evil.example/"), None);
    let mut no_state = form();
    no_state[3].1 = String::new();
    assert_eq!(redirect_is_configured(&no_state, client, redirect), None);
}

#[test]
fn pages_carry_the_request_and_escape_the_client_name() {
    let request = authorization_request(&form()).unwrap();
    let hidden = authorization_hidden_fields(&request, "c<s>rf");
    assert!(hidden.starts_with("<input type=\"hidden\" name=\"csrf\" value=\"c&lt;s&gt;rf\">"));
    assert!(hidden.contains("name=\"code_challenge_method\" value=\"S256\""));
    let page = sign_in_page(&request, "<ChatGPT>", "t");
    assert!(page.contains("&lt;ChatGPT&gt; is requesting access"));
    assert!(page.ends_with("</html>"));
    let consent = consent_page(&request, "ChatGPT", "t");
    assert!(consent.contains("<code>driichi:play</code>"));
}

#[test]
fn tokens_are_random_and_bounded_by_their_family() {
    assert_eq!(access_expires_at(1000, 5000), 1600);
    assert_eq!(access_expires_at(1000, 1200), 1200);
    let pair = new_token_pair(1000, 1300);
    assert_eq!(pair.expires_in, 300);
    assert_eq!(pair.token_type, "Bearer");
    assert_eq!(pair.scope, "driichi:play");
    assert!(pair.access_token.starts_with("driichi_access_"));
    assert!(pair.refresh_token.starts_with("driichi_refresh_"));
    assert_ne!(pair.access_token, pair.refresh_token);
    assert_eq!(new_secret("code").len(), "driichi_code_".len() + 43);
    assert_eq!(new_family_id().len(), 22);
    assert_eq!(hash_secret("abc")[..4], [0xba, 0x78, 0x16, 0xbf]);
}

fn service() -> double_riichi_server::grants::OAuthService {
    double_riichi_server::grants::OAuthService::new(
        "https://chatgpt.com/oauth/client.json".to_string(),
        "https://chatgpt.com/connector_platform_oauth_redirect".to_string(),
        "https://driichi.example/chatgpt/mcp".to_string(),
    )
}

#[test]
fn code_requests_must_name_the_configured_client() {
    let s = service();
    let challenge = "E9Melhoa2OwvFrEMTJguCHaoeK1t8URWbuGJSstw-cM";
    assert_eq!(
        s.check_code_request(&s.client_id, &s.redirect_uri, &s.resource, "driichi:play", challenge),
        Ok(())
    );
    assert_eq!(
        s.check_code_request("https://chatgpt.com/other/client.json", &s.redirect_uri, &s.resource, "driichi:play", challenge),
        Err(OAuthError::InvalidGrant)
    );
    assert_eq!(
        s.check_code_request(&s.client_id, &s.redirect_uri, &s.resource, "driichi:other", challenge),
        Err(OAuthError::InvalidGrant)
    );
    assert_eq!(
        s.check_code_request(&s.client_id, &s.redirect_uri, "https://foreign.example/mcp", "driichi:play", challenge),
        Err(OAuthError::InvalidGrant)
    );
    assert_eq!(
        s.check_code_request(&s.client_id, &s.redirect_uri, &s.resource, "driichi:play", "short"),
        Err(OAuthError::InvalidGrant)
    );
    assert_eq!(OAuthError::InvalidGrant.message(), "invalid OAuth grant");
    assert_eq!(OAuthError::InsufficientScope.message(), "OAuth access token has insufficient scope");
    assert_eq!(OAuthError::Storage.message(), "OAuth storage is unavailable");
}

#[test]
fn code_exchange_checks_client_redirect_resource_and_verifier() {
    let s = service();
    let exchange = |client: &str, redirect: &str, resource: &str, verifier: &str| CodeExchange {
        client_id: client.to_string(),
        redirect_uri: redirect.to_string(),
        code: "code".to_string(),
        verifier: verifier.to_string(),
        resource: resource.to_string(),
    };
    let verifier = "dBjftJeZ4CVP-mB92K27uhbUJU1p1r_wW1gFWFOEjXk";
    assert_eq!(s.check_code_exchange(&exchange(&s.client_id, &s.redirect_uri, &s.resource, verifier)), Ok(()));
    assert_eq!(
        s.check_code_exchange(&exchange(&s.client_id, "https://chatgpt.com/other/callback", &s.resource, verifier)),
        Err(OAuthError::InvalidGrant)
    );
    assert_eq!(
        s.check_code_exchange(&exchange(&s.client_id, &s.redirect_uri, &s.resource, "too-short")),
        Err(OAuthError::InvalidGrant)
    );
    assert!(code_redeemable("driichi:play", "E9Melhoa2OwvFrEMTJguCHaoeK1t8URWbuGJSstw-cM", verifier));
    assert!(!code_redeemable(
        "driichi:play",
        "E9Melhoa2OwvFrEMTJguCHaoeK1t8URWbuGJSstw-cM",
        "another-verifier-with-more-than-43-characters"
    ));
    assert!(!code_redeemable("driichi:other", "E9Melhoa2OwvFrEMTJguCHaoeK1t8URWbuGJSstw-cM", verifier));
    assert_eq!(code_expires_at(1_000), 1_300);
}

#[test]
fn refresh_replay_revokes_only_a_matching_consumed_family() {
    let s = service();
    let exchange = RefreshExchange {
        client_id: s.client_id.clone(),
        refresh_token: "refresh".to_string(),
        resource: s.resource.clone(),
    };
    assert_eq!(s.check_refresh(&exchange), Ok(()));
    let row = |consumed: Option<i64>, client: &str| RefreshFamilyRow {
        family_id: "family".to_string(),
        client_id: client.to_string(),
        resource: s.resource.clone(),
        scope: "driichi:play".to_string(),
        expires_at: 100,
        revoked_at: None,
        consumed_at: consumed,
        token_expires_at: 100,
    };
    assert!(refresh_replay_revokes_family(&row(Some(5), &s.client_id), &exchange));
    assert!(!refresh_replay_revokes_family(&row(None, &s.client_id), &exchange));
    assert!(!refresh_replay_revokes_family(&row(Some(5), "https://chatgpt.com/other/client.json"), &exchange));
    assert_eq!(family_expires_at(0), 30 * 24 * 60 * 60);
}

#[test]
fn access_grants_need_the_one_scope() {
    let s = service();
    assert_eq!(s.check_access_resource(&s.resource), Ok(()));
    assert_eq!(s.check_access_resource("https://foreign.example/mcp"), Err(OAuthError::InvalidGrant));
    let grant = grant_from_row(
        s.client_id.clone(),
        "admin".to_string(),
        s.resource.clone(),
        "driichi:play".to_string(),
        "driichi:play",
    )
    .unwrap();
    assert!(grant_from_row("c".into(), "admin".into(), "r".into(), "driichi:play".into(), "other").is_err());
    let granted = check_grant_scope("driichi:play", grant).unwrap();
    assert_eq!(granted.subject, "admin");
    let grant = grant_from_row("c".into(), "admin".into(), "r".into(), "driichi:play".into(), "driichi:play").unwrap();
    assert_eq!(check_grant_scope("driichi:other", grant).unwrap_err(), OAuthError::InsufficientScope);
}

fn client_document(name: Option<JsonValue>) -> JsonValue {
    let mut entries = vec![("client_id".to_string(), JsonValue::String("https://chatgpt.com/oauth/client.json".to_string()))];
    if let Some(value) = name {
        entries.push(("client_name".to_string(), value));
    }
    JsonValue::Object(entries)
}

#[test]
fn client_display_name_falls_back_and_strips_controls() {
    assert_eq!(client_display_name(&client_document(Some(JsonValue::String("My Client".to_string())))), "My Client");
    assert_eq!(client_display_name(&client_document(None)), "ChatGPT");
    assert_eq!(client_display_name(&client_document(Some(JsonValue::String("   ".to_string())))), "ChatGPT");
    assert_eq!(client_display_name(&client_document(Some(JsonValue::Bool(true)))), "ChatGPT");
    assert_eq!(client_display_name(&JsonValue::Null), "ChatGPT");
    let bell: String = ['A', char::from(7u8), 'B', char::from(10u8), 'C'].iter().collect();
    assert_eq!(client_display_name(&client_document(Some(JsonValue::String(bell)))), "ABC");
    let long: String = std::iter::repeat('x').take(130).collect();
    assert_eq!(client_display_name(&client_document(Some(JsonValue::String(long)))).chars().count(), 120);
}

fn field<'a>(doc: &'a JsonValue, key: &str) -> &'a JsonValue {
    match doc {
        JsonValue::Object(entries) => &entries.iter().find(|(k, _)| k == key).expect("field").1,
        _ => panic!("not an object"),
    }
}

fn text_of(v: &JsonValue) -> &str {
    match v {
        JsonValue::String(s) => s.as_str(),
        _ => panic!("not a string"),
    }
}

fn first_text(v: &JsonValue) -> &str {
    match v {
        JsonValue::Array(items) => text_of(&items[0]),
        _ => panic!("not an array"),
    }
}

#[test]
fn metadata_documents_name_the_issuer_and_resource() {
    let issuer = "https://driichi.example";
    let resource = "https://driichi.example/chatgpt/mcp";
    let protected = protected_resource_document(resource, issuer);
    assert_eq!(text_of(field(&protected, "resource")), resource);
    assert_eq!(first_text(field(&protected, "authorization_servers")), issuer);
    assert_eq!(first_text(field(&protected, "bearer_methods_supported")), "header");
    assert_eq!(first_text(field(&protected, "scopes_supported")), "driichi:play");

    let server = authorization_server_document(issuer);
    assert_eq!(text_of(field(&server, "issuer")), issuer);
    assert_eq!(
        text_of(field(&server, "authorization_endpoint")),
        "https://driichi.example/api/v1/admin/oauth/authorize"
    );
    assert_eq!(text_of(field(&server, "token_endpoint")), "https://driichi.example/oauth/token");
    assert_eq!(first_text(field(&server, "code_challenge_methods_supported")), "S256");
    assert_eq!(first_text(field(&server, "token_endpoint_auth_methods_supported")), "none");
    assert!(matches!(field(&server, "client_id_metadata_document_supported"), JsonValue::Bool(true)));
    assert!(matches!(field(&server, "authorization_response_iss_parameter_supported"), JsonValue::Bool(true)));
    match field(&server, "grant_types_supported") {
        JsonValue::Array(items) => {
            assert_eq!(items.len(), 2);
            assert_eq!(text_of(&items[1]), "refresh_token");
        }
        _ => panic!("not an array"),
    }
}
