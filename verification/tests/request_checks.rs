use double_riichi_server::web::{content_type_is, json_content_type_ok};
use double_riichi_server::oauth::{form_body, MAX_OAUTH_FORM_BYTES};
use double_riichi_server::json::JsonValue;
use double_riichi_server::oauth::client_document_matches;
use double_riichi_server::oauth::oauth_redirect_target;
use double_riichi_server::agents::{due_requests, origin_allowed as compat_origin_allowed, PendingRequest};
use double_riichi_server::codec::parse_url;
use double_riichi_server::gateway::{bearer_token, is_spoofed_identity_header, origin_allowed};
use double_riichi_server::oauth::{csrf_cookie_matches, csrf_digest, new_csrf_token, strict_same_origin};
use double_riichi_server::origins::{
    canonical_origin, public_origin_allowed, same_origin, unsafe_admin_origin_allowed,
};
use double_riichi_server::web::{
    encode_ulid, generate_ulid, parse_replay_list_query, replay_page, ReplayListQuery,
};

fn public() -> double_riichi_server::codec::UrlParts {
    parse_url("https://driichi.example").unwrap()
}

fn values(v: &[&str]) -> Vec<Option<String>> {
    v.iter().map(|s| Some(s.to_string())).collect()
}

#[test]
fn same_origin_compares_scheme_host_and_effective_port() {
    let p = public();
    assert!(same_origin(&parse_url("https://driichi.example:443/path?x=1").unwrap(), &p));
    assert!(!same_origin(&parse_url("http://driichi.example").unwrap(), &p));
    assert!(!same_origin(&parse_url("https://driichi.example:8443").unwrap(), &p));
    assert!(!same_origin(&parse_url("https://user:pw@driichi.example").unwrap(), &p));
    assert!(!same_origin(&parse_url("https://other.example").unwrap(), &p));
}

#[test]
fn public_origin_needs_a_matching_origin_header() {
    let p = public();
    assert!(public_origin_allowed(Some("https://driichi.example"), &p));
    assert!(!public_origin_allowed(None, &p));
    assert!(!public_origin_allowed(Some("not a url"), &p));
    assert!(!public_origin_allowed(Some("https://evil.example"), &p));
}

#[test]
fn unsafe_admin_origin_prefers_origin_over_referer() {
    let p = public();
    assert!(unsafe_admin_origin_allowed(Some(Some("https://driichi.example")), None, &p));
    assert!(!unsafe_admin_origin_allowed(Some(None), Some("https://driichi.example/admin"), &p));
    assert!(!unsafe_admin_origin_allowed(
        Some(Some("https://evil.example")),
        Some("https://driichi.example/admin"),
        &p
    ));
    assert!(unsafe_admin_origin_allowed(None, Some("https://driichi.example/admin"), &p));
    assert!(!unsafe_admin_origin_allowed(None, None, &p));
}

#[test]
fn compat_origin_is_open_without_an_origin_header() {
    let p = public();
    assert!(compat_origin_allowed(None, &p));
    assert!(compat_origin_allowed(Some(Some("https://driichi.example")), &p));
    assert!(!compat_origin_allowed(Some(Some("https://evil.example")), &p));
    assert!(!compat_origin_allowed(Some(None), &p));
}

#[test]
fn strict_same_origin_needs_exactly_one_bare_origin() {
    let p = public();
    assert!(strict_same_origin(&values(&["https://driichi.example"]), &p));
    assert!(!strict_same_origin(&values(&[]), &p));
    assert!(!strict_same_origin(&values(&["https://driichi.example", "https://driichi.example"]), &p));
    assert!(!strict_same_origin(&values(&["https://driichi.example/path"]), &p));
    assert!(!strict_same_origin(&values(&["https://driichi.example/?q=1"]), &p));
    assert!(!strict_same_origin(&vec![None], &p));
}

#[test]
fn canonical_origin_drops_default_ports_and_paths() {
    let (text, url) = canonical_origin("https://driichi.example/").unwrap();
    assert_eq!(text, "https://driichi.example");
    assert_eq!(url.path, "/");
    let (text, _) = canonical_origin("http://localhost:3000").unwrap();
    assert_eq!(text, "http://localhost:3000");
    let (text, _) = canonical_origin("https://driichi.example:443").unwrap();
    assert_eq!(text, "https://driichi.example");
    assert!(canonical_origin("http://[::1]:3000").is_none());
    assert!(canonical_origin("mailto:someone").is_none());
    assert!(canonical_origin("nonsense").is_none());
}

#[test]
fn csrf_cookie_must_match_a_nonempty_submission() {
    assert!(csrf_cookie_matches(Some("a=b; driichi_oauth_csrf=tok"), "tok"));
    assert!(!csrf_cookie_matches(Some("driichi_oauth_csrf=tok"), "other"));
    assert!(!csrf_cookie_matches(Some("driichi_oauth_csrf="), ""));
    assert!(!csrf_cookie_matches(None, "tok"));
}

#[test]
fn csrf_digest_is_sha256_and_tokens_are_43_characters() {
    let digest = csrf_digest("abc");
    let hex: String = digest.iter().map(|b| format!("{b:02x}")).collect();
    assert_eq!(hex, "ba7816bf8f01cfea414140de5dae2223b00361a396177a9cb410ff61f20015ad");
    let token = new_csrf_token();
    assert_eq!(token.len(), 43);
    assert_ne!(token, new_csrf_token());
}

#[test]
fn bearer_token_takes_one_clean_bearer_value() {
    assert_eq!(bearer_token(&values(&["Bearer abc"])), Some("abc".to_string()));
    assert_eq!(bearer_token(&values(&["bEaReR abc"])), Some("abc".to_string()));
    assert_eq!(bearer_token(&values(&["Bearer  abc"])), None);
    assert_eq!(bearer_token(&values(&["Bearer a b"])), None);
    assert_eq!(bearer_token(&values(&["Bearer a,b"])), None);
    assert_eq!(bearer_token(&values(&["Bearer "])), None);
    assert_eq!(bearer_token(&values(&["Bearer"])), None);
    assert_eq!(bearer_token(&values(&["Basic abc"])), None);
    assert_eq!(bearer_token(&values(&["Bearer a", "Bearer b"])), None);
    assert_eq!(bearer_token(&vec![None]), None);
}

#[test]
fn gateway_origin_must_be_an_allowed_bare_origin() {
    let allowed = vec![parse_url("https://chatgpt.com/").unwrap()];
    assert!(origin_allowed(&values(&[]), &allowed));
    assert!(origin_allowed(&values(&["https://chatgpt.com"]), &allowed));
    assert!(origin_allowed(&values(&["https://chatgpt.com:443"]), &allowed));
    assert!(!origin_allowed(&values(&["https://chatgpt.com/path"]), &allowed));
    assert!(!origin_allowed(&values(&["https://other.example"]), &allowed));
    assert!(!origin_allowed(&values(&["https://chatgpt.com", "https://chatgpt.com"]), &allowed));
    assert!(!origin_allowed(&values(&["null"]), &allowed));
    assert!(!origin_allowed(&vec![None], &allowed));
    assert!(!origin_allowed(&values(&["https://chatgpt.com"]), &vec![parse_url("https://chatgpt.com/x").unwrap()]));
}

#[test]
fn identity_headers_from_clients_are_spoofed() {
    assert!(is_spoofed_identity_header("x-driichi-user"));
    assert!(is_spoofed_identity_header("x-auth-request-email"));
    assert!(is_spoofed_identity_header("x-user-id"));
    assert!(is_spoofed_identity_header("remote-user"));
    assert!(is_spoofed_identity_header("x-forwarded-email"));
    assert!(!is_spoofed_identity_header("x-forwarded-for"));
    assert!(!is_spoofed_identity_header("content-type"));
}

#[test]
fn ulids_encode_time_then_randomness() {
    assert_eq!(encode_ulid(0, 0), "00000000000000000000000000");
    assert_eq!(encode_ulid(1, 0), "00000000010000000000000000");
    assert_eq!(encode_ulid(0, u128::MAX), "0000000000ZZZZZZZZZZZZZZZZ");
    assert_eq!(encode_ulid(u128::MAX, 0), "7ZZZZZZZZZ0000000000000000");
    let id = generate_ulid();
    assert_eq!(id.len(), 26);
    assert!(id.chars().all(|c| "0123456789ABCDEFGHJKMNPQRSTVWXYZ".contains(c)));
}

#[test]
fn replay_list_query_reads_offset_and_limit_once() {
    assert_eq!(parse_replay_list_query(None), Ok(ReplayListQuery::default()));
    assert_eq!(
        parse_replay_list_query(Some("offset=5&limit=10&other=x")),
        Ok(ReplayListQuery { offset: Some(5), limit: Some(10) })
    );
    assert_eq!(
        parse_replay_list_query(Some("limit=%2B7")),
        Ok(ReplayListQuery { offset: None, limit: Some(7) })
    );
    assert_eq!(parse_replay_list_query(Some("offset=5&offset=6")), Err(()));
    assert_eq!(parse_replay_list_query(Some("limit=abc")), Err(()));
    assert_eq!(parse_replay_list_query(Some("limit=-1")), Err(()));
    assert_eq!(parse_replay_list_query(Some("offset=18446744073709551616")), Err(()));
}

#[test]
fn replay_pages_default_and_stay_in_range() {
    assert_eq!(replay_page(None), Some((0, 50)));
    assert_eq!(replay_page(Some("offset=20&limit=100")), Some((20, 100)));
    assert_eq!(replay_page(Some("limit=0")), None);
    assert_eq!(replay_page(Some("limit=101")), None);
    assert_eq!(replay_page(Some("offset=9223372036854775807")), Some((9223372036854775807, 50)));
    assert_eq!(replay_page(Some("offset=9223372036854775808")), None);
    assert_eq!(replay_page(Some("limit=5&limit=5")), None);
}

#[test]
fn unequal_per_seat_banks_only_due_the_earlier_request() {
    let opened_at = 1_000u64;
    let pending = vec![
        (0u8, PendingRequest { opened_at, deadline: opened_at + 2 }),
        (1u8, PendingRequest { opened_at, deadline: opened_at + 20 }),
    ];
    let due = due_requests(&pending, opened_at + 3);
    assert_eq!(due.len(), 1);
    assert_eq!(due[0].0, 0);
    assert_eq!(due[0].1, 3);
    assert!(pending.iter().any(|(seat, _)| *seat == 1));
}

#[test]
fn due_requests_come_in_seat_order() {
    let pending = vec![
        (3u8, PendingRequest { opened_at: 10, deadline: 15 }),
        (1u8, PendingRequest { opened_at: 12, deadline: 14 }),
        (2u8, PendingRequest { opened_at: 0, deadline: 100 }),
    ];
    assert_eq!(due_requests(&pending, 20), vec![(1, 8), (3, 10)]);
    assert_eq!(due_requests(&pending, 5), vec![]);
}

#[test]
fn media_types_compare_the_first_part_without_case() {
    assert!(json_content_type_ok(Some("application/json")));
    assert!(json_content_type_ok(Some(" Application/JSON ; charset=utf-8")));
    assert!(!json_content_type_ok(Some("text/plain")));
    assert!(!json_content_type_ok(None));
    assert!(content_type_is(Some("application/x-www-form-urlencoded"), "application/x-www-form-urlencoded"));
}

#[test]
fn oauth_form_bodies_must_be_form_encoded_and_bounded() {
    let ct = Some("application/x-www-form-urlencoded");
    let fields = form_body(ct, Some(b"csrf=abc&username=admin")).unwrap();
    assert_eq!(fields.len(), 2);
    assert_eq!(fields[0], ("csrf".to_string(), "abc".to_string()));
    assert!(form_body(Some("application/json"), Some(b"csrf=abc")).is_err());
    assert!(form_body(ct, None).is_err());
    let big = vec![b'a'; MAX_OAUTH_FORM_BYTES + 1];
    assert!(form_body(ct, Some(&big)).is_err());
}

#[test]
fn client_documents_must_list_the_exact_redirect_and_the_none_method() {
    let s = |v: &str| JsonValue::String(v.to_string());
    let doc = |redirects: Vec<&str>, methods: Vec<&str>| {
        JsonValue::Object(vec![
            ("client_id".to_string(), s("https://chatgpt.com/oauth/client.json")),
            ("redirect_uris".to_string(), JsonValue::Array(redirects.into_iter().map(s).collect())),
            (
                "token_endpoint_auth_methods_supported".to_string(),
                JsonValue::Array(methods.into_iter().map(s).collect()),
            ),
        ])
    };
    let client = "https://chatgpt.com/oauth/client.json";
    let redirect = "https://chatgpt.com/connector_platform_oauth_redirect";
    assert!(client_document_matches(&doc(vec![redirect], vec!["none"]), client, redirect));
    assert!(client_document_matches(
        &doc(vec!["https://chatgpt.com/other/callback", redirect], vec!["private_key_jwt", "none"]),
        client,
        redirect
    ));
    assert!(!client_document_matches(&doc(vec!["https://chatgpt.com/other/callback"], vec!["none"]), client, redirect));
    assert!(!client_document_matches(&doc(vec![redirect], vec!["private_key_jwt"]), client, redirect));
    assert!(!client_document_matches(&doc(vec![redirect], vec!["none"]), "https://chatgpt.com/other/client.json", redirect));
    assert!(!client_document_matches(&JsonValue::Null, client, redirect));
}

#[test]
fn oauth_redirects_carry_code_or_error_then_state_and_issuer() {
    let redirect = "https://chatgpt.com/connector_platform_oauth_redirect";
    assert_eq!(
        oauth_redirect_target(redirect, "st", Some("c1"), None, "https://driichi.example").unwrap(),
        "https://chatgpt.com/connector_platform_oauth_redirect?code=c1&state=st&iss=https%3A%2F%2Fdriichi.example"
    );
    assert_eq!(
        oauth_redirect_target(redirect, "a b", None, Some("access_denied"), "https://driichi.example").unwrap(),
        "https://chatgpt.com/connector_platform_oauth_redirect?error=access_denied&state=a+b&iss=https%3A%2F%2Fdriichi.example"
    );
    assert!(oauth_redirect_target("not a url", "st", None, None, "iss").is_none());
}

fn metadata_document(client_id: &str, redirects: Vec<&str>, methods: Vec<&str>) -> JsonValue {
    let s = |v: &str| JsonValue::String(v.to_string());
    JsonValue::Object(vec![
        ("client_id".to_string(), s(client_id)),
        ("redirect_uris".to_string(), JsonValue::Array(redirects.into_iter().map(s).collect())),
        ("token_endpoint_auth_method".to_string(), s("private_key_jwt")),
        (
            "token_endpoint_auth_methods_supported".to_string(),
            JsonValue::Array(methods.into_iter().map(s).collect()),
        ),
    ])
}

#[test]
fn validates_exact_client_redirect_and_plural_none_method() {
    let client = "https://chatgpt.com/oauth/client.json";
    let redirect = "https://chatgpt.com/connector_platform_oauth_redirect";
    let document = metadata_document(client, vec![redirect], vec!["none", "private_key_jwt"]);
    assert!(client_document_matches(&document, client, redirect));

    let wrong_client = metadata_document(
        "https://chatgpt.com/other/client.json",
        vec![redirect],
        vec!["none", "private_key_jwt"],
    );
    assert!(!client_document_matches(&wrong_client, client, redirect));

    let wrong_redirect =
        metadata_document(client, vec!["https://chatgpt.com/other/callback"], vec!["none", "private_key_jwt"]);
    assert!(!client_document_matches(&wrong_redirect, client, redirect));

    let wrong_auth = metadata_document(client, vec![redirect], vec!["private_key_jwt"]);
    assert!(!client_document_matches(&wrong_auth, client, redirect));
}
