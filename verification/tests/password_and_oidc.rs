//! Passwords, tokens, identifiers and the OpenID Connect steps.

use base64::Engine;
use applymonitor::oidc::{id_token_payload, IDTokenClaims, OIDCProvider, OidcError};
use applymonitor::password::{
    format_uuid_v4, generate_secure_token, generate_uuid, hash_password, hash_password_with_salt,
    hash_token_for_lookup, needs_rehash, token_text, verify_password, PasswordError,
};

fn provider(endpoint: &str) -> OIDCProvider {
    OIDCProvider {
        issuer: "https://issuer.example.com".to_string(),
        authorization_endpoint: endpoint.to_string(),
        token_endpoint: "https://issuer.example.com/token".to_string(),
        client_id: "cid".to_string(),
        client_secret: "sec".to_string(),
    }
}

fn claims() -> IDTokenClaims {
    IDTokenClaims {
        sub: "123".to_string(),
        email: Some("u@x.com".to_string()),
        name: None,
        picture: None,
        iss: "https://issuer.example.com".to_string(),
        aud: "cid".to_string(),
        exp: 2000,
        nonce: Some("n1".to_string()),
    }
}

fn is_uuid_v4(u: &str) -> bool {
    let c: Vec<char> = u.chars().collect();
    c.len() == 36
        && c.iter().enumerate().all(|(i, ch)| {
            if i == 8 || i == 13 || i == 18 || i == 23 {
                *ch == '-'
            } else {
                ch.is_ascii_digit() || ('a'..='f').contains(ch)
            }
        })
        && c[14] == '4'
        && "89ab".contains(c[19])
}

#[test]
fn format_uuid_v4_sets_version_and_variant() {
    let bytes: Vec<u8> = (0u8..16).collect();
    assert_eq!(format_uuid_v4(&bytes), "00010203-0405-4607-8809-0a0b0c0d0e0f");
    let ff = vec![0xffu8; 16];
    assert_eq!(format_uuid_v4(&ff), "ffffffff-ffff-4fff-bfff-ffffffffffff");
}

#[test]
fn generated_uuids_have_version_four_shape() {
    let a = generate_uuid().unwrap();
    let b = generate_uuid().unwrap();
    assert!(is_uuid_v4(&a), "{}", a);
    assert!(is_uuid_v4(&b), "{}", b);
    assert_ne!(a, b);
}

#[test]
fn secure_tokens_are_43_url_safe_characters() {
    let t = generate_secure_token().unwrap();
    assert_eq!(t.chars().count(), 43);
    assert!(t.chars().all(|c| c.is_ascii_alphanumeric() || c == '-' || c == '_'));
}

#[test]
fn token_lookup_form_is_unpadded_url_safe_base64() {
    assert_eq!(hash_token_for_lookup("abc"), "YWJj");
    assert_eq!(hash_token_for_lookup("hello"), "aGVsbG8");
    assert_eq!(hash_token_for_lookup(""), "");
    assert_eq!(hash_token_for_lookup("\u{ff}\u{fe}"), "w7_Dvg");
}

#[test]
fn hashed_password_verifies() {
    let h = hash_password("correct horse").unwrap();
    assert!(h.starts_with("$argon2id$"));
    assert_eq!(verify_password("correct horse", &h), Ok(true));
}

#[test]
fn hashed_password_rejects_other_password() {
    let h = hash_password("correct horse").unwrap();
    assert_eq!(verify_password("wrong horse", &h), Ok(false));
}

#[test]
fn verify_password_refuses_malformed_hash() {
    assert!(matches!(verify_password("pw", "not a hash"), Err(PasswordError::InvalidHash(_))));
}

#[test]
fn no_hash_needs_rehash() {
    assert!(!needs_rehash("$argon2id$v=19$m=19456,t=2,p=1$c2FsdA$aGFzaA"));
    assert!(!needs_rehash(""));
}

#[test]
fn authorization_url_carries_the_request() {
    let p = provider("https://accounts.example.com/o/oauth2/auth");
    let url = p.try_build_authorization_url("https://app.example.com/cb", "st", "nn").unwrap();
    assert_eq!(
        url,
        "https://accounts.example.com/o/oauth2/auth?response_type=code&client_id=cid&redirect_uri=https%3A%2F%2Fapp.example.com%2Fcb&scope=openid+email+profile&state=st&nonce=nn"
    );
    assert_eq!(p.build_authorization_url("https://app.example.com/cb", "st", "nn"), url);
}

#[test]
fn authorization_url_needs_valid_endpoint() {
    assert_eq!(provider("not a url").try_build_authorization_url("r", "s", "n"), None);
}

#[test]
fn authorization_query_pairs_in_order() {
    let q = provider("https://a.example.com").authorization_query("r", "s", "n");
    let keys: Vec<&str> = q.iter().map(|(k, _)| k.as_str()).collect();
    assert_eq!(keys, vec!["response_type", "client_id", "redirect_uri", "scope", "state", "nonce"]);
    assert_eq!(q[3].1, "openid email profile");
}

#[test]
fn token_request_body_is_form_encoded() {
    let body = provider("https://a.example.com").token_request_body("a b/c", "https://app/cb");
    assert_eq!(
        body,
        "grant_type=authorization_code&code=a+b%2Fc&redirect_uri=https%3A%2F%2Fapp%2Fcb&client_id=cid&client_secret=sec"
    );
}

#[test]
fn id_token_payload_decodes_middle_part() {
    assert_eq!(id_token_payload("h.eyJhIjoxfQ.s"), Ok(b"{\"a\":1}".to_vec()));
}

#[test]
fn id_token_payload_errors() {
    assert_eq!(id_token_payload("only.two"), Err(OidcError::InvalidTokenFormat));
    assert_eq!(id_token_payload("a.b.c.d"), Err(OidcError::InvalidTokenFormat));
    assert!(matches!(id_token_payload("a.!!!.c"), Err(OidcError::PayloadDecode(_))));
    assert!(matches!(id_token_payload("a.eyJhIjoxfQ==.c"), Err(OidcError::PayloadDecode(_))));
}

#[test]
fn valid_claims_pass() {
    let p = provider("https://a.example.com");
    assert_eq!(p.check_id_token_claims(&claims(), 1000, "n1"), Ok(()));
    assert_eq!(p.check_id_token_claims(&claims(), 2000, "n1"), Ok(()));
}

#[test]
fn claims_checked_in_order() {
    let p = provider("https://a.example.com");
    let mut c = claims();
    c.iss = "https://evil.example.com".to_string();
    c.aud = "other".to_string();
    assert_eq!(
        p.check_id_token_claims(&c, 1000, "n1"),
        Err(OidcError::InvalidIssuer {
            expected: "https://issuer.example.com".to_string(),
            got: "https://evil.example.com".to_string(),
        })
    );
    let mut c = claims();
    c.aud = "other".to_string();
    assert_eq!(
        p.check_id_token_claims(&c, 1000, "n1"),
        Err(OidcError::InvalidAudience { expected: "cid".to_string(), got: "other".to_string() })
    );
    assert_eq!(p.check_id_token_claims(&claims(), 2001, "n1"), Err(OidcError::Expired));
    assert_eq!(p.check_id_token_claims(&claims(), 1000, "n2"), Err(OidcError::InvalidNonce));
    let mut c = claims();
    c.nonce = None;
    assert_eq!(p.check_id_token_claims(&c, 1000, "n1"), Err(OidcError::MissingNonce));
}

#[test]
fn token_text_of_bytes() {
    assert_eq!(token_text(&vec![0xff, 0xfe, 0xfd]), "__79");
    assert_eq!(token_text(&vec![0u8; 32]), "AAAAAAAAAAAAAAAAAAAAAAAAAAAAAAAAAAAAAAAAAAA");
    assert_eq!(token_text(&Vec::new()), "");
}

#[test]
fn salted_hash_is_fixed_by_its_salt() {
    let salt: Vec<u8> = (1u8..=16).collect();
    let a = hash_password_with_salt("pw", &salt).unwrap();
    let b = hash_password_with_salt("pw", &salt).unwrap();
    assert_eq!(a, b);
    assert!(a.starts_with("$argon2id$v=19$m=19456,t=2,p=1$AQIDBAUGBwgJCgsMDQ4PEA$"));
    assert_eq!(verify_password("pw", &a), Ok(true));
}

#[test]
fn lookup_keys_decode_back_and_differ() {
    let engine = base64::engine::general_purpose::URL_SAFE_NO_PAD;
    for t in ["abc", "hello", "", "tok\u{e9}n-1"] {
        let key = hash_token_for_lookup(t);
        assert_eq!(engine.decode(&key).unwrap(), t.as_bytes());
        assert!(key.chars().all(|c| c.is_ascii_alphanumeric() || c == '-' || c == '_'));
    }
    assert_ne!(hash_token_for_lookup("abc"), hash_token_for_lookup("abd"));
}

#[test]
fn hashes_are_argon2id() {
    let h = hash_password("pw").unwrap();
    assert!(h.starts_with("$argon2id$"));
}
