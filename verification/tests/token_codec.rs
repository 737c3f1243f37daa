use authcore::claims::Claims;
use authcore::role::Role;
use authcore::token::{issue, open_at, TokenError};

fn secret() -> Vec<u8> {
    b"another-signing-secret".to_vec()
}

fn claims(exp: u64) -> Claims {
    Claims {
        sub: String::from("11111111-2222-3333-4444-555555555555"),
        email: String::from("user@example.com"),
        role: Role::Teacher,
        exp,
    }
}

#[test]
fn open_returns_issued_claims_before_expiry() {
    let s = secret();
    let c = claims(2_000_000_000);
    let token = issue(&c, &s).expect("well-formed claims mint");
    let opened = open_at(&token, &s, 1_000_000_000).expect("valid and unexpired");
    assert_eq!(opened, c);
}

#[test]
fn open_rejects_expired_token_with_valid_signature() {
    let s = secret();
    let c = claims(1_000);
    let token = issue(&c, &s).expect("well-formed claims mint");
    assert_eq!(open_at(&token, &s, 1_000).unwrap_err(), TokenError::Expired);
    assert_eq!(open_at(&token, &s, 5_000).unwrap_err(), TokenError::Expired);
    // just before the expiry it still opens
    assert!(open_at(&token, &s, 999).is_ok());
}

#[test]
fn open_rejects_any_single_byte_change_in_signature() {
    let s = secret();
    let c = claims(2_000_000_000);
    let token = issue(&c, &s).expect("well-formed claims mint");
    let bytes = token.as_bytes();
    let sig_start = token.rfind('.').unwrap() + 1;
    for i in sig_start..bytes.len() {
        let mut altered = bytes.to_vec();
        altered[i] = if altered[i] == b'A' { b'B' } else { b'A' };
        let altered = String::from_utf8(altered).unwrap();
        assert!(open_at(&altered, &s, 1_000_000_000).is_err(), "altered byte {} accepted", i);
    }
}

#[test]
fn open_rejects_wrong_secret_and_malformed_tokens() {
    let s = secret();
    let c = claims(2_000_000_000);
    let token = issue(&c, &s).expect("well-formed claims mint");
    let other = b"a-different-secret".to_vec();
    assert!(open_at(&token, &other, 1_000_000_000).is_err());
    assert!(open_at("", &s, 0).is_err());
    assert!(open_at("not.a.token", &s, 0).is_err());
    assert!(open_at(&token[..token.len() - 1], &s, 1_000_000_000).is_err());
}

#[test]
fn issue_rejects_claim_strings_that_cannot_stand_in_a_body() {
    let s = secret();
    let mut c = claims(2_000_000_000);
    c.email = String::from("quote\"inside@example.com");
    assert!(issue(&c, &s).is_none());
}

#[test]
fn minted_token_accepted_by_jsonwebtoken() {
    let s = secret();
    let c = claims(4_000_000_000);
    let token = issue(&c, &s).expect("well-formed claims mint");
    let key = jsonwebtoken::DecodingKey::from_secret(&s);
    let mut validation = jsonwebtoken::Validation::new(jsonwebtoken::Algorithm::HS256);
    validation.required_spec_claims.clear();
    let data = jsonwebtoken::decode::<serde_json::Value>(&token, &key, &validation)
        .expect("jsonwebtoken accepts the minted token");
    assert_eq!(data.claims.get("sub").unwrap().as_str().unwrap(), c.sub);
    assert_eq!(data.claims.get("email").unwrap().as_str().unwrap(), c.email);
    assert_eq!(data.claims.get("role").unwrap().as_str().unwrap(), "teacher");
    assert_eq!(data.claims.get("exp").unwrap().as_u64().unwrap(), 4_000_000_000);
}

#[test]
fn password_hash_round_trip() {
    let digest = authcore::hasher::hash_password("correct horse battery").expect("hashing works");
    assert_eq!(digest.len(), 60);
    assert_ne!(digest, "correct horse battery");
    assert!(authcore::hasher::verify_password("correct horse battery", &digest));
    assert!(!authcore::hasher::verify_password("correct horse battery!", &digest));
    assert!(!authcore::hasher::verify_password("wrong password", &digest));
    // a structurally invalid digest verifies false rather than raising
    assert!(!authcore::hasher::verify_password("anything", "not-a-digest"));
}

#[test]
fn base64url_round_trip_all_tail_shapes() {
    for input in [&b""[..], b"f", b"fo", b"foo", b"foob", b"fooba", b"foobar"] {
        let encoded = authcore::b64::encode(input);
        let decoded = authcore::b64::decode(&encoded).expect("own encoding decodes");
        assert_eq!(decoded, input.to_vec());
    }
    assert_eq!(authcore::b64::encode(b"foobar"), b"Zm9vYmFy".to_vec());
    assert_eq!(authcore::b64::encode(b"fo"), b"Zm8".to_vec());
    // strict decoding: padding and nonzero trailing bits are refused
    assert!(authcore::b64::decode(b"Zm8=").is_none());
    assert!(authcore::b64::decode(b"Zm9").is_none());
    assert!(authcore::b64::decode(b"Z").is_none());
}

#[test]
fn decimal_fields_are_canonical() {
    assert_eq!(authcore::json::format_u64(0), b"0".to_vec());
    assert_eq!(authcore::json::format_u64(1700000000), b"1700000000".to_vec());
    assert_eq!(authcore::json::parse_u64(b"1700000000"), Some(1700000000));
    assert_eq!(authcore::json::parse_u64(b"01"), None);
    assert_eq!(authcore::json::parse_u64(b""), None);
    assert_eq!(authcore::json::parse_u64(b"12a"), None);
    assert_eq!(authcore::json::parse_u64(b"18446744073709551615"), Some(u64::MAX));
    assert_eq!(authcore::json::parse_u64(b"18446744073709551616"), None);
}

#[test]
fn role_tags_form_a_closed_set() {
    assert_eq!(Role::from_tag("student"), Some(Role::Student));
    assert_eq!(Role::from_tag("teacher"), Some(Role::Teacher));
    assert_eq!(Role::from_tag("parent"), Some(Role::Parent));
    assert_eq!(Role::from_tag("admin"), None);
    assert_eq!(Role::from_tag(""), None);
    assert_eq!(Role::Student.tag(), "student");
}
