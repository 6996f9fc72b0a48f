use reqpipe::b64::{b64_decode, b64_encode};
use reqpipe::claims::{Claims, User};
use reqpipe::token::{AuthError, TokenCodec};

fn chars(s: &str) -> Vec<char> {
    s.chars().collect()
}

#[test]
fn encode_decode_roundtrip() {
    let codec = TokenCodec::new("secret-one", 3600);
    let user = User { uid: 42, name: String::from("alice") };
    let claims = Claims::new(user, 1_700_003_600);
    let token = codec.encode(&claims);
    let decoded = codec.decode(token.as_str(), 1_700_000_000).unwrap();
    assert_eq!(decoded.exp, 1_700_003_600);
    assert_eq!(decoded.user.uid, 42);
    assert_eq!(decoded.user.name, "alice");
}

#[test]
fn encode_decode_roundtrip_unicode_name() {
    let codec = TokenCodec::new("secret-one", 3600);
    let name = "a\"b\\c\nd é 汉 😀";
    let user = User { uid: 7, name: String::from(name) };
    let claims = Claims::new(user, 2_000_000_000);
    let token = codec.encode(&claims);
    let decoded = codec.decode(token.as_str(), 1_999_999_999).unwrap();
    assert_eq!(decoded.user.name, name);
    assert_eq!(decoded.user.uid, 7);
}

#[test]
fn encode_is_deterministic() {
    let codec = TokenCodec::new("secret-one", 3600);
    let a = codec.encode(&Claims::new(User { uid: 1, name: String::from("x") }, 100));
    let b = codec.encode(&Claims::new(User { uid: 1, name: String::from("x") }, 100));
    assert_eq!(a, b);
}

#[test]
fn expired_token_rejected() {
    let codec = TokenCodec::new("secret-one", 3600);
    let claims = Claims::new(User { uid: 1, name: String::from("a") }, 100);
    let token = codec.encode(&claims);
    // At the expiration instant itself the token is no longer valid.
    let r = codec.decode(token.as_str(), 100);
    assert_eq!(r.unwrap_err(), AuthError::Expired);
    // One second before, it still is.
    assert!(codec.decode(token.as_str(), 99).is_ok());
}

#[test]
fn wrong_secret_rejected() {
    let codec1 = TokenCodec::new("secret-one", 3600);
    let codec2 = TokenCodec::new("secret-two", 3600);
    let claims = Claims::new(User { uid: 1, name: String::from("a") }, 2_000_000_000);
    let token = codec1.encode(&claims);
    let r = codec2.decode(token.as_str(), 1_000_000_000);
    assert_eq!(r.unwrap_err(), AuthError::BadSignature);
}

#[test]
fn malformed_tokens_rejected() {
    let codec = TokenCodec::new("secret-one", 3600);
    assert_eq!(codec.decode("", 0).unwrap_err(), AuthError::Malformed);
    assert_eq!(codec.decode("no dots here", 0).unwrap_err(), AuthError::Malformed);
    assert_eq!(codec.decode("a.b.c", 0).unwrap_err(), AuthError::Malformed);
}

#[test]
fn tampered_signature_rejected() {
    let codec = TokenCodec::new("secret-one", 3600);
    let claims = Claims::new(User { uid: 1, name: String::from("a") }, 2_000_000_000);
    let token = codec.encode(&claims);
    let mut t: Vec<char> = token.chars().collect();
    let last = t.len() - 1;
    t[last] = if t[last] == 'A' { 'B' } else { 'A' };
    let tampered: String = t.into_iter().collect();
    assert!(codec.decode(tampered.as_str(), 1_000_000_000).is_err());
}

#[test]
fn tampered_payload_rejected() {
    let codec = TokenCodec::new("secret-one", 3600);
    let claims = Claims::new(User { uid: 1, name: String::from("a") }, 2_000_000_000);
    let token = codec.encode(&claims);
    let parts: Vec<&str> = token.split('.').collect();
    let other = codec.encode(&Claims::new(User { uid: 2, name: String::from("a") }, 2_000_000_000));
    let other_parts: Vec<&str> = other.split('.').collect();
    // The payload of one token with the signature of another.
    let forged = format!("{}.{}.{}", parts[0], other_parts[1], parts[2]);
    assert_eq!(codec.decode(forged.as_str(), 1_000_000_000).unwrap_err(), AuthError::BadSignature);
}

#[test]
fn token_accepted_by_jsonwebtoken() {
    let codec = TokenCodec::new("secret-one", 3600);
    let user = User { uid: 42, name: String::from("alice") };
    let claims = Claims::new(user, 33_000_000_000);
    let token = codec.encode(&claims);
    let key = jsonwebtoken::DecodingKey::from_secret(b"secret-one");
    let validation = jsonwebtoken::Validation::new(jsonwebtoken::Algorithm::HS256);
    let data =
        jsonwebtoken::decode::<serde_json::Value>(token.as_str(), &key, &validation).unwrap();
    assert_eq!(data.claims["exp"], serde_json::Value::from(33_000_000_000u64));
    assert_eq!(data.claims["user"]["uid"], serde_json::Value::from(42u64));
    assert_eq!(data.claims["user"]["name"], serde_json::Value::from("alice"));
}

#[test]
fn default_codec_configuration() {
    let codec: TokenCodec = Default::default();
    assert_eq!(codec.secret, b"my_key".to_vec());
    assert_eq!(codec.duration, 60 * 60 * 24 * 15);
}

#[test]
fn expiration_adds_duration() {
    let codec = TokenCodec::new("s", 86400);
    assert_eq!(codec.expiration(1_000_000), 1_086_400);
}

#[test]
fn base64url_encodes_canonically() {
    assert_eq!(b64_encode(&vec![77u8, 97, 110]), chars("TWFu"));
    assert_eq!(b64_encode(&vec![77u8, 97]), chars("TWE"));
    assert_eq!(b64_encode(&vec![77u8]), chars("TQ"));
    assert_eq!(b64_encode(&vec![]), chars(""));
    assert_eq!(b64_encode(&vec![0xffu8, 0xee]), chars("_-4"));
}

#[test]
fn base64url_decodes_what_it_encodes() {
    let data: Vec<u8> = (0u8..=255).collect();
    let enc = b64_encode(&data);
    assert_eq!(b64_decode(&enc), Some(data));
}

#[test]
fn base64url_rejects_bad_input() {
    // A lone trailing symbol can encode nothing.
    assert_eq!(b64_decode(&chars("A")), None);
    // '=' padding is not part of the unpadded alphabet.
    assert_eq!(b64_decode(&chars("TWE=")), None);
    // Nonzero padding bits: "TWE" is an encoder output, "TWF" never is.
    assert!(b64_decode(&chars("TWE")).is_some());
    assert_eq!(b64_decode(&chars("TWF")), None);
}

#[test]
fn claims_new_carries_fields() {
    let c = Claims::new(User { uid: 9, name: String::from("bob") }, 123);
    assert_eq!(c.exp, 123);
    assert_eq!(c.user.uid, 9);
    assert_eq!(c.user.name, "bob");
}
