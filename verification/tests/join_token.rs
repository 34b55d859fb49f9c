use gosh_common::join_token::{frame_payload, JoinToken, JoinTokenError};
use serde_json::Value;

fn opt(v: &Option<String>) -> Value {
    match v {
        Some(s) => Value::String(s.clone()),
        None => Value::Null,
    }
}

fn to_json(t: &JoinToken) -> Vec<u8> {
    let mut m = serde_json::Map::new();
    m.insert("url".to_string(), Value::String(t.url.clone()));
    m.insert("transport_token".to_string(), opt(&t.transport_token));
    m.insert("principal_id".to_string(), opt(&t.principal_id));
    m.insert("principal_token".to_string(), opt(&t.principal_token));
    m.insert("key".to_string(), opt(&t.key));
    m.insert("swarm_id".to_string(), opt(&t.swarm_id));
    m.insert("fingerprint".to_string(), opt(&t.fingerprint));
    m.insert("ca".to_string(), opt(&t.ca));
    serde_json::to_vec(&Value::Object(m)).unwrap()
}

fn field(v: &Value, name: &str) -> Option<String> {
    v.get(name).and_then(|x| x.as_str()).map(|s| s.to_string())
}

fn from_json(bytes: &[u8]) -> JoinToken {
    let v: Value = serde_json::from_slice(bytes).unwrap();
    JoinToken {
        url: field(&v, "url").unwrap(),
        transport_token: field(&v, "transport_token"),
        principal_id: field(&v, "principal_id"),
        principal_token: field(&v, "principal_token"),
        key: field(&v, "key"),
        swarm_id: field(&v, "swarm_id"),
        fingerprint: field(&v, "fingerprint"),
        ca: field(&v, "ca"),
    }
}

fn token(url: &str, transport: Option<&str>, principal: Option<&str>) -> JoinToken {
    JoinToken {
        url: url.to_string(),
        transport_token: transport.map(|s| s.to_string()),
        principal_id: None,
        principal_token: principal.map(|s| s.to_string()),
        key: None,
        swarm_id: None,
        fingerprint: None,
        ca: None,
    }
}

#[test]
fn join_token_roundtrip_preserves_runtime_fields() {
    let token = JoinToken {
        url: "http://memory.local".to_string(),
        transport_token: Some("server-token".to_string()),
        principal_id: Some("agent:worker".to_string()),
        principal_token: Some("agent-token".to_string()),
        key: Some("project-key".to_string()),
        swarm_id: Some("team-alpha".to_string()),
        fingerprint: None,
        ca: Some("-----BEGIN CERTIFICATE-----\nfixture\n-----END CERTIFICATE-----".to_string()),
    };

    let encoded = token.encode(&to_json(&token)).unwrap();
    let decoded = from_json(&JoinToken::decode_payload(&encoded).unwrap());
    decoded.validate().unwrap();

    assert_eq!(decoded, token);
}

#[test]
fn frame_is_prefix_and_unpadded_url_safe_base64() {
    assert_eq!(frame_payload(b"{}"), "gosh_join_e30");
    assert_eq!(frame_payload(&[0xfb, 0xff]), "gosh_join_-_8");
    assert_eq!(JoinToken::decode_payload("gosh_join_-_8"), Ok(vec![0xfb, 0xff]));
    assert_eq!(JoinToken::decode_payload("gosh_join_"), Ok(vec![]));
}

#[test]
fn decode_payload_errors() {
    assert_eq!(JoinToken::decode_payload("join_e30"), Err(JoinTokenError::MissingPrefix));
    assert_eq!(JoinToken::decode_payload(" gosh_join_e30"), Err(JoinTokenError::MissingPrefix));
    assert_eq!(JoinToken::decode_payload("gosh_join_e30="), Err(JoinTokenError::InvalidBase64));
    assert_eq!(JoinToken::decode_payload("gosh_join_+/8"), Err(JoinTokenError::InvalidBase64));
}

#[test]
fn legacy_alias_payload_is_framed_bytes() {
    let raw = br#"{"url":"http://memory.local","principal_auth_token":"agent-token"}"#;
    let framed = frame_payload(raw);
    assert_eq!(JoinToken::decode_payload(&framed).unwrap(), raw.to_vec());
}

#[test]
fn validate_checks_url_and_credentials() {
    assert_eq!(token("http://m", Some("t"), None).validate(), Ok(()));
    assert_eq!(token("https://m", None, Some("p")).validate(), Ok(()));
    assert_eq!(token("  \t", Some("t"), None).validate(), Err(JoinTokenError::EmptyUrl));
    assert_eq!(token("ws://m", Some("t"), None).validate(), Err(JoinTokenError::UnsupportedScheme));
    assert_eq!(token(" http://m", Some("t"), None).validate(), Err(JoinTokenError::UnsupportedScheme));
    assert_eq!(
        token("http://m", Some(""), Some("")).validate(),
        Err(JoinTokenError::MissingCredential)
    );
    assert_eq!(token("http://m", None, None).validate(), Err(JoinTokenError::MissingCredential));
}

#[test]
fn encode_refuses_invalid_token() {
    let t = token("http://m", None, None);
    assert_eq!(t.encode(b"{}"), Err(JoinTokenError::MissingCredential));
}

#[test]
fn frame_uses_only_url_safe_symbols() {
    let bytes: Vec<u8> = (0u8..=255).collect();
    let framed = frame_payload(&bytes);
    assert!(framed.starts_with("gosh_join_"));
    assert!(framed[10..]
        .chars()
        .all(|c| c.is_ascii_alphanumeric() || c == '-' || c == '_'));
    assert_eq!(JoinToken::decode_payload(&framed), Ok(bytes));
}
