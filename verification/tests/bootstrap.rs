use base64::Engine;
use gosh_common::binding::RuntimeBinding;
use gosh_common::bootstrap::{
    build_bootstrap_bundle, generate_agent_keypair, keypair_from_secret, RuntimeBindingEnvelope,
};
use gosh_common::join_token::{JoinToken, JoinTokenError};
use serde_json::Value;

fn opt(v: &Option<String>) -> Value {
    match v {
        Some(s) => Value::String(s.clone()),
        None => Value::Null,
    }
}

fn to_json(t: &JoinToken) -> Vec<u8> {
    let mut m = serde_json::Map::new();
    m.insert("url".to_string(), Value::String(t.url.clone()));
    m.insert("transport_token".to_string(), opt(&t.transport_token));
    m.insert("principal_id".to_string(), opt(&t.principal_id));
    m.insert("principal_token".to_string(), opt(&t.principal_token));
    m.insert("key".to_string(), opt(&t.key));
    m.insert("swarm_id".to_string(), opt(&t.swarm_id));
    m.insert("fingerprint".to_string(), opt(&t.fingerprint));
    m.insert("ca".to_string(), opt(&t.ca));
    serde_json::to_vec(&Value::Object(m)).unwrap()
}

fn research_binding() -> RuntimeBinding {
    RuntimeBinding {
        memory_url: "http://memory.local".to_string(),
        key: "project".to_string(),
        swarm_id: "research".to_string(),
        principal_id: "agent:researcher".to_string(),
        principal_token: "principal-token".to_string(),
        transport_token: Some("server-token".to_string()),
        tls_ca: None,
        tls_fingerprint: None,
    }
}

#[test]
fn bootstrap_bundle_uses_runtime_binding_schema() {
    let binding = research_binding().normalize().unwrap();

    let json = to_json(&binding.to_join_token());
    let bundle = build_bootstrap_bundle(&binding, "secret-key".to_string(), &json).unwrap();
    let payload = JoinToken::decode_payload(&bundle.join_token).unwrap();
    let decoded: Value = serde_json::from_slice(&payload).unwrap();

    assert_eq!(decoded["url"], "http://memory.local");
    assert_eq!(decoded["key"].as_str(), Some("project"));
    assert_eq!(decoded["swarm_id"].as_str(), Some("research"));
    assert_eq!(bundle.secret_key, "secret-key");
}

#[test]
fn bootstrap_bundle_refuses_binding_without_valid_token() {
    let mut binding = research_binding();
    binding.memory_url = "memory.local".to_string();
    assert_eq!(
        build_bootstrap_bundle(&binding, "k".to_string(), b"{}"),
        Err(JoinTokenError::UnsupportedScheme)
    );
}

#[test]
fn generated_agent_keypair_is_base64_x25519_material() {
    let keypair = generate_agent_keypair();
    let secret = base64::engine::general_purpose::STANDARD
        .decode(keypair.secret_key_b64)
        .unwrap();
    let public = base64::engine::general_purpose::STANDARD
        .decode(keypair.public_key_b64)
        .unwrap();
    assert_eq!(secret.len(), 32);
    assert_eq!(public.len(), 32);
}

fn hex32(s: &str) -> [u8; 32] {
    let mut out = [0u8; 32];
    for i in 0..32 {
        out[i] = u8::from_str_radix(&s[2 * i..2 * i + 2], 16).unwrap();
    }
    out
}

#[test]
fn keypair_from_secret_matches_rfc7748_vector() {
    let secret = hex32("77076d0a7318a57d3c16c17251b26645df4c2f87ebc0992ab177fba51db92c2a");
    let public = hex32("8520f0098930a754748b7ddcb43ef75a0dbf3a0d26381af4eba4a98eaa9b4e6a");
    let keypair = keypair_from_secret(&secret);
    assert_eq!(
        keypair.secret_key_b64,
        base64::engine::general_purpose::STANDARD.encode(secret)
    );
    assert_eq!(
        keypair.public_key_b64,
        base64::engine::general_purpose::STANDARD.encode(public)
    );
    assert_eq!(keypair.secret_key_b64, "dwdtCnMYpX08FsFyUbJmRd9ML4frwJkqsXf7pR25LCo=");
}

#[test]
fn runtime_binding_envelope_has_schema_one() {
    let envelope = RuntimeBindingEnvelope::new(research_binding());
    assert_eq!(envelope.schema_version, 1);
    assert_eq!(envelope.kind, "runtime_binding");
    assert_eq!(envelope.binding, research_binding());
}
