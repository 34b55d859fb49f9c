use gosh_common::binding::{
    normalize_memory_url, BindingError, BindingField, RuntimeBinding, RuntimeBindingKey,
};

fn binding(memory_url: &str) -> RuntimeBinding {
    RuntimeBinding {
        memory_url: memory_url.to_string(),
        key: " project ".to_string(),
        swarm_id: "swarm-a\t".to_string(),
        principal_id: "agent:researcher".to_string(),
        principal_token: " principal-token ".to_string(),
        transport_token: Some("   ".to_string()),
        tls_ca: Some(" ca ".to_string()),
        tls_fingerprint: None,
    }
}

#[test]
fn normalize_memory_url_strips_slashes_and_mcp() {
    assert_eq!(
        normalize_memory_url("  http://mem.local//mcp//  ").unwrap(),
        "http://mem.local"
    );
    assert_eq!(normalize_memory_url("https://mem.local/").unwrap(), "https://mem.local");
    assert_eq!(normalize_memory_url("http://x/mcp/mcp").unwrap(), "http://x/mcp");
    assert_eq!(
        normalize_memory_url("\u{3000}http://a/api\u{a0}").unwrap(),
        "http://a/api"
    );
}

#[test]
fn normalize_memory_url_errors() {
    assert_eq!(
        normalize_memory_url(" \n "),
        Err(BindingError::Empty(BindingField::MemoryUrl))
    );
    assert_eq!(normalize_memory_url("ftp://mem.local"), Err(BindingError::UnsupportedScheme));
    assert_eq!(normalize_memory_url("http:/"), Err(BindingError::UnsupportedScheme));
}

#[test]
fn normalize_trims_fields_and_drops_blank_options() {
    let n = binding("http://mem.local/mcp").normalize().unwrap();
    assert_eq!(n.memory_url, "http://mem.local");
    assert_eq!(n.key, "project");
    assert_eq!(n.swarm_id, "swarm-a");
    assert_eq!(n.principal_token, "principal-token");
    assert_eq!(n.transport_token, None);
    assert_eq!(n.tls_ca.as_deref(), Some("ca"));
}

#[test]
fn normalize_refuses_blank_fields_and_fingerprints() {
    let mut b = binding("http://mem.local");
    b.principal_id = " ".to_string();
    assert_eq!(b.normalize(), Err(BindingError::Empty(BindingField::PrincipalId)));

    let mut b = binding("http://mem.local");
    b.principal_token = String::new();
    assert_eq!(b.normalize(), Err(BindingError::Empty(BindingField::PrincipalToken)));

    let mut b = binding("http://mem.local");
    b.tls_fingerprint = Some("ab:cd".to_string());
    assert_eq!(b.normalize(), Err(BindingError::FingerprintUnsupported));

    let mut b = binding("http://mem.local");
    b.tls_fingerprint = Some("  ".to_string());
    assert!(b.normalize().is_ok());
}

#[test]
fn binding_key_and_identity() {
    let key = RuntimeBindingKey::new("http://mem.local/", " k ", "s").unwrap();
    assert_eq!(key.memory_url, "http://mem.local");
    assert_eq!(key.key, "k");
    assert_eq!(
        RuntimeBindingKey::new("http://mem.local", "k", ""),
        Err(BindingError::Empty(BindingField::SwarmId))
    );
    let identity = binding("http://mem.local/mcp/").identity().unwrap();
    assert_eq!(identity, RuntimeBindingKey::new("http://mem.local", "project", "swarm-a").unwrap());
}

#[test]
fn to_join_token_carries_binding_fields_and_validates() {
    let n = binding("http://mem.local").normalize().unwrap();
    let token = n.to_join_token();
    assert_eq!(token.url, "http://mem.local");
    assert_eq!(token.principal_id.as_deref(), Some("agent:researcher"));
    assert_eq!(token.principal_token.as_deref(), Some("principal-token"));
    assert_eq!(token.key.as_deref(), Some("project"));
    assert_eq!(token.swarm_id.as_deref(), Some("swarm-a"));
    assert_eq!(token.transport_token, None);
    assert_eq!(token.ca.as_deref(), Some("ca"));
    assert_eq!(token.fingerprint, None);
    assert_eq!(token.validate(), Ok(()));
}
