use gosh_common::binding::{BindingError, BindingField, RuntimeBinding};
use gosh_common::registry::RuntimeBindingRegistry;

fn binding(memory_url: &str, key: &str, swarm_id: &str) -> RuntimeBinding {
    RuntimeBinding {
        memory_url: memory_url.to_string(),
        key: key.to_string(),
        swarm_id: swarm_id.to_string(),
        principal_id: "agent:researcher".to_string(),
        principal_token: "principal-token".to_string(),
        transport_token: None,
        tls_ca: None,
        tls_fingerprint: None,
    }
}

#[test]
fn registry_uses_exact_memory_key_swarm_identity() {
    let mut registry = RuntimeBindingRegistry::default();
    registry
        .add(binding("http://mem.local/mcp/", "project", "swarm-a"))
        .unwrap();
    registry
        .add(binding("http://other.local", "project", "swarm-a"))
        .unwrap();

    let exact = registry
        .find_for_request(
            Some("http://mem.local"),
            "http://mem.local",
            "project",
            "swarm-a",
        )
        .expect("exact binding");
    assert_eq!(exact.memory_url, "http://mem.local");

    assert!(
        registry
            .find_for_request(None, "http://missing.local", "project", "swarm-a")
            .is_none(),
        "ambiguous key/swarm without memory_url must not pick arbitrarily"
    );
}

#[test]
fn registry_removes_exact_binding_identity() {
    let mut registry = RuntimeBindingRegistry::default();
    registry
        .add(binding("http://mem.local", "project", "swarm-a"))
        .unwrap();
    registry
        .add(binding("http://mem.local", "other", "swarm-a"))
        .unwrap();

    let removed = registry
        .remove_exact("http://mem.local/mcp", "project", "swarm-a")
        .unwrap();

    assert!(removed.is_some());
    assert!(registry
        .get_exact("http://mem.local", "project", "swarm-a")
        .is_none());
    assert!(registry
        .get_exact("http://mem.local", "other", "swarm-a")
        .is_some());
}

#[test]
fn add_then_get_exact_returns_normalized_binding() {
    let mut registry = RuntimeBindingRegistry::new();
    let replaced = registry
        .add(binding("  http://mem.local/mcp/ ", " project ", "swarm-a"))
        .unwrap();
    assert!(!replaced);
    let found = registry
        .get_exact("  http://mem.local/mcp/ ", " project ", "swarm-a")
        .expect("stored binding");
    assert_eq!(found.memory_url, "http://mem.local");
    assert_eq!(found.key, "project");
    assert_eq!(found.swarm_id, "swarm-a");
}

#[test]
fn add_twice_reports_replacement_and_keeps_one() {
    let mut registry = RuntimeBindingRegistry::new();
    assert_eq!(registry.add(binding("http://mem.local", "project", "a")), Ok(false));
    assert_eq!(registry.add(binding("http://mem.local/", "project", "a")), Ok(true));
    assert_eq!(registry.list().len(), 1);
}

#[test]
fn add_refuses_invalid_binding_and_keeps_registry() {
    let mut registry = RuntimeBindingRegistry::new();
    registry.add(binding("http://mem.local", "project", "a")).unwrap();
    assert_eq!(
        registry.add(binding("ftp://mem.local", "project", "b")),
        Err(BindingError::UnsupportedScheme)
    );
    assert_eq!(
        registry.add(binding("http://mem.local", "  ", "b")),
        Err(BindingError::Empty(BindingField::Key))
    );
    assert_eq!(registry.list().len(), 1);
}

#[test]
fn get_exact_with_invalid_identity_is_none() {
    let mut registry = RuntimeBindingRegistry::new();
    registry.add(binding("http://mem.local", "project", "a")).unwrap();
    assert!(registry.get_exact("mem.local", "project", "a").is_none());
    assert!(registry.get_exact("http://mem.local", "", "a").is_none());
}

#[test]
fn remove_exact_refuses_invalid_identity() {
    let mut registry = RuntimeBindingRegistry::new();
    registry.add(binding("http://mem.local", "project", "a")).unwrap();
    assert_eq!(
        registry.remove_exact("http://mem.local", "project", " "),
        Err(BindingError::Empty(BindingField::SwarmId))
    );
    assert_eq!(registry.remove_exact("http://mem.local", "project", "b"), Ok(None));
    assert_eq!(registry.list().len(), 1);
}

#[test]
fn find_for_request_falls_back_to_default_then_unique_match() {
    let mut registry = RuntimeBindingRegistry::new();
    registry.add(binding("http://a.local", "project", "s")).unwrap();
    registry.add(binding("http://b.local", "other", "s")).unwrap();

    let by_default = registry
        .find_for_request(None, "http://b.local/mcp", "other", "s")
        .expect("default url binding");
    assert_eq!(by_default.memory_url, "http://b.local");

    let unique = registry
        .find_for_request(Some("   "), "http://missing.local", "project", "s")
        .expect("unique binding");
    assert_eq!(unique.memory_url, "http://a.local");

    assert!(registry
        .find_for_request(Some("http://missing.local"), "http://a.local", "project", "s")
        .is_none());
    assert!(registry
        .find_for_request(None, "http://missing.local", "project", "other-swarm")
        .is_none());
}

#[test]
fn list_orders_by_memory_url_key_swarm() {
    let mut registry = RuntimeBindingRegistry::new();
    registry.add(binding("http://b.local", "k", "s")).unwrap();
    registry.add(binding("http://a.local", "z", "s")).unwrap();
    registry.add(binding("http://a.local", "k", "t")).unwrap();
    registry.add(binding("http://a.local", "k", "s")).unwrap();
    let listed: Vec<(String, String, String)> = registry
        .list()
        .into_iter()
        .map(|b| (b.memory_url, b.key, b.swarm_id))
        .collect();
    let expected: Vec<(String, String, String)> = vec![
        ("http://a.local", "k", "s"),
        ("http://a.local", "k", "t"),
        ("http://a.local", "z", "s"),
        ("http://b.local", "k", "s"),
    ]
    .into_iter()
    .map(|(u, k, s)| (u.to_string(), k.to_string(), s.to_string()))
    .collect();
    assert_eq!(listed, expected);
}

#[test]
fn load_bindings_counts_and_stops_at_first_refusal() {
    let mut registry = RuntimeBindingRegistry::new();
    assert_eq!(
        registry.load_bindings(vec![
            binding("http://a.local", "k", "s"),
            binding("http://b.local", "k", "s"),
        ]),
        Ok(2)
    );
    assert_eq!(registry.list().len(), 2);

    let mut partial = RuntimeBindingRegistry::new();
    assert_eq!(
        partial.load_bindings(vec![
            binding("http://a.local", "k", "s"),
            binding("", "k", "s"),
            binding("http://c.local", "k", "s"),
        ]),
        Err(BindingError::Empty(BindingField::MemoryUrl))
    );
    assert_eq!(partial.list().len(), 1);
    assert!(partial.get_exact("http://c.local", "k", "s").is_none());
}

#[test]
fn loading_listed_bindings_rebuilds_registry() {
    let mut registry = RuntimeBindingRegistry::new();
    registry.add(binding("http://b.local/mcp", "k", "s")).unwrap();
    registry.add(binding("http://a.local", "k", "t")).unwrap();
    registry.add(binding("https://a.local", "z", "s")).unwrap();
    let listed = registry.list();
    assert_eq!(listed.len(), 3);
    let mut fresh = RuntimeBindingRegistry::default();
    assert_eq!(fresh.load_bindings(listed.clone()), Ok(3));
    assert_eq!(fresh.list(), listed);
}

#[test]
fn found_binding_has_trimmed_key_and_swarm() {
    let mut registry = RuntimeBindingRegistry::new();
    registry.add(binding("http://a.local", " project ", "swarm-a ")).unwrap();
    let found = registry
        .find_for_request(None, " http://a.local/ ", " project", "swarm-a")
        .expect("exact binding");
    assert_eq!(found.key, "project");
    assert_eq!(found.swarm_id, "swarm-a");
    assert!(registry
        .find_for_request(None, "http://missing.local", " project", "swarm-a")
        .is_none());
    assert!(registry
        .find_for_request(None, "http://missing.local", "project", "swarm-a")
        .is_some());
}
