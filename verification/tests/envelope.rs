use aes_gcm::aead::{Aead, AeadCore, KeyInit, OsRng};
use aes_gcm::Aes256Gcm;
use base64::Engine;
use gosh_common::envelope::{
    decrypt_agent_secret, open_envelope, parse_envelope, EnvelopeError, SecretKey,
};
use hkdf::Hkdf;
use sha2::Sha256;
use x25519_dalek::{PublicKey, StaticSecret};

const MAGIC_V1: &[u8; 4] = b"GMS1";
const MAGIC_V2: &[u8; 4] = b"GMS2";
const INFO_V1: &[u8] = b"gosh.memory/agent-secrets/v1";
const INFO_V2: &[u8] = b"gosh.memory/namespace-secret-delivery/v1";

fn seal_bytes(agent_public: &PublicKey, plaintext: &[u8], magic: &[u8; 4], info: &[u8]) -> Vec<u8> {
    let ephemeral_secret = StaticSecret::random_from_rng(OsRng);
    let ephemeral_public = PublicKey::from(&ephemeral_secret);
    let shared = ephemeral_secret.diffie_hellman(agent_public);
    let hkdf = Hkdf::<Sha256>::new(None, shared.as_bytes());
    let mut aes_key = [0u8; 32];
    hkdf.expand(info, &mut aes_key).unwrap();

    let cipher = Aes256Gcm::new_from_slice(&aes_key).unwrap();
    let nonce = Aes256Gcm::generate_nonce(OsRng);
    let payload = aes_gcm::aead::Payload {
        msg: plaintext,
        aad: info,
    };
    let ciphertext = cipher.encrypt(&nonce, payload).unwrap();

    let mut envelope = Vec::with_capacity(4 + 32 + 12 + ciphertext.len());
    envelope.extend_from_slice(magic);
    envelope.extend_from_slice(ephemeral_public.as_bytes());
    envelope.extend_from_slice(&nonce);
    envelope.extend_from_slice(&ciphertext);
    envelope
}

fn encrypt_for_test_with(agent_public: &PublicKey, plaintext: &str, magic: &[u8; 4], info: &[u8]) -> String {
    base64::engine::general_purpose::STANDARD.encode(seal_bytes(agent_public, plaintext.as_bytes(), magic, info))
}

fn encrypt_for_test(agent_public: &PublicKey, plaintext: &str) -> String {
    encrypt_for_test_with(agent_public, plaintext, MAGIC_V1, INFO_V1)
}

fn key_of(secret: &StaticSecret) -> SecretKey {
    SecretKey { bytes: secret.to_bytes() }
}

#[test]
fn roundtrip_encrypt_decrypt() {
    let private = StaticSecret::random_from_rng(OsRng);
    let public = PublicKey::from(&private);
    let ciphertext_b64 = encrypt_for_test(&public, "agent-secret-roundtrip-fixture");

    let decrypted = decrypt_agent_secret(&key_of(&private), &ciphertext_b64).unwrap();

    assert_eq!(decrypted, "agent-secret-roundtrip-fixture");
}

#[test]
fn decrypts_namespace_secret_delivery_v2_envelope() {
    let private = StaticSecret::random_from_rng(OsRng);
    let public = PublicKey::from(&private);
    let ciphertext = encrypt_for_test_with(&public, "runtime-secret", MAGIC_V2, INFO_V2);

    let decrypted = decrypt_agent_secret(&key_of(&private), &ciphertext).unwrap();

    assert_eq!(decrypted, "runtime-secret");
}

#[test]
fn wrong_key_fails() {
    let private1 = StaticSecret::random_from_rng(OsRng);
    let public1 = PublicKey::from(&private1);
    let private2 = StaticSecret::random_from_rng(OsRng);
    let ciphertext_b64 = encrypt_for_test(&public1, "secret");

    let result = decrypt_agent_secret(&key_of(&private2), &ciphertext_b64);

    assert!(result.is_err());
}

#[test]
fn wrong_key_is_a_decrypt_error() {
    let private1 = StaticSecret::random_from_rng(OsRng);
    let private2 = StaticSecret::random_from_rng(OsRng);
    let ciphertext_b64 = encrypt_for_test(&PublicKey::from(&private1), "secret");
    assert_eq!(
        decrypt_agent_secret(&key_of(&private2), &ciphertext_b64),
        Err(EnvelopeError::Decrypt)
    );
}

#[test]
fn magic_and_info_must_agree() {
    let private = StaticSecret::random_from_rng(OsRng);
    let public = PublicKey::from(&private);
    let mixed = encrypt_for_test_with(&public, "secret", MAGIC_V2, INFO_V1);
    assert_eq!(
        decrypt_agent_secret(&key_of(&private), &mixed),
        Err(EnvelopeError::Decrypt)
    );
}

#[test]
fn tampered_ciphertext_fails() {
    let private = StaticSecret::random_from_rng(OsRng);
    let mut envelope = seal_bytes(&PublicKey::from(&private), b"secret", MAGIC_V1, INFO_V1);
    let last = envelope.len() - 1;
    envelope[last] ^= 1;
    assert_eq!(open_envelope(&key_of(&private), &envelope), Err(EnvelopeError::Decrypt));
}

#[test]
fn non_utf8_plaintext_fails() {
    let private = StaticSecret::random_from_rng(OsRng);
    let envelope = seal_bytes(&PublicKey::from(&private), &[0xff, 0xfe], MAGIC_V1, INFO_V1);
    assert_eq!(open_envelope(&key_of(&private), &envelope), Err(EnvelopeError::InvalidUtf8));
}

#[test]
fn envelope_shape_errors() {
    let private = StaticSecret::random_from_rng(OsRng);
    let key = key_of(&private);
    assert_eq!(decrypt_agent_secret(&key, "not base64!"), Err(EnvelopeError::InvalidBase64));
    let short = base64::engine::general_purpose::STANDARD.encode([0u8; 10]);
    assert_eq!(decrypt_agent_secret(&key, &short), Err(EnvelopeError::TooShort(10)));
    let mut bad = vec![0u8; 64];
    bad[..4].copy_from_slice(b"GMS3");
    assert_eq!(parse_envelope(&bad).err(), Some(EnvelopeError::InvalidMagic));
}

#[test]
fn parse_envelope_splits_parts() {
    let mut envelope = Vec::new();
    envelope.extend_from_slice(MAGIC_V2);
    envelope.extend((0u8..32).map(|i| i + 1));
    envelope.extend([7u8; 12]);
    envelope.extend([9u8; 20]);
    let parts = parse_envelope(&envelope).unwrap();
    assert_eq!(parts.info, INFO_V2.to_vec());
    assert_eq!(parts.ephemeral_public[0], 1);
    assert_eq!(parts.ephemeral_public[31], 32);
    assert_eq!(parts.nonce, [7u8; 12]);
    assert_eq!(parts.ciphertext, vec![9u8; 20]);
}

#[test]
fn secret_key_from_bytes_requires_32_bytes() {
    let bytes = [5u8; 32];
    let key = SecretKey::from_bytes(&bytes).unwrap();
    assert_eq!(key.bytes, bytes);
    assert_eq!(SecretKey::from_bytes(&[1u8; 31]).err(), Some(EnvelopeError::KeyLength(31)));
    let private = StaticSecret::random_from_rng(OsRng);
    assert_eq!(key_of(&private).public_key(), *PublicKey::from(&private).as_bytes());
}
